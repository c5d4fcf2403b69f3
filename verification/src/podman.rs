use vstd::prelude::*;
use crate::order::IdKeyed;

verus! {

/// Static description of one running container, as the runtime reports it.
/// `names` is expected to be non-empty; its first entry is the display
/// name. `id` is the canonical identifier, unique among running containers
/// within one fetch.
#[derive(Debug)]
pub struct ContainerInfo {
    pub image: String,
    pub id: String,
    pub names: Vec<String>,
    pub started_at: u64,
    pub state: String,
}

/// One resource-usage sample. `id` may be a truncated prefix of the
/// canonical identifier; the percentage fields are raw strings such as
/// `"0.2%"`.
#[derive(Debug)]
pub struct ContainerStats {
    pub id: String,
    pub cpu_percent: String,
    pub mem_percent: String,
    pub mem_usage: String,
}

impl IdKeyed for ContainerInfo {
    open spec fn id_key(&self) -> Seq<char> {
        self.id@
    }

    fn id_str(&self) -> (r: &str) {
        self.id.as_str()
    }
}

impl IdKeyed for ContainerStats {
    open spec fn id_key(&self) -> Seq<char> {
        self.id@
    }

    fn id_str(&self) -> (r: &str) {
        self.id.as_str()
    }
}

/// The runtime client: each operation invokes the external container
/// runtime once and independently succeeds or fails. Nothing is promised
/// of the outcome; callers state what holds of every possible result.
pub trait PodmanServiceTrait {
    fn running_containers(&self) -> Result<Vec<ContainerInfo>, String>;

    fn running_containers_stats(&self) -> Result<Vec<ContainerStats>, String>;

    fn stop_container(&self, id: &str) -> Result<(), String>;
}

/// Handle for a runtime client backed by the `podman` command line tool;
/// the invocations themselves live outside this library.
pub struct PodmanService;

impl PodmanService {
    pub fn new() -> (r: PodmanService)
        ensures
            r == (PodmanService {}),
    {
        Self
    }
}

impl Default for PodmanService {
    fn default() -> (r: PodmanService)
        ensures
            r == (PodmanService {}),
    {
        PodmanService {}
    }
}

} // verus!
