use vstd::prelude::*;
use crate::order::IdKeyed;

pub mod podman;

verus! {

/// One fully merged container record: the static metadata of a container
/// joined with the usage sample whose identifier is a prefix of its
/// canonical `id`. The percentage fields stay raw strings here; they are
/// parsed only when a record is turned into an API `Container`.
#[derive(Debug)]
pub struct ContainerInfo {
    pub image: String,
    pub id: String,
    pub names: Vec<String>,
    pub started_at: u64,
    pub state: String,
    pub cpu_percent: String,
    pub mem_percent: String,
    pub mem_usage: String,
}

impl IdKeyed for ContainerInfo {
    open spec fn id_key(&self) -> Seq<char> {
        self.id@
    }

    fn id_str(&self) -> (r: &str) {
        self.id.as_str()
    }
}

/// A source of merged snapshots and of control over single containers.
/// Implementations fetch from the real runtime (or stand in for it in
/// tests); nothing is promised of their outcomes, so every caller states
/// what holds of each possible result.
pub trait ContainerServiceTrait {
    fn get_running_containers(&self) -> Result<Vec<ContainerInfo>, String>;

    fn is_container_running(&self, id: &str) -> Result<bool, String>;

    fn stop_container(&self, id: &str) -> Result<(), String>;
}

} // verus!
