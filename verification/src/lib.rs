//! Observes and controls containers managed by an external container
//! runtime. The core is the aggregation-and-live-distribution engine: it
//! merges a metadata list and a usage-stats list into one consistent,
//! identifier-ordered record per container, serves that merged view as a
//! point-in-time query, and runs the per-connection state machine of a
//! live-updating stream. The runtime client itself, and the HTTP and
//! WebSocket transport, are collaborators outside this crate.

use vstd::prelude::*;

pub mod json;
pub mod order;
pub mod percent;
pub mod podman;
pub mod services;
pub mod session;

use crate::json::json_list;
use crate::json::json_of_containers;
use crate::percent::Percent;
use crate::percent::parse_percent;
use crate::percent::parse_percent_spec;
use crate::services::ContainerInfo;
use crate::services::ContainerServiceTrait;

verus! {

/// One container as the network API reports it: canonical identifier,
/// display name, start time, the two usage ratios parsed from their raw
/// strings, and the memory-usage string passed through verbatim.
#[derive(Debug)]
pub struct Container {
    pub id: String,
    pub name: String,
    pub started_at: u64,
    pub cpu_percent: Percent,
    pub memory_percent: Percent,
    pub memory_usage: String,
}

/// The API record a merged record maps to: the first name becomes the
/// display name and the two percentage strings are parsed.
pub open spec fn container_of(v: ContainerInfo) -> Container {
    Container {
        id: v.id,
        name: v.names[0],
        started_at: v.started_at,
        cpu_percent: Percent { micros: parse_percent_spec(v.cpu_percent@) },
        memory_percent: Percent { micros: parse_percent_spec(v.mem_percent@) },
        memory_usage: v.mem_usage,
    }
}

impl Container {
    /// Maps one merged record to its API form. The record must carry at
    /// least one name: the runtime promises a non-empty name list, and a
    /// record without one is rejected before this point.
    pub fn from_info(value: ContainerInfo) -> (r: Container)
        requires
            value.names@.len() > 0,
        ensures
            r == container_of(value),
    {
        let mut info = value;
        let name = info.names.remove(0);
        let cpu_percent = parse_percent(info.cpu_percent.as_str());
        let memory_percent = parse_percent(info.mem_percent.as_str());
        let r = Container {
            id: info.id,
            name,
            started_at: info.started_at,
            cpu_percent,
            memory_percent,
            memory_usage: info.mem_usage,
        };
        proof {
            assert(r == container_of(value));
        }
        r
    }
}

/// Every record of the snapshot carries at least one display name.
pub open spec fn all_names_nonempty(s: Seq<ContainerInfo>) -> bool {
    forall|k: int| 0 <= k < s.len() ==> (#[trigger] s[k]).names@.len() > 0
}

pub fn check_names_nonempty(v: &Vec<ContainerInfo>) -> (r: bool)
    ensures
        r == all_names_nonempty(v@),
{
    let mut i: usize = 0;
    while i < v.len()
        invariant
            i <= v@.len(),
            forall|k: int| 0 <= k < i ==> (#[trigger] v@[k]).names@.len() > 0,
        decreases v@.len() - i,
    {
        if v[i].names.len() == 0 {
            return false;
        }
        i = i + 1;
    }
    true
}

/// The whole snapshot in API form, record for record.
pub open spec fn containers_of(s: Seq<ContainerInfo>) -> Seq<Container> {
    Seq::new(s.len(), |k: int| container_of(s[k]))
}

pub fn to_containers(v: Vec<ContainerInfo>) -> (r: Vec<Container>)
    requires
        all_names_nonempty(v@),
    ensures
        r@ == containers_of(v@),
{
    let ghost orig = v@;
    let mut input = v;
    let mut out: Vec<Container> = Vec::new();
    proof {
        assert(input@ =~= orig.skip(0));
    }
    while input.len() > 0
        invariant
            out@.len() <= orig.len(),
            input@ == orig.skip(out@.len() as int),
            all_names_nonempty(orig),
            forall|k: int| 0 <= k < out@.len() ==> #[trigger] out@[k] == container_of(orig[k]),
        decreases input@.len(),
    {
        let ghost k = out@.len() as int;
        proof {
            assert(input@[0] == orig[k]);
        }
        let x = input.remove(0);
        out.push(Container::from_info(x));
        proof {
            assert(input@ =~= orig.skip(out@.len() as int));
        }
    }
    proof {
        assert(out@ =~= containers_of(orig));
    }
    out
}

/// Status code and body of one HTTP reply; the transport around it lives
/// outside this library.
#[derive(Debug)]
pub struct ApiResponse {
    pub status: u16,
    pub body: Vec<u8>,
}

/// What the snapshot endpoint replies for each possible snapshot outcome:
/// a successful, well-formed snapshot is serialized with status 200; a
/// failed fetch is status 500 with an empty body, and so is a snapshot
/// carrying a record without a name.
pub fn containers_response(snapshot: Result<Vec<ContainerInfo>, String>) -> (r: ApiResponse)
    ensures
        match snapshot {
            Ok(v) => {
                if all_names_nonempty(v@) {
                    r.status == 200 && r.body@ == json_list(containers_of(v@))
                } else {
                    r.status == 500 && r.body@.len() == 0
                }
            },
            Err(_) => r.status == 500 && r.body@.len() == 0,
        },
{
    match snapshot {
        Ok(v) => {
            if check_names_nonempty(&v) {
                let cs = to_containers(v);
                let body = json_of_containers(&cs);
                ApiResponse { status: 200, body }
            } else {
                ApiResponse { status: 500, body: Vec::new() }
            }
        },
        Err(_) => ApiResponse { status: 500, body: Vec::new() },
    }
}

/// The snapshot endpoint: one fresh snapshot from the service, rendered by
/// `containers_response`. Whatever the service returned, the reply is 200
/// with the serialized snapshot or 500 with an empty body.
pub fn get_all_containers<S: ContainerServiceTrait>(svc: &S) -> (r: ApiResponse)
    ensures
        r.status == 200 || r.status == 500,
        r.status == 500 ==> r.body@.len() == 0,
{
    containers_response(svc.get_running_containers())
}

/// Whether a stop may proceed: only when the existence check came back
/// affirmative. A failed check reads as "not running".
pub fn stop_allowed(check: &Result<bool, String>) -> (r: bool)
    ensures
        r == (check matches Ok(true)),
{
    match check {
        Ok(running) => *running,
        Err(_) => false,
    }
}

/// The status the stop endpoint reports for the stop command's outcome:
/// 200 exactly when the command succeeded, otherwise 404 — a failed stop
/// is deliberately indistinguishable from an absent container.
pub fn stop_status(result: &Result<(), String>) -> (r: u16)
    ensures
        result matches Ok(_) ==> r == 200,
        result matches Err(_) ==> r == 404,
{
    match result {
        Ok(_) => 200,
        Err(_) => 404,
    }
}

/// The stop endpoint: checks that the container is currently running and
/// only then issues the stop command; an id that is absent (or a check
/// that failed) answers 404 without any stop being issued, and a stop
/// failure answers 404 as well.
pub fn stop_container<S: ContainerServiceTrait>(svc: &S, id: &str) -> (r: u16)
    ensures
        r == 200 || r == 404,
{
    let check = svc.is_container_running(id);
    if !stop_allowed(&check) {
        return 404;
    }
    let result = svc.stop_container(id);
    stop_status(&result)
}

} // verus!
