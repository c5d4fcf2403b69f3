use std::cell::Cell;

use pod_station::Container;
use pod_station::ApiResponse;
use pod_station::containers_response;
use pod_station::get_all_containers;
use pod_station::stop_container;
use pod_station::percent::Percent;
use pod_station::percent::parse_percent;
use pod_station::podman::ContainerStats;
use pod_station::podman::PodmanServiceTrait;
use pod_station::services::ContainerInfo;
use pod_station::services::ContainerServiceTrait;
use pod_station::services::podman::MergeError;
use pod_station::services::podman::PodmanContainerInfo;
use pod_station::services::podman::PodmanContainerStats;
use pod_station::services::podman::PodmanService;
use pod_station::services::podman::contains_exact_id;
use pod_station::session::InboundEvent;
use pod_station::session::LiveSession;

fn merged(id: &str, name: &str, started_at: u64) -> ContainerInfo {
    ContainerInfo {
        image: "test".to_string(),
        id: id.to_string(),
        names: vec![name.to_string()],
        started_at,
        state: "running".to_string(),
        cpu_percent: "0.2%".to_string(),
        mem_percent: "0.1%".to_string(),
        mem_usage: "114.7kB / 33.44GB".to_string(),
    }
}

fn meta(id: &str, name: &str, started_at: u64) -> PodmanContainerInfo {
    PodmanContainerInfo {
        image: "test".to_string(),
        id: id.to_string(),
        names: vec![name.to_string()],
        started_at,
        state: "running".to_string(),
    }
}

fn sample(id: &str, cpu: &str, mem: &str) -> PodmanContainerStats {
    PodmanContainerStats {
        id: id.to_string(),
        cpu_percent: cpu.to_string(),
        mem_percent: mem.to_string(),
        mem_usage: "114.7kB / 33.44GB".to_string(),
    }
}

fn expected_record(id: &str, name: &str, started_at: u64) -> String {
    format!(
        "{{\"id\":\"{}\",\"name\":\"{}\",\"started_at\":{},\"cpu_percent\":0.2,\"memory_percent\":0.1,\"memory_usage\":\"114.7kB / 33.44GB\"}}",
        id, name, started_at
    )
}

struct MockContainerService {
    containers: Vec<(String, String, u64)>,
    fail_fetch: bool,
    running: Result<bool, String>,
    stop_result: Result<(), String>,
    stop_called: Cell<bool>,
}

impl MockContainerService {
    fn with_containers(containers: Vec<(&str, &str, u64)>) -> MockContainerService {
        MockContainerService {
            containers: containers
                .into_iter()
                .map(|(a, b, c)| (a.to_string(), b.to_string(), c))
                .collect(),
            fail_fetch: false,
            running: Ok(true),
            stop_result: Ok(()),
            stop_called: Cell::new(false),
        }
    }
}

impl ContainerServiceTrait for MockContainerService {
    fn get_running_containers(&self) -> Result<Vec<ContainerInfo>, String> {
        if self.fail_fetch {
            return Err("runtime unreachable".to_string());
        }
        Ok(self
            .containers
            .iter()
            .map(|(id, name, started)| merged(id, name, *started))
            .collect())
    }

    fn is_container_running(&self, id: &str) -> Result<bool, String> {
        match &self.running {
            Ok(_) => Ok(self.containers.iter().any(|(cid, _, _)| cid == id)),
            Err(e) => Err(e.clone()),
        }
    }

    fn stop_container(&self, _id: &str) -> Result<(), String> {
        self.stop_called.set(true);
        self.stop_result.clone()
    }
}

struct MockPodmanClient {
    infos: Vec<pod_station::podman::ContainerInfo>,
    stats: Vec<ContainerStats>,
}

impl PodmanServiceTrait for MockPodmanClient {
    fn running_containers(&self) -> Result<Vec<pod_station::podman::ContainerInfo>, String> {
        Ok(self
            .infos
            .iter()
            .map(|c| pod_station::podman::ContainerInfo {
                image: c.image.clone(),
                id: c.id.clone(),
                names: c.names.clone(),
                started_at: c.started_at,
                state: c.state.clone(),
            })
            .collect())
    }

    fn running_containers_stats(&self) -> Result<Vec<ContainerStats>, String> {
        Ok(self
            .stats
            .iter()
            .map(|s| ContainerStats {
                id: s.id.clone(),
                cpu_percent: s.cpu_percent.clone(),
                mem_percent: s.mem_percent.clone(),
                mem_usage: s.mem_usage.clone(),
            })
            .collect())
    }

    fn stop_container(&self, _id: &str) -> Result<(), String> {
        Ok(())
    }
}

fn body_string(r: ApiResponse) -> String {
    String::from_utf8(r.body).unwrap()
}

#[test]
fn get_containers() {
    let svc = MockContainerService::with_containers(vec![
        ("123", "test1", 894),
        ("456", "test2", 89583),
        ("789", "test3", 123123),
    ]);
    let reply = get_all_containers(&svc);
    assert_eq!(reply.status, 200);
    let expected = format!(
        "[{},{},{}]",
        expected_record("123", "test1", 894),
        expected_record("456", "test2", 89583),
        expected_record("789", "test3", 123123)
    );
    assert_eq!(body_string(reply), expected);
}

#[test]
fn get_containers_ws() {
    let mut session = LiveSession::new();
    assert!(session.should_poll());
    let snapshot = || -> Result<Vec<ContainerInfo>, String> {
        Ok(vec![
            merged("123", "test1", 894),
            merged("456", "test2", 89583),
            merged("789", "test3", 123123),
        ])
    };
    let expected = format!(
        "[{},{},{}]",
        expected_record("123", "test1", 894),
        expected_record("456", "test2", 89583),
        expected_record("789", "test3", 123123)
    );
    for _ in 0..3 {
        let frame = session.process_tick(snapshot());
        assert_eq!(String::from_utf8(frame).unwrap(), expected);
    }
    assert_eq!(session.frames_sent, 3);
    let stop = session.on_client_event(&InboundEvent::Close);
    assert!(stop);
    assert!(!session.should_poll());
}

#[test]
fn stop_containers() {
    let svc = MockContainerService::with_containers(vec![("123", "test1", 894)]);
    let status = stop_container(&svc, "123");
    assert_eq!(status, 200);
    assert!(svc.stop_called.get());
}

#[test]
fn stop_containers_unknown() {
    let svc = MockContainerService::with_containers(vec![("123", "test1", 894)]);
    let status = stop_container(&svc, "404");
    assert_eq!(status, 404);
    assert!(!svc.stop_called.get());
}

#[test]
fn stop_containers_check_failure_reads_not_found() {
    let mut svc = MockContainerService::with_containers(vec![("123", "test1", 894)]);
    svc.running = Err("runtime unreachable".to_string());
    let status = stop_container(&svc, "123");
    assert_eq!(status, 404);
    assert!(!svc.stop_called.get());
}

#[test]
fn stop_containers_stop_failure_reads_not_found() {
    let mut svc = MockContainerService::with_containers(vec![("123", "test1", 894)]);
    svc.stop_result = Err("stop failed".to_string());
    let status = stop_container(&svc, "123");
    assert_eq!(status, 404);
    assert!(svc.stop_called.get());
}

#[test]
fn stop_decision_helpers() {
    assert!(pod_station::stop_allowed(&Ok(true)));
    assert!(!pod_station::stop_allowed(&Ok(false)));
    assert!(!pod_station::stop_allowed(&Err("runtime unreachable".to_string())));
    assert_eq!(pod_station::stop_status(&Ok(())), 200);
    assert_eq!(pod_station::stop_status(&Err("stop failed".to_string())), 404);
}

#[test]
fn parse_percent_plain() {
    assert_eq!(parse_percent("0.2%"), Percent::from_micros(200_000));
    assert_eq!(parse_percent(""), Percent::zero());
    assert_eq!(parse_percent("abc%"), Percent::zero());
    assert_eq!(parse_percent("12"), Percent::from_micros(12_000_000));
}

#[test]
fn parse_percent_edges() {
    assert_eq!(parse_percent("5%%"), Percent::zero());
    assert_eq!(parse_percent("."), Percent::zero());
    assert_eq!(parse_percent(".5"), Percent::from_micros(500_000));
    assert_eq!(parse_percent("3."), Percent::from_micros(3_000_000));
    assert_eq!(parse_percent("0.1234567"), Percent::from_micros(123_456));
    assert_eq!(parse_percent("-1"), Percent::zero());
    assert_eq!(parse_percent("1e3"), Percent::zero());
    assert_eq!(parse_percent("100%"), Percent::from_micros(100_000_000));
}

#[test]
fn merge_scenario() {
    let service = PodmanService::new();
    let infos = vec![meta("123", "test1", 894)];
    let stats = vec![sample("123", "0.2%", "0.1%")];
    let out = service.merge_containers(infos, stats).unwrap();
    assert_eq!(out.len(), 1);
    assert_eq!(out[0].id, "123");
    assert_eq!(out[0].names, vec!["test1".to_string()]);
    assert_eq!(out[0].image, "test");
    assert_eq!(out[0].started_at, 894);
    assert_eq!(out[0].state, "running");
    assert_eq!(out[0].cpu_percent, "0.2%");
    assert_eq!(out[0].mem_percent, "0.1%");
    assert_eq!(out[0].mem_usage, "114.7kB / 33.44GB");
    let api = Container::from_info(out.into_iter().next().unwrap());
    assert_eq!(api.id, "123");
    assert_eq!(api.name, "test1");
    assert_eq!(api.started_at, 894);
    assert_eq!(api.cpu_percent, Percent::from_micros(200_000));
    assert_eq!(api.memory_percent, Percent::from_micros(100_000));
    assert_eq!(api.memory_usage, "114.7kB / 33.44GB");
}

#[test]
fn merge_orders_by_id_regardless_of_input_order() {
    let service = PodmanService::new();
    let infos = vec![
        meta("789", "test3", 3),
        meta("123", "test1", 1),
        meta("456", "test2", 2),
    ];
    let stats = vec![
        sample("456", "0.2%", "0.1%"),
        sample("789", "0.2%", "0.1%"),
        sample("123", "0.2%", "0.1%"),
    ];
    let out = service.merge_containers(infos, stats).unwrap();
    let ids: Vec<&str> = out.iter().map(|c| c.id.as_str()).collect();
    assert_eq!(ids, vec!["123", "456", "789"]);
    assert_eq!(out[0].started_at, 1);
    assert_eq!(out[1].started_at, 2);
    assert_eq!(out[2].started_at, 3);
}

#[test]
fn merge_accepts_truncated_stats_ids() {
    let service = PodmanService::new();
    let infos = vec![meta("abcdef123456", "test1", 894)];
    let stats = vec![sample("abcdef", "0.2%", "0.1%")];
    let out = service.merge_containers(infos, stats).unwrap();
    assert_eq!(out.len(), 1);
    assert_eq!(out[0].id, "abcdef123456");
}

#[test]
fn merge_rejects_uncorrelated_pair() {
    let service = PodmanService::new();
    let infos = vec![meta("123", "test1", 894)];
    let stats = vec![sample("999", "0.2%", "0.1%")];
    let err = service.merge_containers(infos, stats).unwrap_err();
    assert_eq!(err, MergeError::CorrelationFault);
}

#[test]
fn merge_truncates_to_shorter_list() {
    let service = PodmanService::new();
    let infos = vec![meta("123", "test1", 894), meta("456", "test2", 2)];
    let stats = vec![sample("123", "0.2%", "0.1%")];
    let out = service.merge_containers(infos, stats).unwrap();
    assert_eq!(out.len(), 1);
    assert_eq!(out[0].id, "123");
}

#[test]
fn empty_snapshot_serializes_to_empty_array() {
    let reply = containers_response(Ok(vec![]));
    assert_eq!(reply.status, 200);
    assert_eq!(body_string(reply), "[]");
}

#[test]
fn get_containers_empty_runtime() {
    let svc = MockContainerService::with_containers(vec![]);
    let reply = get_all_containers(&svc);
    assert_eq!(reply.status, 200);
    assert_eq!(body_string(reply), "[]");
}

#[test]
fn fetch_error_gives_500() {
    let mut svc = MockContainerService::with_containers(vec![("123", "test1", 894)]);
    svc.fail_fetch = true;
    let reply = get_all_containers(&svc);
    assert_eq!(reply.status, 500);
    assert!(reply.body.is_empty());
}

#[test]
fn nameless_record_gives_500() {
    let mut record = merged("123", "test1", 894);
    record.names.clear();
    let reply = containers_response(Ok(vec![record]));
    assert_eq!(reply.status, 500);
    assert!(reply.body.is_empty());
}

#[test]
fn json_escapes_strings() {
    let record = ContainerInfo {
        image: "test".to_string(),
        id: "a\"b\\c".to_string(),
        names: vec!["line\nbreak\ttab".to_string()],
        started_at: 0,
        state: "running".to_string(),
        cpu_percent: "0%".to_string(),
        mem_percent: "0%".to_string(),
        mem_usage: "\u{1}\u{1F600}".to_string(),
    };
    let reply = containers_response(Ok(vec![record]));
    assert_eq!(reply.status, 200);
    let body = body_string(reply);
    assert!(body.contains("\"id\":\"a\\\"b\\\\c\""));
    assert!(body.contains("\"name\":\"line\\nbreak\\ttab\""));
    assert!(body.contains("\"memory_usage\":\"\\u0001\\ud83d\\ude00\""));
}

#[test]
fn json_renders_integral_percent() {
    let mut record = merged("1", "one", 7);
    record.cpu_percent = "12".to_string();
    record.mem_percent = "100%".to_string();
    let reply = containers_response(Ok(vec![record]));
    let body = body_string(reply);
    assert!(body.contains("\"cpu_percent\":12.0"));
    assert!(body.contains("\"memory_percent\":100.0"));
}

#[test]
fn session_swallows_fetch_errors() {
    let mut session = LiveSession::new();
    let frame = session.process_tick(Err("runtime unreachable".to_string()));
    assert_eq!(String::from_utf8(frame).unwrap(), "[]");
    assert!(session.should_poll());
    assert_eq!(session.frames_sent, 1);
}

#[test]
fn session_survives_ordinary_frames() {
    let mut session = LiveSession::new();
    let stop = session.on_client_event(&InboundEvent::Frame);
    assert!(!stop);
    assert!(session.should_poll());
}

#[test]
fn session_ends_on_disconnect_or_error() {
    for ev in [InboundEvent::Close, InboundEvent::ReadFailed, InboundEvent::Disconnected] {
        let mut session = LiveSession::new();
        let stop = session.on_client_event(&ev);
        assert!(stop);
        assert!(!session.should_poll());
    }
}

#[test]
fn contains_exact_id_rejects_prefixes() {
    let infos = vec![pod_station::podman::ContainerInfo {
        image: "test".to_string(),
        id: "abcdef".to_string(),
        names: vec!["test1".to_string()],
        started_at: 0,
        state: "running".to_string(),
    }];
    assert!(contains_exact_id(&infos, "abcdef"));
    assert!(!contains_exact_id(&infos, "abc"));
    assert!(!contains_exact_id(&infos, "abcdefg"));
}

#[test]
fn snapshot_service_pipeline() {
    let client = MockPodmanClient {
        infos: vec![
            pod_station::podman::ContainerInfo {
                image: "test".to_string(),
                id: "456".to_string(),
                names: vec!["test2".to_string()],
                started_at: 89583,
                state: "running".to_string(),
            },
            pod_station::podman::ContainerInfo {
                image: "test".to_string(),
                id: "123".to_string(),
                names: vec!["test1".to_string()],
                started_at: 894,
                state: "running".to_string(),
            },
        ],
        stats: vec![
            ContainerStats {
                id: "123".to_string(),
                cpu_percent: "0.2%".to_string(),
                mem_percent: "0.1%".to_string(),
                mem_usage: "114.7kB / 33.44GB".to_string(),
            },
            ContainerStats {
                id: "456".to_string(),
                cpu_percent: "0.2%".to_string(),
                mem_percent: "0.1%".to_string(),
                mem_usage: "114.7kB / 33.44GB".to_string(),
            },
        ],
    };
    let service = PodmanService::new();
    let out = service.get_running_containers(&client).unwrap();
    assert_eq!(out.len(), 2);
    assert_eq!(out[0].id, "123");
    assert_eq!(out[1].id, "456");
    let running = service.is_container_running(&client, "123").unwrap();
    assert!(running);
    let running = service.is_container_running(&client, "12").unwrap();
    assert!(!running);
}
