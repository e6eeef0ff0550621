use d3270::arbiter::{run_operation, to_le_bytes, ArbiterCore, ResponseMap, Routed, RUN_TYPE};
use d3270::b3270::indication::{Connection, ConnectionState, RunResult, ScreenMode};
use d3270::b3270::operation::{Action, Run, Succeed};
use d3270::b3270::{Indication, Operation};
use d3270::session::{client_request, client_run_result};

fn key_x() -> Vec<Action> {
    vec![Action { action: "Key".to_string(), args: vec!["x".to_string()] }]
}

fn run_result(tag: Option<&str>) -> RunResult {
    RunResult {
        r_tag: tag.map(|t| t.to_string()),
        success: true,
        text: vec![],
        abort: None,
        time_bits: 0.01f32.to_bits(),
    }
}

#[test]
fn run_result_routing_scenario() {
    let mut core: ArbiterCore<&str> = ArbiterCore::new(Vec::new());
    let op = Operation::Run(Run { r_tag: Some("a1".to_string()), type_: None, actions: key_x() });
    let (client_tag, actions) = client_request(op).expect("a run is forwarded");
    assert_eq!(client_tag, Some("a1".to_string()));

    let tag = core.fresh_tag();
    let op = run_operation(tag.clone(), actions);
    assert_eq!(
        op,
        Operation::Run(Run { r_tag: Some(tag.clone()), type_: Some("keymap".to_string()), actions: key_x() })
    );
    let line = b"{\"run\":{}}".to_vec();
    core.queue_run(tag.clone(), &line, "client A");
    let mut expected = line.clone();
    expected.push(b'\n');
    assert_eq!(core.pending_chunk(), expected.as_slice());

    match core.on_indication(Indication::RunResult(run_result(Some(&tag)))) {
        Routed::Deliver(sink, rr) => {
            assert_eq!(sink, "client A");
            let shown = client_run_result(rr, client_tag);
            assert_eq!(shown, Indication::RunResult(run_result(Some("a1"))));
        }
        _ => panic!("the result goes to its requester only"),
    }
    // The entry is gone: a second result with the same tag finds nobody.
    assert!(matches!(core.on_indication(Indication::RunResult(run_result(Some(&tag)))), Routed::Unclaimed(_)));
}

#[test]
fn untagged_results_are_dropped_and_others_broadcast() {
    let mut core: ArbiterCore<u8> = ArbiterCore::new(Vec::new());
    assert!(matches!(core.on_indication(Indication::RunResult(run_result(None))), Routed::Dropped));
    let conn = Connection { state: ConnectionState::Resolving, host: None, cause: None };
    match core.on_indication(Indication::Connection(conn.clone())) {
        Routed::Broadcast(ind) => assert_eq!(ind, Indication::Connection(conn.clone())),
        _ => panic!("connections are broadcast"),
    }
    let snap = core.snapshot();
    assert_eq!(snap[1], Indication::Connection(conn));
    let mode = ScreenMode { model: 2, rows: 24, columns: 80, color: true, oversize: false, extended: true };
    assert!(matches!(core.on_indication(Indication::ScreenMode(mode)), Routed::Broadcast(_)));
}

#[test]
fn tags_are_base64_of_eight_bytes_and_unique() {
    let mut core: ArbiterCore<usize> = ArbiterCore::new(Vec::new());
    let mut seen: Vec<String> = Vec::new();
    for i in 0..50 {
        let tag = core.fresh_tag();
        assert_eq!(tag.len(), 12);
        assert!(tag.ends_with('='));
        assert!(!seen.contains(&tag));
        seen.push(tag.clone());
        core.queue_run(tag, &Vec::new(), i);
    }
}

#[test]
fn response_map_insert_and_remove() {
    let mut m: ResponseMap<u8> = ResponseMap::new();
    m.insert("a".to_string(), 1);
    m.insert("b".to_string(), 2);
    assert!(m.contains(&"a".to_string()));
    assert_eq!(m.remove(&"a".to_string()), Some(1));
    assert!(!m.contains(&"a".to_string()));
    assert_eq!(m.remove(&"a".to_string()), None);
    assert_eq!(m.len(), 1);
}

#[test]
fn pending_bytes_drain_in_order() {
    let mut core: ArbiterCore<u8> = ArbiterCore::new(b"first\n".to_vec());
    core.queue_run("t".to_string(), &b"second".to_vec(), 0);
    let mut out: Vec<u8> = Vec::new();
    while core.has_pending() {
        let chunk = core.pending_chunk().to_vec();
        assert!(!chunk.is_empty());
        let n = chunk.len().min(4);
        out.extend_from_slice(&chunk[..n]);
        core.consume(n);
    }
    assert_eq!(out, b"first\nsecond\n".to_vec());
}

#[test]
fn le_bytes_and_run_type() {
    assert_eq!(to_le_bytes(0x0102_0304_0506_0708), vec![8, 7, 6, 5, 4, 3, 2, 1]);
    assert_eq!(RUN_TYPE, "keymap");
}

#[test]
fn unsupported_client_operations_are_refused() {
    let op = Operation::Succeed(Succeed { p_tag: "p".to_string(), text: vec![] });
    assert!(client_request(op).is_none());
}
