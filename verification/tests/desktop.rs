use trace_graph::desktop::{spawn_candidates, SERVER_PORT};

#[test]
fn graph_server_port_is_9847() {
    assert_eq!(SERVER_PORT, 9847);
}

#[test]
fn spawn_candidates_include_dev_binary() {
    let candidates = spawn_candidates();
    assert!(candidates.iter().any(|c| c.contains("target/debug")));
}

#[test]
fn spawn_candidates_try_path_first() {
    let candidates = spawn_candidates();
    assert_eq!(candidates.len(), 4);
    assert_eq!(candidates[0], "graph-server");
    assert_eq!(candidates[3], "../../../../target/debug/graph-server");
}
