use raft::node::Node;
use raft::text::decimal_string;

#[test]
fn decimal_renders_like_display() {
    for n in [0u64, 7, 10, 99, 100, 12345, u64::MAX] {
        assert_eq!(decimal_string(n), n.to_string());
    }
}

#[test]
fn log_prefix_shows_time_id_and_term() {
    let n = Node { id: "node.1".to_string(), time: 42, last_activity: 0, term: 7, peers: vec![] };
    assert_eq!(n.log_prefix(), "[time 42] [id \"node.1\"] [term 7]");
}

#[test]
fn log_prefix_escapes_the_id() {
    let n = Node { id: "a\"b".to_string(), time: 0, last_activity: 0, term: 0, peers: vec![] };
    assert_eq!(n.log_prefix(), "[time 0] [id \"a\\\"b\"] [term 0]");
}
