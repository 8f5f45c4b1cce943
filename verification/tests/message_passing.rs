use rmc::visibility::{has_seen, observable};
use rmc::{AtomicUsize, EdgeKind, Graph, Name, Request};

fn name(text: &str) -> Name {
    Name::from_text(text).unwrap()
}

fn send(graph: &mut Graph, data: &AtomicUsize, flag: &AtomicUsize, annotated: bool) {
    if annotated {
        graph.declare(EdgeKind::Visibility, &name("wdata"), &name("wflag"));
    }
    graph.labeled(&name("wdata"), || data.store(42)).unwrap();
    graph.labeled(&name("wflag"), || flag.store(1)).unwrap();
}

fn sent(annotated: bool) -> Request {
    let data = AtomicUsize::new(0);
    let flag = AtomicUsize::new(0);
    let mut graph = Graph::new();
    send(&mut graph, &data, &flag, annotated);
    graph.push().unwrap()
}

/// Every set of the sender's actions that the receiver can have seen.
fn observations() -> Vec<Vec<Name>> {
    vec![
        vec![],
        vec![name("wdata")],
        vec![name("wflag")],
        vec![name("wdata"), name("wflag")],
    ]
}

/// What the receiver reads from `flag` and `data` when it has seen `seen`.
fn reads(seen: &[Name]) -> (usize, usize) {
    let flag = if has_seen(seen, &name("wflag")) { 1 } else { 0 };
    let data = if has_seen(seen, &name("wdata")) { 42 } else { 0 };
    (flag, data)
}

#[test]
fn annotated_sender_asks_for_the_visibility_edge() {
    let data = AtomicUsize::new(0);
    let flag = AtomicUsize::new(0);
    let mut graph = Graph::new();
    send(&mut graph, &data, &flag, true);
    let request = graph.push().unwrap();
    assert_eq!(request.actions, vec![name("wdata"), name("wflag")]);
    assert_eq!(request.edges.len(), 1);
    assert_eq!(request.edges[0].kind, EdgeKind::Visibility);
    assert_eq!(request.edges[0].kind.code(), 1);
    assert_eq!(request.edges[0].source.to_c_bytes(), b"wdata\0".to_vec());
    assert_eq!(request.edges[0].destination.to_c_bytes(), b"wflag\0".to_vec());
    assert_eq!(flag.load(), 1);
    assert_eq!(data.load(), 42);
}

#[test]
fn unannotated_sender_asks_for_nothing() {
    let data = AtomicUsize::new(0);
    let flag = AtomicUsize::new(0);
    let mut graph = Graph::new();
    send(&mut graph, &data, &flag, false);
    let request = graph.push().unwrap();
    assert_eq!(request.actions, vec![name("wdata"), name("wflag")]);
    assert!(request.edges.is_empty());
    assert_eq!(flag.load(), 1);
    assert_eq!(data.load(), 42);
}

#[test]
fn receiver_in_the_same_thread_sees_the_data_behind_the_flag() {
    let data = AtomicUsize::new(0);
    let flag = AtomicUsize::new(0);
    let mut graph = Graph::new();
    assert_eq!(flag.load(), 0);
    send(&mut graph, &data, &flag, true);
    let mut spins = 0;
    while flag.load() != 1 {
        spins += 1;
        assert!(spins < 10);
    }
    assert_eq!(data.load(), 42);
}

#[test]
fn with_the_edge_whoever_sees_the_flag_sees_the_data() {
    let request = sent(true);
    let mut allowed = 0;
    for seen in observations() {
        if observable(&seen, &request.edges) {
            allowed += 1;
            let (flag, data) = reads(&seen);
            if flag == 1 {
                assert_eq!(data, 42);
            }
        }
    }
    assert_eq!(allowed, 3);
    assert!(!observable(&[name("wflag")], &request.edges));
}

#[test]
fn without_the_edge_the_flag_may_be_seen_before_the_data() {
    let request = sent(false);
    let mut reordered = 0;
    for seen in observations() {
        assert!(observable(&seen, &request.edges));
        if reads(&seen) == (1, 0) {
            reordered += 1;
        }
    }
    assert_eq!(reordered, 1);
    assert!(observable(&[name("wflag")], &request.edges));
    assert_eq!(reads(&[name("wflag")]), (1, 0));
}

#[test]
fn edge_of_another_kind_promises_nothing_to_onlookers() {
    let mut graph = Graph::new();
    graph.declare(EdgeKind::Execution, &name("wdata"), &name("wflag"));
    graph.labeled(&name("wdata"), || ()).unwrap();
    graph.labeled(&name("wflag"), || ()).unwrap();
    let request = graph.push().unwrap();
    assert!(observable(&[name("wflag")], &request.edges));
}

#[test]
fn visibility_edges_chain() {
    let mut graph = Graph::new();
    graph.declare(EdgeKind::Visibility, &name("a"), &name("b"));
    graph.declare(EdgeKind::Visibility, &name("b"), &name("c"));
    for label in ["a", "b", "c"] {
        graph.labeled(&name(label), || ()).unwrap();
    }
    let request = graph.push().unwrap();
    assert!(observable(&[], &request.edges));
    assert!(observable(&[name("a")], &request.edges));
    assert!(observable(&[name("a"), name("b")], &request.edges));
    assert!(observable(&[name("c"), name("b"), name("a")], &request.edges));
    assert!(!observable(&[name("c")], &request.edges));
    assert!(!observable(&[name("c"), name("b")], &request.edges));
    assert!(!observable(&[name("c"), name("a")], &request.edges));
    assert!(!observable(&[name("b")], &request.edges));
}

#[test]
fn has_seen_looks_for_the_name() {
    let seen = vec![name("a"), name("b")];
    assert!(has_seen(&seen, &name("a")));
    assert!(has_seen(&seen, &name("b")));
    assert!(!has_seen(&seen, &name("c")));
    assert!(!has_seen(&[], &name("a")));
}
