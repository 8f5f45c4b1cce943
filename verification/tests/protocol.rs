use rmc::{Edge, EdgeKind, Error, Graph, Name, Request};

fn name(text: &str) -> Name {
    Name::from_text(text).unwrap()
}

fn action_names(request: &Request) -> Vec<Vec<u8>> {
    request.actions.iter().map(|n| n.as_bytes().to_vec()).collect()
}

fn edge_triple(edge: &Edge) -> (EdgeKind, Vec<u8>, Vec<u8>) {
    (edge.kind, edge.source.as_bytes().to_vec(), edge.destination.as_bytes().to_vec())
}

fn run(graph: &mut Graph, label: &str) {
    let handle = graph.open(&name(label)).unwrap();
    graph.close(handle).unwrap();
}

#[test]
fn new_graph_pushes_an_empty_request() {
    let mut graph = Graph::new();
    assert_eq!(graph.issued(), 0);
    assert_eq!(graph.edge_count(), 0);
    let request = graph.push().unwrap();
    assert!(request.actions.is_empty());
    assert!(request.edges.is_empty());
}

#[test]
fn dangling_edge_is_rejected() {
    let mut graph = Graph::new();
    run(&mut graph, "wdata");
    graph.declare(EdgeKind::Visibility, &name("wdata"), &name("wflag"));
    assert_eq!(graph.dangling(), Some(0));
    assert_eq!(graph.push().err(), Some(Error::UndefinedActionReference { edge: 0 }));
}

#[test]
fn dangling_source_is_rejected() {
    let mut graph = Graph::new();
    run(&mut graph, "wflag");
    graph.declare(EdgeKind::Execution, &name("wdata"), &name("wflag"));
    assert_eq!(graph.push().err(), Some(Error::UndefinedActionReference { edge: 0 }));
}

#[test]
fn first_dangling_edge_is_reported() {
    let mut graph = Graph::new();
    run(&mut graph, "a");
    run(&mut graph, "b");
    assert_eq!(graph.declare(EdgeKind::Execution, &name("a"), &name("b")), 0);
    assert_eq!(graph.declare(EdgeKind::Order, &name("b"), &name("c")), 1);
    assert_eq!(graph.declare(EdgeKind::Visibility, &name("d"), &name("a")), 2);
    assert_eq!(graph.dangling(), Some(1));
    assert_eq!(graph.push().err(), Some(Error::UndefinedActionReference { edge: 1 }));
}

#[test]
fn open_action_does_not_count_as_closed() {
    let mut graph = Graph::new();
    run(&mut graph, "a");
    let handle = graph.open(&name("b")).unwrap();
    graph.declare(EdgeKind::Execution, &name("a"), &name("b"));
    assert!(graph.is_open(&name("b")));
    assert!(!graph.is_closed(&name("b")));
    assert_eq!(graph.push().err(), Some(Error::UndefinedActionReference { edge: 0 }));
    graph.close(handle).unwrap();
    assert!(graph.is_closed(&name("b")));
    assert!(graph.push().is_ok());
}

#[test]
fn failed_push_changes_nothing() {
    let mut graph = Graph::new();
    run(&mut graph, "a");
    graph.declare(EdgeKind::Execution, &name("a"), &name("b"));
    assert!(graph.push().is_err());
    assert_eq!(graph.edge_count(), 1);
    assert!(graph.is_closed(&name("a")));
    run(&mut graph, "b");
    let request = graph.push().unwrap();
    assert_eq!(action_names(&request), vec![b"a".to_vec(), b"b".to_vec()]);
    assert_eq!(request.edges.len(), 1);
    assert_eq!(
        edge_triple(&request.edges[0]),
        (EdgeKind::Execution, b"a".to_vec(), b"b".to_vec())
    );
}

#[test]
fn forward_reference_is_legal() {
    let mut graph = Graph::new();
    assert_eq!(graph.declare(EdgeKind::Visibility, &name("wdata"), &name("wflag")), 0);
    assert_eq!(graph.dangling(), Some(0));
    run(&mut graph, "wdata");
    run(&mut graph, "wflag");
    assert_eq!(graph.dangling(), None);
    let request = graph.push().unwrap();
    assert_eq!(action_names(&request), vec![b"wdata".to_vec(), b"wflag".to_vec()]);
    assert_eq!(
        edge_triple(&request.edges[0]),
        (EdgeKind::Visibility, b"wdata".to_vec(), b"wflag".to_vec())
    );
}

#[test]
fn nested_same_name_open_fails() {
    let mut graph = Graph::new();
    let outer = graph.open(&name("a")).unwrap();
    assert_eq!(graph.open(&name("a")).err(), Some(Error::DuplicateOpenAction));
    assert_eq!(graph.issued(), 1);
    assert!(graph.is_open(&name("a")));
    graph.close(outer).unwrap();
    assert!(!graph.is_open(&name("a")));
}

#[test]
fn nested_different_names_are_legal() {
    let mut graph = Graph::new();
    let outer = graph.open(&name("a")).unwrap();
    let inner = graph.open(&name("b")).unwrap();
    assert_ne!(outer, inner);
    graph.close(inner).unwrap();
    graph.close(outer).unwrap();
    let request = graph.push().unwrap();
    assert_eq!(action_names(&request), vec![b"b".to_vec(), b"a".to_vec()]);
}

#[test]
fn same_name_may_be_opened_again_once_closed() {
    let mut graph = Graph::new();
    run(&mut graph, "a");
    run(&mut graph, "a");
    assert_eq!(graph.issued(), 2);
    let request = graph.push().unwrap();
    assert_eq!(action_names(&request), vec![b"a".to_vec()]);
}

#[test]
fn close_of_a_closed_handle_fails() {
    let mut graph = Graph::new();
    let handle = graph.open(&name("a")).unwrap();
    assert!(graph.is_live(handle));
    assert_eq!(graph.close(handle), Ok(()));
    assert!(!graph.is_live(handle));
    assert_eq!(graph.close(handle), Err(Error::UnknownHandle));
    assert!(graph.is_closed(&name("a")));
}

#[test]
fn close_of_a_handle_never_given_fails() {
    let mut other = Graph::new();
    let _first = other.open(&name("x")).unwrap();
    let second = other.open(&name("y")).unwrap();
    let mut graph = Graph::new();
    let handle = graph.open(&name("a")).unwrap();
    assert_eq!(graph.close(second), Err(Error::UnknownHandle));
    assert!(graph.is_open(&name("a")));
    assert_eq!(graph.close(handle), Ok(()));
}

#[test]
fn handles_are_not_given_twice() {
    let mut graph = Graph::new();
    let first = graph.open(&name("a")).unwrap();
    graph.close(first).unwrap();
    let second = graph.open(&name("a")).unwrap();
    assert_ne!(first, second);
    assert_eq!(graph.close(first), Err(Error::UnknownHandle));
    assert_eq!(graph.close(second), Ok(()));
}

#[test]
fn name_is_reusable_after_push() {
    let mut graph = Graph::new();
    run(&mut graph, "a");
    assert!(graph.push().is_ok());
    let again = graph.open(&name("a"));
    assert!(again.is_ok());
    graph.close(again.unwrap()).unwrap();
    let request = graph.push().unwrap();
    assert_eq!(action_names(&request), vec![b"a".to_vec()]);
}

#[test]
fn each_push_takes_only_its_own_window() {
    let mut graph = Graph::new();
    run(&mut graph, "a");
    run(&mut graph, "b");
    graph.declare(EdgeKind::Execution, &name("a"), &name("b"));
    let first = graph.push().unwrap();
    assert_eq!(first.actions.len(), 2);
    assert_eq!(first.edges.len(), 1);
    assert_eq!(graph.edge_count(), 0);
    assert!(!graph.is_closed(&name("a")));
    run(&mut graph, "c");
    let second = graph.push().unwrap();
    assert_eq!(action_names(&second), vec![b"c".to_vec()]);
    assert!(second.edges.is_empty());
}

#[test]
fn name_closed_in_an_earlier_window_has_to_be_closed_anew() {
    let mut graph = Graph::new();
    run(&mut graph, "a");
    run(&mut graph, "b");
    assert!(graph.push().is_ok());
    run(&mut graph, "b");
    graph.declare(EdgeKind::Execution, &name("a"), &name("b"));
    assert_eq!(graph.push().err(), Some(Error::UndefinedActionReference { edge: 0 }));
}

#[test]
fn action_stays_open_across_a_push() {
    let mut graph = Graph::new();
    let handle = graph.open(&name("a")).unwrap();
    assert!(graph.push().is_ok());
    assert!(graph.is_open(&name("a")));
    assert_eq!(graph.open(&name("a")).err(), Some(Error::DuplicateOpenAction));
    assert_eq!(graph.close(handle), Ok(()));
    let request = graph.push().unwrap();
    assert_eq!(action_names(&request), vec![b"a".to_vec()]);
}

#[test]
fn edges_are_kept_in_order_and_may_repeat() {
    let mut graph = Graph::new();
    run(&mut graph, "a");
    run(&mut graph, "b");
    assert_eq!(graph.declare(EdgeKind::Execution, &name("a"), &name("b")), 0);
    assert_eq!(graph.declare(EdgeKind::Order, &name("b"), &name("a")), 1);
    assert_eq!(graph.declare(EdgeKind::Execution, &name("a"), &name("b")), 2);
    assert_eq!(graph.edge_count(), 3);
    let request = graph.push().unwrap();
    let edges: Vec<_> = request.edges.iter().map(edge_triple).collect();
    assert_eq!(
        edges,
        vec![
            (EdgeKind::Execution, b"a".to_vec(), b"b".to_vec()),
            (EdgeKind::Order, b"b".to_vec(), b"a".to_vec()),
            (EdgeKind::Execution, b"a".to_vec(), b"b".to_vec()),
        ]
    );
}

#[test]
fn edge_from_an_action_to_itself_is_recorded() {
    let mut graph = Graph::new();
    run(&mut graph, "a");
    graph.declare(EdgeKind::Visibility, &name("a"), &name("a"));
    let request = graph.push().unwrap();
    assert_eq!(
        edge_triple(&request.edges[0]),
        (EdgeKind::Visibility, b"a".to_vec(), b"a".to_vec())
    );
}

#[test]
fn labeled_runs_the_operation_between_open_and_close() {
    let mut graph = Graph::new();
    let result = graph.labeled(&name("a"), || 7);
    assert_eq!(result, Ok(7));
    assert!(!graph.is_open(&name("a")));
    assert!(graph.is_closed(&name("a")));
    assert_eq!(graph.issued(), 1);
}

#[test]
fn labeled_does_not_run_under_a_name_that_is_open() {
    let mut graph = Graph::new();
    let handle = graph.open(&name("a")).unwrap();
    let mut ran = false;
    let result = graph.labeled(&name("a"), || {
        ran = true;
    });
    assert_eq!(result, Err(Error::DuplicateOpenAction));
    assert!(!ran);
    assert_eq!(graph.issued(), 1);
    assert_eq!(graph.close(handle), Ok(()));
}

#[test]
fn names_differ_by_their_bytes_only() {
    let mut graph = Graph::new();
    let from_bytes = Name::new(b"wdata").unwrap();
    let from_text = Name::from_text("wdata").unwrap();
    let handle = graph.open(&from_bytes).unwrap();
    assert_eq!(graph.open(&from_text).err(), Some(Error::DuplicateOpenAction));
    assert!(graph.open(&name("wdat")).is_ok());
    assert!(graph.open(&name("wdata2")).is_ok());
    assert_eq!(graph.close(handle), Ok(()));
}

#[test]
fn request_holds_the_window_as_it_was() {
    let mut graph = Graph::new();
    run(&mut graph, "wdata");
    run(&mut graph, "wflag");
    graph.declare(EdgeKind::Visibility, &name("wdata"), &name("wflag"));
    let request = graph.push().unwrap();
    let expected = Request {
        actions: vec![name("wdata"), name("wflag")],
        edges: vec![Edge {
            kind: EdgeKind::Visibility,
            source: name("wdata"),
            destination: name("wflag"),
        }],
    };
    assert_eq!(request, expected);
}

#[test]
fn cycle_of_edges_is_sent_as_declared() {
    let mut graph = Graph::new();
    run(&mut graph, "a");
    run(&mut graph, "b");
    graph.declare(EdgeKind::Visibility, &name("a"), &name("b"));
    graph.declare(EdgeKind::Visibility, &name("b"), &name("a"));
    let request = graph.push().unwrap();
    assert_eq!(request.edges.len(), 2);
    assert_eq!(request.edges[0].source, request.edges[1].destination);
    assert_eq!(request.edges[0].destination, request.edges[1].source);
}
