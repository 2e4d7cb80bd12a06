use jadegate::dag::{topological_sort, validate_dag};
use jadegate::schema::{DagEdge, DagNode, ExecutionDag, JadeSkill, Metadata, SecurityPolicy};

fn node(id: &str) -> DagNode {
    DagNode { id: id.to_string(), action: String::new(), params: Vec::new(), timeout_ms: None }
}

fn edge(from: &str, to: &str) -> DagEdge {
    DagEdge { from: from.to_string(), to: to.to_string(), condition: None }
}

fn graph(nodes: &[&str], edges: &[(&str, &str)]) -> JadeSkill {
    JadeSkill {
        jade_version: "1.0".to_string(),
        skill_id: "demo".to_string(),
        metadata: Metadata {
            name: "Demo".to_string(),
            description: String::new(),
            version: "0.1.0".to_string(),
            author: String::new(),
            tags: Vec::new(),
        },
        input_schema: "{}".to_string(),
        output_schema: "{}".to_string(),
        execution_dag: ExecutionDag {
            nodes: nodes.iter().map(|id| node(id)).collect(),
            edges: edges.iter().map(|(from, to)| edge(from, to)).collect(),
        },
        security: SecurityPolicy {
            sandbox: "strict".to_string(),
            network_whitelist: Vec::new(),
            max_execution_time_ms: 1000,
            env_whitelist: Vec::new(),
        },
        jade_signature: None,
        community_signatures: None,
    }
}

fn names(list: &[&str]) -> Vec<String> {
    list.iter().map(|s| s.to_string()).collect()
}

#[test]
fn order_of_a_chain() {
    let s = graph(&["a", "b", "c"], &[("a", "b"), ("b", "c")]);
    assert_eq!(topological_sort(&s), Ok(names(&["a", "b", "c"])));
}

#[test]
fn order_of_a_diamond() {
    let s = graph(&["a", "b", "c", "d"], &[("a", "b"), ("a", "c"), ("b", "d"), ("c", "d")]);
    assert_eq!(topological_sort(&s), Ok(names(&["a", "b", "c", "d"])));
}

#[test]
fn order_holds_every_node_once_and_respects_every_edge() {
    let nodes = ["deploy", "build", "test", "fetch", "lint", "package"];
    let edges = [
        ("fetch", "build"),
        ("fetch", "lint"),
        ("build", "test"),
        ("lint", "package"),
        ("test", "package"),
        ("package", "deploy"),
    ];
    let s = graph(&nodes, &edges);
    let order = topological_sort(&s).unwrap();
    assert_eq!(order, names(&["fetch", "build", "test", "lint", "package", "deploy"]));
    for id in nodes {
        assert_eq!(order.iter().filter(|x| x.as_str() == id).count(), 1);
    }
    for (from, to) in edges {
        let a = order.iter().position(|x| x == from).unwrap();
        let b = order.iter().position(|x| x == to).unwrap();
        assert!(a < b);
    }
}

#[test]
fn order_is_the_same_on_every_run() {
    let s = graph(
        &["n5", "n4", "n3", "n2", "n1", "n0"],
        &[("n5", "n0"), ("n4", "n0"), ("n3", "n1"), ("n2", "n1")],
    );
    let first = topological_sort(&s);
    assert_eq!(first, Ok(names(&["n5", "n4", "n3", "n2", "n1", "n0"])));
    for _ in 0..20 {
        assert_eq!(topological_sort(&s), first);
    }
}

#[test]
fn order_starts_with_free_nodes_in_node_list_order() {
    let s = graph(&["z", "a", "m"], &[]);
    assert_eq!(topological_sort(&s), Ok(names(&["z", "a", "m"])));
    let s = graph(&["c", "b", "a"], &[("c", "a"), ("b", "a")]);
    assert_eq!(topological_sort(&s), Ok(names(&["c", "b", "a"])));
}

#[test]
fn ties_are_broken_by_the_node_list_not_the_edge_list() {
    let s = graph(&["r", "x", "y"], &[("r", "y"), ("r", "x")]);
    assert_eq!(topological_sort(&s), Ok(names(&["r", "x", "y"])));
    let s = graph(&["r", "y", "x"], &[("r", "y"), ("r", "x")]);
    assert_eq!(topological_sort(&s), Ok(names(&["r", "y", "x"])));
}

#[test]
fn node_that_becomes_free_goes_before_later_free_nodes() {
    let s = graph(&["late", "a", "b", "c"], &[("a", "late")]);
    assert_eq!(topological_sort(&s), Ok(names(&["a", "late", "b", "c"])));
}

#[test]
fn order_counts_parallel_edges() {
    let s = graph(&["a", "b", "c"], &[("a", "b"), ("a", "b"), ("b", "c")]);
    assert_eq!(topological_sort(&s), Ok(names(&["a", "b", "c"])));
    assert_eq!(validate_dag(&s), Vec::<String>::new());
}

#[test]
fn order_of_an_empty_graph() {
    let s = graph(&[], &[]);
    assert_eq!(topological_sort(&s), Ok(Vec::new()));
    assert_eq!(validate_dag(&s), Vec::<String>::new());
}

#[test]
fn cycle_of_two_fails_both_checks() {
    let s = graph(&["A", "B"], &[("A", "B"), ("B", "A")]);
    assert_eq!(topological_sort(&s), Err("Cycle detected in DAG".to_string()));
    assert_eq!(
        validate_dag(&s),
        vec!["DAG contains a cycle (0 of 2 nodes reachable)".to_string()]
    );
}

#[test]
fn cycle_behind_a_free_node_is_counted() {
    let s = graph(&["s", "a", "b"], &[("s", "a"), ("a", "b"), ("b", "a")]);
    assert_eq!(topological_sort(&s), Err("Cycle detected in DAG".to_string()));
    assert_eq!(
        validate_dag(&s),
        vec!["DAG contains a cycle (1 of 3 nodes reachable)".to_string()]
    );
}

#[test]
fn self_loop_is_a_cycle() {
    let s = graph(&["a", "b"], &[("a", "a"), ("a", "b")]);
    assert_eq!(topological_sort(&s), Err("Cycle detected in DAG".to_string()));
    assert_eq!(
        validate_dag(&s),
        vec!["DAG contains a cycle (0 of 2 nodes reachable)".to_string()]
    );
}

#[test]
fn cycle_count_is_written_in_decimal() {
    let ids: Vec<String> = (0..12).map(|i| format!("n{}", i)).collect();
    let mut nodes: Vec<&str> = ids.iter().map(|s| s.as_str()).collect();
    nodes.push("x");
    nodes.push("y");
    let mut edges: Vec<(&str, &str)> = Vec::new();
    for i in 0..11 {
        edges.push((nodes[i], nodes[i + 1]));
    }
    edges.push(("n11", "x"));
    edges.push(("x", "y"));
    edges.push(("y", "x"));
    let s = graph(&nodes, &edges);
    assert_eq!(
        validate_dag(&s),
        vec!["DAG contains a cycle (12 of 14 nodes reachable)".to_string()]
    );
}

#[test]
fn orphan_among_three_nodes_is_flagged() {
    let s = graph(&["a", "b", "c"], &[("a", "b")]);
    assert_eq!(
        validate_dag(&s),
        vec!["Orphan node: c (not connected to DAG)".to_string()]
    );
    assert_eq!(topological_sort(&s), Ok(names(&["a", "b", "c"])));
}

#[test]
fn single_node_is_never_an_orphan() {
    let s = graph(&["only"], &[]);
    assert_eq!(validate_dag(&s), Vec::<String>::new());
    assert_eq!(topological_sort(&s), Ok(names(&["only"])));
}

#[test]
fn every_orphan_is_flagged_in_node_order() {
    let s = graph(&["p", "a", "q", "b"], &[("a", "b")]);
    assert_eq!(
        validate_dag(&s),
        vec![
            "Orphan node: p (not connected to DAG)".to_string(),
            "Orphan node: q (not connected to DAG)".to_string(),
        ]
    );
}

#[test]
fn cycle_and_orphan_are_both_reported() {
    let s = graph(&["a", "b", "c"], &[("a", "b"), ("b", "a")]);
    assert_eq!(
        validate_dag(&s),
        vec![
            "DAG contains a cycle (1 of 3 nodes reachable)".to_string(),
            "Orphan node: c (not connected to DAG)".to_string(),
        ]
    );
}

#[test]
fn edge_from_an_undeclared_identifier_blocks_its_target() {
    let s = graph(&["a"], &[("ghost", "a")]);
    assert_eq!(topological_sort(&s), Err("Cycle detected in DAG".to_string()));
    assert_eq!(
        validate_dag(&s),
        vec!["DAG contains a cycle (0 of 1 nodes reachable)".to_string()]
    );
}

#[test]
fn repeated_identifier_is_one_vertex() {
    let s = graph(&["a", "a"], &[]);
    assert_eq!(topological_sort(&s), Err("Cycle detected in DAG".to_string()));
    assert_eq!(
        validate_dag(&s),
        vec![
            "DAG contains a cycle (1 of 2 nodes reachable)".to_string(),
            "Orphan node: a (not connected to DAG)".to_string(),
            "Orphan node: a (not connected to DAG)".to_string(),
        ]
    );
}

#[test]
fn identifier_that_only_an_edge_mentions_is_removed_after_its_source() {
    let s = graph(&["a"], &[("a", "extra")]);
    assert_eq!(topological_sort(&s), Ok(names(&["a", "extra"])));
    assert_eq!(validate_dag(&s), Vec::<String>::new());
}

#[test]
fn long_chain_listed_backwards_is_ordered_forwards() {
    let ids: Vec<String> = (0..300).map(|i| format!("step{}", i)).collect();
    let nodes: Vec<&str> = ids.iter().rev().map(|s| s.as_str()).collect();
    let mut edges: Vec<(&str, &str)> = Vec::new();
    for i in 0..299 {
        edges.push((ids[i].as_str(), ids[i + 1].as_str()));
    }
    let s = graph(&nodes, &edges);
    assert_eq!(topological_sort(&s), Ok(ids.clone()));
    assert_eq!(validate_dag(&s), Vec::<String>::new());
}

#[test]
fn layered_graph_is_ordered_layer_by_layer_where_the_node_list_says_so() {
    let s = graph(
        &["a1", "a2", "b1", "b2", "c1"],
        &[("a1", "b1"), ("a1", "b2"), ("a2", "b1"), ("a2", "b2"), ("b1", "c1"), ("b2", "c1")],
    );
    assert_eq!(topological_sort(&s), Ok(names(&["a1", "a2", "b1", "b2", "c1"])));
    let s = graph(
        &["c1", "b2", "b1", "a2", "a1"],
        &[("a1", "b1"), ("a1", "b2"), ("a2", "b1"), ("a2", "b2"), ("b1", "c1"), ("b2", "c1")],
    );
    assert_eq!(topological_sort(&s), Ok(names(&["a2", "a1", "b2", "b1", "c1"])));
}
