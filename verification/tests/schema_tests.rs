use jadegate::schema::{
    validate_schema, DagEdge, DagNode, ExecutionDag, JadeSkill, Metadata, SecurityPolicy,
};

fn node(id: &str) -> DagNode {
    DagNode { id: id.to_string(), action: "fetch".to_string(), params: Vec::new(), timeout_ms: None }
}

fn edge(from: &str, to: &str) -> DagEdge {
    DagEdge { from: from.to_string(), to: to.to_string(), condition: None }
}

fn skill(nodes: Vec<DagNode>, edges: Vec<DagEdge>) -> JadeSkill {
    JadeSkill {
        jade_version: "1.0".to_string(),
        skill_id: "demo".to_string(),
        metadata: Metadata {
            name: "Demo".to_string(),
            description: "A demo skill".to_string(),
            version: "0.1.0".to_string(),
            author: String::new(),
            tags: Vec::new(),
        },
        input_schema: "{}".to_string(),
        output_schema: "{}".to_string(),
        execution_dag: ExecutionDag { nodes, edges },
        security: SecurityPolicy {
            sandbox: "strict".to_string(),
            network_whitelist: Vec::new(),
            max_execution_time_ms: 1000,
            env_whitelist: Vec::new(),
        },
        jade_signature: None,
        community_signatures: None,
    }
}

#[test]
fn schema_accepts_minimal_manifest() {
    let s = skill(vec![node("n1")], Vec::new());
    assert_eq!(validate_schema(&s), Vec::<String>::new());
}

#[test]
fn schema_reports_each_missing_field() {
    let mut s = skill(Vec::new(), Vec::new());
    s.jade_version = String::new();
    s.skill_id = String::new();
    s.metadata.name = String::new();
    assert_eq!(
        validate_schema(&s),
        vec![
            "Missing jade_version".to_string(),
            "Missing skill_id".to_string(),
            "Missing metadata.name".to_string(),
            "DAG has no nodes".to_string(),
        ]
    );
}

#[test]
fn schema_reports_missing_skill_id_and_duplicate_node() {
    let mut s = skill(vec![node("n1"), node("n1")], Vec::new());
    s.skill_id = String::new();
    assert_eq!(
        validate_schema(&s),
        vec!["Missing skill_id".to_string(), "Duplicate node ID: n1".to_string()]
    );
}

#[test]
fn schema_reports_empty_node_list() {
    let s = skill(Vec::new(), Vec::new());
    assert_eq!(validate_schema(&s), vec!["DAG has no nodes".to_string()]);
}

#[test]
fn schema_three_defects_give_three_distinct_errors() {
    let mut missing = skill(vec![node("n1")], Vec::new());
    missing.skill_id = String::new();
    let empty = skill(Vec::new(), Vec::new());
    let repeated = skill(vec![node("n1"), node("n1")], Vec::new());
    let a = validate_schema(&missing);
    let b = validate_schema(&empty);
    let c = validate_schema(&repeated);
    assert_eq!(a, vec!["Missing skill_id".to_string()]);
    assert_eq!(b, vec!["DAG has no nodes".to_string()]);
    assert_eq!(c, vec!["Duplicate node ID: n1".to_string()]);
    assert_ne!(a[0], b[0]);
    assert_ne!(a[0], c[0]);
    assert_ne!(b[0], c[0]);
}

#[test]
fn schema_reports_a_repeated_identifier_once_at_its_second_occurrence() {
    let s = skill(vec![node("a"), node("b"), node("a"), node("a"), node("b")], Vec::new());
    assert_eq!(
        validate_schema(&s),
        vec!["Duplicate node ID: a".to_string(), "Duplicate node ID: b".to_string()]
    );
}

#[test]
fn schema_reports_each_dangling_endpoint() {
    let s = skill(
        vec![node("a"), node("b")],
        vec![edge("a", "b"), edge("a", "x"), edge("y", "b"), edge("p", "q")],
    );
    assert_eq!(
        validate_schema(&s),
        vec![
            "Edge references unknown node: x".to_string(),
            "Edge references unknown node: y".to_string(),
            "Edge references unknown node: p".to_string(),
            "Edge references unknown node: q".to_string(),
        ]
    );
}

#[test]
fn schema_checks_do_not_stop_each_other() {
    let mut s = skill(vec![node("a"), node("a")], vec![edge("a", "zz")]);
    s.jade_version = String::new();
    assert_eq!(
        validate_schema(&s),
        vec![
            "Missing jade_version".to_string(),
            "Duplicate node ID: a".to_string(),
            "Edge references unknown node: zz".to_string(),
        ]
    );
}

#[test]
fn schema_identifiers_differ_by_case() {
    let s = skill(vec![node("a"), node("A")], vec![edge("a", "A")]);
    assert_eq!(validate_schema(&s), Vec::<String>::new());
}
