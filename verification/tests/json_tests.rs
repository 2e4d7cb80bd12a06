use jadegate::json::{canonical_text, enclosed, manifest_text};
use jadegate::schema::{
    CommunitySignature, DagEdge, DagNode, ExecutionDag, JadeSignature, JadeSkill, Metadata,
    SecurityPolicy,
};

fn skill() -> JadeSkill {
    JadeSkill {
        jade_version: "1.0".to_string(),
        skill_id: "demo".to_string(),
        metadata: Metadata {
            name: "Demo".to_string(),
            description: "A demo skill".to_string(),
            version: "0.1.0".to_string(),
            author: String::new(),
            tags: Vec::new(),
        },
        input_schema: "{}".to_string(),
        output_schema: "{}".to_string(),
        execution_dag: ExecutionDag {
            nodes: vec![DagNode {
                id: "n1".to_string(),
                action: "fetch".to_string(),
                params: Vec::new(),
                timeout_ms: None,
            }],
            edges: Vec::new(),
        },
        security: SecurityPolicy {
            sandbox: "strict".to_string(),
            network_whitelist: Vec::new(),
            max_execution_time_ms: 1000,
            env_whitelist: Vec::new(),
        },
        jade_signature: None,
        community_signatures: None,
    }
}

fn seal() -> JadeSignature {
    JadeSignature {
        signer: "root".to_string(),
        algorithm: "ed25519".to_string(),
        public_key: "jade-pk-root-AAAA".to_string(),
        content_hash: "sha256:00".to_string(),
        signature: "BBBB".to_string(),
        signed_at: "2024-01-01T00:00:00Z".to_string(),
    }
}

const MINIMAL: &str = "{\"jade_version\":\"1.0\",\"skill_id\":\"demo\",\"metadata\":{\"name\":\"Demo\",\"description\":\"A demo skill\",\"version\":\"0.1.0\",\"author\":\"\",\"tags\":[]},\"input_schema\":{},\"output_schema\":{},\"execution_dag\":{\"nodes\":[{\"id\":\"n1\",\"action\":\"fetch\",\"params\":{},\"timeout_ms\":null}],\"edges\":[]},\"security\":{\"sandbox\":\"strict\",\"network_whitelist\":[],\"max_execution_time_ms\":1000,\"env_whitelist\":[]}}";

#[test]
fn text_of_the_minimal_manifest() {
    assert_eq!(manifest_text(&skill()), MINIMAL);
    assert_eq!(canonical_text(&skill()), MINIMAL);
}

#[test]
fn text_of_a_full_manifest() {
    let mut s = skill();
    s.metadata.author = "me".to_string();
    s.metadata.tags = vec!["a".to_string(), "b".to_string()];
    s.input_schema = "{\"type\":\"object\"}".to_string();
    s.output_schema = "[1,2.5,null,true]".to_string();
    s.execution_dag.nodes = vec![
        DagNode {
            id: "n1".to_string(),
            action: "fetch".to_string(),
            params: vec![
                ("url".to_string(), "\"https://example.com\"".to_string()),
                ("retries".to_string(), "3".to_string()),
            ],
            timeout_ms: Some(250),
        },
        DagNode {
            id: "n2".to_string(),
            action: String::new(),
            params: Vec::new(),
            timeout_ms: Some(0),
        },
    ];
    s.execution_dag.edges = vec![
        DagEdge { from: "n1".to_string(), to: "n2".to_string(), condition: None },
        DagEdge { from: "n1".to_string(), to: "n2".to_string(), condition: Some("ok".to_string()) },
    ];
    s.security.sandbox = "standard".to_string();
    s.security.network_whitelist = vec!["api.example.com".to_string()];
    s.security.max_execution_time_ms = 18_446_744_073_709_551_615;
    s.security.env_whitelist = vec!["HOME".to_string(), "PATH".to_string()];
    let body = "{\"jade_version\":\"1.0\",\"skill_id\":\"demo\",\"metadata\":{\"name\":\"Demo\",\"description\":\"A demo skill\",\"version\":\"0.1.0\",\"author\":\"me\",\"tags\":[\"a\",\"b\"]},\"input_schema\":{\"type\":\"object\"},\"output_schema\":[1,2.5,null,true],\"execution_dag\":{\"nodes\":[{\"id\":\"n1\",\"action\":\"fetch\",\"params\":{\"url\":\"https://example.com\",\"retries\":3},\"timeout_ms\":250},{\"id\":\"n2\",\"action\":\"\",\"params\":{},\"timeout_ms\":0}],\"edges\":[{\"from\":\"n1\",\"to\":\"n2\"},{\"from\":\"n1\",\"to\":\"n2\",\"condition\":\"ok\"}]},\"security\":{\"sandbox\":\"standard\",\"network_whitelist\":[\"api.example.com\"],\"max_execution_time_ms\":18446744073709551615,\"env_whitelist\":[\"HOME\",\"PATH\"]}";
    assert_eq!(manifest_text(&s), format!("{}}}", body));
    assert_eq!(canonical_text(&s), format!("{}}}", body));

    s.jade_signature = Some(seal());
    s.community_signatures = Some(vec![
        CommunitySignature {
            signer_fingerprint: "SHA256:x".to_string(),
            public_key: "k1".to_string(),
            content_hash: "h1".to_string(),
            signature: "s1".to_string(),
            signed_at: "t1".to_string(),
            trust_level: "high".to_string(),
        },
        CommunitySignature {
            signer_fingerprint: "SHA256:y".to_string(),
            public_key: "k2".to_string(),
            content_hash: "h2".to_string(),
            signature: "s2".to_string(),
            signed_at: "t2".to_string(),
            trust_level: "low".to_string(),
        },
    ]);
    let seals = ",\"jade_signature\":{\"signer\":\"root\",\"algorithm\":\"ed25519\",\"public_key\":\"jade-pk-root-AAAA\",\"content_hash\":\"sha256:00\",\"signature\":\"BBBB\",\"signed_at\":\"2024-01-01T00:00:00Z\"},\"community_signatures\":[{\"signer_fingerprint\":\"SHA256:x\",\"public_key\":\"k1\",\"content_hash\":\"h1\",\"signature\":\"s1\",\"signed_at\":\"t1\",\"trust_level\":\"high\"},{\"signer_fingerprint\":\"SHA256:y\",\"public_key\":\"k2\",\"content_hash\":\"h2\",\"signature\":\"s2\",\"signed_at\":\"t2\",\"trust_level\":\"low\"}]";
    assert_eq!(manifest_text(&s), format!("{}{}}}", body, seals));
    assert_eq!(canonical_text(&s), format!("{}}}", body));
}

#[test]
fn canonical_text_leaves_out_both_signature_members() {
    let mut s = skill();
    s.jade_signature = Some(seal());
    s.community_signatures = Some(Vec::new());
    assert_eq!(canonical_text(&s), MINIMAL);
    let whole = manifest_text(&s);
    assert!(whole.contains("\"jade_signature\":{"));
    assert!(whole.ends_with(",\"community_signatures\":[]}"));
    s.jade_signature = None;
    assert_eq!(
        manifest_text(&s),
        format!("{},\"community_signatures\":[]}}", &MINIMAL[..MINIMAL.len() - 1])
    );
}

#[test]
fn strings_are_written_as_json_literals() {
    let mut s = skill();
    s.skill_id = "a\"b\\c\nd\te\u{1}é".to_string();
    let text = manifest_text(&s);
    assert!(text.contains("\"skill_id\":\"a\\\"b\\\\c\\nd\\te\\u0001é\","));
    let value: serde_json::Value = serde_json::from_str(&text).unwrap();
    assert_eq!(value["skill_id"].as_str(), Some("a\"b\\c\nd\te\u{1}é"));
}

#[test]
fn text_reads_back_as_the_same_manifest() {
    let mut s = skill();
    s.metadata.tags = vec!["x,y".to_string(), "[z]".to_string()];
    s.execution_dag.nodes[0].params = vec![("depth".to_string(), "{\"max\":2}".to_string())];
    s.execution_dag.nodes[0].timeout_ms = Some(42);
    s.execution_dag.edges =
        vec![DagEdge { from: "n1".to_string(), to: "n1".to_string(), condition: None }];
    s.jade_signature = Some(seal());
    let value: serde_json::Value = serde_json::from_str(&manifest_text(&s)).unwrap();
    assert_eq!(value["jade_version"].as_str(), Some("1.0"));
    assert_eq!(value["metadata"]["tags"][0].as_str(), Some("x,y"));
    assert_eq!(value["metadata"]["tags"][1].as_str(), Some("[z]"));
    assert_eq!(value["execution_dag"]["nodes"][0]["params"]["depth"]["max"].as_u64(), Some(2));
    assert_eq!(value["execution_dag"]["nodes"][0]["timeout_ms"].as_u64(), Some(42));
    assert_eq!(value["execution_dag"]["edges"][0]["from"].as_str(), Some("n1"));
    assert!(value["execution_dag"]["edges"][0].get("condition").is_none());
    assert_eq!(value["security"]["max_execution_time_ms"].as_u64(), Some(1000));
    assert_eq!(value["jade_signature"]["signer"].as_str(), Some("root"));
    assert!(value.get("community_signatures").is_none());
    let bare: serde_json::Value = serde_json::from_str(&canonical_text(&s)).unwrap();
    assert!(bare.get("jade_signature").is_none());
}

#[test]
fn items_are_joined_by_commas_between_brackets() {
    assert_eq!(enclosed("[", &Vec::new(), "]"), "[]");
    assert_eq!(enclosed("[", &vec!["1".to_string()], "]"), "[1]");
    assert_eq!(
        enclosed("{", &vec!["\"a\":1".to_string(), "\"b\":2".to_string(), "\"c\":3".to_string()], "}"),
        "{\"a\":1,\"b\":2,\"c\":3}"
    );
}
