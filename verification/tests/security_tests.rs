use jadegate::schema::{DagNode, ExecutionDag, JadeSkill, Metadata, SecurityPolicy};
use jadegate::security::{
    domain_matches_whitelist, entry_warnings, injection_table, is_internal, scan_text,
    sensitive_findings, sensitive_table, validate_security,
};

fn skill() -> JadeSkill {
    JadeSkill {
        jade_version: "1.0".to_string(),
        skill_id: "demo".to_string(),
        metadata: Metadata {
            name: "Demo".to_string(),
            description: "A demo skill".to_string(),
            version: "0.1.0".to_string(),
            author: String::new(),
            tags: Vec::new(),
        },
        input_schema: "{}".to_string(),
        output_schema: "{}".to_string(),
        execution_dag: ExecutionDag {
            nodes: vec![DagNode {
                id: "n1".to_string(),
                action: "fetch".to_string(),
                params: Vec::new(),
                timeout_ms: None,
            }],
            edges: Vec::new(),
        },
        security: SecurityPolicy {
            sandbox: "strict".to_string(),
            network_whitelist: Vec::new(),
            max_execution_time_ms: 1000,
            env_whitelist: Vec::new(),
        },
        jade_signature: None,
        community_signatures: None,
    }
}

fn warning(message: &str) -> (String, String) {
    ("warning".to_string(), message.to_string())
}

fn error(message: &str) -> (String, String) {
    ("error".to_string(), message.to_string())
}

fn list(entries: &[&str]) -> Vec<String> {
    entries.iter().map(|s| s.to_string()).collect()
}

#[test]
fn whitelist_suffix_entry_matches_subdomain() {
    assert!(domain_matches_whitelist("api.example.com", &list(&["*.example.com"])));
}

#[test]
fn whitelist_suffix_entry_does_not_match_bare_domain() {
    assert!(!domain_matches_whitelist("example.com", &list(&["*.example.com"])));
    assert!(!domain_matches_whitelist("notexample.com", &list(&["*.example.com"])));
}

#[test]
fn whitelist_star_matches_everything() {
    assert!(domain_matches_whitelist("evil.com", &list(&["*"])));
    assert!(domain_matches_whitelist("", &list(&["other.org", "*"])));
}

#[test]
fn whitelist_exact_entry_and_empty_list() {
    assert!(domain_matches_whitelist("example.com", &list(&["a.org", "example.com"])));
    assert!(!domain_matches_whitelist("example.com", &list(&["a.org", "Example.com"])));
    assert!(!domain_matches_whitelist("example.com", &[]));
    assert!(domain_matches_whitelist("a.b.c.example.com", &list(&["*.example.com"])));
    assert!(domain_matches_whitelist(".example.com", &list(&["*.example.com"])));
    assert!(!domain_matches_whitelist("example.com", &list(&["*example.com"])));
}

#[test]
fn clean_policy_has_no_findings() {
    assert_eq!(validate_security(&skill()), Vec::new());
    let mut s = skill();
    s.security.sandbox = "standard".to_string();
    s.security.network_whitelist = list(&["api.example.com", "*"]);
    s.security.max_execution_time_ms = 300_000;
    s.security.env_whitelist = list(&["HOME", "PATH"]);
    assert_eq!(validate_security(&s), Vec::new());
}

#[test]
fn unknown_sandbox_is_an_error() {
    let mut s = skill();
    s.security.sandbox = "loose".to_string();
    assert_eq!(
        validate_security(&s),
        vec![error("Unknown sandbox level: 'loose'. Must be 'strict' or 'standard'")]
    );
    s.security.sandbox = "Strict".to_string();
    assert_eq!(
        validate_security(&s),
        vec![error("Unknown sandbox level: 'Strict'. Must be 'strict' or 'standard'")]
    );
}

#[test]
fn wildcard_under_strict_sandbox_is_a_warning() {
    let mut s = skill();
    s.security.network_whitelist = list(&["*"]);
    assert_eq!(
        validate_security(&s),
        vec![warning("Wildcard '*' in network_whitelist with strict sandbox")]
    );
}

#[test]
fn internal_targets_are_warnings() {
    let mut s = skill();
    s.security.network_whitelist = list(&[
        "localhost",
        "LocalHost",
        "127.0.0.1",
        "10.1.2.3",
        "192.168.0.7",
        "0.0.0.0",
        "localhost.example.com",
        "110.1.2.3",
        "example.com",
    ]);
    assert_eq!(
        validate_security(&s),
        vec![
            warning("Suspicious domain in whitelist: 'localhost'"),
            warning("Suspicious domain in whitelist: 'LocalHost'"),
            warning("Suspicious domain in whitelist: '127.0.0.1'"),
            warning("Suspicious domain in whitelist: '10.1.2.3'"),
            warning("Suspicious domain in whitelist: '192.168.0.7'"),
            warning("Suspicious domain in whitelist: '0.0.0.0'"),
        ]
    );
}

#[test]
fn internal_target_is_decided_on_the_lower_case_entry() {
    assert!(is_internal("localhost"));
    assert!(!is_internal("LOCALHOST"));
    assert!(is_internal("127."));
    assert!(is_internal("0.0.0.0:80"));
    assert!(!is_internal("0.0.0."));
    assert!(!is_internal(""));
    assert_eq!(
        entry_warnings("standard", "LOCALHOST", "localhost"),
        vec![warning("Suspicious domain in whitelist: 'LOCALHOST'")]
    );
    assert_eq!(entry_warnings("standard", "*", "*"), Vec::new());
}

#[test]
fn timeouts_without_or_beyond_bound_are_warnings() {
    let mut s = skill();
    s.security.max_execution_time_ms = 0;
    assert_eq!(validate_security(&s), vec![warning("No execution timeout set")]);
    s.security.max_execution_time_ms = 300_001;
    assert_eq!(validate_security(&s), vec![warning("Very long timeout: 300001ms (>5min)")]);
    s.security.max_execution_time_ms = 300_000;
    assert_eq!(validate_security(&s), Vec::new());
    s.security.max_execution_time_ms = 1;
    assert_eq!(validate_security(&s), Vec::new());
}

#[test]
fn eval_anywhere_is_an_error() {
    let mut s = skill();
    s.metadata.description = "the docs mention eval(x) only in passing".to_string();
    assert_eq!(
        validate_security(&s),
        vec![error("Potential code injection: pattern 'eval(' found in skill")]
    );
    let mut s = skill();
    s.execution_dag.nodes[0].params = vec![("code".to_string(), "\"eval(1)\"".to_string())];
    assert_eq!(
        validate_security(&s),
        vec![error("Potential code injection: pattern 'eval(' found in skill")]
    );
    let mut s = skill();
    s.skill_id = "eval(".to_string();
    assert_eq!(
        validate_security(&s),
        vec![error("Potential code injection: pattern 'eval(' found in skill")]
    );
}

#[test]
fn every_occurrence_of_every_pattern_is_an_error() {
    let mut s = skill();
    s.metadata.description = "${a} and ${b}, then `c`".to_string();
    assert_eq!(
        validate_security(&s),
        vec![
            error("Potential code injection: pattern '${' found in skill"),
            error("Potential code injection: pattern '${' found in skill"),
            error("Potential code injection: pattern '`' found in skill"),
            error("Potential code injection: pattern '`' found in skill"),
        ]
    );
}

#[test]
fn patterns_are_reported_in_table_order() {
    let found = scan_text("x`y $(z) import os; exec(a)", &injection_table());
    assert_eq!(
        found,
        vec![
            error("Potential code injection: pattern 'exec(' found in skill"),
            error("Potential code injection: pattern 'import ' found in skill"),
            error("Potential code injection: pattern '$(' found in skill"),
            error("Potential code injection: pattern '`' found in skill"),
        ]
    );
}

#[test]
fn scan_takes_any_table() {
    let table = vec!["ab", "b"];
    assert_eq!(
        scan_text("abab", &table),
        vec![
            error("Potential code injection: pattern 'ab' found in skill"),
            error("Potential code injection: pattern 'ab' found in skill"),
            error("Potential code injection: pattern 'b' found in skill"),
            error("Potential code injection: pattern 'b' found in skill"),
        ]
    );
    assert_eq!(scan_text("abab", &Vec::new()), Vec::new());
}

#[test]
fn tables_hold_the_known_patterns() {
    let table = injection_table();
    assert_eq!(table.len(), 20);
    assert_eq!(table[0], "eval(");
    assert_eq!(table[16], "${");
    assert_eq!(table[19], "\\x00");
    assert_eq!(table[19].len(), 4);
    assert_eq!(
        sensitive_table(),
        vec!["AWS_SECRET", "PRIVATE_KEY", "PASSWORD", "DATABASE_URL", "MONGO_URI"]
    );
}

#[test]
fn sensitive_environment_names_are_warnings() {
    let mut s = skill();
    s.security.env_whitelist = list(&["HOME", "db_password", "AWS_SECRET_PASSWORD", "Mongo_Uri"]);
    assert_eq!(
        validate_security(&s),
        vec![
            warning("Sensitive env var pattern 'db_password' in env_whitelist"),
            warning("Sensitive env var pattern 'AWS_SECRET_PASSWORD' in env_whitelist"),
            warning("Sensitive env var pattern 'AWS_SECRET_PASSWORD' in env_whitelist"),
            warning("Sensitive env var pattern 'Mongo_Uri' in env_whitelist"),
        ]
    );
}

#[test]
fn sensitive_name_is_decided_on_the_upper_case_name() {
    assert_eq!(
        sensitive_findings("key", "MY_PRIVATE_KEY"),
        vec![warning("Sensitive env var pattern 'key' in env_whitelist")]
    );
    assert_eq!(sensitive_findings("my_private_key", "my_private_key"), Vec::new());
}

#[test]
fn findings_come_in_the_order_of_the_checks() {
    let mut s = skill();
    s.security.sandbox = "none".to_string();
    s.security.network_whitelist = list(&["10.0.0.1"]);
    s.security.max_execution_time_ms = 0;
    s.security.env_whitelist = list(&["DATABASE_URL"]);
    s.metadata.author = "<script>".to_string();
    assert_eq!(
        validate_security(&s),
        vec![
            error("Unknown sandbox level: 'none'. Must be 'strict' or 'standard'"),
            warning("Suspicious domain in whitelist: '10.0.0.1'"),
            warning("No execution timeout set"),
            error("Potential code injection: pattern '<script' found in skill"),
            warning("Sensitive env var pattern 'DATABASE_URL' in env_whitelist"),
        ]
    );
}
