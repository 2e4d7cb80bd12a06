//! The five-layer pipeline: schema, graph, policy and injection, and
//! signature, each entered only when the layer before it raised no error.

use vstd::prelude::*;
use vstd::string::{StrSliceExecFns, StringExecFns};
use vstd::utf8::encode_utf8;
use crate::crypto::{verdict_view, verification, verify_signature};
use crate::dag::{
    connected, dag_errors, has_directed_cycle, lemma_graph_layer, sound_graph, validate_dag,
};
use crate::json::{canonical_json, canonical_text, manifest_json};
use crate::schema::{
    joined, keeps_invariants, lemma_well_formed, schema_errors, validate_schema,
    JadeSignatureView, JadeSkill, JadeSkillView,
};
use crate::security::{
    has_error_finding, injection_findings, injection_patterns, lemma_patterns_hold_text,
    lemma_policy_layer, lemma_scan_holds,
    network_findings, pattern_findings, sandbox_findings, security_findings, timeout_findings,
    validate_security, Finding,
};
use crate::text::{begins_with, chars_of, contains, lemma_occurrences, same_text, starts_with};

verus! {

/// How grave an issue is. Only an error makes a manifest invalid.
#[derive(Debug, Clone, Copy, PartialEq, Eq, Structural)]
pub enum Severity {
    Error,
    Warning,
    Info,
}

/// One finding of the pipeline.
#[derive(Debug)]
pub struct ValidationIssue {
    /// The layer that raised the issue, from 1 to 5.
    pub layer: u8,
    pub severity: Severity,
    /// A short, stable code for the kind of issue.
    pub code: String,
    pub message: String,
}

/// The verdict on a manifest.
#[derive(Debug)]
pub struct ValidationResult {
    /// Whether no issue is an error.
    pub valid: bool,
    pub issues: Vec<ValidationIssue>,
    /// The deepest layer that the manifest passed: 0, 1, 2, 4 or 5.
    pub layers_passed: u8,
}

/// An issue, over characters.
pub struct ValidationIssueView {
    pub layer: u8,
    pub severity: Severity,
    pub code: Seq<char>,
    pub message: Seq<char>,
}

/// A verdict, over characters.
pub struct ValidationResultView {
    pub valid: bool,
    pub issues: Seq<ValidationIssueView>,
    pub layers_passed: u8,
}

impl View for ValidationIssue {
    type V = ValidationIssueView;

    open spec fn view(&self) -> ValidationIssueView {
        ValidationIssueView {
            layer: self.layer,
            severity: self.severity,
            code: self.code@,
            message: self.message@,
        }
    }
}

/// The issues of a list, over characters.
pub open spec fn issue_views(issues: Seq<ValidationIssue>) -> Seq<ValidationIssueView> {
    issues.map_values(|i: ValidationIssue| i@)
}

impl View for ValidationResult {
    type V = ValidationResultView;

    open spec fn view(&self) -> ValidationResultView {
        ValidationResultView {
            valid: self.valid,
            issues: issue_views(self.issues@),
            layers_passed: self.layers_passed,
        }
    }
}

/// An error of the given layer for each message.
pub open spec fn errors_of(layer: u8, code: Seq<char>, messages: Seq<Seq<char>>) -> Seq<
    ValidationIssueView,
> {
    messages.map_values(
        |m: Seq<char>| ValidationIssueView { layer, severity: Severity::Error, code, message: m },
    )
}

/// The severity that a finding's word stands for: `error`, `warning`, and
/// anything else for information.
pub open spec fn severity_of(word: Seq<char>) -> Severity {
    if word == "error"@ {
        Severity::Error
    } else if word == "warning"@ {
        Severity::Warning
    } else {
        Severity::Info
    }
}

/// The findings of the scanner as issues of layer 3.
pub open spec fn security_issues(findings: Seq<Finding>) -> Seq<ValidationIssueView> {
    findings.map_values(
        |f: Finding|
            ValidationIssueView {
                layer: 3,
                severity: severity_of(f.0),
                code: "SEC_ISSUE"@,
                message: f.1,
            },
    )
}

/// Some issue is an error.
pub open spec fn has_error(issues: Seq<ValidationIssueView>) -> bool {
    exists|i: int| 0 <= i < issues.len() && (#[trigger] issues[i]).severity == Severity::Error
}

/// The key material of a public key field: the field without its
/// namespace tag `jade-pk-root-` or `jade-pk-ci-`, tried in that order; a
/// field with neither tag is the key material itself.
pub open spec fn key_material(field: Seq<char>) -> Seq<char> {
    if starts_with(field, "jade-pk-root-"@) {
        field.subrange("jade-pk-root-"@.len() as int, field.len() as int)
    } else if starts_with(field, "jade-pk-ci-"@) {
        field.subrange("jade-pk-ci-"@.len() as int, field.len() as int)
    } else {
        field
    }
}

/// The outcome of checking the primary signature against the canonical
/// content of the manifest.
pub open spec fn seal_outcome(skill: JadeSkillView, seal: JadeSignatureView) -> Result<
    bool,
    Seq<char>,
> {
    verification(
        key_material(seal.public_key),
        encode_utf8(canonical_json(skill)),
        seal.signature,
    )
}

/// The issue of layer 5 for the outcome of the signature check: none for
/// a signature that verifies, an error for one that does not, and a
/// warning for a signature block that is malformed.
pub open spec fn seal_issues(outcome: Result<bool, Seq<char>>) -> Seq<ValidationIssueView> {
    match outcome {
        Ok(valid) => if valid {
            Seq::empty()
        } else {
            seq![
                ValidationIssueView {
                    layer: 5,
                    severity: Severity::Error,
                    code: "SIG_INVALID"@,
                    message: "Signature verification failed"@,
                },
            ]
        },
        Err(why) => seq![
            ValidationIssueView {
                layer: 5,
                severity: Severity::Warning,
                code: "SIG_ERROR"@,
                message: "Cannot verify signature: "@ + why,
            },
        ],
    }
}

/// The verdict once the first four layers raised no error: the issues so
/// far with that of the signature check; valid unless the signature does
/// not verify; layer 5 is passed only by a signature that verifies.
pub open spec fn sealed_verdict(
    issues: Seq<ValidationIssueView>,
    outcome: Result<bool, Seq<char>>,
) -> ValidationResultView {
    ValidationResultView {
        valid: outcome != Ok::<bool, Seq<char>>(false),
        issues: issues + seal_issues(outcome),
        layers_passed: if outcome == Ok::<bool, Seq<char>>(true) {
            5
        } else {
            4
        },
    }
}

/// The verdict of the pipeline on a manifest.
pub open spec fn validation(skill: JadeSkillView) -> ValidationResultView {
    if schema_errors(skill).len() > 0 {
        ValidationResultView {
            valid: false,
            issues: errors_of(1, "SCHEMA_ERROR"@, schema_errors(skill)),
            layers_passed: 0,
        }
    } else if dag_errors(skill.execution_dag).len() > 0 {
        ValidationResultView {
            valid: false,
            issues: errors_of(2, "DAG_ERROR"@, dag_errors(skill.execution_dag)),
            layers_passed: 1,
        }
    } else if has_error(security_issues(security_findings(skill))) {
        ValidationResultView {
            valid: false,
            issues: security_issues(security_findings(skill)),
            layers_passed: 2,
        }
    } else {
        match skill.jade_signature {
            None => ValidationResultView {
                valid: true,
                issues: security_issues(security_findings(skill)),
                layers_passed: 5,
            },
            Some(seal) => sealed_verdict(
                security_issues(security_findings(skill)),
                seal_outcome(skill, seal),
            ),
        }
    }
}

/// The verdict is valid exactly when no issue is an error. The layer that
/// it names as passed is 0, 1, 2, 4 or 5: it is 0 exactly when the schema
/// has an error, and it is 5 only for a valid manifest.
pub proof fn lemma_verdict(skill: JadeSkillView)
    ensures
        validation(skill).valid <==> !has_error(validation(skill).issues),
        validation(skill).layers_passed == 0 || validation(skill).layers_passed == 1
            || validation(skill).layers_passed == 2 || validation(skill).layers_passed == 4
            || validation(skill).layers_passed == 5,
        validation(skill).layers_passed == 0 <==> schema_errors(skill).len() > 0,
        validation(skill).layers_passed == 5 ==> validation(skill).valid,
{
    let verdict = validation(skill);
    let found = security_issues(security_findings(skill));
    if schema_errors(skill).len() > 0 {
        assert(verdict.issues[0].severity == Severity::Error);
    } else if dag_errors(skill.execution_dag).len() > 0 {
        assert(verdict.issues[0].severity == Severity::Error);
    } else if has_error(found) {
    } else {
        match skill.jade_signature {
            None => {},
            Some(seal) => {
                let outcome = seal_outcome(skill, seal);
                let extra = seal_issues(outcome);
                if outcome == Ok::<bool, Seq<char>>(false) {
                    assert(verdict.issues[found.len() as int] == extra[0]);
                    assert(verdict.issues[found.len() as int].severity == Severity::Error);
                } else {
                    if has_error(verdict.issues) {
                        let i = choose|i: int|
                            0 <= i < verdict.issues.len() && (#[trigger] verdict.issues[i]).severity
                                == Severity::Error;
                        if i < found.len() {
                            assert(found[i].severity == Severity::Error);
                        } else {
                            assert(verdict.issues[i] == extra[i - found.len()]);
                        }
                    }
                }
            },
        }
    }
}

/// The issues of the scanner hold an error exactly when its findings do.
proof fn lemma_error_issues(findings: Seq<Finding>)
    ensures
        has_error(security_issues(findings)) <==> has_error_finding(findings),
{
    let issues = security_issues(findings);
    if has_error(issues) {
        let i = choose|i: int| 0 <= i < issues.len() && (#[trigger] issues[i]).severity == Severity::Error;
        assert(findings[i].0 == "error"@);
    }
    if has_error_finding(findings) {
        let i = choose|i: int| 0 <= i < findings.len() && (#[trigger] findings[i]).0 == "error"@;
        assert(issues[i].severity == Severity::Error);
    }
}

/// What a valid verdict means. A manifest whose lists a machine can hold
/// is valid exactly when it keeps the invariants of the data model, its
/// graph has no directed cycle and leaves no node unconnected, its
/// sandbox level is known, no injection pattern stands in its text, and
/// its primary signature, if it has one, is not proved wrong.
pub proof fn lemma_valid(skill: JadeSkillView)
    requires
        skill.execution_dag.nodes.len() <= usize::MAX,
        skill.execution_dag.edges.len() <= usize::MAX,
    ensures
        validation(skill).valid <==> {
            &&& keeps_invariants(skill)
            &&& !has_directed_cycle(skill.execution_dag)
            &&& connected(skill.execution_dag)
            &&& (skill.security.sandbox == "strict"@ || skill.security.sandbox == "standard"@)
            &&& forall|k: int|
                0 <= k < injection_patterns().len() ==> !contains(
                    manifest_json(skill),
                    #[trigger] injection_patterns()[k],
                )
            &&& skill.jade_signature matches Some(seal) ==> seal_outcome(skill, seal) != Ok::<
                bool,
                Seq<char>,
            >(false)
        },
{
    lemma_well_formed(skill);
    lemma_policy_layer(skill);
    lemma_error_issues(security_findings(skill));
    if keeps_invariants(skill) {
        assert(sound_graph(skill.execution_dag)) by {
            let dag = skill.execution_dag;
            assert forall|a: int, b: int|
                0 <= a < dag.nodes.len() && 0 <= b < dag.nodes.len() && a != b implies (
            #[trigger] dag.nodes[a]).id != (#[trigger] dag.nodes[b]).id by {
                if a < b {
                    assert(dag.nodes[a].id != dag.nodes[b].id);
                } else {
                    assert(dag.nodes[b].id != dag.nodes[a].id);
                }
            }
        }
        lemma_graph_layer(skill.execution_dag);
    }
}

/// A manifest whose text holds an injection pattern, anywhere, does not
/// pass the policy layer: if its schema and its graph are in order, the
/// verdict is invalid with an error among its issues, and the run ends
/// with two layers passed.
pub proof fn lemma_injection_blocks(skill: JadeSkillView, k: int)
    requires
        0 <= k < injection_patterns().len(),
        contains(manifest_json(skill), injection_patterns()[k]),
        schema_errors(skill).len() == 0,
        dag_errors(skill.execution_dag).len() == 0,
    ensures
        !validation(skill).valid,
        validation(skill).layers_passed == 2,
        has_error(validation(skill).issues),
        validation(skill).issues == security_issues(security_findings(skill)),
{
    let text = manifest_json(skill);
    let pattern = injection_patterns()[k];
    lemma_patterns_hold_text();
    lemma_occurrences(text, pattern);
    let hits = pattern_findings(text, pattern);
    assert(hits.len() > 0);
    lemma_scan_holds(text, injection_patterns(), k, injection_patterns().len());
    let scan = injection_findings(text);
    let i = choose|i: int| 0 <= i < scan.len() && scan[i] == hits[0];
    let findings = security_findings(skill);
    let before = sandbox_findings(skill.security.sandbox) + network_findings(
        skill.security,
        skill.security.network_whitelist.len(),
    ) + timeout_findings(skill.security.max_execution_time_ms);
    assert(findings[before.len() + i] == scan[i]);
    let issues = security_issues(findings);
    assert(issues[before.len() + i].severity == Severity::Error);
}

/// Appends an issue to `list`.
pub(crate) fn push_issue(
    list: &mut Vec<ValidationIssue>,
    layer: u8,
    severity: Severity,
    code: &str,
    message: String,
)
    ensures
        issue_views(final(list)@) == issue_views(old(list)@).push(
            ValidationIssueView { layer, severity, code: code@, message: message@ },
        ),
{
    list.push(ValidationIssue { layer, severity, code: String::from_str(code), message });
    proof {
        assert(issue_views(list@) =~= issue_views(old(list)@).push(
            ValidationIssueView { layer, severity, code: code@, message: message@ },
        ));
    }
}

/// An error of the given layer for each message.
pub fn error_issues(layer: u8, code: &str, messages: Vec<String>) -> (issues: Vec<ValidationIssue>)
    ensures
        issue_views(issues@) == errors_of(layer, code@, messages.deep_view()),
{
    let ghost want = errors_of(layer, code@, messages.deep_view());
    let mut issues: Vec<ValidationIssue> = Vec::new();
    assert(issue_views(issues@) =~= want.take(0));
    let mut i: usize = 0;
    while i < messages.len()
        invariant
            i <= messages@.len(),
            want == errors_of(layer, code@, messages.deep_view()),
            issue_views(issues@) == want.take(i as int),
        decreases messages.len() - i,
    {
        let message = messages[i].clone();
        proof {
            assert(messages.deep_view()[i as int] == messages@[i as int]@);
            assert(want.take(i + 1) =~= want.take(i as int).push(want[i as int]));
        }
        push_issue(&mut issues, layer, Severity::Error, code, message);
        i += 1;
    }
    proof {
        assert(want.take(messages@.len() as int) =~= want);
    }
    issues
}

/// The severity that a finding's word stands for.
pub fn severity_from(word: &str) -> (severity: Severity)
    ensures
        severity == severity_of(word@),
{
    if same_text(word, "error") {
        Severity::Error
    } else if same_text(word, "warning") {
        Severity::Warning
    } else {
        Severity::Info
    }
}

/// The findings of the scanner as issues of layer 3.
pub fn issues_from_findings(findings: Vec<(String, String)>) -> (issues: Vec<ValidationIssue>)
    ensures
        issue_views(issues@) == security_issues(findings.deep_view()),
{
    let ghost want = security_issues(findings.deep_view());
    let mut issues: Vec<ValidationIssue> = Vec::new();
    assert(issue_views(issues@) =~= want.take(0));
    let mut i: usize = 0;
    while i < findings.len()
        invariant
            i <= findings@.len(),
            want == security_issues(findings.deep_view()),
            issue_views(issues@) == want.take(i as int),
        decreases findings.len() - i,
    {
        let severity = severity_from(findings[i].0.as_str());
        let message = findings[i].1.clone();
        proof {
            assert(findings.deep_view()[i as int] == (findings@[i as int].0@, findings@[i as int].1@));
            assert(want.take(i + 1) =~= want.take(i as int).push(want[i as int]));
        }
        push_issue(&mut issues, 3, severity, "SEC_ISSUE", message);
        i += 1;
    }
    proof {
        assert(want.take(findings@.len() as int) =~= want);
    }
    issues
}

/// Whether some issue is an error.
pub fn any_error(issues: &Vec<ValidationIssue>) -> (found: bool)
    ensures
        found == has_error(issue_views(issues@)),
{
    let mut i: usize = 0;
    while i < issues.len()
        invariant
            i <= issues@.len(),
            forall|j: int| 0 <= j < i ==> (#[trigger] issue_views(issues@)[j]).severity != Severity::Error,
        decreases issues.len() - i,
    {
        if issues[i].severity == Severity::Error {
            assert(issue_views(issues@)[i as int].severity == Severity::Error);
            return true;
        }
        i += 1;
    }
    false
}

/// The key material of a public key field: the field without its
/// namespace tag, if it has one.
pub fn strip_key_tag(field: &str) -> (key: &str)
    ensures
        key@ == key_material(field@),
{
    let chars = chars_of(field);
    let length = field.unicode_len();
    proof {
        reveal_strlit("jade-pk-root-");
        reveal_strlit("jade-pk-ci-");
    }
    if begins_with(chars.as_slice(), chars_of("jade-pk-root-").as_slice()) {
        field.substring_char(13, length)
    } else if begins_with(chars.as_slice(), chars_of("jade-pk-ci-").as_slice()) {
        field.substring_char(11, length)
    } else {
        field
    }
}

/// Closes the verdict with the outcome of the signature check, once the
/// first four layers raised no error. A signature that verifies passes
/// layer 5; one that does not is an error, `SIG_INVALID`; a malformed
/// signature block is a warning, `SIG_ERROR`, and leaves the manifest
/// valid. Neither of the last two passes layer 5.
pub fn seal_verdict(issues: Vec<ValidationIssue>, outcome: Result<bool, String>) -> (result:
    ValidationResult)
    ensures
        result@ == sealed_verdict(issue_views(issues@), verdict_view(outcome)),
{
    let mut issues = issues;
    let ghost before = issue_views(issues@);
    match outcome {
        Ok(true) => {
            proof {
                assert(issue_views(issues@) =~= before + seal_issues(verdict_view(outcome)));
            }
            ValidationResult { valid: true, issues, layers_passed: 5 }
        },
        Ok(false) => {
            push_issue(
                &mut issues,
                5,
                Severity::Error,
                "SIG_INVALID",
                String::from_str("Signature verification failed"),
            );
            proof {
                assert(issue_views(issues@) =~= before + seal_issues(verdict_view(outcome)));
            }
            ValidationResult { valid: false, issues, layers_passed: 4 }
        },
        Err(why) => {
            push_issue(
                &mut issues,
                5,
                Severity::Warning,
                "SIG_ERROR",
                joined("Cannot verify signature: ", why.as_str()),
            );
            proof {
                assert(issue_views(issues@) =~= before + seal_issues(verdict_view(outcome)));
            }
            ValidationResult { valid: true, issues, layers_passed: 4 }
        },
    }
}

/// The validator: it holds no state, and every validation stands alone.
pub struct JadeValidator;

impl JadeValidator {
    pub fn new() -> (validator: Self) {
        JadeValidator
    }

    /// Runs the pipeline on a manifest.
    ///
    /// The schema is checked first, then the graph, then the policy and
    /// the manifest's text; the first of them that raises an error ends
    /// the run with its issues. A manifest without a primary signature is
    /// then valid and unsealed. Otherwise the signature is checked against
    /// the canonical content, under the key material of its public key.
    /// `raw_json`, the text that the manifest was read from, is not
    /// consulted.
    pub fn validate(&self, skill: &JadeSkill, raw_json: &str) -> (result: ValidationResult)
        ensures
            result@ == validation(skill@),
    {
        let schema = validate_schema(skill);
        if schema.len() > 0 {
            let issues = error_issues(1, "SCHEMA_ERROR", schema);
            return ValidationResult { valid: false, issues, layers_passed: 0 };
        }
        let graph = validate_dag(skill);
        if graph.len() > 0 {
            let issues = error_issues(2, "DAG_ERROR", graph);
            return ValidationResult { valid: false, issues, layers_passed: 1 };
        }
        let issues = issues_from_findings(validate_security(skill));
        if any_error(&issues) {
            return ValidationResult { valid: false, issues, layers_passed: 2 };
        }
        match &skill.jade_signature {
            None => ValidationResult { valid: true, issues, layers_passed: 5 },
            Some(seal) => {
                let key = strip_key_tag(seal.public_key.as_str());
                let content = canonical_text(skill);
                let outcome = verify_signature(
                    key,
                    content.as_str().as_bytes(),
                    seal.signature.as_str(),
                );
                seal_verdict(issues, outcome)
            },
        }
    }
}

} // verus!
