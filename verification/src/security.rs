//! Layers 3 and 4: the declared security policy and the scan of the whole
//! manifest for dangerous text.

use vstd::prelude::*;
use vstd::string::StringExecFns;
use crate::json::{manifest_json, manifest_text};
use crate::schema::{joined, JadeSkill, JadeSkillView, SecurityPolicyView};
use crate::text::{
    begins_with, chars_of, contains, count_occurrences, decimal, ends_with, finishes_with,
    has_occurrence, lemma_occurrences, lowercase, occurrences, push_decimal, same_chars, same_text,
    starts_with, to_lowercase, to_uppercase, uppercase,
};

verus! {

/// A finding of the scanner: its severity, `error` or `warning`, and its
/// message.
pub type Finding = (Seq<char>, Seq<char>);

/// The substrings that mark an attempt to inject code.
pub open spec fn injection_patterns() -> Seq<Seq<char>> {
    seq![
        "eval("@,
        "exec("@,
        "import "@,
        "__import__"@,
        "subprocess"@,
        "os.system"@,
        "os.popen"@,
        "child_process"@,
        "require("@,
        "Function("@,
        "<script"@,
        "javascript:"@,
        "data:text/html"@,
        "; DROP "@,
        "UNION SELECT"@,
        "OR 1=1"@,
        "${"@,
        "$("@,
        "`"@,
        "\\x00"@,
    ]
}

/// The substrings that mark the name of a secret.
pub open spec fn sensitive_names() -> Seq<Seq<char>> {
    seq!["AWS_SECRET"@, "PRIVATE_KEY"@, "PASSWORD"@, "DATABASE_URL"@, "MONGO_URI"@]
}

/// The longest execution time, in milliseconds, that draws no warning.
pub const LONGEST_TIMEOUT_MS: u64 = 300_000;

/// One finding if `found`, else none.
pub open spec fn finding_if(found: bool, severity: Seq<char>, message: Seq<char>) -> Seq<Finding> {
    if found {
        seq![(severity, message)]
    } else {
        Seq::empty()
    }
}

/// An error unless the sandbox level is `strict` or `standard`.
pub open spec fn sandbox_findings(sandbox: Seq<char>) -> Seq<Finding> {
    finding_if(
        sandbox != "strict"@ && sandbox != "standard"@,
        "error"@,
        "Unknown sandbox level: '"@ + sandbox + "'. Must be 'strict' or 'standard'"@,
    )
}

/// `lower` names this machine or a private network: it is `localhost`, or
/// begins like a loopback, private or unspecified address.
pub open spec fn is_internal_target(lower: Seq<char>) -> bool {
    lower == "localhost"@ || starts_with(lower, "127."@) || starts_with(lower, "10."@)
        || starts_with(lower, "192.168."@) || starts_with(lower, "0.0.0.0"@)
}

/// The warnings for one entry of the network whitelist, given the entry in
/// lower case.
pub open spec fn entry_findings(sandbox: Seq<char>, domain: Seq<char>, lower: Seq<char>) -> Seq<
    Finding,
> {
    finding_if(
        domain == "*"@ && sandbox == "strict"@,
        "warning"@,
        "Wildcard '*' in network_whitelist with strict sandbox"@,
    ) + finding_if(
        is_internal_target(lower),
        "warning"@,
        "Suspicious domain in whitelist: '"@ + domain + "'"@,
    )
}

/// The warnings for the first `upto` entries of the network whitelist.
pub open spec fn network_findings(policy: SecurityPolicyView, upto: nat) -> Seq<Finding>
    decreases upto,
{
    if upto == 0 {
        Seq::empty()
    } else {
        network_findings(policy, (upto - 1) as nat) + entry_findings(
            policy.sandbox,
            policy.network_whitelist[upto - 1],
            lowercase(policy.network_whitelist[upto - 1]),
        )
    }
}

/// A warning for no bound on the execution time, and one for a bound of
/// more than five minutes.
pub open spec fn timeout_findings(ms: u64) -> Seq<Finding> {
    finding_if(ms == 0, "warning"@, "No execution timeout set"@) + finding_if(
        ms > LONGEST_TIMEOUT_MS,
        "warning"@,
        "Very long timeout: "@ + decimal(ms as nat) + "ms (>5min)"@,
    )
}

/// One error for each place in `text` at which `pattern` starts.
pub open spec fn pattern_findings(text: Seq<char>, pattern: Seq<char>) -> Seq<Finding> {
    Seq::new(
        occurrences(text, pattern),
        |i: int|
            ("error"@, "Potential code injection: pattern '"@ + pattern + "' found in skill"@),
    )
}

/// The errors for the first `upto` patterns, pattern by pattern.
pub open spec fn scan_findings(text: Seq<char>, patterns: Seq<Seq<char>>, upto: nat) -> Seq<
    Finding,
>
    decreases upto,
{
    if upto == 0 {
        Seq::empty()
    } else {
        scan_findings(text, patterns, (upto - 1) as nat) + pattern_findings(
            text,
            patterns[upto - 1],
        )
    }
}

/// The errors for every occurrence of every injection pattern in `text`.
pub open spec fn injection_findings(text: Seq<char>) -> Seq<Finding> {
    scan_findings(text, injection_patterns(), injection_patterns().len())
}

/// The warnings for one environment variable, given its name in upper
/// case: one for each of the first `upto` sensitive names that it holds.
pub open spec fn name_findings(env: Seq<char>, upper: Seq<char>, upto: nat) -> Seq<Finding>
    decreases upto,
{
    if upto == 0 {
        Seq::empty()
    } else {
        name_findings(env, upper, (upto - 1) as nat) + finding_if(
            contains(upper, sensitive_names()[upto - 1]),
            "warning"@,
            "Sensitive env var pattern '"@ + env + "' in env_whitelist"@,
        )
    }
}

/// The warnings for the first `upto` entries of the environment whitelist.
pub open spec fn env_findings(policy: SecurityPolicyView, upto: nat) -> Seq<Finding>
    decreases upto,
{
    if upto == 0 {
        Seq::empty()
    } else {
        env_findings(policy, (upto - 1) as nat) + name_findings(
            policy.env_whitelist[upto - 1],
            uppercase(policy.env_whitelist[upto - 1]),
            sensitive_names().len(),
        )
    }
}

/// Every finding of the scanner, in the order of its checks: the sandbox
/// level, the network whitelist, the execution time, the injection
/// patterns in the manifest's text, and the environment whitelist.
pub open spec fn security_findings(skill: JadeSkillView) -> Seq<Finding> {
    sandbox_findings(skill.security.sandbox) + network_findings(
        skill.security,
        skill.security.network_whitelist.len(),
    ) + timeout_findings(skill.security.max_execution_time_ms) + injection_findings(
        manifest_json(skill),
    ) + env_findings(skill.security, skill.security.env_whitelist.len())
}

/// Whether `domain` is allowed by some entry of the whitelist.
pub open spec fn allowed_by(domain: Seq<char>, whitelist: Seq<Seq<char>>) -> bool {
    exists|k: int| 0 <= k < whitelist.len() && entry_allows(domain, #[trigger] whitelist[k])
}

/// Whether the whitelist entry `allowed` covers `domain`: the entry is `*`,
/// or the domain itself, or `*.suffix` where the domain ends with
/// `.suffix`.
pub open spec fn entry_allows(domain: Seq<char>, allowed: Seq<char>) -> bool {
    allowed == "*"@ || domain == allowed || (starts_with(allowed, "*."@) && ends_with(
        domain,
        allowed.subrange(1, allowed.len() as int),
    ))
}

/// Every injection pattern holds at least one character.
pub proof fn lemma_patterns_hold_text()
    ensures
        injection_patterns().len() == 20,
        forall|k: int| 0 <= k < 20 ==> (#[trigger] injection_patterns()[k]).len() > 0,
{
    reveal_strlit("eval(");
    reveal_strlit("exec(");
    reveal_strlit("import ");
    reveal_strlit("__import__");
    reveal_strlit("subprocess");
    reveal_strlit("os.system");
    reveal_strlit("os.popen");
    reveal_strlit("child_process");
    reveal_strlit("require(");
    reveal_strlit("Function(");
    reveal_strlit("<script");
    reveal_strlit("javascript:");
    reveal_strlit("data:text/html");
    reveal_strlit("; DROP ");
    reveal_strlit("UNION SELECT");
    reveal_strlit("OR 1=1");
    reveal_strlit("${");
    reveal_strlit("$(");
    reveal_strlit("`");
    reveal_strlit("\\x00");
}

/// The findings for one pattern are among those of the scan.
pub proof fn lemma_scan_holds(text: Seq<char>, patterns: Seq<Seq<char>>, k: int, upto: nat)
    requires
        0 <= k < upto <= patterns.len(),
        pattern_findings(text, patterns[k]).len() > 0,
    ensures
        scan_findings(text, patterns, upto).contains(pattern_findings(text, patterns[k])[0]),
    decreases upto,
{
    let now = scan_findings(text, patterns, upto);
    let before = scan_findings(text, patterns, (upto - 1) as nat);
    let hits = pattern_findings(text, patterns[k]);
    if k == upto - 1 {
        assert(now[before.len() as int] == hits[0]);
    } else {
        lemma_scan_holds(text, patterns, k, (upto - 1) as nat);
        let i = choose|i: int| 0 <= i < before.len() && before[i] == hits[0];
        assert(now[i] == hits[0]);
    }
}

/// Some finding is an error.
pub open spec fn has_error_finding(findings: Seq<Finding>) -> bool {
    exists|i: int| 0 <= i < findings.len() && (#[trigger] findings[i]).0 == "error"@
}

/// Every finding is a warning.
spec fn all_warnings(findings: Seq<Finding>) -> bool {
    forall|i: int| 0 <= i < findings.len() ==> (#[trigger] findings[i]).0 == "warning"@
}

/// The whitelist of the network draws warnings only.
proof fn lemma_network_warns(policy: SecurityPolicyView, upto: nat)
    ensures
        all_warnings(network_findings(policy, upto)),
    decreases upto,
{
    if upto > 0 {
        lemma_network_warns(policy, (upto - 1) as nat);
    }
}

/// The name of an environment variable draws warnings only.
proof fn lemma_name_warns(env: Seq<char>, upper: Seq<char>, upto: nat)
    ensures
        all_warnings(name_findings(env, upper, upto)),
    decreases upto,
{
    if upto > 0 {
        lemma_name_warns(env, upper, (upto - 1) as nat);
    }
}

/// The whitelist of the environment draws warnings only.
proof fn lemma_env_warns(policy: SecurityPolicyView, upto: nat)
    ensures
        all_warnings(env_findings(policy, upto)),
    decreases upto,
{
    if upto > 0 {
        lemma_env_warns(policy, (upto - 1) as nat);
        lemma_name_warns(
            policy.env_whitelist[upto - 1],
            uppercase(policy.env_whitelist[upto - 1]),
            sensitive_names().len(),
        );
    }
}

/// The scan finds something exactly when one of the patterns that it has
/// looked for stands in the text, and what it finds are errors.
proof fn lemma_scan(text: Seq<char>, patterns: Seq<Seq<char>>, upto: nat)
    requires
        upto <= patterns.len(),
        forall|k: int| 0 <= k < patterns.len() ==> (#[trigger] patterns[k]).len() > 0,
    ensures
        forall|i: int|
            0 <= i < scan_findings(text, patterns, upto).len() ==> (#[trigger] scan_findings(
                text,
                patterns,
                upto,
            )[i]).0 == "error"@,
        scan_findings(text, patterns, upto).len() > 0 <==> exists|k: int|
            0 <= k < upto && contains(text, #[trigger] patterns[k]),
    decreases upto,
{
    if upto > 0 {
        lemma_scan(text, patterns, (upto - 1) as nat);
        lemma_occurrences(text, patterns[upto - 1]);
        if exists|k: int| 0 <= k < upto && contains(text, #[trigger] patterns[k]) {
            let k = choose|k: int| 0 <= k < upto && contains(text, #[trigger] patterns[k]);
            if k < upto - 1 {
                assert(0 <= k < upto - 1 && contains(text, patterns[k]));
            }
        }
    }
}

/// The scanner raises an error exactly when the sandbox level is unknown
/// or an injection pattern stands in the manifest's text.
pub proof fn lemma_policy_layer(skill: JadeSkillView)
    ensures
        has_error_finding(security_findings(skill)) <==> (skill.security.sandbox != "strict"@
            && skill.security.sandbox != "standard"@) || exists|k: int|
            0 <= k < injection_patterns().len() && contains(
                manifest_json(skill),
                #[trigger] injection_patterns()[k],
            ),
{
    reveal_strlit("error");
    reveal_strlit("warning");
    assert("error"@ != "warning"@) by {
        assert("error"@.len() != "warning"@.len());
    }
    let policy = skill.security;
    let text = manifest_json(skill);
    let a = sandbox_findings(policy.sandbox);
    let b = network_findings(policy, policy.network_whitelist.len());
    let c = timeout_findings(policy.max_execution_time_ms);
    let d = injection_findings(text);
    let e = env_findings(policy, policy.env_whitelist.len());
    let all = security_findings(skill);
    lemma_network_warns(policy, policy.network_whitelist.len());
    lemma_env_warns(policy, policy.env_whitelist.len());
    lemma_patterns_hold_text();
    lemma_scan(text, injection_patterns(), injection_patterns().len());
    assert(all_warnings(c));
    if has_error_finding(all) {
        let i = choose|i: int| 0 <= i < all.len() && (#[trigger] all[i]).0 == "error"@;
        if i < a.len() {
        } else if i < a.len() + b.len() {
            assert(all[i] == b[i - a.len()]);
        } else if i < a.len() + b.len() + c.len() {
            assert(all[i] == c[i - a.len() - b.len()]);
        } else if i < a.len() + b.len() + c.len() + d.len() {
            assert(d.len() > 0);
        } else {
            assert(all[i] == e[i - a.len() - b.len() - c.len() - d.len()]);
        }
    }
    if a.len() > 0 {
        assert(all[0] == a[0]);
    }
    if d.len() > 0 {
        assert(all[(a.len() + b.len() + c.len()) as int] == d[0]);
    }
}

/// A suffix entry never covers its bare suffix: `*.example.com` does not
/// allow `example.com`, because the dot belongs to what must match.
pub proof fn lemma_suffix_needs_dot(suffix: Seq<char>)
    ensures
        !entry_allows(suffix, "*."@ + suffix),
{
    reveal_strlit("*.");
    reveal_strlit("*");
    let dotted = "*."@ + suffix;
    assert(dotted.len() == suffix.len() + 2);
    assert(dotted.subrange(1, dotted.len() as int).len() == suffix.len() + 1);
}

/// An entry `*` covers every domain, and every domain covers itself.
pub proof fn lemma_star_allows(domain: Seq<char>)
    ensures
        entry_allows(domain, "*"@),
        entry_allows(domain, domain),
{
}

/// Appends a finding to `list`.
pub(crate) fn push_finding(list: &mut Vec<(String, String)>, severity: &str, message: String)
    ensures
        final(list).deep_view() == old(list).deep_view().push((severity@, message@)),
{
    list.push((String::from_str(severity), message));
    proof {
        assert(list.deep_view() =~= old(list).deep_view().push((severity@, message@)));
    }
}

/// Whether `lower`, a whitelist entry in lower case, names this machine or
/// a private network.
pub fn is_internal(lower: &str) -> (found: bool)
    ensures
        found == is_internal_target(lower@),
{
    let text = chars_of(lower);
    let t = text.as_slice();
    same_chars(t, chars_of("localhost").as_slice()) || begins_with(t, chars_of("127.").as_slice())
        || begins_with(t, chars_of("10.").as_slice()) || begins_with(
        t,
        chars_of("192.168.").as_slice(),
    ) || begins_with(t, chars_of("0.0.0.0").as_slice())
}

/// The injection patterns, in the order in which they are reported.
pub fn injection_table() -> (table: Vec<&'static str>)
    ensures
        table@.map_values(|p: &str| p@) == injection_patterns(),
{
    let table = vec![
        "eval(",
        "exec(",
        "import ",
        "__import__",
        "subprocess",
        "os.system",
        "os.popen",
        "child_process",
        "require(",
        "Function(",
        "<script",
        "javascript:",
        "data:text/html",
        "; DROP ",
        "UNION SELECT",
        "OR 1=1",
        "${",
        "$(",
        "`",
        "\\x00",
    ];
    proof {
        assert(table@.map_values(|p: &str| p@) =~= injection_patterns());
    }
    table
}

/// The sensitive names, in the order in which they are compared.
pub fn sensitive_table() -> (table: Vec<&'static str>)
    ensures
        table@.map_values(|p: &str| p@) == sensitive_names(),
{
    let table = vec!["AWS_SECRET", "PRIVATE_KEY", "PASSWORD", "DATABASE_URL", "MONGO_URI"];
    proof {
        assert(table@.map_values(|p: &str| p@) =~= sensitive_names());
    }
    table
}

/// Scans `text` for the patterns of `table`: one error for every place at
/// which a pattern starts, pattern by pattern.
pub fn scan_text(text: &str, table: &Vec<&str>) -> (found: Vec<(String, String)>)
    ensures
        found.deep_view() == scan_findings(
            text@,
            table@.map_values(|p: &str| p@),
            table@.len(),
        ),
{
    let chars = chars_of(text);
    let ghost patterns = table@.map_values(|p: &str| p@);
    let mut found: Vec<(String, String)> = Vec::new();
    assert(found.deep_view() =~= scan_findings(text@, patterns, 0));
    let mut k: usize = 0;
    while k < table.len()
        invariant
            k <= table@.len(),
            chars@ == text@,
            patterns == table@.map_values(|p: &str| p@),
            found.deep_view() == scan_findings(text@, patterns, k as nat),
        decreases table.len() - k,
    {
        let pattern = table[k];
        let times = count_occurrences(chars.as_slice(), chars_of(pattern).as_slice());
        let ghost before = found.deep_view();
        let ghost finding = (
            "error"@,
            "Potential code injection: pattern '"@ + pattern@ + "' found in skill"@,
        );
        let mut i: usize = 0;
        while i < times
            invariant
                i <= times,
                found.deep_view() == before + Seq::new(i as nat, |j: int| finding),
                finding == (
                    "error"@,
                    "Potential code injection: pattern '"@ + pattern@ + "' found in skill"@,
                ),
            decreases times - i,
        {
            let mut message = joined("Potential code injection: pattern '", pattern);
            message.append("' found in skill");
            push_finding(&mut found, "error", message);
            proof {
                assert(found.deep_view() =~= before + Seq::new((i + 1) as nat, |j: int| finding));
            }
            i += 1;
        }
        proof {
            assert(Seq::new(times as nat, |j: int| finding) =~= pattern_findings(
                text@,
                patterns[k as int],
            ));
        }
        k += 1;
    }
    found
}

/// The warnings for the environment variable `env`, given its name in
/// upper case: one for each sensitive name that the upper-case name holds.
pub fn sensitive_findings(env: &str, upper: &str) -> (found: Vec<(String, String)>)
    ensures
        found.deep_view() == name_findings(env@, upper@, sensitive_names().len()),
{
    let table = sensitive_table();
    let chars = chars_of(upper);
    let mut found: Vec<(String, String)> = Vec::new();
    assert(found.deep_view() =~= name_findings(env@, upper@, 0));
    let mut k: usize = 0;
    while k < table.len()
        invariant
            k <= table@.len(),
            chars@ == upper@,
            table@.map_values(|p: &str| p@) == sensitive_names(),
            found.deep_view() == name_findings(env@, upper@, k as nat),
        decreases table.len() - k,
    {
        proof {
            assert(table@.map_values(|p: &str| p@)[k as int] == table@[k as int]@);
        }
        if has_occurrence(chars.as_slice(), chars_of(table[k]).as_slice()) {
            let mut message = joined("Sensitive env var pattern '", env);
            message.append("' in env_whitelist");
            push_finding(&mut found, "warning", message);
        }
        k += 1;
        proof {
            assert(found.deep_view() =~= name_findings(env@, upper@, k as nat));
        }
    }
    proof {
        assert(table@.len() == sensitive_names().len());
    }
    found
}

/// The warnings for the whitelist entry `domain`, given the entry in lower
/// case.
pub fn entry_warnings(sandbox: &str, domain: &str, lower: &str) -> (found: Vec<(String, String)>)
    ensures
        found.deep_view() == entry_findings(sandbox@, domain@, lower@),
{
    let mut found: Vec<(String, String)> = Vec::new();
    assert(found.deep_view() =~= Seq::<Finding>::empty());
    if same_text(domain, "*") && same_text(sandbox, "strict") {
        push_finding(
            &mut found,
            "warning",
            String::from_str("Wildcard '*' in network_whitelist with strict sandbox"),
        );
    }
    if is_internal(lower) {
        let mut message = joined("Suspicious domain in whitelist: '", domain);
        message.append("'");
        push_finding(&mut found, "warning", message);
    }
    proof {
        assert(found.deep_view() =~= entry_findings(sandbox@, domain@, lower@));
    }
    found
}

/// Moves the findings of `more` to the end of `list`.
pub(crate) fn append_findings(list: &mut Vec<(String, String)>, more: Vec<(String, String)>)
    ensures
        final(list).deep_view() == old(list).deep_view() + more.deep_view(),
{
    let mut more = more;
    let ghost added = more.deep_view();
    list.append(&mut more);
    proof {
        assert(list.deep_view() =~= old(list).deep_view() + added);
    }
}

/// Checks the declared policy and scans the manifest's text: the sandbox
/// level must be `strict` or `standard`; a wildcard entry under a strict
/// sandbox, an entry that names this machine or a private network, no
/// execution time or one above five minutes, and an environment variable
/// with the name of a secret draw warnings; every occurrence of an
/// injection pattern in the manifest's JSON text is an error. All checks
/// run.
pub fn validate_security(skill: &JadeSkill) -> (issues: Vec<(String, String)>)
    ensures
        issues.deep_view() == security_findings(skill@),
{
    let security = &skill.security;
    let ghost policy = skill@.security;
    let mut issues: Vec<(String, String)> = Vec::new();
    assert(issues.deep_view() =~= Seq::<Finding>::empty());
    if !same_text(security.sandbox.as_str(), "strict") && !same_text(
        security.sandbox.as_str(),
        "standard",
    ) {
        let mut message = joined("Unknown sandbox level: '", security.sandbox.as_str());
        message.append("'. Must be 'strict' or 'standard'");
        push_finding(&mut issues, "error", message);
    }
    assert(issues.deep_view() =~= sandbox_findings(policy.sandbox));
    let mut k: usize = 0;
    while k < security.network_whitelist.len()
        invariant
            k <= security.network_whitelist@.len(),
            security == &skill.security,
            policy == skill@.security,
            issues.deep_view() == sandbox_findings(policy.sandbox) + network_findings(
                policy,
                k as nat,
            ),
        decreases security.network_whitelist.len() - k,
    {
        let domain = security.network_whitelist[k].as_str();
        let lower = to_lowercase(domain);
        let found = entry_warnings(security.sandbox.as_str(), domain, lower.as_str());
        append_findings(&mut issues, found);
        k += 1;
        proof {
            assert(issues.deep_view() =~= sandbox_findings(policy.sandbox) + network_findings(
                policy,
                k as nat,
            ));
        }
    }
    let ghost first = sandbox_findings(policy.sandbox) + network_findings(
        policy,
        policy.network_whitelist.len(),
    );
    if security.max_execution_time_ms == 0 {
        push_finding(&mut issues, "warning", String::from_str("No execution timeout set"));
    }
    if security.max_execution_time_ms > LONGEST_TIMEOUT_MS {
        let mut message = String::from_str("Very long timeout: ");
        push_decimal(&mut message, security.max_execution_time_ms);
        message.append("ms (>5min)");
        push_finding(&mut issues, "warning", message);
    }
    assert(issues.deep_view() =~= first + timeout_findings(policy.max_execution_time_ms));
    let text = manifest_text(skill);
    let table = injection_table();
    let found = scan_text(text.as_str(), &table);
    append_findings(&mut issues, found);
    let ghost second = first + timeout_findings(policy.max_execution_time_ms) + injection_findings(
        manifest_json(skill@),
    );
    assert(issues.deep_view() =~= second);
    let mut k: usize = 0;
    while k < security.env_whitelist.len()
        invariant
            k <= security.env_whitelist@.len(),
            security == &skill.security,
            policy == skill@.security,
            issues.deep_view() == second + env_findings(policy, k as nat),
        decreases security.env_whitelist.len() - k,
    {
        let env = security.env_whitelist[k].as_str();
        let upper = to_uppercase(env);
        let found = sensitive_findings(env, upper.as_str());
        append_findings(&mut issues, found);
        k += 1;
        proof {
            assert(issues.deep_view() =~= second + env_findings(policy, k as nat));
        }
    }
    issues
}

/// Whether `domain` is allowed by the whitelist: by an entry `*`, by an
/// entry equal to the domain, or by an entry `*.suffix` where the domain
/// ends with `.suffix`; the dot belongs to the suffix.
pub fn domain_matches_whitelist(domain: &str, whitelist: &[String]) -> (allowed: bool)
    ensures
        allowed == allowed_by(domain@, whitelist@.map_values(|s: String| s@)),
{
    let name = chars_of(domain);
    let ghost entries = whitelist@.map_values(|s: String| s@);
    let mut k: usize = 0;
    while k < whitelist.len()
        invariant
            k <= whitelist@.len(),
            name@ == domain@,
            entries == whitelist@.map_values(|s: String| s@),
            forall|j: int| 0 <= j < k ==> !entry_allows(domain@, #[trigger] entries[j]),
        decreases whitelist.len() - k,
    {
        let entry = chars_of(whitelist[k].as_str());
        proof {
            assert(entries[k as int] == entry@);
        }
        if same_chars(entry.as_slice(), chars_of("*").as_slice()) {
            return true;
        }
        if same_chars(name.as_slice(), entry.as_slice()) {
            return true;
        }
        if begins_with(entry.as_slice(), chars_of("*.").as_slice()) {
            proof {
                reveal_strlit("*.");
            }
            let suffix = suffix_of(&entry, 1);
            if finishes_with(name.as_slice(), suffix.as_slice()) {
                return true;
            }
        }
        k += 1;
    }
    false
}

/// The characters of `text` from position `from` on.
fn suffix_of(text: &Vec<char>, from: usize) -> (out: Vec<char>)
    requires
        from <= text@.len(),
    ensures
        out@ == text@.subrange(from as int, text@.len() as int),
{
    let mut out: Vec<char> = Vec::new();
    let mut i: usize = from;
    while i < text.len()
        invariant
            from <= i <= text@.len(),
            out@ == text@.subrange(from as int, i as int),
        decreases text.len() - i,
    {
        out.push(text[i]);
        proof {
            assert(out@ =~= text@.subrange(from as int, i + 1));
        }
        i += 1;
    }
    out
}

} // verus!
