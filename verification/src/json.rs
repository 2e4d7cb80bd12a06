//! The manifest as compact JSON text: what the injection scan reads and
//! what a signature covers.
//!
//! The members of each object stand in the order of the data model. The
//! two signature members are left out when they are absent; a missing
//! edge condition is left out, a missing node timeout is `null`.

use vstd::prelude::*;
use vstd::string::StringExecFns;
use crate::schema::{
    push_text, CommunitySignature, CommunitySignatureView, DagEdge, DagEdgeView, DagNode,
    DagNodeView, ExecutionDag, ExecutionDagView, JadeSignature, JadeSignatureView, JadeSkill,
    JadeSkillView, Metadata, MetadataView, SecurityPolicy, SecurityPolicyView,
};
use crate::text::{decimal, push_decimal};

verus! {

/// The text that `serde_json::to_string` writes for the string `s`: its
/// JSON string literal.
pub uninterp spec fn json_string(s: Seq<char>) -> Seq<char>;

/// Calls `serde_json::to_string` on a string slice, which writes the JSON
/// string literal for it, quotes and escapes included, and depends on the
/// characters alone. The contract gives that result its name; writing into
/// memory cannot fail, and an empty text would stand for a failure.
#[verifier::external_body]
pub(crate) fn quoted(s: &str) -> (out: String)
    ensures
        out@ == json_string(s@),
{
    serde_json::to_string(s).unwrap_or_default()
}

/// The first `upto` items, with a comma between neighbours.
pub open spec fn comma_joined(items: Seq<Seq<char>>, upto: nat) -> Seq<char>
    decreases upto,
{
    if upto == 0 {
        Seq::empty()
    } else if upto == 1 {
        items[0]
    } else {
        comma_joined(items, (upto - 1) as nat) + ","@ + items[upto - 1]
    }
}

/// The JSON array of the items.
pub open spec fn json_array(items: Seq<Seq<char>>) -> Seq<char> {
    "["@ + comma_joined(items, items.len()) + "]"@
}

/// The JSON object of the members.
pub open spec fn json_object(members: Seq<Seq<char>>) -> Seq<char> {
    "{"@ + comma_joined(members, members.len()) + "}"@
}

/// The JSON array of the strings.
pub open spec fn string_array(list: Seq<Seq<char>>) -> Seq<char> {
    json_array(list.map_values(|s: Seq<char>| json_string(s)))
}

/// The metadata as a JSON object.
pub open spec fn metadata_json(m: MetadataView) -> Seq<char> {
    "{\"name\":"@ + json_string(m.name) + ",\"description\":"@ + json_string(m.description)
        + ",\"version\":"@ + json_string(m.version) + ",\"author\":"@ + json_string(m.author)
        + ",\"tags\":"@ + string_array(m.tags) + "}"@
}

/// One parameter as an object member.
pub open spec fn param_json(p: (Seq<char>, Seq<char>)) -> Seq<char> {
    json_string(p.0) + ":"@ + p.1
}

/// A node's timeout: its milliseconds, or `null`.
pub open spec fn timeout_json(t: Option<u64>) -> Seq<char> {
    match t {
        Some(ms) => decimal(ms as nat),
        None => "null"@,
    }
}

/// A node as a JSON object.
pub open spec fn node_json(n: DagNodeView) -> Seq<char> {
    "{\"id\":"@ + json_string(n.id) + ",\"action\":"@ + json_string(n.action) + ",\"params\":"@
        + json_object(n.params.map_values(|p: (Seq<char>, Seq<char>)| param_json(p)))
        + ",\"timeout_ms\":"@ + timeout_json(n.timeout_ms) + "}"@
}

/// The condition as a member, if it is present.
pub open spec fn condition_json(condition: Option<Seq<char>>) -> Seq<char> {
    match condition {
        Some(c) => ",\"condition\":"@ + json_string(c),
        None => Seq::empty(),
    }
}

/// An edge as a JSON object.
pub open spec fn edge_json(e: DagEdgeView) -> Seq<char> {
    "{\"from\":"@ + json_string(e.from) + ",\"to\":"@ + json_string(e.to) + condition_json(
        e.condition,
    ) + "}"@
}

/// The execution graph as a JSON object.
pub open spec fn dag_json(d: ExecutionDagView) -> Seq<char> {
    "{\"nodes\":"@ + json_array(d.nodes.map_values(|n: DagNodeView| node_json(n)))
        + ",\"edges\":"@ + json_array(d.edges.map_values(|e: DagEdgeView| edge_json(e))) + "}"@
}

/// The security policy as a JSON object.
pub open spec fn policy_json(p: SecurityPolicyView) -> Seq<char> {
    "{\"sandbox\":"@ + json_string(p.sandbox) + ",\"network_whitelist\":"@ + string_array(
        p.network_whitelist,
    ) + ",\"max_execution_time_ms\":"@ + decimal(p.max_execution_time_ms as nat)
        + ",\"env_whitelist\":"@ + string_array(p.env_whitelist) + "}"@
}

/// The primary signature as a JSON object.
pub open spec fn signature_json(s: JadeSignatureView) -> Seq<char> {
    "{\"signer\":"@ + json_string(s.signer) + ",\"algorithm\":"@ + json_string(s.algorithm)
        + ",\"public_key\":"@ + json_string(s.public_key) + ",\"content_hash\":"@ + json_string(
        s.content_hash,
    ) + ",\"signature\":"@ + json_string(s.signature) + ",\"signed_at\":"@ + json_string(
        s.signed_at,
    ) + "}"@
}

/// A community signature as a JSON object.
pub open spec fn community_json(c: CommunitySignatureView) -> Seq<char> {
    "{\"signer_fingerprint\":"@ + json_string(c.signer_fingerprint) + ",\"public_key\":"@
        + json_string(c.public_key) + ",\"content_hash\":"@ + json_string(c.content_hash)
        + ",\"signature\":"@ + json_string(c.signature) + ",\"signed_at\":"@ + json_string(
        c.signed_at,
    ) + ",\"trust_level\":"@ + json_string(c.trust_level) + "}"@
}

/// The members that every manifest has, without the closing brace.
pub open spec fn body_json(skill: JadeSkillView) -> Seq<char> {
    "{\"jade_version\":"@ + json_string(skill.jade_version) + ",\"skill_id\":"@ + json_string(
        skill.skill_id,
    ) + ",\"metadata\":"@ + metadata_json(skill.metadata) + ",\"input_schema\":"@
        + skill.input_schema + ",\"output_schema\":"@ + skill.output_schema
        + ",\"execution_dag\":"@ + dag_json(skill.execution_dag) + ",\"security\":"@
        + policy_json(skill.security)
}

/// The primary signature as a member, if it is present.
pub open spec fn primary_seal_json(seal: Option<JadeSignatureView>) -> Seq<char> {
    match seal {
        Some(s) => ",\"jade_signature\":"@ + signature_json(s),
        None => Seq::empty(),
    }
}

/// The community signatures as a member, if the list is present.
pub open spec fn community_seal_json(seals: Option<Seq<CommunitySignatureView>>) -> Seq<char> {
    match seals {
        Some(list) => ",\"community_signatures\":"@ + json_array(
            list.map_values(|c: CommunitySignatureView| community_json(c)),
        ),
        None => Seq::empty(),
    }
}

/// The signature members, each only if it is present.
pub open spec fn seal_json(skill: JadeSkillView) -> Seq<char> {
    primary_seal_json(skill.jade_signature) + community_seal_json(skill.community_signatures)
}

/// The whole manifest as JSON text.
pub open spec fn manifest_json(skill: JadeSkillView) -> Seq<char> {
    body_json(skill) + seal_json(skill) + "}"@
}

/// The canonical content: the manifest as JSON text with both signature
/// members removed. This is what a signature covers.
pub open spec fn canonical_json(skill: JadeSkillView) -> Seq<char> {
    body_json(skill) + "}"@
}

/// The manifest without its signatures.
pub open spec fn unsealed(skill: JadeSkillView) -> JadeSkillView {
    JadeSkillView { jade_signature: None, community_signatures: None, ..skill }
}

/// The canonical content of a manifest is the text of the manifest with
/// its signatures cleared, and clearing them again changes nothing.
pub proof fn lemma_canonical(skill: JadeSkillView)
    ensures
        canonical_json(skill) == manifest_json(unsealed(skill)),
        canonical_json(unsealed(skill)) == canonical_json(skill),
{
    let bare = unsealed(skill);
    assert(seal_json(bare) =~= Seq::<char>::empty());
    assert(body_json(bare) == body_json(skill));
    assert(body_json(skill) + Seq::<char>::empty() + "}"@ =~= body_json(skill) + "}"@);
}

/// The items between `open` and `close`, with commas between them.
pub fn enclosed(open: &str, items: &Vec<String>, close: &str) -> (out: String)
    ensures
        out@ == open@ + comma_joined(items.deep_view(), items@.len()) + close@,
{
    let mut out = String::from_str(open);
    let ghost texts = items.deep_view();
    let mut i: usize = 0;
    while i < items.len()
        invariant
            i <= items@.len(),
            texts == items.deep_view(),
            out@ == open@ + comma_joined(texts, i as nat),
        decreases items.len() - i,
    {
        if i > 0 {
            out.append(",");
        }
        out.append(items[i].as_str());
        proof {
            assert(texts[i as int] == items@[i as int]@);
            assert(out@ =~= open@ + comma_joined(texts, (i + 1) as nat));
        }
        i += 1;
    }
    out.append(close);
    out
}

/// The JSON array of the strings of `list`.
fn strings_text(list: &Vec<String>) -> (out: String)
    ensures
        out@ == string_array(list.deep_view()),
{
    let mut items: Vec<String> = Vec::new();
    let ghost want = list.deep_view().map_values(|s: Seq<char>| json_string(s));
    assert(items.deep_view() =~= want.take(0));
    let mut i: usize = 0;
    while i < list.len()
        invariant
            i <= list@.len(),
            want == list.deep_view().map_values(|s: Seq<char>| json_string(s)),
            items.deep_view() == want.take(i as int),
        decreases list.len() - i,
    {
        let item = quoted(list[i].as_str());
        proof {
            assert(list.deep_view()[i as int] == list@[i as int]@);
            assert(want.take(i + 1) =~= want.take(i as int).push(item@));
        }
        push_text(&mut items, item);
        i += 1;
    }
    proof {
        assert(want.take(list@.len() as int) =~= want);
    }
    enclosed("[", &items, "]")
}

fn metadata_text(m: &Metadata) -> (out: String)
    ensures
        out@ == metadata_json(m@),
{
    let mut out = String::from_str("{\"name\":");
    out.append(quoted(m.name.as_str()).as_str());
    out.append(",\"description\":");
    out.append(quoted(m.description.as_str()).as_str());
    out.append(",\"version\":");
    out.append(quoted(m.version.as_str()).as_str());
    out.append(",\"author\":");
    out.append(quoted(m.author.as_str()).as_str());
    out.append(",\"tags\":");
    out.append(strings_text(&m.tags).as_str());
    out.append("}");
    proof {
        assert(out@ =~= metadata_json(m@));
    }
    out
}

fn params_text(params: &Vec<(String, String)>) -> (out: String)
    ensures
        out@ == json_object(
            params@.map_values(|p: (String, String)| (p.0@, p.1@)).map_values(
                |p: (Seq<char>, Seq<char>)| param_json(p),
            ),
        ),
{
    let mut items: Vec<String> = Vec::new();
    let ghost want = params@.map_values(|p: (String, String)| (p.0@, p.1@)).map_values(
        |p: (Seq<char>, Seq<char>)| param_json(p),
    );
    assert(items.deep_view() =~= want.take(0));
    let mut i: usize = 0;
    while i < params.len()
        invariant
            i <= params@.len(),
            want == params@.map_values(|p: (String, String)| (p.0@, p.1@)).map_values(
                |p: (Seq<char>, Seq<char>)| param_json(p),
            ),
            items.deep_view() == want.take(i as int),
        decreases params.len() - i,
    {
        let mut item = quoted(params[i].0.as_str());
        item.append(":");
        item.append(params[i].1.as_str());
        proof {
            assert(want.take(i + 1) =~= want.take(i as int).push(item@));
        }
        push_text(&mut items, item);
        i += 1;
    }
    proof {
        assert(want.take(params@.len() as int) =~= want);
    }
    enclosed("{", &items, "}")
}

fn node_text(n: &DagNode) -> (out: String)
    ensures
        out@ == node_json(n@),
{
    let mut out = String::from_str("{\"id\":");
    out.append(quoted(n.id.as_str()).as_str());
    out.append(",\"action\":");
    out.append(quoted(n.action.as_str()).as_str());
    out.append(",\"params\":");
    out.append(params_text(&n.params).as_str());
    out.append(",\"timeout_ms\":");
    match n.timeout_ms {
        Some(ms) => {
            push_decimal(&mut out, ms);
        },
        None => {
            out.append("null");
        },
    }
    out.append("}");
    proof {
        assert(out@ =~= node_json(n@));
    }
    out
}

fn edge_text(e: &DagEdge) -> (out: String)
    ensures
        out@ == edge_json(e@),
{
    let mut out = String::from_str("{\"from\":");
    out.append(quoted(e.from.as_str()).as_str());
    out.append(",\"to\":");
    out.append(quoted(e.to.as_str()).as_str());
    match &e.condition {
        Some(c) => {
            out.append(",\"condition\":");
            out.append(quoted(c.as_str()).as_str());
        },
        None => {},
    }
    out.append("}");
    proof {
        assert(out@ =~= edge_json(e@));
    }
    out
}

fn dag_text(d: &ExecutionDag) -> (out: String)
    ensures
        out@ == dag_json(d@),
{
    let mut nodes: Vec<String> = Vec::new();
    let ghost want_nodes = d@.nodes.map_values(|n: DagNodeView| node_json(n));
    assert(nodes.deep_view() =~= want_nodes.take(0));
    let mut i: usize = 0;
    while i < d.nodes.len()
        invariant
            i <= d.nodes@.len(),
            want_nodes == d@.nodes.map_values(|n: DagNodeView| node_json(n)),
            nodes.deep_view() == want_nodes.take(i as int),
        decreases d.nodes.len() - i,
    {
        let item = node_text(&d.nodes[i]);
        proof {
            assert(want_nodes.take(i + 1) =~= want_nodes.take(i as int).push(item@));
        }
        push_text(&mut nodes, item);
        i += 1;
    }
    let mut edges: Vec<String> = Vec::new();
    let ghost want_edges = d@.edges.map_values(|e: DagEdgeView| edge_json(e));
    assert(edges.deep_view() =~= want_edges.take(0));
    let mut i: usize = 0;
    while i < d.edges.len()
        invariant
            i <= d.edges@.len(),
            want_edges == d@.edges.map_values(|e: DagEdgeView| edge_json(e)),
            edges.deep_view() == want_edges.take(i as int),
        decreases d.edges.len() - i,
    {
        let item = edge_text(&d.edges[i]);
        proof {
            assert(want_edges.take(i + 1) =~= want_edges.take(i as int).push(item@));
        }
        push_text(&mut edges, item);
        i += 1;
    }
    proof {
        assert(want_nodes.take(d.nodes@.len() as int) =~= want_nodes);
        assert(want_edges.take(d.edges@.len() as int) =~= want_edges);
    }
    let mut out = String::from_str("{\"nodes\":");
    out.append(enclosed("[", &nodes, "]").as_str());
    out.append(",\"edges\":");
    out.append(enclosed("[", &edges, "]").as_str());
    out.append("}");
    proof {
        assert(out@ =~= dag_json(d@));
    }
    out
}

fn policy_text(p: &SecurityPolicy) -> (out: String)
    ensures
        out@ == policy_json(p@),
{
    let mut out = String::from_str("{\"sandbox\":");
    out.append(quoted(p.sandbox.as_str()).as_str());
    out.append(",\"network_whitelist\":");
    out.append(strings_text(&p.network_whitelist).as_str());
    out.append(",\"max_execution_time_ms\":");
    push_decimal(&mut out, p.max_execution_time_ms);
    out.append(",\"env_whitelist\":");
    out.append(strings_text(&p.env_whitelist).as_str());
    out.append("}");
    proof {
        assert(out@ =~= policy_json(p@));
    }
    out
}

fn signature_text(s: &JadeSignature) -> (out: String)
    ensures
        out@ == signature_json(s@),
{
    let mut out = String::from_str("{\"signer\":");
    out.append(quoted(s.signer.as_str()).as_str());
    out.append(",\"algorithm\":");
    out.append(quoted(s.algorithm.as_str()).as_str());
    out.append(",\"public_key\":");
    out.append(quoted(s.public_key.as_str()).as_str());
    out.append(",\"content_hash\":");
    out.append(quoted(s.content_hash.as_str()).as_str());
    out.append(",\"signature\":");
    out.append(quoted(s.signature.as_str()).as_str());
    out.append(",\"signed_at\":");
    out.append(quoted(s.signed_at.as_str()).as_str());
    out.append("}");
    proof {
        assert(out@ =~= signature_json(s@));
    }
    out
}

fn community_text(c: &CommunitySignature) -> (out: String)
    ensures
        out@ == community_json(c@),
{
    let mut out = String::from_str("{\"signer_fingerprint\":");
    out.append(quoted(c.signer_fingerprint.as_str()).as_str());
    out.append(",\"public_key\":");
    out.append(quoted(c.public_key.as_str()).as_str());
    out.append(",\"content_hash\":");
    out.append(quoted(c.content_hash.as_str()).as_str());
    out.append(",\"signature\":");
    out.append(quoted(c.signature.as_str()).as_str());
    out.append(",\"signed_at\":");
    out.append(quoted(c.signed_at.as_str()).as_str());
    out.append(",\"trust_level\":");
    out.append(quoted(c.trust_level.as_str()).as_str());
    out.append("}");
    proof {
        assert(out@ =~= community_json(c@));
    }
    out
}

fn community_list_text(list: &Vec<CommunitySignature>) -> (out: String)
    ensures
        out@ == json_array(
            list@.map_values(|c: CommunitySignature| c@).map_values(
                |c: CommunitySignatureView| community_json(c),
            ),
        ),
{
    let mut items: Vec<String> = Vec::new();
    let ghost want = list@.map_values(|c: CommunitySignature| c@).map_values(
        |c: CommunitySignatureView| community_json(c),
    );
    assert(items.deep_view() =~= want.take(0));
    let mut i: usize = 0;
    while i < list.len()
        invariant
            i <= list@.len(),
            want == list@.map_values(|c: CommunitySignature| c@).map_values(
                |c: CommunitySignatureView| community_json(c),
            ),
            items.deep_view() == want.take(i as int),
        decreases list.len() - i,
    {
        let item = community_text(&list[i]);
        proof {
            assert(want.take(i + 1) =~= want.take(i as int).push(item@));
        }
        push_text(&mut items, item);
        i += 1;
    }
    proof {
        assert(want.take(list@.len() as int) =~= want);
    }
    enclosed("[", &items, "]")
}

fn body_text(skill: &JadeSkill) -> (out: String)
    ensures
        out@ == body_json(skill@),
{
    let mut out = String::from_str("{\"jade_version\":");
    out.append(quoted(skill.jade_version.as_str()).as_str());
    out.append(",\"skill_id\":");
    out.append(quoted(skill.skill_id.as_str()).as_str());
    out.append(",\"metadata\":");
    out.append(metadata_text(&skill.metadata).as_str());
    out.append(",\"input_schema\":");
    out.append(skill.input_schema.as_str());
    out.append(",\"output_schema\":");
    out.append(skill.output_schema.as_str());
    out.append(",\"execution_dag\":");
    out.append(dag_text(&skill.execution_dag).as_str());
    out.append(",\"security\":");
    out.append(policy_text(&skill.security).as_str());
    proof {
        assert(out@ =~= body_json(skill@));
    }
    out
}

/// The whole manifest as compact JSON text.
pub fn manifest_text(skill: &JadeSkill) -> (out: String)
    ensures
        out@ == manifest_json(skill@),
{
    let mut out = body_text(skill);
    match &skill.jade_signature {
        Some(s) => {
            out.append(",\"jade_signature\":");
            out.append(signature_text(s).as_str());
        },
        None => {},
    }
    let ghost middle = out@;
    proof {
        assert(middle =~= body_json(skill@) + primary_seal_json(skill@.jade_signature));
    }
    match &skill.community_signatures {
        Some(list) => {
            out.append(",\"community_signatures\":");
            out.append(community_list_text(list).as_str());
        },
        None => {},
    }
    proof {
        assert(out@ =~= middle + community_seal_json(skill@.community_signatures));
    }
    out.append("}");
    proof {
        assert(out@ =~= manifest_json(skill@));
    }
    out
}

/// The canonical content of the manifest: its JSON text without the two
/// signature members, which is what a signature covers.
pub fn canonical_text(skill: &JadeSkill) -> (out: String)
    ensures
        out@ == canonical_json(skill@),
{
    let mut out = body_text(skill);
    out.append("}");
    out
}

} // verus!
