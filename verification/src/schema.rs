//! Layer 1: the manifest's data model and its structural checks.

use vstd::prelude::*;
use vstd::string::StringExecFns;
use crate::text::{chars_of, same_chars};

verus! {

/// A skill manifest: what the skill is, the graph of steps it would run and
/// the sandbox policy it declares, with the signatures that seal it.
#[derive(Debug, Clone)]
pub struct JadeSkill {
    pub jade_version: String,
    pub skill_id: String,
    pub metadata: Metadata,
    /// The input schema document, as compact JSON text.
    pub input_schema: String,
    /// The output schema document, as compact JSON text.
    pub output_schema: String,
    pub execution_dag: ExecutionDag,
    pub security: SecurityPolicy,
    pub jade_signature: Option<JadeSignature>,
    pub community_signatures: Option<Vec<CommunitySignature>>,
}

/// What a skill is called and who wrote it.
#[derive(Debug, Clone)]
pub struct Metadata {
    pub name: String,
    pub description: String,
    pub version: String,
    pub author: String,
    pub tags: Vec<String>,
}

/// The directed graph of the steps of a skill.
#[derive(Debug, Clone)]
pub struct ExecutionDag {
    pub nodes: Vec<DagNode>,
    pub edges: Vec<DagEdge>,
}

/// One step of a skill.
#[derive(Debug, Clone)]
pub struct DagNode {
    pub id: String,
    pub action: String,
    /// Parameter names, each with its value as compact JSON text.
    pub params: Vec<(String, String)>,
    pub timeout_ms: Option<u64>,
}

/// A dependency between two steps: `to` runs after `from`. The condition
/// is carried along and never evaluated.
#[derive(Debug, Clone)]
pub struct DagEdge {
    pub from: String,
    pub to: String,
    pub condition: Option<String>,
}

/// The sandbox that a skill declares to run under.
#[derive(Debug, Clone)]
pub struct SecurityPolicy {
    pub sandbox: String,
    pub network_whitelist: Vec<String>,
    pub max_execution_time_ms: u64,
    pub env_whitelist: Vec<String>,
}

/// The primary signature: an Ed25519 signature over the canonical content
/// of the manifest. The public key may carry a namespace tag.
#[derive(Debug, Clone)]
pub struct JadeSignature {
    pub signer: String,
    pub algorithm: String,
    pub public_key: String,
    pub content_hash: String,
    pub signature: String,
    pub signed_at: String,
}

/// The signature of a co-signer. It is carried along; no layer verifies it.
#[derive(Debug, Clone)]
pub struct CommunitySignature {
    pub signer_fingerprint: String,
    pub public_key: String,
    pub content_hash: String,
    pub signature: String,
    pub signed_at: String,
    pub trust_level: String,
}

/// A manifest, over characters.
pub struct JadeSkillView {
    pub jade_version: Seq<char>,
    pub skill_id: Seq<char>,
    pub metadata: MetadataView,
    pub input_schema: Seq<char>,
    pub output_schema: Seq<char>,
    pub execution_dag: ExecutionDagView,
    pub security: SecurityPolicyView,
    pub jade_signature: Option<JadeSignatureView>,
    pub community_signatures: Option<Seq<CommunitySignatureView>>,
}

/// The metadata, over characters.
pub struct MetadataView {
    pub name: Seq<char>,
    pub description: Seq<char>,
    pub version: Seq<char>,
    pub author: Seq<char>,
    pub tags: Seq<Seq<char>>,
}

/// The execution graph, over characters.
pub struct ExecutionDagView {
    pub nodes: Seq<DagNodeView>,
    pub edges: Seq<DagEdgeView>,
}

/// A node, over characters.
pub struct DagNodeView {
    pub id: Seq<char>,
    pub action: Seq<char>,
    pub params: Seq<(Seq<char>, Seq<char>)>,
    pub timeout_ms: Option<u64>,
}

/// An edge, over characters.
pub struct DagEdgeView {
    pub from: Seq<char>,
    pub to: Seq<char>,
    pub condition: Option<Seq<char>>,
}

/// The security policy, over characters.
pub struct SecurityPolicyView {
    pub sandbox: Seq<char>,
    pub network_whitelist: Seq<Seq<char>>,
    pub max_execution_time_ms: u64,
    pub env_whitelist: Seq<Seq<char>>,
}

/// The primary signature, over characters.
pub struct JadeSignatureView {
    pub signer: Seq<char>,
    pub algorithm: Seq<char>,
    pub public_key: Seq<char>,
    pub content_hash: Seq<char>,
    pub signature: Seq<char>,
    pub signed_at: Seq<char>,
}

/// A community signature, over characters.
pub struct CommunitySignatureView {
    pub signer_fingerprint: Seq<char>,
    pub public_key: Seq<char>,
    pub content_hash: Seq<char>,
    pub signature: Seq<char>,
    pub signed_at: Seq<char>,
    pub trust_level: Seq<char>,
}

impl View for Metadata {
    type V = MetadataView;

    open spec fn view(&self) -> MetadataView {
        MetadataView {
            name: self.name@,
            description: self.description@,
            version: self.version@,
            author: self.author@,
            tags: self.tags.deep_view(),
        }
    }
}

impl View for DagNode {
    type V = DagNodeView;

    open spec fn view(&self) -> DagNodeView {
        DagNodeView {
            id: self.id@,
            action: self.action@,
            params: self.params@.map_values(|p: (String, String)| (p.0@, p.1@)),
            timeout_ms: self.timeout_ms,
        }
    }
}

impl View for DagEdge {
    type V = DagEdgeView;

    open spec fn view(&self) -> DagEdgeView {
        DagEdgeView {
            from: self.from@,
            to: self.to@,
            condition: match self.condition {
                Some(c) => Some(c@),
                None => None,
            },
        }
    }
}

impl View for ExecutionDag {
    type V = ExecutionDagView;

    open spec fn view(&self) -> ExecutionDagView {
        ExecutionDagView {
            nodes: self.nodes@.map_values(|n: DagNode| n@),
            edges: self.edges@.map_values(|e: DagEdge| e@),
        }
    }
}

impl View for SecurityPolicy {
    type V = SecurityPolicyView;

    open spec fn view(&self) -> SecurityPolicyView {
        SecurityPolicyView {
            sandbox: self.sandbox@,
            network_whitelist: self.network_whitelist.deep_view(),
            max_execution_time_ms: self.max_execution_time_ms,
            env_whitelist: self.env_whitelist.deep_view(),
        }
    }
}

impl View for JadeSignature {
    type V = JadeSignatureView;

    open spec fn view(&self) -> JadeSignatureView {
        JadeSignatureView {
            signer: self.signer@,
            algorithm: self.algorithm@,
            public_key: self.public_key@,
            content_hash: self.content_hash@,
            signature: self.signature@,
            signed_at: self.signed_at@,
        }
    }
}

impl View for CommunitySignature {
    type V = CommunitySignatureView;

    open spec fn view(&self) -> CommunitySignatureView {
        CommunitySignatureView {
            signer_fingerprint: self.signer_fingerprint@,
            public_key: self.public_key@,
            content_hash: self.content_hash@,
            signature: self.signature@,
            signed_at: self.signed_at@,
            trust_level: self.trust_level@,
        }
    }
}

impl View for JadeSkill {
    type V = JadeSkillView;

    open spec fn view(&self) -> JadeSkillView {
        JadeSkillView {
            jade_version: self.jade_version@,
            skill_id: self.skill_id@,
            metadata: self.metadata@,
            input_schema: self.input_schema@,
            output_schema: self.output_schema@,
            execution_dag: self.execution_dag@,
            security: self.security@,
            jade_signature: match self.jade_signature {
                Some(s) => Some(s@),
                None => None,
            },
            community_signatures: match self.community_signatures {
                Some(list) => Some(list@.map_values(|c: CommunitySignature| c@)),
                None => None,
            },
        }
    }
}

/// How many of the first `upto` nodes carry the identifier `id`.
pub open spec fn id_count(nodes: Seq<DagNodeView>, id: Seq<char>, upto: nat) -> nat
    decreases upto,
{
    if upto == 0 {
        0
    } else {
        id_count(nodes, id, (upto - 1) as nat) + if nodes[upto - 1].id == id {
            1nat
        } else {
            0nat
        }
    }
}

/// Some node carries the identifier `id`.
pub open spec fn declares(nodes: Seq<DagNodeView>, id: Seq<char>) -> bool {
    exists|k: int| 0 <= k < nodes.len() && #[trigger] nodes[k].id == id
}

/// `error` if `missing`, else nothing.
pub open spec fn error_if(missing: bool, error: Seq<char>) -> Seq<Seq<char>> {
    if missing {
        seq![error]
    } else {
        Seq::empty()
    }
}

/// The errors for required fields that are empty.
pub open spec fn presence_errors(skill: JadeSkillView) -> Seq<Seq<char>> {
    error_if(skill.jade_version.len() == 0, "Missing jade_version"@) + error_if(
        skill.skill_id.len() == 0,
        "Missing skill_id"@,
    ) + error_if(skill.metadata.name.len() == 0, "Missing metadata.name"@) + error_if(
        skill.execution_dag.nodes.len() == 0,
        "DAG has no nodes"@,
    )
}

/// The errors for repeated identifiers among the first `upto` nodes: one
/// for each identifier that occurs again, where it occurs the second time.
pub open spec fn duplicate_errors(nodes: Seq<DagNodeView>, upto: nat) -> Seq<Seq<char>>
    decreases upto,
{
    if upto == 0 {
        Seq::empty()
    } else {
        duplicate_errors(nodes, (upto - 1) as nat) + error_if(
            id_count(nodes, nodes[upto - 1].id, (upto - 1) as nat) == 1,
            "Duplicate node ID: "@ + nodes[upto - 1].id,
        )
    }
}

/// The errors for endpoints of the first `upto` edges that no node declares,
/// edge by edge, the source before the target.
pub open spec fn dangling_errors(dag: ExecutionDagView, upto: nat) -> Seq<Seq<char>>
    decreases upto,
{
    if upto == 0 {
        Seq::empty()
    } else {
        dangling_errors(dag, (upto - 1) as nat) + error_if(
            !declares(dag.nodes, dag.edges[upto - 1].from),
            "Edge references unknown node: "@ + dag.edges[upto - 1].from,
        ) + error_if(
            !declares(dag.nodes, dag.edges[upto - 1].to),
            "Edge references unknown node: "@ + dag.edges[upto - 1].to,
        )
    }
}

/// Every structural error of a manifest, in the order of the checks.
pub open spec fn schema_errors(skill: JadeSkillView) -> Seq<Seq<char>> {
    presence_errors(skill) + duplicate_errors(
        skill.execution_dag.nodes,
        skill.execution_dag.nodes.len(),
    ) + dangling_errors(skill.execution_dag, skill.execution_dag.edges.len())
}

/// The manifest has the shape that the later layers rely on: the required
/// fields are filled, no identifier is declared twice and every edge joins
/// declared nodes.
pub open spec fn well_formed(skill: JadeSkillView) -> bool {
    schema_errors(skill).len() == 0
}

/// Where no identifier among the first `upto` nodes is reported as
/// repeated, none of them occurs among the nodes before it.
proof fn lemma_no_duplicates(nodes: Seq<DagNodeView>, upto: nat)
    requires
        upto <= nodes.len(),
        duplicate_errors(nodes, upto).len() == 0,
    ensures
        forall|a: int, b: int| 0 <= a < b < upto ==> (#[trigger] nodes[a]).id != (#[trigger] nodes[b]).id,
    decreases upto,
{
    if upto > 0 {
        let last = (upto - 1) as nat;
        assert(duplicate_errors(nodes, last).len() == 0);
        lemma_no_duplicates(nodes, last);
        let id = nodes[last as int].id;
        lemma_count_distinct(nodes, id, last);
        assert(id_count(nodes, id, last) == 0);
    }
}

/// Among distinct identifiers each is counted at most once, and one that
/// is not counted does not occur.
proof fn lemma_count_distinct(nodes: Seq<DagNodeView>, id: Seq<char>, upto: nat)
    requires
        upto <= nodes.len(),
        forall|a: int, b: int| 0 <= a < b < upto ==> (#[trigger] nodes[a]).id != (#[trigger] nodes[b]).id,
    ensures
        id_count(nodes, id, upto) <= 1,
        id_count(nodes, id, upto) == 0 ==> forall|k: int|
            0 <= k < upto ==> (#[trigger] nodes[k]).id != id,
        id_count(nodes, id, upto) == 1 ==> exists|k: int|
            0 <= k < upto && (#[trigger] nodes[k]).id == id,
    decreases upto,
{
    if upto > 0 {
        lemma_count_distinct(nodes, id, (upto - 1) as nat);
        if nodes[upto - 1].id == id && id_count(nodes, id, (upto - 1) as nat) == 1 {
            let k = choose|k: int| 0 <= k < upto - 1 && (#[trigger] nodes[k]).id == id;
            assert(nodes[k].id != nodes[upto - 1].id);
        }
    }
}

/// Where no endpoint of the first `upto` edges is reported as unknown,
/// each of them is the identifier of a node.
proof fn lemma_no_dangling(dag: ExecutionDagView, upto: nat)
    requires
        upto <= dag.edges.len(),
        dangling_errors(dag, upto).len() == 0,
    ensures
        forall|j: int|
            0 <= j < upto ==> declares(dag.nodes, (#[trigger] dag.edges[j]).from) && declares(
                dag.nodes,
                dag.edges[j].to,
            ),
    decreases upto,
{
    if upto > 0 {
        lemma_no_dangling(dag, (upto - 1) as nat);
    }
}

/// The invariants of the data model that the schema layer checks: the
/// version, the skill identifier and the display name are filled, there is
/// a node, no identifier is declared twice, and every edge joins declared
/// nodes.
pub open spec fn keeps_invariants(skill: JadeSkillView) -> bool {
    &&& skill.jade_version.len() > 0
    &&& skill.skill_id.len() > 0
    &&& skill.metadata.name.len() > 0
    &&& skill.execution_dag.nodes.len() > 0
    &&& forall|a: int, b: int|
        0 <= a < b < skill.execution_dag.nodes.len() ==> (#[trigger] skill.execution_dag.nodes[a]).id
            != (#[trigger] skill.execution_dag.nodes[b]).id
    &&& forall|j: int|
        0 <= j < skill.execution_dag.edges.len() ==> declares(
            skill.execution_dag.nodes,
            (#[trigger] skill.execution_dag.edges[j]).from,
        ) && declares(skill.execution_dag.nodes, skill.execution_dag.edges[j].to)
}

/// Distinct identifiers are not reported as repeated.
proof fn lemma_distinct_passes(nodes: Seq<DagNodeView>, upto: nat)
    requires
        upto <= nodes.len(),
        forall|a: int, b: int| 0 <= a < b < upto ==> (#[trigger] nodes[a]).id != (#[trigger] nodes[b]).id,
    ensures
        duplicate_errors(nodes, upto).len() == 0,
    decreases upto,
{
    if upto > 0 {
        let last = (upto - 1) as nat;
        lemma_distinct_passes(nodes, last);
        lemma_count_distinct(nodes, nodes[last as int].id, last);
        if id_count(nodes, nodes[last as int].id, last) == 1 {
            let k = choose|k: int| 0 <= k < last && (#[trigger] nodes[k]).id == nodes[last as int].id;
            assert(nodes[k].id != nodes[last as int].id);
        }
    }
}

/// Edges between declared nodes are not reported.
proof fn lemma_declared_passes(dag: ExecutionDagView, upto: nat)
    requires
        upto <= dag.edges.len(),
        forall|j: int|
            0 <= j < upto ==> declares(dag.nodes, (#[trigger] dag.edges[j]).from) && declares(
                dag.nodes,
                dag.edges[j].to,
            ),
    ensures
        dangling_errors(dag, upto).len() == 0,
    decreases upto,
{
    if upto > 0 {
        lemma_declared_passes(dag, (upto - 1) as nat);
        assert(declares(dag.nodes, dag.edges[upto - 1].from));
    }
}

/// A manifest has no schema error exactly when it keeps the invariants of
/// the data model.
pub proof fn lemma_well_formed(skill: JadeSkillView)
    ensures
        well_formed(skill) <==> keeps_invariants(skill),
{
    let dag = skill.execution_dag;
    if well_formed(skill) {
        lemma_no_duplicates(dag.nodes, dag.nodes.len());
        lemma_no_dangling(dag, dag.edges.len());
    }
    if keeps_invariants(skill) {
        lemma_distinct_passes(dag.nodes, dag.nodes.len());
        lemma_declared_passes(dag, dag.edges.len());
    }
}

/// Appends `message` to `list`.
pub(crate) fn push_text(list: &mut Vec<String>, message: String)
    ensures
        final(list).deep_view() == old(list).deep_view().push(message@),
{
    list.push(message);
    proof {
        assert(list.deep_view() =~= old(list).deep_view().push(message@));
    }
}

/// `head` followed by `tail`.
pub(crate) fn joined(head: &str, tail: &str) -> (out: String)
    ensures
        out@ == head@ + tail@,
{
    let mut out = String::from_str(head);
    out.append(tail);
    out
}

/// The identifiers of the nodes, as characters.
fn node_ids(nodes: &Vec<DagNode>) -> (ids: Vec<Vec<char>>)
    ensures
        ids@.len() == nodes@.len(),
        forall|k: int| 0 <= k < nodes@.len() ==> (#[trigger] ids@[k])@ == nodes@[k].id@,
{
    let mut ids: Vec<Vec<char>> = Vec::new();
    let mut k: usize = 0;
    while k < nodes.len()
        invariant
            k <= nodes.len(),
            ids@.len() == k,
            forall|j: int| 0 <= j < k ==> (#[trigger] ids@[j])@ == nodes@[j].id@,
        decreases nodes.len() - k,
    {
        ids.push(chars_of(nodes[k].id.as_str()));
        k += 1;
    }
    ids
}

/// How many of the first `upto` identifiers equal `id`.
fn count_id(ids: &Vec<Vec<char>>, id: &[char], upto: usize, Ghost(nodes): Ghost<Seq<DagNodeView>>) -> (count: usize)
    requires
        upto <= ids@.len(),
        ids@.len() == nodes.len(),
        forall|k: int| 0 <= k < nodes.len() ==> (#[trigger] ids@[k])@ == nodes[k].id,
    ensures
        count == id_count(nodes, id@, upto as nat),
{
    let mut count: usize = 0;
    let mut k: usize = 0;
    while k < upto
        invariant
            k <= upto <= ids@.len(),
            ids@.len() == nodes.len(),
            forall|j: int| 0 <= j < nodes.len() ==> (#[trigger] ids@[j])@ == nodes[j].id,
            count <= k,
            count == id_count(nodes, id@, k as nat),
        decreases upto - k,
    {
        if same_chars(ids[k].as_slice(), id) {
            count += 1;
        }
        k += 1;
    }
    count
}

/// Whether one of the identifiers equals `id`.
fn is_declared(ids: &Vec<Vec<char>>, id: &[char], Ghost(nodes): Ghost<Seq<DagNodeView>>) -> (found: bool)
    requires
        ids@.len() == nodes.len(),
        forall|k: int| 0 <= k < nodes.len() ==> (#[trigger] ids@[k])@ == nodes[k].id,
    ensures
        found == declares(nodes, id@),
{
    let mut k: usize = 0;
    while k < ids.len()
        invariant
            k <= ids@.len(),
            ids@.len() == nodes.len(),
            forall|j: int| 0 <= j < nodes.len() ==> (#[trigger] ids@[j])@ == nodes[j].id,
            forall|j: int| 0 <= j < k ==> nodes[j].id != id@,
        decreases ids.len() - k,
    {
        if same_chars(ids[k].as_slice(), id) {
            return true;
        }
        k += 1;
    }
    false
}

/// Checks the manifest's shape: that the version, the skill identifier and
/// the display name are filled, that there is at least one node, that no
/// node identifier is repeated, and that every edge joins declared nodes.
/// All checks run; an empty result means that the layer passes.
pub fn validate_schema(skill: &JadeSkill) -> (errors: Vec<String>)
    ensures
        errors.deep_view() == schema_errors(skill@),
{
    let mut errors: Vec<String> = Vec::new();
    assert(errors.deep_view() =~= Seq::<Seq<char>>::empty());
    if skill.jade_version.as_str().is_empty() {
        push_text(&mut errors, String::from_str("Missing jade_version"));
    }
    if skill.skill_id.as_str().is_empty() {
        push_text(&mut errors, String::from_str("Missing skill_id"));
    }
    if skill.metadata.name.as_str().is_empty() {
        push_text(&mut errors, String::from_str("Missing metadata.name"));
    }
    if skill.execution_dag.nodes.len() == 0 {
        push_text(&mut errors, String::from_str("DAG has no nodes"));
    }
    assert(errors.deep_view() =~= presence_errors(skill@));

    let nodes = &skill.execution_dag.nodes;
    let edges = &skill.execution_dag.edges;
    let ghost dag = skill@.execution_dag;
    let ids = node_ids(nodes);
    let mut k: usize = 0;
    while k < nodes.len()
        invariant
            k <= nodes.len(),
            dag == skill@.execution_dag,
            nodes == &skill.execution_dag.nodes,
            ids@.len() == nodes@.len(),
            forall|j: int| 0 <= j < dag.nodes.len() ==> (#[trigger] ids@[j])@ == dag.nodes[j].id,
            errors.deep_view() == presence_errors(skill@) + duplicate_errors(dag.nodes, k as nat),
        decreases nodes.len() - k,
    {
        let seen = count_id(&ids, ids[k].as_slice(), k, Ghost(dag.nodes));
        if seen == 1 {
            push_text(&mut errors, joined("Duplicate node ID: ", nodes[k].id.as_str()));
        }
        k += 1;
        assert(errors.deep_view() =~= presence_errors(skill@) + duplicate_errors(
            dag.nodes,
            k as nat,
        ));
    }
    let ghost before = presence_errors(skill@) + duplicate_errors(dag.nodes, dag.nodes.len());
    let mut k: usize = 0;
    while k < edges.len()
        invariant
            k <= edges.len(),
            dag == skill@.execution_dag,
            edges == &skill.execution_dag.edges,
            ids@.len() == dag.nodes.len(),
            forall|j: int| 0 <= j < dag.nodes.len() ==> (#[trigger] ids@[j])@ == dag.nodes[j].id,
            before == presence_errors(skill@) + duplicate_errors(dag.nodes, dag.nodes.len()),
            errors.deep_view() == before + dangling_errors(dag, k as nat),
        decreases edges.len() - k,
    {
        let from = chars_of(edges[k].from.as_str());
        if !is_declared(&ids, from.as_slice(), Ghost(dag.nodes)) {
            push_text(&mut errors, joined("Edge references unknown node: ", edges[k].from.as_str()));
        }
        let to = chars_of(edges[k].to.as_str());
        if !is_declared(&ids, to.as_slice(), Ghost(dag.nodes)) {
            push_text(&mut errors, joined("Edge references unknown node: ", edges[k].to.as_str()));
        }
        k += 1;
        assert(errors.deep_view() =~= before + dangling_errors(dag, k as nat));
    }
    errors
}

} // verus!
