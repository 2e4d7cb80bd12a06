//! Layer 2: integrity of the execution graph.
//!
//! The graph is read over identifiers: every distinct identifier that a
//! node declares or an edge mentions is a vertex, the declared ones first
//! and in the order of the node list. A vertex that is not declared is
//! removed only if an edge leads into it.

use vstd::prelude::*;
use vstd::string::StringExecFns;
use crate::graph::{
    eligible, eliminate, graph_of, has_cycle, is_cycle, lemma_complete_holds_all,
    lemma_complete_iff_acyclic, lemma_order_sorted, lemma_order_takes_least, removal_order, Graph,
};
use crate::schema::{
    declares, error_if, joined, push_text, DagEdgeView, DagNodeView, ExecutionDag,
    ExecutionDagView, JadeSkill,
};
use crate::text::{chars_of, decimal, push_decimal, same_chars};

verus! {

/// `table` with `id` added at its end unless it holds `id` already.
pub open spec fn with_id(table: Seq<Seq<char>>, id: Seq<char>) -> Seq<Seq<char>> {
    if table.contains(id) {
        table
    } else {
        table.push(id)
    }
}

/// The distinct identifiers of the first `upto` nodes, each where it first
/// occurs.
pub open spec fn node_table(nodes: Seq<DagNodeView>, upto: nat) -> Seq<Seq<char>>
    decreases upto,
{
    if upto == 0 {
        Seq::empty()
    } else {
        with_id(node_table(nodes, (upto - 1) as nat), nodes[upto - 1].id)
    }
}

/// The distinct identifiers of the nodes, followed by those that only the
/// first `upto` edges mention.
pub open spec fn id_table(dag: ExecutionDagView, upto: nat) -> Seq<Seq<char>>
    decreases upto,
{
    if upto == 0 {
        node_table(dag.nodes, dag.nodes.len())
    } else {
        with_id(
            with_id(id_table(dag, (upto - 1) as nat), dag.edges[upto - 1].from),
            dag.edges[upto - 1].to,
        )
    }
}

/// The vertices of the graph: its distinct identifiers.
pub open spec fn vertices(dag: ExecutionDagView) -> Seq<Seq<char>> {
    id_table(dag, dag.edges.len())
}

/// The number of the vertex `id`.
pub open spec fn place(table: Seq<Seq<char>>, id: Seq<char>) -> usize {
    table.index_of(id) as usize
}

/// The edges over the numbers of their endpoints.
pub open spec fn links(dag: ExecutionDagView) -> Seq<(usize, usize)> {
    dag.edges.map_values(
        |e: DagEdgeView| (place(vertices(dag), e.from), place(vertices(dag), e.to)),
    )
}

/// The graph over vertex numbers that the elimination runs on.
pub open spec fn dag_graph(dag: ExecutionDagView) -> Graph {
    Graph {
        size: vertices(dag).len(),
        seeds: node_table(dag.nodes, dag.nodes.len()).len(),
        edges: links(dag),
    }
}

/// The identifiers that the elimination removes, in the order of removal.
pub open spec fn removed_ids(dag: ExecutionDagView) -> Seq<Seq<char>> {
    removal_order(dag_graph(dag)).map_values(|v: usize| vertices(dag)[v as int])
}

/// The execution order of the graph: the removed identifiers, unless fewer
/// were removed than there are nodes.
pub open spec fn topological_order(dag: ExecutionDagView) -> Result<Seq<Seq<char>>, Seq<char>> {
    if removed_ids(dag).len() < dag.nodes.len() {
        Err("Cycle detected in DAG"@)
    } else {
        Ok(removed_ids(dag))
    }
}

/// The error for a cycle, if fewer identifiers were removed than there are
/// nodes.
pub open spec fn cycle_errors(dag: ExecutionDagView) -> Seq<Seq<char>> {
    error_if(
        removed_ids(dag).len() < dag.nodes.len(),
        "DAG contains a cycle ("@ + decimal(removed_ids(dag).len()) + " of "@ + decimal(
            dag.nodes.len(),
        ) + " nodes reachable)"@,
    )
}

/// Some edge starts or ends at `id`.
pub open spec fn is_endpoint(dag: ExecutionDagView, id: Seq<char>) -> bool {
    exists|j: int|
        0 <= j < dag.edges.len() && ((#[trigger] dag.edges[j]).from == id || dag.edges[j].to == id)
}

/// The errors for those of the first `upto` nodes that no edge touches.
pub open spec fn orphan_errors(dag: ExecutionDagView, upto: nat) -> Seq<Seq<char>>
    decreases upto,
{
    if upto == 0 {
        Seq::empty()
    } else {
        orphan_errors(dag, (upto - 1) as nat) + error_if(
            !is_endpoint(dag, dag.nodes[upto - 1].id),
            "Orphan node: "@ + dag.nodes[upto - 1].id + " (not connected to DAG)"@,
        )
    }
}

/// Every graph error: the cycle first, then the orphans in node order. A
/// graph of one node has no orphan.
pub open spec fn dag_errors(dag: ExecutionDagView) -> Seq<Seq<char>> {
    cycle_errors(dag) + if dag.nodes.len() > 1 {
        orphan_errors(dag, dag.nodes.len())
    } else {
        Seq::empty()
    }
}

/// The characters of each row.
spec fn rows(table: Seq<Vec<char>>) -> Seq<Seq<char>> {
    table.map_values(|r: Vec<char>| r@)
}

/// The characters of each name.
spec fn names_of(names: Seq<&str>) -> Seq<Seq<char>> {
    names.map_values(|s: &str| s@)
}

/// Adding an identifier keeps a table free of repetitions, and keeps every
/// identifier where it was.
proof fn lemma_with_id(table: Seq<Seq<char>>, id: Seq<char>)
    requires
        table.no_duplicates(),
    ensures
        with_id(table, id).no_duplicates(),
        with_id(table, id).contains(id),
        table.len() <= with_id(table, id).len(),
        with_id(table, id).take(table.len() as int) == table,
        forall|x: Seq<char>| table.contains(x) ==> with_id(table, id).contains(x),
{
    let t = with_id(table, id);
    assert(t.take(table.len() as int) =~= table);
    if table.contains(id) {
    } else {
        assert(t[table.len() as int] == id);
        assert forall|x: Seq<char>| table.contains(x) implies t.contains(x) by {
            let i = choose|i: int| 0 <= i < table.len() && table[i] == x;
            assert(t[i] == x);
        }
    }
}

/// The place of an identifier in a table without repetitions is the one
/// index at which it stands.
proof fn lemma_place(table: Seq<Seq<char>>, id: Seq<char>, at: int)
    requires
        table.no_duplicates(),
        0 <= at < table.len(),
        table[at] == id,
    ensures
        table.index_of(id) == at,
{
    let i = table.index_of(id);
    assert(0 <= i < table.len() && table[i] == id);
}

/// The tables hold no identifier twice, grow with the edges, and hold the
/// endpoints of the edges that were read.
proof fn lemma_id_table(dag: ExecutionDagView, upto: nat)
    requires
        upto <= dag.edges.len(),
    ensures
        id_table(dag, upto).no_duplicates(),
        node_table(dag.nodes, dag.nodes.len()).len() <= id_table(dag, upto).len(),
        forall|j: int|
            0 <= j < upto ==> id_table(dag, upto).contains((#[trigger] dag.edges[j]).from)
                && id_table(dag, upto).contains(dag.edges[j].to),
    decreases upto,
{
    if upto == 0 {
        lemma_node_table(dag.nodes, dag.nodes.len());
    } else {
        lemma_id_table(dag, (upto - 1) as nat);
        let before = id_table(dag, (upto - 1) as nat);
        let middle = with_id(before, dag.edges[upto - 1].from);
        lemma_with_id(before, dag.edges[upto - 1].from);
        lemma_with_id(middle, dag.edges[upto - 1].to);
    }
}

/// The table of the nodes holds no identifier twice, and holds the
/// identifier of every node that was read.
proof fn lemma_node_table(nodes: Seq<DagNodeView>, upto: nat)
    requires
        upto <= nodes.len(),
    ensures
        node_table(nodes, upto).no_duplicates(),
        node_table(nodes, upto).len() <= upto,
        forall|k: int| 0 <= k < upto ==> node_table(nodes, upto).contains((#[trigger] nodes[k]).id),
        forall|x: Seq<char>|
            node_table(nodes, upto).contains(x) ==> exists|k: int|
                0 <= k < upto && (#[trigger] nodes[k]).id == x,
    decreases upto,
{
    if upto > 0 {
        lemma_node_table(nodes, (upto - 1) as nat);
        let before = node_table(nodes, (upto - 1) as nat);
        let now = node_table(nodes, upto);
        lemma_with_id(before, nodes[upto - 1].id);
        assert forall|x: Seq<char>| now.contains(x) implies exists|k: int|
            0 <= k < upto && (#[trigger] nodes[k]).id == x by {
            if before.contains(x) {
                let k = choose|k: int| 0 <= k < upto - 1 && (#[trigger] nodes[k]).id == x;
                assert(0 <= k < upto && nodes[k].id == x);
            } else {
                let i = choose|i: int| 0 <= i < now.len() && now[i] == x;
                assert(now[i] == nodes[upto - 1].id);
            }
        }
    }
}

/// The numbers of an edge's endpoints are the places of its identifiers.
proof fn lemma_endpoints_placed(dag: ExecutionDagView, j: int)
    requires
        0 <= j < dag.edges.len(),
        vertices(dag).len() <= usize::MAX,
    ensures
        links(dag)[j].0 < vertices(dag).len(),
        links(dag)[j].1 < vertices(dag).len(),
        vertices(dag)[links(dag)[j].0 as int] == dag.edges[j].from,
        vertices(dag)[links(dag)[j].1 as int] == dag.edges[j].to,
{
    lemma_id_table(dag, dag.edges.len());
    let table = vertices(dag);
    assert(table.contains(dag.edges[j].from));
    assert(table.contains(dag.edges[j].to));
    let a = table.index_of(dag.edges[j].from);
    let b = table.index_of(dag.edges[j].to);
    assert(0 <= a < table.len() && table[a] == dag.edges[j].from);
    assert(0 <= b < table.len() && table[b] == dag.edges[j].to);
}

/// The position of `id` among the rows, if it is there.
fn find(chars: &Vec<Vec<char>>, id: &[char]) -> (at: Option<usize>)
    ensures
        match at {
            Some(i) => i < chars@.len() && rows(chars@)[i as int] == id@,
            None => !rows(chars@).contains(id@),
        },
{
    let mut i: usize = 0;
    while i < chars.len()
        invariant
            i <= chars@.len(),
            forall|j: int| 0 <= j < i ==> rows(chars@)[j] != id@,
        decreases chars.len() - i,
    {
        if same_chars(chars[i].as_slice(), id) {
            return Some(i);
        }
        i += 1;
    }
    None
}

/// The number of the vertex `name`, which joins the table if it is new.
fn intern<'a>(names: &mut Vec<&'a str>, chars: &mut Vec<Vec<char>>, name: &'a str) -> (at: usize)
    requires
        names_of(old(names)@) == rows(old(chars)@),
    ensures
        names_of(final(names)@) == rows(final(chars)@),
        rows(final(chars)@) == with_id(rows(old(chars)@), name@),
        at < final(chars)@.len(),
        rows(final(chars)@)[at as int] == name@,
{
    let id = chars_of(name);
    match find(chars, id.as_slice()) {
        Some(i) => i,
        None => {
            let at = chars.len();
            names.push(name);
            chars.push(id);
            proof {
                assert(rows(chars@) =~= rows(old(chars)@).push(name@));
                assert(names_of(names@) =~= names_of(old(names)@).push(name@));
            }
            at
        },
    }
}

/// The graph of a manifest over vertex numbers.
struct Numbered<'a> {
    /// The identifier of each vertex.
    names: Vec<&'a str>,
    /// How many of the vertices are declared nodes.
    seeds: usize,
    /// The vertex of each node.
    node_at: Vec<usize>,
    /// The edges, over the numbers of their endpoints.
    edges: Vec<(usize, usize)>,
}

impl<'a> Numbered<'a> {
    spec fn matches(self, dag: ExecutionDagView) -> bool {
        &&& names_of(self.names@) == vertices(dag)
        &&& vertices(dag).no_duplicates()
        &&& self.seeds == node_table(dag.nodes, dag.nodes.len()).len()
        &&& self.edges@ == links(dag)
        &&& dag_graph(dag).wf()
        &&& dag_graph(dag) == graph_of(self.names@.len() as usize, self.seeds, self.edges@)
        &&& self.node_at@.len() == dag.nodes.len()
        &&& forall|k: int|
            0 <= k < dag.nodes.len() ==> (#[trigger] self.node_at@[k]) < vertices(dag).len()
                && vertices(dag)[self.node_at@[k] as int] == dag.nodes[k].id
    }
}

/// Numbers the identifiers of the graph and rewrites its edges over the
/// numbers.
fn number<'a>(dag: &'a ExecutionDag) -> (out: Numbered<'a>)
    ensures
        out.matches(dag@),
{
    let mut names: Vec<&'a str> = Vec::new();
    let mut chars: Vec<Vec<char>> = Vec::new();
    let mut node_at: Vec<usize> = Vec::new();
    assert(rows(chars@) =~= node_table(dag@.nodes, 0));
    assert(names_of(names@) =~= rows(chars@));
    let mut k: usize = 0;
    while k < dag.nodes.len()
        invariant
            k <= dag.nodes@.len(),
            names_of(names@) == rows(chars@),
            rows(chars@) == node_table(dag@.nodes, k as nat),
            rows(chars@).no_duplicates(),
            node_at@.len() == k,
            forall|j: int|
                0 <= j < k ==> (#[trigger] node_at@[j]) < chars@.len() && rows(
                    chars@,
                )[node_at@[j] as int] == dag@.nodes[j].id,
        decreases dag.nodes.len() - k,
    {
        proof {
            lemma_with_id(rows(chars@), dag@.nodes[k as int].id);
        }
        let ghost before = rows(chars@);
        let at = intern(&mut names, &mut chars, dag.nodes[k].id.as_str());
        node_at.push(at);
        proof {
            assert forall|j: int| 0 <= j < k implies (#[trigger] node_at@[j]) < chars@.len() && rows(
                chars@,
            )[node_at@[j] as int] == dag@.nodes[j].id by {
                assert(rows(chars@).take(before.len() as int)[node_at@[j] as int]
                    == before[node_at@[j] as int]);
            }
        }
        k += 1;
    }
    let seeds = chars.len();
    let mut edges: Vec<(usize, usize)> = Vec::new();
    let mut k: usize = 0;
    while k < dag.edges.len()
        invariant
            k <= dag.edges@.len(),
            names_of(names@) == rows(chars@),
            rows(chars@) == id_table(dag@, k as nat),
            rows(chars@).no_duplicates(),
            seeds <= chars@.len(),
            seeds == node_table(dag@.nodes, dag@.nodes.len()).len(),
            node_at@.len() == dag@.nodes.len(),
            forall|j: int|
                0 <= j < dag@.nodes.len() ==> (#[trigger] node_at@[j]) < chars@.len() && rows(
                    chars@,
                )[node_at@[j] as int] == dag@.nodes[j].id,
            edges@.len() == k,
            forall|j: int|
                0 <= j < k ==> (#[trigger] edges@[j]).0 < chars@.len() && edges@[j].1 < chars@.len()
                    && rows(chars@)[edges@[j].0 as int] == dag@.edges[j].from && rows(
                    chars@,
                )[edges@[j].1 as int] == dag@.edges[j].to,
        decreases dag.edges.len() - k,
    {
        let ghost before = rows(chars@);
        proof {
            lemma_with_id(before, dag@.edges[k as int].from);
            lemma_with_id(with_id(before, dag@.edges[k as int].from), dag@.edges[k as int].to);
        }
        let from = intern(&mut names, &mut chars, dag.edges[k].from.as_str());
        let ghost middle = rows(chars@);
        let to = intern(&mut names, &mut chars, dag.edges[k].to.as_str());
        let ghost after = rows(chars@);
        proof {
            assert forall|i: int| 0 <= i < before.len() implies after[i] == before[i] by {
                assert(middle.take(before.len() as int)[i] == before[i]);
                assert(after.take(middle.len() as int)[i] == middle[i]);
            }
            assert(after[from as int] == dag@.edges[k as int].from) by {
                assert(after.take(middle.len() as int)[from as int] == middle[from as int]);
            }
        }
        edges.push((from, to));
        k += 1;
    }
    let size = chars.len();
    proof {
        let table = vertices(dag@);
        assert(table == rows(chars@));
        assert forall|j: int| 0 <= j < dag@.edges.len() implies edges@[j] == links(dag@)[j] by {
            lemma_place(table, dag@.edges[j].from, edges@[j].0 as int);
            lemma_place(table, dag@.edges[j].to, edges@[j].1 as int);
        }
        assert(edges@ =~= links(dag@));
        assert(names_of(names@).len() == names@.len());
        let g = dag_graph(dag@);
        assert(g.edges.len() == dag@.edges.len());
        assert(g.size == size);
        assert(g.seeds <= g.size <= usize::MAX);
        assert forall|j: int| 0 <= j < g.edges.len() implies (#[trigger] g.edges[j]).0 < g.size
            && g.edges[j].1 < g.size by {
            assert(g.edges[j] == edges@[j]);
        }
        assert(g.wf());
        assert(g == graph_of(names@.len() as usize, seeds, edges@));
    }
    Numbered { names, seeds, node_at, edges }
}

/// The outcome of ordering the graph, over characters.
pub open spec fn order_view(r: Result<Vec<String>, String>) -> Result<Seq<Seq<char>>, Seq<char>> {
    match r {
        Ok(order) => Ok(order.deep_view()),
        Err(e) => Err(e@),
    }
}

/// The execution order of the graph, or an error if the graph has a cycle.
///
/// Among the nodes whose predecessors are all placed, the one that stands
/// first in the node list is placed next. The same graph always gives the
/// same order.
pub fn topological_sort(skill: &JadeSkill) -> (result: Result<Vec<String>, String>)
    ensures
        order_view(result) == topological_order(skill@.execution_dag),
{
    let dag = &skill.execution_dag;
    let numbered = number(dag);
    let removed = eliminate(numbered.names.len(), numbered.seeds, &numbered.edges);
    proof {
        lemma_order_sorted(dag_graph(dag@));
    }
    if removed.len() < dag.nodes.len() {
        return Err(String::from_str("Cycle detected in DAG"));
    }
    let mut order: Vec<String> = Vec::new();
    let mut i: usize = 0;
    while i < removed.len()
        invariant
            i <= removed@.len(),
            numbered.matches(dag@),
            removed@ == removal_order(dag_graph(dag@)),
            forall|j: int| 0 <= j < removed@.len() ==> (#[trigger] removed@[j]) < vertices(dag@).len(),
            order.deep_view() == removed_ids(dag@).take(i as int),
        decreases removed.len() - i,
    {
        let name = String::from_str(numbered.names[removed[i]]);
        proof {
            assert(names_of(numbered.names@)[removed@[i as int] as int] == vertices(
                dag@,
            )[removed@[i as int] as int]);
            assert(removed_ids(dag@).take(i + 1) =~= removed_ids(dag@).take(i as int).push(name@));
        }
        push_text(&mut order, name);
        i += 1;
    }
    proof {
        assert(removed_ids(dag@).take(removed@.len() as int) =~= removed_ids(dag@));
    }
    Ok(order)
}

/// For each vertex, whether an edge starts or ends at it.
fn touched(size: usize, edges: &Vec<(usize, usize)>) -> (marks: Vec<bool>)
    requires
        forall|j: int|
            0 <= j < edges@.len() ==> (#[trigger] edges@[j]).0 < size && edges@[j].1 < size,
    ensures
        marks@.len() == size,
        forall|v: int|
            0 <= v < size ==> (#[trigger] marks@[v] <==> exists|j: int|
                0 <= j < edges@.len() && ((#[trigger] edges@[j]).0 == v || edges@[j].1 == v)),
{
    let mut marks: Vec<bool> = Vec::new();
    let mut v: usize = 0;
    while v < size
        invariant
            v <= size,
            marks@.len() == v,
            forall|x: int| 0 <= x < v ==> !marks@[x],
        decreases size - v,
    {
        marks.push(false);
        v += 1;
    }
    let mut k: usize = 0;
    while k < edges.len()
        invariant
            k <= edges@.len(),
            marks@.len() == size,
            forall|j: int|
                0 <= j < edges@.len() ==> (#[trigger] edges@[j]).0 < size && edges@[j].1 < size,
            forall|v: int|
                0 <= v < size ==> (#[trigger] marks@[v] <==> exists|j: int|
                    0 <= j < k && ((#[trigger] edges@[j]).0 == v || edges@[j].1 == v)),
        decreases edges.len() - k,
    {
        let ghost before = marks@;
        let from = edges[k].0;
        let to = edges[k].1;
        marks.set(from, true);
        marks.set(to, true);
        proof {
            assert forall|v: int| 0 <= v < size implies (#[trigger] marks@[v] <==> exists|j: int|
                0 <= j < k + 1 && ((#[trigger] edges@[j]).0 == v || edges@[j].1 == v)) by {
                if marks@[v] {
                    if v == from || v == to {
                        assert(edges@[k as int].0 == v || edges@[k as int].1 == v);
                    } else {
                        assert(before[v]);
                        let j = choose|j: int|
                            0 <= j < k && ((#[trigger] edges@[j]).0 == v || edges@[j].1 == v);
                        assert(0 <= j < k + 1 && (edges@[j].0 == v || edges@[j].1 == v));
                    }
                } else {
                    assert(!before[v]);
                }
            }
        }
        k += 1;
    }
    marks
}

/// Checks that the execution graph has no cycle and, where it has more
/// than one node, that every node is an endpoint of some edge. Both checks
/// always run; an empty result means that the layer passes.
pub fn validate_dag(skill: &JadeSkill) -> (errors: Vec<String>)
    ensures
        errors.deep_view() == dag_errors(skill@.execution_dag),
{
    let dag = &skill.execution_dag;
    let numbered = number(dag);
    let removed = eliminate(numbered.names.len(), numbered.seeds, &numbered.edges);
    let mut errors: Vec<String> = Vec::new();
    assert(errors.deep_view() =~= Seq::<Seq<char>>::empty());
    if removed.len() < dag.nodes.len() {
        let mut message = String::from_str("DAG contains a cycle (");
        push_decimal(&mut message, removed.len() as u64);
        message.append(" of ");
        push_decimal(&mut message, dag.nodes.len() as u64);
        message.append(" nodes reachable)");
        push_text(&mut errors, message);
    }
    assert(errors.deep_view() =~= cycle_errors(dag@));
    if dag.nodes.len() > 1 {
        let marks = touched(numbered.names.len(), &numbered.edges);
        let mut k: usize = 0;
        while k < dag.nodes.len()
            invariant
                k <= dag.nodes@.len(),
                numbered.matches(dag@),
                marks@.len() == numbered.names@.len(),
                forall|v: int|
                    0 <= v < marks@.len() ==> (#[trigger] marks@[v] <==> exists|j: int|
                        0 <= j < numbered.edges@.len() && ((#[trigger] numbered.edges@[j]).0 == v
                            || numbered.edges@[j].1 == v)),
                errors.deep_view() == cycle_errors(dag@) + orphan_errors(dag@, k as nat),
            decreases dag.nodes.len() - k,
        {
            let at = numbered.node_at[k];
            let found = marks[at];
            proof {
                assert(names_of(numbered.names@).len() == numbered.names@.len());
                let id = dag@.nodes[k as int].id;
                let table = vertices(dag@);
                if found {
                    let j = choose|j: int|
                        0 <= j < numbered.edges@.len() && ((#[trigger] numbered.edges@[j]).0 == at
                            || numbered.edges@[j].1 == at);
                    lemma_endpoints_placed(dag@, j);
                    assert(dag@.edges[j].from == id || dag@.edges[j].to == id);
                }
                if is_endpoint(dag@, id) {
                    let j = choose|j: int|
                        0 <= j < dag@.edges.len() && ((#[trigger] dag@.edges[j]).from == id
                            || dag@.edges[j].to == id);
                    lemma_endpoints_placed(dag@, j);
                    lemma_place(table, id, at as int);
                    assert(numbered.edges@[j].0 == at || numbered.edges@[j].1 == at);
                }
            }
            if !found {
                let mut message = joined("Orphan node: ", dag.nodes[k].id.as_str());
                message.append(" (not connected to DAG)");
                push_text(&mut errors, message);
            }
            k += 1;
            assert(errors.deep_view() =~= cycle_errors(dag@) + orphan_errors(dag@, k as nat));
        }
    } else {
        assert(errors.deep_view() =~= dag_errors(dag@));
    }
    errors
}

/// The graph keeps the invariants of the data model: no identifier is
/// declared twice, and every edge joins declared nodes. Its lists have
/// lengths that a machine can hold.
pub open spec fn sound_graph(dag: ExecutionDagView) -> bool {
    &&& dag.nodes.len() <= usize::MAX
    &&& dag.edges.len() <= usize::MAX
    &&& forall|a: int, b: int|
        0 <= a < dag.nodes.len() && 0 <= b < dag.nodes.len() && a != b ==> (#[trigger] dag.nodes[a]).id
            != (#[trigger] dag.nodes[b]).id
    &&& forall|j: int|
        0 <= j < dag.edges.len() ==> declares(dag.nodes, (#[trigger] dag.edges[j]).from)
            && declares(dag.nodes, dag.edges[j].to)
}

/// Some edge leads from `a` to `b`.
pub open spec fn linked(dag: ExecutionDagView, a: Seq<char>, b: Seq<char>) -> bool {
    exists|j: int|
        0 <= j < dag.edges.len() && (#[trigger] dag.edges[j]).from == a && dag.edges[j].to == b
}

/// `w` follows at least one edge, then further edges from each identifier
/// to the next, and ends where it starts.
pub open spec fn is_directed_cycle(dag: ExecutionDagView, w: Seq<Seq<char>>) -> bool {
    &&& w.len() >= 2
    &&& w.first() == w.last()
    &&& forall|t: int| 0 < t < w.len() ==> linked(dag, w[t - 1], #[trigger] w[t])
}

/// The graph has a directed cycle.
pub open spec fn has_directed_cycle(dag: ExecutionDagView) -> bool {
    exists|w: Seq<Seq<char>>| is_directed_cycle(dag, w)
}

/// The identifiers of the nodes, in the order of the node list.
pub open spec fn ids_of(nodes: Seq<DagNodeView>) -> Seq<Seq<char>> {
    nodes.map_values(|n: DagNodeView| n.id)
}

/// In a sound graph the vertices are the nodes, in the order of the node
/// list, and each of them may start the elimination.
pub proof fn lemma_sound_vertices(dag: ExecutionDagView)
    requires
        sound_graph(dag),
    ensures
        vertices(dag) == ids_of(dag.nodes),
        node_table(dag.nodes, dag.nodes.len()) == ids_of(dag.nodes),
        vertices(dag).no_duplicates(),
        dag_graph(dag).wf(),
        dag_graph(dag).size == dag.nodes.len(),
        dag_graph(dag).seeds == dag.nodes.len(),
{
    lemma_sound_nodes(dag, dag.nodes.len());
    assert(ids_of(dag.nodes).take(dag.nodes.len() as int) =~= ids_of(dag.nodes));
    lemma_sound_edges(dag, dag.edges.len());
    lemma_id_table(dag, dag.edges.len());
    let g = dag_graph(dag);
    assert forall|j: int| 0 <= j < g.edges.len() implies (#[trigger] g.edges[j]).0 < g.size
        && g.edges[j].1 < g.size by {
        lemma_endpoints_placed(dag, j);
    }
}

/// In a sound graph the table of the first nodes holds their identifiers
/// in order.
proof fn lemma_sound_nodes(dag: ExecutionDagView, upto: nat)
    requires
        sound_graph(dag),
        upto <= dag.nodes.len(),
    ensures
        node_table(dag.nodes, upto) == ids_of(dag.nodes).take(upto as int),
    decreases upto,
{
    let ids = ids_of(dag.nodes);
    if upto == 0 {
        assert(node_table(dag.nodes, 0) =~= ids.take(0));
    } else {
        lemma_sound_nodes(dag, (upto - 1) as nat);
        let before = ids.take(upto - 1);
        let id = dag.nodes[upto - 1].id;
        if before.contains(id) {
            let i = choose|i: int| 0 <= i < before.len() && before[i] == id;
            assert(dag.nodes[i].id == dag.nodes[upto - 1].id);
        }
        assert(before.push(id) =~= ids.take(upto as int));
    }
}

/// In a sound graph the edges add no identifier to the table.
proof fn lemma_sound_edges(dag: ExecutionDagView, upto: nat)
    requires
        sound_graph(dag),
        upto <= dag.edges.len(),
    ensures
        id_table(dag, upto) == ids_of(dag.nodes),
    decreases upto,
{
    let ids = ids_of(dag.nodes);
    if upto == 0 {
        lemma_sound_nodes(dag, dag.nodes.len());
        assert(ids.take(dag.nodes.len() as int) =~= ids);
    } else {
        lemma_sound_edges(dag, (upto - 1) as nat);
        let e = dag.edges[upto - 1];
        assert(declares(dag.nodes, e.from) && declares(dag.nodes, e.to));
        let a = choose|k: int| 0 <= k < dag.nodes.len() && #[trigger] dag.nodes[k].id == e.from;
        let b = choose|k: int| 0 <= k < dag.nodes.len() && #[trigger] dag.nodes[k].id == e.to;
        assert(ids[a] == e.from);
        assert(ids[b] == e.to);
    }
}

/// A cycle through the vertex numbers is a cycle through the identifiers.
proof fn lemma_cycle_of_ids(dag: ExecutionDagView, w: Seq<usize>)
    requires
        vertices(dag).len() <= usize::MAX,
        is_cycle(dag_graph(dag), w),
    ensures
        has_directed_cycle(dag),
{
    let g = dag_graph(dag);
    let table = vertices(dag);
    let named = w.map_values(|v: usize| table[v as int]);
    assert forall|t: int| 0 < t < named.len() implies linked(dag, named[t - 1], #[trigger] named[t]) by {
        assert(g.has_edge(w[t - 1], w[t]));
        let j = choose|j: int| 0 <= j < g.edges.len() && #[trigger] g.edges[j] == (w[t - 1], w[t]);
        lemma_endpoints_placed(dag, j);
        assert(dag.edges[j].from == named[t - 1] && dag.edges[j].to == named[t]);
    }
    assert(is_directed_cycle(dag, named));
}

/// A cycle through the identifiers is a cycle through the vertex numbers.
proof fn lemma_cycle_of_numbers(dag: ExecutionDagView, w: Seq<Seq<char>>)
    requires
        vertices(dag).len() <= usize::MAX,
        is_directed_cycle(dag, w),
    ensures
        has_cycle(dag_graph(dag)),
{
    let g = dag_graph(dag);
    let table = vertices(dag);
    let numbers = w.map_values(|id: Seq<char>| place(table, id));
    assert forall|t: int| 0 < t < numbers.len() implies g.has_edge(
        numbers[t - 1],
        #[trigger] numbers[t],
    ) by {
        assert(linked(dag, w[t - 1], w[t]));
        let j = choose|j: int|
            0 <= j < dag.edges.len() && (#[trigger] dag.edges[j]).from == w[t - 1]
                && dag.edges[j].to == w[t];
        assert(g.edges[j] == (numbers[t - 1], numbers[t]));
    }
    assert(is_cycle(g, numbers));
}

/// In a sound graph without a directed cycle, the execution order holds
/// the identifier of every node exactly once, and for every edge the
/// source stands before the target.
pub proof fn lemma_acyclic_order(dag: ExecutionDagView)
    requires
        sound_graph(dag),
        !has_directed_cycle(dag),
    ensures
        topological_order(dag) == Ok::<Seq<Seq<char>>, Seq<char>>(removed_ids(dag)),
        removed_ids(dag).len() == dag.nodes.len(),
        removed_ids(dag).no_duplicates(),
        forall|k: int|
            0 <= k < dag.nodes.len() ==> removed_ids(dag).contains((#[trigger] dag.nodes[k]).id),
        forall|j: int|
            0 <= j < dag.edges.len() ==> removed_ids(dag).index_of((#[trigger] dag.edges[j]).from)
                < removed_ids(dag).index_of(dag.edges[j].to),
{
    let g = dag_graph(dag);
    let table = vertices(dag);
    let numbers = removal_order(g);
    let order = removed_ids(dag);
    lemma_sound_vertices(dag);
    if has_cycle(g) {
        let w = choose|w: Seq<usize>| is_cycle(g, w);
        lemma_cycle_of_ids(dag, w);
    }
    lemma_complete_iff_acyclic(g);
    lemma_order_sorted(g);
    assert(order.no_duplicates()) by {
        assert forall|a: int, b: int|
            0 <= a < order.len() && 0 <= b < order.len() && a != b implies order[a] != order[b] by {
            assert(numbers[a] != numbers[b]);
        }
    }
    assert forall|k: int| 0 <= k < dag.nodes.len() implies order.contains(
        (#[trigger] dag.nodes[k]).id,
    ) by {
        lemma_complete_holds_all(g, k as usize);
        let i = choose|i: int| 0 <= i < numbers.len() && numbers[i] == k as usize;
        assert(order[i] == dag.nodes[k].id);
    }
    assert forall|j: int| 0 <= j < dag.edges.len() implies order.index_of(
        (#[trigger] dag.edges[j]).from,
    ) < order.index_of(dag.edges[j].to) by {
        lemma_endpoints_placed(dag, j);
        let a = g.edges[j].0;
        let b = g.edges[j].1;
        lemma_complete_holds_all(g, b);
        let i = choose|i: int| 0 <= i < numbers.len() && numbers[i] == b;
        assert(numbers.take(i).contains(g.edges[j].0));
        let q = choose|q: int| 0 <= q < numbers.take(i).len() && numbers.take(i)[q] == a;
        assert(numbers[q] == a);
        assert(order[q] == dag.edges[j].from);
        assert(order[i] == dag.edges[j].to);
        lemma_place(order, dag.edges[j].from, q);
        lemma_place(order, dag.edges[j].to, i);
    }
}

/// The node `id` can be placed after `placed`: it is not placed yet, and
/// every edge into it leaves a node that is placed.
pub open spec fn can_follow(dag: ExecutionDagView, placed: Seq<Seq<char>>, id: Seq<char>) -> bool {
    &&& !placed.contains(id)
    &&& forall|j: int|
        0 <= j < dag.edges.len() && (#[trigger] dag.edges[j]).to == id ==> placed.contains(
            dag.edges[j].from,
        )
}

/// In a sound graph, a vertex can be placed exactly when its node can
/// follow the nodes of the vertices that are placed.
proof fn lemma_eligible_node(dag: ExecutionDagView, placed: Seq<usize>, v: usize)
    requires
        sound_graph(dag),
        v < dag.nodes.len(),
        forall|i: int| 0 <= i < placed.len() ==> (#[trigger] placed[i]) < dag.nodes.len(),
    ensures
        eligible(dag_graph(dag), placed, v) <==> can_follow(
            dag,
            placed.map_values(|x: usize| vertices(dag)[x as int]),
            dag.nodes[v as int].id,
        ),
{
    let g = dag_graph(dag);
    let table = vertices(dag);
    let named = placed.map_values(|x: usize| table[x as int]);
    let id = dag.nodes[v as int].id;
    lemma_sound_vertices(dag);
    assert(table[v as int] == id);
    assert forall|x: usize| x < dag.nodes.len() implies (placed.contains(x) <==> named.contains(
        table[x as int],
    )) by {
        if placed.contains(x) {
            let i = choose|i: int| 0 <= i < placed.len() && placed[i] == x;
            assert(named[i] == table[x as int]);
        }
        if named.contains(table[x as int]) {
            let i = choose|i: int| 0 <= i < named.len() && named[i] == table[x as int];
            assert(table[placed[i] as int] == table[x as int]);
            assert(placed[i] == x);
        }
    }
    assert forall|j: int| 0 <= j < dag.edges.len() implies (g.edges[j].1 == v <==> (
    #[trigger] dag.edges[j]).to == id) && (placed.contains(g.edges[j].0) <==> named.contains(
        dag.edges[j].from,
    )) by {
        lemma_endpoints_placed(dag, j);
        if dag.edges[j].to == id {
            lemma_place(table, id, v as int);
        }
    }
    if eligible(g, placed, v) {
        assert forall|j: int|
            0 <= j < dag.edges.len() && (#[trigger] dag.edges[j]).to == id implies named.contains(
            dag.edges[j].from,
        ) by {
            assert(g.edges[j].1 == v);
        }
    }
    if can_follow(dag, named, id) {
        assert forall|j: int|
            0 <= j < g.edges.len() && (#[trigger] g.edges[j]).1 == v implies placed.contains(
            g.edges[j].0,
        ) by {
            assert(dag.edges[j].to == id);
        }
    }
}

/// In a sound graph, the node at each place of the execution order is the
/// first node of the node list that can follow the nodes before it: ties
/// between nodes that could be placed are broken by the node list.
pub proof fn lemma_tie_break(dag: ExecutionDagView, i: int)
    requires
        sound_graph(dag),
        0 <= i < removed_ids(dag).len(),
    ensures
        exists|k: int|
            0 <= k < dag.nodes.len() && removed_ids(dag)[i] == (#[trigger] dag.nodes[k]).id
                && can_follow(dag, removed_ids(dag).take(i), dag.nodes[k].id) && forall|e: int|
                0 <= e < k ==> !can_follow(
                    dag,
                    removed_ids(dag).take(i),
                    (#[trigger] dag.nodes[e]).id,
                ),
{
    let g = dag_graph(dag);
    let table = vertices(dag);
    let numbers = removal_order(g);
    lemma_sound_vertices(dag);
    lemma_order_sorted(g);
    lemma_order_takes_least(g, i);
    let v = numbers[i];
    let before = numbers.take(i);
    assert(before.map_values(|x: usize| table[x as int]) =~= removed_ids(dag).take(i));
    lemma_eligible_node(dag, before, v);
    assert forall|e: int| 0 <= e < v implies !can_follow(
        dag,
        removed_ids(dag).take(i),
        (#[trigger] dag.nodes[e]).id,
    ) by {
        lemma_eligible_node(dag, before, e as usize);
    }
    assert(removed_ids(dag)[i] == dag.nodes[v as int].id);
}

/// In a sound graph with a directed cycle, fewer identifiers are removed
/// than there are nodes: ordering fails, and the cycle is reported.
pub proof fn lemma_cycle_detected(dag: ExecutionDagView)
    requires
        sound_graph(dag),
        has_directed_cycle(dag),
    ensures
        removed_ids(dag).len() < dag.nodes.len(),
        topological_order(dag) is Err,
        cycle_errors(dag).len() == 1,
        dag_errors(dag).len() >= 1,
        dag_errors(dag)[0] == "DAG contains a cycle ("@ + decimal(removed_ids(dag).len()) + " of "@
            + decimal(dag.nodes.len()) + " nodes reachable)"@,
{
    let g = dag_graph(dag);
    lemma_sound_vertices(dag);
    let w = choose|w: Seq<Seq<char>>| is_directed_cycle(dag, w);
    lemma_cycle_of_numbers(dag, w);
    lemma_complete_iff_acyclic(g);
    lemma_order_sorted(g);
}

/// In a sound graph the cycle check raises its error exactly when the
/// graph has a directed cycle, and ordering fails exactly then.
pub proof fn lemma_cycle_check(dag: ExecutionDagView)
    requires
        sound_graph(dag),
    ensures
        cycle_errors(dag).len() > 0 <==> has_directed_cycle(dag),
        topological_order(dag) is Err <==> has_directed_cycle(dag),
{
    if has_directed_cycle(dag) {
        lemma_cycle_detected(dag);
    } else {
        lemma_acyclic_order(dag);
    }
}

/// Ordering the graph twice gives the same outcome: the order depends on
/// the nodes and edges alone.
pub proof fn lemma_order_repeats(a: ExecutionDagView, b: ExecutionDagView)
    requires
        a.nodes == b.nodes,
        a.edges == b.edges,
    ensures
        topological_order(a) == topological_order(b),
{
    assert(a == b);
}

/// No orphan is reported among the first `upto` nodes exactly when each of
/// them is an endpoint of some edge.
pub proof fn lemma_orphans(dag: ExecutionDagView, upto: nat)
    requires
        upto <= dag.nodes.len(),
    ensures
        orphan_errors(dag, upto).len() == 0 <==> forall|k: int|
            0 <= k < upto ==> is_endpoint(dag, (#[trigger] dag.nodes[k]).id),
    decreases upto,
{
    if upto > 0 {
        lemma_orphans(dag, (upto - 1) as nat);
        if orphan_errors(dag, upto).len() == 0 {
            assert(is_endpoint(dag, dag.nodes[upto - 1].id));
        }
    }
}

/// Every node is an endpoint of some edge, unless the graph has at most
/// one node.
pub open spec fn connected(dag: ExecutionDagView) -> bool {
    dag.nodes.len() > 1 ==> forall|k: int|
        0 <= k < dag.nodes.len() ==> is_endpoint(dag, (#[trigger] dag.nodes[k]).id)
}

/// A sound graph has no graph error exactly when it has no directed cycle
/// and is connected.
pub proof fn lemma_graph_layer(dag: ExecutionDagView)
    requires
        sound_graph(dag),
    ensures
        dag_errors(dag).len() == 0 <==> !has_directed_cycle(dag) && connected(dag),
{
    lemma_cycle_check(dag);
    lemma_orphans(dag, dag.nodes.len());
}

/// A graph of at most one node has no orphan.
pub proof fn lemma_single_node(dag: ExecutionDagView)
    requires
        dag.nodes.len() <= 1,
    ensures
        dag_errors(dag) == cycle_errors(dag),
{
    assert(dag_errors(dag) =~= cycle_errors(dag));
}

/// In a graph of several nodes, a node that no edge touches is reported.
pub proof fn lemma_orphan_reported(dag: ExecutionDagView, k: int)
    requires
        dag.nodes.len() > 1,
        0 <= k < dag.nodes.len(),
        !is_endpoint(dag, dag.nodes[k].id),
    ensures
        dag_errors(dag).contains(
            "Orphan node: "@ + dag.nodes[k].id + " (not connected to DAG)"@,
        ),
{
    lemma_orphans_upto(dag, k, dag.nodes.len());
    let message = "Orphan node: "@ + dag.nodes[k].id + " (not connected to DAG)"@;
    let orphans = orphan_errors(dag, dag.nodes.len());
    let i = choose|i: int| 0 <= i < orphans.len() && orphans[i] == message;
    assert(dag_errors(dag)[cycle_errors(dag).len() + i] == message);
}

/// A node that no edge touches is reported once the scan has passed it.
proof fn lemma_orphans_upto(dag: ExecutionDagView, k: int, upto: nat)
    requires
        0 <= k < upto <= dag.nodes.len(),
        !is_endpoint(dag, dag.nodes[k].id),
    ensures
        orphan_errors(dag, upto).contains(
            "Orphan node: "@ + dag.nodes[k].id + " (not connected to DAG)"@,
        ),
    decreases upto,
{
    let message = "Orphan node: "@ + dag.nodes[k].id + " (not connected to DAG)"@;
    let now = orphan_errors(dag, upto);
    let before = orphan_errors(dag, (upto - 1) as nat);
    if k == upto - 1 {
        assert(now[before.len() as int] == message);
    } else {
        lemma_orphans_upto(dag, k, (upto - 1) as nat);
        let i = choose|i: int| 0 <= i < before.len() && before[i] == message;
        assert(now[i] == message);
    }
}

} // verus!
