//! Kahn's elimination on a directed graph whose vertices are the numbers
//! below `size`: the order in which it places the vertices, and what its
//! outcome says about cycles.

use vstd::prelude::*;

verus! {

/// A directed graph on the vertices `0 .. size`. Only the vertices below
/// `seeds` may start the elimination.
pub struct Graph {
    pub size: nat,
    pub seeds: nat,
    pub edges: Seq<(usize, usize)>,
}

impl Graph {
    /// Every edge joins vertices of the graph, and the counts fit the machine.
    pub open spec fn wf(self) -> bool {
        &&& self.seeds <= self.size <= usize::MAX
        &&& self.edges.len() <= usize::MAX
        &&& forall|j: int|
            0 <= j < self.edges.len() ==> (#[trigger] self.edges[j]).0 < self.size
                && self.edges[j].1 < self.size
    }

    /// There is an edge from `from` to `to`.
    pub open spec fn has_edge(self, from: usize, to: usize) -> bool {
        exists|j: int| 0 <= j < self.edges.len() && #[trigger] self.edges[j] == (from, to)
    }
}

/// How many of the first `upto` edges lead into `v` and are not yet `gone`.
pub open spec fn count_into(
    edges: Seq<(usize, usize)>,
    v: usize,
    gone: Set<int>,
    upto: nat,
) -> nat
    decreases upto,
{
    if upto == 0 {
        0
    } else {
        count_into(edges, v, gone, (upto - 1) as nat) + if edges[upto - 1].1 == v && !gone.contains(upto - 1) {
            1nat
        } else {
            0nat
        }
    }
}

/// The number of edges that lead into `v`.
pub open spec fn in_degree(g: Graph, v: usize) -> nat {
    count_into(g.edges, v, Set::empty(), g.edges.len())
}

/// The vertex `v` can be placed next: it is not placed yet, it is a seed or
/// some edge leads into it, and the source of every edge into it is placed.
pub open spec fn eligible(g: Graph, placed: Seq<usize>, v: usize) -> bool {
    &&& v < g.size
    &&& !placed.contains(v)
    &&& (v < g.seeds || exists|j: int| 0 <= j < g.edges.len() && (#[trigger] g.edges[j]).1 == v)
    &&& forall|j: int|
        0 <= j < g.edges.len() && (#[trigger] g.edges[j]).1 == v ==> placed.contains(g.edges[j].0)
}

/// The least vertex from `from` on that can be placed next, if there is one.
pub open spec fn first_eligible(g: Graph, placed: Seq<usize>, from: nat) -> Option<usize>
    decreases g.size - from,
{
    if from >= g.size {
        None
    } else if eligible(g, placed, from as usize) {
        Some(from as usize)
    } else {
        first_eligible(g, placed, from + 1)
    }
}

/// Places vertices after `placed`, each time the least that can be placed,
/// until none can or `steps` vertices were added.
pub open spec fn place_all(g: Graph, placed: Seq<usize>, steps: nat) -> Seq<usize>
    decreases steps,
{
    if steps == 0 {
        placed
    } else {
        match first_eligible(g, placed, 0) {
            None => placed,
            Some(v) => place_all(g, placed.push(v), (steps - 1) as nat),
        }
    }
}

/// The vertices that the elimination removes, in the order of their
/// removal: each time the least vertex whose predecessors are all removed.
pub open spec fn removal_order(g: Graph) -> Seq<usize> {
    place_all(g, Seq::empty(), g.size)
}

/// `placed` holds no vertex twice, and each of its vertices comes after the
/// sources of all edges that lead into it.
pub open spec fn sorted(g: Graph, placed: Seq<usize>) -> bool {
    &&& placed.no_duplicates()
    &&& forall|i: int| 0 <= i < placed.len() ==> (#[trigger] placed[i]) < g.size
    &&& forall|i: int, j: int|
        0 <= i < placed.len() && 0 <= j < g.edges.len() && (#[trigger] g.edges[j]).1
            == #[trigger] placed[i] ==> placed.take(i).contains(g.edges[j].0)
}

/// The edges that are taken away when the vertices of `placed` are removed
/// and the first `k` edges were looked at for `u`.
spec fn gone(g: Graph, placed: Seq<usize>, u: usize, k: int) -> Set<int> {
    Set::new(|j: int| placed.contains(g.edges[j].0) || (g.edges[j].0 == u && j < k))
}

/// For every vertex, `pending` counts the edges into it that are not taken
/// away.
spec fn counted(g: Graph, pending: Seq<usize>, placed: Seq<usize>, u: usize, k: int) -> bool {
    &&& pending.len() == g.size
    &&& forall|v: int|
        0 <= v < g.size ==> #[trigger] pending[v] == count_into(
            g.edges,
            v as usize,
            gone(g, placed, u, k),
            g.edges.len(),
        )
}

/// The first edge at or after `k` that leaves `u`, or the number of edges
/// if there is none.
spec fn next_from(edges: Seq<(usize, usize)>, u: usize, k: int) -> int
    decreases edges.len() - k,
{
    if k < 0 || k >= edges.len() {
        edges.len() as int
    } else if edges[k].0 == u {
        k
    } else {
        next_from(edges, u, k + 1)
    }
}

/// No more edges are counted than were read.
proof fn lemma_count_bound(
    edges: Seq<(usize, usize)>,
    v: usize,
    gone: Set<int>,
    upto: nat,
)
    ensures
        count_into(edges, v, gone, upto) <= upto,
    decreases upto,
{
    if upto > 0 {
        lemma_count_bound(edges, v, gone, (upto - 1) as nat);
    }
}

/// The count depends only on which of the edges read are gone.
proof fn lemma_count_same(
    edges: Seq<(usize, usize)>,
    v: usize,
    a: Set<int>,
    b: Set<int>,
    upto: nat,
)
    requires
        forall|j: int| 0 <= j < upto ==> a.contains(j) == b.contains(j),
    ensures
        count_into(edges, v, a, upto) == count_into(edges, v, b, upto),
    decreases upto,
{
    if upto > 0 {
        lemma_count_same(edges, v, a, b, (upto - 1) as nat);
    }
}

/// Taking one more edge away lowers the count of its target by one, and
/// no other count.
proof fn lemma_count_flip(
    edges: Seq<(usize, usize)>,
    v: usize,
    a: Set<int>,
    b: Set<int>,
    at: int,
    upto: nat,
)
    requires
        0 <= at,
        forall|j: int| 0 <= j < upto && j != at ==> a.contains(j) == b.contains(j),
        !a.contains(at),
        b.contains(at),
    ensures
        count_into(edges, v, a, upto) == count_into(edges, v, b, upto) + if at < upto
            && edges[at].1 == v {
            1nat
        } else {
            0nat
        },
    decreases upto,
{
    if upto > 0 {
        lemma_count_flip(edges, v, a, b, at, (upto - 1) as nat);
    }
}

/// Where nothing is counted, every edge into the vertex is gone.
proof fn lemma_count_zero(
    edges: Seq<(usize, usize)>,
    v: usize,
    gone: Set<int>,
    upto: nat,
)
    requires
        count_into(edges, v, gone, upto) == 0,
    ensures
        forall|j: int| 0 <= j < upto && (#[trigger] edges[j]).1 == v ==> gone.contains(j),
    decreases upto,
{
    if upto > 0 {
        lemma_count_zero(edges, v, gone, (upto - 1) as nat);
    }
}

/// Where something is counted, some edge into the vertex is not gone.
proof fn lemma_count_positive(
    edges: Seq<(usize, usize)>,
    v: usize,
    gone: Set<int>,
    upto: nat,
)
    requires
        count_into(edges, v, gone, upto) > 0,
    ensures
        exists|j: int| 0 <= j < upto && (#[trigger] edges[j]).1 == v && !gone.contains(j),
    decreases upto,
{
    if edges[upto - 1].1 == v && !gone.contains(upto - 1) {
    } else {
        lemma_count_positive(edges, v, gone, (upto - 1) as nat);
    }
}

/// Between `k` and the next edge that leaves `u`, no edge leaves `u`.
proof fn lemma_next_from(edges: Seq<(usize, usize)>, u: usize, k: int)
    requires
        0 <= k <= edges.len(),
    ensures
        k <= next_from(edges, u, k) <= edges.len(),
        next_from(edges, u, k) < edges.len() ==> edges[next_from(edges, u, k)].0 == u,
        forall|j: int| k <= j < next_from(edges, u, k) ==> (#[trigger] edges[j]).0 != u,
    decreases edges.len() - k,
{
    if k < edges.len() && edges[k].0 != u {
        lemma_next_from(edges, u, k + 1);
    }
}

/// Distinct numbers below `n` are at most `n` many.
proof fn lemma_bounded(s: Seq<usize>, n: nat)
    requires
        s.no_duplicates(),
        forall|i: int| 0 <= i < s.len() ==> (#[trigger] s[i]) < n,
    ensures
        s.len() <= n,
    decreases n,
{
    if n == 0 {
        if s.len() > 0 {
            assert(s[0] < 0);
        }
    } else if exists|i: int| 0 <= i < s.len() && s[i] == (n - 1) as usize {
        let i = choose|i: int| 0 <= i < s.len() && s[i] == (n - 1) as usize;
        let rest = s.remove(i);
        assert forall|j: int| 0 <= j < rest.len() implies (#[trigger] rest[j]) < n - 1 by {
            if j < i {
                assert(rest[j] == s[j]);
            } else {
                assert(rest[j] == s[j + 1]);
            }
        }
        assert(rest.no_duplicates()) by {
            assert forall|a: int, b: int|
                0 <= a < rest.len() && 0 <= b < rest.len() && a != b implies rest[a] != rest[b] by {
                let a0 = if a < i { a } else { a + 1 };
                let b0 = if b < i { b } else { b + 1 };
                assert(rest[a] == s[a0] && rest[b] == s[b0]);
            }
        }
        lemma_bounded(rest, (n - 1) as nat);
    } else {
        lemma_bounded(s, (n - 1) as nat);
    }
}

/// Fewer than `n` distinct numbers below `n` leave one of them out.
proof fn lemma_missing(s: Seq<usize>, n: nat)
    requires
        s.no_duplicates(),
        forall|i: int| 0 <= i < s.len() ==> (#[trigger] s[i]) < n,
        s.len() < n <= usize::MAX,
    ensures
        exists|v: usize| v < n && !s.contains(v),
    decreases n,
{
    let top = (n - 1) as usize;
    if s.contains(top) {
        let i = choose|i: int| 0 <= i < s.len() && s[i] == top;
        let rest = s.remove(i);
        assert forall|j: int| 0 <= j < rest.len() implies (#[trigger] rest[j]) < n - 1 by {
            if j < i {
                assert(rest[j] == s[j]);
            } else {
                assert(rest[j] == s[j + 1]);
            }
        }
        assert(rest.no_duplicates()) by {
            assert forall|a: int, b: int|
                0 <= a < rest.len() && 0 <= b < rest.len() && a != b implies rest[a] != rest[b] by {
                let a0 = if a < i { a } else { a + 1 };
                let b0 = if b < i { b } else { b + 1 };
                assert(rest[a] == s[a0] && rest[b] == s[b0]);
            }
        }
        lemma_missing(rest, (n - 1) as nat);
        let v = choose|v: usize| v < n - 1 && !rest.contains(v);
        assert(!s.contains(v)) by {
            if s.contains(v) {
                let j = choose|j: int| 0 <= j < s.len() && s[j] == v;
                if j < i {
                    assert(rest[j] == v);
                } else {
                    assert(rest[j - 1] == v);
                }
            }
        }
    } else {
        assert(top < n && !s.contains(top));
    }
}

/// What the least vertex that can be placed is.
proof fn lemma_first_eligible(g: Graph, placed: Seq<usize>, from: nat)
    requires
        g.size <= usize::MAX,
    ensures
        match first_eligible(g, placed, from) {
            Some(v) => from <= v < g.size && eligible(g, placed, v) && forall|x: usize|
                from <= x < v ==> !eligible(g, placed, x),
            None => forall|x: usize| from <= x < g.size ==> !eligible(g, placed, x),
        },
    decreases g.size - from,
{
    if from < g.size && !eligible(g, placed, from as usize) {
        lemma_first_eligible(g, placed, from + 1);
    }
}

/// Placing a vertex that can be placed keeps the order sorted.
proof fn lemma_place(g: Graph, placed: Seq<usize>, v: usize)
    requires
        sorted(g, placed),
        eligible(g, placed, v),
    ensures
        sorted(g, placed.push(v)),
{
    let longer = placed.push(v);
    assert forall|i: int, j: int|
        0 <= i < longer.len() && 0 <= j < g.edges.len() && (#[trigger] g.edges[j]).1
            == #[trigger] longer[i] implies longer.take(i).contains(g.edges[j].0) by {
        if i < placed.len() {
            assert(longer.take(i) =~= placed.take(i));
        } else {
            assert(longer.take(i) =~= placed);
        }
    }
}

/// The elimination ends with a sorted order that holds every vertex, or to
/// which no vertex can be added.
proof fn lemma_place_all(g: Graph, placed: Seq<usize>, steps: nat)
    requires
        g.wf(),
        sorted(g, placed),
        placed.len() + steps >= g.size,
    ensures
        sorted(g, place_all(g, placed, steps)),
        place_all(g, placed, steps).len() == g.size || first_eligible(
            g,
            place_all(g, placed, steps),
            0,
        ) is None,
    decreases steps,
{
    lemma_bounded(placed, g.size);
    if steps > 0 {
        lemma_first_eligible(g, placed, 0);
        match first_eligible(g, placed, 0) {
            None => {},
            Some(v) => {
                lemma_place(g, placed, v);
                lemma_place_all(g, placed.push(v), (steps - 1) as nat);
            },
        }
    }
}

/// The elimination removes every vertex.
pub open spec fn complete(g: Graph) -> bool {
    removal_order(g).len() == g.size
}

/// `w` follows edges of the graph from each of its vertices to the next.
pub open spec fn is_walk(g: Graph, w: Seq<usize>) -> bool {
    forall|t: int| 0 < t < w.len() ==> g.has_edge(w[t - 1], #[trigger] w[t])
}

/// `w` is a walk along at least one edge that ends where it starts.
pub open spec fn is_cycle(g: Graph, w: Seq<usize>) -> bool {
    w.len() >= 2 && w.first() == w.last() && is_walk(g, w)
}

/// Some walk through the graph comes back to its start.
pub open spec fn has_cycle(g: Graph) -> bool {
    exists|w: Seq<usize>| is_cycle(g, w)
}

/// The removal order holds no vertex twice, and each of its vertices comes
/// after the sources of all edges that lead into it.
pub proof fn lemma_order_sorted(g: Graph)
    requires
        g.wf(),
    ensures
        removal_order(g).no_duplicates(),
        removal_order(g).len() <= g.size,
        forall|i: int|
            0 <= i < removal_order(g).len() ==> (#[trigger] removal_order(g)[i]) < g.size,
        forall|i: int, j: int|
            0 <= i < removal_order(g).len() && 0 <= j < g.edges.len() && (#[trigger] g.edges[j]).1
                == #[trigger] removal_order(g)[i] ==> removal_order(g).take(i).contains(
                g.edges[j].0,
            ),
{
    lemma_place_all(g, Seq::empty(), g.size);
    lemma_bounded(removal_order(g), g.size);
}

/// Among the vertices that can be placed, the removal order always takes
/// the least: the vertex at each place can be placed after those before
/// it, and no smaller vertex can.
pub proof fn lemma_order_takes_least(g: Graph, i: int)
    requires
        g.wf(),
        0 <= i < removal_order(g).len(),
    ensures
        eligible(g, removal_order(g).take(i), removal_order(g)[i]),
        forall|x: usize|
            x < removal_order(g)[i] ==> !eligible(g, removal_order(g).take(i), x),
{
    lemma_takes_least(g, Seq::empty(), g.size, i);
}

/// The same, for the elimination from any start.
proof fn lemma_takes_least(g: Graph, placed: Seq<usize>, steps: nat, i: int)
    requires
        g.wf(),
        placed.len() <= i < place_all(g, placed, steps).len(),
    ensures
        place_all(g, placed, steps).take(placed.len() as int) == placed,
        eligible(g, place_all(g, placed, steps).take(i), place_all(g, placed, steps)[i]),
        forall|x: usize|
            x < place_all(g, placed, steps)[i] ==> !eligible(
                g,
                place_all(g, placed, steps).take(i),
                x,
            ),
    decreases steps,
{
    let all = place_all(g, placed, steps);
    lemma_first_eligible(g, placed, 0);
    match first_eligible(g, placed, 0) {
        None => {},
        Some(v) => {
            let longer = placed.push(v);
            lemma_prefix(g, longer, (steps - 1) as nat);
            assert(all.take(placed.len() as int) =~= placed) by {
                assert(all.take(longer.len() as int).take(placed.len() as int) =~= all.take(
                    placed.len() as int,
                ));
            }
            if i == placed.len() {
                assert(all.take(longer.len() as int)[i] == v);
                assert(all.take(i) =~= placed);
            } else {
                lemma_takes_least(g, longer, (steps - 1) as nat, i);
            }
        },
    }
}

/// The elimination only adds to what is placed.
proof fn lemma_prefix(g: Graph, placed: Seq<usize>, steps: nat)
    ensures
        placed.len() <= place_all(g, placed, steps).len(),
        place_all(g, placed, steps).take(placed.len() as int) == placed,
    decreases steps,
{
    let all = place_all(g, placed, steps);
    if steps > 0 {
        match first_eligible(g, placed, 0) {
            None => {},
            Some(v) => {
                let longer = placed.push(v);
                lemma_prefix(g, longer, (steps - 1) as nat);
                assert(all.take(placed.len() as int) =~= all.take(longer.len() as int).take(
                    placed.len() as int,
                ));
                assert(longer.take(placed.len() as int) =~= placed);
            },
        }
    }
    assert(placed.take(placed.len() as int) =~= placed);
}

/// A removal order that is complete holds every vertex.
pub proof fn lemma_complete_holds_all(g: Graph, v: usize)
    requires
        g.wf(),
        complete(g),
        v < g.size,
    ensures
        removal_order(g).contains(v),
{
    let o = removal_order(g);
    lemma_order_sorted(g);
    if !o.contains(v) {
        let longer = o.push(v);
        assert(longer.no_duplicates()) by {
            assert forall|a: int, b: int|
                0 <= a < longer.len() && 0 <= b < longer.len() && a != b implies longer[a]
                != longer[b] by {
                if a < o.len() && b < o.len() {
                    assert(o[a] != o[b]);
                } else if a < o.len() {
                    assert(o[a] != v);
                } else {
                    assert(o[b] != v);
                }
            }
        }
        lemma_bounded(longer, g.size);
    }
}

/// Along a walk whose vertices are all removed, the places in the removal
/// order grow.
proof fn lemma_walk_climbs(g: Graph, w: Seq<usize>, t: int)
    requires
        g.wf(),
        complete(g),
        is_walk(g, w),
        0 < t < w.len(),
    ensures
        removal_order(g).contains(w[0]),
        removal_order(g).contains(w[t]),
        removal_order(g).index_of(w[0]) < removal_order(g).index_of(w[t]),
    decreases t,
{
    let o = removal_order(g);
    lemma_order_sorted(g);
    let a = w[t - 1];
    let b = w[t];
    assert(g.has_edge(a, b));
    let j = choose|j: int| 0 <= j < g.edges.len() && #[trigger] g.edges[j] == (a, b);
    lemma_complete_holds_all(g, a);
    lemma_complete_holds_all(g, b);
    let ib = o.index_of(b);
    assert(o[ib] == b);
    assert(o.take(ib).contains(g.edges[j].0));
    let q = choose|q: int| 0 <= q < o.take(ib).len() && o.take(ib)[q] == a;
    assert(o[q] == a);
    let ia = o.index_of(a);
    assert(o[ia] == a);
    assert(ia == q);
    if t > 1 {
        lemma_walk_climbs(g, w, t - 1);
    }
}

/// A graph with a cycle is never eliminated completely.
pub proof fn lemma_cycle_blocks(g: Graph)
    requires
        g.wf(),
        has_cycle(g),
    ensures
        !complete(g),
{
    if complete(g) {
        let w = choose|w: Seq<usize>| is_cycle(g, w);
        lemma_walk_climbs(g, w, w.len() - 1);
    }
}

/// A source of an edge into `v` that is itself not in `o`.
spec fn kept_source(g: Graph, o: Seq<usize>, v: usize) -> usize {
    choose|w: usize| w < g.size && !o.contains(w) && g.has_edge(w, v)
}

/// The vertex reached from `v` by going `i` edges backwards outside `o`.
spec fn back(g: Graph, o: Seq<usize>, v: usize, i: nat) -> usize
    decreases i,
{
    if i == 0 {
        v
    } else {
        kept_source(g, o, back(g, o, v, (i - 1) as nat))
    }
}

/// When every vertex may start and the elimination has stopped short, a
/// vertex that it left has an incoming edge from another that it left.
proof fn lemma_left_has_source(g: Graph, v: usize)
    requires
        g.wf(),
        g.seeds == g.size,
        v < g.size,
        !removal_order(g).contains(v),
    ensures
        kept_source(g, removal_order(g), v) < g.size,
        !removal_order(g).contains(kept_source(g, removal_order(g), v)),
        g.has_edge(kept_source(g, removal_order(g), v), v),
{
    let o = removal_order(g);
    lemma_place_all(g, Seq::empty(), g.size);
    if o.len() == g.size {
        lemma_complete_holds_all(g, v);
    }
    lemma_first_eligible(g, o, 0);
    assert(!eligible(g, o, v));
    let j = choose|j: int|
        0 <= j < g.edges.len() && (#[trigger] g.edges[j]).1 == v && !o.contains(g.edges[j].0);
    let w = g.edges[j].0;
    assert(g.edges[j] == (w, v));
    assert(w < g.size && !o.contains(w) && g.has_edge(w, v));
}

/// Every vertex of the trail backwards was left, and each step of the
/// trail is an edge.
proof fn lemma_back(g: Graph, v: usize, i: nat)
    requires
        g.wf(),
        g.seeds == g.size,
        v < g.size,
        !removal_order(g).contains(v),
    ensures
        back(g, removal_order(g), v, i) < g.size,
        !removal_order(g).contains(back(g, removal_order(g), v, i)),
        i > 0 ==> g.has_edge(
            back(g, removal_order(g), v, i),
            back(g, removal_order(g), v, (i - 1) as nat),
        ),
    decreases i,
{
    if i > 0 {
        lemma_back(g, v, (i - 1) as nat);
        lemma_left_has_source(g, back(g, removal_order(g), v, (i - 1) as nat));
    }
}

/// When every vertex may start the elimination and it still leaves some
/// vertex, the graph has a cycle.
pub proof fn lemma_stuck_has_cycle(g: Graph)
    requires
        g.wf(),
        g.seeds == g.size,
        !complete(g),
    ensures
        has_cycle(g),
{
    let o = removal_order(g);
    lemma_order_sorted(g);
    lemma_missing(o, g.size);
    let v = choose|v: usize| v < g.size && !o.contains(v);
    let trail = Seq::new(g.size + 1, |i: int| back(g, o, v, i as nat));
    assert forall|i: int| 0 <= i < trail.len() implies (#[trigger] trail[i]) < g.size by {
        lemma_back(g, v, i as nat);
    }
    if trail.no_duplicates() {
        lemma_bounded(trail, g.size);
    }
    let (lo, hi) = choose|lo: int, hi: int|
        0 <= lo < trail.len() && 0 <= hi < trail.len() && lo < hi && trail[lo] == trail[hi];
    assert(0 <= lo < hi < trail.len() && trail[lo] == trail[hi]) by {
        let (a, b) = choose|a: int, b: int|
            0 <= a < trail.len() && 0 <= b < trail.len() && a != b && trail[a] == trail[b];
        if a < b {
            assert(0 <= a < trail.len() && 0 <= b < trail.len() && a < b && trail[a] == trail[b]);
        } else {
            assert(0 <= b < trail.len() && 0 <= a < trail.len() && b < a && trail[b] == trail[a]);
        }
    }
    let w = Seq::new((hi - lo + 1) as nat, |t: int| trail[hi - t]);
    assert forall|t: int| 0 < t < w.len() implies g.has_edge(w[t - 1], #[trigger] w[t]) by {
        lemma_back(g, v, (hi - t + 1) as nat);
    }
    assert(is_cycle(g, w));
}

/// Where every vertex may start it, the elimination removes every vertex
/// exactly when the graph has no cycle.
pub proof fn lemma_complete_iff_acyclic(g: Graph)
    requires
        g.wf(),
        g.seeds == g.size,
    ensures
        complete(g) <==> !has_cycle(g),
{
    if has_cycle(g) {
        lemma_cycle_blocks(g);
    }
    if !complete(g) {
        lemma_stuck_has_cycle(g);
    }
}

/// The graph with the given vertices and edges.
pub open spec fn graph_of(size: usize, seeds: usize, edges: Seq<(usize, usize)>) -> Graph {
    Graph { size: size as nat, seeds: seeds as nat, edges }
}

/// Threads the edges by their sources: for each vertex the first edge that
/// leaves it, and for each edge the next edge with the same source. The
/// number of edges stands for none.
fn adjacency(size: usize, edges: &Vec<(usize, usize)>) -> (lists: (Vec<usize>, Vec<usize>))
    requires
        forall|j: int| 0 <= j < edges@.len() ==> (#[trigger] edges@[j]).0 < size,
    ensures
        lists.0@.len() == size,
        lists.1@.len() == edges@.len(),
        forall|u: int| 0 <= u < size ==> #[trigger] lists.0@[u] == next_from(edges@, u as usize, 0),
        forall|j: int|
            0 <= j < edges@.len() ==> #[trigger] lists.1@[j] == next_from(
                edges@,
                edges@[j].0,
                j + 1,
            ),
{
    let n = edges.len();
    let mut first: Vec<usize> = Vec::new();
    let mut u: usize = 0;
    while u < size
        invariant
            u <= size,
            first@.len() == u,
            forall|x: int| 0 <= x < u ==> first@[x] == n,
        decreases size - u,
    {
        first.push(n);
        u += 1;
    }
    let mut next: Vec<usize> = Vec::new();
    let mut j: usize = 0;
    while j < n
        invariant
            j <= n,
            next@.len() == j,
        decreases n - j,
    {
        next.push(n);
        j += 1;
    }
    let mut k: usize = n;
    while k > 0
        invariant
            k <= n,
            n == edges@.len(),
            first@.len() == size,
            next@.len() == n,
            forall|j: int| 0 <= j < edges@.len() ==> (#[trigger] edges@[j]).0 < size,
            forall|x: int| 0 <= x < size ==> #[trigger] first@[x] == next_from(edges@, x as usize, k as int),
            forall|j: int|
                k <= j < n ==> #[trigger] next@[j] == next_from(edges@, edges@[j].0, j + 1),
        decreases k,
    {
        k -= 1;
        let from = edges[k].0;
        next.set(k, first[from]);
        first.set(from, k);
    }
    (first, next)
}

/// The in-degree of every vertex.
fn in_degrees(size: usize, edges: &Vec<(usize, usize)>, Ghost(g): Ghost<Graph>) -> (pending: Vec<
    usize,
>)
    requires
        g.wf(),
        g.size == size,
        g.edges == edges@,
    ensures
        pending@.len() == size,
        forall|v: int| 0 <= v < size ==> #[trigger] pending@[v] == in_degree(g, v as usize),
{
    let mut pending: Vec<usize> = Vec::new();
    let mut v: usize = 0;
    while v < size
        invariant
            v <= size,
            pending@.len() == v,
            forall|x: int| 0 <= x < v ==> pending@[x] == 0,
        decreases size - v,
    {
        pending.push(0);
        v += 1;
    }
    let mut k: usize = 0;
    while k < edges.len()
        invariant
            k <= edges@.len(),
            g.wf(),
            g.size == size,
            g.edges == edges@,
            pending@.len() == size,
            forall|x: int|
                0 <= x < size ==> #[trigger] pending@[x] == count_into(
                    g.edges,
                    x as usize,
                    Set::empty(),
                    k as nat,
                ),
        decreases edges.len() - k,
    {
        let to = edges[k].1;
        proof {
            lemma_count_bound(g.edges, to, Set::empty(), k as nat);
        }
        pending.set(to, pending[to] + 1);
        k += 1;
    }
    pending
}

/// For every vertex, whether it is a seed or some edge leads into it.
fn startable(seeds: usize, degrees: &Vec<usize>, Ghost(g): Ghost<Graph>) -> (marks: Vec<bool>)
    requires
        g.wf(),
        g.seeds == seeds,
        degrees@.len() == g.size,
        forall|v: int| 0 <= v < g.size ==> #[trigger] degrees@[v] == in_degree(g, v as usize),
    ensures
        marks@.len() == g.size,
        forall|v: int|
            0 <= v < g.size ==> (#[trigger] marks@[v] <==> (v < g.seeds || exists|j: int|
                0 <= j < g.edges.len() && (#[trigger] g.edges[j]).1 == v)),
{
    let mut marks: Vec<bool> = Vec::new();
    let mut v: usize = 0;
    while v < degrees.len()
        invariant
            v <= degrees@.len(),
            g.wf(),
            g.seeds == seeds,
            degrees@.len() == g.size,
            forall|x: int| 0 <= x < g.size ==> #[trigger] degrees@[x] == in_degree(g, x as usize),
            marks@.len() == v,
            forall|x: int|
                0 <= x < v ==> (#[trigger] marks@[x] <==> (x < g.seeds || exists|j: int|
                    0 <= j < g.edges.len() && (#[trigger] g.edges[j]).1 == x)),
        decreases degrees.len() - v,
    {
        proof {
            if degrees@[v as int] > 0 {
                lemma_count_positive(g.edges, v, Set::empty(), g.edges.len());
            } else {
                lemma_count_zero(g.edges, v, Set::empty(), g.edges.len());
            }
        }
        marks.push(v < seeds || degrees[v] > 0);
        v += 1;
    }
    marks
}

/// A vertex can be placed exactly when it is not placed, may start or be
/// reached, and has no edge into it left.
proof fn lemma_ready(g: Graph, pending: Seq<usize>, placed: Seq<usize>, v: usize)
    requires
        g.wf(),
        counted(g, pending, placed, 0, 0),
        v < g.size,
    ensures
        eligible(g, placed, v) <==> (!placed.contains(v) && (v < g.seeds || exists|j: int|
            0 <= j < g.edges.len() && (#[trigger] g.edges[j]).1 == v) && pending[v as int] == 0),
{
    let left = gone(g, placed, 0, 0);
    if pending[v as int] == 0 {
        lemma_count_zero(g.edges, v, left, g.edges.len());
        assert forall|j: int|
            0 <= j < g.edges.len() && (#[trigger] g.edges[j]).1 == v implies placed.contains(
            g.edges[j].0,
        ) by {
            assert(left.contains(j));
        }
    } else {
        lemma_count_positive(g.edges, v, left, g.edges.len());
        let j = choose|j: int|
            0 <= j < g.edges.len() && (#[trigger] g.edges[j]).1 == v && !left.contains(j);
        assert(!placed.contains(g.edges[j].0));
    }
}

/// The least vertex that can be placed next, if there is one.
fn next_ready(
    pending: &Vec<usize>,
    done: &Vec<bool>,
    may_start: &Vec<bool>,
    Ghost(g): Ghost<Graph>,
    Ghost(placed): Ghost<Seq<usize>>,
) -> (found: Option<usize>)
    requires
        g.wf(),
        counted(g, pending@, placed, 0, 0),
        done@.len() == g.size,
        may_start@.len() == g.size,
        forall|v: int| 0 <= v < g.size ==> (#[trigger] done@[v] <==> placed.contains(v as usize)),
        forall|v: int|
            0 <= v < g.size ==> (#[trigger] may_start@[v] <==> (v < g.seeds || exists|j: int|
                0 <= j < g.edges.len() && (#[trigger] g.edges[j]).1 == v)),
    ensures
        found == first_eligible(g, placed, 0),
{
    let mut v: usize = 0;
    while v < pending.len()
        invariant
            v <= g.size,
            g.wf(),
            counted(g, pending@, placed, 0, 0),
            done@.len() == g.size,
            may_start@.len() == g.size,
            forall|x: int| 0 <= x < g.size ==> (#[trigger] done@[x] <==> placed.contains(x as usize)),
            forall|x: int|
                0 <= x < g.size ==> (#[trigger] may_start@[x] <==> (x < g.seeds || exists|j: int|
                    0 <= j < g.edges.len() && (#[trigger] g.edges[j]).1 == x)),
            first_eligible(g, placed, 0) == first_eligible(g, placed, v as nat),
        decreases pending.len() - v,
    {
        proof {
            lemma_ready(g, pending@, placed, v);
        }
        if !done[v] && may_start[v] && pending[v] == 0 {
            return Some(v);
        }
        v += 1;
    }
    None
}

/// Takes the edges that leave `u` away: each lowers the count of its
/// target by one.
fn take_edges(
    u: usize,
    edges: &Vec<(usize, usize)>,
    first: &Vec<usize>,
    next: &Vec<usize>,
    pending: &mut Vec<usize>,
    Ghost(g): Ghost<Graph>,
    Ghost(placed): Ghost<Seq<usize>>,
)
    requires
        g.wf(),
        g.edges == edges@,
        u < g.size,
        !placed.contains(u),
        counted(g, old(pending)@, placed, 0, 0),
        first@.len() == g.size,
        next@.len() == edges@.len(),
        forall|x: int| 0 <= x < g.size ==> #[trigger] first@[x] == next_from(edges@, x as usize, 0),
        forall|j: int|
            0 <= j < edges@.len() ==> #[trigger] next@[j] == next_from(
                edges@,
                edges@[j].0,
                j + 1,
            ),
    ensures
        counted(g, final(pending)@, placed.push(u), 0, 0),
{
    let n = edges.len();
    let mut k: usize = first[u];
    proof {
        lemma_next_from(g.edges, u, 0);
        lemma_skip(g, pending@, placed, 0, 0, u, k as int);
    }
    while k < n
        invariant
            n == edges@.len(),
            k <= n,
            g.wf(),
            g.edges == edges@,
            u < g.size,
            !placed.contains(u),
            next@.len() == edges@.len(),
            forall|j: int|
                0 <= j < edges@.len() ==> #[trigger] next@[j] == next_from(
                    edges@,
                    edges@[j].0,
                    j + 1,
                ),
            k < n ==> edges@[k as int].0 == u,
            counted(g, pending@, placed, u, k as int),
        decreases n - k,
    {
        let to = edges[k].1;
        proof {
            lemma_take(g, pending@, placed, u, k as int);
        }
        let left = pending[to] - 1;
        pending.set(to, left);
        let later = next[k];
        proof {
            lemma_next_from(g.edges, u, k + 1);
            lemma_skip(g, pending@, placed, u, k + 1, u, later as int);
        }
        k = later;
    }
    proof {
        lemma_taken(g, pending@, placed, u);
    }
}

/// Taking the edge `k`, which leaves `u`, away lowers the count of its
/// target, which was not zero, and no other count.
proof fn lemma_take(g: Graph, pending: Seq<usize>, placed: Seq<usize>, u: usize, k: int)
    requires
        g.wf(),
        0 <= k < g.edges.len(),
        g.edges[k].0 == u,
        !placed.contains(u),
        counted(g, pending, placed, u, k),
    ensures
        pending[g.edges[k].1 as int] >= 1,
        counted(
            g,
            pending.update(g.edges[k].1 as int, (pending[g.edges[k].1 as int] - 1) as usize),
            placed,
            u,
            k + 1,
        ),
{
    let a = gone(g, placed, u, k);
    let b = gone(g, placed, u, k + 1);
    let to = g.edges[k].1;
    assert(!a.contains(k));
    assert(b.contains(k));
    lemma_count_flip(g.edges, to, a, b, k, g.edges.len());
    let after = pending.update(to as int, (pending[to as int] - 1) as usize);
    assert forall|v: int| 0 <= v < g.size implies #[trigger] after[v] == count_into(
        g.edges,
        v as usize,
        b,
        g.edges.len(),
    ) by {
        lemma_count_flip(g.edges, v as usize, a, b, k, g.edges.len());
    }
}

/// The counts stay right while the edges passed over do not leave `u`.
proof fn lemma_skip(
    g: Graph,
    pending: Seq<usize>,
    placed: Seq<usize>,
    before: usize,
    from: int,
    u: usize,
    to: int,
)
    requires
        0 <= from <= to <= g.edges.len(),
        from == 0 || before == u,
        forall|j: int| from <= j < to ==> (#[trigger] g.edges[j]).0 != u,
        counted(g, pending, placed, before, from),
    ensures
        counted(g, pending, placed, u, to),
{
    let a = gone(g, placed, before, from);
    let b = gone(g, placed, u, to);
    assert forall|v: int| 0 <= v < g.size implies #[trigger] pending[v] == count_into(
        g.edges,
        v as usize,
        b,
        g.edges.len(),
    ) by {
        lemma_count_same(g.edges, v as usize, a, b, g.edges.len());
    }
}

/// When all edges were looked at for `u`, `u` is removed.
proof fn lemma_taken(g: Graph, pending: Seq<usize>, placed: Seq<usize>, u: usize)
    requires
        counted(g, pending, placed, u, g.edges.len() as int),
    ensures
        counted(g, pending, placed.push(u), 0, 0),
{
    let a = gone(g, placed, u, g.edges.len() as int);
    let b = gone(g, placed.push(u), 0, 0);
    let longer = placed.push(u);
    assert forall|j: int| 0 <= j < g.edges.len() implies a.contains(j) == b.contains(j) by {
        let src = g.edges[j].0;
        if placed.contains(src) {
            let i = choose|i: int| 0 <= i < placed.len() && placed[i] == src;
            assert(longer[i] == src);
        }
        if src == u {
            assert(longer[placed.len() as int] == src);
        }
        if longer.contains(src) {
            let i = choose|i: int| 0 <= i < longer.len() && longer[i] == src;
            if i < placed.len() {
                assert(placed[i] == src);
            }
        }
    }
    assert forall|v: int| 0 <= v < g.size implies #[trigger] pending[v] == count_into(
        g.edges,
        v as usize,
        b,
        g.edges.len(),
    ) by {
        lemma_count_same(g.edges, v as usize, a, b, g.edges.len());
    }
}

/// Runs Kahn's elimination over adjacency lists and in-degree counts.
/// Each time it removes the least vertex that has no incoming edge left
/// and is a seed or the target of an edge, and takes the edges that leave
/// it away, until no such vertex is left.
pub fn eliminate(size: usize, seeds: usize, edges: &Vec<(usize, usize)>) -> (order: Vec<usize>)
    requires
        graph_of(size, seeds, edges@).wf(),
    ensures
        order@ == removal_order(graph_of(size, seeds, edges@)),
{
    let ghost g = graph_of(size, seeds, edges@);
    let mut pending = in_degrees(size, edges, Ghost(g));
    let may_start = startable(seeds, &pending, Ghost(g));
    let (first, next) = adjacency(size, edges);
    let mut done: Vec<bool> = Vec::new();
    let mut v: usize = 0;
    while v < size
        invariant
            v <= size,
            done@.len() == v,
            forall|x: int| 0 <= x < v ==> !done@[x],
        decreases size - v,
    {
        done.push(false);
        v += 1;
    }
    let mut order: Vec<usize> = Vec::new();
    proof {
        let none = gone(g, order@, 0, 0);
        assert forall|x: int| 0 <= x < g.size implies #[trigger] pending@[x] == count_into(
            g.edges,
            x as usize,
            none,
            g.edges.len(),
        ) by {
            lemma_count_same(g.edges, x as usize, none, Set::empty(), g.edges.len());
        }
    }
    loop
        invariant
            g == graph_of(size, seeds, edges@),
            g.wf(),
            order@.len() <= size,
            order@.no_duplicates(),
            forall|i: int| 0 <= i < order@.len() ==> (#[trigger] order@[i]) < size,
            counted(g, pending@, order@, 0, 0),
            done@.len() == size,
            may_start@.len() == size,
            forall|x: int| 0 <= x < size ==> (#[trigger] done@[x] <==> order@.contains(x as usize)),
            forall|x: int|
                0 <= x < size ==> (#[trigger] may_start@[x] <==> (x < g.seeds || exists|j: int|
                    0 <= j < g.edges.len() && (#[trigger] g.edges[j]).1 == x)),
            first@.len() == size,
            next@.len() == edges@.len(),
            forall|x: int| 0 <= x < size ==> #[trigger] first@[x] == next_from(edges@, x as usize, 0),
            forall|j: int|
                0 <= j < edges@.len() ==> #[trigger] next@[j] == next_from(
                    edges@,
                    edges@[j].0,
                    j + 1,
                ),
            place_all(g, order@, (size - order@.len()) as nat) == removal_order(g),
        ensures
            order@ == removal_order(g),
        decreases size - order@.len(),
    {
        let found = next_ready(&pending, &done, &may_start, Ghost(g), Ghost(order@));
        proof {
            lemma_first_eligible(g, order@, 0);
        }
        match found {
            None => {
                break ;
            },
            Some(u) => {
                let ghost before = order@;
                proof {
                    let longer = before.push(u);
                    assert(longer.no_duplicates());
                    lemma_bounded(longer, g.size);
                }
                take_edges(u, edges, &first, &next, &mut pending, Ghost(g), Ghost(before));
                done.set(u, true);
                order.push(u);
                proof {
                    assert forall|x: int| 0 <= x < size implies (#[trigger] done@[x]
                        <==> order@.contains(x as usize)) by {
                        if before.contains(x as usize) {
                            let i = choose|i: int| 0 <= i < before.len() && before[i] == x as usize;
                            assert(order@[i] == x as usize);
                        }
                        if x == u {
                            assert(order@[before.len() as int] == u);
                        }
                    }
                }
            },
        }
    }
    order
}

} // verus!
