//! Pure graph algorithms over job dependency graphs: edge inversion and
//! topological leveling with cycle detection.
//!
//! Jobs declare `depends_on` edges ("I depend on these"); the scheduler
//! needs enablement edges ("once I finish, these become eligible"), so
//! [`invert_graph`] flips every edge before [`topological_sort`] groups the
//! nodes into levels that can run concurrently.

use vstd::prelude::*;
use vstd::set_lib::lemma_int_range;
use vstd::set_lib::lemma_len_subset;
use vstd::set_lib::set_int_range;

verus! {

/// One graph vertex: a job id plus its outgoing edges.
#[derive(Debug, Clone)]
pub struct Node {
    id: u128,
    edges: Vec<u128>,
}

/// Ghost mirror of [`Node`].
pub ghost struct NodeV {
    pub id: u128,
    pub edges: Seq<u128>,
}

impl View for Node {
    type V = NodeV;

    closed spec fn view(&self) -> NodeV {
        NodeV { id: self.id, edges: self.edges@ }
    }
}

impl Node {
    pub fn new(id: u128, edges: Vec<u128>) -> (r: Self)
        ensures
            r@.id == id,
            r@.edges == edges@,
    {
        Self { id, edges }
    }

    /// The id of this node.
    pub fn id(&self) -> (r: u128)
        ensures
            r == self@.id,
    {
        self.id
    }

    /// The outgoing edges of this node.
    pub fn edges(&self) -> (r: &Vec<u128>)
        ensures
            r@ == self@.edges,
    {
        &self.edges
    }
}

/// The ghost graph underlying a vector of nodes.
pub open spec fn nodes_view(v: Seq<Node>) -> Seq<NodeV> {
    v.map_values(|n: Node| n@)
}

/// Some node of `g` carries the id `x`.
pub open spec fn has_id(g: Seq<NodeV>, x: u128) -> bool {
    exists|i: int| 0 <= i < g.len() && (#[trigger] g[i].id) == x
}

/// No two nodes of `g` share an id.
pub open spec fn distinct_ids(g: Seq<NodeV>) -> bool {
    forall|i: int, j: int| 0 <= i < j < g.len() ==> (#[trigger] g[i].id) != (#[trigger] g[j].id)
}

/// Every edge of `g` points at an id present in `g`.
pub open spec fn closed_graph(g: Seq<NodeV>) -> bool {
    forall|i: int, k: int|
        0 <= i < g.len() && 0 <= k < g[i].edges.len() ==> has_id(g, #[trigger] g[i].edges[k])
}

/// `g` holds an edge from the node with id `a` to the id `b`.
pub open spec fn has_edge(g: Seq<NodeV>, a: u128, b: u128) -> bool {
    exists|i: int| 0 <= i < g.len() && (#[trigger] g[i].id) == a && g[i].edges.contains(b)
}

/// `inv` is `g` with every edge reversed: it has the same ids, node for
/// node, and an edge `a -> b` exactly where `g` has `b -> a` (edges of `g`
/// aimed at ids absent from `g` are dropped).
pub open spec fn inverted_graph_of(g: Seq<NodeV>, inv: Seq<NodeV>) -> bool {
    &&& inv.len() == g.len()
    &&& forall|i: int| 0 <= i < g.len() ==> (#[trigger] inv[i].id) == g[i].id
    &&& forall|a: u128, b: u128| #[trigger] has_edge(inv, a, b) ==> has_edge(g, b, a)
    &&& forall|a: u128, b: u128|
        has_edge(g, b, a) && has_id(g, a) ==> #[trigger] has_edge(inv, a, b)
}

/// For every edge `a -> b` of the input, the output carries an edge
/// `b -> a`, and every node keeps its id and position even if it gains no
/// edges. Edges aimed at ids not present in the graph are dropped.
pub fn invert_graph(graph: &Vec<Node>) -> (r: Vec<Node>)
    ensures
        inverted_graph_of(nodes_view(graph@), nodes_view(r@)),
        closed_graph(nodes_view(r@)),
{
    let ghost g = nodes_view(graph@);
    let n = graph.len();
    let mut out: Vec<Node> = Vec::new();
    let mut i: usize = 0;
    while i < n
        invariant
            n == g.len(),
            g == nodes_view(graph@),
            i <= n,
            out@.len() == i,
            forall|ii: int| 0 <= ii < i ==> (#[trigger] out@[ii]@.id) == g[ii].id,
            forall|ii: int, b: u128|
                0 <= ii < i ==> ((#[trigger] out@[ii]@.edges.contains(b)) <==> has_edge(
                    g,
                    b,
                    g[ii].id,
                )),
        decreases n - i,
    {
        let target = graph[i].id;
        let mut edges: Vec<u128> = Vec::new();
        let mut j: usize = 0;
        while j < n
            invariant
                n == g.len(),
                g == nodes_view(graph@),
                i < n,
                j <= n,
                target == g[i as int].id,
                forall|b: u128|
                    (#[trigger] edges@.contains(b)) <==> exists|jj: int|
                        0 <= jj < j && (#[trigger] g[jj].id) == b && g[jj].edges.contains(target),
            decreases n - j,
        {
            let source_id = graph[j].id;
            let mut k: usize = 0;
            let m = graph[j].edges.len();
            while k < m
                invariant
                    n == g.len(),
                    g == nodes_view(graph@),
                    i < n,
                    j < n,
                    k <= m,
                    m == g[j as int].edges.len(),
                    target == g[i as int].id,
                    source_id == g[j as int].id,
                    forall|b: u128|
                        (#[trigger] edges@.contains(b)) <==> (exists|jj: int|
                            0 <= jj < j && (#[trigger] g[jj].id) == b && g[jj].edges.contains(
                                target,
                            )) || (g[j as int].id == b && exists|kk: int|
                            0 <= kk < k && g[j as int].edges[kk] == target),
                decreases m - k,
            {
                let ghost prev = edges@;
                let hit = graph[j].edges[k] == target;
                if hit {
                    edges.push(source_id);
                }
                proof {
                    let kn = k + 1;
                    assert forall|b: u128| (#[trigger] edges@.contains(b)) implies ((exists|
                        jj: int,
                    |
                        0 <= jj < j && (#[trigger] g[jj].id) == b && g[jj].edges.contains(target))
                        || (g[j as int].id == b && exists|kk: int|
                        0 <= kk < kn && g[j as int].edges[kk] == target)) by {
                        if prev.contains(b) {
                            if g[j as int].id == b && exists|kk: int|
                                0 <= kk < k && g[j as int].edges[kk] == target {
                                let kk = choose|kk: int|
                                    0 <= kk < k && g[j as int].edges[kk] == target;
                                assert(0 <= kk < kn && g[j as int].edges[kk] == target);
                            }
                        } else {
                            // The only new element is the one just pushed.
                            assert(hit);
                            assert(edges@ == prev.push(source_id));
                            let idx = choose|idx: int| 0 <= idx < edges@.len() && edges@[idx] == b;
                            assert(idx == prev.len());
                            assert(b == source_id);
                            assert(0 <= k < kn && g[j as int].edges[k as int] == target);
                        }
                    }
                    assert forall|b: u128|
                        ((exists|jj: int|
                            0 <= jj < j && (#[trigger] g[jj].id) == b && g[jj].edges.contains(
                                target,
                            )) || (g[j as int].id == b && exists|kk: int|
                            0 <= kk < kn && g[j as int].edges[kk] == target)) implies (
                    #[trigger] edges@.contains(b)) by {
                        if exists|jj: int|
                            0 <= jj < j && (#[trigger] g[jj].id) == b && g[jj].edges.contains(
                                target,
                            ) {
                            assert(prev.contains(b));
                            let idx = choose|idx: int| 0 <= idx < prev.len() && prev[idx] == b;
                            assert(edges@[idx] == b);
                            assert(edges@.contains(b));
                        } else {
                            let kk = choose|kk: int|
                                0 <= kk < kn && g[j as int].edges[kk] == target;
                            if kk < k {
                                assert(prev.contains(b));
                                let idx = choose|idx: int| 0 <= idx < prev.len() && prev[idx] == b;
                                assert(edges@[idx] == b);
                            } else {
                                assert(kk == k);
                                assert(hit);
                                assert(b == source_id);
                                assert(edges@[prev.len() as int] == source_id);
                                assert(edges@.contains(b));
                            }
                        }
                    }
                }
                k += 1;
            }
            proof {
                assert forall|b: u128| (#[trigger] edges@.contains(b)) implies (exists|jj: int|
                    0 <= jj < j + 1 && (#[trigger] g[jj].id) == b && g[jj].edges.contains(
                        target,
                    )) by {
                    if exists|jj: int|
                        0 <= jj < j && (#[trigger] g[jj].id) == b && g[jj].edges.contains(target) {
                        let jj = choose|jj: int|
                            0 <= jj < j && (#[trigger] g[jj].id) == b && g[jj].edges.contains(
                                target,
                            );
                        assert(0 <= jj < j + 1 && g[jj].id == b && g[jj].edges.contains(target));
                    } else {
                        assert(g[j as int].id == b && exists|kk: int|
                            0 <= kk < k && g[j as int].edges[kk] == target);
                        assert(g[j as int].edges.contains(target));
                        assert(0 <= j < j + 1 && g[j as int].id == b && g[j as int].edges.contains(
                            target,
                        ));
                    }
                }
                assert forall|b: u128|
                    (exists|jj: int|
                        0 <= jj < j + 1 && (#[trigger] g[jj].id) == b && g[jj].edges.contains(
                            target,
                        )) implies (#[trigger] edges@.contains(b)) by {
                    let jj = choose|jj: int|
                        0 <= jj < j + 1 && (#[trigger] g[jj].id) == b && g[jj].edges.contains(
                            target,
                        );
                    if jj < j {
                    } else {
                        let kk = choose|kk: int|
                            0 <= kk < g[j as int].edges.len() && g[j as int].edges[kk] == target;
                        assert(0 <= kk < k && g[j as int].edges[kk] == target);
                    }
                }
            }
            j += 1;
        }
        out.push(Node { id: target, edges });
        proof {
            assert forall|b: u128| (#[trigger] out@[i as int]@.edges.contains(b)) implies has_edge(
                g,
                b,
                g[i as int].id,
            ) by {
                let jj = choose|jj: int|
                    0 <= jj < n && (#[trigger] g[jj].id) == b && g[jj].edges.contains(target);
                assert(0 <= jj < g.len() && g[jj].id == b && g[jj].edges.contains(g[i as int].id));
            }
            assert forall|b: u128| has_edge(g, b, g[i as int].id) implies (
            #[trigger] out@[i as int]@.edges.contains(b)) by {
                let jj = choose|jj: int|
                    0 <= jj < g.len() && (#[trigger] g[jj].id) == b && g[jj].edges.contains(
                        g[i as int].id,
                    );
                assert(0 <= jj < n && g[jj].id == b && g[jj].edges.contains(target));
            }
        }
        i += 1;
    }
    proof {
        let rv = nodes_view(out@);
        assert forall|a: u128, b: u128| #[trigger] has_edge(rv, a, b) implies has_edge(
            g,
            b,
            a,
        ) by {
            let ii = choose|ii: int|
                0 <= ii < rv.len() && (#[trigger] rv[ii].id) == a && rv[ii].edges.contains(b);
            assert(out@[ii]@.edges.contains(b));
            assert(has_edge(g, b, g[ii].id));
        }
        assert forall|a: u128, b: u128| has_edge(g, b, a) && has_id(g, a) implies #[trigger]
        has_edge(rv, a, b) by {
            let ii = choose|ii: int| 0 <= ii < g.len() && (#[trigger] g[ii].id) == a;
            assert(out@[ii]@.edges.contains(b));
            assert(0 <= ii < rv.len() && rv[ii].id == a && rv[ii].edges.contains(b));
        }
        assert forall|i2: int, k2: int|
            0 <= i2 < rv.len() && 0 <= k2 < rv[i2].edges.len() implies has_id(
            rv,
            #[trigger] rv[i2].edges[k2],
        ) by {
            let b = rv[i2].edges[k2];
            assert(out@[i2]@.edges.contains(b));
            assert(has_edge(g, b, g[i2].id));
            let jj = choose|jj: int|
                0 <= jj < g.len() && (#[trigger] g[jj].id) == b && g[jj].edges.contains(g[i2].id);
            assert(rv[jj].id == b);
        }
    }
    out
}

/// How often `x` occurs in `s`.
pub open spec fn cnt(s: Seq<u128>, x: u128) -> nat
    decreases s.len(),
{
    if s.len() == 0 {
        0
    } else {
        cnt(s.drop_last(), x) + (if s.last() == x {
            1nat
        } else {
            0nat
        })
    }
}

/// In-degree of the id `x` in `g`, counting only edges whose source node's
/// index is not in `removed`, restricted to source indexes below `m`.
pub open spec fn indeg_upto(g: Seq<NodeV>, x: u128, removed: Set<int>, m: int) -> nat
    decreases m,
{
    if m <= 0 {
        0
    } else {
        indeg_upto(g, x, removed, m - 1) + (if removed.contains(m - 1) {
            0nat
        } else {
            cnt(g[m - 1].edges, x)
        })
    }
}

/// In-degree of the id `x` in `g`, counting only edges from nodes whose
/// index is not in `removed`.
pub open spec fn indeg(g: Seq<NodeV>, x: u128, removed: Set<int>) -> nat {
    indeg_upto(g, x, removed, g.len() as int)
}

/// Total number of edge slots among the first `m` nodes of `g`.
pub open spec fn edges_upto(g: Seq<NodeV>, m: int) -> nat
    decreases m,
{
    if m <= 0 {
        0
    } else {
        edges_upto(g, m - 1) + g[m - 1].edges.len()
    }
}

/// Total number of edge slots in `g`.
pub open spec fn total_edge_count(g: Seq<NodeV>) -> nat {
    edges_upto(g, g.len() as int)
}

/// `rank` strictly increases along every edge of `g`.
pub open spec fn respects_rank(g: Seq<NodeV>, rank: spec_fn(u128) -> int) -> bool {
    forall|a: u128, b: u128| #[trigger] has_edge(g, a, b) ==> rank(a) < rank(b)
}

/// `g` is acyclic: some rank assignment strictly increases along every edge.
pub open spec fn is_dag(g: Seq<NodeV>) -> bool {
    exists|rank: spec_fn(u128) -> int| #[trigger] respects_rank(g, rank)
}

proof fn lemma_cnt_le_len(s: Seq<u128>, x: u128)
    ensures
        cnt(s, x) <= s.len(),
    decreases s.len(),
{
    if s.len() > 0 {
        lemma_cnt_le_len(s.drop_last(), x);
    }
}

proof fn lemma_cnt_take_succ(s: Seq<u128>, x: u128, k: int)
    requires
        0 <= k < s.len(),
    ensures
        cnt(s.take(k + 1), x) == cnt(s.take(k), x) + (if s[k] == x {
            1nat
        } else {
            0nat
        }),
{
    assert(s.take(k + 1).drop_last() =~= s.take(k));
    assert(s.take(k + 1).last() == s[k]);
}

proof fn lemma_cnt_take_full(s: Seq<u128>, x: u128)
    ensures
        cnt(s.take(s.len() as int), x) == cnt(s, x),
{
    assert(s.take(s.len() as int) =~= s);
}

proof fn lemma_cnt_take_le(s: Seq<u128>, x: u128, k: int)
    requires
        0 <= k <= s.len(),
    ensures
        cnt(s.take(k), x) <= cnt(s, x),
    decreases s.len() - k,
{
    if k == s.len() {
        lemma_cnt_take_full(s, x);
    } else {
        lemma_cnt_take_succ(s, x, k);
        lemma_cnt_take_le(s, x, k + 1);
    }
}

proof fn lemma_cnt_pos_iff_contains(s: Seq<u128>, x: u128)
    ensures
        cnt(s, x) > 0 <==> s.contains(x),
    decreases s.len(),
{
    if s.len() > 0 {
        lemma_cnt_pos_iff_contains(s.drop_last(), x);
        if s.contains(x) && s.last() != x {
            let i = choose|i: int| 0 <= i < s.len() && s[i] == x;
            assert(s.drop_last()[i] == x);
            assert(s.drop_last().contains(x));
        }
        if s.drop_last().contains(x) {
            let i = choose|i: int| 0 <= i < s.drop_last().len() && s.drop_last()[i] == x;
            assert(s[i] == x);
        }
    }
}

proof fn lemma_indeg_upto_congruent(g: Seq<NodeV>, x: u128, r1: Set<int>, r2: Set<int>, m: int)
    requires
        forall|i: int| 0 <= i < m ==> (r1.contains(i) <==> r2.contains(i)),
    ensures
        indeg_upto(g, x, r1, m) == indeg_upto(g, x, r2, m),
    decreases m,
{
    if m > 0 {
        lemma_indeg_upto_congruent(g, x, r1, r2, m - 1);
    }
}

proof fn lemma_indeg_upto_remove(g: Seq<NodeV>, x: u128, removed: Set<int>, j: int, m: int)
    requires
        0 <= j < m,
        !removed.contains(j),
    ensures
        indeg_upto(g, x, removed.insert(j), m) + cnt(g[j].edges, x) == indeg_upto(
            g,
            x,
            removed,
            m,
        ),
    decreases m,
{
    if j == m - 1 {
        lemma_indeg_upto_congruent(g, x, removed.insert(j), removed, m - 1);
    } else {
        lemma_indeg_upto_remove(g, x, removed, j, m - 1);
    }
}

proof fn lemma_indeg_upto_le_edges(g: Seq<NodeV>, x: u128, removed: Set<int>, m: int)
    ensures
        indeg_upto(g, x, removed, m) <= edges_upto(g, m),
    decreases m,
{
    if m > 0 {
        lemma_indeg_upto_le_edges(g, x, removed, m - 1);
        lemma_cnt_le_len(g[m - 1].edges, x);
    }
}

proof fn lemma_edges_upto_mono(g: Seq<NodeV>, m1: int, m2: int)
    requires
        m1 <= m2,
    ensures
        edges_upto(g, m1) <= edges_upto(g, m2),
    decreases m2 - m1,
{
    if m1 < m2 {
        lemma_edges_upto_mono(g, m1, m2 - 1);
    }
}

proof fn lemma_indeg_lower(g: Seq<NodeV>, x: u128, removed: Set<int>, i: int, m: int)
    requires
        0 <= i < m,
        !removed.contains(i),
    ensures
        indeg_upto(g, x, removed, m) >= cnt(g[i].edges, x),
    decreases m,
{
    if i < m - 1 {
        lemma_indeg_lower(g, x, removed, i, m - 1);
    }
}

proof fn lemma_indeg_pos_source(g: Seq<NodeV>, x: u128, removed: Set<int>, m: int)
    requires
        indeg_upto(g, x, removed, m) > 0,
        m <= g.len(),
    ensures
        exists|i: int|
            0 <= i < g.len() && !removed.contains(i) && (#[trigger] g[i].edges).contains(x),
    decreases m,
{
    if m > 0 {
        if !removed.contains(m - 1) && cnt(g[m - 1].edges, x) > 0 {
            lemma_cnt_pos_iff_contains(g[m - 1].edges, x);
            assert(0 <= m - 1 < g.len() && !removed.contains(m - 1) && g[m - 1].edges.contains(x));
        } else {
            lemma_indeg_pos_source(g, x, removed, m - 1);
        }
    }
}

/// The id `x` occurs somewhere in `levels`.
pub open spec fn appears(levels: Seq<Seq<u128>>, x: u128) -> bool {
    exists|l: int| 0 <= l < levels.len() && (#[trigger] levels[l]).contains(x)
}

/// The index of the level holding `x`.
pub open spec fn level_of(levels: Seq<Seq<u128>>, x: u128) -> int {
    choose|l: int| 0 <= l < levels.len() && (#[trigger] levels[l]).contains(x)
}

/// `levels` is a correct topological leveling of `g`:
/// every entry is an id of `g`, every id of `g` occurs in exactly one
/// position, no level is empty, and every edge of `g` crosses from a
/// strictly earlier level to a strictly later one.
pub open spec fn valid_leveling(g: Seq<NodeV>, levels: Seq<Seq<u128>>) -> bool {
    &&& forall|l: int, p: int|
        0 <= l < levels.len() && 0 <= p < levels[l].len() ==> has_id(g, #[trigger] levels[l][p])
    &&& forall|x: u128| has_id(g, x) ==> appears(levels, x)
    &&& forall|l1: int, p1: int, l2: int, p2: int|
        0 <= l1 < levels.len() && 0 <= p1 < levels[l1].len() && 0 <= l2 < levels.len() && 0 <= p2
            < levels[l2].len() && !(l1 == l2 && p1 == p2) ==> (#[trigger] levels[l1][p1]) != (
        #[trigger] levels[l2][p2])
    &&& forall|l: int| 0 <= l < levels.len() ==> (#[trigger] levels[l]).len() > 0
    &&& forall|l1: int, p1: int, l2: int, p2: int|
        0 <= l1 < levels.len() && 0 <= p1 < levels[l1].len() && 0 <= l2 < levels.len() && 0 <= p2
            < levels[l2].len() && #[trigger] has_edge(g, levels[l1][p1], levels[l2][p2]) ==> l1
            < l2
}

/// A correct leveling is a witness that the graph is acyclic: rank each id
/// by its level index.
pub proof fn lemma_leveling_implies_dag(g: Seq<NodeV>, levels: Seq<Seq<u128>>)
    requires
        closed_graph(g),
        valid_leveling(g, levels),
    ensures
        is_dag(g),
{
    let rank = |x: u128| level_of(levels, x);
    assert forall|a: u128, b: u128| #[trigger] has_edge(g, a, b) implies rank(a) < rank(b) by {
        assert(has_id(g, a));
        let i = choose|i: int| 0 <= i < g.len() && (#[trigger] g[i].id) == a && g[i].edges.contains(b);
        let k = choose|k: int| 0 <= k < g[i].edges.len() && g[i].edges[k] == b;
        assert(has_id(g, g[i].edges[k]));
        assert(has_id(g, b));
        assert(appears(levels, a));
        assert(appears(levels, b));
        let la = level_of(levels, a);
        let lb = level_of(levels, b);
        assert(0 <= la < levels.len() && levels[la].contains(a));
        assert(0 <= lb < levels.len() && levels[lb].contains(b));
        let pa = choose|p: int| 0 <= p < levels[la].len() && levels[la][p] == a;
        let pb = choose|p: int| 0 <= p < levels[lb].len() && levels[lb][p] == b;
        assert(has_edge(g, levels[la][pa], levels[lb][pb]));
    }
    assert(respects_rank(g, rank));
}

proof fn lemma_exists_min_rank(u: Set<int>, f: spec_fn(int) -> int)
    requires
        u.finite(),
        u.len() > 0,
    ensures
        exists|m: int|
            u.contains(m) && forall|y: int| u.contains(y) ==> f(m) <= #[trigger] f(y),
    decreases u.len(),
{
    let x = u.choose();
    assert(u.contains(x));
    let rest = u.remove(x);
    if rest.len() == 0 {
        assert forall|y: int| u.contains(y) implies f(x) <= #[trigger] f(y) by {
            if y != x {
                assert(rest.contains(y));
                assert(rest.len() > 0) by {
                    vstd::set_lib::lemma_len_subset(Set::empty().insert(y), rest);
                }
            }
        }
        assert(u.contains(x) && forall|y: int| u.contains(y) ==> f(x) <= #[trigger] f(y));
    } else {
        lemma_exists_min_rank(rest, f);
        let m0 = choose|m: int|
            rest.contains(m) && forall|y: int| rest.contains(y) ==> f(m) <= #[trigger] f(y);
        let m = if f(x) <= f(m0) {
            x
        } else {
            m0
        };
        assert(u.contains(m) && forall|y: int| u.contains(y) ==> f(m) <= #[trigger] f(y));
    }
}

/// If a nonempty set of node indexes is such that every member has an
/// in-edge from some member, the graph holds a cycle.
proof fn lemma_blocked_set_not_dag(g: Seq<NodeV>, u: Set<int>)
    requires
        u.finite(),
        u.len() > 0,
        forall|t: int| u.contains(t) ==> 0 <= t < g.len(),
        forall|t: int|
            u.contains(t) ==> exists|i: int|
                u.contains(i) && (#[trigger] g[i].edges).contains(g[t].id),
    ensures
        !is_dag(g),
{
    if is_dag(g) {
        let rank = choose|rank: spec_fn(u128) -> int| #[trigger] respects_rank(g, rank);
        let f = |t: int| rank(g[t].id);
        lemma_exists_min_rank(u, f);
        let m = choose|m: int|
            u.contains(m) && forall|y: int| u.contains(y) ==> f(m) <= #[trigger] f(y);
        let i = choose|i: int| u.contains(i) && (#[trigger] g[i].edges).contains(g[m].id);
        assert(has_edge(g, g[i].id, g[m].id));
        assert(rank(g[i].id) < rank(g[m].id));
        assert(f(m) <= f(i));
        assert(false);
    }
}

proof fn lemma_indeg_zero_no_source(g: Seq<NodeV>, x: u128, removed: Set<int>, i: int)
    requires
        indeg(g, x, removed) == 0,
        0 <= i < g.len(),
        !removed.contains(i),
    ensures
        !g[i].edges.contains(x),
{
    lemma_indeg_lower(g, x, removed, i, g.len() as int);
    lemma_cnt_pos_iff_contains(g[i].edges, x);
}

/// The error reported when the dependency graph holds a cycle.
#[derive(Debug, Clone, Copy, PartialEq, Eq, Structural)]
pub enum GraphError {
    CyclicDependency,
}

impl GraphError {
    /// The message shown for this error.
    pub fn message(&self) -> (r: &'static str)
        ensures
            r@ == "cyclical job dependencies detected"@,
    {
        "cyclical job dependencies detected"
    }
}

fn find_index(graph: &Vec<Node>, id: u128) -> (j: usize)
    requires
        has_id(nodes_view(graph@), id),
    ensures
        (j as int) < graph@.len(),
        nodes_view(graph@)[j as int].id == id,
{
    let ghost g = nodes_view(graph@);
    let n = graph.len();
    let mut j: usize = 0;
    while j < n
        invariant
            g == nodes_view(graph@),
            n == g.len(),
            has_id(g, id),
            j <= n,
            forall|jj: int| 0 <= jj < j ==> (#[trigger] g[jj].id) != id,
        decreases n - j,
    {
        if graph[j].id == id {
            return j;
        }
        j += 1;
    }
    proof {
        let i = choose|i: int| 0 <= i < g.len() && (#[trigger] g[i].id) == id;
        assert(false);
    }
    vstd::pervasive::unreached()
}

fn count_edges_to(graph: &Vec<Node>, x: u128) -> (c: usize)
    requires
        total_edge_count(nodes_view(graph@)) <= usize::MAX,
    ensures
        c as nat == indeg(nodes_view(graph@), x, Set::<int>::empty()),
{
    let ghost g = nodes_view(graph@);
    let n = graph.len();
    let mut c: usize = 0;
    let mut j: usize = 0;
    while j < n
        invariant
            g == nodes_view(graph@),
            n == g.len(),
            total_edge_count(g) <= usize::MAX,
            j <= n,
            c as nat == indeg_upto(g, x, Set::<int>::empty(), j as int),
        decreases n - j,
    {
        let m = graph[j].edges.len();
        let mut k: usize = 0;
        while k < m
            invariant
                g == nodes_view(graph@),
                n == g.len(),
                total_edge_count(g) <= usize::MAX,
                j < n,
                m == g[j as int].edges.len(),
                k <= m,
                c as nat == indeg_upto(g, x, Set::<int>::empty(), j as int) + cnt(
                    g[j as int].edges.take(k as int),
                    x,
                ),
            decreases m - k,
        {
            proof {
                lemma_cnt_take_succ(g[j as int].edges, x, k as int);
                lemma_indeg_upto_le_edges(g, x, Set::<int>::empty(), j as int);
                lemma_cnt_le_len(g[j as int].edges.take(k as int), x);
                lemma_edges_upto_mono(g, j as int + 1, g.len() as int);
                assert(g[j as int].edges.take(k as int).len() == k);
            }
            if graph[j].edges[k] == x {
                c += 1;
            }
            k += 1;
        }
        proof {
            lemma_cnt_take_full(g[j as int].edges, x);
        }
        j += 1;
    }
    c
}


/// The bookkeeping the leveling loop maintains about the levels already
/// emitted: the placed ids are exactly the ids of the node indexes in
/// `done`, each id is placed once, no level is empty, and every in-edge of
/// a placed id comes from a strictly earlier level.
/// The value placed at position `(l, p)` is the id of some index in `done`.
spec fn placed_at(g: Seq<NodeV>, levels: Seq<Vec<u128>>, done: Set<int>, l: int, p: int) -> bool {
    exists|t: int| #[trigger] done.contains(t) && g[t].id == levels[l]@[p]
}

spec fn levels_state(g: Seq<NodeV>, levels: Seq<Vec<u128>>, done: Set<int>) -> bool {
    &&& forall|t: int|
        #[trigger] done.contains(t) ==> exists|l: int, p: int|
            #![trigger levels[l]@[p]]
            0 <= l < levels.len() && 0 <= p < levels[l]@.len() && levels[l]@[p] == g[t].id
    &&& forall|l: int, p: int|
        0 <= l < levels.len() && 0 <= p < levels[l]@.len() ==> #[trigger] placed_at(
            g,
            levels,
            done,
            l,
            p,
        )
    &&& forall|l1: int, p1: int, l2: int, p2: int|
        0 <= l1 < levels.len() && 0 <= p1 < levels[l1]@.len() && 0 <= l2 < levels.len() && 0 <= p2
            < levels[l2]@.len() && !(l1 == l2 && p1 == p2) ==> (#[trigger] levels[l1]@[p1]) != (
        #[trigger] levels[l2]@[p2])
    &&& forall|l: int| 0 <= l < levels.len() ==> (#[trigger] levels[l]@).len() > 0
    &&& forall|l2: int, p2: int, a: u128|
        0 <= l2 < levels.len() && 0 <= p2 < levels[l2]@.len() && #[trigger] has_edge(
            g,
            a,
            levels[l2]@[p2],
        ) ==> exists|l1: int, p1: int|
            #![trigger levels[l1]@[p1]]
            0 <= l1 < l2 && 0 <= p1 < levels[l1]@.len() && levels[l1]@[p1] == a
}

/// Shared hypotheses of the level-emission lemmas: `new_levels` extends
/// `old_levels` by the batch `cur`, which lists the ids of the freshly
/// drained node indexes `qseq`, and `done` extends `done0` by exactly
/// those indexes.
spec fn emit_step(
    g: Seq<NodeV>,
    old_levels: Seq<Vec<u128>>,
    new_levels: Seq<Vec<u128>>,
    cur: Seq<u128>,
    qseq: Seq<usize>,
    done0: Set<int>,
    done: Set<int>,
) -> bool {
    &&& distinct_ids(g)
    &&& new_levels.len() == old_levels.len() + 1
    &&& forall|l: int| 0 <= l < old_levels.len() ==> new_levels[l] == old_levels[l]
    &&& new_levels[old_levels.len() as int]@ == cur
    &&& cur.len() == qseq.len()
    &&& qseq.len() > 0
    &&& forall|m: int| 0 <= m < qseq.len() ==> (#[trigger] qseq[m]) < g.len()
    &&& forall|m1: int, m2: int| 0 <= m1 < m2 < qseq.len() ==> qseq[m1] != qseq[m2]
    &&& forall|m: int| 0 <= m < qseq.len() ==> !done0.contains(#[trigger] qseq[m] as int)
    &&& forall|m: int|
        0 <= m < qseq.len() ==> indeg(g, g[#[trigger] qseq[m] as int].id, done0) == 0
    &&& forall|m: int| 0 <= m < qseq.len() ==> cur[m] == g[#[trigger] qseq[m] as int].id
    &&& forall|t: int|
        #[trigger] done.contains(t) <==> done0.contains(t) || exists|m: int|
            0 <= m < qseq.len() && (#[trigger] qseq[m]) as int == t
    &&& forall|t: int| done0.contains(t) ==> 0 <= t < g.len()
    &&& levels_state(g, old_levels, done0)
}

proof fn lemma_distinct_ids_sym(g: Seq<NodeV>)
    requires
        distinct_ids(g),
    ensures
        forall|t1: int, t2: int|
            0 <= t1 < g.len() && 0 <= t2 < g.len() && t1 != t2 ==> g[t1].id != g[t2].id,
{
    assert forall|t1: int, t2: int|
        0 <= t1 < g.len() && 0 <= t2 < g.len() && t1 != t2 implies g[t1].id != g[t2].id by {
        if t1 < t2 {
            assert(g[t1].id != g[t2].id);
        } else {
            assert(g[t2].id != g[t1].id);
        }
    }
}

proof fn lemma_emit_placed(
    g: Seq<NodeV>,
    old_levels: Seq<Vec<u128>>,
    new_levels: Seq<Vec<u128>>,
    cur: Seq<u128>,
    qseq: Seq<usize>,
    done0: Set<int>,
    done: Set<int>,
)
    requires
        emit_step(g, old_levels, new_levels, cur, qseq, done0, done),
    ensures
        forall|t: int|
            #[trigger] done.contains(t) ==> exists|l: int, p: int|
                #![trigger new_levels[l]@[p]]
                0 <= l < new_levels.len() && 0 <= p < new_levels[l]@.len() && new_levels[l]@[p]
                    == g[t].id,
{
    let ln = old_levels.len() as int;
    assert forall|t: int| #[trigger] done.contains(t) implies exists|l: int, p: int|
        #![trigger new_levels[l]@[p]]
        0 <= l < new_levels.len() && 0 <= p < new_levels[l]@.len() && new_levels[l]@[p]
            == g[t].id by {
        if done0.contains(t) {
            let (l, p) = choose|l: int, p: int|
                #![trigger old_levels[l]@[p]]
                0 <= l < old_levels.len() && 0 <= p < old_levels[l]@.len() && old_levels[l]@[p]
                    == g[t].id;
            assert(new_levels[l]@[p] == g[t].id);
        } else {
            let m = choose|m: int| 0 <= m < qseq.len() && (#[trigger] qseq[m]) as int == t;
            assert(cur[m] == g[t].id);
            assert(new_levels[ln]@[m] == g[t].id);
        }
    }
}

proof fn lemma_emit_values(
    g: Seq<NodeV>,
    old_levels: Seq<Vec<u128>>,
    new_levels: Seq<Vec<u128>>,
    cur: Seq<u128>,
    qseq: Seq<usize>,
    done0: Set<int>,
    done: Set<int>,
)
    requires
        emit_step(g, old_levels, new_levels, cur, qseq, done0, done),
    ensures
        forall|l: int, p: int|
            0 <= l < new_levels.len() && 0 <= p < new_levels[l]@.len() ==> #[trigger] placed_at(
                g,
                new_levels,
                done,
                l,
                p,
            ),
{
    let ln = old_levels.len() as int;
    assert forall|l: int, p: int|
        0 <= l < new_levels.len() && 0 <= p < new_levels[l]@.len() implies #[trigger] placed_at(
        g,
        new_levels,
        done,
        l,
        p,
    ) by {
        if l < ln {
            assert(new_levels[l] == old_levels[l]);
            assert(0 <= p < old_levels[l]@.len());
            assert(placed_at(g, old_levels, done0, l, p));
            let t = choose|t: int| #[trigger] done0.contains(t) && g[t].id == old_levels[l]@[p];
            assert(done.contains(t) && g[t].id == new_levels[l]@[p]);
        } else {
            let t = qseq[p] as int;
            assert(qseq[p] as int == t);
            assert(done.contains(t));
            assert(g[t].id == new_levels[l]@[p]);
        }
    }
}

proof fn lemma_emit_unique(
    g: Seq<NodeV>,
    old_levels: Seq<Vec<u128>>,
    new_levels: Seq<Vec<u128>>,
    cur: Seq<u128>,
    qseq: Seq<usize>,
    done0: Set<int>,
    done: Set<int>,
)
    requires
        emit_step(g, old_levels, new_levels, cur, qseq, done0, done),
    ensures
        forall|l1: int, p1: int, l2: int, p2: int|
            0 <= l1 < new_levels.len() && 0 <= p1 < new_levels[l1]@.len() && 0 <= l2
                < new_levels.len() && 0 <= p2 < new_levels[l2]@.len() && !(l1 == l2 && p1 == p2)
                ==> (#[trigger] new_levels[l1]@[p1]) != (#[trigger] new_levels[l2]@[p2]),
{
    let ln = old_levels.len() as int;
    lemma_distinct_ids_sym(g);
    assert forall|l1: int, p1: int, l2: int, p2: int|
        0 <= l1 < new_levels.len() && 0 <= p1 < new_levels[l1]@.len() && 0 <= l2
            < new_levels.len() && 0 <= p2 < new_levels[l2]@.len() && !(l1 == l2 && p1 == p2)
        implies (#[trigger] new_levels[l1]@[p1]) != (#[trigger] new_levels[l2]@[p2]) by {
        if l1 < ln && l2 < ln {
            assert(new_levels[l1] == old_levels[l1]);
            assert(new_levels[l2] == old_levels[l2]);
            assert(0 <= p1 < old_levels[l1]@.len());
            assert(0 <= p2 < old_levels[l2]@.len());
            assert(old_levels[l1]@[p1] != old_levels[l2]@[p2]);
        } else if l1 == ln && l2 == ln {
            let t1 = qseq[p1] as int;
            let t2 = qseq[p2] as int;
            assert(qseq[p1] != qseq[p2]) by {
                if p1 < p2 {
                } else {
                }
            }
            assert(g[t1].id != g[t2].id);
        } else if l1 == ln {
            let t1 = qseq[p1] as int;
            assert(new_levels[l2] == old_levels[l2]);
            assert(0 <= p2 < old_levels[l2]@.len());
            assert(placed_at(g, old_levels, done0, l2, p2));
            let t2 = choose|t: int| #[trigger] done0.contains(t) && g[t].id == old_levels[l2]@[p2];
            assert(!done0.contains(t1));
            assert(t1 != t2);
            assert(g[t1].id != g[t2].id);
        } else {
            let t2 = qseq[p2] as int;
            assert(new_levels[l1] == old_levels[l1]);
            assert(0 <= p1 < old_levels[l1]@.len());
            assert(placed_at(g, old_levels, done0, l1, p1));
            let t1 = choose|t: int| #[trigger] done0.contains(t) && g[t].id == old_levels[l1]@[p1];
            assert(!done0.contains(t2));
            assert(t1 != t2);
            assert(g[t1].id != g[t2].id);
        }
    }
}

proof fn lemma_emit_ord(
    g: Seq<NodeV>,
    old_levels: Seq<Vec<u128>>,
    new_levels: Seq<Vec<u128>>,
    cur: Seq<u128>,
    qseq: Seq<usize>,
    done0: Set<int>,
    done: Set<int>,
)
    requires
        emit_step(g, old_levels, new_levels, cur, qseq, done0, done),
    ensures
        forall|l2: int, p2: int, a: u128|
            0 <= l2 < new_levels.len() && 0 <= p2 < new_levels[l2]@.len() && #[trigger] has_edge(
                g,
                a,
                new_levels[l2]@[p2],
            ) ==> exists|l1: int, p1: int|
                #![trigger new_levels[l1]@[p1]]
                0 <= l1 < l2 && 0 <= p1 < new_levels[l1]@.len() && new_levels[l1]@[p1] == a,
{
    let ln = old_levels.len() as int;
    assert forall|l2: int, p2: int, a: u128|
        0 <= l2 < new_levels.len() && 0 <= p2 < new_levels[l2]@.len() && #[trigger] has_edge(
            g,
            a,
            new_levels[l2]@[p2],
        ) implies exists|l1: int, p1: int|
        #![trigger new_levels[l1]@[p1]]
        0 <= l1 < l2 && 0 <= p1 < new_levels[l1]@.len() && new_levels[l1]@[p1] == a by {
        if l2 < ln {
            assert(new_levels[l2] == old_levels[l2]);
            assert(0 <= p2 < old_levels[l2]@.len());
            assert(has_edge(g, a, old_levels[l2]@[p2]));
            let (l1, p1) = choose|l1: int, p1: int|
                #![trigger old_levels[l1]@[p1]]
                0 <= l1 < l2 && 0 <= p1 < old_levels[l1]@.len() && old_levels[l1]@[p1] == a;
            assert(new_levels[l1] == old_levels[l1]);
            assert(new_levels[l1]@[p1] == a);
        } else {
            let t = qseq[p2] as int;
            let b = g[t].id;
            assert(b == new_levels[l2]@[p2]);
            assert(indeg(g, b, done0) == 0);
            let i = choose|i: int|
                0 <= i < g.len() && (#[trigger] g[i].id) == a && g[i].edges.contains(b);
            if !done0.contains(i) {
                lemma_indeg_zero_no_source(g, b, done0, i);
                assert(false);
            }
            assert(done0.contains(i));
            let (l1, p1) = choose|l1: int, p1: int|
                #![trigger old_levels[l1]@[p1]]
                0 <= l1 < old_levels.len() && 0 <= p1 < old_levels[l1]@.len()
                    && old_levels[l1]@[p1] == g[i].id;
            assert(l1 < ln);
            assert(new_levels[l1] == old_levels[l1]);
            assert(new_levels[l1]@[p1] == a);
        }
    }
}

/// Appending one fully drained ready batch as a new level preserves the
/// leveling bookkeeping.
#[verifier::rlimit(50)]
proof fn lemma_emit_level(
    g: Seq<NodeV>,
    old_levels: Seq<Vec<u128>>,
    new_levels: Seq<Vec<u128>>,
    cur: Seq<u128>,
    qseq: Seq<usize>,
    done0: Set<int>,
    done: Set<int>,
)
    requires
        emit_step(g, old_levels, new_levels, cur, qseq, done0, done),
    ensures
        levels_state(g, new_levels, done),
{
    let ln = old_levels.len() as int;
    lemma_emit_placed(g, old_levels, new_levels, cur, qseq, done0, done);
    lemma_emit_values(g, old_levels, new_levels, cur, qseq, done0, done);
    lemma_emit_unique(g, old_levels, new_levels, cur, qseq, done0, done);
    lemma_emit_ord(g, old_levels, new_levels, cur, qseq, done0, done);
    assert forall|l: int| 0 <= l < new_levels.len() implies (#[trigger] new_levels[l]@).len()
        > 0 by {
        if l < ln {
            assert(new_levels[l] == old_levels[l]);
            assert(old_levels[l]@.len() > 0);
        } else {
            assert(new_levels[l]@ == cur);
        }
    }
}

/// When the ready queue runs dry while some node is still unplaced, the
/// unplaced nodes form a blocked set and the graph holds a cycle.
proof fn lemma_stuck_not_dag(g: Seq<NodeV>, done: Set<int>, j: int)
    requires
        0 <= j < g.len(),
        !done.contains(j),
        forall|t: int| 0 <= t < g.len() && !done.contains(t) ==> indeg(g, g[t].id, done) > 0,
    ensures
        !is_dag(g),
{
    let n = g.len() as int;
    let u = Set::new(|t: int| 0 <= t < n && !done.contains(t));
    lemma_int_range(0, n);
    lemma_len_subset(u, set_int_range(0, n));
    assert(u.contains(j));
    lemma_len_subset(Set::<int>::empty().insert(j), u);
    assert(Set::<int>::empty().insert(j).len() == 1);
    assert(u.len() > 0);
    assert forall|t: int| u.contains(t) implies exists|i: int|
        u.contains(i) && (#[trigger] g[i].edges).contains(g[t].id) by {
        assert(indeg(g, g[t].id, done) > 0);
        lemma_indeg_pos_source(g, g[t].id, done, g.len() as int);
        let i = choose|i: int|
            0 <= i < g.len() && !done.contains(i) && (#[trigger] g[i].edges).contains(g[t].id);
        assert(u.contains(i));
    }
    lemma_blocked_set_not_dag(g, u);
}

/// Once every node is placed, the recorded bookkeeping yields a correct
/// leveling, which in turn witnesses acyclicity.
#[verifier::rlimit(50)]
proof fn lemma_complete_leveling(
    g: Seq<NodeV>,
    levels: Seq<Vec<u128>>,
    lv: Seq<Seq<u128>>,
    done: Set<int>,
)
    requires
        closed_graph(g),
        levels_state(g, levels, done),
        forall|t: int| 0 <= t < g.len() ==> done.contains(t),
        forall|t: int| done.contains(t) ==> 0 <= t < g.len(),
        lv.len() == levels.len(),
        forall|l: int| 0 <= l < lv.len() ==> (#[trigger] lv[l]) == levels[l]@,
    ensures
        valid_leveling(g, lv),
        is_dag(g),
{
    assert forall|l: int, p: int|
        0 <= l < lv.len() && 0 <= p < lv[l].len() implies has_id(g, #[trigger] lv[l][p]) by {
        assert(placed_at(g, levels, done, l, p));
        let t = choose|t: int| #[trigger] done.contains(t) && g[t].id == levels[l]@[p];
        assert(0 <= t < g.len() && g[t].id == lv[l][p]);
    }
    assert forall|x: u128| has_id(g, x) implies appears(lv, x) by {
        let i = choose|i: int| 0 <= i < g.len() && (#[trigger] g[i].id) == x;
        assert(done.contains(i));
        let (l, p) = choose|l: int, p: int|
            #![trigger levels[l]@[p]]
            0 <= l < levels.len() && 0 <= p < levels[l]@.len() && levels[l]@[p] == g[i].id;
        assert(lv[l][p] == x);
        assert(lv[l].contains(x));
    }
    assert forall|l1: int, p1: int, l2: int, p2: int|
        0 <= l1 < lv.len() && 0 <= p1 < lv[l1].len() && 0 <= l2 < lv.len() && 0 <= p2
            < lv[l2].len() && !(l1 == l2 && p1 == p2) implies (#[trigger] lv[l1][p1]) != (
    #[trigger] lv[l2][p2]) by {
        assert(levels[l1]@[p1] != levels[l2]@[p2]);
    }
    assert forall|l1: int, p1: int, l2: int, p2: int|
        0 <= l1 < lv.len() && 0 <= p1 < lv[l1].len() && 0 <= l2 < lv.len() && 0 <= p2
            < lv[l2].len() && #[trigger] has_edge(g, lv[l1][p1], lv[l2][p2]) implies l1 < l2 by {
        let a = lv[l1][p1];
        assert(has_edge(g, a, levels[l2]@[p2]));
        let (l1x, p1x) = choose|lx: int, px: int|
            #![trigger levels[lx]@[px]]
            0 <= lx < l2 && 0 <= px < levels[lx]@.len() && levels[lx]@[px] == a;
        if !(l1x == l1 && p1x == p1) {
            assert(levels[l1x]@[p1x] != levels[l1]@[p1]);
            assert(false);
        }
    }
    assert(valid_leveling(g, lv));
    lemma_leveling_implies_dag(g, lv);
}

/// Kahn's algorithm with batched levels: compute in-degrees, seed a ready
/// queue with in-degree-0 nodes, and repeatedly drain the entire current
/// ready queue as one level, enqueueing nodes whose in-degree reaches 0 for
/// the next level. If any node is left unplaced, the graph holds a cycle.
///
/// Succeeds exactly on acyclic graphs; the returned leveling places every
/// id once and every edge's source strictly before its target.
#[verifier::rlimit(100)]
pub fn topological_sort(graph: &Vec<Node>) -> (r: Result<Vec<Vec<u128>>, GraphError>)
    requires
        distinct_ids(nodes_view(graph@)),
        closed_graph(nodes_view(graph@)),
        total_edge_count(nodes_view(graph@)) <= usize::MAX,
    ensures
        match r {
            Ok(levels) => valid_leveling(nodes_view(graph@), levels.deep_view()) && is_dag(
                nodes_view(graph@),
            ),
            Err(e) => !is_dag(nodes_view(graph@)) && e == GraphError::CyclicDependency,
        },
{
    let ghost g = nodes_view(graph@);
    let n = graph.len();

    // Initial in-degree of every node.
    let mut in_deg: Vec<usize> = Vec::new();
    let mut j: usize = 0;
    while j < n
        invariant
            g == nodes_view(graph@),
            n == g.len(),
            total_edge_count(g) <= usize::MAX,
            j <= n,
            in_deg@.len() == j,
            forall|t: int|
                0 <= t < j ==> (#[trigger] in_deg@[t]) as nat == indeg(
                    g,
                    g[t].id,
                    Set::<int>::empty(),
                ),
        decreases n - j,
    {
        let c = count_edges_to(graph, graph[j].id);
        in_deg.push(c);
        j += 1;
    }

    // Seed the ready queue with in-degree-0 nodes.
    let mut queue: Vec<usize> = Vec::new();
    let mut j: usize = 0;
    while j < n
        invariant
            g == nodes_view(graph@),
            n == g.len(),
            in_deg@.len() == n,
            j <= n,
            forall|t: int|
                0 <= t < n ==> (#[trigger] in_deg@[t]) as nat == indeg(
                    g,
                    g[t].id,
                    Set::<int>::empty(),
                ),
            forall|m: int| 0 <= m < queue@.len() ==> (#[trigger] queue@[m]) < j,
            forall|m1: int, m2: int| 0 <= m1 < m2 < queue@.len() ==> queue@[m1] != queue@[m2],
            forall|t: int| 0 <= t < j ==> (in_deg@[t] == 0 <==> queue@.contains(t as usize)),
        decreases n - j,
    {
        let ghost prevq = queue@;
        if in_deg[j] == 0 {
            queue.push(j);
        }
        proof {
            assert forall|t: int| 0 <= t < j + 1 implies (in_deg@[t] == 0 <==> queue@.contains(
                t as usize,
            )) by {
                if t < j {
                    if prevq.contains(t as usize) {
                        let m = choose|m: int| 0 <= m < prevq.len() && prevq[m] == t as usize;
                        assert(queue@[m] == t as usize);
                    }
                    if queue@.contains(t as usize) && queue@.len() > prevq.len() {
                        let m = choose|m: int| 0 <= m < queue@.len() && queue@[m] == t as usize;
                        if m < prevq.len() {
                            assert(prevq.contains(t as usize));
                        }
                    }
                } else {
                    if in_deg@[t] == 0 {
                        assert(queue@[queue@.len() - 1] == t as usize);
                    } else {
                        if queue@.contains(t as usize) {
                            let m = choose|m: int| 0 <= m < queue@.len() && queue@[m] == t as usize;
                            assert(m < prevq.len());
                        }
                    }
                }
            }
        }
        j += 1;
    }

    // Drain ready batches as levels.
    let mut levels: Vec<Vec<u128>> = Vec::new();
    let ghost mut done: Set<int> = Set::empty();
    while queue.len() > 0
        invariant
            g == nodes_view(graph@),
            n == g.len(),
            distinct_ids(g),
            closed_graph(g),
            in_deg@.len() == n,
            done.finite(),
            forall|t: int| done.contains(t) ==> 0 <= t < n,
            done.len() <= n,
            forall|m: int| 0 <= m < queue@.len() ==> (#[trigger] queue@[m]) < n,
            forall|m1: int, m2: int| 0 <= m1 < m2 < queue@.len() ==> queue@[m1] != queue@[m2],
            forall|m: int| 0 <= m < queue@.len() ==> !done.contains(#[trigger] queue@[m] as int),
            forall|t: int|
                0 <= t < n ==> (#[trigger] in_deg@[t]) as nat == indeg(g, g[t].id, done),
            forall|t: int|
                0 <= t < n ==> ((#[trigger] in_deg@[t]) == 0 <==> done.contains(t)
                    || queue@.contains(t as usize)),
            levels_state(g, levels@, done),
        decreases n - done.len(),
    {
        let ghost done0 = done;
        let qlen = queue.len();
        let mut current: Vec<u128> = Vec::new();
        let mut next_queue: Vec<usize> = Vec::new();
        let mut qi: usize = 0;
        proof {
            assert forall|m: int| 0 <= m < qlen implies indeg(
                g,
                g[#[trigger] queue@[m] as int].id,
                done0,
            ) == 0 by {
                assert(queue@.contains(queue@[m]));
                assert(in_deg@[queue@[m] as int] == 0);
            }
        }
        while qi < qlen
            invariant
                g == nodes_view(graph@),
                n == g.len(),
                distinct_ids(g),
                closed_graph(g),
                in_deg@.len() == n,
                qlen == queue@.len(),
                qi <= qlen,
                forall|m: int| 0 <= m < qlen ==> (#[trigger] queue@[m]) < n,
                forall|m1: int, m2: int| 0 <= m1 < m2 < qlen ==> queue@[m1] != queue@[m2],
                done.finite(),
                forall|t: int| done.contains(t) ==> 0 <= t < n,
                forall|t: int|
                    #[trigger] done.contains(t) <==> done0.contains(t) || exists|m: int|
                        0 <= m < qi && (#[trigger] queue@[m]) as int == t,
                forall|m: int| 0 <= m < qlen ==> !done0.contains(#[trigger] queue@[m] as int),
                forall|m: int|
                    0 <= m < qlen ==> indeg(g, g[#[trigger] queue@[m] as int].id, done0) == 0,
                forall|t: int|
                    0 <= t < n ==> (#[trigger] in_deg@[t]) as nat == indeg(g, g[t].id, done),
                forall|t: int|
                    0 <= t < n ==> ((#[trigger] in_deg@[t]) == 0 <==> done.contains(t) || (exists|
                        m: int,
                    |
                        qi <= m < qlen && (#[trigger] queue@[m]) as int == t)
                        || next_queue@.contains(t as usize)),
                forall|m: int| 0 <= m < next_queue@.len() ==> (#[trigger] next_queue@[m]) < n,
                forall|m1: int, m2: int|
                    0 <= m1 < m2 < next_queue@.len() ==> next_queue@[m1] != next_queue@[m2],
                forall|m: int|
                    0 <= m < next_queue@.len() ==> !done.contains(
                        #[trigger] next_queue@[m] as int,
                    ),
                forall|m: int, m2: int|
                    0 <= m < next_queue@.len() && qi <= m2 < qlen ==> next_queue@[m] != queue@[m2],
                current@.len() == qi,
                forall|m: int| 0 <= m < qi ==> current@[m] == g[#[trigger] queue@[m] as int].id,
                levels_state(g, levels@, done0),
            decreases qlen - qi,
        {
            let jnode = queue[qi];
            proof {
                assert(!done.contains(jnode as int)) by {
                    if done.contains(jnode as int) {
                        assert(!done0.contains(jnode as int));
                        let m = choose|m: int|
                            0 <= m < qi && (#[trigger] queue@[m]) as int == jnode as int;
                        assert(queue@[m] != queue@[qi as int]);
                    }
                }
            }
            let elen = graph[jnode].edges.len();
            let mut k: usize = 0;
            while k < elen
                invariant
                    g == nodes_view(graph@),
                    n == g.len(),
                    distinct_ids(g),
                    closed_graph(g),
                    in_deg@.len() == n,
                    qlen == queue@.len(),
                    qi < qlen,
                    jnode == queue@[qi as int],
                    (jnode as int) < n,
                    !done.contains(jnode as int),
                    elen == g[jnode as int].edges.len(),
                    k <= elen,
                    forall|m: int| 0 <= m < qlen ==> (#[trigger] queue@[m]) < n,
                    forall|m1: int, m2: int| 0 <= m1 < m2 < qlen ==> queue@[m1] != queue@[m2],
                    done.finite(),
                    forall|t: int| done.contains(t) ==> 0 <= t < n,
                    forall|t: int|
                        #[trigger] done.contains(t) <==> done0.contains(t) || exists|m: int|
                            0 <= m < qi && (#[trigger] queue@[m]) as int == t,
                    forall|t: int|
                        0 <= t < n ==> (#[trigger] in_deg@[t]) as nat + cnt(
                            g[jnode as int].edges.take(k as int),
                            g[t].id,
                        ) == indeg(g, g[t].id, done),
                    forall|t: int|
                        0 <= t < n ==> ((#[trigger] in_deg@[t]) == 0 <==> done.contains(t) || (
                        exists|m: int|
                            qi <= m < qlen && (#[trigger] queue@[m]) as int == t)
                            || next_queue@.contains(t as usize)),
                    forall|m: int| 0 <= m < next_queue@.len() ==> (#[trigger] next_queue@[m]) < n,
                    forall|m1: int, m2: int|
                        0 <= m1 < m2 < next_queue@.len() ==> next_queue@[m1] != next_queue@[m2],
                    forall|m: int|
                        0 <= m < next_queue@.len() ==> !done.contains(
                            #[trigger] next_queue@[m] as int,
                        ),
                    forall|m: int, m2: int|
                        0 <= m < next_queue@.len() && qi <= m2 < qlen ==> next_queue@[m]
                            != queue@[m2],
                decreases elen - k,
            {
                let t_id = graph[jnode].edges[k];
                proof {
                    assert(has_id(g, g[jnode as int].edges[k as int]));
                }
                let t = find_index(graph, t_id);
                proof {
                    let s = g[jnode as int].edges;
                    lemma_cnt_take_succ(s, t_id, k as int);
                    lemma_cnt_take_le(s, t_id, k as int + 1);
                    lemma_indeg_lower(g, t_id, done, jnode as int, g.len() as int);
                    assert(in_deg@[t as int] as nat + cnt(s.take(k as int), t_id) == indeg(
                        g,
                        t_id,
                        done,
                    ));
                    assert(cnt(s.take(k as int + 1), t_id) == cnt(s.take(k as int), t_id) + 1);
                    assert(indeg(g, t_id, done) >= cnt(s, t_id));
                    assert(in_deg@[t as int] >= 1);
                }
                let d = in_deg[t];
                in_deg.set(t, d - 1);
                let ghost prev_next = next_queue@;
                if d - 1 == 0 {
                    next_queue.push(t);
                }
                proof {
                    let s = g[jnode as int].edges;
                    assert forall|tt: int| 0 <= tt < n implies (#[trigger] in_deg@[tt]) as nat
                        + cnt(s.take(k as int + 1), g[tt].id) == indeg(g, g[tt].id, done) by {
                        if tt == t as int {
                        } else {
                            assert(g[tt].id != t_id);
                            lemma_cnt_take_succ(s, g[tt].id, k as int);
                        }
                    }
                    assert forall|tt: int| 0 <= tt < n implies ((#[trigger] in_deg@[tt]) == 0
                        <==> done.contains(tt) || (exists|m: int|
                        qi <= m < qlen && (#[trigger] queue@[m]) as int == tt)
                        || next_queue@.contains(tt as usize)) by {
                        if next_queue@.len() > prev_next.len() {
                            assert(next_queue@ == prev_next.push(t));
                            if tt == t as int {
                                assert(next_queue@[prev_next.len() as int] == t);
                                assert(next_queue@.contains(tt as usize));
                            } else {
                                if prev_next.contains(tt as usize) {
                                    let m = choose|m: int|
                                        0 <= m < prev_next.len() && prev_next[m] == tt as usize;
                                    assert(next_queue@[m] == tt as usize);
                                }
                                if next_queue@.contains(tt as usize) {
                                    let m = choose|m: int|
                                        0 <= m < next_queue@.len() && next_queue@[m]
                                            == tt as usize;
                                    assert(m < prev_next.len());
                                    assert(prev_next.contains(tt as usize));
                                }
                            }
                        }
                    }
                }
                k += 1;
            }
            // The whole node is processed: move it into `done`.
            let ghost done_new = done.insert(jnode as int);
            proof {
                let s = g[jnode as int].edges;
                assert forall|t: int| 0 <= t < n implies (#[trigger] in_deg@[t]) as nat == indeg(
                    g,
                    g[t].id,
                    done_new,
                ) by {
                    lemma_cnt_take_full(s, g[t].id);
                    lemma_indeg_upto_remove(g, g[t].id, done, jnode as int, g.len() as int);
                }
                done = done_new;
            }
            current.push(graph[jnode].id);
            qi += 1;
            proof {
                assert forall|t: int| #[trigger] done.contains(t) implies done0.contains(t)
                    || exists|m: int| 0 <= m < qi && (#[trigger] queue@[m]) as int == t by {
                    if t != jnode as int {
                        assert(done_new.remove(jnode as int).contains(t) ==> done.contains(t));
                    } else {
                        assert(queue@[qi - 1] as int == t);
                    }
                }
            }
        }
        // Emit the drained batch as one level.
        let ghost qseq = queue@;
        let ghost cur = current@;
        let ghost old_levels = levels@;
        levels.push(current);
        queue = next_queue;
        proof {
            lemma_emit_level(g, old_levels, levels@, cur, qseq, done0, done);
            lemma_int_range(0, n as int);
            lemma_len_subset(done, set_int_range(0, n as int));
            let q0 = qseq[0] as int;
            assert(done.contains(q0));
            assert(!done0.contains(q0));
            lemma_len_subset(done0.insert(q0), done);
            assert(done0.len() < done.len());
        }
    }

    // Any node still holding in-degree is part of a cycle.
    let mut j: usize = 0;
    while j < n
        invariant
            g == nodes_view(graph@),
            n == g.len(),
            distinct_ids(g),
            closed_graph(g),
            in_deg@.len() == n,
            done.finite(),
            forall|t: int| done.contains(t) ==> 0 <= t < n,
            forall|t: int|
                0 <= t < n ==> (#[trigger] in_deg@[t]) as nat == indeg(g, g[t].id, done),
            forall|t: int| 0 <= t < n ==> ((#[trigger] in_deg@[t]) == 0 <==> done.contains(t)),
            levels_state(g, levels@, done),
            j <= n,
            forall|t: int| 0 <= t < j ==> in_deg@[t] == 0,
        decreases n - j,
    {
        if in_deg[j] != 0 {
            proof {
                assert forall|t: int| 0 <= t < n && !done.contains(t) implies indeg(
                    g,
                    g[t].id,
                    done,
                ) > 0 by {
                    assert(in_deg@[t] != 0);
                }
                lemma_stuck_not_dag(g, done, j as int);
            }
            return Err(GraphError::CyclicDependency);
        }
        j += 1;
    }

    proof {
        assert forall|t: int| 0 <= t < n implies #[trigger] done.contains(t) by {
            assert(in_deg@[t] == 0);
        }
        let lv = levels.deep_view();
        assert(lv.len() == levels@.len());
        assert forall|l: int| 0 <= l < lv.len() implies (#[trigger] lv[l]) == levels@[l]@ by {
            assert(lv[l] =~= levels@[l]@);
        }
        lemma_complete_leveling(g, levels@, lv, done);
    }
    Ok(levels)
}

/// The scheduling theorem: leveling the inverted dependency graph places
/// every job id exactly once, and places every dependency at a strictly
/// earlier level than each job that depends on it.
///
/// Here `g` carries the declared `depends_on` edges, `inv` is its
/// inversion, and `levels` any leveling of `inv` that
/// [`topological_sort`] accepts.
pub proof fn lemma_schedule_respects_dependencies(
    g: Seq<NodeV>,
    inv: Seq<NodeV>,
    levels: Seq<Seq<u128>>,
)
    requires
        closed_graph(g),
        inverted_graph_of(g, inv),
        valid_leveling(inv, levels),
    ensures
        forall|x: u128| has_id(g, x) ==> appears(levels, x),
        forall|l: int, p: int|
            0 <= l < levels.len() && 0 <= p < levels[l].len() ==> has_id(
                g,
                #[trigger] levels[l][p],
            ),
        forall|l1: int, p1: int, l2: int, p2: int|
            0 <= l1 < levels.len() && 0 <= p1 < levels[l1].len() && 0 <= l2 < levels.len() && 0
                <= p2 < levels[l2].len() && !(l1 == l2 && p1 == p2) ==> (
            #[trigger] levels[l1][p1]) != (#[trigger] levels[l2][p2]),
        forall|l1: int, p1: int, l2: int, p2: int|
            0 <= l1 < levels.len() && 0 <= p1 < levels[l1].len() && 0 <= l2 < levels.len() && 0
                <= p2 < levels[l2].len() && #[trigger] has_edge(
                g,
                levels[l1][p1],
                levels[l2][p2],
            ) ==> l2 < l1,
{
    assert forall|x: u128| has_id(g, x) implies has_id(inv, x) by {
        let i = choose|i: int| 0 <= i < g.len() && (#[trigger] g[i].id) == x;
        assert(inv[i].id == x);
    }
    assert forall|x: u128| has_id(inv, x) implies has_id(g, x) by {
        let i = choose|i: int| 0 <= i < inv.len() && (#[trigger] inv[i].id) == x;
        assert(g[i].id == x);
    }
    assert forall|l1: int, p1: int, l2: int, p2: int|
        0 <= l1 < levels.len() && 0 <= p1 < levels[l1].len() && 0 <= l2 < levels.len() && 0 <= p2
            < levels[l2].len() && #[trigger] has_edge(g, levels[l1][p1], levels[l2][p2]) implies l2
        < l1 by {
        let a = levels[l1][p1];
        let b = levels[l2][p2];
        let i = choose|i: int| 0 <= i < g.len() && (#[trigger] g[i].id) == a && g[i].edges.contains(b);
        let k = choose|k: int| 0 <= k < g[i].edges.len() && g[i].edges[k] == b;
        assert(has_id(g, g[i].edges[k]));
        assert(has_id(g, b));
        assert(has_edge(inv, b, a));
        assert(has_edge(inv, levels[l2][p2], levels[l1][p1]));
    }
}

/// Edge inversion preserves acyclicity in both directions. With
/// [`topological_sort`] succeeding exactly on acyclic graphs, a dependency
/// graph holding a cycle makes leveling its inversion fail: the scheduler
/// reports the cyclical-dependency error before any job starts.
pub proof fn lemma_invert_preserves_cycles(g: Seq<NodeV>, inv: Seq<NodeV>)
    requires
        closed_graph(g),
        inverted_graph_of(g, inv),
    ensures
        is_dag(inv) <==> is_dag(g),
{
    if is_dag(inv) {
        let rank = choose|rank: spec_fn(u128) -> int| #[trigger] respects_rank(inv, rank);
        let flipped = |x: u128| -rank(x);
        assert forall|a: u128, b: u128| #[trigger] has_edge(g, a, b) implies flipped(a) < flipped(
            b,
        ) by {
            let i = choose|i: int|
                0 <= i < g.len() && (#[trigger] g[i].id) == a && g[i].edges.contains(b);
            let k = choose|k: int| 0 <= k < g[i].edges.len() && g[i].edges[k] == b;
            assert(has_id(g, g[i].edges[k]));
            assert(has_id(g, b));
            assert(has_edge(inv, b, a));
            assert(rank(b) < rank(a));
        }
        assert(respects_rank(g, flipped));
    }
    if is_dag(g) {
        let rank = choose|rank: spec_fn(u128) -> int| #[trigger] respects_rank(g, rank);
        let flipped = |x: u128| -rank(x);
        assert forall|a: u128, b: u128| #[trigger] has_edge(inv, a, b) implies flipped(a)
            < flipped(b) by {
            assert(has_edge(g, b, a));
            assert(rank(b) < rank(a));
        }
        assert(respects_rank(inv, flipped));
    }
}

/// Inverting twice restores an edge-equivalent graph: the same ids, node
/// for node, and the same edge set, for any graph whose edges all aim at
/// present ids.
pub proof fn lemma_invert_involutive(g: Seq<NodeV>, inv: Seq<NodeV>, inv2: Seq<NodeV>)
    requires
        closed_graph(g),
        inverted_graph_of(g, inv),
        inverted_graph_of(inv, inv2),
    ensures
        inv2.len() == g.len(),
        forall|i: int| 0 <= i < g.len() ==> (#[trigger] inv2[i].id) == g[i].id,
        forall|a: u128, b: u128| #[trigger] has_edge(inv2, a, b) ==> has_edge(g, a, b),
        forall|a: u128, b: u128| #[trigger] has_edge(g, a, b) ==> has_edge(inv2, a, b),
{
    assert forall|x: u128| has_id(g, x) implies has_id(inv, x) by {
        let i = choose|i: int| 0 <= i < g.len() && (#[trigger] g[i].id) == x;
        assert(inv[i].id == x);
    }
    assert forall|a: u128, b: u128| #[trigger] has_edge(g, a, b) implies has_edge(inv2, a, b) by {
        let i = choose|i: int| 0 <= i < g.len() && (#[trigger] g[i].id) == a && g[i].edges.contains(b);
        let k = choose|k: int| 0 <= k < g[i].edges.len() && g[i].edges[k] == b;
        assert(has_id(g, g[i].edges[k]));
        assert(has_id(g, b));
        assert(has_edge(inv, b, a));
        assert(has_id(g, a));
        assert(has_id(inv, a));
    }
}

} // verus!
