//! Topology generation: a directed peer graph of `n` nodes, held in a
//! `petgraph` directed graph. The graph is a ring `i -> i+1 mod n` plus up to
//! seven extra random outbound edges per node, with no self-loop and no
//! duplicate edge.
use petgraph::visit::EdgeRef;
use rand::seq::IndexedRandom;
use vstd::prelude::*;

verus! {

#[verifier::external_type_specification]
#[verifier::external_body]
#[verifier::reject_recursive_types(N)]
#[verifier::reject_recursive_types(E)]
#[verifier::reject_recursive_types(Ty)]
#[verifier::reject_recursive_types(Ix)]
pub struct ExGraph<N, E, Ty, Ix>(petgraph::graph::Graph<N, E, Ty, Ix>);

#[verifier::external_type_specification]
#[verifier::external_body]
pub struct ExDirected(petgraph::Directed);

/// How many nodes the graph store holds.
pub uninterp spec fn graph_nodes(g: petgraph::graph::DiGraph<(), ()>) -> nat;

/// The edges the graph store holds, as (source, target) index pairs in
/// insertion order.
pub uninterp spec fn graph_edges(g: petgraph::graph::DiGraph<(), ()>) -> Seq<(nat, nat)>;

/// Relies on petgraph's `Graph::new`: a fresh graph has no nodes and no edges.
#[verifier::external_body]
pub fn new_graph() -> (g: petgraph::graph::DiGraph<(), ()>)
    ensures
        graph_nodes(g) == 0,
        graph_edges(g) == Seq::<(nat, nat)>::empty(),
{
    petgraph::graph::DiGraph::new()
}

/// Relies on petgraph's `Graph::add_node`: appends one node and returns its
/// index, which is the previous node count. The bound keeps the store clear of
/// its 32-bit index limit, at which `add_node` panics.
#[verifier::external_body]
pub fn add_node(g: &mut petgraph::graph::DiGraph<(), ()>) -> (i: usize)
    requires
        graph_nodes(*old(g)) < 0xFFFF_FFFFusize,
    ensures
        i == graph_nodes(*old(g)),
        graph_nodes(*final(g)) == graph_nodes(*old(g)) + 1,
        graph_edges(*final(g)) == graph_edges(*old(g)),
{
    g.add_node(()).index()
}

/// Relies on petgraph's `Graph::add_edge`: appends the directed edge `a -> b`,
/// duplicates allowed. It panics on an unknown node index or at the 32-bit
/// edge limit, which the preconditions rule out.
#[verifier::external_body]
pub fn add_edge(g: &mut petgraph::graph::DiGraph<(), ()>, a: usize, b: usize)
    requires
        a < graph_nodes(*old(g)),
        b < graph_nodes(*old(g)),
        graph_edges(*old(g)).len() < 0xFFFF_FFFEusize,
    ensures
        graph_nodes(*final(g)) == graph_nodes(*old(g)),
        graph_edges(*final(g)) == graph_edges(*old(g)).push((a as nat, b as nat)),
{
    g.add_edge(
        petgraph::graph::NodeIndex::new(a),
        petgraph::graph::NodeIndex::new(b),
        (),
    );
}

/// Relies on petgraph's `Graph::contains_edge`: whether some edge `a -> b` is
/// in the graph.
#[verifier::external_body]
pub fn contains_edge(g: &petgraph::graph::DiGraph<(), ()>, a: usize, b: usize) -> (r: bool)
    ensures
        r == graph_edges(*g).contains((a as nat, b as nat)),
{
    g.contains_edge(petgraph::graph::NodeIndex::new(a), petgraph::graph::NodeIndex::new(b))
}

/// Relies on petgraph's `Graph::node_count`.
#[verifier::external_body]
pub fn node_count(g: &petgraph::graph::DiGraph<(), ()>) -> (r: usize)
    ensures
        r == graph_nodes(*g),
{
    g.node_count()
}

/// Relies on petgraph's `Graph::edge_references`: the edges come out in
/// insertion order; each is mapped to its plain (source, target) index pair.
#[verifier::external_body]
pub fn edge_list(g: &petgraph::graph::DiGraph<(), ()>) -> (v: Vec<(usize, usize)>)
    ensures
        v@.len() == graph_edges(*g).len(),
        forall|k: int|
            0 <= k < v@.len() ==> v@[k].0 == graph_edges(*g)[k].0 && v@[k].1 == graph_edges(
                *g,
            )[k].1,
{
    g.edge_references().map(|e| (e.source().index(), e.target().index())).collect()
}

/// Endpoints in range and no self-loop, for every edge.
pub open spec fn wf_edges(edges: Seq<(nat, nat)>, n: nat) -> bool {
    forall|k: int|
        0 <= k < edges.len() ==> (#[trigger] edges[k]).0 < n && edges[k].1 < n && edges[k].0
            != edges[k].1
}

/// No ordered pair appears twice.
pub open spec fn no_duplicate_edges(edges: Seq<(nat, nat)>) -> bool {
    forall|k1: int, k2: int|
        0 <= k1 < k2 < edges.len() ==> #[trigger] edges[k1] != #[trigger] edges[k2]
}

/// The cyclic successor of node `i` among `n` nodes.
pub open spec fn ring_next(i: nat, n: nat) -> nat {
    if i + 1 == n {
        0
    } else {
        (i + 1) as nat
    }
}

/// Every node has its ring edge `i -> i+1 mod n`.
pub open spec fn has_ring(edges: Seq<(nat, nat)>, n: nat) -> bool {
    forall|i: nat| i < n ==> edges.contains((i, ring_next(i, n)))
}

/// How many edges leave node `i`.
pub open spec fn out_degree(edges: Seq<(nat, nat)>, i: nat) -> nat
    decreases edges.len(),
{
    if edges.len() == 0 {
        0
    } else {
        out_degree(edges.drop_last(), i) + (if edges.last().0 == i {
            1nat
        } else {
            0nat
        })
    }
}

/// The out-degree the generator owes every node: `min(n - 1, 8)`, and none
/// for a graph too small for any edge.
pub open spec fn degree_target(n: nat) -> nat {
    if n < 2 {
        0
    } else if n - 1 < 8 {
        (n - 1) as nat
    } else {
        8
    }
}

/// Every ordered pair of distinct nodes is an edge.
pub open spec fn complete_digraph(edges: Seq<(nat, nat)>, n: nat) -> bool {
    forall|i: nat, j: nat| i < n && j < n && i != j ==> edges.contains((i, j))
}

/// Every node below `i` already connects to every other node.
pub open spec fn processed_complete(edges: Seq<(nat, nat)>, i: nat, n: nat) -> bool {
    forall|j: nat, t: nat| j < i && t < n && t != j ==> edges.contains((j, t))
}

/// Everything the generator promises of the edge list of a graph of `n`
/// nodes.
pub open spec fn generated_topology(edges: Seq<(nat, nat)>, n: nat) -> bool {
    &&& wf_edges(edges, n)
    &&& no_duplicate_edges(edges)
    &&& (n >= 2 ==> has_ring(edges, n))
    &&& (forall|i: nat| i < n ==> out_degree(edges, i) == degree_target(n))
    &&& (n <= 8 ==> complete_digraph(edges, n))
}

pub proof fn lemma_push_contains(s: Seq<(nat, nat)>, e: (nat, nat), x: (nat, nat))
    ensures
        s.push(e).contains(x) <==> (s.contains(x) || x == e),
{
    assert(s.push(e)[s.len() as int] == e);
    if s.contains(x) {
        let k = choose|k: int| 0 <= k < s.len() && s[k] == x;
        assert(s.push(e)[k] == x);
    }
    if s.push(e).contains(x) {
        let k = choose|k: int| 0 <= k < s.push(e).len() && s.push(e)[k] == x;
        if k < s.len() {
            assert(s[k] == x);
        }
    }
}

pub proof fn lemma_out_degree_push(s: Seq<(nat, nat)>, e: (nat, nat), i: nat)
    ensures
        out_degree(s.push(e), i) == out_degree(s, i) + (if e.0 == i {
            1nat
        } else {
            0nat
        }),
{
    assert(s.push(e).drop_last() =~= s);
    assert(s.push(e).last() == e);
}

/// An edge out of `i` at some index forces out-degree at least one.
pub proof fn lemma_out_edge_degree(s: Seq<(nat, nat)>, i: nat, k: int)
    requires
        0 <= k < s.len(),
        s[k].0 == i,
    ensures
        out_degree(s, i) >= 1,
    decreases s.len(),
{
    if k == s.len() - 1 {
        assert(s.last().0 == i);
    } else {
        assert(s.drop_last()[k] == s[k]);
        lemma_out_edge_degree(s.drop_last(), i, k);
    }
}

/// Two edges out of `i` at distinct indices force out-degree at least two.
pub proof fn lemma_two_out_edges(s: Seq<(nat, nat)>, i: nat, k1: int, k2: int)
    requires
        0 <= k1 < k2 < s.len(),
        s[k1].0 == i,
        s[k2].0 == i,
    ensures
        out_degree(s, i) >= 2,
    decreases s.len(),
{
    if k2 == s.len() - 1 {
        assert(s.last().0 == i);
        assert(s.drop_last()[k1] == s[k1]);
        lemma_out_edge_degree(s.drop_last(), i, k1);
    } else {
        assert(s.drop_last()[k1] == s[k1]);
        assert(s.drop_last()[k2] == s[k2]);
        lemma_two_out_edges(s.drop_last(), i, k1, k2);
    }
}

/// A node of out-degree one has a single out-neighbour.
pub proof fn lemma_unique_out_edge(s: Seq<(nat, nat)>, i: nat, a: nat, b: nat)
    requires
        out_degree(s, i) <= 1,
        s.contains((i, a)),
        s.contains((i, b)),
    ensures
        a == b,
{
    if a != b {
        let k1 = choose|k: int| 0 <= k < s.len() && s[k] == (i, a);
        let k2 = choose|k: int| 0 <= k < s.len() && s[k] == (i, b);
        if k1 < k2 {
            lemma_two_out_edges(s, i, k1, k2);
        } else {
            lemma_two_out_edges(s, i, k2, k1);
        }
    }
}

/// Whether `b` can be reached from `a` along directed edges in at most
/// `fuel` steps.
pub open spec fn reaches(edges: Seq<(nat, nat)>, a: nat, b: nat, fuel: nat) -> bool
    decreases fuel,
{
    a == b || (fuel > 0 && exists|m: nat|
        edges.contains((a, m)) && reaches(edges, m, b, (fuel - 1) as nat))
}

/// Steps forward along the ring from `a` to `b`.
pub open spec fn ring_dist(a: nat, b: nat, n: nat) -> nat {
    if a <= b {
        (b - a) as nat
    } else {
        (n - a + b) as nat
    }
}

proof fn lemma_ring_reaches(edges: Seq<(nat, nat)>, n: nat, a: nat, b: nat, fuel: nat)
    requires
        n >= 2,
        a < n,
        b < n,
        has_ring(edges, n),
        fuel >= ring_dist(a, b, n),
    ensures
        reaches(edges, a, b, fuel),
    decreases ring_dist(a, b, n),
{
    if a != b {
        let rn = ring_next(a, n);
        assert(ring_dist(rn, b, n) == ring_dist(a, b, n) - 1);
        lemma_ring_reaches(edges, n, rn, b, (fuel - 1) as nat);
        assert(edges.contains((a, rn)));
        assert(reaches(edges, rn, b, (fuel - 1) as nat));
    }
}

/// Law: a generated topology on `n >= 1` nodes is connected: every node
/// reaches every other node along directed edges, in at most `n` steps,
/// thanks to the mandatory ring.
pub proof fn lemma_generated_connected(edges: Seq<(nat, nat)>, n: nat, a: nat, b: nat)
    requires
        generated_topology(edges, n),
        1 <= n,
        a < n,
        b < n,
    ensures
        reaches(edges, a, b, n),
{
    if n >= 2 {
        lemma_ring_reaches(edges, n, a, b, n);
    }
}

/// The chain edges `0 -> 1, ..., m-1 -> m`.
pub open spec fn ring_prefix(m: nat) -> Seq<(nat, nat)> {
    Seq::new(m, |k: int| (k as nat, (k + 1) as nat))
}

/// The full ring on `n >= 2` nodes: the chain plus the closing edge.
pub open spec fn ring_edges(n: nat) -> Seq<(nat, nat)> {
    ring_prefix((n - 1) as nat).push((((n - 1) as nat), 0nat))
}

proof fn lemma_ring_prefix_degree(m: nat, i: nat)
    ensures
        out_degree(ring_prefix(m), i) == if i < m {
            1nat
        } else {
            0nat
        },
    decreases m,
{
    if m > 0 {
        assert(ring_prefix(m).drop_last() =~= ring_prefix((m - 1) as nat));
        assert(ring_prefix(m).last() == ((m - 1) as nat, m));
        lemma_ring_prefix_degree((m - 1) as nat, i);
    }
}

proof fn lemma_ring_edges_props(n: nat)
    requires
        n >= 2,
    ensures
        ring_edges(n).len() == n,
        wf_edges(ring_edges(n), n),
        no_duplicate_edges(ring_edges(n)),
        has_ring(ring_edges(n), n),
        forall|j: nat|
            #[trigger] out_degree(ring_edges(n), j) == if j < n {
                1nat
            } else {
                0nat
            },
{
    let r = ring_edges(n);
    assert forall|k: int| 0 <= k < r.len() implies (#[trigger] r[k]).0 < n && r[k].1 < n
        && r[k].0 != r[k].1 by {
        if k < n - 1 {
            assert(r[k] == (k as nat, (k + 1) as nat));
        } else {
            assert(r[k] == (((n - 1) as nat), 0nat));
        }
    }
    assert forall|k1: int, k2: int| 0 <= k1 < k2 < r.len() implies #[trigger] r[k1]
        != #[trigger] r[k2] by {
        assert(r[k1].0 == k1 as nat);
        assert(r[k2].0 == k2 as nat);
    }
    assert forall|i: nat| i < n implies r.contains((i, ring_next(i, n))) by {
        if i < n - 1 {
            assert(r[i as int] == (i, (i + 1) as nat));
            assert(ring_next(i, n) == (i + 1) as nat);
        } else {
            assert(r[(n - 1) as int] == (i, 0nat));
            assert(ring_next(i, n) == 0nat);
        }
    }
    assert forall|j: nat|
        #[trigger] out_degree(r, j) == (if j < n {
            1nat
        } else {
            0nat
        }) by {
        lemma_ring_prefix_degree((n - 1) as nat, j);
        lemma_out_degree_push(ring_prefix((n - 1) as nat), (((n - 1) as nat), 0nat), j);
    }
}

/// Relies on rand's `IndexedRandom::choose` with the thread-local generator:
/// `None` on an empty slice, otherwise some element of it. Which element comes
/// back is random, so nothing more is promised.
#[verifier::external_body]
fn choose_one(v: &Vec<usize>) -> (r: Option<usize>)
    ensures
        match r {
            Some(x) => v@.contains(x),
            None => v@.len() == 0,
        },
{
    v.as_slice().choose(&mut rand::rng()).copied()
}

/// All nodes that `i` may still connect to: everything but `i` itself and its
/// single existing out-neighbour, the ring successor.
fn collect_candidates(g: &petgraph::graph::DiGraph<(), ()>, i: usize, n: usize) -> (cand: Vec<
    usize,
>)
    requires
        graph_nodes(*g) == n,
        n >= 2,
        i < n,
        out_degree(graph_edges(*g), i as nat) == 1,
        graph_edges(*g).contains((i as nat, ring_next(i as nat, n as nat))),
    ensures
        cand@.len() == n - 2,
        forall|k: int|
            0 <= k < cand@.len() ==> (#[trigger] cand@[k]) < n && cand@[k] != i && !graph_edges(
                *g,
            ).contains((i as nat, cand@[k] as nat)),
        forall|k1: int, k2: int|
            0 <= k1 < k2 < cand@.len() ==> #[trigger] cand@[k1] != #[trigger] cand@[k2],
        forall|t: usize|
            t < n && t != i ==> (cand@.contains(t) || graph_edges(*g).contains(
                (i as nat, t as nat),
            )),
{
    let ghost rn: nat = ring_next(i as nat, n as nat);
    let mut cand: Vec<usize> = Vec::new();
    let mut t: usize = 0;
    while t < n
        invariant
            t <= n,
            n >= 2,
            i < n,
            graph_nodes(*g) == n,
            rn == ring_next(i as nat, n as nat),
            out_degree(graph_edges(*g), i as nat) == 1,
            graph_edges(*g).contains((i as nat, rn)),
            cand@.len() as int == t - (if i < t {
                1int
            } else {
                0int
            }) - (if rn < t {
                1int
            } else {
                0int
            }),
            forall|k: int| 0 <= k < cand@.len() ==> (#[trigger] cand@[k]) < t,
            forall|k: int|
                0 <= k < cand@.len() ==> (#[trigger] cand@[k]) != i && !graph_edges(*g).contains(
                    (i as nat, cand@[k] as nat),
                ),
            forall|k1: int, k2: int|
                0 <= k1 < k2 < cand@.len() ==> #[trigger] cand@[k1] != #[trigger] cand@[k2],
            forall|u: usize|
                u < t && u != i ==> (cand@.contains(u) || graph_edges(*g).contains(
                    (i as nat, u as nat),
                )),
        decreases n - t,
    {
        let ghost old_cand = cand@;
        let b = contains_edge(g, i, t);
        if t != i && !b {
            cand.push(t);
            proof {
                assert(cand@.drop_last() =~= old_cand);
                assert forall|u: usize|
                    u < t + 1 && u != i implies (cand@.contains(u) || graph_edges(*g).contains(
                        (i as nat, u as nat),
                    )) by {
                    if u < t {
                        if old_cand.contains(u) {
                            let k = choose|k: int| 0 <= k < old_cand.len() && old_cand[k] == u;
                            assert(cand@[k] == u);
                        }
                    } else {
                        assert(cand@.last() == t);
                    }
                }
                assert(t as nat != rn);
            }
        } else {
            proof {
                if t != i {
                    assert(graph_edges(*g).contains((i as nat, t as nat)));
                    lemma_unique_out_edge(graph_edges(*g), i as nat, t as nat, rn);
                    assert(t as nat == rn);
                }
            }
        }
        t += 1;
    }
    proof {
        assert(i < n);
        assert(rn < n) by {
            assert(ring_next(i as nat, n as nat) < n);
        }
        assert(rn != i as nat);
    }
    cand
}

/// Removes the one occurrence of `x` from a duplicate-free vector.
fn remove_value(v: &mut Vec<usize>, x: usize)
    requires
        old(v)@.contains(x),
        forall|k1: int, k2: int|
            0 <= k1 < k2 < old(v)@.len() ==> #[trigger] old(v)@[k1] != #[trigger] old(v)@[k2],
    ensures
        final (v)@.len() == old(v)@.len() - 1,
        !final (v)@.contains(x),
        forall|y: usize| y != x ==> (final (v)@.contains(y) <==> old(v)@.contains(y)),
        forall|k: int| 0 <= k < final (v)@.len() ==> old(v)@.contains(#[trigger] final (v)@[k]),
        forall|k1: int, k2: int|
            0 <= k1 < k2 < final (v)@.len() ==> #[trigger] final (v)@[k1]
                != #[trigger] final (v)@[k2],
{
    let ghost orig = v@;
    let mut k: usize = 0;
    while k < v.len() && v[k] != x
        invariant
            v@ == orig,
            k <= orig.len(),
            orig.contains(x),
            forall|j: int| 0 <= j < k ==> orig[j] != x,
        decreases orig.len() - k,
    {
        k += 1;
    }
    proof {
        if k == orig.len() {
            let w = choose|w: int| 0 <= w < orig.len() && orig[w] == x;
            assert(false);
        }
    }
    v.remove(k);
    proof {
        let r = v@;
        assert(r =~= orig.subrange(0, k as int) + orig.subrange(k + 1, orig.len() as int));
        assert forall|j: int| 0 <= j < r.len() implies orig.contains(#[trigger] r[j]) by {
            if j < k {
                assert(r[j] == orig[j]);
            } else {
                assert(r[j] == orig[j + 1]);
            }
        }
        assert forall|j: int| 0 <= j < r.len() implies r[j] != x by {
            if j < k {
                assert(r[j] == orig[j]);
            } else {
                assert(r[j] == orig[j + 1]);
                assert(orig[k as int] == x);
            }
        }
        if r.contains(x) {
            let j = choose|j: int| 0 <= j < r.len() && r[j] == x;
            assert(false);
        }
        assert forall|y: usize| y != x implies (r.contains(y) <==> orig.contains(y)) by {
            if r.contains(y) {
                let j = choose|j: int| 0 <= j < r.len() && r[j] == y;
                if j < k {
                    assert(orig[j] == y);
                } else {
                    assert(orig[j + 1] == y);
                }
            }
            if orig.contains(y) {
                let j = choose|j: int| 0 <= j < orig.len() && orig[j] == y;
                if j < k {
                    assert(r[j] == y);
                } else if j > k {
                    assert(r[j - 1] == y);
                } else {
                    assert(y == x);
                }
            }
        }
        assert forall|k1: int, k2: int| 0 <= k1 < k2 < r.len() implies #[trigger] r[k1]
            != #[trigger] r[k2] by {
            let o1: int = if k1 < k { k1 } else { k1 + 1 };
            let o2: int = if k2 < k { k2 } else { k2 + 1 };
            assert(r[k1] == orig[o1]);
            assert(r[k2] == orig[o2]);
        }
    }
}

/// Builds the peer topology: `number` nodes, the ring `i -> i+1 mod number`,
/// and up to seven extra random outbound edges per node towards distinct,
/// not yet connected targets. No self-loop, no duplicate edge, and every
/// node's out-degree is exactly `min(number - 1, 8)`.
///
/// The bound on `number` keeps the graph store clear of its 32-bit node and
/// edge index limits.
pub fn create_graph(number: usize) -> (g: petgraph::graph::DiGraph<(), ()>)
    requires
        number <= 0x0FFF_FFFF,
    ensures
        graph_nodes(g) == number,
        generated_topology(graph_edges(g), number as nat),
{
    let n = number;
    let mut g = new_graph();
    let mut i: usize = 0;
    while i < n
        invariant
            i <= n,
            n <= 0x0FFF_FFFF,
            graph_nodes(g) == i,
            graph_edges(g) == Seq::<(nat, nat)>::empty(),
        decreases n - i,
    {
        add_node(&mut g);
        i += 1;
    }
    if n < 2 {
        return g;
    }
    let mut i: usize = 0;
    while i + 1 < n
        invariant
            2 <= n <= 0x0FFF_FFFF,
            i <= n - 1,
            graph_nodes(g) == n,
            graph_edges(g) == ring_prefix(i as nat),
        decreases n - i,
    {
        let ghost pre = graph_edges(g);
        add_edge(&mut g, i, i + 1);
        proof {
            assert(graph_edges(g) =~= ring_prefix((i + 1) as nat));
        }
        i += 1;
    }
    add_edge(&mut g, n - 1, 0);
    proof {
        assert(graph_edges(g) =~= ring_edges(n as nat));
        lemma_ring_edges_props(n as nat);
    }
    let mut i: usize = 0;
    while i < n
        invariant
            2 <= n <= 0x0FFF_FFFF,
            i <= n,
            graph_nodes(g) == n,
            graph_edges(g).len() <= n + 8 * i,
            wf_edges(graph_edges(g), n as nat),
            no_duplicate_edges(graph_edges(g)),
            has_ring(graph_edges(g), n as nat),
            forall|j: nat|
                j < i as nat ==> #[trigger] out_degree(graph_edges(g), j) == degree_target(
                    n as nat,
                ),
            forall|j: nat|
                i as nat <= j < n as nat ==> #[trigger] out_degree(graph_edges(g), j) == 1,
            n <= 8 ==> processed_complete(graph_edges(g), i as nat, n as nat),
        decreases n - i,
    {
        let ghost snap = graph_edges(g);
        let cand0 = collect_candidates(&g, i, n);
        let mut cand = cand0;
        let ghost c0: nat = cand@.len() as nat;
        let mut d: usize = 0;
        while d < 7
            invariant
                2 <= n <= 0x0FFF_FFFF,
                i < n,
                d <= 7,
                graph_nodes(g) == n,
                snap.len() <= n + 8 * i,
                c0 == n - 2,
                cand@.len() as int == (if c0 >= d as nat {
                    c0 - d
                } else {
                    0int
                }),
                graph_edges(g).len() as int == snap.len() + c0 - cand@.len(),
                wf_edges(graph_edges(g), n as nat),
                no_duplicate_edges(graph_edges(g)),
                has_ring(graph_edges(g), n as nat),
                out_degree(graph_edges(g), i as nat) as int == 1 + c0 - cand@.len(),
                forall|j: nat|
                    j < i as nat ==> #[trigger] out_degree(graph_edges(g), j) == degree_target(
                        n as nat,
                    ),
                forall|j: nat|
                    (i as nat) < j < n as nat ==> #[trigger] out_degree(graph_edges(g), j) == 1,
                forall|k: int|
                    0 <= k < cand@.len() ==> (#[trigger] cand@[k]) < n && cand@[k] != i
                        && !graph_edges(g).contains((i as nat, cand@[k] as nat)),
                forall|k1: int, k2: int|
                    0 <= k1 < k2 < cand@.len() ==> #[trigger] cand@[k1] != #[trigger] cand@[k2],
                forall|t: usize|
                    t < n && t != i ==> (cand@.contains(t) || graph_edges(g).contains(
                        (i as nat, t as nat),
                    )),
                n <= 8 ==> processed_complete(graph_edges(g), i as nat, n as nat),
            decreases 7 - d,
        {
            match choose_one(&cand) {
                Some(c) => {
                    proof {
                        let k = choose|k: int| 0 <= k < cand@.len() && cand@[k] == c;
                        assert(c < n && c != i && !graph_edges(g).contains((i as nat, c as nat)));
                    }
                    let ghost oldc = cand@;
                    remove_value(&mut cand, c);
                    let ghost pre = graph_edges(g);
                    add_edge(&mut g, i, c);
                    proof {
                        let e = (i as nat, c as nat);
                        let cur = graph_edges(g);
                        assert(cur == pre.push(e));
                        assert(cur.last() == e);
                        assert forall|k: int|
                            0 <= k < cur.len() implies (#[trigger] cur[k]).0 < n as nat
                            && cur[k].1 < n as nat && cur[k].0 != cur[k].1 by {
                            if k < pre.len() {
                                assert(cur[k] == pre[k]);
                            } else {
                                assert(cur[k] == e);
                            }
                        }
                        assert forall|k1: int, k2: int|
                            0 <= k1 < k2 < cur.len() implies #[trigger] cur[k1]
                            != #[trigger] cur[k2] by {
                            if k2 < pre.len() {
                                assert(cur[k1] == pre[k1] && cur[k2] == pre[k2]);
                            } else {
                                assert(cur[k1] == pre[k1] && cur[k2] == e);
                                if pre[k1] == e {
                                    assert(pre.contains(e));
                                }
                            }
                        }
                        assert forall|j: nat|
                            j < n as nat implies #[trigger] cur.contains(
                            (j, ring_next(j, n as nat)),
                        ) by {
                            lemma_push_contains(pre, e, (j, ring_next(j, n as nat)));
                        }
                        lemma_out_degree_push(pre, e, i as nat);
                        assert forall|j: nat|
                            j < n as nat && j != i as nat implies #[trigger] out_degree(cur, j)
                            == out_degree(pre, j) by {
                            lemma_out_degree_push(pre, e, j);
                        }
                        assert forall|k: int|
                            0 <= k < cand@.len() implies (#[trigger] cand@[k]) < n && cand@[k] != i
                            && !cur.contains((i as nat, cand@[k] as nat)) by {
                            let y = cand@[k];
                            assert(oldc.contains(y));
                            let j = choose|j: int| 0 <= j < oldc.len() && oldc[j] == y;
                            assert(y < n && y != i && !pre.contains((i as nat, y as nat)));
                            assert(y != c);
                            lemma_push_contains(pre, e, (i as nat, y as nat));
                        }
                        assert forall|t: usize|
                            t < n && t != i implies (#[trigger] cand@.contains(t) || cur.contains(
                            (i as nat, t as nat),
                        )) by {
                            lemma_push_contains(pre, e, (i as nat, t as nat));
                            if t != c && !pre.contains((i as nat, t as nat)) {
                                assert(oldc.contains(t));
                                assert(cand@.contains(t));
                            }
                        }
                        if n <= 8 {
                            assert forall|j: nat, t: nat|
                                j < i as nat && t < n as nat && t != j implies #[trigger] cur.contains(
                                (j, t),
                            ) by {
                                lemma_push_contains(pre, e, (j, t));
                            }
                        }
                    }
                }
                None => {
                    proof {
                        assert(cand@.len() == 0);
                    }
                }
            }
            d += 1;
        }
        proof {
            let cur = graph_edges(g);
            if c0 >= 7 {
                assert(out_degree(cur, i as nat) == 8);
                assert(degree_target(n as nat) == 8);
            } else {
                assert(cand@.len() == 0);
                assert(out_degree(cur, i as nat) as int == 1 + c0);
                assert(degree_target(n as nat) as int == n - 1);
            }
            assert(out_degree(cur, i as nat) == degree_target(n as nat));
            if n <= 8 {
                assert(cand@.len() == 0);
                assert forall|j: nat, t: nat|
                    j < (i + 1) as nat && t < n as nat && t != j implies #[trigger] cur.contains(
                    (j, t),
                ) by {
                    if j == i as nat {
                        let tu: usize = t as usize;
                        assert(tu < n && tu != i);
                        assert(cand@.contains(tu) || cur.contains((i as nat, tu as nat)));
                        if cand@.contains(tu) {
                            let k = choose|k: int| 0 <= k < cand@.len() && cand@[k] == tu;
                            assert(false);
                        }
                        assert((i as nat, tu as nat) == (j, t));
                    }
                }
                assert(processed_complete(cur, (i + 1) as nat, n as nat));
            }
        }
        i += 1;
    }
    g
}

} // verus!
