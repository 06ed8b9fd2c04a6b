//! Knowledge graph operations for analyzing note connections.
//!
//! The graph is a petgraph `DiGraph` with one node per note (weighted by the
//! note's name) and one edge per link between two different existing notes.
//! It provides backlinks, outgoing links, degrees, orphans and hubs.

pub mod rank;

use vstd::prelude::*;
use petgraph::graph::{DiGraph, Graph, NodeIndex};
use petgraph::{Directed, Direction};
use crate::text::{strs, to_lowercase};
use crate::vault::note::{Note, NoteView, WikiLinkView};
use crate::vault::{Vault, distinct_keys, find_note, has_key, key_of, lemma_find_note_unique};
use rank::{lemma_rank_before, lemma_ranked, ranked, stable_order_desc};

verus! {

#[verifier::external_type_specification]
#[verifier::external_body]
#[verifier::reject_recursive_types(N)]
#[verifier::reject_recursive_types(E)]
#[verifier::reject_recursive_types(Ty)]
#[verifier::reject_recursive_types(Ix)]
pub struct ExGraph<N, E, Ty, Ix>(Graph<N, E, Ty, Ix>);

#[verifier::external_type_specification]
#[verifier::external_body]
pub struct ExDirected(Directed);

/// The node weights of a petgraph graph, by node index.
pub uninterp spec fn graph_nodes(g: Graph<String, (), Directed, u32>) -> Seq<Seq<char>>;

/// The edges of a petgraph graph, as (source, target) node indices, in the
/// order they were added.
pub uninterp spec fn graph_edges(g: Graph<String, (), Directed, u32>) -> Seq<(usize, usize)>;

/// Targets of the edges from `a`, the most recently added first.
pub open spec fn out_neighbors(edges: Seq<(usize, usize)>, a: usize) -> Seq<usize>
    decreases edges.len(),
{
    if edges.len() == 0 {
        Seq::empty()
    } else {
        let rest = out_neighbors(edges.drop_last(), a);
        if edges.last().0 == a {
            seq![edges.last().1] + rest
        } else {
            rest
        }
    }
}

/// Sources of the edges to `a`, the most recently added first.
pub open spec fn in_neighbors(edges: Seq<(usize, usize)>, a: usize) -> Seq<usize>
    decreases edges.len(),
{
    if edges.len() == 0 {
        Seq::empty()
    } else {
        let rest = in_neighbors(edges.drop_last(), a);
        if edges.last().1 == a {
            seq![edges.last().0] + rest
        } else {
            rest
        }
    }
}

/// Sources of the edges to `a` other than self-loops, the most recently added first.
pub open spec fn in_neighbors_no_loops(edges: Seq<(usize, usize)>, a: usize) -> Seq<usize>
    decreases edges.len(),
{
    if edges.len() == 0 {
        Seq::empty()
    } else {
        let rest = in_neighbors_no_loops(edges.drop_last(), a);
        if edges.last().1 == a && edges.last().0 != a {
            seq![edges.last().0] + rest
        } else {
            rest
        }
    }
}

/// Neighbors of `a` in either direction: outgoing first, then incoming.
pub open spec fn all_neighbors(edges: Seq<(usize, usize)>, a: usize) -> Seq<usize> {
    out_neighbors(edges, a) + in_neighbors_no_loops(edges, a)
}

/// `DiGraph::new`: an empty graph.
#[verifier::external_body]
fn graph_new() -> (g: DiGraph<String, ()>)
    ensures
        graph_nodes(g) == Seq::<Seq<char>>::empty(),
        graph_edges(g) == Seq::<(usize, usize)>::empty(),
{
    DiGraph::new()
}

/// `Graph::add_node`: the new node gets the next index (it panics when the
/// `u32` indices are exhausted, which `requires` rules out).
#[verifier::external_body]
fn graph_add_node(g: &mut DiGraph<String, ()>, name: String) -> (i: usize)
    requires
        graph_nodes(*old(g)).len() < u32::MAX,
    ensures
        i == graph_nodes(*old(g)).len(),
        graph_nodes(*final(g)) == graph_nodes(*old(g)).push(name@),
        graph_edges(*final(g)) == graph_edges(*old(g)),
{
    g.add_node(name).index()
}

/// `Graph::add_edge`: appends an edge between two existing nodes (it panics
/// on a missing node or exhausted `u32` indices, which `requires` rules out).
#[verifier::external_body]
fn graph_add_edge(g: &mut DiGraph<String, ()>, a: usize, b: usize)
    requires
        a < graph_nodes(*old(g)).len(),
        b < graph_nodes(*old(g)).len(),
        graph_edges(*old(g)).len() < u32::MAX,
    ensures
        graph_nodes(*final(g)) == graph_nodes(*old(g)),
        graph_edges(*final(g)) == graph_edges(*old(g)).push((a, b)),
{
    g.add_edge(NodeIndex::new(a), NodeIndex::new(b), ());
}

/// `Graph::node_count`.
#[verifier::external_body]
fn graph_node_count(g: &DiGraph<String, ()>) -> (n: usize)
    ensures
        n == graph_nodes(*g).len(),
{
    g.node_count()
}

/// `Graph::edge_count`.
#[verifier::external_body]
fn graph_edge_count(g: &DiGraph<String, ()>) -> (n: usize)
    ensures
        n == graph_edges(*g).len(),
{
    g.edge_count()
}

/// The weight of a node (`graph[index]`), cloned.
#[verifier::external_body]
fn graph_node_weight(g: &DiGraph<String, ()>, i: usize) -> (w: String)
    requires
        i < graph_nodes(*g).len(),
    ensures
        w@ == graph_nodes(*g)[i as int],
{
    g[NodeIndex::new(i)].clone()
}

/// Direction of the neighbors to list.
pub enum NeighborDirection {
    Outgoing,
    Incoming,
}

/// `Graph::neighbors_directed` on a directed graph: as its documentation and
/// source give, the edges from (or to) the node, the most recently added first.
#[verifier::external_body]
fn graph_neighbors_directed(g: &DiGraph<String, ()>, a: usize, dir: NeighborDirection) -> (r: Vec<usize>)
    requires
        a < graph_nodes(*g).len(),
    ensures
        r@ == match dir {
            NeighborDirection::Outgoing => out_neighbors(graph_edges(*g), a),
            NeighborDirection::Incoming => in_neighbors(graph_edges(*g), a),
        },
{
    let d = match dir {
        NeighborDirection::Outgoing => Direction::Outgoing,
        NeighborDirection::Incoming => Direction::Incoming,
    };
    g.neighbors_directed(NodeIndex::new(a), d).map(|n| n.index()).collect()
}

/// `Graph::neighbors_undirected`: as its documentation and source give, the
/// outgoing neighbors, then the incoming ones (self-loops not repeated), each
/// the most recently added first.
#[verifier::external_body]
fn graph_neighbors_undirected(g: &DiGraph<String, ()>, a: usize) -> (r: Vec<usize>)
    requires
        a < graph_nodes(*g).len(),
    ensures
        r@ == all_neighbors(graph_edges(*g), a),
{
    g.neighbors_undirected(NodeIndex::new(a)).map(|n| n.index()).collect()
}

/// Edges contributed by links `links` of note `i` of `ns`: one to each
/// existing other note that a link with a non-empty target names.
pub open spec fn link_edges(ns: Seq<NoteView>, i: int, links: Seq<WikiLinkView>) -> Seq<(usize, usize)>
    decreases links.len(),
{
    if links.len() == 0 {
        Seq::empty()
    } else {
        let rest = link_edges(ns, i, links.drop_last());
        let l = links.last();
        match find_note(ns, key_of(l.target)) {
            Some(j) => if l.target.len() > 0 && j != i {
                rest.push((i as usize, j as usize))
            } else {
                rest
            },
            None => rest,
        }
    }
}

/// The edges of the graph of the first `k` notes of `ns`, note by note.
pub open spec fn edges_of(ns: Seq<NoteView>, k: int) -> Seq<(usize, usize)>
    decreases k,
{
    if k <= 0 {
        Seq::empty()
    } else {
        edges_of(ns, k - 1) + link_edges(ns, k - 1, ns[k - 1].links)
    }
}

/// The position of the name with lookup key `key` in a list of names.
pub open spec fn find_name(names: Seq<Seq<char>>, key: Seq<char>) -> Option<int> {
    if exists|i: int| 0 <= i < names.len() && key_of(#[trigger] names[i]) == key {
        Some(choose|i: int| 0 <= i < names.len() && key_of(#[trigger] names[i]) == key)
    } else {
        None
    }
}

/// No two names share a lookup key.
pub open spec fn distinct_names(names: Seq<Seq<char>>) -> bool {
    forall|i: int, j: int|
        0 <= i < names.len() && 0 <= j < names.len() && i != j ==> key_of(#[trigger] names[i])
            != key_of(#[trigger] names[j])
}

/// With distinct keys, the name found for a key is the one that has it.
proof fn lemma_find_name_unique(names: Seq<Seq<char>>, key: Seq<char>, i: int)
    requires
        distinct_names(names),
        0 <= i < names.len(),
        key_of(names[i]) == key,
    ensures
        find_name(names, key) == Some(i),
{
    let k = choose|k: int| 0 <= k < names.len() && key_of(#[trigger] names[k]) == key;
    assert(key_of(names[k]) == key);
    if k != i {
        assert(key_of(names[k]) != key_of(names[i]));
    }
}

/// Degree of node `i`: its neighbors in either direction, with repeats.
pub open spec fn degree_of(edges: Seq<(usize, usize)>, i: int) -> nat {
    all_neighbors(edges, i as usize).len()
}

/// The degrees of all nodes.
pub open spec fn degrees(n: nat, edges: Seq<(usize, usize)>) -> Seq<usize> {
    Seq::new(n, |i: int| degree_of(edges, i) as usize)
}

/// Names of the nodes among the first `k` without neighbors, in node order.
pub open spec fn orphans_upto(names: Seq<Seq<char>>, edges: Seq<(usize, usize)>, k: int) -> Seq<Seq<char>>
    decreases k,
{
    if k <= 0 {
        Seq::empty()
    } else if degree_of(edges, k - 1) == 0 {
        orphans_upto(names, edges, k - 1).push(names[k - 1])
    } else {
        orphans_upto(names, edges, k - 1)
    }
}

/// The hubs: up to `limit` nodes in the stable order of descending degree,
/// each with its degree.
pub open spec fn hub_list(names: Seq<Seq<char>>, edges: Seq<(usize, usize)>, limit: nat) -> Seq<(Seq<char>, usize)> {
    let ds = degrees(names.len(), edges);
    let m = if limit < names.len() { limit } else { names.len() };
    Seq::new(m, |p: int| (names[ranked(ds, p)], ds[ranked(ds, p)]))
}

/// The views of (name, count) pairs.
pub open spec fn pair_views(v: Seq<(String, usize)>) -> Seq<(Seq<char>, usize)> {
    v.map_values(|x: (String, usize)| (x.0@, x.1))
}

/// The hubs come in order of descending degree, and hubs of equal degree
/// in node order.
pub proof fn lemma_hubs_ordered(names: Seq<Seq<char>>, edges: Seq<(usize, usize)>, limit: nat, p: int, q: int)
    requires
        0 <= p < q < hub_list(names, edges, limit).len(),
    ensures
        hub_list(names, edges, limit)[p].1 >= hub_list(names, edges, limit)[q].1,
        hub_list(names, edges, limit)[p].1 == hub_list(names, edges, limit)[q].1 ==> ranked(
            degrees(names.len(), edges),
            p,
        ) < ranked(degrees(names.len(), edges), q),
{
    let ds = degrees(names.len(), edges);
    lemma_ranked(ds, p);
    lemma_ranked(ds, q);
    let i = ranked(ds, p);
    let j = ranked(ds, q);
    if ds[j] > ds[i] || (ds[j] == ds[i] && j < i) {
        lemma_rank_before(ds, j, i);
    }
}

/// The names of a sequence of node indices.
pub open spec fn names_at(names: Seq<Seq<char>>, idx: Seq<usize>) -> Seq<Seq<char>> {
    idx.map_values(|k: usize| names[k as int])
}

/// The targets of edges between nodes below `n` are below `n`.
proof fn lemma_out_neighbors_in_range(edges: Seq<(usize, usize)>, a: usize, n: nat)
    requires
        forall|e: int| 0 <= e < edges.len() ==> (#[trigger] edges[e]).0 < n && edges[e].1 < n,
    ensures
        forall|p: int| 0 <= p < out_neighbors(edges, a).len() ==> (#[trigger] out_neighbors(edges, a)[p]) < n,
    decreases edges.len(),
{
    if edges.len() > 0 {
        assert forall|e: int| 0 <= e < edges.drop_last().len() implies (#[trigger] edges.drop_last()[e]).0 < n
            && edges.drop_last()[e].1 < n by {
            assert(edges.drop_last()[e] == edges[e]);
        }
        lemma_out_neighbors_in_range(edges.drop_last(), a, n);
        assert(edges.last() == edges[edges.len() - 1]);
        let rest = out_neighbors(edges.drop_last(), a);
        if edges.last().0 == a {
            assert forall|p: int| 0 <= p < out_neighbors(edges, a).len() implies (#[trigger] out_neighbors(edges, a)[p]) < n by {
                if p > 0 {
                    assert(out_neighbors(edges, a)[p] == rest[p - 1]);
                }
            }
        }
    }
}

/// The sources of edges between nodes below `n` are below `n`.
proof fn lemma_in_neighbors_in_range(edges: Seq<(usize, usize)>, a: usize, n: nat)
    requires
        forall|e: int| 0 <= e < edges.len() ==> (#[trigger] edges[e]).0 < n && edges[e].1 < n,
    ensures
        forall|p: int| 0 <= p < in_neighbors(edges, a).len() ==> (#[trigger] in_neighbors(edges, a)[p]) < n,
    decreases edges.len(),
{
    if edges.len() > 0 {
        assert forall|e: int| 0 <= e < edges.drop_last().len() implies (#[trigger] edges.drop_last()[e]).0 < n
            && edges.drop_last()[e].1 < n by {
            assert(edges.drop_last()[e] == edges[e]);
        }
        lemma_in_neighbors_in_range(edges.drop_last(), a, n);
        assert(edges.last() == edges[edges.len() - 1]);
        let rest = in_neighbors(edges.drop_last(), a);
        if edges.last().1 == a {
            assert forall|p: int| 0 <= p < in_neighbors(edges, a).len() implies (#[trigger] in_neighbors(edges, a)[p]) < n by {
                if p > 0 {
                    assert(in_neighbors(edges, a)[p] == rest[p - 1]);
                }
            }
        }
    }
}

/// A node is among the sources of edges to `a` exactly when such an edge exists.
proof fn lemma_in_neighbors_contains(edges: Seq<(usize, usize)>, a: usize, b: usize)
    ensures
        in_neighbors(edges, a).contains(b) <==> exists|e: int| 0 <= e < edges.len() && #[trigger] edges[e] == (b, a),
    decreases edges.len(),
{
    if edges.len() > 0 {
        let rest = edges.drop_last();
        lemma_in_neighbors_contains(rest, a, b);
        let r = in_neighbors(rest, a);
        if in_neighbors(edges, a).contains(b) {
            if edges.last().1 == a {
                let k = choose|k: int| 0 <= k < in_neighbors(edges, a).len() && in_neighbors(edges, a)[k] == b;
                if k == 0 {
                    assert(edges[edges.len() - 1] == (b, a));
                } else {
                    assert(r[k - 1] == b);
                    assert(r.contains(b));
                    let e = choose|e: int| 0 <= e < rest.len() && #[trigger] rest[e] == (b, a);
                    assert(edges[e] == (b, a));
                }
            } else {
                let e = choose|e: int| 0 <= e < rest.len() && #[trigger] rest[e] == (b, a);
                assert(edges[e] == (b, a));
            }
        }
        if exists|e: int| 0 <= e < edges.len() && #[trigger] edges[e] == (b, a) {
            let e = choose|e: int| 0 <= e < edges.len() && #[trigger] edges[e] == (b, a);
            if e == edges.len() - 1 {
                assert(in_neighbors(edges, a)[0] == b);
            } else {
                assert(rest[e] == (b, a));
                assert(r.contains(b));
                let k = choose|k: int| 0 <= k < r.len() && r[k] == b;
                if edges.last().1 == a {
                    assert(in_neighbors(edges, a)[k + 1] == b);
                } else {
                    assert(in_neighbors(edges, a)[k] == b);
                }
            }
        }
    }
}

/// A node is among the targets of edges from `b` exactly when such an edge exists.
proof fn lemma_out_neighbors_contains(edges: Seq<(usize, usize)>, b: usize, a: usize)
    ensures
        out_neighbors(edges, b).contains(a) <==> exists|e: int| 0 <= e < edges.len() && #[trigger] edges[e] == (b, a),
    decreases edges.len(),
{
    if edges.len() > 0 {
        let rest = edges.drop_last();
        lemma_out_neighbors_contains(rest, b, a);
        let r = out_neighbors(rest, b);
        if out_neighbors(edges, b).contains(a) {
            if edges.last().0 == b {
                let k = choose|k: int| 0 <= k < out_neighbors(edges, b).len() && out_neighbors(edges, b)[k] == a;
                if k == 0 {
                    assert(edges[edges.len() - 1] == (b, a));
                } else {
                    assert(r[k - 1] == a);
                    assert(r.contains(a));
                    let e = choose|e: int| 0 <= e < rest.len() && #[trigger] rest[e] == (b, a);
                    assert(edges[e] == (b, a));
                }
            } else {
                let e = choose|e: int| 0 <= e < rest.len() && #[trigger] rest[e] == (b, a);
                assert(edges[e] == (b, a));
            }
        }
        if exists|e: int| 0 <= e < edges.len() && #[trigger] edges[e] == (b, a) {
            let e = choose|e: int| 0 <= e < edges.len() && #[trigger] edges[e] == (b, a);
            if e == edges.len() - 1 {
                assert(out_neighbors(edges, b)[0] == a);
            } else {
                assert(rest[e] == (b, a));
                assert(r.contains(a));
                let k = choose|k: int| 0 <= k < r.len() && r[k] == a;
                if edges.last().0 == b {
                    assert(out_neighbors(edges, b)[k + 1] == a);
                } else {
                    assert(out_neighbors(edges, b)[k] == a);
                }
            }
        }
    }
}

/// Backlinks mirror outgoing links: `b` is among the backlinks of `a`
/// exactly when `a` is among the outgoing links of `b`.
pub proof fn lemma_backlinks_mirror_outgoing(edges: Seq<(usize, usize)>, a: usize, b: usize)
    ensures
        in_neighbors(edges, a).contains(b) <==> out_neighbors(edges, b).contains(a),
{
    lemma_in_neighbors_contains(edges, a, b);
    lemma_out_neighbors_contains(edges, b, a);
}

/// Without self-loops, the incoming neighbors are all the sources of edges to `a`.
proof fn lemma_in_neighbors_without_loops(edges: Seq<(usize, usize)>, a: usize)
    requires
        forall|e: int| 0 <= e < edges.len() ==> (#[trigger] edges[e]).0 != edges[e].1,
    ensures
        in_neighbors_no_loops(edges, a) == in_neighbors(edges, a),
    decreases edges.len(),
{
    if edges.len() > 0 {
        let rest = edges.drop_last();
        assert forall|e: int| 0 <= e < rest.len() implies (#[trigger] rest[e]).0 != rest[e].1 by {
            assert(rest[e] == edges[e]);
        }
        lemma_in_neighbors_without_loops(rest, a);
        assert(edges.last() == edges[edges.len() - 1]);
    }
}

/// In a graph without self-loops, the degree of a note is the number of its
/// backlinks plus the number of its outgoing links.
pub proof fn lemma_degree_counts_links(edges: Seq<(usize, usize)>, a: usize)
    requires
        forall|e: int| 0 <= e < edges.len() ==> (#[trigger] edges[e]).0 != edges[e].1,
    ensures
        degree_of(edges, a as int) == in_neighbors(edges, a).len() + out_neighbors(edges, a).len(),
{
    lemma_in_neighbors_without_loops(edges, a);
}

/// The graph has no self-loops: no note is its own backlink.
pub proof fn lemma_no_self_links(ns: Seq<NoteView>, k: int, e: int)
    requires
        0 <= e < edges_of(ns, k).len(),
        k <= ns.len() < u32::MAX,
    ensures
        edges_of(ns, k)[e].0 != edges_of(ns, k)[e].1,
    decreases k,
{
    if k > 0 {
        let prev = edges_of(ns, k - 1);
        if e < prev.len() {
            lemma_no_self_links(ns, k - 1, e);
            assert(edges_of(ns, k)[e] == prev[e]);
        } else {
            lemma_link_edges_no_loops(ns, k - 1, ns[k - 1].links, e - prev.len());
            assert(edges_of(ns, k)[e] == link_edges(ns, k - 1, ns[k - 1].links)[e - prev.len()]);
        }
    }
}

/// The edges of one note's links are no self-loops.
proof fn lemma_link_edges_no_loops(ns: Seq<NoteView>, i: int, links: Seq<WikiLinkView>, e: int)
    requires
        0 <= e < link_edges(ns, i, links).len(),
        0 <= i < ns.len(),
        ns.len() < u32::MAX,
    ensures
        link_edges(ns, i, links)[e].0 != link_edges(ns, i, links)[e].1,
    decreases links.len(),
{
    let rest = link_edges(ns, i, links.drop_last());
    if e < rest.len() {
        lemma_link_edges_no_loops(ns, i, links.drop_last(), e);
    } else {
        let l = links.last();
        let j = find_note(ns, key_of(l.target))->0;
        assert(0 <= j < ns.len()) by {
            let w = choose|w: int| 0 <= w < ns.len() && #[trigger] has_key(ns[w], key_of(l.target));
        }
    }
}

/// Links of a prefix of a note contribute no more edges than all its links.
proof fn lemma_link_edges_prefix(ns: Seq<NoteView>, i: int, links: Seq<WikiLinkView>, j: int)
    requires
        0 <= j <= links.len(),
    ensures
        link_edges(ns, i, links.take(j)).len() <= link_edges(ns, i, links).len(),
    decreases links.len() - j,
{
    if j < links.len() {
        lemma_link_edges_prefix(ns, i, links, j + 1);
        assert(links.take(j + 1).drop_last() == links.take(j));
    } else {
        assert(links.take(j) == links);
    }
}

/// The graph of more notes has no fewer edges.
proof fn lemma_edges_of_mono(ns: Seq<NoteView>, k1: int, k2: int)
    requires
        0 <= k1 <= k2,
    ensures
        edges_of(ns, k1).len() <= edges_of(ns, k2).len(),
    decreases k2 - k1,
{
    if k1 < k2 {
        lemma_edges_of_mono(ns, k1, k2 - 1);
    }
}

/// The position of lookup key `key` among the keys of notes `ns`.
fn key_index(keys: &Vec<String>, key: &String, Ghost(ns): Ghost<Seq<NoteView>>) -> (r: Option<usize>)
    requires
        keys@.len() == ns.len(),
        forall|m: int| 0 <= m < ns.len() ==> (#[trigger] keys@[m])@ == key_of(ns[m].name),
        distinct_keys(ns),
    ensures
        match r {
            Some(k) => find_note(ns, key@) == Some(k as int) && k < ns.len(),
            None => find_note(ns, key@) is None,
        },
{
    let mut k: usize = 0;
    while k < keys.len()
        invariant
            k <= keys@.len(),
            keys@.len() == ns.len(),
            forall|m: int| 0 <= m < ns.len() ==> (#[trigger] keys@[m])@ == key_of(ns[m].name),
            forall|m: int| 0 <= m < k ==> !has_key(#[trigger] ns[m], key@),
            distinct_keys(ns),
        decreases keys@.len() - k,
    {
        if keys[k] == *key {
            assert(has_key(ns[k as int], key@));
            proof {
                lemma_find_note_unique(ns, key@, k as int);
            }
            return Some(k);
        }
        assert(!has_key(ns[k as int], key@));
        k = k + 1;
    }
    assert forall|m: int| 0 <= m < ns.len() implies !(#[trigger] has_key(ns[m], key@)) by {}
    None
}

/// Whether petgraph's `u32` indices can hold the graph of `vault`: fewer
/// than `u32::MAX` notes and fewer than `u32::MAX` links between them.
pub fn fits_graph(vault: &Vault) -> (b: bool)
    ensures
        b == (vault.notes_view().len() < u32::MAX && edges_of(
            vault.notes_view(),
            vault.notes_view().len() as int,
        ).len() < u32::MAX),
{
    let notes = vault.notes();
    vault.keys_are_distinct();
    let ghost ns = vault.notes_view();
    assert(notes@.map_values(|n: &Note| n@) == ns);
    if notes.len() >= 0xffff_ffffusize {
        return false;
    }
    let mut keys: Vec<String> = Vec::new();
    let mut i: usize = 0;
    while i < notes.len()
        invariant
            i <= notes@.len(),
            notes@.map_values(|n: &Note| n@) == ns,
            keys@.len() == i,
            forall|k: int| 0 <= k < i ==> (#[trigger] keys@[k])@ == key_of(ns[k].name),
        decreases notes@.len() - i,
    {
        assert(notes[i as int]@ == ns[i as int]);
        keys.push(to_lowercase(notes[i].name.as_str()));
        i = i + 1;
    }
    let mut count: u64 = 0;
    let mut i: usize = 0;
    while i < notes.len()
        invariant
            i <= notes@.len(),
            notes@.map_values(|n: &Note| n@) == ns,
            ns.len() < u32::MAX,
            distinct_keys(ns),
            keys@.len() == ns.len(),
            forall|k: int| 0 <= k < ns.len() ==> (#[trigger] keys@[k])@ == key_of(ns[k].name),
            count == edges_of(ns, i as int).len(),
            count < u32::MAX,
            ns == vault.notes_view(),
        decreases notes@.len() - i,
    {
        let note = notes[i];
        assert(note@ == ns[i as int]);
        let mut j: usize = 0;
        assert(note@.links.take(0) =~= Seq::<WikiLinkView>::empty());
        while j < note.links.len()
            invariant
                j <= note.links@.len(),
                i < ns.len(),
                note@ == ns[i as int],
                ns.len() < u32::MAX,
                distinct_keys(ns),
                keys@.len() == ns.len(),
                forall|k: int| 0 <= k < ns.len() ==> (#[trigger] keys@[k])@ == key_of(ns[k].name),
                count == edges_of(ns, i as int).len() + link_edges(ns, i as int, note@.links.take(j as int)).len(),
                count < u32::MAX,
                ns == vault.notes_view(),
            decreases note.links@.len() - j,
        {
            let link = &note.links[j];
            let ghost lv = link@;
            assert(note@.links[j as int] == lv);
            assert(note@.links.take(j + 1).drop_last() == note@.links.take(j as int));
            assert(note@.links.take(j + 1).last() == lv);
            if !link.target.as_str().is_empty() {
                let key = to_lowercase(link.target.as_str());
                if let Some(t) = key_index(&keys, &key, Ghost(ns)) {
                    if t != i {
                        count = count + 1;
                        if count >= 0xffff_ffffu64 {
                            proof {
                                assert(link_edges(ns, i as int, note@.links.take(j + 1)).len() == link_edges(
                                    ns,
                                    i as int,
                                    note@.links.take(j as int),
                                ).len() + 1);
                                lemma_link_edges_prefix(ns, i as int, note@.links, j + 1);
                                assert(edges_of(ns, i + 1).len() == edges_of(ns, i as int).len() + link_edges(
                                    ns,
                                    i as int,
                                    ns[i as int].links,
                                ).len());
                                lemma_edges_of_mono(ns, i + 1, ns.len() as int);
                            }
                            return false;
                        }
                    }
                }
            }
            j = j + 1;
        }
        assert(note@.links.take(note@.links.len() as int) == note@.links);
        i = i + 1;
    }
    true
}

/// A knowledge graph built from vault links.
pub struct KnowledgeGraph {
    /// The directed graph of note connections.
    graph: DiGraph<String, ()>,
    /// Lowercase name of each node, by node index.
    keys: Vec<String>,
}

/// Statistics about the knowledge graph.
#[derive(Debug, Clone)]
pub struct GraphStats {
    /// Total number of notes.
    pub total_notes: usize,
    /// Total number of links (edges).
    pub total_links: usize,
    /// Number of orphan notes (no connections).
    pub orphan_count: usize,
    /// List of orphan note names.
    pub orphan_notes: Vec<String>,
    /// Most connected notes (name, connection count).
    pub hub_notes: Vec<(String, usize)>,
}

impl KnowledgeGraph {
    #[verifier::type_invariant]
    closed spec fn inv(self) -> bool {
        let names = graph_nodes(self.graph);
        let edges = graph_edges(self.graph);
        &&& self.keys@.len() == names.len()
        &&& names.len() < u32::MAX
        &&& forall|i: int| 0 <= i < names.len() ==> (#[trigger] self.keys@[i])@ == key_of(names[i])
        &&& distinct_names(names)
        &&& forall|e: int| 0 <= e < edges.len() ==> (#[trigger] edges[e]).0 < names.len() && edges[e].1 < names.len()
        &&& forall|e: int| 0 <= e < edges.len() ==> (#[trigger] edges[e]).0 != edges[e].1
    }

    /// The note names, by node index.
    pub closed spec fn names(&self) -> Seq<Seq<char>> {
        graph_nodes(self.graph)
    }

    /// The links, as (source, target) node indices, in the order they were added.
    pub closed spec fn edges(&self) -> Seq<(usize, usize)> {
        graph_edges(self.graph)
    }

    /// No note links to itself in the graph: it has no self-loops.
    pub fn has_no_self_loops(&self)
        ensures
            forall|e: int| 0 <= e < self.edges().len() ==> (#[trigger] self.edges()[e]).0 != self.edges()[e].1,
    {
        proof {
            use_type_invariant(self);
        }
    }

    /// Build a knowledge graph from a vault: a node for each note (in vault
    /// order) and an edge for each link, in link order, from a note to another
    /// existing note. (petgraph's `u32` indices bound the sizes.)
    pub fn from_vault(vault: &Vault) -> (g: Self)
        requires
            vault.notes_view().len() < u32::MAX,
            edges_of(vault.notes_view(), vault.notes_view().len() as int).len() < u32::MAX,
        ensures
            g.names() == vault.notes_view().map_values(|n: NoteView| n.name),
            g.edges() == edges_of(vault.notes_view(), vault.notes_view().len() as int),
    {
        let notes = vault.notes();
        vault.keys_are_distinct();
        let ghost ns = vault.notes_view();
        let ghost names = ns.map_values(|n: NoteView| n.name);
        assert(notes@.map_values(|n: &Note| n@) == ns);
        let mut graph = graph_new();
        let mut keys: Vec<String> = Vec::new();
        let mut i: usize = 0;
        while i < notes.len()
            invariant
                i <= notes@.len(),
                notes@.map_values(|n: &Note| n@) == ns,
                ns.len() < u32::MAX,
                names == ns.map_values(|n: NoteView| n.name),
                graph_nodes(graph) == names.take(i as int),
                graph_edges(graph) == Seq::<(usize, usize)>::empty(),
                keys@.len() == i,
                forall|k: int| 0 <= k < i ==> (#[trigger] keys@[k])@ == key_of(names[k]),
            decreases notes@.len() - i,
        {
            let note = notes[i];
            assert(note@ == ns[i as int]);
            let name = note.name.clone();
            let key = to_lowercase(note.name.as_str());
            graph_add_node(&mut graph, name);
            keys.push(key);
            assert(names.take(i + 1) == names.take(i as int).push(names[i as int]));
            i = i + 1;
        }
        assert(names.take(names.len() as int) == names);
        let mut i: usize = 0;
        while i < notes.len()
            invariant
                i <= notes@.len(),
                notes@.map_values(|n: &Note| n@) == ns,
                distinct_keys(ns),
                names == ns.map_values(|n: NoteView| n.name),
                graph_nodes(graph) == names,
                keys@.len() == names.len(),
                forall|k: int| 0 <= k < names.len() ==> (#[trigger] keys@[k])@ == key_of(names[k]),
                graph_edges(graph) == edges_of(ns, i as int),
                edges_of(ns, ns.len() as int).len() < u32::MAX,
                forall|e: int| 0 <= e < graph_edges(graph).len() ==> (#[trigger] graph_edges(graph)[e]).0 < names.len()
                    && graph_edges(graph)[e].1 < names.len(),
            decreases notes@.len() - i,
        {
            let note = notes[i];
            assert(note@ == ns[i as int]);
            let ghost before = graph_edges(graph);
            let mut j: usize = 0;
            assert(note@.links.take(0) =~= Seq::<WikiLinkView>::empty());
            assert(before + link_edges(ns, i as int, note@.links.take(0)) =~= before);
            while j < note.links.len()
                invariant
                    j <= note.links@.len(),
                    i < ns.len(),
                    note@ == ns[i as int],
                    distinct_keys(ns),
                    names == ns.map_values(|n: NoteView| n.name),
                    graph_nodes(graph) == names,
                    keys@.len() == names.len(),
                    forall|k: int| 0 <= k < names.len() ==> (#[trigger] keys@[k])@ == key_of(names[k]),
                    graph_edges(graph) == before + link_edges(ns, i as int, note@.links.take(j as int)),
                    before == edges_of(ns, i as int),
                    edges_of(ns, ns.len() as int).len() < u32::MAX,
                    forall|e: int| 0 <= e < graph_edges(graph).len() ==> (#[trigger] graph_edges(graph)[e]).0 < names.len()
                        && graph_edges(graph)[e].1 < names.len(),
                decreases note.links@.len() - j,
            {
                let link = &note.links[j];
                let ghost lv = link@;
                let ghost cur = graph_edges(graph);
                assert(note@.links[j as int] == lv);
                assert(note@.links.take(j + 1).drop_last() == note@.links.take(j as int));
                assert(note@.links.take(j + 1).last() == lv);
                if !link.target.as_str().is_empty() {
                    let key = to_lowercase(link.target.as_str());
                    let found = key_index(&keys, &key, Ghost(ns));
                    if let Some(t) = found {
                        if t != i {
                            proof {
                                lemma_link_edges_prefix(ns, i as int, note@.links, j + 1);
                                lemma_edges_of_mono(ns, i + 1, ns.len() as int);
                                assert(ns.len() == names.len());
                            }
                            graph_add_edge(&mut graph, i, t);
                            assert(graph_edges(graph) =~= before + link_edges(ns, i as int, note@.links.take(j + 1)));
                        }
                    }
                }
                j = j + 1;
            }
            assert(note@.links.take(note@.links.len() as int) == note@.links);
            i = i + 1;
        }
        proof {
            assert forall|a: int, b: int|
                0 <= a < names.len() && 0 <= b < names.len() && a != b implies key_of(#[trigger] names[a])
                != key_of(#[trigger] names[b]) by {
                assert(key_of(ns[a].name) != key_of(ns[b].name));
            }
            assert forall|e: int| 0 <= e < graph_edges(graph).len() implies (#[trigger] graph_edges(graph)[e]).0
                != graph_edges(graph)[e].1 by {
                lemma_no_self_links(ns, ns.len() as int, e);
            }
        }
        KnowledgeGraph { graph, keys }
    }

    /// The node of the note named `note_name` (compared case-insensitively).
    fn index_of(&self, note_name: &str) -> (r: Option<usize>)
        ensures
            match r {
                Some(k) => find_name(self.names(), key_of(note_name@)) == Some(k as int) && k < self.names().len(),
                None => find_name(self.names(), key_of(note_name@)) is None,
            },
    {
        proof {
            use_type_invariant(self);
        }
        let key = to_lowercase(note_name);
        let ghost names = self.names();
        let mut k: usize = 0;
        while k < self.keys.len()
            invariant
                k <= self.keys@.len(),
                self.keys@.len() == names.len(),
                names == self.names(),
                distinct_names(names),
                key@ == key_of(note_name@),
                forall|m: int| 0 <= m < names.len() ==> (#[trigger] self.keys@[m])@ == key_of(names[m]),
                forall|m: int| 0 <= m < k ==> key_of(#[trigger] names[m]) != key@,
            decreases self.keys@.len() - k,
        {
            if self.keys[k] == key {
                proof {
                    lemma_find_name_unique(names, key@, k as int);
                }
                return Some(k);
            }
            assert(key_of(names[k as int]) != key@);
            k = k + 1;
        }
        None
    }

    /// Get the number of notes in the graph.
    pub fn node_count(&self) -> (n: usize)
        ensures
            n == self.names().len(),
    {
        graph_node_count(&self.graph)
    }

    /// Get the number of links in the graph.
    pub fn edge_count(&self) -> (n: usize)
        ensures
            n == self.edges().len(),
    {
        graph_edge_count(&self.graph)
    }

    /// The names of the nodes at `idx`.
    fn names_of(&self, idx: &Vec<usize>) -> (r: Vec<String>)
        requires
            forall|p: int| 0 <= p < idx@.len() ==> (#[trigger] idx@[p]) < self.names().len(),
        ensures
            strs(r@) == names_at(self.names(), idx@),
    {
        let mut r: Vec<String> = Vec::new();
        let mut p: usize = 0;
        while p < idx.len()
            invariant
                p <= idx@.len(),
                forall|q: int| 0 <= q < idx@.len() ==> (#[trigger] idx@[q]) < self.names().len(),
                strs(r@) == names_at(self.names(), idx@.take(p as int)),
            decreases idx@.len() - p,
        {
            let w = graph_node_weight(&self.graph, idx[p]);
            let ghost before = r@;
            r.push(w);
            assert(strs(r@) =~= strs(before).push(w@));
            assert(idx@.take(p + 1) == idx@.take(p as int).push(idx@[p as int]));
            assert(strs(r@) =~= names_at(self.names(), idx@.take(p + 1)));
            p = p + 1;
        }
        assert(idx@.take(idx@.len() as int) == idx@);
        r
    }

    /// Get neighbors in a specific direction.
    fn neighbors(&self, note_name: &str, direction: NeighborDirection) -> (r: Vec<String>)
        ensures
            strs(r@) == match find_name(self.names(), key_of(note_name@)) {
                Some(k) => names_at(self.names(), match direction {
                    NeighborDirection::Outgoing => out_neighbors(self.edges(), k as usize),
                    NeighborDirection::Incoming => in_neighbors(self.edges(), k as usize),
                }),
                None => Seq::empty(),
            },
    {
        proof {
            use_type_invariant(self);
        }
        match self.index_of(note_name) {
            Some(k) => {
                let is_out = match direction {
                    NeighborDirection::Outgoing => true,
                    NeighborDirection::Incoming => false,
                };
                let idx = graph_neighbors_directed(&self.graph, k, direction);
                proof {
                    if is_out {
                        lemma_out_neighbors_in_range(self.edges(), k, self.names().len());
                    } else {
                        lemma_in_neighbors_in_range(self.edges(), k, self.names().len());
                    }
                }
                self.names_of(&idx)
            },
            None => Vec::new(),
        }
    }

    /// Get notes that link TO the given note (backlinks), the most recently
    /// added link first.
    pub fn backlinks(&self, note_name: &str) -> (r: Vec<String>)
        ensures
            strs(r@) == match find_name(self.names(), key_of(note_name@)) {
                Some(k) => names_at(self.names(), in_neighbors(self.edges(), k as usize)),
                None => Seq::empty(),
            },
    {
        self.neighbors(note_name, NeighborDirection::Incoming)
    }

    /// Get notes that the given note links TO (outgoing links), the most
    /// recently added link first.
    pub fn outgoing_links(&self, note_name: &str) -> (r: Vec<String>)
        ensures
            strs(r@) == match find_name(self.names(), key_of(note_name@)) {
                Some(k) => names_at(self.names(), out_neighbors(self.edges(), k as usize)),
                None => Seq::empty(),
            },
    {
        self.neighbors(note_name, NeighborDirection::Outgoing)
    }

    /// Get notes with no connections (orphans), in node order.
    pub fn orphans(&self) -> (r: Vec<String>)
        ensures
            strs(r@) == orphans_upto(self.names(), self.edges(), self.names().len() as int),
    {
        let n = graph_node_count(&self.graph);
        let mut r: Vec<String> = Vec::new();
        let mut i: usize = 0;
        while i < n
            invariant
                i <= n,
                n == self.names().len(),
                strs(r@) == orphans_upto(self.names(), self.edges(), i as int),
            decreases n - i,
        {
            let nb = graph_neighbors_undirected(&self.graph, i);
            if nb.len() == 0 {
                let w = graph_node_weight(&self.graph, i);
                let ghost before = r@;
                r.push(w);
                assert(strs(r@) =~= strs(before).push(w@));
            }
            i = i + 1;
        }
        r
    }

    /// The degree of every node, by node index.
    fn degree_list(&self) -> (ds: Vec<usize>)
        ensures
            ds@ == degrees(self.names().len(), self.edges()),
    {
        let n = graph_node_count(&self.graph);
        let mut ds: Vec<usize> = Vec::new();
        let mut i: usize = 0;
        while i < n
            invariant
                i <= n,
                n == self.names().len(),
                ds@ == degrees(i as nat, self.edges()),
            decreases n - i,
        {
            let d = graph_neighbors_undirected(&self.graph, i).len();
            ds.push(d);
            assert(ds@ =~= degrees((i + 1) as nat, self.edges()));
            i = i + 1;
        }
        ds
    }

    /// Get the most connected notes (hubs) with their connection counts:
    /// sorted by descending count, ties in node order, at most `limit`.
    pub fn hubs(&self, limit: usize) -> (r: Vec<(String, usize)>)
        ensures
            pair_views(r@) == hub_list(self.names(), self.edges(), limit as nat),
    {
        let ds = self.degree_list();
        let order = stable_order_desc(&ds);
        let n = ds.len();
        let m = if limit < n {
            limit
        } else {
            n
        };
        let ghost want = hub_list(self.names(), self.edges(), limit as nat);
        let mut r: Vec<(String, usize)> = Vec::new();
        let mut p: usize = 0;
        while p < m
            invariant
                p <= m,
                m <= n,
                n == ds@.len(),
                n == self.names().len(),
                ds@ == degrees(self.names().len(), self.edges()),
                want == hub_list(self.names(), self.edges(), limit as nat),
                want.len() == m,
                order@.len() == n,
                forall|q: int| 0 <= q < n ==> order@[q] == #[trigger] ranked(ds@, q),
                pair_views(r@) == want.take(p as int),
            decreases m - p,
        {
            let k = order[p];
            proof {
                lemma_ranked(ds@, p as int);
                assert(k == ranked(ds@, p as int));
            }
            let w = graph_node_weight(&self.graph, k);
            let ghost before = r@;
            r.push((w, ds[k]));
            assert(pair_views(r@) =~= pair_views(before).push((w@, ds@[k as int])));
            assert(want.take(p + 1) =~= want.take(p as int).push(want[p as int]));
            p = p + 1;
        }
        assert(want.take(m as int) == want);
        r
    }

    /// Get graph statistics: the hubs are the ten most connected notes.
    pub fn stats(&self) -> (s: GraphStats)
        ensures
            s.total_notes == self.names().len(),
            s.total_links == self.edges().len(),
            s.orphan_count == s.orphan_notes@.len(),
            strs(s.orphan_notes@) == orphans_upto(self.names(), self.edges(), self.names().len() as int),
            pair_views(s.hub_notes@) == hub_list(self.names(), self.edges(), 10),
    {
        let orphans = self.orphans();
        let hubs = self.hubs(10);
        GraphStats {
            total_notes: self.node_count(),
            total_links: self.edge_count(),
            orphan_count: orphans.len(),
            orphan_notes: orphans,
            hub_notes: hubs,
        }
    }

    /// Get the degree (total connections, counted per link) for a note.
    pub fn degree(&self, note_name: &str) -> (d: usize)
        ensures
            d == match find_name(self.names(), key_of(note_name@)) {
                Some(k) => degree_of(self.edges(), k),
                None => 0,
            },
    {
        match self.index_of(note_name) {
            Some(k) => graph_neighbors_undirected(&self.graph, k).len(),
            None => 0,
        }
    }
}

} // verus!
