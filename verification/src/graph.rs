//! The graph of tokens connected by pools and bridges, kept in a `petgraph`
//! `DiGraphMap`, and its pruning down to the tokens a trade can pass
//! through and come back from.
use crate::hub_pools::TokensConnectionType;
use crate::hub_tokens::TokenId;
use vstd::prelude::*;

verus! {

#[verifier::external_type_specification]
#[verifier::external_body]
#[verifier::reject_recursive_types(N)]
#[verifier::reject_recursive_types(E)]
#[verifier::reject_recursive_types(Ty)]
#[verifier::reject_recursive_types(S)]
pub struct ExGraphMap<N, E, Ty, S: std::hash::BuildHasher>(
    petgraph::graphmap::GraphMap<N, E, Ty, S>,
);

#[verifier::external_type_specification]
#[verifier::external_body]
pub struct ExDirected(petgraph::Directed);

#[verifier::external_type_specification]
#[verifier::external_body]
pub struct ExDirection(petgraph::Direction);

/// The graph store: tokens, and for each directed pair of tokens the
/// connections between them.
pub type GraphStore = petgraph::graphmap::DiGraphMap<TokenId, Vec<TokensConnectionType>>;

/// A graph's contents: each token mapped to its successors, each with the
/// connections of the edge to it.
pub type Adjacency = Map<TokenId, Map<TokenId, Seq<TokensConnectionType>>>;

/// The contents of a graph store: for each token, its successors and the
/// connections of the edge to each.
pub uninterp spec fn graph_adjacency(g: GraphStore) -> Map<TokenId, Map<TokenId, Seq<TokensConnectionType>>>;

/// Whether the graph has an edge from `a` to `b`.
pub open spec fn has_edge(adj: Adjacency, a: TokenId, b: TokenId) -> bool {
    adj.dom().contains(a) && adj[a].dom().contains(b)
}

/// The graph with `t` among its tokens.
pub open spec fn with_token(adj: Adjacency, t: TokenId) -> Adjacency {
    if adj.dom().contains(t) {
        adj
    } else {
        adj.insert(t, Map::empty())
    }
}

/// The graph with both tokens present and the edge from `a` to `b`
/// carrying the connections `w`.
pub open spec fn with_edge(
    adj: Adjacency,
    a: TokenId,
    b: TokenId,
    w: Seq<TokensConnectionType>,
) -> Adjacency {
    let m = with_token(with_token(adj, a), b);
    m.insert(a, m[a].insert(b, w))
}

/// The graph without the token `t` and its edges.
pub open spec fn without_token(adj: Adjacency, t: TokenId) -> Adjacency {
    Map::new(|k: TokenId| adj.dom().contains(k) && k != t, |k: TokenId| adj[k].remove(t))
}

/// The subgraph on the tokens of `keep`: their edges among each other,
/// with their connections.
pub open spec fn induced(adj: Adjacency, keep: Set<TokenId>) -> Adjacency {
    Map::new(
        |k: TokenId| adj.dom().contains(k) && keep.contains(k),
        |k: TokenId| adj[k].restrict(keep),
    )
}

/// The empty graph.
pub open spec fn empty_adjacency() -> Adjacency {
    Map::empty()
}

/// What holds of every graph: finitely many tokens, edges between tokens
/// only, and no connection listed twice on an edge.
pub open spec fn graph_wf(adj: Adjacency) -> bool {
    &&& adj.dom().finite()
    &&& forall|a: TokenId, b: TokenId| #[trigger]
        has_edge(adj, a, b) ==> adj.dom().contains(b) && adj[a][b].no_duplicates()
}

/// A direction of edges at a token.
#[derive(Debug, Clone, Copy, PartialEq, Eq, Structural)]
pub enum EdgeDirection {
    Incoming,
    Outgoing,
}

/// `DiGraphMap::new`: a graph with no tokens.
#[verifier::external_body]
fn store_new() -> (r: GraphStore)
    ensures
        graph_adjacency(r) == empty_adjacency(),
{
    petgraph::graphmap::DiGraphMap::new()
}

/// `GraphMap::add_edge`: adds the tokens `a` and `b` where they are missing
/// and sets the connections of the edge from `a` to `b` to `w`, in place of
/// those it carried.
#[verifier::external_body]
fn store_add_edge(g: &mut GraphStore, a: TokenId, b: TokenId, w: Vec<TokensConnectionType>)
    ensures
        graph_adjacency(*final(g)) == with_edge(graph_adjacency(*old(g)), a, b, w@),
{
    g.add_edge(a, b, w);
}

/// `GraphMap::edge_weight`, cloned: the connections of the edge from `a`
/// to `b`, where there is one.
#[verifier::external_body]
fn store_edge_weight(g: &GraphStore, a: TokenId, b: TokenId) -> (r: Option<
    Vec<TokensConnectionType>,
>)
    ensures
        match r {
            Some(w) => has_edge(graph_adjacency(*g), a, b) && w@ == graph_adjacency(*g)[a][b],
            None => !has_edge(graph_adjacency(*g), a, b),
        },
{
    g.edge_weight(a, b).cloned()
}

/// `GraphMap::neighbors` on a directed graph: the successors of `a`, each
/// once, in an order the call does not promise.
#[verifier::external_body]
fn store_neighbors(g: &GraphStore, a: TokenId) -> (r: Vec<TokenId>)
    ensures
        r@.no_duplicates(),
        forall|x: TokenId| r@.contains(x) <==> has_edge(graph_adjacency(*g), a, x),
{
    g.neighbors(a).collect()
}

/// `GraphMap::remove_node`: the graph without the token `t` and its edges.
#[verifier::external_body]
fn store_remove_node(g: &mut GraphStore, t: TokenId)
    ensures
        graph_adjacency(*final(g)) == without_token(graph_adjacency(*old(g)), t),
{
    g.remove_node(t);
}

/// `GraphMap::edges_directed`: the edges into `a` (incoming) or out of `a`
/// (outgoing), each once, as source, target and cloned connections, in an
/// order the call does not promise.
#[verifier::external_body]
fn store_edges_directed(g: &GraphStore, a: TokenId, dir: EdgeDirection) -> (r: Vec<
    (TokenId, TokenId, Vec<TokensConnectionType>),
>)
    ensures
        dir == EdgeDirection::Incoming ==> forall|i: int, j: int|
            0 <= i < j < r@.len() ==> (#[trigger] r@[i]).0 != (#[trigger] r@[j]).0,
        dir == EdgeDirection::Outgoing ==> forall|i: int, j: int|
            0 <= i < j < r@.len() ==> (#[trigger] r@[i]).1 != (#[trigger] r@[j]).1,
        forall|i: int|
            0 <= i < r@.len() ==> {
                &&& has_edge(graph_adjacency(*g), (#[trigger] r@[i]).0, r@[i].1)
                &&& r@[i].2@ == graph_adjacency(*g)[r@[i].0][r@[i].1]
                &&& dir == EdgeDirection::Incoming ==> r@[i].1 == a
                &&& dir == EdgeDirection::Outgoing ==> r@[i].0 == a
            },
        dir == EdgeDirection::Incoming ==> forall|x: TokenId|
            has_edge(graph_adjacency(*g), x, a) ==> exists|i: int|
                0 <= i < r@.len() && #[trigger] r@[i].0 == x,
        dir == EdgeDirection::Outgoing ==> forall|x: TokenId|
            has_edge(graph_adjacency(*g), a, x) ==> exists|i: int|
                0 <= i < r@.len() && #[trigger] r@[i].1 == x,
{
    let d = match dir {
        EdgeDirection::Incoming => petgraph::Direction::Incoming,
        EdgeDirection::Outgoing => petgraph::Direction::Outgoing,
    };
    g.edges_directed(a, d).map(|(s, t, w)| (s, t, w.clone())).collect()
}

/// `GraphMap::nodes`: the tokens, each once, in an order the call does not
/// promise.
#[verifier::external_body]
fn store_nodes(g: &GraphStore) -> (r: Vec<TokenId>)
    ensures
        r@.no_duplicates(),
        forall|x: TokenId| r@.contains(x) <==> graph_adjacency(*g).dom().contains(x),
{
    g.nodes().collect()
}

/// `GraphMap::contains_node`: whether `t` is one of the tokens.
#[verifier::external_body]
fn store_contains_node(g: &GraphStore, t: TokenId) -> (r: bool)
    ensures
        r == graph_adjacency(*g).dom().contains(t),
{
    g.contains_node(t)
}

/// `GraphMap::node_count`: the number of tokens.
#[verifier::external_body]
fn store_node_count(g: &GraphStore) -> (r: usize)
    ensures
        r == graph_adjacency(*g).dom().len(),
{
    g.node_count()
}

/// The tokens an adjacency connects: from the first to the second only, or
/// both ways.
#[derive(Debug, Clone, Copy, PartialEq, Eq, Structural)]
pub enum AdjacentTokens {
    Directed(TokenId, TokenId),
    Undirected(TokenId, TokenId),
}

/// Something that connects tokens: a pool or a bridge.
pub trait TokenAdjacency {
    /// The tokens it connects.
    spec fn adjacency_spec(&self) -> AdjacentTokens;

    /// What it is, as a connection.
    spec fn id_spec(&self) -> TokensConnectionType;

    fn adjacent_tokens(&self) -> (r: AdjacentTokens)
        ensures
            r == self.adjacency_spec(),
    ;

    fn id(&self) -> (r: TokensConnectionType)
        ensures
            r == self.id_spec(),
    ;
}

/// The graph with the connection `id` on the edge from `a` to `b`, the
/// edge and its tokens added where missing.
pub open spec fn with_connection(
    adj: Adjacency,
    a: TokenId,
    b: TokenId,
    id: TokensConnectionType,
) -> Adjacency {
    if has_edge(adj, a, b) {
        if adj[a][b].contains(id) {
            adj
        } else {
            with_edge(adj, a, b, adj[a][b].push(id))
        }
    } else {
        with_edge(adj, a, b, seq![id])
    }
}

/// The graph with one adjacency added: its connection on the edge between
/// its tokens, both ways where it is undirected.
pub open spec fn with_adjacency_spec(
    adj: Adjacency,
    tokens: AdjacentTokens,
    id: TokensConnectionType,
) -> Adjacency {
    match tokens {
        AdjacentTokens::Directed(a, b) => with_connection(adj, a, b, id),
        AdjacentTokens::Undirected(a, b) => with_connection(with_connection(adj, a, b, id), b, a, id),
    }
}

/// The graph with the adjacencies added one after the other.
pub open spec fn with_adjacencies<A: TokenAdjacency>(adj: Adjacency, s: Seq<A>) -> Adjacency
    decreases s.len(),
{
    if s.len() == 0 {
        adj
    } else {
        with_adjacency_spec(
            with_adjacencies(adj, s.drop_last()),
            s.last().adjacency_spec(),
            s.last().id_spec(),
        )
    }
}

/// Adding an edge keeps a graph well formed.
proof fn lemma_with_edge_wf(adj: Adjacency, a: TokenId, b: TokenId, w: Seq<TokensConnectionType>)
    requires
        graph_wf(adj),
        w.no_duplicates(),
    ensures
        graph_wf(with_edge(adj, a, b, w)),
{
    let r = with_edge(adj, a, b, w);
    assert forall|x: TokenId, y: TokenId| #[trigger] has_edge(r, x, y) implies r.dom().contains(y)
        && r[x][y].no_duplicates() by {
        if x == a && y == b {
        } else {
            assert(has_edge(adj, x, y));
        }
    }
}

/// Removing a token keeps a graph well formed.
proof fn lemma_without_token_wf(adj: Adjacency, t: TokenId)
    requires
        graph_wf(adj),
    ensures
        graph_wf(without_token(adj, t)),
{
    let r = without_token(adj, t);
    assert(r.dom() =~= adj.dom().remove(t));
    assert forall|x: TokenId, y: TokenId| #[trigger] has_edge(r, x, y) implies r.dom().contains(y)
        && r[x][y].no_duplicates() by {
        assert(has_edge(adj, x, y));
    }
}

/// Whether the listed connections include two different ones.
pub open spec fn distinct_ids(s: Seq<TokensConnectionType>) -> bool {
    exists|i: int, j: int| 0 <= i < s.len() && 0 <= j < s.len() && #[trigger] s[i] != #[trigger] s[j]
}

/// Whether the only edge into `t` comes from `p` and the only edge out of
/// `t` goes to `q`.
pub open spec fn sole_edges(adj: Adjacency, t: TokenId, p: TokenId, q: TokenId) -> bool {
    &&& has_edge(adj, p, t)
    &&& has_edge(adj, t, q)
    &&& forall|x: TokenId| #[trigger] has_edge(adj, x, t) ==> x == p
    &&& forall|y: TokenId| #[trigger] has_edge(adj, t, y) ==> y == q
}

/// Whether pruning removes the token `t`: it is not in the graph, no edge
/// enters it (a source), no edge leaves it (a sink), or it is a dead end,
/// one edge in and one edge out carrying between them a single
/// connection, so that a trade through it can only come back the way it
/// came.
pub open spec fn prunable(adj: Adjacency, t: TokenId) -> bool {
    ||| !adj.dom().contains(t)
    ||| forall|p: TokenId| !#[trigger] has_edge(adj, p, t)
    ||| forall|q: TokenId| !#[trigger] has_edge(adj, t, q)
    ||| exists|p: TokenId, q: TokenId|
        #[trigger] sole_edges(adj, t, p, q) && !distinct_ids(adj[p][t] + adj[t][q])
}

/// Whether `s` is a set of tokens of the graph whose subgraph leaves
/// nothing to prune.
pub open spec fn closed_set(adj: Adjacency, s: Set<TokenId>) -> bool {
    &&& s.subset_of(adj.dom())
    &&& forall|t: TokenId| s.contains(t) ==> !prunable(induced(adj, s), t)
}

/// The edges of a subgraph are those of the graph between its tokens, with
/// the same connections.
proof fn lemma_induced_edges(adj: Adjacency, keep: Set<TokenId>)
    ensures
        forall|a: TokenId, b: TokenId| #[trigger]
            has_edge(induced(adj, keep), a, b) == (has_edge(adj, a, b) && keep.contains(a)
                && keep.contains(b)),
        forall|a: TokenId, b: TokenId| #[trigger]
            has_edge(induced(adj, keep), a, b) ==> induced(adj, keep)[a][b] == adj[a][b],
{
}

/// The subgraph of a subgraph is a subgraph of the graph.
proof fn lemma_induced_twice(adj: Adjacency, d1: Set<TokenId>, d2: Set<TokenId>)
    requires
        d2.subset_of(d1),
    ensures
        induced(induced(adj, d1), d2) == induced(adj, d2),
{
    let l = induced(induced(adj, d1), d2);
    let r = induced(adj, d2);
    assert(l.dom() =~= r.dom());
    assert forall|k: TokenId| l.dom().contains(k) implies l[k] == r[k] by {
        assert(l[k] =~= r[k]);
    }
    assert(l =~= r);
}

/// A well-formed graph is its own subgraph on all its tokens.
proof fn lemma_induced_all(adj: Adjacency)
    requires
        graph_wf(adj),
    ensures
        induced(adj, adj.dom()) == adj,
{
    let l = induced(adj, adj.dom());
    assert(l.dom() =~= adj.dom());
    assert forall|k: TokenId| l.dom().contains(k) implies l[k] == adj[k] by {
        assert forall|b: TokenId| adj[k].dom().contains(b) implies adj.dom().contains(b) by {
            assert(has_edge(adj, k, b));
        }
        assert(l[k] =~= adj[k]);
    }
    assert(l =~= adj);
}

/// Removing a token from a well-formed graph leaves its subgraph on the
/// other tokens.
proof fn lemma_without_token_induced(adj: Adjacency, t: TokenId)
    requires
        graph_wf(adj),
    ensures
        without_token(adj, t) == induced(adj, adj.dom().remove(t)),
{
    let l = without_token(adj, t);
    let r = induced(adj, adj.dom().remove(t));
    assert(l.dom() =~= r.dom());
    assert forall|k: TokenId| l.dom().contains(k) implies l[k] == r[k] by {
        assert forall|b: TokenId| adj[k].dom().contains(b) implies adj.dom().contains(b) by {
            assert(has_edge(adj, k, b));
        }
        assert(l[k] =~= r[k]);
    }
    assert(l =~= r);
}

/// A token that pruning removes from a graph it removes from every subgraph
/// that holds it.
proof fn lemma_prunable_in_subgraph(adj: Adjacency, keep: Set<TokenId>, t: TokenId)
    requires
        keep.subset_of(adj.dom()),
        keep.contains(t),
        prunable(adj, t),
    ensures
        prunable(induced(adj, keep), t),
{
    let sub = induced(adj, keep);
    lemma_induced_edges(adj, keep);
    if !adj.dom().contains(t) {
    } else if forall|p: TokenId| !#[trigger] has_edge(adj, p, t) {
        assert forall|p: TokenId| !#[trigger] has_edge(sub, p, t) by {
            if has_edge(sub, p, t) {
                assert(has_edge(adj, p, t));
            }
        }
    } else if forall|q: TokenId| !#[trigger] has_edge(adj, t, q) {
        assert forall|q: TokenId| !#[trigger] has_edge(sub, t, q) by {
            if has_edge(sub, t, q) {
                assert(has_edge(adj, t, q));
            }
        }
    } else {
        let (p, q) = choose|p: TokenId, q: TokenId|
            #[trigger] sole_edges(adj, t, p, q) && !distinct_ids(adj[p][t] + adj[t][q]);
        if keep.contains(p) && keep.contains(q) {
            assert(has_edge(sub, p, t));
            assert(has_edge(sub, t, q));
            assert(sole_edges(sub, t, p, q));
            assert(sub[p][t] == adj[p][t]);
            assert(sub[t][q] == adj[t][q]);
        } else if !keep.contains(p) {
            assert forall|x: TokenId| !#[trigger] has_edge(sub, x, t) by {
                if has_edge(sub, x, t) {
                    assert(has_edge(adj, x, t));
                }
            }
        } else {
            assert forall|y: TokenId| !#[trigger] has_edge(sub, t, y) by {
                if has_edge(sub, t, y) {
                    assert(has_edge(adj, t, y));
                }
            }
        }
    }
}

/// A set of tokens that leaves nothing to prune in a graph leaves nothing
/// to prune in a subgraph holding it, and the other way around.
proof fn lemma_closed_set_in_subgraph(adj: Adjacency, d: Set<TokenId>, s: Set<TokenId>)
    requires
        d.subset_of(adj.dom()),
        s.subset_of(d),
    ensures
        closed_set(adj, s) == closed_set(induced(adj, d), s),
{
    lemma_induced_twice(adj, d, s);
    assert(induced(adj, d).dom() =~= d);
}

/// Whether the two lists of connections hold two different ones between
/// them.
fn has_distinct_ids(w1: &Vec<TokensConnectionType>, w2: &Vec<TokensConnectionType>) -> (r: bool)
    ensures
        r == distinct_ids(w1@ + w2@),
{
    let ghost s = w1@ + w2@;
    let first = if w1.len() > 0 {
        w1[0]
    } else if w2.len() > 0 {
        w2[0]
    } else {
        proof {
            assert(s.len() == 0);
        }
        return false;
    };
    assert(s[0] == first);
    let mut i: usize = 0;
    while i < w1.len()
        invariant
            i <= w1@.len(),
            s == w1@ + w2@,
            s.len() > 0 && s[0] == first,
            forall|k: int| 0 <= k < i ==> s[k] == first,
        decreases w1.len() - i,
    {
        if w1[i] != first {
            proof {
                assert(s[i as int] != s[0]);
            }
            return true;
        }
        i = i + 1;
    }
    let mut j: usize = 0;
    while j < w2.len()
        invariant
            i == w1@.len(),
            j <= w2@.len(),
            s == w1@ + w2@,
            s.len() > 0 && s[0] == first,
            forall|k: int| 0 <= k < i + j ==> s[k] == first,
        decreases w2.len() - j,
    {
        if w2[j] != first {
            proof {
                assert(s[i + j] == w2@[j as int]);
                assert(s[i + j] != s[0]);
            }
            return true;
        }
        proof {
            assert(s[i + j] == w2@[j as int]);
        }
        j = j + 1;
    }
    proof {
        assert forall|a: int, b: int| 0 <= a < s.len() && 0 <= b < s.len() implies !(#[trigger] s[a]
            != #[trigger] s[b]) by {
            assert(s[a] == first);
            assert(s[b] == first);
        }
    }
    false
}

/// Whether `path` is a walk along the edges of the graph.
pub open spec fn is_walk(adj: Adjacency, path: Seq<TokenId>) -> bool {
    &&& path.len() > 0
    &&& forall|k: int| 0 <= k < path.len() ==> adj.dom().contains(#[trigger] path[k])
    &&& forall|k: int| 0 <= k < path.len() - 1 ==> has_edge(adj, #[trigger] path[k], path[k + 1])
}

/// Whether a walk leads from `a` to `b`.
pub open spec fn reaches(adj: Adjacency, a: TokenId, b: TokenId) -> bool {
    exists|path: Seq<TokenId>| #[trigger] is_walk(adj, path) && path[0] == a && path.last() == b
}

/// Whether `comps` lists the strongly connected components of the graph:
/// every token in exactly one of them, none empty, the tokens of one
/// component reaching each other, tokens of different components never
/// reaching each other both ways, and no edge leading from a component to
/// a later one.
pub open spec fn is_scc_list(adj: Adjacency, comps: Seq<Seq<TokenId>>) -> bool {
    &&& forall|x: TokenId|
        adj.dom().contains(x) <==> exists|i: int, j: int|
            0 <= i < comps.len() && 0 <= j < comps[i].len() && #[trigger] comps[i][j] == x
    &&& forall|i1: int, j1: int, i2: int, j2: int|
        0 <= i1 < comps.len() && 0 <= j1 < comps[i1].len() && 0 <= i2 < comps.len() && 0 <= j2
            < comps[i2].len() && #[trigger] comps[i1][j1] == #[trigger] comps[i2][j2] ==> i1 == i2
            && j1 == j2
    &&& forall|i: int| 0 <= i < comps.len() ==> #[trigger] comps[i].len() > 0
    &&& forall|i: int, j1: int, j2: int|
        0 <= i < comps.len() && 0 <= j1 < comps[i].len() && 0 <= j2 < comps[i].len() ==> reaches(
            adj,
            #[trigger] comps[i][j1],
            #[trigger] comps[i][j2],
        )
    &&& forall|i1: int, j1: int, i2: int, j2: int|
        0 <= i1 < comps.len() && 0 <= j1 < comps[i1].len() && 0 <= i2 < comps.len() && 0 <= j2
            < comps[i2].len() && i1 != i2 ==> !(reaches(adj, #[trigger] comps[i1][j1], #[trigger] comps[i2][j2])
            && reaches(adj, comps[i2][j2], comps[i1][j1]))
    &&& forall|i1: int, j1: int, i2: int, j2: int|
        0 <= i1 < i2 < comps.len() && 0 <= j1 < comps[i1].len() && 0 <= j2 < comps[i2].len()
            ==> !has_edge(adj, #[trigger] comps[i1][j1], #[trigger] comps[i2][j2])
}

/// `petgraph::algo::kosaraju_scc`: the strongly connected components, in
/// reverse topological order, as its documentation describes them; the
/// order of the tokens within a component is not promised.
#[verifier::external_body]
fn store_components(g: &GraphStore) -> (r: Vec<Vec<TokenId>>)
    ensures
        is_scc_list(graph_adjacency(*g), r@.map_values(|c: Vec<TokenId>| c@)),
{
    petgraph::algo::kosaraju_scc(g)
}

/// Whether the graph has the connection `id` on the edge from `a` to `b`.
pub open spec fn has_connection(adj: Adjacency, a: TokenId, b: TokenId, id: TokensConnectionType) -> bool {
    has_edge(adj, a, b) && adj[a][b].contains(id)
}

/// Whether the graph holds an adjacency: its connection on the edge between
/// its tokens, both ways where it is undirected.
pub open spec fn holds_adjacency(adj: Adjacency, tokens: AdjacentTokens, id: TokensConnectionType) -> bool {
    match tokens {
        AdjacentTokens::Directed(a, b) => has_connection(adj, a, b, id),
        AdjacentTokens::Undirected(a, b) => has_connection(adj, a, b, id) && has_connection(adj, b, a, id),
    }
}

/// Adding a connection keeps every connection the graph had, holds the new
/// one, and adds nothing else.
proof fn lemma_with_connection(adj: Adjacency, a: TokenId, b: TokenId, id: TokensConnectionType)
    ensures
        has_connection(with_connection(adj, a, b, id), a, b, id),
        forall|x: TokenId, y: TokenId, c: TokensConnectionType|
            #[trigger] has_connection(with_connection(adj, a, b, id), x, y, c) <==> (has_connection(adj, x, y, c) || (x == a && y == b && c == id)),
{
    let r = with_connection(adj, a, b, id);
    assert forall|x: TokenId, y: TokenId, c: TokensConnectionType|
        #[trigger] has_connection(r, x, y, c) <==> (has_connection(adj, x, y, c) || (x == a && y == b && c == id)) by {
        if x == a && y == b {
            if has_edge(adj, a, b) && !adj[a][b].contains(id) {
                assert(adj[a][b].push(id).contains(c) <==> (adj[a][b].contains(c) || c == id)) by {
                    if adj[a][b].push(id).contains(c) {
                        let k = choose|k: int| 0 <= k < adj[a][b].push(id).len() && adj[a][b].push(id)[k] == c;
                        if k < adj[a][b].len() {
                            assert(adj[a][b][k] == c);
                        }
                    }
                    if adj[a][b].contains(c) {
                        let k = choose|k: int| 0 <= k < adj[a][b].len() && adj[a][b][k] == c;
                        assert(adj[a][b].push(id)[k] == c);
                    }
                    assert(adj[a][b].push(id)[adj[a][b].len() as int] == id);
                }
            } else if !has_edge(adj, a, b) {
                assert(seq![id].contains(c) <==> c == id) by {
                    assert(seq![id][0] == id);
                }
            }
        }
    }
}

/// Adding one adjacency keeps every connection the graph had, holds the
/// adjacency, and adds nothing else.
proof fn lemma_with_adjacency(adj: Adjacency, tokens: AdjacentTokens, id: TokensConnectionType)
    ensures
        holds_adjacency(with_adjacency_spec(adj, tokens, id), tokens, id),
        forall|x: TokenId, y: TokenId, c: TokensConnectionType|
            #[trigger] has_connection(with_adjacency_spec(adj, tokens, id), x, y, c) <==> (
            has_connection(adj, x, y, c) || (c == id && adjacency_edge(tokens, x, y))),
{
    match tokens {
        AdjacentTokens::Directed(a, b) => {
            lemma_with_connection(adj, a, b, id);
        },
        AdjacentTokens::Undirected(a, b) => {
            lemma_with_connection(adj, a, b, id);
            lemma_with_connection(with_connection(adj, a, b, id), b, a, id);
        },
    }
}

/// Whether the adjacency connects `x` to `y` by its edge or one of its two.
pub open spec fn adjacency_edge(tokens: AdjacentTokens, x: TokenId, y: TokenId) -> bool {
    match tokens {
        AdjacentTokens::Directed(a, b) => x == a && y == b,
        AdjacentTokens::Undirected(a, b) => (x == a && y == b) || (x == b && y == a),
    }
}

/// Adding pools and bridges to a graph keeps every connection it had,
/// holds each of them, and adds no other connection: the connections of
/// the result are exactly those of the graph and those of the adjacencies.
pub proof fn lemma_with_adjacencies<A: TokenAdjacency>(adj: Adjacency, s: Seq<A>)
    ensures
        forall|i: int|
            0 <= i < s.len() ==> holds_adjacency(
                with_adjacencies(adj, s),
                #[trigger] s[i].adjacency_spec(),
                s[i].id_spec(),
            ),
        forall|x: TokenId, y: TokenId, c: TokensConnectionType|
            #[trigger] has_connection(with_adjacencies(adj, s), x, y, c) <==> (has_connection(adj, x, y, c)
                || exists|i: int|
                0 <= i < s.len() && s[i].id_spec() == c && adjacency_edge(
                    #[trigger] s[i].adjacency_spec(),
                    x,
                    y,
                )),
    decreases s.len(),
{
    if s.len() > 0 {
        let prev = s.drop_last();
        lemma_with_adjacencies(adj, prev);
        let before = with_adjacencies(adj, prev);
        let last = s.last();
        lemma_with_adjacency(before, last.adjacency_spec(), last.id_spec());
        let after = with_adjacencies(adj, s);
        assert forall|i: int|
            0 <= i < s.len() implies holds_adjacency(after, #[trigger] s[i].adjacency_spec(), s[i].id_spec()) by {
            if i < s.len() - 1 {
                assert(prev[i] == s[i]);
                match s[i].adjacency_spec() {
                    AdjacentTokens::Directed(a, b) => {
                        assert(has_connection(before, a, b, s[i].id_spec()));
                    },
                    AdjacentTokens::Undirected(a, b) => {
                        assert(has_connection(before, a, b, s[i].id_spec()));
                        assert(has_connection(before, b, a, s[i].id_spec()));
                    },
                }
            }
        }
        assert forall|x: TokenId, y: TokenId, c: TokensConnectionType|
            #[trigger] has_connection(after, x, y, c) <==> (has_connection(adj, x, y, c) || exists|i: int|
                0 <= i < s.len() && s[i].id_spec() == c && adjacency_edge(
                    #[trigger] s[i].adjacency_spec(),
                    x,
                    y,
                )) by {
            if exists|i: int|
                0 <= i < s.len() && s[i].id_spec() == c && adjacency_edge(
                    #[trigger] s[i].adjacency_spec(),
                    x,
                    y,
                ) {
                let i = choose|i: int|
                    0 <= i < s.len() && s[i].id_spec() == c && adjacency_edge(
                        #[trigger] s[i].adjacency_spec(),
                        x,
                        y,
                    );
                if i < s.len() - 1 {
                    assert(prev[i] == s[i]);
                    assert(has_connection(before, x, y, c));
                }
            }
            if has_connection(before, x, y, c) && !has_connection(adj, x, y, c) {
                let i = choose|i: int|
                    0 <= i < prev.len() && prev[i].id_spec() == c && adjacency_edge(
                        #[trigger] prev[i].adjacency_spec(),
                        x,
                        y,
                    );
                assert(s[i] == prev[i]);
            }
        }
    }
}

/// Whether `r` is what pruning leaves of `adj`: the subgraph of `adj` on
/// the largest set of its tokens that leaves nothing to prune.
pub open spec fn is_pruning_of(r: Adjacency, adj: Adjacency) -> bool {
    &&& r == induced(adj, r.dom())
    &&& closed_set(adj, r.dom())
    &&& forall|s: Set<TokenId>| #[trigger] closed_set(adj, s) ==> s.subset_of(r.dom())
}

/// Whether the edges from `p` to `t` and from `t` to `q` carry between
/// them at least two different connections.
pub open spec fn two_connections(r: Adjacency, p: TokenId, t: TokenId, q: TokenId) -> bool {
    let a = r[p][t];
    let b = r[t][q];
    ||| exists|i: int, j: int|
        0 <= i < a.len() && 0 <= j < b.len() && #[trigger] a[i] != #[trigger] b[j]
    ||| exists|i: int, k: int|
        0 <= i < a.len() && 0 <= k < a.len() && #[trigger] a[i] != #[trigger] a[k]
    ||| exists|j: int, k: int|
        0 <= j < b.len() && 0 <= k < b.len() && #[trigger] b[j] != #[trigger] b[k]
}

/// A token that pruning keeps is not to be pruned in what is left.
proof fn lemma_pruned_not_prunable(adj: Adjacency, r: Adjacency, t: TokenId)
    requires
        r == induced(adj, r.dom()),
        closed_set(adj, r.dom()),
        r.dom().contains(t),
    ensures
        !prunable(r, t),
{
}

/// A token that is not to be pruned has an edge in and an edge out.
proof fn lemma_unprunable_edges(r: Adjacency, t: TokenId)
    requires
        r.dom().contains(t),
        !prunable(r, t),
    ensures
        exists|p: TokenId| has_edge(r, p, t),
        exists|q: TokenId| has_edge(r, t, q),
{
}

/// A token that is not to be pruned, with a single edge in and a single
/// edge out, has two different connections on them.
proof fn lemma_unprunable_dead_end(r: Adjacency, t: TokenId, p: TokenId, q: TokenId)
    requires
        r.dom().contains(t),
        !prunable(r, t),
        sole_edges(r, t, p, q),
    ensures
        two_connections(r, p, t, q),
{
    let a = r[p][t];
    let b = r[t][q];
    let w = a + b;
    assert(distinct_ids(w));
    let (i, j) = choose|i: int, j: int|
        0 <= i < w.len() && 0 <= j < w.len() && #[trigger] w[i] != #[trigger] w[j];
    let n = a.len();
    if i < n && j < n {
        assert(a[i] == w[i] && a[j] == w[j]);
    } else if i < n {
        assert(a[i] == w[i] && b[j - n] == w[j]);
    } else if j < n {
        assert(b[i - n] == w[i] && a[j] == w[j]);
    } else {
        assert(b[i - n] == w[i] && b[j - n] == w[j]);
    }
}

/// Every token that pruning keeps can be traded into and out of within what
/// is left: it has an edge in and an edge out.
pub proof fn lemma_pruned_token_has_edges(adj: Adjacency, r: Adjacency, t: TokenId)
    requires
        is_pruning_of(r, adj),
        r.dom().contains(t),
    ensures
        exists|p: TokenId| has_edge(r, p, t),
        exists|q: TokenId| has_edge(r, t, q),
{
    lemma_pruned_not_prunable(adj, r, t);
    lemma_unprunable_edges(r, t);
}

/// A token that pruning keeps with a single edge in, from `p`, and a single
/// edge out, to `q`, is not traded only back the way it came: those two
/// edges carry between them two different connections.
pub proof fn lemma_pruned_token_not_dead_end(
    adj: Adjacency,
    r: Adjacency,
    t: TokenId,
    p: TokenId,
    q: TokenId,
)
    requires
        is_pruning_of(r, adj),
        r.dom().contains(t),
        has_edge(r, p, t),
        has_edge(r, t, q),
        forall|x: TokenId| #[trigger] has_edge(r, x, t) ==> x == p,
        forall|y: TokenId| #[trigger] has_edge(r, t, y) ==> y == q,
    ensures
        two_connections(r, p, t, q),
{
    lemma_pruned_not_prunable(adj, r, t);
    assert(sole_edges(r, t, p, q));
    lemma_unprunable_dead_end(r, t, p, q);
}

/// Adding two lists of pools and bridges one after the other is adding
/// the two lists joined.
pub proof fn lemma_with_adjacencies_concat<A: TokenAdjacency>(adj: Adjacency, xs: Seq<A>, ys: Seq<A>)
    ensures
        with_adjacencies(adj, xs + ys) == with_adjacencies(with_adjacencies(adj, xs), ys),
    decreases ys.len(),
{
    if ys.len() == 0 {
        assert(xs + ys =~= xs);
    } else {
        lemma_with_adjacencies_concat(adj, xs, ys.drop_last());
        assert((xs + ys).drop_last() =~= xs + ys.drop_last());
        assert((xs + ys).last() == ys.last());
    }
}

/// The order in which pools and bridges are added does not change which
/// connections the graph carries: adding `xs` then `ys` gives the
/// connections of adding `ys` then `xs`.
pub proof fn lemma_with_adjacencies_order<A: TokenAdjacency>(adj: Adjacency, xs: Seq<A>, ys: Seq<A>)
    ensures
        forall|x: TokenId, y: TokenId, c: TokensConnectionType|
            #[trigger] has_connection(with_adjacencies(adj, xs + ys), x, y, c) <==> has_connection(
                with_adjacencies(adj, ys + xs),
                x,
                y,
                c,
            ),
{
    lemma_with_adjacencies(adj, xs + ys);
    lemma_with_adjacencies(adj, ys + xs);
    assert forall|x: TokenId, y: TokenId, c: TokensConnectionType|
        #[trigger] has_connection(with_adjacencies(adj, xs + ys), x, y, c) <==> has_connection(
            with_adjacencies(adj, ys + xs),
            x,
            y,
            c,
        ) by {
        let l = xs + ys;
        let r = ys + xs;
        if exists|i: int|
            0 <= i < l.len() && l[i].id_spec() == c && adjacency_edge(
                #[trigger] l[i].adjacency_spec(),
                x,
                y,
            ) {
            let i = choose|i: int|
                0 <= i < l.len() && l[i].id_spec() == c && adjacency_edge(
                    #[trigger] l[i].adjacency_spec(),
                    x,
                    y,
                );
            if i < xs.len() {
                assert(r[ys.len() + i] == l[i]);
            } else {
                assert(r[i - xs.len()] == l[i]);
            }
        }
        if exists|i: int|
            0 <= i < r.len() && r[i].id_spec() == c && adjacency_edge(
                #[trigger] r[i].adjacency_spec(),
                x,
                y,
            ) {
            let i = choose|i: int|
                0 <= i < r.len() && r[i].id_spec() == c && adjacency_edge(
                    #[trigger] r[i].adjacency_spec(),
                    x,
                    y,
                );
            if i < ys.len() {
                assert(l[xs.len() + i] == r[i]);
            } else {
                assert(l[i - ys.len()] == r[i]);
            }
        }
    }
}

/// What pruning leaves of a graph is a subgraph on tokens of the graph,
/// and itself leaves nothing to prune.
proof fn lemma_pruning_closed(adj: Adjacency, r: Adjacency)
    requires
        r == induced(adj, r.dom()),
        closed_set(adj, r.dom()),
    ensures
        r.dom().subset_of(adj.dom()),
        closed_set(r, r.dom()),
{
    let d = r.dom();
    assert(d.subset_of(adj.dom())) by {
        assert forall|t: TokenId| d.contains(t) implies adj.dom().contains(t) by {
            assert(induced(adj, d).dom().contains(t));
        }
    }
    lemma_closed_set_in_subgraph(adj, d, d);
}

/// A pruning of a pruning keeps all its tokens.
proof fn lemma_pruning_keeps_tokens(adj: Adjacency, once: Adjacency, twice: Adjacency)
    requires
        once == induced(adj, once.dom()),
        closed_set(adj, once.dom()),
        forall|s: Set<TokenId>| #[trigger] closed_set(once, s) ==> s.subset_of(twice.dom()),
        twice == induced(once, twice.dom()),
    ensures
        twice.dom() == once.dom(),
{
    lemma_pruning_closed(adj, once);
    assert(once.dom().subset_of(twice.dom()));
    assert(twice.dom().subset_of(once.dom())) by {
        assert forall|t: TokenId| twice.dom().contains(t) implies once.dom().contains(t) by {
            assert(induced(once, twice.dom()).dom().contains(t));
        }
    }
    assert(twice.dom() =~= once.dom());
}

/// Pruning a pruned graph changes nothing.
pub proof fn lemma_pruned_idempotent(adj: Adjacency, once: Adjacency, twice: Adjacency)
    requires
        is_pruning_of(once, adj),
        is_pruning_of(twice, once),
    ensures
        twice == once,
{
    lemma_pruning_keeps_tokens(adj, once, twice);
    lemma_induced_twice(adj, once.dom(), once.dom());
}

/// The outcome of pruning is one set of tokens, whatever the order in
/// which tokens are looked at: two sets that both leave nothing to prune
/// and hold every such set are the same.
pub proof fn lemma_pruned_unique(adj: Adjacency, r1: Set<TokenId>, r2: Set<TokenId>)
    requires
        closed_set(adj, r1),
        closed_set(adj, r2),
        forall|s: Set<TokenId>| #[trigger] closed_set(adj, s) ==> s.subset_of(r1),
        forall|s: Set<TokenId>| #[trigger] closed_set(adj, s) ==> s.subset_of(r2),
    ensures
        r1 == r2,
{
    assert(r1 =~= r2);
}

/// A graph of tokens, edges directed, each edge carrying the connections
/// (pools and bridges) that lead from its source token to its target.
pub struct DexGraph {
    graph: GraphStore,
}

impl View for DexGraph {
    type V = Adjacency;

    closed spec fn view(&self) -> Adjacency {
        graph_adjacency(self.graph)
    }
}

impl DexGraph {
    #[verifier::type_invariant]
    spec fn well_formed(self) -> bool {
        graph_wf(graph_adjacency(self.graph))
    }

    /// A graph with no tokens.
    pub fn new() -> (r: Self)
        ensures
            r@ == empty_adjacency(),
    {
        let graph = store_new();
        proof {
            assert(graph_adjacency(graph).dom() =~= Set::<TokenId>::empty());
        }
        DexGraph { graph }
    }
    /// The graph with the connection `id` on the edge from `token0` to
    /// `token1`.
    fn with_directed_edge(self, token0: TokenId, token1: TokenId, id: TokensConnectionType) -> (r: Self)
        ensures
            r@ == with_connection(self@, token0, token1, id),
    {
        proof {
            use_type_invariant(&self);
        }
        let DexGraph { graph: mut graph } = self;
        match store_edge_weight(&graph, token0, token1) {
            Some(mut ids) => {
                let mut i: usize = 0;
                let mut found = false;
                while i < ids.len()
                    invariant
                        i <= ids.len(),
                        found <==> exists|j: int| 0 <= j < i && ids@[j] == id,
                    decreases ids.len() - i,
                {
                    if ids[i] == id {
                        found = true;
                    }
                    i = i + 1;
                }
                if !found {
                    proof {
                        assert(!ids@.contains(id));
                        assert(ids@.push(id).no_duplicates()) by {
                            assert forall|x: int, y: int|
                                0 <= x < y < ids@.push(id).len() implies ids@.push(id)[x]
                                != ids@.push(id)[y] by {
                                if y == ids@.len() {
                                    assert(ids@[x] == ids@.push(id)[x]);
                                }
                            }
                        }
                        lemma_with_edge_wf(graph_adjacency(graph), token0, token1, ids@.push(id));
                    }
                    ids.push(id);
                    store_add_edge(&mut graph, token0, token1, ids);
                } else {
                    proof {
                        let j = choose|j: int| 0 <= j < ids@.len() && ids@[j] == id;
                        assert(ids@.contains(id));
                    }
                }
            },
            None => {
                proof {
                    lemma_with_edge_wf(graph_adjacency(graph), token0, token1, seq![id]);
                }
                let ids = vec![id];
                proof {
                    assert(ids@ =~= seq![id]);
                }
                store_add_edge(&mut graph, token0, token1, ids);
            },
        }
        DexGraph { graph }
    }

    /// The graph with one pool's or bridge's connection added between its
    /// tokens, both ways where it connects them both ways.
    fn with_adjacency<A: TokenAdjacency>(self, adjacency: &A) -> (r: Self)
        ensures
            r@ == with_adjacency_spec(self@, adjacency.adjacency_spec(), adjacency.id_spec()),
    {
        match adjacency.adjacent_tokens() {
            AdjacentTokens::Directed(token0, token1) => {
                self.with_directed_edge(token0, token1, adjacency.id())
            },
            AdjacentTokens::Undirected(token0, token1) => self.with_directed_edge(
                token0,
                token1,
                adjacency.id(),
            ).with_directed_edge(token1, token0, adjacency.id()),
        }
    }

    /// The graph with the connections of the pools or bridges added, one
    /// after the other.
    pub fn with_adjacent_tokens<A: TokenAdjacency>(self, adjacencies: &[A]) -> (r: Self)
        ensures
            r@ == with_adjacencies(self@, adjacencies@),
            graph_wf(r@),
    {
        let mut g = self;
        let mut i: usize = 0;
        while i < adjacencies.len()
            invariant
                i <= adjacencies@.len(),
                g@ == with_adjacencies(self@, adjacencies@.subrange(0, i as int)),
            decreases adjacencies.len() - i,
        {
            proof {
                assert(adjacencies@.subrange(0, i + 1).drop_last() =~= adjacencies@.subrange(
                    0,
                    i as int,
                ));
            }
            g = g.with_adjacency(&adjacencies[i]);
            i = i + 1;
        }
        proof {
            assert(adjacencies@.subrange(0, i as int) =~= adjacencies@);
            use_type_invariant(&g);
        }
        g
    }

    /// The graph without the token, and the tokens its edges led to.
    fn with_node_removed(self, token_id: TokenId) -> (r: (Self, Vec<TokenId>))
        ensures
            r.0@ == without_token(self@, token_id),
            r.1@.no_duplicates(),
            forall|x: TokenId| r.1@.contains(x) <==> has_edge(self@, token_id, x),
    {
        proof {
            use_type_invariant(&self);
            lemma_without_token_wf(self@, token_id);
        }
        let DexGraph { graph: mut graph } = self;
        let neighbors = store_neighbors(&graph, token_id);
        store_remove_node(&mut graph, token_id);
        (DexGraph { graph }, neighbors)
    }

    /// Whether the edges at the token make it one that pruning removes.
    fn is_prunable(&self, token_id: TokenId) -> (r: bool)
        ensures
            r == prunable(self@, token_id),
    {
        proof {
            use_type_invariant(self);
        }
        let adj = Ghost(self@);
        let incoming = store_edges_directed(&self.graph, token_id, EdgeDirection::Incoming);
        let outgoing = store_edges_directed(&self.graph, token_id, EdgeDirection::Outgoing);
        if incoming.len() == 0 {
            proof {
                assert forall|p: TokenId| !#[trigger] has_edge(adj@, p, token_id) by {
                    if has_edge(adj@, p, token_id) {
                        let i = choose|i: int| 0 <= i < incoming@.len() && #[trigger] incoming@[i].0 == p;
                    }
                }
            }
            return true;
        }
        if outgoing.len() == 0 {
            proof {
                assert forall|q: TokenId| !#[trigger] has_edge(adj@, token_id, q) by {
                    if has_edge(adj@, token_id, q) {
                        let i = choose|i: int| 0 <= i < outgoing@.len() && #[trigger] outgoing@[i].1 == q;
                    }
                }
            }
            return true;
        }
        let ghost p0 = incoming@[0].0;
        let ghost q0 = outgoing@[0].1;
        assert(has_edge(adj@, p0, token_id));
        assert(has_edge(adj@, token_id, q0));
        assert(adj@.dom().contains(token_id));
        if incoming.len() == 1 && outgoing.len() == 1 {
            proof {
                assert forall|x: TokenId| #[trigger] has_edge(adj@, x, token_id) implies x == p0 by {
                    let i = choose|i: int| 0 <= i < incoming@.len() && #[trigger] incoming@[i].0 == x;
                }
                assert forall|y: TokenId| #[trigger] has_edge(adj@, token_id, y) implies y == q0 by {
                    let i = choose|i: int| 0 <= i < outgoing@.len() && #[trigger] outgoing@[i].1 == y;
                }
                assert(sole_edges(adj@, token_id, p0, q0));
            }
            let distinct = has_distinct_ids(&incoming[0].2, &outgoing[0].2);
            proof {
                if !distinct {
                    assert(sole_edges(adj@, token_id, p0, q0) && !distinct_ids(
                        adj@[p0][token_id] + adj@[token_id][q0],
                    ));
                } else {
                    assert forall|p: TokenId, q: TokenId| #[trigger]
                        sole_edges(adj@, token_id, p, q) implies distinct_ids(
                        adj@[p][token_id] + adj@[token_id][q],
                    ) by {
                        assert(p == p0);
                        assert(q == q0);
                    }
                }
            }
            return !distinct;
        }
        proof {
            assert forall|p: TokenId, q: TokenId| !#[trigger] sole_edges(adj@, token_id, p, q) by {
                if sole_edges(adj@, token_id, p, q) {
                    if incoming@.len() > 1 {
                        assert(incoming@[0].0 != incoming@[1].0);
                        assert(has_edge(adj@, incoming@[1].0, incoming@[1].1));
                        assert(incoming@[0].0 == p);
                        assert(incoming@[1].0 == p);
                    } else {
                        assert(outgoing@[0].1 != outgoing@[1].1);
                        assert(has_edge(adj@, outgoing@[1].0, outgoing@[1].1));
                        assert(outgoing@[0].1 == q);
                        assert(outgoing@[1].1 == q);
                    }
                }
            }
        }
        false
    }

    /// Removes the token where pruning removes it, then looks again at the
    /// tokens its edges led to, and so on; adds one to the count for each
    /// token it takes out (and for a token already gone).
    fn prune_recursive(self, token_id: TokenId, pruned_count: usize) -> (r: (Self, usize))
        ensures
            r.0@.dom().subset_of(self@.dom()),
            r.0@ == induced(self@, r.0@.dom()),
            forall|s: Set<TokenId>| #[trigger] closed_set(self@, s) ==> s.subset_of(r.0@.dom()),
            r.1 >= pruned_count,
            r.1 > pruned_count ==> !self@.dom().contains(token_id) || r.0@.dom() != self@.dom(),
            r.1 == 0 ==> r.0@ == self@ && !prunable(self@, token_id),
        decreases self@.dom().len(),
    {
        proof {
            use_type_invariant(&self);
            lemma_induced_all(self@);
        }
        if !self.is_prunable(token_id) {
            return (self, pruned_count);
        }
        let ghost adj = self@;
        let ghost rest = adj.dom().remove(token_id);
        proof {
            lemma_without_token_induced(adj, token_id);
            assert(without_token(adj, token_id).dom() =~= rest);
            assert forall|s: Set<TokenId>| #[trigger] closed_set(adj, s) implies s.subset_of(rest)
                && closed_set(without_token(adj, token_id), s) by {
                if s.contains(token_id) {
                    lemma_prunable_in_subgraph(adj, s, token_id);
                }
                assert(s.subset_of(rest));
                lemma_closed_set_in_subgraph(adj, rest, s);
            }
        }
        let (updated, neighbors) = self.with_node_removed(token_id);
        let ghost after = updated@;
        proof {
            use_type_invariant(&updated);
            lemma_induced_all(after);
            if neighbors@.len() > 0 {
                assert(neighbors@.contains(neighbors@[0]));
            }
        }
        let mut g = updated;
        let mut count = pruned_count.saturating_add(1);
        let mut i: usize = 0;
        while i < neighbors.len()
            invariant
                i <= neighbors@.len(),
                neighbors@.len() > 0 ==> adj.dom().contains(token_id),
                adj == self@,
                adj.dom().finite(),
                after == induced(adj, rest),
                after.dom() == rest,
                rest == adj.dom().remove(token_id),
                g@.dom().subset_of(rest),
                g@ == induced(after, g@.dom()),
                forall|s: Set<TokenId>| #[trigger] closed_set(after, s) ==> s.subset_of(g@.dom()),
                count >= 1,
                count >= pruned_count,
            decreases neighbors@.len() - i,
        {
            proof {
                vstd::set_lib::lemma_len_subset(g@.dom(), rest);
                assert(rest.len() == adj.dom().len() - 1);
                assert(g@.dom().len() < self@.dom().len());
            }
            let (next, next_count) = g.prune_recursive(neighbors[i], count);
            proof {
                let d = g@.dom();
                lemma_induced_twice(after, d, next@.dom());
                assert forall|s: Set<TokenId>| #[trigger] closed_set(after, s) implies s.subset_of(
                    next@.dom(),
                ) by {
                    assert(s.subset_of(d));
                    lemma_closed_set_in_subgraph(after, d, s);
                    assert(induced(after, d) == g@);
                    assert(closed_set(g@, s));
                }
            }
            g = next;
            count = next_count;
            i = i + 1;
        }
        proof {
            lemma_induced_twice(adj, rest, g@.dom());
            if adj.dom().contains(token_id) {
                assert(!g@.dom().contains(token_id));
            }
        }
        (g, count)
    }

    /// The graph with its sources, sinks and dead ends removed, again and
    /// again, until none is left: the largest subgraph in which every token
    /// has an edge in and an edge out, and no token's only two edges carry a
    /// single connection between them.
    pub fn pruned(self) -> (r: Self)
        ensures
            graph_wf(r@),
            is_pruning_of(r@, self@),
    {
        let ghost orig = self@;
        proof {
            use_type_invariant(&self);
            lemma_induced_all(orig);
        }
        let mut current = self;
        loop
            invariant
                graph_wf(orig),
                current@.dom().subset_of(orig.dom()),
                current@ == induced(orig, current@.dom()),
                forall|s: Set<TokenId>| #[trigger] closed_set(orig, s) ==> s.subset_of(current@.dom()),
            ensures
                current@.dom().subset_of(orig.dom()),
                current@ == induced(orig, current@.dom()),
                forall|s: Set<TokenId>| #[trigger] closed_set(orig, s) ==> s.subset_of(current@.dom()),
                forall|t: TokenId| current@.dom().contains(t) ==> !prunable(current@, t),
            decreases current@.dom().len(),
        {
            proof {
                use_type_invariant(&current);
            }
            let tokens = current.tokens();
            let ghost start = current@;
            proof {
                lemma_induced_all(start);
            }
            let mut g = current;
            let mut count: usize = 0;
            let mut i: usize = 0;
            while i < tokens.len()
                invariant
                    i <= tokens@.len(),
                    forall|x: TokenId| tokens@.contains(x) <==> start.dom().contains(x),
                    start.dom().finite(),
                    g@.dom().subset_of(start.dom()),
                    g@ == induced(start, g@.dom()),
                    forall|s: Set<TokenId>| #[trigger] closed_set(start, s) ==> s.subset_of(g@.dom()),
                    count == 0 ==> g@ == start && forall|j: int|
                        0 <= j < i ==> !prunable(start, #[trigger] tokens@[j]),
                    count > 0 ==> g@.dom() != start.dom(),
                decreases tokens@.len() - i,
            {
                let ghost before = g@;
                let token = tokens[i];
                proof {
                    assert(tokens@.contains(token));
                }
                let (next, next_count) = g.prune_recursive(token, count);
                proof {
                    let d = before.dom();
                    lemma_induced_twice(start, d, next@.dom());
                    assert forall|s: Set<TokenId>| #[trigger] closed_set(start, s) implies s.subset_of(
                        next@.dom(),
                    ) by {
                        assert(s.subset_of(d));
                        lemma_closed_set_in_subgraph(start, d, s);
                        assert(closed_set(before, s));
                    }
                    if next_count > 0 {
                        if next@.dom() == start.dom() {
                            assert(d =~= start.dom());
                        }
                    }
                }
                g = next;
                count = next_count;
                i = i + 1;
            }
            proof {
                lemma_induced_twice(orig, start.dom(), g@.dom());
                assert forall|s: Set<TokenId>| #[trigger] closed_set(orig, s) implies s.subset_of(
                    g@.dom(),
                ) by {
                    lemma_closed_set_in_subgraph(orig, start.dom(), s);
                }
                if count > 0 {
                    vstd::set_lib::lemma_len_subset(g@.dom(), start.dom());
                    assert(!(g@.dom() =~= start.dom()));
                    let x = choose|x: TokenId| start.dom().contains(x) && !g@.dom().contains(x);
                    vstd::set_lib::lemma_len_subset(g@.dom(), start.dom().remove(x));
                } else {
                    assert forall|t: TokenId| start.dom().contains(t) implies !prunable(start, t) by {
                        assert(tokens@.contains(t));
                        let j = choose|j: int| 0 <= j < tokens@.len() && tokens@[j] == t;
                    }
                }
            }
            current = g;
            if count == 0 {
                break;
            }
        }
        proof {
            assert(closed_set(orig, current@.dom()));
            use_type_invariant(&current);
        }
        current
    }

    /// The strongly connected components of the graph: groups of tokens
    /// that can all be traded into one another.
    pub fn components(&self) -> (r: Vec<Vec<TokenId>>)
        ensures
            is_scc_list(self@, r@.map_values(|c: Vec<TokenId>| c@)),
    {
        store_components(&self.graph)
    }

    /// Whether `token` is one of the tokens.
    pub fn contains_token(&self, token: TokenId) -> (r: bool)
        ensures
            r == self@.dom().contains(token),
    {
        store_contains_node(&self.graph, token)
    }

    /// Whether the edge from `token0` to `token1` carries the connection
    /// `id`.
    pub fn contains_connection(&self, token0: TokenId, token1: TokenId, id: TokensConnectionType) -> (r:
        bool)
        ensures
            r == has_connection(self@, token0, token1, id),
    {
        match store_edge_weight(&self.graph, token0, token1) {
            None => false,
            Some(ids) => {
                let mut i: usize = 0;
                while i < ids.len()
                    invariant
                        i <= ids.len(),
                        has_edge(self@, token0, token1),
                        ids@ == self@[token0][token1],
                        forall|j: int| 0 <= j < i ==> ids@[j] != id,
                    decreases ids.len() - i,
                {
                    if ids[i] == id {
                        assert(ids@.contains(id));
                        return true;
                    }
                    i = i + 1;
                }
                proof {
                    if ids@.contains(id) {
                        let k = choose|k: int| 0 <= k < ids@.len() && ids@[k] == id;
                        assert(ids@[k] != id);
                    }
                }
                false
            },
        }
    }

    /// The number of tokens.
    pub fn tokens_count(&self) -> (r: usize)
        ensures
            r == self@.dom().len(),
    {
        store_node_count(&self.graph)
    }

    /// The tokens, each once.
    pub fn tokens(&self) -> (r: Vec<TokenId>)
        ensures
            r@.no_duplicates(),
            forall|x: TokenId| r@.contains(x) <==> self@.dom().contains(x),
    {
        store_nodes(&self.graph)
    }
}

} // verus!
