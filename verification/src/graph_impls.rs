//! `ConstructGraph` and `ReadGraph` on petgraph's graphs, list- and
//! matrix-backed.  The graphs themselves live in the outside crate; what
//! the library relies on — the node count, the collected edges, and the
//! index an added node gets — is named here and stated on thin wrappers
//! around the calls.

use vstd::multiset::Multiset;
use vstd::prelude::*;

use crate::graph::parse_graph_text;
use crate::graph::read_graph;
use crate::graph::spec_read_graph;
use crate::graph::ConstructGraph;
use crate::graph::ReadGraph;

verus! {

#[verifier::external_type_specification]
#[verifier::external_body]
#[verifier::reject_recursive_types(N)]
#[verifier::reject_recursive_types(E)]
#[verifier::reject_recursive_types(Ty)]
#[verifier::reject_recursive_types(Ix)]
pub struct ExPetgraphGraph<N, E, Ty, Ix>(petgraph::graph::Graph<N, E, Ty, Ix>);

#[verifier::external_type_specification]
#[verifier::external_body]
#[verifier::reject_recursive_types(Ix)]
pub struct ExPetgraphNodeIndex<Ix>(petgraph::graph::NodeIndex<Ix>);

#[verifier::external_type_specification]
#[verifier::external_body]
pub struct ExPetgraphUndirected(petgraph::Undirected);

/// How many nodes the graph holds.
pub uninterp spec fn pg_node_count(
    g: petgraph::graph::Graph<(), (), petgraph::Undirected, usize>,
) -> nat;

/// The edges the graph holds, as a bag of index pairs in insertion
/// direction.
pub uninterp spec fn pg_edges(
    g: petgraph::graph::Graph<(), (), petgraph::Undirected, usize>,
) -> Multiset<(nat, nat)>;

/// The position a node index stands for.
pub uninterp spec fn pg_index(ix: petgraph::graph::NodeIndex<usize>) -> nat;

/// Relies on `Graph::with_capacity`: a graph with no nodes and no edges.
#[verifier::external_body]
fn pg_with_capacity(nodes: usize, edges: usize) -> (r: petgraph::graph::Graph<
    (),
    (),
    petgraph::Undirected,
    usize,
>)
    ensures
        pg_node_count(r) == 0,
        pg_edges(r) == Multiset::<(nat, nat)>::empty(),
{
    petgraph::graph::Graph::with_capacity(nodes, edges)
}

/// Relies on `Graph::add_node`: one more node, whose index is the old node
/// count; the edges stay.  With `usize` indices the call cannot overflow
/// the index type.
#[verifier::external_body]
fn pg_add_node(g: &mut petgraph::graph::Graph<(), (), petgraph::Undirected, usize>) -> (r:
    petgraph::graph::NodeIndex<usize>)
    ensures
        pg_node_count(*final(g)) == pg_node_count(*old(g)) + 1,
        pg_edges(*final(g)) == pg_edges(*old(g)),
        pg_index(r) == pg_node_count(*old(g)),
{
    g.add_node(())
}

/// Relies on `Graph::add_edge`: the edge joins the bag, nodes stay.  The
/// call panics on an out-of-bounds endpoint, so both are required in
/// bounds.
#[verifier::external_body]
fn pg_add_edge(
    g: &mut petgraph::graph::Graph<(), (), petgraph::Undirected, usize>,
    a: petgraph::graph::NodeIndex<usize>,
    b: petgraph::graph::NodeIndex<usize>,
)
    requires
        pg_index(a) < pg_node_count(*old(g)),
        pg_index(b) < pg_node_count(*old(g)),
    ensures
        pg_node_count(*final(g)) == pg_node_count(*old(g)),
        pg_edges(*final(g)) == pg_edges(*old(g)).insert((pg_index(a), pg_index(b))),
{
    g.add_edge(a, b, ());
}

/// Relies on `Graph::node_count`: the number of nodes.
#[verifier::external_body]
fn pg_node_count_exec(g: &petgraph::graph::Graph<(), (), petgraph::Undirected, usize>) -> (r:
    usize)
    ensures
        r == pg_node_count(*g),
{
    g.node_count()
}

/// Relies on `NodeIndex::index`: the position the index stands for.
#[verifier::external_body]
fn pg_index_exec(ix: petgraph::graph::NodeIndex<usize>) -> (r: usize)
    ensures
        r == pg_index(ix),
{
    ix.index()
}

/// An undirected adjacency-list graph, carried by petgraph.
pub struct ListGraph {
    pub graph: petgraph::graph::Graph<(), (), petgraph::Undirected, usize>,
}

impl ListGraph {
    /// The petgraph value itself, for whoever draws or walks it.
    pub fn inner(&self) -> (r: &petgraph::graph::Graph<(), (), petgraph::Undirected, usize>)
        ensures
            r == self.graph,
    {
        &self.graph
    }

    /// How many nodes the graph holds.
    pub fn node_count(&self) -> (r: usize)
        ensures
            r == pg_node_count(self.graph),
    {
        pg_node_count_exec(&self.graph)
    }
}

impl ConstructGraph<petgraph::graph::NodeIndex<usize>> for ListGraph {
    fn new(nodes: usize, edges: usize) -> (r: Self)
        ensures
            pg_node_count(r.graph) == 0,
            pg_edges(r.graph) == Multiset::<(nat, nat)>::empty(),
    {
        ListGraph { graph: pg_with_capacity(nodes, edges) }
    }

    fn add_node(&mut self) -> (r: petgraph::graph::NodeIndex<usize>)
        ensures
            pg_node_count(final(self).graph) == pg_node_count(old(self).graph) + 1,
            pg_edges(final(self).graph) == pg_edges(old(self).graph),
            pg_index(r) == pg_node_count(old(self).graph),
    {
        pg_add_node(&mut self.graph)
    }

    /// An edge between nodes of the graph; an endpoint the graph does not
    /// have is discarded rather than reported, since the trait offers no
    /// error channel.
    fn add_edge(
        &mut self,
        from: petgraph::graph::NodeIndex<usize>,
        to: petgraph::graph::NodeIndex<usize>,
    )
        ensures
            pg_node_count(final(self).graph) == pg_node_count(old(self).graph),
            pg_index(from) < pg_node_count(old(self).graph) && pg_index(to) < pg_node_count(
                old(self).graph,
            ) ==> pg_edges(final(self).graph) == pg_edges(old(self).graph).insert(
                (pg_index(from), pg_index(to)),
            ),
            !(pg_index(from) < pg_node_count(old(self).graph) && pg_index(to) < pg_node_count(
                old(self).graph,
            )) ==> *final(self) == *old(self),
    {
        let n = pg_node_count_exec(&self.graph);
        if pg_index_exec(from) < n && pg_index_exec(to) < n {
            pg_add_edge(&mut self.graph, from, to);
        }
    }
}

/// The position a textual node identifier's node gets: its index among the
/// identifiers in order of first appearance.
pub open spec fn rank_in(nodes: Seq<usize>, u: usize) -> int
    decreases nodes.len(),
{
    if nodes.len() == 0 {
        0
    } else if nodes[0] == u {
        0
    } else {
        1 + rank_in(nodes.drop_first(), u)
    }
}

/// What building a graph from the parsed edges produces: the textual node
/// identifiers in order of first appearance, and the edges as pairs of
/// their nodes' positions, in input order.
pub open spec fn build_state(es: Seq<(usize, usize)>) -> (Seq<usize>, Multiset<(nat, nat)>)
    decreases es.len(),
{
    if es.len() == 0 {
        (Seq::empty(), Multiset::empty())
    } else {
        let prev = build_state(es.drop_last());
        let u = es.last().0;
        let v = es.last().1;
        let with_u = if prev.0.contains(u) {
            prev.0
        } else {
            prev.0.push(u)
        };
        let with_uv = if with_u.contains(v) {
            with_u
        } else {
            with_u.push(v)
        };
        (
            with_uv,
            prev.1.insert((rank_in(with_uv, u) as nat, rank_in(with_uv, v) as nat)),
        )
    }
}

/// The textual identifiers the node table has assigned nodes for.
pub open spec fn node_keys(nodes: Seq<(usize, petgraph::graph::NodeIndex<usize>)>) -> Seq<
    usize,
> {
    nodes.map_values(|p: (usize, petgraph::graph::NodeIndex<usize>)| p.0)
}

/// In a table without repeats, an identifier's rank is its index.
proof fn lemma_rank_at(nodes: Seq<usize>, j: int)
    requires
        forall|p: int, q: int| 0 <= p < q < nodes.len() ==> nodes[p] != nodes[q],
        0 <= j < nodes.len(),
    ensures
        rank_in(nodes, nodes[j]) == j,
    decreases nodes.len(),
{
    if j > 0 {
        assert(nodes[0] != nodes[j]);
        assert(nodes.drop_first()[j - 1] == nodes[j]);
        assert(forall|p: int, q: int|
            0 <= p < q < nodes.drop_first().len() ==> nodes.drop_first()[p]
                != nodes.drop_first()[q]);
        lemma_rank_at(nodes.drop_first(), j - 1);
    }
}

/// The node standing for a textual identifier, added at first sight.
fn list_node_of(
    graph: &mut ListGraph,
    nodes: &mut Vec<(usize, petgraph::graph::NodeIndex<usize>)>,
    key: usize,
) -> (r: petgraph::graph::NodeIndex<usize>)
    requires
        pg_node_count(old(graph).graph) == old(nodes)@.len(),
        forall|j: int|
            0 <= j < old(nodes)@.len() ==> pg_index((#[trigger] old(nodes)@[j]).1) == j,
    ensures
        pg_node_count(final(graph).graph) == final(nodes)@.len(),
        forall|j: int|
            0 <= j < final(nodes)@.len() ==> pg_index((#[trigger] final(nodes)@[j]).1) == j,
        pg_edges(final(graph).graph) == pg_edges(old(graph).graph),
        node_keys(old(nodes)@).contains(key) ==> *final(graph) == *old(graph) && final(nodes)@ == old(nodes)@,
        !node_keys(old(nodes)@).contains(key) ==> final(nodes)@ == old(nodes)@.push(
            (key, r),
        ) && pg_node_count(final(graph).graph) == pg_node_count(old(graph).graph) + 1,
        node_keys(final(nodes)@).contains(key),
        pg_index(r) < final(nodes)@.len(),
        final(nodes)@[pg_index(r) as int].0 == key,
{
    let mut i: usize = 0;
    while i < nodes.len()
        invariant
            0 <= i <= nodes@.len(),
            nodes@ == old(nodes)@,
            *graph == *old(graph),
            pg_node_count(graph.graph) == nodes@.len(),
            forall|j: int| 0 <= j < i ==> (#[trigger] nodes@[j]).0 != key,
            forall|j: int| 0 <= j < nodes@.len() ==> pg_index((#[trigger] nodes@[j]).1) == j,
        decreases nodes@.len() - i,
    {
        if nodes[i].0 == key {
            proof {
                assert(node_keys(nodes@)[i as int] == key);
            }
            return nodes[i].1;
        }
        i += 1;
    }
    proof {
        assert(forall|j: int|
            0 <= j < nodes@.len() ==> node_keys(nodes@)[j] == (#[trigger] nodes@[j]).0);
    }
    let ix = graph.add_node();
    nodes.push((key, ix));
    proof {
        assert(node_keys(nodes@).last() == key);
    }
    ix
}

impl ReadGraph for ListGraph {
    /// Reads the text and grows the graph: one node per textual endpoint at
    /// its first appearance, and one edge per edge line, as `build_state`
    /// says.
    fn read_from_str(s: &String) -> (r: Result<Self, String>)
        ensures
            r is Ok <==> spec_read_graph(s@) is Some,
            r matches Ok(g) ==> (spec_read_graph(s@) matches Some(p) && {
                &&& pg_node_count(g.graph) == build_state(p.2).0.len()
                &&& pg_edges(g.graph) == build_state(p.2).1
            }),
    {
        let (n, m, edges) = match parse_graph_text(s) {
            Ok(v) => v,
            Err(e) => {
                return Err(e);
            },
        };
        let mut graph = <ListGraph as ConstructGraph<
            petgraph::graph::NodeIndex<usize>,
        >>::new(n, m);
        let mut nodes: Vec<(usize, petgraph::graph::NodeIndex<usize>)> = Vec::new();
        proof {
            assert(node_keys(nodes@) =~= Seq::<usize>::empty());
            assert(edges@.take(0) =~= Seq::<(usize, usize)>::empty());
        }
        let mut i: usize = 0;
        while i < edges.len()
            invariant
                0 <= i <= edges@.len(),
                pg_node_count(graph.graph) == nodes@.len(),
                forall|j: int|
                    0 <= j < nodes@.len() ==> pg_index((#[trigger] nodes@[j]).1) == j,
                forall|p: int, q: int|
                    0 <= p < q < nodes@.len() ==> (#[trigger] nodes@[p]).0 != (
                    #[trigger] nodes@[q]).0,
                node_keys(nodes@) == build_state(edges@.take(i as int)).0,
                pg_edges(graph.graph) == build_state(edges@.take(i as int)).1,
            decreases edges@.len() - i,
        {
            proof {
                assert(edges@.take(i + 1).drop_last() =~= edges@.take(i as int));
                assert(edges@.take(i + 1).last() == edges@[i as int]);
            }
            let (u, v) = edges[i];
            let ghost keys0 = node_keys(nodes@);
            let ghost table0 = nodes@;
            let a = list_node_of(&mut graph, &mut nodes, u);
            proof {
                if !keys0.contains(u) {
                    assert(node_keys(nodes@) =~= keys0.push(u));
                    assert forall|p: int, q: int|
                        0 <= p < q < nodes@.len() implies (#[trigger] nodes@[p]).0 != (
                    #[trigger] nodes@[q]).0 by {
                        if q == nodes@.len() - 1 {
                            assert(keys0[p] == table0[p].0);
                        }
                    }
                }
            }
            let ghost keys1 = node_keys(nodes@);
            let ghost table1 = nodes@;
            let b = list_node_of(&mut graph, &mut nodes, v);
            proof {
                if !keys1.contains(v) {
                    assert(node_keys(nodes@) =~= keys1.push(v));
                    assert forall|p: int, q: int|
                        0 <= p < q < nodes@.len() implies (#[trigger] nodes@[p]).0 != (
                    #[trigger] nodes@[q]).0 by {
                        if q == nodes@.len() - 1 {
                            assert(keys1[p] == table1[p].0);
                        }
                    }
                }
            }
            let ghost keys2 = node_keys(nodes@);
            proof {
                assert(forall|j: int|
                    0 <= j < nodes@.len() ==> keys2[j] == (#[trigger] nodes@[j]).0);
                assert(nodes@[pg_index(a) as int].0 == u) by {
                    assert(table1[pg_index(a) as int].0 == u);
                    if table1.len() < nodes@.len() {
                        assert(nodes@[pg_index(a) as int] == table1[pg_index(a) as int]);
                    }
                }
                assert(keys2[pg_index(a) as int] == u);
                assert(keys2[pg_index(b) as int] == v);
                lemma_rank_at(keys2, pg_index(a) as int);
                lemma_rank_at(keys2, pg_index(b) as int);
                assert(rank_in(keys2, u) == pg_index(a));
                assert(rank_in(keys2, v) == pg_index(b));
            }
            graph.add_edge(a, b);
            i += 1;
        }
        proof {
            assert(edges@.take(edges@.len() as int) =~= edges@);
        }
        Ok(graph)
    }
}

/// An undirected adjacency-matrix graph, carried by petgraph.  Verus cannot
/// declare the matrix type itself (its `Nullable` bound has no
/// declaration), so the whole value stays behind this opaque struct.
#[verifier::external_body]
pub struct AdjacencyMatrixGraph {
    graph: petgraph::matrix_graph::MatrixGraph<(), (), petgraph::Undirected, Option<()>, usize>,
}

/// How many nodes the matrix graph holds.
pub uninterp spec fn mx_node_count(g: AdjacencyMatrixGraph) -> nat;

/// The edges the matrix graph holds, as a bag with one index pair per
/// edge.  An undirected matrix keeps a single slot per node pair and does
/// not record the orientation an edge was inserted in, so every statement
/// over this bag is up to the order of the pair.
pub uninterp spec fn mx_edges(g: AdjacencyMatrixGraph) -> Multiset<(nat, nat)>;

/// Relies on `MatrixGraph::with_capacity`: a graph with no nodes and no
/// edges.
#[verifier::external_body]
fn mx_with_capacity(nodes: usize) -> (r: AdjacencyMatrixGraph)
    ensures
        mx_node_count(r) == 0,
        mx_edges(r) == Multiset::<(nat, nat)>::empty(),
{
    AdjacencyMatrixGraph { graph: petgraph::matrix_graph::MatrixGraph::with_capacity(nodes) }
}

/// Relies on `MatrixGraph::add_node`: one more node, edges untouched.
#[verifier::external_body]
fn mx_add_node(g: &mut AdjacencyMatrixGraph) -> (r: petgraph::graph::NodeIndex<usize>)
    ensures
        mx_node_count(*final(g)) == mx_node_count(*old(g)) + 1,
        mx_edges(*final(g)) == mx_edges(*old(g)),
{
    g.graph.add_node(())
}

/// Relies on `MatrixGraph::update_edge`: the edge is added if absent and
/// left as it stands if already there; the matrix grows as needed and the
/// nodes stay.  The matrix does not keep the orientation, so the new pair
/// is stated in either order.
#[verifier::external_body]
fn mx_update_edge(
    g: &mut AdjacencyMatrixGraph,
    a: petgraph::graph::NodeIndex<usize>,
    b: petgraph::graph::NodeIndex<usize>,
)
    ensures
        mx_node_count(*final(g)) == mx_node_count(*old(g)),
        mx_edges(*final(g)) == mx_edges(*old(g)) || mx_edges(*final(g)) == mx_edges(
            *old(g),
        ).insert((pg_index(a), pg_index(b))) || mx_edges(*final(g)) == mx_edges(
            *old(g),
        ).insert((pg_index(b), pg_index(a))),
{
    g.graph.update_edge(a, b, ());
}

/// Relies on `MatrixGraph::node_count`: the number of nodes.
#[verifier::external_body]
fn mx_node_count_exec(g: &AdjacencyMatrixGraph) -> (r: usize)
    ensures
        r == mx_node_count(*g),
{
    g.graph.node_count()
}

/// Relies on `MatrixGraph::has_edge`: whether an edge joins the two nodes,
/// in either direction for an undirected matrix.
#[verifier::external_body]
fn mx_has_edge(
    g: &AdjacencyMatrixGraph,
    a: petgraph::graph::NodeIndex<usize>,
    b: petgraph::graph::NodeIndex<usize>,
) -> (r: bool)
    ensures
        r == (mx_edges(*g).contains((pg_index(a), pg_index(b))) || mx_edges(*g).contains(
            (pg_index(b), pg_index(a)),
        )),
{
    g.graph.has_edge(a, b)
}

impl AdjacencyMatrixGraph {
    /// How many nodes the graph holds.
    pub fn node_count(&self) -> (r: usize)
        ensures
            r == mx_node_count(*self),
    {
        mx_node_count_exec(self)
    }

    /// Whether an edge joins the two nodes, in either direction.
    pub fn has_edge(
        &self,
        a: petgraph::graph::NodeIndex<usize>,
        b: petgraph::graph::NodeIndex<usize>,
    ) -> (r: bool)
        ensures
            r == (mx_edges(*self).contains((pg_index(a), pg_index(b))) || mx_edges(
                *self,
            ).contains((pg_index(b), pg_index(a)))),
    {
        mx_has_edge(self, a, b)
    }
}

impl ConstructGraph<petgraph::graph::NodeIndex<usize>> for AdjacencyMatrixGraph {
    fn new(nodes: usize, _edges: usize) -> (r: Self)
        ensures
            mx_node_count(r) == 0,
            mx_edges(r) == Multiset::<(nat, nat)>::empty(),
    {
        mx_with_capacity(nodes)
    }

    fn add_node(&mut self) -> (r: petgraph::graph::NodeIndex<usize>)
        ensures
            mx_node_count(*final(self)) == mx_node_count(*old(self)) + 1,
            mx_edges(*final(self)) == mx_edges(*old(self)),
    {
        mx_add_node(self)
    }

    /// An edge between two nodes; one already present is left as it
    /// stands, and the matrix keeps no orientation.
    fn add_edge(
        &mut self,
        from: petgraph::graph::NodeIndex<usize>,
        to: petgraph::graph::NodeIndex<usize>,
    )
        ensures
            mx_node_count(*final(self)) == mx_node_count(*old(self)),
            mx_edges(*final(self)) == mx_edges(*old(self)) || mx_edges(*final(self))
                == mx_edges(*old(self)).insert((pg_index(from), pg_index(to))) || mx_edges(
                *final(self),
            ) == mx_edges(*old(self)).insert((pg_index(to), pg_index(from))),
    {
        mx_update_edge(self, from, to);
    }
}

impl ReadGraph for AdjacencyMatrixGraph {
    fn read_from_str(s: &String) -> (r: Result<Self, String>)
        ensures
            r is Ok <==> spec_read_graph(s@) is Some,
    {
        read_graph::<petgraph::graph::NodeIndex<usize>, AdjacencyMatrixGraph>(s)
    }
}

} // verus!
