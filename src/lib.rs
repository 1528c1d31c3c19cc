//! A directed graph stored in two append-only arenas.
//!
//! Nodes and edges are identified by their position in their arena. Each node
//! records its most recently added outgoing edge, and each edge records the
//! edge that was its source's most recent one before it, so the outgoing edges
//! of a node form a singly linked list threaded through the edge arena.
//!
//! Abstractly a graph is the sequence, indexed by node, of each node's
//! successor list, most recently added edge first.
pub mod laws;

use vstd::prelude::*;

verus! {

/// Position of a node in the node arena.
pub type NodeIndex = usize;

/// Position of an edge in the edge arena.
pub type EdgeIndex = usize;

/// Why an operation on a graph was refused.
#[derive(Debug, Clone, Copy, PartialEq, Eq, Structural)]
pub enum GraphError {
    /// A node index at or beyond the number of nodes in the graph.
    InvalidIndex,
}

/// A node record: the head of its chain of outgoing edges.
#[derive(Debug, Clone, Copy)]
pub struct NodeData {
    first_outgoing_edge: Option<EdgeIndex>,
}

/// An edge record: its target, and the next edge of the same source's chain.
#[derive(Debug, Clone, Copy)]
pub struct EdgeData {
    target: NodeIndex,
    next_outgoing_edge: Option<EdgeIndex>,
}

/// A directed graph without payloads; edges are only ever added.
///
/// The target of an edge is not checked when the edge is added: it may name a
/// node that is created later.
pub struct Graph {
    nodes: Vec<NodeData>,
    edges: Vec<EdgeData>,
}

/// A graph seen abstractly: for each node, in index order, its successors,
/// most recently added edge first.
pub type Adjacency = Seq<Seq<NodeIndex>>;

/// The successor lists after an edge from `source` to `target` is added: the
/// target goes in front of the source's list, and no other list changes.
pub open spec fn with_edge(adj: Adjacency, source: NodeIndex, target: NodeIndex) -> Adjacency {
    adj.update(source as int, seq![target] + adj[source as int])
}

/// `link` points strictly before edge `e`, or nowhere.
spec fn links_back(link: Option<EdgeIndex>, e: EdgeIndex) -> bool {
    match link {
        Some(n) => n < e,
        None => true,
    }
}

/// `link` is absent or a position inside an arena of `len` edges.
spec fn link_within(link: Option<EdgeIndex>, len: int) -> bool {
    match link {
        Some(n) => n < len,
        None => true,
    }
}

/// The measure that shrinks along a chain whose links point backwards.
spec fn link_rank(link: Option<EdgeIndex>) -> nat {
    match link {
        Some(n) => n as nat + 1,
        None => 0,
    }
}

/// The targets met when following the chain of edges that starts at `link`.
///
/// The walk stops at a missing link, at a position outside the arena, and at a
/// link that does not point backwards (none of which a well-formed graph has).
spec fn chain(edges: Seq<EdgeData>, link: Option<EdgeIndex>) -> Seq<NodeIndex>
    decreases link_rank(link),
{
    match link {
        None => Seq::empty(),
        Some(e) => {
            if e < edges.len() && links_back(edges[e as int].next_outgoing_edge, e) {
                seq![edges[e as int].target] + chain(edges, edges[e as int].next_outgoing_edge)
            } else {
                Seq::empty()
            }
        },
    }
}

/// Appending an edge does not change a chain that starts inside the old arena.
proof fn lemma_chain_push(edges: Seq<EdgeData>, x: EdgeData, link: Option<EdgeIndex>)
    requires
        link_within(link, edges.len() as int),
    ensures
        chain(edges.push(x), link) == chain(edges, link),
    decreases link_rank(link),
{
    if let Some(e) = link {
        assert(edges.push(x)[e as int] == edges[e as int]);
        let next = edges[e as int].next_outgoing_edge;
        if links_back(next, e) {
            lemma_chain_push(edges, x, next);
        }
    }
}

impl Graph {
    /// Every link of the graph stays inside the edge arena and every edge
    /// links only to an older edge.
    pub closed spec fn wf(&self) -> bool {
        &&& forall|i: int|
            0 <= i < self.nodes@.len() ==> link_within(
                #[trigger] self.nodes@[i].first_outgoing_edge,
                self.edges@.len() as int,
            )
        &&& forall|e: int|
            0 <= e < self.edges@.len() ==> links_back(
                #[trigger] self.edges@[e].next_outgoing_edge,
                e as EdgeIndex,
            )
    }

    /// The number of edges added so far.
    pub closed spec fn edge_count(&self) -> nat {
        self.edges@.len()
    }
}

impl View for Graph {
    type V = Adjacency;

    closed spec fn view(&self) -> Adjacency {
        Seq::new(
            self.nodes@.len(),
            |i: int| chain(self.edges@, self.nodes@[i].first_outgoing_edge),
        )
    }
}

impl Graph {
    /// An empty graph: no nodes and no edges.
    pub fn new() -> (g: Graph)
        ensures
            g.wf(),
            g@ == Seq::<Seq<NodeIndex>>::empty(),
            g.edge_count() == 0,
    {
        let g = Graph { nodes: Vec::new(), edges: Vec::new() };
        assert(g@ =~= Seq::<Seq<NodeIndex>>::empty());
        g
    }

    /// Appends a node without outgoing edges and returns its index, which is
    /// the number of nodes the graph had before.
    pub fn add_node(&mut self) -> (r: NodeIndex)
        requires
            old(self).wf(),
        ensures
            final(self).wf(),
            r == old(self)@.len(),
            final(self)@ == old(self)@.push(Seq::empty()),
            final(self).edge_count() == old(self).edge_count(),
    {
        let index = self.nodes.len();
        self.nodes.push(NodeData { first_outgoing_edge: None });
        assert(self@ =~= old(self)@.push(Seq::empty()));
        index
    }

    /// Adds an edge from `source` to `target` and returns its index, which is
    /// the number of edges the graph had before. `target` is not checked
    /// against the nodes.
    ///
    /// Fails with `InvalidIndex`, changing nothing, when `source` is not a
    /// node of the graph.
    pub fn add_edge(&mut self, source: NodeIndex, target: NodeIndex) -> (r: Result<
        EdgeIndex,
        GraphError,
    >)
        requires
            old(self).wf(),
        ensures
            final(self).wf(),
            source < old(self)@.len() <==> r is Ok,
            r is Ok ==> {
                &&& r->Ok_0 == old(self).edge_count()
                &&& final(self)@ == with_edge(old(self)@, source, target)
                &&& final(self).edge_count() == old(self).edge_count() + 1
            },
            r is Err ==> {
                &&& r->Err_0 == GraphError::InvalidIndex
                &&& final(self)@ == old(self)@
                &&& final(self).edge_count() == old(self).edge_count()
            },
    {
        if source >= self.nodes.len() {
            return Err(GraphError::InvalidIndex);
        }
        let ghost old_edges = self.edges@;
        let edge_index = self.edges.len();
        let head = self.nodes[source].first_outgoing_edge;
        assert(link_within(old(self).nodes@[source as int].first_outgoing_edge, edge_index as int));
        let edge = EdgeData { target, next_outgoing_edge: head };
        self.edges.push(edge);
        self.nodes.set(source, NodeData { first_outgoing_edge: Some(edge_index) });
        proof {
            assert forall|i: int| 0 <= i < self.nodes@.len() implies link_within(
                #[trigger] self.nodes@[i].first_outgoing_edge,
                self.edges@.len() as int,
            ) by {
                if i != source {
                    assert(link_within(old(self).nodes@[i].first_outgoing_edge, edge_index as int));
                }
            }
            assert forall|e: int| 0 <= e < self.edges@.len() implies links_back(
                #[trigger] self.edges@[e].next_outgoing_edge,
                e as EdgeIndex,
            ) by {
                if e < edge_index {
                    assert(links_back(old_edges[e].next_outgoing_edge, e as EdgeIndex));
                }
            }
            assert forall|i: int| 0 <= i < old(self)@.len() implies #[trigger] self@[i]
                == with_edge(old(self)@, source, target)[i] by {
                lemma_chain_push(old_edges, edge, old(self).nodes@[i].first_outgoing_edge);
                if i == source {
                    assert(self.edges@[edge_index as int] == edge);
                }
            }
            assert(self@ =~= with_edge(old(self)@, source, target));
        }
        Ok(edge_index)
    }

    /// A cursor over the successors of `source`, most recently added edge
    /// first.
    ///
    /// Fails with `InvalidIndex` when `source` is not a node of the graph.
    pub fn successors(&self, source: NodeIndex) -> (r: Result<Successors<'_>, GraphError>)
        requires
            self.wf(),
        ensures
            source < self@.len() <==> r is Ok,
            r is Ok ==> r->Ok_0.wf() && r->Ok_0@ == self@[source as int],
            r is Err ==> r->Err_0 == GraphError::InvalidIndex,
    {
        if source >= self.nodes.len() {
            return Err(GraphError::InvalidIndex);
        }
        let first_outgoing_edge = self.nodes[source].first_outgoing_edge;
        Ok(Successors { graph: self, current_edge_index: first_outgoing_edge })
    }
}

/// A one-shot cursor over a node's successors. It holds only the index of the
/// next edge to read, so it needs no storage of its own.
pub struct Successors<'graph> {
    graph: &'graph Graph,
    current_edge_index: Option<EdgeIndex>,
}

impl<'graph> View for Successors<'graph> {
    type V = Seq<NodeIndex>;

    /// The successors that are still to come.
    closed spec fn view(&self) -> Seq<NodeIndex> {
        chain(self.graph.edges@, self.current_edge_index)
    }
}

impl<'graph> Successors<'graph> {
    /// The graph is well formed and the cursor points into its edge arena.
    pub closed spec fn wf(&self) -> bool {
        self.graph.wf() && link_within(self.current_edge_index, self.graph.edges@.len() as int)
    }

    /// The next successor, or `None` once the chain is exhausted (and at every
    /// call after that).
    pub fn next(&mut self) -> (r: Option<NodeIndex>)
        requires
            old(self).wf(),
        ensures
            final(self).wf(),
            old(self)@.len() == 0 ==> r is None && final(self)@ == old(self)@,
            old(self)@.len() > 0 ==> r == Some(old(self)@[0]) && final(self)@ == old(
                self,
            )@.drop_first(),
    {
        match self.current_edge_index {
            None => None,
            Some(edge_num) => {
                let edge = &self.graph.edges[edge_num];
                assert(links_back(
                    self.graph.edges@[edge_num as int].next_outgoing_edge,
                    edge_num as int as EdgeIndex,
                ));
                self.current_edge_index = edge.next_outgoing_edge;
                Some(edge.target)
            },
        }
    }

    /// All remaining successors, in the order `next` would give them.
    pub fn collect(self) -> (r: Vec<NodeIndex>)
        requires
            self.wf(),
        ensures
            r@ == self@,
    {
        let mut cursor = self;
        let mut out: Vec<NodeIndex> = Vec::new();
        loop
            invariant
                cursor.wf(),
                out@ + cursor@ == self@,
            ensures
                cursor@.len() == 0,
                out@ + cursor@ == self@,
            decreases cursor@.len(),
        {
            match cursor.next() {
                Some(t) => {
                    out.push(t);
                    assert(out@ + cursor@ =~= self@);
                },
                None => break,
            }
        }
        assert(cursor@ =~= Seq::<NodeIndex>::empty());
        assert(out@ =~= self@);
        out
    }
}

} // verus!
