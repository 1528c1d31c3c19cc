//! Properties of whole sequences of insertions, stated over the successor
//! lists that `Graph::add_node` and `Graph::add_edge` are specified by.
use crate::{with_edge, Adjacency, NodeIndex};
use vstd::prelude::*;

verus! {

/// The successor lists after `count` calls of `add_node`: each call appends an
/// empty list.
pub open spec fn with_nodes(adj: Adjacency, count: nat) -> Adjacency
    decreases count,
{
    if count == 0 {
        adj
    } else {
        with_nodes(adj, (count - 1) as nat).push(Seq::empty())
    }
}

/// The successor lists after `add_edge(source, t)` has succeeded for each `t`
/// of `targets`, in order.
pub open spec fn with_edges(adj: Adjacency, source: NodeIndex, targets: Seq<NodeIndex>) -> Adjacency
    decreases targets.len(),
{
    if targets.len() == 0 {
        adj
    } else {
        with_edge(with_edges(adj, source, targets.drop_last()), source, targets.last())
    }
}

/// Node indices are dense: after `count` further nodes, the graph has `count`
/// more nodes, so the node added by the `i`-th call (counting from 0) on an
/// empty graph has index `i`; every added node starts without successors.
pub proof fn lemma_dense_node_indices(adj: Adjacency, count: nat)
    ensures
        with_nodes(adj, count).len() == adj.len() + count,
        forall|i: int| 0 <= i < adj.len() ==> #[trigger] with_nodes(adj, count)[i] == adj[i],
        forall|i: int|
            adj.len() <= i < adj.len() + count ==> #[trigger] with_nodes(adj, count)[i]
                == Seq::<NodeIndex>::empty(),
    decreases count,
{
    if count > 0 {
        lemma_dense_node_indices(adj, (count - 1) as nat);
    }
}

/// A node's successors come out in reverse order of insertion: after edges to
/// `t1, ..., tk` are added from `source`, in that order, its list starts with
/// `tk, ..., t1`, followed by the successors it had before.
pub proof fn lemma_reverse_insertion_order(
    adj: Adjacency,
    source: NodeIndex,
    targets: Seq<NodeIndex>,
)
    requires
        source < adj.len(),
    ensures
        with_edges(adj, source, targets).len() == adj.len(),
        with_edges(adj, source, targets)[source as int] == targets.reverse() + adj[source as int],
    decreases targets.len(),
{
    if targets.len() > 0 {
        let rest = targets.drop_last();
        lemma_reverse_insertion_order(adj, source, rest);
        assert(targets.reverse() =~= seq![targets.last()] + rest.reverse());
        assert(with_edges(adj, source, targets)[source as int] =~= targets.reverse()
            + adj[source as int]);
    } else {
        assert(targets.reverse() =~= Seq::<NodeIndex>::empty());
        assert(targets.reverse() + adj[source as int] =~= adj[source as int]);
    }
}

/// Adding edges from one node leaves every other node's successors as they
/// were.
pub proof fn lemma_isolation(
    adj: Adjacency,
    source: NodeIndex,
    targets: Seq<NodeIndex>,
    other: NodeIndex,
)
    requires
        source < adj.len(),
        other < adj.len(),
        other != source,
    ensures
        with_edges(adj, source, targets)[other as int] == adj[other as int],
    decreases targets.len(),
{
    if targets.len() > 0 {
        lemma_isolation(adj, source, targets.drop_last(), other);
        lemma_reverse_insertion_order(adj, source, targets.drop_last());
    }
}

} // verus!
