//! The route tree: the structure both walkers build and the generator reads.

use vstd::prelude::*;
use crate::segment::{RouteKind, opt_view};

verus! {

/// One node of the route tree.
#[derive(Debug)]
pub struct RouteEntry {
    /// The literal or templated path piece of this node.
    pub segment: String,
    pub kind: RouteKind,
    /// The parameter bound here; present exactly for the parameter kinds.
    pub param_name: Option<String>,
    /// Sub-entries, in directory read order.
    pub children: Vec<RouteEntry>,
    /// Whether a page or handler file was found at this level.
    pub is_leaf_route: bool,
}

/// Mathematical form of [`RouteEntry`].
pub struct RouteNode {
    pub segment: Seq<char>,
    pub kind: RouteKind,
    pub param: Option<Seq<char>>,
    pub children: Seq<RouteNode>,
    pub leaf: bool,
}

pub open spec fn node_of(e: RouteEntry) -> RouteNode
    decreases e,
{
    RouteNode {
        segment: e.segment@,
        kind: e.kind,
        param: opt_view(e.param_name),
        children: nodes_of(e.children@),
        leaf: e.is_leaf_route,
    }
}

pub open spec fn nodes_of(s: Seq<RouteEntry>) -> Seq<RouteNode>
    decreases s,
{
    if s.len() == 0 {
        Seq::empty()
    } else {
        nodes_of(s.drop_last()).push(node_of(s.last()))
    }
}

impl View for RouteEntry {
    type V = RouteNode;

    open spec fn view(&self) -> RouteNode {
        node_of(*self)
    }
}

pub proof fn lemma_nodes_of_index(s: Seq<RouteEntry>)
    ensures
        nodes_of(s).len() == s.len(),
        forall|j: int| 0 <= j < s.len() ==> #[trigger] nodes_of(s)[j] == node_of(s[j]),
    decreases s.len(),
{
    if s.len() > 0 {
        lemma_nodes_of_index(s.drop_last());
    }
}

pub proof fn lemma_nodes_of_push(s: Seq<RouteEntry>, e: RouteEntry)
    ensures
        nodes_of(s.push(e)) == nodes_of(s).push(node_of(e)),
{
    assert(s.push(e).drop_last() =~= s);
}

} // verus!
