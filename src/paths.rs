//! The URL view of a route tree: route groups and parallel slots are
//! structural only and add nothing to the path of the routes below them.

use vstd::prelude::*;
use crate::segment::RouteKind;
use crate::tree::{RouteEntry, RouteNode, lemma_nodes_of_push, node_of, nodes_of};
use crate::walk::{child_path, join_path, strs_view};

verus! {

/// Whether a node adds a piece to the URL path.
pub open spec fn adds_url_segment(n: RouteNode) -> bool {
    n.kind != RouteKind::RouteGroup && n.kind != RouteKind::ParallelSlot && n.segment.len() > 0
}

/// The effective URL path of `n`, below a parent whose path is `prefix`.
pub open spec fn url_of(prefix: Seq<char>, n: RouteNode) -> Seq<char> {
    if adds_url_segment(n) {
        join_path(prefix, n.segment)
    } else {
        prefix
    }
}

/// The URL paths of the addressable routes in `n` and below, in pre-order.
pub open spec fn node_routes(prefix: Seq<char>, n: RouteNode) -> Seq<Seq<char>>
    decreases n,
{
    let here = url_of(prefix, n);
    (if n.leaf {
        seq![here]
    } else {
        Seq::empty()
    }) + seq_routes(here, n.children)
}

/// The URL paths of the addressable routes in the sequence `ns`, in order.
pub open spec fn seq_routes(prefix: Seq<char>, ns: Seq<RouteNode>) -> Seq<Seq<char>>
    decreases ns,
{
    if ns.len() == 0 {
        Seq::empty()
    } else {
        seq_routes(prefix, ns.drop_last()) + node_routes(prefix, ns.last())
    }
}

fn adds_segment(e: &RouteEntry) -> (r: bool)
    ensures
        r == adds_url_segment(node_of(*e)),
{
    e.kind != RouteKind::RouteGroup && e.kind != RouteKind::ParallelSlot && e.segment.as_str().unicode_len() > 0
}

fn collect_routes(prefix: &String, entries: &Vec<RouteEntry>, out: &mut Vec<String>)
    ensures
        strs_view(final(out)@) == strs_view(old(out)@) + seq_routes(prefix@, nodes_of(entries@)),
    decreases entries@,
{
    let ghost start = strs_view(out@);
    let mut i: usize = 0;
    assert(entries@.subrange(0, 0) =~= Seq::<RouteEntry>::empty());
    assert(start + seq_routes(prefix@, nodes_of(entries@.subrange(0, 0))) =~= start);
    while i < entries.len()
        invariant
            i <= entries@.len(),
            strs_view(out@) == start + seq_routes(prefix@, nodes_of(entries@.subrange(0, i as int))),
        decreases entries@.len() - i,
    {
        let e = &entries[i];
        let here = if adds_segment(e) {
            child_path(prefix, &e.segment)
        } else {
            prefix.clone()
        };
        let ghost before = strs_view(out@);
        if e.is_leaf_route {
            out.push(here.clone());
        }
        let ghost mid = strs_view(out@);
        assert(mid =~= before + (if e.is_leaf_route {
            seq![here@]
        } else {
            Seq::empty()
        }));
        collect_routes(&here, &e.children, out);
        proof {
            let n = node_of(*e);
            assert(entries@.subrange(0, i + 1) =~= entries@.subrange(0, i as int).push(*e));
            lemma_nodes_of_push(entries@.subrange(0, i as int), *e);
            let pre = nodes_of(entries@.subrange(0, i as int));
            assert(pre.push(n).drop_last() =~= pre);
            assert(seq_routes(prefix@, pre.push(n)) == seq_routes(prefix@, pre) + node_routes(prefix@, n));
            assert(strs_view(out@) =~= start + seq_routes(prefix@, nodes_of(entries@.subrange(0, i + 1))));
        }
        i = i + 1;
    }
    assert(entries@.subrange(0, entries@.len() as int) =~= entries@);
}

/// The effective URL path of every addressable route of a tree, in pre-order.
pub fn route_paths(entries: &Vec<RouteEntry>) -> (r: Vec<String>)
    ensures
        strs_view(r@) == seq_routes(Seq::empty(), nodes_of(entries@)),
{
    let mut out: Vec<String> = Vec::new();
    let root = String::new();
    collect_routes(&root, entries, &mut out);
    assert(strs_view(Seq::<String>::empty()) =~= Seq::<Seq<char>>::empty());
    assert(Seq::<Seq<char>>::empty() + seq_routes(Seq::empty(), nodes_of(entries@)) =~= seq_routes(
        Seq::empty(),
        nodes_of(entries@),
    ));
    out
}


/// The field that a node adds to the parameter type of the routes below it:
/// a string for a dynamic segment, a sequence of strings for a catch-all,
/// and an optional one for an optional catch-all.
pub open spec fn param_field(n: RouteNode) -> Seq<char> {
    match (n.kind, n.param) {
        (RouteKind::Dynamic, Some(p)) => p + ": string; "@,
        (RouteKind::CatchAll, Some(p)) => p + ": string[]; "@,
        (RouteKind::OptionalCatchAll, Some(p)) => p + "?: string[]; "@,
        _ => Seq::empty(),
    }
}

/// The parameter types of the addressable routes in `n` and below, in
/// pre-order, below ancestors whose fields are `fields`.
pub open spec fn node_param_types(fields: Seq<char>, n: RouteNode) -> Seq<Seq<char>>
    decreases n,
{
    let here = fields + param_field(n);
    (if n.leaf {
        seq!["{ "@ + here + "}"@]
    } else {
        Seq::empty()
    }) + seq_param_types(here, n.children)
}

pub open spec fn seq_param_types(fields: Seq<char>, ns: Seq<RouteNode>) -> Seq<Seq<char>>
    decreases ns,
{
    if ns.len() == 0 {
        Seq::empty()
    } else {
        seq_param_types(fields, ns.drop_last()) + node_param_types(fields, ns.last())
    }
}

fn field_of(e: &RouteEntry) -> (r: String)
    ensures
        r@ == param_field(node_of(*e)),
{
    match (e.kind, &e.param_name) {
        (RouteKind::Dynamic, Some(p)) => {
            let mut r = p.clone();
            r.append(": string; ");
            r
        },
        (RouteKind::CatchAll, Some(p)) => {
            let mut r = p.clone();
            r.append(": string[]; ");
            r
        },
        (RouteKind::OptionalCatchAll, Some(p)) => {
            let mut r = p.clone();
            r.append("?: string[]; ");
            r
        },
        _ => String::new(),
    }
}

fn collect_param_types(fields: &String, entries: &Vec<RouteEntry>, out: &mut Vec<String>)
    ensures
        strs_view(final(out)@) == strs_view(old(out)@) + seq_param_types(fields@, nodes_of(entries@)),
    decreases entries@,
{
    let ghost start = strs_view(out@);
    let mut i: usize = 0;
    assert(entries@.subrange(0, 0) =~= Seq::<RouteEntry>::empty());
    assert(start + seq_param_types(fields@, nodes_of(entries@.subrange(0, 0))) =~= start);
    while i < entries.len()
        invariant
            i <= entries@.len(),
            strs_view(out@) == start + seq_param_types(fields@, nodes_of(entries@.subrange(0, i as int))),
        decreases entries@.len() - i,
    {
        let e = &entries[i];
        let mut here = fields.clone();
        let f = field_of(e);
        here.append(f.as_str());
        let ghost before = strs_view(out@);
        if e.is_leaf_route {
            let mut t = "{ ".to_owned();
            t.append(here.as_str());
            t.append("}");
            out.push(t);
        }
        let ghost mid = strs_view(out@);
        assert(mid =~= before + (if e.is_leaf_route {
            seq!["{ "@ + here@ + "}"@]
        } else {
            Seq::empty()
        }));
        collect_param_types(&here, &e.children, out);
        proof {
            let n = node_of(*e);
            assert(entries@.subrange(0, i + 1) =~= entries@.subrange(0, i as int).push(*e));
            lemma_nodes_of_push(entries@.subrange(0, i as int), *e);
            let pre = nodes_of(entries@.subrange(0, i as int));
            assert(pre.push(n).drop_last() =~= pre);
            assert(seq_param_types(fields@, pre.push(n)) == seq_param_types(fields@, pre) + node_param_types(
                fields@,
                n,
            ));
            assert(strs_view(out@) =~= start + seq_param_types(fields@, nodes_of(entries@.subrange(0, i + 1))));
        }
        i = i + 1;
    }
    assert(entries@.subrange(0, entries@.len() as int) =~= entries@);
}

/// The parameter type of every addressable route of a tree, in pre-order:
/// the same order as [`route_paths`].
pub fn route_param_types(entries: &Vec<RouteEntry>) -> (r: Vec<String>)
    ensures
        strs_view(r@) == seq_param_types(Seq::empty(), nodes_of(entries@)),
{
    let mut out: Vec<String> = Vec::new();
    let none = String::new();
    collect_param_types(&none, entries, &mut out);
    assert(strs_view(Seq::<String>::empty()) =~= Seq::<Seq<char>>::empty());
    assert(Seq::<Seq<char>>::empty() + seq_param_types(Seq::empty(), nodes_of(entries@)) =~= seq_param_types(
        Seq::empty(),
        nodes_of(entries@),
    ));
    out
}

proof fn lemma_seq_routes_concat(prefix: Seq<char>, a: Seq<RouteNode>, b: Seq<RouteNode>)
    ensures
        seq_routes(prefix, a + b) == seq_routes(prefix, a) + seq_routes(prefix, b),
    decreases b.len(),
{
    if b.len() == 0 {
        assert(a + b =~= a);
        assert(seq_routes(prefix, a) + seq_routes(prefix, b) =~= seq_routes(prefix, a));
    } else {
        lemma_seq_routes_concat(prefix, a, b.drop_last());
        assert((a + b).drop_last() =~= a + b.drop_last());
        assert((a + b).last() == b.last());
        assert(seq_routes(prefix, a + b) =~= seq_routes(prefix, a) + seq_routes(prefix, b));
    }
}

/// A route group adds no URL segment: the routes below it get the paths
/// they would get with its children standing in its place.
pub proof fn law_route_group_transparent(
    prefix: Seq<char>,
    before: Seq<RouteNode>,
    group: RouteNode,
    after: Seq<RouteNode>,
)
    requires
        group.kind == RouteKind::RouteGroup,
    ensures
        seq_routes(prefix, before + seq![group] + after) == seq_routes(prefix, before) + (if group.leaf {
            seq![prefix]
        } else {
            Seq::empty()
        }) + seq_routes(prefix, group.children) + seq_routes(prefix, after),
        !group.leaf ==> seq_routes(prefix, before + seq![group] + after) == seq_routes(
            prefix,
            before + group.children + after,
        ),
{
    lemma_seq_routes_concat(prefix, before + seq![group], after);
    lemma_seq_routes_concat(prefix, before, seq![group]);
    assert(seq![group].drop_last() =~= Seq::<RouteNode>::empty());
    assert(seq![group].last() == group);
    assert(seq_routes(prefix, Seq::<RouteNode>::empty()) == Seq::<Seq<char>>::empty());
    assert(seq_routes(prefix, seq![group]) =~= node_routes(prefix, group));
    lemma_seq_routes_concat(prefix, before + group.children, after);
    lemma_seq_routes_concat(prefix, before, group.children);
    assert(seq_routes(prefix, before + seq![group] + after) =~= seq_routes(prefix, before) + (if group.leaf {
        seq![prefix]
    } else {
        Seq::empty()
    }) + seq_routes(prefix, group.children) + seq_routes(prefix, after));
}


proof fn lemma_node_align(prefix: Seq<char>, fields: Seq<char>, n: RouteNode)
    ensures
        node_routes(prefix, n).len() == node_param_types(fields, n).len(),
    decreases n, 1int,
{
    law_param_types_align(url_of(prefix, n), fields + param_field(n), n.children);
}

/// A tree has as many route parameter types as route URL paths.
pub proof fn law_param_types_align(prefix: Seq<char>, fields: Seq<char>, ns: Seq<RouteNode>)
    ensures
        seq_routes(prefix, ns).len() == seq_param_types(fields, ns).len(),
    decreases ns, 0int,
{
    if ns.len() > 0 {
        law_param_types_align(prefix, fields, ns.drop_last());
        lemma_node_align(prefix, fields, ns.last());
    }
}

} // verus!
