//! The directory walker shared by both conventions.

use vstd::prelude::*;
use vstd::string::*;
use crate::segment::{
    Convention, FileRole, FileRoleModel, RouteKind, Segment, SegmentModel, classify_dir, classify_file,
    file_role_of, opt_view, segment_of,
};
use crate::tree::{RouteEntry, RouteNode, lemma_nodes_of_index, lemma_nodes_of_push, node_of, nodes_of};

verus! {

/// A directory tree as read from disk, entries in read order.
#[derive(Debug)]
pub enum FsEntry {
    File { name: String },
    Dir { name: String, entries: Vec<FsEntry> },
}

/// Why a walk was abandoned. Paths are relative to the convention root.
#[derive(Clone, Debug, PartialEq, Eq)]
pub enum WalkError {
    /// A component with broken bracket or parenthesis syntax.
    MalformedSegment { path: String },
    /// A parameter name bound twice on one root-to-leaf path.
    ParamNameCollision { path: String, name: String },
    /// Two siblings bind the same URL position with different parameters.
    AmbiguousDynamicSibling { path: String },
}

/// Mathematical form of [`WalkError`].
pub enum WalkErrorModel {
    MalformedSegment { path: Seq<char> },
    ParamNameCollision { path: Seq<char>, name: Seq<char> },
    AmbiguousDynamicSibling { path: Seq<char> },
}

impl View for WalkError {
    type V = WalkErrorModel;

    open spec fn view(&self) -> WalkErrorModel {
        match self {
            WalkError::MalformedSegment { path } => WalkErrorModel::MalformedSegment { path: path@ },
            WalkError::ParamNameCollision { path, name } => WalkErrorModel::ParamNameCollision {
                path: path@,
                name: name@,
            },
            WalkError::AmbiguousDynamicSibling { path } => WalkErrorModel::AmbiguousDynamicSibling {
                path: path@,
            },
        }
    }
}

/// What the walk of one directory level has gathered.
pub struct Level {
    pub nodes: Seq<RouteNode>,
    pub leaf: bool,
    pub handler: bool,
}

pub open spec fn empty_level() -> Level {
    Level { nodes: Seq::empty(), leaf: false, handler: false }
}

pub open spec fn join_path(dir: Seq<char>, name: Seq<char>) -> Seq<char> {
    if dir.len() == 0 {
        name
    } else {
        dir + seq!['/'] + name
    }
}

pub open spec fn is_param_kind(k: RouteKind) -> bool {
    k == RouteKind::Dynamic || k == RouteKind::CatchAll || k == RouteKind::OptionalCatchAll
}

/// Two parameter nodes at one position that bind differently.
pub open spec fn conflicts(n: RouteNode, kind: RouteKind, param: Option<Seq<char>>) -> bool {
    is_param_kind(n.kind) && is_param_kind(kind) && (n.kind != kind || n.param != param)
}

pub open spec fn ambiguous(nodes: Seq<RouteNode>, kind: RouteKind, param: Option<Seq<char>>) -> bool {
    exists|j: int| 0 <= j < nodes.len() && conflicts(#[trigger] nodes[j], kind, param)
}

pub open spec fn collides(used: Seq<Seq<char>>, param: Option<Seq<char>>) -> bool {
    match param {
        Some(p) => used.contains(p),
        None => false,
    }
}

pub open spec fn extend_used(used: Seq<Seq<char>>, param: Option<Seq<char>>) -> Seq<Seq<char>> {
    match param {
        Some(p) => used.push(p),
        None => used,
    }
}

/// The node a directory becomes once its own level has been walked.
pub open spec fn dir_node(segment: Seq<char>, kind: RouteKind, param: Option<Seq<char>>, sub: Level) -> RouteNode {
    RouteNode {
        segment,
        kind: if sub.handler && kind == RouteKind::Static { RouteKind::Handler } else { kind },
        param,
        children: sub.nodes,
        leaf: sub.leaf,
    }
}

/// Walks one entry of the directory at `dir`, whose ancestors bind the
/// parameters `used`, on top of what `acc` has gathered from the entries
/// before it.
pub open spec fn walk_entry(
    conv: Convention,
    e: FsEntry,
    dir: Seq<char>,
    used: Seq<Seq<char>>,
    acc: Level,
) -> Result<Level, WalkErrorModel>
    decreases e, 0int,
{
    match e {
        FsEntry::File { name } => {
            let path = join_path(dir, name@);
            match file_role_of(conv, name@) {
                FileRoleModel::Leaf => Ok(Level { leaf: true, ..acc }),
                FileRoleModel::Handler => Ok(Level { leaf: true, handler: true, ..acc }),
                FileRoleModel::Ignore => Ok(acc),
                FileRoleModel::Malformed => Err(WalkErrorModel::MalformedSegment { path }),
                FileRoleModel::Page { segment, kind, param } => {
                    if collides(used, param) {
                        Err(WalkErrorModel::ParamNameCollision { path, name: param->0 })
                    } else if ambiguous(acc.nodes, kind, param) {
                        Err(WalkErrorModel::AmbiguousDynamicSibling { path })
                    } else {
                        let node = RouteNode { segment, kind, param, children: Seq::empty(), leaf: true };
                        Ok(Level { nodes: acc.nodes.push(node), ..acc })
                    }
                },
            }
        },
        FsEntry::Dir { name, entries } => {
            let path = join_path(dir, name@);
            match segment_of(conv, name@) {
                SegmentModel::Skip => Ok(acc),
                SegmentModel::Malformed => Err(WalkErrorModel::MalformedSegment { path }),
                SegmentModel::Node { kind, param } => {
                    if collides(used, param) {
                        Err(WalkErrorModel::ParamNameCollision { path, name: param->0 })
                    } else if ambiguous(acc.nodes, kind, param) {
                        Err(WalkErrorModel::AmbiguousDynamicSibling { path })
                    } else {
                        match walk_from(conv, entries@, 0, path, extend_used(used, param), empty_level()) {
                            Err(e) => Err(e),
                            Ok(sub) => Ok(Level { nodes: acc.nodes.push(dir_node(name@, kind, param, sub)), ..acc }),
                        }
                    }
                },
            }
        },
    }
}

/// Walks `es[i..]` of the directory at `dir` on top of `acc`.
/// The first defect met in read order ends the walk.
pub open spec fn walk_from(
    conv: Convention,
    es: Seq<FsEntry>,
    i: int,
    dir: Seq<char>,
    used: Seq<Seq<char>>,
    acc: Level,
) -> Result<Level, WalkErrorModel>
    decreases es, es.len() - i,
{
    if i < 0 || i >= es.len() {
        Ok(acc)
    } else {
        match walk_entry(conv, es[i], dir, used, acc) {
            Err(e) => Err(e),
            Ok(next) => walk_from(conv, es, i + 1, dir, used, next),
        }
    }
}

pub open spec fn strs_view(v: Seq<String>) -> Seq<Seq<char>> {
    v.map_values(|s: String| s@)
}

/// Whether an exec walk result of one level agrees with [`walk_from`]'s.
pub open spec fn level_agrees(
    r: Result<(Vec<RouteEntry>, bool, bool), WalkError>,
    m: Result<Level, WalkErrorModel>,
) -> bool {
    match (r, m) {
        (Ok(t), Ok(l)) => nodes_of(t.0@) == l.nodes && t.1 == l.leaf && t.2 == l.handler,
        (Err(e), Err(em)) => e@ == em,
        _ => false,
    }
}

pub(crate) fn child_path(dir: &String, name: &String) -> (r: String)
    ensures
        r@ == join_path(dir@, name@),
{
    let mut r = dir.clone();
    if dir.as_str().unicode_len() > 0 {
        proof {
            reveal_strlit("/");
        }
        r.append("/");
        assert("/"@ =~= seq!['/']);
    }
    r.append(name.as_str());
    r
}

fn used_contains(used: &Vec<String>, p: &String) -> (r: bool)
    ensures
        r == strs_view(used@).contains(p@),
{
    let mut j: usize = 0;
    while j < used.len()
        invariant
            j <= used@.len(),
            forall|k: int| 0 <= k < j ==> used@[k]@ != p@,
        decreases used@.len() - j,
    {
        if used[j] == *p {
            assert(strs_view(used@)[j as int] == p@);
            return true;
        }
        j = j + 1;
    }
    assert(!strs_view(used@).contains(p@)) by {
        if strs_view(used@).contains(p@) {
            let k = choose|k: int| 0 <= k < strs_view(used@).len() && strs_view(used@)[k] == p@;
            assert(used@[k]@ == p@);
        }
    }
    false
}

fn same_param(a: &Option<String>, b: &Option<String>) -> (r: bool)
    ensures
        r == (opt_view(*a) == opt_view(*b)),
{
    match (a, b) {
        (Some(x), Some(y)) => *x == *y,
        (None, None) => true,
        _ => false,
    }
}

fn param_kind(k: RouteKind) -> (r: bool)
    ensures
        r == is_param_kind(k),
{
    k == RouteKind::Dynamic || k == RouteKind::CatchAll || k == RouteKind::OptionalCatchAll
}

fn has_conflict(nodes: &Vec<RouteEntry>, kind: RouteKind, param: &Option<String>) -> (r: bool)
    ensures
        r == ambiguous(nodes_of(nodes@), kind, opt_view(*param)),
{
    proof {
        lemma_nodes_of_index(nodes@);
    }
    if !param_kind(kind) {
        return false;
    }
    let mut j: usize = 0;
    while j < nodes.len()
        invariant
            j <= nodes@.len(),
            is_param_kind(kind),
            nodes_of(nodes@).len() == nodes@.len(),
            forall|k: int| 0 <= k < nodes@.len() ==> #[trigger] nodes_of(nodes@)[k] == node_of(nodes@[k]),
            forall|k: int| 0 <= k < j ==> !conflicts(#[trigger] nodes_of(nodes@)[k], kind, opt_view(*param)),
        decreases nodes@.len() - j,
    {
        let n = &nodes[j];
        if param_kind(n.kind) && (n.kind != kind || !same_param(&n.param_name, param)) {
            assert(conflicts(nodes_of(nodes@)[j as int], kind, opt_view(*param)));
            return true;
        }
        j = j + 1;
    }
    false
}

fn walk_level(conv: Convention, entries: &Vec<FsEntry>, dir: &String, used: &mut Vec<String>) -> (r: Result<
    (Vec<RouteEntry>, bool, bool),
    WalkError,
>)
    ensures
        final(used)@ == old(used)@,
        level_agrees(r, walk_from(conv, entries@, 0, dir@, strs_view(old(used)@), empty_level())),
    decreases entries@,
{
    let ghost u0 = used@;
    let ghost uv = strs_view(used@);
    let ghost whole = walk_from(conv, entries@, 0, dir@, uv, empty_level());
    let mut nodes: Vec<RouteEntry> = Vec::new();
    let mut leaf = false;
    let mut handler = false;
    let mut i: usize = 0;
    assert(nodes_of(nodes@) =~= Seq::<RouteNode>::empty());
    while i < entries.len()
        invariant
            i <= entries@.len(),
            used@ == u0,
            u0 == old(used)@,
            uv == strs_view(u0),
            whole == walk_from(conv, entries@, 0, dir@, uv, empty_level()),
            walk_from(conv, entries@, i as int, dir@, uv, Level { nodes: nodes_of(nodes@), leaf, handler })
                == whole,
        decreases entries@.len() - i,
    {
        proof {
            reveal_with_fuel(walk_from, 2);
        }
        match &entries[i] {
            FsEntry::File { name } => {
                match classify_file(conv, name.as_str()) {
                    FileRole::Leaf => {
                        leaf = true;
                    },
                    FileRole::Handler => {
                        leaf = true;
                        handler = true;
                    },
                    FileRole::Ignore => {},
                    FileRole::Malformed => {
                        return Err(WalkError::MalformedSegment { path: child_path(dir, name) });
                    },
                    FileRole::Page { segment, kind, param } => {
                        if let Some(p) = &param {
                            if used_contains(used, p) {
                                return Err(
                                    WalkError::ParamNameCollision { path: child_path(dir, name), name: p.clone() },
                                );
                            }
                        }
                        if has_conflict(&nodes, kind, &param) {
                            return Err(WalkError::AmbiguousDynamicSibling { path: child_path(dir, name) });
                        }
                        let node = RouteEntry {
                            segment,
                            kind,
                            param_name: param,
                            children: Vec::new(),
                            is_leaf_route: true,
                        };
                        assert(nodes_of(node.children@) =~= Seq::<RouteNode>::empty());
                        proof {
                            lemma_nodes_of_push(nodes@, node);
                        }
                        nodes.push(node);
                    },
                }
            },
            FsEntry::Dir { name, entries: sub } => {
                match classify_dir(conv, name.as_str()) {
                    Segment::Skip => {},
                    Segment::Malformed => {
                        return Err(WalkError::MalformedSegment { path: child_path(dir, name) });
                    },
                    Segment::Node { kind, param } => {
                        let path = child_path(dir, name);
                        if let Some(p) = &param {
                            if used_contains(used, p) {
                                return Err(WalkError::ParamNameCollision { path, name: p.clone() });
                            }
                        }
                        if has_conflict(&nodes, kind, &param) {
                            return Err(WalkError::AmbiguousDynamicSibling { path });
                        }
                        if let Some(p) = &param {
                            used.push(p.clone());
                        }
                        assert(strs_view(used@) =~= extend_used(uv, opt_view(param)));
                        let r = walk_level(conv, sub, &path, used);
                        if let Some(_) = &param {
                            used.pop();
                        }
                        assert(used@ =~= u0);
                        match r {
                            Err(e) => {
                                return Err(e);
                            },
                            Ok((cs, l, h)) => {
                                let k = if h && kind == RouteKind::Static {
                                    RouteKind::Handler
                                } else {
                                    kind
                                };
                                let node = RouteEntry {
                                    segment: name.clone(),
                                    kind: k,
                                    param_name: param,
                                    children: cs,
                                    is_leaf_route: l,
                                };
                                proof {
                                    lemma_nodes_of_push(nodes@, node);
                                }
                                nodes.push(node);
                            },
                        }
                    },
                }
            },
        }
        i = i + 1;
    }
    Ok((nodes, leaf, handler))
}


/// The entry that stands for the convention root itself when a page or
/// handler file sits directly in it: an empty segment.
pub open spec fn root_node(handler: bool) -> RouteNode {
    RouteNode {
        segment: Seq::empty(),
        kind: if handler { RouteKind::Handler } else { RouteKind::Static },
        param: None,
        children: Seq::empty(),
        leaf: true,
    }
}

pub open spec fn root_nodes(l: Level) -> Seq<RouteNode> {
    if l.leaf {
        seq![root_node(l.handler)] + l.nodes
    } else {
        l.nodes
    }
}

/// The route tree of a convention root holding `root`, or the first defect.
pub open spec fn walk_spec(conv: Convention, root: Seq<FsEntry>) -> Result<Seq<RouteNode>, WalkErrorModel> {
    match walk_from(conv, root, 0, Seq::empty(), Seq::empty(), empty_level()) {
        Ok(l) => Ok(root_nodes(l)),
        Err(e) => Err(e),
    }
}

pub open spec fn walk_agrees(r: Result<Vec<RouteEntry>, WalkError>, m: Result<Seq<RouteNode>, WalkErrorModel>) -> bool {
    match (r, m) {
        (Ok(v), Ok(ns)) => nodes_of(v@) == ns,
        (Err(e), Err(em)) => e@ == em,
        _ => false,
    }
}

/// Walks the entries of a convention root into its top-level route entries.
pub fn walk(conv: Convention, root: &Vec<FsEntry>) -> (r: Result<Vec<RouteEntry>, WalkError>)
    ensures
        walk_agrees(r, walk_spec(conv, root@)),
{
    let mut used: Vec<String> = Vec::new();
    let dir = String::new();
    assert(strs_view(used@) =~= Seq::<Seq<char>>::empty());
    match walk_level(conv, root, &dir, &mut used) {
        Err(e) => Err(e),
        Ok((nodes, leaf, handler)) => {
            if !leaf {
                return Ok(nodes);
            }
            let top = RouteEntry {
                segment: String::new(),
                kind: if handler {
                    RouteKind::Handler
                } else {
                    RouteKind::Static
                },
                param_name: None,
                children: Vec::new(),
                is_leaf_route: true,
            };
            assert(nodes_of(top.children@) =~= Seq::<RouteNode>::empty());
            let ghost before = nodes@;
            let mut all = nodes;
            all.insert(0, top);
            proof {
                lemma_nodes_of_index(before);
                lemma_nodes_of_index(all@);
                assert(nodes_of(all@) =~= seq![root_node(handler)] + nodes_of(before));
            }
            Ok(all)
        },
    }
}

/// Walks a pages-convention root.
pub fn walk_pages(root: &Vec<FsEntry>) -> (r: Result<Vec<RouteEntry>, WalkError>)
    ensures
        walk_agrees(r, walk_spec(Convention::Pages, root@)),
{
    walk(Convention::Pages, root)
}

/// Walks an app-convention root.
pub fn walk_app(root: &Vec<FsEntry>) -> (r: Result<Vec<RouteEntry>, WalkError>)
    ensures
        walk_agrees(r, walk_spec(Convention::App, root@)),
{
    walk(Convention::App, root)
}

} // verus!
