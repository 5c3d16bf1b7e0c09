//! General facts about the walk, stated over its mathematical model.

use vstd::prelude::*;
use crate::segment::{Convention, FileRoleModel, RouteKind, SegmentModel, file_role_of, last_dot, segment_of};
use crate::tree::{RouteEntry, RouteNode, nodes_of};
use crate::walk::{
    FsEntry, Level, WalkError, WalkErrorModel, ambiguous, collides, dir_node, empty_level, extend_used,
    is_param_kind, join_path, root_node, walk_agrees, walk_entry, walk_from, walk_spec,
};

verus! {

/// A directory entry that walks into static nodes only: a directory with a
/// plain name and such entries below it, or a file that is neither a route
/// handler nor a page with a parameterised or broken name.
pub open spec fn static_entry(conv: Convention, e: FsEntry) -> bool
    decreases e,
{
    match e {
        FsEntry::File { name } => match file_role_of(conv, name@) {
            FileRoleModel::Handler => false,
            FileRoleModel::Malformed => false,
            FileRoleModel::Page { kind, .. } => kind == RouteKind::Static,
            _ => true,
        },
        FsEntry::Dir { name, entries } => segment_of(conv, name@) == (SegmentModel::Node {
            kind: RouteKind::Static,
            param: None,
        }) && static_entries(conv, entries@),
    }
}

pub open spec fn static_entries(conv: Convention, es: Seq<FsEntry>) -> bool
    decreases es,
{
    forall|i: int| 0 <= i < es.len() ==> static_entry(conv, #[trigger] es[i])
}

/// Every node is static and binds no parameter, all the way down.
pub open spec fn all_static(ns: Seq<RouteNode>) -> bool
    decreases ns,
{
    forall|i: int|
        0 <= i < ns.len() ==> (#[trigger] ns[i]).kind == RouteKind::Static && ns[i].param is None && all_static(
            ns[i].children,
        )
}

proof fn lemma_static_level(
    conv: Convention,
    es: Seq<FsEntry>,
    i: int,
    dir: Seq<char>,
    used: Seq<Seq<char>>,
    acc: Level,
)
    requires
        static_entries(conv, es),
        all_static(acc.nodes),
        !acc.handler,
    ensures
        walk_from(conv, es, i, dir, used, acc) is Ok,
        all_static(walk_from(conv, es, i, dir, used, acc)->Ok_0.nodes),
        !walk_from(conv, es, i, dir, used, acc)->Ok_0.handler,
    decreases es, es.len() - i,
{
    reveal_with_fuel(walk_from, 2);
    if 0 <= i < es.len() {
        assert(static_entry(conv, es[i]));
        match es[i] {
            FsEntry::File { name } => {
                match file_role_of(conv, name@) {
                    FileRoleModel::Leaf => {
                        lemma_static_level(conv, es, i + 1, dir, used, Level { leaf: true, ..acc });
                    },
                    FileRoleModel::Ignore => {
                        lemma_static_level(conv, es, i + 1, dir, used, acc);
                    },
                    FileRoleModel::Page { segment, kind, param } => {
                        let node = RouteNode { segment, kind, param, children: Seq::empty(), leaf: true };
                        let ns = acc.nodes.push(node);
                        assert(all_static(node.children));
                        assert(all_static(ns)) by {
                            assert forall|j: int| 0 <= j < ns.len() implies (#[trigger] ns[j]).kind
                                == RouteKind::Static && ns[j].param is None && all_static(ns[j].children) by {
                                if j < acc.nodes.len() {
                                    assert(ns[j] == acc.nodes[j]);
                                }
                            }
                        }
                        lemma_static_level(conv, es, i + 1, dir, used, Level { nodes: ns, ..acc });
                    },
                    _ => {},
                }
            },
            FsEntry::Dir { name, entries } => {
                assert(all_static(empty_level().nodes));
                lemma_static_level(conv, entries@, 0, join_path(dir, name@), used, empty_level());
                let sub = walk_from(conv, entries@, 0, join_path(dir, name@), used, empty_level())->Ok_0;
                let node = RouteNode {
                    segment: name@,
                    kind: RouteKind::Static,
                    param: None,
                    children: sub.nodes,
                    leaf: sub.leaf,
                };
                let ns = acc.nodes.push(node);
                assert(all_static(ns)) by {
                    assert forall|j: int| 0 <= j < ns.len() implies (#[trigger] ns[j]).kind == RouteKind::Static
                        && ns[j].param is None && all_static(ns[j].children) by {
                        if j < acc.nodes.len() {
                            assert(ns[j] == acc.nodes[j]);
                        }
                    }
                }
                lemma_static_level(conv, es, i + 1, dir, used, Level { nodes: ns, ..acc });
            },
        }
    }
}

/// A tree of plain directory names (holding no route handler and no
/// parameterised page file) walks without error into a tree whose nodes are
/// all static and bind no parameter.
pub proof fn law_static_tree(conv: Convention, root: Seq<FsEntry>)
    requires
        static_entries(conv, root),
    ensures
        walk_spec(conv, root) is Ok,
        all_static(walk_spec(conv, root)->Ok_0),
{
    assert(all_static(empty_level().nodes));
    lemma_static_level(conv, root, 0, Seq::empty(), Seq::empty(), empty_level());
    let l = walk_from(conv, root, 0, Seq::empty(), Seq::empty(), empty_level())->Ok_0;
    if l.leaf {
        let ns = walk_spec(conv, root)->Ok_0;
        assert(all_static(Seq::<RouteNode>::empty()));
        assert forall|j: int| 0 <= j < ns.len() implies (#[trigger] ns[j]).kind == RouteKind::Static
            && ns[j].param is None && all_static(ns[j].children) by {
            if j > 0 {
                assert(ns[j] == l.nodes[j - 1]);
            }
        }
    }
}


/// A directory entry that the walk leaves out with everything below it.
pub open spec fn is_private_dir(conv: Convention, e: FsEntry) -> bool {
    e matches FsEntry::Dir { name, .. } && segment_of(conv, name@) == SegmentModel::Skip
}

proof fn lemma_remove_shift(
    conv: Convention,
    es: Seq<FsEntry>,
    k: int,
    j: int,
    dir: Seq<char>,
    used: Seq<Seq<char>>,
)
    requires
        0 <= k < es.len(),
        k <= j,
    ensures
        forall|acc: Level|
            #[trigger] walk_from(conv, es, j + 1, dir, used, acc) == walk_from(conv, es.remove(k), j, dir, used, acc),
    decreases es.len() - j,
{
    let rs = es.remove(k);
    if j + 1 < es.len() {
        lemma_remove_shift(conv, es, k, j + 1, dir, used);
        assert(rs[j] == es[j + 1]);
        assert(rs.len() == es.len() - 1);
        assert forall|acc: Level| #[trigger]
            walk_from(conv, es, j + 1, dir, used, acc) == walk_from(conv, rs, j, dir, used, acc) by {
            match walk_entry(conv, rs[j], dir, used, acc) {
                Ok(next) => {
                    assert(walk_from(conv, es, j + 1 + 1, dir, used, next) == walk_from(conv, rs, j + 1, dir, used, next));
                },
                Err(_) => {},
            }
        }
    }
}

proof fn lemma_remove_prefix(
    conv: Convention,
    es: Seq<FsEntry>,
    k: int,
    j: int,
    dir: Seq<char>,
    used: Seq<Seq<char>>,
)
    requires
        0 <= k < es.len(),
        0 <= j <= k,
        is_private_dir(conv, es[k]),
    ensures
        forall|acc: Level|
            #[trigger] walk_from(conv, es, j, dir, used, acc) == walk_from(conv, es.remove(k), j, dir, used, acc),
    decreases k - j,
{
    let rs = es.remove(k);
    lemma_remove_shift(conv, es, k, k, dir, used);
    if j < k {
        lemma_remove_prefix(conv, es, k, j + 1, dir, used);
        assert(rs[j] == es[j]);
        assert forall|acc: Level| #[trigger]
            walk_from(conv, es, j, dir, used, acc) == walk_from(conv, rs, j, dir, used, acc) by {
            match walk_entry(conv, rs[j], dir, used, acc) {
                Ok(next) => {
                    assert(walk_from(conv, es, j + 1, dir, used, next) == walk_from(conv, rs, j + 1, dir, used, next));
                },
                Err(_) => {},
            }
        }
    } else {
        assert forall|acc: Level| #[trigger]
            walk_from(conv, es, j, dir, used, acc) == walk_from(conv, rs, j, dir, used, acc) by {
            assert(walk_entry(conv, es[k], dir, used, acc) == Ok::<Level, WalkErrorModel>(acc));
            assert(walk_from(conv, es, k + 1, dir, used, acc) == walk_from(conv, rs, k, dir, used, acc));
        }
    }
}

/// A private directory, with everything below it, has no effect on the walk
/// of the directory that holds it: the result is the one of the same
/// directory without it, at any depth of the tree.
pub proof fn law_private_dir_ignored(
    conv: Convention,
    es: Seq<FsEntry>,
    k: int,
    dir: Seq<char>,
    used: Seq<Seq<char>>,
    acc: Level,
)
    requires
        0 <= k < es.len(),
        is_private_dir(conv, es[k]),
    ensures
        walk_from(conv, es, 0, dir, used, acc) == walk_from(conv, es.remove(k), 0, dir, used, acc),
{
    lemma_remove_prefix(conv, es, k, 0, dir, used);
}

/// The same, for the whole tree of a convention root.
pub proof fn law_private_dir_ignored_at_root(conv: Convention, root: Seq<FsEntry>, k: int)
    requires
        0 <= k < root.len(),
        is_private_dir(conv, root[k]),
    ensures
        walk_spec(conv, root) == walk_spec(conv, root.remove(k)),
{
    law_private_dir_ignored(conv, root, k, Seq::empty(), Seq::empty(), empty_level());
}

/// The parameter a directory name binds, if any.
pub open spec fn bound_param(conv: Convention, name: Seq<char>) -> Option<Seq<char>> {
    match segment_of(conv, name) {
        SegmentModel::Node { param, .. } => param,
        _ => None,
    }
}

/// A parameter directory directly inside a parameter directory that binds
/// the same name ends the walk with a name collision at the inner one.
pub proof fn law_nested_param_reuse(conv: Convention, outer: FsEntry, p: Seq<char>)
    requires
        outer is Dir,
        bound_param(conv, outer->Dir_name@) == Some(p),
        outer->Dir_entries@.len() > 0,
        outer->Dir_entries@[0] is Dir,
        bound_param(conv, outer->Dir_entries@[0]->Dir_name@) == Some(p),
    ensures
        walk_spec(conv, seq![outer]) == Err::<Seq<RouteNode>, _>(
            WalkErrorModel::ParamNameCollision {
                path: join_path(outer->Dir_name@, outer->Dir_entries@[0]->Dir_name@),
                name: p,
            },
        ),
{
    reveal_with_fuel(walk_from, 3);
    let es = seq![outer];
    let name = outer->Dir_name;
    let entries = outer->Dir_entries;
    assert(es[0] == outer);
    let path = join_path(Seq::empty(), name@);
    let used = Seq::<Seq<char>>::empty().push(p);
    assert(used[0] == p);
    assert(used.contains(p));
    assert(!Seq::<Seq<char>>::empty().contains(p));
    assert(walk_from(conv, entries@, 0, path, used, empty_level()) == Err::<Level, _>(
        WalkErrorModel::ParamNameCollision { path: join_path(path, entries@[0]->Dir_name@), name: p },
    ));
}

/// Two walks of one tree agree: equal routes, or equal errors.
pub proof fn law_walk_deterministic(
    conv: Convention,
    root: Seq<FsEntry>,
    first: Result<Vec<RouteEntry>, WalkError>,
    second: Result<Vec<RouteEntry>, WalkError>,
)
    requires
        walk_agrees(first, walk_spec(conv, root)),
        walk_agrees(second, walk_spec(conv, root)),
    ensures
        match (first, second) {
            (Ok(a), Ok(b)) => nodes_of(a@) == nodes_of(b@),
            (Err(x), Err(y)) => x@ == y@,
            _ => false,
        },
{
}


/// The parameter invariants of a route tree below ancestors binding
/// `above`: a node has a parameter exactly when its kind binds one, and no
/// parameter name repeats along a root-to-leaf path.
pub open spec fn params_well_formed(ns: Seq<RouteNode>, above: Seq<Seq<char>>) -> bool
    decreases ns,
{
    forall|i: int|
        0 <= i < ns.len() ==> ((#[trigger] ns[i]).param is Some <==> is_param_kind(ns[i].kind)) && !collides(
            above,
            ns[i].param,
        ) && params_well_formed(ns[i].children, extend_used(above, ns[i].param))
}

proof fn lemma_segment_param(conv: Convention, s: Seq<char>)
    ensures
        segment_of(conv, s) matches SegmentModel::Node { kind, param } ==> (param is Some <==> is_param_kind(
            kind,
        )),
{
}

proof fn lemma_push_well_formed(ns: Seq<RouteNode>, n: RouteNode, above: Seq<Seq<char>>)
    requires
        params_well_formed(ns, above),
        n.param is Some <==> is_param_kind(n.kind),
        !collides(above, n.param),
        params_well_formed(n.children, extend_used(above, n.param)),
    ensures
        params_well_formed(ns.push(n), above),
{
    let ms = ns.push(n);
    assert forall|j: int| 0 <= j < ms.len() implies ((#[trigger] ms[j]).param is Some <==> is_param_kind(
        ms[j].kind,
    )) && !collides(above, ms[j].param) && params_well_formed(ms[j].children, extend_used(above, ms[j].param)) by {
        if j < ns.len() {
            assert(ms[j] == ns[j]);
        }
    }
}

proof fn lemma_well_formed_level(
    conv: Convention,
    es: Seq<FsEntry>,
    i: int,
    dir: Seq<char>,
    used: Seq<Seq<char>>,
    acc: Level,
)
    requires
        params_well_formed(acc.nodes, used),
    ensures
        walk_from(conv, es, i, dir, used, acc) is Ok ==> params_well_formed(
            walk_from(conv, es, i, dir, used, acc)->Ok_0.nodes,
            used,
        ),
    decreases es, es.len() - i,
{
    reveal_with_fuel(walk_from, 2);
    if 0 <= i < es.len() {
        match es[i] {
            FsEntry::File { name } => {
                match file_role_of(conv, name@) {
                    FileRoleModel::Leaf => {
                        lemma_well_formed_level(conv, es, i + 1, dir, used, Level { leaf: true, ..acc });
                    },
                    FileRoleModel::Handler => {
                        lemma_well_formed_level(
                            conv,
                            es,
                            i + 1,
                            dir,
                            used,
                            Level { leaf: true, handler: true, ..acc },
                        );
                    },
                    FileRoleModel::Ignore => {
                        lemma_well_formed_level(conv, es, i + 1, dir, used, acc);
                    },
                    FileRoleModel::Page { segment, kind, param } => {
                        let d = last_dot(name@, name@.len() as int);
                        lemma_segment_param(Convention::Pages, name@.subrange(0, d));
                        if !collides(used, param) && !ambiguous(acc.nodes, kind, param) {
                            let node = RouteNode { segment, kind, param, children: Seq::empty(), leaf: true };
                            assert(params_well_formed(node.children, extend_used(used, param)));
                            lemma_push_well_formed(acc.nodes, node, used);
                            lemma_well_formed_level(
                                conv,
                                es,
                                i + 1,
                                dir,
                                used,
                                Level { nodes: acc.nodes.push(node), ..acc },
                            );
                        }
                    },
                    FileRoleModel::Malformed => {},
                }
            },
            FsEntry::Dir { name, entries } => {
                lemma_segment_param(conv, name@);
                match segment_of(conv, name@) {
                    SegmentModel::Skip => {
                        lemma_well_formed_level(conv, es, i + 1, dir, used, acc);
                    },
                    SegmentModel::Malformed => {},
                    SegmentModel::Node { kind, param } => {
                        let path = join_path(dir, name@);
                        let inner = extend_used(used, param);
                        assert(params_well_formed(empty_level().nodes, inner));
                        lemma_well_formed_level(conv, entries@, 0, path, inner, empty_level());
                        let r = walk_from(conv, entries@, 0, path, inner, empty_level());
                        if !collides(used, param) && !ambiguous(acc.nodes, kind, param) && r is Ok {
                            let node = dir_node(name@, kind, param, r->Ok_0);
                            lemma_push_well_formed(acc.nodes, node, used);
                            lemma_well_formed_level(
                                conv,
                                es,
                                i + 1,
                                dir,
                                used,
                                Level { nodes: acc.nodes.push(node), ..acc },
                            );
                        }
                    },
                }
            },
        }
    }
}

/// Every tree a walk returns keeps the parameter invariants: a node has a
/// parameter name exactly when its kind binds one, and no name is bound
/// twice along a root-to-leaf path.
pub proof fn law_params_well_formed(conv: Convention, root: Seq<FsEntry>)
    ensures
        walk_spec(conv, root) is Ok ==> params_well_formed(walk_spec(conv, root)->Ok_0, Seq::empty()),
{
    let none = Seq::<Seq<char>>::empty();
    assert(params_well_formed(empty_level().nodes, none));
    lemma_well_formed_level(conv, root, 0, Seq::empty(), none, empty_level());
    let r = walk_from(conv, root, 0, Seq::empty(), none, empty_level());
    if r is Ok && r->Ok_0.leaf {
        let l = r->Ok_0;
        let top = root_node(l.handler);
        assert(params_well_formed(top.children, none));
        let ns = seq![top] + l.nodes;
        assert forall|j: int| 0 <= j < ns.len() implies ((#[trigger] ns[j]).param is Some <==> is_param_kind(
            ns[j].kind,
        )) && !collides(none, ns[j].param) && params_well_formed(ns[j].children, extend_used(none, ns[j].param)) by {
            if j > 0 {
                assert(ns[j] == l.nodes[j - 1]);
            }
        }
    }
}

} // verus!
