use route_tree::generate::{generate, render_constants, render_declarations, shape_or_empty, HEADER};
use route_tree::paths::{route_param_types, route_paths};
use route_tree::segment::RouteKind;
use route_tree::tree::RouteEntry;
use route_tree::walk::{walk_app, walk_pages, FsEntry, WalkError};

fn file(name: &str) -> FsEntry {
    FsEntry::File { name: name.to_string() }
}

fn dir(name: &str, entries: Vec<FsEntry>) -> FsEntry {
    FsEntry::Dir { name: name.to_string(), entries }
}

fn check(e: &RouteEntry, segment: &str, kind: RouteKind, param: Option<&str>, leaf: bool, children: usize) {
    assert_eq!(e.segment, segment);
    assert_eq!(e.kind, kind);
    assert_eq!(e.param_name.as_deref(), param);
    assert_eq!(e.is_leaf_route, leaf);
    assert_eq!(e.children.len(), children);
}

fn count_params(es: &[RouteEntry]) -> usize {
    es.iter().map(|e| e.param_name.iter().count() + count_params(&e.children)).sum()
}

fn all_static(es: &[RouteEntry]) -> bool {
    es.iter().all(|e| e.kind == RouteKind::Static && all_static(&e.children))
}

#[test]
fn static_tree_is_static_everywhere() {
    let root = vec![
        dir("blog", vec![dir("archive", vec![file("page.tsx")]), file("page.tsx")]),
        dir("about", vec![dir("team", vec![])]),
    ];
    let tree = walk_app(&root).unwrap();
    assert!(all_static(&tree));
    assert_eq!(count_params(&tree), 0);
    check(&tree[0], "blog", RouteKind::Static, None, true, 1);
    check(&tree[0].children[0], "archive", RouteKind::Static, None, true, 0);
    check(&tree[1], "about", RouteKind::Static, None, false, 1);
}

#[test]
fn dynamic_directory_with_page_is_leaf() {
    let root = vec![dir("[id]", vec![file("page.tsx")])];
    let tree = walk_app(&root).unwrap();
    assert_eq!(tree.len(), 1);
    check(&tree[0], "[id]", RouteKind::Dynamic, Some("id"), true, 0);
}

#[test]
fn catch_all_directory_node() {
    let root = vec![dir("docs", vec![dir("[...slug]", vec![file("page.tsx")])])];
    let tree = walk_app(&root).unwrap();
    check(&tree[0].children[0], "[...slug]", RouteKind::CatchAll, Some("slug"), true, 0);
}

#[test]
fn optional_catch_all_directory_node() {
    let root = vec![dir("[[...slug]]", vec![file("page.tsx")])];
    let tree = walk_app(&root).unwrap();
    check(&tree[0], "[[...slug]]", RouteKind::OptionalCatchAll, Some("slug"), true, 0);
}

#[test]
fn route_group_adds_no_url_segment() {
    let root = vec![dir("(marketing)", vec![dir("about", vec![file("page.tsx")]), file("page.tsx")])];
    let tree = walk_app(&root).unwrap();
    check(&tree[0], "(marketing)", RouteKind::RouteGroup, None, true, 1);
    assert_eq!(route_paths(&tree), vec!["".to_string(), "about".to_string()]);
}

#[test]
fn private_directory_never_appears() {
    let root = vec![
        dir("_private", vec![dir("secret", vec![file("page.tsx")]), file("page.tsx")]),
        dir("about", vec![file("page.tsx"), dir("_drafts", vec![dir("[id]", vec![file("page.tsx")])])]),
    ];
    let tree = walk_app(&root).unwrap();
    assert_eq!(tree.len(), 1);
    check(&tree[0], "about", RouteKind::Static, None, true, 0);
    assert_eq!(route_paths(&tree), vec!["about".to_string()]);
}

#[test]
fn nested_param_reuse_collides() {
    let root = vec![dir("[id]", vec![dir("[id]", vec![file("page.tsx")])])];
    assert_eq!(
        walk_app(&root).unwrap_err(),
        WalkError::ParamNameCollision { path: "[id]/[id]".to_string(), name: "id".to_string() }
    );
    let pages = vec![dir("[id]", vec![dir("x", vec![file("[...id].tsx")])])];
    assert_eq!(
        walk_pages(&pages).unwrap_err(),
        WalkError::ParamNameCollision { path: "[id]/x/[...id].tsx".to_string(), name: "id".to_string() }
    );
}

#[test]
fn distinct_nested_params_are_fine() {
    let root = vec![dir("[org]", vec![dir("[repo]", vec![file("page.tsx")])])];
    let tree = walk_app(&root).unwrap();
    check(&tree[0], "[org]", RouteKind::Dynamic, Some("org"), false, 1);
    check(&tree[0].children[0], "[repo]", RouteKind::Dynamic, Some("repo"), true, 0);
    assert_eq!(route_paths(&tree), vec!["[org]/[repo]".to_string()]);
}

#[test]
fn walking_twice_gives_identical_output() {
    let make = || {
        vec![
            file("index.tsx"),
            dir("blog", vec![file("[slug].tsx"), file("index.tsx")]),
            dir("_lib", vec![file("db.ts")]),
        ]
    };
    let first = walk_pages(&make()).unwrap();
    let second = walk_pages(&make()).unwrap();
    assert_eq!(format!("{:?}", first), format!("{:?}", second));
    let a = generate(Some(&format!("{:?}", first)), None);
    let b = generate(Some(&format!("{:?}", second)), None);
    assert_eq!(a.declarations, b.declarations);
    assert_eq!(a.constants, b.constants);
}

#[test]
fn pages_scenario_index_about_and_dynamic_user() {
    let root = vec![file("index.tsx"), file("about.tsx"), dir("users", vec![file("[id].tsx")])];
    let tree = walk_pages(&root).unwrap();
    assert_eq!(tree.len(), 3);
    check(&tree[0], "", RouteKind::Static, None, true, 0);
    check(&tree[1], "about", RouteKind::Static, None, true, 0);
    check(&tree[2], "users", RouteKind::Static, None, false, 1);
    check(&tree[2].children[0], "[id]", RouteKind::Dynamic, Some("id"), true, 0);
    assert_eq!(route_paths(&tree), vec!["".to_string(), "about".to_string(), "users/[id]".to_string()]);
}

#[test]
fn app_scenario_route_group_with_layout() {
    let root = vec![dir(
        "(shop)",
        vec![dir("products", vec![dir("[id]", vec![file("page.tsx")])]), file("layout.tsx")],
    )];
    let tree = walk_app(&root).unwrap();
    assert_eq!(tree.len(), 1);
    check(&tree[0], "(shop)", RouteKind::RouteGroup, None, false, 1);
    check(&tree[0].children[0], "products", RouteKind::Static, None, false, 1);
    check(&tree[0].children[0].children[0], "[id]", RouteKind::Dynamic, Some("id"), true, 0);
    assert_eq!(route_paths(&tree), vec!["products/[id]".to_string()]);
}

#[test]
fn absent_roots_render_empty_sequences() {
    let out = generate(None, None);
    assert_eq!(
        out.declarations,
        format!("{}\n\nexport type PAGES_ROUTES = [];\n\nexport type APP_ROUTES = [];", HEADER)
    );
    assert_eq!(
        out.constants,
        format!("{}\n\nexport const PAGES_ROUTES = [] as const;\nexport const APP_ROUTES = [] as const;", HEADER)
    );
}

#[test]
fn one_absent_root_does_not_affect_the_other() {
    let out = generate(Some("[{\"segment\":\"\"}]"), None);
    assert_eq!(
        out.declarations,
        format!(
            "{}\n\nexport type PAGES_ROUTES = [{{\"segment\":\"\"}}];\n\nexport type APP_ROUTES = [];",
            HEADER
        )
    );
    assert_eq!(shape_or_empty(Some("[1]")), "[1]");
    assert_eq!(shape_or_empty(None), "[]");
    assert_eq!(render_declarations("A", "B"), format!("{}\n\nexport type PAGES_ROUTES = A;\n\nexport type APP_ROUTES = B;", HEADER));
    assert_eq!(render_constants("A", "B"), format!("{}\n\nexport const PAGES_ROUTES = A as const;\nexport const APP_ROUTES = B as const;", HEADER));
}

#[test]
fn empty_root_gives_empty_tree() {
    assert!(walk_app(&vec![]).unwrap().is_empty());
    assert!(walk_pages(&vec![]).unwrap().is_empty());
}

#[test]
fn malformed_segment_reports_its_path() {
    let root = vec![dir("blog", vec![dir("[slug", vec![file("page.tsx")])])];
    assert_eq!(walk_app(&root).unwrap_err(), WalkError::MalformedSegment { path: "blog/[slug".to_string() });
    let pages = vec![file("[id.tsx")];
    assert_eq!(walk_pages(&pages).unwrap_err(), WalkError::MalformedSegment { path: "[id.tsx".to_string() });
}

#[test]
fn conflicting_dynamic_siblings_are_ambiguous() {
    let root = vec![dir("[id]", vec![file("page.tsx")]), dir("[slug]", vec![file("page.tsx")])];
    assert_eq!(walk_app(&root).unwrap_err(), WalkError::AmbiguousDynamicSibling { path: "[slug]".to_string() });
    let catch = vec![dir("[id]", vec![]), dir("[...id]", vec![])];
    assert_eq!(walk_app(&catch).unwrap_err(), WalkError::AmbiguousDynamicSibling { path: "[...id]".to_string() });
}

#[test]
fn same_dynamic_file_and_directory_may_coexist() {
    let root = vec![dir("users", vec![file("[id].tsx"), dir("[id]", vec![file("edit.tsx")])])];
    let tree = walk_pages(&root).unwrap();
    check(&tree[0].children[0], "[id]", RouteKind::Dynamic, Some("id"), true, 0);
    check(&tree[0].children[1], "[id]", RouteKind::Dynamic, Some("id"), false, 1);
    assert_eq!(
        route_paths(&tree),
        vec!["users/[id]".to_string(), "users/[id]/edit".to_string()]
    );
}

#[test]
fn route_file_makes_a_handler() {
    let root = vec![dir("api", vec![dir("hello", vec![file("route.ts")]), dir("[id]", vec![file("route.ts")])])];
    let tree = walk_app(&root).unwrap();
    check(&tree[0].children[0], "hello", RouteKind::Handler, None, true, 0);
    check(&tree[0].children[1], "[id]", RouteKind::Dynamic, Some("id"), true, 0);
    let top = vec![file("route.ts")];
    check(&walk_app(&top).unwrap()[0], "", RouteKind::Handler, None, true, 0);
}

#[test]
fn parallel_slot_adds_no_url_segment() {
    let root = vec![dir("dashboard", vec![file("page.tsx"), dir("@team", vec![file("page.tsx")])])];
    let tree = walk_app(&root).unwrap();
    check(&tree[0].children[0], "@team", RouteKind::ParallelSlot, None, true, 0);
    assert_eq!(route_paths(&tree), vec!["dashboard".to_string(), "dashboard".to_string()]);
}

#[test]
fn pages_api_directory_is_walked_like_any_other() {
    let root = vec![dir("api", vec![file("hello.ts"), dir("_util", vec![file("x.ts")])])];
    let tree = walk_pages(&root).unwrap();
    check(&tree[0], "api", RouteKind::Static, None, false, 1);
    assert_eq!(route_paths(&tree), vec!["api/hello".to_string()]);
}

#[test]
fn parameter_types_follow_the_path() {
    let root = vec![
        dir("[org]", vec![
            dir("[...path]", vec![file("page.tsx")]),
            dir("docs", vec![dir("[[...rest]]", vec![file("page.tsx")])]),
        ]),
        dir("(shop)", vec![dir("products", vec![dir("[id]", vec![file("page.tsx")])])]),
        dir("about", vec![file("page.tsx")]),
    ];
    let tree = walk_app(&root).unwrap();
    assert_eq!(
        route_paths(&tree),
        vec![
            "[org]/[...path]".to_string(),
            "[org]/docs/[[...rest]]".to_string(),
            "products/[id]".to_string(),
            "about".to_string(),
        ]
    );
    assert_eq!(
        route_param_types(&tree),
        vec![
            "{ org: string; path: string[]; }".to_string(),
            "{ org: string; rest?: string[]; }".to_string(),
            "{ id: string; }".to_string(),
            "{ }".to_string(),
        ]
    );
}
