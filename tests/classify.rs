use route_tree::segment::{classify_dir, classify_file, Convention, FileRole, RouteKind, Segment};

fn node(kind: RouteKind, param: Option<&str>) -> Segment {
    Segment::Node { kind, param: param.map(|p| p.to_string()) }
}

#[test]
fn dynamic_directory_binds_its_name() {
    assert_eq!(classify_dir(Convention::App, "[id]"), node(RouteKind::Dynamic, Some("id")));
    assert_eq!(classify_dir(Convention::Pages, "[id]"), node(RouteKind::Dynamic, Some("id")));
}

#[test]
fn catch_all_directory_binds_its_name() {
    assert_eq!(classify_dir(Convention::App, "[...slug]"), node(RouteKind::CatchAll, Some("slug")));
}

#[test]
fn optional_catch_all_directory_binds_its_name() {
    assert_eq!(
        classify_dir(Convention::App, "[[...slug]]"),
        node(RouteKind::OptionalCatchAll, Some("slug"))
    );
}

#[test]
fn route_group_only_in_app_convention() {
    assert_eq!(classify_dir(Convention::App, "(marketing)"), node(RouteKind::RouteGroup, None));
    assert_eq!(classify_dir(Convention::Pages, "(marketing)"), node(RouteKind::Static, None));
}

#[test]
fn parallel_slot_only_in_app_convention() {
    assert_eq!(classify_dir(Convention::App, "@modal"), node(RouteKind::ParallelSlot, None));
    assert_eq!(classify_dir(Convention::Pages, "@modal"), node(RouteKind::Static, None));
    assert_eq!(classify_dir(Convention::App, "@"), node(RouteKind::Static, None));
}

#[test]
fn private_directory_is_skipped() {
    assert_eq!(classify_dir(Convention::App, "_private"), Segment::Skip);
    assert_eq!(classify_dir(Convention::Pages, "_components"), Segment::Skip);
}

#[test]
fn plain_directory_is_static() {
    assert_eq!(classify_dir(Convention::App, "about"), node(RouteKind::Static, None));
    assert_eq!(classify_dir(Convention::App, "api"), node(RouteKind::Static, None));
}

#[test]
fn broken_brackets_are_malformed() {
    for name in ["[id", "id]", "[]", "[...]", "[[slug]]", "[[...slug]", "a[id]", "[..id]", "[a]b]"] {
        assert_eq!(classify_dir(Convention::App, name), Segment::Malformed, "{}", name);
        assert_eq!(classify_dir(Convention::Pages, name), Segment::Malformed, "{}", name);
    }
}

#[test]
fn broken_parentheses_are_malformed_in_app_convention() {
    assert_eq!(classify_dir(Convention::App, "(shop"), Segment::Malformed);
    assert_eq!(classify_dir(Convention::App, "()"), Segment::Malformed);
    assert_eq!(classify_dir(Convention::App, "((a))"), Segment::Malformed);
    assert_eq!(classify_dir(Convention::Pages, "(shop"), node(RouteKind::Static, None));
}

#[test]
fn app_reserved_files() {
    assert_eq!(classify_file(Convention::App, "page.tsx"), FileRole::Leaf);
    assert_eq!(classify_file(Convention::App, "page.js"), FileRole::Leaf);
    assert_eq!(classify_file(Convention::App, "route.ts"), FileRole::Handler);
    assert_eq!(classify_file(Convention::App, "layout.tsx"), FileRole::Ignore);
    assert_eq!(classify_file(Convention::App, "button.tsx"), FileRole::Ignore);
    assert_eq!(classify_file(Convention::App, "page.css"), FileRole::Ignore);
    assert_eq!(classify_file(Convention::App, "page"), FileRole::Ignore);
    assert_eq!(classify_file(Convention::App, ".tsx"), FileRole::Ignore);
}

#[test]
fn pages_files() {
    assert_eq!(classify_file(Convention::Pages, "index.tsx"), FileRole::Leaf);
    assert_eq!(
        classify_file(Convention::Pages, "about.tsx"),
        FileRole::Page { segment: "about".to_string(), kind: RouteKind::Static, param: None }
    );
    assert_eq!(
        classify_file(Convention::Pages, "[id].tsx"),
        FileRole::Page { segment: "[id]".to_string(), kind: RouteKind::Dynamic, param: Some("id".to_string()) }
    );
    assert_eq!(
        classify_file(Convention::Pages, "[...all].jsx"),
        FileRole::Page { segment: "[...all]".to_string(), kind: RouteKind::CatchAll, param: Some("all".to_string()) }
    );
    assert_eq!(
        classify_file(Convention::Pages, "some.page.ts"),
        FileRole::Page { segment: "some.page".to_string(), kind: RouteKind::Static, param: None }
    );
    assert_eq!(classify_file(Convention::Pages, "_app.tsx"), FileRole::Ignore);
    assert_eq!(classify_file(Convention::Pages, "styles.css"), FileRole::Ignore);
    assert_eq!(classify_file(Convention::Pages, "[id.tsx"), FileRole::Malformed);
}
