//! Classification of a single path component under a routing convention.

use vstd::prelude::*;
use vstd::string::*;

verus! {

/// The routing role of a node in the route tree.
#[derive(Clone, Copy, PartialEq, Eq, Structural, Debug)]
pub enum RouteKind {
    Static,
    Dynamic,
    CatchAll,
    OptionalCatchAll,
    RouteGroup,
    ParallelSlot,
    Handler,
}

/// The two file-based routing conventions.
#[derive(Clone, Copy, PartialEq, Eq, Structural, Debug)]
pub enum Convention {
    /// Every source file is a page; `index` stands for its directory.
    Pages,
    /// Directories are routes; `page` and `route` files make them addressable.
    App,
}

/// What a directory name (or a pages-style file's base name) means.
#[derive(Clone, Debug, PartialEq, Eq)]
pub enum Segment {
    /// A node of the given kind, with the parameter it binds, if any.
    Node { kind: RouteKind, param: Option<String> },
    /// A private component: it and everything below it are left out.
    Skip,
    /// Unbalanced or nonsensical bracket or parenthesis syntax.
    Malformed,
}

/// Mathematical form of [`Segment`].
pub enum SegmentModel {
    Node { kind: RouteKind, param: Option<Seq<char>> },
    Skip,
    Malformed,
}

pub open spec fn opt_view(o: Option<String>) -> Option<Seq<char>> {
    match o {
        Some(s) => Some(s@),
        None => None,
    }
}

impl View for Segment {
    type V = SegmentModel;

    open spec fn view(&self) -> SegmentModel {
        match self {
            Segment::Node { kind, param } => SegmentModel::Node { kind: *kind, param: opt_view(*param) },
            Segment::Skip => SegmentModel::Skip,
            Segment::Malformed => SegmentModel::Malformed,
        }
    }
}

/// The role of a file inside a routable directory.
#[derive(Clone, Debug, PartialEq, Eq)]
pub enum FileRole {
    /// Makes the containing directory an addressable route.
    Leaf,
    /// Makes the containing directory a route handler.
    Handler,
    /// A pages-style page file: a leaf node of its own, named by the base name.
    Page { segment: String, kind: RouteKind, param: Option<String> },
    /// Not a route file.
    Ignore,
    /// A pages-style file name with broken bracket syntax.
    Malformed,
}

/// Mathematical form of [`FileRole`].
pub enum FileRoleModel {
    Leaf,
    Handler,
    Page { segment: Seq<char>, kind: RouteKind, param: Option<Seq<char>> },
    Ignore,
    Malformed,
}

impl View for FileRole {
    type V = FileRoleModel;

    open spec fn view(&self) -> FileRoleModel {
        match self {
            FileRole::Leaf => FileRoleModel::Leaf,
            FileRole::Handler => FileRoleModel::Handler,
            FileRole::Page { segment, kind, param } => FileRoleModel::Page {
                segment: segment@,
                kind: *kind,
                param: opt_view(*param),
            },
            FileRole::Ignore => FileRoleModel::Ignore,
            FileRole::Malformed => FileRoleModel::Malformed,
        }
    }
}

pub open spec fn is_param_char(c: char) -> bool {
    c != '[' && c != ']' && c != '.' && c != '/'
}

/// A parameter identifier: non-empty, without brackets, dots or slashes.
pub open spec fn is_param_name(s: Seq<char>) -> bool {
    s.len() > 0 && forall|i: int| 0 <= i < s.len() ==> is_param_char(#[trigger] s[i])
}

pub open spec fn has_char(s: Seq<char>, c: char) -> bool {
    exists|i: int| 0 <= i < s.len() && s[i] == c
}

/// `[[...name]]`
pub open spec fn is_optional_catch_all(s: Seq<char>) -> bool {
    &&& s.len() >= 7
    &&& s[0] == '[' && s[1] == '[' && s[2] == '.' && s[3] == '.' && s[4] == '.'
    &&& s[s.len() - 2] == ']' && s[s.len() - 1] == ']'
    &&& is_param_name(s.subrange(5, s.len() - 2))
}

/// `[...name]`
pub open spec fn is_catch_all(s: Seq<char>) -> bool {
    &&& s.len() >= 5
    &&& s[0] == '[' && s[1] == '.' && s[2] == '.' && s[3] == '.'
    &&& s[s.len() - 1] == ']'
    &&& is_param_name(s.subrange(4, s.len() - 1))
}

/// `[name]`
pub open spec fn is_dynamic(s: Seq<char>) -> bool {
    &&& s.len() >= 3
    &&& s[0] == '[' && s[s.len() - 1] == ']'
    &&& is_param_name(s.subrange(1, s.len() - 1))
}

/// `(group)`: a non-empty name without parentheses, wrapped in parentheses.
pub open spec fn is_route_group(s: Seq<char>) -> bool {
    &&& s.len() >= 3
    &&& s[0] == '(' && s[s.len() - 1] == ')'
    &&& forall|i: int| 1 <= i < s.len() - 1 ==> #[trigger] s[i] != '(' && s[i] != ')'
}

/// `@slot`
pub open spec fn is_parallel_slot(s: Seq<char>) -> bool {
    s.len() >= 2 && s[0] == '@'
}

/// The meaning of a directory name, by the rules in priority order.
pub open spec fn segment_of(conv: Convention, s: Seq<char>) -> SegmentModel {
    if is_optional_catch_all(s) {
        SegmentModel::Node { kind: RouteKind::OptionalCatchAll, param: Some(s.subrange(5, s.len() - 2)) }
    } else if is_catch_all(s) {
        SegmentModel::Node { kind: RouteKind::CatchAll, param: Some(s.subrange(4, s.len() - 1)) }
    } else if is_dynamic(s) {
        SegmentModel::Node { kind: RouteKind::Dynamic, param: Some(s.subrange(1, s.len() - 1)) }
    } else if has_char(s, '[') || has_char(s, ']') {
        SegmentModel::Malformed
    } else if conv == Convention::App && is_route_group(s) {
        SegmentModel::Node { kind: RouteKind::RouteGroup, param: None }
    } else if conv == Convention::App && (has_char(s, '(') || has_char(s, ')')) {
        SegmentModel::Malformed
    } else if conv == Convention::App && is_parallel_slot(s) {
        SegmentModel::Node { kind: RouteKind::ParallelSlot, param: None }
    } else if s.len() > 0 && s[0] == '_' {
        SegmentModel::Skip
    } else {
        SegmentModel::Node { kind: RouteKind::Static, param: None }
    }
}

fn char_at(s: &str, i: usize) -> (c: char)
    requires
        i < s@.len(),
    ensures
        c == s@[i as int],
{
    s.get_char(i)
}

/// Whether every character of `s[from..to]` may stand in a parameter name.
fn all_param_chars(s: &str, from: usize, to: usize) -> (r: bool)
    requires
        from <= to <= s@.len(),
    ensures
        r == (forall|i: int| from <= i < to ==> is_param_char(#[trigger] s@[i])),
{
    let mut i = from;
    while i < to
        invariant
            from <= i <= to <= s@.len(),
            forall|j: int| from <= j < i ==> is_param_char(#[trigger] s@[j]),
        decreases to - i,
    {
        let c = char_at(s, i);
        if !(c != '[' && c != ']' && c != '.' && c != '/') {
            return false;
        }
        i = i + 1;
    }
    true
}

fn param_name_between(s: &str, from: usize, to: usize) -> (r: bool)
    requires
        from <= to <= s@.len(),
    ensures
        r == is_param_name(s@.subrange(from as int, to as int)),
{
    let ok = from < to && all_param_chars(s, from, to);
    proof {
        let sub = s@.subrange(from as int, to as int);
        if ok {
            assert forall|i: int| 0 <= i < sub.len() implies is_param_char(#[trigger] sub[i]) by {
                assert(sub[i] == s@[from + i]);
            }
        }
        if is_param_name(sub) && from < to {
            assert forall|i: int| from <= i < to implies is_param_char(#[trigger] s@[i]) by {
                assert(s@[i] == sub[i - from]);
            }
        }
    }
    ok
}

fn contains_char(s: &str, n: usize, c: char) -> (r: bool)
    requires
        n == s@.len(),
    ensures
        r == has_char(s@, c),
{
    let mut i: usize = 0;
    while i < n
        invariant
            n == s@.len(),
            i <= n,
            forall|j: int| 0 <= j < i ==> s@[j] != c,
        decreases n - i,
    {
        if char_at(s, i) == c {
            return true;
        }
        i = i + 1;
    }
    false
}

fn owned_between(s: &str, from: usize, to: usize) -> (r: String)
    requires
        from <= to <= s@.len(),
    ensures
        r@ == s@.subrange(from as int, to as int),
{
    s.substring_char(from, to).to_owned()
}

fn group_inner_clean(s: &str, n: usize) -> (r: bool)
    requires
        n == s@.len(),
        n >= 2,
    ensures
        r == (forall|i: int| 1 <= i < n - 1 ==> #[trigger] s@[i] != '(' && s@[i] != ')'),
{
    let mut i: usize = 1;
    while i < n - 1
        invariant
            n == s@.len(),
            1 <= i <= n - 1,
            forall|j: int| 1 <= j < i ==> #[trigger] s@[j] != '(' && s@[j] != ')',
        decreases n - 1 - i,
    {
        let c = char_at(s, i);
        if c == '(' || c == ')' {
            return false;
        }
        i = i + 1;
    }
    true
}

/// Classifies a directory name under a convention.
pub fn classify_dir(conv: Convention, name: &str) -> (r: Segment)
    ensures
        r@ == segment_of(conv, name@),
{
    let n = name.unicode_len();
    if n >= 7 && char_at(name, 0) == '[' && char_at(name, 1) == '[' && char_at(name, 2) == '.'
        && char_at(name, 3) == '.' && char_at(name, 4) == '.' && char_at(name, n - 2) == ']'
        && char_at(name, n - 1) == ']' && param_name_between(name, 5, n - 2) {
        return Segment::Node { kind: RouteKind::OptionalCatchAll, param: Some(owned_between(name, 5, n - 2)) };
    }
    if n >= 5 && char_at(name, 0) == '[' && char_at(name, 1) == '.' && char_at(name, 2) == '.'
        && char_at(name, 3) == '.' && char_at(name, n - 1) == ']' && param_name_between(name, 4, n - 1) {
        return Segment::Node { kind: RouteKind::CatchAll, param: Some(owned_between(name, 4, n - 1)) };
    }
    if n >= 3 && char_at(name, 0) == '[' && char_at(name, n - 1) == ']' && param_name_between(name, 1, n - 1) {
        return Segment::Node { kind: RouteKind::Dynamic, param: Some(owned_between(name, 1, n - 1)) };
    }
    if contains_char(name, n, '[') || contains_char(name, n, ']') {
        return Segment::Malformed;
    }
    if conv == Convention::App {
        if n >= 3 && char_at(name, 0) == '(' && char_at(name, n - 1) == ')' && group_inner_clean(name, n) {
            return Segment::Node { kind: RouteKind::RouteGroup, param: None };
        }
        if contains_char(name, n, '(') || contains_char(name, n, ')') {
            return Segment::Malformed;
        }
        if n >= 2 && char_at(name, 0) == '@' {
            return Segment::Node { kind: RouteKind::ParallelSlot, param: None };
        }
    }
    if n > 0 && char_at(name, 0) == '_' {
        return Segment::Skip;
    }
    Segment::Node { kind: RouteKind::Static, param: None }
}


/// Index of the last `.` among the first `n` characters, or -1.
pub open spec fn last_dot(s: Seq<char>, n: int) -> int
    decreases n,
{
    if n <= 0 {
        -1
    } else if s[n - 1] == '.' {
        n - 1
    } else {
        last_dot(s, n - 1)
    }
}

pub open spec fn is_source_ext(e: Seq<char>) -> bool {
    ||| e == seq!['j', 's']
    ||| e == seq!['j', 's', 'x']
    ||| e == seq!['t', 's']
    ||| e == seq!['t', 's', 'x']
}

/// The role of a file, from its name: the base name before the last dot
/// decides, and only source files (`js`, `jsx`, `ts`, `tsx`) with a
/// non-empty base name count.
pub open spec fn file_role_of(conv: Convention, s: Seq<char>) -> FileRoleModel {
    let d = last_dot(s, s.len() as int);
    if d < 1 || !is_source_ext(s.subrange(d + 1, s.len() as int)) {
        FileRoleModel::Ignore
    } else {
        let base = s.subrange(0, d);
        match conv {
            Convention::Pages => {
                if base == seq!['i', 'n', 'd', 'e', 'x'] {
                    FileRoleModel::Leaf
                } else {
                    match segment_of(Convention::Pages, base) {
                        SegmentModel::Node { kind, param } => FileRoleModel::Page { segment: base, kind, param },
                        SegmentModel::Skip => FileRoleModel::Ignore,
                        SegmentModel::Malformed => FileRoleModel::Malformed,
                    }
                }
            },
            Convention::App => {
                if base == seq!['p', 'a', 'g', 'e'] {
                    FileRoleModel::Leaf
                } else if base == seq!['r', 'o', 'u', 't', 'e'] {
                    FileRoleModel::Handler
                } else {
                    FileRoleModel::Ignore
                }
            },
        }
    }
}

fn find_last_dot(s: &str, n: usize) -> (r: Option<usize>)
    requires
        n == s@.len(),
    ensures
        match r {
            Some(d) => d == last_dot(s@, n as int) && d < n,
            None => last_dot(s@, n as int) == -1,
        },
{
    let mut i: usize = n;
    while i > 0
        invariant
            i <= n == s@.len(),
            last_dot(s@, n as int) == last_dot(s@, i as int),
        decreases i,
    {
        if char_at(s, i - 1) == '.' {
            return Some(i - 1);
        }
        i = i - 1;
    }
    None
}

/// Whether `s[from..to]` spells `w`.
fn span_is(s: &str, from: usize, to: usize, w: &str) -> (r: bool)
    requires
        from <= to <= s@.len(),
    ensures
        r == (s@.subrange(from as int, to as int) == w@),
{
    let wn = w.unicode_len();
    if to - from != wn {
        return false;
    }
    let mut i: usize = 0;
    while i < wn
        invariant
            from <= to <= s@.len(),
            to - from == wn == w@.len(),
            i <= wn,
            forall|j: int| 0 <= j < i ==> s@[from + j] == w@[j],
        decreases wn - i,
    {
        if char_at(s, from + i) != char_at(w, i) {
            assert(s@.subrange(from as int, to as int)[i as int] != w@[i as int]);
            return false;
        }
        i = i + 1;
    }
    assert(s@.subrange(from as int, to as int) =~= w@);
    true
}

/// Classifies a file name under a convention.
pub fn classify_file(conv: Convention, name: &str) -> (r: FileRole)
    ensures
        r@ == file_role_of(conv, name@),
{
    let n = name.unicode_len();
    let d = match find_last_dot(name, n) {
        Some(d) => d,
        None => return FileRole::Ignore,
    };
    if d < 1 {
        return FileRole::Ignore;
    }
    proof {
        reveal_strlit("js");
        reveal_strlit("jsx");
        reveal_strlit("ts");
        reveal_strlit("tsx");
        reveal_strlit("index");
        reveal_strlit("page");
        reveal_strlit("route");
    }
    let ext_ok = span_is(name, d + 1, n, "js") || span_is(name, d + 1, n, "jsx")
        || span_is(name, d + 1, n, "ts") || span_is(name, d + 1, n, "tsx");
    assert(ext_ok == is_source_ext(name@.subrange(d + 1, n as int))) by {
        assert("js"@ =~= seq!['j', 's']);
        assert("jsx"@ =~= seq!['j', 's', 'x']);
        assert("ts"@ =~= seq!['t', 's']);
        assert("tsx"@ =~= seq!['t', 's', 'x']);
    }
    if !ext_ok {
        return FileRole::Ignore;
    }
    assert("index"@ =~= seq!['i', 'n', 'd', 'e', 'x']);
    assert("page"@ =~= seq!['p', 'a', 'g', 'e']);
    assert("route"@ =~= seq!['r', 'o', 'u', 't', 'e']);
    match conv {
        Convention::Pages => {
            if span_is(name, 0, d, "index") {
                return FileRole::Leaf;
            }
            let base = name.substring_char(0, d);
            match classify_dir(Convention::Pages, base) {
                Segment::Node { kind, param } => FileRole::Page { segment: base.to_owned(), kind, param },
                Segment::Skip => FileRole::Ignore,
                Segment::Malformed => FileRole::Malformed,
            }
        },
        Convention::App => {
            if span_is(name, 0, d, "page") {
                FileRole::Leaf
            } else if span_is(name, 0, d, "route") {
                FileRole::Handler
            } else {
                FileRole::Ignore
            }
        },
    }
}

} // verus!
