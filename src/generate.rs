//! Rendering of the serialized route trees into the two declaration artifacts.

use vstd::prelude::*;

verus! {

/// The first line of both artifacts.
pub const HEADER: &'static str = "/* NOTE: THIS FILE HAS BEEN AUTOMATICALLY GENERATED. DO NOT EDIT. */\n";

/// The shape of a convention whose root directory does not exist.
pub const EMPTY_SHAPE: &'static str = "[]";

/// The two artifacts of one generation pass.
#[derive(Clone, Debug)]
pub struct GeneratedArtifacts {
    /// Ambient type declarations: one type alias per convention.
    pub declarations: String,
    /// Runtime constants with the same shapes, frozen.
    pub constants: String,
}

/// The rendered shape of a convention: its serialized tree, or the empty
/// sequence literal when its root is absent.
pub open spec fn shape_of(serialized: Option<Seq<char>>) -> Seq<char> {
    match serialized {
        Some(s) => s,
        None => EMPTY_SHAPE@,
    }
}

pub open spec fn declarations_text(pages: Seq<char>, app: Seq<char>) -> Seq<char> {
    HEADER@ + "\n"@ + "\nexport type PAGES_ROUTES = "@ + pages + ";"@ + "\n"@ + "\nexport type APP_ROUTES = "@ + app
        + ";"@
}

pub open spec fn constants_text(pages: Seq<char>, app: Seq<char>) -> Seq<char> {
    HEADER@ + "\n"@ + "\nexport const PAGES_ROUTES = "@ + pages + " as const;"@ + "\nexport const APP_ROUTES = "@
        + app + " as const;"@
}

/// The shape text for one convention root.
pub fn shape_or_empty(serialized: Option<&str>) -> (r: String)
    ensures
        r@ == shape_of(
            match serialized {
                Some(s) => Some(s@),
                None => None,
            },
        ),
{
    match serialized {
        Some(s) => s.to_owned(),
        None => EMPTY_SHAPE.to_owned(),
    }
}

/// Renders the ambient type declarations from the two shapes.
pub fn render_declarations(pages: &str, app: &str) -> (r: String)
    ensures
        r@ == declarations_text(pages@, app@),
{
    let mut r = HEADER.to_owned();
    r.append("\n");
    r.append("\nexport type PAGES_ROUTES = ");
    r.append(pages);
    r.append(";");
    r.append("\n");
    r.append("\nexport type APP_ROUTES = ");
    r.append(app);
    r.append(";");
    r
}

/// Renders the runtime constants from the two shapes.
pub fn render_constants(pages: &str, app: &str) -> (r: String)
    ensures
        r@ == constants_text(pages@, app@),
{
    let mut r = HEADER.to_owned();
    r.append("\n");
    r.append("\nexport const PAGES_ROUTES = ");
    r.append(pages);
    r.append(" as const;");
    r.append("\nexport const APP_ROUTES = ");
    r.append(app);
    r.append(" as const;");
    r
}

/// Renders both artifacts from one serialization of each tree, `None`
/// standing for an absent convention root.
pub fn generate(pages: Option<&str>, app: Option<&str>) -> (r: GeneratedArtifacts)
    ensures
        r.declarations@ == declarations_text(
            shape_of(
                match pages {
                    Some(s) => Some(s@),
                    None => None,
                },
            ),
            shape_of(
                match app {
                    Some(s) => Some(s@),
                    None => None,
                },
            ),
        ),
        r.constants@ == constants_text(
            shape_of(
                match pages {
                    Some(s) => Some(s@),
                    None => None,
                },
            ),
            shape_of(
                match app {
                    Some(s) => Some(s@),
                    None => None,
                },
            ),
        ),
{
    let p = shape_or_empty(pages);
    let a = shape_or_empty(app);
    GeneratedArtifacts {
        declarations: render_declarations(p.as_str(), a.as_str()),
        constants: render_constants(p.as_str(), a.as_str()),
    }
}

} // verus!
