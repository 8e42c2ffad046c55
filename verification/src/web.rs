//! Which bundled frontend file answers a request path.
use vstd::prelude::*;
use crate::text::{chars_of, eq_chars, trim_start_char};

verus! {

/// A bundled frontend file.
#[derive(Clone, Copy, Debug, PartialEq, Eq, Structural)]
pub enum Asset {
    Index,
    Styles,
    Script,
    GamesenseIcon,
    PrimordialIcon,
    NeverloseIcon,
}

pub open spec fn html() -> Seq<char> {
    "text/html; charset=utf-8"@
}

/// The content type and file for a request path: the path without leading
/// `/` names a bundled file; anything else gets the index page.
pub open spec fn route_of(path: Seq<char>) -> (Seq<char>, Asset) {
    let p = trim_start_char(path, '/');
    if p == ""@ || p == "index.html"@ {
        (html(), Asset::Index)
    } else if p == "styles.css"@ {
        ("text/css; charset=utf-8"@, Asset::Styles)
    } else if p == "app.js"@ {
        ("application/javascript; charset=utf-8"@, Asset::Script)
    } else if p == "assets/images/gs.png"@ {
        ("image/png"@, Asset::GamesenseIcon)
    } else if p == "assets/images/primo.png"@ {
        ("image/png"@, Asset::PrimordialIcon)
    } else if p == "assets/images/nl.png"@ {
        ("image/png"@, Asset::NeverloseIcon)
    } else {
        (html(), Asset::Index)
    }
}

fn is(p: &Vec<char>, s: &str) -> (r: bool)
    ensures
        r == (p@ == s@),
{
    eq_chars(p, &chars_of(s))
}

pub fn route(path: &str) -> (r: (&'static str, Asset))
    ensures
        (r.0@, r.1) == route_of(path@),
{
    let cs = chars_of(path);
    let mut lo: usize = 0;
    assert(cs@.skip(0) == cs@);
    while lo < cs.len() && cs[lo] == '/'
        invariant
            lo <= cs.len(),
            cs@ == path@,
            trim_start_char(path@, '/') == trim_start_char(cs@.skip(lo as int), '/'),
        decreases cs.len() - lo,
    {
        assert(cs@.skip(lo as int).drop_first() == cs@.skip(lo + 1));
        lo = lo + 1;
    }
    let p = crate::text::slice_of(&cs, lo, cs.len());
    assert(p@ == cs@.skip(lo as int));
    assert(trim_start_char(p@, '/') == p@);
    if is(&p, "") || is(&p, "index.html") {
        ("text/html; charset=utf-8", Asset::Index)
    } else if is(&p, "styles.css") {
        ("text/css; charset=utf-8", Asset::Styles)
    } else if is(&p, "app.js") {
        ("application/javascript; charset=utf-8", Asset::Script)
    } else if is(&p, "assets/images/gs.png") {
        ("image/png", Asset::GamesenseIcon)
    } else if is(&p, "assets/images/primo.png") {
        ("image/png", Asset::PrimordialIcon)
    } else if is(&p, "assets/images/nl.png") {
        ("image/png", Asset::NeverloseIcon)
    } else {
        ("text/html; charset=utf-8", Asset::Index)
    }
}

} // verus!
