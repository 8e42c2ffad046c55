//! Windows path text: how `std::path` splits, names, shortens and joins paths
//! on Windows. A path may start with a prefix: a drive (`C:`), a UNC share
//! (`\\server\share`), a device (`\\.\COM1`), or a verbatim prefix
//! (`\\?\C:`, `\\?\UNC\server\share`, `\\?\name`). After a verbatim prefix
//! only `\` separates components and `.` is a component of its own.
use vstd::prelude::*;
use crate::text::{ascii_lower, ascii_lower_seq, opt_view, views, chars_of, concat, eq_chars, slice_of, string_of};

verus! {

// ----------------------------------------------------------------------------
// Separators and prefixes
// ----------------------------------------------------------------------------

pub open spec fn is_sep(c: char) -> bool {
    c == '\\' || c == '/'
}

/// A separator: `\` only in a verbatim path, `\` or `/` otherwise.
pub open spec fn sep_in(c: char, verbatim: bool) -> bool {
    if verbatim {
        c == '\\'
    } else {
        is_sep(c)
    }
}

pub open spec fn is_ascii_alpha(c: char) -> bool {
    ('a' <= c && c <= 'z') || ('A' <= c && c <= 'Z')
}

pub open spec fn ascii_upper(c: char) -> char {
    if 'a' <= c && c <= 'z' {
        ((c as u32) - 32) as char
    } else {
        c
    }
}

/// Index of the first separator in `t`, or `t.len()`.
pub open spec fn first_sep_in(t: Seq<char>, verbatim: bool) -> int
    decreases t.len(),
{
    if t.len() == 0 {
        0int
    } else if sep_in(t[0], verbatim) {
        0int
    } else {
        1 + first_sep_in(t.drop_first(), verbatim)
    }
}

pub proof fn lemma_first_sep_bounds(t: Seq<char>, verbatim: bool)
    ensures
        0 <= first_sep_in(t, verbatim) <= t.len(),
        first_sep_in(t, verbatim) < t.len() ==> sep_in(t[first_sep_in(t, verbatim)], verbatim),
        forall|j: int| 0 <= j < first_sep_in(t, verbatim) ==> !sep_in(t[j], verbatim),
    decreases t.len(),
{
    if t.len() > 0 && !sep_in(t[0], verbatim) {
        lemma_first_sep_bounds(t.drop_first(), verbatim);
        assert forall|j: int| 0 <= j < first_sep_in(t, verbatim) implies !sep_in(t[j], verbatim) by {
            if j > 0 {
                assert(t[j] == t.drop_first()[j - 1]);
            }
        }
    }
}

/// The text of `t` up to its first separator.
pub open spec fn first_part(t: Seq<char>, verbatim: bool) -> Seq<char> {
    t.take(first_sep_in(t, verbatim))
}

/// What follows `t`'s first separator; empty when it has none.
pub open spec fn after_first(t: Seq<char>, verbatim: bool) -> Seq<char> {
    if first_sep_in(t, verbatim) < t.len() {
        t.skip(first_sep_in(t, verbatim) + 1)
    } else {
        Seq::empty()
    }
}

/// A path prefix as `std::path::Prefix` parses it; drive letters upper-cased.
pub enum PathPrefix {
    Disk(char),
    VerbatimDisk(char),
    Unc(Seq<char>, Seq<char>),
    VerbatimUnc(Seq<char>, Seq<char>),
    DeviceNs(Seq<char>),
    Verbatim(Seq<char>),
}

/// `\\?\`: the start of a verbatim path, written with `\` only.
pub open spec fn verbatim_start(s: Seq<char>) -> bool {
    s.len() >= 4 && s[0] == '\\' && s[1] == '\\' && s[2] == '?' && s[3] == '\\'
}

/// The prefix of a path, if it has one.
pub open spec fn path_prefix(s: Seq<char>) -> Option<PathPrefix> {
    if s.len() >= 2 && is_sep(s[0]) && is_sep(s[1]) {
        if verbatim_start(s) {
            if s.len() >= 8 && s[4] == 'U' && s[5] == 'N' && s[6] == 'C' && is_sep(s[7]) {
                let u = s.skip(8);
                Some(PathPrefix::VerbatimUnc(first_part(u, true), first_part(after_first(u, true), true)))
            } else if s.len() >= 7 && is_ascii_alpha(s[4]) && s[5] == ':' && s[6] == '\\' {
                Some(PathPrefix::VerbatimDisk(ascii_upper(s[4])))
            } else {
                Some(PathPrefix::Verbatim(first_part(s.skip(4), true)))
            }
        } else if s.len() >= 4 && s[2] == '.' && is_sep(s[3]) {
            Some(PathPrefix::DeviceNs(first_part(s.skip(4), false)))
        } else {
            let t = s.skip(2);
            let server = first_part(t, false);
            let share = first_part(after_first(t, false), false);
            if server.len() > 0 && share.len() > 0 {
                Some(PathPrefix::Unc(server, share))
            } else {
                None
            }
        }
    } else if s.len() >= 2 && is_ascii_alpha(s[0]) && s[1] == ':' {
        Some(PathPrefix::Disk(ascii_upper(s[0])))
    } else {
        None
    }
}

/// `Prefix::len`: how many characters of the path the prefix takes.
pub open spec fn prefix_length_of(p: PathPrefix) -> int {
    match p {
        PathPrefix::Disk(_) => 2,
        PathPrefix::VerbatimDisk(_) => 6,
        PathPrefix::Unc(a, b) => 2 + a.len() + share_length(b),
        PathPrefix::VerbatimUnc(a, b) => 8 + a.len() + share_length(b),
        PathPrefix::DeviceNs(x) => 4 + x.len() as int,
        PathPrefix::Verbatim(x) => 4 + x.len() as int,
    }
}

/// A share takes its separator and its name; an empty share takes nothing.
pub open spec fn share_length(b: Seq<char>) -> int {
    if b.len() > 0 {
        1 + b.len() as int
    } else {
        0int
    }
}

/// Length of the prefix, or 0.
pub open spec fn prefix_len(s: Seq<char>) -> int {
    match path_prefix(s) {
        Some(p) => prefix_length_of(p),
        None => 0,
    }
}

pub open spec fn is_verbatim(s: Seq<char>) -> bool {
    match path_prefix(s) {
        Some(PathPrefix::Verbatim(_)) => true,
        Some(PathPrefix::VerbatimUnc(_, _)) => true,
        Some(PathPrefix::VerbatimDisk(_)) => true,
        _ => false,
    }
}

/// Every prefix but a drive stands for a root of its own.
pub open spec fn implicit_root(s: Seq<char>) -> bool {
    match path_prefix(s) {
        Some(PathPrefix::Disk(_)) => false,
        Some(_) => true,
        None => false,
    }
}

/// A separator right after the prefix.
pub open spec fn has_root(s: Seq<char>) -> bool {
    s.len() > prefix_len(s) && is_sep(s[prefix_len(s)])
}

/// `Path::has_root`.
pub open spec fn rooted_path(s: Seq<char>) -> bool {
    has_root(s) || implicit_root(s)
}

/// Whether a relative path starts with a `.` component.
pub open spec fn has_cur_dir(s: Seq<char>) -> bool {
    let k = prefix_len(s);
    &&& !rooted_path(s)
    &&& k < s.len()
    &&& s[k] == '.'
    &&& (k + 1 == s.len() || is_sep(s[k + 1]))
}

/// Where the components after prefix, root and leading `.` begin.
pub open spec fn body_start(s: Seq<char>) -> int {
    prefix_len(s) + (if has_root(s) {
        1int
    } else {
        0int
    }) + (if has_cur_dir(s) {
        1int
    } else {
        0int
    })
}

// ----------------------------------------------------------------------------
// The last component, the file name and the parent
// ----------------------------------------------------------------------------

/// `s[..hi]` with trailing separators (and, but in a verbatim path, `.`
/// components) dropped, never shorter than `lo`: the end of the last
/// component.
pub open spec fn trimmed_end(s: Seq<char>, lo: int, hi: int, verbatim: bool) -> int
    decreases hi - lo,
{
    if hi > lo && sep_in(s[hi - 1], verbatim) {
        trimmed_end(s, lo, hi - 1, verbatim)
    } else if !verbatim && hi > lo && s[hi - 1] == '.' && (hi - 1 == lo || sep_in(
        s[hi - 2],
        verbatim,
    )) {
        trimmed_end(s, lo, hi - 1, verbatim)
    } else {
        hi
    }
}

/// Start of the component that ends at `e`.
pub open spec fn component_start(s: Seq<char>, lo: int, e: int, verbatim: bool) -> int
    decreases e - lo,
{
    if e > lo && !sep_in(s[e - 1], verbatim) {
        component_start(s, lo, e - 1, verbatim)
    } else {
        e
    }
}

pub open spec fn last_end(s: Seq<char>) -> int {
    trimmed_end(s, body_start(s), s.len() as int, is_verbatim(s))
}

pub open spec fn last_start(s: Seq<char>) -> int {
    component_start(s, body_start(s), last_end(s), is_verbatim(s))
}

/// The last component, when the path has one after its prefix and root.
pub open spec fn last_component(s: Seq<char>) -> Option<Seq<char>> {
    if last_end(s) == body_start(s) {
        None
    } else {
        Some(s.subrange(last_start(s), last_end(s)))
    }
}

/// `Path::file_name`: the last component unless it is `..` (or, in a
/// verbatim path, `.`).
pub open spec fn file_name(s: Seq<char>) -> Option<Seq<char>> {
    match last_component(s) {
        Some(c) => if c == seq!['.', '.'] || (is_verbatim(s) && c == seq!['.']) {
            None
        } else {
            Some(c)
        },
        None => None,
    }
}

/// `Path::parent`: the path without its last component; `None` for a path
/// that is only a prefix and a root.
pub open spec fn parent(s: Seq<char>) -> Option<Seq<char>> {
    if last_end(s) == body_start(s) {
        if has_cur_dir(s) {
            Some(s.take(prefix_len(s)))
        } else {
            None
        }
    } else {
        Some(s.take(trimmed_end(s, body_start(s), last_start(s), is_verbatim(s))))
    }
}

// ----------------------------------------------------------------------------
// Components
// ----------------------------------------------------------------------------

/// The components of a body: split at separators, empty pieces dropped, and
/// `.` pieces dropped but in a verbatim path.
pub open spec fn pieces(t: Seq<char>, verbatim: bool) -> Seq<Seq<char>>
    decreases t.len(),
{
    if t.len() == 0 {
        Seq::empty()
    } else {
        let i = first_sep_in(t, verbatim);
        proof {
            lemma_first_sep_bounds(t, verbatim);
        }
        let piece = t.take(i);
        let keep = piece.len() > 0 && (verbatim || piece != seq!['.']);
        let rest = if i < t.len() {
            pieces(t.skip(i + 1), verbatim)
        } else {
            Seq::empty()
        };
        if keep {
            seq![piece] + rest
        } else {
            rest
        }
    }
}

/// How a prefix takes part in path comparison: its kind and its parsed
/// parts (a kind mark after `\` for every kind but a drive).
pub open spec fn prefix_component(p: PathPrefix) -> Seq<char> {
    match p {
        PathPrefix::Disk(d) => seq![d, ':'],
        PathPrefix::VerbatimDisk(d) => seq!['\\', 'V', d],
        PathPrefix::Unc(a, b) => seq!['\\', 'U'] + a + seq!['\\'] + b,
        PathPrefix::VerbatimUnc(a, b) => seq!['\\', 'W'] + a + seq!['\\'] + b,
        PathPrefix::DeviceNs(x) => seq!['\\', 'N'] + x,
        PathPrefix::Verbatim(x) => seq!['\\', 'B'] + x,
    }
}

/// A root component: a separator after the prefix, or the root a UNC or
/// device prefix stands for.
pub open spec fn root_component(s: Seq<char>) -> bool {
    has_root(s) || (implicit_root(s) && !is_verbatim(s))
}

/// The components of a path as `Path` compares them: the prefix, the root
/// as `\`, a leading `.`, then the other components in order.
pub open spec fn components(s: Seq<char>) -> Seq<Seq<char>> {
    let pre: Seq<Seq<char>> = match path_prefix(s) {
        Some(p) => seq![prefix_component(p)],
        None => Seq::empty(),
    };
    let root: Seq<Seq<char>> = if root_component(s) {
        seq![seq!['\\']]
    } else {
        Seq::empty()
    };
    let cur: Seq<Seq<char>> = if has_cur_dir(s) {
        seq![seq!['.']]
    } else {
        Seq::empty()
    };
    pre + root + cur + pieces(s.skip(body_start(s)), is_verbatim(s))
}

/// Path equality (`Path: PartialEq`), which compares components.
pub open spec fn same_path(a: Seq<char>, b: Seq<char>) -> bool {
    components(a) == components(b)
}

// ----------------------------------------------------------------------------
// Joining
// ----------------------------------------------------------------------------

/// A component as `PathBuf::push` rebuilds a verbatim path from them.
pub enum Comp {
    Prefix(Seq<char>),
    Root,
    Cur,
    Parent,
    Normal(Seq<char>),
}

pub open spec fn piece_comp(p: Seq<char>) -> Comp {
    if p == seq!['.', '.'] {
        Comp::Parent
    } else if p == seq!['.'] {
        Comp::Cur
    } else {
        Comp::Normal(p)
    }
}

pub open spec fn piece_comps(ps: Seq<Seq<char>>) -> Seq<Comp> {
    ps.map_values(|p: Seq<char>| piece_comp(p))
}

/// The components of a verbatim base: its prefix as written, its root, its
/// pieces.
pub open spec fn base_comps(base: Seq<char>) -> Seq<Comp> {
    seq![Comp::Prefix(base.take(prefix_len(base)))] + (if has_root(base) {
        seq![Comp::Root]
    } else {
        Seq::empty()
    }) + piece_comps(pieces(base.skip(body_start(base)), true))
}

/// The components of a path without a prefix.
pub open spec fn rel_comps(rel: Seq<char>) -> Seq<Comp> {
    (if has_root(rel) {
        seq![Comp::Root]
    } else {
        Seq::empty()
    }) + (if has_cur_dir(rel) {
        seq![Comp::Cur]
    } else {
        Seq::empty()
    }) + piece_comps(pieces(rel.skip(body_start(rel)), false))
}

/// One component pushed onto a verbatim path: a root keeps only the
/// prefix, `.` is dropped, `..` removes a preceding normal component.
pub open spec fn push_comp(buf: Seq<Comp>, c: Comp) -> Seq<Comp> {
    match c {
        Comp::Root => buf.take(1).push(Comp::Root),
        Comp::Cur => buf,
        Comp::Parent => if buf.len() > 0 && buf.last() is Normal {
            buf.drop_last()
        } else {
            buf
        },
        _ => buf.push(c),
    }
}

pub open spec fn push_comps(buf: Seq<Comp>, cs: Seq<Comp>) -> Seq<Comp>
    decreases cs.len(),
{
    if cs.len() == 0 {
        buf
    } else {
        push_comp(push_comps(buf, cs.drop_last()), cs.last())
    }
}

pub open spec fn comp_text(c: Comp) -> Seq<char> {
    match c {
        Comp::Prefix(t) => t,
        Comp::Root => seq!['\\'],
        Comp::Cur => seq!['.'],
        Comp::Parent => seq!['.', '.'],
        Comp::Normal(t) => t,
    }
}

/// Whether a `\` goes after the component before the next one: not after a
/// root, nor after an empty prefix.
pub open spec fn sep_after(c: Comp) -> bool {
    match c {
        Comp::Root => false,
        Comp::Prefix(t) => t.len() > 0,
        _ => true,
    }
}

/// The components written out one after another.
pub open spec fn render(buf: Seq<Comp>) -> Seq<char>
    decreases buf.len(),
{
    if buf.len() == 0 {
        Seq::empty()
    } else if buf.len() == 1 {
        comp_text(buf[0])
    } else {
        render(buf.drop_last()) + (if sep_after(buf[buf.len() - 2]) && buf.last() != Comp::Root {
            seq!['\\']
        } else {
            Seq::empty()
        }) + comp_text(buf.last())
    }
}

/// `PathBuf::push` / `Path::join`.
pub open spec fn join(base: Seq<char>, rel: Seq<char>) -> Seq<char> {
    let need_sep = base.len() > 0 && !is_sep(base.last()) && !(path_prefix(base) matches Some(
        PathPrefix::Disk(_),
    ) && base.len() == 2);
    if path_prefix(rel) is Some {
        rel
    } else if is_verbatim(base) && rel.len() > 0 {
        render(push_comps(base_comps(base), rel_comps(rel)))
    } else if has_root(rel) {
        base.take(prefix_len(base)) + rel
    } else if need_sep {
        base + seq!['\\'] + rel
    } else {
        base + rel
    }
}

proof fn lemma_render_ends_with(buf: Seq<Comp>, c: Comp)
    ensures
        render(buf.push(c)).len() >= comp_text(c).len(),
{
    let b = buf.push(c);
    assert(b.last() == c);
    if b.len() >= 2 {
        assert(b.drop_last() =~= buf);
    } else {
        assert(b[0] == c);
    }
}

/// A single name without separators, other than `.` and `..`, joined to any
/// path gives a non-empty path.
pub proof fn lemma_join_name_nonempty(base: Seq<char>, name: Seq<char>)
    requires
        name.len() > 0,
        forall|i: int| 0 <= i < name.len() ==> !is_sep(name[i]),
        name != seq!['.'],
        name != seq!['.', '.'],
        path_prefix(name) is None,
    ensures
        join(base, name).len() > 0,
{
    if is_verbatim(base) {
        assert(!has_root(name));
        assert(!has_cur_dir(name)) by {
            if has_cur_dir(name) {
                if name.len() == 1 {
                    assert(name =~= seq!['.']);
                }
            }
        }
        assert(name.skip(0) =~= name);
        lemma_first_sep_bounds(name, false);
        assert(first_sep_in(name, false) == name.len());
        assert(name.take(name.len() as int) =~= name);
        assert(pieces(name, false) =~= seq![name]);
        assert(rel_comps(name) =~= seq![Comp::Normal(name)]);
        let cs = rel_comps(name);
        assert(cs.drop_last() =~= Seq::<Comp>::empty());
        assert(cs.len() == 1 && cs.last() == Comp::Normal(name));
        assert(push_comps(base_comps(base), cs.drop_last()) == base_comps(base));
        assert(push_comp(base_comps(base), Comp::Normal(name)) == base_comps(base).push(
            Comp::Normal(name),
        ));
        assert(push_comps(base_comps(base), cs) == base_comps(base).push(Comp::Normal(name)));
        lemma_render_ends_with(base_comps(base), Comp::Normal(name));
    }
}

// ----------------------------------------------------------------------------
// ASCII case
// ----------------------------------------------------------------------------

proof fn lemma_lower_char(c: char)
    ensures
        is_sep(ascii_lower(c)) == is_sep(c),
        sep_in(ascii_lower(c), true) == sep_in(c, true),
        sep_in(ascii_lower(c), false) == sep_in(c, false),
        (ascii_lower(c) == '.') == (c == '.'),
        (ascii_lower(c) == ':') == (c == ':'),
        (ascii_lower(c) == '?') == (c == '?'),
        (ascii_lower(c) == '\\') == (c == '\\'),
        is_ascii_alpha(ascii_lower(c)) == is_ascii_alpha(c),
        ascii_lower(c) != 'U',
{
}

proof fn lemma_lower_first_sep(t: Seq<char>, verbatim: bool)
    ensures
        first_sep_in(ascii_lower_seq(t), verbatim) == first_sep_in(t, verbatim),
    decreases t.len(),
{
    if t.len() > 0 {
        lemma_lower_char(t[0]);
        assert(ascii_lower_seq(t)[0] == ascii_lower(t[0]));
        assert(ascii_lower_seq(t).drop_first() =~= ascii_lower_seq(t.drop_first()));
        lemma_lower_first_sep(t.drop_first(), verbatim);
    }
}

proof fn lemma_lower_parts(t: Seq<char>, verbatim: bool)
    ensures
        first_part(ascii_lower_seq(t), verbatim).len() == first_part(t, verbatim).len(),
        after_first(ascii_lower_seq(t), verbatim) == ascii_lower_seq(after_first(t, verbatim)),
{
    lemma_lower_first_sep(t, verbatim);
    lemma_first_sep_bounds(t, verbatim);
    let i = first_sep_in(t, verbatim);
    if i < t.len() {
        assert(ascii_lower_seq(t).skip(i + 1) =~= ascii_lower_seq(t.skip(i + 1)));
    } else {
        assert(ascii_lower_seq(Seq::<char>::empty()) =~= Seq::<char>::empty());
    }
}

/// A path that is not a verbatim UNC path (`\\?\UNC\...`, whose `UNC` is
/// matched case-sensitively) keeps its prefix length and kind when its ASCII
/// letters are lowered.
proof fn lemma_lower_prefix(p: Seq<char>)
    requires
        !(path_prefix(p) matches Some(PathPrefix::VerbatimUnc(_, _))),
    ensures
        prefix_len(ascii_lower_seq(p)) == prefix_len(p),
        is_verbatim(ascii_lower_seq(p)) == is_verbatim(p),
        implicit_root(ascii_lower_seq(p)) == implicit_root(p),
        path_prefix(ascii_lower_seq(p)) is Some == path_prefix(p) is Some,
{
    let q = ascii_lower_seq(p);
    assert forall|i: int| 0 <= i < p.len() implies #[trigger] q[i] == ascii_lower(p[i]) && (is_sep(
        q[i],
    ) == is_sep(p[i])) && ((q[i] == '.') == (p[i] == '.')) && ((q[i] == ':') == (p[i] == ':'))
        && ((q[i] == '?') == (p[i] == '?')) && ((q[i] == '\\') == (p[i] == '\\')) && (
    is_ascii_alpha(q[i]) == is_ascii_alpha(p[i])) && q[i] != 'U' by {
        lemma_lower_char(p[i]);
    }
    if p.len() >= 4 {
        assert(q.skip(4) =~= ascii_lower_seq(p.skip(4)));
        lemma_lower_parts(p.skip(4), true);
        lemma_lower_parts(p.skip(4), false);
    }
    if p.len() >= 2 {
        assert(q.skip(2) =~= ascii_lower_seq(p.skip(2)));
        lemma_lower_parts(p.skip(2), false);
        lemma_lower_parts(after_first(p.skip(2), false), false);
    }
}

proof fn lemma_lower_layout(p: Seq<char>)
    requires
        !(path_prefix(p) matches Some(PathPrefix::VerbatimUnc(_, _))),
    ensures
        prefix_len(ascii_lower_seq(p)) == prefix_len(p),
        is_verbatim(ascii_lower_seq(p)) == is_verbatim(p),
        has_root(ascii_lower_seq(p)) == has_root(p),
        has_cur_dir(ascii_lower_seq(p)) == has_cur_dir(p),
        body_start(ascii_lower_seq(p)) == body_start(p),
{
    lemma_lower_prefix(p);
    let q = ascii_lower_seq(p);
    let k = prefix_len(p);
    if 0 <= k < p.len() {
        lemma_lower_char(p[k]);
    }
    if 0 <= k + 1 < p.len() {
        lemma_lower_char(p[k + 1]);
    }
}

proof fn lemma_lower_trimmed_end(s: Seq<char>, lo: int, hi: int, verbatim: bool)
    requires
        0 <= lo,
        hi <= s.len(),
    ensures
        trimmed_end(ascii_lower_seq(s), lo, hi, verbatim) == trimmed_end(s, lo, hi, verbatim),
        hi >= lo ==> lo <= trimmed_end(s, lo, hi, verbatim) <= hi,
        hi < lo ==> trimmed_end(s, lo, hi, verbatim) == hi,
    decreases hi - lo,
{
    if hi > lo {
        lemma_lower_char(s[hi - 1]);
        if hi - 2 >= lo {
            lemma_lower_char(s[hi - 2]);
        }
        lemma_lower_trimmed_end(s, lo, hi - 1, verbatim);
    }
}

proof fn lemma_lower_component_start(s: Seq<char>, lo: int, e: int, verbatim: bool)
    requires
        0 <= lo,
        e <= s.len(),
    ensures
        component_start(ascii_lower_seq(s), lo, e, verbatim) == component_start(s, lo, e, verbatim),
        e >= lo ==> lo <= component_start(s, lo, e, verbatim) <= e,
        e < lo ==> component_start(s, lo, e, verbatim) == e,
    decreases e - lo,
{
    if e > lo {
        lemma_lower_char(s[e - 1]);
        lemma_lower_component_start(s, lo, e - 1, verbatim);
    }
}

/// Lowering a path's ASCII letters lowers its file name and changes nothing
/// else about it; only a verbatim UNC path (`\\?\UNC\...`) is read
/// differently once lowered.
pub proof fn lemma_file_name_lower(p: Seq<char>)
    requires
        !(path_prefix(p) matches Some(PathPrefix::VerbatimUnc(_, _))),
    ensures
        file_name(ascii_lower_seq(p)) == match file_name(p) {
            Some(n) => Some(ascii_lower_seq(n)),
            None => None,
        },
{
    let q = ascii_lower_seq(p);
    lemma_lower_layout(p);
    let v = is_verbatim(p);
    let lo = body_start(p);
    assert(0 <= lo);
    lemma_lower_trimmed_end(p, lo, p.len() as int, v);
    let e = trimmed_end(p, lo, p.len() as int, v);
    lemma_lower_component_start(p, lo, e, v);
    let st = component_start(p, lo, e, v);
    if e != lo {
        assert(0 <= st <= e <= p.len());
        let c = p.subrange(st, e);
        assert(q.subrange(st, e) =~= ascii_lower_seq(c));
        let lc = ascii_lower_seq(c);
        assert((lc == seq!['.', '.']) == (c == seq!['.', '.'])) by {
            if c.len() == 2 {
                lemma_lower_char(c[0]);
                lemma_lower_char(c[1]);
                assert(lc[0] == ascii_lower(c[0]) && lc[1] == ascii_lower(c[1]));
                if c[0] == '.' && c[1] == '.' {
                    assert(c =~= seq!['.', '.']);
                    assert(lc =~= seq!['.', '.']);
                }
                if lc == seq!['.', '.'] {
                    assert(lc[0] == '.' && lc[1] == '.');
                    assert(c =~= seq!['.', '.']);
                }
            }
        }
        assert((lc == seq!['.']) == (c == seq!['.'])) by {
            if c.len() == 1 {
                lemma_lower_char(c[0]);
                assert(lc[0] == ascii_lower(c[0]));
                if c[0] == '.' {
                    assert(c =~= seq!['.']);
                    assert(lc =~= seq!['.']);
                }
                if lc == seq!['.'] {
                    assert(lc[0] == '.');
                    assert(c =~= seq!['.']);
                }
            }
        }
    }
}

// ----------------------------------------------------------------------------
// Executable versions
// ----------------------------------------------------------------------------

pub fn sep(c: char) -> (r: bool)
    ensures
        r == is_sep(c),
{
    c == '\\' || c == '/'
}

pub fn sep_of(c: char, verbatim: bool) -> (r: bool)
    ensures
        r == sep_in(c, verbatim),
{
    if verbatim {
        c == '\\'
    } else {
        sep(c)
    }
}

fn alpha(c: char) -> (r: bool)
    ensures
        r == is_ascii_alpha(c),
{
    ('a' <= c && c <= 'z') || ('A' <= c && c <= 'Z')
}

pub fn upper_ascii(c: char) -> (r: char)
    ensures
        r == ascii_upper(c),
{
    if 'a' <= c && c <= 'z' {
        let b: u8 = c as u8;
        ((b - 32) as u8) as char
    } else {
        c
    }
}

/// The index of the first separator in `s[from..]`, or `s.len()`.
pub fn first_sep_at(s: &Vec<char>, from: usize, verbatim: bool) -> (r: usize)
    requires
        from <= s.len(),
    ensures
        from <= r <= s.len(),
        r - from == first_sep_in(s@.skip(from as int), verbatim),
{
    let mut i: usize = from;
    while i < s.len() && !sep_of(s[i], verbatim)
        invariant
            from <= i <= s.len(),
            first_sep_in(s@.skip(from as int), verbatim) == (i - from) + first_sep_in(
                s@.skip(i as int),
                verbatim,
            ),
        decreases s.len() - i,
    {
        assert(s@.skip(i as int).drop_first() == s@.skip(i + 1));
        i = i + 1;
    }
    i
}

proof fn lemma_part_at(s: Seq<char>, from: int, r: int, verbatim: bool)
    requires
        0 <= from <= r <= s.len(),
        r - from == first_sep_in(s.skip(from), verbatim),
    ensures
        first_part(s.skip(from), verbatim) == s.subrange(from, r),
        after_first(s.skip(from), verbatim) == if r < s.len() {
            s.skip(r + 1)
        } else {
            Seq::<char>::empty()
        },
{
    assert(s.skip(from).take(r - from) =~= s.subrange(from, r));
    if r < s.len() {
        assert(s.skip(from).skip(r - from + 1) =~= s.skip(r + 1));
    }
}

/// A path prefix as text.
pub enum PrefixText {
    Disk(char),
    VerbatimDisk(char),
    Unc(Vec<char>, Vec<char>),
    VerbatimUnc(Vec<char>, Vec<char>),
    DeviceNs(Vec<char>),
    Verbatim(Vec<char>),
}

impl PrefixText {
    pub open spec fn view(&self) -> PathPrefix {
        match self {
            PrefixText::Disk(d) => PathPrefix::Disk(*d),
            PrefixText::VerbatimDisk(d) => PathPrefix::VerbatimDisk(*d),
            PrefixText::Unc(a, b) => PathPrefix::Unc(a@, b@),
            PrefixText::VerbatimUnc(a, b) => PathPrefix::VerbatimUnc(a@, b@),
            PrefixText::DeviceNs(x) => PathPrefix::DeviceNs(x@),
            PrefixText::Verbatim(x) => PathPrefix::Verbatim(x@),
        }
    }
}

pub open spec fn opt_prefix_view(p: Option<PrefixText>) -> Option<PathPrefix> {
    match p {
        Some(q) => Some(q.view()),
        None => None,
    }
}

/// The path's prefix and where it ends.
pub fn parse_prefix(s: &Vec<char>) -> (r: (Option<PrefixText>, usize))
    ensures
        opt_prefix_view(r.0) == path_prefix(s@),
        r.1 == prefix_len(s@),
        r.1 <= s.len(),
{
    let n = s.len();
    if n >= 2 && sep(s[0]) && sep(s[1]) {
        if n >= 4 && s[0] == '\\' && s[1] == '\\' && s[2] == '?' && s[3] == '\\' {
            if n >= 8 && s[4] == 'U' && s[5] == 'N' && s[6] == 'C' && sep(s[7]) {
                let e1 = first_sep_at(s, 8, true);
                let server = slice_of(s, 8, e1);
                proof {
                    lemma_part_at(s@, 8, e1 as int, true);
                }
                if e1 < n {
                    let e2 = first_sep_at(s, e1 + 1, true);
                    let share = slice_of(s, e1 + 1, e2);
                    proof {
                        lemma_part_at(s@, e1 + 1, e2 as int, true);
                    }
                    let end = if e2 > e1 + 1 {
                        e2
                    } else {
                        e1
                    };
                    (Some(PrefixText::VerbatimUnc(server, share)), end)
                } else {
                    let share: Vec<char> = Vec::new();
                    assert(first_part(Seq::<char>::empty(), true) =~= share@);
                    (Some(PrefixText::VerbatimUnc(server, share)), e1)
                }
            } else if n >= 7 && alpha(s[4]) && s[5] == ':' && s[6] == '\\' {
                (Some(PrefixText::VerbatimDisk(upper_ascii(s[4]))), 6)
            } else {
                let e = first_sep_at(s, 4, true);
                proof {
                    lemma_part_at(s@, 4, e as int, true);
                }
                (Some(PrefixText::Verbatim(slice_of(s, 4, e))), e)
            }
        } else if n >= 4 && s[2] == '.' && sep(s[3]) {
            let e = first_sep_at(s, 4, false);
            proof {
                lemma_part_at(s@, 4, e as int, false);
            }
            (Some(PrefixText::DeviceNs(slice_of(s, 4, e))), e)
        } else {
            let e1 = first_sep_at(s, 2, false);
            proof {
                lemma_part_at(s@, 2, e1 as int, false);
            }
            if e1 > 2 && e1 < n {
                let e2 = first_sep_at(s, e1 + 1, false);
                proof {
                    lemma_part_at(s@, e1 + 1, e2 as int, false);
                }
                if e2 > e1 + 1 {
                    let server = slice_of(s, 2, e1);
                    let share = slice_of(s, e1 + 1, e2);
                    (Some(PrefixText::Unc(server, share)), e2)
                } else {
                    (None, 0)
                }
            } else {
                proof {
                    if e1 >= n {
                        assert(first_part(Seq::<char>::empty(), false).len() == 0);
                    }
                }
                (None, 0)
            }
        }
    } else if n >= 2 && alpha(s[0]) && s[1] == ':' {
        (Some(PrefixText::Disk(upper_ascii(s[0]))), 2)
    } else {
        (None, 0)
    }
}

fn verbatim_prefix(p: &Option<PrefixText>) -> (r: bool)
    ensures
        r == match opt_prefix_view(*p) {
            Some(PathPrefix::Verbatim(_)) => true,
            Some(PathPrefix::VerbatimUnc(_, _)) => true,
            Some(PathPrefix::VerbatimDisk(_)) => true,
            _ => false,
        },
{
    match p {
        Some(PrefixText::Verbatim(_)) => true,
        Some(PrefixText::VerbatimUnc(_, _)) => true,
        Some(PrefixText::VerbatimDisk(_)) => true,
        _ => false,
    }
}

fn implicit_prefix_root(p: &Option<PrefixText>) -> (r: bool)
    ensures
        r == match opt_prefix_view(*p) {
            Some(PathPrefix::Disk(_)) => false,
            Some(_) => true,
            None => false,
        },
{
    match p {
        Some(PrefixText::Disk(_)) => false,
        Some(_) => true,
        None => false,
    }
}

/// How a path begins: its prefix, where the prefix ends, whether it is
/// verbatim, whether a separator follows the prefix, whether it starts with
/// a `.` component, and where its body begins.
pub struct Layout {
    pub prefix: Option<PrefixText>,
    pub prefix_end: usize,
    pub verbatim: bool,
    pub root: bool,
    pub implicit: bool,
    pub cur: bool,
    pub body: usize,
}

pub fn layout(s: &Vec<char>) -> (r: Layout)
    ensures
        opt_prefix_view(r.prefix) == path_prefix(s@),
        r.prefix_end == prefix_len(s@),
        r.verbatim == is_verbatim(s@),
        r.root == has_root(s@),
        r.implicit == implicit_root(s@),
        r.cur == has_cur_dir(s@),
        r.body == body_start(s@),
        r.prefix_end <= r.body <= s.len(),
{
    let (prefix, k) = parse_prefix(s);
    let verbatim = verbatim_prefix(&prefix);
    let implicit = implicit_prefix_root(&prefix);
    let root = s.len() > k && sep(s[k]);
    let cur = !(root || implicit) && k < s.len() && s[k] == '.' && (k + 1 == s.len() || sep(
        s[k + 1],
    ));
    let body = k + (if root {
        1
    } else {
        0
    }) + (if cur {
        1
    } else {
        0
    });
    Layout { prefix, prefix_end: k, verbatim, root, implicit, cur, body }
}

pub fn trim_end_at(s: &Vec<char>, lo: usize, hi: usize, verbatim: bool) -> (r: usize)
    requires
        lo <= hi <= s.len(),
    ensures
        r == trimmed_end(s@, lo as int, hi as int, verbatim),
        lo <= r <= hi,
{
    let mut h: usize = hi;
    while h > lo && (sep_of(s[h - 1], verbatim) || (!verbatim && s[h - 1] == '.' && (h - 1 == lo
        || sep_of(s[h - 2], verbatim))))
        invariant
            lo <= h <= hi <= s.len(),
            trimmed_end(s@, lo as int, hi as int, verbatim) == trimmed_end(
                s@,
                lo as int,
                h as int,
                verbatim,
            ),
        decreases h,
    {
        h = h - 1;
    }
    h
}

pub fn component_begin(s: &Vec<char>, lo: usize, e: usize, verbatim: bool) -> (r: usize)
    requires
        lo <= e <= s.len(),
    ensures
        r == component_start(s@, lo as int, e as int, verbatim),
        lo <= r <= e,
{
    let mut h: usize = e;
    while h > lo && !sep_of(s[h - 1], verbatim)
        invariant
            lo <= h <= e <= s.len(),
            component_start(s@, lo as int, e as int, verbatim) == component_start(
                s@,
                lo as int,
                h as int,
                verbatim,
            ),
        decreases h,
    {
        h = h - 1;
    }
    h
}

pub fn file_name_of(s: &Vec<char>) -> (r: Option<Vec<char>>)
    ensures
        opt_view(r) == file_name(s@),
{
    let l = layout(s);
    let lo = l.body;
    let e = trim_end_at(s, lo, s.len(), l.verbatim);
    if e == lo {
        return None;
    }
    let st = component_begin(s, lo, e, l.verbatim);
    let name = slice_of(s, st, e);
    let dots = name.len() == 2 && name[0] == '.' && name[1] == '.';
    let dot = name.len() == 1 && name[0] == '.';
    proof {
        assert(dots == (name@ == seq!['.', '.'])) by {
            if name@.len() == 2 && name@[0] == '.' && name@[1] == '.' {
                assert(name@ =~= seq!['.', '.']);
            }
        }
        assert(dot == (name@ == seq!['.'])) by {
            if name@.len() == 1 && name@[0] == '.' {
                assert(name@ =~= seq!['.']);
            }
        }
    }
    if dots || (l.verbatim && dot) {
        None
    } else {
        Some(name)
    }
}

pub fn parent_of(s: &Vec<char>) -> (r: Option<Vec<char>>)
    ensures
        opt_view(r) == parent(s@),
{
    let l = layout(s);
    let lo = l.body;
    let e = trim_end_at(s, lo, s.len(), l.verbatim);
    if e == lo {
        if l.cur {
            let p = slice_of(s, 0, l.prefix_end);
            return Some(p);
        }
        return None;
    }
    let st = component_begin(s, lo, e, l.verbatim);
    let pe = trim_end_at(s, lo, st, l.verbatim);
    let p = slice_of(s, 0, pe);
    Some(p)
}

/// The components of `s[from..]`.
pub fn pieces_from(s: &Vec<char>, from: usize, verbatim: bool) -> (r: Vec<Vec<char>>)
    requires
        from <= s.len(),
    ensures
        views(r@) == pieces(s@.skip(from as int), verbatim),
{
    let mut r: Vec<Vec<char>> = Vec::new();
    let mut pos: usize = from;
    let ghost done: Seq<Seq<char>> = Seq::empty();
    while pos < s.len()
        invariant
            from <= pos <= s.len(),
            done + pieces(s@.skip(pos as int), verbatim) == pieces(s@.skip(from as int), verbatim),
            views(r@) == done,
        decreases s.len() - pos,
    {
        let ghost rest = s@.skip(pos as int);
        let end = first_sep_at(s, pos, verbatim);
        let piece = slice_of(s, pos, end);
        let keep = piece.len() > 0 && (verbatim || !(piece.len() == 1 && piece[0] == '.'));
        proof {
            lemma_first_sep_bounds(rest, verbatim);
            assert(piece@ == rest.take(end - pos));
            assert(keep == (piece@.len() > 0 && (verbatim || piece@ != seq!['.']))) by {
                if piece@.len() == 1 && piece@[0] == '.' {
                    assert(piece@ =~= seq!['.']);
                }
            }
            if end < s.len() {
                assert(rest.skip(end - pos + 1) == s@.skip(end + 1));
            } else {
                assert(s@.skip(end as int).len() == 0);
                assert(pieces(s@.skip(end as int), verbatim) == Seq::<Seq<char>>::empty());
            }
        }
        if keep {
            proof {
                done = done.push(piece@);
            }
            r.push(piece);
        }
        proof {
            assert(views(r@) =~= done);
        }
        if end < s.len() {
            pos = end + 1;
        } else {
            pos = end;
        }
    }
    proof {
        assert(pieces(s@.skip(pos as int), verbatim) == Seq::<Seq<char>>::empty());
        assert(done + Seq::<Seq<char>>::empty() == done);
    }
    r
}

fn char_list(a: char, b: char) -> (r: Vec<char>)
    ensures
        r@ == seq![a, b],
{
    let mut r: Vec<char> = Vec::new();
    r.push(a);
    r.push(b);
    assert(r@ =~= seq![a, b]);
    r
}

fn prefix_component_of(p: &PrefixText) -> (r: Vec<char>)
    ensures
        r@ == prefix_component(p.view()),
{
    match p {
        PrefixText::Disk(d) => char_list(*d, ':'),
        PrefixText::VerbatimDisk(d) => {
            let mut r = char_list('\\', 'V');
            r.push(*d);
            assert(r@ =~= seq!['\\', 'V', *d]);
            r
        },
        PrefixText::Unc(a, b) => {
            let mut r = concat(&char_list('\\', 'U'), a);
            r.push('\\');
            let r2 = concat(&r, b);
            assert(r2@ =~= seq!['\\', 'U'] + a@ + seq!['\\'] + b@);
            r2
        },
        PrefixText::VerbatimUnc(a, b) => {
            let mut r = concat(&char_list('\\', 'W'), a);
            r.push('\\');
            let r2 = concat(&r, b);
            assert(r2@ =~= seq!['\\', 'W'] + a@ + seq!['\\'] + b@);
            r2
        },
        PrefixText::DeviceNs(x) => concat(&char_list('\\', 'N'), x),
        PrefixText::Verbatim(x) => concat(&char_list('\\', 'B'), x),
    }
}

pub fn components_of(s: &Vec<char>) -> (r: Vec<Vec<char>>)
    ensures
        views(r@) == components(s@),
{
    let l = layout(s);
    let ghost pre: Seq<Seq<char>> = match path_prefix(s@) {
        Some(p) => seq![prefix_component(p)],
        None => Seq::empty(),
    };
    let ghost root_part: Seq<Seq<char>> = if root_component(s@) {
        seq![seq!['\\']]
    } else {
        Seq::empty()
    };
    let ghost cur_part: Seq<Seq<char>> = if has_cur_dir(s@) {
        seq![seq!['.']]
    } else {
        Seq::empty()
    };
    let mut r: Vec<Vec<char>> = Vec::new();
    match &l.prefix {
        Some(p) => {
            r.push(prefix_component_of(p));
        },
        None => {},
    }
    assert(views(r@) =~= pre);
    if l.root || (l.implicit && !l.verbatim) {
        let mut p: Vec<char> = Vec::new();
        p.push('\\');
        assert(p@ =~= seq!['\\']);
        r.push(p);
    }
    assert(views(r@) =~= pre + root_part);
    if l.cur {
        let mut p: Vec<char> = Vec::new();
        p.push('.');
        assert(p@ =~= seq!['.']);
        r.push(p);
    }
    assert(views(r@) =~= pre + root_part + cur_part);
    let mut rest = pieces_from(s, l.body, l.verbatim);
    let ghost old_r = r@;
    let ghost old_rest = rest@;
    r.append(&mut rest);
    assert(r@ == old_r + old_rest);
    assert(views(r@) =~= views(old_r) + views(old_rest));
    r
}

pub fn eq_char_lists(a: &Vec<Vec<char>>, b: &Vec<Vec<char>>) -> (r: bool)
    ensures
        r == (views(a@) == views(b@)),
{
    if a.len() != b.len() {
        assert(views(a@).len() != views(b@).len());
        return false;
    }
    let mut i: usize = 0;
    while i < a.len()
        invariant
            i <= a.len() == b.len(),
            forall|j: int| 0 <= j < i ==> a@[j]@ == b@[j]@,
        decreases a.len() - i,
    {
        if !eq_chars(&a[i], &b[i]) {
            assert(views(a@)[i as int] != views(b@)[i as int]);
            return false;
        }
        i = i + 1;
    }
    assert(views(a@) =~= views(b@));
    true
}

/// `Path` equality on path text.
pub fn paths_equal(a: &str, b: &str) -> (r: bool)
    ensures
        r == same_path(a@, b@),
{
    let ca = components_of(&chars_of(a));
    let cb = components_of(&chars_of(b));
    eq_char_lists(&ca, &cb)
}

/// A component of a verbatim path being rebuilt.
pub enum CompText {
    Prefix(Vec<char>),
    Root,
    Cur,
    Parent,
    Normal(Vec<char>),
}

impl CompText {
    pub open spec fn view(&self) -> Comp {
        match self {
            CompText::Prefix(t) => Comp::Prefix(t@),
            CompText::Root => Comp::Root,
            CompText::Cur => Comp::Cur,
            CompText::Parent => Comp::Parent,
            CompText::Normal(t) => Comp::Normal(t@),
        }
    }
}

pub open spec fn comp_views(v: Seq<CompText>) -> Seq<Comp> {
    v.map_values(|c: CompText| c.view())
}

fn push_piece_comps(out: &mut Vec<CompText>, ps: &Vec<Vec<char>>)
    ensures
        comp_views(final(out)@) == comp_views(old(out)@) + piece_comps(views(ps@)),
{
    let ghost start = comp_views(out@);
    let mut i: usize = 0;
    while i < ps.len()
        invariant
            i <= ps.len(),
            comp_views(out@) == start + piece_comps(views(ps@).take(i as int)),
        decreases ps.len() - i,
    {
        let p = &ps[i];
        let c = if p.len() == 2 && p[0] == '.' && p[1] == '.' {
            assert(p@ =~= seq!['.', '.']);
            CompText::Parent
        } else if p.len() == 1 && p[0] == '.' {
            assert(p@ =~= seq!['.']);
            CompText::Cur
        } else {
            assert(p@ != seq!['.', '.']) by {
                if p@.len() == 2 {
                    assert(p@[0] != '.' || p@[1] != '.');
                }
            }
            assert(p@ != seq!['.']) by {
                if p@.len() == 1 {
                    assert(p@[0] != '.');
                }
            }
            CompText::Normal(p.clone())
        };
        assert(c.view() == piece_comp(views(ps@)[i as int]));
        let ghost before = out@;
        out.push(c);
        assert(comp_views(out@) =~= comp_views(before).push(c.view()));
        assert(views(ps@).take(i + 1) =~= views(ps@).take(i as int).push(views(ps@)[i as int]));
        assert(piece_comps(views(ps@).take(i + 1)) =~= piece_comps(views(ps@).take(i as int)).push(
            piece_comp(views(ps@)[i as int]),
        ));
        i = i + 1;
    }
    assert(views(ps@).take(ps.len() as int) =~= views(ps@));
}

fn copy_comp(c: &CompText) -> (r: CompText)
    ensures
        r.view() == c.view(),
{
    match c {
        CompText::Prefix(t) => CompText::Prefix(t.clone()),
        CompText::Root => CompText::Root,
        CompText::Cur => CompText::Cur,
        CompText::Parent => CompText::Parent,
        CompText::Normal(t) => CompText::Normal(t.clone()),
    }
}

fn is_normal(c: &CompText) -> (r: bool)
    ensures
        r == (c.view() is Normal),
{
    match c {
        CompText::Normal(_) => true,
        _ => false,
    }
}

fn is_root(c: &CompText) -> (r: bool)
    ensures
        r == (c.view() == Comp::Root),
{
    match c {
        CompText::Root => true,
        _ => false,
    }
}

fn sep_after_of(c: &CompText) -> (r: bool)
    ensures
        r == sep_after(c.view()),
{
    match c {
        CompText::Root => false,
        CompText::Prefix(t) => t.len() > 0,
        _ => true,
    }
}

fn append_text(out: &mut Vec<char>, c: &CompText)
    ensures
        final(out)@ == old(out)@ + comp_text(c.view()),
{
    match c {
        CompText::Prefix(t) => {
            let r = concat(out, t);
            *out = r;
        },
        CompText::Root => {
            out.push('\\');
            assert(final(out)@ =~= old(out)@ + seq!['\\']);
        },
        CompText::Cur => {
            out.push('.');
            assert(final(out)@ =~= old(out)@ + seq!['.']);
        },
        CompText::Parent => {
            out.push('.');
            out.push('.');
            assert(final(out)@ =~= old(out)@ + seq!['.', '.']);
        },
        CompText::Normal(t) => {
            let r = concat(out, t);
            *out = r;
        },
    }
}

/// `PathBuf::push` of a path without a prefix onto a verbatim path: the
/// components rebuilt and written out.
fn verbatim_join(base: &Vec<char>, rel: &Vec<char>) -> (r: Vec<char>)
    requires
        path_prefix(rel@) is None,
    ensures
        r@ == render(push_comps(base_comps(base@), rel_comps(rel@))),
{
    let bl = layout(base);
    let rl = layout(rel);
    let mut buf: Vec<CompText> = Vec::new();
    buf.push(CompText::Prefix(slice_of(base, 0, bl.prefix_end)));
    if bl.root {
        buf.push(CompText::Root);
    }
    let bp = pieces_from(base, bl.body, true);
    let ghost head = comp_views(buf@);
    push_piece_comps(&mut buf, &bp);
    assert(comp_views(buf@) =~= base_comps(base@));
    let mut rels: Vec<CompText> = Vec::new();
    if rl.root {
        rels.push(CompText::Root);
    }
    if rl.cur {
        rels.push(CompText::Cur);
    }
    let rp = pieces_from(rel, rl.body, false);
    push_piece_comps(&mut rels, &rp);
    assert(comp_views(rels@) =~= rel_comps(rel@));
    let ghost b0 = base_comps(base@);
    let ghost cs = rel_comps(rel@);
    let mut i: usize = 0;
    assert(cs.take(0) =~= Seq::<Comp>::empty());
    while i < rels.len()
        invariant
            i <= rels.len(),
            comp_views(rels@) == cs,
            comp_views(buf@) == push_comps(b0, cs.take(i as int)),
            buf.len() >= 1,
            comp_views(buf@)[0] is Prefix,
        decreases rels.len() - i,
    {
        let c = &rels[i];
        let ghost before = comp_views(buf@);
        assert(cs[i as int] == c.view());
        match c {
            CompText::Root => {
                buf.truncate(1);
                buf.push(CompText::Root);
                assert(comp_views(buf@) =~= before.take(1).push(Comp::Root));
            },
            CompText::Cur => {},
            CompText::Parent => {
                if buf.len() > 0 && is_normal(&buf[buf.len() - 1]) {
                    let _ = buf.pop();
                    assert(comp_views(buf@) =~= before.drop_last());
                }
            },
            _ => {
                let d = copy_comp(c);
                buf.push(d);
                assert(comp_views(buf@) =~= before.push(c.view()));
            },
        }
        assert(cs.take(i + 1).drop_last() =~= cs.take(i as int));
        assert(cs.take(i + 1).last() == cs[i as int]);
        assert(comp_views(buf@) == push_comp(before, cs[i as int]));
        i = i + 1;
    }
    assert(cs.take(rels.len() as int) =~= cs);
    let ghost fin = comp_views(buf@);
    let mut out: Vec<char> = Vec::new();
    let mut j: usize = 0;
    assert(fin.take(0) =~= Seq::<Comp>::empty());
    while j < buf.len()
        invariant
            j <= buf.len(),
            comp_views(buf@) == fin,
            out@ == render(fin.take(j as int)),
        decreases buf.len() - j,
    {
        let ghost t = fin.take(j + 1);
        assert(t.drop_last() =~= fin.take(j as int));
        assert(t.last() == buf@[j as int].view());
        if j > 0 {
            assert(t[t.len() - 2] == buf@[j - 1].view());
            if sep_after_of(&buf[j - 1]) && !is_root(&buf[j]) {
                out.push('\\');
            }
        }
        let ghost mid = out@;
        append_text(&mut out, &buf[j]);
        proof {
            if j == 0 {
                assert(t.len() == 1);
                assert(out@ =~= comp_text(t[0]));
            } else {
                assert(out@ =~= render(t.drop_last()) + (if sep_after(t[t.len() - 2]) && t.last()
                    != Comp::Root {
                    seq!['\\']
                } else {
                    Seq::<char>::empty()
                }) + comp_text(t.last()));
            }
        }
        j = j + 1;
    }
    assert(fin.take(buf.len() as int) =~= fin);
    out
}

pub fn join_chars(base: &Vec<char>, rel: &Vec<char>) -> (r: Vec<char>)
    ensures
        r@ == join(base@, rel@),
{
    let rl = layout(rel);
    if rl.prefix.is_some() {
        return rel.clone();
    }
    let bl = layout(base);
    let disk = match &bl.prefix {
        Some(PrefixText::Disk(_)) => true,
        _ => false,
    };
    let need_sep = base.len() > 0 && !sep(base[base.len() - 1]) && !(disk && base.len() == 2);
    if bl.verbatim && rel.len() > 0 {
        verbatim_join(base, rel)
    } else if rl.root {
        let head = slice_of(base, 0, bl.prefix_end);
        concat(&head, rel)
    } else if need_sep {
        let mut head = base.clone();
        head.push('\\');
        concat(&head, rel)
    } else {
        concat(base, rel)
    }
}

/// `base.join(rel)` on path text.
pub fn join_path(base: &str, rel: &str) -> (r: String)
    ensures
        r@ == join(base@, rel@),
{
    let b = chars_of(base);
    let c = chars_of(rel);
    string_of(&join_chars(&b, &c))
}

} // verus!
