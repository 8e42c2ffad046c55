//! Where CS:GO may be installed: path keys and de-duplicated candidate lists,
//! Steam's VDF text formats, and the lists of places the loader looks in.
use vstd::prelude::*;
use crate::config::{CSGO_APP_DIR, CSGO_EXE};
use crate::text::{
    chars_of, contains, eq_ignore_ascii_case, eq_ignore_case, has_prefix, lines, occurs,
    split, split_at_char, split_lines, starts_with, string_of, string_views, to_lowercase, trim,
    trim_char, trimmed, trimmed_char, lowercase, views,
};
use crate::winpath::{file_name, file_name_of, parent, parent_of};

verus! {

// ----------------------------------------------------------------------------
// Path keys and de-duplication
// ----------------------------------------------------------------------------

pub open spec fn slashes_to_backslashes(s: Seq<char>) -> Seq<char> {
    s.map_values(|c: char| if c == '/' { '\\' } else { c })
}

pub open spec fn trim_trailing_backslashes(s: Seq<char>) -> Seq<char>
    decreases s.len(),
{
    if s.len() > 0 && s.last() == '\\' {
        trim_trailing_backslashes(s.drop_last())
    } else {
        s
    }
}

/// The key under which two paths count as the same place: `/` read as `\`,
/// trailing `\` dropped, then lower-cased.
pub open spec fn path_key_text(p: Seq<char>) -> Seq<char> {
    lowercase(trim_trailing_backslashes(slashes_to_backslashes(p)))
}

pub open spec fn has_key(paths: Seq<Seq<char>>, key: Seq<char>) -> bool {
    exists|i: int| 0 <= i < paths.len() && path_key_text(paths[i]) == key
}

/// No two paths of the list share a key.
pub open spec fn keys_distinct(paths: Seq<Seq<char>>) -> bool {
    forall|i: int, j: int|
        0 <= i < j < paths.len() ==> path_key_text(#[trigger] paths[i]) != path_key_text(
            #[trigger] paths[j],
        )
}

/// `paths` with `p` appended, unless `p` is empty or its key is already there.
pub open spec fn pushed_unique(paths: Seq<Seq<char>>, p: Seq<char>) -> Seq<Seq<char>> {
    if p.len() == 0 || has_key(paths, path_key_text(p)) {
        paths
    } else {
        paths.push(p)
    }
}

/// A path that names `csgo.exe` stands for the directory that holds it.
pub open spec fn normalized_candidate(p: Seq<char>) -> Seq<char> {
    match file_name(p) {
        Some(name) => if eq_ignore_ascii_case(name, CSGO_EXE@) {
            match parent(p) {
                Some(q) => q,
                None => p,
            }
        } else {
            p
        },
        None => p,
    }
}

pub open spec fn pushed_candidate(paths: Seq<Seq<char>>, p: Seq<char>) -> Seq<Seq<char>> {
    pushed_unique(paths, normalized_candidate(p))
}

/// Every item pushed with `pushed_unique`, in order.
pub open spec fn all_pushed_unique(paths: Seq<Seq<char>>, items: Seq<Seq<char>>) -> Seq<
    Seq<char>,
>
    decreases items.len(),
{
    if items.len() == 0 {
        paths
    } else {
        pushed_unique(all_pushed_unique(paths, items.drop_last()), items.last())
    }
}

/// Every item pushed with `pushed_candidate`, in order.
pub open spec fn all_pushed_candidates(paths: Seq<Seq<char>>, items: Seq<Seq<char>>) -> Seq<
    Seq<char>,
>
    decreases items.len(),
{
    if items.len() == 0 {
        paths
    } else {
        pushed_candidate(all_pushed_candidates(paths, items.drop_last()), items.last())
    }
}

pub open spec fn normalized_all(items: Seq<Seq<char>>) -> Seq<Seq<char>> {
    items.map_values(|p: Seq<char>| normalized_candidate(p))
}

/// The path's key.
pub fn path_key(path: &str) -> (r: String)
    ensures
        r@ == path_key_text(path@),
{
    let cs = chars_of(path);
    let mut v: Vec<char> = Vec::new();
    let mut i: usize = 0;
    while i < cs.len()
        invariant
            i <= cs.len(),
            cs@ == path@,
            v@ == slashes_to_backslashes(cs@.take(i as int)),
        decreases cs.len() - i,
    {
        let c = cs[i];
        v.push(
            if c == '/' {
                '\\'
            } else {
                c
            },
        );
        assert(cs@.take(i + 1) == cs@.take(i as int).push(c));
        assert(v@ =~= slashes_to_backslashes(cs@.take(i + 1)));
        i = i + 1;
    }
    assert(cs@.take(cs.len() as int) == cs@);
    let ghost replaced = v@;
    while v.len() > 0 && v[v.len() - 1] == '\\'
        invariant
            trim_trailing_backslashes(replaced) == trim_trailing_backslashes(v@),
        decreases v.len(),
    {
        v.pop();
    }
    let trimmed = string_of(&v);
    to_lowercase(trimmed.as_str())
}

proof fn lemma_pushed_unique_keeps_distinct(paths: Seq<Seq<char>>, p: Seq<char>)
    requires
        keys_distinct(paths),
    ensures
        keys_distinct(pushed_unique(paths, p)),
{
    let r = pushed_unique(paths, p);
    if p.len() > 0 && !has_key(paths, path_key_text(p)) {
        assert forall|i: int, j: int| 0 <= i < j < r.len() implies path_key_text(
            #[trigger] r[i],
        ) != path_key_text(#[trigger] r[j]) by {
            if j == paths.len() {
                assert(r[j] == p);
                assert(r[i] == paths[i]);
            } else {
                assert(r[i] == paths[i]);
                assert(r[j] == paths[j]);
            }
        }
    }
}

pub proof fn lemma_pushed_unique_len(paths: Seq<Seq<char>>, p: Seq<char>)
    ensures
        pushed_unique(paths, p).len() <= paths.len() + 1,
{
}

proof fn lemma_pushed_unique_has_key(paths: Seq<Seq<char>>, p: Seq<char>)
    ensures
        p.len() > 0 ==> has_key(pushed_unique(paths, p), path_key_text(p)),
{
    let r = pushed_unique(paths, p);
    if p.len() > 0 && !has_key(paths, path_key_text(p)) {
        assert(r[paths.len() as int] == p);
    }
}

proof fn lemma_pushed_unique_keeps_key(paths: Seq<Seq<char>>, p: Seq<char>, k: Seq<char>)
    requires
        has_key(paths, k),
    ensures
        has_key(pushed_unique(paths, p), k),
{
    let i = choose|i: int| 0 <= i < paths.len() && path_key_text(paths[i]) == k;
    assert(pushed_unique(paths, p)[i] == paths[i]);
}

/// Every non-empty item pushed with `pushed_unique` has its key in the list
/// afterwards.
pub proof fn lemma_all_pushed_unique_has_item(paths: Seq<Seq<char>>, items: Seq<Seq<char>>, j: int)
    requires
        0 <= j < items.len(),
        items[j].len() > 0,
    ensures
        has_key(all_pushed_unique(paths, items), path_key_text(items[j])),
    decreases items.len(),
{
    let prev = items.drop_last();
    if j == items.len() - 1 {
        lemma_pushed_unique_has_key(all_pushed_unique(paths, prev), items[j]);
    } else {
        assert(prev[j] == items[j]);
        lemma_all_pushed_unique_has_item(paths, prev, j);
        lemma_pushed_unique_keeps_key(
            all_pushed_unique(paths, prev),
            items.last(),
            path_key_text(items[j]),
        );
    }
}

/// Every item pushed with `pushed_candidate` whose normalized path is not
/// empty has that path's key in the list afterwards.
pub proof fn lemma_all_pushed_candidates_has_item(
    paths: Seq<Seq<char>>,
    items: Seq<Seq<char>>,
    j: int,
)
    requires
        0 <= j < items.len(),
        normalized_candidate(items[j]).len() > 0,
    ensures
        has_key(all_pushed_candidates(paths, items), path_key_text(normalized_candidate(items[j]))),
    decreases items.len(),
{
    let prev = items.drop_last();
    if j == items.len() - 1 {
        lemma_pushed_unique_has_key(all_pushed_candidates(paths, prev), normalized_candidate(items[j]));
    } else {
        assert(prev[j] == items[j]);
        lemma_all_pushed_candidates_has_item(paths, prev, j);
        lemma_pushed_unique_keeps_key(
            all_pushed_candidates(paths, prev),
            normalized_candidate(items.last()),
            path_key_text(normalized_candidate(items[j])),
        );
    }
}

/// Appends `path` unless it is empty or a path with the same key is already
/// in the list. A list with distinct keys keeps them distinct, and holds
/// `path`'s key afterwards.
pub fn push_unique(paths: &mut Vec<String>, path: String)
    ensures
        string_views(final(paths)@) == pushed_unique(string_views(old(paths)@), path@),
        keys_distinct(string_views(old(paths)@)) ==> keys_distinct(string_views(final(paths)@)),
        path@.len() > 0 ==> has_key(string_views(final(paths)@), path_key_text(path@)),
{
    let ghost before = string_views(paths@);
    proof {
        if keys_distinct(before) {
            lemma_pushed_unique_keeps_distinct(before, path@);
        }
        lemma_pushed_unique_has_key(before, path@);
    }
    if path.as_str().is_empty() {
        return;
    }
    let key = path_key(path.as_str());
    let mut i: usize = 0;
    while i < paths.len()
        invariant
            i <= paths.len(),
            string_views(paths@) == before,
            key@ == path_key_text(path@),
            forall|j: int| 0 <= j < i ==> path_key_text(before[j]) != key@,
        decreases paths.len() - i,
    {
        let existing = path_key(paths[i].as_str());
        if existing == key {
            assert(path_key_text(before[i as int]) == key@);
            assert(has_key(before, path_key_text(path@)));
            return;
        }
        i = i + 1;
    }
    assert(!has_key(before, path_key_text(path@)));
    paths.push(path);
    assert(string_views(paths@) =~= before.push(path@));
}

/// A path that names `csgo.exe` is replaced by the directory that holds it.
pub fn normalize_candidate(path: String) -> (r: String)
    ensures
        r@ == normalized_candidate(path@),
{
    let cs = chars_of(path.as_str());
    match file_name_of(&cs) {
        Some(name) => {
            let exe = chars_of(CSGO_EXE);
            if eq_ignore_case(&name, &exe) {
                match parent_of(&cs) {
                    Some(q) => string_of(&q),
                    None => path,
                }
            } else {
                path
            }
        },
        None => path,
    }
}

/// `push_unique` of the normalized path.
pub fn push_candidate(paths: &mut Vec<String>, path: String)
    ensures
        string_views(final(paths)@) == pushed_candidate(string_views(old(paths)@), path@),
        keys_distinct(string_views(old(paths)@)) ==> keys_distinct(string_views(final(paths)@)),
{
    let p = normalize_candidate(path);
    push_unique(paths, p);
}

// ----------------------------------------------------------------------------
// Steam's VDF text
// ----------------------------------------------------------------------------

/// `\\` read as `\`, left to right, as `str::replace` does.
pub open spec fn unescape_backslashes(s: Seq<char>) -> Seq<char>
    decreases s.len(),
{
    if s.len() >= 2 && s[0] == '\\' && s[1] == '\\' {
        seq!['\\'] + unescape_backslashes(s.skip(2))
    } else if s.len() == 0 {
        s
    } else {
        seq![s[0]] + unescape_backslashes(s.drop_first())
    }
}

/// The first two quoted strings of a VDF line, unescaped: the key and the
/// value, when the line has both.
pub open spec fn vdf_pair(line: Seq<char>) -> Option<(Seq<char>, Seq<char>)> {
    let parts = split(line, '"');
    if parts.len() >= 4 {
        Some((unescape_backslashes(parts[1]), unescape_backslashes(parts[3])))
    } else {
        None
    }
}

pub fn unescape(s: &Vec<char>) -> (r: Vec<char>)
    ensures
        r@ == unescape_backslashes(s@),
{
    let mut r: Vec<char> = Vec::new();
    let mut i: usize = 0;
    assert(s@.skip(0) == s@);
    while i < s.len()
        invariant
            i <= s.len(),
            r@ + unescape_backslashes(s@.skip(i as int)) == unescape_backslashes(s@),
        decreases s.len() - i,
    {
        let ghost rest = s@.skip(i as int);
        if i + 1 < s.len() && s[i] == '\\' && s[i + 1] == '\\' {
            r.push('\\');
            assert(rest.skip(2) == s@.skip(i + 2));
            assert(unescape_backslashes(rest) == seq!['\\'] + unescape_backslashes(s@.skip(i + 2)));
            i = i + 2;
        } else {
            r.push(s[i]);
            assert(rest.drop_first() == s@.skip(i + 1));
            assert(unescape_backslashes(rest) == seq![s@[i as int]] + unescape_backslashes(
                s@.skip(i + 1),
            ));
            i = i + 1;
        }
    }
    assert(unescape_backslashes(s@.skip(i as int)) == Seq::<char>::empty());
    assert(r@ + Seq::<char>::empty() == r@);
    r
}

fn vdf_pair_chars(line: &Vec<char>) -> (r: Option<(Vec<char>, Vec<char>)>)
    ensures
        match r {
            Some((k, v)) => vdf_pair(line@) == Some((k@, v@)),
            None => vdf_pair(line@) is None,
        },
{
    let parts = split_at_char(line, '"');
    if parts.len() >= 4 {
        assert(parts@[1]@ == split(line@, '"')[1]);
        assert(parts@[3]@ == split(line@, '"')[3]);
        let k = unescape(&parts[1]);
        let v = unescape(&parts[3]);
        Some((k, v))
    } else {
        None
    }
}

/// The key and value of a VDF line such as `"path"  "D:\\SteamLibrary"`.
pub fn parse_vdf_key_value(line: &str) -> (r: Option<(String, String)>)
    ensures
        match r {
            Some((k, v)) => vdf_pair(line@) == Some((k@, v@)),
            None => vdf_pair(line@) is None,
        },
{
    let cs = chars_of(line);
    match vdf_pair_chars(&cs) {
        Some((k, v)) => Some((string_of(&k), string_of(&v))),
        None => None,
    }
}

/// A value that reads as an absolute path: a drive (`:\` or `:/`), a UNC
/// start (`\\`) or a leading `/`.
pub open spec fn looks_like_path_text(value: Seq<char>) -> bool {
    let v = trim(value);
    contains(v, seq![':', '\\']) || contains(v, seq![':', '/']) || starts_with(
        v,
        seq!['\\', '\\'],
    ) || starts_with(v, seq!['/'])
}

fn looks_like_path_chars(value: &Vec<char>) -> (r: bool)
    ensures
        r == looks_like_path_text(value@),
{
    let v = trimmed(value);
    let mut drive_back: Vec<char> = Vec::new();
    drive_back.push(':');
    drive_back.push('\\');
    let mut drive_fwd: Vec<char> = Vec::new();
    drive_fwd.push(':');
    drive_fwd.push('/');
    let mut unc: Vec<char> = Vec::new();
    unc.push('\\');
    unc.push('\\');
    let mut slash: Vec<char> = Vec::new();
    slash.push('/');
    assert(drive_back@ =~= seq![':', '\\']);
    assert(drive_fwd@ =~= seq![':', '/']);
    assert(unc@ =~= seq!['\\', '\\']);
    assert(slash@ =~= seq!['/']);
    occurs(&v, &drive_back) || occurs(&v, &drive_fwd) || has_prefix(&v, &unc) || has_prefix(
        &v,
        &slash,
    )
}

pub fn looks_like_path(value: &str) -> (r: bool)
    ensures
        r == looks_like_path_text(value@),
{
    looks_like_path_chars(&chars_of(value))
}

pub open spec fn is_digit(c: char) -> bool {
    '0' <= c && c <= '9'
}

pub open spec fn digits_value(d: Seq<char>) -> nat
    decreases d.len(),
{
    if d.len() == 0 {
        0
    } else {
        digits_value(d.drop_last()) * 10 + ((d.last() as u32) - 48) as nat
    }
}

pub open spec fn unsigned_digits(s: Seq<char>) -> Seq<char> {
    if s.len() > 0 && s[0] == '+' {
        s.drop_first()
    } else {
        s
    }
}

/// Whether `str::parse::<u32>` accepts the text: an optional `+`, then at
/// least one ASCII digit, and a value that fits in `u32`.
pub open spec fn parses_as_u32(s: Seq<char>) -> bool {
    let d = unsigned_digits(s);
    &&& d.len() > 0
    &&& forall|i: int| 0 <= i < d.len() ==> is_digit(#[trigger] d[i])
    &&& digits_value(d) <= u32::MAX
}

proof fn lemma_digits_value_grows(d: Seq<char>, k: int)
    requires
        0 <= k <= d.len(),
        forall|i: int| 0 <= i < d.len() ==> is_digit(#[trigger] d[i]),
    ensures
        digits_value(d.take(k)) <= digits_value(d),
    decreases d.len() - k,
{
    if k < d.len() {
        assert(d.drop_last().take(k) == d.take(k));
        lemma_digits_value_grows(d.drop_last(), k);
        assert(d.take(d.len() as int) == d);
    } else {
        assert(d.take(k) == d);
    }
}

fn parses_as_u32_chars(s: &Vec<char>) -> (r: bool)
    ensures
        r == parses_as_u32(s@),
{
    let start: usize = if s.len() > 0 && s[0] == '+' {
        1
    } else {
        0
    };
    let ghost d = unsigned_digits(s@);
    assert(d == s@.skip(start as int));
    if start >= s.len() {
        return false;
    }
    let mut i: usize = start;
    while i < s.len()
        invariant
            start <= i <= s.len(),
            d == s@.skip(start as int),
            d == unsigned_digits(s@),
            forall|j: int| 0 <= j < i - start ==> is_digit(#[trigger] d[j]),
        decreases s.len() - i,
    {
        assert(d[i - start] == s@[i as int]);
        if !('0' <= s[i] && s[i] <= '9') {
            assert(!is_digit(d[i - start]));
            assert(!parses_as_u32(s@)) by {
                assert(!is_digit(unsigned_digits(s@)[i - start]));
            }
            return false;
        }
        i = i + 1;
    }
    let mut value: u64 = 0;
    let mut k: usize = start;
    while k < s.len()
        invariant
            start <= k <= s.len(),
            d == s@.skip(start as int),
            d == unsigned_digits(s@),
            forall|j: int| 0 <= j < d.len() ==> is_digit(#[trigger] d[j]),
            value == digits_value(d.take(k - start)),
            value <= u32::MAX,
        decreases s.len() - k,
    {
        assert(d[k - start] == s@[k as int]);
        assert(is_digit(d[k - start]));
        let digit: u64 = ((s[k] as u32) - 48) as u64;
        assert(d.take(k + 1 - start).drop_last() == d.take(k - start));
        assert(d.take(k + 1 - start).last() == s@[k as int]);
        let next: u64 = value * 10 + digit;
        assert(next == digits_value(d.take(k + 1 - start)));
        if next > 4294967295 {
            proof {
                lemma_digits_value_grows(d, k + 1 - start);
                assert(digits_value(d) > u32::MAX);
                assert(!parses_as_u32(s@));
            }
            return false;
        }
        value = next;
        k = k + 1;
    }
    assert(d.take(d.len() as int) == d);
    true
}

/// A library folder line: `"path" "<dir>"`, or (older files) a numbered key
/// whose value looks like a path.
pub open spec fn library_path(line: Seq<char>) -> Option<Seq<char>> {
    match vdf_pair(line) {
        Some((k, v)) => if eq_ignore_ascii_case(k, "path"@) || (parses_as_u32(k)
            && looks_like_path_text(v)) {
            Some(v)
        } else {
            None
        },
        None => None,
    }
}

fn library_path_chars(line: &Vec<char>) -> (r: Option<Vec<char>>)
    ensures
        crate::text::opt_view(r) == library_path(line@),
{
    match vdf_pair_chars(line) {
        Some((k, v)) => {
            let key_path = chars_of("path");
            if eq_ignore_case(&k, &key_path) || (parses_as_u32_chars(&k) && looks_like_path_chars(
                &v,
            )) {
                Some(v)
            } else {
                None
            }
        },
        None => None,
    }
}

/// The library directory a line of `libraryfolders.vdf` names, if any.
pub fn parse_library_path(line: &str) -> (r: Option<String>)
    ensures
        crate::text::opt_string_view(r) == library_path(line@),
{
    match library_path_chars(&chars_of(line)) {
        Some(v) => Some(string_of(&v)),
        None => None,
    }
}

/// The `installdir` a manifest line names, if it is not blank.
pub open spec fn line_install_dir(line: Seq<char>) -> Option<Seq<char>> {
    match vdf_pair(trim(line)) {
        Some((k, v)) => if eq_ignore_ascii_case(k, "installdir"@) && trim(v).len() > 0 {
            Some(v)
        } else {
            None
        },
        None => None,
    }
}

pub open spec fn first_install_dir(ls: Seq<Seq<char>>) -> Option<Seq<char>>
    decreases ls.len(),
{
    if ls.len() == 0 {
        None
    } else {
        match line_install_dir(ls[0]) {
            Some(v) => Some(v),
            None => first_install_dir(ls.drop_first()),
        }
    }
}

/// The install directory an `appmanifest_*.acf` text names: the first line
/// with a non-blank `installdir` value.
pub fn parse_manifest_install_dir(contents: &str) -> (r: Option<String>)
    ensures
        crate::text::opt_string_view(r) == first_install_dir(lines(contents@)),
{
    let ls = split_lines(&chars_of(contents));
    let ghost all = views(ls@);
    let key_name = chars_of("installdir");
    let mut i: usize = 0;
    assert(all.skip(0) == all);
    while i < ls.len()
        invariant
            i <= ls.len(),
            all == views(ls@),
            all == lines(contents@),
            key_name@ == "installdir"@,
            first_install_dir(all) == first_install_dir(all.skip(i as int)),
        decreases ls.len() - i,
    {
        let t = trimmed(&ls[i]);
        assert(ls@[i as int]@ == all[i as int]);
        assert(all.skip(i as int)[0] == all[i as int]);
        match vdf_pair_chars(&t) {
            Some((k, v)) => {
                if eq_ignore_case(&k, &key_name) && trimmed(&v).len() > 0 {
                    return Some(string_of(&v));
                }
            },
            None => {},
        }
        assert(all.skip(i as int).drop_first() == all.skip(i + 1));
        i = i + 1;
    }
    None
}

/// What a path hint or cache file says: the first line that is neither blank
/// nor a `#` comment, trimmed, unquoted and normalized.
pub open spec fn first_path_line(ls: Seq<Seq<char>>) -> Option<Seq<char>>
    decreases ls.len(),
{
    if ls.len() == 0 {
        None
    } else {
        let t = trim(ls[0]);
        if t.len() > 0 && !starts_with(t, seq!['#']) {
            Some(normalized_candidate(trim_char(t, '"')))
        } else {
            first_path_line(ls.drop_first())
        }
    }
}

/// The directory a path file holds.
pub fn read_path_file(contents: &str) -> (r: Option<String>)
    ensures
        crate::text::opt_string_view(r) == first_path_line(lines(contents@)),
{
    let ls = split_lines(&chars_of(contents));
    let ghost all = views(ls@);
    let mut hash: Vec<char> = Vec::new();
    hash.push('#');
    assert(hash@ =~= seq!['#']);
    let mut i: usize = 0;
    assert(all.skip(0) == all);
    while i < ls.len()
        invariant
            i <= ls.len(),
            all == views(ls@),
            all == lines(contents@),
            hash@ == seq!['#'],
            first_path_line(all) == first_path_line(all.skip(i as int)),
        decreases ls.len() - i,
    {
        let t = trimmed(&ls[i]);
        assert(ls@[i as int]@ == all[i as int]);
        assert(all.skip(i as int)[0] == all[i as int]);
        if t.len() > 0 && !has_prefix(&t, &hash) {
            let unquoted = trimmed_char(&t, '"');
            return Some(normalize_candidate(string_of(&unquoted)));
        }
        assert(all.skip(i as int).drop_first() == all.skip(i + 1));
        i = i + 1;
    }
    None
}

// ----------------------------------------------------------------------------
// Candidate lists
// ----------------------------------------------------------------------------

pub open spec fn opt_string_views(v: Seq<Option<String>>) -> Seq<Option<Seq<char>>> {
    v.map_values(|o: Option<String>| crate::text::opt_string_view(o))
}

/// The present values, in order.
pub open spec fn somes(s: Seq<Option<Seq<char>>>) -> Seq<Seq<char>>
    decreases s.len(),
{
    if s.len() == 0 {
        Seq::empty()
    } else {
        match s.last() {
            Some(v) => somes(s.drop_last()).push(v),
            None => somes(s.drop_last()),
        }
    }
}

/// A present value is among the present values.
pub proof fn lemma_somes_holds(s: Seq<Option<Seq<char>>>, a: int)
    requires
        0 <= a < s.len(),
        s[a] is Some,
    ensures
        exists|j: int| 0 <= j < somes(s).len() && somes(s)[j] == s[a]->0,
    decreases s.len(),
{
    let prev = s.drop_last();
    if a == s.len() - 1 {
        let r = somes(s);
        assert(r[r.len() - 1] == s[a]->0);
    } else {
        assert(prev[a] == s[a]);
        lemma_somes_holds(prev, a);
        let j = choose|j: int| 0 <= j < somes(prev).len() && somes(prev)[j] == prev[a]->0;
        assert(somes(s)[j] == somes(prev)[j]);
    }
}

/// Appends every item with `push_unique`, in order.
pub fn push_all_unique(paths: &mut Vec<String>, items: &Vec<String>)
    ensures
        string_views(final(paths)@) == all_pushed_unique(
            string_views(old(paths)@),
            string_views(items@),
        ),
        keys_distinct(string_views(old(paths)@)) ==> keys_distinct(string_views(final(paths)@)),
{
    let ghost start = string_views(paths@);
    let mut i: usize = 0;
    assert(string_views(items@).take(0) =~= Seq::<Seq<char>>::empty());
    while i < items.len()
        invariant
            i <= items.len(),
            string_views(paths@) == all_pushed_unique(start, string_views(items@).take(i as int)),
            keys_distinct(start) ==> keys_distinct(string_views(paths@)),
        decreases items.len() - i,
    {
        let item = items[i].clone();
        push_unique(paths, item);
        assert(string_views(items@).take(i + 1).drop_last() =~= string_views(items@).take(
            i as int,
        ));
        i = i + 1;
    }
    assert(string_views(items@).take(items.len() as int) =~= string_views(items@));
}

/// Appends every item with `push_candidate`, in order.
pub fn push_all_candidates(paths: &mut Vec<String>, items: &Vec<String>)
    ensures
        string_views(final(paths)@) == all_pushed_candidates(
            string_views(old(paths)@),
            string_views(items@),
        ),
        keys_distinct(string_views(old(paths)@)) ==> keys_distinct(string_views(final(paths)@)),
{
    let ghost start = string_views(paths@);
    let mut i: usize = 0;
    assert(string_views(items@).take(0) =~= Seq::<Seq<char>>::empty());
    while i < items.len()
        invariant
            i <= items.len(),
            string_views(paths@) == all_pushed_candidates(
                start,
                string_views(items@).take(i as int),
            ),
            keys_distinct(start) ==> keys_distinct(string_views(paths@)),
        decreases items.len() - i,
    {
        let item = items[i].clone();
        push_candidate(paths, item);
        assert(string_views(items@).take(i + 1).drop_last() =~= string_views(items@).take(
            i as int,
        ));
        i = i + 1;
    }
    assert(string_views(items@).take(items.len() as int) =~= string_views(items@));
}

/// The present values of `values`, in order.
pub fn collect_present(values: &Vec<Option<String>>) -> (r: Vec<String>)
    ensures
        string_views(r@) == somes(opt_string_views(values@)),
{
    let mut r: Vec<String> = Vec::new();
    let mut i: usize = 0;
    assert(opt_string_views(values@).take(0) =~= Seq::<Option<Seq<char>>>::empty());
    while i < values.len()
        invariant
            i <= values.len(),
            string_views(r@) == somes(opt_string_views(values@).take(i as int)),
        decreases values.len() - i,
    {
        let ghost pre = opt_string_views(values@).take(i as int);
        assert(opt_string_views(values@).take(i + 1).drop_last() =~= pre);
        match &values[i] {
            Some(v) => {
                r.push(v.clone());
                assert(string_views(r@) =~= somes(pre).push(v@));
            },
            None => {},
        }
        i = i + 1;
    }
    assert(opt_string_views(values@).take(values.len() as int) =~= opt_string_views(values@));
    r
}

/// Appends `b` to `a`.
pub fn extend(a: &mut Vec<String>, b: &Vec<String>)
    ensures
        string_views(final(a)@) == string_views(old(a)@) + string_views(b@),
{
    let ghost start = string_views(a@);
    let mut i: usize = 0;
    while i < b.len()
        invariant
            i <= b.len(),
            string_views(a@) == start + string_views(b@).take(i as int),
        decreases b.len() - i,
    {
        let item = b[i].clone();
        let ghost before = a@;
        a.push(item);
        assert(a@ == before.push(item));
        assert(item@ == b@[i as int]@);
        assert(string_views(a@) =~= string_views(before).push(item@));
        assert(string_views(b@).take(i + 1) =~= string_views(b@).take(i as int).push(item@));
        assert(string_views(a@) =~= start + string_views(b@).take(i + 1));
        i = i + 1;
    }
    assert(string_views(b@).take(b.len() as int) =~= string_views(b@));
}

/// The candidate directories that the environment and the path hint files
/// name: each set variable's value, then the path each hint file holds.
pub open spec fn explicit_items(
    env_values: Seq<Option<Seq<char>>>,
    hint_files: Seq<Option<Seq<char>>>,
) -> Seq<Seq<char>> {
    somes(env_values) + somes(hint_paths(hint_files))
}

/// The path a hint file's contents name, if any.
pub open spec fn hint_path(contents: Option<Seq<char>>) -> Option<Seq<char>> {
    match contents {
        Some(c) => first_path_line(lines(c)),
        None => None,
    }
}

pub open spec fn hint_paths(files: Seq<Option<Seq<char>>>) -> Seq<Option<Seq<char>>> {
    files.map_values(|o: Option<Seq<char>>| hint_path(o))
}

/// Candidates from the `CSGO_PATH_ENV_VARS` values (`None` for an unset
/// variable) and from the contents of the path hint files (`None` for a file
/// that could not be read), in that order.
pub fn explicit_install_paths(
    env_values: &Vec<Option<String>>,
    hint_files: &Vec<Option<String>>,
) -> (r: Vec<String>)
    ensures
        string_views(r@) == all_pushed_candidates(
            Seq::empty(),
            explicit_items(opt_string_views(env_values@), opt_string_views(hint_files@)),
        ),
        keys_distinct(string_views(r@)),
{
    let mut items = collect_present(env_values);
    let mut hinted: Vec<Option<String>> = Vec::new();
    let mut i: usize = 0;
    while i < hint_files.len()
        invariant
            i <= hint_files.len(),
            opt_string_views(hinted@) == hint_paths(opt_string_views(hint_files@).take(i as int)),
        decreases hint_files.len() - i,
    {
        let value = match &hint_files[i] {
            Some(c) => read_path_file(c.as_str()),
            None => None,
        };
        let ghost before = hinted@;
        let ghost x = opt_string_views(hint_files@);
        assert(crate::text::opt_string_view(value) == hint_path(x[i as int]));
        hinted.push(value);
        assert(opt_string_views(hinted@) =~= opt_string_views(before).push(
            crate::text::opt_string_view(value),
        ));
        assert(x.take(i + 1) =~= x.take(i as int).push(x[i as int]));
        assert(hint_paths(x.take(i + 1)) =~= hint_paths(x.take(i as int)).push(hint_path(x[i as int])));
        i = i + 1;
    }
    assert(opt_string_views(hint_files@).take(hint_files.len() as int) =~= opt_string_views(
        hint_files@,
    ));
    let from_hints = collect_present(&hinted);
    extend(&mut items, &from_hints);
    assert(string_views(items@) == explicit_items(
        opt_string_views(env_values@),
        opt_string_views(hint_files@),
    ));
    let mut r: Vec<String> = Vec::new();
    assert(string_views(r@) =~= Seq::<Seq<char>>::empty());
    push_all_candidates(&mut r, &items);
    r
}

/// A registry value, trimmed; blank values count as missing.
pub open spec fn registry_text(raw: Option<Seq<char>>) -> Option<Seq<char>> {
    match raw {
        Some(v) => if trim(v).len() > 0 {
            Some(trim(v))
        } else {
            None
        },
        None => None,
    }
}

pub fn registry_string(raw: Option<String>) -> (r: Option<String>)
    ensures
        crate::text::opt_string_view(r) == registry_text(crate::text::opt_string_view(raw)),
{
    match raw {
        Some(v) => {
            let t = trimmed(&chars_of(v.as_str()));
            if t.len() > 0 {
                Some(string_of(&t))
            } else {
                None
            }
        },
        None => None,
    }
}

/// Where a registry value is read from.
#[derive(Clone, Copy, Debug, PartialEq, Eq, Structural)]
pub enum RegistryHive {
    CurrentUser,
    LocalMachine,
}

/// One registry value to read: hive, key path and value name.
pub struct RegistryQuery {
    pub hive: RegistryHive,
    pub key_path: String,
    pub value_name: String,
}

fn query(hive: RegistryHive, key_path: &str, value_name: &str) -> (r: RegistryQuery)
    ensures
        r.hive == hive,
        r.key_path@ == key_path@,
        r.value_name@ == value_name@,
{
    RegistryQuery {
        hive,
        key_path: string_of(&chars_of(key_path)),
        value_name: string_of(&chars_of(value_name)),
    }
}

/// The registry values that may hold Steam's install path, in the order
/// `steam_install_paths` expects their values.
pub fn steam_registry_queries() -> (r: Vec<RegistryQuery>)
    ensures
        r@.len() == 3,
        r@[0].hive == RegistryHive::CurrentUser,
        r@[0].key_path@ == "Software\\Valve\\Steam"@,
        r@[0].value_name@ == "SteamPath"@,
        r@[1].hive == RegistryHive::LocalMachine,
        r@[1].key_path@ == "SOFTWARE\\WOW6432Node\\Valve\\Steam"@,
        r@[1].value_name@ == "InstallPath"@,
        r@[2].hive == RegistryHive::LocalMachine,
        r@[2].key_path@ == "SOFTWARE\\Valve\\Steam"@,
        r@[2].value_name@ == "InstallPath"@,
{
    let mut r: Vec<RegistryQuery> = Vec::new();
    r.push(query(RegistryHive::CurrentUser, "Software\\Valve\\Steam", "SteamPath"));
    r.push(
        query(RegistryHive::LocalMachine, "SOFTWARE\\WOW6432Node\\Valve\\Steam", "InstallPath"),
    );
    r.push(query(RegistryHive::LocalMachine, "SOFTWARE\\Valve\\Steam", "InstallPath"));
    r
}

/// The environment variables that may point at Steam, in the order
/// `steam_install_paths` expects them.
pub fn steam_env_variables() -> (r: Vec<&'static str>)
    ensures
        r@.len() == 5,
        r@[0]@ == "STEAM"@,
        r@[1]@ == "STEAM_HOME"@,
        r@[2]@ == "PROGRAMFILES(X86)"@,
        r@[3]@ == "PROGRAMFILES"@,
        r@[4]@ == "PROGRAMW6432"@,
{
    let mut r: Vec<&'static str> = Vec::new();
    r.push("STEAM");
    r.push("STEAM_HOME");
    r.push("PROGRAMFILES(X86)");
    r.push("PROGRAMFILES");
    r.push("PROGRAMW6432");
    r
}

pub open spec fn fixed_steam_dirs() -> Seq<Seq<char>> {
    seq!["C:\\Steam"@, "C:\\Program Files (x86)\\Steam"@, "C:\\Program Files\\Steam"@]
}

/// A variable's directory: the `Steam` folder inside it for `PROGRAM*`
/// variables, the value itself otherwise.
pub open spec fn steam_env_dir(name: Seq<char>, value: Option<Seq<char>>) -> Option<Seq<char>> {
    match value {
        Some(v) => if starts_with(name, "PROGRAM"@) {
            Some(crate::winpath::join(v, "Steam"@))
        } else {
            Some(v)
        },
        None => None,
    }
}

pub open spec fn steam_items(
    registry: Seq<Option<Seq<char>>>,
    env: Seq<(Seq<char>, Option<Seq<char>>)>,
) -> Seq<Seq<char>> {
    somes(registry_texts(registry)) + somes(steam_env_dirs(env)) + fixed_steam_dirs()
}

pub open spec fn registry_texts(s: Seq<Option<Seq<char>>>) -> Seq<Option<Seq<char>>> {
    s.map_values(|o: Option<Seq<char>>| registry_text(o))
}

pub open spec fn steam_env_dirs(env: Seq<(Seq<char>, Option<Seq<char>>)>) -> Seq<Option<Seq<char>>> {
    env.map_values(|e: (Seq<char>, Option<Seq<char>>)| steam_env_dir(e.0, e.1))
}

pub open spec fn env_views(env: Seq<(String, Option<String>)>) -> Seq<(Seq<char>, Option<Seq<char>>)> {
    env.map_values(|e: (String, Option<String>)| (e.0@, crate::text::opt_string_view(e.1)))
}

/// Steam install directories: the registry values read for
/// `steam_registry_queries` (raw, `None` when missing), then the set
/// environment variables among `steam_env_variables` (name and value), then
/// the usual install locations; de-duplicated by key.
pub fn steam_install_paths(
    registry_values: &Vec<Option<String>>,
    env: &Vec<(String, Option<String>)>,
) -> (r: Vec<String>)
    ensures
        string_views(r@) == all_pushed_unique(
            Seq::empty(),
            steam_items(opt_string_views(registry_values@), env_views(env@)),
        ),
        keys_distinct(string_views(r@)),
{
    let mut reg: Vec<Option<String>> = Vec::new();
    let mut i: usize = 0;
    while i < registry_values.len()
        invariant
            i <= registry_values.len(),
            opt_string_views(reg@) == registry_texts(opt_string_views(registry_values@).take(i as int)),
        decreases registry_values.len() - i,
    {
        let raw = match &registry_values[i] {
            Some(v) => Some(v.clone()),
            None => None,
        };
        let value = registry_string(raw);
        let ghost before = reg@;
        let ghost x = opt_string_views(registry_values@);
        assert(crate::text::opt_string_view(value) == registry_text(x[i as int]));
        reg.push(value);
        assert(opt_string_views(reg@) =~= opt_string_views(before).push(
            crate::text::opt_string_view(value),
        ));
        assert(x.take(i + 1) =~= x.take(i as int).push(x[i as int]));
        assert(registry_texts(x.take(i + 1)) =~= registry_texts(x.take(i as int)).push(registry_text(x[i as int])));
        i = i + 1;
    }
    assert(opt_string_views(registry_values@).take(registry_values.len() as int)
        =~= opt_string_views(registry_values@));
    let mut items = collect_present(&reg);
    let mut envd: Vec<Option<String>> = Vec::new();
    let program = chars_of("PROGRAM");
    let steam = chars_of("Steam");
    let mut j: usize = 0;
    while j < env.len()
        invariant
            j <= env.len(),
            program@ == "PROGRAM"@,
            steam@ == "Steam"@,
            opt_string_views(envd@) == steam_env_dirs(env_views(env@).take(j as int)),
        decreases env.len() - j,
    {
        let (name, value) = &env[j];
        let d = match value {
            Some(v) => {
                if has_prefix(&chars_of(name.as_str()), &program) {
                    Some(string_of(&crate::winpath::join_chars(&chars_of(v.as_str()), &steam)))
                } else {
                    Some(v.clone())
                }
            },
            None => None,
        };
        let ghost before = envd@;
        let ghost x = env_views(env@);
        assert(x[j as int] == (name@, crate::text::opt_string_view(*value)));
        assert(crate::text::opt_string_view(d) == steam_env_dir(x[j as int].0, x[j as int].1));
        envd.push(d);
        assert(opt_string_views(envd@) =~= opt_string_views(before).push(
            crate::text::opt_string_view(d),
        ));
        assert(x.take(j + 1) =~= x.take(j as int).push(x[j as int]));
        assert(steam_env_dirs(x.take(j + 1)) =~= steam_env_dirs(x.take(j as int)).push(
            steam_env_dir(x[j as int].0, x[j as int].1),
        ));
        j = j + 1;
    }
    assert(env_views(env@).take(env.len() as int) =~= env_views(env@));
    let from_env = collect_present(&envd);
    extend(&mut items, &from_env);
    let mut fixed: Vec<String> = Vec::new();
    fixed.push(string_of(&chars_of("C:\\Steam")));
    fixed.push(string_of(&chars_of("C:\\Program Files (x86)\\Steam")));
    fixed.push(string_of(&chars_of("C:\\Program Files\\Steam")));
    assert(string_views(fixed@) =~= fixed_steam_dirs());
    extend(&mut items, &fixed);
    assert(string_views(items@) == steam_items(opt_string_views(registry_values@), env_views(env@)));
    let mut r: Vec<String> = Vec::new();
    assert(string_views(r@) =~= Seq::<Seq<char>>::empty());
    push_all_unique(&mut r, &items);
    r
}

/// `<steam>\steamapps\libraryfolders.vdf`.
pub fn library_folders_file(steam_path: &str) -> (r: String)
    ensures
        r@ == crate::winpath::join(
            crate::winpath::join(steam_path@, "steamapps"@),
            "libraryfolders.vdf"@,
        ),
{
    let a = crate::winpath::join_chars(&chars_of(steam_path), &chars_of("steamapps"));
    string_of(&crate::winpath::join_chars(&a, &chars_of("libraryfolders.vdf")))
}

pub open spec fn library_lines(ls: Seq<Seq<char>>) -> Seq<Option<Seq<char>>> {
    ls.map_values(|l: Seq<char>| library_path(trim(l)))
}

/// Steam library directories: the Steam directory itself, then each library
/// that `libraryfolders.vdf` (its contents, if it could be read) names.
pub fn steam_library_roots(steam_path: &str, library_file: Option<String>) -> (r: Vec<String>)
    ensures
        string_views(r@) == all_pushed_unique(
            Seq::empty(),
            seq![steam_path@] + match crate::text::opt_string_view(library_file) {
                Some(c) => somes(library_lines(lines(c))),
                None => Seq::empty(),
            },
        ),
        keys_distinct(string_views(r@)),
{
    let mut items: Vec<String> = Vec::new();
    items.push(string_of(&chars_of(steam_path)));
    let ghost head = string_views(items@);
    assert(head =~= seq![steam_path@]);
    match library_file {
        Some(c) => {
            let ls = split_lines(&chars_of(c.as_str()));
            let mut found: Vec<Option<String>> = Vec::new();
            let mut i: usize = 0;
            while i < ls.len()
                invariant
                    i <= ls.len(),
                    opt_string_views(found@) == library_lines(views(ls@).take(i as int)),
                decreases ls.len() - i,
            {
                let t = trimmed(&ls[i]);
                let p = match library_path_chars(&t) {
                    Some(v) => Some(string_of(&v)),
                    None => None,
                };
                let ghost before = found@;
                let ghost x = views(ls@);
                assert(crate::text::opt_string_view(p) == library_path(trim(x[i as int])));
                found.push(p);
                assert(opt_string_views(found@) =~= opt_string_views(before).push(
                    crate::text::opt_string_view(p),
                ));
                assert(x.take(i + 1) =~= x.take(i as int).push(x[i as int]));
                assert(library_lines(x.take(i + 1)) =~= library_lines(x.take(i as int)).push(
                    library_path(trim(x[i as int])),
                ));
                i = i + 1;
            }
            assert(views(ls@).take(ls.len() as int) =~= views(ls@));
            let present = collect_present(&found);
            extend(&mut items, &present);
        },
        None => {
            assert(head + Seq::<Seq<char>>::empty() =~= head);
        },
    }
    let mut r: Vec<String> = Vec::new();
    assert(string_views(r@) =~= Seq::<Seq<char>>::empty());
    push_all_unique(&mut r, &items);
    r
}

/// The install directories the uninstall registry entries name: each value
/// read for `uninstall_registry_queries` (raw, `None` when missing), trimmed,
/// non-blank, as candidates.
pub fn registry_install_paths(values: &Vec<Option<String>>) -> (r: Vec<String>)
    ensures
        string_views(r@) == all_pushed_candidates(
            Seq::empty(),
            somes(registry_texts(opt_string_views(values@))),
        ),
        keys_distinct(string_views(r@)),
{
    let mut reg: Vec<Option<String>> = Vec::new();
    let mut i: usize = 0;
    while i < values.len()
        invariant
            i <= values.len(),
            opt_string_views(reg@) == registry_texts(opt_string_views(values@).take(i as int)),
        decreases values.len() - i,
    {
        let raw = match &values[i] {
            Some(v) => Some(v.clone()),
            None => None,
        };
        let value = registry_string(raw);
        let ghost before = reg@;
        let ghost x = opt_string_views(values@);
        assert(crate::text::opt_string_view(value) == registry_text(x[i as int]));
        reg.push(value);
        assert(opt_string_views(reg@) =~= opt_string_views(before).push(
            crate::text::opt_string_view(value),
        ));
        assert(x.take(i + 1) =~= x.take(i as int).push(x[i as int]));
        assert(registry_texts(x.take(i + 1)) =~= registry_texts(x.take(i as int)).push(
            registry_text(x[i as int]),
        ));
        i = i + 1;
    }
    assert(opt_string_views(values@).take(values.len() as int) =~= opt_string_views(values@));
    let items = collect_present(&reg);
    let mut r: Vec<String> = Vec::new();
    assert(string_views(r@) =~= Seq::<Seq<char>>::empty());
    push_all_candidates(&mut r, &items);
    r
}

pub open spec fn uninstall_key(kind: int, app_id: Seq<char>) -> Seq<char> {
    if kind == 0 {
        "SOFTWARE\\Microsoft\\Windows\\CurrentVersion\\Uninstall\\Steam App "@ + app_id
    } else if kind == 1 {
        "SOFTWARE\\WOW6432Node\\Microsoft\\Windows\\CurrentVersion\\Uninstall\\Steam App "@
            + app_id
    } else {
        "Software\\Microsoft\\Windows\\CurrentVersion\\Uninstall\\Steam App "@ + app_id
    }
}

pub open spec fn uninstall_hive(kind: int) -> RegistryHive {
    if kind == 2 {
        RegistryHive::CurrentUser
    } else {
        RegistryHive::LocalMachine
    }
}

/// The uninstall entries that may name a CS:GO install, in the order
/// `registry_install_paths` expects their values: for each app id of
/// `CSGO_APP_IDS`, the machine key, its 32-bit view, then the user key.
pub fn uninstall_registry_queries() -> (r: Vec<RegistryQuery>)
    ensures
        r@.len() == 6,
        forall|a: int, k: int|
            0 <= a < 2 && 0 <= k < 3 ==> {
                &&& (#[trigger] r@[3 * a + k]).hive == uninstall_hive(k)
                &&& r@[3 * a + k].key_path@ == uninstall_key(k, crate::config::CSGO_APP_IDS[a]@)
                &&& r@[3 * a + k].value_name@ == "InstallLocation"@
            },
{
    let mut r: Vec<RegistryQuery> = Vec::new();
    let mut a: usize = 0;
    while a < 2
        invariant
            a <= 2,
            r@.len() == 3 * a,
            forall|b: int, k: int|
                0 <= b < a && 0 <= k < 3 ==> {
                    &&& (#[trigger] r@[3 * b + k]).hive == uninstall_hive(k)
                    &&& r@[3 * b + k].key_path@ == uninstall_key(k, crate::config::CSGO_APP_IDS[b]@)
                    &&& r@[3 * b + k].value_name@ == "InstallLocation"@
                },
        decreases 2 - a,
    {
        let id = chars_of(crate::config::CSGO_APP_IDS[a]);
        let mut k0 = chars_of(
            "SOFTWARE\\Microsoft\\Windows\\CurrentVersion\\Uninstall\\Steam App ",
        );
        k0 = crate::text::concat(&k0, &id);
        let mut k1 = chars_of(
            "SOFTWARE\\WOW6432Node\\Microsoft\\Windows\\CurrentVersion\\Uninstall\\Steam App ",
        );
        k1 = crate::text::concat(&k1, &id);
        let mut k2 = chars_of(
            "Software\\Microsoft\\Windows\\CurrentVersion\\Uninstall\\Steam App ",
        );
        k2 = crate::text::concat(&k2, &id);
        let value_name = "InstallLocation";
        r.push(query(RegistryHive::LocalMachine, string_of(&k0).as_str(), value_name));
        r.push(query(RegistryHive::LocalMachine, string_of(&k1).as_str(), value_name));
        r.push(query(RegistryHive::CurrentUser, string_of(&k2).as_str(), value_name));
        assert forall|b: int, k: int| 0 <= b < a + 1 && 0 <= k < 3 implies {
            &&& (#[trigger] r@[3 * b + k]).hive == uninstall_hive(k)
            &&& r@[3 * b + k].key_path@ == uninstall_key(k, crate::config::CSGO_APP_IDS[b]@)
            &&& r@[3 * b + k].value_name@ == "InstallLocation"@
        } by {
            if b == a {
                assert(3 * b + k >= 3 * a);
            } else {
                assert(3 * b + k < 3 * a);
            }
        }
        a = a + 1;
    }
    r
}

pub open spec fn drive_letter(i: int) -> char {
    ((67 + i) as u32) as char
}

/// `C:\` for drive `C`.
pub open spec fn drive_root(d: char) -> Seq<char> {
    seq![d, ':', '\\']
}

pub open spec fn joined_all(base: Seq<char>, rels: Seq<Seq<char>>) -> Seq<Seq<char>> {
    rels.map_values(|r: Seq<char>| crate::winpath::join(base, r))
}

/// For the first `n` drive letters from `C` that exist, each relative path
/// under the drive's root.
pub open spec fn drive_items(existing: Seq<char>, rels: Seq<Seq<char>>, n: nat) -> Seq<Seq<char>>
    decreases n,
{
    if n == 0 {
        Seq::empty()
    } else {
        drive_items(existing, rels, (n - 1) as nat) + if existing.contains(
            drive_letter(n - 1),
        ) {
            joined_all(drive_root(drive_letter(n - 1)), rels)
        } else {
            Seq::empty()
        }
    }
}

/// `base` joined with each relative path, in order.
fn join_each(base: &Vec<char>, rels: &Vec<Vec<char>>) -> (r: Vec<String>)
    ensures
        string_views(r@) == joined_all(base@, views(rels@)),
{
    let mut r: Vec<String> = Vec::new();
    let mut i: usize = 0;
    while i < rels.len()
        invariant
            i <= rels.len(),
            string_views(r@) == joined_all(base@, views(rels@).take(i as int)),
        decreases rels.len() - i,
    {
        let p = string_of(&crate::winpath::join_chars(base, &rels[i]));
        let ghost before = r@;
        r.push(p);
        assert(string_views(r@) =~= string_views(before).push(p@));
        assert(views(rels@).take(i + 1) =~= views(rels@).take(i as int).push(rels@[i as int]@));
        assert(joined_all(base@, views(rels@).take(i + 1)) =~= joined_all(
            base@,
            views(rels@).take(i as int),
        ).push(crate::winpath::join(base@, rels@[i as int]@)));
        i = i + 1;
    }
    assert(views(rels@).take(rels.len() as int) =~= views(rels@));
    r
}

fn has_char(v: &Vec<char>, c: char) -> (r: bool)
    ensures
        r == v@.contains(c),
{
    let mut i: usize = 0;
    while i < v.len()
        invariant
            i <= v.len(),
            forall|j: int| 0 <= j < i ==> v@[j] != c,
        decreases v.len() - i,
    {
        if v[i] == c {
            assert(v@[i as int] == c);
            return true;
        }
        i = i + 1;
    }
    false
}

/// The relative paths under each existing drive letter from `C` to `Z`.
fn drive_paths(existing_drives: &Vec<char>, rels: &Vec<Vec<char>>) -> (r: Vec<String>)
    ensures
        string_views(r@) == drive_items(existing_drives@, views(rels@), 24),
{
    let mut r: Vec<String> = Vec::new();
    let mut n: u32 = 0;
    while n < 24
        invariant
            n <= 24,
            string_views(r@) == drive_items(existing_drives@, views(rels@), n as nat),
        decreases 24 - n,
    {
        let letter: char = ((67 + n) as u8) as char;
        assert(letter == drive_letter(n as int));
        if has_char(existing_drives, letter) {
            let mut root: Vec<char> = Vec::new();
            root.push(letter);
            root.push(':');
            root.push('\\');
            assert(root@ =~= drive_root(letter));
            let more = join_each(&root, rels);
            extend(&mut r, &more);
        } else {
            assert(string_views(r@) + Seq::<Seq<char>>::empty() =~= string_views(r@));
        }
        n = n + 1;
    }
    r
}

pub open spec fn str_views(items: Seq<&'static str>) -> Seq<Seq<char>> {
    items.map_values(|s: &'static str| s@)
}

fn char_lists(items: &Vec<&'static str>) -> (r: Vec<Vec<char>>)
    ensures
        views(r@) == str_views(items@),
{
    let mut r: Vec<Vec<char>> = Vec::new();
    let mut i: usize = 0;
    while i < items.len()
        invariant
            i <= items.len(),
            views(r@) == str_views(items@.take(i as int)),
        decreases items.len() - i,
    {
        let cs = chars_of(items[i]);
        let ghost before = r@;
        r.push(cs);
        assert(views(r@) =~= views(before).push(items@[i as int]@));
        assert(items@.take(i + 1) =~= items@.take(i as int).push(items@[i as int]));
        assert(str_views(items@.take(i + 1)) =~= str_views(items@.take(i as int)).push(
            items@[i as int]@,
        ));
        i = i + 1;
    }
    assert(items@.take(items.len() as int) =~= items@);
    r
}

pub open spec fn likely_relatives() -> Seq<Seq<char>> {
    seq![
        "SteamLibrary"@,
        "Steam"@,
        "Games\\SteamLibrary"@,
        "Games\\Steam"@,
        "Program Files (x86)\\Steam"@,
        "Program Files\\Steam"@,
    ]
}

/// Usual Steam library locations on each existing drive (`existing_drives`
/// holds the letters whose root exists).
pub fn likely_steam_roots(existing_drives: &Vec<char>) -> (r: Vec<String>)
    ensures
        string_views(r@) == all_pushed_unique(
            Seq::empty(),
            drive_items(existing_drives@, likely_relatives(), 24),
        ),
        keys_distinct(string_views(r@)),
{
    let mut names: Vec<&'static str> = Vec::new();
    names.push("SteamLibrary");
    names.push("Steam");
    names.push("Games\\SteamLibrary");
    names.push("Games\\Steam");
    names.push("Program Files (x86)\\Steam");
    names.push("Program Files\\Steam");
    let rels = char_lists(&names);
    assert(str_views(names@) =~= likely_relatives());
    let items = drive_paths(existing_drives, &rels);
    let mut r: Vec<String> = Vec::new();
    assert(string_views(r@) =~= Seq::<Seq<char>>::empty());
    push_all_unique(&mut r, &items);
    r
}

pub open spec fn scan_relatives() -> Seq<Seq<char>> {
    seq![
        ""@,
        "Games"@,
        "Game"@,
        "Downloads"@,
        "CSGO"@,
        "Counter-Strike"@,
        "Counter-Strike Global Offensive"@,
        "csgo legacy"@,
        "SteamLibrary"@,
        "Steam"@,
        "Games\\CSGO"@,
        "Games\\Counter-Strike Global Offensive"@,
        "Program Files (x86)\\Steam\\steamapps\\common"@,
        "Program Files\\Steam\\steamapps\\common"@,
    ]
}

pub open spec fn profile_relatives() -> Seq<Seq<char>> {
    seq!["Desktop"@, "Downloads"@, "Documents"@, "Games"@]
}

pub open spec fn opt_item(o: Option<Seq<char>>) -> Seq<Seq<char>> {
    match o {
        Some(v) => seq![v],
        None => Seq::empty(),
    }
}

pub open spec fn scan_items(
    current_dir: Option<Seq<char>>,
    exe_dir: Option<Seq<char>>,
    user_profile: Option<Seq<char>>,
    program_dirs: Seq<Option<Seq<char>>>,
    existing_drives: Seq<char>,
) -> Seq<Seq<char>> {
    opt_item(current_dir) + opt_item(exe_dir) + match user_profile {
        Some(u) => joined_all(u, profile_relatives()),
        None => Seq::empty(),
    } + somes(program_dirs) + drive_items(existing_drives, scan_relatives(), 24)
}

fn push_opt(items: &mut Vec<String>, o: &Option<String>)
    ensures
        string_views(final(items)@) == string_views(old(items)@) + opt_item(
            crate::text::opt_string_view(*o),
        ),
{
    match o {
        Some(v) => {
            let ghost before = items@;
            items.push(v.clone());
            assert(string_views(items@) =~= string_views(before) + seq![v@]);
        },
        None => {
            assert(string_views(items@) + Seq::<Seq<char>>::empty() =~= string_views(items@));
        },
    }
}

/// Where the structural scan starts: the working and executable
/// directories, folders of the user profile, the program files directories,
/// then usual game folders on each existing drive.
pub fn scan_roots(
    current_dir: &Option<String>,
    exe_dir: &Option<String>,
    user_profile: &Option<String>,
    program_dirs: &Vec<Option<String>>,
    existing_drives: &Vec<char>,
) -> (r: Vec<String>)
    ensures
        string_views(r@) == all_pushed_unique(
            Seq::empty(),
            scan_items(
                crate::text::opt_string_view(*current_dir),
                crate::text::opt_string_view(*exe_dir),
                crate::text::opt_string_view(*user_profile),
                opt_string_views(program_dirs@),
                existing_drives@,
            ),
        ),
        keys_distinct(string_views(r@)),
{
    let mut items: Vec<String> = Vec::new();
    assert(string_views(items@) =~= Seq::<Seq<char>>::empty());
    push_opt(&mut items, current_dir);
    push_opt(&mut items, exe_dir);
    match user_profile {
        Some(u) => {
            let mut names: Vec<&'static str> = Vec::new();
            names.push("Desktop");
            names.push("Downloads");
            names.push("Documents");
            names.push("Games");
            let rels = char_lists(&names);
            assert(str_views(names@) =~= profile_relatives());
            let more = join_each(&chars_of(u.as_str()), &rels);
            extend(&mut items, &more);
        },
        None => {
            assert(string_views(items@) + Seq::<Seq<char>>::empty() =~= string_views(items@));
        },
    }
    let programs = collect_present(program_dirs);
    extend(&mut items, &programs);
    let mut names: Vec<&'static str> = Vec::new();
    names.push("");
    names.push("Games");
    names.push("Game");
    names.push("Downloads");
    names.push("CSGO");
    names.push("Counter-Strike");
    names.push("Counter-Strike Global Offensive");
    names.push("csgo legacy");
    names.push("SteamLibrary");
    names.push("Steam");
    names.push("Games\\CSGO");
    names.push("Games\\Counter-Strike Global Offensive");
    names.push("Program Files (x86)\\Steam\\steamapps\\common");
    names.push("Program Files\\Steam\\steamapps\\common");
    let rels = char_lists(&names);
    assert(str_views(names@) =~= scan_relatives());
    let drives = drive_paths(existing_drives, &rels);
    extend(&mut items, &drives);
    let mut r: Vec<String> = Vec::new();
    assert(string_views(r@) =~= Seq::<Seq<char>>::empty());
    push_all_unique(&mut r, &items);
    r
}

pub open spec fn skipped_directory_names() -> Seq<Seq<char>> {
    seq![
        "$recycle.bin"@,
        "system volume information"@,
        "windows"@,
        "winnt"@,
        "windows.old"@,
        "programdata"@,
        "appdata"@,
        "node_modules"@,
        "target"@,
        ".git"@,
        ".svn"@,
        ".hg"@,
    ]
}

/// Whether the scan leaves a directory out: system, package and version
/// control folders, by name in any ASCII case.
pub open spec fn skips_directory(path: Seq<char>) -> bool {
    match file_name(path) {
        Some(name) => skipped_directory_names().contains(crate::text::ascii_lower_seq(name)),
        None => false,
    }
}

pub fn should_skip_directory(path: &str) -> (r: bool)
    ensures
        r == skips_directory(path@),
{
    let cs = chars_of(path);
    match file_name_of(&cs) {
        None => false,
        Some(name) => {
            assert(file_name(path@) == Some(name@));
            let lower = crate::text::lower_ascii(&name);
            let mut names: Vec<&'static str> = Vec::new();
            names.push("$recycle.bin");
            names.push("system volume information");
            names.push("windows");
            names.push("winnt");
            names.push("windows.old");
            names.push("programdata");
            names.push("appdata");
            names.push("node_modules");
            names.push("target");
            names.push(".git");
            names.push(".svn");
            names.push(".hg");
            let list = char_lists(&names);
            assert(str_views(names@) =~= skipped_directory_names());
            let mut i: usize = 0;
            while i < list.len()
                invariant
                    i <= list.len(),
                    views(list@) == skipped_directory_names(),
                    file_name(path@) == Some(name@),
                    lower@ == crate::text::ascii_lower_seq(name@),
                    forall|j: int| 0 <= j < i ==> views(list@)[j] != lower@,
                decreases list.len() - i,
            {
                if crate::text::eq_chars(&list[i], &lower) {
                    assert(views(list@)[i as int] == lower@);
                    assert(skipped_directory_names()[i as int] == lower@);
                    assert(skipped_directory_names().contains(lower@));
                    return true;
                }
                i = i + 1;
            }
            false
        },
    }
}

/// Whether the scan must stop: out of time, directories or candidate slots.
pub open spec fn scan_limit(elapsed_secs: u64, visited_dirs: usize, candidates: usize) -> bool {
    elapsed_secs >= crate::config::STRUCTURAL_SCAN_MAX_SECONDS || visited_dirs
        >= crate::config::STRUCTURAL_SCAN_MAX_VISITED_DIRS || candidates
        >= crate::config::STRUCTURAL_SCAN_MAX_CANDIDATES
}

/// `elapsed_secs` is the whole seconds since the scan started
/// (`Duration::as_secs`), which reach 10 exactly when the elapsed time does.
pub fn scan_limit_reached(elapsed_secs: u64, visited_dirs: usize, candidates: usize) -> (r: bool)
    ensures
        r == scan_limit(elapsed_secs, visited_dirs, candidates),
{
    elapsed_secs >= crate::config::STRUCTURAL_SCAN_MAX_SECONDS || visited_dirs
        >= crate::config::STRUCTURAL_SCAN_MAX_VISITED_DIRS || candidates
        >= crate::config::STRUCTURAL_SCAN_MAX_CANDIDATES
}

pub open spec fn steamapps_dir(library_root: Seq<char>) -> Seq<char> {
    crate::winpath::join(library_root, "steamapps"@)
}

pub open spec fn common_dir(library_root: Seq<char>) -> Seq<char> {
    crate::winpath::join(steamapps_dir(library_root), "common"@)
}

/// `<library>\steamapps\appmanifest_<id>.acf` for each id of `CSGO_APP_IDS`.
pub fn manifest_paths(library_root: &str) -> (r: Vec<String>)
    ensures
        r@.len() == 2,
        forall|a: int|
            0 <= a < 2 ==> (#[trigger] r@[a])@ == crate::winpath::join(
                steamapps_dir(library_root@),
                "appmanifest_"@ + crate::config::CSGO_APP_IDS[a]@ + ".acf"@,
            ),
{
    let steamapps = crate::winpath::join_chars(&chars_of(library_root), &chars_of("steamapps"));
    let mut r: Vec<String> = Vec::new();
    let mut a: usize = 0;
    while a < 2
        invariant
            a <= 2,
            r@.len() == a,
            steamapps@ == steamapps_dir(library_root@),
            forall|b: int|
                0 <= b < a ==> (#[trigger] r@[b])@ == crate::winpath::join(
                    steamapps_dir(library_root@),
                    "appmanifest_"@ + crate::config::CSGO_APP_IDS[b]@ + ".acf"@,
                ),
        decreases 2 - a,
    {
        let mut name = chars_of("appmanifest_");
        name = crate::text::concat(&name, &chars_of(crate::config::CSGO_APP_IDS[a]));
        name = crate::text::concat(&name, &chars_of(".acf"));
        r.push(string_of(&crate::winpath::join_chars(&steamapps, &name)));
        a = a + 1;
    }
    r
}

pub open spec fn manifest_dirs(library_root: Seq<char>, manifests: Seq<Option<Seq<char>>>) -> Seq<
    Option<Seq<char>>,
> {
    manifests.map_values(
        |m: Option<Seq<char>>|
            match m {
                Some(c) => match first_install_dir(lines(c)) {
                    Some(d) => Some(crate::winpath::join(common_dir(library_root), d)),
                    None => None,
                },
                None => None,
            },
    )
}

/// The candidates one Steam library holds: its usual CS:GO folder, then the
/// folder each app manifest (contents, `None` when unreadable, in the order
/// of `manifest_paths`) names.
pub fn candidates_from_library(library_root: &str, manifests: &Vec<Option<String>>) -> (r: Vec<
    String,
>)
    ensures
        string_views(r@) == all_pushed_candidates(
            Seq::empty(),
            seq![crate::winpath::join(common_dir(library_root@), CSGO_APP_DIR@)] + somes(
                manifest_dirs(library_root@, opt_string_views(manifests@)),
            ),
        ),
        keys_distinct(string_views(r@)),
{
    let steamapps = crate::winpath::join_chars(&chars_of(library_root), &chars_of("steamapps"));
    let common = crate::winpath::join_chars(&steamapps, &chars_of("common"));
    let mut items: Vec<String> = Vec::new();
    items.push(string_of(&crate::winpath::join_chars(&common, &chars_of(CSGO_APP_DIR))));
    let ghost head = string_views(items@);
    assert(head =~= seq![crate::winpath::join(common_dir(library_root@), CSGO_APP_DIR@)]);
    let mut dirs: Vec<Option<String>> = Vec::new();
    let mut i: usize = 0;
    while i < manifests.len()
        invariant
            i <= manifests.len(),
            common@ == common_dir(library_root@),
            opt_string_views(dirs@) == manifest_dirs(
                library_root@,
                opt_string_views(manifests@).take(i as int),
            ),
        decreases manifests.len() - i,
    {
        let d = match &manifests[i] {
            Some(c) => match parse_manifest_install_dir(c.as_str()) {
                Some(dir) => Some(
                    string_of(&crate::winpath::join_chars(&common, &chars_of(dir.as_str()))),
                ),
                None => None,
            },
            None => None,
        };
        let ghost before = dirs@;
        let ghost x = opt_string_views(manifests@);
        dirs.push(d);
        assert(opt_string_views(dirs@) =~= opt_string_views(before).push(
            crate::text::opt_string_view(d),
        ));
        assert(x.take(i + 1) =~= x.take(i as int).push(x[i as int]));
        assert(manifest_dirs(library_root@, x.take(i + 1)) =~= manifest_dirs(
            library_root@,
            x.take(i as int),
        ).push(crate::text::opt_string_view(d)));
        i = i + 1;
    }
    assert(opt_string_views(manifests@).take(manifests.len() as int) =~= opt_string_views(
        manifests@,
    ));
    let present = collect_present(&dirs);
    extend(&mut items, &present);
    let mut r: Vec<String> = Vec::new();
    assert(string_views(r@) =~= Seq::<Seq<char>>::empty());
    push_all_candidates(&mut r, &items);
    r
}

/// The lists one after another.
pub open spec fn flatten(lists: Seq<Seq<Seq<char>>>) -> Seq<Seq<char>>
    decreases lists.len(),
{
    if lists.len() == 0 {
        Seq::empty()
    } else {
        flatten(lists.drop_last()) + lists.last()
    }
}

pub open spec fn list_views(v: Seq<Vec<String>>) -> Seq<Seq<Seq<char>>> {
    v.map_values(|l: Vec<String>| string_views(l@))
}

/// All the lists' paths one after another.
pub fn concat_lists(lists: &Vec<Vec<String>>) -> (r: Vec<String>)
    ensures
        string_views(r@) == flatten(list_views(lists@)),
{
    let mut r: Vec<String> = Vec::new();
    let mut i: usize = 0;
    assert(list_views(lists@).take(0) =~= Seq::<Seq<Seq<char>>>::empty());
    assert(string_views(r@) =~= Seq::<Seq<char>>::empty());
    while i < lists.len()
        invariant
            i <= lists.len(),
            string_views(r@) == flatten(list_views(lists@).take(i as int)),
        decreases lists.len() - i,
    {
        extend(&mut r, &lists[i]);
        let ghost l = list_views(lists@);
        assert(l.take(i + 1).drop_last() =~= l.take(i as int));
        assert(l.take(i + 1).last() == string_views(lists@[i as int]@));
        i = i + 1;
    }
    assert(list_views(lists@).take(lists.len() as int) =~= list_views(lists@));
    r
}

/// The Steam library roots to look in, each once: the roots of every Steam
/// install (as `steam_library_roots` gives them), install after install,
/// then the likely roots.
pub fn library_roots(steam_roots: &Vec<Vec<String>>, likely: &Vec<String>) -> (r: Vec<String>)
    ensures
        string_views(r@) == all_pushed_unique(
            Seq::empty(),
            flatten(list_views(steam_roots@)) + string_views(likely@),
        ),
        keys_distinct(string_views(r@)),
{
    let mut items = concat_lists(steam_roots);
    extend(&mut items, likely);
    let mut r: Vec<String> = Vec::new();
    assert(string_views(r@) =~= Seq::<Seq<char>>::empty());
    push_all_unique(&mut r, &items);
    r
}

/// How likely a candidate is to be the install: 0 for a folder named
/// `Counter-Strike Global Offensive`, 1 for a path through such a folder, 2
/// for a folder named `csgo legacy`, 3 otherwise.
pub open spec fn score_of(path: Seq<char>) -> u8 {
    let name = match file_name(path) {
        Some(n) => n,
        None => Seq::empty(),
    };
    if eq_ignore_ascii_case(name, CSGO_APP_DIR@) {
        0
    } else if contains(path_key_text(path), "\\counter-strike global offensive"@) {
        1
    } else if eq_ignore_ascii_case(name, "csgo legacy"@) {
        2
    } else {
        3
    }
}

pub fn candidate_score(path: &str) -> (r: u8)
    ensures
        r == score_of(path@),
{
    let key = path_key(path);
    let name = match file_name_of(&chars_of(path)) {
        Some(n) => n,
        None => Vec::new(),
    };
    if eq_ignore_case(&name, &chars_of(CSGO_APP_DIR)) {
        0
    } else if occurs(&chars_of(key.as_str()), &chars_of("\\counter-strike global offensive")) {
        1
    } else if eq_ignore_case(&name, &chars_of("csgo legacy")) {
        2
    } else {
        3
    }
}

/// The candidates whose score is `k`, in order.
pub open spec fn with_score(c: Seq<Seq<char>>, k: u8) -> Seq<Seq<char>>
    decreases c.len(),
{
    if c.len() == 0 {
        Seq::empty()
    } else if score_of(c.last()) == k {
        with_score(c.drop_last(), k).push(c.last())
    } else {
        with_score(c.drop_last(), k)
    }
}

/// Candidates ordered by score; equal scores keep their order (a stable sort).
pub open spec fn by_score(c: Seq<Seq<char>>) -> Seq<Seq<char>> {
    with_score(c, 0) + with_score(c, 1) + with_score(c, 2) + with_score(c, 3)
}

proof fn lemma_with_score(c: Seq<Seq<char>>, k: u8)
    ensures
        forall|i: int| 0 <= i < with_score(c, k).len() ==> score_of(#[trigger] with_score(c, k)[i]) == k,
        with_score(c, k).len() <= c.len(),
    decreases c.len(),
{
    if c.len() > 0 {
        lemma_with_score(c.drop_last(), k);
    }
}

proof fn lemma_with_score_counts(c: Seq<Seq<char>>)
    ensures
        with_score(c, 0).len() + with_score(c, 1).len() + with_score(c, 2).len() + with_score(
            c,
            3,
        ).len() == c.len(),
    decreases c.len(),
{
    if c.len() > 0 {
        lemma_with_score_counts(c.drop_last());
    }
}

/// Ordering candidates by score keeps every candidate and puts them in
/// non-decreasing score order.
pub proof fn candidates_ordered_by_score(c: Seq<Seq<char>>)
    ensures
        by_score(c).len() == c.len(),
        forall|i: int, j: int|
            0 <= i < j < c.len() ==> score_of(#[trigger] by_score(c)[i]) <= score_of(
                #[trigger] by_score(c)[j],
            ),
{
    lemma_with_score(c, 0);
    lemma_with_score(c, 1);
    lemma_with_score(c, 2);
    lemma_with_score(c, 3);
    lemma_with_score_counts(c);
    let r = by_score(c);
    let n0 = with_score(c, 0).len() as int;
    let n1 = n0 + with_score(c, 1).len();
    let n2 = n1 + with_score(c, 2).len();
    assert forall|i: int| 0 <= i < r.len() implies score_of(#[trigger] r[i]) == (if i < n0 {
        0u8
    } else if i < n1 {
        1u8
    } else if i < n2 {
        2u8
    } else {
        3u8
    }) by {
        if i < n0 {
            assert(r[i] == with_score(c, 0)[i]);
        } else if i < n1 {
            assert(r[i] == with_score(c, 1)[i - n0]);
        } else if i < n2 {
            assert(r[i] == with_score(c, 2)[i - n1]);
        } else {
            assert(r[i] == with_score(c, 3)[i - n2]);
        }
    }
}

fn take_score(c: &Vec<String>, k: u8, out: &mut Vec<String>)
    ensures
        string_views(final(out)@) == string_views(old(out)@) + with_score(string_views(c@), k),
{
    let ghost start = string_views(out@);
    let mut i: usize = 0;
    while i < c.len()
        invariant
            i <= c.len(),
            string_views(out@) == start + with_score(string_views(c@).take(i as int), k),
        decreases c.len() - i,
    {
        let ghost x = string_views(c@);
        assert(x.take(i + 1).drop_last() =~= x.take(i as int));
        assert(x.take(i + 1).last() == c@[i as int]@);
        if candidate_score(c[i].as_str()) == k {
            let ghost before = out@;
            out.push(c[i].clone());
            assert(string_views(out@) =~= string_views(before).push(c@[i as int]@));
        }
        i = i + 1;
    }
    assert(string_views(c@).take(c.len() as int) =~= string_views(c@));
}

/// The candidates in the order the final check tries them: by score, ties
/// in their original order.
pub fn order_candidates(candidates: &Vec<String>) -> (r: Vec<String>)
    ensures
        string_views(r@) == by_score(string_views(candidates@)),
{
    let mut r: Vec<String> = Vec::new();
    assert(string_views(r@) =~= Seq::<Seq<char>>::empty());
    take_score(candidates, 0, &mut r);
    take_score(candidates, 1, &mut r);
    take_score(candidates, 2, &mut r);
    take_score(candidates, 3, &mut r);
    assert(Seq::<Seq<char>>::empty() + with_score(string_views(candidates@), 0) =~= with_score(
        string_views(candidates@),
        0,
    ));
    r
}

/// `<csgo>\nl_cloud\scripts\libraries`, where the Lua libraries go.
pub fn libraries_dir(csgo_dir: &str) -> (r: String)
    ensures
        r@ == crate::winpath::join(
            crate::winpath::join(crate::winpath::join(csgo_dir@, "nl_cloud"@), "scripts"@),
            "libraries"@,
        ),
{
    let mut path = chars_of(csgo_dir);
    let mut i: usize = 0;
    let ghost segs = seq!["nl_cloud"@, "scripts"@, "libraries"@];
    while i < 3
        invariant
            i <= 3,
            i == 0 ==> path@ == csgo_dir@,
            i == 1 ==> path@ == crate::winpath::join(csgo_dir@, "nl_cloud"@),
            i == 2 ==> path@ == crate::winpath::join(
                crate::winpath::join(csgo_dir@, "nl_cloud"@),
                "scripts"@,
            ),
            i == 3 ==> path@ == crate::winpath::join(
                crate::winpath::join(crate::winpath::join(csgo_dir@, "nl_cloud"@), "scripts"@),
                "libraries"@,
            ),
        decreases 3 - i,
    {
        let segment = chars_of(crate::config::GAME_LIBRARY_PATH[i]);
        path = crate::winpath::join_chars(&path, &segment);
        i = i + 1;
    }
    string_of(&path)
}

// ----------------------------------------------------------------------------
// Laws
// ----------------------------------------------------------------------------

/// The structural scan passes over exactly the directories whose name, in
/// any ASCII case, is one of the system, package and version-control
/// folders: `$recycle.bin`, `System Volume Information`, `Windows`, `WinNT`,
/// `Windows.old`, `ProgramData`, `AppData`, `node_modules`, `target`,
/// `.git`, `.svn` and `.hg`.
pub proof fn law_skipped_folder_names(p: Seq<char>)
    ensures
        skips_directory(p) <==> (file_name(p) matches Some(n) && {
            let l = crate::text::ascii_lower_seq(n);
            ||| l == "$recycle.bin"@ ||
            l == "system volume information"@ ||
            l == "windows"@ ||
            l == "winnt"@ ||
            l == "windows.old"@ ||
            l == "programdata"@ ||
            l == "appdata"@ ||
            l == "node_modules"@ ||
            l == "target"@ ||
            l == ".git"@ ||
            l == ".svn"@ ||
            l == ".hg"@
        }),
{
    let names = skipped_directory_names();
    assert(names[0] == "$recycle.bin"@);
    assert(names[1] == "system volume information"@);
    assert(names[2] == "windows"@);
    assert(names[3] == "winnt"@);
    assert(names[4] == "windows.old"@);
    assert(names[5] == "programdata"@);
    assert(names[6] == "appdata"@);
    assert(names[7] == "node_modules"@);
    assert(names[8] == "target"@);
    assert(names[9] == ".git"@);
    assert(names[10] == ".svn"@);
    assert(names[11] == ".hg"@);
    match file_name(p) {
        Some(n) => {
            let l = crate::text::ascii_lower_seq(n);
            if names.contains(l) {
                let i = choose|i: int| 0 <= i < names.len() && names[i] == l;
                assert(0 <= i < 12);
            }
        },
        None => {},
    }
}

/// Two directories whose names differ only in ASCII case are both passed
/// over or both walked into.
pub proof fn law_skipping_ignores_case(p: Seq<char>, q: Seq<char>)
    requires
        file_name(p) matches Some(n) && file_name(q) matches Some(m)
            && crate::text::ascii_lower_seq(n) == crate::text::ascii_lower_seq(m),
    ensures
        skips_directory(p) == skips_directory(q),
{
}

proof fn lemma_steam_name_ok()
    ensures
        crate::winpath::path_prefix("Steam"@) is None,
        forall|i: int| 0 <= i < "Steam"@.len() ==> !crate::winpath::is_sep(#[trigger] "Steam"@[i]),
        "Steam"@ != seq!['.'],
        "Steam"@ != seq!['.', '.'],
        "Steam"@.len() > 0,
{
    reveal_strlit("Steam");
    assert("Steam"@.len() == 5);
}

/// Each `PROGRAM*` variable that is set (`PROGRAMFILES(X86)`,
/// `PROGRAMFILES`, `PROGRAMW6432`) names the `Steam` folder inside its
/// value, never the value itself, and that folder is among the Steam install
/// directories; `STEAM` and `STEAM_HOME` name the install directory itself.
pub proof fn law_program_variables_name_their_steam_folder(
    registry: Seq<Option<Seq<char>>>,
    env: Seq<(Seq<char>, Option<Seq<char>>)>,
    k: int,
    v: Seq<char>,
)
    requires
        0 <= k < env.len(),
        env[k].1 == Some(v),
    ensures
        (env[k].0 == "PROGRAMFILES(X86)"@ || env[k].0 == "PROGRAMFILES"@ || env[k].0
            == "PROGRAMW6432"@) ==> {
            &&& steam_env_dir(env[k].0, env[k].1) == Some(crate::winpath::join(v, "Steam"@))
            &&& has_key(
                all_pushed_unique(Seq::empty(), steam_items(registry, env)),
                path_key_text(crate::winpath::join(v, "Steam"@)),
            )
        },
        (env[k].0 == "STEAM"@ || env[k].0 == "STEAM_HOME"@) ==> steam_env_dir(env[k].0, env[k].1)
            == Some(v),
{
    reveal_strlit("PROGRAM");
    reveal_strlit("PROGRAMFILES(X86)");
    reveal_strlit("PROGRAMFILES");
    reveal_strlit("PROGRAMW6432");
    reveal_strlit("STEAM");
    reveal_strlit("STEAM_HOME");
    let name = env[k].0;
    if name == "PROGRAMFILES(X86)"@ || name == "PROGRAMFILES"@ || name == "PROGRAMW6432"@ {
        assert(name.take(7) =~= "PROGRAM"@);
        assert(starts_with(name, "PROGRAM"@));
        let w = crate::winpath::join(v, "Steam"@);
        lemma_steam_name_ok();
        crate::winpath::lemma_join_name_nonempty(v, "Steam"@);
        let dirs = steam_env_dirs(env);
        assert(dirs[k] == Some(w));
        lemma_somes_holds(dirs, k);
        let j = choose|j: int| 0 <= j < somes(dirs).len() && somes(dirs)[j] == w;
        let reg = somes(registry_texts(registry));
        let items = steam_items(registry, env);
        assert(items[reg.len() + j] == w);
        lemma_all_pushed_unique_has_item(Seq::empty(), items, reg.len() + j);
    }
    if name == "STEAM"@ || name == "STEAM_HOME"@ {
        assert(!starts_with(name, "PROGRAM"@)) by {
            if starts_with(name, "PROGRAM"@) {
                assert(name.take(7)[1] == "PROGRAM"@[1]);
            }
        }
    }
}

/// Every readable app manifest counts: the install folder it names, inside
/// the library's `steamapps\common`, is among that library's candidates (as
/// the directory it stands for, by key), whichever app id it belongs to.
pub proof fn law_every_manifest_names_a_candidate(
    library_root: Seq<char>,
    manifests: Seq<Option<Seq<char>>>,
    a: int,
    contents: Seq<char>,
    dir: Seq<char>,
)
    requires
        0 <= a < manifests.len(),
        manifests[a] == Some(contents),
        first_install_dir(lines(contents)) == Some(dir),
        normalized_candidate(crate::winpath::join(common_dir(library_root), dir)).len() > 0,
    ensures
        has_key(
            all_pushed_candidates(
                Seq::empty(),
                seq![crate::winpath::join(common_dir(library_root), CSGO_APP_DIR@)] + somes(
                    manifest_dirs(library_root, manifests),
                ),
            ),
            path_key_text(normalized_candidate(crate::winpath::join(common_dir(library_root), dir))),
        ),
{
    let w = crate::winpath::join(common_dir(library_root), dir);
    let dirs = manifest_dirs(library_root, manifests);
    assert(dirs[a] == Some(w));
    lemma_somes_holds(dirs, a);
    let j = choose|j: int| 0 <= j < somes(dirs).len() && somes(dirs)[j] == w;
    let items = seq![crate::winpath::join(common_dir(library_root), CSGO_APP_DIR@)] + somes(dirs);
    assert(items[1 + j] == w);
    lemma_all_pushed_candidates_has_item(Seq::empty(), items, 1 + j);
}

proof fn lemma_trim_backslashes_lower(t: Seq<char>)
    ensures
        trim_trailing_backslashes(crate::text::ascii_lower_seq(t)) == crate::text::ascii_lower_seq(
            trim_trailing_backslashes(t),
        ),
        crate::text::is_ascii_text(t) ==> crate::text::is_ascii_text(trim_trailing_backslashes(t)),
    decreases t.len(),
{
    let l = crate::text::ascii_lower_seq(t);
    if t.len() > 0 {
        assert(l.last() == crate::text::ascii_lower(t.last()));
        assert(l.drop_last() =~= crate::text::ascii_lower_seq(t.drop_last()));
        lemma_trim_backslashes_lower(t.drop_last());
    }
}

/// The path key ignores the ASCII case of an ASCII path.
pub proof fn lemma_path_key_lower(p: Seq<char>)
    requires
        crate::text::is_ascii_text(p),
    ensures
        path_key_text(crate::text::ascii_lower_seq(p)) == path_key_text(p),
{
    let l = crate::text::ascii_lower_seq(p);
    let sp = slashes_to_backslashes(p);
    assert(slashes_to_backslashes(l) =~= crate::text::ascii_lower_seq(sp));
    assert(crate::text::is_ascii_text(sp));
    lemma_trim_backslashes_lower(sp);
    let t = trim_trailing_backslashes(sp);
    let lt = crate::text::ascii_lower_seq(t);
    assert(crate::text::is_ascii_text(lt));
    crate::text::lemma_ascii_lower_idempotent(t);
}

/// A candidate's score ignores ASCII case: an ASCII path scores as its
/// lowered text does, so `D:\Counter-Strike Global Offensive\csgo` ranks with
/// `d:\counter-strike global offensive\csgo`. (A verbatim UNC path,
/// `\\?\UNC\...`, is left out: `std` reads its `UNC` case-sensitively.)
pub proof fn law_score_ignores_ascii_case(p: Seq<char>)
    requires
        crate::text::is_ascii_text(p),
        !(crate::winpath::path_prefix(p) matches Some(crate::winpath::PathPrefix::VerbatimUnc(_, _))),
    ensures
        score_of(p) == score_of(crate::text::ascii_lower_seq(p)),
{
    crate::winpath::lemma_file_name_lower(p);
    lemma_path_key_lower(p);
    match file_name(p) {
        Some(n) => {
            crate::text::lemma_ascii_lower_idempotent(n);
        },
        None => {},
    }
}

/// A candidate whose path key runs through a `\counter-strike global
/// offensive` folder, and which is not itself that folder (in any case),
/// scores 1, before `csgo legacy` folders and every other candidate.
pub proof fn law_paths_through_the_game_folder_score_one(p: Seq<char>)
    requires
        contains(path_key_text(p), "\\counter-strike global offensive"@),
        !(file_name(p) matches Some(n) && eq_ignore_ascii_case(n, CSGO_APP_DIR@)),
    ensures
        score_of(p) == 1,
{
    if file_name(p) is None {
        assert(!eq_ignore_ascii_case(Seq::<char>::empty(), CSGO_APP_DIR@)) by {
            reveal_strlit("Counter-Strike Global Offensive");
            assert(crate::text::ascii_lower_seq(CSGO_APP_DIR@).len() > 0);
        }
    }
}

} // verus!
