//! The Windows tools the loader runs to find and stop processes, what their
//! output means, and the cleaning of canonical Windows paths.
use vstd::prelude::*;
use crate::config::CREATE_NO_WINDOW;
use crate::text::{
    ascii_lower_seq, chars_of, concat, from_utf8_lossy, has_prefix, lines, lower_ascii,
    split_lines, starts_with, string_of, string_views, trim_start, trimmed_start, utf8_lossy,
    views,
};

verus! {

/// A program to run, with its arguments; `creation_flags` are the Windows
/// process creation flags.
pub struct ProcessCommand {
    pub program: String,
    pub args: Vec<String>,
    pub creation_flags: u32,
}

pub open spec fn command_is(
    c: ProcessCommand,
    program: Seq<char>,
    args: Seq<Seq<char>>,
    flags: u32,
) -> bool {
    &&& c.program@ == program
    &&& string_views(c.args@) == args
    &&& c.creation_flags == flags
}

fn string_from(s: &str) -> (r: String)
    ensures
        r@ == s@,
{
    string_of(&chars_of(s))
}

/// `taskkill.exe /IM <file_name> /F /T`, without a window: stops every
/// process of that image with its children.
pub fn terminate(file_name: &str) -> (r: ProcessCommand)
    ensures
        command_is(
            r,
            "taskkill.exe"@,
            seq!["/IM"@, file_name@, "/F"@, "/T"@],
            CREATE_NO_WINDOW,
        ),
{
    let mut args: Vec<String> = Vec::new();
    args.push(string_from("/IM"));
    args.push(string_from(file_name));
    args.push(string_from("/F"));
    args.push(string_from("/T"));
    let r = ProcessCommand {
        program: string_from("taskkill.exe"),
        args,
        creation_flags: CREATE_NO_WINDOW,
    };
    assert(string_views(r.args@) =~= seq!["/IM"@, file_name@, "/F"@, "/T"@]);
    r
}

/// `tasklist.exe /FI "IMAGENAME eq <file_name>" /NH`, without a window.
pub fn is_running_command(file_name: &str) -> (r: ProcessCommand)
    ensures
        command_is(
            r,
            "tasklist.exe"@,
            seq!["/FI"@, "IMAGENAME eq "@ + file_name@, "/NH"@],
            CREATE_NO_WINDOW,
        ),
{
    let filter = concat(&chars_of("IMAGENAME eq "), &chars_of(file_name));
    let mut args: Vec<String> = Vec::new();
    args.push(string_from("/FI"));
    args.push(string_of(&filter));
    args.push(string_from("/NH"));
    let r = ProcessCommand {
        program: string_from("tasklist.exe"),
        args,
        creation_flags: CREATE_NO_WINDOW,
    };
    assert(string_views(r.args@) =~= seq!["/FI"@, "IMAGENAME eq "@ + file_name@, "/NH"@]);
    r
}

/// Whether a line of the listing names the image: it starts, after leading
/// whitespace and in any ASCII case, with the file name.
pub open spec fn lists_image(line: Seq<char>, file_name: Seq<char>) -> bool {
    starts_with(ascii_lower_seq(trim_start(line)), ascii_lower_seq(file_name))
}

/// Whether a process of the image runs, given the standard output of the
/// `is_running_command` listing when the command ran and succeeded (`None`
/// when it could not run or failed).
pub open spec fn running(file_name: Seq<char>, listing: Option<Seq<u8>>) -> bool {
    match listing {
        Some(out) => any_lists_image(lines(utf8_lossy(out)), file_name),
        None => false,
    }
}

/// Whether some line names the image.
pub open spec fn any_lists_image(ls: Seq<Seq<char>>, file_name: Seq<char>) -> bool
    decreases ls.len(),
{
    ls.len() > 0 && (any_lists_image(ls.drop_last(), file_name) || lists_image(
        ls.last(),
        file_name,
    ))
}

proof fn lemma_any_prefix(ls: Seq<Seq<char>>, file_name: Seq<char>, k: int)
    requires
        0 <= k <= ls.len(),
        any_lists_image(ls.take(k), file_name),
    ensures
        any_lists_image(ls, file_name),
    decreases ls.len() - k,
{
    if k < ls.len() {
        assert(ls.take(k + 1).drop_last() =~= ls.take(k));
        lemma_any_prefix(ls, file_name, k + 1);
    } else {
        assert(ls.take(k) =~= ls);
    }
}

proof fn lemma_any_lists_lowered(ls: Seq<Seq<char>>, file_name: Seq<char>)
    ensures
        any_lists_image(ls, file_name) == any_lists_image(ls, ascii_lower_seq(file_name)),
    decreases ls.len(),
{
    crate::text::lemma_ascii_lower_idempotent(file_name);
    if ls.len() > 0 {
        lemma_any_lists_lowered(ls.drop_last(), file_name);
    }
}

/// The image name's ASCII case does not matter: a listing line names an
/// image exactly when it names the same name lowered, so an image runs under
/// either spelling of its name.
pub proof fn law_image_name_case_is_ignored(
    file_name: Seq<char>,
    line: Seq<char>,
    listing: Option<Seq<u8>>,
)
    ensures
        lists_image(line, file_name) == lists_image(line, ascii_lower_seq(file_name)),
        running(file_name, listing) == running(ascii_lower_seq(file_name), listing),
{
    crate::text::lemma_ascii_lower_idempotent(file_name);
    match listing {
        Some(out) => lemma_any_lists_lowered(lines(utf8_lossy(out)), file_name),
        None => {},
    }
}

pub fn is_running(file_name: &str, listing: Option<Vec<u8>>) -> (r: bool)
    ensures
        r == running(
            file_name@,
            match listing {
                Some(v) => Some(v@),
                None => None,
            },
        ),
{
    match &listing {
        None => false,
        Some(out) => {
            let text = from_utf8_lossy(out.as_slice());
            let ls = split_lines(&chars_of(text.as_str()));
            let expected = lower_ascii(&chars_of(file_name));
            let ghost all = lines(utf8_lossy(out@));
            let mut i: usize = 0;
            assert(all.take(0) =~= Seq::<Seq<char>>::empty());
            while i < ls.len()
                invariant
                    i <= ls.len(),
                    views(ls@) == all,
                    all == lines(utf8_lossy(out@)),
                    listing matches Some(v) && v@ == out@,
                    expected@ == ascii_lower_seq(file_name@),
                    !any_lists_image(all.take(i as int), file_name@),
                decreases ls.len() - i,
            {
                let line = lower_ascii(&trimmed_start(&ls[i]));
                assert(all[i as int] == ls@[i as int]@);
                assert(all.take(i + 1).drop_last() =~= all.take(i as int));
                assert(all.take(i + 1).last() == all[i as int]);
                if has_prefix(&line, &expected) {
                    assert(any_lists_image(all.take(i + 1), file_name@));
                    proof {
                        lemma_any_prefix(all, file_name@, i + 1);
                    }
                    return true;
                }
                i = i + 1;
            }
            assert(all.take(ls.len() as int) =~= all);
            false
        },
    }
}

/// A canonical Windows path without its verbatim prefix: `\\?\UNC\server`
/// becomes `\\server`, `\\?\C:\` becomes `C:\`.
pub open spec fn cleaned_path(path: Seq<char>) -> Seq<char> {
    let unc = seq!['\\', '\\', '?', '\\', 'U', 'N', 'C', '\\'];
    let verbatim = seq!['\\', '\\', '?', '\\'];
    if starts_with(path, unc) {
        seq!['\\', '\\'] + path.skip(8)
    } else if starts_with(path, verbatim) {
        path.skip(4)
    } else {
        path
    }
}

pub fn clean_windows_path(path: &str) -> (r: String)
    ensures
        r@ == cleaned_path(path@),
{
    let p = chars_of(path);
    let mut unc: Vec<char> = Vec::new();
    unc.push('\\');
    unc.push('\\');
    unc.push('?');
    unc.push('\\');
    let ghost verbatim = unc@;
    assert(verbatim =~= seq!['\\', '\\', '?', '\\']);
    let mut verbatim_prefix = unc.clone();
    unc.push('U');
    unc.push('N');
    unc.push('C');
    unc.push('\\');
    assert(unc@ =~= seq!['\\', '\\', '?', '\\', 'U', 'N', 'C', '\\']);
    if has_prefix(&p, &unc) {
        let mut r: Vec<char> = Vec::new();
        r.push('\\');
        r.push('\\');
        let rest = crate::text::slice_of(&p, 8, p.len());
        let joined = concat(&r, &rest);
        assert(r@ =~= seq!['\\', '\\']);
        assert(rest@ == p@.skip(8));
        string_of(&joined)
    } else if has_prefix(&p, &verbatim_prefix) {
        let rest = crate::text::slice_of(&p, 4, p.len());
        assert(rest@ == p@.skip(4));
        string_of(&rest)
    } else {
        string_of(&p)
    }
}

} // verus!
