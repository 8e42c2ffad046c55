//! The bundled products: their file names, the commands that stop them,
//! reading their files out of the embedded archives, and unpacking the Lua
//! libraries.
use std::io::Cursor;
use vstd::prelude::*;
use zip::ZipArchive;
use crate::archive::{
    archive_bytes, archive_entry, archive_len, open_archive, zip_entry, zip_entry_count,
    zip_open_error,
};
use crate::config::{
    GAMESENSE_DLL, GAMESENSE_EXE, GAMESENSE_PAYLOAD_ARCHIVE, GAMESENSE_RUNTIME_DIR, LUA_ARCHIVE,
    PRIMO_DLL, PRIMO_EXE, PRIMO_PAYLOAD_ARCHIVE, PRIMO_RUNTIME_DIR, UTILITY_DLL, UTILITY_EXE,
    UTILITY_PAYLOAD_ARCHIVE, UTILITY_RUNTIME_DIR,
};
use crate::processes::{command_is, ProcessCommand};
use crate::text::{
    chars_of, concat, decimal, decimal_of, eq_ignore_ascii_case, eq_ignore_case, signed_decimal,
    signed_decimal_of, string_of,
};
use crate::winpath::{file_name, file_name_of, join, join_chars, parent, parent_of, same_path};

verus! {

/// A product the loader can start.
#[derive(Clone, Copy, Debug, PartialEq, Eq, Structural)]
pub enum Product {
    Neverlose,
    Primordial,
    Gamesense,
}

/// A product's files: the executable and library in its archive, the
/// directory they are unpacked to, and the archive's name.
pub struct ProductFiles {
    pub executable: &'static str,
    pub library: &'static str,
    pub runtime_dir: &'static str,
    pub archive_name: &'static str,
}

pub open spec fn product_files(p: Product) -> (&'static str, &'static str, &'static str, &'static str) {
    match p {
        Product::Neverlose => (UTILITY_EXE, UTILITY_DLL, UTILITY_RUNTIME_DIR, UTILITY_PAYLOAD_ARCHIVE),
        Product::Primordial => (PRIMO_EXE, PRIMO_DLL, PRIMO_RUNTIME_DIR, PRIMO_PAYLOAD_ARCHIVE),
        Product::Gamesense => (
            GAMESENSE_EXE,
            GAMESENSE_DLL,
            GAMESENSE_RUNTIME_DIR,
            GAMESENSE_PAYLOAD_ARCHIVE,
        ),
    }
}

impl Product {
    pub fn files(self) -> (r: ProductFiles)
        ensures
            (r.executable, r.library, r.runtime_dir, r.archive_name) == product_files(self),
    {
        match self {
            Product::Neverlose => ProductFiles {
                executable: UTILITY_EXE,
                library: UTILITY_DLL,
                runtime_dir: UTILITY_RUNTIME_DIR,
                archive_name: UTILITY_PAYLOAD_ARCHIVE,
            },
            Product::Primordial => ProductFiles {
                executable: PRIMO_EXE,
                library: PRIMO_DLL,
                runtime_dir: PRIMO_RUNTIME_DIR,
                archive_name: PRIMO_PAYLOAD_ARCHIVE,
            },
            Product::Gamesense => ProductFiles {
                executable: GAMESENSE_EXE,
                library: GAMESENSE_DLL,
                runtime_dir: GAMESENSE_RUNTIME_DIR,
                archive_name: GAMESENSE_PAYLOAD_ARCHIVE,
            },
        }
    }
}

/// The command that stops the product's running executable.
pub fn terminate(product: Product) -> (r: ProcessCommand)
    ensures
        command_is(
            r,
            "taskkill.exe"@,
            seq!["/IM"@, product_files(product).0@, "/F"@, "/T"@],
            crate::config::CREATE_NO_WINDOW,
        ),
{
    crate::processes::terminate(product.files().executable)
}

/// The commands that stop every product, in the order Neverlose,
/// Primordial, Gamesense.
pub fn terminate_all() -> (r: Vec<ProcessCommand>)
    ensures
        r@.len() == 3,
        command_is(
            r@[0],
            "taskkill.exe"@,
            seq!["/IM"@, UTILITY_EXE@, "/F"@, "/T"@],
            crate::config::CREATE_NO_WINDOW,
        ),
        command_is(
            r@[1],
            "taskkill.exe"@,
            seq!["/IM"@, PRIMO_EXE@, "/F"@, "/T"@],
            crate::config::CREATE_NO_WINDOW,
        ),
        command_is(
            r@[2],
            "taskkill.exe"@,
            seq!["/IM"@, GAMESENSE_EXE@, "/F"@, "/T"@],
            crate::config::CREATE_NO_WINDOW,
        ),
{
    let mut r: Vec<ProcessCommand> = Vec::new();
    r.push(terminate(Product::Neverlose));
    r.push(terminate(Product::Primordial));
    r.push(terminate(Product::Gamesense));
    r
}

// ----------------------------------------------------------------------------
// Product files in an archive
// ----------------------------------------------------------------------------

/// The file name of an entry's enclosed path, when the entry can be read and
/// its path stays inside the archive.
pub open spec fn entry_file_name(bytes: Seq<u8>, i: int) -> Option<Seq<char>> {
    match zip_entry(bytes, i) {
        Ok(e) => match e.enclosed_name {
            Some(p) => file_name(p),
            None => None,
        },
        Err(_) => None,
    }
}

pub open spec fn entry_named(bytes: Seq<u8>, i: int, name: Seq<char>) -> bool {
    entry_file_name(bytes, i) matches Some(n) && eq_ignore_ascii_case(n, name)
}

/// The first index from `i` on whose entry carries the name (in any ASCII
/// case).
pub open spec fn first_named(bytes: Seq<u8>, name: Seq<char>, i: int, n: int) -> Option<int>
    decreases n - i,
{
    if i >= n {
        None
    } else if entry_named(bytes, i, name) {
        Some(i)
    } else {
        first_named(bytes, name, i + 1, n)
    }
}

/// What reading a named file out of an archive gives: its contents, or the
/// error when the archive cannot be read, holds no such file, or the entry
/// cannot be read or decompressed.
pub open spec fn archive_file(bytes: Seq<u8>, archive_name: Seq<char>, file: Seq<char>) -> Result<
    Seq<u8>,
    Seq<char>,
> {
    match zip_open_error(bytes) {
        Some(e) => Err("Failed to read embedded payload archive "@ + archive_name + ": "@ + e),
        None => match first_named(bytes, file, 0, zip_entry_count(bytes) as int) {
            None => Err("Embedded payload "@ + file + " was not found in "@ + archive_name),
            Some(i) => match zip_entry(bytes, i) {
                Err(e) => Err("Failed to read "@ + file + " from "@ + archive_name + ": "@ + e),
                Ok(entry) => match entry.contents {
                    Ok(data) => Ok(data),
                    Err(e) => Err(
                        "Failed to decompress "@ + file + " from "@ + archive_name + ": "@ + e,
                    ),
                },
            },
        },
    }
}

fn message3(a: &str, b: &str, c: &str) -> (r: String)
    ensures
        r@ == a@ + b@ + c@,
{
    let x = concat(&chars_of(a), &chars_of(b));
    string_of(&concat(&x, &chars_of(c)))
}

fn message4(a: &str, b: &str, c: &str, d: &str) -> (r: String)
    ensures
        r@ == a@ + b@ + c@ + d@,
{
    let x = concat(&chars_of(a), &chars_of(b));
    let x = concat(&x, &chars_of(c));
    string_of(&concat(&x, &chars_of(d)))
}

fn message5(a: &str, b: &str, c: &str, d: &str, e: &str) -> (r: String)
    ensures
        r@ == a@ + b@ + c@ + d@ + e@,
{
    let x = concat(&chars_of(a), &chars_of(b));
    let x = concat(&x, &chars_of(c));
    let x = concat(&x, &chars_of(d));
    string_of(&concat(&x, &chars_of(e)))
}

fn entry_name_matches(entry: &crate::archive::ArchiveEntry, name: &Vec<char>) -> (r: bool)
    ensures
        r == (match entry.view().enclosed_name {
            Some(p) => file_name(p) matches Some(n) && eq_ignore_ascii_case(n, name@),
            None => false,
        }),
{
    match &entry.enclosed_name {
        Some(p) => match file_name_of(&chars_of(p.as_str())) {
            Some(n) => eq_ignore_case(&n, name),
            None => false,
        },
        None => false,
    }
}

/// The contents of the archive entry whose file name is `file_name` (in
/// any ASCII case; the first such entry).
pub fn read_archive_file(files: &ProductFiles, archive: &[u8], file_name: &str) -> (r: Result<
    Vec<u8>,
    String,
>)
    ensures
        match r {
            Ok(v) => archive_file(archive@, files.archive_name@, file_name@) == Ok::<
                Seq<u8>,
                Seq<char>,
            >(v@),
            Err(m) => archive_file(archive@, files.archive_name@, file_name@) == Err::<
                Seq<u8>,
                Seq<char>,
            >(m@),
        },
{
    let mut zip = match open_archive(archive) {
        Ok(a) => a,
        Err(e) => {
            return Err(message3("Failed to read embedded payload archive ", files.archive_name, ": ")
                .concat(e.as_str()));
        },
    };
    let ghost bytes = archive@;
    let name = chars_of(file_name);
    let count = archive_len(&zip);
    let mut index: usize = 0;
    let mut found: Option<usize> = None;
    while index < count
        invariant_except_break
            found is None,
            first_named(bytes, name@, 0, count as int) == first_named(
                bytes,
                name@,
                index as int,
                count as int,
            ),
        invariant
            index <= count,
            count == zip_entry_count(bytes),
            archive_bytes(zip) == bytes,
            name@ == file_name@,
        ensures
            archive_bytes(zip) == bytes,
            found matches Some(i) ==> first_named(bytes, name@, 0, count as int) == Some(i as int)
                && i < count,
            found is None ==> first_named(bytes, name@, 0, count as int) is None,
        decreases count - index,
    {
        let entry = archive_entry(&mut zip, index);
        let matched = match &entry {
            Ok(e) => entry_name_matches(e, &name),
            Err(_) => false,
        };
        assert(matched == entry_named(bytes, index as int, name@));
        if matched {
            found = Some(index);
            break;
        }
        index = index + 1;
    }
    match found {
        None => Err(message4("Embedded payload ", file_name, " was not found in ", files.archive_name)),
        Some(i) => match archive_entry(&mut zip, i) {
            Err(e) => Err(message5("Failed to read ", file_name, " from ", files.archive_name, ": ")
                .concat(e.as_str())),
            Ok(entry) => match entry.contents {
                Ok(data) => Ok(data),
                Err(e) => Err(
                    message5("Failed to decompress ", file_name, " from ", files.archive_name, ": ")
                        .concat(e.as_str()),
                ),
            },
        },
    }
}

// ----------------------------------------------------------------------------
// Runtime files
// ----------------------------------------------------------------------------

/// Where a product file is written: `<runtime_dir>\<file_name>`.
pub fn runtime_file_path(runtime_dir: &str, file_name: &str) -> (r: String)
    ensures
        r@ == join(runtime_dir@, file_name@),
{
    crate::winpath::join_path(runtime_dir, file_name)
}

/// The message for a runtime file that could not be written: error 32 (the
/// file is in use) has its own message; other errors name the destination,
/// the error and its OS code when there is one.
pub open spec fn write_error_text(
    file: Seq<char>,
    destination: Seq<char>,
    error: Seq<char>,
    code: Option<i32>,
) -> Seq<char> {
    match code {
        Some(c) => if c == 32 {
            "Не удалось обновить "@ + file + ": файл занят запущенным процессом (код 32)."@
        } else {
            "Не удалось записать "@ + file + " в "@ + destination + ": "@ + error + " (код "@
                + signed_decimal(c as int) + ")."@
        },
        None => "Не удалось записать "@ + file + " в "@ + destination + ": "@ + error + "."@,
    }
}

pub fn write_error_message(file_name: &str, destination: &str, error: &str, code: Option<i32>) -> (r:
    String)
    ensures
        r@ == write_error_text(file_name@, destination@, error@, code),
{
    match code {
        Some(c) => if c == 32 {
            message3("Не удалось обновить ", file_name, ": файл занят запущенным процессом (код 32).")
        } else {
            let x = concat(
                &chars_of(message5("Не удалось записать ", file_name, " в ", destination, ": ").as_str()),
                &chars_of(error),
            );
            let x = concat(&x, &chars_of(" (код "));
            let x = concat(&x, &signed_decimal_of(c as i64));
            string_of(&concat(&x, &chars_of(").")))
        },
        None => {
            let x = concat(
                &chars_of(message5("Не удалось записать ", file_name, " в ", destination, ": ").as_str()),
                &chars_of(error),
            );
            string_of(&concat(&x, &chars_of(".")))
        },
    }
}

/// The message for a runtime file that is missing after it was written.
pub fn missing_runtime_file_message(destination: &str) -> (r: String)
    ensures
        r@ == "Runtime file "@ + destination@ + " was not created."@,
{
    message3("Runtime file ", destination, " was not created.")
}

/// Whether `path`'s parent is `dir` (as `Path` compares them).
pub open spec fn parent_is(path: Seq<char>, dir: Seq<char>) -> bool {
    match parent(path) {
        Some(p) => same_path(p, dir),
        None => false,
    }
}

fn parent_matches(path: &str, dir: &str) -> (r: bool)
    ensures
        r == parent_is(path@, dir@),
{
    match parent_of(&chars_of(path)) {
        Some(p) => crate::winpath::paths_equal(string_of(&p).as_str(), dir),
        None => false,
    }
}

/// The unpacked executable and library must both sit directly in the
/// runtime directory (all three canonical paths).
pub fn check_runtime_layout(runtime_dir: &str, executable: &str, library: &str) -> (r: Result<
    (),
    String,
>)
    ensures
        r is Ok <==> (parent_is(executable@, runtime_dir@) && parent_is(library@, runtime_dir@)),
        r matches Err(m) ==> m@ == "Payload files must be in the same runtime directory. exe: "@
            + executable@ + ", dll: "@ + library@ + ", dir: "@ + runtime_dir@,
{
    if !parent_matches(executable, runtime_dir) || !parent_matches(library, runtime_dir) {
        let x = message5(
            "Payload files must be in the same runtime directory. exe: ",
            executable,
            ", dll: ",
            library,
            ", dir: ",
        );
        return Err(string_of(&concat(&chars_of(x.as_str()), &chars_of(runtime_dir))));
    }
    Ok(())
}

// ----------------------------------------------------------------------------
// Unpacking the Lua libraries
// ----------------------------------------------------------------------------

/// What to do for one archive entry.
pub enum ExtractionStep {
    /// Create this directory (and its parents).
    CreateDir(String),
    /// Create `parent` (when there is one), then write `contents` to `path`;
    /// contents that could not be read carry the error's message, and the
    /// extraction of `path` fails with it.
    WriteFile { path: String, parent: Option<String>, contents: Result<Vec<u8>, String> },
}

pub enum StepView {
    CreateDir(Seq<char>),
    WriteFile(Seq<char>, Option<Seq<char>>, Result<Seq<u8>, Seq<char>>),
}

impl ExtractionStep {
    pub open spec fn view(&self) -> StepView {
        match self {
            ExtractionStep::CreateDir(p) => StepView::CreateDir(p@),
            ExtractionStep::WriteFile { path, parent, contents } => StepView::WriteFile(
                path@,
                crate::text::opt_string_view(*parent),
                match contents {
                    Ok(v) => Ok(v@),
                    Err(e) => Err(e@),
                },
            ),
        }
    }
}

/// The step for the next entry from index `i` on (entries whose enclosed
/// path is empty are passed over), with the index after it and whether it
/// writes a file.
pub open spec fn next_extraction(bytes: Seq<u8>, dir: Seq<char>, i: int, n: int) -> (
    Result<Option<StepView>, Seq<char>>,
    int,
    bool,
)
    decreases n - i,
{
    if i >= n {
        (Ok(None), i, false)
    } else {
        match zip_entry(bytes, i) {
            Err(e) => (Err("Failed to read ZIP entry #"@ + decimal(i as nat) + ": "@ + e), i + 1, false),
            Ok(entry) => match entry.enclosed_name {
                None => (
                    Err("ZIP entry has unsafe path: "@ + match entry.name {
                        Some(n) => n,
                        None => Seq::empty(),
                    }),
                    i + 1,
                    false,
                ),
                Some(p) => if p.len() == 0 {
                    next_extraction(bytes, dir, i + 1, n)
                } else if entry.is_dir {
                    (Ok(Some(StepView::CreateDir(join(dir, p)))), i + 1, false)
                } else {
                    (
                        Ok(
                            Some(
                                StepView::WriteFile(
                                    join(dir, p),
                                    parent(join(dir, p)),
                                    entry.contents,
                                ),
                            ),
                        ),
                        i + 1,
                        true,
                    )
                },
            },
        }
    }
}

proof fn lemma_next_bounds(bytes: Seq<u8>, dir: Seq<char>, i: int, n: int)
    ensures
        i < n ==> i < next_extraction(bytes, dir, i, n).1 <= n,
        i >= n ==> next_extraction(bytes, dir, i, n).1 == i,
    decreases n - i,
{
    if i < n {
        lemma_next_bounds(bytes, dir, i + 1, n);
    }
}

/// The rest of an extraction from entry `i` on: its steps in order, how
/// many of them write a file, and how it ends (`Ok` once every entry is
/// done, or the error that stops it).
pub open spec fn extraction_run(bytes: Seq<u8>, dir: Seq<char>, i: int, n: int) -> (
    Seq<StepView>,
    nat,
    Result<(), Seq<char>>,
)
    decreases n - i,
{
    let (res, next, writes) = next_extraction(bytes, dir, i, n);
    match res {
        Err(e) => (Seq::empty(), 0, Err(e)),
        Ok(None) => (Seq::empty(), 0, Ok(())),
        Ok(Some(step)) => if i < next <= n {
            let (steps, w, end) = extraction_run(bytes, dir, next, n);
            (seq![step] + steps, w + if writes {
                1nat
            } else {
                0nat
            }, end)
        } else {
            (Seq::empty(), 0, Ok(()))
        },
    }
}

proof fn lemma_run_unfolds(bytes: Seq<u8>, dir: Seq<char>, i: int, n: int)
    ensures
        ({
            let (res, next, writes) = next_extraction(bytes, dir, i, n);
            let rest = extraction_run(bytes, dir, next, n);
            match res {
                Ok(Some(step)) => extraction_run(bytes, dir, i, n) == (
                    seq![step] + rest.0,
                    rest.1 + if writes {
                        1nat
                    } else {
                        0nat
                    },
                    rest.2,
                ),
                Ok(None) => extraction_run(bytes, dir, i, n) == (
                    Seq::<StepView>::empty(),
                    0nat,
                    Ok::<(), Seq<char>>(()),
                ),
                Err(e) => extraction_run(bytes, dir, i, n) == (
                    Seq::<StepView>::empty(),
                    0nat,
                    Err::<(), Seq<char>>(e),
                ),
            }
        }),
{
    lemma_next_bounds(bytes, dir, i, n);
    if i >= n {
        assert(next_extraction(bytes, dir, i, n).0 == Ok::<Option<StepView>, Seq<char>>(None));
    }
}

/// Unpacking the Lua library archive into the libraries directory, entry by
/// entry.
pub struct LuaExtraction {
    archive: ZipArchive<Cursor<Vec<u8>>>,
    count: usize,
    index: usize,
    extracted: usize,
    libraries_dir: String,
}

impl LuaExtraction {
    pub closed spec fn bytes(&self) -> Seq<u8> {
        archive_bytes(self.archive)
    }

    pub closed spec fn position(&self) -> int {
        self.index as int
    }

    pub closed spec fn entries(&self) -> int {
        self.count as int
    }

    /// The files written so far.
    pub closed spec fn written(&self) -> nat {
        self.extracted as nat
    }

    pub closed spec fn dir(&self) -> Seq<char> {
        self.libraries_dir@
    }

    /// What is left of this extraction.
    pub open spec fn run(&self) -> (Seq<StepView>, nat, Result<(), Seq<char>>) {
        extraction_run(self.bytes(), self.dir(), self.position(), self.entries())
    }

    pub open spec fn wf(&self) -> bool {
        &&& self.entries() == zip_entry_count(self.bytes())
        &&& 0 <= self.position() <= self.entries()
        &&& self.written() <= self.position()
    }

    /// Opens the archive (`lua_libs.zip`'s bytes).
    pub fn new(archive: &[u8], libraries_dir: &str) -> (r: Result<Self, String>)
        ensures
            match r {
                Ok(x) => {
                    &&& zip_open_error(archive@) is None
                    &&& x.wf()
                    &&& x.bytes() == archive@
                    &&& x.position() == 0
                    &&& x.written() == 0
                    &&& x.dir() == libraries_dir@
                },
                Err(m) => zip_open_error(archive@) matches Some(e) && m@
                    == "Failed to read embedded ZIP archive "@ + LUA_ARCHIVE@ + ": "@ + e,
            },
    {
        match open_archive(archive) {
            Ok(a) => {
                let count = archive_len(&a);
                Ok(
                    LuaExtraction {
                        archive: a,
                        count,
                        index: 0,
                        extracted: 0,
                        libraries_dir: string_of(&chars_of(libraries_dir)),
                    },
                )
            },
            Err(e) => Err(message3("Failed to read embedded ZIP archive ", LUA_ARCHIVE, ": ").concat(
                e.as_str(),
            )),
        }
    }

    /// The step for the next entry, `None` once every entry is done, or the
    /// error that ends the extraction.
    pub fn next_step(&mut self) -> (r: Result<Option<ExtractionStep>, String>)
        requires
            old(self).wf(),
        ensures
            final(self).wf(),
            final(self).bytes() == old(self).bytes(),
            final(self).dir() == old(self).dir(),
            ({
                let (res, next, writes) = next_extraction(
                    old(self).bytes(),
                    old(self).dir(),
                    old(self).position(),
                    old(self).entries(),
                );
                &&& match r {
                    Ok(Some(step)) => res == Ok::<Option<StepView>, Seq<char>>(Some(step.view())),
                    Ok(None) => res == Ok::<Option<StepView>, Seq<char>>(None),
                    Err(m) => res == Err::<Option<StepView>, Seq<char>>(m@),
                }
                &&& final(self).position() == next
                &&& final(self).written() == old(self).written() + if writes {
                    1nat
                } else {
                    0nat
                }
            }),
            match r {
                Ok(Some(step)) => old(self).run() == (
                    seq![step.view()] + final(self).run().0,
                    final(self).run().1 + (final(self).written() - old(self).written()) as nat,
                    final(self).run().2,
                ),
                Ok(None) => old(self).run() == (Seq::<StepView>::empty(), 0nat, Ok::<(), Seq<char>>(())),
                Err(m) => old(self).run() == (Seq::<StepView>::empty(), 0nat, Err::<(), Seq<char>>(m@)),
            },
    {
        proof {
            lemma_run_unfolds(self.bytes(), self.dir(), self.position(), self.entries());
        }
        let ghost bytes = self.bytes();
        let ghost dir = self.dir();
        let ghost start = self.index as int;
        while self.index < self.count
            invariant
                self.wf(),
                self.bytes() == bytes,
                self.dir() == dir,
                self.written() == old(self).written(),
                next_extraction(bytes, dir, start, self.count as int) == next_extraction(
                    bytes,
                    dir,
                    self.index as int,
                    self.count as int,
                ),
                start == old(self).position(),
                self.count == old(self).entries(),
                bytes == old(self).bytes(),
                dir == old(self).dir(),
            decreases self.count - self.index,
        {
            proof {
                lemma_run_unfolds(bytes, dir, start, self.count as int);
            }
            let i = self.index;
            let entry = archive_entry(&mut self.archive, i);
            self.index = i + 1;
            match entry {
                Err(e) => {
                    let x = concat(&chars_of("Failed to read ZIP entry #"), &decimal_of(i as u64));
                    let x = concat(&x, &chars_of(": "));
                    return Err(string_of(&concat(&x, &chars_of(e.as_str()))));
                },
                Ok(entry) => {
                    let ghost ev = entry.view();
                    match entry.enclosed_name {
                        None => {
                            let name = match entry.name {
                                Some(n) => chars_of(n.as_str()),
                                None => Vec::new(),
                            };
                            return Err(
                                string_of(&concat(&chars_of("ZIP entry has unsafe path: "), &name)),
                            );
                        },
                        Some(p) => {
                            let pc = chars_of(p.as_str());
                            if pc.len() > 0 {
                                let out = join_chars(&chars_of(self.libraries_dir.as_str()), &pc);
                                let path = string_of(&out);
                                if entry.is_dir {
                                    return Ok(Some(ExtractionStep::CreateDir(path)));
                                }
                                let parent = match parent_of(&out) {
                                    Some(q) => Some(string_of(&q)),
                                    None => None,
                                };
                                self.extracted = self.extracted + 1;
                                return Ok(
                                    Some(
                                        ExtractionStep::WriteFile {
                                            path,
                                            parent,
                                            contents: entry.contents,
                                        },
                                    ),
                                );
                            }
                        },
                    }
                },
            }
        }
        Ok(None)
    }

    /// Fails when no file was written at all.
    pub fn check_extracted(&self) -> (r: Result<(), String>)
        ensures
            r is Ok <==> self.written() > 0,
            r matches Err(m) ==> m@ == nothing_extracted_message(),
    {
        if self.extracted == 0 {
            return Err(message3("Embedded ZIP archive ", LUA_ARCHIVE, " did not contain any files to extract."));
        }
        Ok(())
    }

    /// Fails when the libraries directory holds no file after the
    /// extraction (`installed_files` is the count of files found in it).
    pub fn check_installed(&self, installed_files: usize) -> (r: Result<(), String>)
        ensures
            r is Ok <==> installed_files > 0,
            r matches Err(m) ==> m@ == not_installed_message(self.dir(), self.written()),
    {
        if installed_files == 0 {
            let x = concat(&chars_of("Lua libraries were not installed into "), &chars_of(self.libraries_dir.as_str()));
            let x = concat(&x, &chars_of(". Extracted "));
            let x = concat(&x, &decimal_of(self.extracted as u64));
            return Err(string_of(&concat(&x, &chars_of(" files from archive, but target directory is empty."))));
        }
        Ok(())
    }
}

pub open spec fn nothing_extracted_message() -> Seq<char> {
    "Embedded ZIP archive "@ + LUA_ARCHIVE@ + " did not contain any files to extract."@
}

pub open spec fn not_installed_message(dir: Seq<char>, written: nat) -> Seq<char> {
    "Lua libraries were not installed into "@ + dir + ". Extracted "@ + decimal(written)
        + " files from archive, but target directory is empty."@
}

/// The files an extraction will have written once every step is done.
pub open spec fn files_written(x: LuaExtraction) -> nat {
    x.written() + x.run().1
}

/// What the extraction answers once every step is done and the caller has
/// counted the files in the libraries directory: the error that stopped
/// it, or the check that some file was extracted, then the check that the
/// directory holds files.
pub open spec fn extraction_outcome(x: LuaExtraction, installed_files: nat) -> Result<
    (),
    Seq<char>,
> {
    match x.run().2 {
        Err(e) => Err(e),
        Ok(()) => if files_written(x) == 0 {
            Err(nothing_extracted_message())
        } else if installed_files == 0 {
            Err(not_installed_message(x.dir(), files_written(x)))
        } else {
            Ok(())
        },
    }
}

/// Extracting the same archive into the same directory again takes the same
/// steps in the same order (so the same directories are made and the same
/// files written with the same contents), writes as many files and ends the
/// same way; with the same files then found in the directory it answers as
/// before. So after an extraction that succeeded, extracting again over the
/// unchanged tree leaves the same tree and succeeds again.
pub proof fn lemma_extraction_repeats(first: LuaExtraction, second: LuaExtraction, installed_files: nat)
    requires
        first.wf(),
        second.wf(),
        first.bytes() == second.bytes(),
        first.dir() == second.dir(),
        first.position() == 0,
        second.position() == 0,
        first.written() == 0,
        second.written() == 0,
    ensures
        first.run() == second.run(),
        files_written(first) == files_written(second),
        extraction_outcome(first, installed_files) == extraction_outcome(second, installed_files),
{
}

/// A step of the extraction keeps what it will have written in all, and
/// what it will answer: the steps taken so far change neither.
pub proof fn lemma_step_keeps_outcome(before: LuaExtraction, after: LuaExtraction, step: StepView, installed_files: nat)
    requires
        before.dir() == after.dir(),
        after.written() >= before.written(),
        before.run() == (
            seq![step] + after.run().0,
            after.run().1 + (after.written() - before.written()) as nat,
            after.run().2,
        ),
    ensures
        files_written(before) == files_written(after),
        extraction_outcome(before, installed_files) == extraction_outcome(after, installed_files),
{
}

/// Once every step is done, the extraction answers with the two checks on
/// the files written so far.
pub proof fn lemma_done_outcome(x: LuaExtraction, installed_files: nat)
    requires
        x.run() == (Seq::<StepView>::empty(), 0nat, Ok::<(), Seq<char>>(())),
    ensures
        extraction_outcome(x, installed_files) == if x.written() == 0 {
            Err::<(), Seq<char>>(nothing_extracted_message())
        } else if installed_files == 0 {
            Err::<(), Seq<char>>(not_installed_message(x.dir(), x.written()))
        } else {
            Ok::<(), Seq<char>>(())
        },
{
}

} // verus!
