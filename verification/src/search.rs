//! The decisions of the search for the CS:GO directory, as state machines
//! that the caller drives: it answers each action (a file check, a directory
//! listing, a list of paths) and hands the answer back.
use vstd::prelude::*;
use crate::config::{
    CSGO_EXE, STRUCTURAL_SCAN_MAX_CANDIDATES, STRUCTURAL_SCAN_MAX_DEPTH,
    STRUCTURAL_SCAN_MAX_VISITED_DIRS,
};
use crate::game::{
    all_pushed_candidates, by_score, first_path_line, keys_distinct, order_candidates,
    push_all_candidates, push_candidate, pushed_candidate, read_path_file, scan_limit,
    scan_limit_reached, should_skip_directory, skips_directory,
};
use crate::game::normalized_candidate;
use crate::text::{
    chars_of, concat, decimal, decimal_of, eq_ignore_ascii_case, is_white_space,
    lemma_first_index_bounds, lines, starts_with, string_of, string_views, trim, trim_char,
    trim_end, trim_end_char, trim_start, trim_start_char,
};
use crate::winpath::file_name;

verus! {

// ----------------------------------------------------------------------------
// Finding the CS:GO directory
// ----------------------------------------------------------------------------

/// Where the search stands.
#[derive(Clone, Copy, Debug, PartialEq, Eq, Structural)]
pub enum SearchStage {
    /// Checking the directory the cache file names.
    Cache,
    /// The cached directory is stale; the cache file must go.
    ForgetCache,
    /// Waiting for the explicitly configured paths.
    AwaitExplicit,
    /// Checking the explicitly configured paths one by one.
    Explicit,
    /// Waiting for the candidates of the Steam libraries.
    AwaitLibrary,
    /// Checking the library candidates one by one.
    Library,
    /// Waiting for the scanned and registry paths.
    AwaitScan,
    /// Checking every collected candidate, best score first.
    Final,
    /// The directory was found.
    Found,
    /// No candidate held `csgo.exe`.
    Failed,
}

/// What the caller is asked to do next.
pub enum SearchAction {
    /// Check whether `executable` (the directory's `csgo.exe`) is a file;
    /// answer with `SearchEvent::Probed`.
    Probe { dir: String, executable: String },
    /// Remove the cache file; answer with `SearchEvent::CacheForgotten`.
    ForgetCachedPath,
    /// Answer with `SearchEvent::Supplied` and `explicit_install_paths`.
    ExplicitPaths,
    /// Answer with `SearchEvent::Supplied` and the candidates of each Steam
    /// library root, root after root.
    LibraryCandidates,
    /// Answer with `SearchEvent::Supplied` and the scanned paths followed by
    /// the registry install paths.
    ScannedPaths,
    /// The directory; `remember` asks to write it to the cache file.
    Found { dir: String, remember: bool },
    /// The search failed with this message.
    NotFound(String),
}

/// The caller's answer.
pub enum SearchEvent {
    Begin,
    Probed(bool),
    Supplied(Vec<String>),
    CacheForgotten,
}

pub enum ActionView {
    Probe(Seq<char>, Seq<char>),
    ForgetCachedPath,
    ExplicitPaths,
    LibraryCandidates,
    ScannedPaths,
    Found(Seq<char>, bool),
    NotFound(Seq<char>),
}

pub enum EventView {
    Begin,
    Probed(bool),
    Supplied(Seq<Seq<char>>),
    CacheForgotten,
}

impl SearchAction {
    pub open spec fn view(&self) -> ActionView {
        match self {
            SearchAction::Probe { dir, executable } => ActionView::Probe(dir@, executable@),
            SearchAction::ForgetCachedPath => ActionView::ForgetCachedPath,
            SearchAction::ExplicitPaths => ActionView::ExplicitPaths,
            SearchAction::LibraryCandidates => ActionView::LibraryCandidates,
            SearchAction::ScannedPaths => ActionView::ScannedPaths,
            SearchAction::Found { dir, remember } => ActionView::Found(dir@, *remember),
            SearchAction::NotFound(m) => ActionView::NotFound(m@),
        }
    }
}

impl SearchEvent {
    pub open spec fn view(&self) -> EventView {
        match self {
            SearchEvent::Begin => EventView::Begin,
            SearchEvent::Probed(b) => EventView::Probed(*b),
            SearchEvent::Supplied(v) => EventView::Supplied(string_views(v@)),
            SearchEvent::CacheForgotten => EventView::CacheForgotten,
        }
    }
}

/// The search's state: the list being checked and how far, and the
/// candidates kept for the final round.
pub struct SearchState {
    pub stage: SearchStage,
    pub queue: Seq<Seq<char>>,
    pub pos: int,
    pub candidates: Seq<Seq<char>>,
    pub found: Seq<char>,
    pub remember: bool,
}

pub open spec fn not_found_message(checked: nat) -> Seq<char> {
    "Could not find Counter-Strike Global Offensive/csgo.exe. Checked "@ + decimal(checked)
        + " likely locations."@
}

pub open spec fn probing(s: SearchState) -> bool {
    &&& (s.stage == SearchStage::Cache || s.stage == SearchStage::Explicit || s.stage
        == SearchStage::Library || s.stage == SearchStage::Final)
    &&& 0 <= s.pos < s.queue.len()
}

/// The state after the caller's answer.
pub open spec fn apply_event(s: SearchState, e: EventView) -> SearchState {
    match e {
        EventView::Begin => s,
        EventView::Probed(true) => if probing(s) {
            SearchState {
                stage: SearchStage::Found,
                found: s.queue[s.pos],
                remember: s.stage != SearchStage::Cache,
                ..s
            }
        } else {
            s
        },
        EventView::Probed(false) => if probing(s) {
            if s.stage == SearchStage::Cache {
                SearchState { stage: SearchStage::ForgetCache, pos: s.pos + 1, ..s }
            } else if s.stage == SearchStage::Final {
                SearchState { pos: s.pos + 1, ..s }
            } else {
                SearchState {
                    candidates: pushed_candidate(s.candidates, s.queue[s.pos]),
                    pos: s.pos + 1,
                    ..s
                }
            }
        } else {
            s
        },
        EventView::CacheForgotten => if s.stage == SearchStage::ForgetCache {
            SearchState { stage: SearchStage::AwaitExplicit, ..s }
        } else {
            s
        },
        EventView::Supplied(paths) => if s.stage == SearchStage::AwaitExplicit {
            SearchState { stage: SearchStage::Explicit, queue: paths, pos: 0, ..s }
        } else if s.stage == SearchStage::AwaitLibrary {
            SearchState { stage: SearchStage::Library, queue: paths, pos: 0, ..s }
        } else if s.stage == SearchStage::AwaitScan {
            let c = all_pushed_candidates(s.candidates, paths);
            SearchState { stage: SearchStage::Final, queue: by_score(c), pos: 0, candidates: c, ..s }
        } else {
            s
        },
    }
}

pub open spec fn probe_action(s: SearchState) -> ActionView {
    ActionView::Probe(s.queue[s.pos], crate::winpath::join(s.queue[s.pos], CSGO_EXE@))
}

/// The action a state asks for, moving on when the list being checked is
/// used up.
pub open spec fn settle(s: SearchState) -> (SearchState, ActionView) {
    let more = s.pos < s.queue.len();
    match s.stage {
        SearchStage::Cache => if more {
            (s, probe_action(s))
        } else {
            (SearchState { stage: SearchStage::AwaitExplicit, ..s }, ActionView::ExplicitPaths)
        },
        SearchStage::ForgetCache => (s, ActionView::ForgetCachedPath),
        SearchStage::AwaitExplicit => (s, ActionView::ExplicitPaths),
        SearchStage::Explicit => if more {
            (s, probe_action(s))
        } else {
            (SearchState { stage: SearchStage::AwaitLibrary, ..s }, ActionView::LibraryCandidates)
        },
        SearchStage::AwaitLibrary => (s, ActionView::LibraryCandidates),
        SearchStage::Library => if more {
            (s, probe_action(s))
        } else {
            (SearchState { stage: SearchStage::AwaitScan, ..s }, ActionView::ScannedPaths)
        },
        SearchStage::AwaitScan => (s, ActionView::ScannedPaths),
        SearchStage::Final => if more {
            (s, probe_action(s))
        } else {
            (
                SearchState { stage: SearchStage::Failed, ..s },
                ActionView::NotFound(not_found_message(s.queue.len())),
            )
        },
        SearchStage::Found => (s, ActionView::Found(s.found, s.remember)),
        SearchStage::Failed => (s, ActionView::NotFound(not_found_message(s.queue.len()))),
    }
}

/// One step of the search: the caller's answer, then the next action.
pub open spec fn search_step(s: SearchState, e: EventView) -> (SearchState, ActionView) {
    settle(apply_event(s, e))
}

/// The search for the CS:GO directory: the cached directory, the explicitly
/// configured paths, the Steam library candidates, then every collected
/// candidate (with the scanned and registry paths) best score first. The
/// first directory whose `csgo.exe` is a file wins.
pub struct CsgoSearch {
    stage: SearchStage,
    queue: Vec<String>,
    pos: usize,
    candidates: Vec<String>,
    found: String,
    remember: bool,
}

impl CsgoSearch {
    pub closed spec fn state(&self) -> SearchState {
        SearchState {
            stage: self.stage,
            queue: string_views(self.queue@),
            pos: self.pos as int,
            candidates: string_views(self.candidates@),
            found: self.found@,
            remember: self.remember,
        }
    }

    /// The state is consistent: the position lies within the list and no two
    /// candidates share a key.
    pub open spec fn wf(&self) -> bool {
        &&& 0 <= self.state().pos <= self.state().queue.len()
        &&& keys_distinct(self.state().candidates)
    }

    /// A search that starts from the cache file's contents (`None` when it
    /// could not be read).
    pub fn new(cache_contents: Option<String>) -> (r: Self)
        ensures
            r.wf(),
            r.state().stage == SearchStage::Cache,
            r.state().queue == match crate::text::opt_string_view(cache_contents) {
                Some(c) => match first_path_line(lines(c)) {
                    Some(p) => seq![p],
                    None => Seq::<Seq<char>>::empty(),
                },
                None => Seq::<Seq<char>>::empty(),
            },
            r.state().pos == 0,
            r.state().candidates == Seq::<Seq<char>>::empty(),
    {
        let mut queue: Vec<String> = Vec::new();
        match cache_contents {
            Some(c) => match read_path_file(c.as_str()) {
                Some(p) => {
                    queue.push(p);
                },
                None => {},
            },
            None => {},
        }
        let r = CsgoSearch {
            stage: SearchStage::Cache,
            queue,
            pos: 0,
            candidates: Vec::new(),
            found: String::new(),
            remember: false,
        };
        assert(string_views(r.queue@) =~= r.state().queue);
        assert(r.state().queue =~= match crate::text::opt_string_view(cache_contents) {
            Some(c) => match first_path_line(lines(c)) {
                Some(p) => seq![p],
                None => Seq::<Seq<char>>::empty(),
            },
            None => Seq::<Seq<char>>::empty(),
        });
        assert(r.state().candidates =~= Seq::<Seq<char>>::empty());
        r
    }

    fn probe(&self) -> (a: SearchAction)
        requires
            self.pos < self.queue.len(),
        ensures
            a.view() == probe_action(self.state()),
    {
        let dir = self.queue[self.pos].clone();
        let executable = crate::winpath::join_path(dir.as_str(), CSGO_EXE);
        SearchAction::Probe { dir, executable }
    }

    fn message(&self) -> (m: String)
        ensures
            m@ == not_found_message(self.queue@.len()),
    {
        let mut m = chars_of("Could not find Counter-Strike Global Offensive/csgo.exe. Checked ");
        m = concat(&m, &decimal_of(self.queue.len() as u64));
        m = concat(&m, &chars_of(" likely locations."));
        string_of(&m)
    }

    fn settle_exec(&mut self) -> (a: SearchAction)
        requires
            old(self).wf(),
        ensures
            final(self).wf(),
            (final(self).state(), a.view()) == settle(old(self).state()),
    {
        let more = self.pos < self.queue.len();
        match self.stage {
            SearchStage::Cache => if more {
                self.probe()
            } else {
                self.stage = SearchStage::AwaitExplicit;
                SearchAction::ExplicitPaths
            },
            SearchStage::ForgetCache => SearchAction::ForgetCachedPath,
            SearchStage::AwaitExplicit => SearchAction::ExplicitPaths,
            SearchStage::Explicit => if more {
                self.probe()
            } else {
                self.stage = SearchStage::AwaitLibrary;
                SearchAction::LibraryCandidates
            },
            SearchStage::AwaitLibrary => SearchAction::LibraryCandidates,
            SearchStage::Library => if more {
                self.probe()
            } else {
                self.stage = SearchStage::AwaitScan;
                SearchAction::ScannedPaths
            },
            SearchStage::AwaitScan => SearchAction::ScannedPaths,
            SearchStage::Final => if more {
                self.probe()
            } else {
                self.stage = SearchStage::Failed;
                SearchAction::NotFound(self.message())
            },
            SearchStage::Found => SearchAction::Found {
                dir: self.found.clone(),
                remember: self.remember,
            },
            SearchStage::Failed => SearchAction::NotFound(self.message()),
        }
    }

    fn apply_exec(&mut self, event: SearchEvent)
        requires
            old(self).wf(),
        ensures
            final(self).wf(),
            final(self).state() == apply_event(old(self).state(), event.view()),
    {
        let ghost s = self.state();
        let probing_now = (self.stage == SearchStage::Cache || self.stage == SearchStage::Explicit
            || self.stage == SearchStage::Library || self.stage == SearchStage::Final) && self.pos
            < self.queue.len();
        assert(probing_now == probing(s));
        match event {
            SearchEvent::Begin => {},
            SearchEvent::Probed(exists) => {
                if probing_now {
                    if exists {
                        self.found = self.queue[self.pos].clone();
                        self.remember = self.stage != SearchStage::Cache;
                        self.stage = SearchStage::Found;
                    } else if self.stage == SearchStage::Cache {
                        self.stage = SearchStage::ForgetCache;
                        self.pos = self.pos + 1;
                    } else if self.stage == SearchStage::Final {
                        self.pos = self.pos + 1;
                    } else {
                        let p = self.queue[self.pos].clone();
                        push_candidate(&mut self.candidates, p);
                        self.pos = self.pos + 1;
                    }
                }
            },
            SearchEvent::CacheForgotten => {
                if self.stage == SearchStage::ForgetCache {
                    self.stage = SearchStage::AwaitExplicit;
                }
            },
            SearchEvent::Supplied(paths) => {
                if self.stage == SearchStage::AwaitExplicit {
                    self.stage = SearchStage::Explicit;
                    self.queue = paths;
                    self.pos = 0;
                } else if self.stage == SearchStage::AwaitLibrary {
                    self.stage = SearchStage::Library;
                    self.queue = paths;
                    self.pos = 0;
                } else if self.stage == SearchStage::AwaitScan {
                    push_all_candidates(&mut self.candidates, &paths);
                    self.queue = order_candidates(&self.candidates);
                    self.stage = SearchStage::Final;
                    self.pos = 0;
                    proof {
                        crate::game::candidates_ordered_by_score(string_views(self.candidates@));
                    }
                }
            },
        }
        assert(self.state() =~= apply_event(s, event.view()));
    }

    /// One step: takes the caller's answer to the previous action (`Begin`
    /// for the first step) and returns the next action.
    pub fn step(&mut self, event: SearchEvent) -> (a: SearchAction)
        requires
            old(self).wf(),
        ensures
            final(self).wf(),
            (final(self).state(), a.view()) == search_step(old(self).state(), event.view()),
    {
        self.apply_exec(event);
        self.settle_exec()
    }
}

/// A search reports a directory only when it already had, or when the
/// caller has just confirmed the probe that the search asked for about that
/// very directory.
pub proof fn found_only_when_confirmed(s: SearchState, e: EventView)
    ensures
        search_step(s, e).1 matches ActionView::Found(dir, _) ==> ({
            ||| settle(s).1 matches ActionView::Found(d, _) && d == dir
            ||| (e == EventView::Probed(true) && (settle(s).1 matches ActionView::Probe(d, _) && d
                == dir))
        }),
{
}

/// A remembered directory reads back from the cache file: the text written
/// for `dir` is read as `dir` again, so a search started from that cache
/// checks `dir` first. This holds when `dir` is one line without
/// surrounding whitespace or quotes, does not start with `#`, and does not
/// itself name `csgo.exe`.
pub proof fn lemma_remembered_directory_reads_back(dir: Seq<char>)
    requires
        dir.len() > 0,
        forall|i: int| 0 <= i < dir.len() ==> dir[i] != '\n',
        !is_white_space(dir[0]),
        !is_white_space(dir.last()),
        dir[0] != '"',
        dir.last() != '"',
        dir[0] != '#',
        !(file_name(dir) matches Some(n) && eq_ignore_ascii_case(n, CSGO_EXE@)),
    ensures
        lines(dir) == seq![dir],
        first_path_line(lines(dir)) == Some(dir),
{
    lemma_first_index_bounds(dir, '\n');
    assert(trim_start(dir) == dir);
    assert(trim_end(dir) == dir);
    assert(trim(dir) == dir);
    assert(trim_start_char(dir, '"') == dir);
    assert(trim_end_char(dir, '"') == dir);
    assert(trim_char(dir, '"') == dir);
    assert(!starts_with(dir, seq!['#'])) by {
        if starts_with(dir, seq!['#']) {
            assert(dir.take(1)[0] == dir[0]);
        }
    }
    assert(normalized_candidate(dir) == dir);
    assert(lines(dir) =~= seq![dir]);
    assert(lines(dir)[0] == dir);
}

/// The final round checks every kept candidate, and a failed search reports
/// how many.
pub proof fn failure_counts_every_candidate(s: SearchState, paths: Seq<Seq<char>>)
    requires
        s.stage == SearchStage::AwaitScan,
    ensures
        apply_event(s, EventView::Supplied(paths)).queue.len() == all_pushed_candidates(
            s.candidates,
            paths,
        ).len(),
        apply_event(s, EventView::Supplied(paths)).queue == by_score(
            all_pushed_candidates(s.candidates, paths),
        ),
{
    crate::game::candidates_ordered_by_score(all_pushed_candidates(s.candidates, paths));
}

// ----------------------------------------------------------------------------
// The structural scan
// ----------------------------------------------------------------------------

/// A directory waiting to be visited, with its depth below the scan root.
pub struct PendingDir {
    pub path: String,
    pub depth: usize,
}

pub open spec fn pending_view(p: PendingDir) -> (Seq<char>, nat) {
    (p.path@, p.depth as nat)
}

pub open spec fn pendings_view(s: Seq<PendingDir>) -> Seq<(Seq<char>, nat)> {
    s.map_values(|p: PendingDir| pending_view(p))
}

/// The subdirectories the scan goes on with: those not skipped, one level
/// deeper, in listing order.
pub open spec fn children(entries: Seq<Seq<char>>, depth: nat) -> Seq<(Seq<char>, nat)>
    decreases entries.len(),
{
    if entries.len() == 0 {
        Seq::empty()
    } else if skips_directory(entries.last()) {
        children(entries.drop_last(), depth)
    } else {
        children(entries.drop_last(), depth).push((entries.last(), depth + 1))
    }
}

/// No pending directory lies deeper than `STRUCTURAL_SCAN_MAX_DEPTH`.
pub open spec fn depths_within_limit(p: Seq<(Seq<char>, nat)>) -> bool {
    forall|i: int| 0 <= i < p.len() ==> (#[trigger] p[i]).1 <= STRUCTURAL_SCAN_MAX_DEPTH
}

/// The structural scan for directories that hold `csgo.exe`: depth-first
/// from each root, at most `STRUCTURAL_SCAN_MAX_DEPTH` levels deep, until
/// the time, directory or candidate limit is reached.
pub struct InstallScan {
    pending: Vec<PendingDir>,
    visited_dirs: usize,
    candidates: Vec<String>,
    current: Option<PendingDir>,
}

impl InstallScan {
    /// Directories still to visit; the last is visited next.
    pub closed spec fn pending(&self) -> Seq<(Seq<char>, nat)> {
        pendings_view(self.pending@)
    }

    pub closed spec fn visited(&self) -> nat {
        self.visited_dirs as nat
    }

    pub closed spec fn found(&self) -> Seq<Seq<char>> {
        string_views(self.candidates@)
    }

    /// The directory being visited, between `next_directory` and the report.
    pub closed spec fn visiting(&self) -> Option<(Seq<char>, nat)> {
        match self.current {
            Some(p) => Some(pending_view(p)),
            None => None,
        }
    }

    /// The scan's limits hold: at most `STRUCTURAL_SCAN_MAX_VISITED_DIRS`
    /// directories visited, at most `STRUCTURAL_SCAN_MAX_CANDIDATES`
    /// candidates kept (fewer while a directory is being visited), no
    /// pending directory deeper than `STRUCTURAL_SCAN_MAX_DEPTH`, and no two
    /// candidates with the same key.
    pub open spec fn wf(&self) -> bool {
        &&& self.visited() <= STRUCTURAL_SCAN_MAX_VISITED_DIRS
        &&& self.found().len() <= STRUCTURAL_SCAN_MAX_CANDIDATES
        &&& (self.visiting() is Some ==> self.found().len()
            < STRUCTURAL_SCAN_MAX_CANDIDATES)
        &&& depths_within_limit(self.pending())
        &&& (self.visiting() matches Some(v) ==> v.1 <= STRUCTURAL_SCAN_MAX_DEPTH)
        &&& keys_distinct(self.found())
    }

    pub fn new() -> (r: Self)
        ensures
            r.wf(),
            r.pending() == Seq::<(Seq<char>, nat)>::empty(),
            r.visited() == 0,
            r.found() == Seq::<Seq<char>>::empty(),
            r.visiting() is None,
    {
        let r = InstallScan {
            pending: Vec::new(),
            visited_dirs: 0,
            candidates: Vec::new(),
            current: None,
        };
        assert(r.pending() =~= Seq::<(Seq<char>, nat)>::empty());
        assert(r.found() =~= Seq::<Seq<char>>::empty());
        r
    }

    /// Whether the scan may go on to another root (`elapsed_secs` as in
    /// `scan_limit_reached`).
    pub fn may_continue(&self, elapsed_secs: u64) -> (r: bool)
        ensures
            r == !scan_limit(elapsed_secs, self.visited() as usize, self.found().len() as usize),
    {
        !scan_limit_reached(elapsed_secs, self.visited_dirs, self.candidates.len())
    }

    /// Starts the depth-first walk at `root`, unless the root does not exist;
    /// what was left of an earlier walk is dropped.
    pub fn start_root(&mut self, root: String, root_exists: bool)
        requires
            old(self).wf(),
        ensures
            final(self).wf(),
            final(self).pending() == if root_exists {
                seq![(root@, 0nat)]
            } else {
                old(self).pending()
            },
            final(self).visited() == old(self).visited(),
            final(self).found() == old(self).found(),
            final(self).visiting() == old(self).visiting(),
    {
        if root_exists {
            let mut stack: Vec<PendingDir> = Vec::new();
            stack.push(PendingDir { path: root, depth: 0 });
            self.pending = stack;
            assert(self.pending() =~= seq![(root@, 0nat)]);
        }
    }

    /// Takes the next directory to visit and counts it as visited: `None`
    /// when no directory is left, or when a limit is reached (then the rest of
    /// this root's walk is dropped).
    pub fn next_directory(&mut self, elapsed_secs: u64) -> (r: Option<String>)
        requires
            old(self).wf(),
        ensures
            final(self).wf(),
            final(self).found() == old(self).found(),
            old(self).pending().len() == 0 ==> r is None && final(self).pending() == old(
                self,
            ).pending() && final(self).visited() == old(self).visited(),
            old(self).pending().len() > 0 && scan_limit(
                elapsed_secs,
                old(self).visited() as usize,
                old(self).found().len() as usize,
            ) ==> r is None && final(self).pending().len() == 0 && final(self).visited() == old(
                self,
            ).visited(),
            old(self).pending().len() > 0 && !scan_limit(
                elapsed_secs,
                old(self).visited() as usize,
                old(self).found().len() as usize,
            ) ==> {
                &&& r matches Some(p) && p@ == old(self).pending().last().0
                &&& final(self).visiting() == Some(old(self).pending().last())
                &&& final(self).pending() == old(self).pending().drop_last()
                &&& final(self).visited() == old(self).visited() + 1
            },
    {
        let ghost before = self.pending@;
        match self.pending.pop() {
            None => None,
            Some(dir) => {
                assert(self.pending@ == before.drop_last());
                assert(pendings_view(self.pending@) =~= pendings_view(before).drop_last());
                if scan_limit_reached(elapsed_secs, self.visited_dirs, self.candidates.len()) {
                    self.pending = Vec::new();
                    assert(self.pending() =~= Seq::<(Seq<char>, nat)>::empty());
                    return None;
                }
                self.visited_dirs = self.visited_dirs + 1;
                let path = dir.path.clone();
                assert(pending_view(dir) == pendings_view(before).last());
                self.current = Some(dir);
                Some(path)
            },
        }
    }

    /// Reports on the directory being visited whether its `csgo.exe` is a
    /// file. A directory that holds it becomes a candidate; otherwise the
    /// answer is whether its subdirectories are wanted (the depth limit is
    /// not reached), to be given with `push_subdirectories`.
    pub fn record_directory(&mut self, has_executable: bool) -> (wants_listing: bool)
        requires
            old(self).wf(),
        ensures
            final(self).wf(),
            final(self).pending() == old(self).pending(),
            final(self).visited() == old(self).visited(),
            match old(self).visiting() {
                None => !wants_listing && final(self).found() == old(self).found()
                    && final(self).visiting() is None,
                Some(v) => if has_executable {
                    &&& !wants_listing
                    &&& final(self).found() == pushed_candidate(old(self).found(), v.0)
                    &&& final(self).visiting() is None
                } else {
                    &&& wants_listing == (v.1 < STRUCTURAL_SCAN_MAX_DEPTH)
                    &&& final(self).found() == old(self).found()
                    &&& final(self).visiting() == if wants_listing {
                        Some(v)
                    } else {
                        None
                    }
                },
            },
    {
        match self.current.take() {
            None => false,
            Some(dir) => {
                if has_executable {
                    let ghost before = string_views(self.candidates@);
                    push_candidate(&mut self.candidates, dir.path);
                    proof {
                        crate::game::lemma_pushed_unique_len(
                            before,
                            crate::game::normalized_candidate(pending_view(dir).0),
                        );
                    }
                    false
                } else if dir.depth < STRUCTURAL_SCAN_MAX_DEPTH {
                    self.current = Some(dir);
                    true
                } else {
                    false
                }
            },
        }
    }

    /// The listed subdirectories (paths, in listing order) of the directory
    /// being visited join the pending ones, except skipped ones.
    pub fn push_subdirectories(&mut self, entries: &Vec<String>)
        requires
            old(self).wf(),
        ensures
            final(self).wf(),
            final(self).visiting() is None,
            final(self).visited() == old(self).visited(),
            final(self).found() == old(self).found(),
            final(self).pending() == match old(self).visiting() {
                Some(v) => if v.1 < STRUCTURAL_SCAN_MAX_DEPTH {
                    old(self).pending() + children(string_views(entries@), v.1)
                } else {
                    old(self).pending()
                },
                None => old(self).pending(),
            },
    {
        match self.current.take() {
            None => {},
            Some(dir) => {
                if dir.depth < STRUCTURAL_SCAN_MAX_DEPTH {
                    let ghost start = self.pending();
                    assert(depths_within_limit(pendings_view(self.pending@)));
                    let ghost d = dir.depth as nat;
                    let ghost cands = self.candidates@;
                    let ghost visited = self.visited_dirs;
                    let mut i: usize = 0;
                    while i < entries.len()
                        invariant
                            i <= entries.len(),
                            d == dir.depth,
                            dir.depth < STRUCTURAL_SCAN_MAX_DEPTH,
                            pendings_view(self.pending@) == start + children(
                                string_views(entries@).take(i as int),
                                d,
                            ),
                            depths_within_limit(pendings_view(self.pending@)),
                            self.current is None,
                            self.candidates@ == cands,
                            self.visited_dirs == visited,
                        decreases entries.len() - i,
                    {
                        let ghost x = string_views(entries@);
                        assert(x.take(i + 1).drop_last() =~= x.take(i as int));
                        assert(x.take(i + 1).last() == entries@[i as int]@);
                        if !should_skip_directory(entries[i].as_str()) {
                            let ghost before = self.pending@;
                            self.pending.push(
                                PendingDir { path: entries[i].clone(), depth: dir.depth + 1 },
                            );
                            assert(pendings_view(self.pending@) =~= pendings_view(before).push(
                                (entries@[i as int]@, d + 1),
                            ));
                        }
                        i = i + 1;
                    }
                    assert(string_views(entries@).take(entries.len() as int) =~= string_views(
                        entries@,
                    ));
                }
            },
        }
    }

    /// The candidates found, in the order they were found.
    pub fn candidates(&self) -> (r: Vec<String>)
        ensures
            string_views(r@) == self.found(),
    {
        let mut r: Vec<String> = Vec::new();
        crate::game::extend(&mut r, &self.candidates);
        assert(string_views(r@) =~= self.found());
        r
    }
}

} // verus!
