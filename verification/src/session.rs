//! The window's state and its decisions: which diff to load and when, how
//! a refreshed file list keeps the selection, how a commit is asked for,
//! and how keys and clicks move the selection.  The window performs the
//! jobs that these decisions hand out and reports what came back.
use vstd::prelude::*;
use crate::config::Config;
use crate::diff_view::{doc_of, DiffDoc};
use crate::git::{file_views, status_label, ChangedFile, FileStatus, RepoInfo};
use crate::highlight::Engine;
use crate::text::{decimal, decimal_spec, push_str, push_string, trim, trim_string};
use crate::theme::{selects, Catalog, Color, Shade, Theme};

verus! {

// ---------------------------------------------------------------------------
// Jobs and messages
// ---------------------------------------------------------------------------

/// Work for the git worker.
#[derive(Debug)]
pub enum Job {
    Refresh { repo: String, token: u64 },
    LoadDiff { repo: String, path: String, staged: bool, token: u64 },
    LoadTree { repo: String },
    Stage { repo: String, paths: Vec<String> },
    Unstage { repo: String, paths: Vec<String> },
    Discard { repo: String, paths: Vec<String> },
    SetRepo { path: String, token: u64 },
    OpenEditor { repo: String, path: String, cmd: Option<String> },
    Commit { repo: String, message: String, stage_all: bool },
    Push { repo: String },
}

/// What the git worker reports back.
#[derive(Debug)]
pub enum Msg {
    Files { files: Vec<ChangedFile>, info: RepoInfo, token: u64 },
    Diff { path: String, staged: bool, original: String, modified: String, language: String, token: u64 },
    RepoFailed { error: String },
    Error(String),
    Committed { summary: String, files: Vec<ChangedFile>, info: RepoInfo },
    Pushed { summary: String, info: RepoInfo },
}

/// The diff on screen.
#[derive(Debug)]
pub struct LoadedDiff {
    pub path: String,
    pub staged: bool,
    pub language: String,
    pub original: String,
    pub modified: String,
    pub doc: DiffDoc,
}

/// The window's state.
#[derive(Debug)]
pub struct Session {
    pub repo: String,
    pub repo_input: String,
    pub repo_invalid: bool,
    pub branch: String,
    pub files: Vec<ChangedFile>,
    pub selected: Option<usize>,
    /// The indices picked for a multi-file action, in the order they were
    /// picked, each once.  A list rather than a hash set, so that the order
    /// in which the paths go to git is fixed (a hash set's walk is not).
    pub multi: Vec<usize>,
    pub side_by_side: bool,
    pub theme_id: String,
    pub editor_command: Option<String>,
    pub loaded: Option<LoadedDiff>,
    pub loading_diff: bool,
    pub pending_discard: Option<Vec<String>>,
    pub refresh_token: u64,
    pub refresh_in_flight: bool,
    pub refresh_again: bool,
    pub status: Option<String>,
    pub status_ok: bool,
    pub commit_message: String,
    pub commit_in_flight: bool,
    pub push_in_flight: bool,
    pub ahead: u32,
    pub behind: u32,
    pub has_upstream: bool,
    pub pending_commit_all: bool,
}

// ---------------------------------------------------------------------------
// Fingerprints of file lists
// ---------------------------------------------------------------------------

/// One file as `path:label:staged`.
pub open spec fn fingerprint_line(f: (Seq<char>, FileStatus, bool)) -> Seq<char> {
    f.0 + seq![':'] + status_label(f.1)@ + seq![':'] + (if f.2 {
        "true"@
    } else {
        "false"@
    })
}

/// The fingerprint of a file list: its lines joined by newlines.
pub open spec fn fingerprint_spec(files: Seq<(Seq<char>, FileStatus, bool)>) -> Seq<char>
    decreases files.len(),
{
    if files.len() == 0 {
        Seq::empty()
    } else if files.len() == 1 {
        fingerprint_line(files[0])
    } else {
        fingerprint_spec(files.drop_last()) + seq!['\n'] + fingerprint_line(files.last())
    }
}

/// The fingerprint of a file list (see `fingerprint_spec`).
pub fn fingerprint(files: &Vec<ChangedFile>) -> (r: String)
    ensures
        r@ == fingerprint_spec(file_views(files@)),
{
    let ghost fv = file_views(files@);
    let mut out = String::new();
    for i in 0..files.len()
        invariant
            fv == file_views(files@),
            out@ == fingerprint_spec(fv.take(i as int)),
    {
        let f = &files[i];
        proof {
            assert(fv.take(i + 1).drop_last() == fv.take(i as int));
            assert(fv.take(i + 1).last() == f@);
            if i == 0 {
                assert(fv.take(1) =~= seq![f@]);
            }
        }
        if i > 0 {
            crate::text::string_push(&mut out, '\n');
        }
        push_string(&mut out, &f.path);
        crate::text::string_push(&mut out, ':');
        push_str(&mut out, f.status.label());
        crate::text::string_push(&mut out, ':');
        if f.staged {
            push_str(&mut out, "true");
        } else {
            push_str(&mut out, "false");
        }
        proof {
            assert(out@ =~= fingerprint_spec(fv.take(i + 1)));
        }
    }
    proof {
        assert(fv.take(files.len() as int) == fv);
    }
    out
}

// ---------------------------------------------------------------------------
// Finding files
// ---------------------------------------------------------------------------

/// The first index of a file with this path and staging.
pub open spec fn find_file(files: Seq<(Seq<char>, FileStatus, bool)>, path: Seq<char>, staged: bool) -> Option<nat>
    decreases files.len(),
{
    if files.len() == 0 {
        None
    } else if files[0].0 == path && files[0].2 == staged {
        Some(0)
    } else {
        match find_file(files.drop_first(), path, staged) {
            Some(i) => Some(i + 1),
            None => None,
        }
    }
}

/// The first index of a file with this path.
pub open spec fn find_path(files: Seq<(Seq<char>, FileStatus, bool)>, path: Seq<char>) -> Option<nat>
    decreases files.len(),
{
    if files.len() == 0 {
        None
    } else if files[0].0 == path {
        Some(0)
    } else {
        match find_path(files.drop_first(), path) {
            Some(i) => Some(i + 1),
            None => None,
        }
    }
}

proof fn lemma_find_file_bound(files: Seq<(Seq<char>, FileStatus, bool)>, path: Seq<char>, staged: bool)
    ensures
        find_file(files, path, staged) matches Some(i) ==> i < files.len(),
    decreases files.len(),
{
    if files.len() > 0 {
        lemma_find_file_bound(files.drop_first(), path, staged);
    }
}

proof fn lemma_find_path_bound(files: Seq<(Seq<char>, FileStatus, bool)>, path: Seq<char>)
    ensures
        find_path(files, path) matches Some(i) ==> i < files.len(),
    decreases files.len(),
{
    if files.len() > 0 {
        lemma_find_path_bound(files.drop_first(), path);
    }
}

pub open spec fn opt_nat(o: Option<usize>) -> Option<nat> {
    match o {
        Some(i) => Some(i as nat),
        None => None,
    }
}

pub open spec fn shift(o: Option<nat>, k: nat) -> Option<nat> {
    match o {
        Some(i) => Some(i + k),
        None => None,
    }
}

fn find_file_exec(files: &Vec<ChangedFile>, path: &String, staged: bool, by_path_only: bool) -> (r: Option<usize>)
    ensures
        !by_path_only ==> opt_nat(r) == find_file(file_views(files@), path@, staged),
        by_path_only ==> opt_nat(r) == find_path(file_views(files@), path@),
        r matches Some(i) ==> i < files.len(),
{
    let ghost fv = file_views(files@);
    let mut i: usize = 0;
    proof {
        assert(fv.skip(0) == fv);
    }
    while i < files.len()
        invariant
            i <= files.len(),
            fv == file_views(files@),
            !by_path_only ==> find_file(fv, path@, staged) == shift(find_file(fv.skip(i as int), path@, staged), i as nat),
            by_path_only ==> find_path(fv, path@) == shift(find_path(fv.skip(i as int), path@), i as nat),
        decreases files.len() - i,
    {
        let f = &files[i];
        proof {
            assert(fv.skip(i as int)[0] == f@);
            assert(fv.skip(i as int).drop_first() == fv.skip(i + 1));
        }
        if f.path == *path && (by_path_only || f.staged == staged) {
            return Some(i);
        }
        i += 1;
    }
    None
}

// ---------------------------------------------------------------------------
// The state machine
// ---------------------------------------------------------------------------

/// Whether the diff on screen is that of this file.
pub open spec fn shows(loaded: Option<LoadedDiff>, path: Seq<char>, staged: bool) -> bool {
    loaded matches Some(l) && l.path@ == path && l.staged == staged
}

/// Whether `j` asks to load the diff of `path` at `token`.
pub open spec fn is_diff_job(j: Job, repo: Seq<char>, path: Seq<char>, staged: bool, token: u64) -> bool {
    j matches Job::LoadDiff { repo: r, path: p, staged: s, token: t } && r@ == repo && p@ == path
        && s == staged && t == token
}

/// Whether `j` asks to refresh `repo` at `token`.
pub open spec fn is_refresh_job(j: Job, repo: Seq<char>, token: u64) -> bool {
    j matches Job::Refresh { repo: r, token: t } && r@ == repo && t == token
}

/// Fields that only repository information and commits change.
pub open spec fn same_repo_fields(a: &Session, b: &Session) -> bool {
    a.repo == b.repo && a.repo_input == b.repo_input && a.repo_invalid == b.repo_invalid
        && a.branch == b.branch && a.ahead == b.ahead && a.behind == b.behind && a.has_upstream
        == b.has_upstream
}

/// Fields that the commit box and the status line use.
pub open spec fn same_commit_fields(a: &Session, b: &Session) -> bool {
    a.status == b.status && a.status_ok == b.status_ok && a.commit_message == b.commit_message
        && a.commit_in_flight == b.commit_in_flight && a.push_in_flight == b.push_in_flight
        && a.pending_commit_all == b.pending_commit_all
}

/// Settings and pending dialogs.
pub open spec fn same_settings(a: &Session, b: &Session) -> bool {
    a.side_by_side == b.side_by_side && a.theme_id == b.theme_id && a.editor_command
        == b.editor_command && a.pending_discard == b.pending_discard
}

/// What asking for a refresh does: where one is under way, nothing is sent
/// and another is noted for later; else a refresh is sent under the next
/// token.
pub open spec fn refresh_asked(s0: Session, s1: Session, job: Option<Job>) -> bool {
    &&& s0.refresh_in_flight ==> job is None && s1.refresh_again && s1.refresh_token
        == s0.refresh_token && s1.refresh_in_flight
    &&& !s0.refresh_in_flight ==> (job matches Some(j) && is_refresh_job(
        j,
        s0.repo@,
        (s0.refresh_token + 1) as u64,
    )) && s1.refresh_in_flight && s1.refresh_token == s0.refresh_token + 1 && s1.refresh_again
        == s0.refresh_again
}

/// What selecting file `index` (one in the list) does: the file is
/// selected; where its diff is on screen nothing is asked for, otherwise its
/// diff is asked for with the next token and the window waits for it.
pub open spec fn selected_file(s0: Session, s1: Session, index: usize, job: Option<Job>) -> bool {
    let f = file_views(s0.files@)[index as int];
    &&& s1.selected == Some(index)
    &&& shows(s0.loaded, f.0, f.2) ==> job is None && s1.refresh_token == s0.refresh_token
        && s1.loading_diff == s0.loading_diff
    &&& !shows(s0.loaded, f.0, f.2) ==> (job matches Some(j) && is_diff_job(
        j,
        s0.repo@,
        f.0,
        f.2,
        (s0.refresh_token + 1) as u64,
    )) && s1.refresh_token == s0.refresh_token + 1 && s1.loading_diff
}

/// Where no file is selected: nothing asked for, the selection and the
/// diff's state as they were.
pub open spec fn nothing_selected(s0: Session, s1: Session, job: Option<Job>) -> bool {
    &&& job is None
    &&& s1.selected == s0.selected
    &&& s1.refresh_token == s0.refresh_token
    &&& s1.loading_diff == s0.loading_diff
}

impl Session {
    /// The state of a window opened on a repository, with its settings and
    /// its summary: nothing loaded yet, no selection.
    pub fn new(repo: String, info: &RepoInfo, cfg: &Config) -> (s: Session)
        ensures
            s.repo == repo,
            s.repo_input@ == repo@,
            !s.repo_invalid,
            s.branch == info.branch,
            s.files@.len() == 0,
            s.selected is None,
            s.multi@.len() == 0,
            s.side_by_side == match cfg@.2 {
                Some(b) => b,
                None => true,
            },
            s.theme_id@ == match cfg@.0 {
                Some(t) => if t.len() > 0 {
                    t
                } else {
                    "default"@
                },
                None => "default"@,
            },
            s.editor_command == cfg.editor_command,
            s.loaded is None,
            !s.loading_diff,
            s.pending_discard is None,
            s.refresh_token == 1,
            !s.refresh_in_flight,
            !s.refresh_again,
            s.status is None,
            !s.status_ok,
            s.commit_message@.len() == 0,
            !s.commit_in_flight,
            !s.push_in_flight,
            s.ahead == info.ahead,
            s.behind == info.behind,
            s.has_upstream == info.has_upstream,
            !s.pending_commit_all,
    {
        let repo_input = repo.clone();
        Session {
            repo,
            repo_input,
            repo_invalid: false,
            branch: info.branch.clone(),
            files: Vec::new(),
            selected: None,
            multi: Vec::new(),
            side_by_side: crate::config::start_side_by_side(cfg),
            theme_id: crate::config::start_theme(cfg),
            editor_command: match &cfg.editor_command {
                Some(c) => Some(c.clone()),
                None => None,
            },
            loaded: None,
            loading_diff: false,
            pending_discard: None,
            refresh_token: 1,
            refresh_in_flight: false,
            refresh_again: false,
            status: None,
            status_ok: false,
            commit_message: String::new(),
            commit_in_flight: false,
            push_in_flight: false,
            ahead: info.ahead,
            behind: info.behind,
            has_upstream: info.has_upstream,
            pending_commit_all: false,
        }
    }

    /// A window opening on a repository: the session of `new`, the theme
    /// that its theme id selects in the catalogue, and the first jobs, a
    /// refresh of the file list (the first token, 2) and then the load of
    /// the file tree.
    pub fn start<D: Fn(Color) -> bool, S: Fn(Color, Shade) -> Color>(
        repo: String,
        info: &RepoInfo,
        cfg: &Config,
        catalog: &Catalog,
        dark: D,
        shade: S,
    ) -> (r: (Session, Theme, Vec<Job>))
        requires
            forall|c: Color| call_requires(dark, (c,)),
            forall|c: Color, k: Shade| call_requires(shade, (c, k)),
        ensures
            ({
                let s = r.0;
                &&& s.repo == repo
                &&& s.repo_input@ == repo@
                &&& !s.repo_invalid
                &&& s.branch == info.branch
                &&& s.files@.len() == 0
                &&& s.selected is None
                &&& s.multi@.len() == 0
                &&& s.side_by_side == match cfg@.2 {
                    Some(b) => b,
                    None => true,
                }
                &&& s.theme_id@ == match cfg@.0 {
                    Some(t) => if t.len() > 0 {
                        t
                    } else {
                        "default"@
                    },
                    None => "default"@,
                }
                &&& s.editor_command == cfg.editor_command
                &&& s.loaded is None
                &&& !s.loading_diff
                &&& s.pending_discard is None
                &&& s.refresh_token == 2
                &&& s.refresh_in_flight
                &&& !s.refresh_again
                &&& s.status is None
                &&& !s.status_ok
                &&& s.commit_message@.len() == 0
                &&& !s.commit_in_flight
                &&& !s.push_in_flight
                &&& s.ahead == info.ahead
                &&& s.behind == info.behind
                &&& s.has_upstream == info.has_upstream
                &&& !s.pending_commit_all
            }),
            selects(r.1, catalog@, r.0.theme_id@, dark, shade),
            r.2@.len() == 2,
            is_refresh_job(r.2@[0], repo@, 2),
            r.2@[1] matches Job::LoadTree { repo: tree_repo } && tree_repo@ == repo@,
    {
        let mut s = Session::new(repo, info, cfg);
        let theme = catalog.resolve(s.theme_id.as_str(), dark, shade);
        let mut jobs: Vec<Job> = Vec::new();
        match s.request_refresh() {
            Some(job) => jobs.push(job),
            None => {},
        }
        jobs.push(Job::LoadTree { repo: s.repo.clone() });
        (s, theme, jobs)
    }

    /// Asks for a refresh of the file list, unless one is under way, in
    /// which case another is asked for once it is done.
    pub fn request_refresh(&mut self) -> (job: Option<Job>)
        requires
            old(self).refresh_token < u64::MAX,
        ensures
            refresh_asked(*old(self), *final(self), job),
            final(self).files == old(self).files,
            final(self).selected == old(self).selected,
            final(self).multi == old(self).multi,
            final(self).loaded == old(self).loaded,
            final(self).loading_diff == old(self).loading_diff,
            same_repo_fields(&*old(self), &*final(self)),
            same_commit_fields(&*old(self), &*final(self)),
            same_settings(&*old(self), &*final(self)),
    {
        if self.refresh_in_flight {
            self.refresh_again = true;
            return None;
        }
        self.refresh_in_flight = true;
        self.refresh_token = self.refresh_token + 1;
        Some(Job::Refresh { repo: self.repo.clone(), token: self.refresh_token })
    }

    /// Asks for the diff of a file.
    pub fn request_diff(&mut self, path: String, staged: bool) -> (job: Job)
        requires
            old(self).refresh_token < u64::MAX,
        ensures
            is_diff_job(job, old(self).repo@, path@, staged, (old(self).refresh_token + 1) as u64),
            final(self).refresh_token == old(self).refresh_token + 1,
            final(self).loading_diff,
            final(self).refresh_in_flight == old(self).refresh_in_flight,
            final(self).refresh_again == old(self).refresh_again,
            final(self).files == old(self).files,
            final(self).selected == old(self).selected,
            final(self).multi == old(self).multi,
            final(self).loaded == old(self).loaded,
            same_repo_fields(&*old(self), &*final(self)),
            same_commit_fields(&*old(self), &*final(self)),
            same_settings(&*old(self), &*final(self)),
    {
        self.loading_diff = true;
        self.refresh_token = self.refresh_token + 1;
        Job::LoadDiff { repo: self.repo.clone(), path, staged, token: self.refresh_token }
    }

    /// Selects file `index`, asking for its diff unless it is on screen;
    /// an index past the list changes nothing.
    pub fn select_index(&mut self, index: usize) -> (job: Option<Job>)
        requires
            old(self).refresh_token < u64::MAX,
        ensures
            index >= old(self).files.len() ==> job is None && *final(self) == *old(self),
            index < old(self).files.len() ==> selected_file(*old(self), *final(self), index, job),
            final(self).refresh_in_flight == old(self).refresh_in_flight,
            final(self).refresh_again == old(self).refresh_again,
            final(self).files == old(self).files,
            final(self).multi == old(self).multi,
            final(self).loaded == old(self).loaded,
            same_repo_fields(&*old(self), &*final(self)),
            same_commit_fields(&*old(self), &*final(self)),
            same_settings(&*old(self), &*final(self)),
    {
        if index >= self.files.len() {
            return None;
        }
        self.selected = Some(index);
        let path = self.files[index].path.clone();
        let staged = self.files[index].staged;
        proof {
            assert(file_views(self.files@)[index as int] == self.files@[index as int]@);
        }
        let same = match &self.loaded {
            Some(l) => l.path == path && l.staged == staged,
            None => false,
        };
        if same {
            return None;
        }
        Some(self.request_diff(path, staged))
    }

    /// Takes in a repository summary; whether the repository changed (the
    /// window then watches the new one and drops its file tree).
    pub fn apply_repo_info(&mut self, info: &RepoInfo) -> (moved: bool)
        ensures
            moved == (old(self).repo@ != info.repo_path@),
            final(self).repo@ == info.repo_path@,
            final(self).repo_input@ == info.repo_path@,
            !final(self).repo_invalid,
            final(self).branch == info.branch,
            final(self).ahead == info.ahead,
            final(self).behind == info.behind,
            final(self).has_upstream == info.has_upstream,
            final(self).files == old(self).files,
            final(self).selected == old(self).selected,
            final(self).multi == old(self).multi,
            final(self).loaded == old(self).loaded,
            final(self).loading_diff == old(self).loading_diff,
            final(self).refresh_token == old(self).refresh_token,
            final(self).refresh_in_flight == old(self).refresh_in_flight,
            final(self).refresh_again == old(self).refresh_again,
            same_commit_fields(&*old(self), &*final(self)),
            same_settings(&*old(self), &*final(self)),
    {
        let moved = !(self.repo == info.repo_path);
        self.repo = info.repo_path.clone();
        self.repo_input = info.repo_path.clone();
        self.repo_invalid = false;
        self.branch = info.branch.clone();
        self.ahead = info.ahead;
        self.behind = info.behind;
        self.has_upstream = info.has_upstream;
        moved
    }

    /// Shows a status message.
    pub fn set_status(&mut self, msg: String, ok: bool)
        ensures
            final(self).status == Some(msg),
            final(self).status_ok == ok,
            final(self).commit_message == old(self).commit_message,
            final(self).commit_in_flight == old(self).commit_in_flight,
            final(self).push_in_flight == old(self).push_in_flight,
            final(self).pending_commit_all == old(self).pending_commit_all,
            final(self).files == old(self).files,
            final(self).selected == old(self).selected,
            final(self).multi == old(self).multi,
            final(self).loaded == old(self).loaded,
            final(self).loading_diff == old(self).loading_diff,
            final(self).refresh_token == old(self).refresh_token,
            final(self).refresh_in_flight == old(self).refresh_in_flight,
            final(self).refresh_again == old(self).refresh_again,
            same_repo_fields(&*old(self), &*final(self)),
            same_settings(&*old(self), &*final(self)),
    {
        self.status = Some(msg);
        self.status_ok = ok;
    }
}

// ---------------------------------------------------------------------------
// Messages from the worker
// ---------------------------------------------------------------------------

/// The file selected before a refresh, as path and staging.
pub open spec fn prev_selected(files: Seq<(Seq<char>, FileStatus, bool)>, sel: Option<usize>) -> Option<
    (Seq<char>, bool),
> {
    match sel {
        Some(i) => if i < files.len() {
            Some((files[i as int].0, files[i as int].2))
        } else {
            None
        },
        None => None,
    }
}

pub open spec fn prev_view(p: Option<(String, bool)>) -> Option<(Seq<char>, bool)> {
    match p {
        Some(x) => Some((x.0@, x.1)),
        None => None,
    }
}

/// Where the previous selection is in the new list: the same file, else a
/// file with the same path.
pub open spec fn restored(prev: Option<(Seq<char>, bool)>, files: Seq<(Seq<char>, FileStatus, bool)>) -> Option<nat> {
    match prev {
        Some(p) => match find_file(files, p.0, p.1) {
            Some(i) => Some(i),
            None => find_path(files, p.0),
        },
        None => None,
    }
}

pub open spec fn or_zero(o: Option<nat>) -> nat {
    match o {
        Some(i) => i,
        None => 0,
    }
}

/// Whether two file lists look the same.
pub open spec fn same_files(a: Seq<(Seq<char>, FileStatus, bool)>, b: Seq<(Seq<char>, FileStatus, bool)>) -> bool {
    fingerprint_spec(a) == fingerprint_spec(b)
}

/// The selection after a refresh: kept where the list looks the same;
/// none for an empty list; else the previous file's place (the first file
/// where it is gone).
pub open spec fn refreshed_selection(
    old_files: Seq<(Seq<char>, FileStatus, bool)>,
    sel: Option<usize>,
    new_files: Seq<(Seq<char>, FileStatus, bool)>,
) -> Option<usize> {
    if same_files(old_files, new_files) {
        sel
    } else if new_files.len() == 0 {
        None
    } else {
        Some(or_zero(restored(prev_selected(old_files, sel), new_files)) as usize)
    }
}

/// The file whose diff a refresh asks for: the selected one again where
/// the list looks the same; where it changed, the newly selected one unless
/// it is on screen.
pub open spec fn refreshed_diff(
    old_files: Seq<(Seq<char>, FileStatus, bool)>,
    sel: Option<usize>,
    loaded: Option<LoadedDiff>,
    new_files: Seq<(Seq<char>, FileStatus, bool)>,
) -> Option<usize> {
    if same_files(old_files, new_files) {
        match sel {
            Some(i) => if i < new_files.len() {
                Some(i)
            } else {
                None
            },
            None => None,
        }
    } else if new_files.len() == 0 {
        None
    } else {
        let k = or_zero(restored(prev_selected(old_files, sel), new_files));
        if shows(loaded, new_files[k as int].0, new_files[k as int].2) {
            None
        } else {
            Some(k as usize)
        }
    }
}

/// The summary applied to the repository fields.
pub open spec fn info_applied(s: Session, info: RepoInfo) -> bool {
    &&& s.repo@ == info.repo_path@
    &&& s.repo_input@ == info.repo_path@
    &&& !s.repo_invalid
    &&& s.branch == info.branch
    &&& s.ahead == info.ahead
    &&& s.behind == info.behind
    &&& s.has_upstream == info.has_upstream
}

/// What a refreshed file list does: the summary is applied and the list
/// replaced; the selection moves as `refreshed_selection` says, the picked
/// files are dropped where the list changed, the screen is cleared where
/// it became empty; a diff is asked for as `refreshed_diff` says; and a
/// refresh asked for meanwhile is sent after it.
pub open spec fn files_effect(
    s0: Session,
    s1: Session,
    files: Vec<ChangedFile>,
    info: RepoInfo,
    jobs: Seq<Job>,
    moved: bool,
) -> bool {
    let f0 = file_views(s0.files@);
    let f1 = file_views(files@);
    let target = refreshed_diff(f0, s0.selected, s0.loaded, f1);
    let t1: u64 = if target is Some {
        (s0.refresh_token + 1) as u64
    } else {
        s0.refresh_token
    };
    let nd: int = if target is Some {
        1
    } else {
        0
    };
    &&& moved == (s0.repo@ != info.repo_path@)
    &&& info_applied(s1, info)
    &&& s1.files == files
    &&& s1.selected == refreshed_selection(f0, s0.selected, f1)
    &&& s1.multi@ == (if same_files(f0, f1) {
        s0.multi@
    } else {
        Seq::empty()
    })
    &&& s1.loaded == (if !same_files(f0, f1) && f1.len() == 0 {
        None
    } else {
        s0.loaded
    })
    &&& s1.loading_diff == (target is Some || s0.loading_diff)
    &&& (target matches Some(k) ==> is_diff_job(jobs[0], info.repo_path@, f1[k as int].0, f1[k as int].2, t1))
    &&& jobs.len() == nd + (if s0.refresh_again {
        1int
    } else {
        0int
    })
    &&& s0.refresh_again ==> is_refresh_job(jobs[nd], info.repo_path@, (t1 + 1) as u64) && s1.refresh_in_flight
        && s1.refresh_token == t1 + 1
    &&& !s0.refresh_again ==> !s1.refresh_in_flight && s1.refresh_token == t1
    &&& !s1.refresh_again
    &&& same_commit_fields(&s0, &s1)
    &&& same_settings(&s0, &s1)
}

/// What a loaded diff does: the loading mark goes; unless the same diff
/// is on screen, the new one is shown, its document built with the theme.
pub open spec fn diff_effect(
    s0: Session,
    s1: Session,
    path: String,
    staged: bool,
    original: String,
    modified: String,
    language: String,
    theme: Theme,
) -> bool {
    let same = s0.loaded matches Some(l) && l.path@ == path@ && l.staged == staged && l.original@
        == original@ && l.modified@ == modified@;
    &&& !s1.loading_diff
    &&& same ==> s1.loaded == s0.loaded
    &&& !same ==> (s1.loaded matches Some(l) && l.path == path && l.staged == staged && l.original
        == original && l.modified == modified && l.language == language && doc_of(
        l.doc,
        path@,
        original@,
        modified@,
        theme.tokens,
    ))
    &&& s1.files == s0.files
    &&& s1.selected == s0.selected
    &&& s1.multi == s0.multi
    &&& s1.refresh_token == s0.refresh_token
    &&& s1.refresh_in_flight == s0.refresh_in_flight
    &&& s1.refresh_again == s0.refresh_again
    &&& same_repo_fields(&s0, &s1)
    &&& same_commit_fields(&s0, &s1)
    &&& same_settings(&s0, &s1)
}

/// What a commit that went through does: the commit box empties, the
/// summary and list are taken in, the selection and screen are cleared,
/// the summary is shown as a success, and the first file (if any) is
/// selected and its diff asked for.
pub open spec fn committed_effect(
    s0: Session,
    s1: Session,
    summary: String,
    files: Vec<ChangedFile>,
    info: RepoInfo,
    jobs: Seq<Job>,
    moved: bool,
) -> bool {
    let f1 = file_views(files@);
    &&& moved == (s0.repo@ != info.repo_path@)
    &&& info_applied(s1, info)
    &&& !s1.commit_in_flight
    &&& s1.commit_message@.len() == 0
    &&& s1.files == files
    &&& s1.loaded is None
    &&& s1.multi@.len() == 0
    &&& s1.status == Some(summary)
    &&& s1.status_ok
    &&& s1.push_in_flight == s0.push_in_flight
    &&& s1.pending_commit_all == s0.pending_commit_all
    &&& f1.len() == 0 ==> s1.selected is None && jobs.len() == 0 && s1.refresh_token == s0.refresh_token
        && s1.loading_diff == s0.loading_diff
    &&& f1.len() > 0 ==> s1.selected == Some(0usize) && jobs.len() == 1 && is_diff_job(
        jobs[0],
        info.repo_path@,
        f1[0].0,
        f1[0].2,
        (s0.refresh_token + 1) as u64,
    ) && s1.refresh_token == s0.refresh_token + 1 && s1.loading_diff
    &&& s1.refresh_in_flight == s0.refresh_in_flight
    &&& s1.refresh_again == s0.refresh_again
    &&& same_settings(&s0, &s1)
}

/// The outcome of a message: jobs to send, and whether the repository
/// changed.
pub struct Outcome {
    pub jobs: Vec<Job>,
    pub moved: bool,
}

impl Session {
    /// Drops the in-flight mark, applies the summary and replaces the list;
    /// gives whether the repository changed, whether the list looks the
    /// same, and the file that was selected.
    fn replace_files(&mut self, files: Vec<ChangedFile>, info: &RepoInfo) -> (r: (bool, bool, Option<(String, bool)>))
        ensures
            r.0 == (old(self).repo@ != info.repo_path@),
            r.1 == same_files(file_views(old(self).files@), file_views(files@)),
            prev_view(r.2) == prev_selected(file_views(old(self).files@), old(self).selected),
            info_applied(*final(self), *info),
            final(self).files == files,
            !final(self).refresh_in_flight,
            final(self).refresh_token == old(self).refresh_token,
            final(self).refresh_again == old(self).refresh_again,
            final(self).selected == old(self).selected,
            final(self).multi == old(self).multi,
            final(self).loaded == old(self).loaded,
            final(self).loading_diff == old(self).loading_diff,
            same_commit_fields(&*old(self), &*final(self)),
            same_settings(&*old(self), &*final(self)),
    {
        self.refresh_in_flight = false;
        let moved = self.apply_repo_info(info);
        let prev: Option<(String, bool)> = match self.selected {
            Some(i) => if i < self.files.len() {
                Some((self.files[i].path.clone(), self.files[i].staged))
            } else {
                None
            },
            None => None,
        };
        proof {
            match self.selected {
                Some(i) => if i < self.files.len() {
                    assert(file_views(self.files@)[i as int] == self.files@[i as int]@);
                },
                None => {},
            }
        }
        let prev_fp = fingerprint(&self.files);
        let new_fp = fingerprint(&files);
        self.files = files;
        (moved, prev_fp == new_fp, prev)
    }

    /// Moves the selection after the list was replaced (see
    /// `refreshed_selection` and `refreshed_diff`).
    #[verifier::spinoff_prover]
    #[verifier::rlimit(40)]
    fn select_after_refresh(
        &mut self,
        same: bool,
        prev: Option<(String, bool)>,
        Ghost(f0): Ghost<Seq<(Seq<char>, FileStatus, bool)>>,
    ) -> (job: Option<Job>)
        requires
            old(self).refresh_token < u64::MAX,
            same == same_files(f0, file_views(old(self).files@)),
            prev_view(prev) == prev_selected(f0, old(self).selected),
        ensures
            ({
                let f1 = file_views(old(self).files@);
                let target = refreshed_diff(f0, old(self).selected, old(self).loaded, f1);
                &&& final(self).selected == refreshed_selection(f0, old(self).selected, f1)
                &&& final(self).multi@ == (if same {
                    old(self).multi@
                } else {
                    Seq::empty()
                })
                &&& final(self).loaded == (if !same && f1.len() == 0 {
                    None
                } else {
                    old(self).loaded
                })
                &&& target matches Some(k) ==> (job matches Some(j) && is_diff_job(
                    j,
                    old(self).repo@,
                    f1[k as int].0,
                    f1[k as int].2,
                    (old(self).refresh_token + 1) as u64,
                )) && final(self).refresh_token == old(self).refresh_token + 1
                    && final(self).loading_diff
                &&& target is None ==> job is None && final(self).refresh_token
                    == old(self).refresh_token && final(self).loading_diff == old(self).loading_diff
            }),
            final(self).files == old(self).files,
            final(self).refresh_in_flight == old(self).refresh_in_flight,
            final(self).refresh_again == old(self).refresh_again,
            same_repo_fields(&*old(self), &*final(self)),
            same_commit_fields(&*old(self), &*final(self)),
            same_settings(&*old(self), &*final(self)),
    {
        let ghost f1 = file_views(self.files@);
        if same {
            match self.selected {
                Some(sel) => {
                    if sel < self.files.len() {
                        let path = self.files[sel].path.clone();
                        let staged = self.files[sel].staged;
                        proof {
                            assert(f1[sel as int] == self.files@[sel as int]@);
                        }
                        return Some(self.request_diff(path, staged));
                    }
                    None
                },
                None => None,
            }
        } else {
            self.multi = Vec::new();
            let restored_at = match &prev {
                Some((p, s)) => match find_file_exec(&self.files, p, *s, false) {
                    Some(i) => Some(i),
                    None => find_file_exec(&self.files, p, *s, true),
                },
                None => None,
            };
            assert(opt_nat(restored_at) == restored(prev_selected(f0, old(self).selected), f1));
            if self.files.len() == 0 {
                self.selected = None;
                self.loaded = None;
                None
            } else {
                let k = match restored_at {
                    Some(i) => i,
                    None => 0,
                };
                proof {
                    assert(f1[k as int] == self.files@[k as int]@);
                }
                self.select_index(k)
            }
        }
    }

    /// Takes in a refreshed file list (see `files_effect`).
    pub fn handle_files(&mut self, files: Vec<ChangedFile>, info: RepoInfo) -> (r: Outcome)
        requires
            old(self).refresh_token < u64::MAX - 1,
        ensures
            files_effect(*old(self), *final(self), files, info, r.jobs@, r.moved),
    {
        let ghost f0 = file_views(self.files@);
        let (moved, same, prev) = self.replace_files(files, &info);
        let mut jobs: Vec<Job> = Vec::new();
        match self.select_after_refresh(same, prev, Ghost(f0)) {
            Some(j) => jobs.push(j),
            None => {},
        }
        if self.refresh_again {
            self.refresh_again = false;
            match self.request_refresh() {
                Some(j) => jobs.push(j),
                None => {},
            }
        }
        Outcome { jobs, moved }
    }

    /// Takes in a loaded diff (see `diff_effect`).
    pub fn handle_diff(
        &mut self,
        path: String,
        staged: bool,
        original: String,
        modified: String,
        language: String,
        theme: &Theme,
        engine: &Engine,
    )
        ensures
            diff_effect(*old(self), *final(self), path, staged, original, modified, language, *theme),
    {
        self.loading_diff = false;
        let same = match &self.loaded {
            Some(l) => l.path == path && l.staged == staged && l.original == original && l.modified
                == modified,
            None => false,
        };
        if same {
            return ;
        }
        let doc = DiffDoc::build(original.as_str(), modified.as_str(), path.as_str(), theme, engine);
        self.loaded = Some(LoadedDiff { path, staged, language, original, modified, doc });
    }

    /// Takes in a commit that went through (see `committed_effect`).
    pub fn handle_committed(&mut self, summary: String, files: Vec<ChangedFile>, info: RepoInfo) -> (r: Outcome)
        requires
            old(self).refresh_token < u64::MAX,
        ensures
            committed_effect(*old(self), *final(self), summary, files, info, r.jobs@, r.moved),
    {
        self.commit_in_flight = false;
        self.commit_message = String::new();
        let moved = self.apply_repo_info(&info);
        self.files = files;
        self.selected = None;
        self.loaded = None;
        self.multi = Vec::new();
        self.set_status(summary, true);
        let mut jobs: Vec<Job> = Vec::new();
        if self.files.len() > 0 {
            proof {
                assert(file_views(self.files@)[0] == self.files@[0]@);
            }
            match self.select_index(0) {
                Some(j) => jobs.push(j),
                None => {},
            }
        }
        Outcome { jobs, moved }
    }

    /// Takes in a push that went through: the summary is applied and shown
    /// as a success.
    pub fn handle_pushed(&mut self, summary: String, info: RepoInfo) -> (moved: bool)
        ensures
            moved == (old(self).repo@ != info.repo_path@),
            info_applied(*final(self), info),
            !final(self).push_in_flight,
            final(self).status == Some(summary),
            final(self).status_ok,
            final(self).commit_in_flight == old(self).commit_in_flight,
            final(self).commit_message == old(self).commit_message,
            final(self).pending_commit_all == old(self).pending_commit_all,
            final(self).files == old(self).files,
            final(self).selected == old(self).selected,
            final(self).multi == old(self).multi,
            final(self).loaded == old(self).loaded,
            final(self).loading_diff == old(self).loading_diff,
            final(self).refresh_token == old(self).refresh_token,
            final(self).refresh_in_flight == old(self).refresh_in_flight,
            final(self).refresh_again == old(self).refresh_again,
            same_settings(&*old(self), &*final(self)),
    {
        self.push_in_flight = false;
        let moved = self.apply_repo_info(&info);
        self.set_status(summary, true);
        moved
    }

    /// Takes in a failure: nothing is in flight any more, and the error is
    /// shown.
    pub fn handle_error(&mut self, e: String)
        ensures
            !final(self).commit_in_flight,
            !final(self).push_in_flight,
            final(self).status == Some(e),
            !final(self).status_ok,
            final(self).commit_message == old(self).commit_message,
            final(self).pending_commit_all == old(self).pending_commit_all,
            final(self).files == old(self).files,
            final(self).selected == old(self).selected,
            final(self).multi == old(self).multi,
            final(self).loaded == old(self).loaded,
            final(self).loading_diff == old(self).loading_diff,
            final(self).refresh_token == old(self).refresh_token,
            final(self).refresh_in_flight == old(self).refresh_in_flight,
            final(self).refresh_again == old(self).refresh_again,
            same_repo_fields(&*old(self), &*final(self)),
            same_settings(&*old(self), &*final(self)),
    {
        self.commit_in_flight = false;
        self.push_in_flight = false;
        self.set_status(e, false);
    }

    /// Takes in a repository that could not be opened: the path field is
    /// marked and the error shown.
    pub fn handle_repo_failed(&mut self, error: String)
        ensures
            final(self).repo_invalid,
            final(self).status == Some(error),
            !final(self).status_ok,
            final(self).repo == old(self).repo,
            final(self).repo_input == old(self).repo_input,
            final(self).branch == old(self).branch,
            final(self).commit_in_flight == old(self).commit_in_flight,
            final(self).push_in_flight == old(self).push_in_flight,
            final(self).commit_message == old(self).commit_message,
            final(self).files == old(self).files,
            final(self).selected == old(self).selected,
            final(self).loaded == old(self).loaded,
            final(self).refresh_token == old(self).refresh_token,
            final(self).refresh_in_flight == old(self).refresh_in_flight,
            same_settings(&*old(self), &*final(self)),
    {
        self.repo_invalid = true;
        self.set_status(error, false);
    }

    /// Takes in a message from the worker (see the `handle_` functions).
    pub fn handle_msg(&mut self, msg: Msg, theme: &Theme, engine: &Engine) -> (r: Outcome)
        requires
            old(self).refresh_token < u64::MAX - 1,
        ensures
            match msg {
                Msg::Files { files, info, token: _ } => files_effect(
                    *old(self),
                    *final(self),
                    files,
                    info,
                    r.jobs@,
                    r.moved,
                ),
                Msg::Diff { path, staged, original, modified, language, token: _ } => diff_effect(
                    *old(self),
                    *final(self),
                    path,
                    staged,
                    original,
                    modified,
                    language,
                    *theme,
                ) && r.jobs@.len() == 0 && !r.moved,
                Msg::RepoFailed { error } => final(self).repo_invalid && final(self).status == Some(
                    error,
                ) && !final(self).status_ok && r.jobs@.len() == 0 && !r.moved,
                Msg::Error(e) => !final(self).commit_in_flight && !final(self).push_in_flight
                    && final(self).status == Some(e) && !final(self).status_ok && r.jobs@.len() == 0
                    && !r.moved,
                Msg::Committed { summary, files, info } => committed_effect(
                    *old(self),
                    *final(self),
                    summary,
                    files,
                    info,
                    r.jobs@,
                    r.moved,
                ),
                Msg::Pushed { summary, info } => info_applied(*final(self), info)
                    && !final(self).push_in_flight && final(self).status == Some(summary)
                    && final(self).status_ok && r.jobs@.len() == 0 && r.moved == (old(self).repo@
                    != info.repo_path@),
            },
    {
        match msg {
            Msg::Files { files, info, token: _ } => self.handle_files(files, info),
            Msg::Diff { path, staged, original, modified, language, token: _ } => {
                self.handle_diff(path, staged, original, modified, language, theme, engine);
                Outcome { jobs: Vec::new(), moved: false }
            },
            Msg::RepoFailed { error } => {
                self.handle_repo_failed(error);
                Outcome { jobs: Vec::new(), moved: false }
            },
            Msg::Error(e) => {
                self.handle_error(e);
                Outcome { jobs: Vec::new(), moved: false }
            },
            Msg::Committed { summary, files, info } => self.handle_committed(summary, files, info),
            Msg::Pushed { summary, info } => {
                let moved = self.handle_pushed(summary, info);
                Outcome { jobs: Vec::new(), moved }
            },
        }
    }


    /// Asks for a commit of the message in the box: a blank message is
    /// refused with a status, a commit under way is not doubled; without
    /// staged files (and unless everything is to be staged) the window asks
    /// whether to stage everything, or says there is nothing to commit.
    pub fn request_commit(&mut self, stage_all: bool) -> (job: Option<Job>)
        ensures
            ({
                let msg = trim(old(self).commit_message@);
                let has_staged = exists|i: int|
                    0 <= i < old(self).files.len() && (#[trigger] old(self).files@[i]).staged;
                if msg.len() == 0 {
                    &&& job is None
                    &&& final(self).status matches Some(st) && st@ == "Commit message is empty"@
                    &&& !final(self).status_ok
                    &&& final(self).commit_in_flight == old(self).commit_in_flight
                    &&& final(self).pending_commit_all == old(self).pending_commit_all
                } else if old(self).commit_in_flight {
                    job is None && *final(self) == *old(self)
                } else if !stage_all && !has_staged {
                    &&& job is None
                    &&& !final(self).commit_in_flight
                    &&& old(self).files.len() == 0 ==> (final(self).status matches Some(st) && st@
                        == "Nothing to commit"@) && !final(self).status_ok
                        && final(self).pending_commit_all == old(self).pending_commit_all
                    &&& old(self).files.len() > 0 ==> final(self).pending_commit_all && final(self).status == old(self).status && final(self).status_ok == old(self).status_ok
                } else {
                    &&& job matches Some(Job::Commit { repo, message, stage_all: sa }) && repo
                        == old(self).repo && message@ == msg && sa == stage_all
                    &&& final(self).commit_in_flight
                    &&& final(self).status == old(self).status
                    &&& final(self).status_ok == old(self).status_ok
                    &&& final(self).pending_commit_all == old(self).pending_commit_all
                }
            }),
            final(self).commit_message == old(self).commit_message,
            final(self).push_in_flight == old(self).push_in_flight,
            final(self).files == old(self).files,
            final(self).selected == old(self).selected,
            final(self).multi == old(self).multi,
            final(self).loaded == old(self).loaded,
            final(self).refresh_token == old(self).refresh_token,
            same_repo_fields(&*old(self), &*final(self)),
            same_settings(&*old(self), &*final(self)),
    {
        let message = trim_string(self.commit_message.as_str());
        if message.as_str().is_empty() {
            self.set_status("Commit message is empty".to_owned(), false);
            return None;
        }
        if self.commit_in_flight {
            return None;
        }
        let mut has_staged = false;
        let mut i: usize = 0;
        while i < self.files.len()
            invariant
                i <= self.files.len(),
                has_staged == exists|j: int| 0 <= j < i && (#[trigger] self.files@[j]).staged,
            decreases self.files.len() - i,
        {
            if self.files[i].staged {
                has_staged = true;
            }
            i += 1;
        }
        if !stage_all && !has_staged {
            if self.files.len() == 0 {
                self.set_status("Nothing to commit".to_owned(), false);
                return None;
            }
            self.pending_commit_all = true;
            return None;
        }
        self.commit_in_flight = true;
        Some(Job::Commit { repo: self.repo.clone(), message, stage_all })
    }

    /// Asks for a push, unless one is under way.
    pub fn request_push(&mut self) -> (job: Option<Job>)
        ensures
            old(self).push_in_flight ==> job is None && *final(self) == *old(self),
            !old(self).push_in_flight ==> (job matches Some(Job::Push { repo }) && repo == old(self).repo)
                && final(self).push_in_flight,
            final(self).commit_in_flight == old(self).commit_in_flight,
            final(self).files == old(self).files,
            final(self).selected == old(self).selected,
            final(self).loaded == old(self).loaded,
            final(self).refresh_token == old(self).refresh_token,
            same_repo_fields(&*old(self), &*final(self)),
            same_settings(&*old(self), &*final(self)),
    {
        if self.push_in_flight {
            return None;
        }
        self.push_in_flight = true;
        Some(Job::Push { repo: self.repo.clone() })
    }

    /// Asks for the repository at `path`.
    pub fn change_repo(&mut self, path: String) -> (job: Job)
        requires
            old(self).refresh_token < u64::MAX,
        ensures
            job matches Job::SetRepo { path: p, token } && p == path && token == old(self).refresh_token + 1,
            final(self).refresh_token == old(self).refresh_token + 1,
            final(self).files == old(self).files,
            final(self).selected == old(self).selected,
            final(self).loaded == old(self).loaded,
            same_repo_fields(&*old(self), &*final(self)),
            same_commit_fields(&*old(self), &*final(self)),
            same_settings(&*old(self), &*final(self)),
    {
        self.refresh_token = self.refresh_token + 1;
        Job::SetRepo { path, token: self.refresh_token }
    }

    /// The down arrow: the next file (the last stays the last; the first
    /// where none is selected); the picked files are dropped.
    pub fn key_down(&mut self) -> (job: Option<Job>)
        requires
            old(self).refresh_token < u64::MAX,
        ensures
            old(self).files.len() == 0 ==> job is None && *final(self) == *old(self),
            old(self).files.len() > 0 ==> final(self).multi@.len() == 0 && selected_file(
                *old(self),
                *final(self),
                match old(self).selected {
                    Some(s) => if s + 1 < old(self).files.len() {
                        (s + 1) as usize
                    } else {
                        (old(self).files.len() - 1) as usize
                    },
                    None => 0usize,
                },
                job,
            ),
            final(self).files == old(self).files,
            final(self).loaded == old(self).loaded,
            final(self).refresh_in_flight == old(self).refresh_in_flight,
            final(self).refresh_again == old(self).refresh_again,
            same_repo_fields(&*old(self), &*final(self)),
            same_commit_fields(&*old(self), &*final(self)),
            same_settings(&*old(self), &*final(self)),
    {
        if self.files.len() == 0 {
            return None;
        }
        let next = match self.selected {
            Some(s) => if s < self.files.len() - 1 {
                s + 1
            } else {
                self.files.len() - 1
            },
            None => 0,
        };
        self.multi = Vec::new();
        self.select_index(next)
    }

    /// The up arrow: the previous file (the first stays the first; the
    /// first where none is selected); the picked files are dropped.
    pub fn key_up(&mut self) -> (job: Option<Job>)
        requires
            old(self).refresh_token < u64::MAX,
        ensures
            old(self).files.len() == 0 ==> job is None && *final(self) == *old(self),
            old(self).files.len() > 0 ==> final(self).multi@.len() == 0 && ({
                let prev = match old(self).selected {
                    Some(s) => if s > 0 {
                        (s - 1) as usize
                    } else {
                        0usize
                    },
                    None => 0usize,
                };
                &&& prev < old(self).files.len() ==> selected_file(*old(self), *final(self), prev, job)
                &&& prev >= old(self).files.len() ==> nothing_selected(*old(self), *final(self), job)
            }),
            final(self).files == old(self).files,
            final(self).loaded == old(self).loaded,
            final(self).refresh_in_flight == old(self).refresh_in_flight,
            final(self).refresh_again == old(self).refresh_again,
            same_repo_fields(&*old(self), &*final(self)),
            same_commit_fields(&*old(self), &*final(self)),
            same_settings(&*old(self), &*final(self)),
    {
        if self.files.len() == 0 {
            return None;
        }
        let next = match self.selected {
            Some(s) => if s > 0 {
                s - 1
            } else {
                0
            },
            None => 0,
        };
        self.multi = Vec::new();
        self.select_index(next)
    }

    /// The refresh key: the screen and selection are cleared and a refresh
    /// asked for.
    pub fn key_refresh(&mut self) -> (job: Option<Job>)
        requires
            old(self).refresh_token < u64::MAX,
        ensures
            final(self).loaded is None,
            final(self).selected is None,
            !old(self).refresh_in_flight ==> (job matches Some(j) && is_refresh_job(
                j,
                old(self).repo@,
                (old(self).refresh_token + 1) as u64,
            )),
            old(self).refresh_in_flight ==> job is None && final(self).refresh_again,
            final(self).files == old(self).files,
            same_repo_fields(&*old(self), &*final(self)),
            same_commit_fields(&*old(self), &*final(self)),
            same_settings(&*old(self), &*final(self)),
    {
        self.loaded = None;
        self.selected = None;
        self.request_refresh()
    }

    /// The editor key: opens the selected file in the configured editor.
    pub fn key_open_editor(&self) -> (job: Option<Job>)
        ensures
            (self.selected matches Some(i) && i < self.files.len()) ==> (job matches Some(Job::OpenEditor { repo, path, cmd })
                && repo == self.repo && path == self.files@[self.selected->0 as int].path && cmd
                == self.editor_command),
            !(self.selected matches Some(i) && i < self.files.len()) ==> job is None,
    {
        match self.selected {
            Some(i) => if i < self.files.len() {
                Some(
                    Job::OpenEditor {
                        repo: self.repo.clone(),
                        path: self.files[i].path.clone(),
                        cmd: match &self.editor_command {
                            Some(c) => Some(c.clone()),
                            None => None,
                        },
                    },
                )
            } else {
                None
            },
            None => None,
        }
    }
}

/// Whether `v` holds `x`.
fn holds(v: &Vec<usize>, x: usize) -> (r: bool)
    ensures
        r == v@.contains(x),
{
    let mut i: usize = 0;
    while i < v.len()
        invariant
            i <= v.len(),
            forall|j: int| 0 <= j < i ==> v@[j] != x,
        decreases v.len() - i,
    {
        if v[i] == x {
            return true;
        }
        i += 1;
    }
    false
}

/// `v` without `x`.
fn without(v: &Vec<usize>, x: usize) -> (r: Vec<usize>)
    ensures
        r@.to_set() == v@.to_set().remove(x),
        v@.no_duplicates() ==> r@.no_duplicates(),
{
    let mut r: Vec<usize> = Vec::new();
    for i in 0..v.len()
        invariant
            r@.to_set() == v@.take(i as int).to_set().remove(x),
            v@.no_duplicates() ==> r@.no_duplicates(),
    {
        proof {
            if v@.no_duplicates() {
                assert(!v@.take(i as int).contains(v@[i as int])) by {
                    if v@.take(i as int).contains(v@[i as int]) {
                        let j = choose|j: int| 0 <= j < i && v@.take(i as int)[j] == v@[i as int];
                        assert(v@[j] == v@[i as int]);
                    }
                }
                assert(!r@.to_set().contains(v@[i as int]));
                assert(!r@.contains(v@[i as int]));
            }
        }
        proof {
            assert(v@.take(i + 1) == v@.take(i as int).push(v@[i as int]));
            v@.take(i as int).lemma_push_to_set_commute(v@[i as int]);
        }
        if v[i] != x {
            proof {
                r@.lemma_push_to_set_commute(v[i as int]);
            }
            r.push(v[i]);
            proof {
                assert(r@.to_set() =~= v@.take(i + 1).to_set().remove(x));
            }
        } else {
            proof {
                assert(r@.to_set() =~= v@.take(i + 1).to_set().remove(x));
            }
        }
    }
    proof {
        assert(v@.take(v@.len() as int) == v@);
    }
    r
}

/// The paths of the picked files, in picking order, that are (`staged`)
/// or are not staged; indices past the list are skipped.
pub open spec fn picked_paths(
    multi: Seq<usize>,
    files: Seq<(Seq<char>, FileStatus, bool)>,
    staged: bool,
) -> Seq<Seq<char>>
    decreases multi.len(),
{
    if multi.len() == 0 {
        Seq::empty()
    } else {
        let prev = picked_paths(multi.drop_last(), files, staged);
        let i = multi.last();
        if i < files.len() && files[i as int].2 == staged {
            prev.push(files[i as int].0)
        } else {
            prev
        }
    }
}

/// The paths of the files whose staging differs from `staged`, in order.
pub open spec fn group_paths(files: Seq<(Seq<char>, FileStatus, bool)>, staged: bool) -> Seq<Seq<char>>
    decreases files.len(),
{
    if files.len() == 0 {
        Seq::empty()
    } else {
        let prev = group_paths(files.drop_last(), staged);
        if files.last().2 != staged {
            prev.push(files.last().0)
        } else {
            prev
        }
    }
}

pub open spec fn path_views(v: Seq<String>) -> Seq<Seq<char>> {
    v.map_values(|s: String| s@)
}

/// A file can be discarded when it has unstaged changes to a tracked file.
pub open spec fn can_discard(f: (Seq<char>, FileStatus, bool)) -> bool {
    !f.2 && f.1 != FileStatus::Added
}

impl Session {
    /// A click on file `index`: with the command key it toggles the file
    /// in the picked set; with shift it picks the range from the selected
    /// file; otherwise it drops the picked set.  In each case the file is
    /// selected.
    pub fn click_file(&mut self, index: usize, toggle: bool, extend: bool) -> (job: Option<Job>)
        requires
            old(self).refresh_token < u64::MAX,
        ensures
            index < old(self).files.len() ==> selected_file(*old(self), *final(self), index, job),
            index >= old(self).files.len() ==> nothing_selected(*old(self), *final(self), job),
            toggle ==> final(self).multi@.to_set() == if old(self).multi@.contains(index) {
                old(self).multi@.to_set().remove(index)
            } else {
                old(self).multi@.to_set().insert(index)
            },
            !toggle && extend ==> final(self).multi@.to_set() == match old(self).selected {
                Some(cur) => old(self).multi@.to_set().union(
                    Set::new(
                        |i: usize|
                            (if cur < index {
                                cur
                            } else {
                                index
                            }) <= i <= (if cur < index {
                                index
                            } else {
                                cur
                            }),
                    ),
                ),
                None => old(self).multi@.to_set(),
            },
            !toggle && !extend ==> final(self).multi@.len() == 0,
            old(self).multi@.no_duplicates() ==> final(self).multi@.no_duplicates(),
            final(self).files == old(self).files,
            final(self).loaded == old(self).loaded,
            final(self).refresh_in_flight == old(self).refresh_in_flight,
            final(self).refresh_again == old(self).refresh_again,
            same_repo_fields(&*old(self), &*final(self)),
            same_commit_fields(&*old(self), &*final(self)),
            same_settings(&*old(self), &*final(self)),
    {
        if toggle {
            if holds(&self.multi, index) {
                self.multi = without(&self.multi, index);
            } else {
                proof {
                    self.multi@.lemma_push_to_set_commute(index);
                }
                self.multi.push(index);
            }
        } else if extend {
            match self.selected {
                Some(cur) => {
                    let (a, b) = if cur < index {
                        (cur, index)
                    } else {
                        (index, cur)
                    };
                    let ghost start = self.multi@.to_set();
                    let mut i = a;
                    loop
                        invariant_except_break
                            a <= i <= b,
                            self.multi@.to_set() == start.union(Set::new(|j: usize| a <= j < i)),
                        invariant
                            self.files == old(self).files,
                            same_repo_fields(&*old(self), &*self),
                            same_commit_fields(&*old(self), &*self),
                            same_settings(&*old(self), &*self),
                            self.refresh_token == old(self).refresh_token,
                            self.selected == old(self).selected,
                            self.loaded == old(self).loaded,
                            self.loading_diff == old(self).loading_diff,
                            self.refresh_in_flight == old(self).refresh_in_flight,
                            self.refresh_again == old(self).refresh_again,
                            start == old(self).multi@.to_set(),
                            old(self).multi@.no_duplicates() ==> self.multi@.no_duplicates(),
                        ensures
                            self.multi@.to_set() == start.union(Set::new(|j: usize| a <= j <= b)),
                        decreases b - i,
                    {
                        if !holds(&self.multi, i) {
                            proof {
                                self.multi@.lemma_push_to_set_commute(i);
                            }
                            self.multi.push(i);
                        }
                        proof {
                            assert(self.multi@.to_set() =~= start.union(Set::new(|j: usize| a <= j < i + 1)));
                        }
                        if i == b {
                            proof {
                                assert(Set::new(|j: usize| a <= j < i + 1) =~= Set::new(|j: usize| a <= j <= b));
                            }
                            break;
                        }
                        i += 1;
                    }
                },
                None => {},
            }
        } else {
            self.multi = Vec::new();
        }
        self.select_index(index)
    }

    fn picked(&self, staged: bool) -> (r: Vec<String>)
        ensures
            path_views(r@) == picked_paths(self.multi@, file_views(self.files@), staged),
    {
        let ghost fv = file_views(self.files@);
        let mut out: Vec<String> = Vec::new();
        for k in 0..self.multi.len()
            invariant
                fv == file_views(self.files@),
                path_views(out@) == picked_paths(self.multi@.take(k as int), fv, staged),
        {
            proof {
                assert(self.multi@.take(k + 1).drop_last() == self.multi@.take(k as int));
                assert(self.multi@.take(k + 1).last() == self.multi@[k as int]);
            }
            let i = self.multi[k];
            if i < self.files.len() && self.files[i].staged == staged {
                proof {
                    assert(fv[i as int] == self.files@[i as int]@);
                }
                let ghost prev = out@;
                out.push(self.files[i].path.clone());
                proof {
                    assert(path_views(out@) =~= path_views(prev).push(fv[i as int].0));
                }
            } else {
                proof {
                    if i < self.files.len() {
                        assert(fv[i as int] == self.files@[i as int]@);
                    }
                }
            }
        }
        proof {
            assert(self.multi@.take(self.multi@.len() as int) == self.multi@);
        }
        out
    }

    /// Stages the picked files that are not staged, if any; the picked set
    /// is dropped.
    pub fn stage_picked(&mut self) -> (job: Option<Job>)
        ensures
            ({
                let ps = picked_paths(old(self).multi@, file_views(old(self).files@), false);
                &&& ps.len() == 0 ==> job is None
                &&& ps.len() > 0 ==> (job matches Some(Job::Stage { repo, paths }) && repo == old(self).repo && path_views(paths@) == ps)
            }),
            final(self).multi@.len() == 0,
            final(self).files == old(self).files,
            final(self).selected == old(self).selected,
            same_repo_fields(&*old(self), &*final(self)),
    {
        let paths = self.picked(false);
        self.multi = Vec::new();
        if paths.len() > 0 {
            Some(Job::Stage { repo: self.repo.clone(), paths })
        } else {
            None
        }
    }

    /// Unstages the picked files that are staged, if any; the picked set is
    /// dropped.
    pub fn unstage_picked(&mut self) -> (job: Option<Job>)
        ensures
            ({
                let ps = picked_paths(old(self).multi@, file_views(old(self).files@), true);
                &&& ps.len() == 0 ==> job is None
                &&& ps.len() > 0 ==> (job matches Some(Job::Unstage { repo, paths }) && repo == old(self).repo && path_views(paths@) == ps)
            }),
            final(self).multi@.len() == 0,
            final(self).files == old(self).files,
            final(self).selected == old(self).selected,
            same_repo_fields(&*old(self), &*final(self)),
    {
        let paths = self.picked(true);
        self.multi = Vec::new();
        if paths.len() > 0 {
            Some(Job::Unstage { repo: self.repo.clone(), paths })
        } else {
            None
        }
    }

    /// The group button: stages every unstaged file (`stage`), or unstages
    /// every staged one.
    pub fn stage_group(&self, stage: bool) -> (job: Option<Job>)
        ensures
            ({
                let ps = group_paths(file_views(self.files@), stage);
                &&& ps.len() == 0 ==> job is None
                &&& ps.len() > 0 && stage ==> (job matches Some(Job::Stage { repo, paths }) && repo
                    == self.repo && path_views(paths@) == ps)
                &&& ps.len() > 0 && !stage ==> (job matches Some(Job::Unstage { repo, paths }) && repo
                    == self.repo && path_views(paths@) == ps)
            }),
    {
        let ghost fv = file_views(self.files@);
        let mut paths: Vec<String> = Vec::new();
        for i in 0..self.files.len()
            invariant
                fv == file_views(self.files@),
                path_views(paths@) == group_paths(fv.take(i as int), stage),
        {
            proof {
                assert(fv.take(i + 1).drop_last() == fv.take(i as int));
                assert(fv.take(i + 1).last() == self.files@[i as int]@);
            }
            if self.files[i].staged != stage {
                let ghost prev = paths@;
                paths.push(self.files[i].path.clone());
                proof {
                    assert(path_views(paths@) =~= path_views(prev).push(self.files@[i as int].path@));
                }
            }
        }
        proof {
            assert(fv.take(self.files.len() as int) == fv);
        }
        if paths.len() == 0 {
            None
        } else if stage {
            Some(Job::Stage { repo: self.repo.clone(), paths })
        } else {
            Some(Job::Unstage { repo: self.repo.clone(), paths })
        }
    }

    /// The row button: unstages a staged file, stages an unstaged one.
    pub fn toggle_stage(&self, index: usize) -> (job: Option<Job>)
        ensures
            index >= self.files.len() ==> job is None,
            index < self.files.len() && self.files@[index as int].staged ==> (job matches Some(Job::Unstage { repo, paths })
                && repo == self.repo && path_views(paths@) == seq![self.files@[index as int].path@]),
            index < self.files.len() && !self.files@[index as int].staged ==> (job matches Some(Job::Stage { repo, paths })
                && repo == self.repo && path_views(paths@) == seq![self.files@[index as int].path@]),
    {
        if index >= self.files.len() {
            return None;
        }
        let paths = vec![self.files[index].path.clone()];
        proof {
            assert(path_views(paths@) =~= seq![self.files@[index as int].path@]);
        }
        if self.files[index].staged {
            Some(Job::Unstage { repo: self.repo.clone(), paths })
        } else {
            Some(Job::Stage { repo: self.repo.clone(), paths })
        }
    }

    /// Whether file `index` has a discard button.
    pub fn discardable(&self, index: usize) -> (r: bool)
        ensures
            r == (index < self.files.len() && can_discard(file_views(self.files@)[index as int])),
    {
        if index < self.files.len() {
            proof {
                assert(file_views(self.files@)[index as int] == self.files@[index as int]@);
            }
            !self.files[index].staged && self.files[index].status != FileStatus::Added
        } else {
            false
        }
    }

    /// The row's discard button: asks to confirm discarding the file, where
    /// it can be discarded.
    pub fn ask_discard(&mut self, index: usize)
        ensures
            index < old(self).files.len() && can_discard(file_views(old(self).files@)[index as int])
                ==> (final(self).pending_discard matches Some(ps) && path_views(ps@) == seq![
                old(self).files@[index as int].path@,
            ]),
            *final(self) == (Session { pending_discard: final(self).pending_discard, ..*old(self) }),
            !(index < old(self).files.len() && can_discard(file_views(old(self).files@)[index as int]))
                ==> *final(self) == *old(self),
    {
        if index < self.files.len() {
            proof {
                assert(file_views(self.files@)[index as int] == self.files@[index as int]@);
            }
            if !self.files[index].staged && self.files[index].status != FileStatus::Added {
                let ps = vec![self.files[index].path.clone()];
                proof {
                    assert(path_views(ps@) =~= seq![self.files@[index as int].path@]);
                }
                self.pending_discard = Some(ps);
            }
        }
    }

    /// The discard dialog: on confirming, the files are discarded; either
    /// way the dialog closes.
    pub fn close_discard(&mut self, confirm: bool) -> (job: Option<Job>)
        ensures
            final(self).pending_discard is None,
            confirm && old(self).pending_discard is Some ==> (job matches Some(Job::Discard { repo, paths })
                && repo == old(self).repo && Some(paths) == old(self).pending_discard),
            !(confirm && old(self).pending_discard is Some) ==> job is None,
            final(self).files == old(self).files,
            final(self).selected == old(self).selected,
            same_repo_fields(&*old(self), &*final(self)),
            same_commit_fields(&*old(self), &*final(self)),
    {
        let pending = self.pending_discard.take();
        match pending {
            Some(paths) => if confirm {
                Some(Job::Discard { repo: self.repo.clone(), paths })
            } else {
                None
            },
            None => None,
        }
    }

    /// The stage-everything dialog: on confirming, everything is staged and
    /// committed (see `request_commit`); either way the dialog closes.
    pub fn close_commit_all(&mut self, confirm: bool) -> (job: Option<Job>)
        ensures
            !final(self).pending_commit_all,
            !confirm ==> job is None,
            confirm && trim(old(self).commit_message@).len() > 0 && !old(self).commit_in_flight ==> (
            job matches Some(Job::Commit { repo, message, stage_all }) && repo == old(self).repo
                && message@ == trim(old(self).commit_message@) && stage_all),
            final(self).files == old(self).files,
            final(self).selected == old(self).selected,
            same_repo_fields(&*old(self), &*final(self)),
    {
        let job = if confirm {
            self.request_commit(true)
        } else {
            None
        };
        self.pending_commit_all = false;
        job
    }

    /// Switches the diff layout.
    pub fn set_side_by_side(&mut self, side: bool)
        ensures
            final(self).side_by_side == side,
            final(self).files == old(self).files,
            final(self).loaded == old(self).loaded,
    {
        self.side_by_side = side;
    }

    /// Switches to theme `id`, already resolved to `theme`; the diff on
    /// screen is rebuilt in its colours.  Nothing happens where `id` is the
    /// current theme; the result says whether something did.
    pub fn set_theme(&mut self, id: String, theme: &Theme, engine: &Engine) -> (changed: bool)
        ensures
            changed == (id@ != old(self).theme_id@),
            !changed ==> *final(self) == *old(self),
            changed ==> final(self).theme_id == id && match old(self).loaded {
                Some(l) => final(self).loaded matches Some(m) && m.path == l.path && m.staged
                    == l.staged && m.original == l.original && m.modified == l.modified
                    && m.language == l.language && doc_of(m.doc, l.path@, l.original@, l.modified@, theme.tokens),
                None => final(self).loaded is None,
            },
            final(self).files == old(self).files,
            final(self).selected == old(self).selected,
    {
        if id == self.theme_id {
            return false;
        }
        self.theme_id = id;
        match self.loaded.take() {
            Some(l) => {
                let doc = DiffDoc::build(l.original.as_str(), l.modified.as_str(), l.path.as_str(), theme, engine);
                self.loaded = Some(LoadedDiff { path: l.path, staged: l.staged, language: l.language, original: l.original, modified: l.modified, doc });
            },
            None => {},
        }
        true
    }

}

// ---------------------------------------------------------------------------
// What the window shows
// ---------------------------------------------------------------------------

/// The header's count: `1 file changed`, `3 files changed`.
pub fn files_changed_label(n: usize) -> (r: String)
    ensures
        r@ == decimal_spec(n as nat) + if n == 1 {
            " file changed"@
        } else {
            " files changed"@
        },
{
    let mut s = decimal(n as u64);
    if n == 1 {
        push_str(&mut s, " file changed");
    } else {
        push_str(&mut s, " files changed");
    }
    s
}

/// The push button: `Pushing…` while a push runs, else `Push (n)` with the
/// commits ahead of the upstream, or `Push`.
pub fn push_label(in_flight: bool, ahead: u32) -> (r: String)
    ensures
        in_flight ==> r@ == "Pushing…"@,
        !in_flight && ahead > 0 ==> r@ == "Push ("@ + decimal_spec(ahead as nat) + ")"@,
        !in_flight && ahead == 0 ==> r@ == "Push"@,
{
    if in_flight {
        "Pushing…".to_owned()
    } else if ahead > 0 {
        let mut s = "Push (".to_owned();
        push_string(&mut s, &decimal(ahead as u64));
        push_str(&mut s, ")");
        s
    } else {
        "Push".to_owned()
    }
}

/// The commit button: `Committing…` while a commit runs, else `Commit`.
pub fn commit_label(in_flight: bool) -> (r: &'static str)
    ensures
        in_flight ==> r@ == "Committing…"@,
        !in_flight ==> r@ == "Commit"@,
{
    if in_flight {
        "Committing…"
    } else {
        "Commit"
    }
}

/// The question of the discard dialog: the file by name where there is
/// one, else how many.
pub fn discard_prompt(paths: &Vec<String>) -> (r: String)
    ensures
        paths.len() == 1 ==> r@ == "Discard changes to "@ + paths@[0]@ + "?"@,
        paths.len() != 1 ==> r@ == "Discard changes to "@ + decimal_spec(paths.len() as nat)
            + " files?"@,
{
    let mut s = "Discard changes to ".to_owned();
    if paths.len() == 1 {
        push_string(&mut s, &paths[0]);
        push_str(&mut s, "?");
    } else {
        push_string(&mut s, &decimal(paths.len() as u64));
        push_str(&mut s, " files?");
    }
    s
}

/// How many files are picked: `3 selected`.
pub fn picked_label(n: usize) -> (r: String)
    ensures
        r@ == decimal_spec(n as nat) + " selected"@,
{
    let mut s = decimal(n as u64);
    push_str(&mut s, " selected");
    s
}

/// The branch as the header shows it: a dash where there is none.
pub fn branch_label(branch: &str) -> (r: String)
    ensures
        branch@.len() == 0 ==> r@ == "—"@,
        branch@.len() != 0 ==> r@ == branch@,
{
    if branch.is_empty() {
        "—".to_owned()
    } else {
        branch.to_owned()
    }
}

/// Commits ahead and behind the upstream, `↑a ↓b`, where either is not zero.
pub fn tracking_label(ahead: u32, behind: u32) -> (r: Option<String>)
    ensures
        ahead == 0 && behind == 0 <==> r is None,
        r matches Some(l) ==> l@ == "↑"@ + decimal_spec(ahead as nat) + " ↓"@ + decimal_spec(
            behind as nat,
        ),
{
    if ahead == 0 && behind == 0 {
        return None;
    }
    let mut s = "↑".to_owned();
    push_string(&mut s, &decimal(ahead as u64));
    push_str(&mut s, " ↓");
    push_string(&mut s, &decimal(behind as u64));
    Some(s)
}

/// What the diff pane says when no diff is on screen.
pub fn placeholder(loading: bool) -> (r: &'static str)
    ensures
        loading ==> r@ == "Loading diff…"@,
        !loading ==> r@ == "Select a file to view diff"@,
{
    if loading {
        "Loading diff…"
    } else {
        "Select a file to view diff"
    }
}

/// The indices of the files that are (`staged`) or are not staged, in
/// order.
pub open spec fn group_of_files(files: Seq<(Seq<char>, FileStatus, bool)>, staged: bool) -> Seq<usize>
    decreases files.len(),
{
    if files.len() == 0 {
        Seq::empty()
    } else {
        let prev = group_of_files(files.drop_last(), staged);
        if files.last().2 == staged {
            prev.push((files.len() - 1) as usize)
        } else {
            prev
        }
    }
}

impl Session {
    /// The indices of the staged (`staged`) or unstaged files, in order.
    pub fn group_indices(&self, staged: bool) -> (r: Vec<usize>)
        ensures
            r@ == group_of_files(file_views(self.files@), staged),
    {
        let ghost fv = file_views(self.files@);
        let mut out: Vec<usize> = Vec::new();
        for i in 0..self.files.len()
            invariant
                fv == file_views(self.files@),
                out@ == group_of_files(fv.take(i as int), staged),
        {
            proof {
                assert(fv.take(i + 1).drop_last() == fv.take(i as int));
                assert(fv.take(i + 1).last() == self.files@[i as int]@);
            }
            if self.files[i].staged == staged {
                out.push(i);
            }
        }
        proof {
            assert(fv.take(self.files.len() as int) == fv);
        }
        out
    }
}

// ---------------------------------------------------------------------------
// Laws
// ---------------------------------------------------------------------------

/// A refresh asked for while another is under way is not lost: once the
/// running one reports its list, the window asks for a refresh again, of
/// the repository it reported on.
pub proof fn law_refresh_not_lost(
    s0: Session,
    s1: Session,
    s2: Session,
    files: Vec<ChangedFile>,
    info: RepoInfo,
    jobs: Seq<Job>,
    moved: bool,
)
    requires
        s0.refresh_in_flight,
        refresh_asked(s0, s1, None),
        files_effect(s1, s2, files, info, jobs, moved),
    ensures
        jobs.len() >= 1,
        is_refresh_job(jobs.last(), info.repo_path@, s2.refresh_token),
        s2.refresh_in_flight,
        !s2.refresh_again,
{
}

/// A refresh whose list looks the same as the one before (same
/// fingerprint) re-reads the selected file's diff, so that edits to it show:
/// where a file of the list is selected, it stays selected and the first job
/// loads its diff under the next token.
pub proof fn law_refresh_reloads_selected(
    s0: Session,
    s1: Session,
    files: Vec<ChangedFile>,
    info: RepoInfo,
    jobs: Seq<Job>,
    moved: bool,
    i: usize,
)
    requires
        files_effect(s0, s1, files, info, jobs, moved),
        fingerprint_spec(file_views(s0.files@)) == fingerprint_spec(file_views(files@)),
        s0.selected == Some(i),
        i < files@.len(),
    ensures
        s1.selected == Some(i),
        jobs.len() >= 1,
        is_diff_job(jobs[0], info.repo_path@, files@[i as int].path@, files@[i as int].staged, (s0.refresh_token + 1) as u64),
        s1.loading_diff,
{
    assert(file_views(files@)[i as int] == files@[i as int]@);
}

proof fn lemma_find_file(files: Seq<(Seq<char>, FileStatus, bool)>, path: Seq<char>, staged: bool, k: int)
    requires
        0 <= k < files.len(),
        files[k].0 == path,
        files[k].2 == staged,
    ensures
        find_file(files, path, staged) matches Some(i) && i < files.len() && files[i as int].0 == path
            && files[i as int].2 == staged,
    decreases files.len(),
{
    if !(files[0].0 == path && files[0].2 == staged) {
        let t = files.drop_first();
        assert(t[k - 1] == files[k]);
        lemma_find_file(t, path, staged, k - 1);
        let i = find_file(t, path, staged)->0;
        assert(files[i + 1int] == t[i as int]);
    }
}

/// A refresh that changes the list keeps the selected file selected
/// wherever it is still listed: the new selection has the same path and
/// staging.
pub proof fn law_selection_follows_file(
    old_files: Seq<(Seq<char>, FileStatus, bool)>,
    sel: Option<usize>,
    new_files: Seq<(Seq<char>, FileStatus, bool)>,
    k: int,
)
    requires
        !same_files(old_files, new_files),
        new_files.len() <= usize::MAX,
        prev_selected(old_files, sel) matches Some(p) && 0 <= k < new_files.len()
            && new_files[k].0 == p.0 && new_files[k].2 == p.1,
    ensures
        refreshed_selection(old_files, sel, new_files) matches Some(i) && new_files[i as int].0
            == prev_selected(old_files, sel).unwrap().0 && new_files[i as int].2 == prev_selected(
            old_files,
            sel,
        ).unwrap().1,
{
    let p = prev_selected(old_files, sel).unwrap();
    lemma_find_file(new_files, p.0, p.1, k);
}

} // verus!
