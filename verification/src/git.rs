//! What the library reads out of `git` and decides about it: the status
//! letters, `git status --porcelain` lines, tracking counts, languages by
//! extension, and the argument lists of the commands that change a repository.
use vstd::prelude::*;
use crate::text::{
    decimal_spec, is_ws, lemma_decimal_digits, lemma_lead_ws, lemma_trail_ws, lemma_words_after,
    lemma_words_solid,
    lemma_seq_lt_irreflexive, lemma_seq_lt_transitive,
    byte_len, chars_eq, chars_eq_str, seq_lt, seq_lt_exec, ends_with, ends_with_exec, find, find_exec, lemma_byte_len_prefix,
    lower, lower_char, lower_exec, parse_unsigned, parse_unsigned_exec, split, split_char, split_ws,
    push_str, push_string, replace_all, replace_exec, contains, contains_exec, lemma_find_from_some, lemma_replace_leaves_rep, matches_at, string_from, sub_vec, to_chars, trim, trim_range, trim_string,
    utf8_width_exec, words, join, trim_end, char_is_ws, string_of,
};

verus! {

// ---------------------------------------------------------------------------
// File status
// ---------------------------------------------------------------------------

#[derive(Debug, Clone, Copy, PartialEq, Eq, Structural)]
pub enum FileStatus {
    Modified,
    Added,
    Deleted,
    Renamed,
}

/// The status that a porcelain status code stands for.
pub open spec fn status_of(code: char) -> FileStatus {
    if code == 'A' || code == '?' {
        FileStatus::Added
    } else if code == 'D' {
        FileStatus::Deleted
    } else if code == 'R' {
        FileStatus::Renamed
    } else {
        FileStatus::Modified
    }
}

pub open spec fn status_letter(s: FileStatus) -> &'static str {
    match s {
        FileStatus::Modified => "M",
        FileStatus::Added => "A",
        FileStatus::Deleted => "D",
        FileStatus::Renamed => "R",
    }
}

pub open spec fn status_label(s: FileStatus) -> &'static str {
    match s {
        FileStatus::Modified => "modified",
        FileStatus::Added => "added",
        FileStatus::Deleted => "deleted",
        FileStatus::Renamed => "renamed",
    }
}

impl FileStatus {
    /// The one-letter badge of the status.
    pub fn letter(self) -> (r: &'static str)
        ensures
            r == status_letter(self),
    {
        match self {
            FileStatus::Modified => "M",
            FileStatus::Added => "A",
            FileStatus::Deleted => "D",
            FileStatus::Renamed => "R",
        }
    }

    /// The lower-case word for the status.
    pub fn label(self) -> (r: &'static str)
        ensures
            r == status_label(self),
    {
        match self {
            FileStatus::Modified => "modified",
            FileStatus::Added => "added",
            FileStatus::Deleted => "deleted",
            FileStatus::Renamed => "renamed",
        }
    }

    /// The status of a porcelain status code: `A` and `?` are added, `D`
    /// deleted, `R` renamed, anything else modified.
    pub fn from_code(code: char) -> (r: FileStatus)
        ensures
            r == status_of(code),
    {
        if code == 'A' || code == '?' {
            FileStatus::Added
        } else if code == 'D' {
            FileStatus::Deleted
        } else if code == 'R' {
            FileStatus::Renamed
        } else {
            FileStatus::Modified
        }
    }
}

// ---------------------------------------------------------------------------
// Porcelain status lines
// ---------------------------------------------------------------------------

/// A parsed porcelain line, before untracked directories are expanded.
#[derive(Debug, Clone, PartialEq, Eq)]
pub struct PorcelainEntry {
    pub index: char,
    pub work: char,
    pub path: String,
    pub untracked_dir: bool,
}

impl View for PorcelainEntry {
    type V = (char, char, Seq<char>, bool);

    open spec fn view(&self) -> (char, char, Seq<char>, bool) {
        (self.index, self.work, self.path@, self.untracked_dir)
    }
}

/// A line is kept when it is at least three bytes long.
pub open spec fn kept_line(line: Seq<char>) -> bool {
    byte_len(line) >= 3
}

/// Whether byte offset 3 of `line` falls between two characters.
pub open spec fn has_offset3(line: Seq<char>) -> bool {
    exists|k: int| 0 <= k <= line.len() && byte_len(#[trigger] line.take(k)) == 3
}

/// The character index at byte offset 3.
pub open spec fn offset3(line: Seq<char>) -> int {
    choose|k: int| 0 <= k <= line.len() && byte_len(#[trigger] line.take(k)) == 3
}

/// A line that the parser can take: where it is kept, its path starts on a
/// character boundary (elsewhere slicing it at byte 3 would panic).
pub open spec fn porcelain_line_ok(line: Seq<char>) -> bool {
    kept_line(line) ==> has_offset3(line)
}

pub open spec fn arrow() -> Seq<char> {
    seq![' ', '-', '>', ' ']
}

/// The path of a porcelain line: the text after the two status columns and
/// the space, trimmed; of a rename `old -> new`, the new path.
pub open spec fn porcelain_path(line: Seq<char>) -> Seq<char> {
    let fp = trim(line.skip(offset3(line)));
    match find(fp, arrow()) {
        Some(i) => fp.skip(i + 4int),
        None => fp,
    }
}

pub open spec fn porcelain_entry(line: Seq<char>) -> (char, char, Seq<char>, bool) {
    let index = line[0];
    let work = if line.len() > 1 {
        line[1]
    } else {
        ' '
    };
    let path = porcelain_path(line);
    (index, work, path, index == '?' && work == '?' && ends_with(path, seq!['/']))
}

pub open spec fn porcelain_lines(lines: Seq<Seq<char>>) -> Seq<(char, char, Seq<char>, bool)>
    decreases lines.len(),
{
    if lines.len() == 0 {
        Seq::empty()
    } else {
        let prev = porcelain_lines(lines.drop_last());
        if kept_line(lines.last()) {
            prev.push(porcelain_entry(lines.last()))
        } else {
            prev
        }
    }
}

/// The entries of `git status --porcelain` output, one per kept line.
pub open spec fn porcelain(raw: Seq<char>) -> Seq<(char, char, Seq<char>, bool)> {
    porcelain_lines(split(raw, '\n'))
}

pub open spec fn porcelain_input_ok(raw: Seq<char>) -> bool {
    forall|i: int|
        0 <= i < split(raw, '\n').len() ==> porcelain_line_ok(#[trigger] split(raw, '\n')[i])
}

proof fn lemma_offset3_unique(line: Seq<char>, k: int)
    requires
        0 <= k <= line.len(),
        byte_len(line.take(k)) == 3,
    ensures
        has_offset3(line),
        offset3(line) == k,
{
    assert(has_offset3(line));
    let c = offset3(line);
    if c < k {
        lemma_byte_len_prefix(line, c, k);
    } else if c > k {
        lemma_byte_len_prefix(line, k, c);
    }
}

/// Whether `line` is kept, and where its path starts.
fn offset3_exec(line: &Vec<char>) -> (r: (bool, usize))
    ensures
        r.0 == kept_line(line@),
        r.1 <= line.len(),
        r.0 ==> (has_offset3(line@) <==> byte_len(line@.take(r.1 as int)) == 3),
{
    let mut i: usize = 0;
    let mut acc: usize = 0;
    while i < line.len() && acc < 3
        invariant
            i <= line.len(),
            acc == byte_len(line@.take(i as int)),
            acc <= 6,
            i > 0 ==> byte_len(line@.take(i - 1)) < 3,
        decreases line.len() - i,
    {
        proof {
            assert(line@.take(i + 1).drop_last() == line@.take(i as int));
        }
        acc += utf8_width_exec(line[i]);
        i += 1;
    }
    proof {
        lemma_byte_len_prefix(line@, i as int, line@.len() as int);
        assert(line@.take(line@.len() as int) == line@);
        if acc > 3 && has_offset3(line@) {
            let c = choose|k: int| 0 <= k <= line@.len() && byte_len(#[trigger] line@.take(k)) == 3;
            if c < i {
                lemma_byte_len_prefix(line@, c, i - 1);
            } else if c > i {
                lemma_byte_len_prefix(line@, i as int, c);
            }
        }
    }
    (acc >= 3, i)
}


/// The entry of a kept line whose path starts at character `k`.
fn porcelain_entry_exec(line: &Vec<char>, k: usize) -> (e: PorcelainEntry)
    requires
        kept_line(line@),
        0 <= k <= line.len(),
        offset3(line@) == k,
        byte_len(line@.take(k as int)) == 3,
    ensures
        e@ == porcelain_entry(line@),
{
    proof {
        assert(line@.len() > 0) by {
            if line@.len() == 0 {
                assert(line@.take(k as int) =~= Seq::<char>::empty());
            }
        }
    }
    let index = line[0];
    let work = if line.len() > 1 {
        line[1]
    } else {
        ' '
    };
    let (a, b) = trim_range(line, k, line.len());
    proof {
        assert(line@.subrange(k as int, line@.len() as int) == line@.skip(k as int));
    }
    let fp = sub_vec(line, a, b);
    let arrow_v = vec![' ', '-', '>', ' '];
    proof {
        assert(arrow_v@ == arrow());
    }
    let actual = match find_exec(&fp, &arrow_v) {
        Some(i) => sub_vec(&fp, i + 4, fp.len()),
        None => fp,
    };
    proof {
        assert(fp@.subrange(0, fp@.len() as int) == fp@);
    }
    let slash = vec!['/'];
    let ends = ends_with_exec(&actual, &slash);
    proof {
        assert(slash@ == seq!['/']);
    }
    let path = string_from(&actual);
    PorcelainEntry { index, work, path, untracked_dir: index == '?' && work == '?' && ends }
}

/// Parses `git status --porcelain` output into one entry per line of at
/// least three bytes: the two status characters (the second is a space
/// where the line has only one character), the path, and whether the line
/// names an untracked directory.
pub fn parse_porcelain(raw: &str) -> (r: Vec<PorcelainEntry>)
    requires
        porcelain_input_ok(raw@),
    ensures
        r.len() == porcelain(raw@).len(),
        forall|i: int| 0 <= i < r.len() ==> #[trigger] r[i]@ == porcelain(raw@)[i],
{
    let v = to_chars(raw);
    let lines = split_char(&v, '\n');
    let ghost ls = split(raw@, '\n');
    let mut entries: Vec<PorcelainEntry> = Vec::new();
    for li in 0..lines.len()
        invariant
            lines.len() == ls.len(),
            ls == split(raw@, '\n'),
            forall|i: int| 0 <= i < lines.len() ==> #[trigger] lines[i]@ == ls[i],
            porcelain_input_ok(raw@),
            entries.len() == porcelain_lines(ls.take(li as int)).len(),
            forall|i: int|
                0 <= i < entries.len() ==> #[trigger] entries[i]@ == porcelain_lines(
                    ls.take(li as int),
                )[i],
    {
        proof {
            assert(ls.take(li + 1).drop_last() == ls.take(li as int));
            assert(ls.take(li + 1).last() == ls[li as int]);
        }
        let line = &lines[li];
        let (kept, k) = offset3_exec(line);
        proof {
            assert(line@ == ls[li as int]);
        }
        if kept {
            proof {
                assert(porcelain_line_ok(ls[li as int]));
                lemma_offset3_unique(line@, k as int);
            }
            let e = porcelain_entry_exec(line, k);
            entries.push(e);
        }
    }
    proof {
        assert(ls.take(ls.len() as int) == ls);
    }
    entries
}

// ---------------------------------------------------------------------------
// Changed files
// ---------------------------------------------------------------------------

#[derive(Debug, Clone, PartialEq, Eq)]
pub struct ChangedFile {
    pub path: String,
    pub status: FileStatus,
    pub staged: bool,
}

impl View for ChangedFile {
    type V = (Seq<char>, FileStatus, bool);

    open spec fn view(&self) -> (Seq<char>, FileStatus, bool) {
        (self.path@, self.status, self.staged)
    }
}

/// The listing found for entry `i`: what the directory walk gave, where it
/// gave anything.
pub open spec fn listing_at(listings: Seq<Option<Seq<Seq<char>>>>, i: int) -> Option<
    Seq<Seq<char>>,
> {
    if 0 <= i < listings.len() {
        listings[i]
    } else {
        None
    }
}

/// The changed files that one porcelain entry stands for.  An untracked
/// directory stands for the files found under it, or for itself where none
/// were found; any other entry for its staged change (index column not blank
/// and not `?`) followed by its unstaged one (work-tree column not blank).
pub open spec fn entry_files(
    e: (char, char, Seq<char>, bool),
    listing: Option<Seq<Seq<char>>>,
) -> Seq<(Seq<char>, FileStatus, bool)> {
    if e.3 {
        match listing {
            Some(fs) if fs.len() > 0 => fs.map_values(
                |f: Seq<char>| (f, FileStatus::Added, false),
            ),
            _ => seq![(e.2, FileStatus::Added, false)],
        }
    } else {
        (if e.0 != ' ' && e.0 != '?' {
            seq![(e.2, status_of(e.0), true)]
        } else {
            Seq::empty()
        }) + (if e.1 != ' ' {
            seq![(e.2, status_of(e.1), false)]
        } else {
            Seq::empty()
        })
    }
}

/// What one `git status --porcelain` entry of a file lists.  An untracked
/// file (`??`) is listed once, unstaged, as added.  Otherwise the index code
/// (where it is a letter) gives a staged file and the worktree code (where
/// it is not a space) an unstaged one, with the status the code names: `A`
/// added, `D` deleted, `R` renamed, `M` modified.
pub proof fn law_porcelain_codes(e: (char, char, Seq<char>, bool), listing: Option<Seq<Seq<char>>>)
    requires
        !e.3,
    ensures
        e.0 == '?' && e.1 == '?' ==> entry_files(e, listing) == seq![(e.2, FileStatus::Added, false)],
        e.0 == 'A' ==> entry_files(e, listing)[0] == (e.2, FileStatus::Added, true),
        e.0 == 'D' ==> entry_files(e, listing)[0] == (e.2, FileStatus::Deleted, true),
        e.0 == 'R' ==> entry_files(e, listing)[0] == (e.2, FileStatus::Renamed, true),
        e.0 == 'M' ==> entry_files(e, listing)[0] == (e.2, FileStatus::Modified, true),
        e.1 == 'A' ==> entry_files(e, listing).last() == (e.2, FileStatus::Added, false),
        e.1 == 'D' ==> entry_files(e, listing).last() == (e.2, FileStatus::Deleted, false),
        e.1 == 'R' ==> entry_files(e, listing).last() == (e.2, FileStatus::Renamed, false),
        e.1 == 'M' ==> entry_files(e, listing).last() == (e.2, FileStatus::Modified, false),
        e.0 == ' ' && e.1 == ' ' ==> entry_files(e, listing).len() == 0,
{
    let a: Seq<(Seq<char>, FileStatus, bool)> = if e.0 != ' ' && e.0 != '?' {
        seq![(e.2, status_of(e.0), true)]
    } else {
        Seq::empty()
    };
    let b: Seq<(Seq<char>, FileStatus, bool)> = if e.1 != ' ' {
        seq![(e.2, status_of(e.1), false)]
    } else {
        Seq::empty()
    };
    assert(entry_files(e, listing) == a + b);
    if e.0 == '?' && e.1 == '?' {
        assert(a + b =~= seq![(e.2, FileStatus::Added, false)]);
    }
    if e.1 != ' ' {
        assert((a + b).last() == b[0]);
    }
    if e.0 != ' ' && e.0 != '?' {
        assert((a + b)[0] == a[0]);
    }
}

/// The changed files of a whole status, entry by entry, in order.
pub open spec fn changed_files(
    entries: Seq<(char, char, Seq<char>, bool)>,
    listings: Seq<Option<Seq<Seq<char>>>>,
) -> Seq<(Seq<char>, FileStatus, bool)>
    decreases entries.len(),
{
    if entries.len() == 0 {
        Seq::empty()
    } else {
        changed_files(entries.drop_last(), listings) + entry_files(
            entries.last(),
            listing_at(listings, entries.len() - 1),
        )
    }
}

proof fn lemma_file_views_push(s: Seq<ChangedFile>, f: ChangedFile)
    ensures
        file_views(s.push(f)) == file_views(s).push(f@),
{
    assert(file_views(s.push(f)) =~= file_views(s).push(f@));
}

pub open spec fn entry_views(entries: Seq<PorcelainEntry>) -> Seq<(char, char, Seq<char>, bool)> {
    entries.map_values(|e: PorcelainEntry| e@)
}

pub open spec fn file_views(files: Seq<ChangedFile>) -> Seq<(Seq<char>, FileStatus, bool)> {
    files.map_values(|f: ChangedFile| f@)
}

/// The changed files of parsed status entries.  `listings[i]` is what a walk
/// of entry `i`'s directory found, where entry `i` is an untracked directory
/// and the walk succeeded; a missing or failed walk counts as finding nothing.
pub fn get_changed_files(
    entries: &Vec<PorcelainEntry>,
    listings: &Vec<Option<Vec<String>>>,
) -> (r: Vec<ChangedFile>)
    ensures
        file_views(r@) == changed_files(entry_views(entries@), listings.deep_view()),
{
    let mut out: Vec<ChangedFile> = Vec::new();
    let ghost es = entry_views(entries@);
    let ghost ls = listings.deep_view();
    for i in 0..entries.len()
        invariant
            es == entry_views(entries@),
            ls == listings.deep_view(),
            file_views(out@) == changed_files(es.take(i as int), ls),
    {
        let e = &entries[i];
        let ghost before = out@;
        proof {
            assert(es.take(i + 1).drop_last() == es.take(i as int));
            assert(es.take(i + 1).last() == e@);
        }
        let ghost listing = listing_at(ls, i as int);
        if e.untracked_dir {
            let mut expanded = false;
            if i < listings.len() {
                match &listings[i] {
                    Some(files) => {
                        if files.len() > 0 {
                            proof {
                                assert(listing == Some(files.deep_view()));
                            }
                            for j in 0..files.len()
                                invariant
                                    file_views(out@) == file_views(before) + files.deep_view().take(
                                        j as int,
                                    ).map_values(|f: Seq<char>| (f, FileStatus::Added, false)),
                            {
                                let f = ChangedFile {
                                    path: files[j].clone(),
                                    status: FileStatus::Added,
                                    staged: false,
                                };
                                let ghost prev = out@;
                                out.push(f);
                                proof {
                                    let dv = files.deep_view();
                                    assert(dv[j as int] == files[j as int]@);
                                    assert(dv.take(j + 1) == dv.take(j as int).push(dv[j as int]));
                                    lemma_file_views_push(prev, f);
                                    assert(dv.take(j + 1).map_values(
                                        |f: Seq<char>| (f, FileStatus::Added, false),
                                    ) =~= dv.take(j as int).map_values(
                                        |f: Seq<char>| (f, FileStatus::Added, false),
                                    ).push((dv[j as int], FileStatus::Added, false)));
                                    assert(file_views(out@) =~= file_views(before) + dv.take(
                                        j + 1,
                                    ).map_values(|f: Seq<char>| (f, FileStatus::Added, false)));
                                }
                            }
                            proof {
                                assert(files.deep_view().take(files.len() as int) == files.deep_view());
                            }
                            expanded = true;
                        }
                    },
                    None => {},
                }
            }
            if !expanded {
                out.push(ChangedFile { path: e.path.clone(), status: FileStatus::Added, staged: false });
                proof {
                    assert(file_views(out@) =~= file_views(before) + seq![
                        (e.path@, FileStatus::Added, false),
                    ]);
                }
            }
        } else {
            if e.index != ' ' && e.index != '?' {
                out.push(
                    ChangedFile {
                        path: e.path.clone(),
                        status: FileStatus::from_code(e.index),
                        staged: true,
                    },
                );
            }
            let ghost mid = out@;
            if e.work != ' ' {
                out.push(
                    ChangedFile {
                        path: e.path.clone(),
                        status: FileStatus::from_code(e.work),
                        staged: false,
                    },
                );
            }
            proof {
                assert(file_views(out@) =~= file_views(before) + entry_files(e@, listing));
            }
        }
        proof {
            assert(file_views(out@) == changed_files(es.take(i + 1), ls));
        }
    }
    proof {
        assert(es.take(entries.len() as int) == es);
    }
    out
}

// ---------------------------------------------------------------------------
// Tracking counts
// ---------------------------------------------------------------------------

/// A count as `str::parse::<u32>` reads it, zero where it cannot.
pub open spec fn count_or_zero(w: Seq<char>) -> u32 {
    match parse_unsigned(w, 10, 0xffff_ffff) {
        Some(n) => n as u32,
        None => 0,
    }
}

/// `(ahead, behind, has_upstream)` out of `git rev-list --left-right
/// --count @{upstream}...HEAD`: no upstream when the output is blank;
/// otherwise the first word counts the commits behind and the second those
/// ahead, a missing or unreadable count being zero.
pub open spec fn ahead_behind(raw: Seq<char>) -> (u32, u32, bool) {
    let t = trim(raw);
    if t.len() == 0 {
        (0, 0, false)
    } else {
        let ws = words(t);
        let behind = if ws.len() > 0 {
            count_or_zero(ws[0])
        } else {
            0
        };
        let ahead = if ws.len() > 1 {
            count_or_zero(ws[1])
        } else {
            0
        };
        (ahead, behind, true)
    }
}

proof fn lemma_count_read_back(n: u32)
    ensures
        count_or_zero(decimal_spec(n as nat)) == n,
        forall|i: int| 0 <= i < decimal_spec(n as nat).len() ==> !is_ws(#[trigger] decimal_spec(n as nat)[i]),
{
    let d = decimal_spec(n as nat);
    lemma_decimal_digits(n as nat);
    assert(d[0] != '+');
    assert forall|i: int| 0 <= i < d.len() implies !is_ws(#[trigger] d[i]) by {
        assert('0' <= d[i] <= '9');
    }
}

/// The counts read back: what `git rev-list --left-right --count` prints
/// for `behind` commits behind and `ahead` ahead, `behind<TAB>ahead`, reads
/// as those counts, with an upstream.
pub proof fn law_counts_read_back(ahead: u32, behind: u32)
    ensures
        ahead_behind(decimal_spec(behind as nat) + seq!['\t'] + decimal_spec(ahead as nat)) == (
            ahead,
            behind,
            true,
        ),
{
    let db = decimal_spec(behind as nat);
    let da = decimal_spec(ahead as nat);
    lemma_count_read_back(ahead);
    lemma_count_read_back(behind);
    lemma_decimal_digits(behind as nat);
    lemma_decimal_digits(ahead as nat);
    let p = db + seq!['\t'];
    let s = p + da;
    assert(is_ws('\t'));
    assert(s[0] == db[0]);
    assert(s[s.len() - 1] == da[da.len() - 1]);
    lemma_lead_ws(s, 0);
    assert forall|j: int| s.len() <= j < s.len() implies is_ws(#[trigger] s[j]) by {}
    lemma_trail_ws(s, s.len() as int);
    assert(trim(s) =~= s);
    lemma_words_solid(db);
    assert(p.drop_last() =~= db);
    assert(words(p) == words(db));
    lemma_words_after(p, da);
    assert(words(s) =~= seq![db, da]);
}

fn count_or_zero_exec(w: &Vec<char>) -> (r: u32)
    ensures
        r == count_or_zero(w@),
{
    let r = parse_unsigned_exec(w, 0, w.len(), 10, 0xffff_ffff);
    proof {
        assert(w@.subrange(0, w@.len() as int) == w@);
    }
    match r {
        Some(n) => n,
        None => 0,
    }
}

/// Reads the tracking counts: see `ahead_behind`.
pub fn parse_ahead_behind(raw: &str) -> (r: (u32, u32, bool))
    ensures
        r == ahead_behind(raw@),
{
    let v = to_chars(raw);
    let (a, b) = trim_range(&v, 0, v.len());
    proof {
        assert(v@.subrange(0, v@.len() as int) == v@);
    }
    if a == b {
        return (0, 0, false);
    }
    let t = sub_vec(&v, a, b);
    let ws = split_ws(&t);
    let behind = if ws.len() > 0 {
        count_or_zero_exec(&ws[0])
    } else {
        0
    };
    let ahead = if ws.len() > 1 {
        count_or_zero_exec(&ws[1])
    } else {
        0
    };
    (ahead, behind, true)
}

// ---------------------------------------------------------------------------
// Languages
// ---------------------------------------------------------------------------

/// The last component of a `/`-separated path that is neither empty nor `.`.
pub open spec fn last_component(pieces: Seq<Seq<char>>) -> Option<Seq<char>>
    decreases pieces.len(),
{
    if pieces.len() == 0 {
        None
    } else {
        let p = pieces.last();
        if p.len() == 0 || p == seq!['.'] {
            last_component(pieces.drop_last())
        } else {
            Some(p)
        }
    }
}

/// `Path::file_name` for `/`-separated paths.
pub open spec fn file_name(path: Seq<char>) -> Option<Seq<char>> {
    match last_component(split(path, '/')) {
        Some(c) => if c == seq!['.', '.'] {
            None
        } else {
            Some(c)
        },
        None => None,
    }
}

/// The index of the last `.` in `s`.
pub open spec fn last_dot(s: Seq<char>) -> Option<nat>
    decreases s.len(),
{
    if s.len() == 0 {
        None
    } else if s.last() == '.' {
        Some((s.len() - 1) as nat)
    } else {
        last_dot(s.drop_last())
    }
}

/// `Path::extension`: what follows the last `.` of the file name, unless
/// that dot opens the name.
pub open spec fn extension(path: Seq<char>) -> Option<Seq<char>> {
    match file_name(path) {
        Some(name) => match last_dot(name) {
            Some(i) => if i > 0 {
                Some(name.skip(i + 1int))
            } else {
                None
            },
            None => None,
        },
        None => None,
    }
}

/// The language named for a lower-case extension.
pub open spec fn language_for(e: Seq<char>) -> &'static str {
    if e == "js"@ || e == "jsx"@ {
        "javascript"
    } else if e == "ts"@ || e == "tsx"@ {
        "typescript"
    } else if e == "cs"@ {
        "csharp"
    } else if e == "py"@ {
        "python"
    } else if e == "rb"@ {
        "ruby"
    } else if e == "go"@ {
        "go"
    } else if e == "rs"@ {
        "rust"
    } else if e == "java"@ {
        "java"
    } else if e == "cpp"@ || e == "cc"@ || e == "cxx"@ {
        "cpp"
    } else if e == "c"@ || e == "h"@ {
        "c"
    } else if e == "css"@ {
        "css"
    } else if e == "scss"@ {
        "scss"
    } else if e == "html"@ {
        "html"
    } else if e == "xml"@ || e == "csproj"@ {
        "xml"
    } else if e == "json"@ {
        "json"
    } else if e == "yaml"@ || e == "yml"@ {
        "yaml"
    } else if e == "md"@ {
        "markdown"
    } else if e == "sql"@ {
        "sql"
    } else if e == "sh"@ || e == "bash"@ {
        "shell"
    } else if e == "ps1"@ || e == "psm1"@ {
        "powershell"
    } else if e == "toml"@ {
        "toml"
    } else if e == "dockerfile"@ {
        "dockerfile"
    } else {
        "plaintext"
    }
}

/// The language of a path: that of its ASCII-lower-cased extension, the
/// empty one where it has none.
pub open spec fn language_of(path: Seq<char>) -> &'static str {
    language_for(
        lower(
            match extension(path) {
                Some(e) => e,
                None => Seq::empty(),
            },
        ),
    )
}

fn language_for_exec(e: &Vec<char>) -> (r: &'static str)
    ensures
        r == language_for(e@),
{
    if chars_eq_str(e, "js") || chars_eq_str(e, "jsx") {
        "javascript"
    } else if chars_eq_str(e, "ts") || chars_eq_str(e, "tsx") {
        "typescript"
    } else if chars_eq_str(e, "cs") {
        "csharp"
    } else if chars_eq_str(e, "py") {
        "python"
    } else if chars_eq_str(e, "rb") {
        "ruby"
    } else if chars_eq_str(e, "go") {
        "go"
    } else if chars_eq_str(e, "rs") {
        "rust"
    } else if chars_eq_str(e, "java") {
        "java"
    } else if chars_eq_str(e, "cpp") || chars_eq_str(e, "cc") || chars_eq_str(e, "cxx") {
        "cpp"
    } else if chars_eq_str(e, "c") || chars_eq_str(e, "h") {
        "c"
    } else if chars_eq_str(e, "css") {
        "css"
    } else if chars_eq_str(e, "scss") {
        "scss"
    } else if chars_eq_str(e, "html") {
        "html"
    } else if chars_eq_str(e, "xml") || chars_eq_str(e, "csproj") {
        "xml"
    } else if chars_eq_str(e, "json") {
        "json"
    } else if chars_eq_str(e, "yaml") || chars_eq_str(e, "yml") {
        "yaml"
    } else if chars_eq_str(e, "md") {
        "markdown"
    } else if chars_eq_str(e, "sql") {
        "sql"
    } else if chars_eq_str(e, "sh") || chars_eq_str(e, "bash") {
        "shell"
    } else if chars_eq_str(e, "ps1") || chars_eq_str(e, "psm1") {
        "powershell"
    } else if chars_eq_str(e, "toml") {
        "toml"
    } else if chars_eq_str(e, "dockerfile") {
        "dockerfile"
    } else {
        "plaintext"
    }
}

/// The file name of a `/`-separated path.
pub fn file_name_exec(path: &Vec<char>) -> (r: Option<Vec<char>>)
    ensures
        r matches Some(n) ==> file_name(path@) == Some(n@),
        r is None ==> file_name(path@) is None,
{
    let pieces = split_char(path, '/');
    let ghost ps = split(path@, '/');
    let mut j = pieces.len();
    let dot = vec!['.'];
    let dotdot = vec!['.', '.'];
    proof {
        assert(ps.take(ps.len() as int) == ps);
        assert(dot@ == seq!['.']);
        assert(dotdot@ == seq!['.', '.']);
    }
    while j > 0 && (pieces[j - 1].len() == 0 || chars_eq(&pieces[j - 1], &dot))
        invariant
            j <= pieces.len(),
            pieces.len() == ps.len(),
            forall|i: int| 0 <= i < pieces.len() ==> #[trigger] pieces[i]@ == ps[i],
            last_component(ps.take(j as int)) == last_component(ps),
            dot@ == seq!['.'],
        decreases j,
    {
        proof {
            assert(ps.take(j as int).drop_last() == ps.take(j - 1));
            assert(ps.take(j as int).last() == ps[j - 1]);
        }
        j -= 1;
    }
    if j == 0 {
        proof {
            assert(ps.take(0) == Seq::<Seq<char>>::empty());
        }
        return None;
    }
    proof {
        assert(ps.take(j as int).last() == ps[j - 1]);
    }
    if chars_eq(&pieces[j - 1], &dotdot) {
        return None;
    }
    Some(sub_vec(&pieces[j - 1], 0, pieces[j - 1].len()))
}

/// The extension of a `/`-separated path.
pub fn extension_exec(path: &Vec<char>) -> (r: Option<Vec<char>>)
    ensures
        r matches Some(e) ==> extension(path@) == Some(e@),
        r is None ==> extension(path@) is None,
{
    let name = match file_name_exec(path) {
        Some(n) => n,
        None => {
            return None;
        },
    };
    proof {
        assert(name@.subrange(0, name@.len() as int) == name@);
    }
    let mut k = name.len();
    proof {
        assert(name@.take(name@.len() as int) == name@);
    }
    while k > 0 && name[k - 1] != '.'
        invariant
            k <= name.len(),
            last_dot(name@.take(k as int)) == last_dot(name@),
        decreases k,
    {
        proof {
            assert(name@.take(k as int).drop_last() == name@.take(k - 1));
        }
        k -= 1;
    }
    if k <= 1 {
        proof {
            if k == 1 {
                assert(name@.take(1).last() == name@[0]);
            } else {
                assert(name@.take(0) == Seq::<char>::empty());
            }
        }
        return None;
    }
    proof {
        assert(name@.take(k as int).last() == name@[k - 1]);
    }
    let e = sub_vec(&name, k, name.len());
    proof {
        assert(name@.subrange(k as int, name@.len() as int) == name@.skip(k as int));
    }
    Some(e)
}

/// The language of a path does not depend on the letter case of its
/// extension: two paths whose extensions differ only in ASCII case, or that
/// both have none, get one language; and a path without an extension is
/// `plaintext`.
pub proof fn law_language_ignores_case(p: Seq<char>, q: Seq<char>)
    requires
        match (extension(p), extension(q)) {
            (None, None) => true,
            (Some(a), Some(b)) => a.len() == b.len() && forall|i: int|
                0 <= i < a.len() ==> #[trigger] lower_char(a[i]) == lower_char(b[i]),
            _ => false,
        },
    ensures
        language_of(p) == language_of(q),
        extension(p) is None ==> language_of(p) == "plaintext",
{
    if let (Some(a), Some(b)) = (extension(p), extension(q)) {
        assert(lower(a) =~= lower(b));
    }
    assert(lower(Seq::<char>::empty()) =~= Seq::<char>::empty());
    reveal_strlit("js");
    reveal_strlit("jsx");
    reveal_strlit("ts");
    reveal_strlit("tsx");
    reveal_strlit("cs");
    reveal_strlit("py");
    reveal_strlit("rb");
    reveal_strlit("go");
    reveal_strlit("rs");
    reveal_strlit("java");
    reveal_strlit("cpp");
    reveal_strlit("cc");
    reveal_strlit("cxx");
    reveal_strlit("c");
    reveal_strlit("h");
    reveal_strlit("css");
    reveal_strlit("scss");
    reveal_strlit("html");
    reveal_strlit("xml");
    reveal_strlit("csproj");
    reveal_strlit("json");
    reveal_strlit("yaml");
    reveal_strlit("yml");
    reveal_strlit("md");
    reveal_strlit("sql");
    reveal_strlit("sh");
    reveal_strlit("bash");
    reveal_strlit("ps1");
    reveal_strlit("psm1");
    reveal_strlit("toml");
    reveal_strlit("dockerfile");
}

/// The ASCII-lower-cased extension of a path's file name, the empty one
/// where it has none.
pub open spec fn lower_extension(p: Seq<char>) -> Seq<char> {
    lower(
        match extension(p) {
            Some(e) => e,
            None => Seq::empty(),
        },
    )
}

/// The language table: each extension, in any letter case, names its
/// language, and any other extension, or none, gives `plaintext`.
pub proof fn law_language_table(p: Seq<char>)
    ensures
        lower_extension(p) == "js"@ ==> language_of(p) == "javascript",
        lower_extension(p) == "jsx"@ ==> language_of(p) == "javascript",
        lower_extension(p) == "ts"@ ==> language_of(p) == "typescript",
        lower_extension(p) == "tsx"@ ==> language_of(p) == "typescript",
        lower_extension(p) == "cs"@ ==> language_of(p) == "csharp",
        lower_extension(p) == "py"@ ==> language_of(p) == "python",
        lower_extension(p) == "rb"@ ==> language_of(p) == "ruby",
        lower_extension(p) == "go"@ ==> language_of(p) == "go",
        lower_extension(p) == "rs"@ ==> language_of(p) == "rust",
        lower_extension(p) == "java"@ ==> language_of(p) == "java",
        lower_extension(p) == "cpp"@ ==> language_of(p) == "cpp",
        lower_extension(p) == "cc"@ ==> language_of(p) == "cpp",
        lower_extension(p) == "cxx"@ ==> language_of(p) == "cpp",
        lower_extension(p) == "c"@ ==> language_of(p) == "c",
        lower_extension(p) == "h"@ ==> language_of(p) == "c",
        lower_extension(p) == "css"@ ==> language_of(p) == "css",
        lower_extension(p) == "scss"@ ==> language_of(p) == "scss",
        lower_extension(p) == "html"@ ==> language_of(p) == "html",
        lower_extension(p) == "xml"@ ==> language_of(p) == "xml",
        lower_extension(p) == "csproj"@ ==> language_of(p) == "xml",
        lower_extension(p) == "json"@ ==> language_of(p) == "json",
        lower_extension(p) == "yaml"@ ==> language_of(p) == "yaml",
        lower_extension(p) == "yml"@ ==> language_of(p) == "yaml",
        lower_extension(p) == "md"@ ==> language_of(p) == "markdown",
        lower_extension(p) == "sql"@ ==> language_of(p) == "sql",
        lower_extension(p) == "sh"@ ==> language_of(p) == "shell",
        lower_extension(p) == "bash"@ ==> language_of(p) == "shell",
        lower_extension(p) == "ps1"@ ==> language_of(p) == "powershell",
        lower_extension(p) == "psm1"@ ==> language_of(p) == "powershell",
        lower_extension(p) == "toml"@ ==> language_of(p) == "toml",
        lower_extension(p) == "dockerfile"@ ==> language_of(p) == "dockerfile",
        ({
            let e = lower_extension(p);
            !(e == "js"@ || e == "jsx"@ || e == "ts"@ || e == "tsx"@ || e == "cs"@ || e == "py"@ || e == "rb"@ || e == "go"@ || e == "rs"@ || e == "java"@ || e == "cpp"@ || e == "cc"@ || e == "cxx"@ || e == "c"@ || e == "h"@ || e == "css"@ || e == "scss"@ || e == "html"@ || e == "xml"@ || e == "csproj"@ || e == "json"@ || e == "yaml"@ || e == "yml"@ || e == "md"@ || e == "sql"@ || e == "sh"@ || e == "bash"@ || e == "ps1"@ || e == "psm1"@ || e == "toml"@ || e == "dockerfile"@)
        }) ==> language_of(p) == "plaintext",
{
    reveal_strlit("js");
    reveal_strlit("jsx");
    reveal_strlit("ts");
    reveal_strlit("tsx");
    reveal_strlit("cs");
    reveal_strlit("py");
    reveal_strlit("rb");
    reveal_strlit("go");
    reveal_strlit("rs");
    reveal_strlit("java");
    reveal_strlit("cpp");
    reveal_strlit("cc");
    reveal_strlit("cxx");
    reveal_strlit("c");
    reveal_strlit("h");
    reveal_strlit("css");
    reveal_strlit("scss");
    reveal_strlit("html");
    reveal_strlit("xml");
    reveal_strlit("csproj");
    reveal_strlit("json");
    reveal_strlit("yaml");
    reveal_strlit("yml");
    reveal_strlit("md");
    reveal_strlit("sql");
    reveal_strlit("sh");
    reveal_strlit("bash");
    reveal_strlit("ps1");
    reveal_strlit("psm1");
    reveal_strlit("toml");
    reveal_strlit("dockerfile");
    let e = lower_extension(p);
    if e == "js"@ {
        assert(e.len() == 2);
        assert(e[0] == 'j');
        assert(e[1] == 's');
    }
    if e == "jsx"@ {
        assert(e.len() == 3);
        assert(e[0] == 'j');
        assert(e[1] == 's');
        assert(e[2] == 'x');
        assert(e != "js"@);
    }
    if e == "ts"@ {
        assert(e.len() == 2);
        assert(e[0] == 't');
        assert(e[1] == 's');
        assert("js"@[0] != e[0]);
        assert(e != "js"@);
        assert(e != "jsx"@);
    }
    if e == "tsx"@ {
        assert(e.len() == 3);
        assert(e[0] == 't');
        assert(e[1] == 's');
        assert(e[2] == 'x');
        assert(e != "js"@);
        assert("jsx"@[0] != e[0]);
        assert(e != "jsx"@);
        assert(e != "ts"@);
    }
    if e == "cs"@ {
        assert(e.len() == 2);
        assert(e[0] == 'c');
        assert(e[1] == 's');
        assert("js"@[0] != e[0]);
        assert(e != "js"@);
        assert(e != "jsx"@);
        assert("ts"@[0] != e[0]);
        assert(e != "ts"@);
        assert(e != "tsx"@);
    }
    if e == "py"@ {
        assert(e.len() == 2);
        assert(e[0] == 'p');
        assert(e[1] == 'y');
        assert("js"@[0] != e[0]);
        assert(e != "js"@);
        assert(e != "jsx"@);
        assert("ts"@[0] != e[0]);
        assert(e != "ts"@);
        assert(e != "tsx"@);
        assert("cs"@[0] != e[0]);
        assert(e != "cs"@);
    }
    if e == "rb"@ {
        assert(e.len() == 2);
        assert(e[0] == 'r');
        assert(e[1] == 'b');
        assert("js"@[0] != e[0]);
        assert(e != "js"@);
        assert(e != "jsx"@);
        assert("ts"@[0] != e[0]);
        assert(e != "ts"@);
        assert(e != "tsx"@);
        assert("cs"@[0] != e[0]);
        assert(e != "cs"@);
        assert("py"@[0] != e[0]);
        assert(e != "py"@);
    }
    if e == "go"@ {
        assert(e.len() == 2);
        assert(e[0] == 'g');
        assert(e[1] == 'o');
        assert("js"@[0] != e[0]);
        assert(e != "js"@);
        assert(e != "jsx"@);
        assert("ts"@[0] != e[0]);
        assert(e != "ts"@);
        assert(e != "tsx"@);
        assert("cs"@[0] != e[0]);
        assert(e != "cs"@);
        assert("py"@[0] != e[0]);
        assert(e != "py"@);
        assert("rb"@[0] != e[0]);
        assert(e != "rb"@);
    }
    if e == "rs"@ {
        assert(e.len() == 2);
        assert(e[0] == 'r');
        assert(e[1] == 's');
        assert("js"@[0] != e[0]);
        assert(e != "js"@);
        assert(e != "jsx"@);
        assert("ts"@[0] != e[0]);
        assert(e != "ts"@);
        assert(e != "tsx"@);
        assert("cs"@[0] != e[0]);
        assert(e != "cs"@);
        assert("py"@[0] != e[0]);
        assert(e != "py"@);
        assert("rb"@[1] != e[1]);
        assert(e != "rb"@);
        assert("go"@[0] != e[0]);
        assert(e != "go"@);
    }
    if e == "java"@ {
        assert(e.len() == 4);
        assert(e[0] == 'j');
        assert(e[1] == 'a');
        assert(e[2] == 'v');
        assert(e[3] == 'a');
        assert(e != "js"@);
        assert(e != "jsx"@);
        assert(e != "ts"@);
        assert(e != "tsx"@);
        assert(e != "cs"@);
        assert(e != "py"@);
        assert(e != "rb"@);
        assert(e != "go"@);
        assert(e != "rs"@);
    }
    if e == "cpp"@ {
        assert(e.len() == 3);
        assert(e[0] == 'c');
        assert(e[1] == 'p');
        assert(e[2] == 'p');
        assert(e != "js"@);
        assert("jsx"@[0] != e[0]);
        assert(e != "jsx"@);
        assert(e != "ts"@);
        assert("tsx"@[0] != e[0]);
        assert(e != "tsx"@);
        assert(e != "cs"@);
        assert(e != "py"@);
        assert(e != "rb"@);
        assert(e != "go"@);
        assert(e != "rs"@);
        assert(e != "java"@);
    }
    if e == "cc"@ {
        assert(e.len() == 2);
        assert(e[0] == 'c');
        assert(e[1] == 'c');
        assert("js"@[0] != e[0]);
        assert(e != "js"@);
        assert(e != "jsx"@);
        assert("ts"@[0] != e[0]);
        assert(e != "ts"@);
        assert(e != "tsx"@);
        assert("cs"@[1] != e[1]);
        assert(e != "cs"@);
        assert("py"@[0] != e[0]);
        assert(e != "py"@);
        assert("rb"@[0] != e[0]);
        assert(e != "rb"@);
        assert("go"@[0] != e[0]);
        assert(e != "go"@);
        assert("rs"@[0] != e[0]);
        assert(e != "rs"@);
        assert(e != "java"@);
        assert(e != "cpp"@);
    }
    if e == "cxx"@ {
        assert(e.len() == 3);
        assert(e[0] == 'c');
        assert(e[1] == 'x');
        assert(e[2] == 'x');
        assert(e != "js"@);
        assert("jsx"@[0] != e[0]);
        assert(e != "jsx"@);
        assert(e != "ts"@);
        assert("tsx"@[0] != e[0]);
        assert(e != "tsx"@);
        assert(e != "cs"@);
        assert(e != "py"@);
        assert(e != "rb"@);
        assert(e != "go"@);
        assert(e != "rs"@);
        assert(e != "java"@);
        assert("cpp"@[1] != e[1]);
        assert(e != "cpp"@);
        assert(e != "cc"@);
    }
    if e == "c"@ {
        assert(e.len() == 1);
        assert(e[0] == 'c');
        assert(e != "js"@);
        assert(e != "jsx"@);
        assert(e != "ts"@);
        assert(e != "tsx"@);
        assert(e != "cs"@);
        assert(e != "py"@);
        assert(e != "rb"@);
        assert(e != "go"@);
        assert(e != "rs"@);
        assert(e != "java"@);
        assert(e != "cpp"@);
        assert(e != "cc"@);
        assert(e != "cxx"@);
    }
    if e == "h"@ {
        assert(e.len() == 1);
        assert(e[0] == 'h');
        assert(e != "js"@);
        assert(e != "jsx"@);
        assert(e != "ts"@);
        assert(e != "tsx"@);
        assert(e != "cs"@);
        assert(e != "py"@);
        assert(e != "rb"@);
        assert(e != "go"@);
        assert(e != "rs"@);
        assert(e != "java"@);
        assert(e != "cpp"@);
        assert(e != "cc"@);
        assert(e != "cxx"@);
        assert("c"@[0] != e[0]);
        assert(e != "c"@);
    }
    if e == "css"@ {
        assert(e.len() == 3);
        assert(e[0] == 'c');
        assert(e[1] == 's');
        assert(e[2] == 's');
        assert(e != "js"@);
        assert("jsx"@[0] != e[0]);
        assert(e != "jsx"@);
        assert(e != "ts"@);
        assert("tsx"@[0] != e[0]);
        assert(e != "tsx"@);
        assert(e != "cs"@);
        assert(e != "py"@);
        assert(e != "rb"@);
        assert(e != "go"@);
        assert(e != "rs"@);
        assert(e != "java"@);
        assert("cpp"@[1] != e[1]);
        assert(e != "cpp"@);
        assert(e != "cc"@);
        assert("cxx"@[1] != e[1]);
        assert(e != "cxx"@);
        assert(e != "c"@);
        assert(e != "h"@);
    }
    if e == "scss"@ {
        assert(e.len() == 4);
        assert(e[0] == 's');
        assert(e[1] == 'c');
        assert(e[2] == 's');
        assert(e[3] == 's');
        assert(e != "js"@);
        assert(e != "jsx"@);
        assert(e != "ts"@);
        assert(e != "tsx"@);
        assert(e != "cs"@);
        assert(e != "py"@);
        assert(e != "rb"@);
        assert(e != "go"@);
        assert(e != "rs"@);
        assert("java"@[0] != e[0]);
        assert(e != "java"@);
        assert(e != "cpp"@);
        assert(e != "cc"@);
        assert(e != "cxx"@);
        assert(e != "c"@);
        assert(e != "h"@);
        assert(e != "css"@);
    }
    if e == "html"@ {
        assert(e.len() == 4);
        assert(e[0] == 'h');
        assert(e[1] == 't');
        assert(e[2] == 'm');
        assert(e[3] == 'l');
        assert(e != "js"@);
        assert(e != "jsx"@);
        assert(e != "ts"@);
        assert(e != "tsx"@);
        assert(e != "cs"@);
        assert(e != "py"@);
        assert(e != "rb"@);
        assert(e != "go"@);
        assert(e != "rs"@);
        assert("java"@[0] != e[0]);
        assert(e != "java"@);
        assert(e != "cpp"@);
        assert(e != "cc"@);
        assert(e != "cxx"@);
        assert(e != "c"@);
        assert(e != "h"@);
        assert(e != "css"@);
        assert("scss"@[0] != e[0]);
        assert(e != "scss"@);
    }
    if e == "xml"@ {
        assert(e.len() == 3);
        assert(e[0] == 'x');
        assert(e[1] == 'm');
        assert(e[2] == 'l');
        assert(e != "js"@);
        assert("jsx"@[0] != e[0]);
        assert(e != "jsx"@);
        assert(e != "ts"@);
        assert("tsx"@[0] != e[0]);
        assert(e != "tsx"@);
        assert(e != "cs"@);
        assert(e != "py"@);
        assert(e != "rb"@);
        assert(e != "go"@);
        assert(e != "rs"@);
        assert(e != "java"@);
        assert("cpp"@[0] != e[0]);
        assert(e != "cpp"@);
        assert(e != "cc"@);
        assert("cxx"@[0] != e[0]);
        assert(e != "cxx"@);
        assert(e != "c"@);
        assert(e != "h"@);
        assert("css"@[0] != e[0]);
        assert(e != "css"@);
        assert(e != "scss"@);
        assert(e != "html"@);
    }
    if e == "csproj"@ {
        assert(e.len() == 6);
        assert(e[0] == 'c');
        assert(e[1] == 's');
        assert(e[2] == 'p');
        assert(e[3] == 'r');
        assert(e[4] == 'o');
        assert(e[5] == 'j');
        assert(e != "js"@);
        assert(e != "jsx"@);
        assert(e != "ts"@);
        assert(e != "tsx"@);
        assert(e != "cs"@);
        assert(e != "py"@);
        assert(e != "rb"@);
        assert(e != "go"@);
        assert(e != "rs"@);
        assert(e != "java"@);
        assert(e != "cpp"@);
        assert(e != "cc"@);
        assert(e != "cxx"@);
        assert(e != "c"@);
        assert(e != "h"@);
        assert(e != "css"@);
        assert(e != "scss"@);
        assert(e != "html"@);
        assert(e != "xml"@);
    }
    if e == "json"@ {
        assert(e.len() == 4);
        assert(e[0] == 'j');
        assert(e[1] == 's');
        assert(e[2] == 'o');
        assert(e[3] == 'n');
        assert(e != "js"@);
        assert(e != "jsx"@);
        assert(e != "ts"@);
        assert(e != "tsx"@);
        assert(e != "cs"@);
        assert(e != "py"@);
        assert(e != "rb"@);
        assert(e != "go"@);
        assert(e != "rs"@);
        assert("java"@[1] != e[1]);
        assert(e != "java"@);
        assert(e != "cpp"@);
        assert(e != "cc"@);
        assert(e != "cxx"@);
        assert(e != "c"@);
        assert(e != "h"@);
        assert(e != "css"@);
        assert("scss"@[0] != e[0]);
        assert(e != "scss"@);
        assert("html"@[0] != e[0]);
        assert(e != "html"@);
        assert(e != "xml"@);
        assert(e != "csproj"@);
    }
    if e == "yaml"@ {
        assert(e.len() == 4);
        assert(e[0] == 'y');
        assert(e[1] == 'a');
        assert(e[2] == 'm');
        assert(e[3] == 'l');
        assert(e != "js"@);
        assert(e != "jsx"@);
        assert(e != "ts"@);
        assert(e != "tsx"@);
        assert(e != "cs"@);
        assert(e != "py"@);
        assert(e != "rb"@);
        assert(e != "go"@);
        assert(e != "rs"@);
        assert("java"@[0] != e[0]);
        assert(e != "java"@);
        assert(e != "cpp"@);
        assert(e != "cc"@);
        assert(e != "cxx"@);
        assert(e != "c"@);
        assert(e != "h"@);
        assert(e != "css"@);
        assert("scss"@[0] != e[0]);
        assert(e != "scss"@);
        assert("html"@[0] != e[0]);
        assert(e != "html"@);
        assert(e != "xml"@);
        assert(e != "csproj"@);
        assert("json"@[0] != e[0]);
        assert(e != "json"@);
    }
    if e == "yml"@ {
        assert(e.len() == 3);
        assert(e[0] == 'y');
        assert(e[1] == 'm');
        assert(e[2] == 'l');
        assert(e != "js"@);
        assert("jsx"@[0] != e[0]);
        assert(e != "jsx"@);
        assert(e != "ts"@);
        assert("tsx"@[0] != e[0]);
        assert(e != "tsx"@);
        assert(e != "cs"@);
        assert(e != "py"@);
        assert(e != "rb"@);
        assert(e != "go"@);
        assert(e != "rs"@);
        assert(e != "java"@);
        assert("cpp"@[0] != e[0]);
        assert(e != "cpp"@);
        assert(e != "cc"@);
        assert("cxx"@[0] != e[0]);
        assert(e != "cxx"@);
        assert(e != "c"@);
        assert(e != "h"@);
        assert("css"@[0] != e[0]);
        assert(e != "css"@);
        assert(e != "scss"@);
        assert(e != "html"@);
        assert("xml"@[0] != e[0]);
        assert(e != "xml"@);
        assert(e != "csproj"@);
        assert(e != "json"@);
        assert(e != "yaml"@);
    }
    if e == "md"@ {
        assert(e.len() == 2);
        assert(e[0] == 'm');
        assert(e[1] == 'd');
        assert("js"@[0] != e[0]);
        assert(e != "js"@);
        assert(e != "jsx"@);
        assert("ts"@[0] != e[0]);
        assert(e != "ts"@);
        assert(e != "tsx"@);
        assert("cs"@[0] != e[0]);
        assert(e != "cs"@);
        assert("py"@[0] != e[0]);
        assert(e != "py"@);
        assert("rb"@[0] != e[0]);
        assert(e != "rb"@);
        assert("go"@[0] != e[0]);
        assert(e != "go"@);
        assert("rs"@[0] != e[0]);
        assert(e != "rs"@);
        assert(e != "java"@);
        assert(e != "cpp"@);
        assert("cc"@[0] != e[0]);
        assert(e != "cc"@);
        assert(e != "cxx"@);
        assert(e != "c"@);
        assert(e != "h"@);
        assert(e != "css"@);
        assert(e != "scss"@);
        assert(e != "html"@);
        assert(e != "xml"@);
        assert(e != "csproj"@);
        assert(e != "json"@);
        assert(e != "yaml"@);
        assert(e != "yml"@);
    }
    if e == "sql"@ {
        assert(e.len() == 3);
        assert(e[0] == 's');
        assert(e[1] == 'q');
        assert(e[2] == 'l');
        assert(e != "js"@);
        assert("jsx"@[0] != e[0]);
        assert(e != "jsx"@);
        assert(e != "ts"@);
        assert("tsx"@[0] != e[0]);
        assert(e != "tsx"@);
        assert(e != "cs"@);
        assert(e != "py"@);
        assert(e != "rb"@);
        assert(e != "go"@);
        assert(e != "rs"@);
        assert(e != "java"@);
        assert("cpp"@[0] != e[0]);
        assert(e != "cpp"@);
        assert(e != "cc"@);
        assert("cxx"@[0] != e[0]);
        assert(e != "cxx"@);
        assert(e != "c"@);
        assert(e != "h"@);
        assert("css"@[0] != e[0]);
        assert(e != "css"@);
        assert(e != "scss"@);
        assert(e != "html"@);
        assert("xml"@[0] != e[0]);
        assert(e != "xml"@);
        assert(e != "csproj"@);
        assert(e != "json"@);
        assert(e != "yaml"@);
        assert("yml"@[0] != e[0]);
        assert(e != "yml"@);
        assert(e != "md"@);
    }
    if e == "sh"@ {
        assert(e.len() == 2);
        assert(e[0] == 's');
        assert(e[1] == 'h');
        assert("js"@[0] != e[0]);
        assert(e != "js"@);
        assert(e != "jsx"@);
        assert("ts"@[0] != e[0]);
        assert(e != "ts"@);
        assert(e != "tsx"@);
        assert("cs"@[0] != e[0]);
        assert(e != "cs"@);
        assert("py"@[0] != e[0]);
        assert(e != "py"@);
        assert("rb"@[0] != e[0]);
        assert(e != "rb"@);
        assert("go"@[0] != e[0]);
        assert(e != "go"@);
        assert("rs"@[0] != e[0]);
        assert(e != "rs"@);
        assert(e != "java"@);
        assert(e != "cpp"@);
        assert("cc"@[0] != e[0]);
        assert(e != "cc"@);
        assert(e != "cxx"@);
        assert(e != "c"@);
        assert(e != "h"@);
        assert(e != "css"@);
        assert(e != "scss"@);
        assert(e != "html"@);
        assert(e != "xml"@);
        assert(e != "csproj"@);
        assert(e != "json"@);
        assert(e != "yaml"@);
        assert(e != "yml"@);
        assert("md"@[0] != e[0]);
        assert(e != "md"@);
        assert(e != "sql"@);
    }
    if e == "bash"@ {
        assert(e.len() == 4);
        assert(e[0] == 'b');
        assert(e[1] == 'a');
        assert(e[2] == 's');
        assert(e[3] == 'h');
        assert(e != "js"@);
        assert(e != "jsx"@);
        assert(e != "ts"@);
        assert(e != "tsx"@);
        assert(e != "cs"@);
        assert(e != "py"@);
        assert(e != "rb"@);
        assert(e != "go"@);
        assert(e != "rs"@);
        assert("java"@[0] != e[0]);
        assert(e != "java"@);
        assert(e != "cpp"@);
        assert(e != "cc"@);
        assert(e != "cxx"@);
        assert(e != "c"@);
        assert(e != "h"@);
        assert(e != "css"@);
        assert("scss"@[0] != e[0]);
        assert(e != "scss"@);
        assert("html"@[0] != e[0]);
        assert(e != "html"@);
        assert(e != "xml"@);
        assert(e != "csproj"@);
        assert("json"@[0] != e[0]);
        assert(e != "json"@);
        assert("yaml"@[0] != e[0]);
        assert(e != "yaml"@);
        assert(e != "yml"@);
        assert(e != "md"@);
        assert(e != "sql"@);
        assert(e != "sh"@);
    }
    if e == "ps1"@ {
        assert(e.len() == 3);
        assert(e[0] == 'p');
        assert(e[1] == 's');
        assert(e[2] == '1');
        assert(e != "js"@);
        assert("jsx"@[0] != e[0]);
        assert(e != "jsx"@);
        assert(e != "ts"@);
        assert("tsx"@[0] != e[0]);
        assert(e != "tsx"@);
        assert(e != "cs"@);
        assert(e != "py"@);
        assert(e != "rb"@);
        assert(e != "go"@);
        assert(e != "rs"@);
        assert(e != "java"@);
        assert("cpp"@[0] != e[0]);
        assert(e != "cpp"@);
        assert(e != "cc"@);
        assert("cxx"@[0] != e[0]);
        assert(e != "cxx"@);
        assert(e != "c"@);
        assert(e != "h"@);
        assert("css"@[0] != e[0]);
        assert(e != "css"@);
        assert(e != "scss"@);
        assert(e != "html"@);
        assert("xml"@[0] != e[0]);
        assert(e != "xml"@);
        assert(e != "csproj"@);
        assert(e != "json"@);
        assert(e != "yaml"@);
        assert("yml"@[0] != e[0]);
        assert(e != "yml"@);
        assert(e != "md"@);
        assert("sql"@[0] != e[0]);
        assert(e != "sql"@);
        assert(e != "sh"@);
        assert(e != "bash"@);
    }
    if e == "psm1"@ {
        assert(e.len() == 4);
        assert(e[0] == 'p');
        assert(e[1] == 's');
        assert(e[2] == 'm');
        assert(e[3] == '1');
        assert(e != "js"@);
        assert(e != "jsx"@);
        assert(e != "ts"@);
        assert(e != "tsx"@);
        assert(e != "cs"@);
        assert(e != "py"@);
        assert(e != "rb"@);
        assert(e != "go"@);
        assert(e != "rs"@);
        assert("java"@[0] != e[0]);
        assert(e != "java"@);
        assert(e != "cpp"@);
        assert(e != "cc"@);
        assert(e != "cxx"@);
        assert(e != "c"@);
        assert(e != "h"@);
        assert(e != "css"@);
        assert("scss"@[0] != e[0]);
        assert(e != "scss"@);
        assert("html"@[0] != e[0]);
        assert(e != "html"@);
        assert(e != "xml"@);
        assert(e != "csproj"@);
        assert("json"@[0] != e[0]);
        assert(e != "json"@);
        assert("yaml"@[0] != e[0]);
        assert(e != "yaml"@);
        assert(e != "yml"@);
        assert(e != "md"@);
        assert(e != "sql"@);
        assert(e != "sh"@);
        assert("bash"@[0] != e[0]);
        assert(e != "bash"@);
        assert(e != "ps1"@);
    }
    if e == "toml"@ {
        assert(e.len() == 4);
        assert(e[0] == 't');
        assert(e[1] == 'o');
        assert(e[2] == 'm');
        assert(e[3] == 'l');
        assert(e != "js"@);
        assert(e != "jsx"@);
        assert(e != "ts"@);
        assert(e != "tsx"@);
        assert(e != "cs"@);
        assert(e != "py"@);
        assert(e != "rb"@);
        assert(e != "go"@);
        assert(e != "rs"@);
        assert("java"@[0] != e[0]);
        assert(e != "java"@);
        assert(e != "cpp"@);
        assert(e != "cc"@);
        assert(e != "cxx"@);
        assert(e != "c"@);
        assert(e != "h"@);
        assert(e != "css"@);
        assert("scss"@[0] != e[0]);
        assert(e != "scss"@);
        assert("html"@[0] != e[0]);
        assert(e != "html"@);
        assert(e != "xml"@);
        assert(e != "csproj"@);
        assert("json"@[0] != e[0]);
        assert(e != "json"@);
        assert("yaml"@[0] != e[0]);
        assert(e != "yaml"@);
        assert(e != "yml"@);
        assert(e != "md"@);
        assert(e != "sql"@);
        assert(e != "sh"@);
        assert("bash"@[0] != e[0]);
        assert(e != "bash"@);
        assert(e != "ps1"@);
        assert("psm1"@[0] != e[0]);
        assert(e != "psm1"@);
    }
    if e == "dockerfile"@ {
        assert(e.len() == 10);
        assert(e[0] == 'd');
        assert(e[1] == 'o');
        assert(e[2] == 'c');
        assert(e[3] == 'k');
        assert(e[4] == 'e');
        assert(e[5] == 'r');
        assert(e[6] == 'f');
        assert(e[7] == 'i');
        assert(e[8] == 'l');
        assert(e[9] == 'e');
        assert(e != "js"@);
        assert(e != "jsx"@);
        assert(e != "ts"@);
        assert(e != "tsx"@);
        assert(e != "cs"@);
        assert(e != "py"@);
        assert(e != "rb"@);
        assert(e != "go"@);
        assert(e != "rs"@);
        assert(e != "java"@);
        assert(e != "cpp"@);
        assert(e != "cc"@);
        assert(e != "cxx"@);
        assert(e != "c"@);
        assert(e != "h"@);
        assert(e != "css"@);
        assert(e != "scss"@);
        assert(e != "html"@);
        assert(e != "xml"@);
        assert(e != "csproj"@);
        assert(e != "json"@);
        assert(e != "yaml"@);
        assert(e != "yml"@);
        assert(e != "md"@);
        assert(e != "sql"@);
        assert(e != "sh"@);
        assert(e != "bash"@);
        assert(e != "ps1"@);
        assert(e != "psm1"@);
        assert(e != "toml"@);
    }
}

/// The language of a file, by the ASCII-lower-cased extension of its name
/// (`plaintext` for an unknown one or none).
pub fn detect_language(file_path: &str) -> (r: &'static str)
    ensures
        r == language_of(file_path@),
{
    let v = to_chars(file_path);
    let e = match extension_exec(&v) {
        Some(e) => e,
        None => Vec::new(),
    };
    let le = lower_exec(&e);
    language_for_exec(&le)
}

// ---------------------------------------------------------------------------
// Commands that change the repository
// ---------------------------------------------------------------------------

/// The views of a list of strings.
pub open spec fn string_views(v: Seq<String>) -> Seq<Seq<char>> {
    v.map_values(|s: String| s@)
}

fn owned(s: &str) -> (r: String)
    ensures
        r@ == s@,
{
    s.to_owned()
}

/// `fixed` followed by copies of `paths`.
fn args_then_paths(fixed: Vec<String>, paths: &Vec<String>) -> (r: Vec<String>)
    ensures
        string_views(r@) == string_views(fixed@) + string_views(paths@),
{
    let mut r = fixed;
    let ghost start = string_views(r@);
    for i in 0..paths.len()
        invariant
            string_views(r@) == start + string_views(paths@).take(i as int),
    {
        let ghost prev = r@;
        r.push(paths[i].clone());
        proof {
            assert(string_views(r@) =~= string_views(prev).push(paths@[i as int]@));
            assert(string_views(paths@).take(i + 1) =~= string_views(paths@).take(i as int).push(
                paths@[i as int]@,
            ));
        }
    }
    proof {
        assert(string_views(paths@).take(paths@.len() as int) == string_views(paths@));
    }
    r
}

/// The arguments of `git commit` with the trimmed message, or the error
/// `Commit message is empty` where the message is blank.
pub fn commit(message: &str) -> (r: Result<Vec<String>, String>)
    ensures
        trim(message@).len() == 0 <==> r is Err,
        r matches Err(e) ==> e@ == "Commit message is empty"@,
        r matches Ok(args) ==> string_views(args@) == seq!["commit"@, "-m"@, trim(message@)],
{
    let msg = trim_string(message);
    if msg.as_str().is_empty() {
        return Err(owned("Commit message is empty"));
    }
    let args = vec![owned("commit"), owned("-m"), msg];
    proof {
        assert(string_views(args@) =~= seq!["commit"@, "-m"@, trim(message@)]);
    }
    Ok(args)
}

/// What a finished git run gives back: on success its output without the
/// whitespace at its end; on failure its error output trimmed, or `git
/// <arguments> failed` where that is blank.
pub open spec fn git_result(success: bool, stdout: Seq<u8>, stderr: Seq<u8>, args: Seq<Seq<char>>) -> Result<
    Seq<char>,
    Seq<char>,
> {
    if success {
        Ok(trim_end(utf8_lossy(stdout)))
    } else if trim(utf8_lossy(stderr)).len() > 0 {
        Err(trim(utf8_lossy(stderr)))
    } else {
        Err("git "@ + join(args, ' ') + " failed"@)
    }
}

/// `str::trim_end` on a whole string.
fn trim_end_string(s: &String) -> (r: String)
    ensures
        r@ == trim_end(s@),
{
    let v = to_chars(s.as_str());
    let mut b = v.len();
    while b > 0 && char_is_ws(v[b - 1])
        invariant
            b <= v.len(),
            forall|j: int| b <= j < v.len() ==> is_ws(#[trigger] v@[j]),
        decreases b,
    {
        b -= 1;
    }
    proof {
        lemma_trail_ws(v@, b as int);
        assert(v@.subrange(0, b as int) =~= trim_end(v@));
    }
    string_of(&v, 0, b)
}

/// The arguments joined with spaces.
fn join_args(args: &Vec<String>) -> (r: String)
    ensures
        r@ == join(string_views(args@), ' '),
{
    let ghost av = string_views(args@);
    let mut out = String::new();
    for i in 0..args.len()
        invariant
            av == string_views(args@),
            out@ == join(av.take(i as int), ' '),
    {
        proof {
            assert(av.take(i + 1).drop_last() =~= av.take(i as int));
            assert(av.take(i + 1).last() == args@[i as int]@);
        }
        if i > 0 {
            crate::text::string_push(&mut out, ' ');
        } else {
            proof {
                assert(join(av.take(0), ' ') =~= Seq::<char>::empty());
            }
        }
        push_string(&mut out, &args[i]);
        proof {
            if i > 0 {
                assert(out@ =~= join(av.take(i as int), ' ') + seq![' '] + av[i as int]);
            } else {
                assert(out@ =~= av.take(1)[0]);
            }
        }
    }
    proof {
        assert(av.take(args.len() as int) =~= av);
    }
    out
}

/// What a finished git run with arguments `args` gives back, from whether
/// it succeeded and what it wrote to its output and error streams (see
/// `git_result`).
pub fn git_outcome(success: bool, stdout: &[u8], stderr: &[u8], args: &Vec<String>) -> (r: Result<
    String,
    String,
>)
    ensures
        match (r, git_result(success, stdout@, stderr@, string_views(args@))) {
            (Ok(o), Ok(x)) => o@ == x,
            (Err(e), Err(x)) => e@ == x,
            _ => false,
        },
{
    if success {
        let out = from_utf8_lossy(stdout);
        return Ok(trim_end_string(&out));
    }
    let err = from_utf8_lossy(stderr);
    let e = trim_string(err.as_str());
    if !e.as_str().is_empty() {
        return Err(e);
    }
    let mut msg = owned("git ");
    let joined = join_args(args);
    push_string(&mut msg, &joined);
    push_str(&mut msg, " failed");
    Err(msg)
}

/// What pushing does: the arguments of `git push`, and the summary shown
/// once it succeeded.
pub struct PushPlan {
    pub args: Vec<String>,
    pub summary: String,
}

/// How to push, given what `git rev-parse --abbrev-ref --symbolic-full-name
/// @{upstream}` printed: without an upstream, push `HEAD` to `origin` and
/// set it as upstream; with one, push to it.
pub fn push(upstream: &str) -> (r: PushPlan)
    ensures
        upstream@.len() == 0 ==> string_views(r.args@) == seq![
            "push"@,
            "-u"@,
            "origin"@,
            "HEAD"@,
        ] && r.summary@ == "Pushed and set upstream to origin"@,
        upstream@.len() != 0 ==> string_views(r.args@) == seq!["push"@] && r.summary@
            == "Pushed to "@ + upstream@,
{
    if upstream.is_empty() {
        let args = vec![owned("push"), owned("-u"), owned("origin"), owned("HEAD")];
        proof {
            assert(string_views(args@) =~= seq!["push"@, "-u"@, "origin"@, "HEAD"@]);
        }
        PushPlan { args, summary: owned("Pushed and set upstream to origin") }
    } else {
        let args = vec![owned("push")];
        proof {
            assert(string_views(args@) =~= seq!["push"@]);
        }
        let mut summary = owned("Pushed to ");
        push_str(&mut summary, upstream);
        PushPlan { args, summary }
    }
}

/// The arguments of `git add -- <paths>`; none when there is nothing to
/// stage.
pub fn stage_files(paths: &Vec<String>) -> (r: Option<Vec<String>>)
    ensures
        paths.len() == 0 <==> r is None,
        r matches Some(args) ==> string_views(args@) == seq!["add"@, "--"@] + string_views(paths@),
{
    if paths.len() == 0 {
        return None;
    }
    let fixed = vec![owned("add"), owned("--")];
    proof {
        assert(string_views(fixed@) =~= seq!["add"@, "--"@]);
    }
    Some(args_then_paths(fixed, paths))
}

/// The arguments of `git add -A`, which stages every change; the list of
/// changed files is read again afterwards (`get_changed_files`).
pub fn stage_all() -> (r: Vec<String>)
    ensures
        string_views(r@) == seq!["add"@, "-A"@],
{
    let args = vec![owned("add"), owned("-A")];
    proof {
        assert(string_views(args@) =~= seq!["add"@, "-A"@]);
    }
    args
}

/// The arguments that unstage `paths`: `git reset HEAD -- <paths>` once the
/// repository has a commit, `git rm --cached -- <paths>` before; none when
/// there is nothing to unstage.
pub fn unstage_files(paths: &Vec<String>, has_commits: bool) -> (r: Option<Vec<String>>)
    ensures
        paths.len() == 0 <==> r is None,
        r matches Some(args) ==> string_views(args@) == (if has_commits {
            seq!["reset"@, "HEAD"@, "--"@]
        } else {
            seq!["rm"@, "--cached"@, "--"@]
        }) + string_views(paths@),
{
    if paths.len() == 0 {
        return None;
    }
    let fixed = if has_commits {
        vec![owned("reset"), owned("HEAD"), owned("--")]
    } else {
        vec![owned("rm"), owned("--cached"), owned("--")]
    };
    proof {
        if has_commits {
            assert(string_views(fixed@) =~= seq!["reset"@, "HEAD"@, "--"@]);
        } else {
            assert(string_views(fixed@) =~= seq!["rm"@, "--cached"@, "--"@]);
        }
    }
    Some(args_then_paths(fixed, paths))
}

/// The arguments of `git checkout -- <paths>`; none when there is nothing
/// to discard.
pub fn discard_files(paths: &Vec<String>) -> (r: Option<Vec<String>>)
    ensures
        paths.len() == 0 <==> r is None,
        r matches Some(args) ==> string_views(args@) == seq!["checkout"@, "--"@] + string_views(
            paths@,
        ),
{
    if paths.len() == 0 {
        return None;
    }
    let fixed = vec![owned("checkout"), owned("--")];
    proof {
        assert(string_views(fixed@) =~= seq!["checkout"@, "--"@]);
    }
    Some(args_then_paths(fixed, paths))
}

/// Whether `git rev-parse HEAD` printed anything, that is, whether the
/// repository has a commit.
pub fn has_commits(head_rev: &str) -> (r: bool)
    ensures
        r == (head_rev@.len() != 0),
{
    !head_rev.is_empty()
}

// ---------------------------------------------------------------------------
// Repository summary
// ---------------------------------------------------------------------------

#[derive(Debug, Clone)]
pub struct RepoInfo {
    pub repo_name: String,
    pub branch: String,
    pub repo_path: String,
    pub ahead: u32,
    pub behind: u32,
    pub has_upstream: bool,
}

/// The name shown for a repository: the file name of its path, or the whole
/// path where it has none.
pub open spec fn repo_name_of(path: Seq<char>) -> Seq<char> {
    match file_name(path) {
        Some(n) => n,
        None => path,
    }
}

/// The branch shown: the current branch, or, in a detached `HEAD`, the short
/// commit name.
pub open spec fn branch_shown(current: Seq<char>, short_head: Option<Seq<char>>) -> Seq<char> {
    if current.len() != 0 {
        current
    } else {
        match short_head {
            Some(h) => h,
            None => Seq::empty(),
        }
    }
}

/// The summary of a repository out of what `git branch --show-current`,
/// `git rev-parse --short HEAD` (asked only when the first printed nothing)
/// and the tracking counts printed.
pub fn get_repo_info(
    repo_path: &str,
    current_branch: String,
    short_head: Option<String>,
    counts: &str,
) -> (r: RepoInfo)
    ensures
        r.repo_path@ == repo_path@,
        r.repo_name@ == repo_name_of(repo_path@),
        r.branch@ == branch_shown(current_branch@, short_head.deep_view()),
        (r.ahead, r.behind, r.has_upstream) == ahead_behind(counts@),
{
    let branch = if !current_branch.as_str().is_empty() {
        current_branch
    } else {
        match short_head {
            Some(h) => h,
            None => String::new(),
        }
    };
    let (ahead, behind, has_upstream) = parse_ahead_behind(counts);
    let v = to_chars(repo_path);
    let repo_name = match file_name_exec(&v) {
        Some(n) => string_from(&n),
        None => owned(repo_path),
    };
    RepoInfo { repo_name, branch, repo_path: owned(repo_path), ahead, behind, has_upstream }
}

// ---------------------------------------------------------------------------
// File contents
// ---------------------------------------------------------------------------

/// The largest number of bytes shown of a file.
pub const MAX_TEXT_BYTES: usize = 2097152;

/// What `String::from_utf8_lossy` makes of some bytes.
pub uninterp spec fn utf8_lossy(bytes: Seq<u8>) -> Seq<char>;

/// Calls `String::from_utf8_lossy`.  The contract names the result, and says
/// what the documentation says of valid UTF-8, that it is decoded as is, and
/// of the rest, that each invalid sequence becomes U+FFFD: so some bytes never
/// give an empty text.
#[verifier::external_body]
fn from_utf8_lossy(bytes: &[u8]) -> (s: String)
    ensures
        s@ == utf8_lossy(bytes@),
        bytes@.len() > 0 ==> s@.len() > 0,
        vstd::utf8::valid_utf8(bytes@) ==> s@ == vstd::utf8::decode_utf8(bytes@),
{
    String::from_utf8_lossy(bytes).into_owned()
}

/// The text shown for some file bytes: a placeholder for a binary file (one
/// with a zero byte); otherwise the bytes read as UTF-8, replacing what is
/// invalid, cut at `MAX_TEXT_BYTES` with a note where the file is longer.
pub open spec fn decoded_text(bytes: Seq<u8>) -> Seq<char> {
    if bytes.contains(0u8) {
        "(binary file)"@
    } else if bytes.len() > MAX_TEXT_BYTES {
        utf8_lossy(bytes.take(MAX_TEXT_BYTES as int)) + "\n\n… truncated (file larger than 2 MB)"@
    } else {
        utf8_lossy(bytes)
    }
}

/// Decodes file bytes for display: see `decoded_text`.
pub fn decode_bytes(bytes: &[u8]) -> (r: String)
    ensures
        r@ == decoded_text(bytes@),
        bytes@.len() > 0 ==> r@.len() > 0,
        !bytes@.contains(0u8) && bytes@.len() <= MAX_TEXT_BYTES && vstd::utf8::valid_utf8(bytes@)
            ==> r@ == vstd::utf8::decode_utf8(bytes@),
{
    let mut i: usize = 0;
    while i < bytes.len()
        invariant
            i <= bytes@.len(),
            forall|j: int| 0 <= j < i ==> bytes@[j] != 0u8,
        decreases bytes@.len() - i,
    {
        if bytes[i] == 0u8 {
            proof {
                reveal_strlit("(binary file)");
            }
            return owned("(binary file)");
        }
        i += 1;
    }
    if bytes.len() > MAX_TEXT_BYTES {
        let mut text = from_utf8_lossy(&bytes[0..MAX_TEXT_BYTES]);
        push_str(&mut text, "\n\n… truncated (file larger than 2 MB)");
        proof {
            assert(bytes@.subrange(0, MAX_TEXT_BYTES as int) == bytes@.take(MAX_TEXT_BYTES as int));
        }
        text
    } else {
        from_utf8_lossy(bytes)
    }
}

/// Decodes what `git show` printed: nothing stays nothing, and only nothing
/// gives an empty text.
pub fn decode_git_bytes(bytes: &[u8]) -> (r: String)
    ensures
        r@.len() == 0 <==> bytes@.len() == 0,
        bytes@.len() != 0 ==> r@ == decoded_text(bytes@),
{
    if bytes.len() == 0 {
        return String::new();
    }
    decode_bytes(bytes)
}

/// A version of a file.
#[derive(Debug, Clone, Copy, PartialEq, Eq, Structural)]
pub enum Version {
    Head,
    Staged,
    Working,
}

/// The `git show` object name of a file's version: `HEAD:<path>` for the
/// last commit, `:<path>` for the index; none for the work tree, which is
/// read from disk.
pub fn revision_spec(file_path: &str, version: Version) -> (r: Option<String>)
    ensures
        version == Version::Head ==> (r matches Some(s) && s@ == "HEAD:"@ + file_path@),
        version == Version::Staged ==> (r matches Some(s) && s@ == ":"@ + file_path@),
        version == Version::Working ==> r is None,
{
    match version {
        Version::Head => {
            let mut s = owned("HEAD:");
            push_str(&mut s, file_path);
            Some(s)
        },
        Version::Staged => {
            let mut s = owned(":");
            push_str(&mut s, file_path);
            Some(s)
        },
        Version::Working => None,
    }
}

#[derive(Debug, Clone)]
pub struct FileDiff {
    pub original: String,
    pub modified: String,
    pub language: String,
}

/// Whether the last commit's version is needed to show a file: always for a
/// staged change, and for an unstaged one where the index holds nothing.
pub fn needs_head(staged: bool, index: &str) -> (r: bool)
    ensures
        r == (staged || index@.len() == 0),
{
    staged || index.is_empty()
}

/// The two sides of a file's diff and its language.  A staged change goes
/// from the last commit to the index; an unstaged one from the index (the
/// last commit where the index holds nothing) to the work tree.  `head` is
/// only read where `needs_head` says so, `working` only for an unstaged
/// change.
pub fn get_file_diff(file_path: &str, staged: bool, head: String, index: String, working: String) -> (r:
    FileDiff)
    ensures
        staged ==> r.original@ == head@ && r.modified@ == index@,
        !staged ==> r.modified@ == working@ && r.original@ == (if index@.len() == 0 {
            head@
        } else {
            index@
        }),
        r.language@ == language_of(file_path@)@,
{
    let (original, modified) = if staged {
        (head, index)
    } else {
        let original = if index.as_str().is_empty() {
            head
        } else {
            index
        };
        (original, working)
    };
    FileDiff { original, modified, language: owned(detect_language(file_path)) }
}

// ---------------------------------------------------------------------------
// Opening a file in an editor
// ---------------------------------------------------------------------------

/// The platform the program runs on, as far as the editor command goes.
#[derive(Debug, Clone, Copy, PartialEq, Eq, Structural)]
pub enum Platform {
    MacOs,
    Windows,
    Other,
}

pub open spec fn default_editor(os: Platform) -> &'static str {
    match os {
        Platform::MacOs => "open -a Zed {file}",
        Platform::Windows => "notepad.exe {file}",
        Platform::Other => "xdg-open {file}",
    }
}

/// The editor command used where none is configured.
pub fn default_editor_command(os: Platform) -> (r: &'static str)
    ensures
        r == default_editor(os),
{
    match os {
        Platform::MacOs => "open -a Zed {file}",
        Platform::Windows => "notepad.exe {file}",
        Platform::Other => "xdg-open {file}",
    }
}

pub open spec fn opt_str_view(o: Option<&str>) -> Option<Seq<char>> {
    match o {
        Some(s) => Some(s@),
        None => None,
    }
}

/// The command template: the configured one unless it is blank.
pub open spec fn editor_template(cmd: Option<Seq<char>>, os: Platform) -> Seq<char> {
    match cmd {
        Some(c) => if trim(c).len() > 0 {
            c
        } else {
            default_editor(os)@
        },
        None => default_editor(os)@,
    }
}

/// The words of a template, `{file}` replaced by the file's path wherever it
/// occurs in them, the empty ones dropped.
pub open spec fn editor_words(ws: Seq<Seq<char>>, abs: Seq<char>) -> Seq<Seq<char>>
    decreases ws.len(),
{
    if ws.len() == 0 {
        Seq::empty()
    } else {
        let prev = editor_words(ws.drop_last(), abs);
        let w = replace_all(ws.last(), "{file}"@, abs);
        if w.len() > 0 {
            prev.push(w)
        } else {
            prev
        }
    }
}

/// The command line that opens `abs` in the editor: the template's words
/// with the path in place of `{file}`, the path appended where the template
/// has no `{file}`.
pub open spec fn editor_argv(abs: Seq<char>, cmd: Option<Seq<char>>, os: Platform) -> Seq<
    Seq<char>,
> {
    let tmpl = editor_template(cmd, os);
    let parts = editor_words(words(tmpl), abs);
    if contains(tmpl, "{file}"@) {
        parts
    } else {
        parts.push(abs)
    }
}

proof fn lemma_editor_words_keep(ws: Seq<Seq<char>>, abs: Seq<char>, i: int)
    requires
        0 <= i < ws.len(),
        replace_all(ws[i], "{file}"@, abs).len() > 0,
    ensures
        editor_words(ws, abs).contains(replace_all(ws[i], "{file}"@, abs)),
    decreases ws.len(),
{
    let w = replace_all(ws[i], "{file}"@, abs);
    let prev = editor_words(ws.drop_last(), abs);
    if i == ws.len() - 1 {
        assert(ws.last() == ws[i]);
        assert(prev.push(w)[prev.len() as int] == w);
    } else {
        assert(ws.drop_last()[i] == ws[i]);
        lemma_editor_words_keep(ws.drop_last(), abs, i);
        let k = choose|k: int| 0 <= k < prev.len() && prev[k] == w;
        let last = replace_all(ws.last(), "{file}"@, abs);
        if last.len() > 0 {
            assert(prev.push(last)[k] == w);
        }
    }
}

/// The editor always gets the file: where the template has no `{file}`, the
/// path is the last word of the command line; and each word of the
/// template that holds `{file}` is a word of the command line with the path
/// in place of each `{file}`, so that (for a path that is not empty) it
/// holds the path.
pub proof fn law_editor_gets_path(abs: Seq<char>, cmd: Option<Seq<char>>, os: Platform)
    ensures
        !contains(editor_template(cmd, os), "{file}"@) ==> editor_argv(abs, cmd, os).len() > 0
            && editor_argv(abs, cmd, os).last() == abs,
        forall|i: int|
            0 <= i < words(editor_template(cmd, os)).len() && abs.len() > 0 && contains(
                #[trigger] words(editor_template(cmd, os))[i],
                "{file}"@,
            ) ==> editor_argv(abs, cmd, os).contains(
                replace_all(words(editor_template(cmd, os))[i], "{file}"@, abs),
            ) && contains(replace_all(words(editor_template(cmd, os))[i], "{file}"@, abs), abs),
{
    let tmpl = editor_template(cmd, os);
    let ws = words(tmpl);
    let parts = editor_words(ws, abs);
    assert forall|i: int|
        0 <= i < ws.len() && abs.len() > 0 && contains(#[trigger] ws[i], "{file}"@) implies editor_argv(
        abs,
        cmd,
        os,
    ).contains(replace_all(ws[i], "{file}"@, abs)) && contains(
        replace_all(ws[i], "{file}"@, abs),
        abs,
    ) by {
        reveal_strlit("{file}");
        let r = replace_all(ws[i], "{file}"@, abs);
        lemma_replace_leaves_rep(ws[i], "{file}"@, abs);
        lemma_find_from_some(r, abs, 0);
        let k = choose|k: int| 0 <= k && #[trigger] matches_at(r, abs, k);
        assert(r.len() > 0);
        lemma_editor_words_keep(ws, abs, i);
        let j = choose|j: int| 0 <= j < parts.len() && parts[j] == r;
        if !contains(tmpl, "{file}"@) {
            assert(parts.push(abs)[j] == r);
        }
    }
}

/// A program and its arguments.
pub struct CommandLine {
    pub program: String,
    pub args: Vec<String>,
}

/// The editor's command line for a file: the program is the first word of
/// `editor_argv`, the arguments the others; none where `editor_argv` has no
/// word (the command is empty).
pub fn editor_command_line(abs_path: &str, editor_command: Option<&str>, os: Platform) -> (r:
    Option<CommandLine>)
    ensures
        match r {
            Some(line) => seq![line.program@] + string_views(line.args@) == editor_argv(
                abs_path@,
                opt_str_view(editor_command),
                os,
            ),
            None => editor_argv(abs_path@, opt_str_view(editor_command), os).len() == 0,
        },
{
    let template: &str = match editor_command {
        Some(c) => {
            let t = trim_string(c);
            if !t.as_str().is_empty() {
                c
            } else {
                default_editor_command(os)
            }
        },
        None => default_editor_command(os),
    };
    let ghost tmpl = editor_template(opt_str_view(editor_command), os);
    assert(template@ == tmpl);
    let tv = to_chars(template);
    let ws = split_ws(&tv);
    let abs = to_chars(abs_path);
    let file_tag = to_chars("{file}");
    let mut parts: Vec<Vec<char>> = Vec::new();
    for i in 0..ws.len()
        invariant
            abs@ == abs_path@,
            file_tag@ == "{file}"@,
            ws.len() == words(tmpl).len(),
            forall|j: int| 0 <= j < ws.len() ==> #[trigger] ws[j]@ == words(tmpl)[j],
            parts.len() == editor_words(words(tmpl).take(i as int), abs@).len(),
            forall|j: int|
                0 <= j < parts.len() ==> #[trigger] parts[j]@ == editor_words(
                    words(tmpl).take(i as int),
                    abs@,
                )[j],
    {
        proof {
            assert(words(tmpl).take(i + 1).drop_last() == words(tmpl).take(i as int));
            assert(words(tmpl).take(i + 1).last() == ws[i as int]@);
        }
        proof {
            reveal_strlit("{file}");
        }
        let w = replace_exec(&ws[i], &file_tag, &abs);
        if w.len() > 0 {
            parts.push(w);
        }
    }
    proof {
        assert(words(tmpl).take(ws.len() as int) == words(tmpl));
    }
    if !contains_exec(&tv, &file_tag) {
        parts.push(sub_vec(&abs, 0, abs.len()));
        proof {
            assert(abs@.subrange(0, abs@.len() as int) == abs@);
        }
    }
    let ghost argv = editor_argv(abs_path@, opt_str_view(editor_command), os);
    assert(parts.len() == argv.len());
    assert(forall|j: int| 0 <= j < parts.len() ==> #[trigger] parts[j]@ == argv[j]);
    if parts.len() == 0 {
        return None;
    }
    let program = string_from(&parts[0]);
    let mut args: Vec<String> = Vec::new();
    let mut m: usize = 1;
    while m < parts.len()
        invariant
            1 <= m <= parts.len(),
            parts.len() == argv.len(),
            forall|j: int| 0 <= j < parts.len() ==> #[trigger] parts[j]@ == argv[j],
            string_views(args@) == argv.subrange(1, m as int),
        decreases parts.len() - m,
    {
        let ghost prev = args@;
        args.push(string_from(&parts[m]));
        proof {
            assert(string_views(args@) =~= string_views(prev).push(argv[m as int]));
            assert(argv.subrange(1, m + 1) =~= argv.subrange(1, m as int).push(argv[m as int]));
        }
        m += 1;
    }
    proof {
        assert(seq![program@] + string_views(args@) =~= argv);
    }
    Some(CommandLine { program, args })
}

/// A PowerShell single-quoted literal: quotes doubled, then enclosed.
pub open spec fn ps_quote(s: Seq<char>) -> Seq<char> {
    seq!['\''] + replace_all(s, seq!['\''], seq!['\'', '\'']) + seq!['\'']
}

/// The quoted items joined with `, `.
pub open spec fn ps_list(items: Seq<Seq<char>>) -> Seq<char>
    decreases items.len(),
{
    if items.len() == 0 {
        Seq::empty()
    } else if items.len() == 1 {
        ps_quote(items[0])
    } else {
        ps_list(items.drop_last()) + seq![',', ' '] + ps_quote(items.last())
    }
}

/// The PowerShell command that starts a program detached, on Windows.
pub open spec fn powershell_start(exe: Seq<char>, args: Seq<Seq<char>>) -> Seq<char> {
    "Start-Process -FilePath "@ + ps_quote(exe) + if args.len() == 0 {
        Seq::empty()
    } else {
        " -ArgumentList "@ + ps_list(args)
    }
}

fn ps_quote_exec(s: &Vec<char>) -> (r: Vec<char>)
    ensures
        r@ == ps_quote(s@),
{
    let q = vec!['\''];
    let qq = vec!['\'', '\''];
    let body = replace_exec(s, &q, &qq);
    let mut r = vec!['\''];
    for i in 0..body.len()
        invariant
            r@ == seq!['\''] + body@.take(i as int),
    {
        r.push(body[i]);
        proof {
            assert(body@.take(i + 1) == body@.take(i as int).push(body@[i as int]));
        }
    }
    r.push('\'');
    proof {
        assert(body@.take(body@.len() as int) == body@);
        assert(q@ == seq!['\'']);
        assert(qq@ == seq!['\'', '\'']);
        assert(r@ =~= ps_quote(s@));
    }
    r
}

fn append_chars(r: &mut Vec<char>, t: &Vec<char>)
    ensures
        final(r)@ == old(r)@ + t@,
{
    let ghost start = r@;
    for i in 0..t.len()
        invariant
            r@ == start + t@.take(i as int),
    {
        r.push(t[i]);
        proof {
            assert(t@.take(i + 1) == t@.take(i as int).push(t@[i as int]));
        }
    }
    proof {
        assert(t@.take(t@.len() as int) == t@);
    }
}

/// The PowerShell command that starts the editor on Windows.
pub fn powershell_command(exe: &str, args: &Vec<String>) -> (r: String)
    ensures
        r@ == powershell_start(exe@, string_views(args@)),
{
    let mut out = to_chars("Start-Process -FilePath ");
    let ev = to_chars(exe);
    append_chars(&mut out, &ps_quote_exec(&ev));
    if args.len() > 0 {
        append_chars(&mut out, &to_chars(" -ArgumentList "));
        let ghost before = out@;
        let ghost items = string_views(args@);
        for i in 0..args.len()
            invariant
                items == string_views(args@),
                out@ == before + ps_list(items.take(i as int)),
        {
            proof {
                assert(items.take(i + 1).drop_last() == items.take(i as int));
                assert(items.take(i + 1).last() == args@[i as int]@);
            }
            if i > 0 {
                append_chars(&mut out, &vec![',', ' ']);
            }
            let av = to_chars(args[i].as_str());
            append_chars(&mut out, &ps_quote_exec(&av));
            proof {
                if i == 0 {
                    assert(ps_list(items.take(1)) == ps_quote(items[0]));
                    assert(ps_list(items.take(0)) =~= Seq::<char>::empty());
                }
            }
        }
        proof {
            assert(items.take(items.len() as int) == items);
        }
    }
    string_from(&out)
}

// ---------------------------------------------------------------------------
// File tree
// ---------------------------------------------------------------------------

#[derive(Debug)]
pub struct TreeNode {
    pub name: String,
    pub path: String,
    pub is_dir: bool,
    pub children: Vec<TreeNode>,
}

/// An entry of a directory as read from disk.
#[derive(Debug, Clone)]
pub struct DirEntry {
    pub name: String,
    pub is_dir: bool,
}

impl View for DirEntry {
    type V = (Seq<char>, bool);

    open spec fn view(&self) -> (Seq<char>, bool) {
        (self.name@, self.is_dir)
    }
}

/// An entry of the tree, placed: its name, its path from the repository
/// root, and whether it is a directory.
#[derive(Debug, Clone)]
pub struct TreeItem {
    pub name: String,
    pub path: String,
    pub is_dir: bool,
}

impl View for TreeItem {
    type V = (Seq<char>, Seq<char>, bool);

    open spec fn view(&self) -> (Seq<char>, Seq<char>, bool) {
        (self.name@, self.path@, self.is_dir)
    }
}

/// What `str::to_lowercase` makes of a string (Unicode lower case).
pub uninterp spec fn unicode_lower(s: Seq<char>) -> Seq<char>;

/// Calls `str::to_lowercase`; the contract names the result.
#[verifier::external_body]
fn to_lowercase(s: &str) -> (r: String)
    ensures
        r@ == unicode_lower(s@),
{
    s.to_lowercase()
}

/// Whether entry `a` is listed before entry `b`: directories first, then
/// by lower-cased name.
pub open spec fn entry_before(a: (Seq<char>, bool), b: (Seq<char>, bool)) -> bool {
    (a.1 && !b.1) || (a.1 == b.1 && seq_lt(unicode_lower(a.0), unicode_lower(b.0)))
}

/// Where `x` goes in `s`: before the first entry that it comes before.
pub open spec fn insert_pos(s: Seq<(Seq<char>, bool)>, x: (Seq<char>, bool)) -> nat
    decreases s.len(),
{
    if s.len() == 0 {
        0
    } else if entry_before(x, s[0]) {
        0
    } else {
        1 + insert_pos(s.drop_first(), x)
    }
}

/// The entries sorted by `entry_before`, entries that are equal under it
/// keeping their order (a stable sort).
pub open spec fn sort_entries(s: Seq<(Seq<char>, bool)>) -> Seq<(Seq<char>, bool)>
    decreases s.len(),
{
    if s.len() == 0 {
        Seq::empty()
    } else {
        let t = sort_entries(s.drop_last());
        t.insert(insert_pos(t, s.last()) as int, s.last())
    }
}

pub proof fn lemma_insert_pos_bound(s: Seq<(Seq<char>, bool)>, x: (Seq<char>, bool))
    ensures
        insert_pos(s, x) <= s.len(),
    decreases s.len(),
{
    if s.len() > 0 {
        lemma_insert_pos_bound(s.drop_first(), x);
    }
}

pub proof fn lemma_sort_entries_len(s: Seq<(Seq<char>, bool)>)
    ensures
        sort_entries(s).len() == s.len(),
    decreases s.len(),
{
    if s.len() > 0 {
        lemma_sort_entries_len(s.drop_last());
        lemma_insert_pos_bound(sort_entries(s.drop_last()), s.last());
    }
}

proof fn lemma_entry_before_irreflexive(a: (Seq<char>, bool))
    ensures
        !entry_before(a, a),
{
    lemma_seq_lt_irreflexive(unicode_lower(a.0));
}

proof fn lemma_entry_before_transitive(a: (Seq<char>, bool), b: (Seq<char>, bool), c: (Seq<char>, bool))
    requires
        entry_before(a, b),
        entry_before(b, c),
    ensures
        entry_before(a, c),
{
    if a.1 == b.1 && b.1 == c.1 {
        lemma_seq_lt_transitive(unicode_lower(a.0), unicode_lower(b.0), unicode_lower(c.0));
    }
}

proof fn lemma_insert_pos(s: Seq<(Seq<char>, bool)>, x: (Seq<char>, bool))
    ensures
        insert_pos(s, x) <= s.len(),
        forall|k: int| 0 <= k < insert_pos(s, x) ==> !entry_before(x, #[trigger] s[k]),
        insert_pos(s, x) < s.len() ==> entry_before(x, s[insert_pos(s, x) as int]),
    decreases s.len(),
{
    if s.len() > 0 && !entry_before(x, s[0]) {
        let t = s.drop_first();
        lemma_insert_pos(t, x);
        assert forall|k: int| 0 <= k < insert_pos(s, x) implies !entry_before(x, #[trigger] s[k]) by {
            if k > 0 {
                assert(s[k] == t[k - 1]);
            }
        }
        if insert_pos(s, x) < s.len() {
            assert(s[insert_pos(s, x) as int] == t[insert_pos(t, x) as int]);
        }
    }
}

/// Whether no entry of `s` comes after one that it goes before.
pub open spec fn entries_in_order(s: Seq<(Seq<char>, bool)>) -> bool {
    forall|i: int, j: int| 0 <= i < j < s.len() ==> !entry_before(#[trigger] s[j], #[trigger] s[i])
}

/// A directory level is listed directories first, then files, each group
/// by lower-cased name: no entry comes after one that it goes before, and
/// the entries are those read, none lost and none added.
pub proof fn law_sort_entries(s: Seq<(Seq<char>, bool)>)
    ensures
        entries_in_order(sort_entries(s)),
        sort_entries(s).to_multiset() == s.to_multiset(),
    decreases s.len(),
{
    broadcast use vstd::seq_lib::group_seq_properties;
    if s.len() == 0 {
        assert(sort_entries(s) =~= s);
    } else {
        let t = sort_entries(s.drop_last());
        let x = s.last();
        law_sort_entries(s.drop_last());
        lemma_insert_pos(t, x);
        let p = insert_pos(t, x) as int;
        let u = t.insert(p, x);
        assert(sort_entries(s) == u);
        assert forall|i: int, j: int| 0 <= i < j < u.len() implies !entry_before(#[trigger] u[j], #[trigger] u[i]) by {
            if j < p {
                assert(u[i] == t[i] && u[j] == t[j]);
            } else if j == p {
                assert(u[i] == t[i]);
            } else if i < p {
                assert(u[i] == t[i] && u[j] == t[j - 1]);
            } else if i == p {
                assert(u[j] == t[j - 1]);
                if entry_before(t[j - 1], x) {
                    assert(entry_before(x, t[p]));
                    lemma_entry_before_transitive(t[j - 1], x, t[p]);
                    if j - 1 == p {
                        lemma_entry_before_irreflexive(t[p]);
                    }
                }
            } else {
                assert(u[i] == t[i - 1] && u[j] == t[j - 1]);
            }
        }
        assert(u.remove(p) =~= t);
        assert(u[p] == x);
        assert(t.to_multiset() =~= u.to_multiset().remove(x));
        assert(u.to_multiset().count(x) > 0);
        assert(u.to_multiset() =~= t.to_multiset().insert(x));
        assert(s.drop_last().push(x) =~= s);
    }
}

/// Names that the tree leaves out.
pub open spec fn skipped_name(n: Seq<char>) -> bool {
    n == ".git"@ || n == "node_modules"@ || n == ".DS_Store"@ || n == "bin"@ || n == "obj"@ || n
        == ".vs"@ || n == "target"@
}

fn skipped_name_exec(n: &Vec<char>) -> (r: bool)
    ensures
        r == skipped_name(n@),
{
    chars_eq_str(n, ".git") || chars_eq_str(n, "node_modules") || chars_eq_str(n, ".DS_Store")
        || chars_eq_str(n, "bin") || chars_eq_str(n, "obj") || chars_eq_str(n, ".vs")
        || chars_eq_str(n, "target")
}

/// The path of `name` inside the directory at `prefix`.
pub open spec fn rel_path(prefix: Seq<char>, name: Seq<char>) -> Seq<char> {
    if prefix.len() == 0 {
        name
    } else {
        prefix + seq!['/'] + name
    }
}

pub open spec fn place_entries(prefix: Seq<char>, sorted: Seq<(Seq<char>, bool)>) -> Seq<
    (Seq<char>, Seq<char>, bool),
>
    decreases sorted.len(),
{
    if sorted.len() == 0 {
        Seq::empty()
    } else {
        let prev = place_entries(prefix, sorted.drop_last());
        let e = sorted.last();
        if skipped_name(e.0) {
            prev
        } else {
            prev.push((e.0, rel_path(prefix, e.0), e.1))
        }
    }
}

proof fn lemma_place_entries(prefix: Seq<char>, s: Seq<(Seq<char>, bool)>)
    ensures
        forall|i: int|
            0 <= i < s.len() && !skipped_name(#[trigger] s[i].0) ==> place_entries(prefix, s).contains(
                (s[i].0, rel_path(prefix, s[i].0), s[i].1),
            ),
        forall|k: int|
            0 <= k < place_entries(prefix, s).len() ==> !skipped_name(
                #[trigger] place_entries(prefix, s)[k].0,
            ),
    decreases s.len(),
{
    if s.len() > 0 {
        let t = s.drop_last();
        lemma_place_entries(prefix, t);
        let prev = place_entries(prefix, t);
        let e = s.last();
        assert forall|i: int|
            0 <= i < s.len() && !skipped_name(#[trigger] s[i].0) implies place_entries(prefix, s).contains(
            (s[i].0, rel_path(prefix, s[i].0), s[i].1),
        ) by {
            if i < t.len() {
                assert(t[i] == s[i]);
                let k = choose|k: int| 0 <= k < prev.len() && prev[k] == (t[i].0, rel_path(prefix, t[i].0), t[i].1);
                if !skipped_name(e.0) {
                    assert(prev.push((e.0, rel_path(prefix, e.0), e.1))[k] == prev[k]);
                }
            } else {
                let q = prev.push((e.0, rel_path(prefix, e.0), e.1));
                assert(q[prev.len() as int] == (e.0, rel_path(prefix, e.0), e.1));
            }
        }
        assert forall|k: int|
            0 <= k < place_entries(prefix, s).len() implies !skipped_name(
            #[trigger] place_entries(prefix, s)[k].0,
        ) by {
            if !skipped_name(e.0) && k < prev.len() {
                assert(prev.push((e.0, rel_path(prefix, e.0), e.1))[k] == prev[k]);
            }
        }
    }
}

/// A level of the file tree shows every entry read, under its path, except
/// those named `.git`, `node_modules`, `.DS_Store`, `bin`, `obj`, `.vs` and
/// `target`, which it never shows.
pub proof fn law_tree_skips_only_build_folders(prefix: Seq<char>, es: Seq<(Seq<char>, bool)>)
    ensures
        forall|i: int|
            0 <= i < es.len() && !({
                let n = (#[trigger] es[i]).0;
                (n == ".git"@ || n == "node_modules"@ || n == ".DS_Store"@ || n == "bin"@ || n == "obj"@ || n == ".vs"@ || n == "target"@)
            }) ==> place_entries(prefix, sort_entries(es)).contains(
                (es[i].0, rel_path(prefix, es[i].0), es[i].1),
            ),
        forall|k: int|
            0 <= k < place_entries(prefix, sort_entries(es)).len() ==> !({
                let n = (#[trigger] place_entries(prefix, sort_entries(es))[k]).0;
                (n == ".git"@ || n == "node_modules"@ || n == ".DS_Store"@ || n == "bin"@ || n == "obj"@ || n == ".vs"@ || n == "target"@)
            }),
{
    let t = sort_entries(es);
    law_sort_entries(es);
    lemma_place_entries(prefix, t);
    assert forall|i: int|
        0 <= i < es.len() && !({
            let n = (#[trigger] es[i]).0;
            (n == ".git"@ || n == "node_modules"@ || n == ".DS_Store"@ || n == "bin"@ || n == "obj"@ || n == ".vs"@ || n == "target"@)
        }) implies place_entries(prefix, t).contains((es[i].0, rel_path(prefix, es[i].0), es[i].1)) by {
        assert(es.to_multiset().count(es[i]) > 0) by {
            broadcast use vstd::seq_lib::group_seq_properties;
            assert(es.contains(es[i]));
        }
        assert(t.to_multiset().count(es[i]) > 0);
        assert(t.contains(es[i])) by {
            broadcast use vstd::seq_lib::group_seq_properties;
        }
        let j = choose|j: int| 0 <= j < t.len() && t[j] == es[i];
        assert(!skipped_name(t[j].0));
    }
    assert forall|k: int|
        0 <= k < place_entries(prefix, t).len() implies !({
            let n = (#[trigger] place_entries(prefix, t)[k]).0;
            (n == ".git"@ || n == "node_modules"@ || n == ".DS_Store"@ || n == "bin"@ || n == "obj"@ || n == ".vs"@ || n == "target"@)
        }) by {
        assert(!skipped_name(place_entries(prefix, t)[k].0));
    }
}

pub open spec fn dir_entry_views(es: Seq<DirEntry>) -> Seq<(Seq<char>, bool)> {
    es.map_values(|e: DirEntry| e@)
}

pub open spec fn tree_item_views(ts: Seq<TreeItem>) -> Seq<(Seq<char>, Seq<char>, bool)> {
    ts.map_values(|t: TreeItem| t@)
}

/// One level of the file tree: the entries of the directory at `prefix`,
/// sorted (`sort_entries`), without the skipped names, each with its path.
pub fn tree_level(prefix: &str, entries: &Vec<DirEntry>) -> (r: Vec<TreeItem>)
    ensures
        tree_item_views(r@) == place_entries(prefix@, sort_entries(dir_entry_views(entries@))),
{
    let ghost es = dir_entry_views(entries@);
    let mut keys: Vec<Vec<char>> = Vec::new();
    for i in 0..entries.len()
        invariant
            keys.len() == i,
            forall|j: int| 0 <= j < i ==> #[trigger] keys[j]@ == unicode_lower(entries@[j].name@),
    {
        let low = to_lowercase(entries[i].name.as_str());
        keys.push(to_chars(low.as_str()));
    }
    // Insertion sort over indices.
    let mut order: Vec<usize> = Vec::new();
    for k in 0..entries.len()
        invariant
            es == dir_entry_views(entries@),
            keys.len() == entries.len(),
            forall|j: int| 0 <= j < keys.len() ==> #[trigger] keys[j]@ == unicode_lower(entries@[j].name@),
            order.len() == k,
            forall|j: int| 0 <= j < order.len() ==> #[trigger] order[j] < entries.len(),
            order@.map_values(|j: usize| es[j as int]) == sort_entries(es.take(k as int)),
    {
        let ghost t = order@.map_values(|j: usize| es[j as int]);
        let ghost x = es[k as int];
        proof {
            assert(es.take(k + 1).drop_last() == es.take(k as int));
            assert(es.take(k + 1).last() == x);
            assert(x == entries@[k as int]@);
            assert(t.skip(0) == t);
        }
        let mut p: usize = 0;
        while p < order.len() && !(
        (entries[k].is_dir && !entries[order[p]].is_dir) || (entries[k].is_dir
            == entries[order[p]].is_dir && seq_lt_exec(&keys[k], &keys[order[p]])))
            invariant
                p <= order.len(),
                forall|j: int| 0 <= j < order.len() ==> #[trigger] order[j] < entries.len(),
                keys.len() == entries.len(),
                k < entries.len(),
                forall|j: int| 0 <= j < keys.len() ==> #[trigger] keys[j]@ == unicode_lower(entries@[j].name@),
                es == dir_entry_views(entries@),
                t == order@.map_values(|j: usize| es[j as int]),
                x == es[k as int],
                insert_pos(t, x) == p + insert_pos(t.skip(p as int), x),
            decreases order.len() - p,
        {
            proof {
                assert(t.skip(p as int)[0] == es[order@[p as int] as int]);
                assert(t.skip(p as int).drop_first() == t.skip(p + 1));
            }
            p += 1;
        }
        proof {
            if p < order.len() {
                assert(t.skip(p as int)[0] == es[order@[p as int] as int]);
            } else {
                assert(t.skip(p as int).len() == 0);
            }
            assert(insert_pos(t, x) == p);
        }
        order.insert(p, k);
        proof {
            assert(order@.map_values(|j: usize| es[j as int]) =~= t.insert(p as int, x));
        }
    }
    proof {
        assert(es.take(entries.len() as int) == es);
    }
    let ghost sorted = sort_entries(es);
    let mut out: Vec<TreeItem> = Vec::new();
    for m in 0..order.len()
        invariant
            es == dir_entry_views(entries@),
            forall|j: int| 0 <= j < order.len() ==> #[trigger] order[j] < entries.len(),
            order@.map_values(|j: usize| es[j as int]) == sorted,
            tree_item_views(out@) == place_entries(prefix@, sorted.take(m as int)),
    {
        let e = &entries[order[m]];
        proof {
            assert(sorted.take(m + 1).drop_last() == sorted.take(m as int));
            assert(sorted.take(m + 1).last() == sorted[m as int]);
            assert(sorted[m as int] == e@);
        }
        let nv = to_chars(e.name.as_str());
        if !skipped_name_exec(&nv) {
            let path = if prefix.is_empty() {
                e.name.clone()
            } else {
                let mut p = prefix.to_owned();
                crate::text::string_push(&mut p, '/');
                push_string(&mut p, &e.name);
                p
            };
            assert(path@ =~= rel_path(prefix@, e.name@));
            let item = TreeItem { name: e.name.clone(), path, is_dir: e.is_dir };
            assert(item@ == (e.name@, rel_path(prefix@, e.name@), e.is_dir));
            let ghost prev = out@;
            out.push(item);
            proof {
                assert(tree_item_views(out@) =~= tree_item_views(prev).push(
                    (e.name@, rel_path(prefix@, e.name@), e.is_dir),
                ));
            }
        }
    }
    proof {
        lemma_sort_entries_len(es);
        assert(sorted.take(order.len() as int) == sorted);
    }
    out
}


/// Whether the tree leaves out an entry of this name (its contents need
/// not be read).
pub fn is_skipped(name: &str) -> (r: bool)
    ensures
        r == skipped_name(name@),
{
    skipped_name_exec(&to_chars(name))
}

/// An entry of a directory as read from disk; for a directory, the entries
/// read from it (none where it was not read).
#[derive(Debug)]
pub struct DiskEntry {
    pub name: String,
    pub is_dir: bool,
    pub entries: Vec<DiskEntry>,
}

pub open spec fn disk_views(es: Seq<DiskEntry>) -> Seq<(Seq<char>, bool)> {
    es.map_values(|e: DiskEntry| (e.name@, e.is_dir))
}

/// The index of the first directory named `name`.
pub open spec fn first_dir_named(es: Seq<DiskEntry>, name: Seq<char>) -> Option<int>
    decreases es.len(),
{
    if es.len() == 0 {
        None
    } else if es[0].name@ == name && es[0].is_dir {
        Some(0)
    } else {
        match first_dir_named(es.drop_first(), name) {
            Some(i) => Some(i + 1),
            None => None,
        }
    }
}

proof fn lemma_first_dir_named(es: Seq<DiskEntry>, name: Seq<char>)
    ensures
        first_dir_named(es, name) matches Some(i) ==> 0 <= i < es.len() && es[i].name@ == name
            && es[i].is_dir,
        first_dir_named(es, name) is None ==> forall|j: int|
            0 <= j < es.len() ==> !(#[trigger] es[j].name@ == name && es[j].is_dir),
    decreases es.len(),
{
    if es.len() > 0 && !(es[0].name@ == name && es[0].is_dir) {
        let t = es.drop_first();
        lemma_first_dir_named(t, name);
        match first_dir_named(t, name) {
            Some(i) => {
                assert(es[i + 1] == t[i]);
            },
            None => {
                assert forall|j: int| 0 <= j < es.len() implies !(#[trigger] es[j].name@ == name
                    && es[j].is_dir) by {
                    if j > 0 {
                        assert(es[j] == t[j - 1]);
                    }
                }
            },
        }
    }
}

/// Whether `nodes` is the file tree of the directory at `prefix` with
/// entries `es`: one node per entry that `tree_level` lists, in its order,
/// with its name, path and kind; a directory holding the tree of the first
/// directory of that name (none where there is none), a file holding
/// nothing.
pub open spec fn tree_of(prefix: Seq<char>, es: Seq<DiskEntry>, nodes: Seq<TreeNode>) -> bool
    decreases es,
{
    let items = place_entries(prefix, sort_entries(disk_views(es)));
    &&& nodes.len() == items.len()
    &&& forall|k: int|
        0 <= k < nodes.len() ==> {
            let it = items[k];
            let n = #[trigger] nodes[k];
            &&& n.name@ == it.0
            &&& n.path@ == it.1
            &&& n.is_dir == it.2
            &&& if it.2 {
                match first_dir_named(es, it.0) {
                    Some(i) => 0 <= i < es.len() && tree_of(it.1, es[i].entries@, n.children@),
                    None => n.children@.len() == 0,
                }
            } else {
                n.children@.len() == 0
            }
        }
}

fn first_dir_named_exec(es: &Vec<DiskEntry>, name: &String) -> (r: Option<usize>)
    ensures
        match first_dir_named(es@, name@) {
            Some(i) => r == Some(i as usize),
            None => r is None,
        },
        r matches Some(i) ==> i < es.len() && first_dir_named(es@, name@) == Some(i as int),
{
    proof {
        lemma_first_dir_named(es@, name@);
    }
    let mut i: usize = 0;
    while i < es.len()
        invariant
            i <= es.len(),
            forall|j: int| 0 <= j < i ==> !(#[trigger] es@[j].name@ == name@ && es@[j].is_dir),
            first_dir_named(es@, name@) matches Some(f) ==> 0 <= f < es.len() && es@[f].name@
                == name@ && es@[f].is_dir,
            first_dir_named(es@, name@) is None ==> forall|j: int|
                0 <= j < es.len() ==> !(#[trigger] es@[j].name@ == name@ && es@[j].is_dir),
        decreases es.len() - i,
    {
        if es[i].is_dir && es[i].name == *name {
            proof {
                lemma_first_dir_named_first(es@, name@, i as int);
            }
            return Some(i);
        }
        i += 1;
    }
    None
}

proof fn lemma_first_dir_named_first(es: Seq<DiskEntry>, name: Seq<char>, i: int)
    requires
        0 <= i < es.len(),
        es[i].name@ == name && es[i].is_dir,
        forall|j: int| 0 <= j < i ==> !(#[trigger] es[j].name@ == name && es[j].is_dir),
    ensures
        first_dir_named(es, name) == Some(i),
    decreases i,
{
    if i > 0 {
        let t = es.drop_first();
        assert forall|j: int| 0 <= j < i - 1 implies !(#[trigger] t[j].name@ == name && t[j].is_dir) by {
            assert(t[j] == es[j + 1]);
        }
        assert(t[i - 1] == es[i]);
        assert(!(es[0].name@ == name && es[0].is_dir));
        lemma_first_dir_named_first(t, name, i - 1);
    }
}

fn build_tree(prefix: &str, es: &Vec<DiskEntry>) -> (r: Vec<TreeNode>)
    ensures
        tree_of(prefix@, es@, r@),
    decreases es@,
{
    let mut flat: Vec<DirEntry> = Vec::new();
    for j in 0..es.len()
        invariant
            dir_entry_views(flat@) == disk_views(es@).take(j as int),
    {
        let ghost prev = flat@;
        flat.push(DirEntry { name: es[j].name.clone(), is_dir: es[j].is_dir });
        proof {
            assert(dir_entry_views(flat@) =~= dir_entry_views(prev).push((es@[j as int].name@, es@[j as int].is_dir)));
            assert(disk_views(es@).take(j + 1) =~= disk_views(es@).take(j as int).push((es@[j as int].name@, es@[j as int].is_dir)));
        }
    }
    proof {
        assert(disk_views(es@).take(es.len() as int) =~= disk_views(es@));
    }
    let items = tree_level(prefix, &flat);
    let ghost iv = place_entries(prefix@, sort_entries(disk_views(es@)));
    assert(tree_item_views(items@) == iv);
    let mut nodes: Vec<TreeNode> = Vec::new();
    for k in 0..items.len()
        invariant
            tree_item_views(items@) == iv,
            nodes.len() == k,
            forall|m: int|
                0 <= m < k ==> {
                    let it = iv[m];
                    let n = #[trigger] nodes@[m];
                    &&& n.name@ == it.0
                    &&& n.path@ == it.1
                    &&& n.is_dir == it.2
                    &&& if it.2 {
                        match first_dir_named(es@, it.0) {
                            Some(i) => 0 <= i < es@.len() && tree_of(it.1, es@[i].entries@, n.children@),
                            None => n.children@.len() == 0,
                        }
                    } else {
                        n.children@.len() == 0
                    }
                },
    {
        let item = &items[k];
        assert(item@ == iv[k as int]);
        let children: Vec<TreeNode> = if item.is_dir {
            match first_dir_named_exec(es, &item.name) {
                Some(i) => {
                    proof {
                        assert(decreases_to!(es@ => es@[i as int]));
                        assert(decreases_to!(es@[i as int] => es@[i as int].entries));
                        assert(decreases_to!(es@[i as int].entries => es@[i as int].entries@));
                    }
                    build_tree(item.path.as_str(), &es[i].entries)
                },
                None => Vec::new(),
            }
        } else {
            Vec::new()
        };
        let node = TreeNode { name: item.name.clone(), path: item.path.clone(), is_dir: item.is_dir, children };
        let ghost prev = nodes@;
        nodes.push(node);
        proof {
            assert(nodes@[k as int] == node);
            assert forall|m: int| 0 <= m < k implies nodes@[m] == prev[m] by {}
        }
    }
    nodes
}

/// The file tree of a repository read from disk (see `tree_of`).
pub fn get_file_tree(root: &Vec<DiskEntry>) -> (r: Vec<TreeNode>)
    ensures
        tree_of(Seq::empty(), root@, r@),
{
    let r = build_tree("", root);
    proof {
        reveal_strlit("");
        assert(""@ =~= Seq::<char>::empty());
    }
    r
}

} // verus!
