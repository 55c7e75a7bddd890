//! Reconciling the `tracks` table with what is on disk.
//!
//! The walk and the tag reading are I/O; what is decided from them -- which
//! files count as audio, which need their tags read again, what a file is
//! called when its tags say nothing, and how the scan's summary is kept --
//! is stated here.

use vstd::prelude::*;

use std::sync::atomic::AtomicBool;

use crate::text::{
    chars_equal, chars_of, has_word, has_word_chars, is_nonempty, lowercase, lowercase_chars,
    push_word, slice_range, split, split_chars, string_of, trim, trim_chars, views, CharClass,
};

verus! {

/// Guards against overlapping scans. Two concurrent scans would interleave
/// writes and each other's generation numbers.
pub struct ScanLock(AtomicBool);

impl ScanLock {
    /// An unlocked lock. What the flag holds is not modelled: std's atomics
    /// carry no specification of their value, and any thread may change it.
    pub fn new() -> (l: ScanLock) {
        ScanLock(AtomicBool::new(false))
    }

    /// A guard, or `None` if a scan is already running. Whether one is, is
    /// decided by the flag at the moment of asking, which another thread may
    /// change at any time; so nothing is claimed about which answer comes.
    pub fn try_acquire(&self) -> (g: Option<ScanGuard<'_>>)
        ensures
            g matches Some(guard) ==> guard.lock == self,
    {
        match self.0.compare_exchange(
            false,
            true,
            std::sync::atomic::Ordering::AcqRel,
            std::sync::atomic::Ordering::Acquire,
        ) {
            Ok(_) => Some(ScanGuard { lock: self }),
            Err(_) => None,
        }
    }
}

/// Releases the scan lock when it goes out of scope, including on early
/// return.
pub struct ScanGuard<'a> {
    pub lock: &'a ScanLock,
}

impl<'a> Drop for ScanGuard<'a> {
    fn drop(&mut self)
        opens_invariants none
        no_unwind
    {
        clear_flag(&self.lock.0);
    }
}

/// Calls `AtomicBool::store` with `Release` ordering; claimed, as its
/// documentation says: it returns (it panics only for an acquiring
/// ordering) and touches nothing but the flag.
#[verifier::external_body]
fn clear_flag(flag: &AtomicBool)
    opens_invariants none
    no_unwind
{
    flag.store(false, std::sync::atomic::Ordering::Release);
}


// --- what a file is ---------------------------------------------------------------

/// The extensions that count as audio, compared lowercased.
pub open spec fn audio_extensions() -> Seq<Seq<char>> {
    seq!["mp3"@, "flac"@, "m4a"@, "ogg"@, "opus"@, "wav"@]
}

fn audio_extension_list() -> (list: Vec<Vec<char>>)
    ensures
        views(list@) == audio_extensions(),
{
    let mut list: Vec<Vec<char>> = Vec::new();
    push_word(&mut list, "mp3");
    push_word(&mut list, "flac");
    push_word(&mut list, "m4a");
    push_word(&mut list, "ogg");
    push_word(&mut list, "opus");
    push_word(&mut list, "wav");
    proof {
        assert(views(list@) =~= audio_extensions());
    }
    list
}

/// A path's parts, split at either separator, so a path written on either
/// system reads the same; empty parts and `.` are not parts.
pub open spec fn path_parts(path: Seq<char>) -> Seq<Seq<char>> {
    split(path, CharClass::PathSeparator).filter(|p: Seq<char>| is_nonempty(p) && p != "."@)
}

/// The last part of a path, unless there is none or it is `..`.
pub open spec fn file_name_of(path: Seq<char>) -> Option<Seq<char>> {
    let parts = path_parts(path);
    if parts.len() == 0 || parts.last() == ".."@ {
        None
    } else {
        Some(parts.last())
    }
}

/// The index of the last `c` before `j`, or -1.
pub open spec fn last_index_from(s: Seq<char>, c: char, j: int) -> int
    decreases j,
{
    if 0 < j <= s.len() {
        if s[j - 1] == c {
            j - 1
        } else {
            last_index_from(s, c, j - 1)
        }
    } else {
        -1
    }
}

/// A file name without its extension: all of it when it has no `.` after
/// its first character.
pub open spec fn stem_of(name: Seq<char>) -> Seq<char> {
    let dot = last_index_from(name, '.', name.len() as int);
    if dot <= 0 {
        name
    } else {
        name.take(dot)
    }
}

/// What follows a file name's last `.`, when that is not its first character.
pub open spec fn extension_of(name: Seq<char>) -> Option<Seq<char>> {
    let dot = last_index_from(name, '.', name.len() as int);
    if dot <= 0 {
        None
    } else {
        Some(name.skip(dot + 1))
    }
}

proof fn lemma_last_index_bounds(s: Seq<char>, c: char, j: int)
    requires
        0 <= j <= s.len(),
    ensures
        -1 <= last_index_from(s, c, j) < j,
        last_index_from(s, c, j) >= 0 ==> s[last_index_from(s, c, j)] == c,
    decreases j,
{
    if 0 < j {
        lemma_last_index_bounds(s, c, j - 1);
    }
}

fn last_index(s: &[char], c: char) -> (r: Option<usize>)
    ensures
        match r {
            Some(i) => i == last_index_from(s@, c, s@.len() as int),
            None => last_index_from(s@, c, s@.len() as int) == -1,
        },
{
    let mut j: usize = s.len();
    while j > 0
        invariant
            j <= s@.len(),
            last_index_from(s@, c, s@.len() as int) == last_index_from(s@, c, j as int),
        decreases j,
    {
        if s[j - 1] == c {
            return Some(j - 1);
        }
        j = j - 1;
    }
    None
}

fn path_parts_chars(path: &[char]) -> (parts: Vec<Vec<char>>)
    ensures
        views(parts@) == path_parts(path@),
{
    let pieces = split_chars(path, CharClass::PathSeparator);
    let dot = chars_of(".");
    let ghost all = views(pieces@);
    let mut parts: Vec<Vec<char>> = Vec::new();
    let mut i: usize = 0;
    while i < pieces.len()
        invariant
            all == views(pieces@),
            dot@ == "."@,
            i <= all.len(),
            views(parts@) == all.take(i as int).filter(|p: Seq<char>| is_nonempty(p) && p != "."@),
        decreases pieces.len() - i,
    {
        proof {
            assert(all.take(i + 1) =~= all.take(i as int).push(all[i as int]));
            all.take(i as int).lemma_filter_push(all[i as int], |p: Seq<char>| is_nonempty(p) && p != "."@);
            assert(all[i as int] == pieces@[i as int]@);
        }
        if pieces[i].len() > 0 && !chars_equal(pieces[i].as_slice(), dot.as_slice()) {
            let ghost before = views(parts@);
            let copy = slice_range(pieces[i].as_slice(), 0, pieces[i].len());
            parts.push(copy);
            proof {
                assert(copy@ =~= all[i as int]);
                assert(views(parts@) =~= before.push(all[i as int]));
            }
        }
        i = i + 1;
    }
    proof {
        assert(all.take(all.len() as int) =~= all);
    }
    parts
}

fn file_name_chars(path: &[char]) -> (r: Option<Vec<char>>)
    ensures
        match r {
            Some(n) => file_name_of(path@) == Some(n@),
            None => file_name_of(path@) is None,
        },
{
    let parts = path_parts_chars(path);
    let n = parts.len();
    if n == 0 {
        return None;
    }
    proof {
        assert(views(parts@).last() == parts@[n - 1]@);
    }
    if chars_equal(parts[n - 1].as_slice(), chars_of("..").as_slice()) {
        return None;
    }
    Some(slice_range(parts[n - 1].as_slice(), 0, parts[n - 1].len()))
}

/// Whether a path names an audio file: its extension, lowercased, is one of
/// the known ones -- `.MP3` is common from older rippers.
pub open spec fn is_audio_spec(path: Seq<char>) -> bool {
    match file_name_of(path) {
        Some(name) => match extension_of(name) {
            Some(ext) => has_word(audio_extensions(), lowercase(ext)),
            None => false,
        },
        None => false,
    }
}

pub fn is_audio(path: &str) -> (b: bool)
    ensures
        b == is_audio_spec(path@),
{
    let name = match file_name_chars(chars_of(path).as_slice()) {
        Some(n) => n,
        None => {
            return false;
        },
    };
    proof {
        lemma_last_index_bounds(name@, '.', name@.len() as int);
    }
    let dot = match last_index(name.as_slice(), '.') {
        Some(d) => d,
        None => {
            return false;
        },
    };
    if dot == 0 {
        return false;
    }
    let n = name.len();
    assert(dot < n);
    let ext = slice_range(name.as_slice(), dot + 1, n);
    proof {
        assert(ext@ =~= name@.skip(dot + 1));
    }
    let lowered = lowercase_chars(ext.as_slice());
    has_word_chars(&audio_extension_list(), lowered.as_slice())
}

/// The file name without its extension -- otherwise every untagged track
/// would be titled "Song.mp3" -- or "Unknown" when the path names no file.
pub open spec fn filename_title_spec(path: Seq<char>) -> Seq<char> {
    match file_name_of(path) {
        Some(name) => stem_of(name),
        None => "Unknown"@,
    }
}

pub fn filename_title(path: &str) -> (s: String)
    ensures
        s@ == filename_title_spec(path@),
{
    let name = match file_name_chars(chars_of(path).as_slice()) {
        Some(n) => n,
        None => {
            return string_of(chars_of("Unknown").as_slice());
        },
    };
    proof {
        lemma_last_index_bounds(name@, '.', name@.len() as int);
    }
    let dot = match last_index(name.as_slice(), '.') {
        Some(d) => d,
        None => {
            return string_of(name.as_slice());
        },
    };
    if dot == 0 {
        return string_of(name.as_slice());
    }
    let stem = slice_range(name.as_slice(), 0, dot);
    proof {
        assert(stem@ =~= name@.take(dot as int));
    }
    string_of(stem.as_slice())
}

/// A tag value, trimmed, or `None` when nothing is left: dirty and absent
/// tags are the norm in a real library.
pub fn non_empty(value: &str) -> (r: Option<String>)
    ensures
        match r {
            Some(s) => trim(value@).len() > 0 && s@ == trim(value@),
            None => trim(value@).len() == 0,
        },
{
    let t = trim_chars(chars_of(value).as_slice());
    if t.len() == 0 {
        None
    } else {
        Some(string_of(t.as_slice()))
    }
}

/// Tags read from a file, with the filename fallback already applied.
pub struct Metadata {
    pub title: String,
    pub artist: Option<String>,
    pub album: Option<String>,
    pub duration_secs: Option<i64>,
    /// Key into the cover store, if the file embedded a picture that could be
    /// read.
    pub cover_key: Option<String>,
}

pub open spec fn trimmed_tag(value: Option<Seq<char>>) -> Option<Seq<char>> {
    match value {
        Some(v) => if trim(v).len() > 0 {
            Some(trim(v))
        } else {
            None
        },
        None => None,
    }
}

pub open spec fn str_opt_view(o: Option<&str>) -> Option<Seq<char>> {
    match o {
        Some(s) => Some(s@),
        None => None,
    }
}

pub open spec fn string_opt_view(o: Option<String>) -> Option<Seq<char>> {
    match o {
        Some(s) => Some(s@),
        None => None,
    }
}

fn non_empty_opt(value: Option<&str>) -> (r: Option<String>)
    ensures
        string_opt_view(r) == trimmed_tag(str_opt_view(value)),
{
    match value {
        Some(v) => non_empty(v),
        None => None,
    }
}

/// What a file's tags amount to: a missing or blank title falls back to the
/// file name; blank artist and album are absent; a zero duration -- what the
/// tag reader reports when it cannot tell -- is unknown rather than empty.
pub fn metadata_from_tags(
    path: &str,
    title: Option<&str>,
    artist: Option<&str>,
    album: Option<&str>,
    duration_secs: u64,
    cover_key: Option<String>,
) -> (m: Metadata)
    ensures
        m.title@ == match trimmed_tag(str_opt_view(title)) {
            Some(t) => t,
            None => filename_title_spec(path@),
        },
        string_opt_view(m.artist) == trimmed_tag(str_opt_view(artist)),
        string_opt_view(m.album) == trimmed_tag(str_opt_view(album)),
        m.duration_secs == (if 0 < duration_secs <= i64::MAX as u64 {
            Some(duration_secs as i64)
        } else {
            None::<i64>
        }),
        m.cover_key == cover_key,
{
    let title = match non_empty_opt(title) {
        Some(t) => t,
        None => filename_title(path),
    };
    let duration = if duration_secs > 0 && duration_secs <= i64::MAX as u64 {
        Some(duration_secs as i64)
    } else {
        None
    };
    Metadata {
        title,
        artist: non_empty_opt(artist),
        album: non_empty_opt(album),
        duration_secs: duration,
        cover_key,
    }
}

/// Which of a tag's pictures to use: the first front cover, else the first
/// picture of any kind.
pub fn preferred_picture(front_cover: &[bool]) -> (r: Option<usize>)
    ensures
        match r {
            Some(i) => i < front_cover@.len() && ((front_cover@[i as int] && forall|j: int|
                0 <= j < i ==> !front_cover@[j]) || (i == 0 && forall|j: int|
                0 <= j < front_cover@.len() ==> !front_cover@[j])),
            None => front_cover@.len() == 0,
        },
{
    let mut i: usize = 0;
    while i < front_cover.len()
        invariant
            i <= front_cover@.len(),
            forall|j: int| 0 <= j < i ==> !front_cover@[j],
        decreases front_cover.len() - i,
    {
        if front_cover[i] {
            return Some(i);
        }
        i = i + 1;
    }
    if front_cover.len() > 0 {
        Some(0)
    } else {
        None
    }
}

// --- what a scan found ---------------------------------------------------------------

/// How many abandoned paths the summary carries: enough to act on, not so
/// many that a misconfigured folder ships its whole contents through an event.
pub const MAX_REPORTED_SKIPS: usize = 20;

/// Rows written per transaction.
pub const BATCH_SIZE: usize = 500;

pub struct ScanSummary {
    /// Audio files found on disk across all scanned folders.
    pub scanned: u64,
    pub added: u64,
    pub updated: u64,
    /// Matched by mtime and size, so metadata was not read again.
    pub unchanged: u64,
    pub marked_missing: u64,
    /// Files that could not be read or parsed. They are skipped, not fatal.
    pub errors: u64,
    /// Files the scan gave up on, by name.
    pub skipped_files: Vec<String>,
    /// Folders whose root was unreachable. Their tracks were left untouched.
    pub skipped_folders: Vec<String>,
    /// Cover files deleted because nothing points at them any more.
    pub covers_removed: usize,
}

impl Default for ScanSummary {
    fn default() -> (s: ScanSummary)
        ensures
            s.scanned == 0 && s.added == 0 && s.updated == 0 && s.unchanged == 0
                && s.marked_missing == 0 && s.errors == 0 && s.skipped_files@.len() == 0
                && s.skipped_folders@.len() == 0 && s.covers_removed == 0,
    {
        ScanSummary {
            scanned: 0,
            added: 0,
            updated: 0,
            unchanged: 0,
            marked_missing: 0,
            errors: 0,
            skipped_files: Vec::new(),
            skipped_folders: Vec::new(),
            covers_removed: 0,
        }
    }
}

/// How far a scan has got.
pub struct ScanProgress {
    /// The folder being walked.
    pub folder: String,
    /// The file being read right now, so a scan that stops moving says which
    /// file it stopped on.
    pub file: Option<String>,
    pub done: u64,
    /// Files found in this folder.
    pub total: u64,
}

/// What `stat` said about a file during the walk.
pub struct FileEntry {
    pub path: String,
    pub mtime: i64,
    pub size: i64,
}

/// What the database already knows about a file.
pub struct KnownFile {
    pub path: String,
    pub mtime: i64,
    pub size: i64,
    /// Whether artwork has ever been looked for.
    pub cover_checked: bool,
}

/// What one attempt at reading a file produced.
#[derive(Debug, Clone, Copy, PartialEq, Eq, Structural)]
pub enum ReadOutcome {
    Parsed,
    /// Read to the end and made no sense of it.
    Unreadable,
    /// Gave up on it: the one verdict that could be wrong, and the only one
    /// named to the user.
    Abandoned,
}

/// The first record the database holds for `path`.
pub open spec fn known_index(known: Seq<KnownFile>, path: Seq<char>, k: int) -> int
    decreases known.len() - k,
{
    if 0 <= k < known.len() {
        if known[k].path@ == path {
            k
        } else {
            known_index(known, path, k + 1)
        }
    } else {
        -1
    }
}

/// Whether a file can be left alone: unchanged on disk, and already examined
/// for artwork when there is a store to put artwork in.
pub open spec fn unchanged_spec(entry: FileEntry, known: Seq<KnownFile>, covers: bool) -> bool {
    let i = known_index(known, entry.path@, 0);
    i >= 0 && known[i].mtime == entry.mtime && known[i].size == entry.size && (
    known[i].cover_checked || !covers)
}

proof fn lemma_known_index_bounds(known: Seq<KnownFile>, path: Seq<char>, k: int)
    requires
        0 <= k,
    ensures
        known_index(known, path, k) == -1 || (k <= known_index(known, path, k) < known.len()
            && known[known_index(known, path, k)].path@ == path),
    decreases known.len() - k,
{
    if 0 <= k < known.len() && known[k].path@ != path {
        lemma_known_index_bounds(known, path, k + 1);
    }
}

fn find_known(known: &Vec<KnownFile>, path: &[char]) -> (r: Option<usize>)
    ensures
        match r {
            Some(i) => i == known_index(known@, path@, 0),
            None => known_index(known@, path@, 0) == -1,
        },
{
    let mut k: usize = 0;
    while k < known.len()
        invariant
            k <= known@.len(),
            known_index(known@, path@, 0) == known_index(known@, path@, k as int),
        decreases known.len() - k,
    {
        if chars_equal(chars_of(known[k].path.as_str()).as_slice(), path) {
            return Some(k);
        }
        k = k + 1;
    }
    None
}

/// Whether the database has seen this path before.
pub fn is_known(known: &Vec<KnownFile>, path: &str) -> (b: bool)
    ensures
        b == (known_index(known@, path@, 0) >= 0),
{
    proof {
        lemma_known_index_bounds(known@, path@, 0);
    }
    find_known(known, chars_of(path).as_slice()).is_some()
}

/// Whether a file found on disk can skip having its tags read.
pub fn is_unchanged(entry: &FileEntry, known: &Vec<KnownFile>, covers: bool) -> (b: bool)
    ensures
        b == unchanged_spec(*entry, known@, covers),
{
    proof {
        lemma_known_index_bounds(known@, entry.path@, 0);
    }
    let i = match find_known(known, chars_of(entry.path.as_str()).as_slice()) {
        Some(i) => i,
        None => {
            return false;
        },
    };
    let k = &known[i];
    k.mtime == entry.mtime && k.size == entry.size && (k.cover_checked || !covers)
}

/// The walk's files split by what the filesystem says, in order: those that
/// can be left alone, and those whose tags have to be read.
pub fn split_by_disk(entries: Vec<FileEntry>, known: &Vec<KnownFile>, covers: bool) -> (r: (
    Vec<FileEntry>,
    Vec<FileEntry>,
))
    ensures
        r.0@ == entries@.filter(|e: FileEntry| unchanged_spec(e, known@, covers)),
        r.1@ == entries@.filter(|e: FileEntry| !unchanged_spec(e, known@, covers)),
{
    let ghost all = entries@;
    let mut unchanged: Vec<FileEntry> = Vec::new();
    let mut needs_parse: Vec<FileEntry> = Vec::new();
    proof {
        assert(all.take(0) =~= Seq::<FileEntry>::empty());
    }
    for entry in it: entries
        invariant
            it.seq() == all,
            unchanged@ == all.take(it.index() as int).filter(
                |e: FileEntry| unchanged_spec(e, known@, covers),
            ),
            needs_parse@ == all.take(it.index() as int).filter(
                |e: FileEntry| !unchanged_spec(e, known@, covers),
            ),
    {
        let ghost k = it.index();
        proof {
            assert(all.take(k + 1) =~= all.take(k as int).push(entry));
            all.take(k as int).lemma_filter_push(entry, |e: FileEntry| unchanged_spec(e, known@, covers));
            all.take(k as int).lemma_filter_push(entry, |e: FileEntry| !unchanged_spec(e, known@, covers));
        }
        if is_unchanged(&entry, known, covers) {
            unchanged.push(entry);
        } else {
            needs_parse.push(entry);
        }
    }
    proof {
        assert(all.take(all.len() as int) =~= all);
    }
    (unchanged, needs_parse)
}

impl ScanSummary {
    /// A folder whose root could not be reached: its tracks are left alone,
    /// because absence of the root is not evidence about the files under it.
    pub fn skip_folder(&mut self, path: String)
        ensures
            final(self).skipped_folders@ == old(self).skipped_folders@.push(path),
            *final(self) == (ScanSummary { skipped_folders: final(self).skipped_folders, ..*old(self) }),
    {
        self.skipped_folders.push(path);
    }

    /// What the walk of one folder found.
    pub fn record_walk(&mut self, found: u64, walk_errors: u64)
        requires
            old(self).scanned + found <= u64::MAX,
            old(self).errors + walk_errors <= u64::MAX,
        ensures
            final(self).scanned == old(self).scanned + found,
            final(self).errors == old(self).errors + walk_errors,
            *final(self) == (ScanSummary {
                scanned: final(self).scanned,
                errors: final(self).errors,
                ..*old(self)
            }),
    {
        self.scanned = self.scanned + found;
        self.errors = self.errors + walk_errors;
    }

    pub fn record_unchanged(&mut self, count: u64)
        requires
            old(self).unchanged + count <= u64::MAX,
        ensures
            final(self).unchanged == old(self).unchanged + count,
            *final(self) == (ScanSummary { unchanged: final(self).unchanged, ..*old(self) }),
    {
        self.unchanged = self.unchanged + count;
    }

    /// One file's read: a new row is counted as added and a known one as
    /// updated; a failure is an error, and an abandoned file is also named,
    /// while fewer than [`MAX_REPORTED_SKIPS`] are.
    pub fn record_read(&mut self, path: &str, outcome: ReadOutcome, is_new: bool)
        requires
            old(self).added < u64::MAX,
            old(self).updated < u64::MAX,
            old(self).errors < u64::MAX,
        ensures
            final(self).scanned == old(self).scanned,
            final(self).unchanged == old(self).unchanged,
            final(self).marked_missing == old(self).marked_missing,
            final(self).covers_removed == old(self).covers_removed,
            final(self).skipped_folders == old(self).skipped_folders,
            final(self).added == old(self).added + (if outcome == ReadOutcome::Parsed && is_new {
                1int
            } else {
                0int
            }),
            final(self).updated == old(self).updated + (if outcome == ReadOutcome::Parsed && !is_new {
                1int
            } else {
                0int
            }),
            final(self).errors == old(self).errors + (if outcome == ReadOutcome::Parsed {
                0int
            } else {
                1int
            }),
            final(self).skipped_files@.map_values(|s: String| s@) == (if outcome
                == ReadOutcome::Abandoned && old(self).skipped_files@.len() < MAX_REPORTED_SKIPS {
                old(self).skipped_files@.map_values(|s: String| s@).push(path@)
            } else {
                old(self).skipped_files@.map_values(|s: String| s@)
            }),
            final(self).skipped_files@.len() <= MAX_REPORTED_SKIPS || final(self).skipped_files@.len()
                == old(self).skipped_files@.len(),
    {
        match outcome {
            ReadOutcome::Parsed => {
                if is_new {
                    self.added = self.added + 1;
                } else {
                    self.updated = self.updated + 1;
                }
            },
            ReadOutcome::Unreadable => {
                self.errors = self.errors + 1;
            },
            ReadOutcome::Abandoned => {
                self.errors = self.errors + 1;
                if self.skipped_files.len() < MAX_REPORTED_SKIPS {
                    let ghost before = self.skipped_files@.map_values(|s: String| s@);
                    self.skipped_files.push(string_of(chars_of(path).as_slice()));
                    proof {
                        assert(self.skipped_files@.map_values(|s: String| s@) =~= before.push(path@));
                    }
                }
            },
        }
    }

    /// Rows under a folder that this scan did not see, now marked missing.
    pub fn record_missing(&mut self, count: u64)
        requires
            old(self).marked_missing + count <= u64::MAX,
        ensures
            final(self).marked_missing == old(self).marked_missing + count,
            *final(self) == (ScanSummary { marked_missing: final(self).marked_missing, ..*old(self) }),
    {
        self.marked_missing = self.marked_missing + count;
    }
}

} // verus!
