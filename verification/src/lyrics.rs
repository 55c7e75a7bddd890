//! Lyrics: parsing them, and being honest about what was found.
//!
//! A line either has a time or it does not, and [`LyricLine::at_ms`] is an
//! `Option` for exactly that reason: unsynced lyrics never carry invented
//! timestamps. [`Kind`] has three variants and a whole answer is an `Option`,
//! because "instrumental" is a positive answer and "nothing found" is not.

use vstd::prelude::*;

use vstd::math::min;
use vstd::utf8::{decode_utf8, valid_utf8};
use vstd::multiset::Multiset;

use crate::text::{
    append_chars, collapse_whitespace, collapse_whitespace_chars, has_word, has_word_chars, in_class, is_nonempty,
    lowercase, lowercase_chars, nonempty_pieces, strip, strip_chars, strip_end, strip_end_chars, strip_end_to,
    
    chars_eq_ignore_ascii_case, chars_equal, chars_of, eq_ignore_ascii_case, lines, lines_chars,
    parse_i64, parse_i64_chars, strip_start, strip_start_chars, string_of, all_digits, bounded_digits, contains_chars, contains_seq, digits_value, find_class,
    find_class_from, has_ignoring_ascii_case, class_has, strip_start_from, lemma_find_class_bounds, has_ignoring_ascii_case_chars, is_ascii_digit,
    is_ascii_digit_char, parse_digits, push_word, slice_range, split, split_chars, trim,
    trim_chars, views, CharClass, alphabetic_char, is_alphabetic, is_blank, is_collapsed,
    is_space, lemma_collapse_whitespace, join,
};

verus! {

/// How far the user may shift lyrics against the audio, either way.
pub const MAX_OFFSET_MS: i64 = 30_000;

/// Below this many timestamped lines, a "synced" parse is a false positive.
pub const MIN_SYNCED_LINES: usize = 2;

/// One line, with a time if it has one.
#[derive(Debug, Clone, PartialEq, Eq)]
pub struct LyricLine {
    /// Milliseconds from the start of the recording; `None` on unsynced
    /// lyrics.
    pub at_ms: Option<i64>,
    /// May be empty: a timestamp with no words marks an instrumental gap.
    pub text: String,
}

#[derive(Debug, Clone, Copy, PartialEq, Eq, Structural)]
pub enum Kind {
    Synced,
    Plain,
    Instrumental,
}

/// What to show for one track.
#[derive(Debug, Clone, PartialEq, Eq)]
pub struct TrackLyrics {
    pub kind: Kind,
    /// Empty when `kind` is [`Kind::Instrumental`].
    pub lines: Vec<LyricLine>,
    /// Where these came from: `sidecar`, `embedded`, or a provider name.
    pub origin: String,
    /// This track's own shift, in milliseconds.
    pub offset_ms: i64,
    /// The same lines, romanised, when the provider had them.
    pub romaji: Option<Vec<LyricLine>>,
}

pub open spec fn line_view(l: LyricLine) -> (Option<i64>, Seq<char>) {
    (l.at_ms, l.text@)
}

pub open spec fn lines_view(ls: Seq<LyricLine>) -> Seq<(Option<i64>, Seq<char>)> {
    ls.map_values(|l: LyricLine| line_view(l))
}

// --- the LRC grammar -----------------------------------------------------------

/// LRC header tags: everything here is *about* the file, not part of it.
pub open spec fn meta_keys() -> Seq<Seq<char>> {
    seq![
        "ar"@,
        "ti"@,
        "al"@,
        "au"@,
        "by"@,
        "re"@,
        "ve"@,
        "length"@,
        "offset"@,
        "la"@,
        "tool"@,
        "encoding"@,
        "id"@,
    ]
}

fn meta_key_list() -> (list: Vec<Vec<char>>)
    ensures
        views(list@) == meta_keys(),
{
    let mut list: Vec<Vec<char>> = Vec::new();
    push_word(&mut list, "ar");
    push_word(&mut list, "ti");
    push_word(&mut list, "al");
    push_word(&mut list, "au");
    push_word(&mut list, "by");
    push_word(&mut list, "re");
    push_word(&mut list, "ve");
    push_word(&mut list, "length");
    push_word(&mut list, "offset");
    push_word(&mut list, "la");
    push_word(&mut list, "tool");
    push_word(&mut list, "encoding");
    push_word(&mut list, "id");
    proof {
        assert(views(list@) =~= meta_keys());
    }
    list
}

/// `s` cut at its first `c`: what comes before and what comes after.
pub open spec fn split_once(s: Seq<char>, c: char) -> Option<(Seq<char>, Seq<char>)> {
    let i = find_class_from(s, CharClass::Exactly(c), 0);
    if i < s.len() {
        Some((s.take(i), s.skip(i + 1)))
    } else {
        None
    }
}

pub fn split_once_chars(v: &[char], c: char) -> (r: Option<(Vec<char>, Vec<char>)>)
    ensures
        match r {
            Some((a, b)) => split_once(v@, c) == Some((a@, b@)),
            None => split_once(v@, c) is None,
        },
{
    let i = find_class(v, CharClass::Exactly(c), 0);
    if i < v.len() {
        let a = slice_range(v, 0, i);
        let b = slice_range(v, i + 1, v.len());
        proof {
            assert(a@ =~= v@.take(i as int));
            assert(b@ =~= v@.skip(i + 1));
        }
        Some((a, b))
    } else {
        None
    }
}

/// A header tag: `key:value` with a known key, the key trimmed.
pub open spec fn split_meta(group: Seq<char>) -> Option<(Seq<char>, Seq<char>)> {
    match split_once(group, ':') {
        Some((key, value)) => if has_ignoring_ascii_case(meta_keys(), trim(key)) {
            Some((trim(key), value))
        } else {
            None
        },
        None => None,
    }
}

fn split_meta_chars(group: &[char], keys: &Vec<Vec<char>>) -> (r: Option<(Vec<char>, Vec<char>)>)
    requires
        views(keys@) == meta_keys(),
    ensures
        match r {
            Some((k, v)) => split_meta(group@) == Some((k@, v@)),
            None => split_meta(group@) is None,
        },
{
    match split_once_chars(group, ':') {
        Some((key, value)) => {
            let key = trim_chars(key.as_slice());
            if has_ignoring_ascii_case_chars(keys, key.as_slice()) {
                Some((key, value))
            } else {
                None
            }
        },
        None => None,
    }
}

/// A whole number of some unit: digits only, within `i64`.
pub open spec fn parse_u(field: Seq<char>) -> Option<i64> {
    match bounded_digits(trim(field), i64::MAX as int) {
        Some(v) => Some(v as i64),
        None => None,
    }
}

fn parse_u_chars(field: &[char]) -> (r: Option<i64>)
    ensures
        r == parse_u(field@),
        r matches Some(x) ==> x >= 0,
{
    let f = trim_chars(field);
    let parsed = parse_digits(f.as_slice(), 0x7fff_ffff_ffff_ffff);
    match parsed {
        Some(x) => {
            proof {
                assert(x <= i64::MAX);
            }
            Some(x as i64)
        },
        None => None,
    }
}

/// A fractional second: one digit is tenths, two centiseconds, three
/// milliseconds; anything longer is truncated rather than rejected.
pub open spec fn parse_fraction(field: Seq<char>) -> Option<i64> {
    let f = trim(field);
    if f.len() > 0 && all_digits(f) {
        let v = digits_value(f.take(min(f.len() as int, 3)));
        Some(
            (if f.len() == 1 {
                v * 100
            } else if f.len() == 2 {
                v * 10
            } else {
                v
            }) as i64,
        )
    } else {
        None
    }
}

proof fn lemma_three_digits(s: Seq<char>)
    requires
        s.len() <= 3,
        all_digits(s),
    ensures
        0 <= digits_value(s) <= 999,
        s.len() == 1 ==> digits_value(s) <= 9,
        s.len() == 2 ==> digits_value(s) <= 99,
    decreases s.len(),
{
    if s.len() > 0 {
        assert(is_ascii_digit(s.last()));
        lemma_three_digits(s.drop_last());
    }
}

fn parse_fraction_chars(field: &[char]) -> (r: Option<i64>)
    ensures
        r == parse_fraction(field@),
        r matches Some(x) ==> 0 <= x <= 999,
{
    let f = trim_chars(field);
    let len = f.len();
    if len == 0 {
        return None;
    }
    let mut i: usize = 0;
    while i < len
        invariant
            len == f@.len(),
            f@ == trim(field@),
            i <= len,
            forall|j: int| 0 <= j < i ==> is_ascii_digit(#[trigger] f@[j]),
        decreases len - i,
    {
        if !is_ascii_digit_char(f[i]) {
            proof {
                assert(!is_ascii_digit(f@[i as int]));
                assert(!all_digits(f@));
                assert(f@ == trim(field@));
                assert(parse_fraction(field@) is None);
            }
            return None;
        }
        i = i + 1;
    }
    let take = if len < 3 {
        len
    } else {
        3
    };
    let head = slice_range(f.as_slice(), 0, take);
    proof {
        assert(head@ =~= f@.take(take as int));
        assert(all_digits(head@));
        lemma_three_digits(head@);
    }
    let value = match parse_digits(head.as_slice(), 999) {
        Some(v) => v as i64,
        None => {
            return None;
        },
    };
    Some(
        if len == 1 {
            value * 100
        } else if len == 2 {
            value * 10
        } else {
            value
        },
    )
}

/// `h*3600000 + m*60000 + s*1000 + frac` milliseconds from the start of the
/// track, or `None` where that does not fit: a time is never wrapped round
/// into a negative one.
pub open spec fn millis(h: i64, m: i64, s: i64, frac: i64) -> Option<i64> {
    let t = h * 3_600_000 + m * 60_000 + s * 1_000 + frac;
    if 0 <= t <= i64::MAX {
        Some(t as i64)
    } else {
        None
    }
}

fn millis_checked(h: i64, m: i64, s: i64, frac: i64) -> (r: Option<i64>)
    requires
        h >= 0,
        m >= 0,
        s >= 0,
        0 <= frac <= 999,
    ensures
        r == millis(h, m, s, frac),
{
    let t: i128 = h as i128 * 3_600_000 + m as i128 * 60_000 + s as i128 * 1_000 + frac as i128;
    if t <= 0x7fff_ffff_ffff_ffff {
        Some(t as i64)
    } else {
        None
    }
}

/// `mm:ss`, `mm:ss.xx`, `mm:ss:xx` or `hh:mm:ss.xx`, in milliseconds. The
/// three-field forms are told apart by whether the last field carries a
/// fractional point: without one it is the legacy `mm:ss:centiseconds`.
pub open spec fn parse_timestamp(group: Seq<char>) -> Option<i64> {
    let parts = split(trim(group), CharClass::Exactly(':'));
    if parts.len() == 3 && !contains_seq(parts[2], seq!['.']) {
        match (parse_u(parts[0]), parse_u(parts[1]), parse_fraction(parts[2])) {
            (Some(m), Some(s), Some(f)) => millis(0, m, s, f),
            _ => None,
        }
    } else if parts.len() == 2 || parts.len() == 3 {
        let hours = if parts.len() == 2 {
            Some(0i64)
        } else {
            parse_u(parts[0])
        };
        let minutes = parse_u(parts[parts.len() - 2]);
        let seconds_field = parts[parts.len() - 1];
        let (seconds, frac) = match split_once(seconds_field, '.') {
            Some((s, f)) => (parse_u(s), parse_fraction(f)),
            None => (parse_u(seconds_field), Some(0i64)),
        };
        match (hours, minutes, seconds, frac) {
            (Some(h), Some(m), Some(s), Some(f)) => millis(h, m, s, f),
            _ => None,
        }
    } else {
        None
    }
}

fn parse_timestamp_chars(group: &[char]) -> (r: Option<i64>)
    ensures
        r == parse_timestamp(group@),
{
    let g = trim_chars(group);
    let parts = split_chars(g.as_slice(), CharClass::Exactly(':'));
    let n = parts.len();
    let dot: Vec<char> = vec!['.'];
    proof {
        assert(dot@ =~= seq!['.']);
    }
    if n == 3 && !contains_chars(parts[2].as_slice(), dot.as_slice()) {
        let m = parse_u_chars(parts[0].as_slice());
        let s = parse_u_chars(parts[1].as_slice());
        let f = parse_fraction_chars(parts[2].as_slice());
        return match (m, s, f) {
            (Some(m), Some(s), Some(f)) => millis_checked(0, m, s, f),
            _ => None,
        };
    }
    if n != 2 && n != 3 {
        return None;
    }
    let hours = if n == 2 {
        Some(0i64)
    } else {
        parse_u_chars(parts[0].as_slice())
    };
    let minutes = parse_u_chars(parts[n - 2].as_slice());
    let (seconds, frac) = match split_once_chars(parts[n - 1].as_slice(), '.') {
        Some((s, f)) => (parse_u_chars(s.as_slice()), parse_fraction_chars(f.as_slice())),
        None => (parse_u_chars(parts[n - 1].as_slice()), Some(0i64)),
    };
    match (hours, minutes, seconds, frac) {
        (Some(h), Some(m), Some(s), Some(f)) => millis_checked(h, m, s, f),
        _ => None,
    }
}


// --- reading LRC -----------------------------------------------------------------

pub open spec fn clamp_offset(ms: i64) -> i64 {
    if ms < -MAX_OFFSET_MS {
        (-MAX_OFFSET_MS) as i64
    } else if ms > MAX_OFFSET_MS {
        MAX_OFFSET_MS
    } else {
        ms
    }
}

/// The offset after reading header `key:value`: an `[offset:]` tag with a
/// readable number replaces it, clamped; anything else leaves it alone.
pub open spec fn offset_after(key: Seq<char>, value: Seq<char>, offset: i64) -> i64 {
    if eq_ignore_ascii_case(key, "offset"@) {
        match parse_i64(trim(value)) {
            Some(ms) => clamp_offset(ms),
            None => offset,
        }
    } else {
        offset
    }
}

/// The leading bracket groups of a line, in order, until one is neither a
/// timestamp nor a known header tag: the timestamps found, whether a header
/// was seen, the offset in force, and what is left as the line's text.
pub open spec fn scan_groups(rest: Seq<char>, times: Seq<i64>, saw_meta: bool, offset: i64) -> (
    Seq<i64>,
    bool,
    i64,
    Seq<char>,
)
    decreases rest.len(),
{
    if rest.len() > 0 && rest[0] == '[' {
        match split_once(rest.drop_first(), ']') {
            Some((group, after)) => match parse_timestamp(group) {
                Some(ms) => if after.len() < rest.len() {
                    scan_groups(after, times.push(ms), saw_meta, offset)
                } else {
                    (times, saw_meta, offset, rest)
                },
                None => match split_meta(group) {
                    Some((key, value)) => if after.len() < rest.len() {
                        scan_groups(after, times, true, offset_after(key, value, offset))
                    } else {
                        (times, saw_meta, offset, rest)
                    },
                    None => (times, saw_meta, offset, rest),
                },
            },
            None => (times, saw_meta, offset, rest),
        }
    } else {
        (times, saw_meta, offset, rest)
    }
}

/// What reading one raw line adds: timed lines, a count of untimed prose
/// lines, and the offset header in force.
pub open spec fn lrc_line(state: (Seq<(i64, Seq<char>)>, int, i64), raw: Seq<char>) -> (
    Seq<(i64, Seq<char>)>,
    int,
    i64,
) {
    let line = trim(strip_start(raw, CharClass::Exactly('\u{feff}')));
    if line.len() == 0 {
        state
    } else {
        let (times, saw_meta, offset, rest) = scan_groups(line, Seq::empty(), false, state.2);
        let text = trim(rest);
        if times.len() == 0 {
            (
                state.0,
                state.1 + (if !saw_meta && text.len() > 0 {
                    1int
                } else {
                    0int
                }),
                offset,
            )
        } else {
            (state.0 + times.map_values(|t: i64| (t, text)), state.1, offset)
        }
    }
}

pub open spec fn lrc_scan(ls: Seq<Seq<char>>) -> (Seq<(i64, Seq<char>)>, int, i64)
    decreases ls.len(),
{
    if ls.len() == 0 {
        (Seq::empty(), 0, 0)
    } else {
        lrc_line(lrc_scan(ls.drop_last()), ls.last())
    }
}

/// A time moved earlier by `offset`: never before zero, and held at the
/// largest time there is rather than wrapped round past it.
pub open spec fn shifted_time(t: i64, offset: i64) -> i64 {
    if t - offset <= 0 {
        0i64
    } else if t - offset > i64::MAX {
        i64::MAX
    } else {
        (t - offset) as i64
    }
}

/// Every line moved earlier by `offset`, never before zero.
pub open spec fn shift_by(entries: Seq<(i64, Seq<char>)>, offset: i64) -> Seq<(i64, Seq<char>)> {
    entries.map_values(|e: (i64, Seq<char>)| (shifted_time(e.0, offset), e.1))
}

/// The first index at or after `k` whose time is later than `t`.
pub open spec fn insertion_point(s: Seq<(i64, Seq<char>)>, t: i64, k: int) -> int
    decreases s.len() - k,
{
    if 0 <= k < s.len() && s[k].0 <= t {
        insertion_point(s, t, k + 1)
    } else {
        k
    }
}

/// A stable sort by time: each line goes after every earlier line whose time
/// is not later than its own.
pub open spec fn sort_by_time(s: Seq<(i64, Seq<char>)>) -> Seq<(i64, Seq<char>)>
    decreases s.len(),
{
    if s.len() == 0 {
        s
    } else {
        let sorted = sort_by_time(s.drop_last());
        sorted.insert(insertion_point(sorted, s.last().0, 0), s.last())
    }
}

/// Runs of equal neighbours reduced to their first element.
pub open spec fn dedup(s: Seq<(i64, Seq<char>)>) -> Seq<(i64, Seq<char>)>
    decreases s.len(),
{
    if s.len() <= 1 {
        s
    } else if s.last() == s[s.len() - 2] {
        dedup(s.drop_last())
    } else {
        dedup(s.drop_last()).push(s.last())
    }
}

pub open spec fn by_time(s: Seq<(i64, Seq<char>)>) -> bool {
    forall|i: int, j: int| 0 <= i < j < s.len() ==> s[i].0 <= s[j].0
}

/// LRC, or `None` when the text has no usable timing: fewer than two timed
/// lines, or more untimed prose than timed lines. Header tags never become
/// lyrics; a `[offset:]` header shifts every line; the result is in playing
/// order with exact repeats removed.
pub open spec fn lrc(text: Seq<char>) -> Option<Seq<(i64, Seq<char>)>> {
    let (entries, untimed, offset) = lrc_scan(lines(text));
    if entries.len() < MIN_SYNCED_LINES || untimed > entries.len() {
        None
    } else {
        let shifted = if offset != 0 {
            shift_by(entries, offset)
        } else {
            entries
        };
        Some(dedup(sort_by_time(shifted)))
    }
}

proof fn lemma_insertion_point(s: Seq<(i64, Seq<char>)>, t: i64, k: int)
    requires
        0 <= k <= s.len(),
        forall|j: int| 0 <= j < k ==> s[j].0 <= t,
    ensures
        k <= insertion_point(s, t, k) <= s.len(),
        forall|j: int| 0 <= j < insertion_point(s, t, k) ==> s[j].0 <= t,
        insertion_point(s, t, k) < s.len() ==> s[insertion_point(s, t, k)].0 > t,
    decreases s.len() - k,
{
    if k < s.len() && s[k].0 <= t {
        lemma_insertion_point(s, t, k + 1);
    }
}

#[verifier::spinoff_prover]
#[verifier::rlimit(40)]
proof fn lemma_sort_by_time(s: Seq<(i64, Seq<char>)>)
    ensures
        sort_by_time(s).len() == s.len(),
        by_time(sort_by_time(s)),
    decreases s.len(),
{
    if s.len() > 0 {
        lemma_sort_by_time(s.drop_last());
        let sorted = sort_by_time(s.drop_last());
        let t = s.last().0;
        lemma_insertion_point(sorted, t, 0);
        let p = insertion_point(sorted, t, 0);
        let r = sorted.insert(p, s.last());
        sorted.insert_ensures(p, s.last());
        assert forall|i: int, j: int| 0 <= i < j < r.len() implies r[i].0 <= r[j].0 by {
            if j < p {
            } else if j == p {
            } else if i < p {
                assert(r[j] == sorted[j - 1]);
                if j - 1 >= p {
                    assert(sorted[p].0 > t);
                    assert(sorted[p].0 <= sorted[j - 1].0);
                }
            } else if i == p {
                assert(r[j] == sorted[j - 1]);
                assert(sorted[p].0 > t);
                assert(sorted[p].0 <= sorted[j - 1].0);
            } else {
                assert(r[i] == sorted[i - 1]);
                assert(r[j] == sorted[j - 1]);
            }
        }
    }
}

/// A timed line while the LRC is being read.
struct Timed {
    at: i64,
    text: Vec<char>,
}

spec fn timed_view(v: Seq<Timed>) -> Seq<(i64, Seq<char>)> {
    v.map_values(|e: Timed| (e.at, e.text@))
}

fn copy_chars(v: &Vec<char>) -> (r: Vec<char>)
    ensures
        r@ == v@,
{
    slice_range(v.as_slice(), 0, v.len())
}

/// Reads the leading bracket groups of `line`.
fn scan_groups_chars(line: &[char], initial_offset: i64, keys: &Vec<Vec<char>>) -> (r: (
    Vec<i64>,
    bool,
    i64,
    Vec<char>,
))
    requires
        views(keys@) == meta_keys(),
    ensures
        scan_groups(line@, Seq::empty(), false, initial_offset) == (r.0@, r.1, r.2, r.3@),
{
    let mut times: Vec<i64> = Vec::new();
    let mut saw_meta = false;
    let mut offset = initial_offset;
    let mut rest = slice_range(line, 0, line.len());
    let ghost start = scan_groups(line@, Seq::empty(), false, offset);
    proof {
        assert(times@ =~= Seq::<i64>::empty());
        assert(rest@ =~= line@);
    }
    let offset_word = chars_of("offset");
    loop
        invariant
            views(keys@) == meta_keys(),
            offset_word@ == "offset"@,
            start == scan_groups(line@, Seq::empty(), false, initial_offset),
            start == scan_groups(rest@, times@, saw_meta, offset),
        decreases rest@.len(),
    {
        if rest.len() == 0 || rest[0] != '[' {
            proof {
                assert(scan_groups(rest@, times@, saw_meta, offset) == (times@, saw_meta, offset, rest@));
            }
            return (times, saw_meta, offset, rest);
        }
        let open = slice_range(rest.as_slice(), 1, rest.len());
        proof {
            assert(open@ =~= rest@.drop_first());
        }
        let (group, after) = match split_once_chars(open.as_slice(), ']') {
            Some(pair) => pair,
            None => {
                proof {
                    assert(scan_groups(rest@, times@, saw_meta, offset) == (times@, saw_meta, offset, rest@));
                }
                return (times, saw_meta, offset, rest);
            },
        };
        proof {
            let i = find_class_from(open@, CharClass::Exactly(']'), 0);
            lemma_find_class_bounds(open@, CharClass::Exactly(']'), 0);
            assert(after@ == open@.skip(i + 1));
            assert(after@.len() < rest@.len());
        }
        match parse_timestamp_chars(group.as_slice()) {
            Some(ms) => {
                times.push(ms);
                rest = after;
            },
            None => match split_meta_chars(group.as_slice(), keys) {
                Some((key, value)) => {
                    if chars_eq_ignore_ascii_case(key.as_slice(), offset_word.as_slice()) {
                        let v = trim_chars(value.as_slice());
                        match parse_i64_chars(v.as_slice()) {
                            Some(ms) => {
                                offset = if ms < -MAX_OFFSET_MS {
                                    -MAX_OFFSET_MS
                                } else if ms > MAX_OFFSET_MS {
                                    MAX_OFFSET_MS
                                } else {
                                    ms
                                };
                            },
                            None => {},
                        }
                    }
                    saw_meta = true;
                    rest = after;
                },
                None => {
                    proof {
                        assert(scan_groups(rest@, times@, saw_meta, offset) == (times@, saw_meta, offset, rest@));
                    }
                    return (times, saw_meta, offset, rest);
                },
            },
        }
    }
}

/// The timed lines of `ls`, how many untimed prose lines there were, and the
/// offset header in force at the end.
fn scan_lines(ls_chars: &Vec<Vec<char>>) -> (r: (Vec<Timed>, usize, i64))
    ensures
        lrc_scan(views(ls_chars@)) == (timed_view(r.0@), r.1 as int, r.2),
{
    let keys = meta_key_list();
    let mut entries: Vec<Timed> = Vec::new();
    let mut untimed: usize = 0;
    let mut offset: i64 = 0;
    let ghost ls = views(ls_chars@);
    let mut i: usize = 0;
    proof {
        assert(ls.take(0) =~= Seq::<Seq<char>>::empty());
        assert(timed_view(entries@) =~= Seq::<(i64, Seq<char>)>::empty());
    }
    while i < ls_chars.len()
        invariant
            views(ls_chars@) == ls,
            views(keys@) == meta_keys(),
            i <= ls.len(),
            untimed <= i,
            lrc_scan(ls.take(i as int)) == (timed_view(entries@), untimed as int, offset),
        decreases ls_chars.len() - i,
    {
        proof {
            assert(ls.take(i + 1).drop_last() =~= ls.take(i as int));
            assert(ls.take(i + 1).last() == ls[i as int]);
        }
        let raw = ls_chars[i].as_slice();
        let unbom = strip_start_chars(raw, CharClass::Exactly('\u{feff}'));
        let line = trim_chars(unbom.as_slice());
        if line.len() > 0 {
            let (times, saw_meta, new_offset, rest) = scan_groups_chars(line.as_slice(), offset, &keys);
            let text = trim_chars(rest.as_slice());
            offset = new_offset;
            if times.len() == 0 {
                if !saw_meta && text.len() > 0 {
                    untimed = untimed + 1;
                }
            } else {
                let ghost before = timed_view(entries@);
                let mut k: usize = 0;
                while k < times.len()
                    invariant
                        k <= times@.len(),
                        timed_view(entries@) =~= before + times@.take(k as int).map_values(
                            |t: i64| (t, text@),
                        ),
                    decreases times.len() - k,
                {
                    let copy = copy_chars(&text);
                    let ghost old_view = timed_view(entries@);
                    entries.push(Timed { at: times[k], text: copy });
                    proof {
                        assert(timed_view(entries@) =~= old_view.push((times@[k as int], text@)));
                        assert(times@.take(k + 1) =~= times@.take(k as int).push(times@[k as int]));
                    }
                    k = k + 1;
                }
                proof {
                    assert(times@.take(times@.len() as int) =~= times@);
                }
            }
        }
        i = i + 1;
    }
    proof {
        assert(ls.take(ls.len() as int) =~= ls);
    }
    (entries, untimed, offset)
}

/// Every line moved earlier by `offset`, never before zero.
fn shift_entries(entries: &mut Vec<Timed>, offset: i64)
    ensures
        timed_view(final(entries)@) == shift_by(timed_view(old(entries)@), offset),
{
    let ghost before = timed_view(entries@);
    let mut k: usize = 0;
    while k < entries.len()
        invariant
            k <= entries@.len(),
            entries@.len() == before.len(),
            forall|j: int| k <= j < entries@.len() ==> #[trigger] timed_view(entries@)[j] == before[j],
            forall|j: int| 0 <= j < k ==> #[trigger] timed_view(entries@)[j] == shift_by(before, offset)[j],
        decreases entries.len() - k,
    {
        let d: i128 = entries[k].at as i128 - offset as i128;
        let at: i64 = if d <= 0 {
            0
        } else if d > 0x7fff_ffff_ffff_ffff {
            0x7fff_ffff_ffff_ffff
        } else {
            d as i64
        };
        let text = copy_chars(&entries[k].text);
        let ghost old_view = timed_view(entries@);
        entries.set(k, Timed { at, text });
        proof {
            assert(timed_view(entries@) =~= old_view.update(k as int, (at, old_view[k as int].1)));
            assert(old_view[k as int] == before[k as int]);
        }
        k = k + 1;
    }
    proof {
        assert(timed_view(entries@) =~= shift_by(before, offset));
    }
}

/// A stable insertion sort by time.
fn sort_entries(entries: &Vec<Timed>) -> (sorted: Vec<Timed>)
    ensures
        timed_view(sorted@) == sort_by_time(timed_view(entries@)),
        by_time(timed_view(sorted@)),
{
    let ghost all = timed_view(entries@);
    let mut sorted: Vec<Timed> = Vec::new();
    let mut k: usize = 0;
    proof {
        assert(all.take(0) =~= Seq::<(i64, Seq<char>)>::empty());
        assert(timed_view(sorted@) =~= Seq::<(i64, Seq<char>)>::empty());
    }
    while k < entries.len()
        invariant
            k <= entries@.len(),
            timed_view(entries@) == all,
            timed_view(sorted@) == sort_by_time(all.take(k as int)),
        decreases entries.len() - k,
    {
        proof {
            assert(all.take(k + 1).drop_last() =~= all.take(k as int));
            lemma_sort_by_time(all.take(k as int));
        }
        let t = entries[k].at;
        let mut p: usize = 0;
        while p < sorted.len() && sorted[p].at <= t
            invariant
                p <= sorted@.len(),
                insertion_point(timed_view(sorted@), t, 0) == insertion_point(timed_view(sorted@), t, p as int),
            decreases sorted.len() - p,
        {
            p = p + 1;
        }
        let text = copy_chars(&entries[k].text);
        let ghost old_sorted = timed_view(sorted@);
        sorted.insert(p, Timed { at: t, text });
        proof {
            assert(timed_view(sorted@) =~= old_sorted.insert(p as int, (t, entries@[k as int].text@)));
        }
        k = k + 1;
    }
    proof {
        assert(all.take(all.len() as int) =~= all);
        lemma_sort_by_time(all);
    }
    sorted
}

/// Exact repeats removed, the first of each run kept, as lyric lines.
fn dedup_entries(sorted: &Vec<Timed>) -> (out: Vec<LyricLine>)
    requires
        by_time(timed_view(sorted@)),
        sorted@.len() >= 1,
    ensures
        Seq::new(out@.len(), |i: int| (out@[i].at_ms.unwrap(), out@[i].text@)) == dedup(timed_view(sorted@)),
        forall|i: int| 0 <= i < out@.len() ==> (#[trigger] out@[i]).at_ms is Some,
        forall|i: int, j: int| 0 <= i < j < out@.len() ==> out@[i].at_ms.unwrap() <= out@[j].at_ms.unwrap(),
        out@.len() >= 1,
{
    let ghost ordered = timed_view(sorted@);
    let mut out: Vec<LyricLine> = Vec::new();
    let mut k: usize = 0;
    proof {
        assert(ordered.take(0) =~= Seq::<(i64, Seq<char>)>::empty());
        assert(Seq::new(out@.len(), |i: int| (out@[i].at_ms.unwrap(), out@[i].text@)) =~= Seq::<(i64, Seq<char>)>::empty());
    }
    while k < sorted.len()
        invariant
            k <= sorted@.len(),
            timed_view(sorted@) == ordered,
            by_time(ordered),
            Seq::new(out@.len(), |i: int| (out@[i].at_ms.unwrap(), out@[i].text@)) == dedup(ordered.take(k as int)),
            forall|i: int| 0 <= i < out@.len() ==> (#[trigger] out@[i]).at_ms is Some,
            forall|i: int, j: int| 0 <= i < j < out@.len() ==> out@[i].at_ms.unwrap() <= out@[j].at_ms.unwrap(),
            forall|i: int| 0 <= i < out@.len() && k > 0 ==> out@[i].at_ms.unwrap() <= ordered[k - 1].0,
            k > 0 ==> out@.len() > 0,
        decreases sorted.len() - k,
    {
        proof {
            assert(ordered.take(k + 1).drop_last() =~= ordered.take(k as int));
        }
        let repeat = k > 0 && sorted[k].at == sorted[k - 1].at && chars_equal(
            sorted[k].text.as_slice(),
            sorted[k - 1].text.as_slice(),
        );
        if !repeat {
            let line = LyricLine { at_ms: Some(sorted[k].at), text: string_of(sorted[k].text.as_slice()) };
            let ghost before = Seq::new(out@.len(), |i: int| (out@[i].at_ms.unwrap(), out@[i].text@));
            out.push(line);
            proof {
                assert(Seq::new(out@.len(), |i: int| (out@[i].at_ms.unwrap(), out@[i].text@)) =~= before.push(ordered[k as int]));
                if k > 0 {
                    assert(ordered[k as int] != ordered[k - 1]);
                }
            }
        } else {
            proof {
                assert(ordered[k as int] == ordered[k - 1]);
            }
        }
        k = k + 1;
    }
    proof {
        assert(ordered.take(ordered.len() as int) =~= ordered);
    }
    out
}

/// Parses LRC, or decides this is not LRC.
///
/// Returns `None` rather than an empty list when the text has no usable
/// timing, so the caller falls through to treating it as plain text. The
/// lines come back in playing order.
pub fn parse_lrc(text: &str) -> (r: Option<Vec<LyricLine>>)
    ensures
        match r {
            Some(ls) => lrc(text@) == Some(
                Seq::new(ls@.len(), |i: int| (ls@[i].at_ms.unwrap(), ls@[i].text@)),
            ) && forall|i: int| 0 <= i < ls@.len() ==> (#[trigger] ls@[i]).at_ms is Some,
            None => lrc(text@) is None,
        },
        r matches Some(ls) ==> ls@.len() >= 1 && forall|i: int, j: int|
            0 <= i < j < ls@.len() ==> ls@[i].at_ms.unwrap() <= ls@[j].at_ms.unwrap(),
{
    let chars = chars_of(text);
    let raw_lines = lines_chars(chars.as_slice());
    let (mut entries, untimed, offset) = scan_lines(&raw_lines);
    let n = entries.len();
    if n < MIN_SYNCED_LINES || untimed > n {
        return None;
    }
    // The header's own correction. Positive shifts earlier.
    if offset != 0 {
        shift_entries(&mut entries, offset);
    }
    // A repeated chorus arrives out of order; put it in playing order.
    let sorted = sort_entries(&entries);
    proof {
        lemma_sort_by_time(timed_view(entries@));
    }
    let out = dedup_entries(&sorted);
    Some(out)
}


// --- plain text ----------------------------------------------------------------

/// The length of what is left after a leading run is stripped.
pub proof fn lemma_strip_start_len(s: Seq<char>, class: CharClass, i: int)
    requires
        0 <= i <= s.len(),
    ensures
        strip_start_from(s, class, i).len() <= s.len() - i,
    decreases s.len() - i,
{
    if i < s.len() && class_has(class, s[i]) {
        lemma_strip_start_len(s, class, i + 1);
    }
}

/// Reading `rest`, which follows zero or more header groups (`saw` says
/// whether there was one): true when it is nothing but header groups.
pub open spec fn meta_only_from(rest: Seq<char>, saw: bool) -> bool
    decreases rest.len(),
{
    if rest.len() > 0 && rest[0] == '[' {
        match split_once(rest.drop_first(), ']') {
            None => false,
            Some((group, after)) => if split_meta(group) is None {
                false
            } else {
                proof {
                    lemma_find_class_bounds(rest.drop_first(), CharClass::Exactly(']'), 0);
                    lemma_strip_start_len(after, CharClass::Space, 0);
                }
                meta_only_from(strip_start(after, CharClass::Space), true)
            },
        }
    } else {
        saw && rest.len() == 0
    }
}

/// True for `[ar:...]` and friends, and for a line that is nothing but those.
pub open spec fn meta_only(line: Seq<char>) -> bool {
    meta_only_from(trim(line), false)
}

fn is_meta_only(line: &[char], keys: &Vec<Vec<char>>) -> (b: bool)
    requires
        views(keys@) == meta_keys(),
    ensures
        b == meta_only(line@),
{
    let mut rest = trim_chars(line);
    let mut saw = false;
    loop
        invariant
            views(keys@) == meta_keys(),
            meta_only(line@) == meta_only_from(rest@, saw),
        decreases rest@.len(),
    {
        if rest.len() == 0 || rest[0] != '[' {
            return saw && rest.len() == 0;
        }
        let open = slice_range(rest.as_slice(), 1, rest.len());
        proof {
            assert(open@ =~= rest@.drop_first());
        }
        let (group, after) = match split_once_chars(open.as_slice(), ']') {
            Some(pair) => pair,
            None => {
                return false;
            },
        };
        if split_meta_chars(group.as_slice(), keys).is_none() {
            return false;
        }
        proof {
            lemma_find_class_bounds(open@, CharClass::Exactly(']'), 0);
            lemma_strip_start_len(after@, CharClass::Space, 0);
        }
        saw = true;
        rest = strip_start_chars(after.as_slice(), CharClass::Space);
    }
}

/// One raw line of a plain lyric sheet added to what was kept so far.
pub open spec fn plain_step(out: Seq<Seq<char>>, raw: Seq<char>) -> Seq<Seq<char>> {
    let line = trim(strip_start(raw, CharClass::Exactly('\u{feff}')));
    if meta_only(line) {
        out
    } else if line.len() == 0 && (out.len() == 0 || out.last().len() == 0) {
        out
    } else {
        out.push(line)
    }
}

pub open spec fn plain_scan(ls: Seq<Seq<char>>) -> Seq<Seq<char>>
    decreases ls.len(),
{
    if ls.len() == 0 {
        Seq::empty()
    } else {
        plain_step(plain_scan(ls.drop_last()), ls.last())
    }
}

/// Trailing blank lines removed.
pub open spec fn drop_trailing_blanks(out: Seq<Seq<char>>) -> Seq<Seq<char>>
    decreases out.len(),
{
    if out.len() > 0 && out.last().len() == 0 {
        drop_trailing_blanks(out.drop_last())
    } else {
        out
    }
}

/// Plain text, with header tags dropped and stanza breaks kept: runs of blank
/// lines collapse to one, and none lead or trail.
pub open spec fn plain(text: Seq<char>) -> Seq<Seq<char>> {
    drop_trailing_blanks(plain_scan(lines(text)))
}

/// No header line, no blank line first, and never two blank lines in a row.
pub open spec fn tidy_sheet(out: Seq<Seq<char>>) -> bool {
    &&& forall|i: int| 0 <= i < out.len() ==> !meta_only(#[trigger] out[i])
    &&& out.len() > 0 ==> out[0].len() > 0
    &&& forall|i: int|
        0 <= i < out.len() - 1 ==> !(#[trigger] out[i].len() == 0 && out[i + 1].len() == 0)
}

proof fn lemma_plain_scan_tidy(ls: Seq<Seq<char>>)
    ensures
        tidy_sheet(plain_scan(ls)),
    decreases ls.len(),
{
    if ls.len() > 0 {
        lemma_plain_scan_tidy(ls.drop_last());
        let before = plain_scan(ls.drop_last());
        let after = plain_scan(ls);
        assert(after == plain_step(before, ls.last()));
        if after.len() > before.len() {
            assert(after == before.push(after.last()));
            assert forall|i: int| 0 <= i < after.len() - 1 implies !(#[trigger] after[i].len() == 0
                && after[i + 1].len() == 0) by {
                if i + 1 < before.len() {
                    assert(after[i] == before[i]);
                    assert(after[i + 1] == before[i + 1]);
                }
            }
            assert forall|i: int| 0 <= i < after.len() implies !meta_only(#[trigger] after[i]) by {
                if i < before.len() {
                    assert(after[i] == before[i]);
                }
            }
        }
    }
}

proof fn lemma_drop_trailing_tidy(out: Seq<Seq<char>>)
    requires
        tidy_sheet(out),
    ensures
        tidy_sheet(drop_trailing_blanks(out)),
        drop_trailing_blanks(out).len() > 0 ==> drop_trailing_blanks(out).last().len() > 0,
        drop_trailing_blanks(out).len() <= out.len(),
        forall|i: int|
            0 <= i < drop_trailing_blanks(out).len() ==> #[trigger] drop_trailing_blanks(out)[i]
                == out[i],
    decreases out.len(),
{
    if out.len() > 0 && out.last().len() == 0 {
        let shorter = out.drop_last();
        assert forall|i: int| 0 <= i < shorter.len() - 1 implies !(#[trigger] shorter[i].len() == 0
            && shorter[i + 1].len() == 0) by {
            assert(shorter[i] == out[i]);
            assert(shorter[i + 1] == out[i + 1]);
        }
        assert(tidy_sheet(shorter));
        lemma_drop_trailing_tidy(shorter);
    }
}

/// Plain text, with header tags dropped and stanza breaks kept.
///
/// Blank lines are structure in a lyric sheet, so runs of them collapse to
/// one rather than disappearing; none is left first or last.
pub fn parse_plain(text: &str) -> (out: Vec<String>)
    ensures
        out@.len() == plain(text@).len(),
        forall|i: int| 0 <= i < out@.len() ==> (#[trigger] out@[i])@ == plain(text@)[i],
        tidy_sheet(plain(text@)),
        plain(text@).len() > 0 ==> plain(text@).last().len() > 0,
{
    let keys = meta_key_list();
    let chars = chars_of(text);
    let raw_lines = lines_chars(chars.as_slice());
    let ghost ls = views(raw_lines@);
    let mut kept: Vec<Vec<char>> = Vec::new();
    let mut i: usize = 0;
    proof {
        assert(ls.take(0) =~= Seq::<Seq<char>>::empty());
        assert(views(kept@) =~= Seq::<Seq<char>>::empty());
    }
    while i < raw_lines.len()
        invariant
            views(raw_lines@) == ls,
            views(keys@) == meta_keys(),
            i <= ls.len(),
            plain_scan(ls.take(i as int)) == views(kept@),
        decreases raw_lines.len() - i,
    {
        proof {
            assert(ls.take(i + 1).drop_last() =~= ls.take(i as int));
            assert(ls.take(i + 1).last() == ls[i as int]);
        }
        let unbom = strip_start_chars(raw_lines[i].as_slice(), CharClass::Exactly('\u{feff}'));
        let line = trim_chars(unbom.as_slice());
        let n = kept.len();
        if is_meta_only(line.as_slice(), &keys) {
        } else if line.len() == 0 && (n == 0 || kept[n - 1].len() == 0) {
        } else {
            let ghost before = views(kept@);
            kept.push(line);
            proof {
                assert(views(kept@) =~= before.push(line@));
            }
        }
        i = i + 1;
    }
    proof {
        assert(ls.take(ls.len() as int) =~= ls);
    }
    while kept.len() > 0 && kept[kept.len() - 1].len() == 0
        invariant
            drop_trailing_blanks(views(kept@)) == plain(text@),
        decreases kept.len(),
    {
        let ghost before = views(kept@);
        kept.pop();
        proof {
            assert(views(kept@) =~= before.drop_last());
        }
    }
    let mut out: Vec<String> = Vec::new();
    let mut k: usize = 0;
    while k < kept.len()
        invariant
            views(kept@) == plain(text@),
            k <= kept@.len(),
            out@.len() == k,
            forall|j: int| 0 <= j < k ==> (#[trigger] out@[j])@ == kept@[j]@,
        decreases kept.len() - k,
    {
        out.push(string_of(kept[k].as_slice()));
        k = k + 1;
    }
    proof {
        lemma_plain_scan_tidy(lines(text@));
        lemma_drop_trailing_tidy(plain_scan(lines(text@)));
    }
    out
}


// --- decoding a sidecar --------------------------------------------------------

/// UTF-16, read one code unit or surrogate pair at a time; `None` at the first
/// unpaired surrogate.
pub open spec fn utf16_text(units: Seq<u16>) -> Option<Seq<char>>
    decreases units.len(),
{
    if units.len() == 0 {
        Some(Seq::empty())
    } else if units[0] < 0xD800 || units[0] > 0xDFFF {
        match utf16_text(units.drop_first()) {
            Some(rest) => Some(seq![units[0] as char] + rest),
            None => None,
        }
    } else if units[0] <= 0xDBFF && units.len() >= 2 && 0xDC00 <= units[1] <= 0xDFFF {
        match utf16_text(units.skip(2)) {
            Some(rest) => Some(
                seq![(0x10000 + (units[0] - 0xD800) * 0x400 + (units[1] - 0xDC00)) as char] + rest,
            ),
            None => None,
        }
    } else {
        None
    }
}

/// Byte pairs read as code units, low byte first or high byte first.
pub open spec fn utf16_units(bytes: Seq<u8>, little_endian: bool) -> Seq<u16> {
    Seq::new(
        bytes.len() / 2,
        |i: int|
            if little_endian {
                (bytes[2 * i] + 256 * bytes[2 * i + 1]) as u16
            } else {
                (256 * bytes[2 * i] + bytes[2 * i + 1]) as u16
            },
    )
}

/// UTF-8, or UTF-16 if it announces itself with a byte-order mark; anything
/// else is refused rather than decoded lossily.
pub open spec fn decoded(bytes: Seq<u8>) -> Option<Seq<char>> {
    if bytes.len() >= 3 && bytes[0] == 0xEF && bytes[1] == 0xBB && bytes[2] == 0xBF {
        utf8_text(bytes.skip(3))
    } else if bytes.len() >= 2 && bytes[0] == 0xFF && bytes[1] == 0xFE {
        utf16_bytes(bytes.skip(2), true)
    } else if bytes.len() >= 2 && bytes[0] == 0xFE && bytes[1] == 0xFF {
        utf16_bytes(bytes.skip(2), false)
    } else {
        utf8_text(bytes)
    }
}

pub open spec fn utf8_text(bytes: Seq<u8>) -> Option<Seq<char>> {
    if valid_utf8(bytes) {
        Some(decode_utf8(bytes))
    } else {
        None
    }
}

pub open spec fn utf16_bytes(bytes: Seq<u8>, little_endian: bool) -> Option<Seq<char>> {
    if bytes.len() % 2 != 0 {
        None
    } else {
        utf16_text(utf16_units(bytes, little_endian))
    }
}

/// Calls `String::from_utf8`; claimed, as its documentation says: a string
/// exactly when the bytes are valid UTF-8, holding what they encode.
#[verifier::external_body]
fn string_from_utf8(bytes: Vec<u8>) -> (r: Option<String>)
    ensures
        match r {
            Some(s) => valid_utf8(bytes@) && s@ == decode_utf8(bytes@),
            None => !valid_utf8(bytes@),
        },
{
    String::from_utf8(bytes).ok()
}

/// Calls `String::from_utf16`; claimed: a string exactly when the units are
/// valid UTF-16, holding what they encode.
#[verifier::external_body]
fn string_from_utf16(units: &[u16]) -> (r: Option<String>)
    ensures
        match r {
            Some(s) => utf16_text(units@) == Some(s@),
            None => utf16_text(units@) is None,
        },
{
    String::from_utf16(units).ok()
}

fn bytes_from(bytes: &[u8], from: usize) -> (r: Vec<u8>)
    requires
        from <= bytes@.len(),
    ensures
        r@ == bytes@.skip(from as int),
{
    let mut r: Vec<u8> = Vec::new();
    let mut i: usize = from;
    while i < bytes.len()
        invariant
            from <= i <= bytes@.len(),
            r@ =~= bytes@.subrange(from as int, i as int),
        decreases bytes.len() - i,
    {
        r.push(bytes[i]);
        i = i + 1;
    }
    r
}

/// UTF-16 after its byte-order mark: refused when the bytes do not pair up.
fn decode_utf16(bytes: &[u8], little_endian: bool) -> (r: Option<String>)
    ensures
        match r {
            Some(s) => utf16_bytes(bytes@, little_endian) == Some(s@),
            None => utf16_bytes(bytes@, little_endian) is None,
        },
{
    if bytes.len() % 2 != 0 {
        return None;
    }
    let ghost expected = utf16_units(bytes@, little_endian);
    let mut units: Vec<u16> = Vec::new();
    let mut k: usize = 0;
    while k < bytes.len() / 2
        invariant
            bytes@.len() % 2 == 0,
            k <= bytes@.len() / 2,
            expected == utf16_units(bytes@, little_endian),
            units@ =~= expected.take(k as int),
        decreases bytes.len() / 2 - k,
    {
        let first = bytes[2 * k] as u16;
        let second = bytes[2 * k + 1] as u16;
        let unit = if little_endian {
            first + second * 256
        } else {
            first * 256 + second
        };
        units.push(unit);
        k = k + 1;
    }
    proof {
        assert(expected.take(expected.len() as int) =~= expected);
    }
    string_from_utf16(units.as_slice())
}

/// UTF-8, or UTF-16 if it announces itself with a byte-order mark.
///
/// A BOM has to be handled or the leading `[` of the first timestamp is never
/// seen. Anything else -- Shift-JIS, Latin-1 with accents -- is refused
/// rather than decoded lossily, because mojibake displayed as lyrics is worse
/// than no lyrics.
pub fn decode(bytes: &[u8]) -> (r: Option<String>)
    ensures
        match r {
            Some(s) => decoded(bytes@) == Some(s@),
            None => decoded(bytes@) is None,
        },
{
    let n = bytes.len();
    if n >= 3 && bytes[0] == 0xEF && bytes[1] == 0xBB && bytes[2] == 0xBF {
        string_from_utf8(bytes_from(bytes, 3))
    } else if n >= 2 && bytes[0] == 0xFF && bytes[1] == 0xFE {
        decode_utf16(bytes_from(bytes, 2).as_slice(), true)
    } else if n >= 2 && bytes[0] == 0xFE && bytes[1] == 0xFF {
        decode_utf16(bytes_from(bytes, 2).as_slice(), false)
    } else {
        let all = bytes_from(bytes, 0);
        proof {
            assert(all@ =~= bytes@);
        }
        string_from_utf8(all)
    }
}


// --- identity --------------------------------------------------------------------

/// A song, as opposed to a row in `tracks`.
#[derive(Debug, Clone, PartialEq, Eq)]
pub struct Identity {
    /// Cleaned, for asking a provider. `None` when nothing usable is left.
    pub artist: Option<String>,
    /// Cleaned, for asking a provider.
    pub title: String,
    /// Normalised, for `lyrics.identity_key`.
    pub key: String,
}

/// Bracketed noise that is about the *upload*, not about the song. Matched
/// against a group's entire contents, so only an exact known phrase goes:
/// "(Live)" or "(Acoustic)" name a different recording and stay.
pub open spec fn title_noise() -> Seq<Seq<char>> {
    seq![
        "official"@,
        "official video"@,
        "official music video"@,
        "official audio"@,
        "official visualizer"@,
        "official lyric video"@,
        "official lyrics video"@,
        "lyric video"@,
        "lyrics video"@,
        "lyrics"@,
        "lyric"@,
        "audio"@,
        "music video"@,
        "visualizer"@,
        "hd"@,
        "hq"@,
        "full hd"@,
        "4k"@,
        "1080p"@,
        "720p"@,
        "mv"@,
        "m/v"@,
        "bga"@,
    ]
}

fn title_noise_list() -> (list: Vec<Vec<char>>)
    ensures
        views(list@) == title_noise(),
{
    let mut list: Vec<Vec<char>> = Vec::new();
    push_word(&mut list, "official");
    push_word(&mut list, "official video");
    push_word(&mut list, "official music video");
    push_word(&mut list, "official audio");
    push_word(&mut list, "official visualizer");
    push_word(&mut list, "official lyric video");
    push_word(&mut list, "official lyrics video");
    push_word(&mut list, "lyric video");
    push_word(&mut list, "lyrics video");
    push_word(&mut list, "lyrics");
    push_word(&mut list, "lyric");
    push_word(&mut list, "audio");
    push_word(&mut list, "music video");
    push_word(&mut list, "visualizer");
    push_word(&mut list, "hd");
    push_word(&mut list, "hq");
    push_word(&mut list, "full hd");
    push_word(&mut list, "4k");
    push_word(&mut list, "1080p");
    push_word(&mut list, "720p");
    push_word(&mut list, "mv");
    push_word(&mut list, "m/v");
    push_word(&mut list, "bga");
    proof {
        assert(views(list@) =~= title_noise());
    }
    list
}

/// What uploaders add to a name to make it a channel's.
pub open spec fn channel_suffixes() -> Seq<Seq<char>> {
    seq![
        "- topic"@,
        "official channel"@,
        "official artist channel"@,
        "official"@,
        "music"@,
        "records"@,
        "recordings"@,
        "channel"@,
        "vevo"@,
        "tv"@,
    ]
}

fn channel_suffix_list() -> (list: Vec<Vec<char>>)
    ensures
        views(list@) == channel_suffixes(),
{
    let mut list: Vec<Vec<char>> = Vec::new();
    push_word(&mut list, "- topic");
    push_word(&mut list, "official channel");
    push_word(&mut list, "official artist channel");
    push_word(&mut list, "official");
    push_word(&mut list, "music");
    push_word(&mut list, "records");
    push_word(&mut list, "recordings");
    push_word(&mut list, "channel");
    push_word(&mut list, "vevo");
    push_word(&mut list, "tv");
    proof {
        assert(views(list@) =~= channel_suffixes());
    }
    list
}

/// Words introducing a guest, wherever they appear.
pub open spec fn feature_markers() -> Seq<Seq<char>> {
    seq![
        "feat"@,
        "feat."@,
        "ft"@,
        "ft."@,
        "featuring"@,
        "w/"@,
    ]
}

fn feature_marker_list() -> (list: Vec<Vec<char>>)
    ensures
        views(list@) == feature_markers(),
{
    let mut list: Vec<Vec<char>> = Vec::new();
    push_word(&mut list, "feat");
    push_word(&mut list, "feat.");
    push_word(&mut list, "ft");
    push_word(&mut list, "ft.");
    push_word(&mut list, "featuring");
    push_word(&mut list, "w/");
    proof {
        assert(views(list@) =~= feature_markers());
    }
    list
}

/// Bracket pairs seen in the wild, including the Japanese ones.
pub open spec fn brackets() -> Seq<(char, char)> {
    seq![('(', ')'), ('[', ']'), ('{', '}'), ('\u{3010}', '\u{3011}'), ('\u{ff08}', '\u{ff09}')]
}

fn bracket_list() -> (list: Vec<(char, char)>)
    ensures
        list@ == brackets(),
{
    let list = vec![('(', ')'), ('[', ']'), ('{', '}'), ('\u{3010}', '\u{3011}'), ('\u{ff08}', '\u{ff09}')];
    proof {
        assert(list@ =~= brackets());
    }
    list
}

proof fn lemma_channel_suffixes_nonempty()
    ensures
        forall|i: int| 0 <= i < channel_suffixes().len() ==> #[trigger] channel_suffixes()[i].len() > 0,
{
    reveal_strlit("- topic");
    reveal_strlit("official channel");
    reveal_strlit("official artist channel");
    reveal_strlit("official");
    reveal_strlit("music");
    reveal_strlit("records");
    reveal_strlit("recordings");
    reveal_strlit("channel");
    reveal_strlit("vevo");
    reveal_strlit("tv");
}

/// The length of what is left after a trailing run is stripped.
pub proof fn lemma_strip_end_len(s: Seq<char>, class: CharClass, j: int)
    requires
        0 <= j <= s.len(),
    ensures
        strip_end_to(s, class, j).len() <= j,
    decreases j,
{
    if 0 < j && class_has(class, s[j - 1]) {
        lemma_strip_end_len(s, class, j - 1);
    }
}

/// `artist` with `suffix` taken off the end, when the suffix is there
/// (ignoring ASCII case), follows a word boundary, and leaves something.
pub open spec fn without_suffix(artist: Seq<char>, suffix: Seq<char>) -> Option<Seq<char>> {
    if artist.len() < suffix.len() {
        None
    } else {
        let start = artist.len() - suffix.len();
        let head = artist.take(start);
        if !eq_ignore_ascii_case(artist.skip(start), suffix) || head.len() == 0 || !class_has(
            CharClass::SpaceDashOrBar,
            head.last(),
        ) || strip_end(head, CharClass::SpaceDashOrBar).len() == 0 {
            None
        } else {
            Some(strip_end(head, CharClass::SpaceDashOrBar))
        }
    }
}

/// One layer of channel decoration, trying the suffixes from the `k`th on.
pub open spec fn strip_channel_suffix_from(artist: Seq<char>, k: int) -> Option<Seq<char>>
    decreases channel_suffixes().len() - k,
{
    if 0 <= k < channel_suffixes().len() {
        match without_suffix(artist, channel_suffixes()[k]) {
            Some(shorter) => Some(shorter),
            None => strip_channel_suffix_from(artist, k + 1),
        }
    } else {
        None
    }
}

/// One layer of decoration, or `None`.
pub open spec fn strip_channel_suffix(artist: Seq<char>) -> Option<Seq<char>> {
    strip_channel_suffix_from(artist, 0)
}

/// Taking off one layer of decoration leaves a shorter name that is not empty.
pub proof fn lemma_strip_channel_suffix_shortens(artist: Seq<char>, k: int)
    ensures
        strip_channel_suffix_from(artist, k) matches Some(shorter) ==> 0 < shorter.len()
            < artist.len(),
    decreases channel_suffixes().len() - k,
{
    lemma_channel_suffixes_nonempty();
    if 0 <= k < channel_suffixes().len() {
        let suffix = channel_suffixes()[k];
        if artist.len() >= suffix.len() {
            let start = artist.len() - suffix.len();
            lemma_strip_end_len(artist.take(start), CharClass::SpaceDashOrBar, start);
        }
        lemma_strip_channel_suffix_shortens(artist, k + 1);
    }
}

/// Every layer of decoration, one after another: they stack.
pub open spec fn strip_decoration(artist: Seq<char>) -> Seq<char>
    decreases artist.len(),
{
    match strip_channel_suffix(artist) {
        Some(shorter) => {
            proof {
                lemma_strip_channel_suffix_shortens(artist, 0);
            }
            strip_decoration(shorter)
        },
        None => artist,
    }
}

/// What an uploader's name becomes: decoration off, then stray dashes and
/// white space.
pub open spec fn clean_artist(artist: Seq<char>) -> Seq<char> {
    collapse_whitespace(strip(strip_decoration(trim(artist)), CharClass::SpaceOrDash))
}

fn without_suffix_chars(artist: &[char], suffix: &[char]) -> (r: Option<Vec<char>>)
    ensures
        match r {
            Some(t) => without_suffix(artist@, suffix@) == Some(t@),
            None => without_suffix(artist@, suffix@) is None,
        },
{
    if artist.len() < suffix.len() {
        return None;
    }
    let start = artist.len() - suffix.len();
    let tail = slice_range(artist, start, artist.len());
    proof {
        assert(tail@ =~= artist@.skip(start as int));
    }
    if !chars_eq_ignore_ascii_case(tail.as_slice(), suffix) {
        return None;
    }
    if start == 0 || !in_class(CharClass::SpaceDashOrBar, artist[start - 1]) {
        return None;
    }
    let head = slice_range(artist, 0, start);
    proof {
        assert(head@ =~= artist@.take(start as int));
    }
    let trimmed = strip_end_chars(head.as_slice(), CharClass::SpaceDashOrBar);
    if trimmed.len() == 0 {
        None
    } else {
        Some(trimmed)
    }
}

fn strip_channel_suffix_chars(artist: &[char], suffixes: &Vec<Vec<char>>) -> (r: Option<Vec<char>>)
    requires
        views(suffixes@) == channel_suffixes(),
    ensures
        match r {
            Some(t) => strip_channel_suffix(artist@) == Some(t@),
            None => strip_channel_suffix(artist@) is None,
        },
{
    let mut k: usize = 0;
    while k < suffixes.len()
        invariant
            views(suffixes@) == channel_suffixes(),
            k <= suffixes@.len(),
            strip_channel_suffix_from(artist@, 0) == strip_channel_suffix_from(artist@, k as int),
        decreases suffixes.len() - k,
    {
        proof {
            assert(suffixes@[k as int]@ == channel_suffixes()[k as int]);
        }
        match without_suffix_chars(artist, suffixes[k].as_slice()) {
            Some(t) => {
                return Some(t);
            },
            None => {},
        }
        k = k + 1;
    }
    None
}

/// Strips channel decoration from an uploader's name, repeatedly, because
/// it stacks: "Someone Official Music" is two layers.
fn clean_artist_chars(artist: &[char]) -> (r: Vec<char>)
    ensures
        r@ == clean_artist(artist@),
{
    let suffixes = channel_suffix_list();
    let mut a = trim_chars(artist);
    loop
        invariant
            views(suffixes@) == channel_suffixes(),
            strip_decoration(trim(artist@)) == strip_decoration(a@),
        decreases a@.len(),
    {
        match strip_channel_suffix_chars(a.as_slice(), &suffixes) {
            Some(shorter) => {
                proof {
                    lemma_strip_channel_suffix_shortens(a@, 0);
                }
                a = shorter;
            },
            None => {
                let bare = strip_chars(a.as_slice(), CharClass::SpaceOrDash);
                return collapse_whitespace_chars(bare.as_slice());
            },
        }
    }
}

/// `title` without the artist's own name in front of it, when it is there
/// (ignoring ASCII case) followed by a separator and something more.
pub open spec fn strip_artist_prefix(title: Seq<char>, artist: Option<Seq<char>>) -> Seq<char> {
    match artist {
        None => title,
        Some(name) => {
            let a = trim(name);
            let t = trim(title);
            if a.len() == 0 || t.len() < a.len() || !eq_ignore_ascii_case(t.take(a.len() as int), a) {
                title
            } else {
                let rest = strip_start(t.skip(a.len() as int), CharClass::Space);
                if rest.len() == 0 || !class_has(CharClass::TitleSeparator, rest[0]) {
                    title
                } else if strip_start(rest.drop_first(), CharClass::Space).len() == 0 {
                    title
                } else {
                    strip_start(rest.drop_first(), CharClass::Space)
                }
            }
        },
    }
}

fn strip_artist_prefix_chars(title: &[char], artist: Option<&[char]>) -> (r: Vec<char>)
    ensures
        r@ == strip_artist_prefix(
            title@,
            match artist {
                Some(a) => Some(a@),
                None => None,
            },
        ),
{
    let name = match artist {
        Some(name) => name,
        None => {
            return slice_range(title, 0, title.len());
        },
    };
    proof {
        assert(title@.subrange(0, title@.len() as int) =~= title@);
    }
    let a = trim_chars(name);
    let t = trim_chars(title);
    if a.len() == 0 || t.len() < a.len() {
        return slice_range(title, 0, title.len());
    }
    let head = slice_range(t.as_slice(), 0, a.len());
    proof {
        assert(head@ =~= t@.take(a@.len() as int));
    }
    if !chars_eq_ignore_ascii_case(head.as_slice(), a.as_slice()) {
        return slice_range(title, 0, title.len());
    }
    let after = slice_range(t.as_slice(), a.len(), t.len());
    proof {
        assert(after@ =~= t@.skip(a@.len() as int));
    }
    let rest = strip_start_chars(after.as_slice(), CharClass::Space);
    if rest.len() == 0 || !in_class(CharClass::TitleSeparator, rest[0]) {
        return slice_range(title, 0, title.len());
    }
    let past = slice_range(rest.as_slice(), 1, rest.len());
    proof {
        assert(past@ =~= rest@.drop_first());
    }
    let rest2 = strip_start_chars(past.as_slice(), CharClass::Space);
    if rest2.len() == 0 {
        slice_range(title, 0, title.len())
    } else {
        rest2
    }
}

/// The first word of `s`, split on white space; empty when there is none.
pub open spec fn first_word(s: Seq<char>) -> Seq<char> {
    let ws = split(s, CharClass::Space).filter(|p: Seq<char>| is_nonempty(p));
    if ws.len() > 0 {
        ws[0]
    } else {
        Seq::empty()
    }
}

/// A bracketed group that is upload noise: its whole trimmed contents,
/// lowercased, are a known phrase.
pub open spec fn is_noise(inner: Seq<char>) -> bool {
    has_word(title_noise(), lowercase(trim(inner)))
}

/// A bracketed group that introduces a guest, judged by its first word.
pub open spec fn is_feature(inner: Seq<char>) -> bool {
    has_ignoring_ascii_case(feature_markers(), first_word(inner))
}

/// The first `open` .. `close` group of `rest`, as what comes before it, what
/// is inside it and what follows it.
pub open spec fn first_group(rest: Seq<char>, open: char, close: char) -> Option<
    (Seq<char>, Seq<char>, Seq<char>),
> {
    let start = find_class_from(rest, CharClass::Exactly(open), 0);
    if start >= rest.len() {
        None
    } else {
        let after_open = rest.skip(start + 1);
        let len = find_class_from(after_open, CharClass::Exactly(close), 0);
        if len >= after_open.len() {
            None
        } else {
            Some((rest.take(start), after_open.take(len), after_open.skip(len + 1)))
        }
    }
}

/// Trying the bracket kinds in order from the `k`th, the first whose first
/// group is noise or a guest credit: what comes before it and what follows.
pub open spec fn removable_group_from(rest: Seq<char>, k: int) -> Option<(Seq<char>, Seq<char>)>
    decreases brackets().len() - k,
{
    if 0 <= k < brackets().len() {
        match first_group(rest, brackets()[k].0, brackets()[k].1) {
            Some((before, inner, after)) => if is_noise(inner) || is_feature(inner) {
                Some((before, after))
            } else {
                removable_group_from(rest, k + 1)
            },
            None => removable_group_from(rest, k + 1),
        }
    } else {
        None
    }
}

/// What follows a removable bracketed group is shorter than what it was found in.
pub proof fn lemma_removable_group_shorter(rest: Seq<char>, k: int)
    ensures
        removable_group_from(rest, k) matches Some((before, after)) ==> after.len() < rest.len(),
    decreases brackets().len() - k,
{
    if 0 <= k < brackets().len() {
        lemma_find_class_bounds(rest, CharClass::Exactly(brackets()[k].0), 0);
        let start = find_class_from(rest, CharClass::Exactly(brackets()[k].0), 0);
        if start < rest.len() {
            lemma_find_class_bounds(rest.skip(start + 1), CharClass::Exactly(brackets()[k].1), 0);
        }
        lemma_removable_group_shorter(rest, k + 1);
    }
}

/// Removable groups taken out of `rest`, one at a time, each leaving a space.
pub open spec fn strip_groups(out: Seq<char>, rest: Seq<char>) -> Seq<char>
    decreases rest.len(),
{
    if rest.len() == 0 {
        out
    } else {
        match removable_group_from(rest, 0) {
            Some((before, after)) => {
                proof {
                    lemma_removable_group_shorter(rest, 0);
                }
                strip_groups(out + before + seq![' '], after)
            },
            None => out + rest,
        }
    }
}

/// A title with the bracketed groups that describe the upload removed; a
/// title that is nothing but noise keeps itself.
pub open spec fn clean_title(title: Seq<char>) -> Seq<char> {
    let out = collapse_whitespace(strip_groups(Seq::empty(), trim(title)));
    let trimmed = collapse_whitespace(strip(out, CharClass::SpaceDashOrBar));
    if trimmed.len() == 0 {
        collapse_whitespace(title)
    } else {
        trimmed
    }
}

fn first_word_chars(s: &[char]) -> (w: Vec<char>)
    ensures
        w@ == first_word(s@),
{
    let pieces = split_chars(s, CharClass::Space);
    let words = nonempty_pieces(&pieces);
    if words.len() > 0 {
        slice_range(words[0].as_slice(), 0, words[0].len())
    } else {
        Vec::new()
    }
}

fn removable_chars(inner: &[char], noise: &Vec<Vec<char>>, markers: &Vec<Vec<char>>) -> (b: bool)
    requires
        views(noise@) == title_noise(),
        views(markers@) == feature_markers(),
    ensures
        b == (is_noise(inner@) || is_feature(inner@)),
{
    let lowered = lowercase_chars(trim_chars(inner).as_slice());
    if has_word_chars(noise, lowered.as_slice()) {
        return true;
    }
    let first = first_word_chars(inner);
    has_ignoring_ascii_case_chars(markers, first.as_slice())
}

fn first_group_chars(rest: &[char], open: char, close: char) -> (r: Option<
    (Vec<char>, Vec<char>, Vec<char>),
>)
    ensures
        match r {
            Some((a, b, c)) => first_group(rest@, open, close) == Some((a@, b@, c@)),
            None => first_group(rest@, open, close) is None,
        },
{
    let start = find_class(rest, CharClass::Exactly(open), 0);
    if start >= rest.len() {
        return None;
    }
    let after_open = slice_range(rest, start + 1, rest.len());
    proof {
        assert(after_open@ =~= rest@.skip(start + 1));
    }
    let len = find_class(after_open.as_slice(), CharClass::Exactly(close), 0);
    if len >= after_open.len() {
        return None;
    }
    let before = slice_range(rest, 0, start);
    let inner = slice_range(after_open.as_slice(), 0, len);
    let after = slice_range(after_open.as_slice(), len + 1, after_open.len());
    proof {
        assert(before@ =~= rest@.take(start as int));
        assert(inner@ =~= after_open@.take(len as int));
        assert(after@ =~= after_open@.skip(len + 1));
    }
    Some((before, inner, after))
}

fn removable_group_chars(
    rest: &[char],
    pairs: &Vec<(char, char)>,
    noise: &Vec<Vec<char>>,
    markers: &Vec<Vec<char>>,
) -> (r: Option<(Vec<char>, Vec<char>)>)
    requires
        pairs@ == brackets(),
        views(noise@) == title_noise(),
        views(markers@) == feature_markers(),
    ensures
        match r {
            Some((a, b)) => removable_group_from(rest@, 0) == Some((a@, b@)),
            None => removable_group_from(rest@, 0) is None,
        },
{
    let mut k: usize = 0;
    while k < pairs.len()
        invariant
            pairs@ == brackets(),
            views(noise@) == title_noise(),
            views(markers@) == feature_markers(),
            k <= pairs@.len(),
            removable_group_from(rest@, 0) == removable_group_from(rest@, k as int),
        decreases pairs.len() - k,
    {
        let (open, close) = pairs[k];
        match first_group_chars(rest, open, close) {
            Some((before, inner, after)) => {
                if removable_chars(inner.as_slice(), noise, markers) {
                    return Some((before, after));
                }
            },
            None => {},
        }
        k = k + 1;
    }
    None
}

/// Removes bracketed groups that describe the upload rather than the song.
fn clean_title_chars(title: &[char]) -> (r: Vec<char>)
    ensures
        r@ == clean_title(title@),
{
    let pairs = bracket_list();
    let noise = title_noise_list();
    let markers = feature_marker_list();
    let mut out: Vec<char> = Vec::new();
    let mut rest = trim_chars(title);
    let ghost target = strip_groups(Seq::empty(), trim(title@));
    proof {
        assert(out@ =~= Seq::<char>::empty());
    }
    while rest.len() > 0
        invariant
            pairs@ == brackets(),
            views(noise@) == title_noise(),
            views(markers@) == feature_markers(),
            target == strip_groups(out@, rest@),
        decreases rest@.len(),
    {
        match removable_group_chars(rest.as_slice(), &pairs, &noise, &markers) {
            Some((before, after)) => {
                proof {
                    lemma_removable_group_shorter(rest@, 0);
                }
                let ghost old_out = out@;
                let ghost old_rest = rest@;
                append_chars(&mut out, before.as_slice());
                out.push(' ');
                proof {
                    assert(out@ =~= old_out + before@ + seq![' ']);
                    assert(strip_groups(old_out, old_rest) == strip_groups(out@, after@));
                }
                rest = after;
            },
            None => {
                append_chars(&mut out, rest.as_slice());
                rest = Vec::new();
                proof {
                    assert(strip_groups(out@, rest@) == out@);
                }
            },
        }
    }
    let collapsed = collapse_whitespace_chars(out.as_slice());
    let bare = strip_chars(collapsed.as_slice(), CharClass::SpaceDashOrBar);
    let trimmed = collapse_whitespace_chars(bare.as_slice());
    if trimmed.len() == 0 {
        collapse_whitespace_chars(title)
    } else {
        trimmed
    }
}

pub open spec fn string_opt_view(o: Option<String>) -> Option<Seq<char>> {
    match o {
        Some(s) => Some(s@),
        None => None,
    }
}

pub open spec fn str_opt_view(o: Option<&str>) -> Option<Seq<char>> {
    match o {
        Some(s) => Some(s@),
        None => None,
    }
}

/// The artist, cleaned, or `None` when nothing usable is left.
pub open spec fn identified_artist(artist: Option<Seq<char>>) -> Option<Seq<char>> {
    match artist {
        Some(a) => if clean_artist(a).len() > 0 {
            Some(clean_artist(a))
        } else {
            None
        },
        None => None,
    }
}

/// The cleaned title: the artist's own name off the front first, then the
/// upload noise.
pub open spec fn identified_title(artist: Option<Seq<char>>, title: Seq<char>) -> Seq<char> {
    clean_title(strip_artist_prefix(title, identified_artist(artist)))
}

/// Artist and title lowercased, joined by a unit separator so that no title
/// can collide with a different (artist, title) pair.
pub open spec fn identity_key(artist: Option<Seq<char>>, title: Seq<char>) -> Seq<char> {
    lowercase(
        match identified_artist(artist) {
            Some(a) => a,
            None => Seq::empty(),
        },
    ) + seq!['\u{1f}'] + lowercase(identified_title(artist, title))
}

proof fn lemma_strip_start_from_blank(s: Seq<char>, i: int)
    requires
        0 <= i <= s.len(),
        forall|j: int| i <= j < s.len() ==> #[trigger] is_space(s[j]),
    ensures
        strip_start_from(s, CharClass::Space, i).len() == 0,
    decreases s.len() - i,
{
    if i < s.len() {
        lemma_strip_start_from_blank(s, i + 1);
    }
}

proof fn lemma_strip_start_from_first(s: Seq<char>, class: CharClass, i: int)
    requires
        0 <= i <= s.len(),
    ensures
        strip_start_from(s, class, i).len() > 0 ==> !class_has(class, strip_start_from(s, class, i)[0]),
    decreases s.len() - i,
{
    if i < s.len() && class_has(class, s[i]) {
        lemma_strip_start_from_first(s, class, i + 1);
    }
}

/// Identifying a track gives names in normal form: no whitespace at either
/// end and never two whitespace characters in a row; an artist only where
/// one was given, and then never an empty one; and an empty title only for a
/// title that was nothing but whitespace.
pub proof fn lemma_identity_is_normal(artist: Option<Seq<char>>, title: Seq<char>)
    ensures
        artist is None ==> identified_artist(artist) is None,
        identified_artist(artist) matches Some(a) ==> a.len() > 0 && is_collapsed(a),
        is_collapsed(identified_title(artist, title)),
        identified_title(artist, title).len() == 0 <==> is_blank(title),
{
    match artist {
        Some(a) => lemma_collapse_whitespace(
            strip(strip_decoration(trim(a)), CharClass::SpaceOrDash),
        ),
        None => {},
    }
    let named = identified_artist(artist);
    let x = strip_artist_prefix(title, named);
    let out = collapse_whitespace(strip_groups(Seq::empty(), trim(x)));
    lemma_collapse_whitespace(strip(out, CharClass::SpaceDashOrBar));
    lemma_collapse_whitespace(x);
    if is_blank(title) {
        lemma_strip_start_from_blank(title, 0);
        let e = Seq::<char>::empty();
        assert(strip_end_to(e, CharClass::Space, 0) =~= e);
        assert(trim(title) =~= e);
        assert(x == title);
        assert(strip_groups(e, e) == e);
        lemma_collapse_whitespace(e);
        assert(is_blank(e));
        assert(out.len() == 0);
        assert(strip_start_from(out, CharClass::SpaceDashOrBar, 0) =~= e);
        assert(strip_end_to(e, CharClass::SpaceDashOrBar, 0) =~= e);
        assert(strip(out, CharClass::SpaceDashOrBar) =~= e);
    } else {
        let i = choose|i: int| 0 <= i < title.len() && !is_space(#[trigger] title[i]);
        if x != title {
            let name = named->0;
            let a = trim(name);
            let t = trim(title);
            let rest = strip_start(t.skip(a.len() as int), CharClass::Space);
            assert(x == strip_start(rest.drop_first(), CharClass::Space));
            lemma_strip_start_from_first(rest.drop_first(), CharClass::Space, 0);
            assert(!is_space(x[0]));
        }
        assert(!is_blank(x));
    }
}

/// The phrases uploaders put in brackets after a title, written lowercase.
pub open spec fn upload_noise_phrase(p: Seq<char>) -> bool {
    p == "official"@
        || p == "official video"@
        || p == "official music video"@
        || p == "official audio"@
        || p == "official visualizer"@
        || p == "official lyric video"@
        || p == "official lyrics video"@
        || p == "lyric video"@
        || p == "lyrics video"@
        || p == "lyrics"@
        || p == "lyric"@
        || p == "audio"@
        || p == "music video"@
        || p == "visualizer"@
        || p == "hd"@
        || p == "hq"@
        || p == "full hd"@
        || p == "4k"@
        || p == "1080p"@
        || p == "720p"@
        || p == "mv"@
        || p == "m/v"@
        || p == "bga"@
}

/// Any kind of bracket a title group may be written in.
pub open spec fn is_bracket_char(c: char) -> bool {
    c == '(' || c == ')' || c == '[' || c == ']' || c == '{' || c == '}' || c == '\u{3010}' || c
        == '\u{3011}' || c == '\u{ff08}' || c == '\u{ff09}'
}

/// A plain title: not empty, no brackets, starting with neither whitespace,
/// a dash nor a bar, and not ending in whitespace.
pub open spec fn is_plain_title(t: Seq<char>) -> bool {
    &&& t.len() > 0
    &&& !is_space(t[0]) && t[0] != '-' && t[0] != '|'
    &&& !is_space(t[t.len() - 1])
    &&& forall|i: int| 0 <= i < t.len() ==> !is_bracket_char(#[trigger] t[i])
}

proof fn lemma_noise_phrase_is_listed(p: Seq<char>)
    requires
        upload_noise_phrase(p),
    ensures
        has_word(title_noise(), p),
{
    assert(title_noise()[0] == "official"@);
    assert(title_noise()[1] == "official video"@);
    assert(title_noise()[2] == "official music video"@);
    assert(title_noise()[3] == "official audio"@);
    assert(title_noise()[4] == "official visualizer"@);
    assert(title_noise()[5] == "official lyric video"@);
    assert(title_noise()[6] == "official lyrics video"@);
    assert(title_noise()[7] == "lyric video"@);
    assert(title_noise()[8] == "lyrics video"@);
    assert(title_noise()[9] == "lyrics"@);
    assert(title_noise()[10] == "lyric"@);
    assert(title_noise()[11] == "audio"@);
    assert(title_noise()[12] == "music video"@);
    assert(title_noise()[13] == "visualizer"@);
    assert(title_noise()[14] == "hd"@);
    assert(title_noise()[15] == "hq"@);
    assert(title_noise()[16] == "full hd"@);
    assert(title_noise()[17] == "4k"@);
    assert(title_noise()[18] == "1080p"@);
    assert(title_noise()[19] == "720p"@);
    assert(title_noise()[20] == "mv"@);
    assert(title_noise()[21] == "m/v"@);
    assert(title_noise()[22] == "bga"@);
}

proof fn lemma_trim_fixed(s: Seq<char>)
    requires
        s.len() > 0,
        !is_space(s[0]),
        !is_space(s[s.len() - 1]),
    ensures
        trim(s) == s,
{
    assert(strip_start_from(s, CharClass::Space, 0) == s.subrange(0, s.len() as int));
    assert(s.subrange(0, s.len() as int) =~= s);
    assert(strip_end_to(s, CharClass::Space, s.len() as int) == s.subrange(0, s.len() as int));
}

proof fn lemma_no_removable_group(t: Seq<char>, k: int)
    requires
        forall|i: int| 0 <= i < t.len() ==> !is_bracket_char(#[trigger] t[i]),
        0 <= k,
    ensures
        removable_group_from(t, k) is None,
    decreases brackets().len() - k,
{
    if k < brackets().len() {
        let open = brackets()[k].0;
        lemma_find_class_bounds(t, CharClass::Exactly(open), 0);
        let start = find_class_from(t, CharClass::Exactly(open), 0);
        if start < t.len() {
            assert(t[start] == open);
            assert(is_bracket_char(t[start]));
        }
        lemma_no_removable_group(t, k + 1);
    }
}

proof fn lemma_split_first_piece(s: Seq<char>)
    requires
        s.len() > 0,
        !is_space(s[0]),
    ensures
        split(s, CharClass::Space)[0].len() > 0,
        split(s, CharClass::Space)[0][0] == s[0],
        split(s, CharClass::Space).len() >= 1,
    decreases s.len(),
{
    let prev = split(s.drop_last(), CharClass::Space);
    if s.len() == 1 {
        assert(s.drop_last() =~= Seq::<char>::empty());
        assert(prev == seq![Seq::<char>::empty()]);
    } else {
        lemma_split_first_piece(s.drop_last());
    }
}

proof fn lemma_filter_first(ps: Seq<Seq<char>>)
    requires
        ps.len() > 0,
        ps[0].len() > 0,
    ensures
        ps.filter(|p: Seq<char>| is_nonempty(p)).len() > 0,
        ps.filter(|p: Seq<char>| is_nonempty(p))[0] == ps[0],
    decreases ps.len(),
{
    reveal(Seq::filter);
    let pred = |p: Seq<char>| is_nonempty(p);
    if ps.len() == 1 {
        assert(ps.drop_last() =~= Seq::<Seq<char>>::empty());
        assert(ps.drop_last().filter(pred) =~= Seq::<Seq<char>>::empty());
    } else {
        lemma_filter_first(ps.drop_last());
    }
}

proof fn lemma_join_first(pieces: Seq<Seq<char>>, sep: Seq<char>)
    requires
        pieces.len() > 0,
        pieces[0].len() > 0,
    ensures
        join(pieces, sep).len() > 0,
        join(pieces, sep)[0] == pieces[0][0],
    decreases pieces.len(),
{
    if pieces.len() > 1 {
        lemma_join_first(pieces.drop_last(), sep);
    }
}

proof fn lemma_collapse_keeps_first(s: Seq<char>)
    requires
        s.len() > 0,
        !is_space(s[0]),
    ensures
        collapse_whitespace(s).len() > 0,
        collapse_whitespace(s)[0] == s[0],
{
    lemma_split_first_piece(s);
    let ps = split(s, CharClass::Space);
    lemma_filter_first(ps);
    lemma_join_first(ps.filter(|p: Seq<char>| is_nonempty(p)), seq![' ']);
}

proof fn lemma_collapse_ignores_a_trailing_space(s: Seq<char>)
    ensures
        collapse_whitespace(s.push(' ')) == collapse_whitespace(s),
{
    reveal(Seq::filter);
    assert(s.push(' ').drop_last() =~= s);
    assert(is_space(' ')) by {
        assert((' ' as u32) == 32);
    }
    let ps = split(s, CharClass::Space);
    assert(split(s.push(' '), CharClass::Space) == ps.push(Seq::<char>::empty()));
    let pred = |p: Seq<char>| is_nonempty(p);
    assert(ps.push(Seq::<char>::empty()).drop_last() =~= ps);
    assert(ps.push(Seq::<char>::empty()).filter(pred) == ps.filter(pred));
}

/// Upload noise in brackets is not part of a title. For a plain title `t`
/// that does not start with the artist's own name, adding `" (" + g + ")"`,
/// where `g` trimmed and lowercased is one of the upload phrases ("official
/// video", "lyrics", "hd", ...), leaves the identified title as it was:
/// "Never Gonna Give You Up (Official Video)" is "Never Gonna Give You Up".
pub proof fn lemma_upload_noise_is_dropped(artist: Option<Seq<char>>, t: Seq<char>, g: Seq<char>)
    requires
        is_plain_title(t),
        forall|i: int| 0 <= i < g.len() ==> !is_bracket_char(#[trigger] g[i]),
        upload_noise_phrase(lowercase(trim(g))),
        identified_artist(artist) matches Some(n) ==> n.len() <= t.len() && !eq_ignore_ascii_case(
            t.take(n.len() as int),
            n,
        ),
    ensures
        identified_title(artist, t + " ("@ + g + ")"@) == identified_title(artist, t),
{
    reveal_strlit(" (");
    reveal_strlit(")");
    let x = t + " ("@ + g + ")"@;
    let tl = t.len() as int;
    assert(x.len() == tl + 3 + g.len());
    assert(x[tl] == ' ' && x[tl + 1] == '(');
    assert(x[x.len() - 1] == ')');
    assert forall|i: int| 0 <= i < tl implies x[i] == t[i] by {}
    // The title and the title with its group both pass through untouched by
    // the artist's name and by trimming.
    lemma_trim_fixed(t);
    assert(!is_space(x[0])) by {
        assert(x[0] == t[0]);
    }
    assert(!is_space(')')) by {
        assert((')' as u32) == 41);
    }
    lemma_trim_fixed(x);
    lemma_identity_is_normal(artist, t);
    match identified_artist(artist) {
        Some(n) => {
            lemma_trim_fixed(n);
            assert(x.take(n.len() as int) =~= t.take(n.len() as int));
            assert(strip_artist_prefix(x, Some(n)) == x);
            assert(strip_artist_prefix(t, Some(n)) == t);
        },
        None => {},
    }
    // The group is found and dropped.
    lemma_find_class_bounds(x, CharClass::Exactly('('), 0);
    let start = find_class_from(x, CharClass::Exactly('('), 0);
    if start < tl + 1 {
        if start < tl {
            assert(x[start] == t[start]);
            assert(is_bracket_char(t[start]));
        }
        assert(false);
    }
    assert(start == tl + 1);
    let after_open = x.skip(start + 1);
    assert(after_open =~= g + ")"@);
    lemma_find_class_bounds(after_open, CharClass::Exactly(')'), 0);
    let len = find_class_from(after_open, CharClass::Exactly(')'), 0);
    if len < g.len() {
        assert(after_open[len] == g[len]);
        assert(is_bracket_char(g[len]));
        assert(false);
    }
    assert(after_open[g.len() as int] == ')');
    if len > g.len() {
        assert(!class_has(CharClass::Exactly(')'), after_open[g.len() as int]));
    }
    assert(len == g.len());
    assert(after_open.take(len) =~= g);
    assert(after_open.skip(len + 1) =~= Seq::<char>::empty());
    assert(x.take(start) =~= t + seq![' ']);
    lemma_noise_phrase_is_listed(lowercase(trim(g)));
    assert(is_noise(g));
    assert(brackets()[0] == ('(', ')'));
    assert(removable_group_from(x, 0) == Some((t + seq![' '], Seq::<char>::empty())));
    let e = Seq::<char>::empty();
    assert(strip_groups(e, x) == strip_groups(e + (t + seq![' ']) + seq![' '], e));
    assert(e + (t + seq![' ']) + seq![' '] =~= t.push(' ').push(' '));
    lemma_collapse_ignores_a_trailing_space(t.push(' '));
    lemma_collapse_ignores_a_trailing_space(t);
    // Without the group there is nothing to drop.
    lemma_no_removable_group(t, 0);
    assert(strip_groups(e, t) == e + t);
    assert(e + t =~= t);
    // What is left is not only dashes and bars, so it is kept.
    let out = collapse_whitespace(t);
    lemma_collapse_keeps_first(t);
    let cls = CharClass::SpaceDashOrBar;
    assert(!class_has(cls, out[0]));
    assert(strip_start_from(out, cls, 0) == out.subrange(0, out.len() as int));
    assert(out.subrange(0, out.len() as int) =~= out);
    lemma_strip_end_to_shape(out, cls, out.len() as int);
    let kept = strip(out, cls);
    assert(kept.len() > 0);
    assert(kept[0] == out[0]);
    lemma_collapse_whitespace(kept);
    assert(!is_blank(kept));
}

/// Works out which song a track row is about.
///
/// The artist has to be known before the title can be cleaned: half of what
/// makes a title wrong is the artist's own name sitting in front of it.
pub fn identify(artist: Option<&str>, title: &str) -> (id: Identity)
    ensures
        string_opt_view(id.artist) == identified_artist(str_opt_view(artist)),
        id.title@ == identified_title(str_opt_view(artist), title@),
        id.key@ == identity_key(str_opt_view(artist), title@),
{
    let cleaned: Option<Vec<char>> = match artist {
        Some(a) => {
            let c = clean_artist_chars(chars_of(a).as_slice());
            if c.len() > 0 {
                Some(c)
            } else {
                None
            }
        },
        None => None,
    };
    let title_chars = chars_of(title);
    let stripped = match &cleaned {
        Some(c) => strip_artist_prefix_chars(title_chars.as_slice(), Some(c.as_slice())),
        None => strip_artist_prefix_chars(title_chars.as_slice(), None),
    };
    let cleaned_title = clean_title_chars(stripped.as_slice());
    let empty: Vec<char> = Vec::new();
    let mut key = match &cleaned {
        Some(c) => lowercase_chars(c.as_slice()),
        None => lowercase_chars(empty.as_slice()),
    };
    proof {
        assert(empty@ =~= Seq::<char>::empty());
    }
    key.push('\u{1f}');
    append_chars(&mut key, lowercase_chars(cleaned_title.as_slice()).as_slice());
    let artist_out = match &cleaned {
        Some(c) => Some(string_of(c.as_slice())),
        None => None,
    };
    Identity { artist: artist_out, title: string_of(cleaned_title.as_slice()), key: string_of(key.as_slice()) }
}

/// A title with `artist` taken off the front and the upload noise removed,
/// using the artist exactly as given rather than cleaned: a folder somebody
/// named is not a channel handle.
pub fn title_without(artist: &str, title: &str) -> (r: String)
    ensures
        r@ == clean_title(strip_artist_prefix(title@, Some(artist@))),
{
    let a = chars_of(artist);
    let t = chars_of(title);
    let stripped = strip_artist_prefix_chars(t.as_slice(), Some(a.as_slice()));
    string_of(clean_title_chars(stripped.as_slice()).as_slice())
}


// --- comparing names and titles ----------------------------------------------------

/// Words that introduce a second artist.
pub open spec fn collaborators() -> Seq<Seq<char>> {
    seq![
        "feat"@,
        "feat."@,
        "ft"@,
        "ft."@,
        "featuring"@,
        "x"@,
        "and"@,
        "vs"@,
        "vs."@,
        "with"@,
        "&"@,
    ]
}

fn collaborator_list() -> (list: Vec<Vec<char>>)
    ensures
        views(list@) == collaborators(),
{
    let mut list: Vec<Vec<char>> = Vec::new();
    push_word(&mut list, "feat");
    push_word(&mut list, "feat.");
    push_word(&mut list, "ft");
    push_word(&mut list, "ft.");
    push_word(&mut list, "featuring");
    push_word(&mut list, "x");
    push_word(&mut list, "and");
    push_word(&mut list, "vs");
    push_word(&mut list, "vs.");
    push_word(&mut list, "with");
    push_word(&mut list, "&");
    proof {
        assert(views(list@) =~= collaborators());
    }
    list
}

/// Words that name a *different recording* of the same song: the inverse of
/// the upload noise. A remix, a live take and a cover share a name with the
/// original and none of its timings.
pub open spec fn version_markers() -> Seq<Seq<char>> {
    seq![
        "remix"@,
        "remixes"@,
        "live"@,
        "acoustic"@,
        "cover"@,
        "covered"@,
        "instrumental"@,
        "version"@,
        "ver"@,
        "edit"@,
        "extended"@,
        "remaster"@,
        "remastered"@,
        "demo"@,
        "karaoke"@,
        "nightcore"@,
        "slowed"@,
        "reverb"@,
        "sped"@,
        "8d"@,
        "mashup"@,
        "bootleg"@,
        "rework"@,
        "reimagined"@,
        "reimagining"@,
    ]
}

fn version_marker_list() -> (list: Vec<Vec<char>>)
    ensures
        views(list@) == version_markers(),
{
    let mut list: Vec<Vec<char>> = Vec::new();
    push_word(&mut list, "remix");
    push_word(&mut list, "remixes");
    push_word(&mut list, "live");
    push_word(&mut list, "acoustic");
    push_word(&mut list, "cover");
    push_word(&mut list, "covered");
    push_word(&mut list, "instrumental");
    push_word(&mut list, "version");
    push_word(&mut list, "ver");
    push_word(&mut list, "edit");
    push_word(&mut list, "extended");
    push_word(&mut list, "remaster");
    push_word(&mut list, "remastered");
    push_word(&mut list, "demo");
    push_word(&mut list, "karaoke");
    push_word(&mut list, "nightcore");
    push_word(&mut list, "slowed");
    push_word(&mut list, "reverb");
    push_word(&mut list, "sped");
    push_word(&mut list, "8d");
    push_word(&mut list, "mashup");
    push_word(&mut list, "bootleg");
    push_word(&mut list, "rework");
    push_word(&mut list, "reimagined");
    push_word(&mut list, "reimagining");
    proof {
        assert(views(list@) =~= version_markers());
    }
    list
}

/// White space collapsed, then lowercased.
pub open spec fn fold(text: Seq<char>) -> Seq<char> {
    lowercase(collapse_whitespace(text))
}

/// A title split into comparable words: lowercased, broken at everything that
/// is not alphanumeric, empty pieces dropped.
pub open spec fn words(text: Seq<char>) -> Seq<Seq<char>> {
    split(lowercase(text), CharClass::NotAlphanumeric).filter(|p: Seq<char>| is_nonempty(p))
}

fn words_chars(text: &[char]) -> (ws: Vec<Vec<char>>)
    ensures
        views(ws@) == words(text@),
{
    let lowered = lowercase_chars(text);
    let pieces = split_chars(lowered.as_slice(), CharClass::NotAlphanumeric);
    nonempty_pieces(&pieces)
}

/// Where the artist's name is cut: at the first of the `tokens` from the
/// `k`th on that names a collaborator, if it starts (at `offset`) before
/// `cut` and is not the first word.
pub open spec fn collab_cut(tokens: Seq<Seq<char>>, k: int, offset: int, cut: int) -> int
    decreases tokens.len() - k,
{
    if 0 <= k < tokens.len() {
        if offset > 0 && offset < cut && has_ignoring_ascii_case(collaborators(), tokens[k]) {
            offset
        } else {
            collab_cut(tokens, k + 1, offset + tokens[k].len() + 1, cut)
        }
    } else {
        cut
    }
}

proof fn lemma_collab_cut_past(tokens: Seq<Seq<char>>, k: int, offset: int, cut: int)
    requires
        offset >= cut,
    ensures
        collab_cut(tokens, k, offset, cut) == cut,
    decreases tokens.len() - k,
{
    if 0 <= k < tokens.len() {
        lemma_collab_cut_past(tokens, k + 1, offset + tokens[k].len() + 1, cut);
    }
}

proof fn lemma_collab_cut_bounds(tokens: Seq<Seq<char>>, k: int, offset: int, cut: int)
    ensures
        collab_cut(tokens, k, offset, cut) == cut || (0 < collab_cut(tokens, k, offset, cut) < cut),
    decreases tokens.len() - k,
{
    if 0 <= k < tokens.len() {
        lemma_collab_cut_bounds(tokens, k + 1, offset + tokens[k].len() + 1, cut);
    }
}

/// The artist before any collaborators: folded, cut at the first joining
/// punctuation, then at the first collaborator word after the first word.
pub open spec fn primary_name(artist: Seq<char>) -> Seq<char> {
    let folded = fold(artist);
    let cut = collab_cut(
        split(folded, CharClass::Exactly(' ')),
        0,
        0,
        find_class_from(folded, CharClass::ArtistJoiner, 0),
    );
    trim(folded.take(cut))
}

fn collab_cut_exec(tokens: &Vec<Vec<char>>, collab: &Vec<Vec<char>>, cut0: usize) -> (cut: usize)
    requires
        views(collab@) == collaborators(),
    ensures
        cut == collab_cut(views(tokens@), 0, 0, cut0 as int),
{
    let ghost ts = views(tokens@);
    let mut offset: usize = 0;
    let mut k: usize = 0;
    while k < tokens.len()
        invariant
            views(tokens@) == ts,
            views(collab@) == collaborators(),
            k <= ts.len(),
            collab_cut(ts, 0, 0, cut0 as int) == collab_cut(ts, k as int, offset as int, cut0 as int),
        decreases tokens.len() - k,
    {
        if offset >= cut0 {
            proof {
                lemma_collab_cut_past(ts, k as int, offset as int, cut0 as int);
            }
            return cut0;
        }
        proof {
            assert(tokens@[k as int]@ == ts[k as int]);
        }
        if offset > 0 && has_ignoring_ascii_case_chars(collab, tokens[k].as_slice()) {
            return offset;
        }
        if tokens[k].len() >= cut0 - offset {
            proof {
                lemma_collab_cut_past(
                    ts,
                    k + 1,
                    offset + ts[k as int].len() + 1,
                    cut0 as int,
                );
            }
            return cut0;
        }
        offset = offset + tokens[k].len() + 1;
        k = k + 1;
    }
    cut0
}

/// The artist before any collaborators.
///
/// Applied to both sides of a comparison, which is what makes it safe: the
/// same truncation on both means an odd split cancels out rather than causing
/// a mismatch.
pub fn primary_artist(artist: &str) -> (r: String)
    ensures
        r@ == primary_name(artist@),
{
    let collapsed = collapse_whitespace_chars(chars_of(artist).as_slice());
    let folded = lowercase_chars(collapsed.as_slice());
    let cut0 = find_class(folded.as_slice(), CharClass::ArtistJoiner, 0);
    let tokens = split_chars(folded.as_slice(), CharClass::Exactly(' '));
    let collab = collaborator_list();
    let cut = collab_cut_exec(&tokens, &collab, cut0);
    proof {
        lemma_collab_cut_bounds(views(tokens@), 0, 0, cut0 as int);
    }
    let head = slice_range(folded.as_slice(), 0, cut);
    proof {
        assert(head@ =~= folded@.take(cut as int));
    }
    string_of(trim_chars(head.as_slice()).as_slice())
}

/// Whether `short` sits in `long` at position `p`.
pub open spec fn window_at(long: Seq<Seq<char>>, short: Seq<Seq<char>>, p: int) -> bool {
    long.subrange(p, p + short.len()) == short
}

/// The first position at or after `p` where `short` sits in `long`.
pub open spec fn first_window_from(long: Seq<Seq<char>>, short: Seq<Seq<char>>, p: int) -> Option<int>
    decreases long.len() + 1 - p,
{
    if p < 0 || p + short.len() > long.len() {
        None
    } else if window_at(long, short, p) {
        Some(p)
    } else {
        first_window_from(long, short, p + 1)
    }
}

/// No word here names a different recording.
pub open spec fn free_of_markers(ws: Seq<Seq<char>>) -> bool {
    forall|i: int| 0 <= i < ws.len() ==> !has_word(version_markers(), #[trigger] ws[i])
}

/// Whether two titles name the same recording: equal word for word, or one
/// is the other plus catalogue context -- but never plus a word that names a
/// different recording.
pub open spec fn same_recording(ours: Seq<char>, theirs: Seq<char>) -> bool {
    let o = words(ours);
    let t = words(theirs);
    if o.len() == 0 || t.len() == 0 {
        false
    } else {
        let long = if o.len() >= t.len() {
            o
        } else {
            t
        };
        let short = if o.len() >= t.len() {
            t
        } else {
            o
        };
        match first_window_from(long, short, 0) {
            None => false,
            Some(start) => free_of_markers(long.take(start) + long.skip(start + short.len())),
        }
    }
}

fn window_at_exec(long: &Vec<Vec<char>>, short: &Vec<Vec<char>>, p: usize) -> (b: bool)
    requires
        p + short@.len() <= long@.len(),
    ensures
        b == window_at(views(long@), views(short@), p as int),
{
    let ghost l = views(long@);
    let ghost s = views(short@);
    let total = long.len();
    let mut j: usize = 0;
    while j < short.len()
        invariant
            p + short@.len() <= long@.len(),
            total == long@.len(),
            l == views(long@),
            s == views(short@),
            j <= s.len(),
            forall|i: int| 0 <= i < j ==> #[trigger] l[p + i] == s[i],
        decreases short.len() - j,
    {
        proof {
            assert(l[p + j] == long@[p + j]@);
            assert(s[j as int] == short@[j as int]@);
        }
        if !chars_equal(long[p + j].as_slice(), short[j].as_slice()) {
            proof {
                assert(l.subrange(p as int, p + s.len())[j as int] != s[j as int]);
            }
            return false;
        }
        j = j + 1;
    }
    proof {
        assert forall|i: int| 0 <= i < s.len() implies l.subrange(p as int, p + s.len())[i] == s[i] by {
            assert(l[p + i] == s[i]);
        }
        assert(l.subrange(p as int, p + s.len()) =~= s);
    }
    true
}

fn first_window_exec(long: &Vec<Vec<char>>, short: &Vec<Vec<char>>) -> (r: Option<usize>)
    requires
        0 < short@.len() <= long@.len(),
    ensures
        match r {
            Some(p) => first_window_from(views(long@), views(short@), 0) == Some(p as int) && p
                + short@.len() <= long@.len(),
            None => first_window_from(views(long@), views(short@), 0) is None,
        },
{
    let ghost l = views(long@);
    let ghost s = views(short@);
    let n = short.len();
    let total = long.len();
    let last = total - n;
    let mut p: usize = 0;
    while p <= last
        invariant
            l == views(long@),
            s == views(short@),
            n == s.len(),
            n > 0,
            total == l.len(),
            last + n == l.len(),
            p <= last + 1,
            first_window_from(l, s, 0) == first_window_from(l, s, p as int),
        decreases last + 1 - p,
    {
        if window_at_exec(long, short, p) {
            return Some(p);
        }
        p = p + 1;
    }
    None
}

fn title_covers_words(long: &Vec<Vec<char>>, short: &Vec<Vec<char>>, markers: &Vec<Vec<char>>) -> (b: bool)
    requires
        views(markers@) == version_markers(),
        0 < short@.len() <= long@.len(),
    ensures
        b == match first_window_from(views(long@), views(short@), 0) {
            None => false,
            Some(start) => free_of_markers(
                views(long@).take(start) + views(long@).skip(start + short@.len()),
            ),
        },
{
    let ghost l = views(long@);
    let ghost s = views(short@);
    let n = short.len();
    let p = match first_window_exec(long, short) {
        Some(p) => p,
        None => {
            return false;
        },
    };
    let ghost rest = l.take(p as int) + l.skip(p + n);
    let mut i: usize = 0;
    while i < long.len()
        invariant
            l == views(long@),
            views(markers@) == version_markers(),
            n == short@.len(),
            first_window_from(views(long@), views(short@), 0) == Some(p as int),
            p + n <= l.len(),
            rest == l.take(p as int) + l.skip(p + n),
            i <= l.len(),
            forall|j: int|
                0 <= j < rest.len() && (if j < p {
                    j
                } else {
                    j + n
                }) < i ==> !has_word(version_markers(), #[trigger] rest[j]),
        decreases long.len() - i,
    {
        if i < p || i >= p + n {
            proof {
                assert(long@[i as int]@ == l[i as int]);
            }
            if has_word_chars(markers, long[i].as_slice()) {
                proof {
                    let j = if i < p {
                        i as int
                    } else {
                        i - n
                    };
                    assert(rest.len() == l.len() - n);
                    assert(rest[j] == l[i as int]);
                    assert(has_word(version_markers(), rest[j]));
                    assert(!free_of_markers(rest));
                }
                return false;
            }
        }
        i = i + 1;
    }
    proof {
        assert forall|j: int| 0 <= j < rest.len() implies !has_word(version_markers(), #[trigger] rest[j]) by {
            if j < p {
                assert(rest[j] == l[j]);
            } else {
                assert(rest[j] == l[j + n]);
            }
        }
    }
    true
}

/// Whether two titles name the same recording.
///
/// Equal word for word, or one is the other plus catalogue context -- an album
/// name, a disc and track number, an "OST" prefix. Any overlap at all would be
/// far worse: `Infinite` is inside `Infinite (KITSUN3POWR REMIX V3)`, and the
/// original's timings are wrong for every line of a remix. So the extra words
/// decide, and none of them may name a different recording.
pub fn title_covers(ours: &str, theirs: &str) -> (b: bool)
    ensures
        b == same_recording(ours@, theirs@),
{
    let o = words_chars(chars_of(ours).as_slice());
    let t = words_chars(chars_of(theirs).as_slice());
    if o.len() == 0 || t.len() == 0 {
        return false;
    }
    let markers = version_marker_list();
    if o.len() >= t.len() {
        title_covers_words(&o, &t, &markers)
    } else {
        title_covers_words(&t, &o, &markers)
    }
}

/// Whether a phrase says only *which version this is* and nothing else, so
/// that `"Song - Remix"` is not split into an artist and a title.
pub open spec fn only_version_marker(text: Seq<char>) -> bool {
    words(text).len() > 0 && forall|i: int|
        0 <= i < words(text).len() ==> has_word(version_markers(), #[trigger] words(text)[i])
}

pub fn is_only_version_marker(text: &str) -> (b: bool)
    ensures
        b == only_version_marker(text@),
{
    let ws = words_chars(chars_of(text).as_slice());
    if ws.len() == 0 {
        return false;
    }
    let markers = version_marker_list();
    let mut i: usize = 0;
    while i < ws.len()
        invariant
            views(markers@) == version_markers(),
            views(ws@) == words(text@),
            i <= ws@.len(),
            forall|j: int| 0 <= j < i ==> has_word(version_markers(), #[trigger] words(text@)[j]),
        decreases ws.len() - i,
    {
        proof {
            assert(ws@[i as int]@ == words(text@)[i as int]);
        }
        if !has_word_chars(&markers, ws[i].as_slice()) {
            return false;
        }
        i = i + 1;
    }
    true
}


// --- what to show -------------------------------------------------------------------

/// What a [`TrackLyrics`] says, as plain values.
pub struct LyricsModel {
    pub kind: Kind,
    pub lines: Seq<(Option<i64>, Seq<char>)>,
    pub origin: Seq<char>,
    pub offset_ms: i64,
    pub romaji: Option<Seq<(Option<i64>, Seq<char>)>>,
}

pub open spec fn lyrics_model(t: TrackLyrics) -> LyricsModel {
    LyricsModel {
        kind: t.kind,
        lines: lines_view(t.lines@),
        origin: t.origin@,
        offset_ms: t.offset_ms,
        romaji: match t.romaji {
            Some(r) => Some(lines_view(r@)),
            None => None,
        },
    }
}

/// Timed lines, each with its time.
pub open spec fn timed_lines(entries: Seq<(i64, Seq<char>)>) -> Seq<(Option<i64>, Seq<char>)> {
    entries.map_values(|e: (i64, Seq<char>)| (Some(e.0), e.1))
}

/// Plain lines, none with a time.
pub open spec fn untimed_lines(ls: Seq<Seq<char>>) -> Seq<(Option<i64>, Seq<char>)> {
    ls.map_values(|l: Seq<char>| (None::<i64>, l))
}

/// Text of unknown shape read as whichever kind it turns out to be: LRC if it
/// parses as LRC, else plain text if any is left, else nothing. A
/// romanisation is only ever offered alongside timed lyrics, and only when it
/// is itself timed.
pub open spec fn read_text(
    text: Seq<char>,
    romaji: Option<Seq<char>>,
    origin: Seq<char>,
    offset_ms: i64,
) -> Option<LyricsModel> {
    match lrc(text) {
        Some(entries) => Some(
            LyricsModel {
                kind: Kind::Synced,
                lines: timed_lines(entries),
                origin,
                offset_ms,
                romaji: match romaji {
                    Some(r) => match lrc(r) {
                        Some(e) => Some(timed_lines(e)),
                        None => None,
                    },
                    None => None,
                },
            },
        ),
        None => if plain(text).len() == 0 {
            None
        } else {
            Some(
                LyricsModel {
                    kind: Kind::Plain,
                    lines: untimed_lines(plain(text)),
                    origin,
                    offset_ms,
                    romaji: None,
                },
            )
        },
    }
}

fn parse_lrc_lines(text: &str) -> (r: Option<Vec<LyricLine>>)
    ensures
        match r {
            Some(ls) => lrc(text@) matches Some(e) && lines_view(ls@) == timed_lines(e),
            None => lrc(text@) is None,
        },
{
    let r = parse_lrc(text);
    match r {
        Some(ls) => {
            proof {
                let e = lrc(text@)->0;
                assert(lines_view(ls@) =~= timed_lines(e)) by {
                    assert forall|i: int| 0 <= i < ls@.len() implies lines_view(ls@)[i] == timed_lines(
                        e,
                    )[i] by {
                        assert(ls@[i].at_ms is Some);
                    }
                }
            }
            Some(ls)
        },
        None => None,
    }
}

/// Reads text of unknown shape into whichever kind it turns out to be.
pub fn from_text(text: &str, romaji: Option<&str>, origin: &str, offset_ms: i64) -> (r: Option<
    TrackLyrics,
>)
    ensures
        match r {
            Some(t) => read_text(text@, str_opt_view(romaji), origin@, offset_ms) == Some(
                lyrics_model(t),
            ),
            None => read_text(text@, str_opt_view(romaji), origin@, offset_ms) is None,
        },
{
    let romanised = match romaji {
        Some(r) => parse_lrc_lines(r),
        None => None,
    };
    let origin_text = string_of(chars_of(origin).as_slice());
    match parse_lrc_lines(text) {
        Some(lines) => {
            return Some(
                TrackLyrics {
                    kind: Kind::Synced,
                    lines,
                    origin: origin_text,
                    offset_ms,
                    romaji: romanised,
                },
            );
        },
        None => {},
    }
    let plain_lines = parse_plain(text);
    if plain_lines.len() == 0 {
        return None;
    }
    let ghost sheet = plain(text@);
    let mut lines: Vec<LyricLine> = Vec::new();
    let mut i: usize = 0;
    while i < plain_lines.len()
        invariant
            sheet == plain(text@),
            plain_lines@.len() == sheet.len(),
            forall|j: int| 0 <= j < plain_lines@.len() ==> (#[trigger] plain_lines@[j])@ == sheet[j],
            i <= plain_lines@.len(),
            lines_view(lines@) =~= untimed_lines(sheet.take(i as int)),
        decreases plain_lines.len() - i,
    {
        let text_copy = plain_lines[i].clone();
        let ghost before = lines_view(lines@);
        lines.push(LyricLine { at_ms: None, text: text_copy });
        proof {
            assert(sheet.take(i + 1) =~= sheet.take(i as int).push(sheet[i as int]));
            assert(lines_view(lines@) =~= before.push((None::<i64>, sheet[i as int])));
        }
        i = i + 1;
    }
    proof {
        assert(sheet.take(sheet.len() as int) =~= sheet);
    }
    Some(TrackLyrics { kind: Kind::Plain, lines, origin: origin_text, offset_ms, romaji: None })
}

/// How long a "nothing found" stands before it is worth asking again: two
/// weeks, in seconds.
pub const NEGATIVE_HOLDS_FOR_SECS: i64 = 1_209_600;

/// What the cache has to say about a song.
///
/// Three states rather than two, because "nothing to show" and "do not ask
/// again" are the same to a reader and opposite to a fetcher.
pub enum Cached {
    Hit(TrackLyrics),
    /// Never asked, or asked long enough ago to be worth asking again.
    Worth,
    /// Asked recently. There is nothing there.
    Empty,
}

pub enum CachedModel {
    Hit(LyricsModel),
    Worth,
    Empty,
}

pub open spec fn cached_model(c: Cached) -> CachedModel {
    match c {
        Cached::Hit(t) => CachedModel::Hit(lyrics_model(t)),
        Cached::Worth => CachedModel::Worth,
        Cached::Empty => CachedModel::Empty,
    }
}

impl Cached {
    pub fn into_hit(self) -> (r: Option<TrackLyrics>)
        ensures
            match self {
                Cached::Hit(t) => r == Some(t),
                _ => r is None,
            },
    {
        match self {
            Cached::Hit(lyrics) => Some(lyrics),
            _ => None,
        }
    }
}

/// One row of the `lyrics` table, as read.
pub struct CachedRow {
    pub synced: Option<String>,
    pub plain: Option<String>,
    pub romaji: Option<String>,
    pub instrumental: i64,
    pub provider: String,
    /// Seconds since the row was written.
    pub age_secs: i64,
}

/// Stored text, when there is any beyond white space, read as lyrics.
pub open spec fn stored_text(
    text: Option<Seq<char>>,
    romaji: Option<Seq<char>>,
    provider: Seq<char>,
    offset_ms: i64,
) -> Option<LyricsModel> {
    match text {
        Some(t) => if trim(t).len() > 0 {
            read_text(t, romaji, provider, offset_ms)
        } else {
            None
        },
        None => None,
    }
}

/// What a cached row means: its synced text if that reads as lyrics, else
/// its plain text, else "instrumental" when it says so; otherwise the row is
/// a negative answer, which stands for [`NEGATIVE_HOLDS_FOR_SECS`].
pub open spec fn cached_answer_model(row: Option<CachedRow>, offset_ms: i64) -> CachedModel {
    match row {
        None => CachedModel::Worth,
        Some(r) => {
            let romaji = string_opt_view(r.romaji);
            let synced = stored_text(string_opt_view(r.synced), romaji, r.provider@, offset_ms);
            let plain = stored_text(string_opt_view(r.plain), romaji, r.provider@, offset_ms);
            if synced is Some {
                CachedModel::Hit(synced->0)
            } else if plain is Some {
                CachedModel::Hit(plain->0)
            } else if r.instrumental == 1 {
                CachedModel::Hit(
                    LyricsModel {
                        kind: Kind::Instrumental,
                        lines: Seq::empty(),
                        origin: r.provider@,
                        offset_ms,
                        romaji: None,
                    },
                )
            } else if r.age_secs < NEGATIVE_HOLDS_FOR_SECS {
                CachedModel::Empty
            } else {
                CachedModel::Worth
            }
        },
    }
}

fn stored_text_exec(text: &Option<String>, romaji: &Option<String>, provider: &String, offset_ms: i64) -> (r:
    Option<TrackLyrics>)
    ensures
        match r {
            Some(t) => stored_text(string_opt_view(*text), string_opt_view(*romaji), provider@, offset_ms)
                == Some(lyrics_model(t)),
            None => stored_text(string_opt_view(*text), string_opt_view(*romaji), provider@, offset_ms) is None,
        },
{
    match text {
        Some(t) => {
            if trim_chars(chars_of(t.as_str()).as_slice()).len() == 0 {
                return None;
            }
            match romaji {
                Some(r) => from_text(t.as_str(), Some(r.as_str()), provider.as_str(), offset_ms),
                None => from_text(t.as_str(), None, provider.as_str(), offset_ms),
            }
        },
        None => None,
    }
}

/// What a provider found for this song, from its row in the cache, if one
/// was ever asked.
pub fn cached_answer(row: Option<CachedRow>, offset_ms: i64) -> (c: Cached)
    ensures
        cached_model(c) == cached_answer_model(row, offset_ms),
{
    let r = match row {
        None => {
            return Cached::Worth;
        },
        Some(r) => r,
    };
    match stored_text_exec(&r.synced, &r.romaji, &r.provider, offset_ms) {
        Some(found) => {
            return Cached::Hit(found);
        },
        None => {},
    }
    match stored_text_exec(&r.plain, &r.romaji, &r.provider, offset_ms) {
        Some(found) => {
            return Cached::Hit(found);
        },
        None => {},
    }
    if r.instrumental == 1 {
        let ghost provider = r.provider@;
        let lyrics = TrackLyrics {
            kind: Kind::Instrumental,
            lines: Vec::new(),
            origin: r.provider,
            offset_ms,
            romaji: None,
        };
        proof {
            assert(lines_view(lyrics.lines@) =~= Seq::<(Option<i64>, Seq<char>)>::empty());
        }
        return Cached::Hit(lyrics);
    }
    if r.age_secs < NEGATIVE_HOLDS_FOR_SECS {
        Cached::Empty
    } else {
        Cached::Worth
    }
}


// --- what a provider found --------------------------------------------------------

/// One result, in the shape the ranking cares about.
///
/// Lengths are held in milliseconds, as whole numbers: that is what the
/// window and the ordering below compare.
#[derive(Debug, Clone, Default)]
pub struct Match {
    /// Which provider said so, and what gets stored in `lyrics.provider`.
    pub provider: &'static str,
    /// That provider's own row id, so a shown candidate can be picked later.
    pub id: i64,
    pub artist: String,
    pub title: String,
    pub duration_ms: Option<i64>,
    /// A positive answer with no words in it.
    pub instrumental: bool,
    /// LRC source text.
    pub synced: Option<String>,
    pub plain: Option<String>,
    /// Timed romanisation, where the provider has one.
    pub romaji: Option<String>,
}

impl Match {
    /// Whether this says anything at all. A row with no lyrics and no
    /// instrumental flag is a stub somebody created and never filled in.
    pub fn is_useful(&self) -> (b: bool)
        ensures
            b == (self.instrumental || self.synced is Some || self.plain is Some),
    {
        self.instrumental || self.synced.is_some() || self.plain.is_some()
    }
}


// --- choosing between candidates ---------------------------------------------------

/// How much longer our copy may be than the release, in milliseconds: an
/// upload adds intro cards and trailing silence, and essentially never
/// removes anything.
pub const MAX_PADDING_MS: i64 = 25_000;

/// How much shorter our copy may be, in milliseconds: there is no benign
/// reason for it, so this is tight.
pub const MAX_SHORTFALL_MS: i64 = 5_000;

/// What a candidate is ranked by: whether its artist matched, whether its
/// title matched word for word, whether it is timed, whether it carries a
/// romanisation, and how far its length is from ours (the largest value when
/// either length is unknown, so any candidate that could be checked wins).
pub open spec fn rank_key(
    c: Match,
    wanted_artist: Option<Seq<char>>,
    wanted_title: Seq<char>,
    ours: Option<i64>,
) -> Option<(bool, bool, bool, bool, i64)> {
    let useful = c.instrumental || c.synced is Some || c.plain is Some;
    let artist_match = match wanted_artist {
        Some(w) => primary_name(c.artist@) == w,
        None => false,
    };
    let title_exact = words(c.title@) == words(wanted_title);
    if !useful || !same_recording(wanted_title, c.title@) || (wanted_artist is None && ours is None) {
        None
    } else {
        match (ours, c.duration_ms) {
            (Some(o), Some(t)) => {
                let delta = o - t;
                if delta < -MAX_SHORTFALL_MS || delta > MAX_PADDING_MS {
                    None
                } else {
                    Some(
                        (
                            artist_match,
                            title_exact,
                            c.synced is Some,
                            c.romaji is Some,
                            (if delta < 0 {
                                -delta
                            } else {
                                delta
                            }) as i64,
                        ),
                    )
                }
            },
            _ => if artist_match && title_exact {
                Some((artist_match, title_exact, c.synced is Some, c.romaji is Some, i64::MAX))
            } else {
                None
            },
        }
    }
}

/// Strictly better: name first, then timing. A timed candidate beats a
/// closer untimed one; a romanised one beats one without; then the nearer
/// length wins.
pub open spec fn better(a: (bool, bool, bool, bool, i64), b: (bool, bool, bool, bool, i64)) -> bool {
    if a.0 != b.0 {
        a.0
    } else if a.1 != b.1 {
        a.1
    } else if a.2 != b.2 {
        a.2
    } else if a.3 != b.3 {
        a.3
    } else {
        a.4 < b.4
    }
}

/// The candidates that are admitted at all, in their own order, each with its key
/// and its position.
pub open spec fn admitted(
    cands: Seq<Match>,
    wanted_artist: Option<Seq<char>>,
    wanted_title: Seq<char>,
    ours: Option<i64>,
) -> Seq<((bool, bool, bool, bool, i64), int)>
    decreases cands.len(),
{
    if cands.len() == 0 {
        Seq::empty()
    } else {
        let before = admitted(cands.drop_last(), wanted_artist, wanted_title, ours);
        match rank_key(cands.last(), wanted_artist, wanted_title, ours) {
            Some(k) => before.push((k, cands.len() - 1)),
            None => before,
        }
    }
}

/// Where `x` goes among ranked entries: after every one at least as good.
pub open spec fn place(
    s: Seq<((bool, bool, bool, bool, i64), int)>,
    x: ((bool, bool, bool, bool, i64), int),
    k: int,
) -> int
    decreases s.len() - k,
{
    if 0 <= k < s.len() && !better(x.0, s[k].0) {
        place(s, x, k + 1)
    } else {
        k
    }
}

/// A stable ranking, best first.
pub open spec fn ranking(s: Seq<((bool, bool, bool, bool, i64), int)>) -> Seq<
    ((bool, bool, bool, bool, i64), int),
>
    decreases s.len(),
{
    if s.len() == 0 {
        s
    } else {
        let r = ranking(s.drop_last());
        r.insert(place(r, s.last(), 0), s.last())
    }
}

pub open spec fn best_first(r: Seq<((bool, bool, bool, bool, i64), int)>) -> bool {
    forall|i: int, j: int| 0 <= i < j < r.len() ==> !better(#[trigger] r[j].0, #[trigger] r[i].0)
}

proof fn lemma_place(
    s: Seq<((bool, bool, bool, bool, i64), int)>,
    x: ((bool, bool, bool, bool, i64), int),
    k: int,
)
    requires
        0 <= k <= s.len(),
        forall|j: int| 0 <= j < k ==> !better(x.0, #[trigger] s[j].0),
    ensures
        k <= place(s, x, k) <= s.len(),
        forall|j: int| 0 <= j < place(s, x, k) ==> !better(x.0, #[trigger] s[j].0),
        place(s, x, k) < s.len() ==> better(x.0, s[place(s, x, k)].0),
    decreases s.len() - k,
{
    if k < s.len() && !better(x.0, s[k].0) {
        lemma_place(s, x, k + 1);
    }
}

/// The ranking is in order, best first, and ranks exactly what was admitted.
#[verifier::spinoff_prover]
#[verifier::rlimit(40)]
pub proof fn lemma_ranking(s: Seq<((bool, bool, bool, bool, i64), int)>)
    ensures
        ranking(s).len() == s.len(),
        best_first(ranking(s)),
        ranking(s).to_multiset() == s.to_multiset(),
    decreases s.len(),
{
    if s.len() > 0 {
        lemma_ranking(s.drop_last());
        let r0 = ranking(s.drop_last());
        let x = s.last();
        lemma_place(r0, x, 0);
        let p = place(r0, x, 0);
        let r = r0.insert(p, x);
        r0.insert_ensures(p, x);
        assert forall|i: int, j: int| 0 <= i < j < r.len() implies !better(#[trigger] r[j].0, #[trigger] r[i].0) by {
            if j < p {
            } else if j == p {
            } else if i < p {
                assert(r[j] == r0[j - 1]);
                if j - 1 >= p {
                    assert(better(x.0, r0[p].0));
                    assert(!better(r0[j - 1].0, r0[p].0));
                }
            } else if i == p {
                assert(r[j] == r0[j - 1]);
                assert(better(x.0, r0[p].0));
                assert(!better(r0[j - 1].0, r0[p].0));
            } else {
                assert(r[i] == r0[i - 1]);
                assert(r[j] == r0[j - 1]);
            }
        }
        lemma_insert_multiset(r0, p, x);
        s.drop_last().to_multiset_ensures();
        assert(s =~= s.drop_last().push(x));
    }
}

proof fn lemma_insert_multiset<A>(s: Seq<A>, p: int, x: A)
    requires
        0 <= p <= s.len(),
    ensures
        s.insert(p, x).to_multiset() == s.to_multiset().insert(x),
{
    broadcast use vstd::multiset::group_multiset_axioms;

    let l = s.take(p);
    let r = s.skip(p);
    assert(s =~= l + r);
    assert(s.insert(p, x) =~= l.push(x) + r);
    vstd::seq_lib::lemma_multiset_commutative(l.push(x), r);
    vstd::seq_lib::lemma_multiset_commutative(l, r);
    l.to_multiset_ensures();
    assert(s.insert(p, x).to_multiset() =~= s.to_multiset().insert(x));
}

/// What the ranking concluded.
pub enum ChoiceModel {
    Confident(int),
    Ambiguous(Seq<int>),
    Nothing,
}

/// Nothing when no candidate is admitted; one candidate, confidently,
/// when the best has the artist we asked for or is the only one that fits;
/// otherwise every one that fits, best guess first, for the user to pick.
pub open spec fn choice_of(cands: Seq<Match>, identity: Identity, ours: Option<i64>) -> ChoiceModel {
    let wanted_artist = match identity.artist {
        Some(a) => Some(primary_name(a@)),
        None => None,
    };
    let r = ranking(admitted(cands, wanted_artist, fold(identity.title@), ours));
    if r.len() == 0 {
        ChoiceModel::Nothing
    } else if r[0].0.0 || r.len() == 1 {
        ChoiceModel::Confident(r[0].1)
    } else {
        ChoiceModel::Ambiguous(r.map_values(|e: ((bool, bool, bool, bool, i64), int)| e.1))
    }
}

/// What the ranking concluded.
///
/// The middle variant is the point: when nothing distinguishes the
/// candidates, this says so rather than guessing, and the user is shown the
/// list.
pub enum Choice<'a> {
    /// One candidate stands out: its artist matched, or it was the only row
    /// that fit at all.
    Confident(&'a Match),
    /// Several fit and nothing separates them. Ordered best guess first.
    Ambiguous(Vec<&'a Match>),
    /// Nothing came close enough to be worth showing.
    Nothing,
}

impl<'a> Choice<'a> {
    /// The one answer, when there is one.
    pub fn confident(&self) -> (r: Option<&'a Match>)
        ensures
            match *self {
                Choice::Confident(m) => r == Some(m),
                _ => r is None,
            },
    {
        match self {
            Choice::Confident(candidate) => Some(candidate),
            _ => None,
        }
    }

    /// Nothing fit. Distinct from being unable to choose between things that
    /// fit.
    pub fn is_nothing(&self) -> (b: bool)
        ensures
            b == (*self is Nothing),
    {
        match self {
            Choice::Nothing => true,
            _ => false,
        }
    }
}

fn word_lists_equal(a: &Vec<Vec<char>>, b: &Vec<Vec<char>>) -> (r: bool)
    ensures
        r == (views(a@) == views(b@)),
{
    if a.len() != b.len() {
        proof {
            assert(views(a@).len() != views(b@).len());
        }
        return false;
    }
    let mut i: usize = 0;
    while i < a.len()
        invariant
            a@.len() == b@.len(),
            i <= a@.len(),
            forall|j: int| 0 <= j < i ==> views(a@)[j] == views(b@)[j],
        decreases a.len() - i,
    {
        if !chars_equal(a[i].as_slice(), b[i].as_slice()) {
            proof {
                assert(views(a@)[i as int] != views(b@)[i as int]);
            }
            return false;
        }
        i = i + 1;
    }
    proof {
        assert(views(a@) =~= views(b@));
    }
    true
}

fn rank_key_exec(
    c: &Match,
    wanted_artist: &Option<String>,
    wanted_title: &str,
    ours: Option<i64>,
) -> (r: Option<(bool, bool, bool, bool, i64)>)
    ensures
        r == rank_key(*c, string_opt_view(*wanted_artist), wanted_title@, ours),
{
    let useful = c.is_useful();
    let artist_match = match wanted_artist {
        Some(w) => {
            let theirs = primary_artist(c.artist.as_str());
            chars_equal(chars_of(theirs.as_str()).as_slice(), chars_of(w.as_str()).as_slice())
        },
        None => false,
    };
    let title_exact = word_lists_equal(
        &words_chars(chars_of(c.title.as_str()).as_slice()),
        &words_chars(chars_of(wanted_title).as_slice()),
    );
    if !useful || !title_covers(wanted_title, c.title.as_str()) || (wanted_artist.is_none()
        && ours.is_none()) {
        return None;
    }
    match (ours, c.duration_ms) {
        (Some(o), Some(t)) => {
            let delta: i128 = o as i128 - t as i128;
            if delta < -(MAX_SHORTFALL_MS as i128) || delta > MAX_PADDING_MS as i128 {
                None
            } else {
                let distance = if delta < 0 {
                    -delta
                } else {
                    delta
                };
                Some((artist_match, title_exact, c.synced.is_some(), c.romaji.is_some(), distance as i64))
            }
        },
        _ => {
            if artist_match && title_exact {
                Some((artist_match, title_exact, c.synced.is_some(), c.romaji.is_some(), i64::MAX))
            } else {
                None
            }
        },
    }
}

fn better_exec(a: (bool, bool, bool, bool, i64), b: (bool, bool, bool, bool, i64)) -> (r: bool)
    ensures
        r == better(a, b),
{
    if a.0 != b.0 {
        a.0
    } else if a.1 != b.1 {
        a.1
    } else if a.2 != b.2 {
        a.2
    } else if a.3 != b.3 {
        a.3
    } else {
        a.4 < b.4
    }
}

/// Picks the right row out of what a provider sent back, or refuses.
///
/// Admission first, then an order. A candidate must be useful, name the same
/// recording as ours, be close enough in length when both lengths are known
/// (and match by both artist and title when they are not), and there must be
/// an artist or a length to hold the match together at all. Only then is it
/// ranked. Lengths are in milliseconds.
pub fn choose_candidate<'a>(candidates: &'a [Match], identity: &Identity, ours_ms: Option<i64>) -> (r: Choice<'a>)
    ensures
        match (choice_of(candidates@, *identity, ours_ms), r) {
            (ChoiceModel::Nothing, Choice::Nothing) => true,
            (ChoiceModel::Confident(i), Choice::Confident(m)) => 0 <= i < candidates@.len() && *m
                == candidates@[i],
            (ChoiceModel::Ambiguous(idx), Choice::Ambiguous(ms)) => ms@.len() == idx.len() && forall|
                j: int,
            | 0 <= j < idx.len() ==> 0 <= #[trigger] idx[j] < candidates@.len() && *ms@[j]
                == candidates@[idx[j]],
            _ => false,
        },
{
    let wanted_artist: Option<String> = match &identity.artist {
        Some(a) => Some(primary_artist(a.as_str())),
        None => None,
    };
    let wanted_title = string_of(
        lowercase_chars(collapse_whitespace_chars(chars_of(identity.title.as_str()).as_slice()).as_slice()).as_slice(),
    );
    let ghost wa = string_opt_view(wanted_artist);
    let ghost wt = wanted_title@;
    proof {
        assert(wt == fold(identity.title@));
        assert(wa == match identity.artist {
            Some(a) => Some(primary_name(a@)),
            None => None::<Seq<char>>,
        });
    }
    let ghost cands = candidates@;
    let mut ranked: Vec<((bool, bool, bool, bool, i64), usize)> = Vec::new();
    let mut i: usize = 0;
    while i < candidates.len()
        invariant
            cands == candidates@,
            wa == string_opt_view(wanted_artist),
            wt == wanted_title@,
            i <= cands.len(),
            ranked@.map_values(|e: ((bool, bool, bool, bool, i64), usize)| (e.0, e.1 as int)) == ranking(
                admitted(cands.take(i as int), wa, wt, ours_ms),
            ),
            forall|j: int| 0 <= j < ranked@.len() ==> (#[trigger] ranked@[j]).1 < i,
        decreases candidates.len() - i,
    {
        proof {
            assert(cands.take(i + 1).drop_last() =~= cands.take(i as int));
            assert(cands.take(i + 1).last() == cands[i as int]);
        }
        match rank_key_exec(&candidates[i], &wanted_artist, wanted_title.as_str(), ours_ms) {
            Some(key) => {
                let ghost r0 = ranked@.map_values(|e: ((bool, bool, bool, bool, i64), usize)| (e.0, e.1 as int));
                let ghost x = (key, i as int);
                let mut k: usize = 0;
                while k < ranked.len() && !better_exec(key, ranked[k].0)
                    invariant
                        r0 == ranked@.map_values(|e: ((bool, bool, bool, bool, i64), usize)| (e.0, e.1 as int)),
                        x == (key, i as int),
                        k <= ranked@.len(),
                        place(r0, x, 0) == place(r0, x, k as int),
                    decreases ranked.len() - k,
                {
                    proof {
                        assert(r0[k as int].0 == ranked@[k as int].0);
                    }
                    k = k + 1;
                }
                proof {
                    if k < ranked@.len() {
                        assert(r0[k as int].0 == ranked@[k as int].0);
                    }
                    assert(place(r0, x, k as int) == k);
                    let prev = admitted(cands.take(i as int), wa, wt, ours_ms);
                    assert(admitted(cands.take(i + 1), wa, wt, ours_ms) == prev.push(x));
                    assert(prev.push(x).drop_last() =~= prev);
                }
                ranked.insert(k, (key, i));
                proof {
                    assert(ranked@.map_values(|e: ((bool, bool, bool, bool, i64), usize)| (e.0, e.1 as int))
                        =~= r0.insert(k as int, x));
                }
            },
            None => {
                proof {
                    assert(admitted(cands.take(i + 1), wa, wt, ours_ms) == admitted(
                        cands.take(i as int),
                        wa,
                        wt,
                        ours_ms,
                    ));
                }
            },
        }
        i = i + 1;
    }
    proof {
        assert(cands.take(cands.len() as int) =~= cands);
    }
    let n = ranked.len();
    if n == 0 {
        return Choice::Nothing;
    }
    if ranked[0].0.0 || n == 1 {
        return Choice::Confident(&candidates[ranked[0].1]);
    }
    let mut shortlist: Vec<&'a Match> = Vec::new();
    let mut j: usize = 0;
    while j < n
        invariant
            n == ranked@.len(),
            j <= n,
            forall|q: int| 0 <= q < n ==> (#[trigger] ranked@[q]).1 < candidates@.len(),
            shortlist@.len() == j,
            forall|q: int| 0 <= q < j ==> *shortlist@[q] == candidates@[ranked@[q].1 as int],
        decreases n - j,
    {
        shortlist.push(&candidates[ranked[j].1]);
        j = j + 1;
    }
    Choice::Ambiguous(shortlist)
}


// --- laws -------------------------------------------------------------------------

proof fn lemma_nothing_admitted(
    cands: Seq<Match>,
    wanted_title: Seq<char>,
)
    ensures
        admitted(cands, None, wanted_title, None).len() == 0,
    decreases cands.len(),
{
    if cands.len() > 0 {
        lemma_nothing_admitted(cands.drop_last(), wanted_title);
    }
}

/// With neither an artist to ask with nor a length to check against, no
/// candidate is ever chosen: picking one would be picking a stranger's song
/// out of a list.
pub proof fn lemma_no_anchor_no_choice(cands: Seq<Match>, identity: Identity)
    requires
        identity.artist is None,
    ensures
        choice_of(cands, identity, None) is Nothing,
{
    lemma_nothing_admitted(cands, fold(identity.title@));
    lemma_ranking(admitted(cands, None, fold(identity.title@), None));
}

proof fn lemma_admitted_same_recording(
    cands: Seq<Match>,
    wanted_artist: Option<Seq<char>>,
    wanted_title: Seq<char>,
    ours: Option<i64>,
)
    ensures
        forall|j: int|
            0 <= j < admitted(cands, wanted_artist, wanted_title, ours).len() ==> {
                let e = #[trigger] admitted(cands, wanted_artist, wanted_title, ours)[j];
                &&& 0 <= e.1 < cands.len()
                &&& rank_key(cands[e.1], wanted_artist, wanted_title, ours) == Some(e.0)
            },
    decreases cands.len(),
{
    if cands.len() > 0 {
        lemma_admitted_same_recording(cands.drop_last(), wanted_artist, wanted_title, ours);
    }
}

/// Whatever is chosen, confidently or as one of a shortlist, names the same
/// recording as our title -- never a remix, a live take or a cover of it --
/// and, when both lengths are known, is within the window of ours.
pub proof fn lemma_chosen_names_the_same_recording(cands: Seq<Match>, identity: Identity, ours: Option<i64>, i: int)
    requires
        match choice_of(cands, identity, ours) {
            ChoiceModel::Confident(c) => c == i,
            ChoiceModel::Ambiguous(idx) => idx.contains(i),
            ChoiceModel::Nothing => false,
        },
    ensures
        0 <= i < cands.len(),
        same_recording(fold(identity.title@), cands[i].title@),
        cands[i].instrumental || cands[i].synced is Some || cands[i].plain is Some,
        ours is Some && cands[i].duration_ms is Some ==> -MAX_SHORTFALL_MS <= ours->0
            - cands[i].duration_ms->0 <= MAX_PADDING_MS,
{
    let wanted_artist = match identity.artist {
        Some(a) => Some(primary_name(a@)),
        None => None,
    };
    let wt = fold(identity.title@);
    let ad = admitted(cands, wanted_artist, wt, ours);
    lemma_ranking(ad);
    lemma_admitted_same_recording(cands, wanted_artist, wt, ours);
    let r = ranking(ad);
    let k = choose|k: int| 0 <= k < r.len() && r[k].1 == i;
    assert(exists|k: int| 0 <= k < r.len() && r[k].1 == i) by {
        match choice_of(cands, identity, ours) {
            ChoiceModel::Confident(c) => {
                assert(r[0].1 == i);
            },
            ChoiceModel::Ambiguous(idx) => {
                let q = choose|q: int| 0 <= q < idx.len() && idx[q] == i;
                assert(r[q].1 == i);
            },
            ChoiceModel::Nothing => {},
        }
    }
    r.to_multiset_ensures();
    assert(r.contains(r[k]));
    assert(r.to_multiset().count(r[k]) > 0);
    assert(ad.to_multiset().count(r[k]) > 0);
    ad.to_multiset_ensures();
    assert(ad.contains(r[k]));
    let j = choose|j: int| 0 <= j < ad.len() && ad[j] == r[k];
    assert(ad[j] == r[k]);
}

/// A choice is left to the user only when it is a real one: at least two
/// candidates fit, and none of them is by the artist we asked for -- one that
/// was would have been chosen outright.
pub proof fn lemma_an_open_choice_has_no_artist_match(cands: Seq<Match>, identity: Identity, ours: Option<i64>)
    requires
        choice_of(cands, identity, ours) is Ambiguous,
    ensures
        ({
            let idx = choice_of(cands, identity, ours)->Ambiguous_0;
            &&& idx.len() >= 2
            &&& forall|q: int|
                0 <= q < idx.len() ==> 0 <= #[trigger] idx[q] < cands.len() && (identity.artist matches Some(
                    a,
                ) ==> primary_name(cands[idx[q]].artist@) != primary_name(a@))
        }),
{
    let wanted_artist = match identity.artist {
        Some(a) => Some(primary_name(a@)),
        None => None,
    };
    let wt = fold(identity.title@);
    let ad = admitted(cands, wanted_artist, wt, ours);
    lemma_ranking(ad);
    lemma_admitted_same_recording(cands, wanted_artist, wt, ours);
    let r = ranking(ad);
    let idx = choice_of(cands, identity, ours)->Ambiguous_0;
    assert(idx == r.map_values(|e: ((bool, bool, bool, bool, i64), int)| e.1));
    assert forall|q: int| 0 <= q < idx.len() implies 0 <= #[trigger] idx[q] < cands.len() && (
    identity.artist matches Some(a) ==> primary_name(cands[idx[q]].artist@) != primary_name(a@)) by {
        assert(idx[q] == r[q].1);
        if q > 0 {
            assert(!better(r[q].0, r[0].0));
        }
        assert(!r[q].0.0);
        r.to_multiset_ensures();
        assert(r.contains(r[q]));
        assert(r.to_multiset().count(r[q]) > 0);
        assert(ad.to_multiset().count(r[q]) > 0);
        ad.to_multiset_ensures();
        assert(ad.contains(r[q]));
        let j = choose|j: int| 0 <= j < ad.len() && ad[j] == r[q];
        assert(ad[j] == r[q]);
    }
}

/// Synced lyrics always carry a time on every line and plain lyrics never
/// do: nothing in between can be built from text.
pub proof fn lemma_timed_exactly_when_synced(
    text: Seq<char>,
    romaji: Option<Seq<char>>,
    origin: Seq<char>,
    offset_ms: i64,
)
    ensures
        read_text(text, romaji, origin, offset_ms) matches Some(m) ==> {
            &&& m.kind == Kind::Synced ==> forall|i: int| 0 <= i < m.lines.len() ==> (#[trigger] m.lines[i]).0 is Some
            &&& m.kind == Kind::Plain ==> forall|i: int| 0 <= i < m.lines.len() ==> (#[trigger] m.lines[i]).0 is None
            &&& m.kind != Kind::Instrumental
            &&& m.lines.len() > 0
        },
{
    match lrc(text) {
        Some(entries) => {
            lemma_lrc_nonempty(text);
        },
        None => {},
    }
}

/// Every line of parsed LRC is timed from the start of the track: no time
/// comes out negative, however large a field or an offset is.
pub proof fn lemma_lrc_times_are_never_negative(text: Seq<char>)
    ensures
        lrc(text) matches Some(v) ==> forall|i: int| 0 <= i < v.len() ==> (#[trigger] v[i]).0 >= 0,
{
    let (entries, untimed, offset) = lrc_scan(lines(text));
    lemma_lrc_scan_nonneg(lines(text));
    let shifted = if offset != 0 {
        shift_by(entries, offset)
    } else {
        entries
    };
    assert(nonneg_times(shifted));
    lemma_sort_keeps_nonneg(shifted);
    lemma_dedup_keeps_nonneg(sort_by_time(shifted));
}

spec fn nonneg_times(s: Seq<(i64, Seq<char>)>) -> bool {
    forall|i: int| 0 <= i < s.len() ==> (#[trigger] s[i]).0 >= 0
}

proof fn lemma_timestamp_nonneg(group: Seq<char>)
    ensures
        parse_timestamp(group) matches Some(t) ==> t >= 0,
{
}

spec fn nonneg_all(times: Seq<i64>) -> bool {
    forall|i: int| 0 <= i < times.len() ==> #[trigger] times[i] >= 0
}

#[verifier::spinoff_prover]
#[verifier::rlimit(40)]
proof fn lemma_scan_groups_nonneg(rest: Seq<char>, times: Seq<i64>, saw_meta: bool, offset: i64)
    requires
        nonneg_all(times),
    ensures
        nonneg_all(scan_groups(rest, times, saw_meta, offset).0),
    decreases rest.len(),
{
    let r = scan_groups(rest, times, saw_meta, offset);
    if rest.len() > 0 && rest[0] == '[' {
        match split_once(rest.drop_first(), ']') {
            Some((group, after)) => match parse_timestamp(group) {
                Some(ms) => if after.len() < rest.len() {
                    lemma_timestamp_nonneg(group);
                    let t2 = times.push(ms);
                    assert forall|i: int| 0 <= i < t2.len() implies #[trigger] t2[i] >= 0 by {
                        if i < times.len() {
                            assert(t2[i] == times[i]);
                        }
                    }
                    lemma_scan_groups_nonneg(after, t2, saw_meta, offset);
                    assert(r == scan_groups(after, t2, saw_meta, offset));
                } else {
                    assert(r.0 == times);
                },
                None => match split_meta(group) {
                    Some((key, value)) => if after.len() < rest.len() {
                        lemma_scan_groups_nonneg(after, times, true, offset_after(key, value, offset));
                        assert(r == scan_groups(after, times, true, offset_after(key, value, offset)));
                    } else {
                        assert(r.0 == times);
                    },
                    None => {
                        assert(r.0 == times);
                    },
                },
            },
            None => {
                assert(r.0 == times);
            },
        }
    } else {
        assert(r.0 == times);
    }
}

proof fn lemma_lrc_scan_nonneg(ls: Seq<Seq<char>>)
    ensures
        nonneg_times(lrc_scan(ls).0),
    decreases ls.len(),
{
    if ls.len() > 0 {
        lemma_lrc_scan_nonneg(ls.drop_last());
        let state = lrc_scan(ls.drop_last());
        let raw = ls.last();
        let line = trim(strip_start(raw, CharClass::Exactly('\u{feff}')));
        if line.len() > 0 {
            let (times, saw_meta, offset, rest) = scan_groups(line, Seq::empty(), false, state.2);
            lemma_scan_groups_nonneg(line, Seq::empty(), false, state.2);
            assert(nonneg_all(times));
            let text = trim(rest);
            if times.len() > 0 {
                let added = times.map_values(|t: i64| (t, text));
                let all = state.0 + added;
                assert forall|i: int| 0 <= i < all.len() implies (#[trigger] all[i]).0 >= 0 by {
                    if i >= state.0.len() {
                        assert(all[i] == added[i - state.0.len()]);
                    } else {
                        assert(all[i] == state.0[i]);
                    }
                }
            }
        }
    }
}

proof fn lemma_sort_keeps_nonneg(s: Seq<(i64, Seq<char>)>)
    requires
        nonneg_times(s),
    ensures
        nonneg_times(sort_by_time(s)),
    decreases s.len(),
{
    if s.len() > 0 {
        assert(nonneg_times(s.drop_last()));
        lemma_sort_keeps_nonneg(s.drop_last());
        let sorted = sort_by_time(s.drop_last());
        let k = insertion_point(sorted, s.last().0, 0);
        lemma_insertion_point(sorted, s.last().0, 0);
        let ins = sorted.insert(k, s.last());
        assert forall|i: int| 0 <= i < ins.len() implies (#[trigger] ins[i]).0 >= 0 by {
            if i < k {
                assert(ins[i] == sorted[i]);
            } else if i == k {
                assert(ins[i] == s.last());
            } else {
                assert(ins[i] == sorted[i - 1]);
            }
        }
    }
}

proof fn lemma_dedup_keeps_nonneg(s: Seq<(i64, Seq<char>)>)
    requires
        nonneg_times(s),
    ensures
        nonneg_times(dedup(s)),
    decreases s.len(),
{
    if s.len() > 1 {
        assert(nonneg_times(s.drop_last()));
        lemma_dedup_keeps_nonneg(s.drop_last());
        let d = dedup(s.drop_last());
        if s.last() != s[s.len() - 2] {
            let p = d.push(s.last());
            assert forall|i: int| 0 <= i < p.len() implies (#[trigger] p[i]).0 >= 0 by {
                if i < d.len() {
                    assert(p[i] == d[i]);
                }
            }
        }
    }
}

proof fn lemma_lrc_nonempty(text: Seq<char>)
    requires
        lrc(text) is Some,
    ensures
        lrc(text)->0.len() > 0,
{
    let (entries, untimed, offset) = lrc_scan(lines(text));
    let shifted = if offset != 0 {
        shift_by(entries, offset)
    } else {
        entries
    };
    lemma_sort_by_time(shifted);
    lemma_dedup_nonempty(sort_by_time(shifted));
}

/// A raw line as it is read: byte-order mark and surrounding space removed.
pub open spec fn lrc_trimmed_line(raw: Seq<char>) -> Seq<char> {
    trim(strip_start(raw, CharClass::Exactly('\u{feff}')))
}

/// The leading groups of one line, read on its own: its timestamps, whether a
/// known header tag was among them, and what is left as text.
pub open spec fn line_groups(raw: Seq<char>) -> (Seq<i64>, bool, i64, Seq<char>) {
    scan_groups(lrc_trimmed_line(raw), Seq::empty(), false, 0)
}

/// How many timestamps one line carries: `[a][b]x` carries two.
pub open spec fn line_timestamps(raw: Seq<char>) -> nat {
    if lrc_trimmed_line(raw).len() == 0 {
        0
    } else {
        line_groups(raw).0.len()
    }
}

/// A line of prose: not blank, and its leading groups hold neither a
/// timestamp nor a known header tag, with text left over.
pub open spec fn is_prose_line(raw: Seq<char>) -> bool {
    &&& lrc_trimmed_line(raw).len() > 0
    &&& line_groups(raw).0.len() == 0
    &&& !line_groups(raw).1
    &&& trim(line_groups(raw).3).len() > 0
}

pub open spec fn timestamp_count(ls: Seq<Seq<char>>) -> nat
    decreases ls.len(),
{
    if ls.len() == 0 {
        0
    } else {
        timestamp_count(ls.drop_last()) + line_timestamps(ls.last())
    }
}

pub open spec fn prose_count(ls: Seq<Seq<char>>) -> nat
    decreases ls.len(),
{
    if ls.len() == 0 {
        0
    } else {
        prose_count(ls.drop_last()) + (if is_prose_line(ls.last()) {
            1nat
        } else {
            0nat
        })
    }
}

#[verifier::spinoff_prover]
#[verifier::rlimit(40)]
proof fn lemma_scan_groups_shape(rest: Seq<char>, times: Seq<i64>, saw_meta: bool, offset: i64)
    ensures
        ({
            let r = scan_groups(rest, times, saw_meta, offset);
            let base = scan_groups(rest, Seq::empty(), false, 0);
            &&& r.0.len() == times.len() + base.0.len()
            &&& r.1 == (saw_meta || base.1)
            &&& r.3 == base.3
        }),
    decreases rest.len(),
{
    let r = scan_groups(rest, times, saw_meta, offset);
    let base = scan_groups(rest, Seq::empty(), false, 0);
    if rest.len() > 0 && rest[0] == '[' {
        match split_once(rest.drop_first(), ']') {
            Some((group, after)) => match parse_timestamp(group) {
                Some(ms) => if after.len() < rest.len() {
                    lemma_scan_groups_shape(after, times.push(ms), saw_meta, offset);
                    lemma_scan_groups_shape(after, Seq::<i64>::empty().push(ms), false, 0);
                    assert(r == scan_groups(after, times.push(ms), saw_meta, offset));
                    assert(base == scan_groups(after, Seq::<i64>::empty().push(ms), false, 0));
                },
                None => match split_meta(group) {
                    Some((key, value)) => if after.len() < rest.len() {
                        lemma_scan_groups_shape(after, times, true, offset_after(key, value, offset));
                        lemma_scan_groups_shape(after, Seq::empty(), true, offset_after(key, value, 0));
                        assert(r == scan_groups(after, times, true, offset_after(key, value, offset)));
                        assert(base == scan_groups(after, Seq::empty(), true, offset_after(key, value, 0)));
                    },
                    None => {},
                },
            },
            None => {},
        }
    }
}

proof fn lemma_lrc_scan_counts(ls: Seq<Seq<char>>)
    ensures
        lrc_scan(ls).0.len() == timestamp_count(ls),
        lrc_scan(ls).1 == prose_count(ls),
    decreases ls.len(),
{
    if ls.len() > 0 {
        lemma_lrc_scan_counts(ls.drop_last());
        let state = lrc_scan(ls.drop_last());
        let raw = ls.last();
        let line = lrc_trimmed_line(raw);
        if line.len() > 0 {
            lemma_scan_groups_shape(line, Seq::empty(), false, state.2);
            let (times, saw_meta, offset, rest) = scan_groups(line, Seq::empty(), false, state.2);
            if times.len() > 0 {
                let added = times.map_values(|t: i64| (t, trim(rest)));
                assert((state.0 + added).len() == state.0.len() + times.len());
            }
        }
    }
}

/// Text is read as LRC exactly when it carries at least two timestamps and
/// no more lines of prose than timestamps; a line `[a][b]x` counts two, and
/// a line whose leading groups are header tags is not prose.
pub proof fn lemma_lrc_refuses_exactly(text: Seq<char>)
    ensures
        lrc(text) is None <==> (timestamp_count(lines(text)) < MIN_SYNCED_LINES || prose_count(lines(text))
            > timestamp_count(lines(text))),
{
    lemma_lrc_scan_counts(lines(text));
}

proof fn lemma_strip_end_to_shape(s: Seq<char>, class: CharClass, j: int)
    requires
        0 <= j <= s.len(),
    ensures
        strip_end_to(s, class, j) == s.subrange(0, strip_end_to(s, class, j).len() as int),
        strip_end_to(s, class, j).len() <= j,
        strip_end_to(s, class, j).len() > 0 ==> !class_has(
            class,
            s[strip_end_to(s, class, j).len() - 1],
        ),
        j > 0 && !class_has(class, s[0]) ==> strip_end_to(s, class, j).len() > 0,
    decreases j,
{
    if 0 < j && class_has(class, s[j - 1]) {
        lemma_strip_end_to_shape(s, class, j - 1);
    }
}

/// Trimming trimmed text changes nothing.
proof fn lemma_trim_is_idempotent(x: Seq<char>)
    ensures
        trim(trim(x)) == trim(x),
{
    let y = strip_start(x, CharClass::Space);
    lemma_strip_start_from_first(x, CharClass::Space, 0);
    let z = trim(x);
    lemma_strip_end_to_shape(y, CharClass::Space, y.len() as int);
    assert(z == strip_end_to(y, CharClass::Space, y.len() as int));
    if z.len() > 0 {
        assert(z[0] == y[0]);
        assert(z[z.len() - 1] == y[z.len() - 1]);
        assert(strip_start(z, CharClass::Space) == z.subrange(0, z.len() as int));
        assert(z.subrange(0, z.len() as int) =~= z);
        lemma_strip_end_to_shape(z, CharClass::Space, z.len() as int);
        assert(strip_end_to(z, CharClass::Space, z.len() as int) == z.subrange(0, z.len() as int));
    } else {
        assert(strip_start_from(z, CharClass::Space, 0) =~= z);
        assert(strip_end_to(z, CharClass::Space, 0) =~= z);
    }
}

spec fn text_trimmed(e: (i64, Seq<char>)) -> bool {
    trim(e.1) == e.1
}

proof fn lemma_lrc_scan_trimmed(ls: Seq<Seq<char>>)
    ensures
        forall|i: int| 0 <= i < lrc_scan(ls).0.len() ==> text_trimmed(#[trigger] lrc_scan(ls).0[i]),
    decreases ls.len(),
{
    if ls.len() > 0 {
        lemma_lrc_scan_trimmed(ls.drop_last());
        let state = lrc_scan(ls.drop_last());
        let line = lrc_trimmed_line(ls.last());
        if line.len() > 0 {
            let (times, saw_meta, offset, rest) = scan_groups(line, Seq::empty(), false, state.2);
            let text = trim(rest);
            lemma_trim_is_idempotent(rest);
            if times.len() > 0 {
                let added = times.map_values(|t: i64| (t, text));
                let all = state.0 + added;
                assert forall|i: int| 0 <= i < all.len() implies text_trimmed(#[trigger] all[i]) by {
                    if i >= state.0.len() {
                        assert(all[i] == added[i - state.0.len()]);
                    } else {
                        assert(all[i] == state.0[i]);
                    }
                }
            }
        }
    }
}

proof fn lemma_sort_keeps_trimmed(s: Seq<(i64, Seq<char>)>)
    requires
        forall|i: int| 0 <= i < s.len() ==> text_trimmed(#[trigger] s[i]),
    ensures
        forall|i: int| 0 <= i < sort_by_time(s).len() ==> text_trimmed(#[trigger] sort_by_time(s)[i]),
    decreases s.len(),
{
    if s.len() > 0 {
        assert forall|i: int| 0 <= i < s.drop_last().len() implies text_trimmed(#[trigger] s.drop_last()[i]) by {
            assert(s.drop_last()[i] == s[i]);
        }
        lemma_sort_keeps_trimmed(s.drop_last());
        let sorted = sort_by_time(s.drop_last());
        let k = insertion_point(sorted, s.last().0, 0);
        lemma_insertion_point(sorted, s.last().0, 0);
        let ins = sorted.insert(k, s.last());
        assert(text_trimmed(s[s.len() - 1]));
        assert forall|i: int| 0 <= i < ins.len() implies text_trimmed(#[trigger] ins[i]) by {
            if i < k {
                assert(ins[i] == sorted[i]);
            } else if i == k {
                assert(ins[i] == s.last());
            } else {
                assert(ins[i] == sorted[i - 1]);
            }
        }
    }
}

proof fn lemma_dedup_keeps_trimmed(s: Seq<(i64, Seq<char>)>)
    requires
        forall|i: int| 0 <= i < s.len() ==> text_trimmed(#[trigger] s[i]),
    ensures
        forall|i: int| 0 <= i < dedup(s).len() ==> text_trimmed(#[trigger] dedup(s)[i]),
    decreases s.len(),
{
    if s.len() > 1 {
        assert forall|i: int| 0 <= i < s.drop_last().len() implies text_trimmed(#[trigger] s.drop_last()[i]) by {
            assert(s.drop_last()[i] == s[i]);
        }
        lemma_dedup_keeps_trimmed(s.drop_last());
        let d = dedup(s.drop_last());
        if s.last() != s[s.len() - 2] {
            let p = d.push(s.last());
            assert(text_trimmed(s[s.len() - 1]));
            assert forall|i: int| 0 <= i < p.len() implies text_trimmed(#[trigger] p[i]) by {
                if i < d.len() {
                    assert(p[i] == d[i]);
                }
            }
        }
    }
}

proof fn lemma_dedup_last(s: Seq<(i64, Seq<char>)>)
    requires
        s.len() > 0,
    ensures
        dedup(s).len() > 0,
        dedup(s).last() == s.last(),
        forall|i: int| 0 <= i < dedup(s).len() - 1 ==> #[trigger] dedup(s)[i] != dedup(s)[i + 1],
    decreases s.len(),
{
    if s.len() > 1 {
        lemma_dedup_last(s.drop_last());
        let d = dedup(s.drop_last());
        if s.last() != s[s.len() - 2] {
            let p = d.push(s.last());
            assert forall|i: int| 0 <= i < p.len() - 1 implies #[trigger] p[i] != p[i + 1] by {
                assert(p[i] == d[i]);
                if i < d.len() - 1 {
                    assert(p[i + 1] == d[i + 1]);
                } else {
                    assert(d[i] == s.drop_last().last());
                }
            }
        }
    }
}

/// Parsed LRC never holds two equal lines in a row, and every line's text is
/// already trimmed.
pub proof fn lemma_lrc_lines_are_distinct_and_trimmed(text: Seq<char>)
    ensures
        lrc(text) matches Some(v) ==> {
            &&& forall|i: int| 0 <= i < v.len() - 1 ==> #[trigger] v[i] != v[i + 1]
            &&& forall|i: int| 0 <= i < v.len() ==> trim((#[trigger] v[i]).1) == v[i].1
        },
{
    let (entries, untimed, offset) = lrc_scan(lines(text));
    if lrc(text) is Some {
        lemma_lrc_scan_trimmed(lines(text));
        let shifted = if offset != 0 {
            shift_by(entries, offset)
        } else {
            entries
        };
        assert forall|i: int| 0 <= i < shifted.len() implies text_trimmed(#[trigger] shifted[i]) by {
            assert(text_trimmed(entries[i]));
        }
        lemma_sort_keeps_trimmed(shifted);
        lemma_sort_by_time(shifted);
        lemma_dedup_keeps_trimmed(sort_by_time(shifted));
        lemma_lrc_nonempty(text);
        lemma_dedup_last(sort_by_time(shifted));
        let v = dedup(sort_by_time(shifted));
        assert forall|i: int| 0 <= i < v.len() implies trim((#[trigger] v[i]).1) == v[i].1 by {
            assert(text_trimmed(v[i]));
        }
    }
}

proof fn lemma_dedup_nonempty(s: Seq<(i64, Seq<char>)>)
    requires
        s.len() > 0,
    ensures
        dedup(s).len() > 0,
    decreases s.len(),
{
    if s.len() > 1 && s.last() == s[s.len() - 2] {
        lemma_dedup_nonempty(s.drop_last());
    }
}

/// Channel decoration is never stripped down to nothing: a channel actually
/// called "Music" keeps its name, because an empty artist matches every song.
pub proof fn lemma_decoration_never_empties(artist: Seq<char>)
    requires
        artist.len() > 0,
    ensures
        strip_decoration(artist).len() > 0,
    decreases artist.len(),
{
    lemma_strip_channel_suffix_shortens(artist, 0);
    match strip_channel_suffix(artist) {
        Some(shorter) => {
            lemma_decoration_never_empties(shorter);
        },
        None => {},
    }
}

// --- asking the providers ----------------------------------------------------

/// Kana, Han and Hangul: the scripts a Latin-alphabet reader cannot sound
/// out at all.
pub open spec fn unromanised(c: char) -> bool {
    let u = c as u32;
    ||| 0x3040 <= u <= 0x30FF
    ||| 0x3400 <= u <= 0x4DBF
    ||| 0x4E00 <= u <= 0x9FFF
    ||| 0xF900 <= u <= 0xFAFF
    ||| 0xAC00 <= u <= 0xD7AF
    ||| 0x1100 <= u <= 0x11FF
}

pub fn is_unromanised(c: char) -> (b: bool)
    ensures
        b == unromanised(c),
{
    let u = c as u32;
    (0x3040 <= u && u <= 0x30FF) || (0x3400 <= u && u <= 0x4DBF) || (0x4E00 <= u && u <= 0x9FFF)
        || (0xF900 <= u && u <= 0xFAFF) || (0xAC00 <= u && u <= 0xD7AF) || (0x1100 <= u && u
        <= 0x11FF)
}

/// How many letters `s` has.
pub open spec fn letter_count(s: Seq<char>) -> nat
    decreases s.len(),
{
    if s.len() == 0 {
        0
    } else {
        letter_count(s.drop_last()) + if is_alphabetic(s.last()) {
            1nat
        } else {
            0nat
        }
    }
}

/// How many of the letters of `s` are in a script that wants romanising.
pub open spec fn unreadable_count(s: Seq<char>) -> nat
    decreases s.len(),
{
    if s.len() == 0 {
        0
    } else {
        unreadable_count(s.drop_last()) + if is_alphabetic(s.last()) && unromanised(s.last()) {
            1nat
        } else {
            0nat
        }
    }
}

/// The text a match would be read in: its timed lines, else its plain ones.
pub open spec fn reading_text(found: Match) -> Seq<char> {
    match found.synced {
        Some(t) => t@,
        None => match found.plain {
            Some(t) => t@,
            None => Seq::empty(),
        },
    }
}

/// Whether a romanisation would help someone read these: at least a fifth
/// of the letters are kana, Han or Hangul. Accented Latin is already
/// readable.
pub open spec fn wants_romanising_spec(found: Match) -> bool {
    let text = reading_text(found);
    letter_count(text) > 0 && 5 * unreadable_count(text) >= letter_count(text)
}

pub fn wants_romanising(found: &Match) -> (wants: bool)
    ensures
        wants == wants_romanising_spec(*found),
{
    let text: Vec<char> = match &found.synced {
        Some(t) => chars_of(t.as_str()),
        None => match &found.plain {
            Some(t) => chars_of(t.as_str()),
            None => Vec::new(),
        },
    };
    let mut letters: usize = 0;
    let mut unreadable: usize = 0;
    let mut i: usize = 0;
    while i < text.len()
        invariant
            i <= text@.len(),
            letters == letter_count(text@.take(i as int)),
            unreadable == unreadable_count(text@.take(i as int)),
            letters <= i,
            unreadable <= letters,
        decreases text.len() - i,
    {
        proof {
            assert(text@.take(i + 1).drop_last() =~= text@.take(i as int));
            assert(text@.take(i + 1).last() == text@[i as int]);
        }
        let c = text[i];
        if alphabetic_char(c) {
            letters = letters + 1;
            if is_unromanised(c) {
                unreadable = unreadable + 1;
            }
        }
        i = i + 1;
    }
    proof {
        assert(text@.take(text@.len() as int) =~= text@);
    }
    letters > 0 && (unreadable as u128) * 5 >= letters as u128
}

/// Whether the second provider can add anything to what the first found:
/// when the first had nothing usable, or its confident answer is in a script
/// that wants a romanisation. An ambiguous answer is left for the picker.
pub fn worth_asking_again(first: &Choice) -> (worth: bool)
    ensures
        worth == match *first {
            Choice::Nothing => true,
            Choice::Confident(best) => wants_romanising_spec(*best),
            Choice::Ambiguous(_) => false,
        },
{
    match first {
        Choice::Nothing => true,
        Choice::Confident(best) => wants_romanising(best),
        Choice::Ambiguous(_) => false,
    }
}

/// Whether a track can be looked up at all: it needs a title to ask with,
/// and an artist or a length to check an answer against.
pub fn worth_looking_up(identity: &Identity, ours_ms: Option<i64>) -> (worth: bool)
    ensures
        worth == (trim(identity.title@).len() > 0 && (identity.artist is Some || ours_ms is Some)),
{
    let title = trim_chars(chars_of(identity.title.as_str()).as_slice());
    title.len() > 0 && (identity.artist.is_some() || ours_ms.is_some())
}

/// One row the user can pick, described well enough to pick it by.
#[derive(Debug, Clone)]
pub struct Candidate {
    pub id: i64,
    /// Which provider it came from, so picking it later asks the right one.
    pub provider: &'static str,
    pub title: String,
    pub artist: String,
    pub duration_ms: Option<i64>,
    /// How much longer ours is than this, in milliseconds. `None` when either
    /// length is unknown.
    pub delta_ms: Option<i128>,
    pub synced: bool,
    /// Whether a timed romanisation came with it.
    pub romaji: bool,
    pub instrumental: bool,
}

/// `c` describes `found` against our length `ours_ms`.
pub open spec fn describes(c: Candidate, found: Match, ours_ms: Option<i64>) -> bool {
    &&& c.id == found.id
    &&& c.provider == found.provider
    &&& c.title == found.title
    &&& c.artist == found.artist
    &&& c.duration_ms == found.duration_ms
    &&& c.delta_ms == (match (ours_ms, found.duration_ms) {
        (Some(a), Some(b)) => Some((a - b) as i128),
        _ => None,
    })
    &&& c.synced == found.synced is Some
    &&& c.romaji == found.romaji is Some
    &&& c.instrumental == found.instrumental
}

impl Candidate {
    pub fn of(found: &Match, ours_ms: Option<i64>) -> (c: Candidate)
        ensures
            describes(c, *found, ours_ms),
    {
        Candidate {
            id: found.id,
            provider: found.provider,
            title: found.title.clone(),
            artist: found.artist.clone(),
            duration_ms: found.duration_ms,
            delta_ms: match (ours_ms, found.duration_ms) {
                (Some(a), Some(b)) => Some(a as i128 - b as i128),
                _ => None,
            },
            synced: found.synced.is_some(),
            romaji: found.romaji.is_some(),
            instrumental: found.instrumental,
        }
    }
}

/// What a lookup produced: lyrics, or a question.
#[derive(Debug)]
pub struct Lookup {
    pub lyrics: Option<TrackLyrics>,
    /// Non-empty only when nothing could be chosen with confidence.
    pub candidates: Vec<Candidate>,
}

impl Lookup {
    pub fn found(lyrics: Option<TrackLyrics>) -> (l: Lookup)
        ensures
            l.lyrics == lyrics,
            l.candidates@.len() == 0,
    {
        Lookup { lyrics, candidates: Vec::new() }
    }
}

/// The shortlist offered when nothing could be chosen: every candidate
/// that fit, best guess first, described against our length.
pub fn shortlist(fits: &Vec<&Match>, ours_ms: Option<i64>) -> (list: Vec<Candidate>)
    ensures
        list@.len() == fits@.len(),
        forall|i: int| 0 <= i < fits@.len() ==> describes(#[trigger] list@[i], *fits@[i], ours_ms),
{
    let mut list: Vec<Candidate> = Vec::new();
    let mut i: usize = 0;
    while i < fits.len()
        invariant
            i <= fits@.len(),
            list@.len() == i,
            forall|j: int| 0 <= j < i ==> describes(#[trigger] list@[j], *fits@[j], ours_ms),
        decreases fits.len() - i,
    {
        list.push(Candidate::of(fits[i], ours_ms));
        i = i + 1;
    }
    list
}

// --- local sources -----------------------------------------------------------

/// Largest `.lrc` beside a track worth reading.
pub const MAX_SIDECAR_BYTES: u64 = 1048576;

/// Whether a file beside the track is worth reading as lyrics: a non-empty
/// regular file no larger than `MAX_SIDECAR_BYTES`.
pub fn sidecar_readable(is_file: bool, len: u64) -> (b: bool)
    ensures
        b == (is_file && 0 < len <= MAX_SIDECAR_BYTES),
{
    is_file && len > 0 && len <= MAX_SIDECAR_BYTES
}

/// A sidecar's bytes as lyrics text: decodable, and not blank.
pub fn sidecar_text(bytes: &[u8]) -> (text: Option<String>)
    ensures
        match text {
            Some(t) => decoded(bytes@) == Some(t@) && trim(t@).len() > 0,
            None => match decoded(bytes@) {
                Some(t) => trim(t).len() == 0,
                None => true,
            },
        },
{
    match decode(bytes) {
        Some(t) => {
            let trimmed = trim_chars(chars_of(t.as_str()).as_slice());
            if trimmed.len() > 0 {
                Some(t)
            } else {
                None
            }
        },
        None => None,
    }
}

// --- commands ----------------------------------------------------------------

/// The shift a user sets between a track's lyrics and its audio, held to
/// `MAX_OFFSET_MS` either way.
pub fn clamp_lyrics_offset(offset_ms: i64) -> (clamped: i64)
    ensures
        clamped == clamp_offset(offset_ms),
{
    if offset_ms < -MAX_OFFSET_MS {
        -MAX_OFFSET_MS
    } else if offset_ms > MAX_OFFSET_MS {
        MAX_OFFSET_MS
    } else {
        offset_ms
    }
}

/// What a manual search asks with: the typed words when there are any, else
/// nothing, meaning the track's own tags.
pub fn typed_query(query: Option<&str>) -> (typed: Option<String>)
    ensures
        match typed {
            Some(q) => query matches Some(raw) && q@ == trim(raw@) && q@.len() > 0,
            None => match query {
                Some(raw) => trim(raw@).len() == 0,
                None => true,
            },
        },
{
    match query {
        None => None,
        Some(raw) => {
            let trimmed = trim_chars(chars_of(raw).as_slice());
            if trimmed.len() == 0 {
                None
            } else {
                Some(string_of(trimmed.as_slice()))
            }
        },
    }
}

/// Whose row a picked id is: ids mean something only to the provider that
/// issued them, and anything not NetEase's is lrclib's.
pub fn picked_from_netease(provider: &str) -> (netease: bool)
    ensures
        netease == (provider@ == "netease"@),
{
    let p = chars_of(provider);
    let n = chars_of("netease");
    chars_equal(p.as_slice(), n.as_slice())
}

} // verus!
