//! Text as sequences of characters: the handful of string rules the rest of
//! the library is built on, each stated exactly.
//!
//! Strings are read into `Vec<char>` once, worked on by index, and written
//! back out. Unicode lowercasing and the Unicode "alphanumeric" class are the
//! two things taken from the standard library as named results rather than
//! restated here.

use vstd::prelude::*;

verus! {

// --- character classes -------------------------------------------------------

/// Unicode `White_Space`, which is what `char::is_whitespace` tests.
pub open spec fn is_space(c: char) -> bool {
    let u = c as u32;
    (9 <= u <= 13) || u == 32 || u == 0x85 || u == 0xA0 || u == 0x1680 || (0x2000 <= u <= 0x200A)
        || u == 0x2028 || u == 0x2029 || u == 0x202F || u == 0x205F || u == 0x3000
}

pub fn is_space_char(c: char) -> (b: bool)
    ensures
        b == is_space(c),
{
    let u = c as u32;
    (9 <= u && u <= 13) || u == 32 || u == 0x85 || u == 0xA0 || u == 0x1680 || (0x2000 <= u && u
        <= 0x200A) || u == 0x2028 || u == 0x2029 || u == 0x202F || u == 0x205F || u == 0x3000
}

pub open spec fn is_ascii_digit(c: char) -> bool {
    '0' <= c <= '9'
}

pub open spec fn is_ascii_alpha(c: char) -> bool {
    ('a' <= c <= 'z') || ('A' <= c <= 'Z')
}

pub open spec fn is_ascii_alnum(c: char) -> bool {
    is_ascii_digit(c) || is_ascii_alpha(c)
}

pub fn is_ascii_digit_char(c: char) -> (b: bool)
    ensures
        b == is_ascii_digit(c),
{
    '0' <= c && c <= '9'
}

pub fn is_ascii_alnum_char(c: char) -> (b: bool)
    ensures
        b == is_ascii_alnum(c),
{
    ('0' <= c && c <= '9') || ('a' <= c && c <= 'z') || ('A' <= c && c <= 'Z')
}

/// `char::to_ascii_lowercase`: ASCII capitals lowered, everything else kept.
pub open spec fn ascii_lower(c: char) -> char {
    if 'A' <= c <= 'Z' {
        ((c as u32) + 32) as char
    } else {
        c
    }
}

pub fn ascii_lower_char(c: char) -> (l: char)
    ensures
        l == ascii_lower(c),
{
    if 'A' <= c && c <= 'Z' {
        let u = (c as u32) + 32;
        proof {
            assert(97 <= u <= 122);
        }
        char_from_ascii(u)
    } else {
        c
    }
}

/// The character with ASCII code `u`.
pub fn char_from_ascii(u: u32) -> (c: char)
    requires
        u < 128,
    ensures
        c == u as char,
        c as u32 == u,
{
    let b = u as u8;
    b as char
}

/// `str::eq_ignore_ascii_case`.
pub open spec fn eq_ignore_ascii_case(a: Seq<char>, b: Seq<char>) -> bool {
    a.len() == b.len() && forall|i: int| 0 <= i < a.len() ==> ascii_lower(#[trigger] a[i]) == ascii_lower(b[i])
}

pub fn chars_eq_ignore_ascii_case(a: &[char], b: &[char]) -> (r: bool)
    ensures
        r == eq_ignore_ascii_case(a@, b@),
{
    if a.len() != b.len() {
        return false;
    }
    let mut i: usize = 0;
    while i < a.len()
        invariant
            a@.len() == b@.len(),
            i <= a@.len(),
            forall|j: int| 0 <= j < i ==> ascii_lower(#[trigger] a@[j]) == ascii_lower(b@[j]),
        decreases a.len() - i,
    {
        if ascii_lower_char(a[i]) != ascii_lower_char(b[i]) {
            return false;
        }
        i = i + 1;
    }
    true
}

// --- conversion --------------------------------------------------------------

/// The characters of `s`, in order.
pub fn chars_of(s: &str) -> (v: Vec<char>)
    ensures
        v@ == s@,
{
    let mut v: Vec<char> = Vec::new();
    for c in it: s.chars()
        invariant
            v@ == it.seq().take(it.index() as int),
    {
        v.push(c);
    }
    v
}

/// Appends one character.
///
/// Calls `String::push`; claimed: the string gains exactly `c` at its end.
#[verifier::external_body]
pub(crate) fn push_char(s: &mut String, c: char)
    ensures
        final(s)@ == old(s)@.push(c),
{
    s.push(c);
}

/// The string holding exactly these characters.
pub fn string_of(v: &[char]) -> (s: String)
    ensures
        s@ == v@,
{
    let mut s = String::new();
    let mut i: usize = 0;
    while i < v.len()
        invariant
            i <= v@.len(),
            s@ =~= v@.take(i as int),
        decreases v.len() - i,
    {
        push_char(&mut s, v[i]);
        i = i + 1;
    }
    proof {
        assert(v@.take(v@.len() as int) =~= v@);
    }
    s
}


/// `str::to_lowercase`: Unicode lowercasing, whose tables run to pages, so
/// the result is named rather than restated. It depends on the text alone.
pub uninterp spec fn lowercase(s: Seq<char>) -> Seq<char>;

/// Calls `str::to_lowercase`; claimed: the result is `lowercase(s)`.
#[verifier::external_body]
fn str_to_lowercase(s: &str) -> (r: String)
    ensures
        r@ == lowercase(s@),
{
    s.to_lowercase()
}

/// The characters of `v`, lowercased as `str::to_lowercase` does it.
pub fn lowercase_chars(v: &[char]) -> (r: Vec<char>)
    ensures
        r@ == lowercase(v@),
{
    let s = string_of(v);
    let lowered = str_to_lowercase(s.as_str());
    chars_of(lowered.as_str())
}

// --- classes of characters ---------------------------------------------------

/// `char::is_alphanumeric`: Unicode `Alphabetic` or `Numeric`. Its tables run
/// to pages, so the result is named rather than restated.
pub uninterp spec fn is_alphanumeric(c: char) -> bool;

/// Calls `char::is_alphanumeric`; claimed: the answer is
/// `is_alphanumeric(c)`, a function of `c` alone.
#[verifier::external_body]
pub(crate) fn alphanumeric_char(c: char) -> (b: bool)
    ensures
        b == is_alphanumeric(c),
{
    c.is_alphanumeric()
}

/// `char::is_alphabetic`: the Unicode `Alphabetic` property, whose tables
/// run to pages, so the result is named rather than restated.
pub uninterp spec fn is_alphabetic(c: char) -> bool;

/// Calls `char::is_alphabetic`; claimed: the answer is `is_alphabetic(c)`,
/// a function of `c` alone.
#[verifier::external_body]
pub(crate) fn alphabetic_char(c: char) -> (b: bool)
    ensures
        b == is_alphabetic(c),
{
    c.is_alphabetic()
}

/// The character classes the library splits and trims by.
#[derive(Debug, Clone, Copy, PartialEq, Eq, Structural)]
pub enum CharClass {
    /// Unicode white space.
    Space,
    /// White space or `-`.
    SpaceOrDash,
    /// White space, `-` or `|`.
    SpaceDashOrBar,
    /// Anything that is not alphanumeric.
    NotAlphanumeric,
    /// Exactly this character.
    Exactly(char),
    /// Either of two characters.
    Either(char, char),
    /// What separates an artist's name from a title: a hyphen, an en or em
    /// dash, a bar or a colon.
    TitleSeparator,
    /// What joins two artists' names: `&`, `,`, `/` or `;`.
    ArtistJoiner,
    /// What ends the host of a URL: `/`, `?` or `#`.
    UrlDelimiter,
    /// What separates the parts of a path: `/` or `\\`.
    PathSeparator,
    /// Anything outside `[A-Za-z0-9]`.
    NotAsciiAlnum,
}

pub open spec fn class_has(class: CharClass, c: char) -> bool {
    match class {
        CharClass::Space => is_space(c),
        CharClass::SpaceOrDash => is_space(c) || c == '-',
        CharClass::SpaceDashOrBar => is_space(c) || c == '-' || c == '|',
        CharClass::NotAlphanumeric => !is_alphanumeric(c),
        CharClass::Exactly(x) => c == x,
        CharClass::Either(x, y) => c == x || c == y,
        CharClass::TitleSeparator => c == '-' || c == '\u{2013}' || c == '\u{2014}' || c == '|' || c
            == ':',
        CharClass::ArtistJoiner => c == '&' || c == ',' || c == '/' || c == ';',
        CharClass::UrlDelimiter => c == '/' || c == '?' || c == '#',
        CharClass::PathSeparator => c == '/' || c == '\\',
        CharClass::NotAsciiAlnum => !is_ascii_alnum(c),
    }
}

pub fn in_class(class: CharClass, c: char) -> (b: bool)
    ensures
        b == class_has(class, c),
{
    match class {
        CharClass::Space => is_space_char(c),
        CharClass::SpaceOrDash => is_space_char(c) || c == '-',
        CharClass::SpaceDashOrBar => is_space_char(c) || c == '-' || c == '|',
        CharClass::NotAlphanumeric => !alphanumeric_char(c),
        CharClass::Exactly(x) => c == x,
        CharClass::Either(x, y) => c == x || c == y,
        CharClass::TitleSeparator => c == '-' || c == '\u{2013}' || c == '\u{2014}' || c == '|' || c
            == ':',
        CharClass::ArtistJoiner => c == '&' || c == ',' || c == '/' || c == ';',
        CharClass::UrlDelimiter => c == '/' || c == '?' || c == '#',
        CharClass::PathSeparator => c == '/' || c == '\\',
        CharClass::NotAsciiAlnum => !is_ascii_alnum_char(c),
    }
}

// --- trimming ----------------------------------------------------------------

/// `s` from index `i` on, after dropping the run of `class` characters that
/// starts there.
pub open spec fn strip_start_from(s: Seq<char>, class: CharClass, i: int) -> Seq<char>
    decreases s.len() - i,
{
    if 0 <= i < s.len() && class_has(class, s[i]) {
        strip_start_from(s, class, i + 1)
    } else {
        s.subrange(i, s.len() as int)
    }
}

/// `trim_start_matches`: the leading run of `class` characters removed.
pub open spec fn strip_start(s: Seq<char>, class: CharClass) -> Seq<char> {
    strip_start_from(s, class, 0)
}

/// The first `j` characters of `s`, after dropping the run of `class`
/// characters that ends there.
pub open spec fn strip_end_to(s: Seq<char>, class: CharClass, j: int) -> Seq<char>
    decreases j,
{
    if 0 < j <= s.len() && class_has(class, s[j - 1]) {
        strip_end_to(s, class, j - 1)
    } else {
        s.subrange(0, j)
    }
}

/// `trim_end_matches`: the trailing run of `class` characters removed.
pub open spec fn strip_end(s: Seq<char>, class: CharClass) -> Seq<char> {
    strip_end_to(s, class, s.len() as int)
}

/// `trim_matches`: both runs removed.
pub open spec fn strip(s: Seq<char>, class: CharClass) -> Seq<char> {
    strip_end(strip_start(s, class), class)
}

/// `str::trim`.
pub open spec fn trim(s: Seq<char>) -> Seq<char> {
    strip(s, CharClass::Space)
}

pub fn strip_start_chars(v: &[char], class: CharClass) -> (r: Vec<char>)
    ensures
        r@ == strip_start(v@, class),
{
    let mut i: usize = 0;
    while i < v.len() && in_class(class, v[i])
        invariant
            i <= v@.len(),
            strip_start_from(v@, class, 0) == strip_start_from(v@, class, i as int),
        decreases v.len() - i,
    {
        i = i + 1;
    }
    slice_range(v, i, v.len())
}

pub fn strip_end_chars(v: &[char], class: CharClass) -> (r: Vec<char>)
    ensures
        r@ == strip_end(v@, class),
{
    let mut j: usize = v.len();
    while j > 0 && in_class(class, v[j - 1])
        invariant
            j <= v@.len(),
            strip_end_to(v@, class, v@.len() as int) == strip_end_to(v@, class, j as int),
        decreases j,
    {
        j = j - 1;
    }
    slice_range(v, 0, j)
}

pub fn strip_chars(v: &[char], class: CharClass) -> (r: Vec<char>)
    ensures
        r@ == strip(v@, class),
{
    let start = strip_start_chars(v, class);
    strip_end_chars(start.as_slice(), class)
}

pub fn trim_chars(v: &[char]) -> (r: Vec<char>)
    ensures
        r@ == trim(v@),
{
    strip_chars(v, CharClass::Space)
}

/// A copy of `v[from..to]`.
pub fn slice_range(v: &[char], from: usize, to: usize) -> (r: Vec<char>)
    requires
        from <= to <= v@.len(),
    ensures
        r@ == v@.subrange(from as int, to as int),
{
    let mut r: Vec<char> = Vec::new();
    let mut i: usize = from;
    while i < to
        invariant
            from <= i <= to <= v@.len(),
            r@ =~= v@.subrange(from as int, i as int),
        decreases to - i,
    {
        r.push(v[i]);
        i = i + 1;
    }
    r
}

// --- splitting and joining -----------------------------------------------------

/// `str::split` by a class: the pieces between separators, `n` separators
/// giving `n + 1` pieces, empty ones included.
pub open spec fn split(s: Seq<char>, class: CharClass) -> Seq<Seq<char>>
    decreases s.len(),
{
    if s.len() == 0 {
        seq![Seq::empty()]
    } else {
        let prev = split(s.drop_last(), class);
        if class_has(class, s.last()) {
            prev.push(Seq::empty())
        } else {
            prev.update(prev.len() - 1, prev.last().push(s.last()))
        }
    }
}

proof fn lemma_split_nonempty(s: Seq<char>, class: CharClass)
    ensures
        split(s, class).len() >= 1,
    decreases s.len(),
{
    if s.len() > 0 {
        lemma_split_nonempty(s.drop_last(), class);
    }
}

/// The views of a list of character vectors.
pub open spec fn views(v: Seq<Vec<char>>) -> Seq<Seq<char>> {
    v.map_values(|p: Vec<char>| p@)
}

pub fn split_chars(v: &[char], class: CharClass) -> (pieces: Vec<Vec<char>>)
    ensures
        views(pieces@) == split(v@, class),
{
    let mut pieces: Vec<Vec<char>> = Vec::new();
    let mut cur: Vec<char> = Vec::new();
    let mut i: usize = 0;
    while i < v.len()
        invariant
            i <= v@.len(),
            views(pieces@).push(cur@) =~= split(v@.take(i as int), class),
        decreases v.len() - i,
    {
        let ghost before = views(pieces@).push(cur@);
        proof {
            assert(v@.take(i + 1).drop_last() =~= v@.take(i as int));
            assert(v@.take(i + 1).last() == v@[i as int]);
            lemma_split_nonempty(v@.take(i as int), class);
        }
        if in_class(class, v[i]) {
            let done = cur;
            pieces.push(done);
            cur = Vec::new();
            proof {
                assert(views(pieces@) =~= before);
            }
        } else {
            cur.push(v[i]);
        }
        i = i + 1;
    }
    pieces.push(cur);
    proof {
        assert(v@.take(v@.len() as int) =~= v@);
    }
    pieces
}

/// `join`: the pieces with `sep` between each two.
pub open spec fn join(pieces: Seq<Seq<char>>, sep: Seq<char>) -> Seq<char>
    decreases pieces.len(),
{
    if pieces.len() == 0 {
        Seq::empty()
    } else if pieces.len() == 1 {
        pieces[0]
    } else {
        join(pieces.drop_last(), sep) + sep + pieces.last()
    }
}

pub fn join_chars(pieces: &Vec<Vec<char>>, sep: &[char]) -> (r: Vec<char>)
    ensures
        r@ == join(views(pieces@), sep@),
{
    let mut r: Vec<char> = Vec::new();
    let mut i: usize = 0;
    while i < pieces.len()
        invariant
            i <= pieces@.len(),
            r@ =~= join(views(pieces@).take(i as int), sep@),
        decreases pieces.len() - i,
    {
        proof {
            assert(views(pieces@).take(i + 1).drop_last() =~= views(pieces@).take(i as int));
        }
        if i > 0 {
            append_chars(&mut r, sep);
        }
        append_chars(&mut r, pieces[i].as_slice());
        proof {
            if i == 0 {
                assert(views(pieces@).take(1) =~= seq![pieces@[0]@]);
            }
        }
        i = i + 1;
    }
    proof {
        assert(views(pieces@).take(pieces@.len() as int) =~= views(pieces@));
    }
    r
}

pub fn append_chars(r: &mut Vec<char>, more: &[char])
    ensures
        final(r)@ == old(r)@ + more@,
{
    let mut i: usize = 0;
    while i < more.len()
        invariant
            i <= more@.len(),
            r@ =~= old(r)@ + more@.take(i as int),
        decreases more.len() - i,
    {
        r.push(more[i]);
        i = i + 1;
    }
    proof {
        assert(more@.take(more@.len() as int) =~= more@);
    }
}

pub open spec fn is_nonempty(p: Seq<char>) -> bool {
    p.len() > 0
}

/// The pieces that are not empty, in order.
pub fn nonempty_pieces(pieces: &Vec<Vec<char>>) -> (kept: Vec<Vec<char>>)
    ensures
        views(kept@) == views(pieces@).filter(|p: Seq<char>| is_nonempty(p)),
{
    let mut kept: Vec<Vec<char>> = Vec::new();
    let mut i: usize = 0;
    while i < pieces.len()
        invariant
            i <= pieces@.len(),
            views(kept@) == views(pieces@).take(i as int).filter(|p: Seq<char>| is_nonempty(p)),
        decreases pieces.len() - i,
    {
        let ghost all = views(pieces@);
        proof {
            assert(all.take(i + 1) =~= all.take(i as int).push(all[i as int]));
            all.take(i as int).lemma_filter_push(all[i as int], |p: Seq<char>| is_nonempty(p));
        }
        if pieces[i].len() > 0 {
            let copy = slice_range(pieces[i].as_slice(), 0, pieces[i].len());
            kept.push(copy);
            proof {
                assert(copy@ =~= all[i as int]);
                assert(views(kept@) =~= all.take(i as int).filter(|p: Seq<char>| is_nonempty(p)).push(
                    all[i as int],
                ));
            }
        }
        i = i + 1;
    }
    proof {
        assert(views(pieces@).take(pieces@.len() as int) =~= views(pieces@));
    }
    kept
}

/// `split_whitespace` joined back with single spaces.
pub open spec fn collapse_whitespace(s: Seq<char>) -> Seq<char> {
    join(split(s, CharClass::Space).filter(|p: Seq<char>| is_nonempty(p)), seq![' '])
}

/// Text with no whitespace at either end and never two whitespace
/// characters in a row.
pub open spec fn is_collapsed(s: Seq<char>) -> bool {
    &&& s.len() > 0 ==> !is_space(s[0]) && !is_space(s[s.len() - 1])
    &&& forall|i: int| 1 <= i < s.len() && #[trigger] is_space(s[i]) ==> !is_space(s[i - 1])
}

/// Whether every character of `s` is whitespace (so also when it is empty).
pub open spec fn is_blank(s: Seq<char>) -> bool {
    forall|i: int| 0 <= i < s.len() ==> #[trigger] is_space(s[i])
}

proof fn lemma_split_pieces(s: Seq<char>, class: CharClass)
    ensures
        split(s, class).len() >= 1,
        forall|k: int, j: int|
            0 <= k < split(s, class).len() && 0 <= j < split(s, class)[k].len() ==> !class_has(
                class,
                #[trigger] split(s, class)[k][j],
            ),
        (forall|i: int| 0 <= i < s.len() ==> class_has(class, #[trigger] s[i])) ==> forall|k: int|
            0 <= k < split(s, class).len() ==> #[trigger] split(s, class)[k].len() == 0,
        (exists|i: int| 0 <= i < s.len() && !class_has(class, #[trigger] s[i])) ==> exists|k: int|
            0 <= k < split(s, class).len() && #[trigger] split(s, class)[k].len() > 0,
    decreases s.len(),
{
    if s.len() > 0 {
        let prev = split(s.drop_last(), class);
        lemma_split_pieces(s.drop_last(), class);
        let cur = split(s, class);
        if class_has(class, s.last()) {
            assert(cur == prev.push(Seq::empty()));
            assert forall|k: int, j: int| 0 <= k < cur.len() && 0 <= j < cur[k].len() implies !class_has(
                class,
                #[trigger] cur[k][j],
            ) by {
                assert(k < prev.len());
                assert(cur[k] == prev[k]);
            }
            if forall|i: int| 0 <= i < s.len() ==> class_has(class, #[trigger] s[i]) {
                assert forall|i: int| 0 <= i < s.drop_last().len() implies class_has(
                    class,
                    #[trigger] s.drop_last()[i],
                ) by {
                    assert(s.drop_last()[i] == s[i]);
                }
                assert forall|k: int| 0 <= k < cur.len() implies #[trigger] cur[k].len() == 0 by {
                    if k < prev.len() {
                        assert(cur[k] == prev[k]);
                    }
                }
            }
            if exists|i: int| 0 <= i < s.len() && !class_has(class, #[trigger] s[i]) {
                let i = choose|i: int| 0 <= i < s.len() && !class_has(class, #[trigger] s[i]);
                assert(i < s.len() - 1);
                assert(s.drop_last()[i] == s[i]);
                let k = choose|k: int| 0 <= k < prev.len() && #[trigger] prev[k].len() > 0;
                assert(cur[k] == prev[k]);
            }
        } else {
            let last = prev.last().push(s.last());
            assert(cur == prev.update(prev.len() - 1, last));
            assert forall|k: int, j: int| 0 <= k < cur.len() && 0 <= j < cur[k].len() implies !class_has(
                class,
                #[trigger] cur[k][j],
            ) by {
                if k == prev.len() - 1 {
                    if j < prev.last().len() {
                        assert(cur[k][j] == prev[k][j]);
                    }
                } else {
                    assert(cur[k] == prev[k]);
                }
            }
            assert(cur[prev.len() - 1].len() > 0);
        }
    }
}

proof fn lemma_join_collapsed(pieces: Seq<Seq<char>>)
    requires
        forall|k: int| 0 <= k < pieces.len() ==> #[trigger] pieces[k].len() > 0,
        forall|k: int, j: int|
            0 <= k < pieces.len() && 0 <= j < pieces[k].len() ==> !is_space(#[trigger] pieces[k][j]),
    ensures
        is_collapsed(join(pieces, seq![' '])),
        join(pieces, seq![' ']).len() == 0 <==> pieces.len() == 0,
    decreases pieces.len(),
{
    if pieces.len() == 1 {
        let r = join(pieces, seq![' ']);
        assert(r == pieces[0]);
        assert forall|i: int| 1 <= i < r.len() && #[trigger] is_space(r[i]) implies !is_space(r[i - 1]) by {
            assert(!is_space(pieces[0][i]));
        }
        assert(!is_space(pieces[0][0]));
        assert(!is_space(pieces[0][r.len() - 1]));
    } else if pieces.len() > 1 {
        let init = pieces.drop_last();
        assert forall|k: int| 0 <= k < init.len() implies #[trigger] init[k].len() > 0 by {
            assert(init[k] == pieces[k]);
        }
        assert forall|k: int, j: int| 0 <= k < init.len() && 0 <= j < init[k].len() implies !is_space(
            #[trigger] init[k][j],
        ) by {
            assert(init[k] == pieces[k]);
        }
        lemma_join_collapsed(init);
        let prev = join(init, seq![' ']);
        let last = pieces.last();
        let r = join(pieces, seq![' ']);
        assert(r == prev + seq![' '] + last);
        assert(last.len() > 0);
        assert(!is_space(last[last.len() - 1]));
        assert(r[r.len() - 1] == last[last.len() - 1]);
        assert(r[0] == prev[0]);
        assert(is_space(' ')) by {
            assert((' ' as u32) == 32);
        }
        assert forall|i: int| 1 <= i < r.len() && #[trigger] is_space(r[i]) implies !is_space(r[i - 1]) by {
            if i < prev.len() {
                assert(r[i] == prev[i]);
                assert(r[i - 1] == prev[i - 1]);
            } else if i == prev.len() {
                assert(r[i - 1] == prev[prev.len() - 1]);
            } else if i == prev.len() + 1 {
                assert(r[i] == last[0]);
                assert(!is_space(last[0]));
            } else {
                assert(r[i] == last[i - prev.len() - 1]);
                assert(!is_space(last[i - prev.len() - 1]));
            }
        }
    }
}

/// Collapsed text is in normal form: no whitespace at either end, never two
/// whitespace characters in a row; and it is empty exactly when the text was
/// nothing but whitespace.
pub proof fn lemma_collapse_whitespace(s: Seq<char>)
    ensures
        is_collapsed(collapse_whitespace(s)),
        collapse_whitespace(s).len() == 0 <==> is_blank(s),
{
    let pred = |p: Seq<char>| is_nonempty(p);
    let pieces = split(s, CharClass::Space);
    lemma_split_pieces(s, CharClass::Space);
    let kept = pieces.filter(pred);
    broadcast use vstd::seq_lib::group_filter_ensures;
    assert forall|k: int| 0 <= k < kept.len() implies #[trigger] kept[k].len() > 0 by {
        assert(pred(kept[k]));
    }
    assert forall|k: int, j: int| 0 <= k < kept.len() && 0 <= j < kept[k].len() implies !is_space(
        #[trigger] kept[k][j],
    ) by {
        assert(pieces.contains(kept[k])) by {
            pieces.lemma_filter_contains_rev(pred, kept[k]);
            assert(kept.contains(kept[k]));
        }
        let m = choose|m: int| 0 <= m < pieces.len() && pieces[m] == kept[k];
        assert(!class_has(CharClass::Space, pieces[m][j]));
    }
    lemma_join_collapsed(kept);
    if is_blank(s) {
        assert forall|i: int| 0 <= i < s.len() implies class_has(CharClass::Space, #[trigger] s[i]) by {
            assert(is_space(s[i]));
        }
        if kept.len() > 0 {
            assert(pieces.contains(kept[0])) by {
                pieces.lemma_filter_contains_rev(pred, kept[0]);
                assert(kept.contains(kept[0]));
            }
            let m = choose|m: int| 0 <= m < pieces.len() && pieces[m] == kept[0];
            assert(pieces[m].len() == 0);
        }
    } else {
        let i = choose|i: int| 0 <= i < s.len() && !is_space(#[trigger] s[i]);
        assert(!class_has(CharClass::Space, s[i]));
        let k = choose|k: int| 0 <= k < pieces.len() && #[trigger] pieces[k].len() > 0;
        assert(pred(pieces[k]));
        assert(kept.contains(pieces[k]));
    }
}

pub fn collapse_whitespace_chars(v: &[char]) -> (r: Vec<char>)
    ensures
        r@ == collapse_whitespace(v@),
{
    let pieces = split_chars(v, CharClass::Space);
    let words = nonempty_pieces(&pieces);
    let space: Vec<char> = vec![' '];
    proof {
        assert(space@ =~= seq![' ']);
    }
    join_chars(&words, space.as_slice())
}

// --- searching -----------------------------------------------------------------

/// The first index at or after `i` holding a `class` character, or the
/// length when there is none.
pub open spec fn find_class_from(s: Seq<char>, class: CharClass, i: int) -> int
    decreases s.len() - i,
{
    if i < 0 || i >= s.len() {
        s.len() as int
    } else if class_has(class, s[i]) {
        i
    } else {
        find_class_from(s, class, i + 1)
    }
}

/// A search for a class of character from `i` lands on the first character
/// of that class at or after `i`, or at the end when there is none.
pub proof fn lemma_find_class_bounds(s: Seq<char>, class: CharClass, i: int)
    requires
        0 <= i <= s.len(),
    ensures
        i <= find_class_from(s, class, i) <= s.len(),
        forall|j: int| i <= j < find_class_from(s, class, i) ==> !class_has(class, #[trigger] s[j]),
        find_class_from(s, class, i) < s.len() ==> class_has(class, s[find_class_from(s, class, i)]),
    decreases s.len() - i,
{
    if i < s.len() && !class_has(class, s[i]) {
        lemma_find_class_bounds(s, class, i + 1);
    }
}

pub fn find_class(v: &[char], class: CharClass, from: usize) -> (i: usize)
    requires
        from <= v@.len(),
    ensures
        i == find_class_from(v@, class, from as int),
        from <= i <= v@.len(),
{
    let mut i = from;
    while i < v.len() && !in_class(class, v[i])
        invariant
            from <= i <= v@.len(),
            find_class_from(v@, class, from as int) == find_class_from(v@, class, i as int),
        decreases v.len() - i,
    {
        i = i + 1;
    }
    i
}

/// Whether `pat` occurs in `s` starting at `i`.
pub open spec fn occurs_at(s: Seq<char>, pat: Seq<char>, i: int) -> bool {
    0 <= i && i + pat.len() <= s.len() && s.subrange(i, i + pat.len()) == pat
}

/// The first index at or after `i` where `pat` occurs.
pub open spec fn find_from(s: Seq<char>, pat: Seq<char>, i: int) -> Option<int>
    decreases s.len() + 1 - i,
{
    if i < 0 || i + pat.len() > s.len() {
        None
    } else if occurs_at(s, pat, i) {
        Some(i)
    } else {
        find_from(s, pat, i + 1)
    }
}

pub fn occurs_at_chars(v: &[char], pat: &[char], i: usize) -> (b: bool)
    ensures
        b == occurs_at(v@, pat@, i as int),
{
    if i > v.len() || pat.len() > v.len() - i {
        return false;
    }
    let mut k: usize = 0;
    while k < pat.len()
        invariant
            i + pat@.len() <= v@.len(),
            i <= v@.len(),
            v@.len() <= usize::MAX,
            k <= pat@.len(),
            forall|j: int| 0 <= j < k ==> v@[i + j] == pat@[j],
        decreases pat.len() - k,
    {
        if v[i + k] != pat[k] {
            proof {
                assert(v@.subrange(i as int, i + pat@.len())[k as int] != pat@[k as int]);
            }
            return false;
        }
        k = k + 1;
    }
    proof {
        assert(v@.subrange(i as int, i + pat@.len()) =~= pat@);
    }
    true
}

pub fn find_chars(v: &[char], pat: &[char], from: usize) -> (r: Option<usize>)
    ensures
        r == (match find_from(v@, pat@, from as int) {
            Some(i) => Some(i as usize),
            None => None,
        }),
        r matches Some(i) ==> i + pat@.len() <= v@.len() && from <= i,
{
    if pat.len() > v.len() || from > v.len() - pat.len() {
        return None;
    }
    let last = v.len() - pat.len();
    let mut i = from;
    loop
        invariant
            from <= i <= last,
            last + pat@.len() == v@.len(),
            find_from(v@, pat@, from as int) == find_from(v@, pat@, i as int),
        decreases last - i,
    {
        if occurs_at_chars(v, pat, i) {
            return Some(i);
        }
        if i == last {
            proof {
                assert(find_from(v@, pat@, i + 1) is None);
            }
            return None;
        }
        i = i + 1;
    }
}

/// `starts_with` and `ends_with`.
pub open spec fn starts_with(s: Seq<char>, pat: Seq<char>) -> bool {
    occurs_at(s, pat, 0)
}

pub open spec fn ends_with(s: Seq<char>, pat: Seq<char>) -> bool {
    pat.len() <= s.len() && occurs_at(s, pat, s.len() - pat.len())
}

pub fn ends_with_chars(v: &[char], pat: &[char]) -> (b: bool)
    ensures
        b == ends_with(v@, pat@),
{
    if pat.len() > v.len() {
        return false;
    }
    occurs_at_chars(v, pat, v.len() - pat.len())
}

/// `contains` for a pattern.
pub open spec fn contains_seq(s: Seq<char>, pat: Seq<char>) -> bool {
    exists|i: int| occurs_at(s, pat, i)
}

proof fn lemma_find_from_none(s: Seq<char>, pat: Seq<char>, i: int)
    requires
        0 <= i,
        find_from(s, pat, i) is None,
    ensures
        forall|j: int| i <= j ==> !occurs_at(s, pat, j),
    decreases s.len() + 1 - i,
{
    if i + pat.len() <= s.len() {
        lemma_find_from_none(s, pat, i + 1);
    }
}

/// A pattern found from `i` is found at its first occurrence at or after `i`.
pub proof fn lemma_find_from_some(s: Seq<char>, pat: Seq<char>, i: int)
    requires
        0 <= i,
        find_from(s, pat, i) is Some,
    ensures
        occurs_at(s, pat, find_from(s, pat, i).unwrap()),
        i <= find_from(s, pat, i).unwrap(),
        forall|j: int| i <= j < find_from(s, pat, i).unwrap() ==> !occurs_at(s, pat, j),
    decreases s.len() + 1 - i,
{
    if !occurs_at(s, pat, i) {
        lemma_find_from_some(s, pat, i + 1);
    }
}

pub fn contains_chars(v: &[char], pat: &[char]) -> (b: bool)
    ensures
        b == contains_seq(v@, pat@),
{
    match find_chars(v, pat, 0) {
        Some(_) => {
            proof {
                lemma_find_from_some(v@, pat@, 0);
            }
            true
        },
        None => {
            proof {
                lemma_find_from_none(v@, pat@, 0);
                assert forall|j: int| !occurs_at(v@, pat@, j) by {
                    if j >= 0 {
                    }
                }
            }
            false
        },
    }
}


// --- lines -------------------------------------------------------------------

/// A trailing carriage return removed.
pub open spec fn strip_cr(p: Seq<char>) -> Seq<char> {
    if p.len() > 0 && p.last() == '\r' {
        p.drop_last()
    } else {
        p
    }
}

/// `str::lines`: split at `\n`, a `\r` before a `\n` dropped, and no empty
/// line after a final line ending.
pub open spec fn lines(s: Seq<char>) -> Seq<Seq<char>> {
    let ps = split(s, CharClass::Exactly('\n'));
    let n = if ps.last().len() == 0 {
        ps.len() - 1
    } else {
        ps.len() as int
    };
    Seq::new(
        n as nat,
        |i: int|
            if i < ps.len() - 1 {
                strip_cr(ps[i])
            } else {
                ps[i]
            },
    )
}

pub fn lines_chars(v: &[char]) -> (ls: Vec<Vec<char>>)
    ensures
        views(ls@) == lines(v@),
{
    let pieces = split_chars(v, CharClass::Exactly('\n'));
    proof {
        lemma_split_nonempty(v@, CharClass::Exactly('\n'));
    }
    let n = pieces.len();
    let count = if pieces[n - 1].len() == 0 {
        n - 1
    } else {
        n
    };
    let mut ls: Vec<Vec<char>> = Vec::new();
    let mut i: usize = 0;
    while i < count
        invariant
            n == pieces@.len(),
            n >= 1,
            count <= n,
            count == (if views(pieces@).last().len() == 0 {
                n - 1
            } else {
                n as int
            }),
            i <= count,
            views(pieces@) == split(v@, CharClass::Exactly('\n')),
            views(ls@) =~= Seq::new(
                i as nat,
                |k: int|
                    if k < n - 1 {
                        strip_cr(views(pieces@)[k])
                    } else {
                        views(pieces@)[k]
                    },
            ),
        decreases count - i,
    {
        let p = pieces[i].as_slice();
        let line = if i < n - 1 && p.len() > 0 && p[p.len() - 1] == '\r' {
            slice_range(p, 0, p.len() - 1)
        } else {
            slice_range(p, 0, p.len())
        };
        proof {
            assert(p@ == views(pieces@)[i as int]);
            if i < n - 1 {
                assert(line@ =~= strip_cr(views(pieces@)[i as int]));
            } else {
                assert(line@ =~= views(pieces@)[i as int]);
            }
        }
        let ghost before = views(ls@);
        ls.push(line);
        proof {
            assert(views(ls@) =~= before.push(line@));
        }
        i = i + 1;
    }
    proof {
        assert(views(ls@) =~= lines(v@));
    }
    ls
}

// --- numbers -------------------------------------------------------------------

pub open spec fn all_digits(s: Seq<char>) -> bool {
    forall|i: int| 0 <= i < s.len() ==> is_ascii_digit(#[trigger] s[i])
}

pub open spec fn digit_value(c: char) -> int {
    (c as u32) - ('0' as u32)
}

/// The decimal value of a string of digits.
pub open spec fn digits_value(s: Seq<char>) -> int
    decreases s.len(),
{
    if s.len() == 0 {
        0
    } else {
        digits_value(s.drop_last()) * 10 + digit_value(s.last())
    }
}

proof fn lemma_digits_grow(s: Seq<char>, i: int, j: int)
    requires
        0 <= i <= j <= s.len(),
        all_digits(s),
    ensures
        0 <= digits_value(s.take(i)) <= digits_value(s.take(j)),
    decreases j - i,
{
    if i < j {
        lemma_digits_grow(s, i, j - 1);
        assert(s.take(j).drop_last() =~= s.take(j - 1));
        assert(is_ascii_digit(s[j - 1]));
    } else {
        lemma_digits_nonneg(s.take(i));
    }
}

proof fn lemma_digits_nonneg(s: Seq<char>)
    requires
        all_digits(s),
    ensures
        digits_value(s) >= 0,
    decreases s.len(),
{
    if s.len() > 0 {
        assert(is_ascii_digit(s.last()));
        lemma_digits_nonneg(s.drop_last());
    }
}

/// A non-empty run of digits whose value is at most `bound`, as that value.
pub open spec fn bounded_digits(s: Seq<char>, bound: int) -> Option<int> {
    if s.len() > 0 && all_digits(s) && digits_value(s) <= bound {
        Some(digits_value(s))
    } else {
        None
    }
}

pub fn parse_digits(v: &[char], bound: u64) -> (r: Option<u64>)
    ensures
        r == (match bounded_digits(v@, bound as int) {
            Some(x) => Some(x as u64),
            None => None,
        }),
        r matches Some(x) ==> x <= bound && bounded_digits(v@, bound as int) == Some(x as int),
{
    if v.len() == 0 {
        return None;
    }
    let mut acc: u64 = 0;
    let mut i: usize = 0;
    while i < v.len()
        invariant
            i <= v@.len(),
            all_digits(v@.take(i as int)),
            acc == digits_value(v@.take(i as int)),
            acc <= bound,
        decreases v.len() - i,
    {
        let c = v[i];
        if !is_ascii_digit_char(c) {
            proof {
                assert(!all_digits(v@));
            }
            return None;
        }
        let d = (c as u32 - '0' as u32) as u64;
        proof {
            assert(v@.take(i + 1).drop_last() =~= v@.take(i as int));
            assert(d == digit_value(c));
        }
        if d > bound || acc > (bound - d) / 10 {
            proof {
                assert(acc * 10 + d > bound) by (nonlinear_arith)
                    requires
                        acc > (bound - d) / 10 || d > bound,
                        d <= 9,
                        acc >= 0,
                ;
                assert(all_digits(v@.take(i + 1)));
                if all_digits(v@) {
                    lemma_digits_grow(v@, i + 1, v@.len() as int);
                    assert(v@.take(v@.len() as int) =~= v@);
                }
            }
            return None;
        }
        proof {
            assert(acc * 10 + d <= bound) by (nonlinear_arith)
                requires
                    acc <= (bound - d) / 10,
                    d <= bound,
            ;
        }
        acc = acc * 10 + d;
        i = i + 1;
    }
    proof {
        assert(v@.take(v@.len() as int) =~= v@);
    }
    Some(acc)
}

/// `str::parse::<i64>`: an optional sign, then one or more digits, in range.
pub open spec fn parse_i64(s: Seq<char>) -> Option<i64> {
    if s.len() > 0 && s[0] == '-' {
        match bounded_digits(s.drop_first(), 0x8000_0000_0000_0000) {
            Some(v) => Some((-v) as i64),
            None => None,
        }
    } else {
        let body = if s.len() > 0 && s[0] == '+' {
            s.drop_first()
        } else {
            s
        };
        match bounded_digits(body, i64::MAX as int) {
            Some(v) => Some(v as i64),
            None => None,
        }
    }
}

pub fn parse_i64_chars(v: &[char]) -> (r: Option<i64>)
    ensures
        r == parse_i64(v@),
{
    if v.len() > 0 && v[0] == '-' {
        let body = slice_range(v, 1, v.len());
        proof {
            assert(body@ =~= v@.drop_first());
        }
        let parsed = parse_digits(body.as_slice(), 0x8000_0000_0000_0000);
        proof {
            let bd = bounded_digits(body@, 0x8000_0000_0000_0000);
            if parsed is Some {
                assert(bd is Some);
                assert(0 <= bd.unwrap() <= 0x8000_0000_0000_0000) by {
                    lemma_digits_nonneg(body@);
                }
                assert(parsed.unwrap() == bd.unwrap());
            }
        }
        match parsed {
            Some(x) => {
                if x == 0x8000_0000_0000_0000 {
                    proof {
                        assert((-(x as int)) as i64 == i64::MIN);
                    }
                    Some(i64::MIN)
                } else {
                    proof {
                        assert(x < 0x8000_0000_0000_0000);
                    }
                    let y = x as i64;
                    Some(-y)
                }
            },
            None => None,
        }
    } else {
        let body = if v.len() > 0 && v[0] == '+' {
            slice_range(v, 1, v.len())
        } else {
            slice_range(v, 0, v.len())
        };
        proof {
            if v@.len() > 0 && v@[0] == '+' {
                assert(body@ =~= v@.drop_first());
            } else {
                assert(body@ =~= v@);
            }
        }
        let parsed = parse_digits(body.as_slice(), 0x7fff_ffff_ffff_ffff);
        proof {
            let bd = bounded_digits(body@, 0x7fff_ffff_ffff_ffff);
            if parsed is Some {
                assert(bd is Some);
                assert(0 <= bd.unwrap() <= 0x7fff_ffff_ffff_ffff) by {
                    lemma_digits_nonneg(body@);
                }
                assert(parsed.unwrap() == bd.unwrap());
            }
        }
        match parsed {
            Some(x) => {
                proof {
                    assert(x <= i64::MAX);
                }
                Some(x as i64)
            },
            None => None,
        }
    }
}

/// `str::parse::<u64>`: an optional `+`, then one or more digits, in range.
pub open spec fn parse_u64(s: Seq<char>) -> Option<u64> {
    let body = if s.len() > 0 && s[0] == '+' {
        s.drop_first()
    } else {
        s
    };
    match bounded_digits(body, u64::MAX as int) {
        Some(v) => Some(v as u64),
        None => None,
    }
}

pub fn parse_u64_chars(v: &[char]) -> (r: Option<u64>)
    ensures
        r == parse_u64(v@),
{
    let body = if v.len() > 0 && v[0] == '+' {
        slice_range(v, 1, v.len())
    } else {
        slice_range(v, 0, v.len())
    };
    proof {
        if v@.len() > 0 && v@[0] == '+' {
            assert(body@ =~= v@.drop_first());
        } else {
            assert(body@ =~= v@);
        }
    }
    parse_digits(body.as_slice(), u64::MAX)
}


// --- numbers as text -----------------------------------------------------------

/// The ASCII digit for `d`.
pub open spec fn digit_char(d: int) -> char {
    (48 + d) as char
}

/// `n` in decimal, as `format!` writes it.
pub open spec fn decimal(n: nat) -> Seq<char>
    decreases n,
{
    if n < 10 {
        seq![digit_char(n as int)]
    } else {
        decimal(n / 10).push(digit_char((n % 10) as int))
    }
}

pub fn decimal_chars(n: u64) -> (r: Vec<char>)
    ensures
        r@ == decimal(n as nat),
    decreases n,
{
    if n < 10 {
        let c = char_from_ascii((48 + n) as u32);
        let mut r: Vec<char> = Vec::new();
        r.push(c);
        proof {
            assert(r@ =~= seq![digit_char(n as int)]);
        }
        r
    } else {
        let mut r = decimal_chars(n / 10);
        let c = char_from_ascii((48 + n % 10) as u32);
        r.push(c);
        r
    }
}

/// The uppercase hexadecimal digit for `d`, below sixteen.
pub open spec fn hex_digit(d: int) -> char {
    if d < 10 {
        (48 + d) as char
    } else {
        (55 + d) as char
    }
}

pub fn hex_digit_char(d: u8) -> (c: char)
    requires
        d < 16,
    ensures
        c == hex_digit(d as int),
{
    if d < 10 {
        char_from_ascii((48 + d) as u32)
    } else {
        char_from_ascii((55 + d) as u32)
    }
}

// --- lists of words ------------------------------------------------------------

/// Whether `list` holds `word`, ignoring ASCII case.
pub open spec fn has_ignoring_ascii_case(list: Seq<Seq<char>>, word: Seq<char>) -> bool {
    exists|i: int| 0 <= i < list.len() && eq_ignore_ascii_case(#[trigger] list[i], word)
}

pub fn has_ignoring_ascii_case_chars(list: &Vec<Vec<char>>, word: &[char]) -> (b: bool)
    ensures
        b == has_ignoring_ascii_case(views(list@), word@),
{
    let mut i: usize = 0;
    while i < list.len()
        invariant
            i <= list@.len(),
            forall|j: int| 0 <= j < i ==> !eq_ignore_ascii_case(#[trigger] views(list@)[j], word@),
        decreases list.len() - i,
    {
        if chars_eq_ignore_ascii_case(list[i].as_slice(), word) {
            proof {
                assert(eq_ignore_ascii_case(views(list@)[i as int], word@));
            }
            return true;
        }
        i = i + 1;
    }
    false
}

/// Whether `list` holds exactly `word`.
pub open spec fn has_word(list: Seq<Seq<char>>, word: Seq<char>) -> bool {
    exists|i: int| 0 <= i < list.len() && #[trigger] list[i] == word
}

pub fn chars_equal(a: &[char], b: &[char]) -> (r: bool)
    ensures
        r == (a@ == b@),
{
    if a.len() != b.len() {
        return false;
    }
    let mut i: usize = 0;
    while i < a.len()
        invariant
            a@.len() == b@.len(),
            i <= a@.len(),
            forall|j: int| 0 <= j < i ==> a@[j] == b@[j],
        decreases a.len() - i,
    {
        if a[i] != b[i] {
            return false;
        }
        i = i + 1;
    }
    proof {
        assert(a@ =~= b@);
    }
    true
}

/// Whether two strings hold the same characters.
pub fn str_equal(a: &str, b: &str) -> (r: bool)
    ensures
        r == (a@ == b@),
{
    let x = chars_of(a);
    let y = chars_of(b);
    chars_equal(x.as_slice(), y.as_slice())
}

pub fn has_word_chars(list: &Vec<Vec<char>>, word: &[char]) -> (b: bool)
    ensures
        b == has_word(views(list@), word@),
{
    let mut i: usize = 0;
    while i < list.len()
        invariant
            i <= list@.len(),
            forall|j: int| 0 <= j < i ==> #[trigger] views(list@)[j] != word@,
        decreases list.len() - i,
    {
        if chars_equal(list[i].as_slice(), word) {
            proof {
                assert(views(list@)[i as int] == word@);
            }
            return true;
        }
        i = i + 1;
    }
    false
}

/// Pushes the characters of `word` onto a list of words.
pub fn push_word(list: &mut Vec<Vec<char>>, word: &str)
    ensures
        views(final(list)@) == views(old(list)@).push(word@),
{
    let w = chars_of(word);
    list.push(w);
    proof {
        assert(views(list@) =~= views(old(list)@).push(word@));
    }
}

} // verus!
