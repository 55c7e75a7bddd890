//! NetEase Cloud Music, the second lyrics provider: the one that has
//! romanisations.
//!
//! Its lyric tracks open with a block of production credits stamped at the
//! start of the song; those are taken off here before anything reads the
//! text as lyrics.

use vstd::prelude::*;
use vstd::string::StringSliceAdditionalSpecFns;

use crate::lyrics::{Identity, Match};
use crate::playlists::signed_decimal;
use crate::providers::{percent_bytes, percent_encode};
use crate::text::{
    append_chars, chars_of, contains_chars, contains_seq, join, join_chars, lines, lines_chars,
    slice_range, string_of, trim, trim_chars, views,
};

verus! {

/// What goes in `lyrics.provider`.
pub const PROVIDER: &'static str = "netease";

/// How many search results are worth fetching lyrics for: each one is a
/// second request.
pub const FETCH_TOP: usize = 5;

/// The search endpoint.
pub const SEARCH: &'static str = "https://music.163.com/api/search/get";

/// The lyric endpoint.
pub const LYRIC: &'static str = "https://music.163.com/api/song/lyric";

/// Sent as the referrer; the API answers nobody else.
pub const REFERER: &'static str = "https://music.163.com";

/// One song from a search, as sent.
pub struct Song {
    pub id: i64,
    pub name: String,
    pub artists: Vec<Artist>,
    /// **Milliseconds**, unlike lrclib's seconds.
    pub duration: Option<i64>,
}

pub struct Artist {
    pub name: String,
}

/// `s` after its last `c`, or all of `s` when there is none; `j` is where
/// the search from the end has got to.
pub open spec fn after_last_from(s: Seq<char>, c: char, j: int) -> Seq<char>
    decreases j,
{
    if 0 < j <= s.len() {
        if s[j - 1] == c {
            s.skip(j)
        } else {
            after_last_from(s, c, j - 1)
        }
    } else {
        s
    }
}

pub open spec fn after_last(s: Seq<char>, c: char) -> Seq<char> {
    after_last_from(s, c, s.len() as int)
}

/// A credit line: its text after the last `]`, trimmed, carries a spaced
/// colon -- which is how these are written and how a lyric almost never is.
pub open spec fn is_credit(line: Seq<char>) -> bool {
    contains_seq(trim(after_last(line, ']')), " : "@)
}

/// How many lines from the `k`th on open the lyric as credits.
pub open spec fn credit_run(ls: Seq<Seq<char>>, k: int) -> int
    decreases ls.len() - k,
{
    if 0 <= k < ls.len() && is_credit(ls[k]) {
        credit_run(ls, k + 1)
    } else {
        k
    }
}

pub open spec fn without_credits(lyric: Seq<char>) -> Seq<char> {
    join(lines(lyric).skip(credit_run(lines(lyric), 0)), "\n"@)
}

fn after_last_chars(s: &[char], c: char) -> (r: Vec<char>)
    ensures
        r@ == after_last(s@, c),
{
    let mut j: usize = s.len();
    while j > 0
        invariant
            j <= s@.len(),
            after_last(s@, c) == after_last_from(s@, c, j as int),
        decreases j,
    {
        if s[j - 1] == c {
            return slice_range(s, j, s.len());
        }
        j = j - 1;
    }
    slice_range(s, 0, s.len())
}

fn is_credit_line(line: &[char]) -> (b: bool)
    ensures
        b == is_credit(line@),
{
    let text = trim_chars(after_last_chars(line, ']').as_slice());
    contains_chars(text.as_slice(), chars_of(" : ").as_slice())
}

/// Removes NetEase's contributor block from the top of a lyric.
///
/// Only the *leading* run is dropped, and only lines carrying a spaced
/// colon. A song that really does open with " : " in its first line loses
/// it; nothing later in the track is touched at all.
pub fn strip_credits(lyric: &str) -> (s: String)
    ensures
        s@ == without_credits(lyric@),
{
    let ls = lines_chars(chars_of(lyric).as_slice());
    let mut k: usize = 0;
    while k < ls.len() && is_credit_line(ls[k].as_slice())
        invariant
            k <= ls@.len(),
            credit_run(views(ls@), 0) == credit_run(views(ls@), k as int),
        decreases ls.len() - k,
    {
        proof {
            assert(views(ls@)[k as int] == ls@[k as int]@);
        }
        k = k + 1;
    }
    proof {
        if k < ls@.len() {
            assert(views(ls@)[k as int] == ls@[k as int]@);
        }
    }
    let mut kept: Vec<Vec<char>> = Vec::new();
    let mut i: usize = k;
    while i < ls.len()
        invariant
            k <= i <= ls@.len(),
            views(kept@) =~= views(ls@).subrange(k as int, i as int),
        decreases ls.len() - i,
    {
        let ghost before = views(kept@);
        let copy = slice_range(ls[i].as_slice(), 0, ls[i].len());
        kept.push(copy);
        proof {
            assert(copy@ =~= ls@[i as int]@);
            assert(views(kept@) =~= before.push(ls@[i as int]@));
            assert(views(ls@).subrange(k as int, i + 1) =~= views(ls@).subrange(k as int, i as int).push(
                views(ls@)[i as int],
            ));
        }
        i = i + 1;
    }
    proof {
        assert(views(ls@).subrange(k as int, ls@.len() as int) =~= views(ls@).skip(k as int));
    }
    let newline = chars_of("\n");
    string_of(join_chars(&kept, newline.as_slice()).as_slice())
}

/// One lyric track of a reply: credits off, and `None` when nothing but
/// white space is left.
pub fn lyric_text(raw: Option<String>) -> (r: Option<String>)
    ensures
        match raw {
            Some(t) => match r {
                Some(s) => s@ == without_credits(t@) && trim(s@).len() > 0,
                None => trim(without_credits(t@)).len() == 0,
            },
            None => r is None,
        },
{
    match raw {
        Some(t) => {
            let stripped = strip_credits(t.as_str());
            if trim_chars(chars_of(stripped.as_str()).as_slice()).len() == 0 {
                None
            } else {
                Some(stripped)
            }
        },
        None => None,
    }
}

/// What to search NetEase for: the artist and the title, or the title alone.
pub fn query_for(identity: &Identity) -> (q: String)
    ensures
        q@ == match identity.artist {
            Some(a) => a@ + " "@ + identity.title@,
            None => identity.title@,
        },
{
    match &identity.artist {
        Some(a) => {
            let mut out = chars_of(a.as_str());
            out.push(' ');
            append_chars(&mut out, chars_of(identity.title.as_str()).as_slice());
            proof {
                reveal_strlit(" ");
                assert(out@ =~= a@ + " "@ + identity.title@);
            }
            string_of(out.as_slice())
        },
        None => string_of(chars_of(identity.title.as_str()).as_slice()),
    }
}

/// The artists' names joined by `", "`.
pub open spec fn artist_names(artists: Seq<Artist>) -> Seq<char> {
    join(artists.map_values(|a: Artist| a.name@), ", "@)
}

/// A song and its two lyric tracks as one result, or `None` when neither
/// track has anything in it. NetEase has no instrumental flag: a song with
/// no lyric rows is "we do not know", not "it has none".
pub fn match_for(song: &Song, original: Option<String>, romaji: Option<String>) -> (r: Option<Match>)
    ensures
        match r {
            None => original is None && romaji is None,
            Some(m) => {
                &&& m.provider@ == PROVIDER@
                &&& m.id == song.id
                &&& m.artist@ == artist_names(song.artists@)
                &&& m.title@ == song.name@
                &&& m.duration_ms == song.duration
                &&& !m.instrumental
                &&& m.synced == original
                &&& m.plain is None
                &&& m.romaji == romaji
            },
        },
{
    if original.is_none() && romaji.is_none() {
        return None;
    }
    let mut names: Vec<Vec<char>> = Vec::new();
    let mut i: usize = 0;
    while i < song.artists.len()
        invariant
            i <= song.artists@.len(),
            views(names@) =~= song.artists@.take(i as int).map_values(|a: Artist| a.name@),
        decreases song.artists.len() - i,
    {
        let ghost before = views(names@);
        let name = chars_of(song.artists[i].name.as_str());
        names.push(name);
        proof {
            assert(views(names@) =~= before.push(song.artists@[i as int].name@));
            assert(song.artists@.take(i + 1) =~= song.artists@.take(i as int).push(song.artists@[i as int]));
        }
        i = i + 1;
    }
    proof {
        assert(song.artists@.take(song.artists@.len() as int) =~= song.artists@);
    }
    let artist = string_of(join_chars(&names, chars_of(", ").as_slice()).as_slice());
    Some(
        Match {
            provider: PROVIDER,
            id: song.id,
            artist,
            title: song.name.clone(),
            duration_ms: song.duration,
            instrumental: false,
            synced: original,
            plain: None,
            romaji,
        },
    )
}

/// The form a search posts: the trimmed query, percent-encoded. A blank
/// query is not sent at all.
pub fn search_form(query: &str) -> (form: Option<String>)
    ensures
        match form {
            Some(f) => trim(query@).len() > 0 && exists|q: &str|
                q@ == trim(query@) && f@ == "s="@ + percent_bytes(q.spec_bytes())
                    + "&type=1&limit=10&offset=0"@,
            None => trim(query@).len() == 0,
        },
{
    let trimmed = string_of(trim_chars(chars_of(query).as_slice()).as_slice());
    if chars_of(trimmed.as_str()).len() == 0 {
        return None;
    }
    let q = trimmed.as_str();
    let mut out = chars_of("s=");
    let encoded = percent_encode(q);
    append_chars(&mut out, chars_of(encoded.as_str()).as_slice());
    append_chars(&mut out, chars_of("&type=1&limit=10&offset=0").as_slice());
    let form = string_of(out.as_slice());
    proof {
        assert(q@ == trim(query@));
    }
    Some(form)
}

/// Where one song's lyrics are asked for: as sung, in translation and
/// romanised, whichever of those exist.
pub fn lyric_url(id: i64) -> (url: String)
    ensures
        url@ == LYRIC@ + "?id="@ + signed_decimal(id as int) + "&lv=-1&kv=-1&tv=-1&rv=-1"@,
{
    let mut out = chars_of(LYRIC);
    append_chars(&mut out, chars_of("?id=").as_slice());
    append_chars(&mut out, crate::playlists::decimal_of(id).as_slice());
    append_chars(&mut out, chars_of("&lv=-1&kv=-1&tv=-1&rv=-1").as_slice());
    string_of(out.as_slice())
}

} // verus!
