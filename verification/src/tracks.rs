//! Tracks as the library lists them, and the rules behind editing them.
//!
//! The statements here are built as text with a `?` for each bound value,
//! in the order the values are bound; running them is the caller's business.

use vstd::prelude::*;

use crate::text::{append_chars, chars_of, string_of, trim, trim_chars};

verus! {

/// A row of the library, as the views show it.
#[derive(Debug, Clone)]
pub struct Track {
    pub id: i64,
    /// "local" or a provider's name.
    pub source: String,
    pub title: String,
    pub artist: Option<String>,
    pub album: Option<String>,
    pub duration_secs: Option<i64>,
    pub state: String,
    /// Names a file in the cover store. `None` means generated artwork.
    pub cover_key: Option<String>,
    /// The provider's own thumbnail, for tracks with no stored copy.
    pub remote_thumbnail_url: Option<String>,
    /// Whether the user keeps this in their library.
    pub in_library: bool,
}

/// What the file's own tags say, for a local track.
pub struct FileTags {
    pub title: String,
    pub artist: Option<String>,
    pub album: Option<String>,
}

/// How many ids one statement asks about: SQLite caps how many values one
/// statement may bind.
pub const FILED_CHUNK: usize = 400;

/// An edit box's content: trimmed, and `None` when nothing is left, because
/// an empty box means "unknown".
pub open spec fn blank_is_none(v: Option<Seq<char>>) -> Option<Seq<char>> {
    match v {
        Some(s) => if trim(s).len() > 0 {
            Some(trim(s))
        } else {
            None
        },
        None => None,
    }
}

pub open spec fn string_opt_view(o: Option<String>) -> Option<Seq<char>> {
    match o {
        Some(s) => Some(s@),
        None => None,
    }
}

pub fn blank_to_none(v: Option<String>) -> (r: Option<String>)
    ensures
        string_opt_view(r) == blank_is_none(string_opt_view(v)),
{
    match v {
        Some(s) => {
            let t = trim_chars(chars_of(s.as_str()).as_slice());
            if t.len() > 0 {
                Some(string_of(t.as_slice()))
            } else {
                None
            }
        },
        None => None,
    }
}

/// A metadata edit as it will be written: the title trimmed, artist and
/// album trimmed or `None`. Refused when the title is blank, because the
/// column is NOT NULL and a blank title leaves a row nothing can display.
pub fn metadata_edit(title: &str, artist: Option<String>, album: Option<String>) -> (r: Result<
    (String, Option<String>, Option<String>),
    String,
>)
    ensures
        match r {
            Ok((t, a, b)) => trim(title@).len() > 0 && t@ == trim(title@) && string_opt_view(a)
                == blank_is_none(string_opt_view(artist)) && string_opt_view(b) == blank_is_none(
                string_opt_view(album),
            ),
            Err(message) => trim(title@).len() == 0 && message@ == "A title is required."@,
        },
{
    let t = trim_chars(chars_of(title).as_slice());
    if t.len() == 0 {
        return Err(string_of(chars_of("A title is required.").as_slice()));
    }
    Ok((string_of(t.as_slice()), blank_to_none(artist), blank_to_none(album)))
}

/// `n` placeholders separated by `", "`.
pub open spec fn placeholders(n: nat) -> Seq<char>
    decreases n,
{
    if n == 0 {
        Seq::empty()
    } else if n == 1 {
        seq!['?']
    } else {
        placeholders((n - 1) as nat) + ", ?"@
    }
}

pub fn push_placeholders(out: &mut Vec<char>, n: usize)
    ensures
        final(out)@ == old(out)@ + placeholders(n as nat),
{
    let mut i: usize = 0;
    let sep = chars_of(", ?");
    proof {
        reveal_strlit(", ?");
        assert(old(out)@ + placeholders(0) =~= old(out)@);
    }
    while i < n
        invariant
            i <= n,
            sep@ == ", ?"@,
            out@ == old(out)@ + placeholders(i as nat),
        decreases n - i,
    {
        let ghost before = out@;
        if i == 0 {
            out.push('?');
            proof {
                assert(out@ =~= old(out)@ + placeholders(1));
            }
        } else {
            append_chars(out, sep.as_slice());
            proof {
                assert(out@ =~= old(out)@ + placeholders((i + 1) as nat));
            }
        }
        i = i + 1;
    }
}

/// What an SQL comparison operator says of two values; `false` for anything
/// that is not one.
pub open spec fn sql_compares(op: Seq<char>, a: int, b: int) -> bool {
    if op == seq!['='] {
        a == b
    } else if op == seq!['<', '>'] || op == seq!['!', '='] {
        a != b
    } else if op == seq!['<'] {
        a < b
    } else if op == seq!['<', '='] {
        a <= b
    } else if op == seq!['>'] {
        a > b
    } else if op == seq!['>', '='] {
        a >= b
    } else {
        false
    }
}

/// How many `?` parameters a piece of SQL text carries.
pub open spec fn parameter_count(sql: Seq<char>) -> nat
    decreases sql.len(),
{
    if sql.len() == 0 {
        0
    } else {
        parameter_count(sql.drop_last()) + (if sql.last() == '?' {
            1nat
        } else {
            0nat
        })
    }
}

pub proof fn lemma_parameter_count_concat(a: Seq<char>, b: Seq<char>)
    ensures
        parameter_count(a + b) == parameter_count(a) + parameter_count(b),
    decreases b.len(),
{
    if b.len() == 0 {
        assert(a + b =~= a);
    } else {
        lemma_parameter_count_concat(a, b.drop_last());
        assert((a + b).drop_last() =~= a + b.drop_last());
    }
}

/// A list of `n` placeholders binds exactly `n` values.
pub proof fn lemma_placeholders_bind_n(n: nat)
    ensures
        parameter_count(placeholders(n)) == n,
    decreases n,
{
    if n == 1 {
        assert(seq!['?'].drop_last() =~= Seq::<char>::empty());
        assert(parameter_count(Seq::<char>::empty()) == 0);
        assert(placeholders(1) == seq!['?']);
    } else if n > 1 {
        lemma_placeholders_bind_n((n - 1) as nat);
        reveal_strlit(", ?");
        lemma_parameter_count_concat(placeholders((n - 1) as nat), ", ?"@);
        let t = ", ?"@;
        assert(t.len() == 3 && t[0] == ',' && t[1] == ' ' && t[2] == '?');
        lemma_no_parameters(t.drop_last());
        assert(t.last() == '?');
        assert(parameter_count(t) == 1);
    }
}

/// The statement that files many tracks in the library at once, or takes
/// them out: the flag is bound twice, then the ids. Every row it touches is
/// a transition, and a track joining the library is dated from now.
pub open spec fn set_many_sql(in_library: bool, ids: nat) -> Seq<char> {
    "UPDATE tracks SET in_library = ?"@ + (if in_library {
        ", date_added = unixepoch()"@
    } else {
        Seq::empty()
    }) + " WHERE in_library <> ? AND id IN ("@ + placeholders(ids) + ") RETURNING id"@
}

/// Filing many tracks sets the flag on exactly the listed tracks whose flag
/// differs from the value asked for: the statement assigns the bound flag,
/// keeps a row only when its flag compares unequal to the bound value, and
/// lists one parameter per id.
pub proof fn lemma_filing_touches_only_what_differs(in_library: bool, ids: nat) -> (parts: (
    Seq<char>,
    Seq<char>,
    Seq<char>,
))
    ensures
        set_many_sql(in_library, ids) == "UPDATE tracks SET in_library = ?"@ + parts.0 + " WHERE in_library "@
            + parts.1 + " ? AND id IN ("@ + parts.2 + ") RETURNING id"@,
        forall|row: int, wanted: int| #[trigger] sql_compares(parts.1, row, wanted) <==> row != wanted,
        parameter_count(parts.0) == 0,
        parameter_count(parts.2) == ids,
{
    let head = if in_library {
        ", date_added = unixepoch()"@
    } else {
        Seq::empty()
    };
    let op = seq!['<', '>'];
    reveal_strlit(" WHERE in_library <> ? AND id IN (");
    reveal_strlit(" WHERE in_library ");
    reveal_strlit(" ? AND id IN (");
    reveal_strlit(", date_added = unixepoch()");
    assert(" WHERE in_library <> ? AND id IN ("@ =~= " WHERE in_library "@ + op + " ? AND id IN ("@);
    assert(set_many_sql(in_library, ids) =~= "UPDATE tracks SET in_library = ?"@ + head + " WHERE in_library "@
        + op + " ? AND id IN ("@ + placeholders(ids) + ") RETURNING id"@);
    lemma_placeholders_bind_n(ids);
    assert(parameter_count(head) == 0) by {
        assert(forall|j: int| 0 <= j < head.len() ==> head[j] != '?');
        lemma_no_parameters(head);
    }
    (head, op, placeholders(ids))
}

/// Text without a `?` binds nothing.
pub proof fn lemma_no_parameters(s: Seq<char>)
    requires
        forall|j: int| 0 <= j < s.len() ==> s[j] != '?',
    ensures
        parameter_count(s) == 0,
    decreases s.len(),
{
    if s.len() > 0 {
        lemma_no_parameters(s.drop_last());
    }
}

pub fn set_many_statement(in_library: bool, ids: usize) -> (sql: String)
    ensures
        sql@ == set_many_sql(in_library, ids as nat),
{
    let mut out = chars_of("UPDATE tracks SET in_library = ?");
    if in_library {
        append_chars(&mut out, chars_of(", date_added = unixepoch()").as_slice());
    }
    append_chars(&mut out, chars_of(" WHERE in_library <> ? AND id IN (").as_slice());
    push_placeholders(&mut out, ids);
    append_chars(&mut out, chars_of(") RETURNING id").as_slice());
    proof {
        assert(out@ =~= set_many_sql(in_library, ids as nat));
    }
    string_of(out.as_slice())
}

/// The question asked of one chunk of remote ids: the provider's source is
/// bound first, then the ids.
pub open spec fn filed_sql(ids: nat) -> Seq<char> {
    "SELECT remote_id FROM tracks WHERE in_library = 1 AND source = ? AND remote_id IN ("@
        + placeholders(ids) + ")"@
}

pub fn filed_statement(ids: usize) -> (sql: String)
    ensures
        sql@ == filed_sql(ids as nat),
{
    let mut out = chars_of(
        "SELECT remote_id FROM tracks WHERE in_library = 1 AND source = ? AND remote_id IN (",
    );
    push_placeholders(&mut out, ids);
    append_chars(&mut out, chars_of(")").as_slice());
    string_of(out.as_slice())
}

/// Sets the display artist on many tracks: the artist is bound, then the ids.
pub open spec fn set_artists_sql(ids: nat) -> Seq<char> {
    "UPDATE tracks SET artist = ? WHERE id IN ("@ + placeholders(ids) + ")"@
}

pub fn set_artists_statement(ids: usize) -> (sql: String)
    ensures
        sql@ == set_artists_sql(ids as nat),
{
    let mut out = chars_of("UPDATE tracks SET artist = ? WHERE id IN (");
    push_placeholders(&mut out, ids);
    append_chars(&mut out, chars_of(")").as_slice());
    string_of(out.as_slice())
}

/// `ids` split into chunks of at most [`FILED_CHUNK`], in order.
pub fn filed_chunks(ids: &Vec<String>) -> (chunks: Vec<Vec<String>>)
    ensures
        forall|i: int| 0 <= i < chunks@.len() ==> 0 < (#[trigger] chunks@[i]).len() <= FILED_CHUNK,
        chunks@.len() == (ids@.len() + FILED_CHUNK - 1) / (FILED_CHUNK as int),
        forall|i: int, j: int|
            0 <= i < chunks@.len() && 0 <= j < chunks@[i].len() ==> (#[trigger] chunks@[i]@[j])@
                == ids@[i * FILED_CHUNK + j]@,
{
    let mut chunks: Vec<Vec<String>> = Vec::new();
    let mut start: usize = 0;
    while start < ids.len()
        invariant
            start <= ids@.len(),
            start == chunks@.len() * FILED_CHUNK || start == ids@.len(),
            start < ids@.len() ==> start == chunks@.len() * FILED_CHUNK,
            chunks@.len() == (start + FILED_CHUNK - 1) / (FILED_CHUNK as int),
            forall|i: int| 0 <= i < chunks@.len() ==> 0 < (#[trigger] chunks@[i]).len() <= FILED_CHUNK,
            forall|i: int, j: int|
                0 <= i < chunks@.len() && 0 <= j < chunks@[i].len() ==> (#[trigger] chunks@[i]@[j])@
                    == ids@[i * FILED_CHUNK + j]@ && i * FILED_CHUNK + j < start,
        decreases ids.len() - start,
    {
        let end = if ids.len() - start > FILED_CHUNK {
            start + FILED_CHUNK
        } else {
            ids.len()
        };
        let mut chunk: Vec<String> = Vec::new();
        let mut k: usize = start;
        while k < end
            invariant
                start <= k <= end <= ids@.len(),
                end - start <= FILED_CHUNK,
                chunk@.len() == k - start,
                forall|j: int| 0 <= j < chunk@.len() ==> (#[trigger] chunk@[j])@ == ids@[start + j]@,
            decreases end - k,
        {
            chunk.push(ids[k].clone());
            k = k + 1;
        }
        let ghost n = chunks@.len();
        chunks.push(chunk);
        proof {
            assert(start == n * FILED_CHUNK);
            assert(chunks@[n as int].len() == end - start);
            assert forall|i: int, j: int|
                0 <= i < chunks@.len() && 0 <= j < chunks@[i].len() implies (#[trigger] chunks@[i]@[j])@
                    == ids@[i * FILED_CHUNK + j]@ && i * FILED_CHUNK + j < end by {
                if i == n {
                    assert(chunks@[i]@[j]@ == ids@[start + j]@);
                }
            }
            assert((end + FILED_CHUNK - 1) / (FILED_CHUNK as int) == n + 1) by (nonlinear_arith)
                requires
                    start == n * FILED_CHUNK,
                    start < end <= start + FILED_CHUNK,
                    FILED_CHUNK == 400,
            ;
        }
        start = end;
    }
    chunks
}

/// How many recently played tracks are listed: fifty unless asked, and
/// never fewer than one nor more than five hundred.
pub fn recent_limit(limit: Option<u32>) -> (n: u32)
    ensures
        n == (match limit {
            None => 50,
            Some(l) => if l < 1 {
                1
            } else if l > 500 {
                500
            } else {
                l
            },
        }),
{
    match limit {
        None => 50,
        Some(l) => if l < 1 {
            1
        } else if l > 500 {
            500
        } else {
            l
        },
    }
}

} // verus!
