//! The library view's search and grouping rules.
//!
//! What the user types never reaches SQLite's full-text engine as syntax:
//! each word becomes a quoted prefix term. The statement around it is built
//! here as text, with a `?` for each value, bound in order by the caller.

use vstd::prelude::*;

use crate::text::{
    append_chars, chars_equal, chars_of, is_alphanumeric, is_nonempty, join, lowercase,
    lowercase_chars, nonempty_pieces, split, split_chars, string_of, trim, trim_chars, views,
    CharClass,
};
use crate::tracks::{
    lemma_no_parameters, parameter_count, placeholders,
    push_placeholders, sql_compares, string_opt_view, Track,
};

verus! {

/// How multiple selected tags combine.
#[derive(Debug, Clone, Copy, PartialEq, Eq, Structural)]
pub enum TagMode {
    /// Tracks carrying every selected tag.
    All,
    /// Tracks carrying any of them.
    Any,
}

impl Default for TagMode {
    fn default() -> (m: TagMode)
        ensures
            m == TagMode::All,
    {
        TagMode::All
    }
}

/// Tracks grouped under one artist heading.
pub struct ArtistGroup {
    pub artist: String,
    pub tracks: Vec<Track>,
}

/// The most words a search is made of.
pub const MAX_TERMS: usize = 12;

/// The words of a query: runs of alphanumerics, at most [`MAX_TERMS`].
pub open spec fn query_terms(input: Seq<char>) -> Seq<Seq<char>> {
    let all = split(input, CharClass::NotAlphanumeric).filter(|p: Seq<char>| is_nonempty(p));
    if all.len() > MAX_TERMS {
        all.take(MAX_TERMS as int)
    } else {
        all
    }
}

/// A word as a quoted prefix term.
pub open spec fn prefix_term(word: Seq<char>) -> Seq<char> {
    seq!['"'] + word + seq!['"', '*']
}

/// The terms ANDed together, or `None` when there is nothing searchable.
pub open spec fn fts_expression(input: Seq<char>) -> Option<Seq<char>> {
    let terms = query_terms(input);
    if terms.len() == 0 {
        None
    } else {
        Some(join(terms.map_values(|w: Seq<char>| prefix_term(w)), " AND "@))
    }
}

/// Turns what the user typed into an FTS5 expression.
///
/// `MATCH` takes an expression, not a literal: a query containing `AND`,
/// `"`, `*` or `AC/DC` is either a syntax error or silently means something
/// else. Each word becomes a quoted prefix term, ANDed together, so typing
/// narrows as you go and nothing the user types can be an operator.
pub fn to_fts_expression(input: &str) -> (r: Option<String>)
    ensures
        match r {
            Some(s) => fts_expression(input@) == Some(s@),
            None => fts_expression(input@) is None,
        },
{
    let pieces = split_chars(chars_of(input).as_slice(), CharClass::NotAlphanumeric);
    let words = nonempty_pieces(&pieces);
    if words.len() == 0 {
        return None;
    }
    let n = if words.len() > MAX_TERMS {
        MAX_TERMS
    } else {
        words.len()
    };
    let ghost terms = query_terms(input@);
    let ghost quoted = terms.map_values(|w: Seq<char>| prefix_term(w));
    proof {
        assert(terms.len() == n);
        assert(forall|i: int| 0 <= i < n ==> terms[i] == views(words@)[i]);
    }
    let and = chars_of(" AND ");
    let mut out: Vec<char> = Vec::new();
    let mut i: usize = 0;
    while i < n
        invariant
            n == terms.len(),
            n <= words@.len(),
            forall|j: int| 0 <= j < n ==> terms[j] == #[trigger] words@[j]@,
            quoted == terms.map_values(|w: Seq<char>| prefix_term(w)),
            and@ == " AND "@,
            i <= n,
            out@ == join(quoted.take(i as int), " AND "@),
        decreases n - i,
    {
        proof {
            assert(quoted.take(i + 1).drop_last() =~= quoted.take(i as int));
            if i == 0 {
                assert(quoted.take(1) =~= seq![quoted[0]]);
            }
        }
        if i > 0 {
            append_chars(&mut out, and.as_slice());
        }
        out.push('"');
        append_chars(&mut out, words[i].as_slice());
        out.push('"');
        out.push('*');
        proof {
            assert(quoted[i as int] == prefix_term(words@[i as int]@));
            if i == 0 {
                assert(out@ =~= join(quoted.take(1), " AND "@));
            } else {
                assert(out@ =~= join(quoted.take(i as int), " AND "@) + " AND "@ + quoted[i as int]);
            }
        }
        i = i + 1;
    }
    proof {
        assert(quoted.take(n as int) =~= quoted);
    }
    Some(string_of(out.as_slice()))
}

/// NULL, empty and whitespace-only artists are all "Unknown Artist".
pub open spec fn display_artist_spec(artist: Option<Seq<char>>) -> Seq<char> {
    match artist {
        Some(a) => if trim(a).len() > 0 {
            trim(a)
        } else {
            "Unknown Artist"@
        },
        None => "Unknown Artist"@,
    }
}

pub open spec fn str_opt_view(o: Option<&str>) -> Option<Seq<char>> {
    match o {
        Some(s) => Some(s@),
        None => None,
    }
}

pub fn display_artist(artist: Option<&str>) -> (s: String)
    ensures
        s@ == display_artist_spec(str_opt_view(artist)),
{
    match artist {
        Some(a) => {
            let t = trim_chars(chars_of(a).as_slice());
            if t.len() > 0 {
                return string_of(t.as_slice());
            }
        },
        None => {},
    }
    string_of(chars_of("Unknown Artist").as_slice())
}

/// Tracks folded under headings, in order: a track joins the heading before
/// it when their names agree once lowercased, and otherwise starts a new one
/// under its own spelling.
pub open spec fn groups_of(tracks: Seq<Track>) -> Seq<(Seq<char>, Seq<Track>)>
    decreases tracks.len(),
{
    if tracks.len() == 0 {
        Seq::empty()
    } else {
        let g = groups_of(tracks.drop_last());
        let t = tracks.last();
        let name = display_artist_spec(string_opt_view(t.artist));
        if g.len() > 0 && lowercase(g.last().0) == lowercase(name) {
            g.update(g.len() - 1, (g.last().0, g.last().1.push(t)))
        } else {
            g.push((name, seq![t]))
        }
    }
}

pub open spec fn group_view(g: ArtistGroup) -> (Seq<char>, Seq<Track>) {
    (g.artist@, g.tracks@)
}

/// The library grouped under artist headings.
///
/// Grouping on the lowercased name means "Radiohead" and "radiohead" land
/// together rather than as two headings; the first spelling seen is what is
/// displayed. The tracks are expected in the order of that same key, so
/// equal keys are adjacent.
pub fn group_by_artist(tracks: Vec<Track>) -> (groups: Vec<ArtistGroup>)
    ensures
        groups@.map_values(|g: ArtistGroup| group_view(g)) == groups_of(tracks@),
{
    let ghost all = tracks@;
    let mut groups: Vec<ArtistGroup> = Vec::new();
    let mut keys: Vec<Vec<char>> = Vec::new();
    proof {
        assert(all.take(0) =~= Seq::<Track>::empty());
        assert(groups@.map_values(|g: ArtistGroup| group_view(g)) =~= groups_of(all.take(0)));
    }
    for track in it: tracks
        invariant
            it.seq() == all,
            groups@.map_values(|g: ArtistGroup| group_view(g)) == groups_of(all.take(it.index() as int)),
            keys@.len() == groups@.len(),
            forall|i: int| 0 <= i < keys@.len() ==> (#[trigger] keys@[i])@ == lowercase(groups@[i].artist@),
    {
        let ghost k = it.index();
        let ghost before = groups@.map_values(|g: ArtistGroup| group_view(g));
        proof {
            assert(all.take(k + 1).drop_last() =~= all.take(k as int));
            assert(all.take(k + 1).last() == track);
        }
        let display = match &track.artist {
            Some(a) => display_artist(Some(a.as_str())),
            None => display_artist(None),
        };
        let key = lowercase_chars(chars_of(display.as_str()).as_slice());
        let n = groups.len();
        if n > 0 && chars_equal(keys[n - 1].as_slice(), key.as_slice()) {
            let mut last = groups.pop().unwrap();
            proof {
                assert(before.last() == group_view(last));
            }
            last.tracks.push(track);
            groups.push(last);
            proof {
                assert(groups@.map_values(|g: ArtistGroup| group_view(g)) =~= before.update(
                    before.len() - 1,
                    (before.last().0, before.last().1.push(track)),
                ));
            }
        } else {
            let mut list: Vec<Track> = Vec::new();
            list.push(track);
            groups.push(ArtistGroup { artist: display, tracks: list });
            keys.push(key);
            proof {
                assert(groups@.map_values(|g: ArtistGroup| group_view(g)) =~= before.push(
                    (display_artist_spec(string_opt_view(track.artist)), seq![track]),
                ));
            }
        }
    }
    proof {
        assert(all.take(all.len() as int) =~= all);
    }
    groups
}

/// The columns every track query selects.
pub open spec fn track_columns() -> Seq<char> {
    "SELECT t.id, t.source, t.title, t.artist, t.album, t.duration_secs, t.state FROM tracks t"@
}

/// The library view's one query: optional text search, optional tag filter.
/// Binds, in order: the expression when there is one, each tag id, and the
/// tag count when every tag is required.
pub open spec fn library_sql(has_expression: bool, tags: nat, mode: TagMode) -> Seq<char> {
    track_columns() + (if has_expression {
        " JOIN tracks_fts ON tracks_fts.rowid = t.id"@
    } else {
        Seq::empty()
    }) + (if tags > 0 {
        " JOIN track_tags tt ON tt.track_id = t.id"@
    } else {
        Seq::empty()
    }) + (if has_expression {
        " WHERE tracks_fts MATCH ?"@
    } else {
        Seq::empty()
    }) + (if tags > 0 {
        (if has_expression {
            " AND "@
        } else {
            " WHERE "@
        }) + "tt.tag_id IN ("@ + placeholders(tags) + ")"@ + " GROUP BY t.id"@ + (if mode
            == TagMode::All {
            " HAVING COUNT(DISTINCT tt.tag_id) = ?"@
        } else {
            Seq::empty()
        })
    } else {
        Seq::empty()
    }) + (if has_expression {
        " ORDER BY bm25(tracks_fts, 10.0, 5.0, 2.0)"@
    } else {
        " ORDER BY t.artist, t.album, t.title"@
    }) + " LIMIT 500"@
}

/// Requiring every selected tag keeps a grouped track only when the number
/// of distinct selected tags it carries equals the number selected, the last
/// value bound; requiring any of them keeps every track carrying one. The two
/// statements are otherwise the same, so the two modes differ exactly on a
/// track that carries some of the tags but not all.
pub proof fn lemma_every_tag_means_all_of_them(has_expression: bool, tags: nat) -> (parts: (
    Seq<char>,
    Seq<char>,
    Seq<char>,
))
    requires
        tags > 0,
    ensures
        library_sql(has_expression, tags, TagMode::Any) == parts.0 + " GROUP BY t.id"@ + parts.2,
        library_sql(has_expression, tags, TagMode::All) == parts.0
            + " GROUP BY t.id HAVING COUNT(DISTINCT tt.tag_id) "@ + parts.1 + " ?"@ + parts.2,
        forall|carried: int, selected: int| #[trigger] sql_compares(parts.1, carried, selected) <==> carried
            == selected,
        parameter_count(parts.2) == 0,
{
    let head = track_columns() + (if has_expression {
        " JOIN tracks_fts ON tracks_fts.rowid = t.id"@
    } else {
        Seq::empty()
    }) + " JOIN track_tags tt ON tt.track_id = t.id"@ + (if has_expression {
        " WHERE tracks_fts MATCH ?"@
    } else {
        Seq::empty()
    }) + (if has_expression {
        " AND "@
    } else {
        " WHERE "@
    }) + "tt.tag_id IN ("@ + placeholders(tags) + ")"@;
    let tail = (if has_expression {
        " ORDER BY bm25(tracks_fts, 10.0, 5.0, 2.0)"@
    } else {
        " ORDER BY t.artist, t.album, t.title"@
    }) + " LIMIT 500"@;
    let op = seq!['='];
    reveal_strlit(" HAVING COUNT(DISTINCT tt.tag_id) = ?");
    reveal_strlit(" GROUP BY t.id HAVING COUNT(DISTINCT tt.tag_id) ");
    reveal_strlit(" GROUP BY t.id");
    reveal_strlit(" ?");
    assert(" GROUP BY t.id"@ + " HAVING COUNT(DISTINCT tt.tag_id) = ?"@ =~= " GROUP BY t.id HAVING COUNT(DISTINCT tt.tag_id) "@
        + op + " ?"@);
    assert(library_sql(has_expression, tags, TagMode::Any) =~= head + " GROUP BY t.id"@ + tail);
    assert(library_sql(has_expression, tags, TagMode::All) =~= head
        + " GROUP BY t.id HAVING COUNT(DISTINCT tt.tag_id) "@ + op + " ?"@ + tail);
    reveal_strlit(" ORDER BY bm25(tracks_fts, 10.0, 5.0, 2.0)");
    reveal_strlit(" ORDER BY t.artist, t.album, t.title");
    reveal_strlit(" LIMIT 500");
    assert(forall|j: int| 0 <= j < tail.len() ==> tail[j] != '?');
    lemma_no_parameters(tail);
    (head, op, tail)
}

/// A library query ready to run: its text and the expression to bind first.
pub struct LibraryQuery {
    pub sql: String,
    pub expression: Option<String>,
}

/// Builds the library query, or `None` when the user typed something that
/// was all punctuation: that matches nothing, rather than everything.
pub fn library_query(search: Option<&str>, tags: usize, mode: TagMode) -> (r: Option<LibraryQuery>)
    ensures
        match r {
            None => search matches Some(s) && trim(s@).len() > 0 && fts_expression(s@) is None,
            Some(q) => {
                &&& match search {
                    Some(s) => !(trim(s@).len() > 0 && fts_expression(s@) is None)
                        && string_opt_view(q.expression) == fts_expression(s@),
                    None => q.expression is None,
                }
                &&& q.sql@ == library_sql(q.expression is Some, tags as nat, mode)
            },
        },
{
    let expression = match search {
        Some(s) => to_fts_expression(s),
        None => None,
    };
    match search {
        Some(s) => {
            if trim_chars(chars_of(s).as_slice()).len() > 0 && expression.is_none() {
                return None;
            }
        },
        None => {},
    }
    let has_expression = expression.is_some();
    let mut out = chars_of(
        "SELECT t.id, t.source, t.title, t.artist, t.album, t.duration_secs, t.state FROM tracks t",
    );
    let ghost start = out@;
    if has_expression {
        append_chars(&mut out, chars_of(" JOIN tracks_fts ON tracks_fts.rowid = t.id").as_slice());
    }
    if tags > 0 {
        append_chars(&mut out, chars_of(" JOIN track_tags tt ON tt.track_id = t.id").as_slice());
    }
    if has_expression {
        append_chars(&mut out, chars_of(" WHERE tracks_fts MATCH ?").as_slice());
    }
    let ghost before_tags = out@;
    if tags > 0 {
        if has_expression {
            append_chars(&mut out, chars_of(" AND ").as_slice());
        } else {
            append_chars(&mut out, chars_of(" WHERE ").as_slice());
        }
        append_chars(&mut out, chars_of("tt.tag_id IN (").as_slice());
        push_placeholders(&mut out, tags);
        append_chars(&mut out, chars_of(")").as_slice());
        append_chars(&mut out, chars_of(" GROUP BY t.id").as_slice());
        if mode == TagMode::All {
            append_chars(&mut out, chars_of(" HAVING COUNT(DISTINCT tt.tag_id) = ?").as_slice());
        }
    }
    if has_expression {
        append_chars(&mut out, chars_of(" ORDER BY bm25(tracks_fts, 10.0, 5.0, 2.0)").as_slice());
    } else {
        append_chars(&mut out, chars_of(" ORDER BY t.artist, t.album, t.title").as_slice());
    }
    append_chars(&mut out, chars_of(" LIMIT 500").as_slice());
    proof {
        assert(out@ =~= library_sql(has_expression, tags as nat, mode));
    }
    Some(LibraryQuery { sql: string_of(out.as_slice()), expression })
}

} // verus!
