//! Playlists: hand-made lists, imported lists, and artist collections that
//! fill themselves from a name.
//!
//! The rows live in SQLite; the rules for what a name, a rule key, a moved
//! position and an ordering mean are decided here.

use vstd::prelude::*;

use crate::providers::{accepts_url_spec, Provider};
use crate::soundcloud::Collection;
use crate::text::{
    append_chars, chars_equal, chars_of, contains_chars, contains_seq, decimal, decimal_chars,
    lowercase, lowercase_chars, string_of, trim, trim_chars,
};
use crate::search::{fts_expression, to_fts_expression, TagMode};
use crate::tracks::{placeholders, push_placeholders, string_opt_view, Track};
use crate::playable::display_name_spec;

verus! {

/// One name that counts as a playlist's artist.
#[derive(Debug, Clone)]
pub struct ArtistRule {
    /// Matched against. Trimmed and lowercased.
    pub artist_key: String,
    /// What the user picked, for the chip.
    pub label: String,
    /// The artist's own picture, once found.
    pub avatar_url: Option<String>,
}

#[derive(Debug, Clone)]
pub struct Playlist {
    pub id: i64,
    pub name: String,
    /// Names a file in the cover store. `None` means generated artwork.
    pub cover_key: Option<String>,
    pub created_at: i64,
    pub track_count: i64,
    /// The provider an imported playlist came from; `None` for one made by
    /// hand.
    pub source: Option<String>,
    /// The provider page it was built from.
    pub source_url: Option<String>,
    /// The artist names this playlist fills itself from. Non-empty is what
    /// makes it an artist collection.
    pub artist_rules: Vec<ArtistRule>,
}

/// An artist present in the library, for the picker and the browse list.
#[derive(Debug, Clone)]
pub struct LibraryArtist {
    pub artist_key: String,
    pub name: String,
    pub track_count: i64,
    /// Which provider their tracks came from; `None` for local files only.
    pub source: Option<String>,
}

/// A playlist together with its tracks, in order.
#[derive(Debug, Clone)]
pub struct PlaylistDetail {
    pub playlist: Playlist,
    pub tracks: Vec<Track>,
}

/// What adding tracks did. Adding is idempotent, so "nothing happened" is a
/// normal outcome.
#[derive(Debug, Clone, Copy, PartialEq, Eq, Structural)]
pub struct AddOutcome {
    pub added: usize,
    /// Already present, so left alone.
    pub skipped: usize,
}

/// Which way an ordering runs.
#[derive(Debug, Clone, Copy, PartialEq, Eq, Structural)]
pub enum Direction {
    Asc,
    Desc,
}

/// How the playlist grid is ordered.
#[derive(Debug, Clone, Copy, PartialEq, Eq, Structural)]
pub enum PlaylistSort {
    /// Which list was put on last. The default.
    LastPlayed,
    MostPlayed,
    Name,
    DateCreated,
}

impl Default for PlaylistSort {
    fn default() -> (sort: Self)
        ensures
            sort == PlaylistSort::LastPlayed,
    {
        PlaylistSort::LastPlayed
    }
}

pub open spec fn order_by_spec(sort: PlaylistSort, direction: Direction) -> Seq<char> {
    let desc = direction == Direction::Desc;
    match sort {
        PlaylistSort::LastPlayed => if desc {
            " ORDER BY p.last_played IS NULL, p.last_played DESC, p.created_at DESC, p.id DESC"@
        } else {
            " ORDER BY p.last_played IS NULL, p.last_played ASC, p.created_at ASC, p.id"@
        },
        PlaylistSort::MostPlayed => if desc {
            " ORDER BY p.play_count DESC, p.created_at DESC, p.id DESC"@
        } else {
            " ORDER BY p.play_count ASC, p.created_at ASC, p.id"@
        },
        PlaylistSort::Name => if desc {
            " ORDER BY p.name COLLATE NOCASE DESC, p.id"@
        } else {
            " ORDER BY p.name COLLATE NOCASE ASC, p.id"@
        },
        PlaylistSort::DateCreated => if desc {
            " ORDER BY p.created_at DESC, p.id DESC"@
        } else {
            " ORDER BY p.created_at ASC, p.id"@
        },
    }
}

/// What an ordering keyword asks for: `Some(true)` for descending,
/// `Some(false)` for ascending, `None` for anything else.
pub open spec fn sql_descending(word: Seq<char>) -> Option<bool> {
    if word == seq!['D', 'E', 'S', 'C'] {
        Some(true)
    } else if word == seq!['A', 'S', 'C'] {
        Some(false)
    } else {
        None
    }
}

/// The column each sort puts playlists in order of.
pub open spec fn sort_column(sort: PlaylistSort) -> Seq<char> {
    match sort {
        PlaylistSort::LastPlayed => "p.last_played"@,
        PlaylistSort::MostPlayed => "p.play_count"@,
        PlaylistSort::Name => "p.name COLLATE NOCASE"@,
        PlaylistSort::DateCreated => "p.created_at"@,
    }
}

/// A sort goes the way it is asked: the clause orders by the sort's own
/// column in the direction asked for (most played first under `Desc`, least
/// played first under `Asc`), with only "never played" put last ahead of it
/// for the last-played sort, and what follows is tie-breakers.
pub proof fn lemma_the_sort_goes_the_way_asked(sort: PlaylistSort, direction: Direction) -> (parts: (
    Seq<char>,
    Seq<char>,
    Seq<char>,
))
    ensures
        order_by_spec(sort, direction) == " ORDER BY "@ + parts.0 + sort_column(sort) + " "@ + parts.1
            + parts.2,
        sql_descending(parts.1) == Some(direction == Direction::Desc),
        parts.0 == (if sort == PlaylistSort::LastPlayed {
            "p.last_played IS NULL, "@
        } else {
            Seq::empty()
        }),
        parts.2.len() > 0 ==> parts.2[0] == ',',
{
    let desc = direction == Direction::Desc;
    let word: Seq<char> = if desc {
        seq!['D', 'E', 'S', 'C']
    } else {
        seq!['A', 'S', 'C']
    };
    reveal_strlit(" ORDER BY ");
    reveal_strlit(" ");
    reveal_strlit("p.last_played IS NULL, ");
    reveal_strlit("p.last_played");
    reveal_strlit("p.play_count");
    reveal_strlit("p.name COLLATE NOCASE");
    reveal_strlit("p.created_at");
    reveal_strlit(", p.created_at DESC, p.id DESC");
    reveal_strlit(", p.created_at ASC, p.id");
    reveal_strlit(", p.id");
    reveal_strlit(", p.id DESC");
    let lead = if sort == PlaylistSort::LastPlayed {
        "p.last_played IS NULL, "@
    } else {
        Seq::empty()
    };
    let rest = match sort {
        PlaylistSort::LastPlayed | PlaylistSort::MostPlayed => if desc {
            ", p.created_at DESC, p.id DESC"@
        } else {
            ", p.created_at ASC, p.id"@
        },
        PlaylistSort::Name => ", p.id"@,
        PlaylistSort::DateCreated => if desc {
            ", p.id DESC"@
        } else {
            ", p.id"@
        },
    };
    match sort {
        PlaylistSort::LastPlayed => {
            reveal_strlit(" ORDER BY p.last_played IS NULL, p.last_played DESC, p.created_at DESC, p.id DESC");
            reveal_strlit(" ORDER BY p.last_played IS NULL, p.last_played ASC, p.created_at ASC, p.id");
        },
        PlaylistSort::MostPlayed => {
            reveal_strlit(" ORDER BY p.play_count DESC, p.created_at DESC, p.id DESC");
            reveal_strlit(" ORDER BY p.play_count ASC, p.created_at ASC, p.id");
        },
        PlaylistSort::Name => {
            reveal_strlit(" ORDER BY p.name COLLATE NOCASE DESC, p.id");
            reveal_strlit(" ORDER BY p.name COLLATE NOCASE ASC, p.id");
        },
        PlaylistSort::DateCreated => {
            reveal_strlit(" ORDER BY p.created_at DESC, p.id DESC");
            reveal_strlit(" ORDER BY p.created_at ASC, p.id");
        },
    }
    assert(order_by_spec(sort, direction) =~= " ORDER BY "@ + lead + sort_column(sort) + " "@ + word + rest);
    (lead, word, rest)
}

impl PlaylistSort {
    /// The ordering clause. Unknowns sort last in both directions, and
    /// `created_at` then the id break ties.
    pub fn order_by(self, direction: Direction) -> (clause: &'static str)
        ensures
            clause@ == order_by_spec(self, direction),
    {
        let desc = direction == Direction::Desc;
        match self {
            PlaylistSort::LastPlayed => if desc {
                " ORDER BY p.last_played IS NULL, p.last_played DESC, p.created_at DESC, p.id DESC"
            } else {
                " ORDER BY p.last_played IS NULL, p.last_played ASC, p.created_at ASC, p.id"
            },
            PlaylistSort::MostPlayed => if desc {
                " ORDER BY p.play_count DESC, p.created_at DESC, p.id DESC"
            } else {
                " ORDER BY p.play_count ASC, p.created_at ASC, p.id"
            },
            PlaylistSort::Name => if desc {
                " ORDER BY p.name COLLATE NOCASE DESC, p.id"
            } else {
                " ORDER BY p.name COLLATE NOCASE ASC, p.id"
            },
            PlaylistSort::DateCreated => if desc {
                " ORDER BY p.created_at DESC, p.id DESC"
            } else {
                " ORDER BY p.created_at ASC, p.id"
            },
        }
    }
}

/// The key an artist name is matched by: trimmed and lowercased, so one
/// name in two casings is one artist.
pub open spec fn artist_key(name: Seq<char>) -> Seq<char> {
    lowercase(trim(name))
}

pub fn artist_key_of(name: &str) -> (key: String)
    ensures
        key@ == artist_key(name@),
{
    let trimmed = trim_chars(chars_of(name).as_slice());
    let lowered = lowercase_chars(trimmed.as_slice());
    string_of(lowered.as_slice())
}

/// Two names that differ only in the space around them are one artist.
pub proof fn lemma_surrounding_space_is_not_a_different_artist(a: Seq<char>, b: Seq<char>)
    requires
        trim(a) == trim(b),
    ensures
        artist_key(a) == artist_key(b),
{
}

/// A playlist's name: trimmed, and refused when nothing is left.
pub open spec fn cleaned_name(name: Seq<char>) -> Result<Seq<char>, Seq<char>> {
    if trim(name).len() == 0 {
        Err("A playlist needs a name."@)
    } else {
        Ok(trim(name))
    }
}

pub open spec fn result_view(r: Result<String, String>) -> Result<Seq<char>, Seq<char>> {
    match r {
        Ok(s) => Ok(s@),
        Err(e) => Err(e@),
    }
}

pub fn clean_name(name: &str) -> (cleaned: Result<String, String>)
    ensures
        result_view(cleaned) == cleaned_name(name@),
{
    let trimmed = trim_chars(chars_of(name).as_slice());
    if trimmed.len() == 0 {
        return Err("A playlist needs a name.".to_owned());
    }
    Ok(string_of(trimmed.as_slice()))
}

/// What an import is checked against before anything is written: a name,
/// and a link that belongs to the provider it claims.
pub open spec fn import_checked(name: Seq<char>, source: Provider, source_url: Seq<char>) -> Result<
    Seq<char>,
    Seq<char>,
> {
    match cleaned_name(name) {
        Err(e) => Err(e),
        Ok(n) => if accepts_url_spec(source, source_url) {
            Ok(n)
        } else {
            Err("That does not look like a "@ + display_name_spec(source) + " link."@)
        },
    }
}

/// The name an imported playlist is created under, or why it is refused.
pub fn check_import(name: &str, source: Provider, source_url: &str) -> (checked: Result<String, String>)
    ensures
        result_view(checked) == import_checked(name@, source, source_url@),
{
    let name = clean_name(name)?;
    if !source.accepts_url(source_url) {
        let mut out = chars_of("That does not look like a ");
        append_chars(&mut out, chars_of(source.display_name()).as_slice());
        append_chars(&mut out, chars_of(" link.").as_slice());
        return Err(string_of(out.as_slice()));
    }
    Ok(name)
}

/// The key a new artist rule matches on, or why the label cannot be one.
pub open spec fn rule_key_of(label: Seq<char>) -> Result<Seq<char>, Seq<char>> {
    if artist_key(label).len() == 0 {
        Err("That is not a name this can match on."@)
    } else {
        Ok(artist_key(label))
    }
}

pub fn rule_key(label: &str) -> (key: Result<String, String>)
    ensures
        result_view(key) == rule_key_of(label@),
{
    let key = artist_key_of(label);
    if chars_of(key.as_str()).len() == 0 {
        return Err("That is not a name this can match on.".to_owned());
    }
    Ok(key)
}

/// Where a dragged track lands: inside the playlist, whatever was asked.
pub fn clamp_position(new_position: i64, count: i64) -> (position: i64)
    ensures
        position as int == (if new_position < 0 {
            0int
        } else if count <= 0 {
            0int
        } else if new_position > count - 1 {
            count - 1
        } else {
            new_position as int
        }),
        0 <= position,
        count > 0 ==> position < count,
{
    let last = if count <= 0 {
        0
    } else {
        count - 1
    };
    if new_position < 0 {
        0
    } else if new_position > last {
        last
    } else {
        new_position
    }
}

/// What a failed insert is reported as: a foreign-key violation means the
/// track is gone; anything else is passed on as it came.
pub open spec fn track_error_text(text: Seq<char>, track_id: i64) -> Seq<char> {
    if contains_seq(text, "FOREIGN KEY"@) {
        "Track "@ + signed_decimal(track_id as int) + " no longer exists."@
    } else {
        text
    }
}

/// An integer written out in decimal, with a sign when negative.
pub open spec fn signed_decimal(n: int) -> Seq<char> {
    if n < 0 {
        "-"@ + decimal((-n) as nat)
    } else {
        decimal(n as nat)
    }
}

/// The characters of `n` in decimal, with a sign when negative.
pub fn decimal_of(n: i64) -> (r: Vec<char>)
    ensures
        r@ == signed_decimal(n as int),
{
    if n < 0 {
        let magnitude: u64 = if n == i64::MIN {
            9223372036854775808u64
        } else {
            (-n) as u64
        };
        let mut out = chars_of("-");
        append_chars(&mut out, decimal_chars(magnitude).as_slice());
        out
    } else {
        decimal_chars(n as u64)
    }
}

pub fn describe_track_error(text: &str, track_id: i64) -> (message: String)
    ensures
        message@ == track_error_text(text@, track_id),
{
    let chars = chars_of(text);
    let marker = chars_of("FOREIGN KEY");
    if contains_chars(chars.as_slice(), marker.as_slice()) {
        let mut out = chars_of("Track ");
        append_chars(&mut out, decimal_of(track_id).as_slice());
        append_chars(&mut out, chars_of(" no longer exists.").as_slice());
        string_of(out.as_slice())
    } else {
        text.to_owned()
    }
}

/// The picture for an artist rule: the first collection whose title is the
/// name asked for and which has one. A near miss would put a stranger's face
/// on the playlist.
pub open spec fn avatar_among(collections: Seq<Collection>, key: Seq<char>) -> Option<Seq<char>>
    decreases collections.len(),
{
    if collections.len() == 0 {
        None
    } else {
        let first = collections[0];
        if artist_key(first.title@) == key && first.thumbnail_url is Some {
            Some(first.thumbnail_url.unwrap()@)
        } else {
            avatar_among(collections.drop_first(), key)
        }
    }
}

pub fn pick_avatar(collections: &Vec<Collection>, artist_key: &str) -> (avatar: Option<String>)
    ensures
        match avatar {
            Some(a) => avatar_among(collections@, artist_key@) == Some(a@),
            None => avatar_among(collections@, artist_key@) is None,
        },
{
    let key = chars_of(artist_key);
    let mut i: usize = 0;
    proof {
        assert(collections@.skip(0) =~= collections@);
    }
    while i < collections.len()
        invariant
            i <= collections@.len(),
            key@ == artist_key@,
            avatar_among(collections@, artist_key@) == avatar_among(collections@.skip(i as int), artist_key@),
        decreases collections.len() - i,
    {
        let collection = &collections[i];
        let title_key = artist_key_of(collection.title.as_str());
        let same = chars_equal(chars_of(title_key.as_str()).as_slice(), key.as_slice());
        proof {
            let rest = collections@.skip(i as int);
            assert(rest[0] == collections@[i as int]);
            assert(rest.drop_first() =~= collections@.skip(i + 1));
        }
        if same {
            if let Some(url) = &collection.thumbnail_url {
                return Some(url.clone());
            }
        }
        i = i + 1;
    }
    None
}

// --- a playlist's tracks -----------------------------------------------------

/// How a track's artist is identified for matching: the provider's own name
/// for the channel first, because the display artist is the copy a user may
/// rename.
pub open spec fn artist_key_sql() -> Seq<char> {
    "lower(trim(COALESCE(NULLIF(trim(t.remote_uploader), ''), t.artist)))"@
}

/// The playlist's own order: hand-placed tracks in the order given, then
/// everything a rule brought in, oldest first.
pub open spec fn custom_order_sql() -> Seq<char> {
    " ORDER BY (pt.position IS NULL), pt.position, pt.added_at, t.date_added, t.id"@
}

/// Where a playlist's rows come from: every track, with its row in this
/// playlist if it has one.
pub open spec fn source_sql() -> Seq<char> {
    "SELECT t.id, t.source, t.title, t.artist, t.album, t.duration_secs, t.state, t.cover_key, t.in_library, t.remote_thumbnail_url FROM tracks t LEFT JOIN playlist_tracks pt ON pt.track_id = t.id AND pt.playlist_id = ?"@
}

/// The tables a filter needs joined in: the search index, the tags.
pub open spec fn filter_joins_sql(has_expression: bool, tags: nat) -> Seq<char> {
    (if has_expression {
        " JOIN tracks_fts ON tracks_fts.rowid = t.id"@
    } else {
        Seq::empty()
    }) + (if tags > 0 {
        " JOIN track_tags tt ON tt.track_id = t.id"@
    } else {
        Seq::empty()
    })
}

/// Who belongs: added by hand (an ordering row written for a rule match does
/// not count), or in the library with an artist a rule names; and never a
/// track the user removed.
pub open spec fn membership_sql() -> Seq<char> {
    " WHERE ((pt.track_id IS NOT NULL AND pt.by_rule = 0) OR (t.in_library = 1 AND "@
        + artist_key_sql()
        + " IN (SELECT artist_key FROM playlist_artist_rules WHERE playlist_id = ?)))"@
        + " AND t.id NOT IN (SELECT track_id FROM playlist_excluded_tracks WHERE playlist_id = ?)"@
}

/// What a filter adds to the membership test: a match on the search
/// expression, and one of the tags (or, for all of them, every one).
pub open spec fn filter_conditions_sql(has_expression: bool, tags: nat, mode: TagMode) -> Seq<char> {
    (if has_expression {
        " AND tracks_fts MATCH ?"@
    } else {
        Seq::empty()
    }) + (if tags > 0 {
        " AND tt.tag_id IN ("@ + placeholders(tags) + ")"@ + " GROUP BY t.id"@ + (if mode
            == TagMode::All {
            " HAVING COUNT(DISTINCT tt.tag_id) = ?"@
        } else {
            Seq::empty()
        })
    } else {
        Seq::empty()
    })
}

/// The ordering: a view's clause when one is given, else the playlist's own.
pub open spec fn order_sql(order: Option<Seq<char>>) -> Seq<char> {
    match order {
        Some(clause) => clause,
        None => custom_order_sql(),
    }
}

/// The statement that lists a playlist's tracks.
///
/// Membership is resolved here rather than stored: a track belongs when it
/// was added by hand (an ordering row written for a rule match does not
/// count), or when it is in the library and a rule names its artist; and
/// never when the user removed it. The filter narrows but never reorders.
///
/// Binds, in order: the playlist id three times, the search expression when
/// there is one, each tag id, and the tag count when every tag is required.
pub open spec fn playlist_sql(has_expression: bool, tags: nat, mode: TagMode, order: Option<Seq<char>>) -> Seq<char> {
    source_sql() + filter_joins_sql(has_expression, tags) + membership_sql() + filter_conditions_sql(
        has_expression,
        tags,
        mode,
    ) + order_sql(order)
}

/// A filter narrows and never reorders: the filtered statement is the
/// unfiltered one with the filter's tables joined after the same source and
/// its conditions added, each with `AND`, after the same membership test,
/// ending in the same ordering clause.
pub proof fn lemma_a_filter_only_narrows(has_expression: bool, tags: nat, mode: TagMode, order: Option<Seq<char>>)
    ensures
        playlist_sql(false, 0, mode, order) == source_sql() + membership_sql() + order_sql(order),
        playlist_sql(has_expression, tags, mode, order) == source_sql() + filter_joins_sql(
            has_expression,
            tags,
        ) + membership_sql() + filter_conditions_sql(has_expression, tags, mode) + order_sql(order),
        filter_conditions_sql(has_expression, tags, mode).len() > 0 ==> filter_conditions_sql(
            has_expression,
            tags,
            mode,
        ).take(5) == " AND "@,
        filter_joins_sql(has_expression, tags).len() > 0 ==> filter_joins_sql(has_expression, tags).take(6)
            == " JOIN "@,
{
    reveal_strlit(" AND ");
    reveal_strlit(" JOIN ");
    reveal_strlit(" AND tracks_fts MATCH ?");
    reveal_strlit(" AND tt.tag_id IN (");
    reveal_strlit(" JOIN tracks_fts ON tracks_fts.rowid = t.id");
    reveal_strlit(" JOIN track_tags tt ON tt.track_id = t.id");
    let e = Seq::<char>::empty();
    assert(filter_joins_sql(false, 0) =~= e);
    assert(filter_conditions_sql(false, 0, mode) =~= e);
    assert(playlist_sql(false, 0, mode, order) =~= source_sql() + membership_sql() + order_sql(order));
    let c = filter_conditions_sql(has_expression, tags, mode);
    if c.len() > 0 {
        if has_expression {
            assert(c.take(5) =~= " AND tracks_fts MATCH ?"@.take(5));
        } else {
            assert(c.take(5) =~= " AND tt.tag_id IN ("@.take(5));
        }
    }
    let j = filter_joins_sql(has_expression, tags);
    if j.len() > 0 {
        if has_expression {
            assert(j.take(6) =~= " JOIN tracks_fts ON tracks_fts.rowid = t.id"@.take(6));
        } else {
            assert(j.take(6) =~= " JOIN track_tags tt ON tt.track_id = t.id"@.take(6));
        }
    }
}

/// A playlist query ready to run: its text and the expression to bind.
pub struct PlaylistQuery {
    pub sql: String,
    pub expression: Option<String>,
}

/// Builds the statement listing a playlist's tracks, or `None` when the user
/// typed something with nothing searchable in it: that matches nothing.
/// `order` replaces the playlist's own order with a view's ordering clause.
pub fn playlist_query(search: Option<&str>, tags: usize, mode: TagMode, order: Option<&str>) -> (r: Option<PlaylistQuery>)
    ensures
        match r {
            None => search matches Some(s) && trim(s@).len() > 0 && fts_expression(s@) is None,
            Some(q) => {
                &&& match search {
                    Some(s) => !(trim(s@).len() > 0 && fts_expression(s@) is None)
                        && string_opt_view(q.expression) == fts_expression(s@),
                    None => q.expression is None,
                }
                &&& q.sql@ == playlist_sql(
                    q.expression is Some,
                    tags as nat,
                    mode,
                    match order {
                        Some(o) => Some(o@),
                        None => None,
                    },
                )
            },
        },
{
    let expression = match search {
        Some(s) => to_fts_expression(s),
        None => None,
    };
    match search {
        Some(s) => {
            if trim_chars(chars_of(s).as_slice()).len() > 0 && expression.is_none() {
                return None;
            }
        },
        None => {},
    }
    let has_expression = expression.is_some();
    let mut out = chars_of(
        "SELECT t.id, t.source, t.title, t.artist, t.album, t.duration_secs, t.state, t.cover_key, t.in_library, t.remote_thumbnail_url FROM tracks t LEFT JOIN playlist_tracks pt ON pt.track_id = t.id AND pt.playlist_id = ?",
    );
    let ghost after_source = out@;
    if has_expression {
        append_chars(&mut out, chars_of(" JOIN tracks_fts ON tracks_fts.rowid = t.id").as_slice());
    }
    if tags > 0 {
        append_chars(&mut out, chars_of(" JOIN track_tags tt ON tt.track_id = t.id").as_slice());
    }
    proof {
        assert(out@ =~= after_source + filter_joins_sql(has_expression, tags as nat));
    }
    let ghost after_joins = out@;
    append_chars(
        &mut out,
        chars_of(" WHERE ((pt.track_id IS NOT NULL AND pt.by_rule = 0) OR (t.in_library = 1 AND ").as_slice(),
    );
    append_chars(
        &mut out,
        chars_of("lower(trim(COALESCE(NULLIF(trim(t.remote_uploader), ''), t.artist)))").as_slice(),
    );
    append_chars(
        &mut out,
        chars_of(" IN (SELECT artist_key FROM playlist_artist_rules WHERE playlist_id = ?)))").as_slice(),
    );
    append_chars(
        &mut out,
        chars_of(" AND t.id NOT IN (SELECT track_id FROM playlist_excluded_tracks WHERE playlist_id = ?)").as_slice(),
    );
    proof {
        assert(out@ =~= after_joins + membership_sql());
    }
    let ghost after_membership = out@;
    if has_expression {
        append_chars(&mut out, chars_of(" AND tracks_fts MATCH ?").as_slice());
    }
    if tags > 0 {
        append_chars(&mut out, chars_of(" AND tt.tag_id IN (").as_slice());
        push_placeholders(&mut out, tags);
        append_chars(&mut out, chars_of(")").as_slice());
        append_chars(&mut out, chars_of(" GROUP BY t.id").as_slice());
        if mode == TagMode::All {
            append_chars(&mut out, chars_of(" HAVING COUNT(DISTINCT tt.tag_id) = ?").as_slice());
        }
    }
    proof {
        assert(out@ =~= after_membership + filter_conditions_sql(has_expression, tags as nat, mode));
    }
    let ghost after_conditions = out@;
    match order {
        Some(clause) => append_chars(&mut out, chars_of(clause).as_slice()),
        None => append_chars(
            &mut out,
            chars_of(" ORDER BY (pt.position IS NULL), pt.position, pt.added_at, t.date_added, t.id").as_slice(),
        ),
    }
    proof {
        let o = match order {
            Some(o) => Some(o@),
            None => None,
        };
        assert(out@ =~= after_conditions + order_sql(o));
        assert(out@ =~= playlist_sql(has_expression, tags as nat, mode, o));
    }
    Some(PlaylistQuery { sql: string_of(out.as_slice()), expression })
}

} // verus!
