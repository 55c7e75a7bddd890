//! SoundCloud's own search API, for the two questions yt-dlp cannot answer:
//! finding playlists and users by name.
//!
//! The requests are I/O; what is asked, what an answer means, and which
//! parts of an answer are trusted are decided here. Every page URL taken
//! from an answer is checked against SoundCloud's hosts before anything
//! else sees it, because it goes on to be a subprocess argument.

use vstd::prelude::*;

use crate::providers::{accepts_url_spec, percent_bytes, percent_encode, Provider, SearchKind};
use crate::text::{
    append_chars, chars_equal, chars_of, decimal, decimal_chars, ends_with, ends_with_chars,
    find_chars, find_class, find_class_from, find_from, lemma_find_class_bounds,
    lemma_find_from_some, occurs_at, slice_range, string_of, strip_end, strip_end_chars,
    CharClass,
};

verus! {

/// A playlist or a user, as the rest of the app shows it.
pub struct Collection {
    pub provider: Provider,
    pub kind: SearchKind,
    /// The page, which expansion, playback and import all go through.
    pub url: String,
    pub title: String,
    /// Whose playlist this is; `None` for an artist, who would otherwise read
    /// as "by" themselves.
    pub uploader: Option<String>,
    pub item_count: Option<u64>,
    pub follower_count: Option<u64>,
    pub thumbnail_url: Option<String>,
}

/// One track found by a search or listed in a collection.
pub struct SearchResult {
    pub provider: Provider,
    pub remote_id: String,
    /// Empty when nothing playable is known yet.
    pub remote_url: String,
    pub title: String,
    pub channel: Option<String>,
    /// Milliseconds.
    pub duration_ms: Option<u64>,
    pub view_count: Option<u64>,
    pub thumbnail_url: Option<String>,
    pub channel_url: Option<String>,
    pub is_live: bool,
    pub uploaded_at: Option<i64>,
}

/// A user, as embedded in an answer.
pub struct EntryUser {
    pub username: Option<String>,
    pub avatar_url: Option<String>,
    /// Their page, so a track inside a playlist still links to its artist.
    pub permalink_url: Option<String>,
}

pub struct EntryTrack {
    pub artwork_url: Option<String>,
}

/// One playlist or user from a search.
pub struct Entry {
    pub permalink_url: Option<String>,
    /// A playlist's name.
    pub title: Option<String>,
    /// A user's name.
    pub username: Option<String>,
    pub track_count: Option<u64>,
    pub followers_count: Option<u64>,
    pub artwork_url: Option<String>,
    pub avatar_url: Option<String>,
    pub user: Option<EntryUser>,
    /// A playlist's contents, of which only the first is ever read.
    pub tracks: Vec<EntryTrack>,
}

/// A set or a user, as `/resolve` describes it.
pub struct Resolved {
    pub title: Option<String>,
    pub username: Option<String>,
    pub track_count: Option<u64>,
    pub followers_count: Option<u64>,
    pub artwork_url: Option<String>,
    pub avatar_url: Option<String>,
    pub user: Option<EntryUser>,
    /// A set's contents. Mostly stubs beyond the first few.
    pub tracks: Vec<TrackDetail>,
}

/// One track as the API describes it; everything but the id may be missing.
pub struct TrackDetail {
    pub id: u64,
    pub title: Option<String>,
    /// Milliseconds.
    pub duration: Option<u64>,
    pub permalink_url: Option<String>,
    pub artwork_url: Option<String>,
    pub user: Option<EntryUser>,
}

pub open spec fn sv(o: Option<String>) -> Option<Seq<char>> {
    match o {
        Some(s) => Some(s@),
        None => None,
    }
}

/// The first of two that is there.
pub open spec fn first_of(a: Option<Seq<char>>, b: Option<Seq<char>>) -> Option<Seq<char>> {
    match a {
        Some(x) => Some(x),
        None => b,
    }
}

pub open spec fn user_name(u: Option<EntryUser>) -> Option<Seq<char>> {
    match u {
        Some(user) => sv(user.username),
        None => None,
    }
}

pub open spec fn user_avatar(u: Option<EntryUser>) -> Option<Seq<char>> {
    match u {
        Some(user) => sv(user.avatar_url),
        None => None,
    }
}

pub open spec fn user_page(u: Option<EntryUser>) -> Option<Seq<char>> {
    match u {
        Some(user) => sv(user.permalink_url),
        None => None,
    }
}

/// A page URL, when it is one of SoundCloud's.
pub open spec fn soundcloud_page(url: Option<Seq<char>>) -> Option<Seq<char>> {
    match url {
        Some(u) => if accepts_url_spec(Provider::SoundCloud, u) {
            Some(u)
        } else {
            None
        },
        None => None,
    }
}

pub open spec fn collection_view(c: Collection) -> (
    Provider,
    SearchKind,
    Seq<char>,
    Seq<char>,
    Option<Seq<char>>,
    Option<u64>,
    Option<u64>,
    Option<Seq<char>>,
) {
    (
        c.provider,
        c.kind,
        c.url@,
        c.title@,
        sv(c.uploader),
        c.item_count,
        c.follower_count,
        sv(c.thumbnail_url),
    )
}

fn copy_opt(o: &Option<String>) -> (r: Option<String>)
    ensures
        sv(r) == sv(*o),
{
    match o {
        Some(s) => Some(s.clone()),
        None => None,
    }
}

fn or_else(a: Option<String>, b: Option<String>) -> (r: Option<String>)
    ensures
        sv(r) == first_of(sv(a), sv(b)),
{
    match a {
        Some(x) => Some(x),
        None => b,
    }
}

fn user_name_of(u: &Option<EntryUser>) -> (r: Option<String>)
    ensures
        sv(r) == user_name(*u),
{
    match u {
        Some(user) => copy_opt(&user.username),
        None => None,
    }
}

fn user_avatar_of(u: &Option<EntryUser>) -> (r: Option<String>)
    ensures
        sv(r) == user_avatar(*u),
{
    match u {
        Some(user) => copy_opt(&user.avatar_url),
        None => None,
    }
}

fn user_page_of(u: &Option<EntryUser>) -> (r: Option<String>)
    ensures
        sv(r) == user_page(*u),
{
    match u {
        Some(user) => copy_opt(&user.permalink_url),
        None => None,
    }
}

fn soundcloud_page_of(url: Option<String>) -> (r: Option<String>)
    ensures
        sv(r) == soundcloud_page(sv(url)),
{
    match url {
        Some(u) => if Provider::SoundCloud.accepts_url(u.as_str()) {
            Some(u)
        } else {
            None
        },
        None => None,
    }
}

pub open spec fn first_track_artwork(tracks: Seq<EntryTrack>) -> Option<Seq<char>> {
    if tracks.len() > 0 {
        sv(tracks[0].artwork_url)
    } else {
        None
    }
}

/// What a search entry becomes: dropped when its page is not SoundCloud's or
/// it has no name at all. A playlist with no cover borrows its first
/// track's, then the uploader's avatar; only a playlist names an uploader.
pub open spec fn entry_collection(e: Entry, kind: SearchKind) -> Option<
    (
        Provider,
        SearchKind,
        Seq<char>,
        Seq<char>,
        Option<Seq<char>>,
        Option<u64>,
        Option<u64>,
        Option<Seq<char>>,
    ),
> {
    match soundcloud_page(sv(e.permalink_url)) {
        None => None,
        Some(url) => match first_of(sv(e.title), sv(e.username)) {
            None => None,
            Some(title) => Some(
                (
                    Provider::SoundCloud,
                    kind,
                    url,
                    title,
                    if kind == SearchKind::Artist {
                        None
                    } else {
                        user_name(e.user)
                    },
                    e.track_count,
                    e.followers_count,
                    first_of(
                        first_of(first_of(sv(e.artwork_url), first_track_artwork(e.tracks@)), sv(e.avatar_url)),
                        user_avatar(e.user),
                    ),
                ),
            ),
        },
    }
}

impl Entry {
    pub fn into_collection(self, kind: SearchKind) -> (r: Option<Collection>)
        ensures
            match r {
                Some(c) => entry_collection(self, kind) == Some(collection_view(c)),
                None => entry_collection(self, kind) is None,
            },
    {
        let ghost me = self;
        let url = match soundcloud_page_of(self.permalink_url) {
            Some(u) => u,
            None => {
                return None;
            },
        };
        let uploader = user_name_of(&self.user);
        let title = match or_else(self.title, self.username) {
            Some(t) => t,
            None => {
                return None;
            },
        };
        let first_art = if self.tracks.len() > 0 {
            copy_opt(&self.tracks[0].artwork_url)
        } else {
            None
        };
        let avatar = user_avatar_of(&self.user);
        let thumbnail_url = or_else(or_else(or_else(self.artwork_url, first_art), self.avatar_url), avatar);
        Some(
            Collection {
                provider: Provider::SoundCloud,
                kind,
                url,
                title,
                uploader: if kind == SearchKind::Artist {
                    None
                } else {
                    uploader
                },
                item_count: self.track_count,
                follower_count: self.followers_count,
                thumbnail_url,
            },
        )
    }
}

/// What a resolved page says about itself: an artist is named by username
/// first and a set by title first; a nameless one is "(untitled)".
pub open spec fn resolved_collection(r: Resolved, kind: SearchKind, url: Seq<char>) -> (
    Provider,
    SearchKind,
    Seq<char>,
    Seq<char>,
    Option<Seq<char>>,
    Option<u64>,
    Option<u64>,
    Option<Seq<char>>,
) {
    (
        Provider::SoundCloud,
        kind,
        url,
        match (if kind == SearchKind::Artist {
            first_of(sv(r.username), sv(r.title))
        } else {
            first_of(sv(r.title), sv(r.username))
        }) {
            Some(t) => t,
            None => "(untitled)"@,
        },
        if kind == SearchKind::Artist {
            None
        } else {
            user_name(r.user)
        },
        r.track_count,
        r.followers_count,
        first_of(first_of(sv(r.artwork_url), sv(r.avatar_url)), user_avatar(r.user)),
    )
}

impl Resolved {
    pub fn into_collection(self, kind: SearchKind, url: &str) -> (c: Collection)
        ensures
            collection_view(c) == resolved_collection(self, kind, url@),
    {
        let uploader = user_name_of(&self.user);
        let avatar = user_avatar_of(&self.user);
        let named = if kind == SearchKind::Artist {
            or_else(self.username, self.title)
        } else {
            or_else(self.title, self.username)
        };
        let title = match named {
            Some(t) => t,
            None => string_of(chars_of("(untitled)").as_slice()),
        };
        Collection {
            provider: Provider::SoundCloud,
            kind,
            url: string_of(chars_of(url).as_slice()),
            title,
            uploader: if kind == SearchKind::Artist {
                None
            } else {
                uploader
            },
            item_count: self.track_count,
            follower_count: self.followers_count,
            thumbnail_url: or_else(or_else(self.artwork_url, self.avatar_url), avatar),
        }
    }
}

pub open spec fn result_view(r: SearchResult) -> (
    Provider,
    Seq<char>,
    Seq<char>,
    Seq<char>,
    Option<Seq<char>>,
    Option<u64>,
    Option<Seq<char>>,
    Option<Seq<char>>,
) {
    (
        r.provider,
        r.remote_id@,
        r.remote_url@,
        r.title@,
        sv(r.channel),
        r.duration_ms,
        sv(r.thumbnail_url),
        sv(r.channel_url),
    )
}

/// The row a listed track will be before the gaps are filled: a stub
/// becomes an id with an empty page and "(untitled)".
pub open spec fn detail_result(d: TrackDetail) -> (
    Provider,
    Seq<char>,
    Seq<char>,
    Seq<char>,
    Option<Seq<char>>,
    Option<u64>,
    Option<Seq<char>>,
    Option<Seq<char>>,
) {
    (
        Provider::SoundCloud,
        decimal(d.id as nat),
        match soundcloud_page(sv(d.permalink_url)) {
            Some(u) => u,
            None => Seq::empty(),
        },
        match sv(d.title) {
            Some(t) => t,
            None => "(untitled)"@,
        },
        user_name(d.user),
        d.duration,
        sv(d.artwork_url),
        user_page(d.user),
    )
}

impl TrackDetail {
    pub fn into_result(self) -> (r: SearchResult)
        ensures
            result_view(r) == detail_result(self),
            r.view_count is None,
            !r.is_live,
            r.uploaded_at is None,
    {
        let channel = user_name_of(&self.user);
        let channel_url = user_page_of(&self.user);
        let remote_url = match soundcloud_page_of(self.permalink_url) {
            Some(u) => u,
            None => String::new(),
        };
        let title = match self.title {
            Some(t) => t,
            None => string_of(chars_of("(untitled)").as_slice()),
        };
        SearchResult {
            provider: Provider::SoundCloud,
            remote_id: string_of(decimal_chars(self.id).as_slice()),
            remote_url,
            title,
            channel,
            duration_ms: self.duration,
            view_count: None,
            thumbnail_url: self.artwork_url,
            channel_url,
            is_live: false,
            uploaded_at: None,
        }
    }
}


// --- an artist's own page ------------------------------------------------------------

/// The tabs a user URL may already name.
pub open spec fn user_tabs() -> Seq<Seq<char>> {
    seq!["/tracks"@, "/albums"@, "/sets"@, "/reposts"@, "/likes"@, "/spotlight"@]
}

/// The page to expand for an artist's own songs: trailing slashes off, and
/// `/tracks` added unless the URL already names a tab. A bare user URL is the
/// **All** tab, which fills with everything they reposted.
pub open spec fn artist_tracks_url_spec(url: Seq<char>) -> Seq<char> {
    let trimmed = strip_end(url, CharClass::Exactly('/'));
    if exists|i: int| 0 <= i < user_tabs().len() && ends_with(trimmed, #[trigger] user_tabs()[i]) {
        trimmed
    } else {
        trimmed + "/tracks"@
    }
}

pub fn artist_tracks_url(url: &str) -> (s: String)
    ensures
        s@ == artist_tracks_url_spec(url@),
{
    let trimmed = strip_end_chars(chars_of(url).as_slice(), CharClass::Exactly('/'));
    let tabs: Vec<&str> = vec!["/tracks", "/albums", "/sets", "/reposts", "/likes", "/spotlight"];
    proof {
        assert(forall|i: int| 0 <= i < 6 ==> (#[trigger] tabs@[i])@ == user_tabs()[i]);
    }
    let mut i: usize = 0;
    while i < tabs.len()
        invariant
            tabs@.len() == 6,
            trimmed@ == strip_end(url@, CharClass::Exactly('/')),
            forall|k: int| 0 <= k < 6 ==> (#[trigger] tabs@[k])@ == user_tabs()[k],
            i <= 6,
            forall|k: int| 0 <= k < i ==> !ends_with(trimmed@, #[trigger] user_tabs()[k]),
        decreases tabs.len() - i,
    {
        if ends_with_chars(trimmed.as_slice(), chars_of(tabs[i]).as_slice()) {
            proof {
                assert(ends_with(trimmed@, user_tabs()[i as int]));
            }
            return string_of(trimmed.as_slice());
        }
        i = i + 1;
    }
    let mut out = trimmed;
    append_chars(&mut out, chars_of("/tracks").as_slice());
    string_of(out.as_slice())
}

// --- finding the search key -------------------------------------------------------

/// Where the web player's script bundles live.
pub open spec fn asset_prefix() -> Seq<char> {
    "https://a-v2.sndcdn.com/assets/"@
}

/// The asset prefix is not empty and starts with `h`, which the scans for it
/// rely on.
pub proof fn lemma_asset_prefix_starts_plain()
    ensures
        asset_prefix().len() > 0,
        asset_prefix()[0] == 'h',
{
    reveal_strlit("https://a-v2.sndcdn.com/assets/");
}

/// The script URLs on the asset host from position `i` of a page on: each
/// runs from the host's prefix to the quote that closes the attribute, and
/// only those ending in `.js` are kept.
pub open spec fn scripts_from(page: Seq<char>, i: int) -> Seq<Seq<char>>
    decreases page.len() - i,
{
    if i < 0 {
        Seq::empty()
    } else {
        match find_from(page, asset_prefix(), i) {
            None => Seq::empty(),
            Some(start) => {
                let end = find_class_from(page, CharClass::Either('"', '\''), start);
                if end >= page.len() {
                    Seq::empty()
                } else {
                    proof {
                        lemma_find_from_some(page, asset_prefix(), i);
                        lemma_asset_prefix_starts_plain();
                        assert(page.subrange(start, start + asset_prefix().len())[0] == page[start]);
                        lemma_find_class_bounds(page, CharClass::Either('"', '\''), start);
                    }
                    let url = page.subrange(start, end);
                    if ends_with(url, ".js"@) {
                        seq![url] + scripts_from(page, end)
                    } else {
                        scripts_from(page, end)
                    }
                }
            },
        }
    }
}

/// The script bundles a page loads from SoundCloud's asset host, in order.
pub fn script_urls(html: &str) -> (urls: Vec<String>)
    ensures
        urls@.map_values(|u: String| u@) == scripts_from(html@, 0),
{
    let page = chars_of(html);
    let prefix = chars_of("https://a-v2.sndcdn.com/assets/");
    let js = chars_of(".js");
    let mut found: Vec<String> = Vec::new();
    let mut i: usize = 0;
    let ghost target = scripts_from(html@, 0);
    proof {
        assert(found@.map_values(|u: String| u@) + scripts_from(html@, 0) =~= target);
    }
    loop
        invariant
            page@ == html@,
            target == scripts_from(html@, 0),
            prefix@ == asset_prefix(),
            js@ == ".js"@,
            i <= page@.len(),
            found@.map_values(|u: String| u@) + scripts_from(page@, i as int) == target,
        decreases page@.len() - i,
    {
        let start = match find_chars(page.as_slice(), prefix.as_slice(), i) {
            Some(s) => s,
            None => {
                proof {
                    assert(scripts_from(page@, i as int) =~= Seq::<Seq<char>>::empty());
                    assert(found@.map_values(|u: String| u@) =~= target);
                }
                return found;
            },
        };
        let end = find_class(page.as_slice(), CharClass::Either('"', '\''), start);
        if end >= page.len() {
            proof {
                lemma_find_from_some(page@, asset_prefix(), i as int);
                assert(find_from(page@, asset_prefix(), i as int) == Some(start as int));
                assert(scripts_from(page@, i as int) =~= Seq::<Seq<char>>::empty());
                assert(found@.map_values(|u: String| u@) =~= target);
            }
            return found;
        }
        proof {
            lemma_find_from_some(page@, asset_prefix(), i as int);
            lemma_asset_prefix_starts_plain();
            assert(page@.subrange(start as int, start + asset_prefix().len())[0] == page@[start as int]);
            lemma_find_class_bounds(page@, CharClass::Either('"', '\''), start as int);
        }
        let url = slice_range(page.as_slice(), start, end);
        let ghost before = found@.map_values(|u: String| u@);
        if ends_with_chars(url.as_slice(), js.as_slice()) {
            found.push(string_of(url.as_slice()));
            proof {
                assert(found@.map_values(|u: String| u@) =~= before.push(url@));
                assert(before + scripts_from(page@, i as int) == before + (seq![url@] + scripts_from(page@, end as int)));
                assert(before.push(url@) + scripts_from(page@, end as int) =~= before + (seq![url@]
                    + scripts_from(page@, end as int)));
            }
        }
        i = end;
    }
}

/// The run of ASCII alphanumerics starting at `j`.
pub open spec fn alnum_run(s: Seq<char>, j: int) -> Seq<char> {
    s.subrange(j, find_class_from(s, CharClass::NotAsciiAlnum, j))
}

/// The length of a search key.
pub const KEY_LENGTH: usize = 32;

/// A `client_id` in a script from position `i` on: the word, then `:` or
/// `=`, then a quote, then exactly [`KEY_LENGTH`] ASCII alphanumerics. A
/// shorter lookalike is passed over and the search goes on.
pub open spec fn client_id_from(script: Seq<char>, i: int) -> Option<Seq<char>>
    decreases script.len() - i,
{
    if i < 0 {
        None
    } else {
        match find_from(script, "client_id"@, i) {
            None => None,
            Some(start) => {
                proof {
                    lemma_find_from_some(script, "client_id"@, i);
                    reveal_strlit("client_id");
                }
                let after = start + 9;
                if after + 2 <= script.len() && (script[after] == ':' || script[after] == '=') && (
                script[after + 1] == '"' || script[after + 1] == '\'') && alnum_run(
                    script,
                    after + 2,
                ).len() == KEY_LENGTH {
                    Some(alnum_run(script, after + 2))
                } else {
                    client_id_from(script, after)
                }
            },
        }
    }
}

/// Pulls a `client_id` out of a script bundle, in either of the forms
/// minifiers produce.
pub fn client_id_in(script: &str) -> (r: Option<String>)
    ensures
        match r {
            Some(k) => client_id_from(script@, 0) == Some(k@),
            None => client_id_from(script@, 0) is None,
        },
{
    let text = chars_of(script);
    let key = chars_of("client_id");
    proof {
        reveal_strlit("client_id");
    }
    let mut i: usize = 0;
    loop
        invariant
            text@ == script@,
            key@ == "client_id"@,
            key@.len() == 9,
            i <= text@.len(),
            client_id_from(script@, 0) == client_id_from(script@, i as int),
        decreases text@.len() - i,
    {
        let start = match find_chars(text.as_slice(), key.as_slice(), i) {
            Some(s) => s,
            None => {
                return None;
            },
        };
        proof {
            lemma_find_from_some(text@, "client_id"@, i as int);
        }
        let n = text.len();
        assert(start + 9 <= n);
        let after = start + 9;
        if n >= 2 && after <= n - 2 && (text[after] == ':' || text[after] == '=') && (text[after + 1] == '"'
            || text[after + 1] == '\'') {
            let end = find_class(text.as_slice(), CharClass::NotAsciiAlnum, after + 2);
            if end - (after + 2) == KEY_LENGTH {
                return Some(string_of(slice_range(text.as_slice(), after + 2, end).as_slice()));
            }
        }
        i = after;
    }
}

// --- asking -----------------------------------------------------------------------

/// Why a request did not produce results.
pub enum Rejected {
    /// SoundCloud refused the key: the one failure worth retrying, after
    /// finding a fresh key.
    Stale,
    Other(String),
}

pub open spec fn rejected_message(r: Rejected) -> Seq<char> {
    match r {
        Rejected::Stale => "SoundCloud would not accept the app's search key. Try again in a moment."@,
        Rejected::Other(m) => m@,
    }
}

impl Rejected {
    pub fn into_message(self) -> (s: String)
        ensures
            s@ == rejected_message(self),
    {
        match self {
            Rejected::Stale => string_of(
                chars_of(
                    "SoundCloud would not accept the app's search key. Try again in a moment.",
                ).as_slice(),
            ),
            Rejected::Other(message) => message,
        }
    }
}

/// How an answer's status reads: 401 and 403 mean the key went stale;
/// anything else outside 2xx is a refusal.
#[derive(Debug, Clone, Copy, PartialEq, Eq, Structural)]
pub enum Answer {
    Fine,
    StaleKey,
    Refused,
}

pub fn classify_status(status: u16) -> (a: Answer)
    ensures
        a == (if status == 401 || status == 403 {
            Answer::StaleKey
        } else if 200 <= status < 300 {
            Answer::Fine
        } else {
            Answer::Refused
        }),
{
    if status == 401 || status == 403 {
        Answer::StaleKey
    } else if 200 <= status && status < 300 {
        Answer::Fine
    } else {
        Answer::Refused
    }
}

/// The search endpoint for a kind, or `None` for tracks, which go through
/// yt-dlp like every other provider's do.
pub fn endpoint_for(kind: SearchKind) -> (r: Option<&'static str>)
    ensures
        match r {
            Some(e) => (kind == SearchKind::Playlist && e@ == "playlists"@) || (kind
                == SearchKind::Artist && e@ == "users"@),
            None => kind == SearchKind::Track,
        },
{
    match kind {
        SearchKind::Playlist => Some("playlists"),
        SearchKind::Artist => Some("users"),
        SearchKind::Track => None,
    }
}

/// The search request: both the query and the key percent-encoded.
pub fn search_url(endpoint: &str, query: &str, client_id: &str, limit: u32) -> (s: String)
    ensures
        s@ == "https://api-v2.soundcloud.com/search/"@ + endpoint@ + "?q="@ + percent_encode_spec(query)
            + "&client_id="@ + percent_encode_spec(client_id) + "&limit="@ + decimal(limit as nat),
{
    let mut out = chars_of("https://api-v2.soundcloud.com/search/");
    append_chars(&mut out, chars_of(endpoint).as_slice());
    append_chars(&mut out, chars_of("?q=").as_slice());
    append_chars(&mut out, chars_of(percent_encode(query).as_str()).as_slice());
    append_chars(&mut out, chars_of("&client_id=").as_slice());
    append_chars(&mut out, chars_of(percent_encode(client_id).as_str()).as_slice());
    append_chars(&mut out, chars_of("&limit=").as_slice());
    append_chars(&mut out, decimal_chars(limit as u64).as_slice());
    string_of(out.as_slice())
}

pub open spec fn percent_encode_spec(s: &str) -> Seq<char> {
    percent_bytes(vstd::string::StringSliceAdditionalSpecFns::spec_bytes(s))
}

/// The `/resolve` request for a page.
pub fn resolve_url(url: &str, client_id: &str) -> (s: String)
    ensures
        s@ == "https://api-v2.soundcloud.com/resolve?url="@ + percent_encode_spec(url) + "&client_id="@
            + percent_encode_spec(client_id),
{
    let mut out = chars_of("https://api-v2.soundcloud.com/resolve?url=");
    append_chars(&mut out, chars_of(percent_encode(url).as_str()).as_slice());
    append_chars(&mut out, chars_of("&client_id=").as_slice());
    append_chars(&mut out, chars_of(percent_encode(client_id).as_str()).as_slice());
    string_of(out.as_slice())
}


// --- filling in a listing ---------------------------------------------------------

/// How many track ids one request for details carries.
pub const HYDRATE_BATCH: usize = 50;

/// The first detail, from the `k`th on, whose id written in decimal is `id`.
/// The API answers in its own order, so matching by id is the only way to put
/// a title on the right row.
pub open spec fn matching_detail(details: Seq<TrackDetail>, id: Seq<char>, k: int) -> Option<TrackDetail>
    decreases details.len() - k,
{
    if 0 <= k < details.len() {
        if decimal(details[k].id as nat) == id {
            Some(details[k])
        } else {
            matching_detail(details, id, k + 1)
        }
    } else {
        None
    }
}

/// A row with a detail's gaps filled: its title always, its channel, length
/// and channel page only where the row had none, its page only where the row
/// had none and the detail's is SoundCloud's, and its picture from the
/// detail or, failing that, the uploader's avatar.
pub open spec fn filled(
    t: (
        Provider,
        Seq<char>,
        Seq<char>,
        Seq<char>,
        Option<Seq<char>>,
        Option<u64>,
        Option<Seq<char>>,
        Option<Seq<char>>,
    ),
    d: TrackDetail,
) -> (
    Provider,
    Seq<char>,
    Seq<char>,
    Seq<char>,
    Option<Seq<char>>,
    Option<u64>,
    Option<Seq<char>>,
    Option<Seq<char>>,
) {
    (
        t.0,
        t.1,
        if t.2.len() == 0 {
            match soundcloud_page(sv(d.permalink_url)) {
                Some(u) => u,
                None => t.2,
            }
        } else {
            t.2
        },
        match sv(d.title) {
            Some(x) => x,
            None => t.3,
        },
        if t.4 is None {
            user_name(d.user)
        } else {
            t.4
        },
        if t.5 is None {
            d.duration
        } else {
            t.5
        },
        first_of(sv(d.artwork_url), user_avatar(d.user)),
        if t.7 is None {
            user_page(d.user)
        } else {
            t.7
        },
    )
}

fn fill_one(t: SearchResult, d: &TrackDetail) -> (r: SearchResult)
    ensures
        result_view(r) == filled(result_view(t), *d),
        r.view_count == t.view_count,
        r.is_live == t.is_live,
        r.uploaded_at == t.uploaded_at,
{
    let mut t = t;
    match &d.title {
        Some(title) => {
            t.title = title.clone();
        },
        None => {},
    }
    if t.channel.is_none() {
        t.channel = user_name_of(&d.user);
    }
    if t.duration_ms.is_none() {
        t.duration_ms = d.duration;
    }
    if t.remote_url.as_str().is_empty() {
        match soundcloud_page_of(copy_opt(&d.permalink_url)) {
            Some(url) => {
                t.remote_url = url;
            },
            None => {},
        }
    }
    if t.channel_url.is_none() {
        t.channel_url = user_page_of(&d.user);
    }
    t.thumbnail_url = or_else(copy_opt(&d.artwork_url), user_avatar_of(&d.user));
    t
}

fn find_detail(details: &Vec<TrackDetail>, id: &str) -> (r: Option<usize>)
    ensures
        match r {
            Some(k) => k < details@.len() && matching_detail(details@, id@, 0) == Some(details@[k as int]),
            None => matching_detail(details@, id@, 0) is None,
        },
{
    let wanted = chars_of(id);
    let mut k: usize = 0;
    while k < details.len()
        invariant
            wanted@ == id@,
            k <= details@.len(),
            matching_detail(details@, id@, 0) == matching_detail(details@, id@, k as int),
        decreases details.len() - k,
    {
        if chars_equal(decimal_chars(details[k].id).as_slice(), wanted.as_slice()) {
            return Some(k);
        }
        k = k + 1;
    }
    None
}

/// A row as it stands after one batch of details: filled from the detail
/// with its id, when there is one.
pub open spec fn after_details(t: SearchResult, details: Seq<TrackDetail>) -> (
    Provider,
    Seq<char>,
    Seq<char>,
    Seq<char>,
    Option<Seq<char>>,
    Option<u64>,
    Option<Seq<char>>,
    Option<Seq<char>>,
) {
    match matching_detail(details, t.remote_id@, 0) {
        Some(d) => filled(result_view(t), d),
        None => result_view(t),
    }
}

/// Fills in the rows from `from` up to `to` with the details one request
/// returned; the other rows are left as they were.
pub fn fill_batch(tracks: Vec<SearchResult>, from: usize, to: usize, details: &Vec<TrackDetail>) -> (r: Vec<
    SearchResult,
>)
    requires
        from <= to <= tracks@.len(),
    ensures
        r@.len() == tracks@.len(),
        forall|i: int|
            0 <= i < r@.len() ==> result_view(#[trigger] r@[i]) == (if from <= i < to {
                after_details(tracks@[i], details@)
            } else {
                result_view(tracks@[i])
            }) && r@[i].view_count == tracks@[i].view_count && r@[i].is_live == tracks@[i].is_live
                && r@[i].uploaded_at == tracks@[i].uploaded_at,
{
    let ghost all = tracks@;
    let mut out: Vec<SearchResult> = Vec::new();
    for t in it: tracks
        invariant
            it.seq() == all,
            from <= to <= all.len(),
            out@.len() == it.index(),
            forall|j: int|
                0 <= j < out@.len() ==> result_view(#[trigger] out@[j]) == (if from <= j < to {
                    after_details(all[j], details@)
                } else {
                    result_view(all[j])
                }) && out@[j].view_count == all[j].view_count && out@[j].is_live == all[j].is_live
                    && out@[j].uploaded_at == all[j].uploaded_at,
    {
        let ghost k = it.index();
        let inside = out.len() >= from && out.len() < to;
        if inside {
            match find_detail(details, t.remote_id.as_str()) {
                Some(d) => {
                    out.push(fill_one(t, &details[d]));
                },
                None => {
                    out.push(t);
                },
            }
        } else {
            out.push(t);
        }
    }
    out
}

/// The ids of the rows from `from` up to `to`, joined the way the details
/// request wants them: separated by an encoded comma.
pub fn ids_param(tracks: &Vec<SearchResult>, from: usize, to: usize) -> (s: String)
    requires
        from <= to <= tracks@.len(),
    ensures
        s@ == crate::text::join(
            tracks@.subrange(from as int, to as int).map_values(|t: SearchResult| t.remote_id@),
            "%2C"@,
        ),
{
    let mut pieces: Vec<Vec<char>> = Vec::new();
    let mut i: usize = from;
    while i < to
        invariant
            from <= i <= to <= tracks@.len(),
            crate::text::views(pieces@) =~= tracks@.subrange(from as int, i as int).map_values(
                |t: SearchResult| t.remote_id@,
            ),
        decreases to - i,
    {
        let ghost before = crate::text::views(pieces@);
        pieces.push(chars_of(tracks[i].remote_id.as_str()));
        proof {
            assert(crate::text::views(pieces@) =~= before.push(tracks@[i as int].remote_id@));
            assert(tracks@.subrange(from as int, i + 1) =~= tracks@.subrange(from as int, i as int).push(
                tracks@[i as int],
            ));
        }
        i = i + 1;
    }
    string_of(crate::text::join_chars(&pieces, chars_of("%2C").as_slice()).as_slice())
}

/// The details request for one batch of ids.
pub fn tracks_url(ids: &str, client_id: &str) -> (s: String)
    ensures
        s@ == "https://api-v2.soundcloud.com/tracks?ids="@ + ids@ + "&client_id="@
            + percent_encode_spec(client_id),
{
    let mut out = chars_of("https://api-v2.soundcloud.com/tracks?ids=");
    append_chars(&mut out, chars_of(ids).as_slice());
    append_chars(&mut out, chars_of("&client_id=").as_slice());
    append_chars(&mut out, chars_of(percent_encode(client_id).as_str()).as_slice());
    string_of(out.as_slice())
}

/// A set's first `limit` tracks as rows, or a refusal when there are none.
pub fn set_rows(tracks: Vec<TrackDetail>, limit: u32) -> (r: Result<Vec<SearchResult>, String>)
    ensures
        match r {
            Ok(rows) => rows@.len() > 0 && rows@.len() == if tracks@.len() < limit {
                tracks@.len()
            } else {
                limit as nat
            } && forall|i: int|
                0 <= i < rows@.len() ==> result_view(#[trigger] rows@[i]) == detail_result(tracks@[i]),
            Err(m) => (tracks@.len() == 0 || limit == 0) && m@ == "There is nothing in that playlist."@,
        },
{
    let ghost all = tracks@;
    let mut rows: Vec<SearchResult> = Vec::new();
    for t in it: tracks
        invariant
            it.seq() == all,
            rows@.len() <= it.index(),
            rows@.len() <= limit,
            rows@.len() == if it.index() < limit {
                it.index() as nat
            } else {
                limit as nat
            },
            forall|i: int| 0 <= i < rows@.len() ==> result_view(#[trigger] rows@[i]) == detail_result(all[i]),
    {
        if rows.len() < limit as usize {
            rows.push(t.into_result());
        }
    }
    if rows.len() == 0 {
        return Err(string_of(chars_of("There is nothing in that playlist.").as_slice()));
    }
    Ok(rows)
}

/// The rows that have a page to play; a stub that could not be filled is
/// dropped rather than shown as a row that fails when clicked.
pub fn playable_rows(tracks: Vec<SearchResult>) -> (r: Vec<SearchResult>)
    ensures
        r@ == tracks@.filter(|t: SearchResult| t.remote_url@.len() > 0),
{
    let ghost all = tracks@;
    let mut kept: Vec<SearchResult> = Vec::new();
    proof {
        assert(all.take(0) =~= Seq::<SearchResult>::empty());
    }
    for t in it: tracks
        invariant
            it.seq() == all,
            kept@ == all.take(it.index() as int).filter(|t: SearchResult| t.remote_url@.len() > 0),
    {
        let ghost k = it.index();
        proof {
            assert(all.take(k + 1) =~= all.take(k as int).push(t));
            all.take(k as int).lemma_filter_push(t, |t: SearchResult| t.remote_url@.len() > 0);
        }
        if !t.remote_url.as_str().is_empty() {
            kept.push(t);
        }
    }
    proof {
        assert(all.take(all.len() as int) =~= all);
    }
    kept
}

} // verus!
