//! The remote sources tracks can come from.
//!
//! Deliberately an enum rather than a trait: every provider here is "yt-dlp
//! with a different search prefix and a different id shape", so the
//! providers are a small data table -- one variant plus one row of each
//! `match`.
//!
//! The ids and URLs checked here are handed to yt-dlp as arguments, so what
//! each check accepts is stated exactly.

use vstd::prelude::*;

use vstd::string::StringSliceAdditionalSpecFns;

use crate::text::{
    append_chars, ascii_lower, ascii_lower_char, char_from_ascii, chars_equal, chars_of, decimal,
    decimal_chars, find_class, find_class_from, has_word, has_word_chars, hex_digit, hex_digit_char,
    is_ascii_alnum, is_ascii_alnum_char, is_ascii_digit, is_ascii_digit_char, lemma_find_class_bounds,
    push_word, slice_range, str_equal, string_of, views, CharClass,
};

verus! {

#[derive(Debug, Clone, Copy, PartialEq, Eq, Structural)]
pub enum Provider {
    YouTube,
    SoundCloud,
}

/// What a search is looking for.
#[derive(Debug, Clone, Copy, PartialEq, Eq, Structural)]
pub enum SearchKind {
    Track,
    Playlist,
    /// A channel on YouTube, a user on SoundCloud.
    Artist,
}

pub open spec fn provider_source(p: Provider) -> Seq<char> {
    match p {
        Provider::YouTube => "youtube"@,
        Provider::SoundCloud => "soundcloud"@,
    }
}

/// The provider a `tracks.source` value names; `"local"` is none.
pub open spec fn provider_of_source(source: Seq<char>) -> Option<Provider> {
    if source == "youtube"@ {
        Some(Provider::YouTube)
    } else if source == "soundcloud"@ {
        Some(Provider::SoundCloud)
    } else {
        None
    }
}

/// `[A-Za-z0-9_-]`.
pub open spec fn id_char(c: char) -> bool {
    is_ascii_alnum(c) || c == '-' || c == '_'
}

/// Whether `id` has this provider's shape: for YouTube exactly eleven bytes
/// of `[A-Za-z0-9_-]` that do not start with a dash, for SoundCloud one to
/// twenty-four ASCII digits.
pub open spec fn accepts_id_spec(p: Provider, id: Seq<char>, byte_len: nat) -> bool {
    match p {
        Provider::YouTube => byte_len == 11 && id.len() > 0 && id[0] != '-' && forall|i: int|
            0 <= i < id.len() ==> id_char(#[trigger] id[i]),
        Provider::SoundCloud => id.len() > 0 && byte_len <= 24 && forall|i: int|
            0 <= i < id.len() ==> is_ascii_digit(#[trigger] id[i]),
    }
}

/// The hosts a page URL may be on.
pub open spec fn url_hosts_spec(p: Provider) -> Seq<Seq<char>> {
    match p {
        Provider::YouTube => seq!["youtube.com"@, "www.youtube.com"@, "m.youtube.com"@, "youtu.be"@],
        Provider::SoundCloud => seq!["soundcloud.com"@, "www.soundcloud.com"@, "on.soundcloud.com"@],
    }
}

/// The host of an `https://` URL: everything up to the first `/`, `?` or
/// `#`, ASCII-lowercased.
pub open spec fn url_host(rest: Seq<char>) -> Seq<char> {
    rest.take(find_class_from(rest, CharClass::UrlDelimiter, 0)).map_values(|c: char| ascii_lower(c))
}

/// Requires `https://`, no userinfo and no port, and one of the known hosts.
pub open spec fn accepts_url_spec(p: Provider, url: Seq<char>) -> bool {
    url.len() >= 8 && url.take(8) == "https://"@ && {
        let host = url_host(url.skip(8));
        !host.contains('@') && !host.contains(':') && has_word(url_hosts_spec(p), host)
    }
}

/// YouTube's `sp` search filter for a kind of result.
pub open spec fn youtube_filter_spec(kind: SearchKind) -> Option<Seq<char>> {
    match kind {
        SearchKind::Playlist => Some("EgIQAw%3D%3D"@),
        SearchKind::Artist => Some("EgIQAg%3D%3D"@),
        SearchKind::Track => None,
    }
}

/// The unreserved set of RFC 3986.
pub open spec fn unreserved(b: u8) -> bool {
    (0x41 <= b <= 0x5A) || (0x61 <= b <= 0x7A) || (0x30 <= b <= 0x39) || b == 0x2D || b == 0x2E
        || b == 0x5F || b == 0x7E
}

/// One byte of a query string: itself when unreserved, `+` for a space,
/// otherwise `%` and two uppercase hex digits.
pub open spec fn percent_byte(b: u8) -> Seq<char> {
    if unreserved(b) {
        seq![b as char]
    } else if b == 0x20 {
        seq!['+']
    } else {
        seq!['%', hex_digit((b / 16) as int), hex_digit((b % 16) as int)]
    }
}

pub open spec fn percent_bytes(bytes: Seq<u8>) -> Seq<char>
    decreases bytes.len(),
{
    if bytes.len() == 0 {
        Seq::empty()
    } else {
        percent_bytes(bytes.drop_last()) + percent_byte(bytes.last())
    }
}

/// What yt-dlp is given to search for `kind`, or `None` when yt-dlp is not
/// the route.
pub open spec fn search_target_spec(p: Provider, kind: SearchKind, query: Seq<char>, query_bytes: Seq<u8>, limit: nat) -> Option<Seq<char>> {
    match kind {
        SearchKind::Track => Some(search_prefix_spec(p) + decimal(limit) + ":"@ + query),
        _ => match p {
            Provider::YouTube => Some(
                "https://www.youtube.com/results?search_query="@ + percent_bytes(query_bytes) + "&sp="@
                    + youtube_filter_spec(kind)->0,
            ),
            Provider::SoundCloud => None,
        },
    }
}

pub open spec fn search_prefix_spec(p: Provider) -> Seq<char> {
    match p {
        Provider::YouTube => "ytsearch"@,
        Provider::SoundCloud => "scsearch"@,
    }
}

fn is_id_char(c: char) -> (b: bool)
    ensures
        b == id_char(c),
{
    is_ascii_alnum_char(c) || c == '-' || c == '_'
}

fn host_list(p: Provider) -> (list: Vec<Vec<char>>)
    ensures
        views(list@) == url_hosts_spec(p),
{
    let mut list: Vec<Vec<char>> = Vec::new();
    match p {
        Provider::YouTube => {
            push_word(&mut list, "youtube.com");
            push_word(&mut list, "www.youtube.com");
            push_word(&mut list, "m.youtube.com");
            push_word(&mut list, "youtu.be");
        },
        Provider::SoundCloud => {
            push_word(&mut list, "soundcloud.com");
            push_word(&mut list, "www.soundcloud.com");
            push_word(&mut list, "on.soundcloud.com");
        },
    }
    proof {
        assert(views(list@) =~= url_hosts_spec(p));
    }
    list
}

fn contains_char(v: &[char], c: char) -> (b: bool)
    ensures
        b == v@.contains(c),
{
    let mut i: usize = 0;
    while i < v.len()
        invariant
            i <= v@.len(),
            forall|j: int| 0 <= j < i ==> v@[j] != c,
        decreases v.len() - i,
    {
        if v[i] == c {
            return true;
        }
        i = i + 1;
    }
    false
}

impl Provider {
    /// Every provider yt-dlp can search, in the order the UI offers them.
    pub const ALL: [Provider; 2] = [Provider::YouTube, Provider::SoundCloud];

    /// The value stored in `tracks.source`.
    pub fn as_str(self) -> (s: &'static str)
        ensures
            s@ == provider_source(self),
    {
        match self {
            Provider::YouTube => "youtube",
            Provider::SoundCloud => "soundcloud",
        }
    }

    /// Parses a `tracks.source` value. `"local"` is deliberately not a
    /// provider: a local file has no remote identity to resolve.
    pub fn from_source(source: &str) -> (r: Option<Provider>)
        ensures
            r == provider_of_source(source@),
    {
        if str_equal(source, "youtube") {
            Some(Provider::YouTube)
        } else if str_equal(source, "soundcloud") {
            Some(Provider::SoundCloud)
        } else {
            None
        }
    }

    /// What to show a user.
    pub fn display_name(self) -> (s: &'static str)
        ensures
            s@ == (match self {
                Provider::YouTube => "YouTube"@,
                Provider::SoundCloud => "SoundCloud"@,
            }),
    {
        match self {
            Provider::YouTube => "YouTube",
            Provider::SoundCloud => "SoundCloud",
        }
    }

    /// yt-dlp's search-prefix scheme: `<prefix><n>:<query>`.
    pub fn search_prefix(self) -> (s: &'static str)
        ensures
            s@ == search_prefix_spec(self),
    {
        match self {
            Provider::YouTube => "ytsearch",
            Provider::SoundCloud => "scsearch",
        }
    }

    /// Which kinds of thing this provider can be searched for: both answer
    /// all three, by different routes.
    pub fn searchable_kinds(self) -> (kinds: Vec<SearchKind>)
        ensures
            kinds@ == seq![SearchKind::Track, SearchKind::Playlist, SearchKind::Artist],
    {
        let kinds = vec![SearchKind::Track, SearchKind::Playlist, SearchKind::Artist];
        proof {
            assert(kinds@ =~= seq![SearchKind::Track, SearchKind::Playlist, SearchKind::Artist]);
        }
        kinds
    }

    /// The argument yt-dlp is given to search for `kind`.
    ///
    /// `None` when yt-dlp is not the route: SoundCloud playlists and artists
    /// go through SoundCloud's own API instead. Tracks use yt-dlp's own
    /// search prefix; YouTube's other two go through its results page with a
    /// filter.
    pub fn search_target(self, kind: SearchKind, query: &str, limit: u32) -> (r: Option<String>)
        ensures
            match r {
                Some(s) => search_target_spec(self, kind, query@, query.spec_bytes(), limit as nat)
                    == Some(s@),
                None => search_target_spec(self, kind, query@, query.spec_bytes(), limit as nat) is None,
            },
    {
        match kind {
            SearchKind::Track => {
                let mut out = chars_of(self.search_prefix());
                append_chars(&mut out, decimal_chars(limit as u64).as_slice());
                out.push(':');
                append_chars(&mut out, chars_of(query).as_slice());
                proof {
                    reveal_strlit(":");
                    assert(out@ =~= search_prefix_spec(self) + decimal(limit as nat) + ":"@ + query@);
                }
                Some(string_of(out.as_slice()))
            },
            _ => match self {
                Provider::YouTube => {
                    let filter = match youtube_filter(kind) {
                        Some(f) => f,
                        None => {
                            return None;
                        },
                    };
                    let mut out = chars_of("https://www.youtube.com/results?search_query=");
                    append_chars(&mut out, chars_of(percent_encode(query).as_str()).as_slice());
                    append_chars(&mut out, chars_of("&sp=").as_slice());
                    append_chars(&mut out, chars_of(filter).as_slice());
                    Some(string_of(out.as_slice()))
                },
                Provider::SoundCloud => None,
            },
        }
    }

    /// Builds a page URL from an id, where that is possible at all.
    ///
    /// SoundCloud has none: its URLs embed the uploader's handle, which the
    /// numeric id does not contain.
    pub fn page_url(self, id: &str) -> (r: Option<String>)
        ensures
            match r {
                Some(s) => accepts_id_spec(self, id@, id.len() as nat) && self == Provider::YouTube
                    && s@ == "https://www.youtube.com/watch?v="@ + id@,
                None => !accepts_id_spec(self, id@, id.len() as nat) || self
                    == Provider::SoundCloud,
            },
    {
        if !self.accepts_id(id) {
            return None;
        }
        match self {
            Provider::YouTube => {
                let mut out = chars_of("https://www.youtube.com/watch?v=");
                append_chars(&mut out, chars_of(id).as_slice());
                Some(string_of(out.as_slice()))
            },
            Provider::SoundCloud => None,
        }
    }

    /// Whether `id` has this provider's shape.
    ///
    /// These ids are concatenated into yt-dlp arguments, so the shapes are
    /// narrow on purpose.
    pub fn accepts_id(self, id: &str) -> (b: bool)
        ensures
            b == accepts_id_spec(self, id@, id.len() as nat),
    {
        let chars = chars_of(id);
        match self {
            Provider::YouTube => {
                if id.len() != 11 || chars.len() == 0 || chars[0] == '-' {
                    return false;
                }
                let mut i: usize = 0;
                while i < chars.len()
                    invariant
                        self == Provider::YouTube,
                        id.len() == 11,
                        chars@ == id@,
                        chars@.len() > 0,
                        chars@[0] != '-',
                        i <= chars@.len(),
                        forall|j: int| 0 <= j < i ==> id_char(#[trigger] chars@[j]),
                    decreases chars.len() - i,
                {
                    if !is_id_char(chars[i]) {
                        proof {
                            assert(!id_char(id@[i as int]));
                        }
                        return false;
                    }
                    i = i + 1;
                }
                proof {
                    assert forall|j: int| 0 <= j < id@.len() implies id_char(#[trigger] id@[j]) by {
                        assert(id_char(chars@[j]));
                    }
                }
                true
            },
            Provider::SoundCloud => {
                if chars.len() == 0 || id.len() > 24 {
                    return false;
                }
                let mut i: usize = 0;
                while i < chars.len()
                    invariant
                        self == Provider::SoundCloud,
                        id@.len() > 0,
                        id.len() <= 24,
                        chars@ == id@,
                        i <= chars@.len(),
                        forall|j: int| 0 <= j < i ==> is_ascii_digit(#[trigger] chars@[j]),
                    decreases chars.len() - i,
                {
                    if !is_ascii_digit_char(chars[i]) {
                        proof {
                            assert(!is_ascii_digit(id@[i as int]));
                        }
                        return false;
                    }
                    i = i + 1;
                }
                true
            },
        }
    }

    /// Whether `url` is a plausible page URL for this provider: https, a
    /// known host, and no userinfo or port that could make a lookalike host
    /// pass a naive comparison.
    pub fn accepts_url(self, url: &str) -> (b: bool)
        ensures
            b == accepts_url_spec(self, url@),
    {
        let chars = chars_of(url);
        let scheme = chars_of("https://");
        proof {
            reveal_strlit("https://");
        }
        if chars.len() < 8 {
            return false;
        }
        let head = slice_range(chars.as_slice(), 0, 8);
        proof {
            assert(head@ =~= url@.take(8));
        }
        if !chars_equal(head.as_slice(), scheme.as_slice()) {
            return false;
        }
        let rest = slice_range(chars.as_slice(), 8, chars.len());
        proof {
            assert(rest@ =~= url@.skip(8));
        }
        let end = find_class(rest.as_slice(), CharClass::UrlDelimiter, 0);
        let mut host: Vec<char> = Vec::new();
        let mut i: usize = 0;
        while i < end
            invariant
                end <= rest@.len(),
                i <= end,
                host@ =~= rest@.take(i as int).map_values(|c: char| ascii_lower(c)),
            decreases end - i,
        {
            host.push(ascii_lower_char(rest[i]));
            proof {
                assert(rest@.take(i + 1) =~= rest@.take(i as int).push(rest@[i as int]));
            }
            i = i + 1;
        }
        proof {
            assert(host@ =~= url_host(rest@));
        }
        if contains_char(host.as_slice(), '@') || contains_char(host.as_slice(), ':') {
            return false;
        }
        let hosts = host_list(self);
        has_word_chars(&hosts, host.as_slice())
    }
}

impl SearchKind {
    pub fn as_str(self) -> (s: &'static str)
        ensures
            s@ == (match self {
                SearchKind::Track => "track"@,
                SearchKind::Playlist => "playlist"@,
                SearchKind::Artist => "artist"@,
            }),
    {
        match self {
            SearchKind::Track => "track",
            SearchKind::Playlist => "playlist",
            SearchKind::Artist => "artist",
        }
    }
}

/// YouTube's `sp` search filter for a kind of result: undocumented
/// base64url protobufs, "type = playlist" and "type = channel".
fn youtube_filter(kind: SearchKind) -> (r: Option<&'static str>)
    ensures
        match r {
            Some(s) => youtube_filter_spec(kind) == Some(s@),
            None => youtube_filter_spec(kind) is None,
        },
{
    match kind {
        SearchKind::Playlist => Some("EgIQAw%3D%3D"),
        SearchKind::Artist => Some("EgIQAg%3D%3D"),
        SearchKind::Track => None,
    }
}

fn percent_byte_exec(out: &mut Vec<char>, b: u8)
    ensures
        final(out)@ == old(out)@ + percent_byte(b),
{
    if (0x41 <= b && b <= 0x5A) || (0x61 <= b && b <= 0x7A) || (0x30 <= b && b <= 0x39) || b == 0x2D
        || b == 0x2E || b == 0x5F || b == 0x7E {
        out.push(char_from_ascii(b as u32));
        proof {
            assert(percent_byte(b) =~= seq![b as char]);
        }
    } else if b == 0x20 {
        out.push('+');
        proof {
            assert(percent_byte(b) =~= seq!['+']);
        }
    } else {
        out.push('%');
        out.push(hex_digit_char(b / 16));
        out.push(hex_digit_char(b % 16));
        proof {
            assert(percent_byte(b) =~= seq!['%', hex_digit((b / 16) as int), hex_digit((b % 16) as int)]);
        }
    }
}

/// The value of an uppercase hexadecimal digit.
pub open spec fn upper_hex_value(c: char) -> Option<int> {
    let u = c as u32;
    if 48 <= u <= 57 {
        Some(u - 48)
    } else if 65 <= u <= 70 {
        Some(u - 55)
    } else {
        None
    }
}

/// The characters a query may carry as themselves: ASCII letters and
/// digits and `-`, `.`, `_`, `~`.
pub open spec fn plain_query_char(c: char) -> bool {
    ('A' <= c && c <= 'Z') || ('a' <= c && c <= 'z') || ('0' <= c && c <= '9') || c == '-' || c == '.'
        || c == '_' || c == '~'
}

/// Reads a query string back into bytes: `%` and two uppercase hex digits
/// is the byte they spell, high nibble first; `+` is a space; a plain
/// character is its own byte. Anything else is not a well-formed query, and
/// gives `None`.
pub open spec fn percent_decode(s: Seq<char>) -> Option<Seq<u8>>
    decreases s.len(),
{
    if s.len() == 0 {
        Some(Seq::empty())
    } else if s[0] == '%' {
        if s.len() >= 3 && upper_hex_value(s[1]) is Some && upper_hex_value(s[2]) is Some {
            match percent_decode(s.skip(3)) {
                Some(rest) => Some(
                    seq![(16 * upper_hex_value(s[1])->0 + upper_hex_value(s[2])->0) as u8] + rest,
                ),
                None => None,
            }
        } else {
            None
        }
    } else if s[0] == '+' {
        match percent_decode(s.skip(1)) {
            Some(rest) => Some(seq![0x20u8] + rest),
            None => None,
        }
    } else if plain_query_char(s[0]) {
        match percent_decode(s.skip(1)) {
            Some(rest) => Some(seq![(s[0] as u32) as u8] + rest),
            None => None,
        }
    } else {
        None
    }
}

proof fn lemma_percent_bytes_front(b: u8, rest: Seq<u8>)
    ensures
        percent_bytes(seq![b] + rest) == percent_byte(b) + percent_bytes(rest),
    decreases rest.len(),
{
    let all = seq![b] + rest;
    if rest.len() == 0 {
        assert(all.drop_last() =~= Seq::<u8>::empty());
        assert(all.last() == b);
        assert(percent_bytes(Seq::<u8>::empty()) =~= Seq::<char>::empty());
        assert(rest =~= Seq::<u8>::empty());
        assert(percent_bytes(all) =~= percent_byte(b) + percent_bytes(rest));
    } else {
        lemma_percent_bytes_front(b, rest.drop_last());
        assert(all.drop_last() =~= seq![b] + rest.drop_last());
        assert(all.last() == rest.last());
    }
}

proof fn lemma_hex_digit_value(d: int)
    requires
        0 <= d < 16,
    ensures
        upper_hex_value(hex_digit(d)) == Some(d),
{
}

/// A percent-encoded query reads back as exactly the bytes it was made from:
/// every byte outside the unreserved set is written as `%` and its high and
/// then its low nibble in uppercase hex (`/` is `%2F`), a space as `+`, and
/// nothing else is left as itself.
pub proof fn lemma_percent_encoding_round_trips(bytes: Seq<u8>)
    ensures
        percent_decode(percent_bytes(bytes)) == Some(bytes),
    decreases bytes.len(),
{
    if bytes.len() == 0 {
        assert(percent_bytes(bytes) =~= Seq::<char>::empty());
    } else {
        let b = bytes[0];
        let tail = bytes.skip(1);
        assert(bytes =~= seq![b] + tail);
        lemma_percent_bytes_front(b, tail);
        lemma_percent_encoding_round_trips(tail);
        let p = percent_bytes(tail);
        let s = percent_byte(b) + p;
        if unreserved(b) {
            assert(s.skip(1) =~= p);
            assert(((b as char) as u32) as u8 == b);
            assert(percent_decode(s) =~= Some(seq![b] + tail));
        } else if b == 0x20 {
            assert(s.skip(1) =~= p);
            assert(percent_decode(s) =~= Some(seq![b] + tail));
        } else {
            assert(s.skip(3) =~= p);
            lemma_hex_digit_value((b / 16) as int);
            lemma_hex_digit_value((b % 16) as int);
            assert(s[1] == hex_digit((b / 16) as int));
            assert(s[2] == hex_digit((b % 16) as int));
            assert((16 * ((b / 16) as int) + (b % 16) as int) as u8 == b);
            assert(percent_decode(s) =~= Some(seq![b] + tail));
        }
    }
}

/// Percent-encodes a search query for a URL query string.
///
/// Everything outside the unreserved set of RFC 3986 is escaped, byte by
/// byte of its UTF-8, so nothing the user types can add a parameter, change
/// the filter, or leave the results page.
pub fn percent_encode(query: &str) -> (s: String)
    ensures
        s@ == percent_bytes(query.spec_bytes()),
        percent_decode(s@) == Some(query.spec_bytes()),
{
    proof {
        lemma_percent_encoding_round_trips(query.spec_bytes());
    }
    let bytes = query.as_bytes();
    let mut out: Vec<char> = Vec::new();
    let mut i: usize = 0;
    while i < bytes.len()
        invariant
            bytes@ == query.spec_bytes(),
            i <= bytes@.len(),
            out@ == percent_bytes(bytes@.take(i as int)),
        decreases bytes.len() - i,
    {
        proof {
            assert(bytes@.take(i + 1).drop_last() =~= bytes@.take(i as int));
        }
        percent_byte_exec(&mut out, bytes[i]);
        i = i + 1;
    }
    proof {
        assert(bytes@.take(bytes@.len() as int) =~= bytes@);
    }
    string_of(out.as_slice())
}

/// One entry in the provider picker.
pub struct ProviderInfo {
    pub id: Provider,
    pub name: &'static str,
    /// What this provider can be searched for, so the tabs on screen and the
    /// searches that can actually run cannot drift apart.
    pub kinds: Vec<SearchKind>,
}

/// The providers the app can search, in order, each with its name and the
/// kinds it can be searched for.
pub fn provider_infos() -> (infos: Vec<ProviderInfo>)
    ensures
        infos@.len() == 2,
        infos@[0].id == Provider::YouTube,
        infos@[1].id == Provider::SoundCloud,
        forall|i: int|
            0 <= i < 2 ==> (#[trigger] infos@[i]).kinds@ == seq![
                SearchKind::Track,
                SearchKind::Playlist,
                SearchKind::Artist,
            ],
        infos@[0].name@ == "YouTube"@,
        infos@[1].name@ == "SoundCloud"@,
{
    let mut infos: Vec<ProviderInfo> = Vec::new();
    let youtube = Provider::YouTube;
    infos.push(ProviderInfo { id: youtube, name: youtube.display_name(), kinds: youtube.searchable_kinds() });
    let soundcloud = Provider::SoundCloud;
    infos.push(
        ProviderInfo {
            id: soundcloud,
            name: soundcloud.display_name(),
            kinds: soundcloud.searchable_kinds(),
        },
    );
    infos
}

/// An accepted id is made of `[A-Za-z0-9_-]` alone and never starts with a
/// dash, so nothing with a space, a slash or a dot reaches the downloader's
/// arguments, and nothing can pass for one of its flags.
pub proof fn lemma_accepted_ids_are_plain(p: Provider, id: &str)
    requires
        accepts_id_spec(p, id@, id.len() as nat),
    ensures
        forall|i: int| 0 <= i < id@.len() ==> id_char(#[trigger] id@[i]),
        id@.len() > 0,
        id@[0] != '-',
{
}

/// The two id shapes overlap only on eleven ASCII digits, which both
/// providers accept; any other id belongs to one provider at most.
pub proof fn lemma_id_shapes_overlap_only_on_digits(id: &str)
    requires
        !(id.len() == 11 && forall|i: int| 0 <= i < id@.len() ==> is_ascii_digit(#[trigger] id@[i])),
    ensures
        !(accepts_id_spec(Provider::YouTube, id@, id.len() as nat) && accepts_id_spec(
            Provider::SoundCloud,
            id@,
            id.len() as nat,
        )),
{
}

} // verus!
