//! Short-lived cache of resolved stream URLs.
//!
//! Resolving one costs a yt-dlp process and several seconds, and the URLs
//! are good for far longer than that: both services state the expiry in the
//! query string, so the lifetime is read rather than guessed.
//!
//! Times here are nanoseconds since the Unix epoch. Correctness does not
//! depend on the expiry being right: a cached link that fails is invalidated
//! and resolved again.

use vstd::prelude::*;

use crate::text::{chars_equal, chars_of, string_of, parse_u64, parse_u64_chars, split, split_chars, views, CharClass};
use crate::lyrics::{split_once, split_once_chars};

verus! {

pub const NANOS_PER_SEC: u128 = 1_000_000_000;

/// Trimmed off any parsed expiry, in seconds, so a URL is never handed out
/// moments before it dies.
pub const SAFETY_MARGIN_SECS: u64 = 300;

/// Used when the URL states no expiry we recognise, in seconds.
pub const DEFAULT_TTL_SECS: u64 = 600;

/// Which encoding of a track to ask the provider for: a choice the caller
/// can revise when one will not decode.
#[derive(Debug, Clone, Copy, PartialEq, Eq, Hash, Structural)]
pub enum Encoding {
    /// AAC in mp4 where it exists.
    Preferred,
    /// Anything except that.
    Alternate,
}

impl Encoding {
    /// The yt-dlp format selector this asks for.
    pub fn selector(self) -> (s: &'static str)
        ensures
            s@ == (match self {
                Encoding::Preferred => "bestaudio[ext=m4a]/bestaudio"@,
                Encoding::Alternate => "bestaudio[ext!=m4a]/bestaudio"@,
            }),
    {
        match self {
            Encoding::Preferred => "bestaudio[ext=m4a]/bestaudio",
            Encoding::Alternate => "bestaudio[ext!=m4a]/bestaudio",
        }
    }
}

/// The first `expire` or `expires` pair, from the `k`th on, whose value
/// parses as a number of seconds.
pub open spec fn expiry_from(pairs: Seq<Seq<char>>, k: int) -> Option<u64>
    decreases pairs.len() - k,
{
    if 0 <= k < pairs.len() {
        match split_once(pairs[k], '=') {
            Some((key, value)) => if (key == "expire"@ || key == "expires"@) && parse_u64(value) is Some {
                parse_u64(value)
            } else {
                expiry_from(pairs, k + 1)
            },
            None => expiry_from(pairs, k + 1),
        }
    } else {
        None
    }
}

/// The expiry both services put in the query string: YouTube spells it
/// `expire`, SoundCloud `expires`; both are Unix seconds.
pub open spec fn expiry_of(url: Seq<char>) -> Option<u64> {
    match split_once(url, '?') {
        Some((_, query)) => expiry_from(split(query, CharClass::Exactly('&')), 0),
        None => None,
    }
}

/// Reads the expiry a stream URL states, in seconds since the epoch.
pub fn parse_expiry(url: &str) -> (r: Option<u64>)
    ensures
        r == expiry_of(url@),
{
    let chars = chars_of(url);
    let query = match split_once_chars(chars.as_slice(), '?') {
        Some((_, q)) => q,
        None => {
            return None;
        },
    };
    let pairs = split_chars(query.as_slice(), CharClass::Exactly('&'));
    let expire = chars_of("expire");
    let expires = chars_of("expires");
    let mut k: usize = 0;
    while k < pairs.len()
        invariant
            expire@ == "expire"@,
            expires@ == "expires"@,
            k <= pairs@.len(),
            expiry_of(url@) == expiry_from(views(pairs@), k as int),
        decreases pairs.len() - k,
    {
        proof {
            assert(views(pairs@)[k as int] == pairs@[k as int]@);
        }
        match split_once_chars(pairs[k].as_slice(), '=') {
            Some((key, value)) => {
                if chars_equal(key.as_slice(), expire.as_slice()) || chars_equal(
                    key.as_slice(),
                    expires.as_slice(),
                ) {
                    match parse_u64_chars(value.as_slice()) {
                        Some(seconds) => {
                            return Some(seconds);
                        },
                        None => {},
                    }
                }
            },
            None => {},
        }
        k = k + 1;
    }
    None
}

/// How long a URL can be trusted for, from `now`: its stated expiry less the
/// safety margin, but never earlier than `now`; the default lifetime when it
/// states none.
pub open spec fn usable_until_spec(expiry: Option<u64>, now: u128) -> u128 {
    match expiry {
        Some(seconds) => {
            let at = seconds * NANOS_PER_SEC;
            let margin = SAFETY_MARGIN_SECS * NANOS_PER_SEC;
            if at >= margin && at - margin > now {
                (at - margin) as u128
            } else {
                now
            }
        },
        None => (now + DEFAULT_TTL_SECS * NANOS_PER_SEC) as u128,
    }
}

pub fn usable_until(url: &str, now: u128) -> (t: u128)
    requires
        now + DEFAULT_TTL_SECS * NANOS_PER_SEC <= u128::MAX,
    ensures
        t == usable_until_spec(expiry_of(url@), now),
        t >= now,
{
    match parse_expiry(url) {
        Some(seconds) => {
            let at = (seconds as u128) * NANOS_PER_SEC;
            let margin = (SAFETY_MARGIN_SECS as u128) * NANOS_PER_SEC;
            if at >= margin && at - margin > now {
                at - margin
            } else {
                now
            }
        },
        None => now + (DEFAULT_TTL_SECS as u128) * NANOS_PER_SEC,
    }
}

/// One cached link.
pub struct CacheEntry {
    pub page_url: String,
    pub encoding: Encoding,
    pub url: String,
    /// Nanoseconds since the epoch.
    pub good_until: u128,
}

/// No key appears twice.
pub open spec fn keys_unique(entries: Seq<CacheEntry>) -> bool {
    forall|i: int, j: int|
        0 <= i < entries.len() && 0 <= j < entries.len() && i != j ==> entry_key(#[trigger] entries[i])
            != entry_key(#[trigger] entries[j])
}

/// What is cached: for each key, the link and until when it is good.
pub open spec fn view_of(entries: Seq<CacheEntry>) -> Map<(Seq<char>, Encoding), (Seq<char>, u128)> {
    Map::new(
        |k: (Seq<char>, Encoding)|
            exists|i: int| 0 <= i < entries.len() && entry_key(#[trigger] entries[i]) == k,
        |k: (Seq<char>, Encoding)|
            {
                let i = choose|i: int| 0 <= i < entries.len() && entry_key(#[trigger] entries[i]) == k;
                (entries[i].url@, entries[i].good_until)
            },
    )
}

pub open spec fn entry_key(e: CacheEntry) -> (Seq<char>, Encoding) {
    (e.page_url@, e.encoding)
}

proof fn lemma_view_at(entries: Seq<CacheEntry>, i: int)
    requires
        keys_unique(entries),
        0 <= i < entries.len(),
    ensures
        view_of(entries).contains_key(entry_key(entries[i])),
        view_of(entries)[entry_key(entries[i])] == (entries[i].url@, entries[i].good_until),
{
    let k = entry_key(entries[i]);
    assert(exists|j: int| 0 <= j < entries.len() && entry_key(#[trigger] entries[j]) == k);
    let j = choose|j: int| 0 <= j < entries.len() && entry_key(#[trigger] entries[j]) == k;
    if j != i {
        assert(entry_key(entries[j]) != entry_key(entries[i]));
    }
}

/// Keyed by the provider's page URL and the encoding asked for: the two
/// encodings resolve to different streams, and a fallback must not be handed
/// the link that just failed to decode.
pub struct StreamUrlCache {
    entries: Vec<CacheEntry>,
}

impl StreamUrlCache {
    pub closed spec fn wf(&self) -> bool {
        keys_unique(self.entries@)
    }

    pub closed spec fn view(&self) -> Map<(Seq<char>, Encoding), (Seq<char>, u128)> {
        view_of(self.entries@)
    }

    pub fn new() -> (c: StreamUrlCache)
        ensures
            c.wf(),
            c.view() == Map::<(Seq<char>, Encoding), (Seq<char>, u128)>::empty(),
    {
        let c = StreamUrlCache { entries: Vec::new() };
        proof {
            assert(c.view() =~= Map::<(Seq<char>, Encoding), (Seq<char>, u128)>::empty());
        }
        c
    }

    fn position(&self, page_url: &[char], encoding: Encoding) -> (r: Option<usize>)
        ensures
            match r {
                Some(i) => i < self.entries@.len() && entry_key(self.entries@[i as int]) == (
                    page_url@,
                    encoding,
                ),
                None => forall|i: int|
                    0 <= i < self.entries@.len() ==> entry_key(#[trigger] self.entries@[i]) != (
                        page_url@,
                        encoding,
                    ),
            },
    {
        let mut i: usize = 0;
        while i < self.entries.len()
            invariant
                i <= self.entries@.len(),
                forall|j: int|
                    0 <= j < i ==> entry_key(#[trigger] self.entries@[j]) != (page_url@, encoding),
            decreases self.entries.len() - i,
        {
            let e = &self.entries[i];
            if e.encoding == encoding && chars_equal(chars_of(e.page_url.as_str()).as_slice(), page_url) {
                return Some(i);
            }
            i = i + 1;
        }
        None
    }

    /// The cached link for a page and encoding, while it is still good at
    /// `now`.
    pub fn lookup(&self, page_url: &str, encoding: Encoding, now: u128) -> (r: Option<String>)
        requires
            self.wf(),
        ensures
            match r {
                Some(url) => self.view().contains_key((page_url@, encoding)) && self.view()[(
                    page_url@,
                    encoding,
                )].0 == url@ && self.view()[(page_url@, encoding)].1 > now,
                None => !self.view().contains_key((page_url@, encoding)) || self.view()[(
                    page_url@,
                    encoding,
                )].1 <= now,
            },
    {
        let key = chars_of(page_url);
        match self.position(key.as_slice(), encoding) {
            Some(i) => {
                proof {
                    lemma_view_at(self.entries@, i as int);
                }
                if self.entries[i].good_until > now {
                    Some(self.entries[i].url.clone())
                } else {
                    None
                }
            },
            None => None,
        }
    }

    /// Remembers `url` for a page and encoding, trusted until
    /// [`usable_until`] says, replacing whatever was there.
    pub fn store(&mut self, page_url: &str, encoding: Encoding, url: String, now: u128)
        requires
            old(self).wf(),
            now + DEFAULT_TTL_SECS * NANOS_PER_SEC <= u128::MAX,
        ensures
            final(self).wf(),
            final(self).view() == old(self).view().insert(
                (page_url@, encoding),
                (url@, usable_until_spec(expiry_of(url@), now)),
            ),
    {
        let good_until = usable_until(url.as_str(), now);
        let key = chars_of(page_url);
        let entry = CacheEntry { page_url: string_of(key.as_slice()), encoding, url, good_until };
        let ghost before = self.entries@;
        let ghost k = (page_url@, encoding);
        let ghost v = (entry.url@, good_until);
        match self.position(key.as_slice(), encoding) {
            Some(i) => {
                self.entries.set(i, entry);
                proof {
                    let after = self.entries@;
                    assert(after == before.update(i as int, entry));
                    assert(keys_unique(after));
                    lemma_view_at(after, i as int);
                    assert forall|q: (Seq<char>, Encoding)| #[trigger] view_of(after).contains_key(q)
                        == before_map_insert_contains(before, k, q) by {
                        if q != k {
                            if view_of(before).contains_key(q) {
                                let j = choose|j: int| 0 <= j < before.len() && entry_key(#[trigger] before[j]) == q;
                                assert(after[j] == before[j]);
                            }
                            if view_of(after).contains_key(q) {
                                let j = choose|j: int| 0 <= j < after.len() && entry_key(#[trigger] after[j]) == q;
                                assert(j != i);
                                assert(after[j] == before[j]);
                            }
                        }
                    }
                    assert forall|q: (Seq<char>, Encoding)| #[trigger] view_of(after).contains_key(q) && q != k
                        implies view_of(after)[q] == view_of(before)[q] by {
                        let j = choose|j: int| 0 <= j < after.len() && entry_key(#[trigger] after[j]) == q;
                        assert(j != i);
                        assert(after[j] == before[j]);
                        lemma_view_at(after, j);
                        lemma_view_at(before, j);
                    }
                    assert(view_of(after) =~= view_of(before).insert(k, v));
                }
            },
            None => {
                self.entries.push(entry);
                proof {
                    let after = self.entries@;
                    assert(after == before.push(entry));
                    assert(keys_unique(after));
                    lemma_view_at(after, before.len() as int);
                    assert forall|q: (Seq<char>, Encoding)| #[trigger] view_of(after).contains_key(q)
                        == before_map_insert_contains(before, k, q) by {
                        if q != k {
                            if view_of(before).contains_key(q) {
                                let j = choose|j: int| 0 <= j < before.len() && entry_key(#[trigger] before[j]) == q;
                                assert(after[j] == before[j]);
                            }
                            if view_of(after).contains_key(q) {
                                let j = choose|j: int| 0 <= j < after.len() && entry_key(#[trigger] after[j]) == q;
                                assert(j < before.len());
                                assert(after[j] == before[j]);
                            }
                        }
                    }
                    assert forall|q: (Seq<char>, Encoding)| #[trigger] view_of(after).contains_key(q) && q != k
                        implies view_of(after)[q] == view_of(before)[q] by {
                        let j = choose|j: int| 0 <= j < after.len() && entry_key(#[trigger] after[j]) == q;
                        assert(j < before.len());
                        assert(after[j] == before[j]);
                        lemma_view_at(after, j);
                        lemma_view_at(before, j);
                    }
                    assert(view_of(after) =~= view_of(before).insert(k, v));
                }
            },
        }
    }
    /// Forgets every cached link for `page_url`, whatever encoding it was
    /// for, and says whether there was one. Staleness is a property of the
    /// moment rather than of the encoding.
    pub fn invalidate(&mut self, page_url: &str) -> (removed: bool)
        requires
            old(self).wf(),
        ensures
            final(self).wf(),
            final(self).view() == old(self).view().remove_keys(on_page(page_url@)),
            removed == exists|q: (Seq<char>, Encoding)|
                old(self).view().contains_key(q) && #[trigger] on_page(page_url@).contains(q),
    {
        let key = chars_of(page_url);
        let ghost before = self.entries@;
        let mut old_entries: Vec<CacheEntry> = Vec::new();
        std::mem::swap(&mut old_entries, &mut self.entries);
        let mut kept: Vec<CacheEntry> = Vec::new();
        let mut removed = false;
        let ghost mut kept_from: Seq<int> = Seq::empty();
        for e in it: old_entries
            invariant
                it.seq() == before,
                keys_unique(before),
                key@ == page_url@,
                kept_from.len() == kept@.len(),
                forall|j: int| 0 <= j < kept_from.len() ==> 0 <= #[trigger] kept_from[j] < it.index(),
                forall|j: int, l: int| 0 <= j < l < kept_from.len() ==> kept_from[j] < kept_from[l],
                forall|j: int| 0 <= j < kept_from.len() ==> kept@[j] == before[#[trigger] kept_from[j]],
                forall|m: int|
                    0 <= m < it.index() && before[m].page_url@ != page_url@ ==> exists|j: int|
                        0 <= j < kept_from.len() && #[trigger] kept_from[j] == m,
                forall|j: int| 0 <= j < kept@.len() ==> (#[trigger] kept@[j]).page_url@ != page_url@,
                removed == exists|m: int| 0 <= m < it.index() && (#[trigger] before[m]).page_url@ == page_url@,
        {
            let ghost m = it.index();
            if chars_equal(chars_of(e.page_url.as_str()).as_slice(), key.as_slice()) {
                removed = true;
            } else {
                kept.push(e);
                proof {
                    let old_kf = kept_from;
                    kept_from = kept_from.push(m as int);
                    assert(kept_from[old_kf.len() as int] == m);
                    assert forall|mm: int|
                        0 <= mm < m + 1 && before[mm].page_url@ != page_url@ implies exists|j: int|
                        0 <= j < kept_from.len() && #[trigger] kept_from[j] == mm by {
                        if mm == m {
                            assert(kept_from[old_kf.len() as int] == mm);
                        } else {
                            let j = choose|j: int| 0 <= j < old_kf.len() && #[trigger] old_kf[j] == mm;
                            assert(kept_from[j] == mm);
                        }
                    }
                }
            }
        }
        self.entries = kept;
        proof {
            let after = self.entries@;
            assert forall|i: int, j: int|
                0 <= i < after.len() && 0 <= j < after.len() && i != j implies entry_key(#[trigger] after[i])
                != entry_key(#[trigger] after[j]) by {
                assert(kept_from[i] != kept_from[j]) by {
                    if i < j {
                        assert(kept_from[i] < kept_from[j]);
                    } else {
                        assert(kept_from[j] < kept_from[i]);
                    }
                }
                assert(after[i] == before[kept_from[i]]);
                assert(after[j] == before[kept_from[j]]);
            }
            assert(keys_unique(after));
            let target = view_of(before).remove_keys(on_page(page_url@));
            assert forall|q: (Seq<char>, Encoding)| #[trigger] view_of(after).contains_key(q)
                == target.contains_key(q) by {
                if view_of(after).contains_key(q) {
                    let j = choose|j: int| 0 <= j < after.len() && entry_key(#[trigger] after[j]) == q;
                    assert(after[j] == before[kept_from[j]]);
                    lemma_view_at(before, kept_from[j]);
                }
                if target.contains_key(q) {
                    let m = choose|m: int| 0 <= m < before.len() && entry_key(#[trigger] before[m]) == q;
                    assert(before[m].page_url@ != page_url@);
                    let j = choose|j: int| 0 <= j < kept_from.len() && #[trigger] kept_from[j] == m;
                    assert(entry_key(after[j]) == q);
                }
            }
            assert forall|q: (Seq<char>, Encoding)| #[trigger] view_of(after).contains_key(q) implies view_of(
                after,
            )[q] == target[q] by {
                let j = choose|j: int| 0 <= j < after.len() && entry_key(#[trigger] after[j]) == q;
                assert(after[j] == before[kept_from[j]]);
                lemma_view_at(after, j);
                lemma_view_at(before, kept_from[j]);
            }
            assert(view_of(after) =~= target);
            if removed {
                let m = choose|m: int| 0 <= m < before.len() && (#[trigger] before[m]).page_url@ == page_url@;
                lemma_view_at(before, m);
                assert(on_page(page_url@).contains(entry_key(before[m])));
            }
            if exists|q: (Seq<char>, Encoding)|
                view_of(before).contains_key(q) && #[trigger] on_page(page_url@).contains(q) {
                let q = choose|q: (Seq<char>, Encoding)|
                    view_of(before).contains_key(q) && #[trigger] on_page(page_url@).contains(q);
                let m = choose|m: int| 0 <= m < before.len() && entry_key(#[trigger] before[m]) == q;
                assert(before[m].page_url@ == page_url@);
            }
        }
        removed
    }
}

/// Every key for one page, whatever the encoding.
pub open spec fn on_page(page_url: Seq<char>) -> Set<(Seq<char>, Encoding)> {
    Set::new(|q: (Seq<char>, Encoding)| q.0 == page_url)
}

pub open spec fn before_map_insert_contains(
    before: Seq<CacheEntry>,
    k: (Seq<char>, Encoding),
    q: (Seq<char>, Encoding),
) -> bool {
    q == k || view_of(before).contains_key(q)
}


/// A link is never handed out inside the safety margin before its stated
/// expiry: whatever it is trusted until is either `now` -- so a lookup at
/// `now` already refuses it -- or exactly the margin before the expiry.
pub proof fn lemma_expiry_is_honoured(expiry: u64, now: u128)
    ensures
        usable_until_spec(Some(expiry), now) >= now,
        usable_until_spec(Some(expiry), now) > now ==> usable_until_spec(Some(expiry), now)
            + SAFETY_MARGIN_SECS * NANOS_PER_SEC == expiry * NANOS_PER_SEC,
        expiry * NANOS_PER_SEC <= now + SAFETY_MARGIN_SECS * NANOS_PER_SEC ==> usable_until_spec(
            Some(expiry),
            now,
        ) == now,
{
}

/// A link that states no expiry is trusted for the default lifetime and no
/// longer.
pub proof fn lemma_unknown_policy_is_bounded(now: u128)
    requires
        now + DEFAULT_TTL_SECS * NANOS_PER_SEC <= u128::MAX,
    ensures
        usable_until_spec(None, now) == now + DEFAULT_TTL_SECS * NANOS_PER_SEC,
{
}

} // verus!
