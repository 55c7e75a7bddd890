use music_app::stream_urls::{
    parse_expiry, usable_until, Encoding, StreamUrlCache, DEFAULT_TTL_SECS, NANOS_PER_SEC,
    SAFETY_MARGIN_SECS,
};

/// Seconds since the epoch, as the expiry is read.
fn secs(seconds: u64) -> u64 {
    seconds
}

/// A moment, in the cache's nanoseconds.
fn at(seconds: u64) -> u128 {
    seconds as u128 * NANOS_PER_SEC
}

/// The real shapes, taken from live responses.
const YT: &str = "https://rr2---sn-x.googlevideo.com/videoplayback?expire=2000000000&ei=abc";
const SC: &str = "https://playback.media-streaming.soundcloud.cloud/x/playlist.m3u8?expires=2000000000&Policy=abc";

#[test]
fn both_providers_state_their_expiry_and_it_is_read() {
    assert_eq!(parse_expiry(YT), Some(secs(2_000_000_000)));
    assert_eq!(parse_expiry(SC), Some(secs(2_000_000_000)));
}

#[test]
fn a_url_with_no_expiry_yields_none() {
    assert_eq!(parse_expiry("https://example.test/audio.m4a"), None);
    assert_eq!(parse_expiry("https://example.test/a?b=c"), None);
    assert_eq!(parse_expiry("https://example.test/a?expire=soon"), None);
}

/// The alternate has to actually exclude what the preferred asks for, or
/// the retry resolves the same stream and fails identically.
#[test]
fn the_alternate_encoding_excludes_the_preferred_one() {
    assert!(Encoding::Preferred.selector().contains("ext=m4a"));
    assert!(Encoding::Alternate.selector().contains("ext!=m4a"));
    assert_ne!(Encoding::Preferred.selector(), Encoding::Alternate.selector());
}

#[test]
fn the_two_encodings_are_cached_apart() {
    let mut cache = StreamUrlCache::new();
    cache.store("page", Encoding::Preferred, YT.to_string(), at(1_000_000_000));

    assert_eq!(cache.lookup("page", Encoding::Alternate, at(1_000_000_100)), None);
    assert_eq!(
        cache.lookup("page", Encoding::Preferred, at(1_000_000_100)),
        Some(YT.to_string()),
    );
}

#[test]
fn invalidating_a_page_forgets_every_encoding_of_it() {
    let mut cache = StreamUrlCache::new();
    cache.store("page", Encoding::Preferred, YT.to_string(), at(1_000_000_000));
    cache.store("page", Encoding::Alternate, SC.to_string(), at(1_000_000_000));
    cache.store("other", Encoding::Preferred, YT.to_string(), at(1_000_000_000));

    assert!(cache.invalidate("page"));

    assert_eq!(cache.lookup("page", Encoding::Preferred, at(1_000_000_100)), None);
    assert_eq!(cache.lookup("page", Encoding::Alternate, at(1_000_000_100)), None);
    assert!(cache.lookup("other", Encoding::Preferred, at(1_000_000_100)).is_some());
}

#[test]
fn an_entry_stops_being_used_before_its_link_expires() {
    let mut cache = StreamUrlCache::new();
    cache.store("page", Encoding::Preferred, YT.to_string(), at(1_000_000_000));

    let just_before = at(2_000_000_000 - SAFETY_MARGIN_SECS + 1);
    assert_eq!(cache.lookup("page", Encoding::Preferred, just_before), None);

    let well_before = at(2_000_000_000 - SAFETY_MARGIN_SECS - 60);
    assert_eq!(cache.lookup("page", Encoding::Preferred, well_before), Some(YT.to_string()));
}

#[test]
fn a_url_without_an_expiry_gets_the_default_lifetime() {
    let mut cache = StreamUrlCache::new();
    let plain = "https://example.test/audio.m4a";
    cache.store("page", Encoding::Preferred, plain.to_string(), at(1_000));

    assert!(cache.lookup("page", Encoding::Preferred, at(1_000 + 60)).is_some());
    assert_eq!(cache.lookup("page", Encoding::Preferred, at(1_000 + DEFAULT_TTL_SECS + 1)), None);
}

#[test]
fn an_almost_dead_link_is_not_treated_as_fresh() {
    let mut cache = StreamUrlCache::new();
    let now = at(2_000_000_000 - 10);
    cache.store("page", Encoding::Preferred, YT.to_string(), now);

    assert_eq!(cache.lookup("page", Encoding::Preferred, now), None);
    assert_eq!(usable_until(YT, now), now);
}

#[test]
fn invalidating_reports_whether_anything_was_cached() {
    let mut cache = StreamUrlCache::new();
    cache.store("page", Encoding::Preferred, YT.to_string(), at(1_000_000_000));

    assert!(cache.invalidate("page"));
    assert!(!cache.invalidate("page"));
    assert_eq!(cache.lookup("page", Encoding::Preferred, at(1_000_000_100)), None);
}

#[test]
fn storing_again_replaces_the_link() {
    let mut cache = StreamUrlCache::new();
    cache.store("one", Encoding::Preferred, YT.to_string(), at(1_000_000_000));
    cache.store("one", Encoding::Preferred, SC.to_string(), at(1_000_000_000));
    cache.store("two", Encoding::Preferred, YT.to_string(), at(1_000_000_000));

    assert_eq!(cache.lookup("one", Encoding::Preferred, at(1_000_000_100)), Some(SC.to_string()));
    assert_eq!(cache.lookup("two", Encoding::Preferred, at(1_000_000_100)), Some(YT.to_string()));
}

#[test]
fn a_cached_url_is_returned_without_resolving() {
    let mut cache = StreamUrlCache::new();
    cache.store("page", Encoding::Preferred, YT.to_string(), at(1_000_000_000));
    assert_eq!(cache.lookup("page", Encoding::Preferred, at(1_000_000_100)), Some(YT.to_string()));
}

#[test]
fn entries_are_keyed_per_track() {
    let mut cache = StreamUrlCache::new();
    cache.store("one", Encoding::Preferred, YT.to_string(), at(1_000_000_000));
    cache.store("two", Encoding::Preferred, SC.to_string(), at(1_000_000_000));
    assert_eq!(cache.lookup("one", Encoding::Preferred, at(1_000_000_100)), Some(YT.to_string()));
    assert_eq!(cache.lookup("two", Encoding::Preferred, at(1_000_000_100)), Some(SC.to_string()));
}
