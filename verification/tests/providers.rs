use music_app::providers::Provider;

#[test]
fn source_strings_round_trip() {
    for provider in Provider::ALL {
        assert_eq!(Provider::from_source(provider.as_str()), Some(provider));
    }
}

/// A local track has no remote identity, so it must never resolve to a
/// provider that would try to fetch it over the network.
#[test]
fn local_is_not_a_provider() {
    assert_eq!(Provider::from_source("local"), None);
    assert_eq!(Provider::from_source(""), None);
    assert_eq!(Provider::from_source("bandcamp"), None);
}

#[test]
fn youtube_ids_are_eleven_characters() {
    assert!(Provider::YouTube.accepts_id("dQw4w9WgXcQ"));
    assert!(Provider::YouTube.accepts_id("_-aB3cD4eF5"));
    assert!(!Provider::YouTube.accepts_id("dQw4w9WgXc"), "too short");
    assert!(!Provider::YouTube.accepts_id("dQw4w9WgXcQQ"), "too long");
}

#[test]
fn soundcloud_ids_are_integers() {
    assert!(Provider::SoundCloud.accepts_id("199428706"));
    assert!(Provider::SoundCloud.accepts_id("2366118086"));
    assert!(!Provider::SoundCloud.accepts_id(""));
    assert!(!Provider::SoundCloud.accepts_id("199-428"));
    assert!(!Provider::SoundCloud.accepts_id("dQw4w9WgXcQ"));
}

/// These ids become yt-dlp arguments, so a leading dash must never survive.
#[test]
fn nothing_that_could_smuggle_a_flag_is_accepted() {
    for provider in Provider::ALL {
        assert!(!provider.accepts_id("--version"));
        assert!(!provider.accepts_id("-f"));
        assert!(!provider.accepts_id("../../etc/pw"));
        assert!(!provider.accepts_id("id with space"));
    }
}

/// The two id shapes are disjoint, which is what makes `(source,
/// remote_id)` uniqueness meaningful rather than decorative.
#[test]
fn a_youtube_id_is_not_a_soundcloud_id() {
    assert!(!Provider::SoundCloud.accepts_id("dQw4w9WgXcQ"));
    assert!(!Provider::YouTube.accepts_id("199428706"));
}

#[test]
fn real_page_urls_are_accepted() {
    assert!(Provider::YouTube.accepts_url("https://www.youtube.com/watch?v=dQw4w9WgXcQ"));
    assert!(Provider::YouTube.accepts_url("https://youtu.be/dQw4w9WgXcQ"));
    assert!(Provider::SoundCloud
        .accepts_url("https://soundcloud.com/daft-punk-id/daft-punk-one-more-time"));
}

#[test]
fn a_url_for_the_wrong_provider_is_rejected() {
    assert!(!Provider::YouTube.accepts_url("https://soundcloud.com/a/b"));
    assert!(!Provider::SoundCloud.accepts_url("https://www.youtube.com/watch?v=dQw4w9WgXcQ"));
}

/// Lookalike hosts are the whole reason this checks the host rather than
/// doing a substring match.
#[test]
fn lookalike_hosts_are_rejected() {
    assert!(!Provider::YouTube.accepts_url("https://youtube.com.evil.test/watch?v=x"));
    assert!(!Provider::YouTube.accepts_url("https://evil.test/https://youtube.com/x"));
    assert!(!Provider::YouTube.accepts_url("https://youtube.com@evil.test/x"));
    assert!(!Provider::SoundCloud.accepts_url("https://notsoundcloud.com/a/b"));
}

#[test]
fn plain_http_is_rejected() {
    assert!(!Provider::YouTube.accepts_url("http://www.youtube.com/watch?v=dQw4w9WgXcQ"));
    assert!(!Provider::YouTube.accepts_url("file:///etc/passwd"));
}

#[test]
fn eleven_digits_fit_both_id_shapes() {
    assert!(Provider::YouTube.accepts_id("12345678901"));
    assert!(Provider::SoundCloud.accepts_id("12345678901"));
    assert!(!Provider::YouTube.accepts_id("1234567890"));
    assert!(!Provider::SoundCloud.accepts_id("1234567890a"));
}

#[test]
fn a_dash_led_id_is_never_accepted() {
    assert!(!Provider::YouTube.accepts_id("-abcdefghij"));
    assert!(Provider::YouTube.accepts_id("a-bcdefghij"));
    assert!(!Provider::SoundCloud.accepts_id("-1234"));
    assert!(!Provider::YouTube.accepts_id("-abcdefghi"));
    assert!(!Provider::YouTube.accepts_id("a/b.c d-e_f"));
}
