use music_app::netease::{strip_credits, Song};

/// The credit block is not the first verse.
#[test]
fn leading_credits_are_dropped() {
    let lyric = "[00:00.000] 制作人 : TK\n\
                 [00:00.155] 作词 : TK\n\
                 [00:00.620]教えて教えてよ\n\
                 [00:07.410]僕の中に誰がいるの?";

    let cleaned = strip_credits(lyric);
    assert!(!cleaned.contains("制作人"), "a job title survived: {cleaned}");
    assert!(cleaned.starts_with("[00:00.620]"));
    assert_eq!(cleaned.lines().count(), 2);
}

/// Only the leading run, so a lyric that happens to contain a spaced colon
/// later in the song keeps it.
#[test]
fn only_the_opening_run_is_treated_as_credits() {
    let lyric = "[00:00.620]a real first line\n\
                 [00:07.410]something : with a colon";

    assert_eq!(strip_credits(lyric).lines().count(), 2);
}

#[test]
fn a_lyric_with_no_credits_is_untouched() {
    let lyric = "[00:00.620]one\n[00:07.410]two";
    assert_eq!(strip_credits(lyric), lyric);
}

/// Milliseconds on the wire, seconds in this crate.
///
/// Getting this backwards puts every candidate a thousand times out of the
/// duration window, which the ranking reports as "nothing matched" — a
/// silent, total failure of the provider that looks like poor coverage.
#[test]
fn durations_arrive_in_milliseconds() {
    let song = Song {
        id: 1,
        name: "x".to_string(),
        artists: Vec::new(),
        duration: Some(240_666),
    };
    let secs = song.duration.map(|ms| ms as f64 / 1000.0);
    assert_eq!(secs, Some(240.666));
}

#[test]
fn a_search_posts_the_encoded_query() {
    assert_eq!(
        music_app::netease::search_form("  TK unravel "),
        Some("s=TK+unravel&type=1&limit=10&offset=0".to_string()),
    );
    assert_eq!(music_app::netease::search_form("   "), None);
}

#[test]
fn lyrics_are_asked_for_in_every_version() {
    assert_eq!(
        music_app::netease::lyric_url(1234),
        "https://music.163.com/api/song/lyric?id=1234&lv=-1&kv=-1&tv=-1&rv=-1",
    );
}
