use music_app::playable::{get_playable_source, PlayableSource, PlayableTrack, SourcePlan};
use music_app::providers::Provider;

fn track(source: &str, state: &str, path: Option<&str>) -> PlayableTrack {
    PlayableTrack {
        source: source.to_string(),
        state: state.to_string(),
        remote_id: None,
        local_path: path.map(str::to_string),
        remote_url: None,
    }
}

fn remote_track(source: &str, state: &str, path: Option<&str>, url: Option<&str>) -> PlayableTrack {
    PlayableTrack {
        source: source.to_string(),
        state: state.to_string(),
        remote_id: Some("dQw4w9WgXcQ".to_string()),
        local_path: path.map(str::to_string),
        remote_url: url.map(str::to_string),
    }
}

const YT_URL: &str = "https://www.youtube.com/watch?v=dQw4w9WgXcQ";
const SC_URL: &str = "https://soundcloud.com/daft-punk-id/daft-punk-one-more-time";

#[test]
fn a_present_local_track_resolves_to_its_file() {
    let resolved = get_playable_source(&track("local", "present", Some(r"D:\a.mp3")), None, false)
        .expect("should resolve");
    match resolved {
        SourcePlan::Play(PlayableSource::LocalFile(path)) => assert_eq!(path, r"D:\a.mp3"),
        other => panic!("mp3 is native to rodio, got {other:?}"),
    }
}

#[test]
fn an_opus_track_is_no_longer_a_special_case() {
    let resolved = get_playable_source(&track("local", "present", Some(r"D:\a.opus")), None, false)
        .expect("should resolve");
    match resolved {
        SourcePlan::Play(PlayableSource::LocalFile(path)) => assert_eq!(path, r"D:\a.opus"),
        other => panic!("opus should resolve like any other file, got {other:?}"),
    }
}

#[test]
fn a_missing_local_track_fails_with_a_clear_message() {
    let error = get_playable_source(&track("local", "missing", Some(r"D:\a.mp3")), None, false)
        .expect_err("missing tracks must not resolve");
    assert!(error.contains("missing from disk"), "got: {error}");
}

#[test]
fn a_downloaded_remote_track_plays_from_disk() {
    for (source, url) in [("youtube", YT_URL), ("soundcloud", SC_URL)] {
        let track = remote_track(source, "downloaded", Some(r"D:\yt\abc.m4a"), Some(url));
        let resolved = get_playable_source(&track, None, false).expect("a downloaded track needs no yt-dlp");
        match resolved {
            SourcePlan::Play(PlayableSource::LocalFile(path)) => assert_eq!(path, r"D:\yt\abc.m4a"),
            other => panic!("m4a is native to rodio, got {other:?} for {source}"),
        }
    }
}

#[test]
fn a_downloaded_opus_track_plays_from_disk() {
    let track = remote_track("youtube", "downloaded", Some(r"D:\yt\abc.opus"), Some(YT_URL));
    let resolved = get_playable_source(&track, None, false).expect("resolves");
    match resolved {
        SourcePlan::Play(PlayableSource::LocalFile(path)) => assert_eq!(path, r"D:\yt\abc.opus"),
        other => panic!("a downloaded file must play from disk, got {other:?}"),
    }
}

#[test]
fn a_saved_remote_track_needs_yt_dlp() {
    for (source, url) in [("youtube", YT_URL), ("soundcloud", SC_URL)] {
        let error = get_playable_source(&remote_track(source, "saved", None, Some(url)), None, false)
            .expect_err("streaming without yt-dlp cannot work");
        assert!(error.contains("yt-dlp was not found"), "got: {error}");
    }
}

#[test]
fn the_missing_tool_message_names_the_provider() {
    let error = get_playable_source(&remote_track("soundcloud", "saved", None, Some(SC_URL)), None, false)
        .expect_err("no yt-dlp");
    assert!(error.contains("SoundCloud"), "got: {error}");
}

#[test]
fn a_remote_row_without_a_url_is_reported_as_corrupt() {
    let error = get_playable_source(&remote_track("youtube", "saved", None, None), None, false)
        .expect_err("a saved track with no URL is unplayable");
    assert!(error.contains("no source URL"), "got: {error}");
}

#[test]
fn a_url_that_does_not_match_its_provider_is_refused() {
    let error = get_playable_source(&remote_track("soundcloud", "saved", None, Some(YT_URL)), None, true)
        .expect_err("mismatched URL must not resolve");
    assert!(error.contains("does not look valid"), "got: {error}");
}

#[test]
fn an_unknown_source_fails_instead_of_being_treated_as_local() {
    let error = get_playable_source(&remote_track("bandcamp", "saved", None, None), None, false)
        .expect_err("an unknown provider cannot resolve");
    assert!(error.contains("Unknown track source"), "got: {error}");
    assert_eq!(error, "Unknown track source \"bandcamp\".");
}

#[test]
fn a_saved_track_with_the_tool_is_resolved_from_its_page() {
    let plan = get_playable_source(&remote_track("youtube", "saved", None, Some(YT_URL)), None, true)
        .expect("resolvable");
    match plan {
        SourcePlan::Resolve { provider, url } => {
            assert_eq!(provider, Provider::YouTube);
            assert_eq!(url, YT_URL);
        }
        other => panic!("expected a resolve, got {other:?}"),
    }
}

#[test]
fn a_cached_copy_plays_before_going_to_the_provider() {
    let plan = get_playable_source(
        &remote_track("youtube", "saved", None, Some(YT_URL)),
        Some("cache/abc.webm".to_string()),
        false,
    )
    .expect("cached");
    match plan {
        SourcePlan::Play(PlayableSource::Cached(path)) => assert_eq!(path, "cache/abc.webm"),
        other => panic!("expected the cache copy, got {other:?}"),
    }
}

#[test]
fn a_local_row_without_a_path_is_reported_as_corrupt() {
    let error = get_playable_source(&track("local", "present", None), None, true).expect_err("no path");
    assert_eq!(error, "That track has no file path recorded.");
}
