use music_app::sidecar::{already_staged, bundle_stamp, file_name, first_found, not_found_message, Place, Tool};

#[test]
fn tool_names_do_not_carry_an_extension() {
    // The extension is added once, in one place; baking it into the name
    // would double it up on Windows.
    assert_eq!(Tool::YtDlp.base_name(), "yt-dlp");
    assert_eq!(Tool::Ffmpeg.base_name(), "ffmpeg");
}

#[test]
fn the_extension_is_added_once() {
    assert_eq!(file_name(Tool::YtDlp, ".exe"), "yt-dlp.exe");
    assert_eq!(file_name(Tool::Ffmpeg, ""), "ffmpeg");
}

#[test]
fn a_stamp_is_length_and_time() {
    assert_eq!(bundle_stamp(18_000_000, 1_700_000_000), "18000000-1700000000");
    assert_eq!(bundle_stamp(0, 0), "0-0");
}

#[test]
fn only_a_matching_marker_means_already_staged() {
    assert!(already_staged(true, Some(" 7-9\n"), "7-9"));
    assert!(!already_staged(true, Some("7-8"), "7-9"));
    assert!(!already_staged(true, None, "7-9"));
    assert!(!already_staged(false, Some("7-9"), "7-9"));
}

#[test]
fn the_staged_copy_wins_then_the_bundle_then_path() {
    assert_eq!(first_found(true, &[true], true), Some(Place::Staged));
    assert_eq!(first_found(false, &[false, true], true), Some(Place::Bundled(1)));
    assert_eq!(first_found(false, &[false, false], true), Some(Place::OnPath));
    assert_eq!(first_found(false, &[], false), None);
}

#[test]
fn a_missing_tool_is_named() {
    assert!(not_found_message(Tool::Ffmpeg).starts_with("Could not find ffmpeg."));
}
