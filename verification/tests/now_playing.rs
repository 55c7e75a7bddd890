use music_app::media_controls::Update;
use music_app::now_playing::{cover_url_for, track_meta, PanelTracker};
use music_app::player::PlaybackState;

#[test]
fn a_track_is_announced_only_when_it_changes() {
    let mut panel = PanelTracker::new();
    let step = panel.state(PlaybackState::Loading, Some(7));
    assert_eq!(step.announce, Some(7));
    assert!(matches!(step.update, Update::Playing(0)), "loading shows as playing");

    panel.progress(12_000);
    let step = panel.state(PlaybackState::Paused, Some(7));
    assert_eq!(step.announce, None);
    assert!(matches!(step.update, Update::Paused(12_000)));

    let step = panel.state(PlaybackState::Playing, Some(8));
    assert_eq!(step.announce, Some(8));

    let step = panel.state(PlaybackState::Stopped, None);
    assert_eq!(step.announce, None);
    assert!(matches!(step.update, Update::Stopped));
}

#[test]
fn the_cover_path_is_passed_raw() {
    assert_eq!(cover_url_for(r"D:\My Music\a.jpg"), r"file://D:\My Music\a.jpg");
}

#[test]
fn only_a_known_length_is_shown() {
    let meta = track_meta("Unravel".to_string(), Some("ALESTI".to_string()), Some("Singles".to_string()), Some(241), Some("/c/abc.jpg"));
    assert_eq!(meta.title, "Unravel");
    assert_eq!(meta.duration, Some(241_000));
    assert_eq!(meta.cover_url.as_deref(), Some("file:///c/abc.jpg"));
    let meta = track_meta("Live".to_string(), None, None, Some(0), None);
    assert_eq!(meta.duration, None);
    assert_eq!(meta.cover_url, None);
}
