use music_app::media_controls::{
    button_for, retry_after_refusal, spawn, Button, MediaBridge, MediaSession, Playback,
    PlatformEvent, TrackMeta, Update,
};

fn meta(title: &str) -> TrackMeta {
    TrackMeta {
        title: title.to_string(),
        artist: Some("Artist".to_string()),
        album: None,
        duration: Some(200_000),
        cover_url: Some("file:///covers/a.jpg".to_string()),
    }
}

#[test]
fn a_playback_change_resends_the_track_behind_it() {
    let mut session = MediaSession::new();

    let panel = session.apply(Update::Playing(0));
    assert!(panel.metadata.is_none());
    assert_eq!(panel.playback, Some(Playback::Playing(0)));

    let panel = session.apply(Update::Track(meta("One")));
    assert_eq!(panel.metadata.as_ref().map(|m| m.title.as_str()), Some("One"));
    assert_eq!(panel.playback, None);

    let panel = session.apply(Update::Paused(5000));
    assert_eq!(panel.metadata.as_ref().map(|m| m.title.as_str()), Some("One"));
    assert_eq!(panel.metadata.as_ref().and_then(|m| m.duration), Some(200_000));
    assert_eq!(panel.playback, Some(Playback::Paused(5000)));

    let panel = session.apply(Update::Stopped);
    assert!(panel.metadata.is_none());
    assert_eq!(panel.playback, Some(Playback::Stopped));

    let panel = session.apply(Update::Playing(0));
    assert!(panel.metadata.is_none(), "stopping forgets the track");
}

#[test]
fn sending_after_the_thread_has_gone_is_not_an_error() {
    let (tx, rx) = std::sync::mpsc::channel();
    let bridge = MediaBridge::new(tx);
    bridge.send(Update::Stopped);
    assert!(matches!(rx.recv(), Ok(Update::Stopped)));
    drop(rx);
    bridge.send(Update::Playing(1));
}

#[test]
fn without_a_platform_session_there_is_no_bridge() {
    assert!(spawn(0, |_button: Button| {}).is_none());
}

#[test]
fn only_presses_reach_the_buttons() {
    assert_eq!(button_for(PlatformEvent::Play), Some(Button::Play));
    assert_eq!(button_for(PlatformEvent::Toggle), Some(Button::Toggle));
    assert_eq!(button_for(PlatformEvent::Stop), Some(Button::Stop));
    assert_eq!(button_for(PlatformEvent::Seek), None);
    assert_eq!(button_for(PlatformEvent::SetVolume), None);
    assert_eq!(button_for(PlatformEvent::Quit), None);
}

#[test]
fn a_refused_update_is_retried_once_without_artwork() {
    let sent = TrackMeta {
        title: "Duality".to_string(),
        artist: Some("Slipknot".to_string()),
        album: None,
        duration: Some(252_000),
        cover_url: Some("file:///covers/a.jpg".to_string()),
    };
    let retry = retry_after_refusal(&sent, false).unwrap();
    assert_eq!(retry.title, "Duality");
    assert_eq!(retry.artist.as_deref(), Some("Slipknot"));
    assert_eq!(retry.duration, Some(252_000));
    assert_eq!(retry.cover_url, None);
    assert!(retry_after_refusal(&retry, true).is_none());
}
