use music_app::providers::{Provider, SearchKind};
use music_app::soundcloud::{
    artist_tracks_url, classify_status, client_id_in, fill_batch, ids_param, playable_rows,
    script_urls, set_rows, Answer, Entry, EntryTrack, EntryUser, Rejected, Resolved,
    SearchResult, TrackDetail,
};

#[test]
fn a_minified_client_id_is_found_in_either_form() {
    assert_eq!(
        client_id_in(r#"x.client_id:"abcdefghij0123456789ABCDEFGHIJ01",y"#).as_deref(),
        Some("abcdefghij0123456789ABCDEFGHIJ01")
    );
    assert_eq!(
        client_id_in(r#"var client_id="abcdefghij0123456789ABCDEFGHIJ01";"#).as_deref(),
        Some("abcdefghij0123456789ABCDEFGHIJ01")
    );
}

#[test]
fn something_shorter_is_not_mistaken_for_a_key() {
    // A megabyte of minified JavaScript contains the words `client_id` in
    // places that are not the key. Length is what tells them apart.
    assert!(client_id_in(r#"client_id:"short""#).is_none());
    assert!(client_id_in(r#"client_id:"" "#).is_none());
    assert!(client_id_in("client_id").is_none());
    assert!(client_id_in("no key at all").is_none());
}

#[test]
fn a_real_key_is_found_past_an_earlier_mention() {
    // The first occurrence is usually a parameter name, not a value.
    let script = r#"function f(client_id){}...{client_id:"abcdefghij0123456789ABCDEFGHIJ01"}"#;
    assert_eq!(
        client_id_in(script).as_deref(),
        Some("abcdefghij0123456789ABCDEFGHIJ01")
    );
}

#[test]
fn only_javascript_on_the_asset_host_is_collected() {
    let html = r#"
        <script src="https://a-v2.sndcdn.com/assets/0-abc.js"></script>
        <script src="https://a-v2.sndcdn.com/assets/1-def.js"></script>
        <link href="https://a-v2.sndcdn.com/assets/style.css">
        <script src="https://example.com/other.js"></script>
    "#;

    assert_eq!(
        script_urls(html),
        vec![
            "https://a-v2.sndcdn.com/assets/0-abc.js",
            "https://a-v2.sndcdn.com/assets/1-def.js"
        ]
    );
}

#[test]
fn only_a_bare_user_url_gets_the_tracks_tab() {
    assert_eq!(
        artist_tracks_url("https://soundcloud.com/daftpunk"),
        "https://soundcloud.com/daftpunk/tracks"
    );
    assert_eq!(
        artist_tracks_url("https://soundcloud.com/daftpunk/"),
        "https://soundcloud.com/daftpunk/tracks"
    );
    // A tab the caller chose on purpose is left alone.
    assert_eq!(
        artist_tracks_url("https://soundcloud.com/daftpunk/likes"),
        "https://soundcloud.com/daftpunk/likes"
    );
    assert_eq!(
        artist_tracks_url("https://soundcloud.com/daftpunk/tracks"),
        "https://soundcloud.com/daftpunk/tracks"
    );
}

fn entry(title: Option<&str>, username: Option<&str>, url: Option<&str>) -> Entry {
    Entry {
        permalink_url: url.map(str::to_string),
        title: title.map(str::to_string),
        username: username.map(str::to_string),
        track_count: None,
        followers_count: None,
        artwork_url: None,
        avatar_url: None,
        user: None,
        tracks: Vec::new(),
    }
}

#[test]
fn a_playlist_entry_becomes_a_collection() {
    let mut e = entry(
        Some("Discovery"),
        None,
        Some("https://soundcloud.com/daftpunkofficialmusic/sets/discovery-8"),
    );
    e.track_count = Some(14);
    e.artwork_url = Some("https://i1.sndcdn.com/artworks-large.jpg".to_string());
    e.user = Some(EntryUser {
        username: Some("Daft Punk".to_string()),
        avatar_url: Some("https://i1.sndcdn.com/avatars.jpg".to_string()),
        permalink_url: None,
    });
    let collection = e.into_collection(SearchKind::Playlist).unwrap();
    assert_eq!(collection.title, "Discovery");
    assert_eq!(collection.uploader.as_deref(), Some("Daft Punk"));
    assert_eq!(collection.item_count, Some(14));
    assert_eq!(collection.thumbnail_url.as_deref(), Some("https://i1.sndcdn.com/artworks-large.jpg"));
    assert_eq!(collection.provider, Provider::SoundCloud);
}

#[test]
fn a_playlist_with_no_cover_borrows_its_first_tracks() {
    let mut e = entry(Some("Untitled"), None, Some("https://soundcloud.com/u/sets/x"));
    e.tracks = vec![EntryTrack { artwork_url: Some("https://i1.sndcdn.com/first-track.jpg".to_string()) }];
    assert_eq!(
        e.into_collection(SearchKind::Playlist).unwrap().thumbnail_url.as_deref(),
        Some("https://i1.sndcdn.com/first-track.jpg"),
    );
}

#[test]
fn only_a_playlist_is_credited_to_someone() {
    let make = || {
        let mut e = entry(
            Some("Discovery"),
            Some("Daft Punk"),
            Some("https://soundcloud.com/daftpunkofficialmusic/sets/x"),
        );
        e.user = Some(EntryUser { username: Some("Daft Punk".to_string()), avatar_url: None, permalink_url: None });
        e
    };
    assert_eq!(make().into_collection(SearchKind::Playlist).unwrap().uploader.as_deref(), Some("Daft Punk"));
    assert_eq!(make().into_collection(SearchKind::Artist).unwrap().uploader, None);
}

#[test]
fn an_entry_pointing_somewhere_else_is_dropped() {
    assert!(entry(Some("Evil"), None, Some("https://example.com/x"))
        .into_collection(SearchKind::Playlist)
        .is_none());
    assert!(entry(Some("Nowhere"), None, None).into_collection(SearchKind::Playlist).is_none());
}

#[test]
fn a_resolved_user_is_named_by_username() {
    let r = Resolved {
        title: Some("Daft Punk (All)".to_string()),
        username: Some("Daft Punk".to_string()),
        track_count: Some(3),
        followers_count: Some(9),
        artwork_url: None,
        avatar_url: Some("a.jpg".to_string()),
        user: None,
        tracks: Vec::new(),
    };
    let c = r.into_collection(SearchKind::Artist, "https://soundcloud.com/daftpunk");
    assert_eq!(c.title, "Daft Punk");
    assert_eq!(c.uploader, None);
    assert_eq!(c.thumbnail_url.as_deref(), Some("a.jpg"));
}

fn detail(id: u64, title: Option<&str>, url: Option<&str>) -> TrackDetail {
    TrackDetail {
        id,
        title: title.map(str::to_string),
        duration: Some(201_000),
        permalink_url: url.map(str::to_string),
        artwork_url: None,
        user: Some(EntryUser {
            username: Some("Someone".to_string()),
            avatar_url: Some("avatar.jpg".to_string()),
            permalink_url: Some("https://soundcloud.com/someone".to_string()),
        }),
    }
}

#[test]
fn stubs_become_rows_and_details_fill_them_in_by_id() {
    let set = vec![
        detail(11, Some("First"), Some("https://soundcloud.com/someone/first")),
        TrackDetail { id: 22, title: None, duration: None, permalink_url: None, artwork_url: None, user: None },
        TrackDetail { id: 33, title: None, duration: None, permalink_url: None, artwork_url: None, user: None },
    ];
    let rows = set_rows(set, 10).unwrap();
    assert_eq!(rows.len(), 3);
    assert_eq!(rows[1].remote_id, "22");
    assert_eq!(rows[1].title, "(untitled)");
    assert!(rows[1].remote_url.is_empty());

    assert_eq!(ids_param(&rows, 1, 3), "22%2C33");

    // Answered out of order, and one of them not at all.
    let details = vec![detail(22, Some("Second"), Some("https://soundcloud.com/someone/second"))];
    let rows = fill_batch(rows, 1, 3, &details);
    assert_eq!(rows[1].title, "Second");
    assert_eq!(rows[1].remote_url, "https://soundcloud.com/someone/second");
    assert_eq!(rows[1].channel.as_deref(), Some("Someone"));
    assert_eq!(rows[1].duration_ms, Some(201_000));
    assert_eq!(rows[1].thumbnail_url.as_deref(), Some("avatar.jpg"));
    assert_eq!(rows[2].title, "(untitled)");

    let playable = playable_rows(rows);
    let ids: Vec<&str> = playable.iter().map(|r: &SearchResult| r.remote_id.as_str()).collect();
    assert_eq!(ids, vec!["11", "22"]);
}

#[test]
fn an_empty_set_is_refused() {
    assert_eq!(set_rows(Vec::new(), 10).err().as_deref(), Some("There is nothing in that playlist."));
}

#[test]
fn a_rejected_key_is_the_only_retryable_failure() {
    assert_eq!(classify_status(401), Answer::StaleKey);
    assert_eq!(classify_status(403), Answer::StaleKey);
    assert_eq!(classify_status(200), Answer::Fine);
    assert_eq!(classify_status(500), Answer::Refused);
    assert!(Rejected::Stale.into_message().starts_with("SoundCloud would not accept"));
    assert_eq!(Rejected::Other("x".to_string()).into_message(), "x");
}

#[test]
fn a_user_entry_becomes_an_artist() {
    let mut e = entry(None, Some("Daft Punk"), Some("https://soundcloud.com/daftpunkofficialmusic"));
    e.track_count = Some(216);
    e.avatar_url = Some("https://i1.sndcdn.com/avatars.jpg".to_string());

    let collection = e.into_collection(SearchKind::Artist).unwrap();
    assert_eq!(collection.title, "Daft Punk");
    assert_eq!(collection.item_count, Some(216));
    assert_eq!(collection.thumbnail_url.as_deref(), Some("https://i1.sndcdn.com/avatars.jpg"));
}

#[test]
fn an_entry_with_no_url_is_dropped() {
    assert!(entry(Some("Nowhere"), None, None).into_collection(SearchKind::Playlist).is_none());
}
