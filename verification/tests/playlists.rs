use music_app::playlists::{
    artist_key_of, check_import, clamp_position, clean_name, describe_track_error, pick_avatar,
    rule_key, Direction, PlaylistSort,
};
use music_app::providers::{Provider, SearchKind};
use music_app::soundcloud::Collection;

#[test]
fn an_artist_key_is_trimmed_and_lowercased() {
    assert_eq!(artist_key_of("  Daft Punk "), "daft punk");
    assert_eq!(artist_key_of("DAFT PUNK"), artist_key_of("daft punk"));
    assert_eq!(artist_key_of("Ólafur Arnalds"), "ólafur arnalds");
}

#[test]
fn a_playlist_needs_a_name() {
    assert_eq!(clean_name("  Chill  "), Ok("Chill".to_string()));
    assert_eq!(clean_name("   "), Err("A playlist needs a name.".to_string()));
    assert_eq!(clean_name(""), Err("A playlist needs a name.".to_string()));
}

#[test]
fn an_import_must_come_from_its_provider() {
    assert_eq!(
        check_import(" Discovery ", Provider::YouTube, "https://www.youtube.com/playlist?list=X"),
        Ok("Discovery".to_string()),
    );
    assert_eq!(
        check_import("Discovery", Provider::SoundCloud, "https://www.youtube.com/playlist?list=X"),
        Err("That does not look like a SoundCloud link.".to_string()),
    );
    assert_eq!(
        check_import("", Provider::YouTube, "https://www.youtube.com/playlist?list=X"),
        Err("A playlist needs a name.".to_string()),
    );
}

#[test]
fn a_rule_needs_something_to_match_on() {
    assert_eq!(rule_key("  Justice "), Ok("justice".to_string()));
    assert_eq!(rule_key("  "), Err("That is not a name this can match on.".to_string()));
}

#[test]
fn a_dragged_track_stays_inside_the_playlist() {
    assert_eq!(clamp_position(-3, 5), 0);
    assert_eq!(clamp_position(2, 5), 2);
    assert_eq!(clamp_position(9, 5), 4);
    assert_eq!(clamp_position(9, 0), 0);
}

#[test]
fn a_missing_track_is_named_in_the_error() {
    assert_eq!(
        describe_track_error("FOREIGN KEY constraint failed", 42),
        "Track 42 no longer exists.",
    );
    assert_eq!(describe_track_error("database is locked", 42), "database is locked");
    assert_eq!(describe_track_error("FOREIGN KEY", -7), "Track -7 no longer exists.");
}

#[test]
fn unknowns_sort_last_in_both_directions() {
    assert_eq!(
        PlaylistSort::LastPlayed.order_by(Direction::Desc),
        " ORDER BY p.last_played IS NULL, p.last_played DESC, p.created_at DESC, p.id DESC",
    );
    assert_eq!(
        PlaylistSort::LastPlayed.order_by(Direction::Asc),
        " ORDER BY p.last_played IS NULL, p.last_played ASC, p.created_at ASC, p.id",
    );
    assert_eq!(PlaylistSort::Name.order_by(Direction::Asc), " ORDER BY p.name COLLATE NOCASE ASC, p.id");
    assert_eq!(PlaylistSort::default(), PlaylistSort::LastPlayed);
}

fn artist(title: &str, thumbnail: Option<&str>) -> Collection {
    Collection {
        provider: Provider::SoundCloud,
        kind: SearchKind::Artist,
        url: "https://soundcloud.com/x".to_string(),
        title: title.to_string(),
        uploader: None,
        item_count: None,
        follower_count: None,
        thumbnail_url: thumbnail.map(str::to_string),
    }
}

#[test]
fn only_the_artist_asked_for_lends_a_picture() {
    let found = vec![
        artist("Justice Tribute", Some("https://a/1.jpg")),
        artist("JUSTICE", None),
        artist(" Justice ", Some("https://a/2.jpg")),
    ];
    assert_eq!(pick_avatar(&found, "justice"), Some("https://a/2.jpg".to_string()));
    assert_eq!(pick_avatar(&found, "daft punk"), None);
    assert_eq!(pick_avatar(&Vec::new(), "justice"), None);
}

#[test]
fn a_playlist_lists_hand_added_and_ruled_tracks_in_its_own_order() {
    let q = music_app::playlists::playlist_query(None, 0, music_app::search::TagMode::All, None).unwrap();
    assert!(q.expression.is_none());
    assert_eq!(
        q.sql,
        "SELECT t.id, t.source, t.title, t.artist, t.album, t.duration_secs, t.state, t.cover_key, t.in_library, t.remote_thumbnail_url FROM tracks t LEFT JOIN playlist_tracks pt ON pt.track_id = t.id AND pt.playlist_id = ? WHERE ((pt.track_id IS NOT NULL AND pt.by_rule = 0) OR (t.in_library = 1 AND lower(trim(COALESCE(NULLIF(trim(t.remote_uploader), ''), t.artist))) IN (SELECT artist_key FROM playlist_artist_rules WHERE playlist_id = ?))) AND t.id NOT IN (SELECT track_id FROM playlist_excluded_tracks WHERE playlist_id = ?) ORDER BY (pt.position IS NULL), pt.position, pt.added_at, t.date_added, t.id",
    );
}

#[test]
fn a_filtered_playlist_narrows_without_reordering() {
    let q = music_app::playlists::playlist_query(Some("dark side"), 2, music_app::search::TagMode::All, None).unwrap();
    assert_eq!(q.expression.as_deref(), Some(r#""dark"* AND "side"*"#));
    assert!(q.sql.contains(" JOIN tracks_fts ON tracks_fts.rowid = t.id JOIN track_tags tt ON tt.track_id = t.id WHERE "));
    assert!(q.sql.ends_with(
        " AND tracks_fts MATCH ? AND tt.tag_id IN (?, ?) GROUP BY t.id HAVING COUNT(DISTINCT tt.tag_id) = ? ORDER BY (pt.position IS NULL), pt.position, pt.added_at, t.date_added, t.id"
    ));
    let any = music_app::playlists::playlist_query(None, 1, music_app::search::TagMode::Any, Some(" ORDER BY t.title")).unwrap();
    assert!(any.sql.ends_with(" AND tt.tag_id IN (?) GROUP BY t.id ORDER BY t.title"));
    assert!(music_app::playlists::playlist_query(Some("!!!"), 0, music_app::search::TagMode::All, None).is_none());
}
