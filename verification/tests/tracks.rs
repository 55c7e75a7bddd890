use music_app::tracks::FILED_CHUNK;

/// An opened artist page can carry more results than one statement may
/// bind, so the command chunks. This is the arithmetic that does it.
#[test]
fn every_id_lands_in_exactly_one_chunk() {
    let ids: Vec<String> = (0..FILED_CHUNK * 2 + 7).map(|i| i.to_string()).collect();

    let chunked: Vec<&String> = ids.chunks(FILED_CHUNK).flatten().collect();

    assert_eq!(chunked.len(), ids.len());
    assert!(ids.chunks(FILED_CHUNK).all(|c| c.len() <= FILED_CHUNK));
}

#[test]
fn the_recent_list_is_bounded() {
    assert_eq!(music_app::tracks::recent_limit(None), 50);
    assert_eq!(music_app::tracks::recent_limit(Some(0)), 1);
    assert_eq!(music_app::tracks::recent_limit(Some(20)), 20);
    assert_eq!(music_app::tracks::recent_limit(Some(10_000)), 500);
}
