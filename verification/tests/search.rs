use music_app::search::{display_artist, to_fts_expression};

#[test]
fn each_word_becomes_a_prefix_term() {
    assert_eq!(
        to_fts_expression("dark side").as_deref(),
        Some(r#""dark"* AND "side"*"#)
    );
}

/// The whole reason for sanitising: these are FTS5 operators, not text.
#[test]
fn operators_cannot_reach_the_match_expression() {
    let expression = to_fts_expression("AC/DC \"back\" OR *").unwrap();

    assert!(!expression.contains(" OR "), "got: {expression}");
    assert!(!expression.contains("/"), "got: {expression}");
    // Every term is quoted, so none of them can parse as syntax.
    assert!(expression.starts_with('"'), "got: {expression}");
}

#[test]
fn accented_words_stay_whole() {
    let expression = to_fts_expression("canción").unwrap();
    assert_eq!(expression, "\"canción\"*");
}

#[test]
fn a_query_with_nothing_searchable_yields_nothing() {
    assert_eq!(to_fts_expression("   "), None);
    assert_eq!(to_fts_expression("--- ***"), None);
    assert_eq!(to_fts_expression(""), None);
}

#[test]
fn unknown_artists_share_one_heading() {
    assert_eq!(display_artist(None), "Unknown Artist");
    assert_eq!(display_artist(Some("")), "Unknown Artist");
    assert_eq!(display_artist(Some("   ")), "Unknown Artist");
}

#[test]
fn surrounding_space_does_not_split_an_artist() {
    assert_eq!(display_artist(Some("Radiohead ")), "Radiohead");
    assert_eq!(display_artist(Some(" Radiohead")), "Radiohead");
}
