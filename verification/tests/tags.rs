use music_app::tags::{clean_tag_name, tag_key};

/// The reason this is not `COLLATE NOCASE`.
#[test]
fn accented_names_fold_to_one_key() {
    assert_eq!(tag_key("Canción"), tag_key("CANCIÓN"));
    assert_eq!(tag_key("Café"), tag_key("CAFÉ"));
    assert_eq!(tag_key("  Rock  "), tag_key("rock"));
}

#[test]
fn distinct_names_keep_distinct_keys() {
    assert_ne!(tag_key("rock"), tag_key("rocks"));
}

#[test]
fn a_blank_name_is_rejected() {
    assert!(clean_tag_name("   ").is_err());
    assert!(clean_tag_name("").is_err());
}

#[test]
fn display_casing_survives_normalisation() {
    let (display, key) = clean_tag_name("  Slowed + Reverb ").unwrap();
    assert_eq!(display, "Slowed + Reverb");
    assert_eq!(key, "slowed + reverb");
}

#[test]
fn renaming_onto_a_taken_name_is_refused_by_name() {
    assert_eq!(
        music_app::tags::rename_error_message("UNIQUE constraint failed: tags.name_key".to_string(), "Chill"),
        "A tag called \"Chill\" already exists.",
    );
    assert_eq!(
        music_app::tags::rename_error_message("disk I/O error".to_string(), "Chill"),
        "disk I/O error",
    );
    assert_eq!(music_app::tags::no_such_tag_message(), "That tag no longer exists.");
    assert_eq!(
        music_app::tags::attach_error_message("FOREIGN KEY constraint failed".to_string()),
        "That track no longer exists.",
    );
}
