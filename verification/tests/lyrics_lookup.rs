use music_app::lyrics::{
    clamp_lyrics_offset, identify, is_unromanised, picked_from_netease, typed_query,
    wants_romanising, worth_asking_again, worth_looking_up, Candidate, Choice, Lookup, Match,
    MAX_OFFSET_MS,
};

fn with_text(synced: Option<&str>, plain: Option<&str>) -> Match {
    Match {
        provider: "lrclib",
        id: 1,
        artist: "A".to_string(),
        title: "T".to_string(),
        duration_ms: Some(200_000),
        synced: synced.map(str::to_string),
        plain: plain.map(str::to_string),
        ..Default::default()
    }
}

#[test]
fn kana_han_and_hangul_want_romanising() {
    assert!(is_unromanised('の'));
    assert!(is_unromanised('カ'));
    assert!(is_unromanised('漢'));
    assert!(is_unromanised('한'));
    assert!(!is_unromanised('é'));
    assert!(!is_unromanised('a'));
}

fn with_lyrics(text: &str) -> Match {
    Match {
        provider: "lrclib",
        artist: "Someone".to_string(),
        title: "Something".to_string(),
        duration_ms: Some(200_000),
        synced: Some(text.to_string()),
        plain: Some("words".to_string()),
        ..Default::default()
    }
}

#[test]
fn only_a_script_this_reader_cannot_follow_wants_romanising() {
    assert!(wants_romanising(&with_lyrics("[00:00.62]教えて教えてよ その仕組みを")));
    assert!(wants_romanising(&with_lyrics("[00:00.62]잊지 말아요")));
    assert!(!wants_romanising(&with_lyrics("[00:00.62]Wake up, grab a brush and put a little makeup")));
}

#[test]
fn accented_latin_is_already_readable() {
    for line in [
        "[00:00.62]Ōrīōn no shita de",
        "[00:00.62]Manos te faltarán para tocarme",
        "[00:00.62]Amnéhilesie, être ou ne pas être",
    ] {
        assert!(!wants_romanising(&with_lyrics(line)), "would have romanised {line}");
    }
}

#[test]
fn a_single_foreign_word_does_not_trigger_it() {
    assert!(!wants_romanising(&with_lyrics(
        "[00:00.62]We say 愛 and mean it, over and over and over again"
    )));
}

#[test]
fn nothing_to_read_wants_nothing() {
    assert!(wants_romanising(&with_text(Some("[00:01.00]夜に駆ける"), None)));
    assert!(!wants_romanising(&with_text(None, None)));
    assert!(!wants_romanising(&with_text(None, Some("12345 !!"))));
}

#[test]
fn a_fifth_of_the_letters_is_enough() {
    // One kana among four Latin letters: exactly a fifth.
    assert!(wants_romanising(&with_text(None, Some("abcdの"))));
    // One among five: under a fifth.
    assert!(!wants_romanising(&with_text(None, Some("abcdeの"))));
    // The timed text is what is read when there is one.
    assert!(!wants_romanising(&with_text(Some("english words"), Some("日本語"))));
}

#[test]
fn a_second_provider_is_asked_only_when_it_can_help() {
    let latin = with_text(None, Some("plain english"));
    let kana = with_text(None, Some("かな"));
    assert!(worth_asking_again(&Choice::Nothing));
    assert!(!worth_asking_again(&Choice::Confident(&latin)));
    assert!(worth_asking_again(&Choice::Confident(&kana)));
    assert!(!worth_asking_again(&Choice::Ambiguous(vec![&latin, &kana])));
}

#[test]
fn a_track_needs_a_title_and_something_to_check_against() {
    let identity = identify(Some("Daft Punk"), "One More Time");
    assert!(worth_looking_up(&identity, None));
    let nameless = identify(None, "One More Time");
    assert!(!worth_looking_up(&nameless, None));
    assert!(worth_looking_up(&nameless, Some(320_000)));
    let untitled = identify(Some("Daft Punk"), "   ");
    assert!(!worth_looking_up(&untitled, Some(320_000)));
}

#[test]
fn a_candidate_is_described_against_our_length() {
    let found = with_text(Some("[00:01.00]x"), None);
    let c = Candidate::of(&found, Some(203_500));
    assert_eq!(c.id, 1);
    assert_eq!(c.delta_ms, Some(3_500));
    assert!(c.synced);
    assert!(!c.romaji);
    assert_eq!(Candidate::of(&found, None).delta_ms, None);
    let lookup = Lookup::found(None);
    assert!(lookup.lyrics.is_none());
    assert!(lookup.candidates.is_empty());
}

#[test]
fn an_offset_is_held_to_thirty_seconds_either_way() {
    assert_eq!(clamp_lyrics_offset(999_999), MAX_OFFSET_MS);
    assert_eq!(clamp_lyrics_offset(-999_999), -MAX_OFFSET_MS);
    assert_eq!(clamp_lyrics_offset(900), 900);
}

#[test]
fn a_typed_query_replaces_the_tags_only_when_it_says_something() {
    assert_eq!(typed_query(Some("  chop suey ")), Some("chop suey".to_string()));
    assert_eq!(typed_query(Some("   ")), None);
    assert_eq!(typed_query(None), None);
}

#[test]
fn a_picked_id_goes_back_to_the_provider_that_issued_it() {
    assert!(picked_from_netease("netease"));
    assert!(!picked_from_netease("lrclib"));
    assert!(!picked_from_netease(""));
}
