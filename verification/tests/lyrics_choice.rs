use music_app::lyrics::{
    cached_answer, choose_candidate, from_text, identify, Cached, CachedRow, Choice, Kind, Match,
    MAX_OFFSET_MS, NEGATIVE_HOLDS_FOR_SECS,
};

const LRC: &str = "[00:01.00]one\n[00:02.00]two";

fn candidate(artist: &str, title: &str, duration_ms: i64) -> Match {
    Match {
        provider: "lrclib",
        artist: artist.to_string(),
        title: title.to_string(),
        duration_ms: Some(duration_ms),
        plain: Some("words".to_string()),
        ..Default::default()
    }
}

fn synced_candidate(artist: &str, title: &str, duration_ms: i64) -> Match {
    Match { synced: Some(LRC.to_string()), plain: None, ..candidate(artist, title, duration_ms) }
}

#[test]
fn the_first_result_is_not_automatically_the_answer() {
    let candidates = [
        synced_candidate("August Burns Red", "Chop Suey!", 227_000),
        synced_candidate("System Of A Down", "Chop Suey!", 50_000),
        synced_candidate("System of a Down", "Chop Suey!", 224_000),
    ];
    let identity = identify(Some("System Of A Down"), "Chop Suey!");
    let chosen = choose_candidate(&candidates, &identity, Some(224_000)).confident().expect("a confident match");
    assert_eq!(chosen.artist, "System of a Down");
    assert_eq!(chosen.duration_ms, Some(224_000));
}

#[test]
fn a_stub_of_the_wrong_length_is_rejected() {
    let candidates = [synced_candidate("System Of A Down", "Chop Suey!", 50_000)];
    let identity = identify(Some("System Of A Down"), "Chop Suey!");
    assert!(choose_candidate(&candidates, &identity, Some(224_000)).is_nothing());
}

#[test]
fn trailing_silence_does_not_reject_the_right_lyrics() {
    let candidates = [synced_candidate("Set It Off", "Duality", 224_000)];
    let identity = identify(Some("Set It Off"), "Duality");
    assert!(
        choose_candidate(&candidates, &identity, Some(224_000 + 14_600)).confident().is_some(),
        "14.6s of trailing silence rejected a match"
    );
    assert!(
        choose_candidate(&candidates, &identity, Some(224_000 + 30_000)).is_nothing(),
        "half a minute over is a different thing"
    );
}

#[test]
fn a_release_much_longer_than_our_copy_is_rejected() {
    let candidates = [synced_candidate("Set It Off", "Duality", 244_000)];
    let identity = identify(Some("Set It Off"), "Duality");
    assert!(choose_candidate(&candidates, &identity, Some(224_000)).is_nothing());
}

#[test]
fn catalogue_context_is_allowed_but_a_different_recording_is_not() {
    let identity = identify(None, "Celeste Original Soundtrack - 06 - Checking In");
    let candidates = [synced_candidate("Lena Raine", "Checking In", 425_000)];
    assert!(choose_candidate(&candidates, &identity, Some(425_000)).confident().is_some());

    let remix = identify(None, "Infinite (KITSUN3POWR REMIX V3)");
    let original = [synced_candidate("Whoever", "Infinite", 224_000)];
    assert!(choose_candidate(&original, &remix, Some(224_000)).is_nothing());
}

#[test]
fn punctuation_does_not_break_a_title_match() {
    let identity = identify(None, "Chop Suey!");
    let candidates = [synced_candidate("System of a Down", "Chop Suey", 224_000)];
    assert!(choose_candidate(&candidates, &identity, Some(224_000)).confident().is_some());
}

#[test]
fn an_unrelated_title_is_refused_even_at_the_right_length() {
    let identity = identify(None, "Duality");
    let candidates = [synced_candidate("Whoever", "Something Else", 224_000)];
    assert!(choose_candidate(&candidates, &identity, Some(224_000)).is_nothing());
}

#[test]
fn without_an_artist_or_a_duration_nothing_is_chosen() {
    let candidates = [synced_candidate("Whoever", "Duality", 224_000)];
    let identity = identify(None, "Duality");
    assert!(choose_candidate(&candidates, &identity, None).is_nothing());
}

#[test]
fn synced_lyrics_beat_a_closer_length_without_them() {
    let candidates = [candidate("Set It Off", "Duality", 224_000), synced_candidate("Set It Off", "Duality", 226_000)];
    let identity = identify(Some("Set It Off"), "Duality");
    let chosen = choose_candidate(&candidates, &identity, Some(224_000)).confident().expect("a confident match");
    assert!(chosen.synced.is_some());
}

#[test]
fn an_instrumental_candidate_can_be_chosen() {
    let candidates = [Match {
        provider: "lrclib",
        artist: "Lena Raine".to_string(),
        title: "Checking In".to_string(),
        duration_ms: Some(425_000),
        instrumental: true,
        ..Default::default()
    }];
    let identity = identify(Some("Lena Raine"), "Checking In");
    let chosen = choose_candidate(&candidates, &identity, Some(425_000)).confident().expect("a confident match");
    assert!(chosen.instrumental);
}

#[test]
fn a_row_with_nothing_in_it_is_never_chosen() {
    let candidates = [Match {
        provider: "lrclib",
        artist: "Set It Off".to_string(),
        title: "Duality".to_string(),
        duration_ms: Some(224_000),
        ..Default::default()
    }];
    let identity = identify(Some("Set It Off"), "Duality");
    assert!(choose_candidate(&candidates, &identity, Some(224_000)).is_nothing());
}

#[test]
fn a_romanised_match_wins_a_tie() {
    let plain_jp = Match { provider: "lrclib", synced: Some(LRC.to_string()), ..candidate("TK", "unravel", 240_000) };
    let romanised = Match {
        provider: "netease",
        synced: Some(LRC.to_string()),
        romaji: Some(LRC.to_string()),
        ..candidate("TK", "unravel", 240_000)
    };
    let identity = identify(Some("TK"), "unravel");
    let candidates = [plain_jp, romanised];
    let chosen = choose_candidate(&candidates, &identity, Some(240_000)).confident().expect("a confident match");
    assert_eq!(chosen.provider, "netease");
    assert!(chosen.romaji.is_some());
}

#[test]
fn a_matching_artist_settles_it() {
    let candidates = [
        synced_candidate("Jeff Buckley", "Vancouver", 220_000),
        synced_candidate("ivycomb", "Vancouver", 223_000),
    ];
    let chosen = choose_candidate(&candidates, &identify(Some("Ivycomb Music"), "Vancouver"), Some(223_000))
        .confident()
        .expect("the artist matched, so there is nothing to ask about");
    assert_eq!(chosen.artist, "ivycomb");
}

#[test]
fn a_single_survivor_is_answer_enough() {
    let candidates = [
        synced_candidate("Whoever", "Vancouver", 223_000),
        synced_candidate("Someone Else", "Vancouver", 400_000),
    ];
    assert!(choose_candidate(&candidates, &identify(None, "Vancouver"), Some(223_000)).confident().is_some());
}

#[test]
fn several_songs_that_merely_share_a_name_are_a_question_not_an_answer() {
    let candidates = [
        synced_candidate("Jeff Buckley", "Vancouver", 220_000),
        synced_candidate("Véronique Sanson", "Vancouver", 227_000),
        synced_candidate("Kingfishr", "Vancouver", 239_000),
    ];
    let identity = identify(None, "Vancouver");
    let Choice::Ambiguous(shortlist) = choose_candidate(&candidates, &identity, Some(223_000)) else {
        panic!("picked one of three unrelated songs that share a title");
    };
    assert_eq!(shortlist.len(), 2);
    // Best guess first: the nearer length.
    assert_eq!(shortlist[0].artist, "Jeff Buckley");
}

#[test]
fn a_guest_credit_does_not_make_it_a_different_artist() {
    let candidates = [
        candidate("ALESTI", "Unravel", 215_000),
        Match { synced: Some(LRC.to_string()), plain: None, ..candidate("ALESTI feat. Siamese", "Unravel", 216_000) },
    ];
    let identity = identify(Some("ALESTI"), "ALESTI - Unravel (feat. Siamese)");
    let chosen = choose_candidate(&candidates, &identity, Some(216_000)).confident().expect("a confident match");
    assert!(chosen.synced.is_some());
}

#[test]
fn text_is_read_as_whichever_kind_it_is() {
    let synced = from_text(LRC, Some("[00:01.00]ichi\n[00:02.00]ni"), "sidecar", 250).unwrap();
    assert_eq!(synced.kind, Kind::Synced);
    assert_eq!(synced.lines.len(), 2);
    assert_eq!(synced.origin, "sidecar");
    assert_eq!(synced.offset_ms, 250);
    assert_eq!(synced.romaji.as_ref().map(|r| r.len()), Some(2));

    let plain = from_text("one\n\ntwo", Some("[00:01.00]x\n[00:02.00]y"), "embedded", 0).unwrap();
    assert_eq!(plain.kind, Kind::Plain);
    assert!(plain.lines.iter().all(|l| l.at_ms.is_none()));
    assert_eq!(plain.lines.len(), 3);
    assert!(plain.romaji.is_none(), "a romanisation is only offered with timed lyrics");

    assert!(from_text("[ar:Someone]\n\n", None, "sidecar", 0).is_none());
}

fn row(synced: Option<&str>, plain: Option<&str>, instrumental: i64, age_secs: i64) -> CachedRow {
    CachedRow {
        synced: synced.map(str::to_string),
        plain: plain.map(str::to_string),
        romaji: None,
        instrumental,
        provider: "lrclib".to_string(),
        age_secs,
    }
}

#[test]
fn a_cached_row_means_lyrics_instrumental_or_a_negative() {
    assert!(matches!(cached_answer(None, 0), Cached::Worth));
    match cached_answer(Some(row(Some(LRC), None, 0, 0)), 40) {
        Cached::Hit(l) => {
            assert_eq!(l.kind, Kind::Synced);
            assert_eq!(l.offset_ms, 40);
        }
        _ => panic!("synced text is a hit"),
    }
    match cached_answer(Some(row(Some("  "), Some("words"), 0, 0)), 0) {
        Cached::Hit(l) => assert_eq!(l.kind, Kind::Plain),
        _ => panic!("plain text is a hit"),
    }
    match cached_answer(Some(row(None, None, 1, 0)), 0) {
        Cached::Hit(l) => {
            assert_eq!(l.kind, Kind::Instrumental);
            assert!(l.lines.is_empty());
            assert_eq!(l.origin, "lrclib");
        }
        _ => panic!("instrumental is a positive answer"),
    }
    assert!(matches!(cached_answer(Some(row(None, None, 0, 10)), 0), Cached::Empty));
    assert!(matches!(cached_answer(Some(row(None, None, 0, NEGATIVE_HOLDS_FOR_SECS)), 0), Cached::Worth));
    assert!(cached_answer(Some(row(None, None, 0, 10)), 0).into_hit().is_none());
}

#[test]
fn the_offset_bound_is_thirty_seconds() {
    assert_eq!(MAX_OFFSET_MS, 30_000);
}
