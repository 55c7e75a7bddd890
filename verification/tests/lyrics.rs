use music_app::lyrics::{
    decode, identify, parse_lrc, parse_plain, primary_artist, title_covers, LyricLine,
    MAX_OFFSET_MS,
};

fn at(lines: &[LyricLine], index: usize) -> (i64, &str) {
    let line = &lines[index];
    (line.at_ms.expect("synced line"), line.text.as_str())
}

#[test]
fn centiseconds_are_the_default_fraction() {
    let lines = parse_lrc("[00:00.63]one\n[01:05.90]two").unwrap();
    assert_eq!(at(&lines, 0), (630, "one"));
    assert_eq!(at(&lines, 1), (65_900, "two"));
}

#[test]
fn a_three_digit_fraction_is_milliseconds() {
    let lines = parse_lrc("[00:00.630]one\n[00:01.005]two").unwrap();
    assert_eq!(at(&lines, 0).0, 630);
    assert_eq!(at(&lines, 1).0, 1_005);
}

#[test]
fn a_one_digit_fraction_is_tenths() {
    let lines = parse_lrc("[00:00.6]one\n[00:01.2]two").unwrap();
    assert_eq!(at(&lines, 0).0, 600);
    assert_eq!(at(&lines, 1).0, 1_200);
}

#[test]
fn a_timestamp_may_carry_no_fraction_at_all() {
    let lines = parse_lrc("[00:12]one\n[01:30]two").unwrap();
    assert_eq!(at(&lines, 0).0, 12_000);
    assert_eq!(at(&lines, 1).0, 90_000);
}

/// The two three-field forms, told apart by the fractional point.
///
/// Both are real and they disagree by a factor of sixty. `[01:02:03.50]`
/// has an explicit fraction, so its leading field can only be hours;
/// `[01:02:03]` has none, so the trailing field is centiseconds and the
/// leading one is minutes. Asserting both in one test is the point --
/// either rule alone is easy to satisfy and wrong.
#[test]
fn the_three_field_forms_are_told_apart_by_their_fraction() {
    let hours = parse_lrc("[01:02:03.50]one\n[01:02:04.00]two").unwrap();
    assert_eq!(at(&hours, 0).0, 3_723_500);

    let legacy = parse_lrc("[01:02:03]one\n[01:02:04]two").unwrap();
    assert_eq!(at(&legacy, 0).0, 62_030);
}

#[test]
fn header_tags_never_become_lyrics() {
    let text = "[ar:System Of A Down]\n\
                [ti:Chop Suey]\n\
                [al:Toxicity]\n\
                [by:someone]\n\
                [length:03:30]\n\
                [00:12.00]Wake up\n\
                [00:15.00]Grab a brush";

    let lines = parse_lrc(text).unwrap();

    assert_eq!(lines.len(), 2, "only the two timed lines are lyrics");
    assert_eq!(at(&lines, 0), (12_000, "Wake up"));
    assert_eq!(at(&lines, 1), (15_000, "Grab a brush"));
    assert!(
        !lines.iter().any(|l| l.text.contains("System Of A Down")),
        "the artist header was rendered as a lyric"
    );
}

/// `[length:03:30]` is a header whose value looks exactly like a
/// timestamp. Split naively it becomes a line at 3m30s reading nothing.
#[test]
fn a_header_whose_value_looks_like_a_timestamp_is_still_a_header() {
    let lines = parse_lrc("[length:03:30]\n[00:01.00]a\n[00:02.00]b").unwrap();
    assert_eq!(lines.len(), 2);
    assert!(lines.iter().all(|l| l.at_ms.unwrap() < 10_000));
}

/// An unrecognised group is text, not a tag to be swallowed.
#[test]
fn an_unknown_bracket_group_stays_in_the_text() {
    let lines = parse_lrc("[00:12.00][Chorus] la la\n[00:20.00]next").unwrap();
    assert_eq!(at(&lines, 0), (12_000, "[Chorus] la la"));
}

/// A chorus written once with several timestamps appears at each of them,
/// and the result comes back in playing order rather than file order.
#[test]
fn a_repeated_chorus_lands_at_every_timestamp() {
    let text = "[00:41.20][02:15.60]chorus\n[01:00.00]verse";
    let lines = parse_lrc(text).unwrap();

    assert_eq!(lines.len(), 3);
    assert_eq!(at(&lines, 0), (41_200, "chorus"));
    assert_eq!(at(&lines, 1), (60_000, "verse"));
    assert_eq!(at(&lines, 2), (135_600, "chorus"));
}

/// The `[offset:]` header, which is the format's own answer to lyrics that
/// run against the audio. Positive pulls them earlier.
#[test]
fn the_offset_header_shifts_every_line() {
    let lines = parse_lrc("[offset:+250]\n[00:10.00]a\n[00:20.00]b").unwrap();
    assert_eq!(at(&lines, 0).0, 9_750);
    assert_eq!(at(&lines, 1).0, 19_750);

    let back = parse_lrc("[offset:-250]\n[00:10.00]a\n[00:20.00]b").unwrap();
    assert_eq!(at(&back, 0).0, 10_250);
}

/// A shift large enough to push a line before the start clamps at zero
/// rather than going negative and sorting ahead of everything.
#[test]
fn an_offset_cannot_push_a_line_before_the_track_starts() {
    let lines = parse_lrc("[offset:+5000]\n[00:01.00]a\n[00:20.00]b").unwrap();
    assert_eq!(at(&lines, 0).0, 0);
}

/// A timestamp with no words is an instrumental gap and is kept, so the
/// UI can draw something during it instead of holding the previous line.
#[test]
fn a_timestamp_with_no_words_survives() {
    let lines = parse_lrc("[00:10.00]a\n[00:45.00]\n[01:10.00]b").unwrap();
    assert_eq!(lines.len(), 3);
    assert_eq!(at(&lines, 1), (45_000, ""));
}

#[test]
fn a_utf8_bom_does_not_hide_the_first_line() {
    let lines = parse_lrc("\u{feff}[00:01.00]first\n[00:02.00]second").unwrap();
    assert_eq!(at(&lines, 0), (1_000, "first"));
}

#[test]
fn plain_text_is_not_mistaken_for_lrc() {
    assert!(parse_lrc("Wake up\nGrab a brush\nHide the scars").is_none());
}

/// A plain lyric sheet with one stray bracketed timestamp is still a plain
/// lyric sheet. Without the untimed count, two accidental timestamps would
/// be enough to scroll forty lines of prose in fake sync.
#[test]
fn a_sheet_of_prose_with_a_couple_of_timestamps_is_not_synced() {
    let mut text = String::from("[00:01.00]a\n[00:02.00]b\n");
    for n in 0..20 {
        text.push_str(&format!("line {n}\n"));
    }
    assert!(parse_lrc(&text).is_none());
}

#[test]
fn one_timestamp_is_not_enough_to_call_it_synced() {
    assert!(parse_lrc("[00:01.00]only one").is_none());
}

/// Shape pinned against a real lrclib payload, fetched from
/// `/api/get?artist_name=Set It Off&track_name=Duality`.
#[test]
fn a_real_lrclib_payload_parses() {
    let text = "[00:00.63] I cannot quite contain or explain my evil ways\n\
                [00:05.90] Or explain why I am not sane\n\
                [00:09.03] All I can say is this is your warning\n\
                [00:14.20] I cannot quite contain or explain my evil ways";

    let lines = parse_lrc(text).unwrap();
    assert_eq!(lines.len(), 4);
    assert_eq!(
        at(&lines, 0),
        (630, "I cannot quite contain or explain my evil ways")
    );
    assert_eq!(at(&lines, 3).0, 14_200);
}

#[test]
fn header_tags_are_dropped_from_plain_text_too() {
    let plain = parse_plain("[ar:Someone]\n[ti:Something]\nWake up\nGrab a brush");
    assert_eq!(plain, vec!["Wake up", "Grab a brush"]);
}

#[test]
fn stanza_breaks_survive_but_runs_of_them_collapse() {
    let plain = parse_plain("\n\nfirst\n\n\n\nsecond\n\n");
    assert_eq!(plain, vec!["first", "", "second"]);
}

#[test]
fn the_topic_suffix_is_stripped_from_an_artist() {
    let id = identify(Some("Hideki Taniuchi - Topic"), "Kodoku");
    assert_eq!(id.artist.as_deref(), Some("Hideki Taniuchi"));
}

/// The bug this was written for.
///
/// "Vancouver" is in the library twice — once from SoundCloud as
/// `ivycomb`, once from YouTube as `Ivycomb Music`. lrclib has the song
/// and matches `artist_name` as a prefix, so:
///
/// ```text
/// artist_name=ivycomb        -> 3 candidates, one exact
/// artist_name=Ivycomb Music  -> 0
/// ```
///
/// One word of channel decoration was the entire difference between
/// finding the lyrics and finding nothing, and the two rows are the same
/// song — so getting this right also collapses them onto one cache entry.
#[test]
fn a_channel_name_is_reduced_to_the_artists() {
    assert_eq!(
        identify(Some("Ivycomb Music"), "Vancouver").artist.as_deref(),
        Some("Ivycomb")
    );

    // And the two rows now agree about which song this is.
    assert_eq!(
        identify(Some("Ivycomb Music"), "Vancouver").key,
        identify(Some("ivycomb"), "Vancouver").key
    );

    for (channel, artist) in [
        ("Monstercat Records", "Monstercat"),
        ("Somebody Official", "Somebody"),
        ("Somebody Official Music", "Somebody"),
        ("Somebody VEVO", "Somebody"),
        ("Somebody - Topic", "Somebody"),
        ("Rock TV", "Rock"),
        ("Somebody Official Channel", "Somebody"),
    ] {
        assert_eq!(
            identify(Some(channel), "x").artist.as_deref(),
            Some(artist),
            "{channel}"
        );
    }
}

/// The stripping has to stop at word boundaries, or it eats names.
///
/// "MTV" ends in "tv" and is not a channel called "M". A name that is
/// *only* decoration keeps itself, because an artist of "" matches every
/// song ever recorded.
#[test]
fn a_name_is_never_mistaken_for_decoration() {
    for name in ["MTV", "Music", "Official", "VEVO", "Records"] {
        assert_eq!(
            identify(Some(name), "x").artist.as_deref(),
            Some(name),
            "{name} was treated as decoration"
        );
    }
}

#[test]
fn upload_noise_is_stripped_from_a_title() {
    assert_eq!(identify(None, "17_10 (OFFICIAL MUSIC VIDEO)").title, "17_10");
    assert_eq!(identify(None, "[Official] Checking In").title, "Checking In");
    assert_eq!(
        identify(None, "Shore in the Rain\u{3010}BGA\u{3011}").title,
        "Shore in the Rain"
    );
    assert_eq!(identify(None, "Duality (Lyrics)").title, "Duality");
}

/// An artist's own name is not part of their song's title.
///
/// `"ALESTI - Unravel"` is what a filename becomes, and lrclib answers a
/// query for a track called that with nothing: the artist is already its
/// own field, and repeating it inside the title only makes the title
/// wrong.
#[test]
fn an_artists_own_name_is_stripped_from_the_front_of_a_title() {
    for (artist, title) in [
        ("ALESTI", "ALESTI - Unravel"),
        ("ALESTI", "alesti — Unravel"),
        ("ALESTI", "ALESTI | Unravel"),
        ("ALESTI", "ALESTI: Unravel"),
    ] {
        assert_eq!(identify(Some(artist), title).title, "Unravel", "{title}");
    }
}

/// Only ever the artist's *own* name, and only with a separator after it.
#[test]
fn a_title_that_merely_starts_with_a_word_keeps_it() {
    // A different artist entirely: nothing to strip.
    assert_eq!(
        identify(Some("Somebody"), "ALESTI - Unravel").title,
        "ALESTI - Unravel"
    );
    // The name, but as the first word of the title rather than a prefix.
    assert_eq!(
        identify(Some("Vancouver"), "Vancouver Nights").title,
        "Vancouver Nights"
    );
    // Nothing left over is not an improvement, so the prefix strip
    // declines; the dangling separator is then tidied by the ordinary
    // title cleaning, which is why this is "ALESTI" and not "".
    assert_eq!(identify(Some("ALESTI"), "ALESTI -").title, "ALESTI");
}

/// A guest credit is artist information that got typed into the title.
///
/// lrclib files this song as `ALESTI feat. Siamese` / `Unravel`. Asking it
/// for a track called `Unravel (feat. Siamese)` returns zero.
#[test]
fn a_guest_credit_is_not_part_of_the_title() {
    for title in [
        "Unravel (feat. Siamese)",
        "Unravel (ft. Siamese)",
        "Unravel [featuring Siamese]",
    ] {
        assert_eq!(identify(None, title).title, "Unravel", "{title}");
    }

    // Both at once, which is how it is actually stored.
    assert_eq!(
        identify(Some("ALESTI"), "ALESTI - Unravel (feat. Siamese)").title,
        "Unravel"
    );
}

/// The dangerous half. A version marker names a *different recording*, so
/// stripping it would file a remix under the original's lyrics -- and the
/// original's timings would be wrong for every line of it.
#[test]
fn a_version_marker_is_never_stripped() {
    for title in [
        "Infinite (KITSUN3POWR REMIX V3)",
        "His World (Zebrahead Ver)",
        "Duality (Live)",
        "Duality (Acoustic)",
        "Chop Suey (Cover)",
        "Something (Instrumental)",
    ] {
        let cleaned = identify(None, title).title;
        assert_eq!(cleaned, title, "{title} lost the marker that identifies it");
    }
}

/// The reason the cache is keyed on identity at all: a local file and a
/// YouTube upload of one song are two rows and must share one entry.
#[test]
fn the_same_song_from_two_sources_shares_a_key() {
    let local = identify(Some("Set It Off"), "Duality");
    let remote = identify(Some("Set It Off - Topic"), "Duality (Official Music Video)");

    assert_eq!(local.key, remote.key);
}

#[test]
fn different_songs_do_not_share_a_key() {
    let original = identify(Some("Set It Off"), "Duality");
    let remix = identify(Some("Set It Off"), "Duality (KITSUN3POWR REMIX V3)");
    let other = identify(Some("Slipknot"), "Duality");

    assert_ne!(original.key, remix.key);
    assert_ne!(original.key, other.key);
}

/// A title made entirely of noise would otherwise clean down to nothing,
/// and an empty title matches every song in the database.
#[test]
fn a_title_that_is_only_noise_keeps_itself() {
    assert_eq!(
        identify(None, "(Official Music Video)").title,
        "(Official Music Video)"
    );
}

#[test]
fn a_utf16_sidecar_with_a_bom_decodes() {
    let mut le = vec![0xFF, 0xFE];
    for unit in "[00:01.00]hi".encode_utf16() {
        le.extend_from_slice(&unit.to_le_bytes());
    }
    assert_eq!(decode(&le).as_deref(), Some("[00:01.00]hi"));

    let mut be = vec![0xFE, 0xFF];
    for unit in "[00:01.00]hi".encode_utf16() {
        be.extend_from_slice(&unit.to_be_bytes());
    }
    assert_eq!(decode(&be).as_deref(), Some("[00:01.00]hi"));
}

/// Refused rather than decoded lossily. Mojibake shown as lyrics reads as
/// a bug in the app rather than as an unsupported encoding.
#[test]
fn a_non_utf8_sidecar_is_refused_rather_than_mangled() {
    // Shift-JIS for a Japanese syllable -- valid text, invalid UTF-8.
    assert_eq!(decode(&[0x82, 0xA0, 0x82, 0xA2]), None);
}

#[test]
fn an_absurd_offset_is_refused() {
    assert_eq!(999_999i64.clamp(-MAX_OFFSET_MS, MAX_OFFSET_MS), MAX_OFFSET_MS);
    assert_eq!(
        (-999_999i64).clamp(-MAX_OFFSET_MS, MAX_OFFSET_MS),
        -MAX_OFFSET_MS
    );
}

/// Every version marker, against the titles they actually appear in here.
#[test]
fn no_version_marker_ever_covers_a_plain_title() {
    for (ours, theirs) in [
        ("His World (Zebrahead Ver)", "His World"),
        ("Duality (Live)", "Duality"),
        ("Duality (Acoustic)", "Duality"),
        ("Chop Suey (Cover)", "Chop Suey"),
        ("Something (Instrumental)", "Something"),
        ("Duality (Radio Edit)", "Duality"),
        ("Duality (Nightcore)", "Duality"),
        ("Duality (Slowed + Reverb)", "Duality"),
    ] {
        assert!(
            !title_covers(ours, theirs),
            "{ours:?} was treated as {theirs:?}"
        );
    }
}

/// The looseness has to stop somewhere.
///
/// Truncating at a collaborator is safe because it happens to both sides
/// of the comparison, so an odd split cancels out. Two genuinely different
/// artists must still be different.
#[test]
fn a_longer_name_is_not_the_same_artist() {
    assert_eq!(primary_artist("Malcolm X"), primary_artist("Malcolm X"));
    assert_ne!(primary_artist("Queen"), primary_artist("Queen Latifah"));
    assert_eq!(primary_artist("Queen"), primary_artist("Queen & David Bowie"));
    assert_eq!(primary_artist("ALESTI"), primary_artist("ALESTI/Siamese"));
    assert_eq!(primary_artist("ALESTI"), primary_artist("ALESTI feat. Siamese"));
    assert_ne!(primary_artist("Siamese"), primary_artist("ALESTI"));
}

#[test]
fn a_timestamp_too_large_to_hold_is_refused_not_wrapped() {
    let lines =
        parse_lrc("[9223372036854775:00.00]huge\n[00:01.00]one\n[00:02.00]two").unwrap();
    assert_eq!(lines.len(), 2);
    assert_eq!(at(&lines, 0), (1_000, "one"));
    assert_eq!(at(&lines, 1), (2_000, "two"));
}

#[test]
fn a_negative_offset_on_a_late_line_holds_it_at_the_end() {
    let lines = parse_lrc("[offset:-5000]\n[00:01.00]one\n[153722867280912:55.807]late").unwrap();
    assert_eq!(at(&lines, 0), (6_000, "one"));
    assert_eq!(at(&lines, 1), (i64::MAX, "late"));
}

#[test]
fn an_identity_is_in_normal_form() {
    let id = identify(Some("  Daft   Punk  "), "\tOne   More\u{a0} Time  ");
    assert_eq!(id.artist.as_deref(), Some("Daft Punk"));
    assert_eq!(id.title, "One More Time");
    let blank = identify(None, " \t \u{3000}");
    assert_eq!(blank.artist, None);
    assert_eq!(blank.title, "");
    assert_eq!(identify(Some("   "), "x").artist, None);
}

#[test]
fn prose_and_too_few_timestamps_are_not_lrc() {
    assert!(parse_lrc("Wake up\nGrab a brush\nHide the scars").is_none());
    assert!(parse_lrc("[00:01.00]only one").is_none());
    let mut text = String::from("[00:01.00]one\n[00:02.00]two\n");
    for _ in 0..20 {
        text.push_str("untimed prose\n");
    }
    assert!(parse_lrc(&text).is_none());
    let lines = parse_lrc("[00:01.00][00:02.00]twice\nprose").unwrap();
    assert_eq!(lines.len(), 2);
}

#[test]
fn repeated_lines_collapse_and_texts_are_trimmed() {
    let lines = parse_lrc("[00:01.00]  same  \n[00:01.00]same\n[00:02.00] next").unwrap();
    assert_eq!(lines.len(), 2);
    assert_eq!(at(&lines, 0), (1_000, "same"));
    assert_eq!(at(&lines, 1), (2_000, "next"));
}
