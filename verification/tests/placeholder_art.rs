use music_app::placeholder_art::{encode_placeholder, file_name, hash, seed_for, EDGE};

/// Pinned against the frontend's own hash, run over the same strings.
///
/// This is the thing that keeps the two pictures the same. Everything
/// below derives from this number, so a drift here is a silent
/// disagreement between the panel and the tile.
#[test]
fn the_hash_matches_the_frontend() {
    for (seed, expected) in [
        ("untitled", 2_367_458_136_u32),
        ("ALESTI::Unravel", 1_713_495_428),
        ("::Kodoku", 3_578_081_122),
        ("Hideki Taniuchi - Topic::Light no Theme", 1_616_306_272),
    ] {
        assert_eq!(hash(seed), expected, "hash drifted for {seed:?}");
    }
}

/// An empty seed is "untitled", the same substitution the frontend makes.
#[test]
fn an_empty_seed_is_not_a_different_colour_from_untitled() {
    assert_eq!(file_name(""), file_name("untitled"));
}

/// Different tracks get different art, which is the whole point.
#[test]
fn two_tracks_do_not_share_a_picture() {
    assert_ne!(
        file_name("ALESTI::Unravel"),
        file_name("Hideki Taniuchi - Topic::Light no Theme")
    );
}

/// The seed has to be the frontend's, or the two pictures diverge for
/// every track with no artist -- which is most of a scanned library.
#[test]
fn the_seed_matches_the_frontend_shape() {
    assert_eq!(seed_for("Unravel", Some("ALESTI")), "ALESTI::Unravel");
    assert_eq!(seed_for("Kodoku", None), "::Kodoku");
}

#[test]
fn the_gradient_matches_the_frontend() {
    let g = music_app::placeholder_art::gradient_degrees("ALESTI::Unravel");
    assert_eq!(g.hue, 188);
    assert_eq!(g.second_hue, (188 + 54) % 360);
    assert_eq!(g.angle, 162);
}

#[test]
fn a_file_name_is_eight_hex_digits_and_an_extension() {
    assert_eq!(file_name("untitled"), format!("{:08x}.jpg", 2_367_458_136_u32));
    assert_eq!(file_name("::Kodoku"), format!("{:08x}.jpg", 3_578_081_122_u32));
}

#[test]
fn every_gradient_stays_in_its_ranges() {
    for seed in ["", "untitled", "ALESTI::Unravel", "::Kodoku", "a", "Ω", "Hideki Taniuchi - Topic::Light no Theme"] {
        let g = music_app::placeholder_art::gradient_degrees(seed);
        assert!(g.hue < 360 && g.second_hue < 360);
        let shift = (g.second_hue + 360 - g.hue) % 360;
        assert!((24..=67).contains(&shift), "{seed:?}: shift {shift}");
        assert!((110..=169).contains(&g.angle), "{seed:?}: angle {}", g.angle);
    }
}

#[test]
fn a_drawn_placeholder_encodes_as_a_jpeg() {
    let pixels = vec![200u8; (EDGE * EDGE * 3) as usize];
    let jpeg = encode_placeholder(&pixels).unwrap();
    assert_eq!(&jpeg[..2], &[0xFF, 0xD8]);
    assert_eq!(&jpeg[jpeg.len() - 2..], &[0xFF, 0xD9]);
}
