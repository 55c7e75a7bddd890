use music_app::scanner::{
    filename_title, is_audio, metadata_from_tags, non_empty, preferred_picture, split_by_disk,
    FileEntry, KnownFile, ReadOutcome, ScanLock, ScanSummary, MAX_REPORTED_SKIPS,
};

#[test]
fn audio_extensions_are_matched_case_insensitively() {
    assert!(is_audio("a.mp3"));
    assert!(is_audio("a.MP3"));
    assert!(is_audio("a.FlAc"));
}

#[test]
fn non_audio_files_are_rejected() {
    assert!(!is_audio("cover.jpg"));
    assert!(!is_audio("notes.txt"));
    assert!(!is_audio("no_extension"));
}

#[test]
fn the_fallback_title_drops_the_extension() {
    assert_eq!(filename_title(r"D:\music\Song Name.mp3"), "Song Name");
}

#[test]
fn blank_tag_values_are_treated_as_absent() {
    assert_eq!(non_empty("   "), None);
    assert_eq!(non_empty("  Artist "), Some("Artist".to_string()));
}

#[test]
fn a_second_scan_cannot_start_while_one_is_running() {
    let lock = ScanLock::new();
    let first = lock.try_acquire();
    assert!(first.is_some());
    assert!(lock.try_acquire().is_none());

    drop(first);
    assert!(lock.try_acquire().is_some());
}

#[test]
fn a_hidden_file_has_no_extension_and_keeps_its_name() {
    assert!(!is_audio(".mp3"));
    assert_eq!(filename_title("/music/.hidden"), ".hidden");
    assert_eq!(filename_title("/music/album/track.01.flac"), "track.01");
    assert_eq!(filename_title(""), "Unknown");
}

#[test]
fn a_blank_title_falls_back_to_the_file_name() {
    let m = metadata_from_tags("/music/Intro.flac", Some("  "), Some(" A "), None, 0, None);
    assert_eq!(m.title, "Intro");
    assert_eq!(m.artist.as_deref(), Some("A"));
    assert_eq!(m.album, None);
    assert_eq!(m.duration_secs, None);

    let m = metadata_from_tags("/music/Intro.flac", Some(" Real "), None, None, 214, None);
    assert_eq!(m.title, "Real");
    assert_eq!(m.duration_secs, Some(214));
}

#[test]
fn the_front_cover_is_preferred_over_the_first_picture() {
    assert_eq!(preferred_picture(&[false, true, true]), Some(1));
    assert_eq!(preferred_picture(&[false, false]), Some(0));
    assert_eq!(preferred_picture(&[]), None);
}

fn entry(path: &str, mtime: i64, size: i64) -> FileEntry {
    FileEntry { path: path.to_string(), mtime, size }
}

#[test]
fn only_changed_or_unexamined_files_are_read_again() {
    let known = vec![
        KnownFile { path: "a.mp3".to_string(), mtime: 1, size: 10, cover_checked: true },
        KnownFile { path: "b.mp3".to_string(), mtime: 1, size: 10, cover_checked: false },
        KnownFile { path: "c.mp3".to_string(), mtime: 1, size: 10, cover_checked: true },
    ];
    let entries = vec![
        entry("a.mp3", 1, 10),
        entry("b.mp3", 1, 10),
        entry("c.mp3", 2, 10),
        entry("d.mp3", 1, 10),
    ];
    let (unchanged, needs) = split_by_disk(entries, &known, true);
    let names = |v: &Vec<FileEntry>| v.iter().map(|e| e.path.clone()).collect::<Vec<_>>();
    assert_eq!(names(&unchanged), vec!["a.mp3"]);
    assert_eq!(names(&needs), vec!["b.mp3", "c.mp3", "d.mp3"]);

    // Without a cover store there is no artwork to look for.
    let entries = vec![entry("a.mp3", 1, 10), entry("b.mp3", 1, 10)];
    let (unchanged, needs) = split_by_disk(entries, &known, false);
    assert_eq!(unchanged.len(), 2);
    assert!(needs.is_empty());
}

#[test]
fn abandoned_files_are_named_but_only_so_many() {
    let mut summary = ScanSummary::default();
    for n in 0..(MAX_REPORTED_SKIPS + 5) {
        summary.record_read(&format!("slow{n}.mp3"), ReadOutcome::Abandoned, true);
    }
    summary.record_read("bad.mp3", ReadOutcome::Unreadable, true);
    summary.record_read("new.mp3", ReadOutcome::Parsed, true);
    summary.record_read("old.mp3", ReadOutcome::Parsed, false);
    assert_eq!(summary.skipped_files.len(), MAX_REPORTED_SKIPS);
    assert_eq!(summary.skipped_files[0], "slow0.mp3");
    assert_eq!(summary.errors, (MAX_REPORTED_SKIPS + 6) as u64);
    assert_eq!(summary.added, 1);
    assert_eq!(summary.updated, 1);
}
