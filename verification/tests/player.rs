use std::collections::HashMap;

use music_app::player::{
    detail_ids, entry_for, lost_connection_message, output_change_message, queue_state,
    reading_applies_now, resume_position, worth_keeping_offline, Advance, Back, Coordinator,
    LoadError, LoadOutcome, LoadReply, PlaybackState, PlayerCommand, Prepared, Start, Toggle,
    TrackDetail,
    MAX_LOAD_ATTEMPTS,
};
use music_app::playable::PlayableSource;
use music_app::queue::{PlayerQueue, RepeatMode};

fn secs(s: u64) -> u64 {
    s * 1000
}

#[test]
fn a_song_always_starts_from_the_beginning() {
    assert_eq!(resume_position(secs(120), Some(secs(210))), 0);
}

#[test]
fn no_short_track_can_resume_wherever_it_was_left() {
    for duration in [60, 180, 210, 330, 419] {
        let mut position = 0;
        while position < duration {
            assert_eq!(
                resume_position(secs(position), Some(secs(duration))),
                0,
                "a {duration}s track resumed at {position}s",
            );
            position += 5;
        }
    }
}

#[test]
fn a_long_track_keeps_the_position_it_was_left_at() {
    assert_eq!(resume_position(secs(1200), Some(secs(3600))), secs(1200));
}

#[test]
fn a_long_track_barely_begun_starts_over() {
    assert_eq!(resume_position(secs(45), Some(secs(3600))), 0);
}

#[test]
fn a_long_track_near_its_end_starts_over() {
    assert_eq!(resume_position(secs(3500), Some(secs(3600))), 0);
}

#[test]
fn an_unknown_duration_starts_over() {
    assert_eq!(resume_position(secs(1200), None), 0);
}

#[test]
fn resuming_needs_both_halves_of_the_rule() {
    // Exactly two minutes in, exactly five minutes left: kept.
    assert_eq!(resume_position(secs(120), Some(secs(420))), secs(120));
    // One second short of either half: not kept.
    assert_eq!(resume_position(secs(119), Some(secs(420))), 0);
    assert_eq!(resume_position(secs(120), Some(secs(419))), 0);
    // A position past the recorded end.
    assert_eq!(resume_position(secs(600), Some(secs(300))), 0);
}

#[test]
fn the_high_frequency_commands_do_not_rebuild_the_queue_payload() {
    assert!(!PlayerCommand::SetVolume(500).affects_queue());
    assert!(!PlayerCommand::SetMuted(true).affects_queue());
    assert!(!PlayerCommand::Seek(12000).affects_queue());
}

#[test]
fn shuffle_and_repeat_do_rebuild_it() {
    assert!(PlayerCommand::SetShuffle(true).affects_queue());
    assert!(PlayerCommand::SetRepeat(RepeatMode::All).affects_queue());
    assert!(PlayerCommand::AddToQueue(1).affects_queue());
}

#[test]
fn level_commands_do_not_rebuild_the_queue_payload() {
    assert!(!PlayerCommand::SetVolumeCeiling(-600).affects_queue());
    assert!(!PlayerCommand::SetTargetLufs(-1400).affects_queue());
    assert!(PlayerCommand::SetNormalize(true).affects_queue());
    assert!(PlayerCommand::Next.affects_queue());
}

#[test]
fn a_reading_for_the_playing_track_is_applied() {
    assert!(reading_applies_now(Some(7), 7, true));
}

#[test]
fn a_reading_for_a_track_that_has_been_skipped_is_not_applied() {
    assert!(!reading_applies_now(Some(8), 7, true));
}

#[test]
fn a_reading_arriving_after_playback_stopped_is_not_applied() {
    assert!(!reading_applies_now(None, 7, true));
}

#[test]
fn a_reading_is_not_applied_when_levelling_is_off() {
    assert!(!reading_applies_now(Some(7), 7, false));
    assert!(!reading_applies_now(Some(8), 7, false));
    assert!(!reading_applies_now(None, 7, false));
}

#[test]
fn an_abandoned_stream_is_worth_a_copy_once_half_heard() {
    let id = Some("abc");
    let url = Some("https://www.youtube.com/watch?v=abc");
    assert!(worth_keeping_offline("youtube", "saved", Some(200), id, url, 100_000));
    assert!(!worth_keeping_offline("youtube", "saved", Some(200), id, url, 99_999));
    // Local files and downloads already have a copy.
    assert!(!worth_keeping_offline("local", "saved", Some(200), id, url, 150_000));
    assert!(!worth_keeping_offline("youtube", "downloaded", Some(200), id, url, 150_000));
    // Live streams and long uploads are not fetched again.
    assert!(!worth_keeping_offline("youtube", "saved", None, id, url, 150_000));
    assert!(!worth_keeping_offline("soundcloud", "saved", Some(1201), id, url, 1_000_000));
    assert!(worth_keeping_offline("soundcloud", "saved", Some(1200), id, url, 600_000));
    assert!(!worth_keeping_offline("youtube", "saved", Some(0), id, url, 150_000));
    // Without a remote identity there is nothing to fetch.
    assert!(!worth_keeping_offline("youtube", "saved", Some(200), None, url, 150_000));
    assert!(!worth_keeping_offline("youtube", "saved", Some(200), id, None, 150_000));
}

#[test]
fn an_output_change_is_only_reported_when_it_failed() {
    assert_eq!(output_change_message(Some("Speakers"), None), None);
    assert_eq!(
        output_change_message(Some("Speakers"), Some("busy")).as_deref(),
        Some("Audio switched to Speakers, but playback could not resume: busy"),
    );
    assert_eq!(
        output_change_message(None, Some("gone")).as_deref(),
        Some("Lost the audio output device. gone"),
    );
    assert!(lost_connection_message().starts_with("Lost connection to the stream."));
}

fn detail(title: &str) -> TrackDetail {
    TrackDetail {
        source: "youtube".to_string(),
        title: title.to_string(),
        artist: Some("Someone".to_string()),
        duration_secs: Some(200),
        state: "saved".to_string(),
        cover_key: None,
        remote_thumbnail_url: Some("https://i.ytimg.com/x.jpg".to_string()),
    }
}

#[test]
fn a_deleted_track_keeps_its_slot_in_the_panel() {
    let mut details = HashMap::new();
    details.insert(1, detail("One"));

    let known = entry_for(&details, Some(4), 1);
    assert_eq!(known.entry_id, Some(4));
    assert_eq!(known.title, "One");
    assert_eq!(known.artist.as_deref(), Some("Someone"));
    assert_eq!(known.state, "saved");

    let gone = entry_for(&details, None, 2);
    assert_eq!(gone.track_id, 2);
    assert_eq!(gone.title, "Unavailable");
    assert_eq!(gone.state, "missing");
    assert_eq!(gone.source, "local");
    assert_eq!(gone.artist, None);
}

#[test]
fn the_panel_lists_the_current_track_the_queue_and_the_preview() {
    let mut queue = PlayerQueue::new();
    queue.set_context(vec![10, 11, 12], 0, Some("Album".to_string()));
    queue.enqueue_last(20);

    let mut queue_b = PlayerQueue::new();
    queue_b.set_context(vec![12, 5, 12], 1, None);
    queue_b.enqueue_last(30);
    queue_b.enqueue_last(5);
    assert_eq!(detail_ids(&queue_b), vec![5, 12, 30]);
    assert_eq!(detail_ids(&queue), vec![10, 11, 12, 20]);

    let mut details = HashMap::new();
    details.insert(10, detail("Ten"));
    details.insert(20, detail("Twenty"));
    let panel = queue_state(&queue, &details);

    assert_eq!(panel.current.as_ref().map(|e| e.title.as_str()), Some("Ten"));
    assert_eq!(panel.manual.len(), 1);
    assert_eq!(panel.manual[0].title, "Twenty");
    assert!(panel.manual[0].entry_id.is_some());
    let preview: Vec<i64> = panel.up_next.iter().map(|e| e.track_id).collect();
    assert_eq!(preview, vec![11, 12]);
    assert_eq!(panel.up_next[0].title, "Unavailable");
    assert_eq!(panel.context_name.as_deref(), Some("Album"));
    assert_eq!(panel.context_remaining, 0);
}

#[test]
fn the_preview_is_capped_and_the_rest_counted() {
    let mut queue = PlayerQueue::new();
    queue.set_context((0..80).collect(), 0, None);
    let panel = queue_state(&queue, &HashMap::new());
    assert_eq!(panel.up_next.len(), 50);
    assert_eq!(panel.context_remaining, 29);
}

fn playing(c: &mut Coordinator, tracks: Vec<i64>, start: usize) -> (u64, i64) {
    let (_, start) = c.play_queue(tracks, start, None, None);
    match start {
        Start::Cold { epoch, track_id, .. } => {
            let reply = c.load_finished(
                LoadOutcome { epoch, track_id, start_at: 0, attempt: 0, result: Ok(()) },
                None,
            );
            assert!(matches!(reply, LoadReply::Playing { .. }));
            (epoch, track_id)
        }
        other => panic!("expected a load, got {other:?}"),
    }
}

#[test]
fn playing_a_list_loads_the_chosen_track() {
    let mut c = Coordinator::new();
    assert_eq!(c.state(), PlaybackState::Stopped);
    let (_, start) = c.play_queue(vec![1, 2, 3], 1, None, None);
    assert_eq!(start, Start::Cold { epoch: 1, track_id: 2, start_at: 0, attempt: 0 });
    assert_eq!(c.state(), PlaybackState::Loading);
    let reply = c.load_finished(
        LoadOutcome { epoch: 1, track_id: 2, start_at: 0, attempt: 0, result: Ok(()) },
        None,
    );
    assert!(matches!(reply, LoadReply::Playing { track_id: 2, start_at: 0 }));
    assert_eq!(c.state(), PlaybackState::Playing);
    assert_eq!(c.loaded(), Some(2));
}

#[test]
fn a_prepared_decode_is_handed_over_instead_of_loading() {
    let mut c = Coordinator::new();
    let (_, start) = c.play_queue(vec![5], 0, None, Some(5));
    assert_eq!(start, Start::Prepared { epoch: 1, track_id: 5, attempt: 0 });
    let (_, start) = c.play_queue(vec![6], 0, None, Some(5));
    assert!(matches!(start, Start::Cold { track_id: 6, .. }));
}

#[test]
fn a_natural_end_counts_the_play_and_moves_on() {
    let mut c = Coordinator::new();
    let (epoch, _) = playing(&mut c, vec![1, 2], 0);
    let finished = c.track_finished(epoch, None, None).expect("current epoch");
    assert_eq!(finished.counted, Some(1));
    assert!(finished.keep.is_none());
    match finished.then {
        Advance::Started(Start::Cold { track_id, .. }) => assert_eq!(track_id, 2),
        other => panic!("expected the next track, got {other:?}"),
    }
}

#[test]
fn an_end_reported_for_a_track_already_left_is_ignored() {
    let mut c = Coordinator::new();
    let (epoch, _) = playing(&mut c, vec![1, 2, 3], 0);
    let (_, start) = c.next(None);
    assert!(matches!(start, Start::Cold { track_id: 2, .. }));
    // The old track's end arrives late: no second advance.
    assert!(c.track_finished(epoch, None, None).is_none());
    assert!(c.progress(epoch, 5000, 0, None).is_none());
    assert!(c.stall(epoch, true, 0).is_none());
    assert_eq!(c.queue().current(), Some(2));
}

#[test]
fn the_end_of_the_list_stops_playback() {
    let mut c = Coordinator::new();
    let (epoch, _) = playing(&mut c, vec![1], 0);
    let finished = c.track_finished(epoch, None, None).unwrap();
    assert!(matches!(finished.then, Advance::Started(Start::Halted { .. })));
    assert_eq!(c.state(), PlaybackState::Stopped);
    assert_eq!(c.loaded(), None);
}

#[test]
fn a_listen_counts_after_thirty_seconds_and_only_once() {
    let mut c = Coordinator::new();
    let (epoch, _) = playing(&mut c, vec![1, 2], 0);
    assert_eq!(c.progress(epoch, 29_000, 0, None).unwrap().counted, None);
    assert_eq!(c.progress(epoch, 30_000, 0, None).unwrap().counted, Some(1));
    assert_eq!(c.progress(epoch, 31_000, 0, None).unwrap().counted, None);
    assert_eq!(c.track_finished(epoch, None, None).unwrap().counted, None);
}

#[test]
fn a_failing_track_is_skipped_but_not_forever() {
    let mut c = Coordinator::new();
    let (_, start) = c.play_queue(vec![1, 2, 3, 4], 0, None, None);
    let mut start = start;
    let mut attempts = 0;
    loop {
        let (epoch, track_id, attempt) = match start {
            Start::Cold { epoch, track_id, attempt, .. } => (epoch, track_id, attempt),
            other => panic!("expected a load, got {other:?}"),
        };
        attempts += 1;
        let reply = c.load_finished(
            LoadOutcome {
                epoch,
                track_id,
                start_at: 0,
                attempt,
                result: Err(LoadError::Failed("no".to_string())),
            },
            None,
        );
        match reply {
            LoadReply::Skipped(next) => start = next,
            LoadReply::Failed { message, .. } => {
                assert_eq!(message, "no");
                break;
            }
            other => panic!("unexpected {other:?}"),
        }
    }
    assert_eq!(attempts, MAX_LOAD_ATTEMPTS);
    assert_eq!(c.state(), PlaybackState::Stopped);
}

#[test]
fn a_missing_decoder_stops_on_the_track_asked_for() {
    let mut c = Coordinator::new();
    let (_, start) = c.play_queue(vec![1, 2], 0, None, None);
    let Start::Cold { epoch, .. } = start else { panic!("expected a load") };
    let reply = c.load_finished(
        LoadOutcome {
            epoch,
            track_id: 1,
            start_at: 0,
            attempt: 0,
            result: Err(LoadError::NoDecoder("ffmpeg".to_string())),
        },
        None,
    );
    assert!(matches!(reply, LoadReply::Failed { .. }));
    assert_eq!(c.queue().current(), Some(1));
}

#[test]
fn a_superseded_load_is_not_a_failure() {
    let mut c = Coordinator::new();
    let (_, start) = c.play_queue(vec![1, 2], 0, None, None);
    let Start::Cold { epoch, .. } = start else { panic!("expected a load") };
    let reply = c.load_finished(
        LoadOutcome { epoch, track_id: 1, start_at: 0, attempt: 0, result: Err(LoadError::Superseded) },
        None,
    );
    assert!(matches!(reply, LoadReply::Ignored));
    assert_eq!(c.state(), PlaybackState::Loading);
}

#[test]
fn toggle_pauses_resumes_and_starts() {
    let mut c = Coordinator::new();
    c.play_queue(vec![1], 0, None, None);
    assert_eq!(c.toggle_play_pause(None), Toggle::Wait);
    let mut c = Coordinator::new();
    playing(&mut c, vec![1], 0);
    assert_eq!(c.toggle_play_pause(None), Toggle::Pause);
    c.paused();
    assert_eq!(c.toggle_play_pause(None), Toggle::Resume);
    c.resumed();
    assert_eq!(c.state(), PlaybackState::Playing);
    let (_, epoch) = c.stop();
    assert_eq!(epoch, c.epoch());
    assert!(matches!(c.toggle_play_pause(None), Toggle::Start(Start::Cold { track_id: 1, .. })));
}

#[test]
fn previous_past_three_seconds_rewinds_the_loaded_track() {
    let mut c = Coordinator::new();
    playing(&mut c, vec![1, 2], 0);
    assert_eq!(c.previous(10_000, None), Back::Rewind(1));
    let (_, start) = c.next(None);
    let Start::Cold { epoch, .. } = start else { panic!("expected a load") };
    c.load_finished(LoadOutcome { epoch, track_id: 2, start_at: 0, attempt: 0, result: Ok(()) }, None);
    // Within the threshold, Previous goes back a track.
    assert!(matches!(c.previous(1000, None), Back::Started(Start::Cold { track_id: 1, .. })));
}

#[test]
fn queueing_while_idle_starts_playing() {
    let mut c = Coordinator::new();
    let start = c.add_to_queue(9, None);
    assert!(matches!(start, Some(Start::Cold { track_id: 9, .. })));
    let mut c = Coordinator::new();
    playing(&mut c, vec![1], 0);
    assert_eq!(c.play_next(9, None), None);
    assert_eq!(c.queue().manual_len(), 1);
}

#[test]
fn a_long_stall_gives_up() {
    let mut c = Coordinator::new();
    let (epoch, _) = playing(&mut c, vec![1], 0);
    let first = c.stall(epoch, true, 1000).unwrap();
    assert!(first.changed);
    assert!(first.gave_up.is_none());
    assert!(c.stalled());
    let later = c.stall(epoch, true, 20_000).unwrap();
    assert!(!later.changed);
    assert!(later.gave_up.is_none());
    let too_long = c.stall(epoch, true, 31_000).unwrap();
    assert!(too_long.gave_up.is_some());
    assert_eq!(c.state(), PlaybackState::Stopped);
    assert!(!c.stalled());
}

#[test]
fn a_recovered_stall_clears() {
    let mut c = Coordinator::new();
    let (epoch, _) = playing(&mut c, vec![1], 0);
    c.stall(epoch, true, 0);
    let reply = c.stall(epoch, false, 5000).unwrap();
    assert!(reply.changed);
    assert!(!c.stalled());
}

#[test]
fn the_next_track_is_appended_near_the_end() {
    let mut c = Coordinator::new();
    let (epoch, _) = playing(&mut c, vec![1, 2], 0);
    c.set_loaded_duration(Some(200));
    let early = c.progress(epoch, 100_000, 0, Some(2)).unwrap();
    assert!(early.enqueue.is_none());
    assert!(!early.prepared_taken);
    let late = c.progress(epoch, 193_000, 0, Some(2)).unwrap();
    let (next_epoch, track) = late.enqueue.expect("queued behind");
    assert_eq!(track, 2);
    assert!(next_epoch > epoch);
    c.enqueue_accepted(next_epoch, track);
    let finished = c.track_finished(epoch, Some(next_epoch), None).unwrap();
    assert_eq!(finished.then, Advance::Adopted(2));
    assert_eq!(c.epoch(), next_epoch);
    assert_eq!(c.loaded(), Some(2));
}

#[test]
fn a_silent_tail_is_skipped_only_after_music_was_heard() {
    let mut c = Coordinator::new();
    let (epoch, _) = playing(&mut c, vec![1], 0);
    c.set_loaded_duration(Some(200));
    assert!(!c.progress(epoch, 190_000, 4000, None).unwrap().skip_tail);
    assert!(!c.progress(epoch, 190_500, 0, None).unwrap().skip_tail);
    assert!(c.progress(epoch, 194_000, 3000, None).unwrap().skip_tail);
    c.set_trim_silence(false);
    assert!(!c.progress(epoch, 195_000, 4000, None).unwrap().skip_tail);
}

#[test]
fn the_volume_is_clamped_and_unmutes() {
    let mut c = Coordinator::new();
    c.set_muted(true);
    c.set_volume(0);
    assert!(c.muted());
    c.set_volume(2000);
    assert_eq!(c.volume(), 1000);
    assert!(!c.muted());
    c.set_volume_ceiling(-5000);
    assert_eq!(c.ceiling(), -1200);
    c.set_volume_ceiling(300);
    assert_eq!(c.ceiling(), 0);
}

#[test]
fn a_restored_song_waits_at_the_start() {
    let mut c = Coordinator::new();
    assert_eq!(c.restore(4, secs(100), Some(200), false), None);
    assert_eq!(c.queue().current(), None);
    assert_eq!(c.restore(4, secs(100), Some(200), true), Some(0));
    assert_eq!(c.queue().current(), Some(4));
    assert_eq!(c.queue().context_name(), Some("where you left off"));
    assert_eq!(c.state(), PlaybackState::Stopped);
    let start = c.toggle_play_pause(None);
    assert!(matches!(start, Toggle::Start(Start::Cold { track_id: 4, start_at: 0, .. })));
}

#[test]
fn a_restored_long_upload_resumes_where_it_was_left() {
    let mut c = Coordinator::new();
    assert_eq!(c.restore(4, secs(1200), Some(3600), true), Some(secs(1200)));
    let start = c.toggle_play_pause(None);
    assert!(matches!(start, Toggle::Start(Start::Cold { track_id: 4, start_at: 1_200_000, .. })));
    // The resume applied once, to that load only.
    let (_, again) = c.play_queue(vec![4], 0, None, None);
    assert!(matches!(again, Start::Cold { start_at: 0, .. }));
}

#[test]
fn leaving_a_track_part_way_offers_it_for_keeping() {
    let mut c = Coordinator::new();
    let (epoch, _) = playing(&mut c, vec![1, 2], 0);
    c.progress(epoch, 90_000, 0, None);
    let (keep, _) = c.next(None);
    assert_eq!(keep, None);
    let mut c = Coordinator::new();
    c.set_keep_abandoned(true);
    let (epoch, _) = playing(&mut c, vec![1, 2], 0);
    c.progress(epoch, 90_000, 0, None);
    let (keep, _) = c.next(None);
    assert_eq!(keep, Some((1, 90_000)));
}

#[test]
fn a_seek_that_cannot_decode_reloads_at_the_target() {
    let mut c = Coordinator::new();
    playing(&mut c, vec![1], 0);
    assert!(c.seek_allowed());
    let start = c.seek_undecodable(42_000, None);
    assert!(matches!(start, Start::Cold { track_id: 1, start_at: 42_000, .. }));
}

#[test]
fn the_prefetch_plan_follows_what_comes_next() {
    let mut c = Coordinator::new();
    playing(&mut c, vec![1, 2], 0);
    let held = |track_id: i64, rate: u32| Prepared {
        track_id,
        source: PlayableSource::LocalFile(format!("/music/{track_id}.flac")),
        measured: None,
        rate,
    };
    assert!(c.keep_prepared(&held(2, 48_000)));
    assert!(!c.keep_prepared(&held(3, 48_000)));
    let plan = c.plan_prefetch(Some(&held(3, 48_000)), 48_000);
    assert!(plan.drop_prepared);
    assert_eq!(plan.target, Some(2));
    let plan = c.plan_prefetch(Some(&held(2, 44_100)), 48_000);
    assert!(plan.drop_prepared);
    let plan = c.plan_prefetch(Some(&held(2, 48_000)), 48_000);
    assert!(!plan.drop_prepared);
    assert!(!plan.cancel_queued);
    let plan = c.plan_prefetch(None, 48_000);
    assert!(!plan.drop_prepared);
    assert_eq!(plan.target, Some(2));
}

#[test]
fn next_and_a_natural_end_agree_unless_repeating_one() {
    for mode in [RepeatMode::Off, RepeatMode::All, RepeatMode::One] {
        let mut pressed = Coordinator::new();
        pressed.set_repeat(mode);
        playing(&mut pressed, vec![1, 2, 3], 2);
        let (_, by_next) = pressed.next(None);

        let mut ended = Coordinator::new();
        ended.set_repeat(mode);
        let (epoch, _) = playing(&mut ended, vec![1, 2, 3], 2);
        let by_end = ended.track_finished(epoch, None, None).unwrap().then;

        let next_track = match by_next {
            Start::Cold { track_id, .. } => Some(track_id),
            _ => None,
        };
        let end_track = match by_end {
            Advance::Started(Start::Cold { track_id, .. }) => Some(track_id),
            _ => None,
        };
        match mode {
            RepeatMode::Off => assert_eq!((next_track, end_track), (None, None)),
            RepeatMode::All => assert_eq!((next_track, end_track), (Some(1), Some(1))),
            RepeatMode::One => assert_eq!((next_track, end_track), (Some(1), Some(3))),
        }
    }
}

#[test]
fn a_track_is_sampled_once_and_only_when_it_can_be_used() {
    let mut c = Coordinator::new();
    assert!(!c.should_measure(1, false, true), "levelling is off");
    c.set_normalize(true);
    assert!(!c.should_measure(1, true, true), "already measured");
    assert!(!c.should_measure(1, false, false), "nothing to sample with");
    assert!(c.should_measure(1, false, true));
    assert!(!c.should_measure(1, false, true), "once per session");
    assert!(c.should_measure(2, false, true));
}

#[test]
fn resume_and_pause_act_only_from_the_matching_state() {
    let mut c = Coordinator::new();
    assert!(!c.pause_requested());
    assert!(!c.resume_requested());
    c.paused();
    assert_eq!(c.state(), PlaybackState::Stopped);
    c.resumed();
    assert_eq!(c.state(), PlaybackState::Stopped);
    playing(&mut c, vec![1], 0);
    assert!(c.pause_requested());
    assert!(!c.resume_requested());
    c.resumed();
    assert_eq!(c.state(), PlaybackState::Playing);
    c.paused();
    assert_eq!(c.state(), PlaybackState::Paused);
    assert!(c.resume_requested());
    assert!(!c.pause_requested());
    c.paused();
    assert_eq!(c.state(), PlaybackState::Paused);
    c.resumed();
    assert_eq!(c.state(), PlaybackState::Playing);
}

#[test]
fn a_rewind_that_cannot_seek_reloads_from_the_start() {
    let mut c = Coordinator::new();
    playing(&mut c, vec![1, 2], 0);
    let start = c.rewind_failed(1, None);
    assert!(matches!(start, Start::Cold { track_id: 1, start_at: 0, .. }));
}
