use music_app::queue::{PlayerQueue, RepeatMode, MAX_HISTORY};

fn queue_of(n: i64) -> PlayerQueue {
    let mut q = PlayerQueue::default();
    q.set_context((1..=n).collect(), 0, Some("Test".into()));
    q
}

// --- context behaviour (unchanged by the split) ---------------------

#[test]
fn repeat_off_stops_at_the_end() {
    let mut q = queue_of(2);
    assert_eq!(q.current(), Some(1));
    assert_eq!(q.on_finished(), Some(2));
    assert_eq!(q.on_finished(), None, "should stop, not wrap");
}

#[test]
fn repeat_all_wraps_to_the_start() {
    let mut q = queue_of(2);
    q.set_repeat(RepeatMode::All);
    assert_eq!(q.on_finished(), Some(2));
    assert_eq!(q.on_finished(), Some(1));
}

#[test]
fn repeat_one_replays_the_same_track() {
    let mut q = queue_of(3);
    q.set_repeat(RepeatMode::One);
    assert_eq!(q.on_finished(), Some(1));
    assert_eq!(q.on_finished(), Some(1));
}

#[test]
fn manual_next_ignores_repeat_one() {
    let mut q = queue_of(3);
    q.set_repeat(RepeatMode::One);
    assert_eq!(
        q.on_next(),
        Some(2),
        "repeat-one governs natural end only, or Next looks broken"
    );
}

#[test]
fn next_stops_at_the_end_when_repeat_is_off() {
    let mut q = queue_of(2);
    q.on_next();
    assert_eq!(q.on_next(), None);
}

#[test]
fn enabling_shuffle_keeps_the_current_track_playing() {
    let mut q = queue_of(50);
    q.on_next();
    q.on_next();
    let playing = q.current();

    q.set_shuffle(true);

    assert_eq!(
        q.current(),
        playing,
        "enabling shuffle must not yank the user to another track"
    );
}

#[test]
fn disabling_shuffle_restores_the_original_order_from_the_current_track() {
    let mut q = queue_of(50);
    q.set_shuffle(true);
    q.on_next();
    q.on_next();
    let playing = q.current().expect("something is playing");

    q.set_shuffle(false);

    assert_eq!(q.current(), Some(playing), "same track keeps playing");
    assert!(!q.is_shuffled());
    let expected_next = (playing + 1 <= 50).then_some(playing + 1);
    assert_eq!(q.on_next(), expected_next);
}

#[test]
fn shuffle_visits_every_track_exactly_once() {
    let mut q = queue_of(30);
    q.set_shuffle(true);

    let mut seen = vec![q.current().unwrap()];
    while let Some(id) = q.on_finished() {
        seen.push(id);
    }

    seen.sort_unstable();
    assert_eq!(seen, (1..=30).collect::<Vec<_>>(), "no repeats, no gaps");
}

#[test]
fn an_empty_queue_never_produces_a_track() {
    let mut q = PlayerQueue::default();
    assert_eq!(q.current(), None);
    assert_eq!(q.on_finished(), None);
    assert_eq!(q.on_next(), None);
    assert_eq!(q.on_previous(), None);
    q.set_shuffle(true);
    assert_eq!(q.current(), None);
}

#[test]
fn an_out_of_range_start_index_is_clamped() {
    let mut q = PlayerQueue::default();
    assert_eq!(q.set_context(vec![10, 20], 99, None), Some(20));
}

// --- the priority rule ----------------------------------------------

#[test]
fn a_queued_track_plays_before_the_rest_of_the_context() {
    let mut q = queue_of(3);
    q.enqueue_last(99);

    assert_eq!(q.on_finished(), Some(99), "the manual queue wins");
    assert_eq!(q.on_finished(), Some(2), "then the context resumes");
}

#[test]
fn a_queued_track_is_consumed_and_never_replays() {
    let mut q = queue_of(3);
    q.enqueue_last(99);

    assert_eq!(q.on_finished(), Some(99));
    assert_eq!(q.manual_len(), 0, "playing it removed it");
    assert_eq!(q.on_finished(), Some(2));
    assert_eq!(q.on_finished(), Some(3));
    assert_eq!(q.on_finished(), None, "99 does not come round again");
}

#[test]
fn repeat_all_loops_the_context_but_not_consumed_queue_items() {
    let mut q = queue_of(2);
    q.set_repeat(RepeatMode::All);
    q.enqueue_last(99);

    assert_eq!(q.on_finished(), Some(99));
    // Two full laps of the context; 99 must never reappear.
    let laps: Vec<_> = (0..4).map(|_| q.on_finished()).collect();
    assert_eq!(laps, vec![Some(2), Some(1), Some(2), Some(1)]);
}

#[test]
fn play_next_jumps_ahead_of_already_queued_tracks() {
    let mut q = queue_of(2);
    q.enqueue_last(50);
    q.enqueue_last(51);
    q.enqueue_next(60);

    assert_eq!(q.on_next(), Some(60), "play-next goes to the front");
    assert_eq!(q.on_next(), Some(50));
    assert_eq!(q.on_next(), Some(51));
    assert_eq!(q.on_next(), Some(2), "then the context");
}

#[test]
fn the_manual_queue_plays_in_insertion_order_even_when_shuffled() {
    let mut q = queue_of(30);
    q.set_shuffle(true);
    for id in [101, 102, 103] {
        q.enqueue_last(id);
    }

    assert_eq!(q.on_next(), Some(101));
    assert_eq!(q.on_next(), Some(102));
    assert_eq!(q.on_next(), Some(103));
}

#[test]
fn next_on_a_queued_track_consumes_it_like_a_natural_end() {
    let mut q = queue_of(3);
    q.enqueue_last(99);

    assert_eq!(q.on_next(), Some(99));
    assert_eq!(q.manual_len(), 0);
    assert_eq!(q.on_next(), Some(2), "the context did not skip a track");
}

#[test]
fn repeat_one_holds_a_queued_track_without_draining_the_queue() {
    let mut q = queue_of(2);
    q.enqueue_last(99);
    assert_eq!(q.on_finished(), Some(99));

    q.set_repeat(RepeatMode::One);
    q.enqueue_last(98);

    assert_eq!(q.on_finished(), Some(99), "repeat-one repeats what is audible");
    assert_eq!(q.manual_len(), 1, "and leaves the queue waiting behind it");
}

// --- context changes -------------------------------------------------

#[test]
fn starting_a_new_context_keeps_the_manual_queue() {
    let mut q = queue_of(3);
    q.enqueue_last(99);

    q.set_context(vec![7, 8, 9], 0, Some("Another playlist".into()));

    assert_eq!(q.manual_len(), 1, "interposed tracks survive a context change");
    assert_eq!(q.current(), Some(7));
    assert_eq!(q.on_finished(), Some(99), "and still play first");
    assert_eq!(q.on_finished(), Some(8));
}

#[test]
fn queueing_with_no_context_still_gives_something_to_play() {
    let mut q = PlayerQueue::default();
    q.enqueue_last(42);
    assert_eq!(q.on_next(), Some(42));
}

// --- previous ---------------------------------------------------------

#[test]
fn previous_walks_back_through_what_was_actually_heard() {
    let mut q = queue_of(3);
    q.on_next();
    assert_eq!(q.on_previous(), Some(1));
    assert_eq!(
        q.on_previous(),
        Some(1),
        "nothing further back, so it restarts"
    );
}

#[test]
fn previous_wraps_to_the_end_when_repeating_all() {
    let mut q = queue_of(3);
    q.set_repeat(RepeatMode::All);
    assert_eq!(q.on_previous(), Some(3));
}

#[test]
fn previous_goes_back_to_a_queued_track_without_requeueing_it() {
    let mut q = queue_of(3);
    q.enqueue_last(99);

    assert_eq!(q.on_finished(), Some(99));
    assert_eq!(q.on_finished(), Some(2));

    assert_eq!(q.on_previous(), Some(99), "back to the track just heard");
    assert_eq!(q.manual_len(), 0, "but it is not queued again");

    assert_eq!(
        q.on_next(),
        Some(2),
        "and the context resumes where it was, not from the start"
    );
}

#[test]
fn previous_under_shuffle_returns_the_track_that_was_heard() {
    let mut q = queue_of(30);
    q.set_shuffle(true);

    let first = q.current().expect("something is playing");
    let second = q.on_next().expect("a second track");
    assert_ne!(first, second);

    assert_eq!(q.on_previous(), Some(first));
}

#[test]
fn history_is_bounded() {
    let mut q = PlayerQueue::default();
    q.set_context((1..=1000).collect(), 0, None);
    while q.on_next().is_some() {}
    assert!(
        q.history_len() <= MAX_HISTORY,
        "history grew to {}",
        q.history_len()
    );
}

// --- manual queue editing --------------------------------------------

#[test]
fn entries_are_addressed_by_id_so_the_same_track_can_be_queued_twice() {
    let mut q = queue_of(1);
    let first = q.enqueue_last(99);
    let second = q.enqueue_last(99);
    assert_ne!(first, second);

    assert!(q.remove_manual(second));
    assert_eq!(q.manual_len(), 1);
    assert_eq!(q.on_next(), Some(99), "the other copy is still queued");
}

#[test]
fn removing_an_entry_that_already_played_is_a_no_op() {
    let mut q = queue_of(2);
    let entry = q.enqueue_last(99);
    q.on_next();

    assert!(
        !q.remove_manual(entry),
        "a stale id from the UI must not remove someone else's row"
    );
}

#[test]
fn reordering_moves_the_addressed_entry() {
    let mut q = queue_of(1);
    q.enqueue_last(10);
    q.enqueue_last(20);
    let third = q.enqueue_last(30);

    assert!(q.reorder_manual(third, 0));
    let ids: Vec<_> = q.manual().iter().map(|e| e.track_id).collect();
    assert_eq!(ids, vec![30, 10, 20]);
}

#[test]
fn clearing_the_queue_leaves_the_context_alone() {
    let mut q = queue_of(3);
    q.enqueue_last(99);
    q.clear_manual();

    assert_eq!(q.manual_len(), 0);
    assert_eq!(q.on_finished(), Some(2), "the context is untouched");
}

// --- the preview -------------------------------------------------------

#[test]
fn the_preview_shows_what_comes_next_without_moving_the_cursor() {
    let q = queue_of(5);
    assert_eq!(q.context_upcoming(3), vec![2, 3, 4]);
    assert_eq!(q.current(), Some(1), "reading the preview changed nothing");
}

#[test]
fn the_preview_stops_at_the_end_unless_repeating_all() {
    let mut q = queue_of(3);
    assert_eq!(q.context_upcoming(10), vec![2, 3]);

    q.set_repeat(RepeatMode::All);
    assert_eq!(q.context_upcoming(10), vec![2, 3], "never repeats the current track");

    q.on_next();
    assert_eq!(q.context_upcoming(10), vec![3, 1], "wraps round");
}

#[test]
fn the_preview_follows_the_shuffled_order() {
    let mut q = queue_of(30);
    q.set_shuffle(true);
    let preview = q.context_upcoming(5);

    assert_eq!(preview.len(), 5);
    assert!(!preview.contains(&q.current().unwrap()));

    for expected in preview {
        assert_eq!(q.on_next(), Some(expected), "preview matched playback");
    }
}
