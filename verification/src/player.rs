//! Playback decisions: what is queued, what plays next, when a listen counts,
//! and what a report from the engine or a finished load means.
//!
//! The engine, the database and the event sink are driven from outside; this
//! module owns every decision between them. Times are whole milliseconds,
//! volumes thousandths of full scale and levels hundredths of a decibel.

use vstd::prelude::*;

use std::collections::{HashMap, HashSet};

use vstd::math::min;

use crate::playable::PlayableSource;
use crate::providers::{provider_of_source, Provider};
use crate::queue::{upcoming_of, ManualEntry, PlayerQueue, QueueModel, RepeatMode};
use crate::text::{append_chars, chars_of, str_equal, string_of};

verus! {

/// Below this, Previous goes to the previous track; above it, Previous
/// restarts the current one.
pub const RESTART_THRESHOLD_MS: u64 = 3000;

/// How long a track must play before it counts as played. A natural end
/// counts however short the track was.
pub const PLAY_COUNTS_AFTER_MS: u64 = 30000;

/// Longest track worth fetching a second time, in seconds.
pub const OFFLINE_COPY_MAX_SECS: i64 = 1200;

/// How long a stall may last before playback is abandoned.
pub const STALL_GIVE_UP_MS: u64 = 30000;

/// How many upcoming context tracks the preview carries.
pub const PREVIEW_LIMIT: usize = 50;

/// The quietest the ceiling may be set to, in hundredths of a decibel.
pub const MIN_CEILING_CENTIBELS: i32 = -1200;

/// The top of the volume slider, in thousandths.
pub const FULL_VOLUME: u32 = 1000;

/// How far into a track it must have been left for the position to survive a
/// restart.
pub const RESUME_MIN_POSITION_MS: u64 = 120000;

/// How much of a track must remain for resuming to beat starting over.
pub const RESUME_MIN_REMAINING_MS: u64 = 300000;

/// How many tracks a failing load may walk through before giving up.
pub const MAX_LOAD_ATTEMPTS: usize = 3;

/// How close to the end of a track the next one is queued behind it.
pub const ENQUEUE_WITHIN_MS: u64 = 8000;

/// How long the output must be silent before the track is called finished.
pub const SILENT_TAIL_MS: u64 = 3000;

/// How near the end a silent tail may be trimmed.
pub const TRIM_WITHIN_MS: u64 = 20000;

// --- pure decisions ----------------------------------------------------------

/// Whether a saved position is worth resuming to.
pub open spec fn worth_resuming(saved: u64, duration: Option<u64>) -> bool {
    &&& saved >= RESUME_MIN_POSITION_MS
    &&& duration matches Some(total) && total - saved >= RESUME_MIN_REMAINING_MS
}

/// Where a track restored from the last session should begin: the saved
/// position when the listen was long enough to be worth not repeating and
/// enough of the track is left to be worth resuming to, else the start. An
/// unknown duration starts over.
pub fn resume_position(saved: u64, duration: Option<u64>) -> (start: u64)
    ensures
        start == (if worth_resuming(saved, duration) { saved } else { 0 }),
{
    let worth_keeping = saved >= RESUME_MIN_POSITION_MS && match duration {
        Some(total) => total >= saved && total - saved >= RESUME_MIN_REMAINING_MS,
        None => false,
    };
    if worth_keeping {
        saved
    } else {
        0
    }
}

/// Nothing shorter than seven minutes ever resumes: wherever a song was left,
/// it starts from the beginning.
pub proof fn lemma_songs_always_restart(saved: u64, duration: u64)
    requires
        duration < RESUME_MIN_POSITION_MS + RESUME_MIN_REMAINING_MS,
    ensures
        !worth_resuming(saved, Some(duration)),
{
}

/// A kept position is at least two minutes in and at least five minutes
/// before the end.
pub proof fn lemma_kept_position_is_mid_track(saved: u64, duration: Option<u64>)
    requires
        worth_resuming(saved, duration),
    ensures
        saved >= RESUME_MIN_POSITION_MS,
        duration matches Some(total) && saved + RESUME_MIN_REMAINING_MS <= total,
{
}

/// Whether a loudness reading that has just arrived should move the gain:
/// only while levelling is on and only for the track still loaded.
pub fn reading_applies_now(loaded: Option<i64>, measured_for: i64, normalize: bool) -> (applies: bool)
    ensures
        applies == (normalize && loaded == Some(measured_for)),
{
    normalize && match loaded {
        Some(id) => id == measured_for,
        None => false,
    }
}

/// Whether a track left part-way is worth fetching a complete copy of: a
/// provider track that is saved rather than downloaded, of known length no
/// longer than twenty minutes, with its remote identity recorded, and at
/// least half of it heard.
pub open spec fn offline_copy_worth(
    source: Seq<char>,
    state: Seq<char>,
    duration_secs: Option<i64>,
    has_remote_id: bool,
    has_remote_url: bool,
    position_ms: u64,
) -> bool {
    &&& provider_of_source(source) is Some
    &&& state == "saved"@
    &&& duration_secs matches Some(d) && 0 < d <= OFFLINE_COPY_MAX_SECS && 2 * position_ms >= 1000
        * d
    &&& has_remote_id
    &&& has_remote_url
}

/// The decision behind keeping an abandoned track, once its row is read.
pub fn worth_keeping_offline(
    source: &str,
    state: &str,
    duration_secs: Option<i64>,
    remote_id: Option<&str>,
    remote_url: Option<&str>,
    position_ms: u64,
) -> (worth: bool)
    ensures
        worth == offline_copy_worth(
            source@,
            state@,
            duration_secs,
            remote_id is Some,
            remote_url is Some,
            position_ms,
        ),
{
    if Provider::from_source(source).is_none() || !str_equal(state, "saved") {
        return false;
    }
    let duration = match duration_secs {
        Some(d) => d,
        None => return false,
    };
    if duration <= 0 || duration > OFFLINE_COPY_MAX_SECS {
        return false;
    }
    let heard: u128 = 2 * (position_ms as u128);
    let total: u128 = 1000 * (duration as u128);
    if heard < total {
        return false;
    }
    remote_id.is_some() && remote_url.is_some()
}

/// What is said when the output device was reopened underneath playback and
/// could not carry on, or was lost. Success says nothing.
pub open spec fn output_change_text(name: Option<Seq<char>>, error: Option<Seq<char>>) -> Option<
    Seq<char>,
> {
    match error {
        None => None,
        Some(reason) => Some(
            match name {
                Some(device) => "Audio switched to "@ + device
                    + ", but playback could not resume: "@ + reason,
                None => "Lost the audio output device. "@ + reason,
            },
        ),
    }
}

pub fn output_change_message(name: Option<&str>, error: Option<&str>) -> (message: Option<String>)
    ensures
        match message {
            Some(m) => output_change_text(
                match name {
                    Some(n) => Some(n@),
                    None => None,
                },
                match error {
                    Some(e) => Some(e@),
                    None => None,
                },
            ) == Some(m@),
            None => error is None,
        },
{
    let reason = match error {
        Some(r) => r,
        None => return None,
    };
    let mut out: Vec<char>;
    match name {
        Some(device) => {
            out = chars_of("Audio switched to ");
            append_chars(&mut out, chars_of(device).as_slice());
            append_chars(&mut out, chars_of(", but playback could not resume: ").as_slice());
        },
        None => {
            out = chars_of("Lost the audio output device. ");
        },
    }
    append_chars(&mut out, chars_of(reason).as_slice());
    Some(string_of(out.as_slice()))
}

/// What is said when a stall outlasts the give-up time.
pub fn lost_connection_message() -> (message: String)
    ensures
        message@ == "Lost connection to the stream. Check your internet and try again."@,
{
    "Lost connection to the stream. Check your internet and try again.".to_owned()
}

// --- state and commands ------------------------------------------------------

#[derive(Debug, Clone, Copy, PartialEq, Eq, Structural)]
pub enum PlaybackState {
    /// Resolving a source.
    Loading,
    Playing,
    Paused,
    Stopped,
}

/// What the player can be asked to do. Volumes are thousandths of full
/// scale, levels hundredths of a decibel and positions milliseconds.
#[derive(Debug)]
pub enum PlayerCommand {
    PlayQueue { track_ids: Vec<i64>, start_index: usize, context_name: Option<String> },
    /// Queue to the front: plays after the current track.
    PlayNext(i64),
    /// Queue to the back.
    AddToQueue(i64),
    RemoveFromQueue(u64),
    ReorderQueue { entry_id: u64, to_index: usize },
    ClearQueue,
    /// Asks for the queue payload, for a panel that just mounted.
    RequestQueueState,
    /// Puts a track back in the bar at the position it was left.
    Restore { track_id: i64, position_ms: u64 },
    TogglePlayPause,
    /// Play, if not already playing.
    Resume,
    /// Pause, if not already paused.
    Pause,
    Next,
    Previous,
    Stop,
    SetVolume(u32),
    SetMuted(bool),
    SetRepeat(RepeatMode),
    SetShuffle(bool),
    SetKeepAbandoned(bool),
    /// Lowers the top of the slider.
    SetVolumeCeiling(i32),
    /// The loudness tracks are corrected towards, in hundredths of a LUFS.
    SetTargetLufs(i32),
    SetNormalize(bool),
    SetGapless(bool),
    SetTrimSilence(bool),
    SetEqualizerEnabled(bool),
    /// Every band at once, low to high.
    SetEqualizerBands(Vec<i32>),
    Seek(u64),
}

/// The commands that arrive per pixel of slider travel.
pub open spec fn is_high_frequency(command: PlayerCommand) -> bool {
    ||| command is SetVolume
    ||| command is SetMuted
    ||| command is SetVolumeCeiling
    ||| command is SetTargetLufs
    ||| command is Seek
}

impl PlayerCommand {
    /// Whether handling this can change what the queue panel shows. Volume
    /// and seek are excluded: rebuilding the payload costs a database round
    /// trip.
    pub fn affects_queue(&self) -> (affects: bool)
        ensures
            affects == !is_high_frequency(*self),
    {
        match self {
            PlayerCommand::SetVolume(_) => false,
            PlayerCommand::SetMuted(_) => false,
            PlayerCommand::SetVolumeCeiling(_) => false,
            PlayerCommand::SetTargetLufs(_) => false,
            PlayerCommand::Seek(_) => false,
            _ => true,
        }
    }
}

// --- the queue panel ---------------------------------------------------------

/// What the database holds about a track, for the queue panel.
#[derive(Debug, Clone)]
pub struct TrackDetail {
    pub source: String,
    pub title: String,
    pub artist: Option<String>,
    pub duration_secs: Option<i64>,
    pub state: String,
    pub cover_key: Option<String>,
    pub remote_thumbnail_url: Option<String>,
}

/// A row in the queue panel.
#[derive(Debug, Clone)]
pub struct QueueEntry {
    /// Present only for manual entries: they are the only removable,
    /// reorderable rows, and this is what addresses them.
    pub entry_id: Option<u64>,
    pub track_id: i64,
    pub title: String,
    pub artist: Option<String>,
    pub duration_secs: Option<i64>,
    pub state: String,
    pub source: String,
    pub cover_key: Option<String>,
    pub remote_thumbnail_url: Option<String>,
}

/// The whole "Up Next" panel in one payload.
#[derive(Debug, Clone)]
pub struct QueueState {
    pub current: Option<QueueEntry>,
    /// Tracks the user explicitly queued, in play order.
    pub manual: Vec<QueueEntry>,
    /// Preview of the context continuation, capped at `PREVIEW_LIMIT`.
    pub up_next: Vec<QueueEntry>,
    pub context_name: Option<String>,
    /// Context tracks beyond the preview.
    pub context_remaining: usize,
}

/// The row shown for `track_id`: its details when the database has them,
/// else a placeholder, so a deleted track still occupies its slot.
pub open spec fn entry_describes(
    entry: QueueEntry,
    details: Map<i64, TrackDetail>,
    entry_id: Option<u64>,
    track_id: i64,
) -> bool {
    &&& entry.entry_id == entry_id
    &&& entry.track_id == track_id
    &&& if details.contains_key(track_id) {
        let d = details[track_id];
        &&& entry.title == d.title
        &&& entry.artist == d.artist
        &&& entry.duration_secs == d.duration_secs
        &&& entry.state == d.state
        &&& entry.source == d.source
        &&& entry.cover_key == d.cover_key
        &&& entry.remote_thumbnail_url == d.remote_thumbnail_url
    } else {
        &&& entry.title@ == "Unavailable"@
        &&& entry.artist is None
        &&& entry.duration_secs is None
        &&& entry.state@ == "missing"@
        &&& entry.source@ == "local"@
        &&& entry.cover_key is None
        &&& entry.remote_thumbnail_url is None
    }
}

fn clone_text(o: &Option<String>) -> (c: Option<String>)
    ensures
        c == *o,
{
    match o {
        Some(s) => Some(s.clone()),
        None => None,
    }
}

/// Turns an id into a row, keeping deleted tracks visible.
pub fn entry_for(details: &HashMap<i64, TrackDetail>, entry_id: Option<u64>, track_id: i64) -> (entry: QueueEntry)
    ensures
        entry_describes(entry, details@, entry_id, track_id),
{
    broadcast use vstd::std_specs::hash::group_hash_axioms;

    match details.get(&track_id) {
        Some(detail) => QueueEntry {
            entry_id,
            track_id,
            title: detail.title.clone(),
            artist: clone_text(&detail.artist),
            duration_secs: detail.duration_secs,
            state: detail.state.clone(),
            source: detail.source.clone(),
            cover_key: clone_text(&detail.cover_key),
            remote_thumbnail_url: clone_text(&detail.remote_thumbnail_url),
        },
        None => QueueEntry {
            entry_id,
            track_id,
            title: "Unavailable".to_owned(),
            artist: None,
            duration_secs: None,
            state: "missing".to_owned(),
            source: "local".to_owned(),
            cover_key: None,
            remote_thumbnail_url: None,
        },
    }
}

// --- the coordinator ---------------------------------------------------------

/// How a track is started, or why nothing is.
#[derive(Debug, Clone, Copy, PartialEq, Eq, Structural)]
pub enum Start {
    /// Nothing to play: the engine is stopped under `epoch`.
    Halted { epoch: u64 },
    /// The decode prepared for `track_id` is handed to the engine. Any other
    /// prepared decode is dropped.
    Prepared { epoch: u64, track_id: i64, attempt: usize },
    /// `track_id` is resolved and loaded from scratch, beginning at
    /// `start_at`. Any prepared decode is dropped.
    Cold { epoch: u64, track_id: i64, start_at: u64, attempt: usize },
}

/// Why a load did not play.
#[derive(Debug)]
pub enum LoadError {
    /// Another load won while this one was resolving. Not a failure.
    Superseded,
    /// There is no decoder at all, so every track would fail the same way.
    NoDecoder(String),
    /// This track could not be played.
    Failed(String),
}

/// What a load reports back.
#[derive(Debug)]
pub struct LoadOutcome {
    /// The epoch it began under.
    pub epoch: u64,
    pub track_id: i64,
    /// Where the decode began.
    pub start_at: u64,
    /// How many tracks have already been skipped in this run.
    pub attempt: usize,
    pub result: Result<(), LoadError>,
}

/// What a finished load means.
#[derive(Debug)]
pub enum LoadReply {
    /// Stale or superseded: nothing to do.
    Ignored,
    /// `track_id` is now playing from `start_at`.
    Playing { track_id: i64, start_at: u64 },
    /// The track failed and the next one is tried.
    Skipped(Start),
    /// Gave up: the engine is stopped under `epoch` and `message` is shown.
    Failed { epoch: u64, message: String },
}

/// What happens after the playing track has ended.
#[derive(Debug, Clone, Copy, PartialEq, Eq, Structural)]
pub enum Advance {
    /// The engine already moved on to `track_id` without a gap.
    Adopted(i64),
    /// The next track is started, or playback halts.
    Started(Start),
}

/// The decisions taken when a track ends.
#[derive(Debug, Clone, Copy)]
pub struct Finished {
    /// A play to record.
    pub counted: Option<i64>,
    /// A track worth a complete copy, with how far it had played.
    pub keep: Option<(i64, u64)>,
    pub then: Advance,
}

/// The decisions taken on a progress report.
#[derive(Debug, Clone, Copy)]
pub struct Tick {
    /// A play to record.
    pub counted: Option<i64>,
    /// Whether the prepared decode was taken out: it is either handed over
    /// as `enqueue` or dropped.
    pub prepared_taken: bool,
    /// The prepared decode to append behind the playing track, under this
    /// reserved epoch.
    pub enqueue: Option<(u64, i64)>,
    /// Whether the silent remainder of the track is skipped.
    pub skip_tail: bool,
}

/// The decisions taken on a stall report.
#[derive(Debug, Clone, Copy, PartialEq, Eq, Structural)]
pub struct StallReply {
    /// Whether the stalled flag changed.
    pub changed: bool,
    /// The stall lasted too long: the engine is stopped under this epoch.
    pub gave_up: Option<u64>,
}

/// What Play/Pause asks for.
#[derive(Debug, Clone, Copy, PartialEq, Eq, Structural)]
pub enum Toggle {
    /// Ask the engine to pause; on success call `paused`.
    Pause,
    /// Ask the engine to resume; on success call `resumed`.
    Resume,
    /// A load is in flight: waiting is the honest behaviour.
    Wait,
    Start(Start),
}

/// What Previous asks for.
#[derive(Debug, Clone, Copy, PartialEq, Eq, Structural)]
pub enum Back {
    /// The track is already decoded: seek it to zero, and start it afresh
    /// only if that fails.
    Rewind(i64),
    Started(Start),
}

/// A decode built ahead of time for the track that comes next, as the
/// coordinator sees it. The decoder itself stays with the engine; this is
/// what the decisions about it read.
#[derive(Debug, Clone)]
pub struct Prepared {
    pub track_id: i64,
    pub source: PlayableSource,
    /// The track's loudness reading, in hundredths of a LUFS, if it has one.
    pub measured: Option<i32>,
    /// The device rate it was decoded for.
    pub rate: u32,
}

/// The track a held decode is for.
pub open spec fn held_track(prepared: Option<&Prepared>) -> Option<i64> {
    match prepared {
        Some(p) => Some(p.track_id),
        None => None,
    }
}

/// Whether a held decode was built for the device rate now open.
pub open spec fn held_fits(prepared: Option<&Prepared>, device_rate: u32) -> bool {
    match prepared {
        Some(p) => p.rate == device_rate,
        None => true,
    }
}

/// What to do about the decode held for the next track.
#[derive(Debug, Clone, Copy, PartialEq, Eq, Structural)]
pub struct PrefetchPlan {
    /// The source appended behind the playing track is no longer next.
    pub cancel_queued: bool,
    /// The prepared decode no longer matches what is coming, or the device.
    pub drop_prepared: bool,
    /// The track to warm, if any.
    pub target: Option<i64>,
}

/// Everything the coordinator decides with, as plain values.
#[verifier::ext_equal]
pub struct CoordinatorModel {
    pub queue: QueueModel,
    pub state: PlaybackState,
    /// The track the engine holds decoded.
    pub loaded: Option<i64>,
    pub volume: u32,
    pub muted: bool,
    pub ceiling: i32,
    pub normalize: bool,
    pub gapless: bool,
    pub trim_silence: bool,
    pub keep_abandoned: bool,
    /// The epoch of the track playing.
    pub epoch: u64,
    /// The last epoch handed out.
    pub issued: u64,
    /// The track appended behind the one playing, and its epoch.
    pub enqueued: Option<(u64, i64)>,
    pub heard_audio: bool,
    pub loaded_duration: Option<u64>,
    pub last_position: u64,
    pub recorded_play: bool,
    pub covered_from_zero: bool,
    pub stalled: bool,
    pub stalled_since: Option<u64>,
    pub resume_at: Option<u64>,
    /// Tracks a loudness sample was started for this session.
    pub sampling: Set<i64>,
}

impl CoordinatorModel {
    /// Playback stopped under a fresh epoch.
    pub open spec fn halted(self) -> CoordinatorModel {
        CoordinatorModel {
            stalled: false,
            stalled_since: None,
            enqueued: None,
            loaded_duration: None,
            epoch: (self.issued + 1) as u64,
            issued: (self.issued + 1) as u64,
            state: PlaybackState::Stopped,
            loaded: None,
            ..self
        }
    }

    /// Starting `candidate`: a prepared decode is used when it is for that
    /// track and the track starts at zero; otherwise it loads from scratch.
    pub open spec fn begun(self, candidate: Option<i64>, attempt: usize, prepared: Option<i64>) -> (
        CoordinatorModel,
        Start,
    ) {
        match candidate {
            None => (self.halted(), Start::Halted { epoch: (self.issued + 1) as u64 }),
            Some(track_id) => {
                let epoch = (self.issued + 1) as u64;
                let start_at = match self.resume_at {
                    Some(p) => p,
                    None => 0,
                };
                let base = CoordinatorModel {
                    enqueued: None,
                    heard_audio: false,
                    loaded_duration: None,
                    epoch,
                    issued: epoch,
                    resume_at: None,
                    covered_from_zero: start_at == 0,
                    recorded_play: false,
                    ..self
                };
                if prepared == Some(track_id) && start_at == 0 {
                    (base, Start::Prepared { epoch, track_id, attempt })
                } else {
                    (
                        CoordinatorModel { state: PlaybackState::Loading, ..base },
                        Start::Cold { epoch, track_id, start_at, attempt },
                    )
                }
            },
        }
    }

    /// The play of the loaded track is recorded, once.
    pub open spec fn counted(self) -> (CoordinatorModel, Option<i64>) {
        if self.recorded_play || self.loaded is None {
            (self, None)
        } else {
            (CoordinatorModel { recorded_play: true, ..self }, self.loaded)
        }
    }

    /// The loaded track is being left part-way: offered for a complete copy
    /// when that is allowed, with how far it had played.
    pub open spec fn abandoned(self) -> (CoordinatorModel, Option<(i64, u64)>) {
        if !self.keep_abandoned {
            (self, None)
        } else {
            match self.loaded {
                None => (self, None),
                Some(track_id) => (
                    CoordinatorModel { last_position: 0, ..self },
                    Some((track_id, self.last_position)),
                ),
            }
        }
    }

    /// A load finished.
    pub open spec fn after_load(self, o: LoadOutcome, prepared: Option<i64>) -> (
        CoordinatorModel,
        LoadReply,
    ) {
        if o.epoch != self.epoch {
            (self, LoadReply::Ignored)
        } else {
            match o.result {
                Ok(_) => (
                    CoordinatorModel {
                        loaded: Some(o.track_id),
                        state: PlaybackState::Playing,
                        stalled: false,
                        stalled_since: None,
                        ..self
                    },
                    LoadReply::Playing { track_id: o.track_id, start_at: o.start_at },
                ),
                Err(LoadError::Superseded) => (self, LoadReply::Ignored),
                Err(LoadError::NoDecoder(message)) => (
                    self.halted(),
                    LoadReply::Failed { epoch: (self.issued + 1) as u64, message },
                ),
                Err(LoadError::Failed(message)) => self.after_failure(o.attempt, message, prepared),
            }
        }
    }

    /// A track failed to load: the next one is tried through the same
    /// priority rule as a natural end, unless the run has tried enough.
    pub open spec fn after_failure(self, attempt: usize, message: String, prepared: Option<i64>) -> (
        CoordinatorModel,
        LoadReply,
    ) {
        if attempt + 1 < MAX_LOAD_ATTEMPTS {
            let moved = CoordinatorModel { queue: self.queue.next().0, ..self };
            match self.queue.next().1 {
                Some(t) => {
                    let (m, s) = moved.begun(Some(t), (attempt + 1) as usize, prepared);
                    (m, LoadReply::Skipped(s))
                },
                None => (moved.halted(), LoadReply::Failed { epoch: (self.issued + 1) as u64, message }),
            }
        } else {
            (self.halted(), LoadReply::Failed { epoch: (self.issued + 1) as u64, message })
        }
    }

    /// Whether the prepared decode is appended behind the playing track at
    /// `position`, and under which epoch.
    pub open spec fn handover(self, position: u64, prepared: Option<i64>) -> (CoordinatorModel, Option<(u64, i64)>) {
        if self.handover_due(position) && prepared == self.queue.next().1 {
            (
                CoordinatorModel { issued: (self.issued + 1) as u64, ..self },
                Some(((self.issued + 1) as u64, self.queue.next().1.unwrap())),
            )
        } else {
            (self, None)
        }
    }

    /// The engine already moved on to the track queued under `next_epoch`.
    pub open spec fn adopted(self, next_epoch: u64, prepared: Option<i64>) -> (CoordinatorModel, Advance) {
        let claimed = match self.enqueued {
            Some((e, t)) => if e == next_epoch {
                Some(t)
            } else {
                None
            },
            None => None,
        };
        let advanced = self.queue.finished();
        let moved = CoordinatorModel { enqueued: None, queue: advanced.0, ..self };
        match claimed {
            Some(t) => if advanced.1 == Some(t) {
                (
                    CoordinatorModel {
                        epoch: next_epoch,
                        loaded: Some(t),
                        state: PlaybackState::Playing,
                        stalled: false,
                        stalled_since: None,
                        covered_from_zero: true,
                        recorded_play: false,
                        heard_audio: false,
                        last_position: 0,
                        resume_at: None,
                        ..moved
                    },
                    Advance::Adopted(t),
                )
            } else {
                let (m, s) = CoordinatorModel { loaded: None, ..moved }.begun(advanced.1, 0, prepared);
                (m, Advance::Started(s))
            },
            None => {
                let (m, s) = CoordinatorModel { loaded: None, ..moved }.begun(advanced.1, 0, prepared);
                (m, Advance::Started(s))
            },
        }
    }

    /// The track playing under `epoch` ended; the engine may already have
    /// handed over to the one queued under `handed_to`.
    pub open spec fn after_finish(self, epoch: u64, handed_to: Option<u64>, prepared: Option<i64>) -> (
        CoordinatorModel,
        Option<Finished>,
    ) {
        if epoch != self.epoch {
            (self, None)
        } else {
            let (m1, counted) = self.counted();
            let (m2, keep) = if !m1.covered_from_zero {
                m1.abandoned()
            } else {
                (m1, None)
            };
            match handed_to {
                Some(next_epoch) => {
                    let (m3, then) = m2.adopted(next_epoch, prepared);
                    (m3, Some(Finished { counted, keep, then }))
                },
                None => {
                    let advanced = m2.queue.finished();
                    let (m3, s) = CoordinatorModel { loaded: None, queue: advanced.0, ..m2 }.begun(
                        advanced.1,
                        0,
                        prepared,
                    );
                    (m3, Some(Finished { counted, keep, then: Advance::Started(s) }))
                },
            }
        }
    }

    /// What the queue says comes next, when the end is close enough to
    /// append it and gapless handover applies.
    pub open spec fn handover_due(self, position: u64) -> bool {
        &&& self.gapless
        &&& self.enqueued is None
        &&& self.loaded_duration matches Some(d) && d - position <= ENQUEUE_WITHIN_MS
        &&& self.queue.repeat != RepeatMode::One
        &&& self.queue.next().1 is Some
    }

    /// The position is noted, a long enough listen counts, and audible
    /// output means the track has been heard.
    pub open spec fn noted(self, position: u64, silent_for: u64) -> (CoordinatorModel, Option<i64>) {
        let m1 = CoordinatorModel { last_position: position, ..self };
        let counts = position >= PLAY_COUNTS_AFTER_MS;
        let m2 = if counts {
            m1.counted().0
        } else {
            m1
        };
        (
            if silent_for == 0 {
                CoordinatorModel { heard_audio: true, ..m2 }
            } else {
                m2
            },
            if counts {
                m1.counted().1
            } else {
                None
            },
        )
    }

    /// A progress report for the track playing under `epoch`.
    pub open spec fn after_progress(self, epoch: u64, position: u64, silent_for: u64, prepared: Option<i64>) -> (
        CoordinatorModel,
        Option<Tick>,
    ) {
        if epoch != self.epoch {
            (self, None)
        } else {
            let (m3, counted) = self.noted(position, silent_for);
            let (m4, enqueue) = m3.handover(position, prepared);
            let skip_tail = m4.trim_silence && (m4.loaded_duration matches Some(d) && d - position
                <= TRIM_WITHIN_MS) && m4.heard_audio && !m4.stalled && silent_for >= SILENT_TAIL_MS;
            (
                m4,
                Some(
                    Tick {
                        counted,
                        prepared_taken: m3.handover_due(position),
                        enqueue,
                        skip_tail,
                    },
                ),
            )
        }
    }

    /// A stall report for the track playing under `epoch`, at clock `now`.
    pub open spec fn after_stall(self, epoch: u64, stalled: bool, now: u64) -> (
        CoordinatorModel,
        Option<StallReply>,
    ) {
        if epoch != self.epoch {
            (self, None)
        } else if !stalled {
            (
                CoordinatorModel { stalled: false, stalled_since: None, ..self },
                Some(StallReply { changed: self.stalled, gave_up: None }),
            )
        } else {
            let since = match self.stalled_since {
                Some(s) => s,
                None => now,
            };
            let m1 = CoordinatorModel { stalled: true, stalled_since: Some(since), ..self };
            if now >= since + STALL_GIVE_UP_MS {
                (
                    CoordinatorModel { stalled: false, stalled_since: None, ..m1 }.halted(),
                    Some(StallReply { changed: !self.stalled, gave_up: Some((self.issued + 1) as u64) }),
                )
            } else {
                (m1, Some(StallReply { changed: !self.stalled, gave_up: None }))
            }
        }
    }

    /// Play/Pause.
    pub open spec fn toggled(self, prepared: Option<i64>) -> (CoordinatorModel, Toggle) {
        match self.state {
            PlaybackState::Playing => (self, Toggle::Pause),
            PlaybackState::Paused => (self, Toggle::Resume),
            PlaybackState::Loading => (self, Toggle::Wait),
            PlaybackState::Stopped => {
                let (m, s) = self.begun(self.queue.current_track(), 0, prepared);
                (m, Toggle::Start(s))
            },
        }
    }

    /// Next: the same advance a natural end uses, minus repeat-one.
    pub open spec fn skipped(self, prepared: Option<i64>) -> (CoordinatorModel, (Option<(i64, u64)>, Start)) {
        let (m1, keep) = self.abandoned();
        let advanced = m1.queue.next();
        let (m2, s) = CoordinatorModel { queue: advanced.0, ..m1 }.begun(advanced.1, 0, prepared);
        (m2, (keep, s))
    }

    /// Previous, with the engine at `position`: past the threshold the
    /// current track restarts; otherwise the queue steps back.
    pub open spec fn went_back(self, position: u64, prepared: Option<i64>) -> (CoordinatorModel, Back) {
        let restart = self.state != PlaybackState::Stopped && position > RESTART_THRESHOLD_MS;
        let stepped = if restart {
            (self.queue, self.queue.current_track())
        } else {
            self.queue.previous()
        };
        let m1 = CoordinatorModel { queue: stepped.0, ..self };
        match stepped.1 {
            Some(t) => if m1.loaded == Some(t) && m1.state != PlaybackState::Stopped {
                (m1, Back::Rewind(t))
            } else {
                let (m2, s) = m1.begun(stepped.1, 0, prepared);
                (m2, Back::Started(s))
            },
            None => {
                let (m2, s) = m1.begun(None, 0, prepared);
                (m2, Back::Started(s))
            },
        }
    }

    /// Queueing something while nothing plays starts it.
    pub open spec fn started_if_idle(self, prepared: Option<i64>) -> (CoordinatorModel, Option<Start>) {
        if self.state != PlaybackState::Stopped {
            (self, None)
        } else {
            let advanced = self.queue.next();
            match advanced.1 {
                Some(t) => {
                    let (m, s) = CoordinatorModel { queue: advanced.0, ..self }.begun(
                        Some(t),
                        0,
                        prepared,
                    );
                    (m, Some(s))
                },
                None => (CoordinatorModel { queue: advanced.0, ..self }, None),
            }
        }
    }

    /// What to do about the decode held for the next track.
    pub open spec fn prefetched(self, prepared: Option<i64>, prepared_fits_device: bool) -> (
        CoordinatorModel,
        PrefetchPlan,
    ) {
        let next = self.queue.next().1;
        let cancel = match self.enqueued {
            Some((_, id)) => Some(id) != next,
            None => false,
        };
        let m = if cancel {
            CoordinatorModel { enqueued: None, ..self }
        } else {
            self
        };
        match next {
            None => (m, PrefetchPlan { cancel_queued: cancel, drop_prepared: prepared is Some, target: None }),
            Some(t) => (
                m,
                PrefetchPlan {
                    cancel_queued: cancel,
                    drop_prepared: prepared is Some && (prepared != Some(t) || !prepared_fits_device),
                    target: Some(t),
                },
            ),
        }
    }
}

/// The queue after a new context replaced the old one: what `set_context`
/// promises.
pub open spec fn context_replaced(
    before: QueueModel,
    after: QueueModel,
    tracks: Seq<i64>,
    start_index: usize,
    name: Option<Seq<char>>,
    track: Option<i64>,
) -> bool {
    &&& track == (if tracks.len() == 0 {
        None
    } else {
        Some(tracks[min(start_index as int, tracks.len() - 1)])
    })
    &&& after.context_current() == track
    &&& after.current == (match track {
        Some(t) => Some((t, crate::queue::Origin::Context)),
        None => None,
    })
    &&& after.order == tracks
    &&& after.manual == before.manual
    &&& after.history == before.history_after_leaving()
    &&& after.repeat == before.repeat
    &&& (after.perm is Some) == (before.perm is Some)
    &&& before.perm is None ==> after.position == after.clamped(start_index as int)
    &&& after.name == name
    &&& after.next_entry_id == before.next_entry_id
}

/// Owns every playback decision: what is queued, what plays next, what a
/// report from the engine or a finished load means.
///
/// Being the sole owner is the point: the engine reports and the user
/// commands, but only this decides, so a track ending at the moment Next is
/// pressed cannot advance twice. Every report carries the epoch it was made
/// under, and one from an epoch already left is ignored.
pub struct Coordinator {
    queue: PlayerQueue,
    state: PlaybackState,
    loaded: Option<i64>,
    volume: u32,
    muted: bool,
    ceiling: i32,
    normalize: bool,
    gapless: bool,
    trim_silence: bool,
    keep_abandoned: bool,
    epoch: u64,
    issued: u64,
    enqueued: Option<(u64, i64)>,
    heard_audio: bool,
    loaded_duration: Option<u64>,
    last_position: u64,
    recorded_play: bool,
    covered_from_zero: bool,
    stalled: bool,
    stalled_since: Option<u64>,
    resume_at: Option<u64>,
    sampling: HashSet<i64>,
}

impl View for Coordinator {
    type V = CoordinatorModel;

    closed spec fn view(&self) -> CoordinatorModel {
        CoordinatorModel {
            queue: self.queue@,
            state: self.state,
            loaded: self.loaded,
            volume: self.volume,
            muted: self.muted,
            ceiling: self.ceiling,
            normalize: self.normalize,
            gapless: self.gapless,
            trim_silence: self.trim_silence,
            keep_abandoned: self.keep_abandoned,
            epoch: self.epoch,
            issued: self.issued,
            enqueued: self.enqueued,
            heard_audio: self.heard_audio,
            loaded_duration: self.loaded_duration,
            last_position: self.last_position,
            recorded_play: self.recorded_play,
            covered_from_zero: self.covered_from_zero,
            stalled: self.stalled,
            stalled_since: self.stalled_since,
            resume_at: self.resume_at,
            sampling: self.sampling@,
        }
    }
}

/// The coordinator as it starts: nothing queued, stopped, full volume,
/// gapless handover and silence trimming on, levelling off.
pub open spec fn initial_model() -> CoordinatorModel {
    CoordinatorModel {
        queue: QueueModel {
            current: None,
            manual: Seq::empty(),
            order: Seq::empty(),
            perm: None,
            position: 0,
            repeat: RepeatMode::Off,
            name: None,
            history: Seq::empty(),
            next_entry_id: 0,
        },
        state: PlaybackState::Stopped,
        loaded: None,
        volume: FULL_VOLUME,
        muted: false,
        ceiling: 0,
        normalize: false,
        gapless: true,
        trim_silence: true,
        keep_abandoned: false,
        epoch: 0,
        issued: 0,
        enqueued: None,
        heard_audio: false,
        loaded_duration: None,
        last_position: 0,
        recorded_play: false,
        covered_from_zero: true,
        stalled: false,
        stalled_since: None,
        resume_at: None,
        sampling: Set::empty(),
    }
}

impl Coordinator {
    pub closed spec fn wf(&self) -> bool {
        self.queue.wf()
    }

    pub fn new() -> (c: Self)
        ensures
            c.wf(),
            c@ == initial_model(),
    {
        let c = Coordinator {
            queue: PlayerQueue::new(),
            state: PlaybackState::Stopped,
            loaded: None,
            volume: FULL_VOLUME,
            muted: false,
            ceiling: 0,
            normalize: false,
            gapless: true,
            trim_silence: true,
            keep_abandoned: false,
            epoch: 0,
            issued: 0,
            enqueued: None,
            heard_audio: false,
            loaded_duration: None,
            last_position: 0,
            recorded_play: false,
            covered_from_zero: true,
            stalled: false,
            stalled_since: None,
            resume_at: None,
            sampling: HashSet::new(),
        };
        proof {
            assert(c@ =~= initial_model());
        }
        c
    }

    // --- reads ---------------------------------------------------------

    pub fn queue(&self) -> (q: &PlayerQueue)
        ensures
            q@ == self@.queue,
            self.wf() ==> q.wf(),
    {
        &self.queue
    }

    pub fn state(&self) -> (s: PlaybackState)
        ensures
            s == self@.state,
    {
        self.state
    }

    pub fn loaded(&self) -> (t: Option<i64>)
        ensures
            t == self@.loaded,
    {
        self.loaded
    }

    pub fn volume(&self) -> (v: u32)
        ensures
            v == self@.volume,
    {
        self.volume
    }

    pub fn muted(&self) -> (m: bool)
        ensures
            m == self@.muted,
    {
        self.muted
    }

    pub fn ceiling(&self) -> (c: i32)
        ensures
            c == self@.ceiling,
    {
        self.ceiling
    }

    pub fn normalize(&self) -> (on: bool)
        ensures
            on == self@.normalize,
    {
        self.normalize
    }

    pub fn gapless(&self) -> (on: bool)
        ensures
            on == self@.gapless,
    {
        self.gapless
    }

    pub fn trim_silence(&self) -> (on: bool)
        ensures
            on == self@.trim_silence,
    {
        self.trim_silence
    }

    pub fn stalled(&self) -> (on: bool)
        ensures
            on == self@.stalled,
    {
        self.stalled
    }

    pub fn epoch(&self) -> (e: u64)
        ensures
            e == self@.epoch,
    {
        self.epoch
    }

    /// The last epoch handed out. Every transition that starts or stops
    /// something takes a fresh one, so it must stay below the maximum.
    pub fn issued(&self) -> (e: u64)
        ensures
            e == self@.issued,
    {
        self.issued
    }

    // --- starting and stopping -----------------------------------------

    /// Stops playback under a fresh epoch, so any report still in flight for
    /// the stopped track is discarded. The engine is stopped under the
    /// returned epoch.
    pub fn halt(&mut self) -> (epoch: u64)
        requires
            old(self).wf(),
            old(self)@.issued < u64::MAX,
        ensures
            final(self).wf(),
            final(self)@ == old(self)@.halted(),
            epoch == old(self)@.issued + 1,
    {
        self.stalled = false;
        self.stalled_since = None;
        self.enqueued = None;
        self.loaded_duration = None;
        self.issued = self.issued + 1;
        self.epoch = self.issued;
        self.state = PlaybackState::Stopped;
        self.loaded = None;
        proof {
            assert(self@ =~= old(self)@.halted());
        }
        self.epoch
    }

    /// Begins playing `candidate` under a fresh epoch, or halts when there is
    /// nothing to play. A pending resume position applies to this track and
    /// is consumed. `prepared` names the track whose decode is held ready.
    pub fn begin_load(&mut self, candidate: Option<i64>, attempt: usize, prepared: Option<i64>) -> (start: Start)
        requires
            old(self).wf(),
            old(self)@.issued < u64::MAX,
        ensures
            final(self).wf(),
            (final(self)@, start) == old(self)@.begun(candidate, attempt, prepared),
    {
        let track_id = match candidate {
            Some(t) => t,
            None => {
                let epoch = self.halt();
                return Start::Halted { epoch };
            },
        };
        self.enqueued = None;
        self.heard_audio = false;
        self.loaded_duration = None;
        self.issued = self.issued + 1;
        self.epoch = self.issued;
        let epoch = self.epoch;
        let start_at = match self.resume_at {
            Some(p) => p,
            None => 0,
        };
        self.resume_at = None;
        self.covered_from_zero = start_at == 0;
        self.recorded_play = false;
        let ready = match prepared {
            Some(p) => p == track_id,
            None => false,
        };
        if ready && start_at == 0 {
            proof {
                assert(self@ =~= old(self)@.begun(candidate, attempt, prepared).0);
            }
            return Start::Prepared { epoch, track_id, attempt };
        }
        self.state = PlaybackState::Loading;
        proof {
            assert(self@ =~= old(self)@.begun(candidate, attempt, prepared).0);
        }
        Start::Cold { epoch, track_id, start_at, attempt }
    }

    /// Notes that the loaded track was really listened to, once per play.
    pub fn record_play(&mut self) -> (counted: Option<i64>)
        requires
            old(self).wf(),
        ensures
            final(self).wf(),
            (final(self)@, counted) == old(self)@.counted(),
    {
        if self.recorded_play {
            return None;
        }
        match self.loaded {
            None => None,
            Some(track_id) => {
                self.recorded_play = true;
                proof {
                    assert(self@ =~= old(self)@.counted().0);
                }
                Some(track_id)
            },
        }
    }

    /// A track is being left part-way: whether to offer it for a complete
    /// copy, and how far it had played. Whether it is worth one is decided
    /// from its row by `worth_keeping_offline`.
    pub fn consider_offline_copy(&mut self) -> (keep: Option<(i64, u64)>)
        requires
            old(self).wf(),
        ensures
            final(self).wf(),
            (final(self)@, keep) == old(self)@.abandoned(),
    {
        if !self.keep_abandoned {
            return None;
        }
        match self.loaded {
            None => None,
            Some(track_id) => {
                let position = self.last_position;
                self.last_position = 0;
                proof {
                    assert(self@ =~= old(self)@.abandoned().0);
                }
                Some((track_id, position))
            },
        }
    }

    // --- reports -------------------------------------------------------

    /// A load finished, possibly for a track already left. A failed track
    /// is skipped through the same priority rule as a natural end, at most
    /// `MAX_LOAD_ATTEMPTS` tracks in a run, and never when there is no
    /// decoder at all.
    pub fn load_finished(&mut self, outcome: LoadOutcome, prepared: Option<i64>) -> (reply: LoadReply)
        requires
            old(self).wf(),
            old(self)@.issued < u64::MAX,
            outcome.attempt < usize::MAX,
        ensures
            final(self).wf(),
            (final(self)@, reply) == old(self)@.after_load(outcome, prepared),
    {
        if outcome.epoch != self.epoch {
            return LoadReply::Ignored;
        }
        match outcome.result {
            Ok(()) => {
                self.loaded = Some(outcome.track_id);
                self.state = PlaybackState::Playing;
                self.stalled = false;
                self.stalled_since = None;
                proof {
                    assert(self@ =~= old(self)@.after_load(outcome, prepared).0);
                }
                LoadReply::Playing { track_id: outcome.track_id, start_at: outcome.start_at }
            },
            Err(LoadError::Superseded) => LoadReply::Ignored,
            Err(LoadError::NoDecoder(message)) => {
                let epoch = self.halt();
                LoadReply::Failed { epoch, message }
            },
            Err(LoadError::Failed(message)) => self.skip_failed(outcome.attempt, message, prepared),
        }
    }

    fn skip_failed(&mut self, attempt: usize, message: String, prepared: Option<i64>) -> (reply: LoadReply)
        requires
            old(self).wf(),
            old(self)@.issued < u64::MAX,
            attempt < usize::MAX,
        ensures
            final(self).wf(),
            (final(self)@, reply) == old(self)@.after_failure(attempt, message, prepared),
    {
        let next_attempt = attempt + 1;
        if next_attempt < MAX_LOAD_ATTEMPTS {
            let ghost before = self@;
            let candidate = self.queue.on_next();
            proof {
                assert(self@ =~= CoordinatorModel { queue: before.queue.next().0, ..before });
            }
            match candidate {
                Some(_) => {
                    let start = self.begin_load(candidate, next_attempt, prepared);
                    return LoadReply::Skipped(start);
                },
                None => {
                    let epoch = self.halt();
                    return LoadReply::Failed { epoch, message };
                },
            }
        }
        let epoch = self.halt();
        LoadReply::Failed { epoch, message }
    }

    /// How long the loaded track runs, as the database has it in seconds.
    /// Only a positive length is known.
    pub fn set_loaded_duration(&mut self, duration_secs: Option<i64>)
        requires
            old(self).wf(),
        ensures
            final(self).wf(),
            final(self)@ == (CoordinatorModel {
                loaded_duration: match duration_secs {
                    Some(s) => if 0 < s && s * 1000 <= u64::MAX {
                        Some((s * 1000) as u64)
                    } else {
                        None
                    },
                    None => None,
                },
                ..old(self)@
            }),
    {
        self.loaded_duration = match duration_secs {
            Some(s) => if 0 < s && s <= (u64::MAX / 1000) as i64 {
                Some((s as u64) * 1000)
            } else {
                None
            },
            None => None,
        };
        proof {
            assert(self@ =~= CoordinatorModel {
                loaded_duration: match duration_secs {
                    Some(s) => if 0 < s && s * 1000 <= u64::MAX {
                        Some((s * 1000) as u64)
                    } else {
                        None
                    },
                    None => None,
                },
                ..old(self)@
            });
        }
    }

    /// Takes over from a handover the engine already performed: the queue
    /// catches up to audio that is ahead of it. When the engine handed over
    /// to something the queue no longer agrees with, the queue's own answer
    /// is started instead.
    pub fn adopt_handover(&mut self, next_epoch: u64, prepared: Option<i64>) -> (then: Advance)
        requires
            old(self).wf(),
            old(self)@.issued < u64::MAX,
        ensures
            final(self).wf(),
            (final(self)@, then) == old(self)@.adopted(next_epoch, prepared),
    {
        let claimed = match self.enqueued {
            Some((e, t)) => if e == next_epoch {
                Some(t)
            } else {
                None
            },
            None => None,
        };
        self.enqueued = None;
        let advanced = self.queue.on_finished();
        if let Some(t) = claimed {
            let agrees = match advanced {
                Some(a) => a == t,
                None => false,
            };
            if agrees {
                self.epoch = next_epoch;
                self.loaded = Some(t);
                self.state = PlaybackState::Playing;
                self.stalled = false;
                self.stalled_since = None;
                self.covered_from_zero = true;
                self.recorded_play = false;
                self.heard_audio = false;
                self.last_position = 0;
                self.resume_at = None;
                proof {
                    assert(self@ =~= old(self)@.adopted(next_epoch, prepared).0);
                }
                return Advance::Adopted(t);
            }
        }
        self.loaded = None;
        proof {
            let moved = CoordinatorModel { enqueued: None, queue: old(self)@.queue.finished().0, ..old(self)@ };
            assert(self@ =~= CoordinatorModel { loaded: None, ..moved });
        }
        let start = self.begin_load(advanced, 0, prepared);
        Advance::Started(start)
    }

    /// The track playing under `epoch` ended. Reaching the end counts
    /// however short the track was; a decode that did not cover the track
    /// from its start is treated as a track left part-way.
    pub fn track_finished(&mut self, epoch: u64, handed_to: Option<u64>, prepared: Option<i64>) -> (finished: Option<Finished>)
        requires
            old(self).wf(),
            old(self)@.issued < u64::MAX,
        ensures
            final(self).wf(),
            (final(self)@, finished) == old(self)@.after_finish(epoch, handed_to, prepared),
    {
        if epoch != self.epoch {
            return None;
        }
        let counted = self.record_play();
        let keep = if !self.covered_from_zero {
            self.consider_offline_copy()
        } else {
            None
        };
        match handed_to {
            Some(next_epoch) => {
                let then = self.adopt_handover(next_epoch, prepared);
                Some(Finished { counted, keep, then })
            },
            None => {
                self.loaded = None;
                let advanced = self.queue.on_finished();
                let start = self.begin_load(advanced, 0, prepared);
                Some(Finished { counted, keep, then: Advance::Started(start) })
            },
        }
    }

    /// A progress report for the track playing under `epoch`: the position,
    /// and how long the output has been silent. Near the end, the prepared
    /// next track is appended behind this one; a silent tail is skipped.
    pub fn progress(&mut self, epoch: u64, position: u64, silent_for: u64, prepared: Option<i64>) -> (tick: Option<Tick>)
        requires
            old(self).wf(),
            old(self)@.issued < u64::MAX,
        ensures
            final(self).wf(),
            (final(self)@, tick) == old(self)@.after_progress(epoch, position, silent_for, prepared),
    {
        if epoch != self.epoch {
            return None;
        }
        let counted = self.note_position(position, silent_for);
        let due = self.handover_due(position);
        let enqueue = self.reserve_handover(due, position, prepared);
        let near_tail = match self.loaded_duration {
            Some(d) => d <= position || d - position <= TRIM_WITHIN_MS,
            None => false,
        };
        let skip_tail = self.trim_silence && near_tail && self.heard_audio && !self.stalled
            && silent_for >= SILENT_TAIL_MS;
        Some(Tick { counted, prepared_taken: due, enqueue, skip_tail })
    }

    fn note_position(&mut self, position: u64, silent_for: u64) -> (counted: Option<i64>)
        requires
            old(self).wf(),
        ensures
            final(self).wf(),
            (final(self)@, counted) == old(self)@.noted(position, silent_for),
    {
        self.last_position = position;
        let ghost m1 = self@;
        proof {
            assert(m1 =~= CoordinatorModel { last_position: position, ..old(self)@ });
        }
        let counted = self.count_if(position >= PLAY_COUNTS_AFTER_MS);
        let ghost m2 = self@;
        if silent_for == 0 {
            self.heard_audio = true;
            proof {
                assert(self@ =~= CoordinatorModel { heard_audio: true, ..m2 });
            }
        }
        counted
    }

    fn count_if(&mut self, counts: bool) -> (counted: Option<i64>)
        requires
            old(self).wf(),
        ensures
            final(self).wf(),
            (final(self)@, counted) == (if counts {
                old(self)@.counted()
            } else {
                (old(self)@, None)
            }),
    {
        if counts {
            self.record_play()
        } else {
            None
        }
    }

    fn handover_due(&self, position: u64) -> (due: bool)
        requires
            self.wf(),
        ensures
            due == self@.handover_due(position),
    {
        let near_end = match self.loaded_duration {
            Some(d) => d <= position || d - position <= ENQUEUE_WITHIN_MS,
            None => false,
        };
        self.gapless && self.enqueued.is_none() && near_end && self.queue.repeat() != RepeatMode::One
            && self.queue.peek_next().is_some()
    }

    fn reserve_handover(&mut self, due: bool, position: u64, prepared: Option<i64>) -> (enqueue: Option<(u64, i64)>)
        requires
            old(self).wf(),
            old(self)@.issued < u64::MAX,
            due == old(self)@.handover_due(position),
        ensures
            final(self).wf(),
            (final(self)@, enqueue) == old(self)@.handover(position, prepared),
    {
        if !due {
            return None;
        }
        let next = self.queue.peek_next();
        let matches_next = match (prepared, next) {
            (Some(p), Some(n)) => p == n,
            (None, None) => true,
            _ => false,
        };
        if !matches_next {
            return None;
        }
        self.issued = self.issued + 1;
        proof {
            assert(self@ =~= CoordinatorModel { issued: self@.issued, ..old(self)@ });
        }
        match next {
            Some(n) => Some((self.issued, n)),
            None => None,
        }
    }

    /// The engine accepted the decode appended under `epoch`.
    pub fn enqueue_accepted(&mut self, epoch: u64, track_id: i64)
        requires
            old(self).wf(),
        ensures
            final(self).wf(),
            final(self)@ == (CoordinatorModel { enqueued: Some((epoch, track_id)), ..old(self)@ }),
    {
        self.enqueued = Some((epoch, track_id));
        proof {
            assert(self@ =~= CoordinatorModel { enqueued: Some((epoch, track_id)), ..old(self)@ });
        }
    }

    /// The decoder ran dry, or recovered, at clock `now`. A stall is shown
    /// for what it is, and one lasting `STALL_GIVE_UP_MS` stops playback.
    pub fn stall(&mut self, epoch: u64, stalled: bool, now: u64) -> (reply: Option<StallReply>)
        requires
            old(self).wf(),
            old(self)@.issued < u64::MAX,
        ensures
            final(self).wf(),
            (final(self)@, reply) == old(self)@.after_stall(epoch, stalled, now),
    {
        if epoch != self.epoch {
            return None;
        }
        let was = self.stalled;
        if !stalled {
            self.stalled = false;
            self.stalled_since = None;
            proof {
                assert(self@ =~= old(self)@.after_stall(epoch, stalled, now).0);
            }
            return Some(StallReply { changed: was, gave_up: None });
        }
        let since = match self.stalled_since {
            Some(s) => s,
            None => now,
        };
        self.stalled = true;
        self.stalled_since = Some(since);
        if now >= since && now - since >= STALL_GIVE_UP_MS {
            self.stalled = false;
            self.stalled_since = None;
            let epoch = self.halt();
            return Some(StallReply { changed: !was, gave_up: Some(epoch) });
        }
        proof {
            assert(self@ =~= old(self)@.after_stall(epoch, stalled, now).0);
        }
        Some(StallReply { changed: !was, gave_up: None })
    }

    /// Whether to start sampling the loudness of the track now playing:
    /// only while levelling is on, only for a track with no reading yet, only
    /// with a decoder to sample with, and once per track per session, so a
    /// track that cannot be measured is not retried on every play.
    pub fn should_measure(&mut self, track_id: i64, has_reading: bool, has_decoder: bool) -> (start: bool)
        requires
            old(self).wf(),
        ensures
            final(self).wf(),
            ({
                let eligible = old(self)@.normalize && !has_reading && has_decoder;
                &&& start == (eligible && !old(self)@.sampling.contains(track_id))
                &&& final(self)@ == (CoordinatorModel {
                    sampling: if eligible {
                        old(self)@.sampling.insert(track_id)
                    } else {
                        old(self)@.sampling
                    },
                    ..old(self)@
                })
            }),
    {
        broadcast use vstd::std_specs::hash::group_hash_axioms;

        if !self.normalize || has_reading || !has_decoder {
            return false;
        }
        let fresh = self.sampling.insert(track_id);
        proof {
            assert(self@ =~= CoordinatorModel { sampling: old(self)@.sampling.insert(track_id), ..old(self)@ });
        }
        fresh
    }

    /// Whether a decode that finished preparing is still worth keeping: only
    /// while its track is what comes next.
    pub fn keep_prepared(&self, ready: &Prepared) -> (keep: bool)
        requires
            self.wf(),
        ensures
            keep == (self@.queue.next().1 == Some(ready.track_id)),
    {
        match self.queue.peek_next() {
            Some(n) => n == ready.track_id,
            None => false,
        }
    }

    /// What to do about the decode held for the next track, given the rate
    /// of the device now open.
    pub fn plan_prefetch(&mut self, held: Option<&Prepared>, device_rate: u32) -> (plan: PrefetchPlan)
        requires
            old(self).wf(),
        ensures
            final(self).wf(),
            (final(self)@, plan) == old(self)@.prefetched(held_track(held), held_fits(held, device_rate)),
    {
        let (prepared, prepared_fits_device) = match held {
            Some(p) => (Some(p.track_id), p.rate == device_rate),
            None => (None, true),
        };
        let next = self.queue.peek_next();
        let cancel = match self.enqueued {
            Some((_, id)) => match next {
                Some(n) => id != n,
                None => true,
            },
            None => false,
        };
        if cancel {
            self.enqueued = None;
        }
        proof {
            assert(self@ =~= old(self)@.prefetched(prepared, prepared_fits_device).0);
        }
        match next {
            None => PrefetchPlan { cancel_queued: cancel, drop_prepared: prepared.is_some(), target: None },
            Some(t) => {
                let stale = match prepared {
                    Some(p) => p != t || !prepared_fits_device,
                    None => false,
                };
                PrefetchPlan { cancel_queued: cancel, drop_prepared: stale, target: Some(t) }
            },
        }
    }

    // --- commands ------------------------------------------------------

    /// Plays `track_ids` from `start_index` as the new context. The manual
    /// queue survives: tracks the user interposed are a separate intention.
    pub fn play_queue(
        &mut self,
        track_ids: Vec<i64>,
        start_index: usize,
        context_name: Option<String>,
        prepared: Option<i64>,
    ) -> (result: (Option<(i64, u64)>, Start))
        requires
            old(self).wf(),
            old(self)@.issued < u64::MAX,
        ensures
            final(self).wf(),
            ({
                let (m1, keep) = old(self)@.abandoned();
                let target = if track_ids@.len() == 0 {
                    None
                } else {
                    Some(track_ids@[min(start_index as int, track_ids@.len() - 1)])
                };
                &&& result.0 == keep
                &&& context_replaced(
                    m1.queue,
                    final(self)@.queue,
                    track_ids@,
                    start_index,
                    match context_name {
                        Some(n) => Some(n@),
                        None => None,
                    },
                    target,
                )
                &&& (final(self)@, result.1) == (CoordinatorModel { queue: final(self)@.queue, ..m1 }).begun(
                    target,
                    0,
                    prepared,
                )
            }),
    {
        let keep = self.consider_offline_copy();
        let ghost m1 = self@;
        let target = self.queue.set_context(track_ids, start_index, context_name);
        proof {
            assert(self@ =~= CoordinatorModel { queue: self@.queue, ..m1 });
        }
        let start = self.begin_load(target, 0, prepared);
        (keep, start)
    }

    /// Queues `track_id` to play after the current track, and starts it when
    /// nothing is playing.
    pub fn play_next(&mut self, track_id: i64, prepared: Option<i64>) -> (start: Option<Start>)
        requires
            old(self).wf(),
            old(self)@.issued < u64::MAX,
            old(self)@.queue.next_entry_id < u64::MAX,
        ensures
            final(self).wf(),
            ({
                let entry_id = (old(self)@.queue.next_entry_id + 1) as u64;
                let queued = CoordinatorModel {
                    queue: QueueModel {
                        manual: seq![ManualEntry { entry_id, track_id }] + old(self)@.queue.manual,
                        next_entry_id: entry_id,
                        ..old(self)@.queue
                    },
                    ..old(self)@
                };
                (final(self)@, start) == queued.started_if_idle(prepared)
            }),
    {
        let ghost before = self@;
        let entry_id = self.queue.enqueue_next(track_id);
        proof {
            assert(self@ =~= CoordinatorModel {
                queue: QueueModel {
                    manual: seq![ManualEntry { entry_id, track_id }] + before.queue.manual,
                    next_entry_id: entry_id,
                    ..before.queue
                },
                ..before
            });
        }
        self.start_if_idle(prepared)
    }

    /// Queues `track_id` behind everything already queued, and starts it when
    /// nothing is playing.
    pub fn add_to_queue(&mut self, track_id: i64, prepared: Option<i64>) -> (start: Option<Start>)
        requires
            old(self).wf(),
            old(self)@.issued < u64::MAX,
            old(self)@.queue.next_entry_id < u64::MAX,
        ensures
            final(self).wf(),
            ({
                let entry_id = (old(self)@.queue.next_entry_id + 1) as u64;
                let queued = CoordinatorModel {
                    queue: QueueModel {
                        manual: old(self)@.queue.manual.push(ManualEntry { entry_id, track_id }),
                        next_entry_id: entry_id,
                        ..old(self)@.queue
                    },
                    ..old(self)@
                };
                (final(self)@, start) == queued.started_if_idle(prepared)
            }),
    {
        let ghost before = self@;
        let entry_id = self.queue.enqueue_last(track_id);
        proof {
            assert(self@ =~= CoordinatorModel {
                queue: QueueModel {
                    manual: before.queue.manual.push(ManualEntry { entry_id, track_id }),
                    next_entry_id: entry_id,
                    ..before.queue
                },
                ..before
            });
        }
        self.start_if_idle(prepared)
    }

    fn start_if_idle(&mut self, prepared: Option<i64>) -> (start: Option<Start>)
        requires
            old(self).wf(),
            old(self)@.issued < u64::MAX,
        ensures
            final(self).wf(),
            (final(self)@, start) == old(self)@.started_if_idle(prepared),
    {
        if self.state != PlaybackState::Stopped {
            return None;
        }
        let ghost before = self@;
        let next = self.queue.on_next();
        proof {
            assert(self@ =~= CoordinatorModel { queue: before.queue.next().0, ..before });
        }
        match next {
            Some(_) => Some(self.begin_load(next, 0, prepared)),
            None => None,
        }
    }

    /// Removes a queued entry; `false` when no entry has that id.
    pub fn remove_from_queue(&mut self, entry_id: u64) -> (removed: bool)
        requires
            old(self).wf(),
        ensures
            final(self).wf(),
            final(self)@ == (CoordinatorModel { queue: final(self)@.queue, ..old(self)@ }),
            removed == crate::queue::holds_entry(old(self)@.queue.manual, entry_id),
            removed ==> final(self)@.queue == (QueueModel {
                manual: old(self)@.queue.manual.remove(
                    crate::queue::first_index_of(old(self)@.queue.manual, entry_id),
                ),
                ..old(self)@.queue
            }),
            !removed ==> final(self)@.queue == old(self)@.queue,
    {
        let removed = self.queue.remove_manual(entry_id);
        proof {
            assert(self@ =~= CoordinatorModel { queue: self@.queue, ..old(self)@ });
        }
        removed
    }

    /// Moves a queued entry to `to_index`, clamped to the end.
    pub fn reorder_queue(&mut self, entry_id: u64, to_index: usize) -> (moved: bool)
        requires
            old(self).wf(),
        ensures
            final(self).wf(),
            final(self)@ == (CoordinatorModel { queue: final(self)@.queue, ..old(self)@ }),
            ({
                let m = old(self)@.queue.manual;
                let from = crate::queue::first_index_of(m, entry_id);
                let target = min(to_index as int, m.len() - 1);
                &&& moved == (crate::queue::holds_entry(m, entry_id) && from != target)
                &&& moved ==> final(self)@.queue == (QueueModel {
                    manual: m.remove(from).insert(target, m[from]),
                    ..old(self)@.queue
                })
                &&& !moved ==> final(self)@.queue == old(self)@.queue
            }),
    {
        let moved = self.queue.reorder_manual(entry_id, to_index);
        proof {
            assert(self@ =~= CoordinatorModel { queue: self@.queue, ..old(self)@ });
        }
        moved
    }

    /// Empties the manual queue.
    pub fn clear_queue(&mut self)
        requires
            old(self).wf(),
        ensures
            final(self).wf(),
            final(self)@ == (CoordinatorModel {
                queue: QueueModel { manual: Seq::empty(), ..old(self)@.queue },
                ..old(self)@
            }),
    {
        self.queue.clear_manual();
        proof {
            assert(self@ =~= CoordinatorModel {
                queue: QueueModel { manual: Seq::empty(), ..old(self)@.queue },
                ..old(self)@
            });
        }
    }

    /// Play/Pause: pausing and resuming go through the engine first.
    pub fn toggle_play_pause(&mut self, prepared: Option<i64>) -> (toggle: Toggle)
        requires
            old(self).wf(),
            old(self)@.issued < u64::MAX,
        ensures
            final(self).wf(),
            (final(self)@, toggle) == old(self)@.toggled(prepared),
    {
        match self.state {
            PlaybackState::Playing => Toggle::Pause,
            PlaybackState::Paused => Toggle::Resume,
            PlaybackState::Loading => Toggle::Wait,
            PlaybackState::Stopped => {
                let target = self.queue.current();
                Toggle::Start(self.begin_load(target, 0, prepared))
            },
        }
    }

    /// Pause asked for: whether to ask the engine to pause. Only a track that
    /// is playing pauses; while loading, paused or stopped nothing is done.
    pub fn pause_requested(&self) -> (ask: bool)
        requires
            self.wf(),
        ensures
            ask == (self@.state == PlaybackState::Playing),
    {
        self.state == PlaybackState::Playing
    }

    /// Resume asked for: whether to ask the engine to resume. Only a paused
    /// track resumes.
    pub fn resume_requested(&self) -> (ask: bool)
        requires
            self.wf(),
        ensures
            ask == (self@.state == PlaybackState::Paused),
    {
        self.state == PlaybackState::Paused
    }

    /// The engine paused: a playing track is now paused. In any other state
    /// nothing changes.
    pub fn paused(&mut self)
        requires
            old(self).wf(),
        ensures
            final(self).wf(),
            final(self)@ == (if old(self)@.state == PlaybackState::Playing {
                CoordinatorModel { state: PlaybackState::Paused, ..old(self)@ }
            } else {
                old(self)@
            }),
    {
        if self.state == PlaybackState::Playing {
            self.state = PlaybackState::Paused;
            proof {
                assert(self@ =~= CoordinatorModel { state: PlaybackState::Paused, ..old(self)@ });
            }
        }
    }

    /// The engine resumed: a paused track is now playing. In any other state
    /// nothing changes.
    pub fn resumed(&mut self)
        requires
            old(self).wf(),
        ensures
            final(self).wf(),
            final(self)@ == (if old(self)@.state == PlaybackState::Paused {
                CoordinatorModel { state: PlaybackState::Playing, ..old(self)@ }
            } else {
                old(self)@
            }),
    {
        if self.state == PlaybackState::Paused {
            self.state = PlaybackState::Playing;
            proof {
                assert(self@ =~= CoordinatorModel { state: PlaybackState::Playing, ..old(self)@ });
            }
        }
    }

    /// A rewind the engine could not do in place, as a stream cannot seek:
    /// the track is loaded again from its start, which is the rewind.
    pub fn rewind_failed(&mut self, track_id: i64, prepared: Option<i64>) -> (start: Start)
        requires
            old(self).wf(),
            old(self)@.issued < u64::MAX,
        ensures
            final(self).wf(),
            (final(self)@, start) == old(self)@.begun(Some(track_id), 0, prepared),
    {
        self.begin_load(Some(track_id), 0, prepared)
    }

    /// Next. The track being left is considered for a complete copy.
    pub fn next(&mut self, prepared: Option<i64>) -> (result: (Option<(i64, u64)>, Start))
        requires
            old(self).wf(),
            old(self)@.issued < u64::MAX,
        ensures
            final(self).wf(),
            (final(self)@, result) == old(self)@.skipped(prepared),
    {
        let keep = self.consider_offline_copy();
        let ghost m1 = self@;
        let target = self.queue.on_next();
        proof {
            assert(self@ =~= CoordinatorModel { queue: m1.queue.next().0, ..m1 });
        }
        let start = self.begin_load(target, 0, prepared);
        (keep, start)
    }

    /// Previous, with the engine at `position`.
    pub fn previous(&mut self, position: u64, prepared: Option<i64>) -> (back: Back)
        requires
            old(self).wf(),
            old(self)@.issued < u64::MAX,
        ensures
            final(self).wf(),
            (final(self)@, back) == old(self)@.went_back(position, prepared),
    {
        let restart = self.state != PlaybackState::Stopped && position > RESTART_THRESHOLD_MS;
        let target = self.step_back(restart);
        let already_loaded = match (target, self.loaded) {
            (Some(t), Some(l)) => t == l && self.state != PlaybackState::Stopped,
            _ => false,
        };
        if already_loaded {
            match target {
                Some(t) => return Back::Rewind(t),
                None => {},
            }
        }
        Back::Started(self.begin_load(target, 0, prepared))
    }

    fn step_back(&mut self, restart: bool) -> (target: Option<i64>)
        requires
            old(self).wf(),
        ensures
            final(self).wf(),
            ({
                let stepped = if restart {
                    (old(self)@.queue, old(self)@.queue.current_track())
                } else {
                    old(self)@.queue.previous()
                };
                &&& final(self)@ == (CoordinatorModel { queue: stepped.0, ..old(self)@ })
                &&& target == stepped.1
            }),
    {
        if restart {
            proof {
                assert(self@ =~= CoordinatorModel { queue: old(self)@.queue, ..old(self)@ });
            }
            self.queue.current()
        } else {
            let target = self.queue.on_previous();
            proof {
                assert(self@ =~= CoordinatorModel { queue: old(self)@.queue.previous().0, ..old(self)@ });
            }
            target
        }
    }

    /// Stop. The track being left is considered for a complete copy; the
    /// engine is stopped under the returned epoch.
    pub fn stop(&mut self) -> (result: (Option<(i64, u64)>, u64))
        requires
            old(self).wf(),
            old(self)@.issued < u64::MAX,
        ensures
            final(self).wf(),
            final(self)@ == old(self)@.abandoned().0.halted(),
            result == (old(self)@.abandoned().1, (old(self)@.issued + 1) as u64),
    {
        let keep = self.consider_offline_copy();
        let epoch = self.halt();
        (keep, epoch)
    }

    /// Sets the slider, in thousandths. Moving the slider while muted is an
    /// implicit unmute, or the slider would appear dead.
    pub fn set_volume(&mut self, volume: u32)
        requires
            old(self).wf(),
        ensures
            final(self).wf(),
            ({
                let v = if volume > FULL_VOLUME {
                    FULL_VOLUME
                } else {
                    volume
                };
                final(self)@ == (CoordinatorModel {
                    volume: v,
                    muted: old(self)@.muted && v == 0,
                    ..old(self)@
                })
            }),
    {
        self.volume = if volume > FULL_VOLUME {
            FULL_VOLUME
        } else {
            volume
        };
        if self.muted && self.volume > 0 {
            self.muted = false;
        }
        proof {
            assert(self@ =~= CoordinatorModel {
                volume: self.volume,
                muted: old(self)@.muted && self.volume == 0,
                ..old(self)@
            });
        }
    }

    pub fn set_muted(&mut self, muted: bool)
        requires
            old(self).wf(),
        ensures
            final(self).wf(),
            final(self)@ == (CoordinatorModel { muted, ..old(self)@ }),
    {
        self.muted = muted;
        proof {
            assert(self@ =~= CoordinatorModel { muted, ..old(self)@ });
        }
    }

    /// Lowers the top of the slider, held between `MIN_CEILING_CENTIBELS`
    /// and unity.
    pub fn set_volume_ceiling(&mut self, ceiling: i32)
        requires
            old(self).wf(),
        ensures
            final(self).wf(),
            final(self)@ == (CoordinatorModel {
                ceiling: if ceiling < MIN_CEILING_CENTIBELS {
                    MIN_CEILING_CENTIBELS
                } else if ceiling > 0 {
                    0
                } else {
                    ceiling
                },
                ..old(self)@
            }),
    {
        self.ceiling = if ceiling < MIN_CEILING_CENTIBELS {
            MIN_CEILING_CENTIBELS
        } else if ceiling > 0 {
            0
        } else {
            ceiling
        };
        proof {
            assert(self@ =~= CoordinatorModel { ceiling: self.ceiling, ..old(self)@ });
        }
    }

    /// Levelling on or off. Returns the loaded track, whose correction is to
    /// be read again: switching this mid-track is the whole point.
    pub fn set_normalize(&mut self, on: bool) -> (reread: Option<i64>)
        requires
            old(self).wf(),
        ensures
            final(self).wf(),
            final(self)@ == (CoordinatorModel { normalize: on, ..old(self)@ }),
            reread == old(self)@.loaded,
    {
        self.normalize = on;
        proof {
            assert(self@ =~= CoordinatorModel { normalize: on, ..old(self)@ });
        }
        self.loaded
    }

    pub fn set_gapless(&mut self, on: bool)
        requires
            old(self).wf(),
        ensures
            final(self).wf(),
            final(self)@ == (CoordinatorModel { gapless: on, ..old(self)@ }),
    {
        self.gapless = on;
        proof {
            assert(self@ =~= CoordinatorModel { gapless: on, ..old(self)@ });
        }
    }

    pub fn set_trim_silence(&mut self, on: bool)
        requires
            old(self).wf(),
        ensures
            final(self).wf(),
            final(self)@ == (CoordinatorModel { trim_silence: on, ..old(self)@ }),
    {
        self.trim_silence = on;
        proof {
            assert(self@ =~= CoordinatorModel { trim_silence: on, ..old(self)@ });
        }
    }

    /// Whether to fetch a complete copy of tracks abandoned part-way.
    pub fn set_keep_abandoned(&mut self, on: bool)
        requires
            old(self).wf(),
        ensures
            final(self).wf(),
            final(self)@ == (CoordinatorModel { keep_abandoned: on, ..old(self)@ }),
    {
        self.keep_abandoned = on;
        proof {
            assert(self@ =~= CoordinatorModel { keep_abandoned: on, ..old(self)@ });
        }
    }

    pub fn set_repeat(&mut self, mode: RepeatMode)
        requires
            old(self).wf(),
        ensures
            final(self).wf(),
            final(self)@ == (CoordinatorModel {
                queue: QueueModel { repeat: mode, ..old(self)@.queue },
                ..old(self)@
            }),
    {
        self.queue.set_repeat(mode);
        proof {
            assert(self@ =~= CoordinatorModel {
                queue: QueueModel { repeat: mode, ..old(self)@.queue },
                ..old(self)@
            });
        }
    }

    /// Shuffle on or off, without interrupting what is playing.
    pub fn set_shuffle(&mut self, on: bool)
        requires
            old(self).wf(),
        ensures
            final(self).wf(),
            final(self)@ == (CoordinatorModel { queue: final(self)@.queue, ..old(self)@ }),
            final(self)@.queue == (QueueModel {
                perm: final(self)@.queue.perm,
                position: final(self)@.queue.position,
                ..old(self)@.queue
            }),
            on ==> final(self)@.queue.perm is Some && final(self)@.queue.position == 0,
            !on ==> final(self)@.queue.perm is None,
            final(self)@.queue.context_current() == old(self)@.queue.context_current(),
    {
        self.queue.set_shuffle(on);
        proof {
            assert(self@ =~= CoordinatorModel { queue: self@.queue, ..old(self)@ });
        }
    }

    /// Whether a seek means anything: not while stopped.
    pub fn seek_allowed(&self) -> (allowed: bool)
        ensures
            allowed == (self@.state != PlaybackState::Stopped),
    {
        self.state != PlaybackState::Stopped
    }

    /// The engine seeked to `position`. The decode no longer covers the track
    /// from its start, and anything appended behind it went with it.
    pub fn seek_landed(&mut self, position: u64)
        requires
            old(self).wf(),
        ensures
            final(self).wf(),
            final(self)@ == (CoordinatorModel {
                covered_from_zero: false,
                last_position: position,
                enqueued: None,
                ..old(self)@
            }),
    {
        self.covered_from_zero = false;
        self.last_position = position;
        self.enqueued = None;
        proof {
            assert(self@ =~= CoordinatorModel {
                covered_from_zero: false,
                last_position: position,
                enqueued: None,
                ..old(self)@
            });
        }
    }

    /// The decode could not be rebuilt at `position`: the track is loaded
    /// again, starting there.
    pub fn seek_undecodable(&mut self, position: u64, prepared: Option<i64>) -> (start: Start)
        requires
            old(self).wf(),
            old(self)@.issued < u64::MAX,
        ensures
            final(self).wf(),
            (final(self)@, start) == (CoordinatorModel { resume_at: Some(position), ..old(self)@ }).begun(
                old(self)@.queue.current_track(),
                0,
                prepared,
            ),
    {
        self.resume_at = Some(position);
        proof {
            assert(self@ =~= CoordinatorModel { resume_at: Some(position), ..old(self)@ });
        }
        let current = self.queue.current();
        self.begin_load(current, 0, prepared)
    }

    /// Puts a track back in the bar where it was left, without loading it.
    /// A track deleted since is ignored. Returns the position to show.
    pub fn restore(&mut self, track_id: i64, position: u64, duration_secs: Option<i64>, exists: bool) -> (shown: Option<u64>)
        requires
            old(self).wf(),
        ensures
            final(self).wf(),
            !exists ==> shown is None && final(self)@ == old(self)@,
            exists ==> ({
                let duration = match duration_secs {
                    Some(s) => if s < 0 {
                        None
                    } else if s * 1000 > u64::MAX {
                        Some(u64::MAX)
                    } else {
                        Some((s * 1000) as u64)
                    },
                    None => None,
                };
                let start = if worth_resuming(position, duration) {
                    position
                } else {
                    0
                };
                &&& shown == Some(start)
                &&& context_replaced(
                    old(self)@.queue,
                    final(self)@.queue,
                    seq![track_id],
                    0,
                    Some("where you left off"@),
                    Some(track_id),
                )
                &&& final(self)@ == (CoordinatorModel {
                    queue: final(self)@.queue,
                    resume_at: if start > 0 {
                        Some(start)
                    } else {
                        None
                    },
                    state: PlaybackState::Stopped,
                    ..old(self)@
                })
            }),
    {
        if !exists {
            return None;
        }
        let duration = match duration_secs {
            Some(s) => if s < 0 {
                None
            } else if s > (u64::MAX / 1000) as i64 {
                Some(u64::MAX)
            } else {
                Some((s as u64) * 1000)
            },
            None => None,
        };
        let start = resume_position(position, duration);
        let mut tracks: Vec<i64> = Vec::new();
        tracks.push(track_id);
        proof {
            assert(tracks@ =~= seq![track_id]);
        }
        let _ = self.queue.set_context(tracks, 0, Some("where you left off".to_owned()));
        self.resume_at = if start > 0 {
            Some(start)
        } else {
            None
        };
        self.state = PlaybackState::Stopped;
        proof {
            assert(self@ =~= CoordinatorModel {
                queue: self@.queue,
                resume_at: self.resume_at,
                state: PlaybackState::Stopped,
                ..old(self)@
            });
        }
        Some(start)
    }
}

// --- the queue payload -------------------------------------------------------

/// How many context tracks follow the current one in total.
pub open spec fn upcoming_total(q: QueueModel) -> int {
    if q.order.len() == 0 {
        0
    } else if q.repeat == RepeatMode::All {
        q.order.len() - 1
    } else {
        q.order.len() - 1 - min(q.position, q.order.len() - 1)
    }
}

/// The ids the panel needs details for: the queued entries, the preview and
/// the current track.
pub open spec fn needs_detail(q: QueueModel, id: i64) -> bool {
    ||| exists|i: int| 0 <= i < q.manual.len() && #[trigger] q.manual[i].track_id == id
    ||| upcoming_of(q.active(), q.position, q.repeat, PREVIEW_LIMIT as int).contains(id)
    ||| q.current_track() == Some(id)
}

/// Ascending, each at most once.
pub open spec fn strictly_ascending(s: Seq<i64>) -> bool {
    forall|i: int, j: int| 0 <= i < j < s.len() ==> s[i] < s[j]
}

fn push_unique(ids: &mut Vec<i64>, id: i64)
    requires
        strictly_ascending(old(ids)@),
    ensures
        final(ids)@.to_set() == old(ids)@.to_set().insert(id),
        strictly_ascending(final(ids)@),
{
    let mut i: usize = 0;
    while i < ids.len() && ids[i] < id
        invariant
            i <= ids@.len(),
            strictly_ascending(ids@),
            forall|j: int| 0 <= j < i ==> ids@[j] < id,
        decreases ids.len() - i,
    {
        i = i + 1;
    }
    if i < ids.len() && ids[i] == id {
        proof {
            assert(ids@.to_set().insert(id) =~= ids@.to_set());
        }
        return;
    }
    let ghost before = ids@;
    ids.insert(i, id);
    proof {
        assert(ids@ == before.insert(i as int, id));
        assert forall|a: int, b: int| 0 <= a < b < ids@.len() implies ids@[a] < ids@[b] by {
            if b < i {
            } else if b == i {
                assert(ids@[a] == before[a]);
            } else if a < i {
                assert(ids@[b] == before[b - 1]);
                assert(before[a] < id);
                assert(id < before[i as int]);
                if b - 1 > i {
                    assert(before[i as int] < before[b - 1]);
                }
            } else if a == i {
                assert(ids@[b] == before[b - 1]);
                assert(before[i as int] > id);
                if b - 1 > i {
                    assert(before[i as int] < before[b - 1]);
                }
            } else {
                assert(ids@[a] == before[a - 1]);
                assert(ids@[b] == before[b - 1]);
            }
        }
        assert(ids@.to_set() =~= before.to_set().insert(id)) by {
            assert forall|x: i64| ids@.to_set().contains(x) <==> before.to_set().insert(id).contains(x) by {
                if ids@.contains(x) {
                    let k = choose|k: int| 0 <= k < ids@.len() && ids@[k] == x;
                    if k < i {
                        assert(before[k] == x);
                    } else if k > i {
                        assert(before[k - 1] == x);
                    }
                }
                if x == id {
                    assert(ids@[i as int] == id);
                } else if before.contains(x) {
                    let k = choose|k: int| 0 <= k < before.len() && before[k] == x;
                    if k < i {
                        assert(ids@[k] == x);
                    } else {
                        assert(ids@[k + 1] == x);
                    }
                }
            }
        }
    }
}

/// The ids to read details for, each once.
pub fn detail_ids(queue: &PlayerQueue) -> (ids: Vec<i64>)
    requires
        queue.wf(),
    ensures
        strictly_ascending(ids@),
        forall|id: i64| ids@.contains(id) <==> needs_detail(queue@, id),
{
    let mut ids: Vec<i64> = Vec::new();
    let manual = queue.manual();
    let mut i: usize = 0;
    while i < manual.len()
        invariant
            i <= manual@.len(),
            manual@ == queue@.manual,
            strictly_ascending(ids@),
            forall|id: i64| ids@.contains(id) <==> exists|j: int| 0 <= j < i && #[trigger] manual@[j].track_id == id,
        decreases manual.len() - i,
    {
        let ghost before = ids@;
        push_unique(&mut ids, manual[i].track_id);
        proof {
            assert forall|id: i64| ids@.contains(id) <==> exists|j: int| 0 <= j < i + 1 && #[trigger] manual@[j].track_id == id by {
                assert(ids@.to_set().contains(id) == ids@.contains(id));
                assert(before.to_set().contains(id) == before.contains(id));
                if id == manual@[i as int].track_id {
                    assert(exists|j: int| 0 <= j < i + 1 && #[trigger] manual@[j].track_id == id);
                }
            }
        }
        i = i + 1;
    }
    let up_next = queue.context_upcoming(PREVIEW_LIMIT);
    let mut k: usize = 0;
    while k < up_next.len()
        invariant
            k <= up_next@.len(),
            manual@ == queue@.manual,
            up_next@ == upcoming_of(queue@.active(), queue@.position, queue@.repeat, PREVIEW_LIMIT as int),
            strictly_ascending(ids@),
            forall|id: i64| ids@.contains(id) <==> ((exists|j: int| 0 <= j < manual@.len() && #[trigger] manual@[j].track_id == id)
                || up_next@.take(k as int).contains(id)),
        decreases up_next.len() - k,
    {
        let ghost before = ids@;
        push_unique(&mut ids, up_next[k]);
        proof {
            assert forall|id: i64| ids@.contains(id) <==> ((exists|j: int| 0 <= j < manual@.len() && #[trigger] manual@[j].track_id == id)
                || up_next@.take(k + 1).contains(id)) by {
                assert(ids@.to_set().contains(id) == ids@.contains(id));
                assert(before.to_set().contains(id) == before.contains(id));
                let before_k = up_next@.take(k as int);
                let after_k = up_next@.take(k + 1);
                if before_k.contains(id) {
                    let w = choose|w: int| 0 <= w < before_k.len() && #[trigger] before_k[w] == id;
                    assert(after_k[w] == id);
                }
                if after_k.contains(id) {
                    let w = choose|w: int| 0 <= w < after_k.len() && #[trigger] after_k[w] == id;
                    if w < k {
                        assert(before_k[w] == id);
                    }
                }
                if id == up_next@[k as int] {
                    assert(after_k[k as int] == id);
                }
            }
        }
        k = k + 1;
    }
    proof {
        assert(up_next@.take(up_next@.len() as int) =~= up_next@);
    }
    match queue.current() {
        Some(t) => {
            let ghost before = ids@;
            push_unique(&mut ids, t);
            proof {
                assert forall|id: i64| ids@.contains(id) <==> needs_detail(queue@, id) by {
                    assert(ids@.to_set().contains(id) == ids@.contains(id));
                    assert(before.to_set().contains(id) == before.contains(id));
                }
            }
        },
        None => {},
    }
    ids
}

/// Builds the "Up Next" payload from the queue and the details read for
/// `detail_ids`.
pub fn queue_state(queue: &PlayerQueue, details: &HashMap<i64, TrackDetail>) -> (panel: QueueState)
    requires
        queue.wf(),
    ensures
        match queue@.current_track() {
            Some(t) => panel.current matches Some(e) && entry_describes(e, details@, None, t),
            None => panel.current is None,
        },
        panel.manual@.len() == queue@.manual.len(),
        forall|i: int|
            0 <= i < queue@.manual.len() ==> entry_describes(
                #[trigger] panel.manual@[i],
                details@,
                Some(queue@.manual[i].entry_id),
                queue@.manual[i].track_id,
            ),
        ({
            let preview = upcoming_of(queue@.active(), queue@.position, queue@.repeat, PREVIEW_LIMIT as int);
            &&& panel.up_next@.len() == preview.len()
            &&& forall|i: int|
                0 <= i < preview.len() ==> entry_describes(#[trigger] panel.up_next@[i], details@, None, preview[i])
            &&& panel.context_remaining == (if upcoming_total(queue@) >= preview.len() {
                upcoming_total(queue@) - preview.len()
            } else {
                0
            })
        }),
        match panel.context_name {
            Some(n) => queue@.name == Some(n@),
            None => queue@.name is None,
        },
{
    let entries = queue.manual();
    let mut manual: Vec<QueueEntry> = Vec::new();
    let mut i: usize = 0;
    while i < entries.len()
        invariant
            i <= entries@.len(),
            entries@ == queue@.manual,
            manual@.len() == i,
            forall|j: int|
                0 <= j < i ==> entry_describes(
                    #[trigger] manual@[j],
                    details@,
                    Some(entries@[j].entry_id),
                    entries@[j].track_id,
                ),
        decreases entries.len() - i,
    {
        let entry = &entries[i];
        manual.push(entry_for(details, Some(entry.entry_id), entry.track_id));
        i = i + 1;
    }
    let preview = queue.context_upcoming(PREVIEW_LIMIT);
    let mut up_next: Vec<QueueEntry> = Vec::new();
    let mut k: usize = 0;
    while k < preview.len()
        invariant
            k <= preview@.len(),
            up_next@.len() == k,
            forall|j: int| 0 <= j < k ==> entry_describes(#[trigger] up_next@[j], details@, None, preview@[j]),
        decreases preview.len() - k,
    {
        up_next.push(entry_for(details, None, preview[k]));
        k = k + 1;
    }
    let current = match queue.current() {
        Some(t) => Some(entry_for(details, None, t)),
        None => None,
    };
    let context_name = match queue.context_name() {
        Some(n) => Some(n.to_owned()),
        None => None,
    };
    let total = queue.context_upcoming_total();
    let context_remaining = if total >= up_next.len() {
        total - up_next.len()
    } else {
        0
    };
    QueueState { current, manual, up_next, context_name, context_remaining }
}

// --- laws --------------------------------------------------------------------

/// Once a track has been started, or playback stopped, every report made
/// under the epoch before -- an end, a progress tick, a stall, a finished
/// load -- is ignored and changes nothing. This is what keeps a track that
/// ends at the moment Next is pressed from advancing twice.
pub proof fn lemma_superseded_reports_are_ignored(
    m: CoordinatorModel,
    candidate: Option<i64>,
    attempt: usize,
    prepared: Option<i64>,
    handed_to: Option<u64>,
    position: u64,
    silent_for: u64,
    stalled: bool,
    now: u64,
    outcome: LoadOutcome,
)
    requires
        m.epoch <= m.issued,
        m.issued < u64::MAX,
        outcome.epoch == m.epoch,
    ensures
        ({
            let after = m.begun(candidate, attempt, prepared).0;
            &&& after.after_finish(m.epoch, handed_to, prepared) == (after, None::<Finished>)
            &&& after.after_progress(m.epoch, position, silent_for, prepared) == (after, None::<Tick>)
            &&& after.after_stall(m.epoch, stalled, now) == (after, None::<StallReply>)
            &&& after.after_load(outcome, prepared).0 == after
            &&& after.after_load(outcome, prepared).1 is Ignored
        }),
{
}

/// A play is recorded once however long the listen goes on.
pub proof fn lemma_a_play_counts_once(m: CoordinatorModel)
    ensures
        m.counted().0.counted().1 is None,
        m.counted().1 is Some <==> (!m.recorded_play && m.loaded is Some),
{
}

/// A resume position applies to the track being started and never leaks
/// into whatever plays after it.
pub proof fn lemma_resume_is_consumed(m: CoordinatorModel, candidate: Option<i64>, attempt: usize, prepared: Option<i64>)
    requires
        candidate is Some,
    ensures
        m.begun(candidate, attempt, prepared).0.resume_at is None,
        m.begun(candidate, attempt, prepared).1 matches Start::Cold { start_at, .. } ==> start_at
            == (match m.resume_at {
            Some(p) => p,
            None => 0,
        }),
        m.resume_at matches Some(p) && p > 0 ==> m.begun(candidate, attempt, prepared).1 is Cold,
{
}

/// Queueing a track while nothing plays starts that very track.
pub proof fn lemma_queued_track_starts_when_idle(m: CoordinatorModel, track_id: i64, prepared: Option<i64>)
    requires
        m.state == PlaybackState::Stopped,
        m.queue.next_entry_id < u64::MAX,
    ensures
        ({
            let entry_id = (m.queue.next_entry_id + 1) as u64;
            let front = CoordinatorModel {
                queue: QueueModel {
                    manual: seq![ManualEntry { entry_id, track_id }] + m.queue.manual,
                    next_entry_id: entry_id,
                    ..m.queue
                },
                ..m
            };
            let back = CoordinatorModel {
                queue: QueueModel {
                    manual: m.queue.manual.push(ManualEntry { entry_id, track_id }),
                    next_entry_id: entry_id,
                    ..m.queue
                },
                ..m
            };
            &&& starts_track(front.started_if_idle(prepared).1, track_id)
            &&& m.queue.manual.len() == 0 ==> starts_track(back.started_if_idle(prepared).1, track_id)
        }),
{
    let entry_id = (m.queue.next_entry_id + 1) as u64;
    assert((seq![ManualEntry { entry_id, track_id }] + m.queue.manual)[0].track_id == track_id);
    assert(m.queue.manual.push(ManualEntry { entry_id, track_id })[m.queue.manual.len() as int]
        == ManualEntry { entry_id, track_id });
}

/// Whether `start` starts `track_id`.
pub open spec fn starts_track(start: Option<Start>, track_id: i64) -> bool {
    match start {
        Some(Start::Prepared { track_id: t, .. }) => t == track_id,
        Some(Start::Cold { track_id: t, .. }) => t == track_id,
        _ => false,
    }
}

/// A failing load walks at most `MAX_LOAD_ATTEMPTS` tracks: the last
/// attempt stops playback and reports the failure instead of skipping.
pub proof fn lemma_failed_loads_are_bounded(m: CoordinatorModel, attempt: usize, message: String, prepared: Option<i64>)
    requires
        attempt + 1 >= MAX_LOAD_ATTEMPTS,
    ensures
        m.after_failure(attempt, message, prepared).0 == m.halted(),
        m.after_failure(attempt, message, prepared).1 is Failed,
{
}

/// Pressing Next and letting a track run out agree about what comes next,
/// except under repeat-one, which repeats only a track that ends by itself.
pub proof fn lemma_next_and_natural_end_agree(m: CoordinatorModel)
    requires
        m.queue.repeat != RepeatMode::One,
    ensures
        m.queue.finished() == m.queue.next(),
        m.abandoned().0.queue == m.queue,
        m.counted().0.queue == m.queue,
{
}

} // verus!
