//! Keeps the system media panel in step with what is actually playing.
//!
//! Every player state report is turned into what the panel shows; a track
//! is looked up and announced only when it changes, because state fires on
//! every pause, volume nudge and queue edit.

use vstd::prelude::*;

use crate::media_controls::{TrackMeta, Update};
use crate::player::PlaybackState;
use crate::text::{append_chars, chars_of, string_of};

verus! {

/// What the panel was last told: the track shown, and the latest position.
pub struct PanelTracker {
    shown: Option<i64>,
    position: u64,
}

/// What a state report means for the panel.
#[derive(Debug)]
pub struct PanelStep {
    /// A track to look up and announce, because it changed.
    pub announce: Option<i64>,
    pub update: Update,
}

/// The playback state as the panel shows it. Loading counts as playing: a
/// panel saying "paused" while a stream resolves invites a second press of a
/// button that is already doing the right thing.
pub open spec fn panel_update_spec(state: PlaybackState, at: u64) -> Update {
    match state {
        PlaybackState::Playing => Update::Playing(at),
        PlaybackState::Loading => Update::Playing(at),
        PlaybackState::Paused => Update::Paused(at),
        PlaybackState::Stopped => Update::Stopped,
    }
}

impl PanelTracker {
    pub closed spec fn shown_spec(&self) -> Option<i64> {
        self.shown
    }

    pub closed spec fn position_spec(&self) -> u64 {
        self.position
    }

    pub fn new() -> (t: PanelTracker)
        ensures
            t.shown_spec() is None,
            t.position_spec() == 0,
    {
        PanelTracker { shown: None, position: 0 }
    }

    /// Recorded, not forwarded: the panel extrapolates the readout itself.
    pub fn progress(&mut self, position: u64)
        ensures
            final(self).position_spec() == position,
            final(self).shown_spec() == old(self).shown_spec(),
    {
        self.position = position;
    }

    /// A state report for `track_id`.
    pub fn state(&mut self, state: PlaybackState, track_id: Option<i64>) -> (step: PanelStep)
        ensures
            final(self).shown_spec() == track_id,
            final(self).position_spec() == old(self).position_spec(),
            step.announce == (if old(self).shown_spec() != track_id {
                track_id
            } else {
                None
            }),
            step.update == panel_update_spec(state, old(self).position_spec()),
    {
        let changed = match (self.shown, track_id) {
            (Some(a), Some(b)) => a != b,
            (None, None) => false,
            _ => true,
        };
        self.shown = track_id;
        let at = self.position;
        let update = match state {
            PlaybackState::Playing => Update::Playing(at),
            PlaybackState::Loading => Update::Playing(at),
            PlaybackState::Paused => Update::Paused(at),
            PlaybackState::Stopped => Update::Stopped,
        };
        PanelStep {
            announce: if changed {
                track_id
            } else {
                None
            },
            update,
        }
    }
}

/// A `file://` prefix on the raw path, deliberately not an encoded URL: the
/// platform strips the prefix and opens what is left as it stands.
pub fn cover_url_for(path: &str) -> (url: String)
    ensures
        url@ == "file://"@ + path@,
{
    let mut out = chars_of("file://");
    append_chars(&mut out, chars_of(path).as_slice());
    string_of(out.as_slice())
}

/// What the panel is told about a track read from the database. Only a
/// positive length is shown.
pub fn track_meta(
    title: String,
    artist: Option<String>,
    album: Option<String>,
    duration_secs: Option<i64>,
    cover_path: Option<&str>,
) -> (meta: TrackMeta)
    ensures
        meta.title == title,
        meta.artist == artist,
        meta.album == album,
        meta.duration == (match duration_secs {
            Some(s) => if 0 < s && s * 1000 <= u64::MAX {
                Some((s * 1000) as u64)
            } else {
                None
            },
            None => None,
        }),
        match cover_path {
            Some(p) => meta.cover_url matches Some(u) && u@ == "file://"@ + p@,
            None => meta.cover_url is None,
        },
{
    let duration = match duration_secs {
        Some(s) => if 0 < s && s <= (u64::MAX / 1000) as i64 {
            Some((s as u64) * 1000)
        } else {
            None
        },
        None => None,
    };
    let cover_url = match cover_path {
        Some(p) => Some(cover_url_for(p)),
        None => None,
    };
    TrackMeta { title, artist, album, duration, cover_url }
}

} // verus!
