//! The system media panel, and the media keys that come with it.
//!
//! The platform session lives on a thread of its own and takes instructions
//! down a channel. What the panel is told on each instruction is decided
//! here: a playback change re-sends the track behind it, because the panel
//! clears itself when a playback update arrives with no metadata.

use vstd::prelude::*;

use std::sync::mpsc::Sender;

verus! {

/// `std::sync::mpsc::Sender`, carried through opaquely: nothing inside it is
/// read here.
#[verifier::external_type_specification]
#[verifier::external_body]
#[verifier::reject_recursive_types(T)]
pub struct ExSender<T>(Sender<T>);

/// `Sender::clone`: another handle on the same channel. Nothing is claimed
/// of it; Verus sees only that it returns a sender.
pub assume_specification<T>[ <Sender<T> as Clone>::clone ](sender: &Sender<T>) -> (copy: Sender<T>);

/// What the panel shows about a track. Positions and lengths are whole
/// milliseconds.
#[derive(Debug)]
pub struct TrackMeta {
    pub title: String,
    pub artist: Option<String>,
    pub album: Option<String>,
    pub duration: Option<u64>,
    /// A `file://` URL, because that is what the platform wants.
    pub cover_url: Option<String>,
}

fn clone_text(o: &Option<String>) -> (c: Option<String>)
    ensures
        c == *o,
{
    match o {
        Some(s) => Some(s.clone()),
        None => None,
    }
}

impl TrackMeta {
    /// A copy, field for field.
    pub fn duplicate(&self) -> (copy: TrackMeta)
        ensures
            copy == *self,
    {
        TrackMeta {
            title: self.title.clone(),
            artist: clone_text(&self.artist),
            album: clone_text(&self.album),
            duration: self.duration,
            cover_url: clone_text(&self.cover_url),
        }
    }
}

/// What the owning thread is told to do.
#[derive(Debug)]
pub enum Update {
    /// A new track: everything the panel shows.
    Track(TrackMeta),
    Playing(u64),
    Paused(u64),
    Stopped,
}

/// A handle to the media thread. Sending after the thread has gone is
/// deliberately not an error: the app is shutting down.
#[derive(Clone)]
pub struct MediaBridge {
    tx: Sender<Update>,
}

/// Calls `Sender::send`. Nothing is claimed: a closed channel is ignored.
#[verifier::external_body]
fn deliver(tx: &Sender<Update>, update: Update) {
    let _ = tx.send(update);
}

impl MediaBridge {
    /// The channel to the media thread that this handle sends down.
    pub closed spec fn sender(&self) -> Sender<Update> {
        self.tx
    }

    /// A handle that sends down `tx`.
    pub fn new(tx: Sender<Update>) -> (bridge: MediaBridge)
        ensures
            bridge.sender() == tx,
    {
        MediaBridge { tx }
    }

    pub fn send(&self, update: Update) {
        deliver(&self.tx, update);
    }
}

/// Which button the listener pressed.
#[derive(Debug, Clone, Copy, PartialEq, Eq, Structural)]
pub enum Button {
    Play,
    Pause,
    Toggle,
    Next,
    Previous,
    Stop,
}

/// What the platform's media session reports. Only the presses have a
/// button; seeking and volume from the panel are offered inconsistently
/// across platform builds, and a control that works sometimes is worse than
/// one that is plainly absent.
#[derive(Debug, Clone, Copy, PartialEq, Eq, Structural)]
pub enum PlatformEvent {
    Play,
    Pause,
    Toggle,
    Next,
    Previous,
    Stop,
    Seek,
    SeekBy,
    SetPosition,
    SetVolume,
    OpenUri,
    Raise,
    Quit,
}

pub open spec fn button_spec(event: PlatformEvent) -> Option<Button> {
    match event {
        PlatformEvent::Play => Some(Button::Play),
        PlatformEvent::Pause => Some(Button::Pause),
        PlatformEvent::Toggle => Some(Button::Toggle),
        PlatformEvent::Next => Some(Button::Next),
        PlatformEvent::Previous => Some(Button::Previous),
        PlatformEvent::Stop => Some(Button::Stop),
        _ => None,
    }
}

/// The button a platform event stands for, if it is one the app answers.
pub fn button_for(event: PlatformEvent) -> (b: Option<Button>)
    ensures
        b == button_spec(event),
{
    match event {
        PlatformEvent::Play => Some(Button::Play),
        PlatformEvent::Pause => Some(Button::Pause),
        PlatformEvent::Toggle => Some(Button::Toggle),
        PlatformEvent::Next => Some(Button::Next),
        PlatformEvent::Previous => Some(Button::Previous),
        PlatformEvent::Stop => Some(Button::Stop),
        _ => None,
    }
}

/// What to send after the panel refused the metadata `sent`: the same track
/// without its artwork, once. The platform commits the artwork together with
/// the title and artist, so one unreadable cover would otherwise blank the
/// whole panel. A refused retry is not retried.
pub fn retry_after_refusal(sent: &TrackMeta, was_retry: bool) -> (retry: Option<TrackMeta>)
    ensures
        was_retry ==> retry is None,
        !was_retry ==> retry == Some(TrackMeta { cover_url: None, ..*sent }),
{
    if was_retry {
        return None;
    }
    Some(
        TrackMeta {
            title: sent.title.clone(),
            artist: clone_text(&sent.artist),
            album: clone_text(&sent.album),
            duration: sent.duration,
            cover_url: None,
        },
    )
}

/// Where there is no platform session to register with there is nothing to
/// do, and no bridge.
pub fn spawn<F: Fn(Button) + Send + 'static>(hwnd: isize, on_button: F) -> (bridge: Option<MediaBridge>)
    ensures
        bridge is None,
{
    None
}

/// What the panel is to be told.
#[derive(Debug, Clone, Copy, PartialEq, Eq, Structural)]
pub enum Playback {
    Playing(u64),
    Paused(u64),
    Stopped,
}

/// One instruction's effect on the panel: metadata to send, then a playback
/// state to set.
#[derive(Debug)]
pub struct PanelUpdate {
    pub metadata: Option<TrackMeta>,
    pub playback: Option<Playback>,
}

/// The panel session: the track behind the playback state.
pub struct MediaSession {
    current: Option<TrackMeta>,
}

impl MediaSession {
    pub closed spec fn current_spec(&self) -> Option<TrackMeta> {
        self.current
    }

    pub fn new() -> (session: MediaSession)
        ensures
            session.current_spec() is None,
    {
        MediaSession { current: None }
    }

    fn current_copy(&self) -> (copy: Option<TrackMeta>)
        ensures
            copy == self.current_spec(),
    {
        match &self.current {
            Some(meta) => Some(meta.duplicate()),
            None => None,
        }
    }

    /// What the panel is told for `update`. A new track is sent and held; a
    /// playback change re-sends the held track before it; stopping clears
    /// the panel and forgets the track.
    pub fn apply(&mut self, update: Update) -> (panel: PanelUpdate)
        ensures
            match update {
                Update::Track(meta) => {
                    &&& panel.metadata == Some(meta)
                    &&& panel.playback is None
                    &&& final(self).current_spec() == Some(meta)
                },
                Update::Playing(at) => {
                    &&& panel.metadata == old(self).current_spec()
                    &&& panel.playback == Some(Playback::Playing(at))
                    &&& final(self).current_spec() == old(self).current_spec()
                },
                Update::Paused(at) => {
                    &&& panel.metadata == old(self).current_spec()
                    &&& panel.playback == Some(Playback::Paused(at))
                    &&& final(self).current_spec() == old(self).current_spec()
                },
                Update::Stopped => {
                    &&& panel.metadata is None
                    &&& panel.playback == Some(Playback::Stopped)
                    &&& final(self).current_spec() is None
                },
            },
    {
        match update {
            Update::Track(meta) => {
                let sent = meta.duplicate();
                self.current = Some(meta);
                PanelUpdate { metadata: Some(sent), playback: None }
            },
            Update::Playing(at) => PanelUpdate {
                metadata: self.current_copy(),
                playback: Some(Playback::Playing(at)),
            },
            Update::Paused(at) => PanelUpdate {
                metadata: self.current_copy(),
                playback: Some(Playback::Paused(at)),
            },
            Update::Stopped => {
                self.current = None;
                PanelUpdate { metadata: None, playback: Some(Playback::Stopped) }
            },
        }
    }
}

} // verus!
