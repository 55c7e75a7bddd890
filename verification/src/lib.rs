//! The logic of a desktop music player: what plays next, how lyrics are read
//! and matched to a song, which remote sources are trusted, and the small
//! text rules the library and its search are built on.

pub mod queue;
pub mod text;
pub mod lyrics;
pub mod providers;
pub mod tags;
pub mod tracks;
pub mod search;
pub mod netease;
pub mod player;
pub mod playable;
pub mod playlists;
pub mod media_controls;
pub mod now_playing;
pub mod placeholder_art;
pub mod stream_urls;
pub mod scanner;
pub mod sidecar;
pub mod soundcloud;
