# music_app

The logic of a desktop music player, verified with Verus: what plays next,
what a report from the audio engine means, how lyrics are read and matched to
a song, which remote sources are trusted, and the text rules the library and
its search are built on.

## Layout

- `src/` — the verified library. Public functions state what they return or
  change over a mathematical model (`Seq`, `Set`, `Map`, views), and the
  promises that span several calls stand as `lemma_*` proof functions. Where
  the answer lies outside the library (the scan lock's shared flag, a send
  down the media thread's channel) the contract says so and claims no more.
  - `queue` — the play queue: manual entries ahead of the context, shuffle as
    a permutation, repeat modes, history for Previous.
  - `player` — the playback coordinator as a state machine from reports and
    commands to decisions (start, stop, append, skip a tail, record a play),
    plus the queue panel payload.
  - `lyrics`, `netease` — LRC and plain lyrics, decoding, identifying a
    track, choosing between provider candidates.
  - `providers`, `soundcloud`, `stream_urls`, `playable` — remote sources, the
    links accepted for them, stream URL lifetimes, and where a track's audio
    comes from.
  - `scanner`, `tracks`, `tags`, `search`, `playlists` — library bookkeeping
    and the SQL text built for it.
  - `media_controls`, `now_playing`, `placeholder_art`, `sidecar` — the media
    panel session, generated artwork names and colours, external tools.
  - `text` — the character-level rules everything above is written with.
- `tests/` — ordinary Rust tests against the library.
- `app/` — the host side: files and tags (lofty, walkdir), artwork drawing
  (image), the floating-point volume curve, and serialisable copies of event
  payloads (serde).

Times are whole milliseconds throughout the library, volumes thousandths of
full scale and levels hundredths of a decibel.
