//! The single seam between "a track in the database" and "audio to play".
//!
//! Deciding where a track's audio comes from is pure: a file the user owns,
//! a copy the app made earlier, or a provider page that has to be resolved to
//! a stream now. Looking the copy up and resolving the page are done by the
//! caller; what they mean is decided here.

use vstd::prelude::*;

use crate::providers::{accepts_url_spec, provider_of_source, Provider};
use crate::text::{append_chars, chars_of, str_equal, string_of};

verus! {

/// The row the decision needs. Deliberately narrow: resolution must not
/// depend on display metadata.
#[derive(Debug)]
pub struct PlayableTrack {
    pub source: String,
    pub state: String,
    pub remote_id: Option<String>,
    pub local_path: Option<String>,
    /// The provider's page for this track.
    pub remote_url: Option<String>,
}

/// Something the audio thread knows how to play.
#[derive(Debug, Clone)]
pub enum PlayableSource {
    /// A file the user owns, wherever it came from. If it will not decode,
    /// that is worth reporting.
    LocalFile(String),
    /// A disposable copy the app made of a stream it already played. It can
    /// be wrong, and is thrown away rather than reported.
    Cached(String),
    /// A remote audio stream. The URL expires and is never persisted.
    Stream { url: String },
}

/// Where a track's audio is to come from.
#[derive(Debug)]
pub enum SourcePlan {
    Play(PlayableSource),
    /// A saved provider track: its page is resolved to a stream now, and a
    /// cache copy may be reserved as it plays.
    Resolve { provider: Provider, url: String },
}

/// The decision, as plain values. A refusal is an error and nothing else.
pub enum PlanSpec {
    LocalFile(Seq<char>),
    Cached(Seq<char>),
    /// A stream that is already resolved. Deciding a source never gives one:
    /// streams come from resolving a page afterwards.
    Stream(Seq<char>),
    Resolve(Provider, Seq<char>),
    Refused(Seq<char>),
}

pub open spec fn plan_view(r: Result<SourcePlan, String>) -> PlanSpec {
    match r {
        Ok(SourcePlan::Play(PlayableSource::LocalFile(p))) => PlanSpec::LocalFile(p@),
        Ok(SourcePlan::Play(PlayableSource::Cached(p))) => PlanSpec::Cached(p@),
        Ok(SourcePlan::Play(PlayableSource::Stream { url })) => PlanSpec::Stream(url@),
        Ok(SourcePlan::Resolve { provider, url }) => PlanSpec::Resolve(provider, url@),
        Err(e) => PlanSpec::Refused(e@),
    }
}

pub open spec fn display_name_spec(p: Provider) -> Seq<char> {
    match p {
        Provider::YouTube => "YouTube"@,
        Provider::SoundCloud => "SoundCloud"@,
    }
}

/// Where the audio of a track comes from.
///
/// Any source but `"local"` is a provider, and an unknown one fails rather
/// than falling through to a file that does not exist. A provider track with
/// a file was downloaded and plays from it; one with a cache copy plays from
/// that; otherwise its page, which must belong to its provider, is resolved
/// with yt-dlp. A local track plays from its file unless it is missing.
pub open spec fn planned(
    source: Seq<char>,
    state: Seq<char>,
    local_path: Option<Seq<char>>,
    remote_url: Option<Seq<char>>,
    cached: Option<Seq<char>>,
    has_yt_dlp: bool,
) -> PlanSpec {
    if source != "local"@ {
        match provider_of_source(source) {
            None => PlanSpec::Refused("Unknown track source \""@ + source + "\"."@),
            Some(provider) => match local_path {
                Some(path) => PlanSpec::LocalFile(path),
                None => match cached {
                    Some(path) => PlanSpec::Cached(path),
                    None => match remote_url {
                        None => PlanSpec::Refused("That track has no source URL recorded."@),
                        Some(url) => if !accepts_url_spec(provider, url) {
                            PlanSpec::Refused(
                                "That track's stored "@ + display_name_spec(provider)
                                    + " link does not look valid."@,
                            )
                        } else if !has_yt_dlp {
                            PlanSpec::Refused(
                                "yt-dlp was not found, so saved "@ + display_name_spec(provider)
                                    + " tracks cannot be played. See src-tauri/binaries/README.md."@,
                            )
                        } else {
                            PlanSpec::Resolve(provider, url)
                        },
                    },
                },
            },
        }
    } else if state == "missing"@ {
        PlanSpec::Refused(
            "That file is missing from disk. Rescan the library or reconnect the drive."@,
        )
    } else {
        match local_path {
            None => PlanSpec::Refused("That track has no file path recorded."@),
            Some(path) => PlanSpec::LocalFile(path),
        }
    }
}

pub open spec fn opt_view(o: Option<String>) -> Option<Seq<char>> {
    match o {
        Some(s) => Some(s@),
        None => None,
    }
}

fn text_of(s: &str) -> (r: String)
    ensures
        r@ == s@,
{
    s.to_owned()
}

fn provider_message(before: &str, provider: Provider, after: &str) -> (r: String)
    ensures
        r@ == before@ + display_name_spec(provider) + after@,
{
    let mut out = chars_of(before);
    append_chars(&mut out, chars_of(provider.display_name()).as_slice());
    append_chars(&mut out, chars_of(after).as_slice());
    string_of(out.as_slice())
}

/// Decides where `track`'s audio comes from. `cached` is the cache copy
/// found for it, if any; `has_yt_dlp` whether the resolver is installed.
pub fn get_playable_source(track: &PlayableTrack, cached: Option<String>, has_yt_dlp: bool) -> (plan: Result<SourcePlan, String>)
    ensures
        plan_view(plan) == planned(
            track.source@,
            track.state@,
            opt_view(track.local_path),
            opt_view(track.remote_url),
            opt_view(cached),
            has_yt_dlp,
        ),
        plan is Err <==> planned(
            track.source@,
            track.state@,
            opt_view(track.local_path),
            opt_view(track.remote_url),
            opt_view(cached),
            has_yt_dlp,
        ) is Refused,
        !(plan matches Ok(SourcePlan::Play(PlayableSource::Stream { .. }))),
{
    if !str_equal(track.source.as_str(), "local") {
        let provider = match Provider::from_source(track.source.as_str()) {
            Some(p) => p,
            None => {
                let mut out = chars_of("Unknown track source \"");
                append_chars(&mut out, chars_of(track.source.as_str()).as_slice());
                append_chars(&mut out, chars_of("\".").as_slice());
                return Err(string_of(out.as_slice()));
            },
        };
        if let Some(path) = &track.local_path {
            return Ok(SourcePlan::Play(PlayableSource::LocalFile(path.clone())));
        }
        if let Some(path) = cached {
            return Ok(SourcePlan::Play(PlayableSource::Cached(path)));
        }
        let url = match &track.remote_url {
            Some(u) => u,
            None => return Err(text_of("That track has no source URL recorded.")),
        };
        if !provider.accepts_url(url.as_str()) {
            return Err(provider_message("That track's stored ", provider, " link does not look valid."));
        }
        if !has_yt_dlp {
            return Err(
                provider_message(
                    "yt-dlp was not found, so saved ",
                    provider,
                    " tracks cannot be played. See src-tauri/binaries/README.md.",
                ),
            );
        }
        return Ok(SourcePlan::Resolve { provider, url: url.clone() });
    }
    if str_equal(track.state.as_str(), "missing") {
        return Err(
            text_of("That file is missing from disk. Rescan the library or reconnect the drive."),
        );
    }
    match &track.local_path {
        None => Err(text_of("That track has no file path recorded.")),
        Some(path) => Ok(SourcePlan::Play(PlayableSource::LocalFile(path.clone()))),
    }
}

} // verus!
