//! The external programs the app shells out to, and where they are found.
//!
//! Looking for a file is I/O; the names looked for, the order places are
//! tried in, and what "already staged" means are decided here.

use vstd::prelude::*;

use std::path::PathBuf;

use crate::text::{append_chars, chars_of, decimal, decimal_chars, string_of, trim, trim_chars};

verus! {

/// `std::path::PathBuf`, carried through opaquely: nothing inside it is read
/// here.
#[verifier::external_type_specification]
#[verifier::external_body]
pub struct ExPathBuf(PathBuf);

/// External programs the app shells out to.
#[derive(Debug, Clone, Copy, PartialEq, Eq, Structural)]
pub enum Tool {
    /// Search and stream/download resolution.
    YtDlp,
    /// Decoding anything the audio library cannot handle natively.
    Ffmpeg,
}

impl Tool {
    /// The program's name, without any platform extension: that is added
    /// once, in one place.
    pub fn base_name(self) -> (s: &'static str)
        ensures
            s@ == base_name_spec(self),
    {
        match self {
            Tool::YtDlp => "yt-dlp",
            Tool::Ffmpeg => "ffmpeg",
        }
    }
}

pub open spec fn base_name_spec(tool: Tool) -> Seq<char> {
    match tool {
        Tool::YtDlp => "yt-dlp"@,
        Tool::Ffmpeg => "ffmpeg"@,
    }
}

/// The file a tool lives in: its name and the platform's executable suffix.
pub fn file_name(tool: Tool, exe_suffix: &str) -> (s: String)
    ensures
        s@ == base_name_spec(tool) + exe_suffix@,
{
    let mut out = chars_of(tool.base_name());
    append_chars(&mut out, chars_of(exe_suffix).as_slice());
    string_of(out.as_slice())
}

/// Where a tool was found.
#[derive(Debug)]
pub struct Resolved {
    pub path: PathBuf,
}

/// What staging did.
#[derive(Debug, Clone, Copy, PartialEq, Eq, Structural)]
pub enum Seed {
    /// The staged copy already came from this bundle; nothing was written.
    Unchanged,
    /// The bundled binary was copied into app data.
    Refreshed,
}

/// Sub-directory of app data holding staged, updatable copies of the tools.
pub const STAGED_DIR: &'static str = "bin";

/// Extension of the file recording which bundle the staged copy came from.
pub const MARKER_EXTENSION: &'static str = "seed";

/// Extension of the half-written copy, before it is renamed into place.
pub const PENDING_EXTENSION: &'static str = "pending";

/// Identifies the bundle a staged copy came from: its length and its
/// modification time in seconds, joined by `-`.
pub fn bundle_stamp(len: u64, modified_secs: u64) -> (s: String)
    ensures
        s@ == decimal(len as nat) + "-"@ + decimal(modified_secs as nat),
{
    let mut out = decimal_chars(len);
    out.push('-');
    append_chars(&mut out, decimal_chars(modified_secs).as_slice());
    proof {
        reveal_strlit("-");
        assert(out@ =~= decimal(len as nat) + "-"@ + decimal(modified_secs as nat));
    }
    string_of(out.as_slice())
}

/// Whether the staged copy is the one this bundle would write: there is a
/// staged file, and its marker, trimmed, is this bundle's stamp. A copy with
/// no marker is staged again; re-staging costs one copy.
pub fn already_staged(target_exists: bool, recorded: Option<&str>, stamp: &str) -> (b: bool)
    ensures
        b == (target_exists && match recorded {
            Some(r) => trim(r@) == stamp@,
            None => false,
        }),
{
    if !target_exists {
        return false;
    }
    match recorded {
        Some(r) => {
            let t = trim_chars(chars_of(r).as_slice());
            let s = chars_of(stamp);
            crate::text::chars_equal(t.as_slice(), s.as_slice())
        },
        None => false,
    }
}

/// Where a tool was found, in order of preference: the staged copy in app
/// data (the only one that can update itself), then a bundled copy, then
/// whatever is on PATH.
#[derive(Debug, Clone, Copy, PartialEq, Eq, Structural)]
pub enum Place {
    Staged,
    Bundled(usize),
    OnPath,
}

/// The first place that has the tool, given which do: the staged copy, then
/// the bundled candidates in order, then PATH.
pub fn first_found(staged: bool, bundled: &[bool], on_path: bool) -> (r: Option<Place>)
    ensures
        match r {
            Some(Place::Staged) => staged,
            Some(Place::Bundled(i)) => !staged && i < bundled@.len() && bundled@[i as int] && forall|
                j: int,
            | 0 <= j < i ==> !bundled@[j],
            Some(Place::OnPath) => !staged && on_path && forall|j: int|
                0 <= j < bundled@.len() ==> !bundled@[j],
            None => !staged && !on_path && forall|j: int| 0 <= j < bundled@.len() ==> !bundled@[j],
        },
{
    if staged {
        return Some(Place::Staged);
    }
    let mut i: usize = 0;
    while i < bundled.len()
        invariant
            !staged,
            i <= bundled@.len(),
            forall|j: int| 0 <= j < i ==> !bundled@[j],
        decreases bundled.len() - i,
    {
        if bundled[i] {
            return Some(Place::Bundled(i));
        }
        i = i + 1;
    }
    if on_path {
        Some(Place::OnPath)
    } else {
        None
    }
}

/// What is said when a tool is nowhere to be found.
pub fn not_found_message(tool: Tool) -> (s: String)
    ensures
        s@ == "Could not find "@ + base_name_spec(tool)
            + ". Place it in the app's bin folder, bundle it as a sidecar, or install it on your PATH."@,
{
    let mut out = chars_of("Could not find ");
    append_chars(&mut out, chars_of(tool.base_name()).as_slice());
    append_chars(
        &mut out,
        chars_of(
            ". Place it in the app's bin folder, bundle it as a sidecar, or install it on your PATH.",
        ).as_slice(),
    );
    string_of(out.as_slice())
}

} // verus!
