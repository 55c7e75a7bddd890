//! Tags: free-form labels the user puts on tracks.
//!
//! A tag's identity is its name folded by Unicode lowercasing, so "CANCIÓN"
//! and "canción" are one tag; what is shown is the name as first typed.

use vstd::prelude::*;

use crate::text::{
    append_chars, chars_of, contains_chars, contains_seq, lowercase, lowercase_chars, string_of, trim,
    trim_chars,
};

verus! {

pub struct Tag {
    pub id: i64,
    pub name: String,
    /// How many tracks carry it, so unused tags are visible.
    pub track_count: i64,
}

/// One tag on one track.
pub struct TrackTag {
    pub track_id: i64,
    pub tag_id: i64,
    pub name: String,
}

/// The longest tag name, in characters.
pub const MAX_TAG_CHARS: usize = 60;

/// Uniqueness key for a tag name: trimmed, then Unicode-lowercased.
pub open spec fn tag_key_spec(name: Seq<char>) -> Seq<char> {
    lowercase(trim(name))
}

pub fn tag_key(name: &str) -> (k: String)
    ensures
        k@ == tag_key_spec(name@),
{
    let trimmed = trim_chars(chars_of(name).as_slice());
    string_of(lowercase_chars(trimmed.as_slice()).as_slice())
}

pub enum TagNameError {
    Blank,
    TooLong,
}

impl TagNameError {
    pub fn message(&self) -> (s: String)
        ensures
            s@ == tag_name_message(*self),
    {
        match self {
            TagNameError::Blank => string_of(chars_of("A tag needs a name.").as_slice()),
            TagNameError::TooLong => string_of(chars_of("That tag name is too long.").as_slice()),
        }
    }
}

pub open spec fn tag_name_message(e: TagNameError) -> Seq<char> {
    match e {
        TagNameError::Blank => "A tag needs a name."@,
        TagNameError::TooLong => "That tag name is too long."@,
    }
}

/// A tag name as typed, checked: the trimmed name to show and its key.
/// Refused when nothing is left after trimming, or when more than sixty
/// characters are.
pub fn clean_tag_name(name: &str) -> (r: Result<(String, String), String>)
    ensures
        match r {
            Ok((display, key)) => trim(name@).len() > 0 && trim(name@).len() <= MAX_TAG_CHARS
                && display@ == trim(name@) && key@ == tag_key_spec(trim(name@)),
            Err(message) => (trim(name@).len() == 0 && message@ == tag_name_message(
                TagNameError::Blank,
            )) || (trim(name@).len() > MAX_TAG_CHARS && message@ == tag_name_message(
                TagNameError::TooLong,
            )),
        },
{
    let display = trim_chars(chars_of(name).as_slice());
    if display.len() == 0 {
        return Err(TagNameError::Blank.message());
    }
    if display.len() > MAX_TAG_CHARS {
        return Err(TagNameError::TooLong.message());
    }
    let again = trim_chars(display.as_slice());
    let key = lowercase_chars(again.as_slice());
    Ok((string_of(display.as_slice()), string_of(key.as_slice())))
}

/// What a failed attach says: a missing track is named as such, anything
/// else is passed on as the database said it.
pub fn attach_error_message(database_error: String) -> (s: String)
    ensures
        s@ == (if contains_seq(database_error@, "FOREIGN KEY"@) {
            "That track no longer exists."@
        } else {
            database_error@
        }),
{
    let needle = chars_of("FOREIGN KEY");
    if contains_chars(chars_of(database_error.as_str()).as_slice(), needle.as_slice()) {
        string_of(chars_of("That track no longer exists.").as_slice())
    } else {
        database_error
    }
}

/// What a rename that changed no row says.
pub fn no_such_tag_message() -> (s: String)
    ensures
        s@ == "That tag no longer exists."@,
{
    string_of(chars_of("That tag no longer exists.").as_slice())
}

/// What a failed rename says: taking a name another tag already has would
/// mean merging the two, a different operation, so it is refused by name;
/// anything else is passed on as the database said it.
pub fn rename_error_message(database_error: String, display: &str) -> (s: String)
    ensures
        s@ == (if contains_seq(database_error@, "UNIQUE"@) {
            "A tag called \""@ + display@ + "\" already exists."@
        } else {
            database_error@
        }),
{
    let needle = chars_of("UNIQUE");
    if contains_chars(chars_of(database_error.as_str()).as_slice(), needle.as_slice()) {
        let mut out = chars_of("A tag called \"");
        append_chars(&mut out, chars_of(display).as_slice());
        append_chars(&mut out, chars_of("\" already exists.").as_slice());
        string_of(out.as_slice())
    } else {
        database_error
    }
}

} // verus!
