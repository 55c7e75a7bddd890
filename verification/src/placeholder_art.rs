//! Cover art for tracks that have none: a gradient derived from the track's
//! own text, so the same song is always the same colours.
//!
//! Everything the picture depends on comes from one number, an FNV-1a hash
//! of the seed, and that hash has to match the one the frontend computes.
//! This module decides the numbers and encodes the finished picture; drawing
//! the pixels, which is floating-point work, is done elsewhere.

use vstd::prelude::*;

use image::codecs::jpeg::JpegEncoder;
use image::{ExtendedColorType, ImageEncoder};

use vstd::string::StringSliceAdditionalSpecFns;

use crate::text::{append_chars, char_from_ascii, chars_of, string_of};

verus! {

pub const FNV_OFFSET: u32 = 0x811c_9dc5;

pub const FNV_PRIME: u32 = 0x0100_0193;

/// FNV-1a over a sequence of bytes.
pub open spec fn fnv1a(bytes: Seq<u8>) -> u32
    decreases bytes.len(),
{
    if bytes.len() == 0 {
        FNV_OFFSET
    } else {
        (fnv1a(bytes.drop_last()) ^ (bytes.last() as u32)).wrapping_mul(FNV_PRIME)
    }
}

/// FNV-1a over the seed's UTF-8 bytes.
///
/// The same function the frontend uses, and it has to stay that way: the
/// gradient is derived entirely from this number.
pub fn hash(text: &str) -> (h: u32)
    ensures
        h == fnv1a(text.spec_bytes()),
{
    let bytes = text.as_bytes();
    let mut h: u32 = FNV_OFFSET;
    let mut i: usize = 0;
    while i < bytes.len()
        invariant
            bytes@ == text.spec_bytes(),
            i <= bytes@.len(),
            h == fnv1a(bytes@.take(i as int)),
        decreases bytes.len() - i,
    {
        proof {
            assert(bytes@.take(i + 1).drop_last() =~= bytes@.take(i as int));
        }
        h = h ^ (bytes[i] as u32);
        h = h.wrapping_mul(FNV_PRIME);
        i = i + 1;
    }
    proof {
        assert(bytes@.take(bytes@.len() as int) =~= bytes@);
    }
    h
}

/// The seed a picture is made from: an empty one stands for "untitled", the
/// same substitution the frontend makes.
pub open spec fn effective_seed(seed: &str) -> Seq<u8> {
    if seed@.len() == 0 {
        "untitled".spec_bytes()
    } else {
        seed.spec_bytes()
    }
}

fn seed_hash(seed: &str) -> (h: u32)
    ensures
        h == fnv1a(effective_seed(seed)),
{
    if seed.is_empty() {
        hash("untitled")
    } else {
        hash(seed)
    }
}

/// The three numbers of a gradient, in whole degrees: the first hue, the
/// second hue, and the angle of the line between them.
pub struct GradientDegrees {
    pub hue: u32,
    pub second_hue: u32,
    pub angle: u32,
}

/// Derived exactly as the frontend does: the first hue from the low bits, a
/// shift of 24 to 67 degrees for the second, and an angle of 110 to 169.
pub open spec fn degrees_of(h: u32) -> (u32, u32, u32) {
    let hue = h % 360;
    let shift = 24 + (h >> 9u32) % 44;
    ((hue) as u32, ((hue + shift) % 360) as u32, (110 + (h >> 17u32) % 60) as u32)
}

pub fn gradient_degrees(seed: &str) -> (g: GradientDegrees)
    ensures
        (g.hue, g.second_hue, g.angle) == degrees_of(fnv1a(effective_seed(seed))),
{
    let h = seed_hash(seed);
    let hue = h % 360;
    let shift = 24 + (h >> 9u32) % 44;
    let angle = 110 + (h >> 17u32) % 60;
    GradientDegrees { hue, second_hue: (hue + shift) % 360, angle }
}

/// An empty seed draws the same picture as "untitled".
pub proof fn lemma_empty_seed_is_untitled(seed: &str)
    requires
        seed@.len() == 0,
    ensures
        effective_seed(seed) == effective_seed("untitled"),
{
}

/// Whatever the seed, the second colour sits 24 to 67 degrees round the
/// wheel from the first, and the angle between them is 110 to 169 degrees.
pub proof fn lemma_gradients_stay_in_range(h: u32)
    ensures
        ({
            let (hue, second, angle) = degrees_of(h);
            let shift = 24 + (h >> 9u32) % 44;
            &&& hue < 360
            &&& second < 360
            &&& 24 <= shift <= 67
            &&& second == (hue + shift) % 360
            &&& 110 <= angle <= 169
        }),
{
}

/// The lowercase hexadecimal digit for `d`, below sixteen.
pub open spec fn hex_lower(d: int) -> char {
    if d < 10 {
        (48 + d) as char
    } else {
        (87 + d) as char
    }
}

/// The last `k` hexadecimal digits of `n`, zero-padded.
pub open spec fn hex_padded(n: nat, k: nat) -> Seq<char>
    decreases k,
{
    if k == 0 {
        Seq::empty()
    } else {
        hex_padded(n / 16, (k - 1) as nat).push(hex_lower((n % 16) as int))
    }
}

fn hex_padded_chars(n: u32, k: u32) -> (r: Vec<char>)
    requires
        k <= 8,
    ensures
        r@ == hex_padded(n as nat, k as nat),
    decreases k,
{
    if k == 0 {
        Vec::new()
    } else {
        let mut r = hex_padded_chars(n / 16, k - 1);
        let d = n % 16;
        let c = if d < 10 {
            char_from_ascii(48 + d)
        } else {
            char_from_ascii(87 + d)
        };
        r.push(c);
        r
    }
}

/// The file name one seed always maps to: its hash as eight lowercase hex
/// digits, then `.jpg`.
pub open spec fn file_name_spec(seed: &str) -> Seq<char> {
    hex_padded(fnv1a(effective_seed(seed)) as nat, 8) + ".jpg"@
}

pub fn file_name(seed: &str) -> (s: String)
    ensures
        s@ == file_name_spec(seed),
{
    let mut out = hex_padded_chars(seed_hash(seed), 8);
    append_chars(&mut out, chars_of(".jpg").as_slice());
    string_of(out.as_slice())
}

pub open spec fn str_opt_view(o: Option<&str>) -> Option<Seq<char>> {
    match o {
        Some(s) => Some(s@),
        None => None,
    }
}

/// The text a track's art is derived from: `artist::title`, with an empty
/// artist when there is none. Must match the frontend's, or the panel and
/// the tile show different pictures for the same song.
pub fn seed_for(title: &str, artist: Option<&str>) -> (s: String)
    ensures
        s@ == (match artist {
            Some(a) => a@,
            None => Seq::empty(),
        }) + "::"@ + title@,
{
    let mut out = match artist {
        Some(a) => chars_of(a),
        None => Vec::new(),
    };
    append_chars(&mut out, chars_of("::").as_slice());
    append_chars(&mut out, chars_of(title).as_slice());
    string_of(out.as_slice())
}

/// The side of a placeholder picture, in pixels.
pub const EDGE: u32 = 512;

/// The JPEG quality placeholders are written at.
pub const QUALITY: u8 = 90;

/// What `image`'s JPEG encoder makes of an RGB picture at a quality: the
/// encoded bytes, or `None` where it refuses the picture.
pub uninterp spec fn jpeg_of(pixels: Seq<u8>, width: u32, height: u32, quality: u8) -> Option<Seq<u8>>;

/// Calls `JpegEncoder::new_with_quality(.., quality).write_image(.., Rgb8)`
/// into a fresh buffer. Claimed: the bytes written are the encoder's answer
/// for these arguments, and a refusal is an error. The encoder panics on a
/// buffer of the wrong length, which `requires` rules out. What the error
/// message says is not stated.
#[verifier::external_body]
fn encode_rgb_jpeg(pixels: &[u8], width: u32, height: u32, quality: u8) -> (r: Result<Vec<u8>, String>)
    requires
        pixels@.len() == width as int * height as int * 3,
    ensures
        match r {
            Ok(bytes) => jpeg_of(pixels@, width, height, quality) == Some(bytes@),
            Err(_) => jpeg_of(pixels@, width, height, quality) is None,
        },
{
    let mut jpeg = Vec::new();
    match JpegEncoder::new_with_quality(&mut jpeg, quality).write_image(pixels, width, height, ExtendedColorType::Rgb8) {
        Ok(()) => Ok(jpeg),
        Err(e) => Err(format!("{e}")),
    }
}

/// A drawn placeholder, `EDGE` pixels square in RGB, encoded as a JPEG at
/// `QUALITY`; a refusal is reported as "could not encode placeholder art: "
/// and the encoder's reason.
pub fn encode_placeholder(pixels: &[u8]) -> (r: Result<Vec<u8>, String>)
    requires
        pixels@.len() == EDGE as int * EDGE as int * 3,
    ensures
        match r {
            Ok(bytes) => jpeg_of(pixels@, EDGE, EDGE, QUALITY) == Some(bytes@),
            Err(message) => jpeg_of(pixels@, EDGE, EDGE, QUALITY) is None && message@.len() >= 34
                && message@.take(34) == "could not encode placeholder art: "@,
        },
{
    match encode_rgb_jpeg(pixels, EDGE, EDGE, QUALITY) {
        Ok(bytes) => Ok(bytes),
        Err(reason) => {
            let mut out = chars_of("could not encode placeholder art: ");
            let ghost prefix = out@;
            append_chars(&mut out, chars_of(reason.as_str()).as_slice());
            proof {
                reveal_strlit("could not encode placeholder art: ");
                assert(out@.take(34) =~= prefix);
            }
            Err(string_of(out.as_slice()))
        },
    }
}

} // verus!
