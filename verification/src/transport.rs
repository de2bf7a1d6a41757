//! Spells as text that is safe in a URL: the wire format, gzip-compressed at
//! the fastest level and written in the URL-safe base64 alphabet with padding.
use crate::decode::decode_spell_from_bytes;
use crate::encode::encode_spell_to_bytes;
use crate::format::{parse_spell, spell_bytes, DecodeError};
use crate::roundtrip::{canonical_spell, lemma_decode_inverts_encode};
use crate::spell::{Spell, SpellView};
use std::io::Read;
use vstd::prelude::*;

verus! {

/// The error of `base64_simd`; it carries nothing.
#[verifier::external_type_specification]
#[verifier::external_body]
pub struct ExBase64Error(base64_simd::Error);

/// The error of `std::io`; nothing is read from it.
#[verifier::external_type_specification]
#[verifier::external_body]
pub struct ExIoError(std::io::Error);

/// The gzip stream that `flate2` writes for `bytes` at its fastest level, with
/// the default header.
pub uninterp spec fn gzip_fast(bytes: Seq<u8>) -> Seq<u8>;

/// What `flate2` reads from the gzip stream `stream`, or `None` where it
/// rejects the stream.
pub uninterp spec fn gunzipped(stream: Seq<u8>) -> Option<Seq<u8>>;

/// The text that `base64_simd` writes for `bytes` in the URL-safe alphabet with
/// padding.
pub uninterp spec fn base64_url(bytes: Seq<u8>) -> Seq<char>;

/// The bytes that `base64_simd` reads from `text` in the URL-safe alphabet with
/// padding, or `None` where it rejects the text.
pub uninterp spec fn base64_url_decoded(text: Seq<char>) -> Option<Seq<u8>>;

/// The length of the padded base64 text for `len` bytes.
pub open spec fn base64_len(len: int) -> int {
    if len % 3 == 0 {
        len / 3 * 4
    } else {
        len / 3 * 4 + 4
    }
}

/// Whether `base64_simd` takes `len` bytes to encode: it refuses to allocate a
/// text longer than half the address space.
pub open spec fn base64_fits(len: int) -> bool {
    base64_len(len) <= usize::MAX / 2
}

/// Calls `flate2::read::GzEncoder` on `bytes` with `Compression::fast()` and
/// reads it to the end. Trusted: the result is the gzip stream named
/// `gzip_fast`, and `flate2` reads `bytes` back from it.
#[verifier::external_body]
fn gzip(bytes: &[u8]) -> (stream: Vec<u8>)
    ensures
        stream@ == gzip_fast(bytes@),
        gunzipped(stream@) == Some(bytes@),
{
    let mut encoder = flate2::read::GzEncoder::new(bytes, flate2::Compression::fast());
    let mut stream = Vec::new();
    encoder.read_to_end(&mut stream).unwrap();
    stream
}

/// Calls `flate2::read::GzDecoder` on `stream` and reads it to the end.
/// Trusted: the result is what `gunzipped` names, an error standing for
/// `None`.
#[verifier::external_body]
fn gunzip(stream: &[u8]) -> (r: Result<Vec<u8>, std::io::Error>)
    ensures
        r matches Ok(bytes) ==> gunzipped(stream@) == Some(bytes@),
        r is Err ==> gunzipped(stream@) is None,
{
    let mut decoder = flate2::read::GzDecoder::new(stream);
    let mut bytes = Vec::new();
    match decoder.read_to_end(&mut bytes) {
        Ok(_) => Ok(bytes),
        Err(e) => Err(e),
    }
}

/// Calls `base64_simd::URL_SAFE.encode_to_string` on `bytes`. Trusted: the
/// result is the text named `base64_url`, and `base64_simd` reads `bytes` back
/// from it. The call panics where the text would be longer than half the
/// address space.
#[verifier::external_body]
fn base64_encode(bytes: &[u8]) -> (text: String)
    requires
        base64_fits(bytes@.len() as int),
    ensures
        text@ == base64_url(bytes@),
        base64_url_decoded(text@) == Some(bytes@),
{
    base64_simd::URL_SAFE.encode_to_string(bytes)
}

/// Calls `base64_simd::URL_SAFE.decode_inplace` on the bytes of `text`.
/// Trusted: the result is what `base64_url_decoded` names, an error standing
/// for `None`.
#[verifier::external_body]
fn base64_decode(text: String) -> (r: Result<Vec<u8>, base64_simd::Error>)
    ensures
        r matches Ok(bytes) ==> base64_url_decoded(text@) == Some(bytes@),
        r is Err ==> base64_url_decoded(text@) is None,
{
    let mut buffer = text.into_bytes();
    match base64_simd::URL_SAFE.decode_inplace(&mut buffer) {
        Ok(decoded) => Ok(decoded.to_vec()),
        Err(e) => Err(e),
    }
}

/// Why a text could not be turned into bytes, or bytes into a text.
#[derive(Clone, Copy, Debug, PartialEq, Eq, Structural)]
pub enum TransportError {
    /// The text is not base64 in the URL-safe alphabet with padding.
    InvalidBase64,
    /// The bytes under the base64 are not a gzip stream.
    CorruptStream,
    /// The compressed bytes are too many to be written as one text.
    TooLong,
}

/// Why a text is not a spell.
#[derive(Clone, Copy, Debug, PartialEq, Eq, Structural)]
pub enum SpellTextError {
    /// The text does not unwrap to bytes.
    Transport(TransportError),
    /// The bytes are not a spell in the wire format.
    Malformed(DecodeError),
}

/// The text for `bytes`: compressed, then written as base64.
pub open spec fn url_safe_text(bytes: Seq<u8>) -> Seq<char> {
    base64_url(gzip_fast(bytes))
}

/// The bytes for `text`: read as base64, then decompressed.
pub open spec fn url_safe_bytes(text: Seq<char>) -> Result<Seq<u8>, TransportError> {
    match base64_url_decoded(text) {
        None => Err(TransportError::InvalidBase64),
        Some(stream) => match gunzipped(stream) {
            None => Err(TransportError::CorruptStream),
            Some(bytes) => Ok(bytes),
        },
    }
}

/// The model of bytes that were unwrapped, or the error.
pub open spec fn unwrapped_view(r: Result<Vec<u8>, TransportError>) -> Result<
    Seq<u8>,
    TransportError,
> {
    match r {
        Ok(bytes) => Ok(bytes@),
        Err(e) => Err(e),
    }
}

/// Whether `len` bytes are few enough for one base64 text.
fn fits(len: usize) -> (ok: bool)
    ensures
        ok == base64_fits(len as int),
{
    if len % 3 == 0 {
        len / 3 <= usize::MAX / 2 / 4
    } else {
        len / 3 <= (usize::MAX / 2 - 4) / 4
    }
}

/// Whether `bytes` can be written as a URL-safe text, which is the condition of
/// [`encode_bytes_to_url_safe`]. The test compresses `bytes`.
pub fn fits_url_safe(bytes: &[u8]) -> (ok: bool)
    ensures
        ok == base64_fits(gzip_fast(bytes@).len() as int),
{
    let stream = gzip(bytes);
    fits(stream.len())
}

/// Writes `bytes` as a URL-safe text. Unwrapping the text gives `bytes` back.
pub fn encode_bytes_to_url_safe(bytes: Vec<u8>) -> (text: String)
    requires
        base64_fits(gzip_fast(bytes@).len() as int),
    ensures
        text@ == url_safe_text(bytes@),
        url_safe_bytes(text@) == Ok::<Seq<u8>, TransportError>(bytes@),
{
    let stream = gzip(bytes.as_slice());
    base64_encode(stream.as_slice())
}

/// Unwraps a URL-safe text to the bytes it stands for. Fails where the text is
/// not base64, and where the bytes under it are not a gzip stream.
pub fn decode_url_safe_to_bytes(url_safe: String) -> (r: Result<Vec<u8>, TransportError>)
    ensures
        unwrapped_view(r) == url_safe_bytes(url_safe@),
{
    let stream = match base64_decode(url_safe) {
        Ok(stream) => stream,
        Err(_) => {
            return Err(TransportError::InvalidBase64);
        },
    };
    match gunzip(stream.as_slice()) {
        Ok(bytes) => Ok(bytes),
        Err(_) => Err(TransportError::CorruptStream),
    }
}

/// The text for a spell, or the reason why there is none.
pub open spec fn spell_text(spell: SpellView) -> Result<Seq<char>, TransportError> {
    if base64_fits(gzip_fast(spell_bytes(spell)).len() as int) {
        Ok(url_safe_text(spell_bytes(spell)))
    } else {
        Err(TransportError::TooLong)
    }
}

/// The spell for a text, or the reason why there is none.
pub open spec fn text_spell(text: Seq<char>) -> Result<SpellView, SpellTextError> {
    match url_safe_bytes(text) {
        Err(e) => Err(SpellTextError::Transport(e)),
        Ok(bytes) => match parse_spell(bytes) {
            Err(e) => Err(SpellTextError::Malformed(e)),
            Ok(spell) => Ok(spell),
        },
    }
}

/// The model of a text that was written, or the error.
pub open spec fn written_view(r: Result<String, TransportError>) -> Result<
    Seq<char>,
    TransportError,
> {
    match r {
        Ok(text) => Ok(text@),
        Err(e) => Err(e),
    }
}

/// The model of a spell that was read from a text, or the error.
pub open spec fn read_view(r: Result<Spell, SpellTextError>) -> Result<SpellView, SpellTextError> {
    match r {
        Ok(spell) => Ok(spell@),
        Err(e) => Err(e),
    }
}

/// Writes a spell as a URL-safe text: the wire format, compressed, as base64.
/// Fails only where the compressed bytes are too many for one text. Reading the
/// text of a canonical spell gives the spell back.
pub fn encode_spell(spell: &Spell) -> (r: Result<String, TransportError>)
    ensures
        written_view(r) == spell_text(spell@),
        r matches Ok(text) ==> url_safe_bytes(text@) == Ok::<Seq<u8>, TransportError>(
            spell_bytes(spell@),
        ),
        r matches Ok(text) ==> canonical_spell(spell@) ==> text_spell(text@) == Ok::<
            SpellView,
            SpellTextError,
        >(spell@),
{
    proof {
        if canonical_spell(spell@) {
            lemma_decode_inverts_encode(spell@);
        }
    }
    let bytes = encode_spell_to_bytes(spell);
    if fits_url_safe(bytes.as_slice()) {
        Ok(encode_bytes_to_url_safe(bytes))
    } else {
        Err(TransportError::TooLong)
    }
}

/// Reads a spell from a URL-safe text: unwraps the text, then reads the bytes
/// in the wire format.
pub fn decode_spell(url_safe: String) -> (r: Result<Spell, SpellTextError>)
    ensures
        read_view(r) == text_spell(url_safe@),
{
    let bytes = match decode_url_safe_to_bytes(url_safe) {
        Ok(bytes) => bytes,
        Err(e) => {
            return Err(SpellTextError::Transport(e));
        },
    };
    match decode_spell_from_bytes(bytes) {
        Ok(spell) => Ok(spell),
        Err(e) => Err(SpellTextError::Malformed(e)),
    }
}

} // verus!
