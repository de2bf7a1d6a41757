//! A compact binary encoding for spells: small visual programs made of placed
//! pieces with parameter bindings.
//!
//! The wire format is length-prefixed and delimiter-based, with a fixed
//! dictionary for common parameter names, 4-bit coordinate packing and
//! compression of the default `psi:` namespace.

pub mod decode;
pub mod dictionary;
pub mod encode;
pub mod format;
pub mod params;
pub mod roundtrip;
pub mod shape;
pub mod spell;
pub mod transport;

pub use crate::decode::decode_spell_from_bytes;
pub use crate::encode::encode_spell_to_bytes;
pub use crate::format::DecodeError;
pub use crate::params::SpellParams;
pub use crate::spell::{Mod, Piece, Spell, SpellData};
pub use crate::transport::{
    decode_spell, decode_url_safe_to_bytes, encode_bytes_to_url_safe, encode_spell,
    fits_url_safe, SpellTextError, TransportError,
};
