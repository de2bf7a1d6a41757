//! The wire format, stated over byte sequences: what a spell is written as,
//! and what a byte sequence is read as.
use crate::dictionary::{builtin_index, builtin_name, BUILTIN_COUNT};
use crate::params::{insert_binding, BindingView};
use crate::spell::{ModView, PieceView, SpellDataView, SpellView};
use vstd::prelude::*;
use vstd::utf8::*;

verus! {

/// Terminator of the spell's name, of a key, a comment, a constant and a
/// custom parameter name.
pub const NUL: u8 = 0;

/// Separator between a mod's name and its version.
pub const COMMA: u8 = 44;

/// Terminator of a mod requirement.
pub const SEMICOLON: u8 = 59;

/// Terminator of the list of mod requirements.
pub const LIST_END: u8 = 93;

/// Separator between namespace and name in a key.
pub const COLON: u8 = 58;

/// Payload discriminator of a piece that carries a constant.
pub const PAYLOAD_CONSTANT: u8 = 255;

/// Payload discriminator of a piece that carries nothing.
pub const PAYLOAD_BARE: u8 = 254;

/// Tag of a parameter whose name is written out rather than looked up.
pub const KEY_CUSTOM: u8 = 255;

/// The bytes of the default namespace with its separator: `psi:`.
pub open spec fn psi_prefix() -> Seq<u8> {
    seq![112u8, 115u8, 105u8, 58u8]
}

/// Why a byte sequence is not a spell.
#[derive(Clone, Copy, Debug, PartialEq, Eq, Structural)]
pub enum DecodeError {
    /// The field that starts at `at` has no terminator before the end of the
    /// input.
    MissingTerminator { at: usize },
    /// The input ends at `at`, where one more byte is expected.
    UnexpectedEnd { at: usize },
    /// The byte `index`, read at `at` as a position in the parameter
    /// dictionary, is past its end.
    UnknownParameter { at: usize, index: u8 },
    /// The field that starts at `at` is not valid UTF-8.
    InvalidText { at: usize },
}

// ---------------------------------------------------------------------------
// Writing
// ---------------------------------------------------------------------------
/// A text followed by its NUL terminator.
pub open spec fn terminated(text: Seq<char>) -> Seq<u8> {
    encode_utf8(text).push(NUL)
}

/// One mod requirement: name, comma, version, semicolon.
pub open spec fn mod_bytes(m: ModView) -> Seq<u8> {
    encode_utf8(m.name).push(COMMA) + encode_utf8(m.version).push(SEMICOLON)
}

/// The mod requirements one after another, each with its semicolon.
pub open spec fn mods_bytes(mods: Seq<ModView>) -> Seq<u8>
    decreases mods.len(),
{
    if mods.len() == 0 {
        Seq::empty()
    } else {
        mods_bytes(mods.drop_last()) + mod_bytes(mods.last())
    }
}

/// The name and the mod requirements, with the last byte written replaced by
/// the list terminator. With no mod requirement that byte is the name's own
/// terminator.
pub open spec fn header_bytes(name: Seq<char>, mods: Seq<ModView>) -> Seq<u8> {
    (terminated(name) + mods_bytes(mods)).drop_last().push(LIST_END)
}

/// Both coordinates in one byte, four bits each; higher bits are lost.
pub open spec fn packed_position(x: u8, y: u8) -> u8 {
    (x << 4) | (y & 0xF)
}

/// Whether `bytes` starts with `psi:`.
pub open spec fn has_psi_prefix(bytes: Seq<u8>) -> bool {
    bytes.len() >= 4 && bytes.subrange(0, 4) == psi_prefix()
}

/// A key as it is written: without a leading `psi:`.
pub open spec fn wire_key(key: Seq<char>) -> Seq<u8> {
    let bytes = encode_utf8(key);
    if has_psi_prefix(bytes) {
        bytes.skip(4)
    } else {
        bytes
    }
}

/// A comment as it is written: its bytes, or nothing where it is absent.
pub open spec fn comment_bytes(comment: Option<Seq<char>>) -> Seq<u8> {
    match comment {
        Some(c) => encode_utf8(c),
        None => Seq::empty(),
    }
}

/// One parameter binding: the key's position in the dictionary, or the custom
/// tag and the key written out; then the side.
pub open spec fn binding_bytes(binding: BindingView) -> Seq<u8> {
    match builtin_index(binding.0) {
        Some(index) => seq![index, binding.1],
        None => seq![KEY_CUSTOM] + terminated(binding.0) + seq![binding.1],
    }
}

/// The bindings one after another.
pub open spec fn bindings_bytes(entries: Seq<BindingView>) -> Seq<u8>
    decreases entries.len(),
{
    if entries.len() == 0 {
        Seq::empty()
    } else {
        bindings_bytes(entries.drop_last()) + binding_bytes(entries.last())
    }
}

/// The payload of a piece. Bindings come first where both bindings and a
/// constant are set; their count is written in one byte and loses its higher
/// bits.
pub open spec fn payload_bytes(data: SpellDataView) -> Seq<u8> {
    match data.params {
        Some(entries) => seq![(entries.len() % 256) as u8] + bindings_bytes(entries),
        None => match data.constant {
            Some(c) => seq![PAYLOAD_CONSTANT] + terminated(c),
            None => seq![PAYLOAD_BARE],
        },
    }
}

/// One piece: position, key, comment, payload.
pub open spec fn piece_bytes(piece: PieceView) -> Seq<u8> {
    seq![packed_position(piece.x, piece.y)] + wire_key(piece.data.key).push(NUL) + comment_bytes(
        piece.data.comment,
    ).push(NUL) + payload_bytes(piece.data)
}

/// The pieces one after another.
pub open spec fn pieces_bytes(pieces: Seq<PieceView>) -> Seq<u8>
    decreases pieces.len(),
{
    if pieces.len() == 0 {
        Seq::empty()
    } else {
        pieces_bytes(pieces.drop_last()) + piece_bytes(pieces.last())
    }
}

/// A whole spell as it is written.
pub open spec fn spell_bytes(spell: SpellView) -> Seq<u8> {
    header_bytes(spell.name, spell.mods) + pieces_bytes(spell.pieces)
}

// ---------------------------------------------------------------------------
// Reading
// ---------------------------------------------------------------------------
/// The first position in `from..to` at which `input` holds `byte`, or `to`
/// where it holds none.
pub open spec fn find_byte(input: Seq<u8>, from: int, to: int, byte: u8) -> int
    decreases to - from,
{
    if from >= to {
        to
    } else if input[from] == byte {
        from
    } else {
        find_byte(input, from + 1, to, byte)
    }
}

/// The text that `input` holds in `from..to`.
pub open spec fn parse_text(input: Seq<u8>, from: int, to: int) -> Result<Seq<char>, DecodeError> {
    let bytes = input.subrange(from, to);
    if valid_utf8(bytes) {
        Ok(decode_utf8(bytes))
    } else {
        Err(DecodeError::InvalidText { at: from as usize })
    }
}

/// A NUL-terminated text that starts at `pos`, and the position after its
/// terminator.
pub open spec fn parse_terminated(input: Seq<u8>, pos: int) -> Result<(Seq<char>, int), DecodeError> {
    let end = find_byte(input, pos, input.len() as int, NUL);
    if end >= input.len() {
        Err(DecodeError::MissingTerminator { at: pos as usize })
    } else {
        match parse_text(input, pos, end) {
            Ok(text) => Ok((text, end + 1)),
            Err(e) => Err(e),
        }
    }
}

/// The mod requirements that `input` holds in `from..to`: segments parted by
/// semicolons, each split at its first comma into name and version. A segment
/// without a comma is all name.
pub open spec fn parse_mods(input: Seq<u8>, from: int, to: int) -> Result<Seq<ModView>, DecodeError>
    decreases to - from,
{
    let semi = find_byte(input, from, to, SEMICOLON);
    let comma = find_byte(input, from, semi, COMMA);
    let version_from = if comma < semi {
        comma + 1
    } else {
        semi
    };
    match parse_text(input, from, comma) {
        Err(e) => Err(e),
        Ok(name) => match parse_text(input, version_from, semi) {
            Err(e) => Err(e),
            Ok(version) => {
                let first = ModView { name, version };
                if from <= semi < to {
                    match parse_mods(input, semi + 1, to) {
                        Err(e) => Err(e),
                        Ok(rest) => Ok(seq![first] + rest),
                    }
                } else {
                    Ok(seq![first])
                }
            },
        },
    }
}

/// A key that starts at `pos`: NUL-terminated, and given the `psi:` namespace
/// where it holds no colon.
pub open spec fn parse_key(input: Seq<u8>, pos: int) -> Result<(Seq<char>, int), DecodeError> {
    let end = find_byte(input, pos, input.len() as int, NUL);
    if end >= input.len() {
        Err(DecodeError::MissingTerminator { at: pos as usize })
    } else {
        let written = input.subrange(pos, end);
        let bytes = if find_byte(input, pos, end, COLON) < end {
            written
        } else {
            psi_prefix() + written
        };
        if valid_utf8(bytes) {
            Ok((decode_utf8(bytes), end + 1))
        } else {
            Err(DecodeError::InvalidText { at: pos as usize })
        }
    }
}

/// One parameter binding that starts at `pos`, and the position after it.
pub open spec fn parse_binding(input: Seq<u8>, pos: int) -> Result<(BindingView, int), DecodeError> {
    if pos >= input.len() {
        Err(DecodeError::UnexpectedEnd { at: pos as usize })
    } else {
        let tag = input[pos];
        let key = if tag == KEY_CUSTOM {
            parse_terminated(input, pos + 1)
        } else if tag < BUILTIN_COUNT {
            Ok((builtin_name(tag as int), pos + 1))
        } else {
            Err(DecodeError::UnknownParameter { at: pos as usize, index: tag })
        };
        match key {
            Err(e) => Err(e),
            Ok((name, side_at)) => if side_at >= input.len() {
                Err(DecodeError::UnexpectedEnd { at: side_at as usize })
            } else {
                Ok(((name, input[side_at]), side_at + 1))
            },
        }
    }
}

/// `count` parameter bindings that start at `pos`, bound one after another on
/// top of `bound`.
pub open spec fn parse_bindings(input: Seq<u8>, pos: int, count: nat, bound: Seq<BindingView>)
    -> Result<(Seq<BindingView>, int), DecodeError>
    decreases count,
{
    if count == 0 {
        Ok((bound, pos))
    } else {
        match parse_binding(input, pos) {
            Err(e) => Err(e),
            Ok((binding, next)) => parse_bindings(
                input,
                next,
                (count - 1) as nat,
                insert_binding(bound, binding.0, binding.1),
            ),
        }
    }
}

/// What a payload holds: bindings, a constant, and the position after it.
pub struct PayloadView {
    pub params: Option<Seq<BindingView>>,
    pub constant: Option<Seq<char>>,
    pub next: int,
}

/// The payload that starts at `pos`. Bindings that come out empty are absent.
pub open spec fn parse_payload(input: Seq<u8>, pos: int) -> Result<PayloadView, DecodeError> {
    if pos >= input.len() {
        Err(DecodeError::UnexpectedEnd { at: pos as usize })
    } else if input[pos] == PAYLOAD_CONSTANT {
        match parse_terminated(input, pos + 1) {
            Err(e) => Err(e),
            Ok((constant, next)) => Ok(PayloadView { params: None, constant: Some(constant), next }),
        }
    } else if input[pos] == PAYLOAD_BARE {
        Ok(PayloadView { params: None, constant: None, next: pos + 1 })
    } else {
        match parse_bindings(input, pos + 1, input[pos] as nat, Seq::empty()) {
            Err(e) => Err(e),
            Ok((entries, next)) => Ok(
                PayloadView {
                    params: if entries.len() == 0 {
                        None
                    } else {
                        Some(entries)
                    },
                    constant: None,
                    next,
                },
            ),
        }
    }
}

/// The piece that starts at `pos`, which lies within `input`, and the position
/// after it. An empty comment is absent.
pub open spec fn parse_piece(input: Seq<u8>, pos: int) -> Result<(PieceView, int), DecodeError> {
    let packed = input[pos];
    match parse_key(input, pos + 1) {
        Err(e) => Err(e),
        Ok((key, comment_at)) => match parse_terminated(input, comment_at) {
            Err(e) => Err(e),
            Ok((comment, payload_at)) => match parse_payload(input, payload_at) {
                Err(e) => Err(e),
                Ok(payload) => Ok(
                    (
                        PieceView {
                            data: SpellDataView {
                                key,
                                params: payload.params,
                                constant: payload.constant,
                                comment: if comment.len() == 0 {
                                    None
                                } else {
                                    Some(comment)
                                },
                            },
                            x: packed >> 4,
                            y: packed & 0xF,
                        },
                        payload.next,
                    ),
                ),
            },
        },
    }
}

/// The pieces that `input` holds from `pos` to its end.
pub open spec fn parse_pieces(input: Seq<u8>, pos: int) -> Result<Seq<PieceView>, DecodeError>
    decreases input.len() - pos,
{
    if pos < 0 || pos >= input.len() {
        Ok(Seq::empty())
    } else {
        match parse_piece(input, pos) {
            Err(e) => Err(e),
            Ok((piece, next)) => if pos < next <= input.len() {
                match parse_pieces(input, next) {
                    Err(e) => Err(e),
                    Ok(rest) => Ok(seq![piece] + rest),
                }
            } else {
                Ok(seq![piece])
            },
        }
    }
}

/// The spell that `input` holds: the name up to the first NUL, the mod
/// requirements up to the first list terminator after it, then pieces to the
/// end of the input.
pub open spec fn parse_spell(input: Seq<u8>) -> Result<SpellView, DecodeError> {
    match parse_terminated(input, 0) {
        Err(e) => Err(e),
        Ok((name, mods_at)) => {
            let mods_end = find_byte(input, mods_at, input.len() as int, LIST_END);
            if mods_end >= input.len() {
                Err(DecodeError::MissingTerminator { at: mods_at as usize })
            } else {
                match parse_mods(input, mods_at, mods_end) {
                    Err(e) => Err(e),
                    Ok(mods) => match parse_pieces(input, mods_end + 1) {
                        Err(e) => Err(e),
                        Ok(pieces) => Ok(SpellView { mods, pieces, name }),
                    },
                }
            }
        },
    }
}

} // verus!
