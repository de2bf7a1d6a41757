//! What holds of every spell that was read, whatever the input.
use crate::format::{
    find_byte, parse_binding, parse_bindings, parse_key, parse_piece, parse_pieces, parse_spell,
    parse_terminated, psi_prefix, COLON, LIST_END, NUL, PAYLOAD_BARE, PAYLOAD_CONSTANT,
};
use crate::params::{
    insert_binding, lemma_insert_keeps_unique, lemma_key_position_found, unique_keys,
    BindingView,
};
use crate::roundtrip::free_of;
use crate::spell::{PieceView, SpellView};
use vstd::prelude::*;
use vstd::utf8::*;

verus! {

/// The shape of a piece that was read: coordinates of four bits, a key with a
/// namespace, no empty comment, and at most one of bindings and constant, the
/// bindings not empty, not more than 253 and with unique keys.
pub open spec fn read_piece_shape(piece: PieceView) -> bool {
    &&& piece.x < 16
    &&& piece.y < 16
    &&& !free_of(encode_utf8(piece.data.key), COLON)
    &&& piece.data.comment matches Some(c) ==> c.len() > 0
    &&& !(piece.data.params is Some && piece.data.constant is Some)
    &&& piece.data.params matches Some(entries) ==> 0 < entries.len() <= 253 && unique_keys(
        entries,
    )
}

/// The shape of a spell that was read: at least one mod requirement, and
/// every piece in the shape of a piece that was read.
pub open spec fn read_spell_shape(spell: SpellView) -> bool {
    &&& spell.mods.len() > 0
    &&& forall|i: int| 0 <= i < spell.pieces.len() ==> read_piece_shape(#[trigger] spell.pieces[i])
}

/// A key that was read holds a colon.
proof fn lemma_read_key_shape(input: Seq<u8>, pos: int)
    requires
        0 <= pos <= input.len(),
    ensures
        parse_key(input, pos) matches Ok((key, _)) ==> !free_of(encode_utf8(key), COLON),
{
    if let Ok((key, _)) = parse_key(input, pos) {
        let end = find_byte(input, pos, input.len() as int, NUL);
        let written = input.subrange(pos, end);
        let at = find_byte(input, pos, end, COLON);
        let bytes = if at < end {
            written
        } else {
            psi_prefix() + written
        };
        decode_utf8_encode_utf8(bytes);
        if at < end {
            lemma_find_byte_shape(input, pos, end, COLON);
            assert(bytes[at - pos] == COLON);
        } else {
            assert(bytes[3] == COLON);
        }
    }
}

/// What `find_byte` returns lies in the range, and holds the byte where it is
/// not the end of the range.
pub proof fn lemma_find_byte_shape(input: Seq<u8>, from: int, to: int, byte: u8)
    requires
        from <= to,
    ensures
        from <= find_byte(input, from, to, byte) <= to,
        find_byte(input, from, to, byte) < to ==> input[find_byte(input, from, to, byte)]
            == byte,
    decreases to - from,
{
    if from < to && input[from] != byte {
        lemma_find_byte_shape(input, from + 1, to, byte);
    }
}

/// Bindings that were read on top of unique keys have unique keys, and are at
/// most as many more as were read.
proof fn lemma_read_bindings_shape(input: Seq<u8>, pos: int, count: nat, bound: Seq<BindingView>)
    requires
        unique_keys(bound),
    ensures
        parse_bindings(input, pos, count, bound) matches Ok((entries, _)) ==> unique_keys(
            entries,
        ) && entries.len() <= bound.len() + count,
    decreases count,
{
    if count > 0 {
        if let Ok((binding, next)) = parse_binding(input, pos) {
            lemma_insert_keeps_unique(bound, binding.0, binding.1);
            lemma_key_position_found(bound, binding.0);
            lemma_read_bindings_shape(
                input,
                next,
                (count - 1) as nat,
                insert_binding(bound, binding.0, binding.1),
            );
        }
    }
}

/// Every piece that is read has the shape of a piece that was read.
pub proof fn lemma_read_piece_shape(input: Seq<u8>, pos: int)
    requires
        0 <= pos < input.len(),
    ensures
        parse_piece(input, pos) matches Ok((piece, _)) ==> read_piece_shape(piece),
{
    if let Ok((piece, _)) = parse_piece(input, pos) {
        let packed = input[pos];
        assert(packed >> 4 < 16) by (bit_vector);
        assert(packed & 0xF < 16) by (bit_vector);
        lemma_read_key_shape(input, pos + 1);
        let payload_at = parse_terminated(input, parse_key(input, pos + 1).unwrap().1).unwrap().1;
        if payload_at < input.len() && input[payload_at] != PAYLOAD_CONSTANT && input[payload_at]
            != PAYLOAD_BARE {
            lemma_read_bindings_shape(
                input,
                payload_at + 1,
                input[payload_at] as nat,
                Seq::empty(),
            );
        }
    }
}

/// Every piece among those that are read has the shape of a piece that was
/// read.
pub proof fn lemma_read_pieces_shape(input: Seq<u8>, pos: int)
    ensures
        parse_pieces(input, pos) matches Ok(pieces) ==> forall|i: int|
            0 <= i < pieces.len() ==> read_piece_shape(#[trigger] pieces[i]),
    decreases input.len() - pos,
{
    if 0 <= pos < input.len() {
        lemma_read_piece_shape(input, pos);
        if let Ok((piece, next)) = parse_piece(input, pos) {
            if pos < next <= input.len() {
                lemma_read_pieces_shape(input, next);
            }
        }
    }
}

/// Every spell that is read has the shape of a spell that was read: bindings
/// and constant exclude each other, whatever the input.
pub proof fn lemma_read_spell_shape(input: Seq<u8>)
    ensures
        parse_spell(input) matches Ok(spell) ==> read_spell_shape(spell),
{
    if let Ok(spell) = parse_spell(input) {
        let mods_at = parse_terminated(input, 0).unwrap().1;
        let mods_end = find_byte(input, mods_at, input.len() as int, LIST_END);
        lemma_read_pieces_shape(input, mods_end + 1);
    }
}

} // verus!
