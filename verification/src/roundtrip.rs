//! What reading makes of what writing wrote: on spells whose fields keep clear
//! of the delimiters, reading gives back the spell that was written.
use crate::dictionary::{builtin_index, builtin_name};
use crate::format::{
    binding_bytes, bindings_bytes, comment_bytes, find_byte, has_psi_prefix, header_bytes,
    mod_bytes, mods_bytes, packed_position, parse_binding, parse_bindings, parse_key, parse_mods,
    parse_payload, parse_piece, parse_pieces, parse_spell, parse_terminated, parse_text,
    payload_bytes, piece_bytes, pieces_bytes, psi_prefix, spell_bytes, terminated, wire_key,
    DecodeError, PayloadView, COLON, COMMA, KEY_CUSTOM, LIST_END, NUL,
    PAYLOAD_CONSTANT, SEMICOLON,
};
use crate::params::{lemma_insert_fresh, unique_keys, BindingView};
use crate::spell::{ModView, PieceView, SpellDataView, SpellView};
use vstd::prelude::*;
use vstd::utf8::*;

verus! {

/// `byte` occurs nowhere in `bytes`.
pub open spec fn free_of(bytes: Seq<u8>, byte: u8) -> bool {
    forall|i: int| 0 <= i < bytes.len() ==> bytes[i] != byte
}

/// The UTF-8 bytes of `text` hold none of the delimiters of the mod list.
pub open spec fn list_safe(text: Seq<char>) -> bool {
    &&& free_of(encode_utf8(text), COMMA)
    &&& free_of(encode_utf8(text), SEMICOLON)
    &&& free_of(encode_utf8(text), LIST_END)
}

/// The UTF-8 bytes of `text` hold no NUL.
pub open spec fn nul_free(text: Seq<char>) -> bool {
    free_of(encode_utf8(text), NUL)
}

/// A mod requirement that reading gives back as it was written.
pub open spec fn canonical_mod(m: ModView) -> bool {
    list_safe(m.name) && list_safe(m.version)
}

/// A key that reading gives back as it was written: one in the `psi`
/// namespace with no further colon, or one with a colon that does not start
/// with `psi:`.
pub open spec fn canonical_key(key: Seq<char>) -> bool {
    let bytes = encode_utf8(key);
    &&& free_of(bytes, NUL)
    &&& if has_psi_prefix(bytes) {
        free_of(bytes.skip(4), COLON)
    } else {
        !free_of(bytes, COLON)
    }
}

/// Bindings that reading gives back as they were written: at least one and at
/// most 253, so that their count is neither lost nor taken for a payload
/// discriminator, with unique keys that hold no NUL.
pub open spec fn canonical_params(entries: Seq<BindingView>) -> bool {
    &&& 0 < entries.len() <= 253
    &&& unique_keys(entries)
    &&& forall|i: int| 0 <= i < entries.len() ==> nul_free(#[trigger] entries[i].0)
}

/// Bindings that are read as they were written once they are not empty: at
/// most 253, with unique keys that hold no NUL.
pub open spec fn framed_params(entries: Seq<BindingView>) -> bool {
    &&& entries.len() <= 253
    &&& unique_keys(entries)
    &&& forall|i: int| 0 <= i < entries.len() ==> nul_free(#[trigger] entries[i].0)
}

/// A payload whose written form is read to its end: a canonical key, no NUL
/// in the comment, framed bindings, and no NUL in a constant that is written.
pub open spec fn framed_data(data: SpellDataView) -> bool {
    &&& canonical_key(data.key)
    &&& data.comment matches Some(c) ==> nul_free(c)
    &&& data.params matches Some(entries) ==> framed_params(entries)
    &&& data.params is None ==> (data.constant matches Some(c) ==> nul_free(c))
}

/// What a payload is read as: an empty comment and empty bindings are absent,
/// and a constant beside bindings is lost.
pub open spec fn data_as_read(data: SpellDataView) -> SpellDataView {
    SpellDataView {
        key: data.key,
        params: match data.params {
            Some(entries) => if entries.len() == 0 {
                None
            } else {
                Some(entries)
            },
            None => None,
        },
        constant: if data.params is Some {
            None
        } else {
            data.constant
        },
        comment: match data.comment {
            Some(c) => if c.len() == 0 {
                None
            } else {
                Some(c)
            },
            None => None,
        },
    }
}

/// A payload that reading gives back as it was written: a canonical key, a
/// comment that is absent or not empty, at most one of bindings and constant,
/// and no NUL in any text.
pub open spec fn canonical_data(data: SpellDataView) -> bool {
    &&& canonical_key(data.key)
    &&& data.comment matches Some(c) ==> c.len() > 0 && nul_free(c)
    &&& data.constant matches Some(c) ==> nul_free(c)
    &&& data.params matches Some(entries) ==> canonical_params(entries)
    &&& !(data.params is Some && data.constant is Some)
}

/// A piece that reading gives back as it was written.
pub open spec fn canonical_piece(piece: PieceView) -> bool {
    &&& piece.x < 16
    &&& piece.y < 16
    &&& canonical_data(piece.data)
}

/// What a piece is read as: each coordinate modulo 16, and the payload as it
/// is read.
pub open spec fn as_read(piece: PieceView) -> PieceView {
    PieceView {
        data: data_as_read(piece.data),
        x: (piece.x % 16) as u8,
        y: (piece.y % 16) as u8,
    }
}

/// A spell that reading gives back as it was written.
pub open spec fn canonical_spell(spell: SpellView) -> bool {
    &&& nul_free(spell.name)
    &&& spell.mods.len() > 0
    &&& forall|i: int| 0 <= i < spell.mods.len() ==> canonical_mod(#[trigger] spell.mods[i])
    &&& forall|i: int| 0 <= i < spell.pieces.len() ==> canonical_piece(#[trigger] spell.pieces[i])
}

/// The bytes of `input` from `pos` on are those of `field`.
#[verifier::opaque]
pub open spec fn same_bytes(input: Seq<u8>, pos: int, field: Seq<u8>) -> bool {
    input.subrange(pos, pos + field.len()) == field
}

/// `input` holds `field` at `pos`.
pub open spec fn holds_at(input: Seq<u8>, pos: int, field: Seq<u8>) -> bool {
    &&& 0 <= pos
    &&& pos + field.len() <= input.len()
    &&& same_bytes(input, pos, field)
}

proof fn lemma_holds_index(input: Seq<u8>, pos: int, field: Seq<u8>, i: int)
    requires
        holds_at(input, pos, field),
        0 <= i < field.len(),
    ensures
        0 <= pos,
        pos + field.len() <= input.len(),
        input[pos + i] == field[i],
{
    reveal(same_bytes);
    assert(input.subrange(pos, pos + field.len())[i] == input[pos + i]);
}

proof fn lemma_holds_whole(input: Seq<u8>)
    ensures
        holds_at(input, 0, input),
{
    reveal(same_bytes);
    assert(input.subrange(0, input.len() as int) =~= input);
}

proof fn lemma_holds_split(input: Seq<u8>, pos: int, a: Seq<u8>, b: Seq<u8>)
    requires
        holds_at(input, pos, a + b),
    ensures
        holds_at(input, pos, a),
        holds_at(input, pos + a.len(), b),
        0 <= pos,
        pos + a.len() + b.len() <= input.len(),
{
    reveal(same_bytes);
    let whole = input.subrange(pos, pos + (a + b).len());
    assert(input.subrange(pos, pos + a.len()) =~= whole.subrange(0, a.len() as int));
    assert(whole.subrange(0, a.len() as int) =~= a);
    assert(input.subrange(pos + a.len(), pos + a.len() + b.len()) =~= whole.subrange(
        a.len() as int,
        (a + b).len() as int,
    ));
    assert(whole.subrange(a.len() as int, (a + b).len() as int) =~= b);
}

/// `find_byte` is the one place `at` such that `byte` stands nowhere before it
/// and `at` is either the end of the range or holds `byte`.
pub proof fn lemma_find_byte(input: Seq<u8>, from: int, to: int, byte: u8, at: int)
    requires
        0 <= from <= at <= to <= input.len(),
        forall|i: int| from <= i < at ==> input[i] != byte,
        at < to ==> input[at] == byte,
    ensures
        find_byte(input, from, to, byte) == at,
    decreases at - from,
{
    if from < at {
        lemma_find_byte(input, from + 1, to, byte, at);
    }
}

/// `find_byte` stops at the first occurrence at the latest.
pub proof fn lemma_find_byte_before(input: Seq<u8>, from: int, to: int, byte: u8, at: int)
    requires
        0 <= from <= at < to <= input.len(),
        input[at] == byte,
    ensures
        from <= find_byte(input, from, to, byte) <= at,
    decreases at - from,
{
    if input[from] != byte {
        lemma_find_byte_before(input, from + 1, to, byte, at);
    }
}

/// Where a field without `byte` is followed by `byte`, the search from the
/// field's start ends right after the field.
proof fn lemma_find_after_field(
    input: Seq<u8>,
    pos: int,
    field: Seq<u8>,
    byte: u8,
    to: int,
)
    requires
        holds_at(input, pos, field.push(byte)),
        free_of(field, byte),
        pos + field.len() < to <= input.len(),
    ensures
        find_byte(input, pos, to, byte) == pos + field.len(),
        holds_at(input, pos, field),
{
    reveal(same_bytes);
    let whole = field.push(byte);
    assert forall|i: int| pos <= i < pos + field.len() implies input[i] != byte by {
        lemma_holds_index(input, pos, whole, i - pos);
        assert(whole[i - pos] == field[i - pos]);
    }
    lemma_holds_index(input, pos, whole, field.len() as int);
    lemma_find_byte(input, pos, to, byte, pos + field.len());
    assert(whole =~= field + seq![byte]);
    lemma_holds_split(input, pos, field, seq![byte]);
}

proof fn lemma_parse_text(input: Seq<u8>, from: int, text: Seq<char>)
    requires
        holds_at(input, from, encode_utf8(text)),
    ensures
        parse_text(input, from, from + encode_utf8(text).len()) == Ok::<Seq<char>, DecodeError>(
            text,
        ),
{
    reveal(same_bytes);
    encode_utf8_valid_utf8(text);
    encode_utf8_decode_utf8(text);
}

proof fn lemma_parse_terminated(input: Seq<u8>, pos: int, text: Seq<char>)
    requires
        holds_at(input, pos, terminated(text)),
        nul_free(text),
    ensures
        parse_terminated(input, pos) == Ok::<(Seq<char>, int), DecodeError>(
            (text, pos + terminated(text).len()),
        ),
{
    let bytes = encode_utf8(text);
    lemma_find_after_field(input, pos, bytes, NUL, input.len() as int);
    lemma_parse_text(input, pos, text);
}

proof fn lemma_parse_key(input: Seq<u8>, pos: int, key: Seq<char>)
    requires
        holds_at(input, pos, wire_key(key).push(NUL)),
        canonical_key(key),
    ensures
        parse_key(input, pos) == Ok::<(Seq<char>, int), DecodeError>(
            (key, pos + wire_key(key).len() + 1),
        ),
{
    let bytes = encode_utf8(key);
    let written = wire_key(key);
    let end = pos + written.len();
    assert(free_of(written, NUL)) by {
        if has_psi_prefix(bytes) {
            assert forall|i: int| 0 <= i < written.len() implies written[i] != NUL by {
                assert(written[i] == bytes[i + 4]);
            }
        }
    }
    lemma_find_after_field(input, pos, written, NUL, input.len() as int);
    assert(input.subrange(pos, end) == written) by {
        reveal(same_bytes);
    }
    encode_utf8_valid_utf8(key);
    encode_utf8_decode_utf8(key);
    if has_psi_prefix(bytes) {
        assert forall|i: int| pos <= i < end implies input[i] != COLON by {
            lemma_holds_index(input, pos, written.push(NUL), i - pos);
            assert(written.push(NUL)[i - pos] == written[i - pos]);
        }
        lemma_find_byte(input, pos, end, COLON, end);
        assert(psi_prefix() + written =~= bytes);
    } else {
        let k = choose|k: int| 0 <= k < bytes.len() && bytes[k] == COLON;
        lemma_holds_index(input, pos, written.push(NUL), k);
        assert(written.push(NUL)[k] == written[k]);
        lemma_find_byte_before(input, pos, end, COLON, pos + k);
    }
}

/// The bindings are written as the first of them followed by the rest.
proof fn lemma_bindings_bytes_front(entries: Seq<BindingView>)
    requires
        entries.len() > 0,
    ensures
        bindings_bytes(entries) == binding_bytes(entries[0]) + bindings_bytes(
            entries.drop_first(),
        ),
    decreases entries.len(),
{
    if entries.len() == 1 {
        assert(entries.drop_last() =~= Seq::<BindingView>::empty());
        assert(entries.drop_first() =~= Seq::<BindingView>::empty());
        assert(bindings_bytes(entries.drop_last()) =~= Seq::<u8>::empty());
        assert(bindings_bytes(entries.drop_first()) =~= Seq::<u8>::empty());
        assert(bindings_bytes(entries) =~= binding_bytes(entries[0]));
        assert(binding_bytes(entries[0]) + Seq::<u8>::empty() =~= binding_bytes(entries[0]));
    } else {
        let init = entries.drop_last();
        lemma_bindings_bytes_front(init);
        assert(init.drop_first() =~= entries.drop_first().drop_last());
        assert(entries.drop_first().last() == entries.last());
        assert(bindings_bytes(entries) =~= binding_bytes(entries[0]) + bindings_bytes(
            entries.drop_first(),
        ));
    }
}

/// The pieces are written as the first of them followed by the rest.
proof fn lemma_pieces_bytes_front(pieces: Seq<PieceView>)
    requires
        pieces.len() > 0,
    ensures
        pieces_bytes(pieces) == piece_bytes(pieces[0]) + pieces_bytes(pieces.drop_first()),
    decreases pieces.len(),
{
    if pieces.len() == 1 {
        assert(pieces.drop_last() =~= Seq::<PieceView>::empty());
        assert(pieces.drop_first() =~= Seq::<PieceView>::empty());
        assert(pieces_bytes(pieces.drop_last()) =~= Seq::<u8>::empty());
        assert(pieces_bytes(pieces.drop_first()) =~= Seq::<u8>::empty());
        assert(pieces_bytes(pieces) =~= piece_bytes(pieces[0]));
        assert(piece_bytes(pieces[0]) + Seq::<u8>::empty() =~= piece_bytes(pieces[0]));
    } else {
        let init = pieces.drop_last();
        lemma_pieces_bytes_front(init);
        assert(init.drop_first() =~= pieces.drop_first().drop_last());
        assert(pieces.drop_first().last() == pieces.last());
        assert(pieces_bytes(pieces) =~= piece_bytes(pieces[0]) + pieces_bytes(
            pieces.drop_first(),
        ));
    }
}

/// The mod requirements are written as the first of them followed by the
/// rest.
proof fn lemma_mods_bytes_front(mods: Seq<ModView>)
    requires
        mods.len() > 0,
    ensures
        mods_bytes(mods) == mod_bytes(mods[0]) + mods_bytes(mods.drop_first()),
    decreases mods.len(),
{
    if mods.len() == 1 {
        assert(mods.drop_last() =~= Seq::<ModView>::empty());
        assert(mods.drop_first() =~= Seq::<ModView>::empty());
        assert(mods_bytes(mods.drop_last()) =~= Seq::<u8>::empty());
        assert(mods_bytes(mods.drop_first()) =~= Seq::<u8>::empty());
        assert(mods_bytes(mods) =~= mod_bytes(mods[0]));
        assert(mod_bytes(mods[0]) + Seq::<u8>::empty() =~= mod_bytes(mods[0]));
    } else {
        let init = mods.drop_last();
        lemma_mods_bytes_front(init);
        assert(init.drop_first() =~= mods.drop_first().drop_last());
        assert(mods.drop_first().last() == mods.last());
        assert(mods_bytes(mods) =~= mod_bytes(mods[0]) + mods_bytes(mods.drop_first()));
    }
}

proof fn lemma_parse_binding(input: Seq<u8>, pos: int, binding: BindingView)
    requires
        holds_at(input, pos, binding_bytes(binding)),
        nul_free(binding.0),
    ensures
        parse_binding(input, pos) == Ok::<(BindingView, int), DecodeError>(
            (binding, pos + binding_bytes(binding).len()),
        ),
{
    let bytes = binding_bytes(binding);
    match builtin_index(binding.0) {
        Some(index) => {
            let i = choose|i: int| 0 <= i < 43 && builtin_name(i) == binding.0;
            assert(index == i as u8);
            lemma_holds_index(input, pos, bytes, 0);
            lemma_holds_index(input, pos, bytes, 1);
        },
        None => {
            let key = terminated(binding.0);
            assert(bytes =~= seq![KEY_CUSTOM] + (key + seq![binding.1]));
            lemma_holds_split(input, pos, seq![KEY_CUSTOM], key + seq![binding.1]);
            lemma_holds_split(input, pos + 1, key, seq![binding.1]);
            lemma_holds_index(input, pos, seq![KEY_CUSTOM], 0);
            lemma_holds_index(input, pos + 1 + key.len(), seq![binding.1], 0);
            lemma_parse_terminated(input, pos + 1, binding.0);
        },
    }
}

proof fn lemma_parse_bindings(
    input: Seq<u8>,
    pos: int,
    bound: Seq<BindingView>,
    rest: Seq<BindingView>,
)
    requires
        holds_at(input, pos, bindings_bytes(rest)),
        unique_keys(bound + rest),
        forall|i: int| 0 <= i < rest.len() ==> nul_free(#[trigger] rest[i].0),
    ensures
        parse_bindings(input, pos, rest.len(), bound) == Ok::<
            (Seq<BindingView>, int),
            DecodeError,
        >((bound + rest, pos + bindings_bytes(rest).len())),
    decreases rest.len(),
{
    if rest.len() == 0 {
        assert(bound + rest =~= bound);
    } else {
        let first = rest[0];
        let more = rest.drop_first();
        lemma_bindings_bytes_front(rest);
        lemma_holds_split(input, pos, binding_bytes(first), bindings_bytes(more));
        lemma_parse_binding(input, pos, first);
        let all = bound + rest;
        assert forall|k: int| 0 <= k < bound.len() implies bound[k].0 != first.0 by {
            assert(all[k] == bound[k]);
            assert(all[bound.len() as int] == first);
        }
        lemma_insert_fresh(bound, first.0, first.1);
        let grown = bound.push(first);
        assert(grown + more =~= all);
        assert forall|i: int| 0 <= i < more.len() implies nul_free(#[trigger] more[i].0) by {
            assert(more[i] == rest[i + 1]);
        }
        lemma_parse_bindings(input, pos + binding_bytes(first).len(), grown, more);
    }
}

proof fn lemma_parse_payload(input: Seq<u8>, pos: int, data: SpellDataView)
    requires
        holds_at(input, pos, payload_bytes(data)),
        data.params matches Some(entries) ==> framed_params(entries),
        data.params is None ==> (data.constant matches Some(c) ==> nul_free(c)),
    ensures
        parse_payload(input, pos) == Ok::<PayloadView, DecodeError>(
            PayloadView {
                params: data_as_read(data).params,
                constant: data_as_read(data).constant,
                next: pos + payload_bytes(data).len(),
            },
        ),
{
    let bytes = payload_bytes(data);
    match data.params {
        Some(entries) => {
            let count = (entries.len() % 256) as u8;
            assert(count == entries.len());
            lemma_holds_split(input, pos, seq![count], bindings_bytes(entries));
            lemma_holds_index(input, pos, seq![count], 0);
            assert(Seq::<BindingView>::empty() + entries =~= entries);
            lemma_parse_bindings(input, pos + 1, Seq::empty(), entries);
        },
        None => match data.constant {
            Some(c) => {
                lemma_holds_split(input, pos, seq![PAYLOAD_CONSTANT], terminated(c));
                lemma_holds_index(input, pos, seq![PAYLOAD_CONSTANT], 0);
                lemma_parse_terminated(input, pos + 1, c);
            },
            None => {
                lemma_holds_index(input, pos, bytes, 0);
            },
        },
    }
}

/// Unpacking a packed position gives each coordinate modulo 16.
pub proof fn lemma_packed_position(x: u8, y: u8)
    ensures
        packed_position(x, y) >> 4 == x % 16,
        packed_position(x, y) & 0xF == y % 16,
{
    assert(((x << 4) | (y & 0xF)) >> 4 == x % 16) by (bit_vector);
    assert(((x << 4) | (y & 0xF)) & 0xF == y % 16) by (bit_vector);
}

proof fn lemma_parse_piece(input: Seq<u8>, pos: int, piece: PieceView)
    requires
        holds_at(input, pos, piece_bytes(piece)),
        framed_data(piece.data),
    ensures
        parse_piece(input, pos) == Ok::<(PieceView, int), DecodeError>(
            (as_read(piece), pos + piece_bytes(piece).len()),
        ),
        piece_bytes(piece).len() > 0,
{
    let packed = seq![packed_position(piece.x, piece.y)];
    let key = wire_key(piece.data.key).push(NUL);
    let comment = comment_bytes(piece.data.comment).push(NUL);
    let payload = payload_bytes(piece.data);
    assert(piece_bytes(piece) =~= packed + (key + (comment + payload)));
    lemma_holds_split(input, pos, packed, key + (comment + payload));
    lemma_holds_split(input, pos + 1, key, comment + payload);
    lemma_holds_split(input, pos + 1 + key.len(), comment, payload);
    lemma_holds_index(input, pos, packed, 0);
    lemma_packed_position(piece.x, piece.y);
    lemma_parse_key(input, pos + 1, piece.data.key);
    let text = match piece.data.comment {
        Some(c) => c,
        None => Seq::<char>::empty(),
    };
    assert(encode_utf8(Seq::<char>::empty()) =~= Seq::<u8>::empty());
    assert(comment == terminated(text));
    lemma_parse_terminated(input, pos + 1 + key.len(), text);
    lemma_parse_payload(input, pos + 1 + key.len() + comment.len(), piece.data);
}

proof fn lemma_parse_pieces(input: Seq<u8>, pos: int, pieces: Seq<PieceView>)
    requires
        holds_at(input, pos, pieces_bytes(pieces)),
        pos + pieces_bytes(pieces).len() == input.len(),
        forall|i: int| 0 <= i < pieces.len() ==> canonical_piece(#[trigger] pieces[i]),
    ensures
        parse_pieces(input, pos) == Ok::<Seq<PieceView>, DecodeError>(pieces),
    decreases pieces.len(),
{
    if pieces.len() == 0 {
        assert(pieces =~= Seq::<PieceView>::empty());
    } else {
        let first = pieces[0];
        let more = pieces.drop_first();
        let next = pos + piece_bytes(first).len();
        lemma_pieces_bytes_front(pieces);
        lemma_holds_split(input, pos, piece_bytes(first), pieces_bytes(more));
        lemma_parse_piece(input, pos, first);
        assert(as_read(first) == first);
        assert forall|i: int| 0 <= i < more.len() implies canonical_piece(#[trigger] more[i]) by {
            assert(more[i] == pieces[i + 1]);
        }
        lemma_parse_pieces(input, next, more);
        assert(seq![first] + more =~= pieces);
        assert(pos < next <= input.len());
        assert(parse_piece(input, pos) == Ok::<(PieceView, int), DecodeError>((first, next)));
        assert(parse_pieces(input, next) == Ok::<Seq<PieceView>, DecodeError>(more));
    }
}

/// The written mod requirements hold no list terminator.
proof fn lemma_mods_bytes_list_safe(mods: Seq<ModView>)
    requires
        forall|i: int| 0 <= i < mods.len() ==> canonical_mod(#[trigger] mods[i]),
    ensures
        free_of(mods_bytes(mods), LIST_END),
    decreases mods.len(),
{
    if mods.len() > 0 {
        let init = mods.drop_last();
        assert forall|i: int| 0 <= i < init.len() implies canonical_mod(#[trigger] init[i]) by {
            assert(init[i] == mods[i]);
        }
        lemma_mods_bytes_list_safe(init);
        assert(canonical_mod(mods[mods.len() - 1]));
    }
}

/// A mod requirement without its semicolon.
spec fn mod_head(m: ModView) -> Seq<u8> {
    encode_utf8(m.name).push(COMMA) + encode_utf8(m.version)
}

/// The written mod requirements without the last semicolon: the first without
/// its semicolon, then, where more follow, a semicolon and the same of the
/// rest.
proof fn lemma_mods_region(mods: Seq<ModView>)
    requires
        mods.len() > 0,
    ensures
        mods_bytes(mods).len() > 0,
        mods_bytes(mods).drop_last() == if mods.len() == 1 {
            mod_head(mods[0])
        } else {
            mod_head(mods[0]).push(SEMICOLON) + mods_bytes(mods.drop_first()).drop_last()
        },
        mods.len() > 1 ==> mods_bytes(mods.drop_first()).len() > 0,
{
    let first = mods[0];
    let more = mods.drop_first();
    lemma_mods_bytes_front(mods);
    assert(mod_bytes(first) =~= mod_head(first).push(SEMICOLON));
    if mods.len() == 1 {
        assert(more =~= Seq::<ModView>::empty());
        assert(mods_bytes(more) =~= Seq::<u8>::empty());
        assert(mods_bytes(mods).drop_last() =~= mod_head(first));
    } else {
        lemma_mods_bytes_front(more);
        assert(mod_bytes(more[0]) =~= mod_head(more[0]).push(SEMICOLON));
        assert(mods_bytes(more).len() > 0);
        assert(mods_bytes(mods).drop_last() =~= mod_head(first).push(SEMICOLON) + mods_bytes(
            more,
        ).drop_last());
    }
}

/// A mod requirement without its semicolon holds no semicolon.
proof fn lemma_mod_head_free(m: ModView)
    requires
        canonical_mod(m),
    ensures
        free_of(mod_head(m), SEMICOLON),
{
    let name = encode_utf8(m.name);
    let version = encode_utf8(m.version);
    assert forall|i: int| 0 <= i < mod_head(m).len() implies mod_head(m)[i] != SEMICOLON by {
        if i < name.len() {
            assert(mod_head(m)[i] == name[i]);
        } else if i > name.len() {
            assert(mod_head(m)[i] == version[i - name.len() - 1]);
        }
    }
}

/// Where a field without `byte` is held, `byte` stands nowhere in its range.
proof fn lemma_free_range(input: Seq<u8>, pos: int, field: Seq<u8>, byte: u8)
    requires
        holds_at(input, pos, field),
        free_of(field, byte),
    ensures
        forall|i: int| pos <= i < pos + field.len() ==> input[i] != byte,
{
    assert forall|i: int| pos <= i < pos + field.len() implies input[i] != byte by {
        lemma_holds_index(input, pos, field, i - pos);
    }
}

/// The first mod requirement of a held segment is read as what was written.
proof fn lemma_parse_mod_head(input: Seq<u8>, from: int, semi: int, m: ModView)
    requires
        holds_at(input, from, mod_head(m)),
        semi == from + mod_head(m).len(),
        canonical_mod(m),
    ensures
        find_byte(input, from, semi, COMMA) == from + encode_utf8(m.name).len(),
        find_byte(input, from, semi, COMMA) < semi,
        parse_text(input, from, from + encode_utf8(m.name).len()) == Ok::<
            Seq<char>,
            DecodeError,
        >(m.name),
        parse_text(input, from + encode_utf8(m.name).len() + 1, semi) == Ok::<
            Seq<char>,
            DecodeError,
        >(m.version),
{
    let name = encode_utf8(m.name);
    lemma_holds_split(input, from, name.push(COMMA), encode_utf8(m.version));
    lemma_find_after_field(input, from, name, COMMA, semi);
    assert(name.push(COMMA) =~= name + seq![COMMA]);
    lemma_holds_split(input, from, name, seq![COMMA]);
    lemma_parse_text(input, from, m.name);
    lemma_parse_text(input, from + name.len() + 1, m.version);
}

proof fn lemma_parse_mods(input: Seq<u8>, from: int, to: int, mods: Seq<ModView>)
    requires
        mods.len() > 0,
        holds_at(input, from, mods_bytes(mods).drop_last()),
        to == from + mods_bytes(mods).len() - 1,
        forall|i: int| 0 <= i < mods.len() ==> canonical_mod(#[trigger] mods[i]),
    ensures
        parse_mods(input, from, to) == Ok::<Seq<ModView>, DecodeError>(mods),
    decreases mods.len(),
{
    let first = mods[0];
    let more = mods.drop_first();
    let head = mod_head(first);
    let semi = from + head.len();
    lemma_mods_region(mods);
    assert(canonical_mod(first));
    lemma_mod_head_free(first);
    if mods.len() == 1 {
        lemma_holds_index(input, from, head, 0);
        lemma_free_range(input, from, head, SEMICOLON);
        lemma_find_byte(input, from, to, SEMICOLON, to);
        lemma_parse_mod_head(input, from, semi, first);
        assert(seq![first] =~= mods);
    } else {
        let tail = mods_bytes(more).drop_last();
        assert(mods_bytes(mods).drop_last().len() == head.len() + 1 + tail.len());
        lemma_holds_split(input, from, head.push(SEMICOLON), tail);
        lemma_find_after_field(input, from, head, SEMICOLON, to);
        assert(head.push(SEMICOLON) =~= head + seq![SEMICOLON]);
        lemma_holds_split(input, from, head, seq![SEMICOLON]);
        lemma_parse_mod_head(input, from, semi, first);
        assert forall|i: int| 0 <= i < more.len() implies canonical_mod(#[trigger] more[i]) by {
            assert(more[i] == mods[i + 1]);
        }
        assert(mods_bytes(mods).drop_last().len() == head.len() + 1 + tail.len());
        lemma_parse_mods(input, semi + 1, to, more);
        assert(seq![first] + more =~= mods);
        assert(from <= semi < to);
        assert(parse_mods(input, semi + 1, to) == Ok::<Seq<ModView>, DecodeError>(more));
    }
}

/// A spell with a mod requirement is written as its name, the mod
/// requirements with the list terminator in place of the last semicolon, and
/// the pieces.
proof fn lemma_spell_layout(spell: SpellView)
    requires
        spell.mods.len() > 0,
    ensures
        mods_bytes(spell.mods).len() > 0,
        spell_bytes(spell) == terminated(spell.name) + (mods_bytes(spell.mods).drop_last().push(
            LIST_END,
        ) + pieces_bytes(spell.pieces)),
{
    lemma_mods_region(spell.mods);
    let name = terminated(spell.name);
    let region = mods_bytes(spell.mods).drop_last();
    assert(header_bytes(spell.name, spell.mods) =~= name + region.push(LIST_END));
    assert(spell_bytes(spell) =~= name + (region.push(LIST_END) + pieces_bytes(spell.pieces)));
}

/// A written key is read as the key: a key in the `psi` namespace travels
/// without it and gets it back, a key in another namespace travels as it is.
pub proof fn lemma_key_round_trip(key: Seq<char>)
    requires
        canonical_key(key),
    ensures
        parse_key(wire_key(key).push(NUL), 0) == Ok::<(Seq<char>, int), DecodeError>(
            (key, wire_key(key).len() as int + 1),
        ),
{
    lemma_holds_whole(wire_key(key).push(NUL));
    lemma_parse_key(wire_key(key).push(NUL), 0, key);
}

/// A written binding is read as the binding, whether its key stands in the
/// dictionary and travels as one byte or is written out.
pub proof fn lemma_binding_round_trip(binding: BindingView)
    requires
        nul_free(binding.0),
    ensures
        parse_binding(binding_bytes(binding), 0) == Ok::<(BindingView, int), DecodeError>(
            (binding, binding_bytes(binding).len() as int),
        ),
{
    lemma_holds_whole(binding_bytes(binding));
    lemma_parse_binding(binding_bytes(binding), 0, binding);
}

/// A written piece is read as the piece with its coordinates modulo 16, an
/// empty comment absent, and at most one of bindings and constant: bindings
/// come back without a constant, a constant without bindings, and a bare piece
/// with neither. A canonical piece is read as it was written.
pub proof fn lemma_piece_round_trip(piece: PieceView)
    requires
        framed_data(piece.data),
    ensures
        parse_piece(piece_bytes(piece), 0) == Ok::<(PieceView, int), DecodeError>(
            (as_read(piece), piece_bytes(piece).len() as int),
        ),
        !(as_read(piece).data.params is Some && as_read(piece).data.constant is Some),
        canonical_piece(piece) ==> as_read(piece) == piece,
{
    lemma_holds_whole(piece_bytes(piece));
    lemma_parse_piece(piece_bytes(piece), 0, piece);
}

/// Reading inverts writing: the bytes written for a canonical spell are read
/// as that spell.
pub proof fn lemma_decode_inverts_encode(spell: SpellView)
    requires
        canonical_spell(spell),
    ensures
        parse_spell(spell_bytes(spell)) == Ok::<SpellView, DecodeError>(spell),
{
    let input = spell_bytes(spell);
    let name = terminated(spell.name);
    let written = mods_bytes(spell.mods);
    let region = written.drop_last();
    let pieces = pieces_bytes(spell.pieces);
    lemma_spell_layout(spell);
    lemma_holds_whole(input);
    lemma_holds_split(input, 0, name, region.push(LIST_END) + pieces);
    lemma_holds_split(input, name.len() as int, region.push(LIST_END), pieces);
    lemma_parse_terminated(input, 0, spell.name);
    let mods_at = name.len() as int;
    let mods_end = mods_at + region.len();
    lemma_mods_bytes_list_safe(spell.mods);
    assert(free_of(region, LIST_END)) by {
        assert forall|i: int| 0 <= i < region.len() implies region[i] != LIST_END by {
            assert(region[i] == written[i]);
        }
    }
    lemma_find_after_field(input, mods_at, region, LIST_END, input.len() as int);
    assert(region.push(LIST_END) =~= region + seq![LIST_END]);
    lemma_holds_split(input, mods_at, region, seq![LIST_END]);
    lemma_parse_mods(input, mods_at, mods_end, spell.mods);
    lemma_parse_pieces(input, mods_end + 1, spell.pieces);
    assert(parse_terminated(input, 0) == Ok::<(Seq<char>, int), DecodeError>(
        (spell.name, mods_at),
    ));
    assert(find_byte(input, mods_at, input.len() as int, LIST_END) == mods_end);
    assert(parse_mods(input, mods_at, mods_end) == Ok::<Seq<ModView>, DecodeError>(spell.mods));
    assert(parse_pieces(input, mods_end + 1) == Ok::<Seq<PieceView>, DecodeError>(spell.pieces));
}

} // verus!
