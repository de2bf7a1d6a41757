//! Writing a spell in the wire format.
use crate::dictionary::index_of;
use crate::format::{
    binding_bytes, bindings_bytes, comment_bytes, has_psi_prefix, header_bytes, mod_bytes,
    mods_bytes, packed_position, payload_bytes, piece_bytes, pieces_bytes, psi_prefix,
    spell_bytes, terminated, wire_key, COMMA, KEY_CUSTOM, LIST_END, NUL, PAYLOAD_BARE,
    PAYLOAD_CONSTANT, SEMICOLON,
};
use crate::params::SpellParams;
use crate::spell::{Mod, Piece, Spell};
use vstd::prelude::*;
use vstd::slice::slice_subrange;

verus! {

/// Appends `bytes` to `out`.
fn append(out: &mut Vec<u8>, bytes: &[u8])
    ensures
        final(out)@ == old(out)@ + bytes@,
{
    out.extend_from_slice(bytes);
    assert(out@ =~= old(out)@ + bytes@);
}

/// Appends one mod requirement to `out`.
fn write_mod(out: &mut Vec<u8>, m: &Mod)
    ensures
        final(out)@ == old(out)@ + mod_bytes(m@),
{
    append(out, m.name.as_str().as_bytes());
    out.push(COMMA);
    append(out, m.version.as_str().as_bytes());
    out.push(SEMICOLON);
    assert(out@ =~= old(out)@ + mod_bytes(m@));
}

/// The key without a leading `psi:`.
fn strip_psi(key: &[u8]) -> (written: &[u8])
    ensures
        written@ == if has_psi_prefix(key@) {
            key@.skip(4)
        } else {
            key@
        },
{
    if key.len() >= 4 && key[0] == 112 && key[1] == 115 && key[2] == 105 && key[3] == 58 {
        assert(key@.subrange(0, 4) =~= psi_prefix());
        assert(key@.skip(4) =~= key@.subrange(4, key@.len() as int));
        slice_subrange(key, 4, key.len())
    } else {
        assert(has_psi_prefix(key@) ==> key@.subrange(0, 4)[0] == 112 && key@.subrange(0, 4)[1]
            == 115 && key@.subrange(0, 4)[2] == 105 && key@.subrange(0, 4)[3] == 58);
        key
    }
}

/// Appends the bindings of one piece to `out`.
fn write_bindings(out: &mut Vec<u8>, params: &SpellParams)
    ensures
        final(out)@ == old(out)@ + bindings_bytes(params@),
{
    let count = params.len();
    let mut i: usize = 0;
    assert(params@.take(0) =~= Seq::empty());
    while i < count
        invariant
            i <= count,
            count == params@.len(),
            out@ == old(out)@ + bindings_bytes(params@.take(i as int)),
        decreases count - i,
    {
        let key = params.key_at(i);
        let side = params.side_at(i);
        let ghost before = out@;
        match index_of(key) {
            Some(index) => {
                out.push(index);
            },
            None => {
                out.push(KEY_CUSTOM);
                append(out, key.as_bytes());
                out.push(NUL);
            },
        }
        out.push(side);
        proof {
            let done = params@.take(i as int + 1);
            assert(done.drop_last() =~= params@.take(i as int));
            assert(done.last() == params@[i as int]);
            assert(out@ =~= before + binding_bytes(params@[i as int]));
            assert(out@ =~= old(out)@ + bindings_bytes(done));
        }
        i += 1;
    }
    assert(params@.take(count as int) =~= params@);
}

/// Appends one piece to `out`.
fn write_piece(out: &mut Vec<u8>, piece: &Piece)
    ensures
        final(out)@ == old(out)@ + piece_bytes(piece@),
{
    let data = &piece.data;
    out.push(piece.x << 4 | (piece.y & 0b1111));
    append(out, strip_psi(data.key.as_str().as_bytes()));
    out.push(NUL);
    match &data.comment {
        Some(comment) => {
            append(out, comment.as_str().as_bytes());
        },
        None => {},
    }
    out.push(NUL);
    let ghost head = out@;
    assert(head =~= old(out)@ + (seq![packed_position(piece.x, piece.y)] + wire_key(
        piece@.data.key,
    ).push(NUL) + comment_bytes(piece@.data.comment).push(NUL)));
    match &data.params {
        Some(params) => {
            out.push((params.len() % 256) as u8);
            write_bindings(out, params);
        },
        None => match &data.constant {
            Some(constant) => {
                out.push(PAYLOAD_CONSTANT);
                append(out, constant.as_str().as_bytes());
                out.push(NUL);
            },
            None => {
                out.push(PAYLOAD_BARE);
            },
        },
    }
    assert(out@ =~= head + payload_bytes(piece@.data));
    assert(out@ =~= old(out)@ + piece_bytes(piece@));
}

impl Spell {
    /// Writes the spell in the wire format: the name and its terminator, the
    /// mod requirements, then the pieces in order. The last byte written
    /// before the pieces becomes the list terminator, whatever it was. No
    /// field is checked for delimiter bytes.
    pub fn bin(&self) -> (out: Vec<u8>)
        ensures
            out@ == spell_bytes(self@),
    {
        let mut out: Vec<u8> = Vec::new();
        append(&mut out, self.name.as_str().as_bytes());
        out.push(NUL);
        let mut i: usize = 0;
        assert(self@.mods.take(0) =~= Seq::empty());
        assert(out@ =~= terminated(self@.name) + mods_bytes(self@.mods.take(0)));
        while i < self.mods.len()
            invariant
                i <= self.mods@.len(),
                out@ == terminated(self@.name) + mods_bytes(self@.mods.take(i as int)),
            decreases self.mods@.len() - i,
        {
            write_mod(&mut out, &self.mods[i]);
            proof {
                let done = self@.mods.take(i as int + 1);
                assert(done.drop_last() =~= self@.mods.take(i as int));
                assert(done.last() == self.mods@[i as int]@);
                assert(out@ =~= terminated(self@.name) + mods_bytes(done));
            }
            i += 1;
        }
        assert(self@.mods.take(self.mods@.len() as int) =~= self@.mods);
        let last = out.len() - 1;
        out[last] = LIST_END;
        assert(out@ =~= header_bytes(self@.name, self@.mods));
        let mut j: usize = 0;
        assert(self@.pieces.take(0) =~= Seq::empty());
        assert(out@ =~= header_bytes(self@.name, self@.mods) + pieces_bytes(self@.pieces.take(0)));
        while j < self.pieces.len()
            invariant
                j <= self.pieces@.len(),
                out@ == header_bytes(self@.name, self@.mods) + pieces_bytes(
                    self@.pieces.take(j as int),
                ),
            decreases self.pieces@.len() - j,
        {
            write_piece(&mut out, &self.pieces[j]);
            proof {
                let done = self@.pieces.take(j as int + 1);
                assert(done.drop_last() =~= self@.pieces.take(j as int));
                assert(done.last() == self.pieces@[j as int]@);
                assert(out@ =~= header_bytes(self@.name, self@.mods) + pieces_bytes(done));
            }
            j += 1;
        }
        assert(self@.pieces.take(self.pieces@.len() as int) =~= self@.pieces);
        out
    }
}

/// The spell in the wire format; the same as [`Spell::bin`].
pub fn encode_spell_to_bytes(spell: &Spell) -> (out: Vec<u8>)
    ensures
        out@ == spell_bytes(spell@),
{
    spell.bin()
}

} // verus!
