//! Reading a spell from the wire format.
use crate::dictionary::{name_at, BUILTIN_COUNT};
use crate::format::{
    find_byte, parse_binding, parse_bindings, parse_key, parse_mods, parse_payload, parse_piece,
    parse_pieces, parse_spell, parse_terminated, parse_text, psi_prefix, DecodeError,
    PayloadView, COLON, COMMA, KEY_CUSTOM, LIST_END, NUL, PAYLOAD_BARE, PAYLOAD_CONSTANT,
    SEMICOLON,
};
use crate::params::{BindingView, SpellParams};
use crate::shape::{lemma_read_spell_shape, read_spell_shape};
use crate::spell::{
    mods_view, params_view, pieces_view, text_view, Mod, ModView, Piece, PieceView, Spell,
    SpellData, SpellView,
};
use vstd::prelude::*;
use vstd::slice::{slice_subrange, slice_to_vec};
use vstd::utf8::*;

verus! {

/// The error of `String::from_utf8`; nothing is read from it.
#[verifier::external_type_specification]
#[verifier::external_body]
pub struct ExFromUtf8Error(std::string::FromUtf8Error);

/// `String::from_utf8` succeeds exactly on valid UTF-8, and the string it
/// returns has the given bytes as its encoding.
pub assume_specification[ String::from_utf8 ](vec: Vec<u8>) -> (text: Result<
    String,
    std::string::FromUtf8Error,
>)
    ensures
        text is Ok == valid_utf8(vec@),
        text matches Ok(t) ==> encode_utf8(t@) == vec@,
;

/// The model of a text that was read, or the error.
spec fn read_text_view(r: Result<String, DecodeError>) -> Result<Seq<char>, DecodeError> {
    match r {
        Ok(t) => Ok(t@),
        Err(e) => Err(e),
    }
}

/// The model of a text that was read with the position after it, or the error.
spec fn read_terminated_view(r: Result<(String, usize), DecodeError>) -> Result<
    (Seq<char>, int),
    DecodeError,
> {
    match r {
        Ok((t, next)) => Ok((t@, next as int)),
        Err(e) => Err(e),
    }
}

/// The first position in `from..to` at which `data` holds `byte`, or `to`.
fn find(data: &[u8], from: usize, to: usize, byte: u8) -> (at: usize)
    requires
        from <= to <= data@.len(),
    ensures
        at == find_byte(data@, from as int, to as int, byte),
        from <= at <= to,
        at < to ==> data@[at as int] == byte,
{
    let mut at: usize = from;
    while at < to
        invariant
            from <= at <= to <= data@.len(),
            find_byte(data@, from as int, to as int, byte) == find_byte(
                data@,
                at as int,
                to as int,
                byte,
            ),
        decreases to - at,
    {
        if data[at] == byte {
            return at;
        }
        at += 1;
    }
    at
}

/// The text with the given bytes, or the error that names `at` as the start of
/// the field.
fn text_of(bytes: Vec<u8>, at: usize) -> (r: Result<String, DecodeError>)
    ensures
        read_text_view(r) == if valid_utf8(bytes@) {
            Ok::<Seq<char>, DecodeError>(decode_utf8(bytes@))
        } else {
            Err(DecodeError::InvalidText { at })
        },
{
    match String::from_utf8(bytes) {
        Ok(text) => {
            proof {
                encode_utf8_decode_utf8(text@);
            }
            Ok(text)
        },
        Err(_) => Err(DecodeError::InvalidText { at }),
    }
}

/// Reads the text in `from..to`.
fn read_text(data: &[u8], from: usize, to: usize) -> (r: Result<String, DecodeError>)
    requires
        from <= to <= data@.len(),
    ensures
        read_text_view(r) == parse_text(data@, from as int, to as int),
{
    text_of(slice_to_vec(slice_subrange(data, from, to)), from)
}

/// Reads a NUL-terminated text that starts at `pos`.
fn read_terminated(data: &[u8], pos: usize) -> (r: Result<(String, usize), DecodeError>)
    requires
        pos <= data@.len(),
    ensures
        read_terminated_view(r) == parse_terminated(data@, pos as int),
        r matches Ok((_, next)) ==> pos < next <= data@.len(),
{
    let end = find(data, pos, data.len(), NUL);
    if end >= data.len() {
        return Err(DecodeError::MissingTerminator { at: pos });
    }
    match read_text(data, pos, end) {
        Ok(text) => Ok((text, end + 1)),
        Err(e) => Err(e),
    }
}

/// The models of mod requirements that were read, or the error.
spec fn read_mods_view(r: Result<Vec<Mod>, DecodeError>) -> Result<
    Seq<ModView>,
    DecodeError,
> {
    match r {
        Ok(mods) => Ok(mods_view(mods@)),
        Err(e) => Err(e),
    }
}

/// `done` in front of what is still to come.
spec fn mods_after(done: Seq<ModView>, rest: Result<Seq<ModView>, DecodeError>) -> Result<
    Seq<ModView>,
    DecodeError,
> {
    match rest {
        Ok(more) => Ok(done + more),
        Err(e) => Err(e),
    }
}

/// Reads the mod requirements in `from..to`.
fn read_mods(data: &[u8], from: usize, to: usize) -> (r: Result<Vec<Mod>, DecodeError>)
    requires
        from <= to < data@.len(),
    ensures
        read_mods_view(r) == parse_mods(data@, from as int, to as int),
{
    let mut mods: Vec<Mod> = Vec::new();
    let mut at: usize = from;
    proof {
        let rest = parse_mods(data@, at as int, to as int);
        if rest is Ok {
            assert(mods_view(mods@) + rest.unwrap() =~= rest.unwrap());
        }
    }
    loop
        invariant
            from <= at <= to < data@.len(),
            parse_mods(data@, from as int, to as int) == mods_after(
                mods_view(mods@),
                parse_mods(data@, at as int, to as int),
            ),
        decreases to - at,
    {
        let semi = find(data, at, to, SEMICOLON);
        let comma = find(data, at, semi, COMMA);
        let version_from = if comma < semi {
            comma + 1
        } else {
            semi
        };
        let name = match read_text(data, at, comma) {
            Ok(name) => name,
            Err(e) => {
                return Err(e);
            },
        };
        let version = match read_text(data, version_from, semi) {
            Ok(version) => version,
            Err(e) => {
                return Err(e);
            },
        };
        let ghost done = mods_view(mods@);
        let ghost first = ModView { name: name@, version: version@ };
        mods.push(Mod { name, version });
        assert(mods_view(mods@) =~= done.push(first));
        if semi >= to {
            assert(done + seq![first] =~= done.push(first));
            return Ok(mods);
        }
        proof {
            let rest = parse_mods(data@, semi as int + 1, to as int);
            if rest is Ok {
                assert(done + (seq![first] + rest.unwrap()) =~= done.push(first) + rest.unwrap());
            }
        }
        at = semi + 1;
    }
}

/// Reads a key that starts at `pos`.
fn read_key(data: &[u8], pos: usize) -> (r: Result<(String, usize), DecodeError>)
    requires
        pos <= data@.len(),
    ensures
        read_terminated_view(r) == parse_key(data@, pos as int),
        r matches Ok((_, next)) ==> pos < next <= data@.len(),
{
    let end = find(data, pos, data.len(), NUL);
    if end >= data.len() {
        return Err(DecodeError::MissingTerminator { at: pos });
    }
    let written = slice_subrange(data, pos, end);
    let bytes = if find(data, pos, end, COLON) < end {
        slice_to_vec(written)
    } else {
        let mut bytes: Vec<u8> = Vec::new();
        bytes.push(112);
        bytes.push(115);
        bytes.push(105);
        bytes.push(58);
        bytes.extend_from_slice(written);
        assert(bytes@ =~= psi_prefix() + written@);
        bytes
    };
    match text_of(bytes, pos) {
        Ok(key) => Ok((key, end + 1)),
        Err(e) => Err(e),
    }
}

/// The model of a binding that was read with the position after it, or the
/// error.
spec fn read_binding_view(r: Result<(String, u8, usize), DecodeError>) -> Result<
    (BindingView, int),
    DecodeError,
> {
    match r {
        Ok((key, side, next)) => Ok(((key@, side), next as int)),
        Err(e) => Err(e),
    }
}

/// Reads one parameter binding that starts at `pos`.
fn read_binding(data: &[u8], pos: usize) -> (r: Result<(String, u8, usize), DecodeError>)
    requires
        pos <= data@.len(),
    ensures
        read_binding_view(r) == parse_binding(data@, pos as int),
        r matches Ok((_, _, next)) ==> pos < next <= data@.len(),
{
    if pos >= data.len() {
        return Err(DecodeError::UnexpectedEnd { at: pos });
    }
    let tag = data[pos];
    let (key, side_at) = if tag == KEY_CUSTOM {
        match read_terminated(data, pos + 1) {
            Ok(found) => found,
            Err(e) => {
                return Err(e);
            },
        }
    } else if tag < BUILTIN_COUNT {
        (name_at(tag).to_owned(), pos + 1)
    } else {
        return Err(DecodeError::UnknownParameter { at: pos, index: tag });
    };
    if side_at >= data.len() {
        return Err(DecodeError::UnexpectedEnd { at: side_at });
    }
    Ok((key, data[side_at], side_at + 1))
}

/// The model of bindings that were read with the position after them, or the
/// error.
spec fn read_bindings_view(r: Result<(SpellParams, usize), DecodeError>) -> Result<
    (Seq<BindingView>, int),
    DecodeError,
> {
    match r {
        Ok((params, next)) => Ok((params@, next as int)),
        Err(e) => Err(e),
    }
}

/// Reads `count` parameter bindings that start at `pos`.
fn read_bindings(data: &[u8], pos: usize, count: u8) -> (r: Result<
    (SpellParams, usize),
    DecodeError,
>)
    requires
        pos <= data@.len(),
    ensures
        read_bindings_view(r) == parse_bindings(
            data@,
            pos as int,
            count as nat,
            Seq::<BindingView>::empty(),
        ),
        r matches Ok((_, next)) ==> pos <= next <= data@.len(),
{
    let mut params = SpellParams::new();
    let mut at: usize = pos;
    let mut left: u8 = count;
    while left > 0
        invariant
            pos <= at <= data@.len(),
            parse_bindings(data@, pos as int, count as nat, Seq::<BindingView>::empty())
                == parse_bindings(data@, at as int, left as nat, params@),
        decreases left,
    {
        match read_binding(data, at) {
            Ok((key, side, next)) => {
                params.insert(key, side);
                at = next;
            },
            Err(e) => {
                return Err(e);
            },
        }
        left -= 1;
    }
    Ok((params, at))
}

/// What was read as a payload: bindings, a constant, and the position after
/// it.
struct Payload {
    params: Option<SpellParams>,
    constant: Option<String>,
    next: usize,
}

impl View for Payload {
    type V = PayloadView;

    closed spec fn view(&self) -> PayloadView {
        PayloadView {
            params: params_view(self.params),
            constant: text_view(self.constant),
            next: self.next as int,
        }
    }
}

/// The model of a payload that was read, or the error.
spec fn read_payload_view(r: Result<Payload, DecodeError>) -> Result<
    PayloadView,
    DecodeError,
> {
    match r {
        Ok(payload) => Ok(payload@),
        Err(e) => Err(e),
    }
}

/// Reads the payload that starts at `pos`.
fn read_payload(data: &[u8], pos: usize) -> (r: Result<Payload, DecodeError>)
    requires
        pos <= data@.len(),
    ensures
        read_payload_view(r) == parse_payload(data@, pos as int),
        r matches Ok(payload) ==> pos < payload.next <= data@.len(),
{
    if pos >= data.len() {
        return Err(DecodeError::UnexpectedEnd { at: pos });
    }
    let kind = data[pos];
    if kind == PAYLOAD_CONSTANT {
        match read_terminated(data, pos + 1) {
            Ok((constant, next)) => Ok(Payload { params: None, constant: Some(constant), next }),
            Err(e) => Err(e),
        }
    } else if kind == PAYLOAD_BARE {
        Ok(Payload { params: None, constant: None, next: pos + 1 })
    } else {
        match read_bindings(data, pos + 1, kind) {
            Ok((params, next)) => {
                let params = if params.is_empty() {
                    None
                } else {
                    Some(params)
                };
                Ok(Payload { params, constant: None, next })
            },
            Err(e) => Err(e),
        }
    }
}

/// The model of a piece that was read with the position after it, or the
/// error.
spec fn read_piece_view(r: Result<(Piece, usize), DecodeError>) -> Result<
    (PieceView, int),
    DecodeError,
> {
    match r {
        Ok((piece, next)) => Ok((piece@, next as int)),
        Err(e) => Err(e),
    }
}

/// Reads the piece that starts at `pos`.
fn read_piece(data: &[u8], pos: usize) -> (r: Result<(Piece, usize), DecodeError>)
    requires
        pos < data@.len(),
    ensures
        read_piece_view(r) == parse_piece(data@, pos as int),
        r matches Ok((_, next)) ==> pos < next <= data@.len(),
{
    let packed = data[pos];
    let (key, comment_at) = match read_key(data, pos + 1) {
        Ok(found) => found,
        Err(e) => {
            return Err(e);
        },
    };
    let (comment, payload_at) = match read_terminated(data, comment_at) {
        Ok(found) => found,
        Err(e) => {
            return Err(e);
        },
    };
    let payload = match read_payload(data, payload_at) {
        Ok(found) => found,
        Err(e) => {
            return Err(e);
        },
    };
    let comment = if comment.as_str().is_empty() {
        None
    } else {
        Some(comment)
    };
    let next = payload.next;
    let data = SpellData { key, params: payload.params, constant: payload.constant, comment };
    Ok((Piece { data, x: packed >> 4, y: packed & 0b1111 }, next))
}

/// The model of a spell that was read, or the error.
pub open spec fn decoded_view(r: Result<Spell, DecodeError>) -> Result<SpellView, DecodeError> {
    match r {
        Ok(spell) => Ok(spell@),
        Err(e) => Err(e),
    }
}

/// `done` in front of what is still to come.
spec fn pieces_after(done: Seq<PieceView>, rest: Result<Seq<PieceView>, DecodeError>)
    -> Result<Seq<PieceView>, DecodeError> {
    match rest {
        Ok(more) => Ok(done + more),
        Err(e) => Err(e),
    }
}

impl Spell {
    /// Reads a spell from the wire format, strictly from left to right: the
    /// name up to the first NUL, the mod requirements up to the first list
    /// terminator, then one piece after another until the input ends. The
    /// first fault met ends the reading with its error.
    pub fn decode(data: &[u8]) -> (r: Result<Spell, DecodeError>)
        ensures
            decoded_view(r) == parse_spell(data@),
            r matches Ok(spell) ==> read_spell_shape(spell@),
    {
        proof {
            lemma_read_spell_shape(data@);
        }
        let (name, mods_at) = match read_terminated(data, 0) {
            Ok(found) => found,
            Err(e) => {
                return Err(e);
            },
        };
        let mods_end = find(data, mods_at, data.len(), LIST_END);
        if mods_end >= data.len() {
            return Err(DecodeError::MissingTerminator { at: mods_at });
        }
        let mods = match read_mods(data, mods_at, mods_end) {
            Ok(mods) => mods,
            Err(e) => {
                return Err(e);
            },
        };
        let mut pieces: Vec<Piece> = Vec::new();
        let mut pos: usize = mods_end + 1;
        let ghost start = pos as int;
        proof {
            let rest = parse_pieces(data@, start);
            if rest is Ok {
                assert(pieces_view(pieces@) + rest.unwrap() =~= rest.unwrap());
            }
        }
        while pos < data.len()
            invariant
                pos <= data@.len(),
                parse_spell(data@) == match parse_pieces(data@, start) {
                    Err(e) => Err(e),
                    Ok(all) => Ok(SpellView { mods: mods_view(mods@), pieces: all, name: name@ }),
                },
                parse_pieces(data@, start) == pieces_after(
                    pieces_view(pieces@),
                    parse_pieces(data@, pos as int),
                ),
            decreases data@.len() - pos,
        {
            let (piece, next) = match read_piece(data, pos) {
                Ok(found) => found,
                Err(e) => {
                    return Err(e);
                },
            };
            let ghost done = pieces_view(pieces@);
            let ghost first = piece@;
            pieces.push(piece);
            proof {
                assert(pieces_view(pieces@) =~= done.push(first));
                let rest = parse_pieces(data@, next as int);
                if rest is Ok {
                    assert(done + (seq![first] + rest.unwrap()) =~= done.push(first)
                        + rest.unwrap());
                }
            }
            pos = next;
        }
        assert(pieces_view(pieces@) + Seq::<PieceView>::empty() =~= pieces_view(pieces@));
        Ok(Spell { mods, pieces, name })
    }
}

/// Reads a spell from the wire format; the same as [`Spell::decode`].
pub fn decode_spell_from_bytes(bytes: Vec<u8>) -> (r: Result<Spell, DecodeError>)
    ensures
        decoded_view(r) == parse_spell(bytes@),
        r matches Ok(spell) ==> read_spell_shape(spell@),
{
    Spell::decode(bytes.as_slice())
}

} // verus!
