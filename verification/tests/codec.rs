use spell_codec::{
    decode_spell_from_bytes, encode_spell_to_bytes, DecodeError, Mod, Piece, Spell, SpellData,
    SpellParams,
};

fn one_mod() -> Vec<Mod> {
    vec![Mod { name: "psi".to_string(), version: "1.0".to_string() }]
}

fn bare(key: &str, x: u8, y: u8) -> Piece {
    Piece {
        x,
        y,
        data: SpellData { key: key.to_string(), params: None, constant: None, comment: None },
    }
}

fn spell_of(pieces: Vec<Piece>) -> Spell {
    Spell { name: "S".to_string(), mods: one_mod(), pieces }
}

fn fireball() -> Spell {
    Spell {
        name: "Fireball".to_string(),
        mods: one_mod(),
        pieces: vec![Piece {
            x: 2,
            y: 3,
            data: SpellData {
                key: "psi:number_constant".to_string(),
                params: None,
                constant: Some("5".to_string()),
                comment: None,
            },
        }],
    }
}

fn bytes_of(parts: &[&[u8]]) -> Vec<u8> {
    let mut out = Vec::new();
    for part in parts {
        out.extend_from_slice(part);
    }
    out
}

#[test]
fn end_to_end_fireball() {
    let spell = fireball();
    let first = spell.bin();
    let expected =
        bytes_of(&[b"Fireball\0psi,1.0]", &[0x23], b"number_constant\0\0", &[255], b"5\0"]);
    assert_eq!(first, expected);
    let decoded = Spell::decode(&first).unwrap();
    assert_eq!(decoded, spell);
    let second = decoded.bin();
    assert_eq!(first, second);
    assert_eq!(encode_spell_to_bytes(&spell), first);
    assert_eq!(decode_spell_from_bytes(first).unwrap(), spell);
}

#[test]
fn round_trip_with_params_and_comment() {
    let mut params = SpellParams::new();
    params.insert("_target".to_string(), 3);
    params.insert("_custom_thing".to_string(), 7);
    let spell = Spell {
        name: "S".to_string(),
        mods: vec![
            Mod { name: "a".to_string(), version: "1".to_string() },
            Mod { name: "b".to_string(), version: "2".to_string() },
        ],
        pieces: vec![
            Piece {
                x: 1,
                y: 2,
                data: SpellData {
                    key: "psi:trick_debug".to_string(),
                    params: Some(params),
                    constant: None,
                    comment: Some("hey".to_string()),
                },
            },
            bare("other:thing", 15, 0),
        ],
    };
    let bytes = spell.bin();
    let expected = bytes_of(&[
        b"S\0a,1;b,2]",
        &[0x12],
        b"trick_debug\0hey\0",
        &[2, 0, 3, 255],
        b"_custom_thing\0",
        &[7],
        &[0xF0],
        b"other:thing\0\0",
        &[254],
    ]);
    assert_eq!(bytes, expected);
    assert_eq!(Spell::decode(&bytes).unwrap(), spell);
}

#[test]
fn coordinates_wrap_at_sixteen() {
    let bytes = spell_of(vec![bare("psi:foo", 16, 16)]).bin();
    assert_eq!(bytes, bytes_of(&[b"S\0psi,1.0]", &[0], b"foo\0\0", &[254]]));
    let decoded = Spell::decode(&bytes).unwrap();
    assert_eq!(decoded.pieces[0].x, 0);
    assert_eq!(decoded.pieces[0].y, 0);

    let bytes = spell_of(vec![bare("psi:foo", 18, 0x35), bare("psi:foo", 255, 255)]).bin();
    let decoded = Spell::decode(&bytes).unwrap();
    assert_eq!((decoded.pieces[0].x, decoded.pieces[0].y), (2, 5));
    assert_eq!((decoded.pieces[1].x, decoded.pieces[1].y), (15, 15));
}

#[test]
fn psi_namespace_is_stripped_and_restored() {
    let spell = spell_of(vec![bare("psi:foo", 0, 0), bare("bar:baz", 0, 1)]);
    let bytes = spell.bin();
    assert_eq!(
        bytes,
        bytes_of(&[b"S\0psi,1.0]", &[0], b"foo\0\0", &[254], &[1], b"bar:baz\0\0", &[254]])
    );
    let decoded = Spell::decode(&bytes).unwrap();
    assert_eq!(decoded.pieces[0].data.key, "psi:foo");
    assert_eq!(decoded.pieces[1].data.key, "bar:baz");
    assert_eq!(decoded, spell);
}

#[test]
fn key_without_namespace_comes_back_in_psi() {
    let bytes = spell_of(vec![bare("foo", 0, 0)]).bin();
    assert_eq!(bytes, bytes_of(&[b"S\0psi,1.0]", &[0], b"foo\0\0", &[254]]));
    assert_eq!(Spell::decode(&bytes).unwrap().pieces[0].data.key, "psi:foo");
}

#[test]
fn short_and_odd_keys() {
    let spell = spell_of(vec![bare("ab", 0, 0), bare("psi:", 0, 0), bare("psi:a:b", 0, 0)]);
    let bytes = spell.bin();
    assert_eq!(
        bytes,
        bytes_of(&[
            b"S\0psi,1.0]",
            &[0],
            b"ab\0\0",
            &[254],
            &[0],
            b"\0\0",
            &[254],
            &[0],
            b"a:b\0\0",
            &[254]
        ])
    );
    let decoded = Spell::decode(&bytes).unwrap();
    assert_eq!(decoded.pieces[0].data.key, "psi:ab");
    assert_eq!(decoded.pieces[1].data.key, "psi:");
    assert_eq!(decoded.pieces[2].data.key, "a:b");
}

#[test]
fn dictionary_key_is_one_byte_and_custom_key_is_written_out() {
    let mut builtin = SpellParams::new();
    builtin.insert("_radius".to_string(), 9);
    let mut custom = SpellParams::new();
    custom.insert("_custom_thing".to_string(), 4);
    let mut first = bare("psi:a", 0, 0);
    first.data.params = Some(builtin);
    let mut second = bare("psi:b", 0, 0);
    second.data.params = Some(custom);
    let spell = spell_of(vec![first, second]);
    let bytes = spell.bin();
    assert_eq!(
        bytes,
        bytes_of(&[
            b"S\0psi,1.0]",
            &[0],
            b"a\0\0",
            &[1, 17, 9],
            &[0],
            b"b\0\0",
            &[1, 255],
            b"_custom_thing\0",
            &[4]
        ])
    );
    let decoded = Spell::decode(&bytes).unwrap();
    let read = decoded.pieces[0].data.params.as_ref().unwrap();
    assert_eq!(read.len(), 1);
    assert_eq!(read.key_at(0), "_radius");
    assert_eq!(read.get("_radius"), Some(9));
    let read = decoded.pieces[1].data.params.as_ref().unwrap();
    assert_eq!(read.key_at(0), "_custom_thing");
    assert_eq!(read.get("_custom_thing"), Some(4));
    assert_eq!(decoded, spell);
}

#[test]
fn params_and_constant_exclude_each_other() {
    let mut params = SpellParams::new();
    params.insert("_number".to_string(), 1);
    let mut with_params = bare("psi:a", 0, 0);
    with_params.data.params = Some(params);
    let mut with_constant = bare("psi:b", 0, 0);
    with_constant.data.constant = Some("12".to_string());
    let spell = spell_of(vec![with_params, with_constant, bare("psi:c", 0, 0)]);
    let decoded = Spell::decode(&spell.bin()).unwrap();
    assert!(decoded.pieces[0].data.params.is_some());
    assert!(decoded.pieces[0].data.constant.is_none());
    assert!(decoded.pieces[1].data.params.is_none());
    assert_eq!(decoded.pieces[1].data.constant, Some("12".to_string()));
    assert!(decoded.pieces[2].data.params.is_none());
    assert!(decoded.pieces[2].data.constant.is_none());
    assert_eq!(decoded, spell);
}

#[test]
fn params_win_over_constant_when_both_are_set() {
    let mut params = SpellParams::new();
    params.insert("_x".to_string(), 2);
    let mut piece = bare("psi:a", 0, 0);
    piece.data.params = Some(params);
    piece.data.constant = Some("lost".to_string());
    let bytes = spell_of(vec![piece]).bin();
    assert_eq!(bytes, bytes_of(&[b"S\0psi,1.0]", &[0], b"a\0\0", &[1, 14, 2]]));
    let decoded = Spell::decode(&bytes).unwrap();
    assert!(decoded.pieces[0].data.constant.is_none());
}

#[test]
fn empty_comment_and_empty_params_come_back_absent() {
    let mut piece = bare("psi:a", 0, 0);
    piece.data.comment = Some(String::new());
    piece.data.params = Some(SpellParams::new());
    let bytes = spell_of(vec![piece]).bin();
    assert_eq!(bytes, bytes_of(&[b"S\0psi,1.0]", &[0], b"a\0\0", &[0]]));
    let decoded = Spell::decode(&bytes).unwrap();
    assert_eq!(decoded.pieces[0].data.comment, None);
    assert_eq!(decoded.pieces[0].data.params, None);
    assert_eq!(decoded, spell_of(vec![bare("psi:a", 0, 0)]));
}

#[test]
fn parameter_count_is_written_modulo_256() {
    let mut params = SpellParams::new();
    let mut expected = bytes_of(&[b"S\0psi,1.0]", &[0], b"a\0\0", &[44]]);
    for i in 0..300u32 {
        let key = format!("k{}", i);
        expected.push(255);
        expected.extend_from_slice(key.as_bytes());
        expected.push(0);
        expected.push((i % 7) as u8);
        params.insert(key, (i % 7) as u8);
    }
    let mut piece = bare("psi:a", 0, 0);
    piece.data.params = Some(params);
    assert_eq!(spell_of(vec![piece]).bin(), expected);
}

#[test]
fn no_mods_overwrites_the_name_terminator() {
    let spell = Spell { name: "ab".to_string(), mods: vec![], pieces: vec![] };
    assert_eq!(spell.bin(), b"ab]".to_vec());
    assert_eq!(Spell::decode(b"ab]"), Err(DecodeError::MissingTerminator { at: 0 }));
}

#[test]
fn text_is_written_as_utf8() {
    let spell = Spell {
        name: "F\u{e9}".to_string(),
        mods: one_mod(),
        pieces: vec![Piece {
            x: 0,
            y: 0,
            data: SpellData {
                key: "psi:\u{4e2d}".to_string(),
                params: None,
                constant: Some("\u{1f525}".to_string()),
                comment: Some("\u{df}".to_string()),
            },
        }],
    };
    let bytes = spell.bin();
    assert_eq!(
        bytes,
        bytes_of(&[
            &[0x46, 0xc3, 0xa9, 0],
            b"psi,1.0]",
            &[0],
            &[0xe4, 0xb8, 0xad, 0],
            &[0xc3, 0x9f, 0],
            &[255, 0xf0, 0x9f, 0x94, 0xa5, 0]
        ])
    );
    assert_eq!(Spell::decode(&bytes).unwrap(), spell);
}

#[test]
fn decode_reads_mod_segments() {
    let read = Spell::decode(b"n\0abc;d,1]").unwrap();
    assert_eq!(
        read.mods,
        vec![
            Mod { name: "abc".to_string(), version: String::new() },
            Mod { name: "d".to_string(), version: "1".to_string() }
        ]
    );
    assert_eq!(read.name, "n");
    assert!(read.pieces.is_empty());

    let read = Spell::decode(b"n\0a,1;]").unwrap();
    assert_eq!(
        read.mods,
        vec![
            Mod { name: "a".to_string(), version: "1".to_string() },
            Mod { name: String::new(), version: String::new() }
        ]
    );

    let read = Spell::decode(b"n\0]").unwrap();
    assert_eq!(read.mods, vec![Mod { name: String::new(), version: String::new() }]);

    let read = Spell::decode(b"n\0a,b,c]").unwrap();
    assert_eq!(read.mods, vec![Mod { name: "a".to_string(), version: "b,c".to_string() }]);
}

#[test]
fn decode_binds_a_repeated_key_once() {
    let bytes = bytes_of(&[b"n\0m,1]", &[0], b"k:x\0\0", &[3, 0, 1, 1, 2, 0, 5]]);
    let read = Spell::decode(&bytes).unwrap();
    let params = read.pieces[0].data.params.as_ref().unwrap();
    assert_eq!(params.len(), 2);
    assert_eq!(params.key_at(0), "_target");
    assert_eq!(params.side_at(0), 5);
    assert_eq!(params.key_at(1), "_number");
    assert_eq!(params.side_at(1), 2);
}

#[test]
fn decode_reports_a_missing_terminator() {
    assert_eq!(Spell::decode(b""), Err(DecodeError::MissingTerminator { at: 0 }));
    assert_eq!(Spell::decode(b"abc"), Err(DecodeError::MissingTerminator { at: 0 }));
    assert_eq!(Spell::decode(b"abc\0m,1"), Err(DecodeError::MissingTerminator { at: 4 }));
    let head = bytes_of(&[b"n\0m,1]", &[0]]);
    assert_eq!(Spell::decode(&head), Err(DecodeError::MissingTerminator { at: 7 }));
    let bytes = bytes_of(&[&head, b"k"]);
    assert_eq!(Spell::decode(&bytes), Err(DecodeError::MissingTerminator { at: 7 }));
    let bytes = bytes_of(&[&head, b"k\0"]);
    assert_eq!(Spell::decode(&bytes), Err(DecodeError::MissingTerminator { at: 9 }));
    let bytes = bytes_of(&[&head, b"k\0\0", &[255], b"c"]);
    assert_eq!(Spell::decode(&bytes), Err(DecodeError::MissingTerminator { at: 11 }));
    let bytes = bytes_of(&[&head, b"k\0\0", &[1, 255], b"key"]);
    assert_eq!(Spell::decode(&bytes), Err(DecodeError::MissingTerminator { at: 12 }));
}

#[test]
fn decode_reports_an_unexpected_end() {
    let head = bytes_of(&[b"n\0m,1]", &[0], b"k\0\0"]);
    assert_eq!(Spell::decode(&head), Err(DecodeError::UnexpectedEnd { at: 10 }));
    let bytes = bytes_of(&[&head, &[1]]);
    assert_eq!(Spell::decode(&bytes), Err(DecodeError::UnexpectedEnd { at: 11 }));
    let bytes = bytes_of(&[&head, &[1, 0]]);
    assert_eq!(Spell::decode(&bytes), Err(DecodeError::UnexpectedEnd { at: 12 }));
    let bytes = bytes_of(&[&head, &[2, 0, 9]]);
    assert_eq!(Spell::decode(&bytes), Err(DecodeError::UnexpectedEnd { at: 13 }));
    let bytes = bytes_of(&[&head, &[1, 255], b"key\0"]);
    assert_eq!(Spell::decode(&bytes), Err(DecodeError::UnexpectedEnd { at: 16 }));
}

#[test]
fn decode_reports_an_index_past_the_dictionary() {
    let head = bytes_of(&[b"n\0m,1]", &[0], b"k\0\0"]);
    let bytes = bytes_of(&[&head, &[1, 43, 0]]);
    assert_eq!(Spell::decode(&bytes), Err(DecodeError::UnknownParameter { at: 11, index: 43 }));
    let bytes = bytes_of(&[&head, &[1, 254]]);
    assert_eq!(Spell::decode(&bytes), Err(DecodeError::UnknownParameter { at: 11, index: 254 }));
    let bytes = bytes_of(&[&head, &[2, 42, 1, 100, 1]]);
    assert_eq!(Spell::decode(&bytes), Err(DecodeError::UnknownParameter { at: 13, index: 100 }));
    let bytes = bytes_of(&[&head, &[1, 42, 1]]);
    let read = Spell::decode(&bytes).unwrap();
    assert_eq!(read.pieces[0].data.params.as_ref().unwrap().get("_ray_start"), Some(1));
}

#[test]
fn decode_reports_invalid_text() {
    assert_eq!(Spell::decode(&[0xff, 0, b']']), Err(DecodeError::InvalidText { at: 0 }));
    let bytes = bytes_of(&[b"n\0", &[0xff], b",1]"]);
    assert_eq!(Spell::decode(&bytes), Err(DecodeError::InvalidText { at: 2 }));
    let bytes = bytes_of(&[b"n\0m,", &[0xc3], b"]"]);
    assert_eq!(Spell::decode(&bytes), Err(DecodeError::InvalidText { at: 4 }));
    let head = bytes_of(&[b"n\0m,1]", &[0]]);
    let bytes = bytes_of(&[&head, &[0xff, 0, 0, 254]]);
    assert_eq!(Spell::decode(&bytes), Err(DecodeError::InvalidText { at: 7 }));
    let bytes = bytes_of(&[&head, b"k\0", &[0xed, 0xa0, 0x80, 0, 254]]);
    assert_eq!(Spell::decode(&bytes), Err(DecodeError::InvalidText { at: 9 }));
    let bytes = bytes_of(&[&head, b"k\0\0", &[255, 0xc0, 0x80, 0]]);
    assert_eq!(Spell::decode(&bytes), Err(DecodeError::InvalidText { at: 11 }));
    let bytes = bytes_of(&[&head, b"k\0\0", &[1, 255, 0x80, 0, 1]]);
    assert_eq!(Spell::decode(&bytes), Err(DecodeError::InvalidText { at: 12 }));
}

#[test]
fn decode_reports_the_first_fault() {
    // The name is invalid text and the list terminator is missing: the name is read first.
    assert_eq!(Spell::decode(&[0xff, 0, b'm']), Err(DecodeError::InvalidText { at: 0 }));
    // The list terminator is looked for before any mod requirement is read.
    assert_eq!(
        Spell::decode(&[b'n', 0, 0xff, b',']),
        Err(DecodeError::MissingTerminator { at: 2 })
    );
}

#[test]
fn decode_reads_pieces_to_the_end() {
    let bytes = bytes_of(&[
        b"n\0m,1]",
        &[0x11],
        b"a\0x\0",
        &[254],
        &[0x22],
        b"b:c\0\0",
        &[255],
        b"v\0",
        &[0x33],
        b"d\0\0",
        &[0],
    ]);
    let read = Spell::decode(&bytes).unwrap();
    assert_eq!(read.pieces.len(), 3);
    assert_eq!(
        read.pieces[0],
        Piece {
            x: 1,
            y: 1,
            data: SpellData {
                key: "psi:a".to_string(),
                params: None,
                constant: None,
                comment: Some("x".to_string())
            }
        }
    );
    assert_eq!(
        read.pieces[1],
        Piece {
            x: 2,
            y: 2,
            data: SpellData {
                key: "b:c".to_string(),
                params: None,
                constant: Some("v".to_string()),
                comment: None
            }
        }
    );
    assert_eq!(read.pieces[2], bare("psi:d", 3, 3));
}

#[test]
fn decoded_params_equal_the_same_bindings_in_another_order() {
    let bytes = bytes_of(&[b"S\0psi,1.0]", &[0], b"a\0\0", &[2, 1, 8, 0, 9]]);
    let read = Spell::decode(&bytes).unwrap();
    let mut params = SpellParams::new();
    params.insert("_target".to_string(), 9);
    params.insert("_number".to_string(), 8);
    let mut piece = bare("psi:a", 0, 0);
    piece.data.params = Some(params);
    assert_eq!(read, spell_of(vec![piece]));
    // Writing keeps the order in which the keys were bound.
    assert_eq!(read.bin(), bytes);
}
