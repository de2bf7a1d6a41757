use spell_codec::{
    decode_spell, decode_url_safe_to_bytes, encode_bytes_to_url_safe, encode_spell,
    fits_url_safe, DecodeError, Mod, Piece, Spell, SpellData, SpellParams, SpellTextError,
    TransportError,
};

fn sample() -> Spell {
    let mut params = SpellParams::new();
    params.insert("_target".to_string(), 1);
    params.insert("_mine".to_string(), 2);
    Spell {
        name: "Fireball".to_string(),
        mods: vec![Mod { name: "psi".to_string(), version: "1.0".to_string() }],
        pieces: vec![
            Piece {
                x: 2,
                y: 3,
                data: SpellData {
                    key: "psi:number_constant".to_string(),
                    params: None,
                    constant: Some("5".to_string()),
                    comment: None,
                },
            },
            Piece {
                x: 4,
                y: 5,
                data: SpellData {
                    key: "psi:trick".to_string(),
                    params: Some(params),
                    constant: None,
                    comment: Some("c".to_string()),
                },
            },
        ],
    }
}

fn round_trip(bytes: Vec<u8>) {
    assert!(fits_url_safe(&bytes));
    let text = encode_bytes_to_url_safe(bytes.clone());
    assert!(text.starts_with("H4sIAAAAAAAE_"));
    assert_eq!(text.len() % 4, 0);
    assert!(text.bytes().all(|b| b.is_ascii_alphanumeric() || b == b'-' || b == b'_' || b == b'='));
    assert_eq!(decode_url_safe_to_bytes(text), Ok(bytes));
}

#[test]
fn transport_round_trip() {
    round_trip(Vec::new());
    round_trip(vec![0]);
    round_trip(b"hello world".to_vec());
    round_trip((0..=255u8).collect());
    round_trip(vec![7; 100_000]);
    let mut mixed = Vec::new();
    for i in 0..5000u32 {
        mixed.push((i.wrapping_mul(2654435761) >> 13) as u8);
    }
    round_trip(mixed);
}

#[test]
fn encoding_is_the_same_every_time() {
    let bytes = b"Fireball\0psi,1.0]".to_vec();
    assert_eq!(encode_bytes_to_url_safe(bytes.clone()), encode_bytes_to_url_safe(bytes));
}

#[test]
fn decode_reads_a_known_text() {
    assert_eq!(
        decode_url_safe_to_bytes("H4sIAAAAAAAA_wECAP3_aGmsKpPYAgAAAA==".to_string()),
        Ok(b"hi".to_vec())
    );
    assert_eq!(
        decode_url_safe_to_bytes("H4sIAAAAAAAA_wECAP3_AArh-wyhAgAAAA==".to_string()),
        Ok(vec![0, 10])
    );
    assert_eq!(
        decode_url_safe_to_bytes("H4sIAAAAAAAA_wEAAP__AAAAAAAAAAA=".to_string()),
        Ok(Vec::new())
    );
}

#[test]
fn decode_rejects_text_that_is_not_url_safe_base64() {
    assert_eq!(
        decode_url_safe_to_bytes("H4sIAAAAAAAA/wECAP3/aGmsKpPYAgAAAA==".to_string()),
        Err(TransportError::InvalidBase64)
    );
    assert_eq!(decode_url_safe_to_bytes("abc".to_string()), Err(TransportError::InvalidBase64));
    assert_eq!(decode_url_safe_to_bytes("ab!d".to_string()), Err(TransportError::InvalidBase64));
    assert_eq!(
        decode_url_safe_to_bytes("H4sIAAAAAAAA_wECAP3_aGmsKpPYAgAAAA".to_string()),
        Err(TransportError::InvalidBase64)
    );
}

#[test]
fn decode_rejects_a_corrupt_stream() {
    assert_eq!(
        decode_url_safe_to_bytes("bm90IGd6aXA=".to_string()),
        Err(TransportError::CorruptStream)
    );
    assert_eq!(
        decode_url_safe_to_bytes("H4sIAAAAAAAA_wECAP3_aGmsKpPYAg==".to_string()),
        Err(TransportError::CorruptStream)
    );
    assert_eq!(
        decode_url_safe_to_bytes("H4sIAAAAAAAA_wECAP3_aGmsKpPZAgAAAA==".to_string()),
        Err(TransportError::CorruptStream)
    );
    assert_eq!(decode_url_safe_to_bytes(String::new()), Err(TransportError::CorruptStream));
}

#[test]
fn spell_text_round_trip() {
    let spell = sample();
    let text = encode_spell(&spell).unwrap();
    assert_eq!(text, encode_bytes_to_url_safe(spell.bin()));
    assert_eq!(decode_url_safe_to_bytes(text.clone()), Ok(spell.bin()));
    assert_eq!(decode_spell(text), Ok(spell));
}

#[test]
fn decode_spell_reads_a_known_text() {
    let read =
        decode_spell("H4sIAAAAAAAA_wERAO7_RmlyZWJhbGwAcHNpLDEuMF03rYzXEQAAAA==".to_string()).unwrap();
    assert_eq!(
        read,
        Spell {
            name: "Fireball".to_string(),
            mods: vec![Mod { name: "psi".to_string(), version: "1.0".to_string() }],
            pieces: vec![],
        }
    );
}

#[test]
fn decode_spell_tells_transport_from_format() {
    assert_eq!(
        decode_spell("abc".to_string()),
        Err(SpellTextError::Transport(TransportError::InvalidBase64))
    );
    assert_eq!(
        decode_spell("bm90IGd6aXA=".to_string()),
        Err(SpellTextError::Transport(TransportError::CorruptStream))
    );
    assert_eq!(
        decode_spell("H4sIAAAAAAAA_wEAAP__AAAAAAAAAAA=".to_string()),
        Err(SpellTextError::Malformed(DecodeError::MissingTerminator { at: 0 }))
    );
    assert_eq!(
        decode_spell("H4sIAAAAAAAA_wECAP3_aGmsKpPYAgAAAA==".to_string()),
        Err(SpellTextError::Malformed(DecodeError::MissingTerminator { at: 0 }))
    );
}
