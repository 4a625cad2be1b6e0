use rapid_loan::base64_url::{decode, decode_char, DecodeError};
use soroban_sdk::testutils::EnvTestConfig;
use soroban_sdk::{Bytes, Env};

fn env() -> Env {
    Env::new_with_config(EnvTestConfig {
        capture_snapshot_at_drop: false,
    })
}

fn run(input: &[u8]) -> Result<Vec<u8>, DecodeError> {
    let env = env();
    let bytes = Bytes::from_slice(&env, input);
    decode(&env, &bytes).map(|out| out.to_alloc_vec())
}

const ALPHABET: &[u8] = b"ABCDEFGHIJKLMNOPQRSTUVWXYZabcdefghijklmnopqrstuvwxyz0123456789-_";

/// URL-safe base64 as the textbooks give it, three bytes to four characters.
fn encode(data: &[u8], pad: bool) -> Vec<u8> {
    let mut out = Vec::new();
    for chunk in data.chunks(3) {
        let b0 = chunk[0] as u32;
        let b1 = if chunk.len() > 1 { chunk[1] as u32 } else { 0 };
        let b2 = if chunk.len() > 2 { chunk[2] as u32 } else { 0 };
        let group = (b0 << 16) | (b1 << 8) | b2;
        out.push(ALPHABET[((group >> 18) & 63) as usize]);
        out.push(ALPHABET[((group >> 12) & 63) as usize]);
        if chunk.len() > 1 {
            out.push(ALPHABET[((group >> 6) & 63) as usize]);
        } else if pad {
            out.push(b'=');
        }
        if chunk.len() > 2 {
            out.push(ALPHABET[(group & 63) as usize]);
        } else if pad {
            out.push(b'=');
        }
    }
    out
}

#[test]
fn decode_of_nothing_is_nothing() {
    assert_eq!(run(b""), Ok(vec![]));
}

#[test]
fn decode_gives_the_bytes_of_a_known_text() {
    assert_eq!(run(b"aGVsbG8"), Ok(b"hello".to_vec()));
    assert_eq!(run(b"TWFu"), Ok(b"Man".to_vec()));
    assert_eq!(run(b"TWE"), Ok(b"Ma".to_vec()));
    assert_eq!(run(b"TQ"), Ok(b"M".to_vec()));
    assert_eq!(
        run(b"VGhlIHF1aWNrIGJyb3duIGZveA"),
        Ok(b"The quick brown fox".to_vec())
    );
}

#[test]
fn decode_sets_trailing_padding_aside() {
    assert_eq!(run(b"aGVsbG8="), Ok(b"hello".to_vec()));
    assert_eq!(run(b"TWE="), Ok(b"Ma".to_vec()));
    assert_eq!(run(b"TQ=="), Ok(b"M".to_vec()));
    assert_eq!(run(b"TWFu===="), Ok(b"Man".to_vec()));
    assert_eq!(run(b"===="), Ok(vec![]));
    assert_eq!(run(b"="), Ok(vec![]));
}

#[test]
fn decode_knows_the_two_url_safe_characters() {
    assert_eq!(run(b"-_8"), Ok(vec![0xFB, 0xFF]));
    assert_eq!(run(b"____"), Ok(vec![0xFF, 0xFF, 0xFF]));
    assert_eq!(run(b"----"), Ok(vec![0xFB, 0xEF, 0xBE]));
    assert_eq!(run(b"AAAA"), Ok(vec![0, 0, 0]));
}

#[test]
fn decode_drops_bits_that_fill_no_byte() {
    assert_eq!(run(b"A"), Ok(vec![]));
    assert_eq!(run(b"_"), Ok(vec![]));
    assert_eq!(run(b"QQ"), Ok(vec![0x41]));
    assert_eq!(run(b"QR"), Ok(vec![0x41]));
    assert_eq!(run(b"QUJ"), Ok(vec![0x41, 0x42]));
    assert_eq!(run(b"QUL"), Ok(vec![0x41, 0x42]));
    assert_eq!(run(b"TWFuT"), Ok(b"Man".to_vec()));
}

#[test]
fn decode_rejects_a_byte_outside_the_alphabet() {
    assert_eq!(run(b"aGVs$G8"), Err(DecodeError::InvalidCharacter));
    assert_eq!(run(b"$"), Err(DecodeError::InvalidCharacter));
    assert_eq!(run(b"aGVsbG8 "), Err(DecodeError::InvalidCharacter));
    assert_eq!(run(b" aGVsbG8"), Err(DecodeError::InvalidCharacter));
    assert_eq!(run(b"aGVs\nbG8"), Err(DecodeError::InvalidCharacter));
    assert_eq!(run(&[0x80]), Err(DecodeError::InvalidCharacter));
    assert_eq!(run(&[0x00]), Err(DecodeError::InvalidCharacter));
    assert_eq!(run(&[0xFF, b'A']), Err(DecodeError::InvalidCharacter));
}

#[test]
fn decode_rejects_the_characters_of_plain_base64() {
    assert_eq!(run(b"ab+c"), Err(DecodeError::InvalidCharacter));
    assert_eq!(run(b"ab/c"), Err(DecodeError::InvalidCharacter));
}

#[test]
fn decode_rejects_padding_that_is_not_at_the_end() {
    assert_eq!(run(b"TQ==TQ"), Err(DecodeError::InvalidCharacter));
    assert_eq!(run(b"=TQ"), Err(DecodeError::InvalidCharacter));
    assert_eq!(run(b"T=Q="), Err(DecodeError::InvalidCharacter));
}

#[test]
fn decode_rejects_a_bad_byte_even_when_it_completes_no_byte() {
    assert_eq!(run(b"TWFu*"), Err(DecodeError::InvalidCharacter));
    assert_eq!(run(b"*==="), Err(DecodeError::InvalidCharacter));
}

#[test]
fn decode_takes_back_what_encoding_did() {
    let mut samples: Vec<Vec<u8>> = vec![
        vec![],
        vec![0],
        vec![255],
        vec![0, 0],
        vec![255, 255],
        vec![1, 2, 3],
        vec![250, 251, 252, 253],
        b"any carnal pleasure".to_vec(),
    ];
    samples.push((0..=255u8).collect());
    samples.push((0..=255u8).rev().collect());
    for len in 0..40usize {
        samples.push((0..len).map(|i| (i * 37 + len * 11) as u8).collect());
    }
    for data in samples {
        assert_eq!(run(&encode(&data, false)), Ok(data.clone()));
        assert_eq!(run(&encode(&data, true)), Ok(data));
    }
}

#[test]
fn decode_leaves_its_input_as_it_was() {
    let env = env();
    let input = Bytes::from_slice(&env, b"aGVsbG8=");
    let first = decode(&env, &input).map(|out| out.to_alloc_vec());
    let second = decode(&env, &input).map(|out| out.to_alloc_vec());
    assert_eq!(first, second);
    assert_eq!(input.to_alloc_vec(), b"aGVsbG8=".to_vec());
}

#[test]
fn decode_char_gives_each_character_its_value() {
    for (value, byte) in ALPHABET.iter().enumerate() {
        assert_eq!(decode_char(*byte), Ok(value as u8));
    }
    assert_eq!(decode_char(b'A'), Ok(0));
    assert_eq!(decode_char(b'Z'), Ok(25));
    assert_eq!(decode_char(b'a'), Ok(26));
    assert_eq!(decode_char(b'z'), Ok(51));
    assert_eq!(decode_char(b'0'), Ok(52));
    assert_eq!(decode_char(b'9'), Ok(61));
    assert_eq!(decode_char(b'-'), Ok(62));
    assert_eq!(decode_char(b'_'), Ok(63));
}

#[test]
fn decode_char_rejects_every_other_byte() {
    let mut rejected = 0;
    for byte in 0..=255u8 {
        if !ALPHABET.contains(&byte) {
            assert_eq!(decode_char(byte), Err(DecodeError::InvalidCharacter));
            rejected += 1;
        }
    }
    assert_eq!(rejected, 192);
    assert_eq!(decode_char(b'='), Err(DecodeError::InvalidCharacter));
    assert_eq!(decode_char(b'+'), Err(DecodeError::InvalidCharacter));
    assert_eq!(decode_char(b'/'), Err(DecodeError::InvalidCharacter));
    assert_eq!(decode_char(b'@'), Err(DecodeError::InvalidCharacter));
    assert_eq!(decode_char(b'['), Err(DecodeError::InvalidCharacter));
    assert_eq!(decode_char(b'`'), Err(DecodeError::InvalidCharacter));
    assert_eq!(decode_char(b'{'), Err(DecodeError::InvalidCharacter));
    assert_eq!(decode_char(b'/'), Err(DecodeError::InvalidCharacter));
    assert_eq!(decode_char(b':'), Err(DecodeError::InvalidCharacter));
}
