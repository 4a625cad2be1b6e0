//! Decoding of URL-safe base64.

use crate::host::bytes_seq;
use soroban_sdk::{Bytes, Env};
use vstd::prelude::*;

verus! {

/// Why a byte sequence is not URL-safe base64.
#[derive(Clone, Copy, Debug, PartialEq, Eq, Structural)]
pub enum DecodeError {
    /// A byte outside the alphabet stands before the trailing padding.
    InvalidCharacter,
}

/// `A`, the first character of the alphabet.
pub const UPPER_A: u8 = 65;

/// `Z`.
pub const UPPER_Z: u8 = 90;

/// `a`.
pub const LOWER_A: u8 = 97;

/// `z`.
pub const LOWER_Z: u8 = 122;

/// `0`.
pub const DIGIT_0: u8 = 48;

/// `9`.
pub const DIGIT_9: u8 = 57;

/// `-`, which stands for 62.
pub const MINUS: u8 = 45;

/// `_`, which stands for 63.
pub const UNDERSCORE: u8 = 95;

/// `=`, the padding character.
pub const PAD: u8 = 61;

/// Whether `byte` is one of the 64 characters `A-Z`, `a-z`, `0-9`, `-`, `_`.
pub open spec fn is_alphabet_byte(byte: u8) -> bool {
    ||| UPPER_A <= byte <= UPPER_Z
    ||| LOWER_A <= byte <= LOWER_Z
    ||| DIGIT_0 <= byte <= DIGIT_9
    ||| byte == MINUS
    ||| byte == UNDERSCORE
}

/// The six-bit value that an alphabet character stands for.
pub open spec fn sextet_of(byte: u8) -> int {
    if UPPER_A <= byte <= UPPER_Z {
        byte - UPPER_A
    } else if LOWER_A <= byte <= LOWER_Z {
        byte - LOWER_A + 26
    } else if DIGIT_0 <= byte <= DIGIT_9 {
        byte - DIGIT_0 + 52
    } else if byte == MINUS {
        62
    } else {
        63
    }
}

/// What [`decode_char`] returns for each byte.
pub open spec fn spec_decode_char(byte: u8) -> Result<u8, DecodeError> {
    if is_alphabet_byte(byte) {
        Ok(sextet_of(byte) as u8)
    } else {
        Err(DecodeError::InvalidCharacter)
    }
}

/// Maps one character of the alphabet to its six-bit value, and rejects
/// every other byte.
pub fn decode_char(byte: u8) -> (r: Result<u8, DecodeError>)
    ensures
        r == spec_decode_char(byte),
{
    if UPPER_A <= byte && byte <= UPPER_Z {
        Ok(byte - UPPER_A)
    } else if LOWER_A <= byte && byte <= LOWER_Z {
        Ok(byte - LOWER_A + 26)
    } else if DIGIT_0 <= byte && byte <= DIGIT_9 {
        Ok(byte - DIGIT_0 + 52)
    } else if byte == MINUS {
        Ok(62)
    } else if byte == UNDERSCORE {
        Ok(63)
    } else {
        Err(DecodeError::InvalidCharacter)
    }
}

/// The input without its trailing run of padding characters.
pub open spec fn strip_padding(input: Seq<u8>) -> Seq<u8>
    decreases input.len(),
{
    if input.len() > 0 && input.last() == PAD {
        strip_padding(input.drop_last())
    } else {
        input
    }
}

/// Whether every byte of `body` is a character of the alphabet.
pub open spec fn all_alphabet(body: Seq<u8>) -> bool {
    forall|i: int| 0 <= i < body.len() ==> is_alphabet_byte(#[trigger] body[i])
}

/// How many whole bytes `n` characters of six bits each hold.
pub open spec fn decoded_len(n: nat) -> nat {
    n * 6 / 8
}

/// Byte `j` of the bit string that the characters of `body` spell, the most
/// significant bit first: three bytes lie across four characters.
pub open spec fn decoded_byte(body: Seq<u8>, j: int) -> u8 {
    let q = 4 * j / 3;
    let hi = sextet_of(body[q]);
    let lo = sextet_of(body[q + 1]);
    if j % 3 == 0 {
        (hi * 4 + lo / 16) as u8
    } else if j % 3 == 1 {
        (hi % 16 * 16 + lo / 4) as u8
    } else {
        (hi % 4 * 64 + lo) as u8
    }
}

/// The whole bytes that the first `n` characters of `body` spell.
pub open spec fn decoded_prefix(body: Seq<u8>, n: nat) -> Seq<u8> {
    Seq::new(decoded_len(n), |j: int| decoded_byte(body, j))
}

/// The bytes that a run of alphabet characters spells. Bits left over at
/// the end, fewer than eight, are dropped.
pub open spec fn decode_body(body: Seq<u8>) -> Seq<u8> {
    decoded_prefix(body, body.len())
}

/// What decoding yields: the trailing padding is set aside, and what is left
/// either decodes as a whole or holds a byte outside the alphabet.
pub open spec fn spec_decode(input: Seq<u8>) -> Result<Seq<u8>, DecodeError> {
    let body = strip_padding(input);
    if all_alphabet(body) {
        Ok(decode_body(body))
    } else {
        Err(DecodeError::InvalidCharacter)
    }
}

/// Shifting six bits in keeps the new character in the low six bits and the
/// one before it in the six bits above.
proof fn lemma_shift_in(acc: u32, val: u32)
    by (bit_vector)
    requires
        val < 64,
    ensures
        ((acc << 6) | val) % 64 == val,
        ((acc << 6) | val) % 4096 == (acc % 64) * 64 + val,
{
}

/// The byte taken out of the buffer depends on its low twelve bits only.
proof fn lemma_take_byte(acc: u32)
    by (bit_vector)
    ensures
        (acc >> 4) & 0xFF == (acc % 4096) / 16 % 256,
        (acc >> 2) & 0xFF == (acc % 4096) / 4 % 256,
        (acc >> 0) & 0xFF == (acc % 4096) % 256,
{
}

/// Where the characters stand that byte `decoded_len(i)` lies across, and
/// how far the buffer is shifted when that byte leaves it: the byte is
/// complete once character `i` is in, unless `i` starts a group of four.
proof fn lemma_byte_position(i: nat)
    requires
        i % 4 != 0,
    ensures
        decoded_len(i + 1) == decoded_len(i) + 1,
        4 * decoded_len(i) / 3 == i - 1,
        6 * i % 8 == 6 ==> decoded_len(i) % 3 == 0,
        6 * i % 8 == 4 ==> decoded_len(i) % 3 == 1,
        6 * i % 8 == 2 ==> decoded_len(i) % 3 == 2,
        6 * i % 8 != 0,
{
    let t = i / 4;
    if i % 4 == 1 {
        assert(i == 4 * t + 1);
        assert(decoded_len(i) == 3 * t);
    } else if i % 4 == 2 {
        assert(i == 4 * t + 2);
        assert(decoded_len(i) == 3 * t + 1);
    } else {
        assert(i == 4 * t + 3);
        assert(decoded_len(i) == 3 * t + 2);
    }
}

/// A character that starts a group of four completes no byte.
proof fn lemma_group_start(i: nat)
    requires
        i % 4 == 0,
    ensures
        decoded_len(i + 1) == decoded_len(i),
        6 * i % 8 == 0,
{
    let t = i / 4;
    assert(i == 4 * t);
    assert(i * 6 == 8 * (3 * t));
    assert((i + 1) * 6 == 8 * (3 * t) + 6);
}

/// The byte that leaves the buffer, computed from the two characters last
/// shifted in, is the byte that the specification puts at that place.
proof fn lemma_emitted_byte(body: Seq<u8>, i: nat, low: int, shift: int, byte: int)
    requires
        0 < i < body.len(),
        i % 4 != 0,
        low == sextet_of(body[i - 1]) * 64 + sextet_of(body[i as int]),
        shift == 6 * i % 8 - 2,
        shift == 4 ==> byte == low / 16 % 256,
        shift == 2 ==> byte == low / 4 % 256,
        shift == 0 ==> byte == low % 256,
    ensures
        byte == decoded_byte(body, decoded_len(i) as int),
{
    lemma_byte_position(i);
    let hi = sextet_of(body[i - 1]);
    let lo = sextet_of(body[i as int]);
    assert(0 <= hi < 64 && 0 <= lo < 64);
    let j = decoded_len(i) as int;
    assert(4 * j / 3 == i - 1);
    if shift == 4 {
        assert(j % 3 == 0);
        assert((hi * 64 + lo) / 16 == hi * 4 + lo / 16);
    } else if shift == 2 {
        assert(j % 3 == 1);
        assert((hi * 64 + lo) / 4 == hi * 16 + lo / 4);
        assert((hi * 16 + lo / 4) % 256 == hi % 16 * 16 + lo / 4);
    } else {
        assert(shift == 0);
        assert(j % 3 == 2);
        assert((hi * 64 + lo) % 256 == hi % 4 * 64 + lo);
    }
}

/// Decodes URL-safe base64.
///
/// Trailing `=` are set aside. Each remaining character adds six bits to a
/// buffer, most significant bit first, and every full eight bits leave it as
/// one byte of the output. A byte outside the alphabet fails the whole
/// call: no part of the output is handed back.
pub fn decode(env: &Env, base64_url: &Bytes) -> (r: Result<Bytes, DecodeError>)
    ensures
        match r {
            Ok(output) => spec_decode(bytes_seq(*base64_url)) == Ok::<Seq<u8>, DecodeError>(
                bytes_seq(output),
            ),
            Err(e) => spec_decode(bytes_seq(*base64_url)) == Err::<Seq<u8>, DecodeError>(e),
        },
{
    let mut output = Bytes::new(env);
    let input = base64_url.to_alloc_vec();

    if input.len() == 0 {
        assert(decode_body(input@) =~= bytes_seq(output));
        return Ok(output);
    }
    let mut actual_len: usize = input.len();
    assert(input@.take(actual_len as int) =~= input@);
    while actual_len > 0 && input[actual_len - 1] == PAD
        invariant
            actual_len <= input.len(),
            strip_padding(input@) == strip_padding(input@.take(actual_len as int)),
        decreases actual_len,
    {
        assert(input@.take(actual_len as int).drop_last() =~= input@.take(actual_len - 1));
        actual_len -= 1;
    }
    let ghost body = input@.take(actual_len as int);

    let mut acc: u32 = 0;
    let mut acc_len: u32 = 0;
    let mut i: usize = 0;
    while i < actual_len
        invariant
            i <= actual_len <= input.len() <= u32::MAX,
            input@ == bytes_seq(*base64_url),
            body == input@.take(actual_len as int),
            body == strip_padding(input@),
            forall|k: int| 0 <= k < i ==> is_alphabet_byte(#[trigger] body[k]),
            acc_len == 6 * i % 8,
            i > 0 ==> acc % 64 == sextet_of(body[i - 1]),
            bytes_seq(output) == decoded_prefix(body, i as nat),
        decreases actual_len - i,
    {
        let byte: u8 = input[i];
        let val: u8 = match decode_char(byte) {
            Ok(val) => val,
            Err(e) => {
                assert(!is_alphabet_byte(body[i as int]));
                return Err(e);
            },
        };
        let ghost before = acc;
        acc = (acc << 6) | (val as u32);
        acc_len += 6;
        proof {
            lemma_shift_in(before, val as u32);
        }
        if acc_len >= 8 {
            acc_len -= 8;
            let byte_val: u32 = (acc >> acc_len) & 0xFF;
            proof {
                assert(i % 4 != 0) by {
                    if i % 4 == 0 {
                        lemma_group_start(i as nat);
                    }
                }
                lemma_byte_position(i as nat);
                lemma_take_byte(acc);
                lemma_emitted_byte(
                    body,
                    i as nat,
                    (acc % 4096) as int,
                    acc_len as int,
                    byte_val as int,
                );
                assert(decoded_prefix(body, i as nat).push(byte_val as u8) =~= decoded_prefix(
                    body,
                    (i + 1) as nat,
                ));
            }
            output.push_back(byte_val as u8);
        } else {
            proof {
                assert(i % 4 == 0) by {
                    if i % 4 != 0 {
                        lemma_byte_position(i as nat);
                    }
                }
                lemma_group_start(i as nat);
                assert(decoded_prefix(body, i as nat) =~= decoded_prefix(body, (i + 1) as nat));
            }
        }
        i += 1;
    }
    Ok(output)
}

/// The character of the alphabet that stands for the six-bit value `v`.
pub open spec fn alphabet_char(v: int) -> u8 {
    if v < 26 {
        (UPPER_A + v) as u8
    } else if v < 52 {
        (LOWER_A + v - 26) as u8
    } else if v < 62 {
        (DIGIT_0 + v - 52) as u8
    } else if v == 62 {
        MINUS
    } else {
        UNDERSCORE
    }
}

/// How many characters it takes to spell `n` bytes.
pub open spec fn encoded_len(n: nat) -> nat {
    (n * 8 + 5) / 6
}

/// The six-bit value at place `k` of the bit string of `data`, cut into
/// groups of six from the most significant bit on; past the end of `data`
/// the bits are zero.
pub open spec fn encoded_sextet(data: Seq<u8>, k: int) -> int {
    let q = 3 * k / 4;
    let cur = data[q] as int;
    let next = if q + 1 < data.len() {
        data[q + 1] as int
    } else {
        0
    };
    if k % 4 == 0 {
        cur / 4
    } else if k % 4 == 1 {
        cur % 4 * 16 + next / 16
    } else if k % 4 == 2 {
        cur % 16 * 4 + next / 64
    } else {
        cur % 64
    }
}

/// URL-safe base64 of `data`, without padding.
pub open spec fn spec_encode(data: Seq<u8>) -> Seq<u8> {
    Seq::new(encoded_len(data.len()), |k: int| alphabet_char(encoded_sextet(data, k)))
}

/// How many `=` bring the encoding of `n` bytes to a multiple of four
/// characters.
pub open spec fn padding_len(n: nat) -> nat {
    ((4 - encoded_len(n) % 4) % 4) as nat
}

/// URL-safe base64 of `data`, padded with `=` to a multiple of four
/// characters.
pub open spec fn spec_encode_padded(data: Seq<u8>) -> Seq<u8> {
    spec_encode(data) + Seq::new(padding_len(data.len()), |i: int| PAD)
}

/// Each six-bit value has its character, and the character gives it back.
proof fn lemma_alphabet_char(v: int)
    requires
        0 <= v < 64,
    ensures
        is_alphabet_byte(alphabet_char(v)),
        sextet_of(alphabet_char(v)) == v,
        alphabet_char(v) != PAD,
{
}

/// Padding added behind a text that does not end in `=` is stripped again.
proof fn lemma_strip_added_padding(text: Seq<u8>, n: nat)
    requires
        text.len() == 0 || text.last() != PAD,
    ensures
        strip_padding(text + Seq::new(n, |i: int| PAD)) == text,
    decreases n,
{
    let padded = text + Seq::new(n, |i: int| PAD);
    if n == 0 {
        assert(padded =~= text);
    } else {
        assert(padded.last() == PAD);
        assert(padded.drop_last() =~= text + Seq::new((n - 1) as nat, |i: int| PAD));
        lemma_strip_added_padding(text, (n - 1) as nat);
    }
}

/// Where byte `j` lies in the encoding: the two characters that it lies
/// across, what place each has in its group of four, and which bytes each
/// is cut from.
proof fn lemma_encoded_position(j: int, m: nat)
    requires
        0 <= j < m,
    ensures
        ({
            let q = 4 * j / 3;
            &&& 0 <= q
            &&& q + 1 < encoded_len(m)
            &&& 3 * (q + 1) / 4 == j
            &&& j % 3 == 0 ==> q % 4 == 0 && 3 * q / 4 == j
            &&& j % 3 == 1 ==> q % 4 == 1 && 3 * q / 4 == j - 1
            &&& j % 3 == 2 ==> q % 4 == 2 && 3 * q / 4 == j - 1
        }),
{
    let t = j / 3;
    let q = 4 * j / 3;
    assert((m * 8 + 5) / 6 >= ((j + 1) * 8 + 5) / 6);
    if j % 3 == 0 {
        assert(j == 3 * t);
        assert(q == 4 * t);
    } else if j % 3 == 1 {
        assert(j == 3 * t + 1);
        assert(q == 4 * t + 1);
    } else {
        assert(j == 3 * t + 2);
        assert(q == 4 * t + 2);
    }
}

/// Cutting a byte into the pieces that the encoding takes from it, and
/// putting the pieces together as the decoding does, gives the byte again,
/// whatever stands before and behind it.
proof fn lemma_regroup(before: int, byte: int, behind: int)
    requires
        0 <= before < 256,
        0 <= byte < 256,
        0 <= behind < 256,
    ensures
        (byte / 4) * 4 + (byte % 4 * 16 + behind / 16) / 16 == byte,
        (before % 4 * 16 + byte / 16) % 16 * 16 + (byte % 16 * 4 + behind / 64) / 4 == byte,
        (before % 16 * 4 + byte / 64) % 4 * 64 + byte % 64 == byte,
{
    assert((byte % 4 * 16 + behind / 16) / 16 == byte % 4);
    assert((before % 4 * 16 + byte / 16) % 16 == byte / 16);
    assert((byte % 16 * 4 + behind / 64) / 4 == byte % 16);
    assert((before % 16 * 4 + byte / 64) % 4 == byte / 64);
}

/// The byte before `j`, or 0 where `j` is the first.
spec fn byte_before(data: Seq<u8>, j: int) -> int {
    if j > 0 {
        data[j - 1] as int
    } else {
        0
    }
}

/// The byte behind `j`, or 0 where `j` is the last.
spec fn byte_behind(data: Seq<u8>, j: int) -> int {
    if j + 1 < data.len() {
        data[j + 1] as int
    } else {
        0
    }
}

/// What the two characters hold that byte `j` lies across, by the place of
/// `j` in its group of three.
proof fn lemma_encoded_pieces(data: Seq<u8>, j: int)
    requires
        0 <= j < data.len(),
    ensures
        ({
            let q = 4 * j / 3;
            let hi = encoded_sextet(data, q);
            let lo = encoded_sextet(data, q + 1);
            let before = byte_before(data, j);
            let behind = byte_behind(data, j);
            let byte = data[j] as int;
            &&& j % 3 == 0 ==> hi == byte / 4 && lo == byte % 4 * 16 + behind / 16
            &&& j % 3 == 1 ==> hi == before % 4 * 16 + byte / 16 && lo == byte % 16 * 4 + behind
                / 64
            &&& j % 3 == 2 ==> hi == before % 16 * 4 + byte / 64 && lo == byte % 64
        }),
{
    lemma_encoded_position(j, data.len());
    let q = 4 * j / 3;
    if j % 3 == 0 {
        assert(q % 4 == 0 && (q + 1) % 4 == 1);
    } else if j % 3 == 1 {
        assert(q % 4 == 1 && (q + 1) % 4 == 2);
    } else {
        assert(q % 4 == 2 && (q + 1) % 4 == 3);
    }
}

/// Byte `j` of what the encoding of `data` decodes to is byte `j` of `data`.
proof fn lemma_decoded_byte_of_encoding(data: Seq<u8>, j: int)
    requires
        0 <= j < data.len(),
    ensures
        4 * j / 3 + 1 < encoded_len(data.len()),
        decoded_byte(spec_encode(data), j) == data[j],
{
    let q = 4 * j / 3;
    let text = spec_encode(data);
    let hi = encoded_sextet(data, q);
    let lo = encoded_sextet(data, q + 1);
    lemma_encoded_position(j, data.len());
    lemma_encoded_pieces(data, j);
    lemma_regroup(byte_before(data, j), data[j] as int, byte_behind(data, j));
    assert(0 <= hi < 64 && 0 <= lo < 64);
    lemma_alphabet_char(hi);
    lemma_alphabet_char(lo);
    assert(sextet_of(text[q]) == hi);
    assert(sextet_of(text[q + 1]) == lo);
}

/// Decoding takes back what encoding did: the encoding of any bytes, with
/// or without its padding, decodes to those bytes.
pub proof fn law_decode_inverts_encode(data: Seq<u8>)
    ensures
        spec_decode(spec_encode(data)) == Ok::<Seq<u8>, DecodeError>(data),
        spec_decode(spec_encode_padded(data)) == Ok::<Seq<u8>, DecodeError>(data),
{
    let text = spec_encode(data);
    let m = data.len();
    assert forall|k: int| 0 <= k < text.len() implies is_alphabet_byte(#[trigger] text[k])
        && text[k] != PAD by {
        let v = encoded_sextet(data, k);
        assert(0 <= v < 64);
        lemma_alphabet_char(v);
    }
    assert(text.len() == 0 || text.last() != PAD);
    lemma_strip_added_padding(text, 0);
    assert(text + Seq::new(0, |i: int| PAD) =~= text);
    lemma_strip_added_padding(text, padding_len(m));
    assert(decoded_len(encoded_len(m)) == m) by {
        let t = m / 3;
        if m % 3 == 0 {
            assert(m == 3 * t);
            assert(encoded_len(m) == 4 * t);
        } else if m % 3 == 1 {
            assert(m == 3 * t + 1);
            assert(encoded_len(m) == 4 * t + 2);
        } else {
            assert(m == 3 * t + 2);
            assert(encoded_len(m) == 4 * t + 3);
        }
    }
    assert forall|j: int| 0 <= j < m implies decode_body(text)[j] == data[j] by {
        lemma_decoded_byte_of_encoding(data, j);
    }
    assert(decode_body(text) =~= data);
}

/// The stripped text reaches at least as far as the last byte that is no
/// padding.
proof fn lemma_strip_keeps(input: Seq<u8>, j: int)
    requires
        0 <= j < input.len(),
        input[j] != PAD,
    ensures
        j < strip_padding(input).len() <= input.len(),
        forall|k: int| 0 <= k < strip_padding(input).len() ==> strip_padding(input)[k] == input[k],
    decreases input.len(),
{
    if input.last() == PAD {
        let shorter = input.drop_last();
        lemma_strip_keeps(shorter, j);
        assert forall|k: int| 0 <= k < strip_padding(input).len() implies strip_padding(input)[k]
            == input[k] by {
            assert(strip_padding(shorter)[k] == shorter[k]);
        }
    }
}

/// A byte outside the alphabet fails the decoding unless it belongs to the
/// trailing padding, that is, unless it and every byte behind it is `=`.
pub proof fn law_invalid_character_rejected(input: Seq<u8>, i: int, j: int)
    requires
        0 <= i <= j < input.len(),
        !is_alphabet_byte(input[i]),
        input[j] != PAD,
    ensures
        spec_decode(input) == Err::<Seq<u8>, DecodeError>(DecodeError::InvalidCharacter),
{
    lemma_strip_keeps(input, j);
    assert(strip_padding(input)[i] == input[i]);
}

/// Bit `k` of the bit string that the characters of `body` spell. Each
/// character gives the six bits of its value, the most significant first.
pub open spec fn text_bit(body: Seq<u8>, k: int) -> int {
    let value = sextet_of(body[k / 6]);
    let place = k % 6;
    if place == 0 {
        value / 32 % 2
    } else if place == 1 {
        value / 16 % 2
    } else if place == 2 {
        value / 8 % 2
    } else if place == 3 {
        value / 4 % 2
    } else if place == 4 {
        value / 2 % 2
    } else {
        value % 2
    }
}

/// The number that eight bits of the text spell from bit `k` on, the most
/// significant first.
pub open spec fn text_octet(body: Seq<u8>, k: int) -> int {
    text_bit(body, k) * 128 + text_bit(body, k + 1) * 64 + text_bit(body, k + 2) * 32 + text_bit(
        body,
        k + 3,
    ) * 16 + text_bit(body, k + 4) * 8 + text_bit(body, k + 5) * 4 + text_bit(body, k + 6) * 2
        + text_bit(body, k + 7)
}

/// A six-bit value is the sum of its bits.
proof fn lemma_six_bits(v: int)
    requires
        0 <= v < 64,
    ensures
        v == (v / 32 % 2) * 32 + (v / 16 % 2) * 16 + (v / 8 % 2) * 8 + (v / 4 % 2) * 4 + (v / 2
            % 2) * 2 + v % 2,
        v / 16 == (v / 32 % 2) * 2 + v / 16 % 2,
        v / 4 == (v / 32 % 2) * 8 + (v / 16 % 2) * 4 + (v / 8 % 2) * 2 + v / 4 % 2,
        v % 16 == (v / 8 % 2) * 8 + (v / 4 % 2) * 4 + (v / 2 % 2) * 2 + v % 2,
        v % 4 == (v / 2 % 2) * 2 + v % 2,
{
    let halves = v / 2;
    let quarters = v / 4;
    let eighths = v / 8;
    let sixteenths = v / 16;
    assert(quarters == halves / 2);
    assert(eighths == quarters / 2);
    assert(sixteenths == eighths / 2);
    assert(v / 32 == sixteenths / 2);
    assert(v == 2 * halves + v % 2);
    assert(halves == 2 * quarters + halves % 2);
    assert(quarters == 2 * eighths + quarters % 2);
    assert(eighths == 2 * sixteenths + eighths % 2);
    assert(sixteenths == 2 * (v / 32) + sixteenths % 2);
    assert(v / 32 % 2 == v / 32);
}

/// The decoder reads the text as one string of bits and cuts it into
/// bytes: byte `j` of the output is made of the bits `8 * j` to
/// `8 * j + 7` of the text.
pub proof fn law_decoded_bytes_are_the_bits_of_the_text(body: Seq<u8>, j: int)
    requires
        0 <= j < decoded_len(body.len()),
    ensures
        decode_body(body)[j] == text_octet(body, 8 * j),
{
    let t = j / 3;
    let q = 4 * j / 3;
    let hi = sextet_of(body[q]);
    let lo = sextet_of(body[q + 1]);
    lemma_six_bits(hi);
    lemma_six_bits(lo);
    let k = 8 * j;
    if j % 3 == 0 {
        assert(j == 3 * t && q == 4 * t && k == 6 * q);
        assert(k / 6 == q && (k + 5) / 6 == q && (k + 6) / 6 == q + 1 && (k + 7) / 6 == q + 1);
        assert((k + 1) / 6 == q && (k + 2) / 6 == q && (k + 3) / 6 == q && (k + 4) / 6 == q);
        assert(k % 6 == 0 && (k + 6) % 6 == 0 && (k + 7) % 6 == 1);
    } else if j % 3 == 1 {
        assert(j == 3 * t + 1 && q == 4 * t + 1 && k == 6 * q + 2);
        assert(k / 6 == q && (k + 3) / 6 == q && (k + 4) / 6 == q + 1 && (k + 7) / 6 == q + 1);
        assert((k + 1) / 6 == q && (k + 2) / 6 == q && (k + 5) / 6 == q + 1 && (k + 6) / 6 == q
            + 1);
        assert(k % 6 == 2 && (k + 4) % 6 == 0 && (k + 7) % 6 == 3);
    } else {
        assert(j == 3 * t + 2 && q == 4 * t + 2 && k == 6 * q + 4);
        assert(k / 6 == q && (k + 1) / 6 == q && (k + 2) / 6 == q + 1 && (k + 7) / 6 == q + 1);
        assert((k + 3) / 6 == q + 1 && (k + 4) / 6 == q + 1 && (k + 5) / 6 == q + 1 && (k + 6)
            / 6 == q + 1);
        assert(k % 6 == 4 && (k + 2) % 6 == 0 && (k + 7) % 6 == 5);
    }
}

} // verus!
