//! Hashes, keys, signatures and text encodings, as the outside crates compute them.
//!
//! Nothing in this file is proved: each function hands plain values to an outside
//! crate, and its contract says what is believed of the answer.

use crate::text::{decimal, digit_char};
use crate::wire::be_value;
use base64::Engine;
use k256::ecdsa::signature::{Signer, Verifier};
use k256::elliptic_curve::sec1::ToEncodedPoint;
use sha2::Digest;
use vstd::prelude::*;

verus! {

/// The running SHA-256 computation of the `sha2` crate.
#[verifier::external_type_specification]
#[verifier::external_body]
pub struct ExSha256(sha2::Sha256);

/// The bytes that a running computation has taken in, in order.
pub uninterp spec fn absorbed(hasher: sha2::Sha256) -> Seq<u8>;

/// The SHA-256 digest of a message.
pub uninterp spec fn sha256(message: Seq<u8>) -> Seq<u8>;

/// SHA-256 counts the bits of its message in 64 bits: messages are shorter than this
/// many bytes.
pub const SHA256_LIMIT: u64 = 0x2000_0000_0000_0000;

/// `sha2::Sha256::new`: a computation that has taken in nothing.
#[verifier::external_body]
pub(crate) fn sha256_start() -> (r: sha2::Sha256)
    ensures
        absorbed(r) == Seq::<u8>::empty(),
{
    sha2::Sha256::new()
}

/// `sha2::Sha256::update`: takes in more bytes, after those that it has.
#[verifier::external_body]
pub(crate) fn sha256_update(hasher: &mut sha2::Sha256, data: &[u8])
    requires
        absorbed(*old(hasher)).len() + data@.len() < SHA256_LIMIT,
    ensures
        absorbed(*final(hasher)) == absorbed(*old(hasher)) + data@,
{
    hasher.update(data)
}

/// `sha2::Sha256::finalize`: the digest of what was taken in, 32 bytes.
#[verifier::external_body]
pub(crate) fn sha256_finish(hasher: sha2::Sha256) -> (r: Vec<u8>)
    requires
        absorbed(hasher).len() < SHA256_LIMIT,
    ensures
        r@ == sha256(absorbed(hasher)),
        r@.len() == 32,
{
    hasher.finalize().to_vec()
}

/// The lower-case hexadecimal digit for a number under sixteen.
pub open spec fn hex_digit(d: nat) -> char {
    if d < 10 {
        digit_char(d)
    } else if d == 10 {
        'a'
    } else if d == 11 {
        'b'
    } else if d == 12 {
        'c'
    } else if d == 13 {
        'd'
    } else if d == 14 {
        'e'
    } else {
        'f'
    }
}

/// Two lower-case hexadecimal digits for each byte.
pub open spec fn hex_text(data: Seq<u8>) -> Seq<char> {
    Seq::new(
        2 * data.len(),
        |i: int|
            hex_digit(
                if i % 2 == 0 {
                    (data[i / 2] / 16) as nat
                } else {
                    (data[i / 2] % 16) as nat
                },
            ),
    )
}

/// What a hexadecimal digit of either case stands for.
pub open spec fn hex_value(c: char) -> Option<nat> {
    let u = c as int;
    if '0' as int <= u <= '9' as int {
        Some((u - '0' as int) as nat)
    } else if 'a' as int <= u <= 'f' as int {
        Some((u - 'a' as int + 10) as nat)
    } else if 'A' as int <= u <= 'F' as int {
        Some((u - 'A' as int + 10) as nat)
    } else {
        None
    }
}

/// The bytes that pairs of hexadecimal digits spell; nothing if the text is of odd
/// length or holds anything else.
pub open spec fn hex_bytes(s: Seq<char>) -> Option<Seq<u8>> {
    if s.len() % 2 == 0 && (forall|i: int| 0 <= i < s.len() ==> hex_value(#[trigger] s[i]) is Some) {
        Some(
            Seq::new(
                s.len() / 2,
                |i: int| (16 * hex_value(s[2 * i])->0 + hex_value(s[2 * i + 1])->0) as u8,
            ),
        )
    } else {
        None
    }
}

/// `hex::encode`: two lower-case digits for each byte. The text must fit in memory.
#[verifier::external_body]
pub(crate) fn hex_encode(data: &[u8]) -> (r: String)
    requires
        2 * data@.len() <= isize::MAX,
    ensures
        r@ == hex_text(data@),
{
    hex::encode(data)
}

/// `hex::decode`: the bytes that the digits of either case spell, or an error.
#[verifier::external_body]
pub(crate) fn hex_decode(s: &str) -> (r: Option<Vec<u8>>)
    ensures
        match r {
            Some(v) => hex_bytes(s@) == Some(v@),
            None => hex_bytes(s@) is None,
        },
{
    match hex::decode(s) {
        Ok(bytes) => Some(bytes),
        Err(_) => None,
    }
}

/// The characters of the standard base64 alphabet.
pub open spec fn base64_alphabet() -> Seq<char> {
    "ABCDEFGHIJKLMNOPQRSTUVWXYZabcdefghijklmnopqrstuvwxyz0123456789+/"@
}

/// The byte at `i`, or zero behind the end.
pub open spec fn byte_or_zero(data: Seq<u8>, i: int) -> nat {
    if i < data.len() {
        data[i] as nat
    } else {
        0
    }
}

/// Four characters for each three bytes; the last four are padded with `=`.
pub open spec fn base64_text(data: Seq<u8>) -> Seq<char> {
    Seq::new(
        (data.len() + 2) / 3 * 4,
        |i: int|
            {
                let from = i / 4 * 3;
                let group = 65536 * byte_or_zero(data, from) + 256 * byte_or_zero(data, from + 1)
                    + byte_or_zero(data, from + 2);
                if i % 4 == 0 {
                    base64_alphabet()[group as int / 262144]
                } else if i % 4 == 1 {
                    base64_alphabet()[group as int / 4096 % 64]
                } else if i % 4 == 2 {
                    if from + 1 < data.len() {
                        base64_alphabet()[group as int / 64 % 64]
                    } else {
                        '='
                    }
                } else {
                    if from + 2 < data.len() {
                        base64_alphabet()[group as int % 64]
                    } else {
                        '='
                    }
                }
            },
    )
}

/// What a character of the standard base64 alphabet stands for.
pub open spec fn base64_value(c: char) -> Option<nat> {
    let u = c as int;
    if 'A' as int <= u <= 'Z' as int {
        Some((u - 'A' as int) as nat)
    } else if 'a' as int <= u <= 'z' as int {
        Some((u - 'a' as int + 26) as nat)
    } else if '0' as int <= u <= '9' as int {
        Some((u - '0' as int + 52) as nat)
    } else if c == '+' {
        Some(62)
    } else if c == '/' {
        Some(63)
    } else {
        None
    }
}

/// How many padding characters a base64 text ends with: none, one or two.
pub open spec fn base64_padding(s: Seq<char>) -> nat {
    if s.len() == 0 || s[s.len() - 1] != '=' {
        0
    } else if s.len() == 1 || s[s.len() - 2] != '=' {
        1
    } else {
        2
    }
}

/// The six bits of the character at `i`; zero for padding.
pub open spec fn base64_bits(s: Seq<char>, i: int) -> nat {
    match base64_value(s[i]) {
        Some(v) => v,
        None => 0,
    }
}

/// The text is padded base64: whole groups of four characters of the alphabet, padding
/// only at the end, and no bit set in the last character that is not part of a byte.
pub open spec fn is_base64(s: Seq<char>) -> bool {
    let pad = base64_padding(s);
    &&& s.len() % 4 == 0
    &&& forall|i: int| 0 <= i < s.len() - pad ==> base64_value(#[trigger] s[i]) is Some
    &&& pad == 1 ==> base64_bits(s, s.len() - 2) % 4 == 0
    &&& pad == 2 ==> base64_bits(s, s.len() - 3) % 16 == 0
}

/// The bytes that a padded base64 text spells; nothing if it is not one.
pub open spec fn base64_bytes(s: Seq<char>) -> Option<Seq<u8>> {
    if is_base64(s) {
        Some(
            Seq::new(
                (s.len() / 4 * 3 - base64_padding(s)) as nat,
                |i: int|
                    {
                        let from = i / 3 * 4;
                        if i % 3 == 0 {
                            (base64_bits(s, from) * 4 + base64_bits(s, from + 1) / 16) as u8
                        } else if i % 3 == 1 {
                            (base64_bits(s, from + 1) % 16 * 16 + base64_bits(s, from + 2) / 4)
                                as u8
                        } else {
                            (base64_bits(s, from + 2) % 4 * 64 + base64_bits(s, from + 3)) as u8
                        }
                    },
            ),
        )
    } else {
        None
    }
}

/// `base64::engine::general_purpose::STANDARD.encode`: the standard alphabet, padded.
/// The text must fit in memory.
#[verifier::external_body]
pub(crate) fn base64_encode(data: &[u8]) -> (r: String)
    requires
        (data@.len() + 2) / 3 * 4 <= isize::MAX,
    ensures
        r@ == base64_text(data@),
{
    base64::engine::general_purpose::STANDARD.encode(data)
}

/// The order of the curve secp256k1.
pub open spec fn curve_order() -> nat {
    0xFFFF_FFFF_FFFF_FFFF_FFFF_FFFF_FFFF_FFFE_BAAE_DCE6_AF48_A03B_BFD2_5E8C_D036_4141nat
}

/// 32 bytes that spell a number above zero and below the order of the curve.
pub open spec fn valid_secret_key(key: Seq<u8>) -> bool {
    key.len() == 32 && 0 < be_value(key) < curve_order()
}

/// The public point of a secret key: its two coordinates, uncompressed.
pub uninterp spec fn public_point(key: Seq<u8>) -> Seq<u8>;

/// The signature of a message under a secret key, with the nonce derived from both;
/// nothing in the case, not known to occur, in which that nonce does not work.
pub uninterp spec fn signature_of(key: Seq<u8>, message: Seq<u8>) -> Option<Seq<u8>>;

/// A signature of a message is one of the key with this public point.
pub uninterp spec fn signature_valid(
    point: Seq<u8>,
    message: Seq<u8>,
    signature: Seq<u8>,
) -> bool;

/// `k256::SecretKey::random` with `rand::rngs::OsRng`, as bytes: some valid key.
/// Which one is left to chance. Where the operating system has no randomness to give,
/// it panics; no value shows that beforehand.
#[verifier::external_body]
pub(crate) fn random_secret_key() -> (r: Vec<u8>)
    ensures
        valid_secret_key(r@),
{
    k256::SecretKey::random(&mut rand::rngs::OsRng).to_bytes().to_vec()
}

/// `k256::SecretKey::from_bytes`, then back as bytes: the same bytes if they are a
/// valid key, else an error. It takes 32 bytes.
#[verifier::external_body]
pub(crate) fn secret_key_from_bytes(bytes: &[u8]) -> (r: Option<Vec<u8>>)
    requires
        bytes@.len() == 32,
    ensures
        match r {
            Some(key) => valid_secret_key(bytes@) && key@ == bytes@,
            None => !valid_secret_key(bytes@),
        },
{
    match k256::SecretKey::from_bytes(bytes.into()) {
        Ok(key) => Some(key.to_bytes().to_vec()),
        Err(_) => None,
    }
}

/// `k256::SecretKey::public_key`, encoded without compression: 65 bytes, of which the
/// first is 4.
#[verifier::external_body]
pub(crate) fn public_point_of(key: &[u8]) -> (r: Vec<u8>)
    requires
        valid_secret_key(key@),
    ensures
        r@ == public_point(key@),
        r@.len() == 65,
        r@[0] == 4,
{
    let key = k256::SecretKey::from_bytes(key.into()).unwrap();
    key.public_key().to_encoded_point(false).as_bytes().to_vec()
}

/// `k256::ecdsa::SigningKey::try_sign`: 64 bytes, which the key's public point
/// verifies for the message.
#[verifier::external_body]
pub(crate) fn sign(key: &[u8], message: &[u8]) -> (r: Option<Vec<u8>>)
    requires
        valid_secret_key(key@),
        message@.len() < SHA256_LIMIT,
    ensures
        match r {
            Some(s) => {
                &&& signature_of(key@, message@) == Some(s@)
                &&& s@.len() == 64
                &&& signature_valid(public_point(key@), message@, s@)
            },
            None => signature_of(key@, message@) is None,
        },
{
    let key = k256::ecdsa::SigningKey::from_bytes(key.into()).unwrap();
    let made: Result<k256::ecdsa::Signature, k256::ecdsa::Error> = key.try_sign(message);
    match made {
        Ok(signature) => Some(signature.to_bytes().to_vec()),
        Err(_) => None,
    }
}

/// `k256::ecdsa::VerifyingKey::verify`; a point or a signature that cannot be read
/// verifies nothing.
#[verifier::external_body]
pub(crate) fn verify(point: &[u8], message: &[u8], signature: &[u8]) -> (r: bool)
    requires
        message@.len() < SHA256_LIMIT,
    ensures
        r == signature_valid(point@, message@, signature@),
{
    let key = k256::ecdsa::VerifyingKey::from_sec1_bytes(point);
    let signature = k256::ecdsa::Signature::from_slice(signature);
    match (key, signature) {
        (Ok(key), Ok(signature)) => key.verify(message, &signature).is_ok(),
        _ => false,
    }
}

/// Characters that JSON writes as they are.
pub open spec fn json_plain(s: Seq<char>) -> bool {
    forall|i: int|
        0 <= i < s.len() ==> 0x20 <= #[trigger] s[i] as int && s[i] as int <= 0x7e && s[i] != '"'
            && s[i] != '\\'
}

/// A JSON object with one text and one number.
pub open spec fn json_object(
    text_key: Seq<char>,
    text: Seq<char>,
    number_key: Seq<char>,
    number: nat,
) -> Seq<char> {
    seq!['{', '"'] + text_key + seq!['"', ':', '"'] + text + seq!['"', ',', '"'] + number_key
        + seq!['"', ':'] + decimal(number) + seq!['}']
}

/// `serde_json::Value::to_string` of an object with one text and one number: compact,
/// its members in the order of their names.
#[verifier::external_body]
pub(crate) fn json_object_text(text_key: &str, text: &str, number_key: &str, number: u64) -> (r:
    String)
    requires
        json_plain(text_key@),
        json_plain(text@),
        json_plain(number_key@),
        text_key@.len() > 0,
        number_key@.len() > 0,
        (text_key@[0] as int) < number_key@[0] as int,
    ensures
        r@ == json_object(text_key@, text@, number_key@, number as nat),
{
    let mut members = serde_json::Map::new();
    members.insert(text_key.to_string(), serde_json::Value::from(text));
    members.insert(number_key.to_string(), serde_json::Value::from(number));
    serde_json::Value::Object(members).to_string()
}

} // verus!
