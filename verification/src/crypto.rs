//! Hashing, hex coding, signature checking and randomness, each taken from
//! the crate that provides it (`sha2`, `hex`, `ed25519-dalek`, `rand`)
//! behind a small trusted item, with verified helpers on top.

use sha2::Digest;
use vstd::prelude::*;
use vstd::utf8::encode_utf8;

verus! {

// ── hex ────────────────────────────────────────────────────────────────────

/// The lower-case hex digit of a value below 16.
pub open spec fn hex_char(n: int) -> char {
    if n < 10 { (48 + n) as char } else { (87 + n) as char }
}

/// Lower-case hex encoding: two digits per byte, high nibble first.
pub open spec fn hex_lower(bytes: Seq<u8>) -> Seq<char> {
    Seq::new(
        2 * bytes.len(),
        |i: int| hex_char(if i % 2 == 0 { bytes[i / 2] as int / 16 } else { bytes[i / 2] as int % 16 }),
    )
}

/// The value of one hex digit byte (upper or lower case), if it is one.
pub open spec fn hex_value(c: u8) -> Option<u8> {
    if 48 <= c <= 57 {
        Some((c - 48) as u8)
    } else if 97 <= c <= 102 {
        Some((c - 87) as u8)
    } else if 65 <= c <= 70 {
        Some((c - 55) as u8)
    } else {
        None
    }
}

/// Hex decoding of a byte string: defined when the length is even and every
/// byte is a hex digit; each pair of digits gives one byte.
pub open spec fn hex_decode_spec(s: Seq<u8>) -> Option<Seq<u8>> {
    if s.len() % 2 == 0 && (forall|i: int| 0 <= i < s.len() ==> (#[trigger] hex_value(s[i])) is Some) {
        Some(
            Seq::new(
                s.len() / 2,
                |i: int| (hex_value(s[2 * i])->0 * 16 + hex_value(s[2 * i + 1])->0) as u8,
            ),
        )
    } else {
        None
    }
}

#[verifier::external_type_specification]
#[verifier::external_body]
pub struct ExFromHexError(hex::FromHexError);

/// `hex::encode`: writes each byte as two lower-case hex digits, high nibble
/// first (the crate's documentation and its `encode_to_iter`).
#[verifier::external_body]
pub(crate) fn hex_encode(data: &[u8]) -> (s: String)
    ensures
        s@ == hex_lower(data@),
{
    hex::encode(data)
}

/// `hex::decode`: fails on odd length or on a byte that is no hex digit
/// (either case), else turns each pair of digits into one byte.
#[verifier::external_body]
pub(crate) fn hex_decode(data: &[u8]) -> (r: Result<Vec<u8>, hex::FromHexError>)
    ensures
        r is Ok == hex_decode_spec(data@) is Some,
        r matches Ok(v) ==> v@ == hex_decode_spec(data@)->0,
{
    hex::decode(data)
}

/// Decodes the hex text `s` (its UTF-8 bytes), or `None` where `hex::decode`
/// refuses it.
pub fn decode_hex(s: &str) -> (r: Option<Vec<u8>>)
    ensures
        r is Some == hex_decode_spec(encode_utf8(s@)) is Some,
        r matches Some(v) ==> v@ == hex_decode_spec(encode_utf8(s@))->0,
{
    match hex_decode(s.as_bytes()) {
        Ok(v) => Some(v),
        Err(_) => None,
    }
}

/// Lower-case hex text of `data`.
pub fn encode_hex(data: &[u8]) -> (s: String)
    ensures
        s@ == hex_lower(data@),
{
    hex_encode(data)
}

// ── SHA-256 ──────────────────────────────────────────────────────────────────

/// The SHA-256 digest of a byte string.
pub uninterp spec fn sha256_spec(data: Seq<u8>) -> Seq<u8>;

/// `sha2::Sha256::digest`: the 32-byte SHA-256 digest of `data`.
#[verifier::external_body]
pub(crate) fn sha256(data: &[u8]) -> (d: Vec<u8>)
    ensures
        d@ == sha256_spec(data@),
        d@.len() == 32,
{
    sha2::Sha256::digest(data).to_vec()
}

/// Lower-case hex of the SHA-256 digest of a byte string.
pub open spec fn sha256_hex_spec(data: Seq<u8>) -> Seq<char> {
    hex_lower(sha256_spec(data))
}

/// Lower-case hex of the SHA-256 digest of `data`.
pub fn sha256_hex(data: &[u8]) -> (s: String)
    ensures
        s@ == sha256_hex_spec(data@),
        s@.len() == 64,
{
    let d = sha256(data);
    hex_encode(d.as_slice())
}

// ── Ed25519 ──────────────────────────────────────────────────────────────────

/// Whether `ed25519-dalek` accepts `signature` (64 bytes) on `message` under the
/// public key `public_key` (32 bytes, which must decode to a curve point).
pub uninterp spec fn ed25519_verifies(public_key: Seq<u8>, message: Seq<u8>, signature: Seq<u8>) -> bool;

/// `ed25519_dalek::VerifyingKey::from_bytes` followed by `Verifier::verify`
/// with `Signature::from_bytes`: `true` exactly when the key bytes decode to a
/// point and the signature checks. What that check is stays unsaid here; it
/// is named by `ed25519_verifies`.
#[verifier::external_body]
pub(crate) fn ed25519_verify(public_key: &[u8], message: &[u8], signature: &[u8]) -> (ok: bool)
    requires
        public_key@.len() == 32,
        signature@.len() == 64,
    ensures
        ok == ed25519_verifies(public_key@, message@, signature@),
{
    let pk: [u8; 32] = public_key.try_into().unwrap();
    let sig: [u8; 64] = signature.try_into().unwrap();
    match ed25519_dalek::VerifyingKey::from_bytes(&pk) {
        Ok(vk) => ed25519_dalek::Verifier::verify(&vk, message, &ed25519_dalek::Signature::from_bytes(&sig)).is_ok(),
        Err(_) => false,
    }
}

// ── randomness ───────────────────────────────────────────────────────────────

/// `rand::random::<[u8; 32]>`: 32 bytes from the thread-local generator. Only
/// the length is stated; the bytes are chance.
#[verifier::external_body]
pub(crate) fn random_bytes_32() -> (r: Vec<u8>)
    ensures
        r@.len() == 32,
{
    rand::random::<[u8; 32]>().to_vec()
}

} // verus!
