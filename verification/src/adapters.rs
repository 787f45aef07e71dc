//! Trusted adapters over external primitives.
//!
//! Every function here is `external_body`: its body makes one call into
//! an outside crate (the Stellar SDK's wire codec, key encoding and
//! ed25519 verification, the SHA-256 digest, chrono's time formatting,
//! std's UTF-8 conversion) and its contract is what the verifier
//! believes about that call. Results that are functions of the
//! arguments alone but have no short closed form are given names by the
//! uninterpreted spec functions below; verified code reasons about those
//! names only through these contracts.

use vstd::prelude::*;

use sha2::Digest;
use stellar_xdr::ReadXdr;
use crate::transaction::{sig_section_len, sig_views, SigEntry};

verus! {

/// The attached signature list (hint, signature bytes) that the wire
/// codec reads from an envelope encoding, or `None` when the bytes are
/// not a well-formed version-1 transaction envelope.
pub uninterp spec fn envelope_sigs(b: Seq<u8>) -> Option<Seq<(Seq<u8>, Seq<u8>)>>;

/// The SHA-256 digest of a byte sequence.
pub uninterp spec fn sha256_of(b: Seq<u8>) -> Seq<u8>;

/// Whether `signature` is a valid ed25519 signature by the holder of
/// `key` over `message`.
pub uninterp spec fn sig_valid_of(key: Seq<u8>, message: Seq<u8>, signature: Seq<u8>) -> bool;

/// The raw 32-byte public key denoted by a text account identifier, or
/// `None` when the text is not a well-formed public-key encoding.
pub uninterp spec fn strkey_decode_of(s: Seq<char>) -> Option<Seq<u8>>;

/// The text account identifier (ASCII bytes) of a raw 32-byte public key.
pub uninterp spec fn strkey_text_of(key: Seq<u8>) -> Seq<u8>;

/// The rendering of a unix timestamp as `YYYY-MM-DD hh:mm:ss` text.
pub uninterp spec fn timestamp_text_of(secs: int) -> Seq<char>;

/// Relies on `TransactionEnvelope::from_xdr` of the `stellar-xdr`
/// crate, whose reader is total on untrusted bytes: it decodes the
/// whole input (rejecting trailing bytes and nonzero padding) and
/// yields a version-1 envelope whose signature list is a var-array of
/// at most 20 entries, each a 4-byte hint and a signature of at most 64
/// bytes, stored at the very end of the encoding. The depth limit is
/// far beyond any well-formed transaction and only rules out a stack
/// overflow on adversarially nested input.
#[verifier::external_body]
pub(crate) fn parse_tx_signatures(bytes: &[u8]) -> (r: Option<Vec<SigEntry>>)
    ensures
        r matches Some(v) ==> envelope_sigs(bytes@) == Some(sig_views(v@)),
        r is Some <==> envelope_sigs(bytes@) is Some,
        r matches Some(v) ==> v@.len() <= 20,
        r matches Some(v) ==> forall|i: int|
            0 <= i < v@.len() ==> v@[i].hint@.len() == 4 && v@[i].signature@.len() <= 64,
        r matches Some(v) ==> 4 + sig_section_len(sig_views(v@)) <= bytes@.len(),
{
    match stellar_xdr::TransactionEnvelope::from_xdr(bytes, stellar_xdr::Limits::depth(500)) {
        Ok(stellar_xdr::TransactionEnvelope::Tx(env)) => Some(
            env.signatures.iter().map(
                |s| SigEntry { hint: s.hint.0.to_vec(), signature: s.signature.to_vec() },
            ).collect(),
        ),
        _ => None,
    }
}

/// Relies on the SHA-256 implementation of the `sha2` crate: a 32-byte
/// digest that depends on the input bytes alone.
#[verifier::external_body]
pub(crate) fn sha256(bytes: &[u8]) -> (r: Vec<u8>)
    ensures
        r@ == sha256_of(bytes@),
        r@.len() == 32,
{
    let mut hasher = sha2::Sha256::new();
    hasher.update(bytes);
    hasher.finalize().to_vec()
}

/// Relies on `PublicKey::verify_signature` of the Stellar SDK: ed25519
/// verification of a 64-byte signature against a 32-byte key, a result
/// that depends on the arguments alone.
#[verifier::external_body]
pub(crate) fn verify_sig(key: &[u8], message: &[u8], signature: &[u8]) -> (r: bool)
    requires
        key@.len() == 32,
        signature@.len() == 64,
    ensures
        r == sig_valid_of(key@, message@, signature@),
{
    let raw: [u8; 32] = key.try_into().unwrap();
    let pk = substrate_stellar_sdk::PublicKey::from_binary(raw);
    let sig: &[u8; 64] = signature.try_into().unwrap();
    pk.verify_signature(message, sig)
}

/// Relies on `PublicKey::from_encoding` of the Stellar SDK: decodes a
/// text account identifier (base32 with version byte and checksum) to
/// the raw 32-byte ed25519 public key, failing on any other key form.
#[verifier::external_body]
pub(crate) fn decode_public_key(text: &str) -> (r: Option<Vec<u8>>)
    ensures
        r is Some <==> strkey_decode_of(text@) is Some,
        r matches Some(k) ==> Some(k@) == strkey_decode_of(text@),
        r matches Some(k) ==> k@.len() == 32,
{
    match substrate_stellar_sdk::PublicKey::from_encoding(text.as_bytes()) {
        Ok(pk) => Some(pk.into_binary().to_vec()),
        Err(_) => None,
    }
}

/// Relies on `PublicKey::to_encoding` of the Stellar SDK: the 56-char
/// ASCII text identifier of a raw 32-byte ed25519 public key.
#[verifier::external_body]
pub(crate) fn encode_public_key(key: &[u8]) -> (r: Vec<u8>)
    requires
        key@.len() == 32,
    ensures
        r@ == strkey_text_of(key@),
        r@.len() == 56,
        forall|i: int| 0 <= i < r@.len() ==> r@[i] < 128,
{
    let raw: [u8; 32] = key.try_into().unwrap();
    substrate_stellar_sdk::PublicKey::from_binary(raw).to_encoding()
}

/// Relies on `String::from_utf8`: ASCII bytes are valid UTF-8 and decode
/// to the characters with the same code points.
#[verifier::external_body]
pub(crate) fn ascii_to_string(bytes: &Vec<u8>) -> (r: String)
    requires
        forall|i: int| 0 <= i < bytes@.len() ==> bytes@[i] < 128,
    ensures
        r@.len() == bytes@.len(),
        forall|i: int| 0 <= i < bytes@.len() ==> r@[i] == bytes@[i] as char,
{
    String::from_utf8(bytes.clone()).unwrap()
}

/// Relies on chrono's `DateTime::from_timestamp` and `format`: the
/// rendered `YYYY-MM-DD hh:mm:ss` text depends on the timestamp alone.
/// The admitted range ends with year 9999, within chrono's domain.
#[verifier::external_body]
pub(crate) fn format_timestamp(secs: i64) -> (r: String)
    requires
        0 <= secs <= 253402300799,
    ensures
        r@ == timestamp_text_of(secs as int),
{
    let dt = chrono::DateTime::from_timestamp(secs, 0).unwrap();
    format!("{}", dt.naive_utc().format("%Y-%m-%d %H:%M:%S"))
}

} // verus!
