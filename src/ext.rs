//! Calls into outside crates and into std, each behind a trusted contract.
use vstd::prelude::*;

use chrono::{Datelike, TimeZone, Timelike};

use crate::prune::LocalTime;

verus! {

/// The CRC-32 (IEEE) checksum of a byte sequence.
pub uninterp spec fn crc32_of(data: Seq<u8>) -> u32;

/// The SHA-256 digest of a byte sequence.
pub uninterp spec fn sha256_of(data: Seq<u8>) -> Seq<u8>;

/// The zstd frame (level 1) that compresses a byte sequence; `None` when
/// the compressor reports an error.
pub uninterp spec fn zstd_frame_of(data: Seq<u8>) -> Option<Seq<u8>>;

/// The content of a zstd frame; `None` when the input is no valid frame.
pub uninterp spec fn zstd_content_of(frame: Seq<u8>) -> Option<Seq<u8>>;

/// AES-256-GCM decryption with empty additional data; `None` when the tag
/// does not authenticate the ciphertext.
pub uninterp spec fn gcm_open(key: Seq<u8>, iv: Seq<u8>, tag: Seq<u8>, ct: Seq<u8>) -> Option<Seq<u8>>;

/// Relies on `crc32fast::hash`: the CRC-32 of the bytes, a function of the
/// bytes alone.
#[verifier::external_body]
pub(crate) fn crc32(data: &[u8]) -> (r: u32)
    ensures
        r == crc32_of(data@),
{
    crc32fast::hash(data)
}

/// Relies on `openssl::sha::sha256`: the SHA-256 digest of the bytes, 32
/// bytes long.
#[verifier::external_body]
pub(crate) fn sha256(data: &[u8]) -> (r: [u8; 32])
    ensures
        r@ == sha256_of(data@),
{
    openssl::sha::sha256(data)
}

/// Relies on `zstd::stream::encode_all` at level 1: the zstd frame of the
/// data, which `zstd::stream::decode_all` turns back into the data
/// (lossless compression).
#[verifier::external_body]
pub(crate) fn zstd_compress(data: &[u8]) -> (r: Option<Vec<u8>>)
    ensures
        r matches Some(v) ==> zstd_frame_of(data@) == Some(v@),
        r is None ==> zstd_frame_of(data@) is None,
        r matches Some(v) ==> zstd_content_of(v@) == Some(data@),
{
    zstd::stream::encode_all(data, 1).ok()
}

/// Relies on `zstd::stream::decode_all`: the content of a zstd frame, or an
/// error on input that is no valid frame.
#[verifier::external_body]
pub(crate) fn zstd_decompress(frame: &[u8]) -> (r: Option<Vec<u8>>)
    ensures
        r matches Some(v) ==> zstd_content_of(frame@) == Some(v@),
        r is None ==> zstd_content_of(frame@) is None,
{
    zstd::stream::decode_all(frame).ok()
}

/// Relies on `openssl::symm::encrypt_aead` with AES-256-GCM and empty
/// additional data: the ciphertext and its 16-byte tag, which
/// `decrypt_aead` with the same key and IV turns back into the data. The
/// cipher context panics on input longer than `i32::MAX` bytes, so the
/// input is bounded.
#[verifier::external_body]
pub(crate) fn gcm_seal(key: &[u8; 32], iv: &[u8; 16], data: &[u8]) -> (r: Option<(Vec<u8>, [u8; 16])>)
    requires
        data@.len() <= i32::MAX,
    ensures
        r matches Some((ct, tag)) ==> gcm_open(key@, iv@, tag@, ct@) == Some(data@),
{
    let mut tag = [0u8; 16];
    let cipher = openssl::symm::Cipher::aes_256_gcm();
    let ct = openssl::symm::encrypt_aead(cipher, key, Some(iv), b"", data, &mut tag).ok()?;
    Some((ct, tag))
}

/// Relies on `openssl::symm::decrypt_aead` with AES-256-GCM and empty
/// additional data: the plaintext, or an error when the tag does not match.
/// The cipher context panics on input longer than `i32::MAX` bytes, so the
/// input is bounded.
#[verifier::external_body]
pub(crate) fn gcm_decrypt(key: &[u8; 32], iv: &[u8; 16], tag: &[u8; 16], ct: &[u8]) -> (r: Option<Vec<u8>>)
    requires
        ct@.len() <= i32::MAX,
    ensures
        r matches Some(v) ==> gcm_open(key@, iv@, tag@, ct@) == Some(v@),
        r is None ==> gcm_open(key@, iv@, tag@, ct@) is None,
{
    let cipher = openssl::symm::Cipher::aes_256_gcm();
    openssl::symm::decrypt_aead(cipher, key, Some(iv), b"", ct, tag).ok()
}

/// Relies on `openssl::rand::rand_bytes`: 16 random bytes for an IV, or
/// `None` when the generator fails. Nothing is known of the bytes.
#[verifier::external_body]
pub(crate) fn random_iv() -> (r: Option<[u8; 16]>)
{
    let mut iv = [0u8; 16];
    openssl::rand::rand_bytes(&mut iv).ok()?;
    Some(iv)
}

/// Relies on `String::push`: appends the character at the end.
pub assume_specification[ String::push ](s: &mut String, ch: char)
    ensures
        final(s)@ == old(s)@.push(ch),
;

/// Relies on `String::push_str`: appends the characters of `t` at the end.
pub assume_specification[ String::push_str ](s: &mut String, t: &str)
    ensures
        final(s)@ == old(s)@ + t@,
;

/// Relies on `chrono::Local::timestamp_opt` and its calendar accessors: the
/// local calendar fields of a UNIX time in the machine's time zone, or
/// `None` where that time has no single local reading. The result depends
/// on the machine's time zone, so nothing is stated of it.
#[verifier::external_body]
pub(crate) fn local_time_of(epoch: i64) -> (r: Option<LocalTime>)
{
    let t = chrono::Local.timestamp_opt(epoch, 0).single()?;
    Some(LocalTime {
        year: t.year(),
        month: t.month(),
        day: t.day(),
        hour: t.hour(),
        iso_year: t.iso_week().year(),
        iso_week: t.iso_week().week(),
    })
}

/// Relies on `openssl::rand::rand_bytes` for 16 random bytes and on
/// `uuid::Builder::from_random_bytes` to make them a version-4 UUID;
/// `None` when the random source fails. Nothing is known of the bytes.
#[verifier::external_body]
pub(crate) fn random_uuid() -> (r: Option<[u8; 16]>)
{
    let mut bytes = [0u8; 16];
    openssl::rand::rand_bytes(&mut bytes).ok()?;
    Some(uuid::Builder::from_random_bytes(bytes).into_uuid().into_bytes())
}

/// Relies on `std::time::SystemTime::now` and `duration_since(UNIX_EPOCH)`:
/// the current UNIX time in seconds, or `None` before 1970. Nothing is
/// known of the value.
#[verifier::external_body]
pub(crate) fn unix_now() -> (r: Option<u64>)
{
    Some(std::time::SystemTime::now().duration_since(std::time::UNIX_EPOCH).ok()?.as_secs())
}

} // verus!
