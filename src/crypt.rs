//! Encryption keys and chunk digests.
use vstd::prelude::*;

use crate::bytes::push_bytes;
use crate::ext::{sha256, sha256_of};

verus! {

/// Whether a blob is encrypted, signed, or neither (`Plain`).
#[derive(Clone, Copy, Debug, PartialEq, Eq, Structural)]
pub enum CryptMode {
    Plain,
    Encrypt,
    SignOnly,
}

/// The keys of an encrypted datastore: `enc_key` encrypts payloads and
/// `id_key` keys the chunk digests, so that equal plaintext under different
/// keys gets different digests.
#[derive(Clone, Copy)]
pub struct CryptConfig {
    pub enc_key: [u8; 32],
    pub id_key: [u8; 32],
}

/// The digest of a chunk: SHA-256 of the plaintext, or of the plaintext
/// followed by the identity key when a key is given.
pub open spec fn digest_of(data: Seq<u8>, config: Option<CryptConfig>) -> Seq<u8> {
    match config {
        Some(c) => sha256_of(data + c.id_key@),
        None => sha256_of(data),
    }
}

impl CryptConfig {
    pub fn new(enc_key: [u8; 32], id_key: [u8; 32]) -> (r: Self)
        ensures
            r.enc_key == enc_key,
            r.id_key == id_key,
    {
        CryptConfig { enc_key, id_key }
    }

    /// The keyed digest of `data`.
    pub fn compute_digest(&self, data: &[u8]) -> (r: [u8; 32])
        ensures
            r@ == digest_of(data@, Some(*self)),
    {
        let mut buf: Vec<u8> = Vec::new();
        push_bytes(&mut buf, data);
        push_bytes(&mut buf, &self.id_key);
        assert(buf@ =~= data@ + self.id_key@);
        sha256(&buf)
    }
}

/// The digest of `data` under an optional key.
pub fn compute_digest(data: &[u8], config: Option<&CryptConfig>) -> (r: [u8; 32])
    ensures
        r@ == digest_of(data@, match config { Some(c) => Some(*c), None => None }),
{
    match config {
        Some(c) => c.compute_digest(data),
        None => sha256(data),
    }
}

} // verus!
