//! The data-blob envelope: magic, CRC-32 and optional IV/tag in front of a
//! raw, compressed and/or encrypted payload.
use vstd::prelude::*;

use crate::bytes::{bytes_at, copy_range, le_u32, lemma_le_u32_round_trip, push_bytes, push_u32_le, read_u32_le, u32_le_bytes};
use crate::crypt::{compute_digest, digest_of, CryptConfig, CryptMode};
use crate::ext::{crc32, crc32_of, gcm_decrypt, gcm_open, gcm_seal, random_iv, zstd_compress, zstd_content_of, zstd_decompress, zstd_frame_of};

verus! {

/// Largest payload a blob may hold (128 MiB).
pub const MAX_BLOB_SIZE: usize = 134217728;

/// Size of the header of an unencrypted blob: magic and CRC.
pub const BLOB_HEADER_SIZE: usize = 12;

/// Size of the header of an encrypted blob: magic, CRC, IV and tag.
pub const ENCRYPTED_BLOB_HEADER_SIZE: usize = 44;

pub const UNCOMPRESSED_BLOB_MAGIC_1_0: [u8; 8] = [66, 171, 56, 7, 190, 131, 112, 161];
pub const COMPRESSED_BLOB_MAGIC_1_0: [u8; 8] = [49, 185, 88, 66, 111, 182, 163, 127];
pub const ENCRYPTED_BLOB_MAGIC_1_0: [u8; 8] = [123, 103, 133, 190, 34, 45, 76, 240];
pub const ENCR_COMPR_BLOB_MAGIC_1_0: [u8; 8] = [230, 89, 27, 191, 11, 191, 216, 11];

/// The four framings of a blob.
#[derive(Clone, Copy, Debug, PartialEq, Eq, Structural)]
pub enum BlobKind {
    Uncompressed,
    Compressed,
    Encrypted,
    EncryptedCompressed,
}

/// Why a blob could not be built, parsed, checked or decoded.
#[derive(Clone, Copy, Debug, PartialEq, Eq, Structural)]
pub enum BlobError {
    /// The payload exceeds `MAX_BLOB_SIZE`.
    TooLarge,
    /// Fewer bytes than the header of the framing needs.
    TooSmall,
    /// The leading eight bytes are no known magic.
    BadMagic,
    /// The stored CRC does not match the bytes after the first twelve.
    CrcMismatch,
    /// An encrypted blob was to be decoded without a key.
    MissingKey,
    /// The reader reported an error.
    ReadFailed,
    /// The authentication tag did not verify.
    DecryptFailed,
    /// The payload is no valid zstd frame.
    DecompressFailed,
    /// The decoded data does not have the expected digest.
    DigestMismatch,
    /// The decoded data does not have the expected length.
    LengthMismatch,
    /// The compressor reported an error.
    CompressFailed,
    /// The cipher or the random source reported an error.
    EncryptFailed,
}

pub open spec fn magic_of(k: BlobKind) -> Seq<u8> {
    match k {
        BlobKind::Uncompressed => seq![66u8, 171, 56, 7, 190, 131, 112, 161],
        BlobKind::Compressed => seq![49u8, 185, 88, 66, 111, 182, 163, 127],
        BlobKind::Encrypted => seq![123u8, 103, 133, 190, 34, 45, 76, 240],
        BlobKind::EncryptedCompressed => seq![230u8, 89, 27, 191, 11, 191, 216, 11],
    }
}

pub open spec fn is_encrypted(k: BlobKind) -> bool {
    k == BlobKind::Encrypted || k == BlobKind::EncryptedCompressed
}

pub open spec fn header_len(k: BlobKind) -> nat {
    if is_encrypted(k) { 44 } else { 12 }
}

/// The framing that the leading eight bytes name.
pub open spec fn kind_of(raw: Seq<u8>) -> Option<BlobKind> {
    if raw.len() < 8 {
        None
    } else if raw.subrange(0, 8) == magic_of(BlobKind::Uncompressed) {
        Some(BlobKind::Uncompressed)
    } else if raw.subrange(0, 8) == magic_of(BlobKind::Compressed) {
        Some(BlobKind::Compressed)
    } else if raw.subrange(0, 8) == magic_of(BlobKind::Encrypted) {
        Some(BlobKind::Encrypted)
    } else if raw.subrange(0, 8) == magic_of(BlobKind::EncryptedCompressed) {
        Some(BlobKind::EncryptedCompressed)
    } else {
        None
    }
}

/// A byte sequence that is a blob: a known magic and a complete header.
pub open spec fn blob_wf(raw: Seq<u8>) -> bool {
    match kind_of(raw) {
        Some(k) => raw.len() >= header_len(k),
        None => false,
    }
}

/// The CRC stored in bytes 8..12.
pub open spec fn crc_field(raw: Seq<u8>) -> u32 {
    le_u32(raw.subrange(8, 12))
}

/// The CRC of everything after magic and CRC.
pub open spec fn crc_expected(raw: Seq<u8>) -> u32 {
    crc32_of(raw.subrange(12, raw.len() as int))
}

pub open spec fn crc_ok(raw: Seq<u8>) -> bool {
    crc_field(raw) == crc_expected(raw)
}

pub open spec fn payload_of(raw: Seq<u8>, k: BlobKind) -> Seq<u8> {
    raw.subrange(header_len(k) as int, raw.len() as int)
}

pub open spec fn iv_of(raw: Seq<u8>) -> Seq<u8> {
    raw.subrange(12, 28)
}

pub open spec fn tag_of(raw: Seq<u8>) -> Seq<u8> {
    raw.subrange(28, 44)
}

pub open spec fn config_view(config: Option<&CryptConfig>) -> Option<CryptConfig> {
    match config {
        Some(c) => Some(*c),
        None => None,
    }
}

/// The data, after the digest (if one is expected) has been checked.
pub open spec fn check_digest(data: Seq<u8>, config: Option<CryptConfig>, digest: Option<Seq<u8>>) -> Result<Seq<u8>, BlobError> {
    match digest {
        Some(d) => if digest_of(data, config) == d { Ok(data) } else { Err(BlobError::DigestMismatch) },
        None => Ok(data),
    }
}

/// What decoding a blob gives: CRC first, then the framing, then
/// decryption (of a blob no larger than any that `encode` makes), then
/// decompression, then the digest check.
pub open spec fn decode_spec(raw: Seq<u8>, config: Option<CryptConfig>, digest: Option<Seq<u8>>) -> Result<Seq<u8>, BlobError> {
    if !crc_ok(raw) {
        Err(BlobError::CrcMismatch)
    } else {
        match kind_of(raw) {
            None => Err(BlobError::BadMagic),
            Some(BlobKind::Uncompressed) => check_digest(payload_of(raw, BlobKind::Uncompressed), config, digest),
            Some(BlobKind::Compressed) => match zstd_content_of(payload_of(raw, BlobKind::Compressed)) {
                Some(d) => check_digest(d, config, digest),
                None => Err(BlobError::DecompressFailed),
            },
            Some(k) => match config {
                None => Err(BlobError::MissingKey),
                Some(c) => if raw.len() > MAX_BLOB_SIZE + ENCRYPTED_BLOB_HEADER_SIZE {
                    Err(BlobError::TooLarge)
                } else {
                    match gcm_open(c.enc_key@, iv_of(raw), tag_of(raw), payload_of(raw, k)) {
                        None => Err(BlobError::DecryptFailed),
                        Some(p) => if k == BlobKind::EncryptedCompressed {
                            match zstd_content_of(p) {
                                Some(d) => check_digest(d, config, digest),
                                None => Err(BlobError::DecompressFailed),
                            }
                        } else {
                            check_digest(p, config, digest)
                        },
                    }
                },
            },
        }
    }
}

/// An unencrypted blob around `payload`.
pub open spec fn plain_frame(k: BlobKind, payload: Seq<u8>) -> Seq<u8> {
    magic_of(k) + u32_le_bytes(crc32_of(payload)) + payload
}

/// The unencrypted blob that `encode` builds: compressed only where zstd
/// makes the payload shorter.
pub open spec fn encode_plain_spec(data: Seq<u8>, compress: bool) -> Result<Seq<u8>, BlobError> {
    if data.len() > MAX_BLOB_SIZE {
        Err(BlobError::TooLarge)
    } else if compress {
        match zstd_frame_of(data) {
            None => Err(BlobError::CompressFailed),
            Some(f) => if f.len() < data.len() {
                Ok(plain_frame(BlobKind::Compressed, f))
            } else {
                Ok(plain_frame(BlobKind::Uncompressed, data))
            },
        }
    } else {
        Ok(plain_frame(BlobKind::Uncompressed, data))
    }
}

/// What `verify_unencrypted` reports.
pub open spec fn verify_unencrypted_spec(raw: Seq<u8>, expected_len: nat, expected_digest: Seq<u8>) -> Result<(), BlobError> {
    match kind_of(raw) {
        Some(k) => if is_encrypted(k) {
            Ok(())
        } else {
            match decode_spec(raw, None, Some(expected_digest)) {
                Ok(d) => if d.len() == expected_len { Ok(()) } else { Err(BlobError::LengthMismatch) },
                Err(e) => Err(e),
            }
        },
        None => Err(BlobError::BadMagic),
    }
}

/// Data blob binary storage format: arbitrary data of at most 128 MiB,
/// possibly compressed and encrypted, framed so that corruption is detected.
pub struct DataBlob {
    raw_data: Vec<u8>,
}

impl View for DataBlob {
    type V = Seq<u8>;

    closed spec fn view(&self) -> Seq<u8> {
        self.raw_data@
    }
}

fn magic_array(k: BlobKind) -> (r: [u8; 8])
    ensures
        r@ == magic_of(k),
{
    let r = match k {
        BlobKind::Uncompressed => UNCOMPRESSED_BLOB_MAGIC_1_0,
        BlobKind::Compressed => COMPRESSED_BLOB_MAGIC_1_0,
        BlobKind::Encrypted => ENCRYPTED_BLOB_MAGIC_1_0,
        BlobKind::EncryptedCompressed => ENCR_COMPR_BLOB_MAGIC_1_0,
    };
    assert(r@ =~= magic_of(k));
    r
}

/// The framing named by the magic at the start of `raw`.
pub fn blob_kind(raw: &[u8]) -> (r: Option<BlobKind>)
    ensures
        r == kind_of(raw@),
{
    if raw.len() < 8 {
        return None;
    }
    let m = magic_array(BlobKind::Uncompressed);
    if bytes_at(raw, 0, &m) {
        return Some(BlobKind::Uncompressed);
    }
    let m = magic_array(BlobKind::Compressed);
    if bytes_at(raw, 0, &m) {
        return Some(BlobKind::Compressed);
    }
    let m = magic_array(BlobKind::Encrypted);
    if bytes_at(raw, 0, &m) {
        return Some(BlobKind::Encrypted);
    }
    let m = magic_array(BlobKind::EncryptedCompressed);
    if bytes_at(raw, 0, &m) {
        return Some(BlobKind::EncryptedCompressed);
    }
    None
}

fn kind_header_len(k: BlobKind) -> (r: usize)
    ensures
        r == header_len(k),
{
    match k {
        BlobKind::Encrypted | BlobKind::EncryptedCompressed => ENCRYPTED_BLOB_HEADER_SIZE,
        _ => BLOB_HEADER_SIZE,
    }
}

/// Builds an unencrypted blob around `payload`, CRC included.
fn frame_plain(k: BlobKind, payload: &[u8]) -> (r: Vec<u8>)
    ensures
        r@ == plain_frame(k, payload@),
{
    let mut raw: Vec<u8> = Vec::new();
    let m = magic_array(k);
    push_bytes(&mut raw, &m);
    push_u32_le(&mut raw, crc32(payload));
    push_bytes(&mut raw, payload);
    raw
}

proof fn lemma_plain_frame(k: BlobKind, payload: Seq<u8>)
    requires
        !is_encrypted(k),
    ensures
        kind_of(plain_frame(k, payload)) == Some(k),
        blob_wf(plain_frame(k, payload)),
        crc_ok(plain_frame(k, payload)),
        payload_of(plain_frame(k, payload), k) == payload,
{
    let raw = plain_frame(k, payload);
    let c = crc32_of(payload);
    lemma_le_u32_round_trip(c);
    assert(raw.subrange(0, 8) =~= magic_of(k));
    assert(raw.subrange(8, 12) =~= u32_le_bytes(c));
    assert(raw.subrange(12, raw.len() as int) =~= payload);
    lemma_kind_distinct(raw, k);
}


proof fn lemma_kind_distinct(raw: Seq<u8>, k: BlobKind)
    requires
        raw.len() >= 8,
        raw.subrange(0, 8) == magic_of(k),
    ensures
        kind_of(raw) == Some(k),
{
    assert(magic_of(BlobKind::Uncompressed)[0] != magic_of(BlobKind::Compressed)[0]);
    assert(magic_of(BlobKind::Compressed)[0] != magic_of(BlobKind::Encrypted)[0]);
    assert(magic_of(BlobKind::Uncompressed)[0] != magic_of(BlobKind::Encrypted)[0]);
    assert(magic_of(BlobKind::Uncompressed)[0] != magic_of(BlobKind::EncryptedCompressed)[0]);
    assert(magic_of(BlobKind::Compressed)[0] != magic_of(BlobKind::EncryptedCompressed)[0]);
    assert(magic_of(BlobKind::Encrypted)[0] != magic_of(BlobKind::EncryptedCompressed)[0]);
}

/// An encrypted blob: magic, CRC, IV, tag, ciphertext.
pub open spec fn encrypted_frame(k: BlobKind, iv: Seq<u8>, tag: Seq<u8>, ct: Seq<u8>) -> Seq<u8> {
    magic_of(k) + u32_le_bytes(crc32_of(iv + tag + ct)) + iv + tag + ct
}

proof fn lemma_encrypted_frame(k: BlobKind, iv: Seq<u8>, tag: Seq<u8>, ct: Seq<u8>)
    requires
        is_encrypted(k),
        iv.len() == 16,
        tag.len() == 16,
    ensures
        kind_of(encrypted_frame(k, iv, tag, ct)) == Some(k),
        blob_wf(encrypted_frame(k, iv, tag, ct)),
        crc_ok(encrypted_frame(k, iv, tag, ct)),
        iv_of(encrypted_frame(k, iv, tag, ct)) == iv,
        tag_of(encrypted_frame(k, iv, tag, ct)) == tag,
        payload_of(encrypted_frame(k, iv, tag, ct), k) == ct,
{
    let raw = encrypted_frame(k, iv, tag, ct);
    let c = crc32_of(iv + tag + ct);
    lemma_le_u32_round_trip(c);
    assert(raw.subrange(0, 8) =~= magic_of(k));
    assert(raw.subrange(8, 12) =~= u32_le_bytes(c));
    assert(raw.subrange(12, raw.len() as int) =~= iv + tag + ct);
    assert(raw.subrange(12, 28) =~= iv);
    assert(raw.subrange(28, 44) =~= tag);
    assert(raw.subrange(44, raw.len() as int) =~= ct);
    lemma_kind_distinct(raw, k);
}

impl DataBlob {
    #[verifier::type_invariant]
    spec fn inv(&self) -> bool {
        blob_wf(self.raw_data@)
    }

    /// The bytes of the blob, header included.
    pub fn raw_data(&self) -> (r: &[u8])
        ensures
            r@ == self@,
    {
        self.raw_data.as_slice()
    }

    /// The number of bytes of the blob.
    pub fn raw_size(&self) -> (r: u64)
        ensures
            r == self@.len(),
    {
        self.raw_data.len() as u64
    }

    /// The bytes of the blob.
    pub fn into_inner(self) -> (r: Vec<u8>)
        ensures
            r@ == self@,
    {
        self.raw_data
    }

    /// The leading eight bytes, which name the framing.
    pub fn magic(&self) -> (r: [u8; 8])
        ensures
            r@ == self@.subrange(0, 8),
    {
        proof { use_type_invariant(self); }
        let r: [u8; 8] = [
            self.raw_data[0], self.raw_data[1], self.raw_data[2], self.raw_data[3],
            self.raw_data[4], self.raw_data[5], self.raw_data[6], self.raw_data[7],
        ];
        assert(r@ =~= self@.subrange(0, 8));
        r
    }

    /// The framing of the blob.
    pub fn kind(&self) -> (r: BlobKind)
        ensures
            kind_of(self@) == Some(r),
    {
        proof { use_type_invariant(self); }
        blob_kind(self.raw_data.as_slice()).unwrap()
    }

    /// The CRC stored in the header.
    pub fn crc(&self) -> (r: u32)
        ensures
            r == crc_field(self@),
    {
        proof { use_type_invariant(self); }
        read_u32_le(self.raw_data.as_slice(), 8)
    }

    /// Stores `crc` in the header.
    pub fn set_crc(&mut self, crc: u32)
        ensures
            final(self)@ == old(self)@.subrange(0, 8) + u32_le_bytes(crc) + old(self)@.subrange(12, old(self)@.len() as int),
    {
        proof { use_type_invariant(&*self); }
        let ghost before = self.raw_data@;
        let mut raw: Vec<u8> = Vec::new();
        push_bytes(&mut raw, &self.raw_data.as_slice()[0..8]);
        push_u32_le(&mut raw, crc);
        let n = self.raw_data.len();
        push_bytes(&mut raw, &self.raw_data.as_slice()[12..n]);
        proof {
            assert(raw@.subrange(0, 8) =~= before.subrange(0, 8));
            assert(raw@.len() == before.len());
            lemma_kind_distinct_same(before, raw@);
        }
        self.raw_data = raw;
    }

    /// The CRC of everything after magic and CRC.
    pub fn compute_crc(&self) -> (r: u32)
        ensures
            r == crc_expected(self@),
    {
        proof { use_type_invariant(self); }
        let n = self.raw_data.len();
        crc32(&self.raw_data.as_slice()[12..n])
    }

    /// Checks the stored CRC.
    pub fn verify_crc(&self) -> (r: Result<(), BlobError>)
        ensures
            r is Ok <==> crc_ok(self@),
            r matches Err(e) ==> e == BlobError::CrcMismatch,
    {
        if self.compute_crc() != self.crc() {
            return Err(BlobError::CrcMismatch);
        }
        Ok(())
    }

    /// The encryption mode of the blob.
    pub fn crypt_mode(&self) -> (r: Result<CryptMode, BlobError>)
        ensures
            r is Ok && (r->Ok_0 == if is_encrypted(kind_of(self@)->0) { CryptMode::Encrypt } else { CryptMode::Plain }),
    {
        match self.kind() {
            BlobKind::Uncompressed | BlobKind::Compressed => Ok(CryptMode::Plain),
            BlobKind::Encrypted | BlobKind::EncryptedCompressed => Ok(CryptMode::Encrypt),
        }
    }

    /// Takes raw bytes as a blob when they start with a known magic and
    /// hold the whole header of that framing. The CRC is not checked here.
    pub fn from_raw(data: Vec<u8>) -> (r: Result<Self, BlobError>)
        ensures
            data@.len() < 12 ==> r == Err::<DataBlob, BlobError>(BlobError::TooSmall),
            data@.len() >= 12 && kind_of(data@) is None ==> r == Err::<DataBlob, BlobError>(BlobError::BadMagic),
            data@.len() >= 12 && kind_of(data@) is Some && data@.len() < header_len(kind_of(data@)->0)
                ==> r == Err::<DataBlob, BlobError>(BlobError::TooSmall),
            r is Ok <==> blob_wf(data@),
            r matches Ok(b) ==> b@ == data@,
    {
        if data.len() < BLOB_HEADER_SIZE {
            return Err(BlobError::TooSmall);
        }
        match blob_kind(data.as_slice()) {
            None => Err(BlobError::BadMagic),
            Some(k) => {
                if data.len() < kind_header_len(k) {
                    Err(BlobError::TooSmall)
                } else {
                    Ok(DataBlob { raw_data: data })
                }
            }
        }
    }

    /// Builds a blob from `data`: encrypted when a key is given, compressed
    /// with zstd when `compress` is set and that makes the payload shorter.
    /// Decoding the blob with the same key gives `data` back.
    pub fn encode(data: &[u8], config: Option<&CryptConfig>, compress: bool) -> (r: Result<Self, BlobError>)
        ensures
            data@.len() > MAX_BLOB_SIZE ==> r == Err::<DataBlob, BlobError>(BlobError::TooLarge),
            data@.len() <= MAX_BLOB_SIZE ==> r != Err::<DataBlob, BlobError>(BlobError::TooLarge),
            config is Some && r is Ok ==> {
                let b = r->Ok_0@;
                &&& is_encrypted(kind_of(b)->0)
                &&& b.len() >= 44
                &&& !compress ==> kind_of(b) == Some(BlobKind::Encrypted)
                &&& (kind_of(b) == Some(BlobKind::EncryptedCompressed) <==> compress
                    && zstd_frame_of(data@) is Some && zstd_frame_of(data@)->0.len() < data@.len())
            },
            config is Some && data@.len() <= MAX_BLOB_SIZE && compress && zstd_frame_of(data@) is None
                ==> r == Err::<DataBlob, BlobError>(BlobError::CompressFailed),
            config is None ==> match r {
                Ok(b) => encode_plain_spec(data@, compress) == Ok::<Seq<u8>, BlobError>(b@),
                Err(e) => encode_plain_spec(data@, compress) == Err::<Seq<u8>, BlobError>(e),
            },
            r matches Ok(b) ==> {
                &&& crc_ok(b@)
                &&& (config is Some <==> is_encrypted(kind_of(b@)->0))
                &&& decode_spec(b@, config_view(config), None) == Ok::<Seq<u8>, BlobError>(data@)
            },
    {
        if data.len() > MAX_BLOB_SIZE {
            return Err(BlobError::TooLarge);
        }
        match config {
            Some(c) => {
                let mut kind = BlobKind::Encrypted;
                let mut compressed: Vec<u8> = Vec::new();
                if compress {
                    match zstd_compress(data) {
                        Some(f) => {
                            if f.len() < data.len() {
                                compressed = f;
                                kind = BlobKind::EncryptedCompressed;
                            }
                        }
                        None => return Err(BlobError::CompressFailed),
                    }
                }
                let iv = match random_iv() {
                    Some(iv) => iv,
                    None => return Err(BlobError::EncryptFailed),
                };
                let sealed = if kind == BlobKind::EncryptedCompressed {
                    gcm_seal(&c.enc_key, &iv, compressed.as_slice())
                } else {
                    gcm_seal(&c.enc_key, &iv, data)
                };
                let (ct, tag) = match sealed {
                    Some(s) => s,
                    None => return Err(BlobError::EncryptFailed),
                };
                let mut body: Vec<u8> = Vec::new();
                push_bytes(&mut body, &iv);
                push_bytes(&mut body, &tag);
                push_bytes(&mut body, ct.as_slice());
                let mut raw: Vec<u8> = Vec::new();
                let m = magic_array(kind);
                push_bytes(&mut raw, &m);
                push_u32_le(&mut raw, crc32(body.as_slice()));
                push_bytes(&mut raw, body.as_slice());
                proof {
                    assert(body@ =~= iv@ + tag@ + ct@);
                    assert(raw@ =~= encrypted_frame(kind, iv@, tag@, ct@));
                    lemma_encrypted_frame(kind, iv@, tag@, ct@);
                }
                if raw.len() > MAX_BLOB_SIZE + ENCRYPTED_BLOB_HEADER_SIZE {
                    return Err(BlobError::EncryptFailed);
                }
                Ok(DataBlob { raw_data: raw })
            }
            None => {
                if compress {
                    match zstd_compress(data) {
                        Some(f) => {
                            if f.len() < data.len() {
                                let raw = frame_plain(BlobKind::Compressed, f.as_slice());
                                proof { lemma_plain_frame(BlobKind::Compressed, f@); }
                                return Ok(DataBlob { raw_data: raw });
                            }
                        }
                        None => return Err(BlobError::CompressFailed),
                    }
                }
                let raw = frame_plain(BlobKind::Uncompressed, data);
                proof { lemma_plain_frame(BlobKind::Uncompressed, data@); }
                Ok(DataBlob { raw_data: raw })
            }
        }
    }
}

fn check_digest_exec(data: Vec<u8>, config: Option<&CryptConfig>, digest: Option<&[u8; 32]>) -> (r: Result<Vec<u8>, BlobError>)
    ensures
        match r {
            Ok(v) => check_digest(data@, config_view(config), digest_view(digest)) == Ok::<Seq<u8>, BlobError>(v@),
            Err(e) => check_digest(data@, config_view(config), digest_view(digest)) == Err::<Seq<u8>, BlobError>(e),
        },
{
    match digest {
        Some(d) => {
            let computed = compute_digest(data.as_slice(), config);
            if bytes_at(&computed, 0, d) {
                assert(computed@.subrange(0, 32) =~= computed@);
                Ok(data)
            } else {
                assert(computed@.subrange(0, 32) =~= computed@);
                Err(BlobError::DigestMismatch)
            }
        }
        None => Ok(data),
    }
}

pub open spec fn digest_view(digest: Option<&[u8; 32]>) -> Option<Seq<u8>> {
    match digest {
        Some(d) => Some(d@),
        None => None,
    }
}

impl DataBlob {
    /// Decodes the blob: checks the CRC, decrypts with `config` where the
    /// blob is encrypted, decompresses, and checks the digest when one is
    /// given.
    pub fn decode(&self, config: Option<&CryptConfig>, digest: Option<&[u8; 32]>) -> (r: Result<Vec<u8>, BlobError>)
        ensures
            match r {
                Ok(v) => decode_spec(self@, config_view(config), digest_view(digest)) == Ok::<Seq<u8>, BlobError>(v@),
                Err(e) => decode_spec(self@, config_view(config), digest_view(digest)) == Err::<Seq<u8>, BlobError>(e),
            },
    {
        proof { use_type_invariant(self); }
        if self.compute_crc() != self.crc() {
            return Err(BlobError::CrcMismatch);
        }
        let n = self.raw_data.len();
        let raw = self.raw_data.as_slice();
        match self.kind() {
            BlobKind::Uncompressed => {
                let data = copy_range(raw, 12, n);
                check_digest_exec(data, config, digest)
            }
            BlobKind::Compressed => {
                match zstd_decompress(&raw[12..n]) {
                    Some(data) => check_digest_exec(data, config, digest),
                    None => Err(BlobError::DecompressFailed),
                }
            }
            k => {
                match config {
                    None => Err(BlobError::MissingKey),
                    Some(c) => {
                        if n > MAX_BLOB_SIZE + ENCRYPTED_BLOB_HEADER_SIZE {
                            return Err(BlobError::TooLarge);
                        }
                        let iv: [u8; 16] = [
                            raw[12], raw[13], raw[14], raw[15], raw[16], raw[17], raw[18], raw[19],
                            raw[20], raw[21], raw[22], raw[23], raw[24], raw[25], raw[26], raw[27],
                        ];
                        let tag: [u8; 16] = [
                            raw[28], raw[29], raw[30], raw[31], raw[32], raw[33], raw[34], raw[35],
                            raw[36], raw[37], raw[38], raw[39], raw[40], raw[41], raw[42], raw[43],
                        ];
                        assert(iv@ =~= iv_of(self@));
                        assert(tag@ =~= tag_of(self@));
                        match gcm_decrypt(&c.enc_key, &iv, &tag, &raw[44..n]) {
                            None => Err(BlobError::DecryptFailed),
                            Some(p) => {
                                if k == BlobKind::EncryptedCompressed {
                                    match zstd_decompress(p.as_slice()) {
                                        Some(data) => check_digest_exec(data, config, digest),
                                        None => Err(BlobError::DecompressFailed),
                                    }
                                } else {
                                    check_digest_exec(p, config, digest)
                                }
                            }
                        }
                    }
                }
            }
        }
    }

    /// For an unencrypted blob, decodes it and checks its length and digest;
    /// an encrypted blob cannot be checked without its key and passes.
    pub fn verify_unencrypted(&self, expected_chunk_size: usize, expected_digest: &[u8; 32]) -> (r: Result<(), BlobError>)
        ensures
            r == verify_unencrypted_spec(self@, expected_chunk_size as nat, expected_digest@),
    {
        proof { use_type_invariant(self); }
        match self.kind() {
            BlobKind::Encrypted | BlobKind::EncryptedCompressed => Ok(()),
            _ => {
                let data = self.decode(None, Some(expected_digest))?;
                if expected_chunk_size != data.len() {
                    return Err(BlobError::LengthMismatch);
                }
                Ok(())
            }
        }
    }
}

proof fn lemma_kind_distinct_same(a: Seq<u8>, b: Seq<u8>)
    requires
        blob_wf(a),
        a.len() == b.len(),
        a.subrange(0, 8) == b.subrange(0, 8),
    ensures
        blob_wf(b),
        kind_of(b) == kind_of(a),
{
}


/// What a keyed chunk build owes: a compressor failure is reported before
/// encryption, and the compressed framing is used exactly when zstd makes
/// the data shorter.
pub open spec fn keyed_encoding(data: Seq<u8>, compress: bool, r: Result<(DataBlob, [u8; 32]), BlobError>) -> bool {
    &&& data.len() <= MAX_BLOB_SIZE && compress && zstd_frame_of(data) is None
        ==> r == Err::<(DataBlob, [u8; 32]), BlobError>(BlobError::CompressFailed)
    &&& data.len() <= MAX_BLOB_SIZE ==> r != Err::<(DataBlob, [u8; 32]), BlobError>(BlobError::TooLarge)
    &&& r is Ok ==> {
        let b = r->Ok_0.0@;
        &&& is_encrypted(kind_of(b)->0)
        &&& (kind_of(b) == Some(BlobKind::EncryptedCompressed) <==> compress
            && zstd_frame_of(data) is Some && zstd_frame_of(data)->0.len() < data.len())
    }
}

/// Encoded data chunk with digest and positional information.
pub struct ChunkInfo {
    pub chunk: DataBlob,
    pub digest: [u8; 32],
    pub chunk_len: u64,
    pub offset: u64,
}

/// Builder for chunk blobs: computes the digest the right way, keyed when
/// the chunk is encrypted.
pub struct DataChunkBuilder<'a, 'b> {
    config: Option<&'b CryptConfig>,
    orig_data: &'a [u8],
    digest_computed: bool,
    digest: [u8; 32],
    compress: bool,
}

impl<'a, 'b> DataChunkBuilder<'a, 'b> {
    pub closed spec fn spec_data(&self) -> Seq<u8> {
        self.orig_data@
    }

    pub closed spec fn spec_config(&self) -> Option<CryptConfig> {
        config_view(self.config)
    }

    pub closed spec fn spec_compress(&self) -> bool {
        self.compress
    }

    pub closed spec fn spec_digest_computed(&self) -> bool {
        self.digest_computed
    }

    /// Whether the stored digest, once computed, is the digest of the data.
    pub closed spec fn wf(&self) -> bool {
        self.digest_computed ==> self.digest@ == digest_of(self.orig_data@, config_view(self.config))
    }

    /// A builder for `orig_data`, unencrypted and compressed.
    pub fn new(orig_data: &'a [u8]) -> (r: Self)
        ensures
            r.wf(),
            r.spec_data() == orig_data@,
            r.spec_config() is None,
            r.spec_compress(),
            !r.spec_digest_computed(),
    {
        DataChunkBuilder { orig_data, config: None, digest_computed: false, digest: [0u8; 32], compress: true }
    }

    /// Sets whether the chunk is compressed with zstd.
    pub fn compress(self, value: bool) -> (r: Self)
        ensures
            self.wf() ==> r.wf(),
            r.spec_data() == self.spec_data(),
            r.spec_config() == self.spec_config(),
            r.spec_compress() == value,
            r.spec_digest_computed() == self.spec_digest_computed(),
    {
        let mut b = self;
        b.compress = value;
        b
    }

    /// Sets the key: the chunk is encrypted and its digest keyed. The key
    /// cannot change once the digest has been computed.
    pub fn crypt_config(self, value: &'b CryptConfig) -> (r: Self)
        requires
            !self.spec_digest_computed(),
        ensures
            r.wf(),
            r.spec_data() == self.spec_data(),
            r.spec_config() == Some(*value),
            r.spec_compress() == self.spec_compress(),
            !r.spec_digest_computed(),
    {
        let mut b = self;
        b.config = Some(value);
        b
    }

    fn compute_digest(&mut self)
        requires
            old(self).wf(),
        ensures
            final(self).wf(),
            final(self).spec_digest_computed(),
            final(self).spec_data() == old(self).spec_data(),
            final(self).spec_config() == old(self).spec_config(),
            final(self).spec_compress() == old(self).spec_compress(),
    {
        if !self.digest_computed {
            self.digest = compute_digest(self.orig_data, self.config);
            self.digest_computed = true;
        }
    }

    /// The chunk digest (for an encrypted chunk, set the key first).
    pub fn digest(&mut self) -> (r: [u8; 32])
        requires
            old(self).wf(),
        ensures
            r@ == digest_of(old(self).spec_data(), old(self).spec_config()),
            final(self).wf(),
            final(self).spec_digest_computed(),
            final(self).spec_data() == old(self).spec_data(),
            final(self).spec_config() == old(self).spec_config(),
            final(self).spec_compress() == old(self).spec_compress(),
    {
        self.compute_digest();
        self.digest
    }

    /// Builds the blob; returns it with the chunk digest.
    pub fn build(self) -> (r: Result<(DataBlob, [u8; 32]), BlobError>)
        requires
            self.wf(),
        ensures
            self.spec_data().len() > MAX_BLOB_SIZE ==> r is Err,
            r matches Ok((b, d)) ==> {
                &&& d@ == digest_of(self.spec_data(), self.spec_config())
                &&& crc_ok(b@)
                &&& decode_spec(b@, self.spec_config(), Some(d@)) == Ok::<Seq<u8>, BlobError>(self.spec_data())
            },
            self.spec_config() is None ==> match r {
                Ok((b, _)) => encode_plain_spec(self.spec_data(), self.spec_compress()) == Ok::<Seq<u8>, BlobError>(b@),
                Err(e) => encode_plain_spec(self.spec_data(), self.spec_compress()) == Err::<Seq<u8>, BlobError>(e),
            },
            self.spec_config() is Some ==> keyed_encoding(self.spec_data(), self.spec_compress(), r),
    {
        let mut b = self;
        b.compute_digest();
        let chunk = DataBlob::encode(b.orig_data, b.config, b.compress)?;
        proof { lemma_decode_with_digest(chunk@, b.spec_config(), b.spec_data()); }
        Ok((chunk, b.digest))
    }

    /// A chunk of `chunk_size` zero bytes.
    pub fn build_zero_chunk(crypt_config: Option<&CryptConfig>, chunk_size: usize, compress: bool) -> (r: Result<(DataBlob, [u8; 32]), BlobError>)
        ensures
            chunk_size > MAX_BLOB_SIZE ==> r is Err,
            crypt_config is None ==> match r {
                Ok((b, _)) => encode_plain_spec(Seq::new(chunk_size as nat, |i: int| 0u8), compress) == Ok::<Seq<u8>, BlobError>(b@),
                Err(e) => encode_plain_spec(Seq::new(chunk_size as nat, |i: int| 0u8), compress) == Err::<Seq<u8>, BlobError>(e),
            },
            crypt_config is Some ==> keyed_encoding(Seq::new(chunk_size as nat, |i: int| 0u8), compress, r),
            r matches Ok((b, d)) ==> {
                &&& d@ == digest_of(Seq::new(chunk_size as nat, |i: int| 0u8), config_view(crypt_config))
                &&& crc_ok(b@)
                &&& decode_spec(b@, config_view(crypt_config), Some(d@))
                    == Ok::<Seq<u8>, BlobError>(Seq::new(chunk_size as nat, |i: int| 0u8))
            },
    {
        let mut zero_bytes: Vec<u8> = Vec::new();
        let mut i: usize = 0;
        while i < chunk_size
            invariant
                i <= chunk_size,
                zero_bytes@ == Seq::new(i as nat, |j: int| 0u8),
            decreases chunk_size - i,
        {
            zero_bytes.push(0u8);
            i += 1;
            assert(zero_bytes@ =~= Seq::new(i as nat, |j: int| 0u8));
        }
        let mut builder = DataChunkBuilder::new(zero_bytes.as_slice()).compress(compress);
        if let Some(c) = crypt_config {
            builder = builder.crypt_config(c);
        }
        builder.build()
    }
}

/// A chunk file is named by the digest of its content: a blob that decodes
/// to `data` also decodes when the (keyed) digest of `data` is expected,
/// so the digest it is filed under matches what it holds.
pub proof fn lemma_decode_with_digest(raw: Seq<u8>, config: Option<CryptConfig>, data: Seq<u8>)
    requires
        decode_spec(raw, config, None) == Ok::<Seq<u8>, BlobError>(data),
    ensures
        decode_spec(raw, config, Some(digest_of(data, config))) == Ok::<Seq<u8>, BlobError>(data),
{
}

} // verus!
