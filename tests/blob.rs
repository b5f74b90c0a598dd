use pbs_store::blob::{
    BlobError, DataBlob, DataChunkBuilder, COMPRESSED_BLOB_MAGIC_1_0, ENCRYPTED_BLOB_MAGIC_1_0,
    ENCR_COMPR_BLOB_MAGIC_1_0, MAX_BLOB_SIZE, UNCOMPRESSED_BLOB_MAGIC_1_0,
};
use pbs_store::crypt::{compute_digest, CryptConfig, CryptMode};

fn test_config() -> CryptConfig {
    CryptConfig::new([7u8; 32], [9u8; 32])
}

#[test]
fn blob_round_trip_hello_world() {
    let blob = DataBlob::encode(b"hello world", None, true).unwrap();
    assert_eq!(blob.magic(), UNCOMPRESSED_BLOB_MAGIC_1_0);
    assert_eq!(blob.raw_size(), 12 + 11);
    assert!(blob.verify_crc().is_ok());
    assert_eq!(blob.decode(None, None).unwrap(), b"hello world".to_vec());
    let raw = blob.raw_data().to_vec();
    for pos in 12..raw.len() {
        let mut flipped = raw.clone();
        flipped[pos] ^= 0x01;
        let bad = DataBlob::from_raw(flipped).unwrap();
        assert_eq!(bad.verify_crc(), Err(BlobError::CrcMismatch));
        assert_eq!(bad.decode(None, None), Err(BlobError::CrcMismatch));
    }
}

#[test]
fn crc_is_crc32_of_payload() {
    let blob = DataBlob::encode(b"hello world", None, false).unwrap();
    assert_eq!(blob.crc(), 0x0d4a1185);
    assert_eq!(blob.compute_crc(), 0x0d4a1185);
    assert_eq!(&blob.raw_data()[8..12], &0x0d4a1185u32.to_le_bytes());
}

#[test]
fn set_crc_rewrites_header() {
    let mut blob = DataBlob::encode(b"abc", None, false).unwrap();
    blob.set_crc(0x11223344);
    assert_eq!(blob.crc(), 0x11223344);
    assert_eq!(blob.verify_crc(), Err(BlobError::CrcMismatch));
    let right = blob.compute_crc();
    blob.set_crc(right);
    assert!(blob.verify_crc().is_ok());
}

#[test]
fn zeros_are_compressed() {
    let data = vec![0u8; 1024 * 1024];
    let blob = DataBlob::encode(&data, None, true).unwrap();
    assert_eq!(blob.magic(), COMPRESSED_BLOB_MAGIC_1_0);
    assert!(blob.raw_size() < 1024 * 1024);
    assert_eq!(blob.decode(None, None).unwrap(), data);
    assert_eq!(blob.crypt_mode(), Ok(CryptMode::Plain));
}

#[test]
fn uncompressed_when_not_asked() {
    let data = vec![0u8; 4096];
    let blob = DataBlob::encode(&data, None, false).unwrap();
    assert_eq!(blob.magic(), UNCOMPRESSED_BLOB_MAGIC_1_0);
    assert_eq!(blob.raw_size(), 4096 + 12);
    assert_eq!(blob.into_inner()[12..].to_vec(), data);
}

#[test]
fn encrypted_round_trip() {
    let config = test_config();
    let data = b"some secret data that is not very long".to_vec();
    let blob = DataBlob::encode(&data, Some(&config), false).unwrap();
    assert_eq!(blob.magic(), ENCRYPTED_BLOB_MAGIC_1_0);
    assert_eq!(blob.raw_size() as usize, 44 + data.len());
    assert!(blob.verify_crc().is_ok());
    assert_eq!(blob.crypt_mode(), Ok(CryptMode::Encrypt));
    assert_ne!(blob.raw_data()[44..].to_vec(), data);
    assert_eq!(blob.decode(Some(&config), None).unwrap(), data);
    assert_eq!(blob.decode(None, None), Err(BlobError::MissingKey));
    let other = CryptConfig::new([8u8; 32], [9u8; 32]);
    assert_eq!(blob.decode(Some(&other), None), Err(BlobError::DecryptFailed));
}

#[test]
fn encrypted_compressed_round_trip() {
    let config = test_config();
    let data = vec![0u8; 65536];
    let blob = DataBlob::encode(&data, Some(&config), true).unwrap();
    assert_eq!(blob.magic(), ENCR_COMPR_BLOB_MAGIC_1_0);
    assert!(blob.verify_crc().is_ok());
    let digest = config.compute_digest(&data);
    assert_eq!(blob.decode(Some(&config), Some(&digest)).unwrap(), data);
}

#[test]
fn digest_is_checked() {
    let blob = DataBlob::encode(b"hello world", None, true).unwrap();
    let good = compute_digest(b"hello world", None);
    let bad = [0u8; 32];
    assert_eq!(blob.decode(None, Some(&good)).unwrap(), b"hello world".to_vec());
    assert_eq!(blob.decode(None, Some(&bad)), Err(BlobError::DigestMismatch));
}

#[test]
fn sha256_digest_value() {
    let d = compute_digest(b"abc", None);
    assert_eq!(
        pbs_store::bytes::digest_to_hex(&d),
        "ba7816bf8f01cfea414140de5dae2223b00361a396177a9cb410ff61f20015ad"
    );
    let keyed = test_config().compute_digest(b"abc");
    assert_ne!(keyed, d);
}

#[test]
fn from_raw_errors() {
    assert!(matches!(DataBlob::from_raw(vec![0u8; 5]), Err(BlobError::TooSmall)));
    assert!(matches!(DataBlob::from_raw(vec![0u8; 20]), Err(BlobError::BadMagic)));
    let mut enc = ENCRYPTED_BLOB_MAGIC_1_0.to_vec();
    enc.extend_from_slice(&[0u8; 20]);
    assert!(matches!(DataBlob::from_raw(enc), Err(BlobError::TooSmall)));
    let mut plain = UNCOMPRESSED_BLOB_MAGIC_1_0.to_vec();
    plain.extend_from_slice(&[0u8; 4]);
    assert!(DataBlob::from_raw(plain).is_ok());
}

#[test]
fn too_large_is_refused() {
    let data = vec![1u8; MAX_BLOB_SIZE + 1];
    assert!(matches!(DataBlob::encode(&data, None, false), Err(BlobError::TooLarge)));
}

#[test]
fn verify_unencrypted_checks_length_and_digest() {
    let data = vec![3u8; 1000];
    let blob = DataBlob::encode(&data, None, true).unwrap();
    let digest = compute_digest(&data, None);
    assert_eq!(blob.verify_unencrypted(1000, &digest), Ok(()));
    assert_eq!(blob.verify_unencrypted(999, &digest), Err(BlobError::LengthMismatch));
    assert_eq!(blob.verify_unencrypted(1000, &[1u8; 32]), Err(BlobError::DigestMismatch));
    let enc = DataBlob::encode(&data, Some(&test_config()), true).unwrap();
    assert_eq!(enc.verify_unencrypted(5, &[1u8; 32]), Ok(()));
}

#[test]
fn oversized_blob_is_refused_by_decode() {
    let mut raw = ENCRYPTED_BLOB_MAGIC_1_0.to_vec();
    raw.resize(MAX_BLOB_SIZE + 45, 0u8);
    let mut blob = DataBlob::from_raw(raw).unwrap();
    let crc = blob.compute_crc();
    blob.set_crc(crc);
    assert_eq!(blob.decode(None, None), Err(BlobError::MissingKey));
    assert_eq!(blob.decode(Some(&test_config()), None), Err(BlobError::TooLarge));
}

#[test]
fn encrypted_framing() {
    let config = test_config();
    let blob = DataBlob::encode(&vec![0u8; 1000], Some(&config), false).unwrap();
    assert_eq!(blob.magic(), ENCRYPTED_BLOB_MAGIC_1_0);
    assert!(blob.raw_size() >= 44);
}

#[test]
fn zero_chunk_is_plain_encoding() {
    let (blob, d) = DataChunkBuilder::build_zero_chunk(None, 4096, false).unwrap();
    let expected = DataBlob::encode(&vec![0u8; 4096], None, false).unwrap();
    assert_eq!(blob.raw_data(), expected.raw_data());
    assert_eq!(blob.decode(None, Some(&d)).unwrap(), vec![0u8; 4096]);
}

#[test]
fn chunk_builder_digest_and_blob() {
    let data = b"chunk data".to_vec();
    let mut builder = DataChunkBuilder::new(&data).compress(false);
    let d = builder.digest();
    assert_eq!(d, compute_digest(&data, None));
    let (blob, digest) = builder.build().unwrap();
    assert_eq!(digest, d);
    assert_eq!(blob.decode(None, Some(&digest)).unwrap(), data);
}

#[test]
fn chunk_builder_keyed() {
    let config = test_config();
    let data = b"chunk data".to_vec();
    let (blob, digest) = DataChunkBuilder::new(&data).crypt_config(&config).build().unwrap();
    assert_eq!(digest, config.compute_digest(&data));
    assert_eq!(blob.crypt_mode(), Ok(CryptMode::Encrypt));
    assert_eq!(blob.decode(Some(&config), Some(&digest)).unwrap(), data);
}

#[test]
fn zero_chunk_digest_is_stable() {
    let (a, da) = DataChunkBuilder::build_zero_chunk(None, 1024 * 1024, true).unwrap();
    let (b, db) = DataChunkBuilder::build_zero_chunk(None, 1024 * 1024, true).unwrap();
    assert_eq!(da, db);
    assert_eq!(da, compute_digest(&vec![0u8; 1024 * 1024], None));
    assert_eq!(a.raw_data(), b.raw_data());
    assert_eq!(pbs_store::store::chunk_path(&da), pbs_store::store::chunk_path(&db));
}

#[test]
fn keyed_encoding_compresses_when_shorter() {
    let config = test_config();
    let blob = DataBlob::encode(&vec![0u8; 65536], Some(&config), true).unwrap();
    assert_eq!(blob.magic(), ENCR_COMPR_BLOB_MAGIC_1_0);
    let small = DataBlob::encode(b"ab", Some(&config), true).unwrap();
    assert_eq!(small.magic(), ENCRYPTED_BLOB_MAGIC_1_0);
}
