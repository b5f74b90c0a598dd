use pbs_store::blob::{BlobError, DataChunkBuilder};
use pbs_store::crypt::CryptConfig;
use pbs_store::reader::RemoteChunkReader;

#[test]
fn remote_reader_decodes_and_caches() {
    let data = b"remote chunk".to_vec();
    let (blob, digest) = DataChunkBuilder::new(&data).build().unwrap();
    let raw = blob.into_inner();
    let mut reader = RemoteChunkReader::new(None, vec![(digest, 1)]);
    assert_eq!(reader.cached(&digest), None);
    assert_eq!(reader.read_chunk(&digest, raw.clone()), Ok(data.clone()));
    assert_eq!(reader.cached(&digest), Some(data.clone()));
    let other = [5u8; 32];
    assert_eq!(reader.read_chunk(&other, raw.clone()), Err(BlobError::DigestMismatch));
    let mut corrupt = raw.clone();
    corrupt[20] ^= 4;
    assert_eq!(reader.read_chunk(&digest, corrupt), Err(BlobError::CrcMismatch));
    assert!(RemoteChunkReader::read_raw_chunk(raw).is_ok());
}

#[test]
fn remote_reader_without_hint_does_not_cache() {
    let config = CryptConfig::new([1u8; 32], [2u8; 32]);
    let data = vec![9u8; 3000];
    let (blob, digest) = DataChunkBuilder::new(&data).crypt_config(&config).build().unwrap();
    let mut reader = RemoteChunkReader::new(Some(config), Vec::new());
    assert_eq!(reader.read_chunk(&digest, blob.into_inner()), Ok(data));
    assert_eq!(reader.cached(&digest), None);
}
