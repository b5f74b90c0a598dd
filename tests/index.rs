use pbs_store::index::{ArchiveIndexWriter, ChunkAccumulator, DynamicIndexReader, FixedIndexReader, FixedIndexWriter, IndexError};

const MIB: u64 = 1024 * 1024;

fn digest(i: u8) -> [u8; 32] {
    [i; 32]
}

fn ten_mib_index() -> Vec<u8> {
    let mut w = FixedIndexWriter::new(&[1u8; 16], 1_700_000_000, MIB, 10 * MIB).unwrap();
    for i in 0..10u8 {
        w.add_chunk(MIB, &digest(i)).unwrap();
    }
    w.close().unwrap()
}

#[test]
fn fixed_index_integrity() {
    let raw = ten_mib_index();
    assert_eq!(raw.len(), 4096 + 10 * 32);
    let reader = FixedIndexReader::open(raw.clone()).unwrap();
    assert_eq!(reader.index_count(), 10);
    assert_eq!(reader.chunk_size(), MIB);
    assert_eq!(reader.index_bytes(), 10 * MIB);
    // 2_500_000 - 2 * 1_048_576 = 402_848
    assert_eq!(reader.chunk_from_offset(2_500_000), Some((2, 402_848)));
    assert_eq!(reader.chunk_from_offset(10 * MIB), None);
    let mut truncated = raw.clone();
    truncated.truncate(raw.len() - 32);
    assert!(matches!(FixedIndexReader::open(truncated), Err(IndexError::Format)));
}

#[test]
fn fixed_chunk_info_ranges() {
    let mut w = FixedIndexWriter::new(&[2u8; 16], 5, 4096, 10000).unwrap();
    w.add_chunk(4096, &digest(1)).unwrap();
    assert_eq!(w.add_chunk(100, &digest(2)), Err(IndexError::BadChunk));
    w.add_chunk(4096, &digest(2)).unwrap();
    assert!(matches!(w.close(), Err(IndexError::Incomplete)));
    w.add_chunk(10000 - 8192, &digest(3)).unwrap();
    assert_eq!(w.add_chunk(1, &digest(4)), Err(IndexError::BadChunk));
    let reader = FixedIndexReader::open(w.close().unwrap()).unwrap();
    assert_eq!(reader.index_count(), 3);
    assert_eq!(reader.chunk_info(0), Some((digest(1), 0, 4096)));
    assert_eq!(reader.chunk_info(2), Some((digest(3), 8192, 10000)));
    assert_eq!(reader.chunk_info(3), None);
}

#[test]
fn fixed_header_is_checked() {
    let raw = ten_mib_index();
    let mut bad_magic = raw.clone();
    bad_magic[0] = b'X';
    assert!(matches!(FixedIndexReader::open(bad_magic), Err(IndexError::Format)));
    let mut bad_version = raw.clone();
    bad_version[12] = 2;
    assert!(matches!(FixedIndexReader::open(bad_version), Err(IndexError::Format)));
    assert!(matches!(FixedIndexReader::open(vec![0u8; 100]), Err(IndexError::Format)));
    assert!(matches!(FixedIndexWriter::new(&[0u8; 16], 0, 0, 10), Err(IndexError::BadChunk)));
    assert_eq!(&raw[0..12], b"PROXMOX-FIDX");
}

#[test]
fn dynamic_index_round_trip() {
    let mut w = ArchiveIndexWriter::create(&[3u8; 16], 42);
    w.add_chunk(100, &digest(1)).unwrap();
    w.add_chunk(50, &digest(2)).unwrap();
    w.add_chunk(200, &digest(3)).unwrap();
    assert_eq!(w.add_chunk(0, &digest(4)), Err(IndexError::BadChunk));
    let raw = w.close().unwrap();
    assert!(matches!(w.close(), Err(IndexError::Closed)));
    assert_eq!(w.add_chunk(5, &digest(5)), Err(IndexError::Closed));
    assert_eq!(&raw[0..12], b"PROXMOX-DIDX");
    let reader = DynamicIndexReader::open(raw).unwrap();
    assert_eq!(reader.index_count(), 3);
    assert_eq!(reader.index_bytes(), 350);
    assert_eq!(reader.chunk_info(1), Some((digest(2), 100, 150)));
    assert_eq!(reader.chunk_from_offset(0), Some((0, 0)));
    assert_eq!(reader.chunk_from_offset(99), Some((0, 99)));
    assert_eq!(reader.chunk_from_offset(100), Some((1, 0)));
    assert_eq!(reader.chunk_from_offset(349), Some((2, 199)));
    assert_eq!(reader.chunk_from_offset(350), None);
}

#[test]
fn dynamic_offsets_must_grow() {
    let mut w = ArchiveIndexWriter::create(&[3u8; 16], 42);
    w.add_chunk(100, &digest(1)).unwrap();
    w.add_chunk(50, &digest(2)).unwrap();
    let mut raw = w.close().unwrap();
    // second end offset (150) becomes 100: not growing
    raw[4096 + 40] = 100;
    assert!(matches!(DynamicIndexReader::open(raw.clone()), Err(IndexError::Format)));
    raw.truncate(4096 + 41);
    assert!(matches!(DynamicIndexReader::open(raw), Err(IndexError::Format)));
}

#[test]
fn fresh_dynamic_index_has_header() {
    let mut w = ArchiveIndexWriter::create_now().unwrap();
    w.add_chunk(10, &digest(7)).unwrap();
    let raw = w.close().unwrap();
    assert_eq!(&raw[0..12], b"PROXMOX-DIDX");
    assert_eq!(&raw[12..16], &1u32.to_le_bytes());
    let ctime = u64::from_le_bytes(raw[32..40].try_into().unwrap());
    assert!(ctime > 1_600_000_000);
    assert_eq!(DynamicIndexReader::open(raw).unwrap().index_bytes(), 10);
}

#[test]
fn chunk_accumulator_buffers_until_cut() {

    let mut acc = ChunkAccumulator::new();
    assert_eq!(acc.write(b"abc", 0), (3, None));
    assert_eq!(acc.write(b"defgh", 2), (2, Some(b"abcde".to_vec())));
    assert_eq!(acc.write(b"fgh", 0), (3, None));
    assert_eq!(acc.finish(), Some(b"fgh".to_vec()));
    assert_eq!(acc.finish(), None);
}
