use pbs_store::catar::{
    check_ca_header, read_filename, read_header, read_symlink, CaFormatHeader, CaTarDecoder, CatarError, RestoreItem,
    CA_FORMAT_ENTRY, CA_FORMAT_FILENAME, CA_FORMAT_GOODBYE, CA_FORMAT_GOODBYE_TAIL_MARKER, CA_FORMAT_PAYLOAD,
    S_IFDIR, S_IFREG,
};

fn header(out: &mut Vec<u8>, size: u64, htype: u64) {
    out.extend_from_slice(&size.to_le_bytes());
    out.extend_from_slice(&htype.to_le_bytes());
}

fn entry(out: &mut Vec<u8>, mode: u64, mtime: u64) {
    header(out, 64, CA_FORMAT_ENTRY);
    for v in [0u64, mode, 0, 1000, 1000, mtime] {
        out.extend_from_slice(&v.to_le_bytes());
    }
}

/// A directory holding one file `a` with content "X".
fn archive() -> Vec<u8> {
    let mut out = Vec::new();
    entry(&mut out, S_IFDIR | 0o755, 1);
    header(&mut out, 18, CA_FORMAT_FILENAME);
    out.extend_from_slice(b"a\0");
    entry(&mut out, S_IFREG | 0o644, 2);
    header(&mut out, 17, CA_FORMAT_PAYLOAD);
    out.push(b'X');
    assert_eq!(out.len(), 163);
    header(&mut out, 64, CA_FORMAT_GOODBYE);
    for v in [99u64, 99, 12345, 163, 64, CA_FORMAT_GOODBYE_TAIL_MARKER] {
        out.extend_from_slice(&v.to_le_bytes());
    }
    out
}

#[test]
fn list_dir_through_goodbye_table() {
    let dec = CaTarDecoder::new(archive());
    let root = dec.root();
    assert_eq!(root.start, 0);
    assert_eq!(root.end, 227);
    let list = dec.list_dir(&root).unwrap();
    assert_eq!(list.len(), 1);
    assert_eq!(list[0].filename, b"a".to_vec());
    assert_eq!(list[0].start, 82);
    assert_eq!(list[0].end, 163);
    assert_eq!(list[0].entry.mode, S_IFREG | 0o644);
    assert_eq!(list[0].entry.mtime, 2);
}

#[test]
fn broken_goodbye_tables() {
    let mut bad_marker = archive();
    let n = bad_marker.len();
    bad_marker[n - 1] ^= 1;
    let dec = CaTarDecoder::new(bad_marker);
    assert!(matches!(dec.list_dir(&dec.root()), Err(CatarError::BadGoodbye)));

    let mut bad_offset = archive();
    bad_offset[227 - 24] = 10;
    let dec = CaTarDecoder::new(bad_offset);
    assert!(matches!(dec.list_dir(&dec.root()), Err(CatarError::BadGoodbye)));

    let mut out_of_range = archive();
    out_of_range[163 + 16] = 200;
    let dec = CaTarDecoder::new(out_of_range);
    assert!(matches!(dec.list_dir(&dec.root()), Err(CatarError::BadGoodbye)));

    let dec = CaTarDecoder::new(vec![0u8; 10]);
    assert!(matches!(dec.list_dir(&dec.root()), Err(CatarError::BadGoodbye)));
}

#[test]
fn filename_checks() {
    let mut rec = Vec::new();
    header(&mut rec, 20, CA_FORMAT_FILENAME);
    rec.extend_from_slice(b"abc\0");
    assert_eq!(read_filename(&rec, 0, 20), Ok(b"abc".to_vec()));
    assert_eq!(read_filename(&rec, 0, 17), Err(CatarError::BadSize));
    assert_eq!(read_filename(&rec, 0, 21), Err(CatarError::Truncated));
    assert_eq!(read_filename(&rec, 0, 19), Err(CatarError::NotTerminated));
    let mut slash = Vec::new();
    header(&mut slash, 20, CA_FORMAT_FILENAME);
    slash.extend_from_slice(b"a/c\0");
    assert_eq!(read_filename(&slash, 0, 20), Err(CatarError::BadName));
    assert_eq!(read_filename(&rec, 0, 16 + 4098), Err(CatarError::BadSize));
}

#[test]
fn symlink_checks() {
    let mut rec = Vec::new();
    header(&mut rec, 18, 0);
    rec.extend_from_slice(b"f\0");
    assert_eq!(read_symlink(&rec, 0, 18), Ok(b"f".to_vec()));
    let mut abs = Vec::new();
    header(&mut abs, 21, 0);
    abs.extend_from_slice(b"/etc\0");
    assert_eq!(read_symlink(&abs, 0, 21), Err(CatarError::AbsoluteTarget));
    let mut nul = Vec::new();
    header(&mut nul, 20, 0);
    nul.extend_from_slice(b"a\0b\0");
    assert_eq!(read_symlink(&nul, 0, 20), Err(CatarError::NotTerminated));
}

#[test]
fn header_checks() {
    let data = archive();
    let h = read_header(&data, 0).unwrap();
    assert_eq!(h, CaFormatHeader { size: 64, htype: CA_FORMAT_ENTRY });
    assert_eq!(check_ca_header(&h, CA_FORMAT_ENTRY, 48), Ok(()));
    assert_eq!(check_ca_header(&h, CA_FORMAT_ENTRY, 40), Err(CatarError::BadSize));
    assert_eq!(check_ca_header(&h, CA_FORMAT_PAYLOAD, 48), Err(CatarError::UnexpectedType));
    assert_eq!(read_header(&data, 220), None);
}

#[test]
fn restore_walk_of_small_tree() {
    // root dir with a/ (containing file f "X" and symlink l -> f)
    let mut out = Vec::new();
    entry(&mut out, S_IFDIR | 0o755, 1);
    header(&mut out, 18, CA_FORMAT_FILENAME);
    out.extend_from_slice(b"a\0");
    entry(&mut out, S_IFDIR | 0o700, 2);
    header(&mut out, 18, CA_FORMAT_FILENAME);
    out.extend_from_slice(b"f\0");
    entry(&mut out, S_IFREG | 0o644, 3);
    header(&mut out, 17, CA_FORMAT_PAYLOAD);
    out.push(b'X');
    let payload_at = out.len() as u64 - 1;
    header(&mut out, 18, CA_FORMAT_FILENAME);
    out.extend_from_slice(b"l\0");
    entry(&mut out, pbs_store::catar::S_IFLNK | 0o777, 4);
    header(&mut out, 18, pbs_store::catar::CA_FORMAT_SYMLINK);
    out.extend_from_slice(b"f\0");
    header(&mut out, 16, CA_FORMAT_GOODBYE);
    header(&mut out, 16, CA_FORMAT_GOODBYE);
    let dec = CaTarDecoder::new(out);
    let items = dec.restore_sequential().unwrap();
    assert_eq!(items.len(), 6);
    assert!(matches!(&items[0], RestoreItem::Directory { name, .. } if name.is_empty()));
    assert!(matches!(&items[1], RestoreItem::Directory { name, entry } if name == b"a" && entry.mode == S_IFDIR | 0o700));
    assert!(matches!(&items[2], RestoreItem::File { name, payload_start, payload_len, entry } if name == b"f" && *payload_start == payload_at && *payload_len == 1 && entry.mtime == 3));
    assert!(matches!(&items[3], RestoreItem::Symlink { name, target, .. } if name == b"l" && target == b"f"));
    assert!(matches!(items[4], RestoreItem::EndDirectory));
    assert!(matches!(items[5], RestoreItem::EndDirectory));
}

#[test]
fn restore_walk_refuses_broken_archives() {
    let mut out = Vec::new();
    entry(&mut out, S_IFDIR | 0o755, 1);
    header(&mut out, 17, CA_FORMAT_PAYLOAD);
    out.push(b'X');
    let dec = CaTarDecoder::new(out);
    assert!(matches!(dec.restore_sequential(), Err(CatarError::UnexpectedType)));
    let mut out = Vec::new();
    entry(&mut out, S_IFDIR | 0o755, 1);
    let dec = CaTarDecoder::new(out);
    assert!(matches!(dec.restore_sequential(), Err(CatarError::Truncated)));
}

#[test]
fn restore_walk_refuses_short_payload() {
    let mut out = Vec::new();
    entry(&mut out, S_IFREG | 0o644, 1);
    header(&mut out, 8, CA_FORMAT_PAYLOAD);
    let dec = CaTarDecoder::new(out);
    assert!(matches!(dec.restore_sequential(), Err(CatarError::BadSize)));
    // a single regular file as the whole archive
    let mut out = Vec::new();
    entry(&mut out, S_IFREG | 0o644, 1);
    header(&mut out, 19, CA_FORMAT_PAYLOAD);
    out.extend_from_slice(b"abc");
    let dec = CaTarDecoder::new(out);
    let items = dec.restore_sequential().unwrap();
    assert!(matches!(&items[..], [RestoreItem::File { payload_start: 80, payload_len: 3, .. }]));
}

#[test]
fn list_dir_refuses_broken_child() {
    let mut data = archive();
    // the child's FILENAME record becomes another type
    data[64 + 8] ^= 1;
    let dec = CaTarDecoder::new(data);
    assert!(matches!(dec.list_dir(&dec.root()), Err(CatarError::UnexpectedType)));
}
