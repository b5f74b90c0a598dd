use pbs_store::bytes::digest_to_hex;
use pbs_store::store::{chunk_dir, chunk_path};

#[test]
fn chunk_paths() {
    let mut d = [0u8; 32];
    d[0] = 0xab;
    d[1] = 0x0c;
    d[31] = 0xff;
    let hex = digest_to_hex(&d);
    assert_eq!(hex.len(), 64);
    assert!(hex.starts_with("ab0c"));
    assert!(hex.ends_with("ff"));
    assert_eq!(chunk_dir(&d), ".chunks/ab0c");
    assert_eq!(chunk_path(&d), format!(".chunks/ab0c/{}", hex));
}
