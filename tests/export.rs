use pbs_store::export::{tar_entry_type, zip_entry_kind, HardlinkAction, HardlinkMap, TarEntryType};
use pbs_store::extract::{check_copied, check_root, file_open_mode, seq_level_step, special_mode, EntryKind, ExtractError, FileOpenMode};

#[test]
fn tar_types() {
    assert_eq!(tar_entry_type(EntryKind::File, false), Some(TarEntryType::Regular));
    assert_eq!(tar_entry_type(EntryKind::Device, true), Some(TarEntryType::Char));
    assert_eq!(tar_entry_type(EntryKind::Device, false), Some(TarEntryType::Block));
    assert_eq!(tar_entry_type(EntryKind::Socket, false), None);
    assert_eq!(tar_entry_type(EntryKind::GoodbyeTable, false), None);
}

#[test]
fn hardlinks_outside_export() {
    let mut map = HardlinkMap::new();
    assert_eq!(map.resolve(b"/data/x", b"sub/a"), HardlinkAction::WriteFile);
    assert_eq!(map.resolve(b"/data/x", b"sub/b"), HardlinkAction::LinkTo(b"sub/a".to_vec()));
    assert_eq!(map.resolve(b"/data/y", b"sub/c"), HardlinkAction::WriteFile);
    assert_eq!(map.resolve(b"/data/x", b"sub/d"), HardlinkAction::LinkTo(b"sub/a".to_vec()));
}

#[test]
fn file_extraction_checks() {
    assert_eq!(file_open_mode(true), FileOpenMode::Truncate);
    assert_eq!(file_open_mode(false), FileOpenMode::Exclusive);
    assert_eq!(check_copied(10, 10, true), Ok(true));
    assert_eq!(check_copied(10, 10, false), Ok(false));
    assert_eq!(check_copied(10, 9, false), Err(ExtractError::SizeMismatch));
    assert_eq!(special_mode(0o20644), Ok(0o20644));
    assert_eq!(special_mode(1u64 << 40), Err(ExtractError::IllegalMode));
    assert_eq!(seq_level_step(0, EntryKind::Directory), (1, false));
    assert_eq!(seq_level_step(1, EntryKind::File), (1, false));
    assert_eq!(seq_level_step(0, EntryKind::GoodbyeTable), (-1, true));
}

#[test]
fn zip_kinds_and_root_check() {
    assert_eq!(zip_entry_kind(EntryKind::File), Some(true));
    assert_eq!(zip_entry_kind(EntryKind::Hardlink), Some(true));
    assert_eq!(zip_entry_kind(EntryKind::Directory), Some(false));
    assert_eq!(zip_entry_kind(EntryKind::Symlink), None);
    assert_eq!(check_root(None), Err(ExtractError::EmptyArchive));
    assert_eq!(check_root(Some(EntryKind::File)), Err(ExtractError::RootNotDirectory));
    assert_eq!(check_root(Some(EntryKind::Directory)), Ok(()));
}
