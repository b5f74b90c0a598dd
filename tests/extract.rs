use pbs_store::extract::{check_file_name, did_match, EntryKind, ExtractAction, ExtractError, Extractor, MatchType, WITH_DEVICE_NODES};

#[test]
fn extraction_plan_small_tree() {
    // tree {a/, a/f, a/l -> f}; the root exists already
    let mut ex = Extractor::new(false, false, 0, true);
    let a = ex.step(EntryKind::Directory, b"a".to_vec(), None).unwrap();
    assert_eq!(a, vec![ExtractAction::CreateDir(1)]);
    let f = ex.step(EntryKind::File, b"f".to_vec(), None).unwrap();
    assert_eq!(f, vec![ExtractAction::Extract(EntryKind::File)]);
    let l = ex.step(EntryKind::Symlink, b"l".to_vec(), None).unwrap();
    assert_eq!(l, vec![ExtractAction::Extract(EntryKind::Symlink)]);
    // a's metadata (mode, mtime) is applied after its children
    let g = ex.step(EntryKind::GoodbyeTable, Vec::new(), None).unwrap();
    assert_eq!(g, vec![ExtractAction::ApplyDirMetadata]);
    assert!(matches!(ex.finish(), Err(ExtractError::UnexpectedEof)));
    let g = ex.step(EntryKind::GoodbyeTable, Vec::new(), None).unwrap();
    assert_eq!(g, vec![ExtractAction::ApplyDirMetadata]);
    assert_eq!(ex.finish(), Ok(()));
    assert_eq!(ex.step(EntryKind::GoodbyeTable, Vec::new(), None), Err(ExtractError::StackUnderrun));
}

#[test]
fn excluded_dirs_are_created_lazily() {
    let mut ex = Extractor::new(false, false, 0, false);
    // not matched: entered but not created
    assert_eq!(ex.step(EntryKind::Directory, b"d".to_vec(), None).unwrap(), vec![]);
    assert_eq!(ex.step(EntryKind::Directory, b"e".to_vec(), None).unwrap(), vec![]);
    // an included file forces both directories into existence
    let f = ex.step(EntryKind::File, b"f".to_vec(), Some(MatchType::Include)).unwrap();
    assert_eq!(f, vec![ExtractAction::CreateDir(1), ExtractAction::CreateDir(2), ExtractAction::Extract(EntryKind::File)]);
    assert_eq!(ex.step(EntryKind::File, b"g".to_vec(), None).unwrap(), vec![]);
    assert_eq!(ex.step(EntryKind::GoodbyeTable, Vec::new(), None).unwrap(), vec![ExtractAction::ApplyDirMetadata]);
}

#[test]
fn never_created_dirs_get_no_metadata() {
    let mut ex = Extractor::new(false, false, 0, true);
    assert_eq!(ex.step(EntryKind::Directory, b"d".to_vec(), Some(MatchType::Exclude)).unwrap(), vec![]);
    assert_eq!(ex.step(EntryKind::File, b"f".to_vec(), None).unwrap(), vec![]);
    assert_eq!(ex.step(EntryKind::GoodbyeTable, Vec::new(), None).unwrap(), vec![]);
    // back in the root, matching is inherited again
    assert_eq!(ex.step(EntryKind::File, b"g".to_vec(), None).unwrap(), vec![ExtractAction::Extract(EntryKind::File)]);
}

#[test]
fn names_and_flags() {
    assert_eq!(check_file_name(b"ok"), Ok(()));
    assert_eq!(check_file_name(b"a/b"), Err(ExtractError::SlashInName));
    assert_eq!(check_file_name(b"a\0b"), Err(ExtractError::NulInName));
    assert!(did_match(Some(MatchType::Include), false));
    assert!(!did_match(Some(MatchType::Exclude), true));
    assert!(did_match(None, true));
    let mut ex = Extractor::new(false, false, 0, true);
    assert_eq!(ex.step(EntryKind::Device, b"dev".to_vec(), None).unwrap(), vec![]);
    assert_eq!(ex.step(EntryKind::File, b"../x".to_vec(), None), Err(ExtractError::SlashInName));
    let mut ex = Extractor::new(false, false, WITH_DEVICE_NODES, true);
    assert!(ex.contains_flags(WITH_DEVICE_NODES));
    assert_eq!(ex.step(EntryKind::Device, b"dev".to_vec(), None).unwrap(), vec![ExtractAction::Extract(EntryKind::Device)]);
}

#[test]
fn current_path_for_messages() {
    let mut ex = Extractor::new(false, false, 0, true);
    assert_eq!(ex.clone_path(), Vec::<u8>::new());
    ex.set_path(b"/a/f".to_vec());
    assert_eq!(ex.clone_path(), b"/a/f".to_vec());
}
