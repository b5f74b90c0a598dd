use pbs_store::registry::{group_snapshots, merge_file_lists, snapshot_size, DatastoreRegistry, LookupAction};

#[test]
fn datastore_registry_lookup() {
    let mut reg = DatastoreRegistry::new();
    let a = reg.lookup("store1", "/backup/one");
    assert_eq!(a, LookupAction::Insert);
    reg.record(a, "store1".to_string(), "/backup/one".to_string());
    assert_eq!(reg.lookup("store1", "/backup/one"), LookupAction::Reuse(0));
    let b = reg.lookup("store1", "/backup/moved");
    assert_eq!(b, LookupAction::Replace(0));
    reg.record(b, "store1".to_string(), "/backup/moved".to_string());
    assert_eq!(reg.lookup("store1", "/backup/moved"), LookupAction::Reuse(0));
    assert_eq!(reg.lookup("store2", "/backup/two"), LookupAction::Insert);
}

#[test]
fn snapshot_sizes() {
    assert_eq!(snapshot_size(&vec![Some(10), None, Some(5)]), Some(15));
    assert_eq!(snapshot_size(&vec![]), Some(0));
    assert_eq!(snapshot_size(&vec![Some(u64::MAX), Some(1)]), None);
}

#[test]
fn snapshot_file_lists() {
    let index = vec!["root.pxar.didx".to_string(), "index.json.blob".to_string()];
    let dir = vec!["index.json.blob".to_string(), "client.log.blob".to_string(), "root.pxar.didx".to_string()];
    assert_eq!(
        merge_file_lists(&index, &dir),
        vec!["root.pxar.didx".to_string(), "index.json.blob".to_string(), "client.log.blob".to_string()]
    );
}

#[test]
fn grouping_snapshots() {
    let groups: Vec<String> = ["vm/100", "ct/200", "vm/100", "host/x", "vm/100"].iter().map(|s| s.to_string()).collect();
    let times = vec![10, 20, 30, 40, 25];
    let summary = group_snapshots(&groups, &times);
    assert_eq!(summary.len(), 3);
    assert_eq!(summary[0].group, "vm/100");
    assert_eq!(summary[0].count, 3);
    assert_eq!(summary[0].newest, 2);
    assert_eq!(summary[1].group, "ct/200");
    assert_eq!(summary[1].count, 1);
    assert_eq!(summary[2].newest, 3);
}
