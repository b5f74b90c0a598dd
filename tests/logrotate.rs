use pbs_store::logrotate::LogRotate;

#[test]
fn logrotate_needs_a_file_name() {
    assert!(LogRotate::new("/var/log/task-archive", true).is_some());
    assert!(LogRotate::new("log/", false).is_some());
    assert!(LogRotate::new("log/.", false).is_some());
    assert!(LogRotate::new("log/..", false).is_none());
    assert!(LogRotate::new("..", false).is_none());
    assert!(LogRotate::new("/", false).is_none());
    assert!(LogRotate::new(".", false).is_none());
    assert!(LogRotate::new("", false).is_none());
}

#[test]
fn logrotate_candidate_names() {
    let rot = LogRotate::new("/tmp/archive", true).unwrap();
    let mut names = rot.file_names();
    assert_eq!(names.candidates(), ("/tmp/archive".to_string(), None));
    names.advance();
    assert_eq!(names.candidates(), ("/tmp/archive.1".to_string(), Some("/tmp/archive.1.zst".to_string())));
    for _ in 0..11 {
        names.advance();
    }
    assert_eq!(names.candidates().0, "/tmp/archive.12");
    let mut files = rot.files();
    assert_eq!(files.file_names().candidates().0, "/tmp/archive");
}

#[test]
fn logrotate_plan() {
    let rot = LogRotate::new("/tmp/archive", true).unwrap();
    let existing = vec!["/tmp/archive".to_string(), "/tmp/archive.1".to_string(), "/tmp/archive.2.zst".to_string()];
    let plan = rot.rotate_plan("/tmp/archive", &existing, Some(3));
    assert_eq!(
        plan.renames,
        vec![
            ("/tmp/archive.2.zst".to_string(), "/tmp/archive.3.zst".to_string()),
            ("/tmp/archive.1".to_string(), "/tmp/archive.2.zst".to_string()),
            ("/tmp/archive".to_string(), "/tmp/archive.1".to_string()),
        ]
    );
    assert_eq!(plan.compress, Vec::<String>::new());
    assert_eq!(plan.remove, vec!["/tmp/archive.3.zst".to_string()]);
    let plain = LogRotate::new("/tmp/archive", false).unwrap();
    let plan = plain.rotate_plan("/tmp/archive", &vec!["/tmp/archive".to_string()], None);
    assert_eq!(plan.renames, vec![("/tmp/archive".to_string(), "/tmp/archive.1".to_string())]);
    assert!(plan.remove.is_empty());
    assert!(LogRotate::needs_rotation(Some(10), 5));
    assert!(!LogRotate::needs_rotation(Some(5), 5));
    assert!(!LogRotate::needs_rotation(None, 5));
}
