use canon::gitparse::{
    is_canon_only_staged_change_bytes, is_canon_project_path_bytes,
    staged_changed_path_bytes_from_name_status_z, staged_changed_paths_from_name_status_z,
};

#[test]
fn name_status_lists_paths_including_both_rename_paths() {
    let out = b"M\0a.txt\0R100\0old.rs\0new.rs\0C75\0x\0y\0";
    let paths = staged_changed_path_bytes_from_name_status_z(out).unwrap();
    let expected: Vec<Vec<u8>> = vec![
        b"a.txt".to_vec(),
        b"old.rs".to_vec(),
        b"new.rs".to_vec(),
        b"x".to_vec(),
        b"y".to_vec(),
    ];
    assert_eq!(paths, expected);
}

#[test]
fn name_status_reports_truncated_records() {
    assert_eq!(
        staged_changed_path_bytes_from_name_status_z(b"M\0"),
        Err("git diff name-status output ended before path".to_string())
    );
    assert_eq!(
        staged_changed_path_bytes_from_name_status_z(b"R100\0old\0"),
        Err("git diff name-status output ended before rename/copy path".to_string())
    );
    assert_eq!(staged_changed_path_bytes_from_name_status_z(b""), Ok(Vec::new()));
}

#[test]
fn name_status_paths_as_text() {
    assert_eq!(
        staged_changed_paths_from_name_status_z(b"A\0caf\xc3\xa9\0D\0bad\xff\0").unwrap(),
        vec!["café".to_string(), "bad\u{fffd}".to_string()]
    );
}

#[test]
fn canon_project_paths() {
    assert!(is_canon_project_path_bytes(b".canon"));
    assert!(is_canon_project_path_bytes(b".canon/notes/a.md"));
    assert!(!is_canon_project_path_bytes(b".canonical"));
    assert!(!is_canon_project_path_bytes(b"src/.canon"));
}

#[test]
fn canon_only_changes() {
    assert!(!is_canon_only_staged_change_bytes(&Vec::new()));
    assert!(is_canon_only_staged_change_bytes(&vec![b".canon/a".to_vec(), b".canon".to_vec()]));
    assert!(!is_canon_only_staged_change_bytes(&vec![b".canon/a".to_vec(), b"src/lib.rs".to_vec()]));
}
