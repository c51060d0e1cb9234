use boobytrap::boobytrap::EventMonitor;
use boobytrap::monitors::filechanges::{
    aggregate_comparisons, env_variable_of, expand_directories, fs_alert, get_hash_type, load_blacklist,
    snapshot_state_path, snapshots_dir, total_file_count, FileChanges, FsAlert, HashKind, SnapshotChangeType,
    SnapshotCompareResult, SnapshotFile, SnapshotState,
};
use boobytrap::settings::{ConfigError, SettingValue, Settings};

fn strings(names: &[&str]) -> Vec<String> {
    names.iter().map(|n| n.to_string()).collect()
}

fn settings_with_hash(name: &str) -> Settings {
    let mut s = Settings::new();
    s.insert("fs_mon_hash_type".to_string(), SettingValue::Text(name.to_string()));
    s
}

fn snapshot_of(root: &str, files: &[(&str, u8)]) -> SnapshotState {
    SnapshotState {
        root_path: root.to_string(),
        black_list: vec![],
        hash_type: HashKind::Blake3,
        uuid: String::new(),
        date_created: 0,
        files: files
            .iter()
            .map(|(path, sum)| {
                (path.to_string(), SnapshotFile { path: path.to_string(), check_sum: vec![*sum], size: 0, ino: 0, ctime: 0, mtime: 0 })
            })
            .collect(),
    }
}

#[test]
fn test_load_blacklist() {
    let x = load_blacklist(None);
    println!("{:#?}", x);
    assert!(x.is_empty());
}

#[test]
fn blacklist_holds_nonempty_lines() {
    assert_eq!(load_blacklist(Some("\n/etc/mtab\n/etc/cups\n")), strings(&["/etc/mtab", "/etc/cups"]));
    assert_eq!(load_blacklist(Some("/a\r\n\r\n/b")), strings(&["/a", "/b"]));
}

#[test]
fn hash_type_by_name() {
    assert_eq!(get_hash_type(&settings_with_hash("blake3")).unwrap(), HashKind::Blake3);
    assert_eq!(get_hash_type(&settings_with_hash("SHA3")).unwrap(), HashKind::Sha3);
    assert_eq!(get_hash_type(&settings_with_hash("MD5")).unwrap(), HashKind::Md5);
    assert_eq!(get_hash_type(&settings_with_hash("md5")).unwrap(), HashKind::Blake3);
    assert!(matches!(get_hash_type(&Settings::new()), Err(ConfigError::MissingKey(_))));
}

#[test]
fn path_variable_entries() {
    assert_eq!(env_variable_of("$PATH").unwrap(), "PATH");
    assert!(env_variable_of("/etc").is_none());
    let entries = strings(&["/etc", "$PATH", "/bin"]);
    let values = strings(&["", "/usr/bin:/sbin", ""]);
    assert_eq!(expand_directories(&entries, &values), strings(&["/etc", "/usr/bin", "/sbin", "/bin"]));
}

#[test]
fn first_snapshots_skip_blacklisted_directories() {
    let fc = FileChanges::new(
        settings_with_hash("blake3"),
        strings(&["/etc/mtab", "/bin"]),
        strings(&["/etc", "/bin", "/usr/bin"]),
        "/cache/".to_string(),
    )
    .unwrap();
    assert!(!fc.triggered);
    assert_eq!(fc.directories_to_snapshot(), strings(&["/etc", "/usr/bin"]));
    let mut fc = fc;
    fc.add_snapshot(snapshot_of("/etc", &[("/etc/a", 1), ("/etc/b", 1)]));
    assert!(fc.directories_to_snapshot().is_empty());
    assert_eq!(fc.file_counts(), vec![2]);
}

#[test]
fn file_counts_add_up() {
    assert_eq!(total_file_count(&vec![3, 4, 0]), Some(7));
    assert_eq!(total_file_count(&vec![]), Some(0));
    assert_eq!(total_file_count(&vec![usize::MAX, 1]), None);
}

#[test]
fn change_kind_priority() {
    let r = |c: &[&str], d: &[&str], ch: &[&str]| {
        Some(SnapshotCompareResult { created: strings(c), deleted: strings(d), changed: strings(ch) })
    };
    let (kind, res) = aggregate_comparisons(vec![r(&["a"], &[], &[]), None, r(&[], &["b"], &[])]);
    assert_eq!(kind, SnapshotChangeType::Deleted);
    assert_eq!(res.created, strings(&["a"]));
    assert_eq!(res.deleted, strings(&["b"]));
    let (kind, res) = aggregate_comparisons(vec![r(&["a"], &["d"], &["c"])]);
    assert_eq!(kind, SnapshotChangeType::Changed);
    assert!(matches!(fs_alert(kind, res), FsAlert::Changed(v) if v == strings(&["c"])));
    let (kind, res) = aggregate_comparisons(vec![None, r(&[], &[], &[])]);
    assert_eq!(kind, SnapshotChangeType::NoChange);
    assert!(matches!(fs_alert(kind, res), FsAlert::Unchanged));
}

#[test]
fn state_file_named_by_digest() {
    let p = snapshot_state_path("/cache/", "/etc");
    let expected = format!("/cache//snapshots/{}", blake3::hash("/etc".as_bytes()));
    assert_eq!(p, expected);
    assert_ne!(snapshot_state_path("/cache/", "/bin"), p);
    assert_eq!(snapshots_dir("/cache/"), "/cache/snapshots/");
}

#[test]
fn check_compares_fresh_snapshots() {
    let mut fc = FileChanges::new(
        settings_with_hash("blake3"),
        vec![],
        strings(&["/etc", "/bin"]),
        "/cache/".to_string(),
    )
    .unwrap();
    fc.add_snapshot(snapshot_of("/etc", &[("/etc/a", 1), ("/etc/b", 2)]));
    fc.add_snapshot(snapshot_of("/bin", &[("/bin/x", 1)]));
    let fresh = vec![
        Some(snapshot_of("/etc", &[("/etc/a", 1), ("/etc/b", 2), ("/etc/c", 3)])),
        None,
    ];
    match fc.check(fresh) {
        FsAlert::Created(files) => assert_eq!(files, strings(&["/etc/c"])),
        other => panic!("{:?}", other),
    }
    assert_eq!(fc.snapshots.len(), 1);
    assert_eq!(fc.snapshots[0].files.len(), 3);
    assert_eq!(fc.state_paths(), vec![snapshot_state_path("/cache/", "/etc")]);
    let fresh = vec![Some(snapshot_of("/etc", &[("/etc/a", 9), ("/etc/c", 3)]))];
    match fc.check(fresh) {
        FsAlert::Changed(files) => assert_eq!(files, strings(&["/etc/a"])),
        other => panic!("{:?}", other),
    }
    let mut other = fc.snapshots[0].clone();
    other.files.push(("/etc/z".to_string(), other.files[0].1.clone()));
    let gone = vec![Some(snapshot_of("/etc", &[("/etc/c", 3)]))];
    let mut fc2 = FileChanges::new(settings_with_hash("blake3"), vec![], vec![], "/c/".to_string()).unwrap();
    fc2.add_snapshot(other);
    match fc2.check(gone) {
        FsAlert::Deleted(mut files) => {
            files.sort();
            assert_eq!(files, strings(&["/etc/a", "/etc/z"]))
        }
        other => panic!("{:?}", other),
    }
    let fresh = vec![Some(snapshot_of("/etc", &[("/etc/a", 9), ("/etc/c", 3)]))];
    assert!(matches!(fc.check(fresh), FsAlert::Unchanged));
    assert!(!fc.triggered);
}
