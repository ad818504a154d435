use cpanel_nas_backup::listing::{
    find_new_backup, is_backup_archive_name, list_remote_backup_files, pending_backup,
};
use cpanel_nas_backup::paths::{base_name, path_in, sibling_path_with_suffix};
use std::path::Path;

fn owned(list: &[&str]) -> Vec<String> {
    list.iter().map(|s| s.to_string()).collect()
}

#[test]
fn archive_names() {
    assert!(is_backup_archive_name("backup-1.tar.gz"));
    assert!(is_backup_archive_name("backup-1.tar"));
    assert!(!is_backup_archive_name("backup-1.zip"));
    assert!(!is_backup_archive_name("my-backup-1.tar.gz"));
    assert!(!is_backup_archive_name("backup-.tar.gz.sha256"));
}

#[test]
fn listing_is_sorted_without_repetitions() {
    let entries = owned(&[
        "/home/user/backup-2.tar.gz",
        "backup-10.tar.gz",
        "mail",
        "backup-2.tar.gz",
        "public_ftp/..",
        "backup-1.tar",
    ]);
    assert_eq!(
        list_remote_backup_files(&entries),
        owned(&["backup-1.tar", "backup-10.tar.gz", "backup-2.tar.gz"])
    );
    assert!(list_remote_backup_files(&Vec::new()).is_empty());
}

#[test]
fn pending_backup_is_the_last_that_is_absent() {
    let names = owned(&["backup-1.tar", "backup-2.tar", "backup-3.tar"]);
    assert_eq!(
        pending_backup(&names, &vec![false, false, true]).as_deref(),
        Some("backup-2.tar")
    );
    assert_eq!(pending_backup(&names, &vec![true, true, true]), None);
}

#[test]
fn new_backup_is_the_last_that_was_not_there() {
    let before = owned(&["backup-2.tar"]);
    let entries = owned(&["backup-3.tar", "backup-1.tar", "backup-2.tar"]);
    assert_eq!(find_new_backup(&entries, &before).as_deref(), Some("backup-3.tar"));
    assert_eq!(find_new_backup(&before, &before), None);
}

const PATHS: [&str; 22] = [
    "", "/", "//", ".", "./", "..", "a", "a/", "a/.", "a/./", "a/..", "/a", "/./a", "//a", "./a",
    "a/./b", "a//b//", "/backups//x.tar.gz", "../x", "/../x", "...", "a/...",
];

#[test]
fn base_names_agree_with_unix_paths() {
    for path in PATHS {
        let expected = Path::new(path).file_name().map(|n| n.to_str().unwrap().to_string());
        assert_eq!(base_name(path), expected, "{path:?}");
    }
}

#[test]
fn siblings_agree_with_unix_paths() {
    for path in PATHS {
        let expected = Path::new(path).file_name().map(|n| {
            let name = format!("{}.part", n.to_str().unwrap());
            Path::new(path).with_file_name(name).to_str().unwrap().to_string()
        });
        assert_eq!(sibling_path_with_suffix(path, ".part").ok(), expected, "{path:?}");
    }
}

#[test]
fn joined_paths_agree_with_unix_paths() {
    for dir in PATHS {
        for name in ["x", "", "/abs", "a/b"] {
            let expected = Path::new(dir).join(name).to_str().unwrap().to_string();
            assert_eq!(path_in(dir, name), expected, "{dir:?} {name:?}");
        }
    }
}

#[test]
fn listed_names_stay_in_the_directory() {
    let names = list_remote_backup_files(&owned(&["../../etc/backup-x.tar"]));
    assert_eq!(names, owned(&["backup-x.tar"]));
    assert_eq!(path_in("/backups", &names[0]), "/backups/backup-x.tar");
    assert_eq!(
        sibling_path_with_suffix("/backups/backup-x.tar", ".sha256").as_deref(),
        Ok("/backups/backup-x.tar.sha256")
    );
    let error = sibling_path_with_suffix("/backups/..", ".sha256").unwrap_err();
    assert_eq!(error.message(), "invalid filename /backups/..");
}
