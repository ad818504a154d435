use cpanel_nas_backup::archive::{verify_archive_entries, ArchiveCheck};
use cpanel_nas_backup::config::{Config, Environment};
use cpanel_nas_backup::polling::{
    next_turn, timed_out, timeout_message, wait_for_new_backup, Arrival, Awaited, Listing, Outcome,
    SizeReading, SizeWatch, Turn,
};
use cpanel_nas_backup::retention::{counts_for_retention, prune_paths, prune_plan, LocalFile};

fn owned(list: &[&str]) -> Vec<String> {
    list.iter().map(|s| s.to_string()).collect()
}

fn config() -> Config {
    let vars = [
        ("CPANEL_BASE_URL", "https://h"),
        ("CPANEL_USERNAME", "u"),
        ("CPANEL_PASSWORD", "p"),
        ("CPANEL_FTP_HOST", "f"),
        ("CPANEL_FTP_USERNAME", "fu"),
        ("CPANEL_FTP_PASSWORD", "fp"),
        ("BACKUP_TIMEOUT_SECS", "10"),
        ("POLL_INTERVAL_SECS", "3"),
    ];
    let vars = vars.iter().map(|(n, v)| (n.to_string(), v.to_string())).collect();
    Config::from_env(&Environment { vars }).unwrap()
}

#[test]
fn timeout_is_exceeded_only_by_a_longer_wait() {
    assert!(!timed_out(10_000_000_000, 10));
    assert!(timed_out(10_000_000_001, 10));
    assert!(!timed_out(u64::MAX as u128 * 1_000_000_000, u64::MAX));
    assert_eq!(next_turn(&config(), 10_000_000_000), Turn::Look);
    assert_eq!(next_turn(&config(), 11_000_000_000), Turn::GiveUp);
}

#[test]
fn timeout_messages() {
    assert_eq!(
        timeout_message(Awaited::NewBackup, 7200),
        "timed out after 7200 seconds waiting for cPanel backup"
    );
    assert_eq!(
        timeout_message(Awaited::StableSize, 5),
        "timed out after 5 seconds waiting for FTP size to settle"
    );
}

#[test]
fn waiting_for_a_new_backup() {
    let before = owned(&["backup-1.tar"]);
    let look = |listing: Listing| wait_for_new_backup(&config(), &before, &listing);
    assert_eq!(look(Listing::Entries(before.clone())), Outcome::Pause(3));
    assert_eq!(
        look(Listing::Entries(owned(&["backup-1.tar", "backup-2.tar"]))),
        Outcome::Over(Arrival::Backup("backup-2.tar".to_string()))
    );
}

#[test]
fn failed_listing_ends_the_wait_at_once() {
    assert_eq!(
        wait_for_new_backup(&config(), &Vec::new(), &Listing::Failed),
        Outcome::Over(Arrival::ListingFailed)
    );
    assert_eq!(
        wait(&[], &[(0, Some(&[])), (3, None), (6, Some(&["backup-1.tar"]))]),
        Some((1, Some(Arrival::ListingFailed)))
    );
    assert_eq!(wait(&[], &[(11, None)]), Some((0, None)));
}

/// The turn at which a wait ends, and what ends it unless it is too long.
fn wait(
    before: &[&str],
    turns: &[(u128, Option<&[&str]>)],
) -> Option<(usize, Option<Arrival>)> {
    for (i, (secs, entries)) in turns.iter().enumerate() {
        if next_turn(&config(), secs * 1_000_000_000) == Turn::GiveUp {
            return Some((i, None));
        }
        let listing = match entries {
            Some(entries) => Listing::Entries(owned(entries)),
            None => Listing::Failed,
        };
        if let Outcome::Over(arrival) = wait_for_new_backup(&config(), &owned(before), &listing) {
            return Some((i, Some(arrival)));
        }
    }
    None
}

#[test]
fn wait_ends_with_the_first_turn_that_shows_something_new() {
    let before: &[&str] = &["backup-1.tar"];
    let known = Some(before);
    let grown: Option<&[&str]> = Some(&["backup-3.tar", "backup-1.tar", "backup-2.tar"]);
    assert_eq!(wait(before, &[(0, known), (3, known)]), None);
    assert_eq!(
        wait(before, &[(0, known), (3, grown), (6, known)]),
        Some((1, Some(Arrival::Backup("backup-3.tar".to_string()))))
    );
    assert_eq!(wait(before, &[(0, known), (10, known), (11, grown)]), Some((2, None)));
}

fn watch(readings: &[SizeReading]) -> Vec<Outcome<usize>> {
    let mut watch = SizeWatch::new();
    readings.iter().map(|r| watch.wait_for_remote_size_to_settle(&config(), *r)).collect()
}

#[test]
fn size_settles_on_two_equal_positive_readings() {
    assert_eq!(
        watch(&[SizeReading::Size(5), SizeReading::Size(7), SizeReading::Size(7)]),
        vec![Outcome::Pause(3), Outcome::Pause(3), Outcome::Over(7)]
    );
}

#[test]
fn zero_and_unknown_sizes_never_settle() {
    assert_eq!(
        watch(&[SizeReading::Unknown, SizeReading::Size(0), SizeReading::Unknown]),
        vec![Outcome::Pause(3), Outcome::Pause(3), Outcome::Pause(3)]
    );
}

#[test]
fn failed_readings_are_passed_over() {
    assert_eq!(
        watch(&[SizeReading::Size(9), SizeReading::Failed, SizeReading::Size(9)]),
        vec![Outcome::Pause(3), Outcome::Pause(3), Outcome::Over(9)]
    );
    assert_eq!(
        watch(&[SizeReading::Size(9), SizeReading::Unknown, SizeReading::Size(9)]),
        vec![Outcome::Pause(3), Outcome::Pause(3), Outcome::Pause(3)]
    );
}

/// The turn at which a wait for a settled size ends, and the size unless it is too long.
fn settle(turns: &[(u128, SizeReading)]) -> Option<(usize, Option<usize>)> {
    let mut watch = SizeWatch::new();
    for (i, (secs, reading)) in turns.iter().enumerate() {
        if next_turn(&config(), secs * 1_000_000_000) == Turn::GiveUp {
            return Some((i, None));
        }
        if let Outcome::Over(size) = watch.wait_for_remote_size_to_settle(&config(), *reading) {
            return Some((i, Some(size)));
        }
    }
    None
}

#[test]
fn wait_ends_with_the_first_settled_size() {
    let seven = SizeReading::Size(7);
    assert_eq!(settle(&[(0, seven), (3, SizeReading::Failed), (6, SizeReading::Size(8))]), None);
    assert_eq!(
        settle(&[(0, SizeReading::Size(5)), (3, seven), (6, seven), (9, seven)]),
        Some((2, Some(7)))
    );
    assert_eq!(settle(&[(0, seven), (11, seven)]), Some((1, None)));
}

#[test]
fn archive_with_all_expected_entries_passes() {
    let entries = owned(&["homedir/public_html/index.php", "mysql/db.sql"]);
    assert!(verify_archive_entries(&entries, &owned(&["homedir/public_html", "mysql/"])).is_ok());
    assert!(verify_archive_entries(&entries, &owned(&["mysql/db.sql"])).is_ok());
    assert!(verify_archive_entries(&Vec::new(), &Vec::new()).is_ok());
}

#[test]
fn expected_entries_are_path_prefixes() {
    let entries = owned(&["homedir/notes/mysql/x.txt"]);
    let missing = verify_archive_entries(&entries, &owned(&["mysql/"])).unwrap_err();
    assert_eq!(missing.names, owned(&["mysql/"]));
    assert_eq!(missing.message(), "archive is missing expected entries: mysql/");
    assert!(verify_archive_entries(&entries, &owned(&["homedir/notes"])).is_ok());
}

#[test]
fn missing_entries_are_reported_in_order() {
    let entries = owned(&["homedir/mail"]);
    let missing =
        verify_archive_entries(&entries, &owned(&["mysql/", "homedir/", "cron/"])).unwrap_err();
    assert_eq!(missing.names, owned(&["mysql/", "cron/"]));
    assert_eq!(missing.message(), "archive is missing expected entries: mysql/, cron/");
}

#[test]
fn check_may_stop_once_everything_is_found() {
    let expected = owned(&["a/", "b/"]);
    let mut check = ArchiveCheck::new(&expected);
    assert!(!check.satisfied());
    assert!(!check.observe("x/a/1"));
    assert!(!check.observe("b/1"));
    assert_eq!(check.finish().unwrap_err().names, owned(&["a/"]));
    assert!(check.observe("a/1"));
    assert!(check.observe("other"));
    assert!(check.finish().is_ok());
}

#[test]
fn nothing_expected_is_satisfied_at_once() {
    assert!(ArchiveCheck::new(&Vec::new()).satisfied());
}

fn file(name: &str, modified: i128) -> LocalFile {
    LocalFile { name: name.to_string(), modified }
}

#[test]
fn oldest_archives_are_removed_first() {
    let files = vec![
        file("backup-c.tar.gz", 30),
        file("backup-a.tar.gz", 10),
        file("backup-a.tar.gz.sha256", 1),
        file("backup-old.tar", 2),
        file("notes.tar.gz", 3),
        file("backup-d.tar.gz", -5),
        file("backup-b.tar.gz", 20),
    ];
    assert_eq!(prune_plan(&files, 2), vec![5, 1]);
    assert_eq!(prune_plan(&files, 1), vec![5, 1, 6]);
    assert!(prune_plan(&files, 4).is_empty());
    assert!(prune_plan(&files, 100).is_empty());
}

#[test]
fn checksum_files_go_with_their_archives() {
    let files = vec![
        file("backup-a.tar.gz", 3),
        file("backup-a.tar.gz.sha256", 3),
        file("backup-b.tar.gz", 1),
        file("backup-b.tar.gz.sha256", 1),
        file("backup-c.tar.gz", 2),
        file("backup-c.tar.gz.sha256", 2),
        file("backup-0.tar.gz.part", 0),
    ];
    assert_eq!(
        prune_paths("/nas/", &files, 2),
        vec![(
            "/nas/backup-b.tar.gz".to_string(),
            Some("/nas/backup-b.tar.gz.sha256".to_string())
        )]
    );
    assert!(prune_paths("/nas", &files, 3).is_empty());
    assert!(prune_paths("/nas", &files, 0).is_empty());
}

#[test]
fn pruning_twice_changes_nothing() {
    let mut files = vec![
        file("backup-c.tar.gz", 30),
        file("backup-a.tar.gz", 10),
        file("backup-b.tar.gz", 20),
    ];
    let plan = prune_plan(&files, 2);
    assert_eq!(plan, vec![1]);
    files.remove(1);
    assert!(prune_plan(&files, 2).is_empty());
    files.reverse();
    files.push(file("notes", 1));
    assert!(prune_plan(&files, 2).is_empty());
}

#[test]
fn zero_retention_keeps_everything() {
    assert!(prune_plan(&vec![file("backup-a.tar.gz", 1)], 0).is_empty());
}

#[test]
fn archives_of_the_same_age_go_in_listing_order() {
    let files = vec![
        file("backup-z.tar.gz", 1),
        file("backup-a.tar.gz", 1),
        file("backup-m.tar.gz", 1),
    ];
    assert_eq!(prune_plan(&files, 1), vec![0, 1]);
}

#[test]
fn names_that_count_for_retention() {
    assert!(counts_for_retention("backup-1.tar.gz"));
    assert!(!counts_for_retention("backup-1.tar"));
}
