use cpanel_nas_backup::config::{Config, Environment};
use cpanel_nas_backup::run::{pause_after_run, Action, Event, Run};

fn config(extra: &[(&str, &str)]) -> Config {
    let mut vars: Vec<(String, String)> = Vec::new();
    for (n, v) in extra.iter().chain(
        [
            ("CPANEL_BASE_URL", "https://h"),
            ("CPANEL_USERNAME", "u"),
            ("CPANEL_PASSWORD", "p"),
            ("CPANEL_FTP_HOST", "f"),
            ("CPANEL_FTP_USERNAME", "fu"),
            ("CPANEL_FTP_PASSWORD", "fp"),
        ]
        .iter(),
    ) {
        vars.push((n.to_string(), v.to_string()));
    }
    Config::from_env(&Environment { vars }).unwrap()
}

fn owned(list: &[&str]) -> Vec<String> {
    list.iter().map(|s| s.to_string()).collect()
}

fn drive(config: &Config, events: Vec<Event>) -> (Run, Action) {
    let (mut run, mut action) = Run::start();
    for event in events {
        (run, action) = run.step(config, event);
    }
    (run, action)
}

fn fetched() -> Vec<Event> {
    vec![
        Event::Listed(owned(&["backup-1.tar.gz", "backup-2.tar.gz"])),
        Event::Present(vec![false, false]),
        Event::Settled(42),
        Event::Downloaded("abcd".to_string()),
    ]
}

fn fetched_and(more: Vec<Event>) -> Vec<Event> {
    let mut events = fetched();
    events.extend(more);
    events
}

fn failure(action: Action) -> (Option<String>, Option<String>) {
    match action {
        Action::Fail { reason, context } => (reason, context),
        other => panic!("{other:?}"),
    }
}

fn context(action: Action) -> Option<String> {
    let (reason, context) = failure(action);
    assert_eq!(reason, None);
    context
}

#[test]
fn run_begins_with_a_listing() {
    assert!(matches!(Run::start().1, Action::List));
}

#[test]
fn listed_backups_are_looked_up_locally() {
    let (_, action) = drive(
        &config(&[]),
        vec![Event::Listed(owned(&["/x/backup-2.tar", "readme", "backup-1.tar"]))],
    );
    match action {
        Action::CheckLocal { paths } => {
            assert_eq!(paths, owned(&["/backups/backup-1.tar", "/backups/backup-2.tar"]))
        }
        other => panic!("{other:?}"),
    }
}

#[test]
fn pending_backup_is_fetched_before_anything_is_triggered() {
    let (_, action) = drive(
        &config(&[]),
        vec![
            Event::Listed(owned(&["backup-1.tar", "backup-2.tar", "backup-3.tar"])),
            Event::Present(vec![false, false, true]),
        ],
    );
    assert!(matches!(action, Action::AwaitSettled { ref file } if file == "backup-2.tar"));
}

#[test]
fn backup_is_triggered_when_nothing_is_pending() {
    let config = config(&[]);
    let listed = || Event::Listed(owned(&["backup-1.tar"]));
    let (_, action) = drive(&config, vec![listed(), Event::Present(vec![true])]);
    match action {
        Action::Trigger { request } => assert_eq!(
            request.url,
            "https://h/execute/Backup/fullbackup_to_homedir?homedir=include"
        ),
        other => panic!("{other:?}"),
    }
    let (_, action) = drive(&config, vec![listed(), Event::Present(vec![true]), Event::Started]);
    assert!(matches!(action, Action::AwaitNew { ref before } if *before == owned(&["backup-1.tar"])));
    let (_, action) = drive(
        &config,
        vec![
            listed(),
            Event::Present(vec![true]),
            Event::Started,
            Event::Appeared("backup-9.tar".to_string()),
        ],
    );
    assert!(matches!(action, Action::AwaitSettled { ref file } if file == "backup-9.tar"));
}

#[test]
fn download_goes_through_a_temporary_path() {
    let (_, action) = drive(&config(&[]), fetched().into_iter().take(3).collect());
    match action {
        Action::Download { file, temp, path, size } => {
            assert_eq!(file, "backup-2.tar.gz");
            assert_eq!(temp, "/backups/backup-2.tar.gz.part");
            assert_eq!(path, "/backups/backup-2.tar.gz");
            assert_eq!(size, 42);
        }
        other => panic!("{other:?}"),
    }
}

#[test]
fn checksum_is_written_after_the_download() {
    let (_, action) = drive(&config(&[]), fetched());
    match action {
        Action::WriteChecksum { path, text } => {
            assert_eq!(path, "/backups/backup-2.tar.gz.sha256");
            assert_eq!(text, "abcd  backup-2.tar.gz\n");
        }
        other => panic!("{other:?}"),
    }
}

#[test]
fn full_run_verifies_deletes_and_prunes() {
    let config = config(&[]);
    let (_, action) = drive(&config, fetched_and(vec![Event::Done]));
    assert!(matches!(action, Action::VerifyArchive { ref path } if path == "/backups/backup-2.tar.gz"));
    let (_, action) = drive(&config, fetched_and(vec![Event::Done, Event::Done]));
    assert!(matches!(action, Action::DeleteRemote { ref file } if file == "backup-2.tar.gz"));
    let (_, action) = drive(&config, fetched_and(vec![Event::Done, Event::Done, Event::Done]));
    assert!(matches!(action, Action::Prune));
    let (run, action) =
        drive(&config, fetched_and(vec![Event::Done, Event::Done, Event::Done, Event::Done]));
    assert!(matches!(action, Action::Finish));
    assert!(matches!(run, Run::Ended));
}

#[test]
fn steps_can_be_switched_off() {
    let config = config(&[
        ("VERIFY_ARCHIVE", "no"),
        ("DELETE_REMOTE_AFTER_DOWNLOAD", "no"),
        ("RETENTION_KEEP_LAST", "0"),
    ]);
    let (_, action) = drive(&config, fetched_and(vec![Event::Done]));
    assert!(matches!(action, Action::Finish));
}

#[test]
fn archive_that_fails_its_check_is_not_deleted() {
    let (run, action) = drive(&config(&[]), fetched_and(vec![Event::Done, Event::Failed]));
    assert_eq!(context(action).as_deref(), Some("verify archive /backups/backup-2.tar.gz"));
    assert!(matches!(run, Run::Ended));
}

#[test]
fn failures_say_during_what() {
    let config = config(&[]);
    let start = |n: usize| -> Vec<Event> {
        let mut events: Vec<Event> = fetched().into_iter().take(n).collect();
        events.push(Event::Failed);
        events
    };
    let said = |events: Vec<Event>| context(drive(&config, events).1);
    assert_eq!(said(start(0)).as_deref(), Some("list FTP backups before trigger"));
    assert_eq!(said(start(2)), None);
    assert_eq!(said(start(3)).as_deref(), Some("download backup-2.tar.gz"));
    assert_eq!(said(start(4)), None);
    assert_eq!(
        said(fetched_and(vec![Event::Done, Event::Done, Event::Failed])).as_deref(),
        Some("delete remote backup backup-2.tar.gz")
    );
    assert_eq!(said(fetched_and(vec![Event::Done, Event::Done, Event::Done, Event::Failed])), None);
    let idle = || vec![Event::Listed(Vec::new()), Event::Present(Vec::new())];
    let mut events = idle();
    events.push(Event::Failed);
    assert_eq!(said(events).as_deref(), Some("trigger cPanel full backup"));
    let mut events = idle();
    events.push(Event::Started);
    events.push(Event::Failed);
    assert_eq!(said(events).as_deref(), Some("wait for cPanel backup to complete"));
}

#[test]
fn name_that_is_no_file_is_not_fetched() {
    let (_, action) = drive(
        &config(&[]),
        vec![
            Event::Listed(Vec::new()),
            Event::Present(Vec::new()),
            Event::Started,
            Event::Appeared("..".to_string()),
            Event::Settled(1),
        ],
    );
    let (reason, context) = failure(action);
    assert_eq!(reason.as_deref(), Some("invalid filename /backups/.."));
    assert_eq!(context.as_deref(), Some("download .."));
    let (_, action) = (Run::Downloading { file: "..".to_string() })
        .step(&config(&[]), Event::Downloaded("abcd".to_string()));
    let (reason, context) = failure(action);
    assert_eq!(reason.as_deref(), Some("invalid backup filename /backups/.."));
    assert_eq!(context, None);
}

#[test]
fn event_out_of_order_fails_the_run() {
    let config = config(&[]);
    let unexpected = (Some("unexpected event".to_string()), None);
    assert_eq!(failure(drive(&config, vec![Event::Done]).1), unexpected);
    let mismatched = vec![Event::Listed(owned(&["backup-1.tar"])), Event::Present(Vec::new())];
    assert_eq!(failure(drive(&config, mismatched).1), unexpected);
    assert_eq!(failure(drive(&config, vec![Event::Failed, Event::Done]).1), unexpected);
    assert_eq!(failure(drive(&config, vec![Event::Failed, Event::Failed]).1), unexpected);
}

#[test]
fn only_the_daemon_pauses() {
    assert_eq!(pause_after_run(&config(&[])), None);
    assert_eq!(
        pause_after_run(&config(&[("RUN_MODE", "daemon"), ("SCHEDULE_INTERVAL_SECS", "9")])),
        Some(9)
    );
}
