//! One run of the backup job: what to do next after each thing that happened.

use vstd::prelude::*;

use crate::checksum::{
    checksum_file, invalid_backup_filename_text, law_checksum_file_in_a_plain_directory,
    law_checksum_lies_beside_the_archive, write_sha256,
};
use crate::config::{opt_text, Config, ConfigView, RunMode};
use crate::listing::{
    backups, last_unset, law_backups_are_file_names, law_backups_exist, law_pending_is_last,
    list_remote_backup_files, pending_backup,
};
use crate::paths::{
    file_name, invalid_filename_text, is_file_name, join_path, law_file_lies_in_directory,
    law_paths_in_a_plain_directory, law_sibling_lies_beside, normal_end, parent, path_in, sibling,
    sibling_path_with_suffix,
};
use crate::text::{precedes, texts};
use crate::uapi::{backup_request, CpanelClient, Request, RequestView};

verus! {

/// Something to be done outside.
#[derive(Debug)]
pub enum Action {
    /// List the FTP directory.
    List,
    /// Find out which of these paths exist.
    CheckLocal { paths: Vec<String> },
    /// Send the request that starts a full backup, and read its reply.
    Trigger { request: Request },
    /// Wait for a backup that is not among those listed before.
    AwaitNew { before: Vec<String> },
    /// Wait until the size of the archive on the server settles.
    AwaitSettled { file: String },
    /// Fetch the archive into the temporary path, then move it to its own.
    Download { file: String, temp: String, path: String, size: usize },
    /// Write the checksum file.
    WriteChecksum { path: String, text: String },
    /// Check that the archive holds the expected entries.
    VerifyArchive { path: String },
    /// Delete the archive from the server.
    DeleteRemote { file: String },
    /// Remove the oldest local archives.
    Prune,
    /// The run has succeeded.
    Finish,
    /// The run has failed. `reason` says what went wrong, where that is not what
    /// went wrong with the action before; `context` says during what, where
    /// there is more to say.
    Fail { reason: Option<String>, context: Option<String> },
}

/// What came of an action.
#[derive(Debug)]
pub enum Event {
    /// The entries of the FTP directory.
    Listed(Vec<String>),
    /// Of each path, whether it exists.
    Present(Vec<bool>),
    /// The backup was started.
    Started,
    /// A new backup is listed.
    Appeared(String),
    /// The archive has this size.
    Settled(usize),
    /// The archive is in its place and has this checksum.
    Downloaded(String),
    /// The action is done.
    Done,
    /// The action failed.
    Failed,
}

/// Where a run stands: what it waits for, and what it has to remember.
#[derive(Debug)]
pub enum Run {
    Listing,
    CheckingLocal { before: Vec<String> },
    Triggering { before: Vec<String> },
    AwaitingNew,
    Settling { file: String },
    Downloading { file: String },
    WritingChecksum { file: String },
    Verifying { file: String },
    Deleting { file: String },
    Pruning,
    Ended,
}

/// An `Action` as a mathematical value.
pub enum ActionView {
    List,
    CheckLocal { paths: Seq<Seq<char>> },
    Trigger { request: RequestView },
    AwaitNew { before: Seq<Seq<char>> },
    AwaitSettled { file: Seq<char> },
    Download { file: Seq<char>, temp: Seq<char>, path: Seq<char>, size: usize },
    WriteChecksum { path: Seq<char>, text: Seq<char> },
    VerifyArchive { path: Seq<char> },
    DeleteRemote { file: Seq<char> },
    Prune,
    Finish,
    Fail { reason: Option<Seq<char>>, context: Option<Seq<char>> },
}

/// An `Event` as a mathematical value.
pub enum EventView {
    Listed(Seq<Seq<char>>),
    Present(Seq<bool>),
    Started,
    Appeared(Seq<char>),
    Settled(usize),
    Downloaded(Seq<char>),
    Done,
    Failed,
}

/// A `Run` as a mathematical value.
pub enum Phase {
    Listing,
    CheckingLocal { before: Seq<Seq<char>> },
    Triggering { before: Seq<Seq<char>> },
    AwaitingNew,
    Settling { file: Seq<char> },
    Downloading { file: Seq<char> },
    WritingChecksum { file: Seq<char> },
    Verifying { file: Seq<char> },
    Deleting { file: Seq<char> },
    Pruning,
    Ended,
}

impl View for Action {
    type V = ActionView;

    open spec fn view(&self) -> ActionView {
        match self {
            Action::List => ActionView::List,
            Action::CheckLocal { paths } => ActionView::CheckLocal { paths: texts(paths@) },
            Action::Trigger { request } => ActionView::Trigger { request: request@ },
            Action::AwaitNew { before } => ActionView::AwaitNew { before: texts(before@) },
            Action::AwaitSettled { file } => ActionView::AwaitSettled { file: file@ },
            Action::Download { file, temp, path, size } => ActionView::Download {
                file: file@,
                temp: temp@,
                path: path@,
                size: *size,
            },
            Action::WriteChecksum { path, text } => ActionView::WriteChecksum {
                path: path@,
                text: text@,
            },
            Action::VerifyArchive { path } => ActionView::VerifyArchive { path: path@ },
            Action::DeleteRemote { file } => ActionView::DeleteRemote { file: file@ },
            Action::Prune => ActionView::Prune,
            Action::Finish => ActionView::Finish,
            Action::Fail { reason, context } => ActionView::Fail {
                reason: opt_text(*reason),
                context: opt_text(*context),
            },
        }
    }
}

impl View for Event {
    type V = EventView;

    open spec fn view(&self) -> EventView {
        match self {
            Event::Listed(entries) => EventView::Listed(texts(entries@)),
            Event::Present(flags) => EventView::Present(flags@),
            Event::Started => EventView::Started,
            Event::Appeared(file) => EventView::Appeared(file@),
            Event::Settled(size) => EventView::Settled(*size),
            Event::Downloaded(checksum) => EventView::Downloaded(checksum@),
            Event::Done => EventView::Done,
            Event::Failed => EventView::Failed,
        }
    }
}

impl View for Run {
    type V = Phase;

    open spec fn view(&self) -> Phase {
        match self {
            Run::Listing => Phase::Listing,
            Run::CheckingLocal { before } => Phase::CheckingLocal { before: texts(before@) },
            Run::Triggering { before } => Phase::Triggering { before: texts(before@) },
            Run::AwaitingNew => Phase::AwaitingNew,
            Run::Settling { file } => Phase::Settling { file: file@ },
            Run::Downloading { file } => Phase::Downloading { file: file@ },
            Run::WritingChecksum { file } => Phase::WritingChecksum { file: file@ },
            Run::Verifying { file } => Phase::Verifying { file: file@ },
            Run::Deleting { file } => Phase::Deleting { file: file@ },
            Run::Pruning => Phase::Pruning,
            Run::Ended => Phase::Ended,
        }
    }
}

/// The paths of files in a directory.
pub open spec fn paths_in(dir: Seq<char>, names: Seq<Seq<char>>) -> Seq<Seq<char>> {
    names.map_values(|name: Seq<char>| join_path(dir, name))
}

/// A run whose last action has failed, during what `context` says.
pub open spec fn failed(context: Option<Seq<char>>) -> (Phase, ActionView) {
    (Phase::Ended, ActionView::Fail { reason: None, context })
}

/// A run that cannot go on for the given reason.
pub open spec fn refused(reason: Seq<char>, context: Option<Seq<char>>) -> (Phase, ActionView) {
    (Phase::Ended, ActionView::Fail { reason: Some(reason), context })
}

/// A run that was told something else than it waits for.
pub open spec fn out_of_order() -> (Phase, ActionView) {
    refused("unexpected event"@, None)
}

/// A run that has an archive to fetch.
pub open spec fn fetch(file: Seq<char>) -> (Phase, ActionView) {
    (Phase::Settling { file }, ActionView::AwaitSettled { file })
}

/// A run whose archive is safe: local archives are pruned, if any limit is set.
pub open spec fn tidy_up(config: ConfigView) -> (Phase, ActionView) {
    if config.retention_keep_last == 0 {
        (Phase::Ended, ActionView::Finish)
    } else {
        (Phase::Pruning, ActionView::Prune)
    }
}

/// A run whose archive has passed its checks: it is deleted from the server,
/// if so configured.
pub open spec fn accepted(config: ConfigView, file: Seq<char>) -> (Phase, ActionView) {
    if config.delete_remote_after_download {
        (Phase::Deleting { file }, ActionView::DeleteRemote { file })
    } else {
        tidy_up(config)
    }
}

/// What a run does next after an event. An event that does not answer what the
/// run waits for fails it.
pub open spec fn next(config: ConfigView, phase: Phase, event: EventView) -> (Phase, ActionView) {
    match (phase, event) {
        (Phase::Listing, EventView::Listed(entries)) => {
            let before = backups(entries);
            (
                Phase::CheckingLocal { before },
                ActionView::CheckLocal { paths: paths_in(config.backup_dir, before) },
            )
        },
        (Phase::Listing, EventView::Failed) => failed(Some("list FTP backups before trigger"@)),
        (Phase::CheckingLocal { before }, EventView::Present(present)) => {
            if present.len() != before.len() {
                out_of_order()
            } else {
                match last_unset(before, present) {
                    Some(file) => fetch(file),
                    None => (
                        Phase::Triggering { before },
                        ActionView::Trigger { request: backup_request(config) },
                    ),
                }
            }
        },
        (Phase::Triggering { before }, EventView::Started) => (
            Phase::AwaitingNew,
            ActionView::AwaitNew { before },
        ),
        (Phase::Triggering { before: _ }, EventView::Failed) => failed(
            Some("trigger cPanel full backup"@),
        ),
        (Phase::AwaitingNew, EventView::Appeared(file)) => fetch(file),
        (Phase::AwaitingNew, EventView::Failed) => failed(
            Some("wait for cPanel backup to complete"@),
        ),
        (Phase::Settling { file }, EventView::Settled(size)) => {
            let path = join_path(config.backup_dir, file);
            match sibling(path, ".part"@) {
                Some(temp) => (
                    Phase::Downloading { file },
                    ActionView::Download { file, temp, path, size },
                ),
                None => refused(invalid_filename_text(path), Some("download "@ + file)),
            }
        },
        (Phase::Downloading { file }, EventView::Downloaded(checksum)) => {
            let archive = join_path(config.backup_dir, file);
            match checksum_file(archive, checksum) {
                Some((path, text)) => (
                    Phase::WritingChecksum { file },
                    ActionView::WriteChecksum { path, text },
                ),
                None => refused(invalid_backup_filename_text(archive), None),
            }
        },
        (Phase::Downloading { file }, EventView::Failed) => failed(Some("download "@ + file)),
        (Phase::WritingChecksum { file }, EventView::Done) => {
            if config.verify_archive {
                (
                    Phase::Verifying { file },
                    ActionView::VerifyArchive { path: join_path(config.backup_dir, file) },
                )
            } else {
                accepted(config, file)
            }
        },
        (Phase::Verifying { file }, EventView::Done) => accepted(config, file),
        (Phase::Verifying { file }, EventView::Failed) => failed(
            Some("verify archive "@ + join_path(config.backup_dir, file)),
        ),
        (Phase::Deleting { file: _ }, EventView::Done) => tidy_up(config),
        (Phase::Deleting { file }, EventView::Failed) => failed(
            Some("delete remote backup "@ + file),
        ),
        (Phase::Pruning, EventView::Done) => (Phase::Ended, ActionView::Finish),
        (Phase::Ended, _) => out_of_order(),
        (_, EventView::Failed) => failed(None),
        _ => out_of_order(),
    }
}

/// The paths of files in a directory.
fn local_paths(dir: &str, names: &Vec<String>) -> (res: Vec<String>)
    ensures
        texts(res@) == paths_in(dir@, texts(names@)),
{
    let ghost wanted = paths_in(dir@, texts(names@));
    let mut res: Vec<String> = Vec::new();
    let mut i: usize = 0;
    while i < names.len()
        invariant
            i <= names.len(),
            wanted == paths_in(dir@, texts(names@)),
            texts(res@) == wanted.take(i as int),
        decreases names.len() - i,
    {
        let path = path_in(dir, names[i].as_str());
        let ghost done = res@;
        res.push(path);
        assert(texts(res@) =~= texts(done).push(path@));
        assert(wanted[i as int] == path@);
        assert(texts(res@) =~= wanted.take(i + 1));
        i += 1;
    }
    assert(wanted.take(wanted.len() as int) =~= wanted);
    res
}

/// A run whose last action has failed, during what `context` says.
fn fail_with(context: Option<String>) -> (res: (Run, Action))
    ensures
        (res.0@, res.1@) == failed(opt_text(context)),
{
    (Run::Ended, Action::Fail { reason: None, context })
}

/// A run whose last action has failed, during what `context` and `detail` say.
fn fail_during(context: &str, detail: &str) -> (res: (Run, Action))
    ensures
        (res.0@, res.1@) == failed(Some(context@ + detail@)),
{
    let mut text = context.to_owned();
    text.append(detail);
    fail_with(Some(text))
}

/// A run that was told something else than it waits for.
fn fail_out_of_order() -> (res: (Run, Action))
    ensures
        (res.0@, res.1@) == out_of_order(),
{
    (Run::Ended, Action::Fail { reason: Some("unexpected event".to_owned()), context: None })
}

impl Run {
    /// Begins a run.
    pub fn start() -> (res: (Run, Action))
        ensures
            (res.0@, res.1@) == (Phase::Listing, ActionView::List),
    {
        (Run::Listing, Action::List)
    }

    /// A run that has an archive to fetch.
    fn fetch(file: String) -> (res: (Run, Action))
        ensures
            (res.0@, res.1@) == fetch(file@),
    {
        (Run::Settling { file: file.clone() }, Action::AwaitSettled { file })
    }

    /// A run whose archive is safe.
    fn tidy_up(config: &Config) -> (res: (Run, Action))
        ensures
            (res.0@, res.1@) == tidy_up(config@),
    {
        if config.retention_keep_last == 0 {
            (Run::Ended, Action::Finish)
        } else {
            (Run::Pruning, Action::Prune)
        }
    }

    /// A run whose archive has passed its checks.
    fn accepted(config: &Config, file: String) -> (res: (Run, Action))
        ensures
            (res.0@, res.1@) == accepted(config@, file@),
    {
        if config.delete_remote_after_download {
            (Run::Deleting { file: file.clone() }, Action::DeleteRemote { file })
        } else {
            Run::tidy_up(config)
        }
    }

    /// What the run does next after an event.
    pub fn step(self, config: &Config, event: Event) -> (res: (Run, Action))
        ensures
            (res.0@, res.1@) == next(config@, self@, event@),
    {
        let dir = config.backup_dir.as_str();
        match (self, event) {
            (Run::Listing, Event::Listed(entries)) => {
                let before = list_remote_backup_files(&entries);
                let paths = local_paths(dir, &before);
                (Run::CheckingLocal { before }, Action::CheckLocal { paths })
            },
            (Run::Listing, Event::Failed) => {
                fail_with(Some("list FTP backups before trigger".to_owned()))
            },
            (Run::CheckingLocal { before }, Event::Present(present)) => {
                assert(texts(before@).len() == before@.len());
                if present.len() != before.len() {
                    return fail_out_of_order();
                }
                match pending_backup(&before, &present) {
                    Some(file) => Run::fetch(file),
                    None => {
                        let request = CpanelClient::new(config).start_full_backup();
                        (Run::Triggering { before }, Action::Trigger { request })
                    },
                }
            },
            (Run::Triggering { before }, Event::Started) => {
                (Run::AwaitingNew, Action::AwaitNew { before })
            },
            (Run::Triggering { before: _ }, Event::Failed) => {
                fail_with(Some("trigger cPanel full backup".to_owned()))
            },
            (Run::AwaitingNew, Event::Appeared(file)) => Run::fetch(file),
            (Run::AwaitingNew, Event::Failed) => {
                fail_with(Some("wait for cPanel backup to complete".to_owned()))
            },
            (Run::Settling { file }, Event::Settled(size)) => {
                let path = path_in(dir, file.as_str());
                match sibling_path_with_suffix(path.as_str(), ".part") {
                    Ok(temp) => {
                        (
                            Run::Downloading { file: file.clone() },
                            Action::Download { file, temp, path, size },
                        )
                    },
                    Err(error) => {
                        let mut context = "download ".to_owned();
                        context.append(file.as_str());
                        (
                            Run::Ended,
                            Action::Fail { reason: Some(error.message()), context: Some(context) },
                        )
                    },
                }
            },
            (Run::Downloading { file }, Event::Downloaded(checksum)) => {
                let path = path_in(dir, file.as_str());
                match write_sha256(path.as_str(), checksum.as_str()) {
                    Ok(written) => {
                        (
                            Run::WritingChecksum { file },
                            Action::WriteChecksum { path: written.path, text: written.text },
                        )
                    },
                    Err(error) => {
                        (
                            Run::Ended,
                            Action::Fail { reason: Some(error.message()), context: None },
                        )
                    },
                }
            },
            (Run::Downloading { file }, Event::Failed) => fail_during("download ", file.as_str()),
            (Run::WritingChecksum { file }, Event::Done) => {
                if config.verify_archive {
                    let path = path_in(dir, file.as_str());
                    (Run::Verifying { file }, Action::VerifyArchive { path })
                } else {
                    Run::accepted(config, file)
                }
            },
            (Run::Verifying { file }, Event::Done) => Run::accepted(config, file),
            (Run::Verifying { file }, Event::Failed) => {
                fail_during("verify archive ", path_in(dir, file.as_str()).as_str())
            },
            (Run::Deleting { file: _ }, Event::Done) => Run::tidy_up(config),
            (Run::Deleting { file }, Event::Failed) => {
                fail_during("delete remote backup ", file.as_str())
            },
            (Run::Pruning, Event::Done) => (Run::Ended, Action::Finish),
            (Run::Ended, _) => fail_out_of_order(),
            (_, Event::Failed) => fail_with(None),
            _ => fail_out_of_order(),
        }
    }
}

/// The seconds until the next run, where there is one.
pub open spec fn pause(config: ConfigView) -> Option<nat> {
    match config.run_mode {
        RunMode::Once => None,
        RunMode::Daemon => Some(config.schedule_interval),
    }
}

/// The seconds to pause after a run, whether it succeeded or failed, before the
/// next one; none where the run was the only one.
pub fn pause_after_run(config: &Config) -> (res: Option<u64>)
    ensures
        match res {
            Some(secs) => pause(config@) == Some(secs as nat),
            None => pause(config@) is None,
        },
{
    match config.run_mode {
        RunMode::Once => None,
        RunMode::Daemon => Some(config.schedule_interval),
    }
}

/// Where a run stands, and what it does, after a series of events.
pub open spec fn after(config: ConfigView, events: Seq<EventView>) -> (Phase, ActionView)
    decreases events.len(),
{
    if events.len() == 0 {
        (Phase::Listing, ActionView::List)
    } else {
        next(config, after(config, events.drop_last()).0, events.last())
    }
}

/// How far a run has come.
pub open spec fn progress(phase: Phase) -> nat {
    match phase {
        Phase::Listing => 0,
        Phase::CheckingLocal { before: _ } => 1,
        Phase::Triggering { before: _ } => 2,
        Phase::AwaitingNew => 3,
        Phase::Settling { file: _ } => 4,
        Phase::Downloading { file: _ } => 5,
        Phase::WritingChecksum { file: _ } => 6,
        Phase::Verifying { file: _ } => 7,
        Phase::Deleting { file: _ } => 8,
        Phase::Pruning => 9,
        Phase::Ended => 10,
    }
}

/// A failed action ends the run with an error, wherever it stands.
pub proof fn law_failure_ends_the_run(config: ConfigView, phase: Phase)
    ensures
        next(config, phase, EventView::Failed).0 == Phase::Ended,
        next(config, phase, EventView::Failed).1 matches ActionView::Fail { reason, context: _ }
            && (reason is None <==> phase != Phase::Ended),
{
}

/// A run that has ended does nothing more.
pub proof fn law_ended_stays_ended(config: ConfigView, event: EventView)
    ensures
        next(config, Phase::Ended, event) == out_of_order(),
{
}

/// Every event brings a run forward, so it ends after ten events at the latest.
pub proof fn law_run_is_bounded(config: ConfigView, events: Seq<EventView>)
    ensures
        after(config, events).0 == Phase::Ended || progress(after(config, events).0)
            >= events.len(),
        events.len() >= 10 ==> after(config, events).0 == Phase::Ended,
    decreases events.len(),
{
    if events.len() > 0 {
        law_run_is_bounded(config, events.drop_last());
    }
}

/// What a run does fits where it stands.
proof fn lemma_action_fits(config: ConfigView, events: Seq<EventView>)
    ensures
        ({
            let (phase, action) = after(config, events);
            &&& action == ActionView::List <==> phase == Phase::Listing
            &&& action is CheckLocal <==> phase is CheckingLocal
            &&& action is Trigger <==> phase is Triggering
            &&& action is AwaitNew <==> phase is AwaitingNew
            &&& action matches ActionView::AwaitSettled { file } ==> phase == (Phase::Settling {
                file,
            })
            &&& phase matches Phase::Settling { file } ==> action == (ActionView::AwaitSettled {
                file,
            })
            &&& action is Download <==> phase is Downloading
            &&& action is WriteChecksum <==> phase is WritingChecksum
            &&& phase matches Phase::Verifying { file } ==> action == (ActionView::VerifyArchive {
                path: join_path(config.backup_dir, file),
            })
            &&& action matches ActionView::DeleteRemote { file } ==> phase == (Phase::Deleting {
                file,
            })
            &&& action == ActionView::Prune <==> phase == Phase::Pruning
        }),
{
}

/// The archive that a run has begun to fetch was written to its path before
/// its checksum is.
proof fn lemma_checksum_follows_download(config: ConfigView, events: Seq<EventView>)
    requires
        after(config, events).0 is WritingChecksum,
    ensures
        events.len() >= 1,
        after(config, events.drop_last()).0 == (Phase::Downloading {
            file: after(config, events).0->WritingChecksum_file,
        }),
        events.last() matches EventView::Downloaded(checksum) && checksum_file(
            join_path(config.backup_dir, after(config, events).0->WritingChecksum_file),
            checksum,
        ) matches Some((path, text)) && after(config, events).1 == (ActionView::WriteChecksum {
            path,
            text,
        }),
{
}

/// A run that is fetching an archive has been told its size.
proof fn lemma_download_names_its_file(config: ConfigView, events: Seq<EventView>)
    requires
        after(config, events).0 is Downloading,
    ensures
        events.len() >= 1,
        after(config, events).1 matches ActionView::Download { file, temp, path, size } && file
            == after(config, events).0->Downloading_file && path == join_path(
            config.backup_dir,
            file,
        ) && sibling(path, ".part"@) == Some(temp) && events.last() == EventView::Settled(size)
            && after(config, events.drop_last()).0 == (Phase::Settling { file }),
{
}

/// A run that verifies an archive has written its checksum.
proof fn lemma_verify_follows_checksum(config: ConfigView, events: Seq<EventView>)
    requires
        after(config, events).0 is Verifying,
    ensures
        events.len() >= 1,
        events.last() == EventView::Done,
        config.verify_archive,
        after(config, events.drop_last()).0 == (Phase::WritingChecksum {
            file: after(config, events).0->Verifying_file,
        }),
{
}

/// The archive `file` has been fetched and its checksum written: the events
/// end with the download of the archive into its place, answered by its
/// checksum, and the writing of the checksum file, answered by success.
pub open spec fn stored(config: ConfigView, events: Seq<EventView>, file: Seq<char>) -> bool {
    let n = events.len() as int;
    let path = join_path(config.backup_dir, file);
    &&& n >= 2
    &&& events[n - 1] == EventView::Done
    &&& after(config, events.take(n - 2)).1 matches ActionView::Download {
        file: fetched,
        temp: _,
        path: place,
        size: _,
    } && fetched == file && place == path
    &&& events[n - 2] matches EventView::Downloaded(checksum) && checksum_file(
        path,
        checksum,
    ) matches Some((beside, text)) && after(config, events.take(n - 1)).1 == (
    ActionView::WriteChecksum { path: beside, text })
}

/// A run that has written a checksum has stored the archive.
proof fn lemma_stored(config: ConfigView, events: Seq<EventView>)
    requires
        after(config, events).0 is WritingChecksum,
    ensures
        stored(
            config,
            events.push(EventView::Done),
            after(config, events).0->WritingChecksum_file,
        ),
{
    let longer = events.push(EventView::Done);
    let n = longer.len() as int;
    lemma_checksum_follows_download(config, events);
    lemma_download_names_its_file(config, events.drop_last());
    assert(longer.take(n - 1) =~= events);
    assert(longer.take(n - 2) =~= events.drop_last());
}

/// An archive is deleted from the server only if so configured, and only after
/// a verified download: it has been fetched, its checksum has been written,
/// and, where archives are verified, its entries have just been found in place.
pub proof fn law_delete_follows_verified_download(
    config: ConfigView,
    events: Seq<EventView>,
    file: Seq<char>,
)
    requires
        after(config, events).1 == (ActionView::DeleteRemote { file }),
    ensures
        config.delete_remote_after_download,
        config.verify_archive ==> {
            &&& events.len() >= 3
            &&& events.last() == EventView::Done
            &&& after(config, events.drop_last()).1 == (ActionView::VerifyArchive {
                path: join_path(config.backup_dir, file),
            })
            &&& stored(config, events.drop_last(), file)
        },
        !config.verify_archive ==> stored(config, events, file),
{
    let front = events.drop_last();
    lemma_action_fits(config, events);
    lemma_action_fits(config, front);
    if config.verify_archive {
        assert(after(config, front).0 == (Phase::Verifying { file })) by {
            if after(config, front).0 is WritingChecksum {
                assert(after(config, events).0 is Verifying || after(config, events).0 is Ended);
            }
        }
        lemma_verify_follows_checksum(config, front);
        lemma_stored(config, front.drop_last());
        assert(front.drop_last().push(EventView::Done) =~= front);
    } else {
        if after(config, front).0 is Verifying {
            lemma_verify_follows_checksum(config, front);
        }
        lemma_stored(config, front);
        assert(front.push(EventView::Done) =~= events);
    }
}

/// A new backup is triggered only when every backup on the server is present
/// locally: the run has listed the server, asked for each backup of the
/// listing, and been told that it exists.
pub proof fn law_trigger_only_when_nothing_is_pending(
    config: ConfigView,
    events: Seq<EventView>,
    request: RequestView,
)
    requires
        after(config, events).1 == (ActionView::Trigger { request }),
    ensures
        request == backup_request(config),
        events.len() == 2,
        events[0] matches EventView::Listed(entries) && events[1] matches EventView::Present(present)
            && present.len() == backups(entries).len() && after(config, events.take(1)).1 == (
        ActionView::CheckLocal { paths: paths_in(config.backup_dir, backups(entries)) }) && forall|
            i: int,
        |
            0 <= i < present.len() ==> #[trigger] present[i],
{
    lemma_action_fits(config, events);
    let front = events.drop_last();
    lemma_action_fits(config, front);
    assert(after(config, front).0 is CheckingLocal);
    let first = front.drop_last();
    lemma_action_fits(config, first);
    assert(after(config, first).0 == Phase::Listing);
    if first.len() > 0 {
        assert(progress(after(config, first).0) > progress(after(config, first.drop_last()).0)
            || after(config, first).0 == Phase::Ended);
    }
    assert(front.len() == 1);
    assert(events.take(1) =~= front);
    let before = after(config, front).0->CheckingLocal_before;
    let present = events[1]->Present_0;
    law_backups_exist(events[0]->Listed_0);
    law_pending_is_last(before, present);
}

/// A backup on the server that is not present locally is fetched before
/// anything is triggered: the last of those in the listing.
pub proof fn law_pending_backup_is_fetched_first(
    config: ConfigView,
    entries: Seq<Seq<char>>,
    present: Seq<bool>,
    i: int,
)
    requires
        present.len() == backups(entries).len(),
        0 <= i < present.len(),
        !present[i],
    ensures
        after(
            config,
            seq![EventView::Listed(entries), EventView::Present(present)],
        ).1 matches ActionView::AwaitSettled { file } && backups(entries).contains(file) && (file
            == backups(entries)[i] || precedes(backups(entries)[i], file)),
{
    let events = seq![EventView::Listed(entries), EventView::Present(present)];
    let names = backups(entries);
    let first = events.drop_last();
    assert(first.drop_last().len() == 0);
    assert(after(config, first).0 == (Phase::CheckingLocal { before: names })) by {
        reveal_with_fuel(after, 2);
    }
    law_backups_exist(entries);
    law_pending_is_last(names, present);
    match last_unset(names, present) {
        Some(file) => {
            let k = choose|k: int|
                0 <= k < names.len() && #[trigger] names[k] == file && !present[k] && forall|j: int|
                    0 <= j < names.len() && !#[trigger] present[j] && j != k ==> precedes(
                        names[j],
                        file,
                    );
            assert(names[k] == file);
        },
        None => {},
    }
}

/// A run succeeds only after it has stored an archive.
pub proof fn law_success_means_stored(config: ConfigView, events: Seq<EventView>)
    requires
        after(config, events).1 == ActionView::Finish,
    ensures
        exists|n: int, file: Seq<char>|
            0 <= n <= events.len() && #[trigger] stored(config, events.take(n), file),
{
    lemma_action_fits(config, events.drop_last());
    lemma_late_phase_has_stored(config, events.drop_last(), events.last());
    let (n, file) = choose|n: int, file: Seq<char>|
        0 <= n <= events.len() && #[trigger] stored(
            config,
            events.drop_last().push(events.last()).take(n),
            file,
        );
    assert(events.drop_last().push(events.last()) =~= events);
}

/// A run that has come further than writing a checksum, or does so with
/// `event`, has stored an archive.
proof fn lemma_late_phase_has_stored(config: ConfigView, events: Seq<EventView>, event: EventView)
    requires
        match after(config, events).0 {
            Phase::WritingChecksum { file: _ } => event == EventView::Done,
            Phase::Verifying { file: _ } => true,
            Phase::Deleting { file: _ } => true,
            Phase::Pruning => true,
            _ => false,
        },
    ensures
        exists|n: int, file: Seq<char>|
            0 <= n <= events.len() + 1 && #[trigger] stored(
                config,
                events.push(event).take(n),
                file,
            ),
    decreases events.len(),
{
    let longer = events.push(event);
    match after(config, events).0 {
        Phase::WritingChecksum { file } => {
            lemma_stored(config, events);
            assert(longer.take(longer.len() as int) =~= longer);
            assert(stored(config, longer.take(longer.len() as int), file));
        },
        _ => {
            let front = events.drop_last();
            lemma_late_phase_has_stored(config, front, events.last());
            let (n, file) = choose|n: int, file: Seq<char>|
                0 <= n <= front.len() + 1 && #[trigger] stored(
                    config,
                    front.push(events.last()).take(n),
                    file,
                );
            assert(front.push(events.last()) =~= events);
            assert(longer.take(n) =~= events.take(n));
            assert(stored(config, longer.take(n), file));
        },
    }
}

/// An archive whose name is that of a file is fetched into the backup
/// directory, and so is its temporary copy.
pub proof fn law_downloads_stay_in_the_directory(
    config: ConfigView,
    file: Seq<char>,
    size: usize,
)
    requires
        is_file_name(file),
    ensures
        next(
            config,
            Phase::Settling { file },
            EventView::Settled(size),
        ).1 matches ActionView::Download { file: fetched, temp, path, size: announced } && fetched
            == file && announced == size && parent(path) == normal_end(config.backup_dir) && parent(
            temp,
        ) == normal_end(config.backup_dir) && file_name(path) == Some(file) && file_name(temp)
            == Some(file + ".part"@),
{
    reveal_strlit(".part");
    law_file_lies_in_directory(config.backup_dir, file);
    law_sibling_lies_beside(join_path(config.backup_dir, file), ".part"@);
}

/// A run that lists, looks up, triggers or waits has had so many events.
proof fn lemma_early_phases(config: ConfigView, events: Seq<EventView>)
    ensures
        match after(config, events).0 {
            Phase::Listing => events.len() == 0,
            Phase::CheckingLocal { before: _ } => events.len() == 1,
            Phase::Triggering { before: _ } => events.len() == 2,
            Phase::AwaitingNew => events.len() == 3,
            Phase::Settling { file: _ } => events.len() == 2 || events.len() == 4,
            _ => true,
        },
    decreases events.len(),
{
    if events.len() > 0 {
        lemma_early_phases(config, events.drop_last());
    }
}

/// The beginnings of a series of events are those of its beginnings.
proof fn lemma_takes(events: Seq<EventView>, n: int, k: int)
    requires
        0 <= k <= n <= events.len(),
    ensures
        events.take(n).take(k) == events.take(k),
        k < n ==> events.take(n)[k] == events[k],
        n > 0 ==> events.take(n).drop_last() == events.take(n - 1),
        n > 0 ==> events.take(n).last() == events[n - 1],
        events.take(events.len() as int) == events,
{
    assert(events.take(n).take(k) =~= events.take(k));
    if n > 0 {
        assert(events.take(n).drop_last() =~= events.take(n - 1));
    }
    assert(events.take(events.len() as int) =~= events);
}

/// The steps by which an archive is fetched and its checksum written stand at
/// position `s` of the events: the wait for its size, the download of that size
/// into its place, and the checksum file, each answered by success.
pub open spec fn fetches_at(
    config: ConfigView,
    events: Seq<EventView>,
    s: int,
    file: Seq<char>,
) -> bool {
    &&& 0 <= s && s + 3 <= events.len()
    &&& s == 2 || s == 4
    &&& after(config, events.take(s)).1 == (ActionView::AwaitSettled { file })
    &&& events[s] matches EventView::Settled(size) && (after(config, events.take(s + 1)).1
        matches ActionView::Download { file: fetched, temp: _, path, size: announced } && fetched
        == file && announced == size && path == join_path(config.backup_dir, file))
    &&& events[s + 1] is Downloaded
    &&& after(config, events.take(s + 2)).1 is WriteChecksum
    &&& events[s + 2] == EventView::Done
}

/// A run in which the checksum of an archive is being written has fetched it.
proof fn lemma_fetch_steps(config: ConfigView, events: Seq<EventView>, n: int)
    requires
        0 <= n < events.len(),
        after(config, events.take(n)).0 is WritingChecksum,
        events[n] == EventView::Done,
    ensures
        n >= 2,
        fetches_at(config, events, n - 2, after(config, events.take(n)).0->WritingChecksum_file),
{
    let writing = events.take(n);
    let file = after(config, writing).0->WritingChecksum_file;
    lemma_takes(events, n, 0);
    lemma_checksum_follows_download(config, writing);
    lemma_action_fits(config, writing);
    let downloading = events.take(n - 1);
    lemma_takes(events, n - 1, 0);
    lemma_download_names_its_file(config, downloading);
    let settling = events.take(n - 2);
    lemma_action_fits(config, settling);
    lemma_early_phases(config, settling);
    assert(settling.len() == n - 2);
    assert(after(config, settling).0 == (Phase::Settling { file }));
}

/// A run that succeeds has done all that it is for, in this order and with nothing
/// between: it has fetched one archive and written its checksum; it has verified
/// that archive exactly if archives are to be verified; it has deleted it from the
/// server exactly if it is to be deleted; and it has pruned the local archives
/// exactly if a number to keep is set. Each of these steps succeeded, whatever the
/// other settings are.
pub proof fn law_finished_run_did_everything(config: ConfigView, events: Seq<EventView>)
    requires
        after(config, events).1 == ActionView::Finish,
    ensures
        exists|s: int, file: Seq<char>|
            {
                let verified = if config.verify_archive { 1int } else { 0 };
                let deleted = if config.delete_remote_after_download { 1int } else { 0 };
                let pruned = if config.retention_keep_last > 0 { 1int } else { 0 };
                let v = s + 3;
                let d = v + verified;
                let p = d + deleted;
                &&& #[trigger] fetches_at(config, events, s, file)
                &&& events.len() == p + pruned
                &&& config.verify_archive ==> after(config, events.take(v)).1 == (
                ActionView::VerifyArchive { path: join_path(config.backup_dir, file) }) && events[v]
                    == EventView::Done
                &&& config.delete_remote_after_download ==> after(config, events.take(d)).1 == (
                ActionView::DeleteRemote { file }) && events[d] == EventView::Done
                &&& config.retention_keep_last > 0 ==> after(config, events.take(p)).1
                    == ActionView::Prune && events[p] == EventView::Done
            },
{
    let n = events.len() as int;
    lemma_takes(events, n, 0);
    assert(n > 0);
    let pruned = if config.retention_keep_last > 0 { 1int } else { 0 };
    let deleted = if config.delete_remote_after_download { 1int } else { 0 };
    let verified = if config.verify_archive { 1int } else { 0 };
    let p = n - pruned;
    if config.retention_keep_last > 0 {
        assert(after(config, events.take(p)).0 == Phase::Pruning);
        lemma_action_fits(config, events.take(p));
    }
    assert(tidies_up_at(config, events, p));
    let d = lemma_before_tidying(config, events, p);
    let file = choose|file: Seq<char>| #[trigger] accepts_at(config, events, d, file);
    let v = lemma_before_accepting(config, events, d, file);
    lemma_fetch_steps(config, events, v - 1);
    assert(fetches_at(config, events, v - 3, file));
}

/// The event before position `p` makes the run tidy up.
spec fn tidies_up_at(config: ConfigView, events: Seq<EventView>, p: int) -> bool {
    &&& 0 < p <= events.len()
    &&& (after(config, events.take(p)).0, after(config, events.take(p)).1) == tidy_up(config)
}

/// The event before position `d` makes the run accept the archive.
spec fn accepts_at(config: ConfigView, events: Seq<EventView>, d: int, file: Seq<char>) -> bool {
    &&& 0 < d <= events.len()
    &&& events[d - 1] == EventView::Done
    &&& if config.verify_archive {
        after(config, events.take(d - 1)).0 == (Phase::Verifying { file })
    } else {
        after(config, events.take(d - 1)).0 == (Phase::WritingChecksum { file })
    }
}

/// A run tidies up once the archive is accepted and, where so configured, deleted.
proof fn lemma_before_tidying(config: ConfigView, events: Seq<EventView>, p: int) -> (d: int)
    requires
        tidies_up_at(config, events, p),
    ensures
        d == p - if config.delete_remote_after_download { 1int } else { 0 },
        exists|file: Seq<char>|
            {
                &&& #[trigger] accepts_at(config, events, d, file)
                &&& config.delete_remote_after_download ==> after(config, events.take(d)).1 == (
                ActionView::DeleteRemote { file }) && events[d] == EventView::Done
            },
        forall|file: Seq<char>| #[trigger]
            accepts_at(config, events, d, file) && config.delete_remote_after_download ==> after(
                config,
                events.take(d),
            ).1 == (ActionView::DeleteRemote { file }) && events[d] == EventView::Done,
{
    lemma_takes(events, p, 0);
    let front = events.take(p - 1);
    lemma_action_fits(config, front);
    if config.delete_remote_after_download {
        assert(after(config, front).0 is Deleting);
        assert(events[p - 1] == EventView::Done);
        let file = after(config, front).0->Deleting_file;
        lemma_takes(events, p - 1, 0);
        let earlier = events.take(p - 2);
        lemma_action_fits(config, earlier);
        if config.verify_archive {
            if after(config, earlier).0 is WritingChecksum {
                assert(after(config, front).0 is Verifying || after(config, front).0 is Ended);
            }
        } else {
            if after(config, earlier).0 is Verifying {
                lemma_verify_follows_checksum(config, earlier);
            }
        }
        assert(accepts_at(config, events, p - 1, file));
        p - 1
    } else {
        if config.verify_archive {
            if after(config, front).0 is WritingChecksum {
                assert(after(config, events.take(p)).0 is Verifying || after(
                    config,
                    events.take(p),
                ).1 is Fail);
            }
            assert(after(config, front).0 is Verifying);
            assert(accepts_at(config, events, p, after(config, front).0->Verifying_file));
        } else {
            if after(config, front).0 is Verifying {
                lemma_verify_follows_checksum(config, front);
            }
            assert(after(config, front).0 is WritingChecksum);
            assert(accepts_at(config, events, p, after(config, front).0->WritingChecksum_file));
        }
        p
    }
}

/// A run accepts an archive once its checksum is written and, where so configured,
/// its entries are verified.
proof fn lemma_before_accepting(
    config: ConfigView,
    events: Seq<EventView>,
    d: int,
    file: Seq<char>,
) -> (v: int)
    requires
        accepts_at(config, events, d, file),
    ensures
        v == d - if config.verify_archive { 1int } else { 0 },
        v > 0,
        after(config, events.take(v - 1)).0 == (Phase::WritingChecksum { file }),
        events[v - 1] == EventView::Done,
        config.verify_archive ==> after(config, events.take(v)).1 == (ActionView::VerifyArchive {
            path: join_path(config.backup_dir, file),
        }) && events[v] == EventView::Done,
{
    if config.verify_archive {
        let front = events.take(d - 1);
        lemma_takes(events, d - 1, 0);
        lemma_verify_follows_checksum(config, front);
        lemma_action_fits(config, front);
        d - 1
    } else {
        d
    }
}

/// An event is of the kind that answers an action with success.
pub open spec fn fits(action: ActionView, event: EventView) -> bool {
    match action {
        ActionView::List => event is Listed,
        ActionView::CheckLocal { paths } => event matches EventView::Present(present)
            && present.len() == paths.len(),
        ActionView::Trigger { request: _ } => event is Started,
        ActionView::AwaitNew { before: _ } => event is Appeared,
        ActionView::AwaitSettled { file: _ } => event is Settled,
        ActionView::Download { file: _, temp: _, path: _, size: _ } => event is Downloaded,
        ActionView::WriteChecksum { path: _, text: _ } => event is Done,
        ActionView::VerifyArchive { path: _ } => event is Done,
        ActionView::DeleteRemote { file: _ } => event is Done,
        ActionView::Prune => event is Done,
        ActionView::Finish => false,
        ActionView::Fail { reason: _, context: _ } => false,
    }
}

/// A run whose actions all succeed does not fail, and ends in success: as long as
/// every event fits the action before it, and what appears has the name of a file,
/// the run goes on, and after ten events at the latest it is finished.
pub proof fn law_run_without_failures_succeeds(config: ConfigView, events: Seq<EventView>)
    requires
        forall|k: int|
            0 <= k < events.len() ==> fits(
                after(config, events.take(k)).1,
                #[trigger] events[k],
            ) && (events[k] matches EventView::Appeared(file) ==> is_file_name(file)),
    ensures
        !(after(config, events).1 is Fail),
        after(config, events).1 == ActionView::Finish <==> after(config, events).0 == Phase::Ended,
        events.len() >= 10 ==> after(config, events).1 == ActionView::Finish,
        match after(config, events).0 {
            Phase::Settling { file } => is_file_name(file),
            Phase::Downloading { file } => is_file_name(file),
            _ => true,
        },
    decreases events.len(),
{
    law_run_is_bounded(config, events);
    if events.len() > 0 {
        let n = events.len() - 1;
        let front = events.drop_last();
        assert(events.take(n) =~= front);
        assert forall|k: int| 0 <= k < front.len() implies fits(
            after(config, front.take(k)).1,
            #[trigger] front[k],
        ) && (front[k] matches EventView::Appeared(file) ==> is_file_name(file)) by {
            assert(front.take(k) =~= events.take(k));
            assert(front[k] == events[k]);
        }
        law_run_without_failures_succeeds(config, front);
        lemma_action_fits(config, front);
        assert(fits(after(config, front).1, events[n]));
        let (phase, action) = after(config, front);
        match phase {
            Phase::CheckingLocal { before } => {
                let present = events[n]->Present_0;
                lemma_early_phases(config, front);
                let start = front.drop_last();
                lemma_early_phases(config, start);
                assert(after(config, start).0 == Phase::Listing);
                let entries = front[0]->Listed_0;
                assert(before == backups(entries));
                assert(action->CheckLocal_paths.len() == before.len());
                law_backups_exist(entries);
                law_pending_is_last(before, present);
                match last_unset(before, present) {
                    Some(file) => {
                        let i = choose|i: int|
                            0 <= i < before.len() && #[trigger] before[i] == file && !present[i]
                                && forall|j: int|
                                0 <= j < before.len() && !#[trigger] present[j] && j != i
                                    ==> precedes(before[j], file);
                        assert(before.contains(before[i]));
                        law_backups_are_file_names(entries, file);
                    },
                    None => {},
                }
            },
            Phase::Settling { file } => {
                law_file_lies_in_directory(config.backup_dir, file);
                reveal_strlit(".part");
                law_sibling_lies_beside(join_path(config.backup_dir, file), ".part"@);
            },
            Phase::Downloading { file } => {
                law_checksum_lies_beside_the_archive(
                    config.backup_dir,
                    file,
                    events[n]->Downloaded_0,
                );
            },
            _ => {},
        }
    }
}

/// A failed action ends the run, and the failure tells what the run was doing:
/// which archive it was fetching, verifying or deleting, or that it was listing,
/// triggering or waiting for a backup. It adds nothing where the failure of the
/// action tells enough.
pub proof fn law_failure_tells_what_was_being_done(config: ConfigView, events: Seq<EventView>)
    requires
        !(after(config, events).1 is Finish),
        !(after(config, events).1 is Fail),
    ensures
        after(config, events.push(EventView::Failed)).1 == (ActionView::Fail {
            reason: None,
            context: match after(config, events).1 {
                ActionView::List => Some("list FTP backups before trigger"@),
                ActionView::Trigger { request: _ } => Some("trigger cPanel full backup"@),
                ActionView::AwaitNew { before: _ } => Some("wait for cPanel backup to complete"@),
                ActionView::Download { file, temp: _, path: _, size: _ } => Some(
                    "download "@ + file,
                ),
                ActionView::VerifyArchive { path } => Some("verify archive "@ + path),
                ActionView::DeleteRemote { file } => Some("delete remote backup "@ + file),
                _ => None,
            },
        }),
{
    let longer = events.push(EventView::Failed);
    assert(longer.drop_last() =~= events);
    lemma_action_fits(config, events);
    if after(config, events).0 is Downloading {
        lemma_download_names_its_file(config, events);
    }
}

/// An event that does not answer what the run is doing fails it for that reason.
pub proof fn law_unfitting_event_fails_the_run(
    config: ConfigView,
    events: Seq<EventView>,
    event: EventView,
)
    requires
        !fits(after(config, events).1, event),
        event != EventView::Failed,
    ensures
        after(config, events.push(event)).1 == (ActionView::Fail {
            reason: Some("unexpected event"@),
            context: None,
        }),
{
    let longer = events.push(event);
    assert(longer.drop_last() =~= events);
    lemma_action_fits(config, events);
    if after(config, events).0 is CheckingLocal {
        let front = events.drop_last();
        lemma_action_fits(config, front);
    }
}

/// What is looked up locally is every backup of the listing, under its name in the
/// backup directory.
pub proof fn law_every_listed_backup_is_looked_up(
    config: ConfigView,
    entries: Seq<Seq<char>>,
    i: int,
)
    requires
        0 <= i < backups(entries).len(),
    ensures
        after(config, seq![EventView::Listed(entries)]).1 matches ActionView::CheckLocal { paths }
            && paths.len() == backups(entries).len() && paths[i] == join_path(
            config.backup_dir,
            backups(entries)[i],
        ),
{
    let events = seq![EventView::Listed(entries)];
    assert(events.drop_last().len() == 0);
    assert(after(config, events.drop_last()).0 == Phase::Listing);
}

/// A run that waits for a new backup knows which were listed before it was
/// triggered, all of them and no others.
pub proof fn law_wait_knows_what_was_listed(
    config: ConfigView,
    events: Seq<EventView>,
    before: Seq<Seq<char>>,
)
    requires
        after(config, events).1 == (ActionView::AwaitNew { before }),
    ensures
        events.len() == 3,
        events[0] matches EventView::Listed(entries) && before == backups(entries),
        events[2] == EventView::Started,
        after(config, events.take(2)).1 is Trigger,
{
    lemma_action_fits(config, events);
    lemma_early_phases(config, events);
    let front = events.drop_last();
    lemma_action_fits(config, front);
    lemma_early_phases(config, front);
    assert(events.take(2) =~= front);
    let first = front.drop_last();
    lemma_early_phases(config, first);
    assert(after(config, first).0 is CheckingLocal);
    let start = first.drop_last();
    lemma_early_phases(config, start);
    assert(after(config, start).0 == Phase::Listing);
    assert(first[0] == events[0]);
}

/// The archive that a run fetches is the new one that appeared, or one that was
/// listed and is not present locally.
pub proof fn law_fetched_archive_is_new_or_pending(
    config: ConfigView,
    events: Seq<EventView>,
    file: Seq<char>,
)
    requires
        after(config, events).1 == (ActionView::AwaitSettled { file }),
    ensures
        events.len() == 4 || events.len() == 2,
        events.len() == 4 ==> events[3] == EventView::Appeared(file) && after(
            config,
            events.take(3),
        ).1 is AwaitNew,
        events.len() == 2 ==> (events[0] matches EventView::Listed(entries) && (events[1]
            matches EventView::Present(present) && exists|i: int|
            0 <= i < present.len() && i < backups(entries).len() && #[trigger] backups(entries)[i]
                == file && !present[i])),
{
    lemma_action_fits(config, events);
    lemma_early_phases(config, events);
    let front = events.drop_last();
    lemma_action_fits(config, front);
    lemma_early_phases(config, front);
    if events.len() == 4 {
        assert(events.take(3) =~= front);
    } else {
        let start = front.drop_last();
        lemma_early_phases(config, start);
        assert(after(config, start).0 == Phase::Listing);
        assert(front[0] == events[0]);
        let entries = events[0]->Listed_0;
        let present = events[1]->Present_0;
        law_backups_exist(entries);
        law_pending_is_last(backups(entries), present);
        let i = choose|i: int|
            0 <= i < backups(entries).len() && #[trigger] backups(entries)[i] == file
                && !present[i] && forall|j: int|
                0 <= j < backups(entries).len() && !#[trigger] present[j] && j != i ==> precedes(
                    backups(entries)[j],
                    file,
                );
        assert(backups(entries)[i] == file);
    }
}

/// The download asks for the very size that settled and the very archive that was
/// waited for, whose path is its name in the backup directory; and it goes through
/// the path with `.part` at its end.
pub proof fn law_download_is_of_what_settled(
    config: ConfigView,
    events: Seq<EventView>,
    file: Seq<char>,
    temp: Seq<char>,
    path: Seq<char>,
    size: usize,
)
    requires
        after(config, events).1 == (ActionView::Download { file, temp, path, size }),
    ensures
        events.len() > 0,
        events.last() == EventView::Settled(size),
        after(config, events.drop_last()).1 == (ActionView::AwaitSettled { file }),
        path == join_path(config.backup_dir, file),
        ({
            let dir = config.backup_dir;
            is_file_name(file) && dir.len() > 0 && dir.last() != '/' && dir.last() != '.' ==> path
                == dir + seq!['/'] + file && temp == dir + seq!['/'] + file + ".part"@
        }),
{
    lemma_action_fits(config, events);
    lemma_download_names_its_file(config, events);
    lemma_action_fits(config, events.drop_last());
    let dir = config.backup_dir;
    reveal_strlit(".part");
    if is_file_name(file) && dir.len() > 0 && dir.last() != '/' && dir.last() != '.' {
        law_paths_in_a_plain_directory(dir, file, ".part"@);
    }
}

/// The checksum file holds the checksum that the download brought and the name of
/// the archive, and has the path of the archive with `.sha256` at its end.
pub proof fn law_checksum_is_of_what_was_downloaded(
    config: ConfigView,
    events: Seq<EventView>,
    path: Seq<char>,
    text: Seq<char>,
)
    requires
        after(config, events).1 == (ActionView::WriteChecksum { path, text }),
    ensures
        events.len() > 0,
        events.last() matches EventView::Downloaded(checksum) && (after(
            config,
            events.drop_last(),
        ).1 matches ActionView::Download { file, temp: _, path: archive, size: _ } && ({
            let dir = config.backup_dir;
            is_file_name(file) && dir.len() > 0 && dir.last() != '/' && dir.last() != '.' ==> path
                == archive + ".sha256"@ && text == checksum + seq![' ', ' '] + file + seq!['\n']
        })),
{
    lemma_action_fits(config, events);
    lemma_checksum_follows_download(config, events);
    let front = events.drop_last();
    lemma_download_names_its_file(config, front);
    let file = after(config, front).0->Downloading_file;
    let dir = config.backup_dir;
    if is_file_name(file) && dir.len() > 0 && dir.last() != '/' && dir.last() != '.' {
        law_paths_in_a_plain_directory(dir, file, Seq::empty());
        law_checksum_file_in_a_plain_directory(dir, file, events.last()->Downloaded_0);
    }
}

/// A daemon pauses for its interval after every run, and a single run for nothing.
pub proof fn law_only_a_daemon_runs_again(config: ConfigView)
    ensures
        config.run_mode == RunMode::Daemon ==> pause(config) == Some(config.schedule_interval),
        config.run_mode == RunMode::Once ==> pause(config) is None,
{
}

/// Actions and events stand for what they hold.
pub proof fn law_actions_and_events_stand_for_themselves(action: Action, event: Event, run: Run)
    ensures
        match action {
            Action::List => action@ == ActionView::List,
            Action::CheckLocal { paths } => action@ == (ActionView::CheckLocal {
                paths: texts(paths@),
            }),
            Action::Trigger { request } => action@ == (ActionView::Trigger { request: request@ }),
            Action::AwaitNew { before } => action@ == (ActionView::AwaitNew {
                before: texts(before@),
            }),
            Action::AwaitSettled { file } => action@ == (ActionView::AwaitSettled { file: file@ }),
            Action::Download { file, temp, path, size } => action@ == (ActionView::Download {
                file: file@,
                temp: temp@,
                path: path@,
                size,
            }),
            Action::WriteChecksum { path, text } => action@ == (ActionView::WriteChecksum {
                path: path@,
                text: text@,
            }),
            Action::VerifyArchive { path } => action@ == (ActionView::VerifyArchive {
                path: path@,
            }),
            Action::DeleteRemote { file } => action@ == (ActionView::DeleteRemote { file: file@ }),
            Action::Prune => action@ == ActionView::Prune,
            Action::Finish => action@ == ActionView::Finish,
            Action::Fail { reason, context } => action@ matches ActionView::Fail {
                reason: r,
                context: c,
            } && (r is Some <==> reason is Some) && (c is Some <==> context is Some) && (
            reason matches Some(told) ==> r == Some(told@)) && (context matches Some(told) ==> c
                == Some(told@)),
        },
        match event {
            Event::Listed(entries) => event@ == EventView::Listed(texts(entries@)),
            Event::Present(present) => event@ == EventView::Present(present@),
            Event::Started => event@ == EventView::Started,
            Event::Appeared(file) => event@ == EventView::Appeared(file@),
            Event::Settled(size) => event@ == EventView::Settled(size),
            Event::Downloaded(checksum) => event@ == EventView::Downloaded(checksum@),
            Event::Done => event@ == EventView::Done,
            Event::Failed => event@ == EventView::Failed,
        },
        run == Run::Listing <==> run@ == Phase::Listing,
        run == Run::Ended <==> run@ == Phase::Ended,
{
}

/// An archive whose path does not end in the name of a file is not fetched, and
/// the failure tells the path and the archive.
pub proof fn law_unnamed_archive_is_refused(
    config: ConfigView,
    events: Seq<EventView>,
    file: Seq<char>,
    size: usize,
)
    requires
        after(config, events).1 == (ActionView::AwaitSettled { file }),
        file_name(join_path(config.backup_dir, file)) is None,
    ensures
        after(config, events.push(EventView::Settled(size))).1 == (ActionView::Fail {
            reason: Some("invalid filename "@ + join_path(config.backup_dir, file)),
            context: Some("download "@ + file),
        }),
{
    let longer = events.push(EventView::Settled(size));
    assert(longer.drop_last() =~= events);
    lemma_action_fits(config, events);
}

} // verus!
