//! Waiting for the server: how long, and for what.

use vstd::prelude::*;

use crate::config::Config;
use crate::listing::{
    backups, find_new_backup, last_unknown, law_backups_exist, law_new_backup_is_last,
};
use crate::text::{
    decimal, decimal_text, decimal_value, law_decimal_notation_reads_back, precedes, texts,
};

verus! {

/// The nanoseconds of a second.
pub const NANOS_PER_SEC: u128 = 1_000_000_000;

/// A wait of `elapsed` nanoseconds is longer than a timeout in seconds allows.
pub open spec fn is_over(elapsed: nat, timeout: nat) -> bool {
    elapsed > timeout * NANOS_PER_SEC
}

/// Whether a wait of `elapsed` nanoseconds is longer than `timeout` seconds.
pub fn timed_out(elapsed: u128, timeout: u64) -> (over: bool)
    ensures
        over == is_over(elapsed as nat, timeout as nat),
{
    assert(timeout as u128 * NANOS_PER_SEC <= u64::MAX * NANOS_PER_SEC) by (nonlinear_arith)
        requires
            timeout <= u64::MAX,
    ;
    elapsed > timeout as u128 * NANOS_PER_SEC
}

/// What a wait was for.
#[derive(Clone, Copy, Debug, PartialEq, Eq, Structural)]
pub enum Awaited {
    /// A backup that was not listed before.
    NewBackup,
    /// A size of the archive on the server that no longer changes.
    StableSize,
}

/// The message that reports a wait that was too long.
pub open spec fn timeout_text(awaited: Awaited, timeout: nat) -> Seq<char> {
    "timed out after "@ + decimal_text(timeout) + match awaited {
        Awaited::NewBackup => " seconds waiting for cPanel backup"@,
        Awaited::StableSize => " seconds waiting for FTP size to settle"@,
    }
}

/// The message that reports a wait that was too long.
pub fn timeout_message(awaited: Awaited, timeout: u64) -> (res: String)
    ensures
        res@ == timeout_text(awaited, timeout as nat),
{
    let mut res = "timed out after ".to_owned();
    res.append(decimal(timeout).as_str());
    match awaited {
        Awaited::NewBackup => {
            res.append(" seconds waiting for cPanel backup");
        },
        Awaited::StableSize => {
            res.append(" seconds waiting for FTP size to settle");
        },
    }
    res
}

/// What came of asking the server for the size of an archive.
#[derive(Clone, Copy, Debug, PartialEq, Eq, Structural)]
pub enum SizeReading {
    /// The server named a size.
    Size(usize),
    /// The server answered without a size.
    Unknown,
    /// The server could not be asked.
    Failed,
}

impl SizeReading {
    /// The size that counts for a reading: none for a failed one, and zero
    /// where the server named none.
    pub open spec fn size(self) -> Option<usize> {
        match self {
            SizeReading::Size(size) => Some(size),
            SizeReading::Unknown => Some(0),
            SizeReading::Failed => None,
        }
    }
}

/// The size of the last reading that did not fail.
pub open spec fn last_size(readings: Seq<SizeReading>) -> Option<usize>
    decreases readings.len(),
{
    if readings.len() == 0 {
        None
    } else if readings.last().size() is Some {
        readings.last().size()
    } else {
        last_size(readings.drop_last())
    }
}

/// The size at which a watch ends with a new reading: a positive one that the
/// last reading before it, apart from failed ones, showed too.
pub open spec fn settled(last: Option<usize>, reading: SizeReading) -> Option<usize> {
    match reading.size() {
        Some(size) if size > 0 && last == Some(size) => Some(size),
        _ => None,
    }
}

/// What a watch remembers after a reading.
pub open spec fn remembered(last: Option<usize>, reading: SizeReading) -> Option<usize> {
    match reading.size() {
        Some(size) => Some(size),
        None => last,
    }
}

/// What a watch remembers after a series of readings.
pub open spec fn remembered_after(readings: Seq<SizeReading>) -> Option<usize>
    decreases readings.len(),
{
    if readings.len() == 0 {
        None
    } else {
        remembered(remembered_after(readings.drop_last()), readings.last())
    }
}

/// What to do when a wait comes round again.
#[derive(Clone, Copy, Debug, PartialEq, Eq, Structural)]
pub enum Turn {
    /// Ask the server.
    Look,
    /// Give up: the wait is too long.
    GiveUp,
}

/// What to do at a turn of a wait that began `elapsed` nanoseconds ago.
pub open spec fn turn(elapsed: nat, timeout: nat) -> Turn {
    if is_over(elapsed, timeout) {
        Turn::GiveUp
    } else {
        Turn::Look
    }
}

/// What to do at a turn of a wait that began `elapsed` nanoseconds ago.
pub fn next_turn(config: &Config, elapsed: u128) -> (res: Turn)
    ensures
        res == turn(elapsed as nat, config@.backup_timeout),
{
    if timed_out(elapsed, config.backup_timeout) {
        Turn::GiveUp
    } else {
        Turn::Look
    }
}

/// What to do with what the server answered.
#[derive(Debug, PartialEq, Eq)]
pub enum Outcome<T> {
    /// The wait is over.
    Over(T),
    /// Let so many seconds pass, then take another turn.
    Pause(u64),
}

/// What came of listing the server.
#[derive(Debug)]
pub enum Listing {
    /// The entries of the directory.
    Entries(Vec<String>),
    /// The server could not be listed.
    Failed,
}

impl View for Listing {
    type V = Option<Seq<Seq<char>>>;

    /// The entries, where the server could be listed.
    open spec fn view(&self) -> Option<Seq<Seq<char>>> {
        match self {
            Listing::Entries(entries) => Some(texts(entries@)),
            Listing::Failed => None,
        }
    }
}

/// With what a look for a new backup ends the wait.
#[derive(Debug, PartialEq, Eq)]
pub enum Arrival {
    /// This backup was not there before.
    Backup(String),
    /// The server could not be listed.
    ListingFailed,
}

/// How a wait for a new backup ends.
pub enum WaitEnd {
    TimedOut,
    ListingFailed,
    Found(Seq<char>),
}

/// How a listing ends a wait for a backup that was not there `before`: a failed
/// one at once, another one with its last new backup, where it has one.
pub open spec fn look(before: Seq<Seq<char>>, listing: Option<Seq<Seq<char>>>) -> Option<WaitEnd> {
    match listing {
        None => Some(WaitEnd::ListingFailed),
        Some(entries) => match last_unknown(backups(entries), before) {
            Some(name) => Some(WaitEnd::Found(name)),
            None => None,
        },
    }
}

/// What to do with a listing while waiting for a backup that was not there `before`.
pub fn wait_for_new_backup(config: &Config, before: &Vec<String>, listing: &Listing) -> (res:
    Outcome<Arrival>)
    ensures
        match res {
            Outcome::Over(Arrival::Backup(name)) => look(texts(before@), listing@) == Some(
                WaitEnd::Found(name@),
            ),
            Outcome::Over(Arrival::ListingFailed) => look(texts(before@), listing@) == Some(
                WaitEnd::ListingFailed,
            ),
            Outcome::Pause(secs) => look(texts(before@), listing@) is None && secs
                == config@.poll_interval,
        },
{
    match listing {
        Listing::Failed => Outcome::Over(Arrival::ListingFailed),
        Listing::Entries(entries) => match find_new_backup(entries, before) {
            Some(name) => Outcome::Over(Arrival::Backup(name)),
            None => Outcome::Pause(config.poll_interval),
        },
    }
}

/// A watch over the size of an archive on the server: the size that the last
/// reading showed, failed ones apart.
#[derive(Debug)]
pub struct SizeWatch {
    pub last: Option<usize>,
}

impl SizeWatch {
    /// A watch that has seen nothing.
    pub fn new() -> (res: SizeWatch)
        ensures
            res.last == remembered_after(Seq::empty()),
    {
        SizeWatch { last: None }
    }

    /// What to do with a reading while waiting for the size to settle.
    pub fn wait_for_remote_size_to_settle(&mut self, config: &Config, reading: SizeReading) -> (res:
        Outcome<usize>)
        ensures
            final(self).last == remembered(old(self).last, reading),
            res == match settled(old(self).last, reading) {
                Some(size) => Outcome::Over(size),
                None => Outcome::Pause(config.poll_interval),
            },
            forall|size: usize|
                res == Outcome::Over(size) <==> reading == SizeReading::Size(size) && size > 0
                    && old(self).last == Some(size),
            reading matches SizeReading::Size(size) ==> final(self).last == Some(size),
            reading == SizeReading::Failed ==> final(self).last == old(self).last,
    {
        let size: usize = match reading {
            SizeReading::Size(size) => size,
            SizeReading::Unknown => 0,
            SizeReading::Failed => {
                return Outcome::Pause(config.poll_interval);
            },
        };
        let stable = size > 0 && match self.last {
            Some(last) => last == size,
            None => false,
        };
        self.last = Some(size);
        if stable {
            Outcome::Over(size)
        } else {
            Outcome::Pause(config.poll_interval)
        }
    }
}

/// A watch settles exactly when two successive readings, failed ones apart,
/// show the same positive size, whatever was read before.
pub proof fn law_settles_on_equal_readings(readings: Seq<SizeReading>, reading: SizeReading)
    ensures
        remembered_after(readings) == last_size(readings),
        settled(remembered_after(readings), reading) is Some <==> (reading.size() matches Some(size)
            && size > 0 && last_size(readings) == Some(size)),
        settled(remembered_after(readings), reading) matches Some(size) ==> reading.size() == Some(
            size,
        ),
    decreases readings.len(),
{
    if readings.len() > 0 {
        law_settles_on_equal_readings(readings.drop_last(), reading);
    }
}

/// How one turn of a wait for a new backup ends it: the nanoseconds since the
/// beginning of the wait, and what listing the server would show.
pub open spec fn turn_end(
    timeout: nat,
    before: Seq<Seq<char>>,
    at: (nat, Option<Seq<Seq<char>>>),
) -> Option<WaitEnd> {
    match turn(at.0, timeout) {
        Turn::GiveUp => Some(WaitEnd::TimedOut),
        Turn::Look => look(before, at.1),
    }
}

/// How a wait for a new backup has ended after a series of turns, where it has.
pub open spec fn wait_result(
    timeout: nat,
    before: Seq<Seq<char>>,
    turns: Seq<(nat, Option<Seq<Seq<char>>>)>,
) -> Option<WaitEnd>
    decreases turns.len(),
{
    if turns.len() == 0 {
        None
    } else if wait_result(timeout, before, turns.drop_last()) is Some {
        wait_result(timeout, before, turns.drop_last())
    } else {
        turn_end(timeout, before, turns.last())
    }
}

/// A wait for a new backup has ended so with the turn at position `n`, and with
/// none before it.
pub open spec fn ends_at(
    timeout: nat,
    before: Seq<Seq<char>>,
    turns: Seq<(nat, Option<Seq<Seq<char>>>)>,
    n: int,
    end: WaitEnd,
) -> bool {
    &&& 0 <= n < turns.len()
    &&& forall|k: int| 0 <= k < n ==> turn_end(timeout, before, #[trigger] turns[k]) is None
    &&& turn_end(timeout, before, turns[n]) == Some(end)
}

/// A wait for a new backup goes on while its turns are in time and their
/// listings succeed and show nothing new. It ends with the first turn that is
/// otherwise: by giving up exactly if that turn is late, with an error exactly if
/// it is in time and its listing fails, and else with a listed backup that was
/// not there before.
pub proof fn law_wait_ends_with_the_first_new_backup(
    timeout: nat,
    before: Seq<Seq<char>>,
    turns: Seq<(nat, Option<Seq<Seq<char>>>)>,
)
    ensures
        match wait_result(timeout, before, turns) {
            None => forall|k: int|
                0 <= k < turns.len() ==> {
                    &&& !is_over((#[trigger] turns[k]).0, timeout)
                    &&& turns[k].1 matches Some(entries) && last_unknown(
                        backups(entries),
                        before,
                    ) is None
                },
            Some(end) => exists|n: int|
                {
                    &&& #[trigger] ends_at(timeout, before, turns, n, end)
                    &&& end == WaitEnd::TimedOut <==> is_over(turns[n].0, timeout)
                    &&& end == WaitEnd::ListingFailed <==> !is_over(turns[n].0, timeout)
                        && turns[n].1 is None
                    &&& end matches WaitEnd::Found(name) ==> turns[n].1 matches Some(entries)
                        && backups(entries).contains(name) && !before.contains(name)
                },
        },
    decreases turns.len(),
{
    if turns.len() > 0 {
        let front = turns.drop_last();
        law_wait_ends_with_the_first_new_backup(timeout, before, front);
        assert forall|k: int| 0 <= k < front.len() implies #[trigger] turns[k] == front[k] by {}
        match wait_result(timeout, before, front) {
            None => {
                let n = turns.len() - 1;
                if turns[n].1 is Some {
                    let entries = turns[n].1.unwrap();
                    law_backups_exist(entries);
                    law_new_backup_is_last(backups(entries), before);
                }
                match wait_result(timeout, before, turns) {
                    Some(end) => {
                        assert(ends_at(timeout, before, turns, n, end));
                    },
                    None => {},
                }
            },
            Some(end) => {
                let n = choose|n: int|
                    {
                        &&& #[trigger] ends_at(timeout, before, front, n, end)
                        &&& end == WaitEnd::TimedOut <==> is_over(front[n].0, timeout)
                        &&& end == WaitEnd::ListingFailed <==> !is_over(front[n].0, timeout)
                            && front[n].1 is None
                        &&& end matches WaitEnd::Found(name) ==> front[n].1 matches Some(entries)
                            && backups(entries).contains(name) && !before.contains(name)
                    };
                assert(ends_at(timeout, before, turns, n, end));
            },
        }
    }
}

/// How a wait for a settled size ends.
pub enum SettleEnd {
    TimedOut,
    Settled(usize),
}

/// The readings of a series of turns.
pub open spec fn readings(turns: Seq<(nat, SizeReading)>) -> Seq<SizeReading> {
    turns.map_values(|at: (nat, SizeReading)| at.1)
}

/// How one turn ends a wait for a settled size, where the watch remembers `last`.
pub open spec fn settle_end(
    timeout: nat,
    last: Option<usize>,
    at: (nat, SizeReading),
) -> Option<SettleEnd> {
    match turn(at.0, timeout) {
        Turn::GiveUp => Some(SettleEnd::TimedOut),
        Turn::Look => match settled(last, at.1) {
            Some(size) => Some(SettleEnd::Settled(size)),
            None => None,
        },
    }
}

/// How a wait for a settled size has ended after a series of turns, where it
/// has. Each turn has the nanoseconds since the beginning of the wait and what
/// asking for the size would bring.
pub open spec fn settle_result(timeout: nat, turns: Seq<(nat, SizeReading)>) -> Option<SettleEnd>
    decreases turns.len(),
{
    if turns.len() == 0 {
        None
    } else if settle_result(timeout, turns.drop_last()) is Some {
        settle_result(timeout, turns.drop_last())
    } else {
        settle_end(timeout, remembered_after(readings(turns.drop_last())), turns.last())
    }
}

/// The turn at position `k` of a wait for a settled size is in time, and its
/// reading does not repeat the positive size that was read last.
pub open spec fn keeps_waiting(timeout: nat, turns: Seq<(nat, SizeReading)>, k: int) -> bool {
    &&& !is_over(turns[k].0, timeout)
    &&& !(turns[k].1.size() matches Some(size) && size > 0 && last_size(readings(turns.take(k)))
        == Some(size))
}

/// A wait for a settled size goes on while its turns are in time and none
/// repeats the positive size that was read last, failed readings apart. It ends
/// with the first turn that is otherwise: by giving up exactly if that turn is
/// late, and else with the repeated size.
pub proof fn law_wait_ends_with_the_first_settled_size(
    timeout: nat,
    turns: Seq<(nat, SizeReading)>,
)
    ensures
        match settle_result(timeout, turns) {
            None => forall|k: int|
                0 <= k < turns.len() ==> #[trigger] keeps_waiting(timeout, turns, k),
            Some(end) => exists|n: int|
                {
                    &&& 0 <= n < turns.len()
                    &&& !#[trigger] keeps_waiting(timeout, turns, n)
                    &&& forall|k: int|
                        0 <= k < n ==> #[trigger] keeps_waiting(timeout, turns, k)
                    &&& end == SettleEnd::TimedOut <==> is_over(turns[n].0, timeout)
                    &&& end matches SettleEnd::Settled(size) ==> size > 0 && turns[n].1.size()
                        == Some(size) && last_size(readings(turns.take(n))) == Some(size)
                },
        },
    decreases turns.len(),
{
    if turns.len() > 0 {
        let front = turns.drop_last();
        let last = turns.len() - 1;
        law_wait_ends_with_the_first_settled_size(timeout, front);
        law_settles_on_equal_readings(readings(front), turns.last().1);
        assert(turns.take(last) =~= front);
        assert forall|k: int| 0 <= k < front.len() implies keeps_waiting(timeout, front, k)
            == #[trigger] keeps_waiting(timeout, turns, k) by {
            assert(turns.take(k) =~= front.take(k));
        }
        match settle_result(timeout, front) {
            None => {
                assert forall|k: int| 0 <= k < last implies #[trigger] keeps_waiting(
                    timeout,
                    turns,
                    k,
                ) by {
                    assert(keeps_waiting(timeout, front, k));
                }
                assert(keeps_waiting(timeout, turns, last) <==> settle_result(timeout, turns)
                    is None);
            },
            Some(end) => {
                let n = choose|n: int|
                    {
                        &&& 0 <= n < front.len()
                        &&& !#[trigger] keeps_waiting(timeout, front, n)
                        &&& forall|k: int|
                            0 <= k < n ==> #[trigger] keeps_waiting(timeout, front, k)
                        &&& end == SettleEnd::TimedOut <==> is_over(front[n].0, timeout)
                        &&& end matches SettleEnd::Settled(size) ==> size > 0
                            && front[n].1.size() == Some(size) && last_size(
                            readings(front.take(n)),
                        ) == Some(size)
                    };
                assert(turns.take(n) =~= front.take(n));
                assert forall|k: int| 0 <= k < n implies #[trigger] keeps_waiting(
                    timeout,
                    turns,
                    k,
                ) by {
                    assert(keeps_waiting(timeout, front, k));
                }
                assert(!keeps_waiting(timeout, turns, n));
            },
        }
    }
}

/// A wait that is too long stays too long.
pub proof fn law_timeout_is_final(earlier: nat, later: nat, timeout: nat)
    requires
        earlier <= later,
        is_over(earlier, timeout),
    ensures
        is_over(later, timeout),
{
}

/// A wait is too long as soon as more than its seconds have passed, be it by a
/// nanosecond, and not before.
pub proof fn law_time_is_up_after_the_last_second(secs: nat, nanos: nat, timeout: nat)
    requires
        nanos < 1_000_000_000,
    ensures
        turn((secs * 1_000_000_000 + nanos) as nat, timeout) == Turn::GiveUp <==> secs > timeout || (
        secs == timeout && nanos > 0),
        is_over((secs * 1_000_000_000 + nanos) as nat, timeout) <==> secs > timeout || (secs
            == timeout && nanos > 0),
{
}

/// The message of a wait that was too long says how many seconds it had and what
/// it was for.
pub proof fn law_timeout_message_tells_the_seconds(timeout: nat)
    ensures
        exists|digits: Seq<char>| #[trigger]
            decimal_value(digits) == Some(timeout) && (digits.len() > 1 ==> digits[0] != '0')
                && timeout_text(Awaited::NewBackup, timeout) == "timed out after "@ + digits
                + " seconds waiting for cPanel backup"@ && timeout_text(
                Awaited::StableSize,
                timeout,
            ) == "timed out after "@ + digits + " seconds waiting for FTP size to settle"@,
{
    law_decimal_notation_reads_back(timeout);
    let digits = decimal_text(timeout);
    assert(decimal_value(digits) == Some(timeout));
}

/// A watch takes a size for the very number that the server named: it remembers
/// that number, and ends with it exactly if it is positive and was the last one
/// named. No size counts as zero, and a failed reading for nothing.
pub proof fn law_watch_takes_the_size_as_named(last: Option<usize>, size: usize)
    ensures
        remembered(last, SizeReading::Size(size)) == Some(size),
        remembered(last, SizeReading::Unknown) == Some(0usize),
        remembered(last, SizeReading::Failed) == last,
        settled(last, SizeReading::Size(size)) == if size > 0 && last == Some(size) {
            Some(size)
        } else {
            None
        },
        settled(last, SizeReading::Unknown) is None,
        settled(last, SizeReading::Failed) is None,
{
}

/// A positive size is the last one exactly if it was named and every reading
/// after that failed.
proof fn lemma_last_named(readings: Seq<SizeReading>, size: usize)
    requires
        size > 0,
    ensures
        last_size(readings) == Some(size) <==> exists|i: int|
            0 <= i < readings.len() && #[trigger] readings[i] == SizeReading::Size(size) && forall|
                k: int,
            |
                i < k < readings.len() ==> #[trigger] readings[k] == SizeReading::Failed,
    decreases readings.len(),
{
    if readings.len() > 0 {
        let n = readings.len() - 1;
        let front = readings.drop_last();
        lemma_last_named(front, size);
        assert forall|k: int| 0 <= k < n implies #[trigger] readings[k] == front[k] by {}
        if last_size(readings) == Some(size) {
            if readings[n] == SizeReading::Failed {
                let i = choose|i: int|
                    0 <= i < front.len() && #[trigger] front[i] == SizeReading::Size(size)
                        && forall|k: int|
                        i < k < front.len() ==> #[trigger] front[k] == SizeReading::Failed;
                assert(readings[i] == SizeReading::Size(size));
            } else {
                assert(readings[n] == SizeReading::Size(size));
            }
        }
        if exists|i: int|
            0 <= i < readings.len() && #[trigger] readings[i] == SizeReading::Size(size) && forall|
                k: int,
            |
                i < k < readings.len() ==> #[trigger] readings[k] == SizeReading::Failed {
            let i = choose|i: int|
                0 <= i < readings.len() && #[trigger] readings[i] == SizeReading::Size(size)
                    && forall|k: int|
                    i < k < readings.len() ==> #[trigger] readings[k] == SizeReading::Failed;
            if i < n {
                assert(readings[n] == SizeReading::Failed);
                assert(front[i] == SizeReading::Size(size));
                assert forall|k: int| i < k < front.len() implies #[trigger] front[k]
                    == SizeReading::Failed by {
                    assert(readings[k] == SizeReading::Failed);
                }
            }
        }
    }
}

/// At two turns the server names the same positive size, and between them it
/// cannot be asked.
pub open spec fn names_twice(turns: Seq<(nat, SizeReading)>, i: int, n: int, size: usize) -> bool {
    &&& 0 <= i < n < turns.len()
    &&& size > 0
    &&& turns[i].1 == SizeReading::Size(size)
    &&& turns[n].1 == SizeReading::Size(size)
    &&& forall|k: int| i < k < n ==> (#[trigger] turns[k]).1 == SizeReading::Failed
}

/// A turn repeats the last size exactly if the server names it twice.
proof fn lemma_names_twice(turns: Seq<(nat, SizeReading)>, n: int, size: usize)
    requires
        0 <= n < turns.len(),
        size > 0,
        turns[n].1 == SizeReading::Size(size),
    ensures
        last_size(readings(turns.take(n))) == Some(size) <==> exists|i: int| #[trigger]
            names_twice(turns, i, n, size),
{
    let before = readings(turns.take(n));
    lemma_last_named(before, size);
    assert forall|k: int| 0 <= k < n implies #[trigger] before[k] == turns[k].1 by {}
    if last_size(before) == Some(size) {
        let i = choose|i: int|
            0 <= i < before.len() && #[trigger] before[i] == SizeReading::Size(size) && forall|
                k: int,
            |
                i < k < before.len() ==> #[trigger] before[k] == SizeReading::Failed;
        assert forall|k: int| i < k < n implies (#[trigger] turns[k]).1 == SizeReading::Failed by {
            assert(before[k] == SizeReading::Failed);
        }
        assert(names_twice(turns, i, n, size));
    }
    if exists|i: int| #[trigger] names_twice(turns, i, n, size) {
        let i = choose|i: int| #[trigger] names_twice(turns, i, n, size);
        assert(before[i] == SizeReading::Size(size));
        assert forall|k: int| i < k < before.len() implies #[trigger] before[k]
            == SizeReading::Failed by {
            assert(turns[k].1 == SizeReading::Failed);
        }
    }
}

/// A wait for a settled size ends with the size that the server named twice
/// running, failed readings apart, at the first turn at which it did, before any
/// turn was late. It gives up at the first late turn if no size was named twice
/// before, and it goes on as long as neither happens.
pub proof fn law_settled_size_was_named_twice(timeout: nat, turns: Seq<(nat, SizeReading)>)
    ensures
        match settle_result(timeout, turns) {
            Some(SettleEnd::Settled(size)) => exists|i: int, n: int|
                {
                    &&& #[trigger] names_twice(turns, i, n, size)
                    &&& forall|k: int| 0 <= k <= n ==> !is_over((#[trigger] turns[k]).0, timeout)
                    &&& forall|j: int, k: int, other: usize|
                        k < n ==> !#[trigger] names_twice(turns, j, k, other)
                },
            Some(SettleEnd::TimedOut) => exists|n: int|
                {
                    &&& 0 <= n < turns.len()
                    &&& is_over((#[trigger] turns[n]).0, timeout)
                    &&& forall|k: int| 0 <= k < n ==> !is_over((#[trigger] turns[k]).0, timeout)
                    &&& forall|j: int, k: int, other: usize|
                        k < n ==> !#[trigger] names_twice(turns, j, k, other)
                },
            None => {
                &&& forall|k: int|
                    0 <= k < turns.len() ==> !is_over((#[trigger] turns[k]).0, timeout)
                &&& forall|j: int, k: int, other: usize| !#[trigger] names_twice(turns, j, k, other)
            },
        },
{
    law_wait_ends_with_the_first_settled_size(timeout, turns);
    let n = match settle_result(timeout, turns) {
        None => turns.len() as int,
        Some(end) => choose|n: int|
            {
                &&& 0 <= n < turns.len()
                &&& !#[trigger] keeps_waiting(timeout, turns, n)
                &&& forall|k: int| 0 <= k < n ==> #[trigger] keeps_waiting(timeout, turns, k)
                &&& end == SettleEnd::TimedOut <==> is_over(turns[n].0, timeout)
                &&& end matches SettleEnd::Settled(size) ==> size > 0 && turns[n].1.size() == Some(
                    size,
                ) && last_size(readings(turns.take(n))) == Some(size)
            },
    };
    assert forall|k: int| 0 <= k < n implies !is_over((#[trigger] turns[k]).0, timeout) by {
        assert(keeps_waiting(timeout, turns, k));
    }
    assert forall|j: int, k: int, other: usize| k < n implies !#[trigger] names_twice(
        turns,
        j,
        k,
        other,
    ) by {
        if names_twice(turns, j, k, other) {
            assert(keeps_waiting(timeout, turns, k));
            lemma_names_twice(turns, k, other);
        }
    }
    match settle_result(timeout, turns) {
        Some(SettleEnd::Settled(size)) => {
            assert(turns[n].1 == SizeReading::Size(size));
            lemma_names_twice(turns, n, size);
            let i = choose|i: int| #[trigger] names_twice(turns, i, n, size);
            assert(names_twice(turns, i, n, size));
        },
        Some(SettleEnd::TimedOut) => {
            assert(is_over(turns[n].0, timeout));
        },
        None => {},
    }
}

/// A look at the server ends a wait for a new backup with an error exactly if the
/// listing failed, and else with the greatest of the listed backups that were not
/// there before, where there is one.
pub proof fn law_look_finds_the_greatest_new_backup(
    before: Seq<Seq<char>>,
    entries: Seq<Seq<char>>,
    other: Seq<char>,
)
    ensures
        look(before, None) == Some(WaitEnd::ListingFailed),
        match look(before, Some(entries)) {
            None => backups(entries).contains(other) ==> before.contains(other),
            Some(WaitEnd::Found(name)) => backups(entries).contains(name) && !before.contains(name)
                && (backups(entries).contains(other) && !before.contains(other) ==> other == name
                || precedes(other, name)),
            _ => false,
        },
{
    law_backups_exist(entries);
    law_new_backup_is_last(backups(entries), before);
}

/// A turn of a wait for a new backup is in time, and its listing succeeds and
/// shows nothing that was not there before.
pub open spec fn shows_nothing_new(
    timeout: nat,
    before: Seq<Seq<char>>,
    at: (nat, Option<Seq<Seq<char>>>),
) -> bool {
    &&& !is_over(at.0, timeout)
    &&& at.1 matches Some(entries) && forall|name: Seq<char>| #[trigger]
        backups(entries).contains(name) ==> before.contains(name)
}

/// A wait for a new backup goes on exactly as long as every turn is in time and
/// shows nothing new, and the turn that ends it is the first that does not.
pub proof fn law_wait_goes_on_while_nothing_is_new(
    timeout: nat,
    before: Seq<Seq<char>>,
    turns: Seq<(nat, Option<Seq<Seq<char>>>)>,
)
    ensures
        match wait_result(timeout, before, turns) {
            None => forall|k: int|
                0 <= k < turns.len() ==> shows_nothing_new(timeout, before, #[trigger] turns[k]),
            Some(end) => exists|n: int|
                {
                    &&& 0 <= n < turns.len()
                    &&& !shows_nothing_new(timeout, before, #[trigger] turns[n])
                    &&& forall|k: int|
                        0 <= k < n ==> shows_nothing_new(timeout, before, #[trigger] turns[k])
                    &&& match end {
                        WaitEnd::TimedOut => is_over(turns[n].0, timeout),
                        WaitEnd::ListingFailed => !is_over(turns[n].0, timeout) && turns[n].1
                            is None,
                        WaitEnd::Found(name) => !is_over(turns[n].0, timeout) && (
                        turns[n].1 matches Some(entries) && backups(entries).contains(name)
                            && !before.contains(name) && forall|other: Seq<char>| #[trigger]
                            backups(entries).contains(other) && !before.contains(other)
                                ==> other == name || precedes(other, name)),
                    }
                },
        },
    decreases turns.len(),
{
    if turns.len() > 0 {
        let front = turns.drop_last();
        let n = turns.len() - 1;
        law_wait_goes_on_while_nothing_is_new(timeout, before, front);
        assert forall|k: int| 0 <= k < n implies #[trigger] turns[k] == front[k] by {}
        match turns[n].1 {
            Some(entries) => {
                law_backups_exist(entries);
                law_new_backup_is_last(backups(entries), before);
            },
            None => {},
        }
        match wait_result(timeout, before, front) {
            None => {
                assert(shows_nothing_new(timeout, before, turns[n]) <==> wait_result(
                    timeout,
                    before,
                    turns,
                ) is None);
            },
            Some(end) => {
                let m = choose|m: int|
                    {
                        &&& 0 <= m < front.len()
                        &&& !shows_nothing_new(timeout, before, #[trigger] front[m])
                        &&& forall|k: int|
                            0 <= k < m ==> shows_nothing_new(timeout, before, #[trigger] front[k])
                        &&& match end {
                            WaitEnd::TimedOut => is_over(front[m].0, timeout),
                            WaitEnd::ListingFailed => !is_over(front[m].0, timeout) && front[m].1
                                is None,
                            WaitEnd::Found(name) => !is_over(front[m].0, timeout) && (
                            front[m].1 matches Some(entries) && backups(entries).contains(name)
                                && !before.contains(name) && forall|other: Seq<char>| #[trigger]
                                backups(entries).contains(other) && !before.contains(other)
                                    ==> other == name || precedes(other, name)),
                        }
                    };
                assert(turns[m] == front[m]);
            },
        }
    }
}

/// A listing stands for all of its entries, and a failed one for none.
pub proof fn law_listings_stand_for_their_entries(listing: Listing)
    ensures
        match listing {
            Listing::Entries(entries) => listing@ == Some(texts(entries@)),
            Listing::Failed => listing@ is None,
        },
{
}

} // verus!
