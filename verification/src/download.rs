//! The transfer of one archive: how much to read next, what has been received
//! so far, and the checksum of it.

use sha2::{Digest, Sha256};
use vstd::prelude::*;

use crate::text::{
    decimal, decimal_text, decimal_value, hex_text, law_decimal_notation_reads_back, lower_hex,
};

verus! {

/// The most bytes that one read may deliver.
pub const BUFFER_SIZE: usize = 65_536;

/// The distance in bytes between two progress lines.
pub const PROGRESS_STEP: u64 = 33_554_432;

/// The longest message in bytes whose length in bits SHA-256 can write down.
pub const MAX_MESSAGE: u64 = 0x1fff_ffff_ffff_ffff;

/// The hasher of the `sha2` crate.
#[verifier::external_type_specification]
#[verifier::external_body]
pub struct ExSha256(Sha256);

/// The bytes that a hasher has taken in since it was made.
pub uninterp spec fn absorbed(hasher: Sha256) -> Seq<u8>;

/// The SHA-256 digest of a message.
pub uninterp spec fn sha256(message: Seq<u8>) -> Seq<u8>;

/// `Sha256::new` makes a hasher that has taken in nothing.
#[verifier::external_body]
fn new_hasher() -> (hasher: Sha256)
    ensures
        absorbed(hasher) == Seq::<u8>::empty(),
{
    Sha256::new()
}

/// `Digest::update` takes in the bytes after those taken in before. The hasher
/// counts its message in bits with 64 bits, so longer messages are left out.
#[verifier::external_body]
fn update_hasher(hasher: &mut Sha256, bytes: &[u8])
    requires
        absorbed(*old(hasher)).len() + bytes@.len() <= MAX_MESSAGE,
    ensures
        absorbed(*final(hasher)) == absorbed(*old(hasher)) + bytes@,
{
    hasher.update(bytes)
}

/// `Digest::finalize` gives the 32 bytes of the SHA-256 digest of the bytes
/// that the hasher has taken in.
#[verifier::external_body]
fn finalize_hasher(hasher: Sha256) -> (digest: [u8; 32])
    requires
        absorbed(hasher).len() <= MAX_MESSAGE,
    ensures
        digest@ == sha256(absorbed(hasher)),
{
    hasher.finalize().into()
}

/// What a transfer is about: the size that was announced (zero for an unknown
/// one), the bytes that have arrived, and the number of bytes at which the next
/// progress line is due.
#[verifier::ext_equal]
pub struct DownloadView {
    pub expected: nat,
    pub received: Seq<u8>,
    pub next_log: nat,
}

impl DownloadView {
    /// A transfer of which nothing has arrived.
    pub open spec fn start(expected: nat) -> DownloadView {
        DownloadView { expected, received: Seq::empty(), next_log: PROGRESS_STEP as nat }
    }

    /// The announced size is known and has arrived.
    pub open spec fn complete(self) -> bool {
        self.expected > 0 && self.received.len() >= self.expected
    }

    /// The most bytes that the next read may deliver, while there is a next read.
    pub open spec fn read_limit(self) -> Option<nat> {
        if self.complete() {
            None
        } else if self.expected > 0 && self.expected - self.received.len() < BUFFER_SIZE {
            Some((self.expected - self.received.len()) as nat)
        } else {
            Some(BUFFER_SIZE as nat)
        }
    }

    /// The transfer after one more chunk, before progress is considered.
    pub open spec fn with(self, chunk: Seq<u8>) -> DownloadView {
        DownloadView { received: self.received + chunk, ..self }
    }

    /// A progress line is due.
    pub open spec fn log_due(self) -> bool {
        self.received.len() >= self.next_log || self.complete()
    }

    /// The transfer after a read delivered `chunk`. An empty chunk changes nothing.
    pub open spec fn after(self, chunk: Seq<u8>) -> DownloadView {
        let taken = self.with(chunk);
        if chunk.len() > 0 && taken.log_due() {
            DownloadView { next_log: taken.next_log + PROGRESS_STEP as nat, ..taken }
        } else {
            taken
        }
    }

    /// The transfer after a series of reads.
    pub open spec fn after_all(self, chunks: Seq<Seq<u8>>) -> DownloadView
        decreases chunks.len(),
    {
        if chunks.len() == 0 {
            self
        } else {
            self.after_all(chunks.drop_last()).after(chunks.last())
        }
    }

    /// Every read of a series happened while a read was due and delivered no
    /// more than its limit.
    pub open spec fn within_limits(self, chunks: Seq<Seq<u8>>) -> bool
        decreases chunks.len(),
    {
        chunks.len() > 0 ==> {
            &&& self.within_limits(chunks.drop_last())
            &&& self.after_all(chunks.drop_last()).read_limit() matches Some(limit)
                && chunks.last().len() <= limit
        }
    }

    /// What arrived has the announced size, where one was announced.
    pub open spec fn size_agrees(self) -> bool {
        self.expected > 0 ==> self.received.len() == self.expected
    }
}

/// The next thing to do in a transfer.
#[derive(Clone, Copy, Debug, PartialEq, Eq, Structural)]
pub enum NextRead {
    /// Read at most `limit` bytes.
    Read { limit: usize },
    /// Everything that was announced has arrived.
    Complete,
}

/// What became of the bytes that a read delivered.
#[derive(Clone, Copy, Debug, PartialEq, Eq, Structural)]
pub enum Received {
    /// The read delivered nothing: the stream is at its end.
    Ended,
    /// The bytes were taken in; `log` says whether a progress line is due.
    Taken { log: bool },
}

/// The transfer ended with another size than the announced one.
#[derive(Clone, Copy, Debug, PartialEq, Eq, Structural)]
pub struct SizeMismatch {
    pub downloaded: usize,
    pub expected: usize,
}

impl SizeMismatch {
    /// The message that reports the mismatch.
    pub open spec fn message_text(self) -> Seq<char> {
        "downloaded "@ + decimal_text(self.downloaded as nat) + " bytes, expected "@
            + decimal_text(self.expected as nat)
    }

    /// The message that reports the mismatch.
    pub fn message(&self) -> (res: String)
        ensures
            res@ == self.message_text(),
    {
        let mut res = "downloaded ".to_owned();
        res.append(decimal(self.downloaded as u64).as_str());
        res.append(" bytes, expected ");
        res.append(decimal(self.expected as u64).as_str());
        res
    }
}

/// The transfer of one archive.
pub struct Download {
    expected: usize,
    downloaded: usize,
    next_log: u64,
    hasher: Sha256,
}

impl View for Download {
    type V = DownloadView;

    closed spec fn view(&self) -> DownloadView {
        DownloadView {
            expected: self.expected as nat,
            received: absorbed(self.hasher),
            next_log: self.next_log as nat,
        }
    }
}

impl Download {
    /// The counters agree with the bytes that the hasher has taken in, and no
    /// more has arrived than was announced.
    pub closed spec fn wf(self) -> bool {
        &&& self.downloaded == absorbed(self.hasher).len()
        &&& self.downloaded <= MAX_MESSAGE
        &&& self.expected > 0 ==> self.downloaded <= self.expected
        &&& self.next_log <= self.downloaded + 2 * PROGRESS_STEP
        &&& !self@.complete() ==> self.next_log <= self.downloaded + PROGRESS_STEP
    }

    /// Begins a transfer of `expected_size` bytes, zero standing for an unknown size.
    pub fn new(expected_size: usize) -> (res: Download)
        ensures
            res.wf(),
            res@ == DownloadView::start(expected_size as nat),
    {
        let hasher = new_hasher();
        Download { expected: expected_size, downloaded: 0, next_log: PROGRESS_STEP, hasher }
    }

    /// The number of bytes that have arrived.
    pub fn downloaded(&self) -> (n: usize)
        requires
            self.wf(),
        ensures
            n == self@.received.len(),
            self@.expected > 0 ==> n <= self@.expected,
    {
        self.downloaded
    }

    /// Whether and how much to read next.
    pub fn next_read(&self) -> (res: NextRead)
        requires
            self.wf(),
        ensures
            match res {
                NextRead::Complete => self@.read_limit() is None,
                NextRead::Read { limit } => self@.read_limit() == Some(limit as nat) && 0 < limit
                    <= BUFFER_SIZE,
            },
    {
        if self.expected > 0 && self.downloaded >= self.expected {
            return NextRead::Complete;
        }
        let limit: usize = if self.expected > 0 && self.expected - self.downloaded < BUFFER_SIZE {
            self.expected - self.downloaded
        } else {
            BUFFER_SIZE
        };
        NextRead::Read { limit }
    }

    /// Takes in what a read delivered.
    pub fn accept(&mut self, chunk: &[u8]) -> (res: Received)
        requires
            old(self).wf(),
            old(self)@.read_limit() matches Some(limit) && chunk@.len() <= limit,
            old(self)@.received.len() + chunk@.len() <= MAX_MESSAGE,
            old(self)@.received.len() + chunk@.len() <= usize::MAX,
        ensures
            final(self).wf(),
            final(self)@ == old(self)@.after(chunk@),
            chunk@.len() == 0 ==> res == Received::Ended,
            chunk@.len() > 0 ==> res == (Received::Taken { log: old(self)@.with(chunk@).log_due() }),
    {
        if chunk.len() == 0 {
            assert(old(self)@.received + chunk@ =~= old(self)@.received);
            return Received::Ended;
        }
        update_hasher(&mut self.hasher, chunk);
        self.downloaded = self.downloaded + chunk.len();
        let log = self.downloaded as u64 >= self.next_log || (self.expected > 0 && self.downloaded
            >= self.expected);
        if log {
            self.next_log = self.next_log + PROGRESS_STEP;
        }
        Received::Taken { log }
    }

    /// Ends the transfer: the checksum of what arrived, in lower-case
    /// hexadecimal, provided that it has the announced size.
    pub fn finish(self) -> (res: Result<String, SizeMismatch>)
        requires
            self.wf(),
        ensures
            match res {
                Ok(checksum) => self@.size_agrees() && checksum@ == hex_text(
                    sha256(self@.received),
                ) && sha256(self@.received).len() == 32,
                Err(mismatch) => !self@.size_agrees() && mismatch.downloaded
                    == self@.received.len() && mismatch.expected == self@.expected,
            },
    {
        if self.expected > 0 && self.downloaded != self.expected {
            return Err(
                SizeMismatch { downloaded: self.downloaded, expected: self.expected },
            );
        }
        let digest = finalize_hasher(self.hasher);
        Ok(lower_hex(digest.as_slice()))
    }
}

/// How the stream was cut into chunks does not matter: after a series of reads
/// the transfer holds their bytes in order, and the size that was announced.
pub proof fn law_chunking_is_irrelevant(expected: nat, chunks: Seq<Seq<u8>>)
    ensures
        DownloadView::start(expected).after_all(chunks).received == chunks.flatten(),
        DownloadView::start(expected).after_all(chunks).expected == expected,
    decreases chunks.len(),
{
    if chunks.len() > 0 {
        law_chunking_is_irrelevant(expected, chunks.drop_last());
        assert(chunks.drop_last().push(chunks.last()) =~= chunks);
        chunks.drop_last().lemma_flatten_push(chunks.last());
    }
}

/// A transfer of announced size never takes in more than was announced,
/// however the stream delivers it.
pub proof fn law_never_over_expected(expected: nat, chunks: Seq<Seq<u8>>)
    requires
        expected > 0,
        DownloadView::start(expected).within_limits(chunks),
    ensures
        DownloadView::start(expected).after_all(chunks).received.len() <= expected,
    decreases chunks.len(),
{
    if chunks.len() > 0 {
        law_never_over_expected(expected, chunks.drop_last());
        law_chunking_is_irrelevant(expected, chunks.drop_last());
    }
}

/// Reads are as large as they may be: the buffer is filled unless the announced
/// size is reached first, and there is none exactly when it has been.
pub proof fn law_reads_stop_at_the_announced_size(transfer: DownloadView)
    ensures
        transfer.read_limit() is None <==> 0 < transfer.expected <= transfer.received.len(),
        transfer.read_limit() matches Some(limit) ==> {
            &&& 0 < limit <= 65_536
            &&& limit == 65_536 || transfer.received.len() + limit == transfer.expected
            &&& transfer.expected > 0 ==> transfer.received.len() + limit <= transfer.expected
        },
{
}

/// A read adds its bytes at the end and leaves the announced size alone.
pub proof fn law_read_appends_its_bytes(transfer: DownloadView, chunk: Seq<u8>)
    ensures
        transfer.after(chunk).received.len() == transfer.received.len() + chunk.len(),
        transfer.after(chunk).received.take(transfer.received.len() as int) == transfer.received,
        transfer.after(chunk).received.skip(transfer.received.len() as int) == chunk,
        transfer.after(chunk).expected == transfer.expected,
        transfer.with(chunk).received == transfer.after(chunk).received,
{
    let after = transfer.after(chunk).received;
    assert(after.take(transfer.received.len() as int) =~= transfer.received);
    assert(after.skip(transfer.received.len() as int) =~= chunk);
}

/// A transfer is accepted exactly if no size was announced or that many bytes
/// have arrived, no more and no fewer.
pub proof fn law_size_must_agree(transfer: DownloadView)
    ensures
        transfer.size_agrees() <==> transfer.expected == 0 || transfer.received.len()
            == transfer.expected,
{
}

/// A progress line is due whenever another 32 MiB are full, and at the end of a
/// transfer of announced size.
pub proof fn law_progress_is_reported_every_step(
    expected: nat,
    chunks: Seq<Seq<u8>>,
    chunk: Seq<u8>,
)
    requires
        DownloadView::start(expected).within_limits(chunks.push(chunk)),
        forall|i: int| 0 <= i < chunks.len() ==> (#[trigger] chunks[i]).len() > 0,
        chunk.len() > 0,
    ensures
        ({
            let before = DownloadView::start(expected).after_all(chunks);
            let n = before.received.len() as int;
            before.with(chunk).log_due() <==> (n + chunk.len()) / 33_554_432 > n / 33_554_432 || n
                + chunk.len() == expected
        }),
{
    let longer = chunks.push(chunk);
    assert(longer.drop_last() =~= chunks);
    lemma_next_log(expected, chunks);
    law_chunking_is_irrelevant(expected, chunks);
}

/// Before the end, the next progress line is due at the next multiple of 32 MiB.
proof fn lemma_next_log(expected: nat, chunks: Seq<Seq<u8>>)
    requires
        DownloadView::start(expected).within_limits(chunks),
        forall|i: int| 0 <= i < chunks.len() ==> (#[trigger] chunks[i]).len() > 0,
    ensures
        ({
            let now = DownloadView::start(expected).after_all(chunks);
            !now.complete() ==> now.next_log == 33_554_432 * (now.received.len() as int
                / 33_554_432 + 1)
        }),
    decreases chunks.len(),
{
    if chunks.len() > 0 {
        let front = chunks.drop_last();
        assert forall|i: int| 0 <= i < front.len() implies (#[trigger] front[i]).len() > 0 by {
            assert(front[i] == chunks[i]);
        }
        lemma_next_log(expected, front);
        law_chunking_is_irrelevant(expected, front);
        assert(chunks[chunks.len() - 1].len() > 0);
    }
}

/// The message of a mismatch tells both sizes.
pub proof fn law_mismatch_message_tells_both_sizes(mismatch: SizeMismatch)
    ensures
        exists|got: Seq<char>, wanted: Seq<char>|
            decimal_value(got) == Some(mismatch.downloaded as nat) && decimal_value(wanted) == Some(
                mismatch.expected as nat,
            ) && mismatch.message_text() == #[trigger] ("downloaded "@ + got
                + " bytes, expected "@ + wanted),
{
    law_decimal_notation_reads_back(mismatch.downloaded as nat);
    law_decimal_notation_reads_back(mismatch.expected as nat);
    let got = decimal_text(mismatch.downloaded as nat);
    let wanted = decimal_text(mismatch.expected as nat);
    assert(mismatch.message_text() == "downloaded "@ + got + " bytes, expected "@ + wanted);
}

} // verus!
