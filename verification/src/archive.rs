//! The check that an archive holds the entries it should.

use vstd::prelude::*;

use crate::text::{join, joined, starts_with, texts};

verus! {

/// What has been found of the expected entries.
#[verifier::ext_equal]
pub struct CheckView {
    pub expected: Seq<Seq<char>>,
    pub found: Seq<bool>,
}

/// One of the entry names begins with the expected text.
pub open spec fn is_present(expected: Seq<char>, entries: Seq<Seq<char>>) -> bool {
    exists|j: int| 0 <= j < entries.len() && expected.is_prefix_of(#[trigger] entries[j])
}

/// The expected texts with which none of the entry names begins, in their order.
pub open spec fn absent(expected: Seq<Seq<char>>, entries: Seq<Seq<char>>) -> Seq<Seq<char>> {
    expected.filter(|text: Seq<char>| !is_present(text, entries))
}

impl CheckView {
    /// A check that has seen no entry.
    pub open spec fn start(expected: Seq<Seq<char>>) -> CheckView {
        CheckView { expected, found: Seq::new(expected.len(), |i: int| false) }
    }

    /// The check after an entry: an expectation is a path prefix, met by an
    /// entry whose name begins with it.
    pub open spec fn after(self, entry: Seq<char>) -> CheckView {
        CheckView {
            found: Seq::new(
                self.found.len(),
                |i: int| self.found[i] || self.expected[i].is_prefix_of(entry),
            ),
            ..self
        }
    }

    /// The check after a series of entries.
    pub open spec fn after_all(self, entries: Seq<Seq<char>>) -> CheckView
        decreases entries.len(),
    {
        if entries.len() == 0 {
            self
        } else {
            self.after_all(entries.drop_last()).after(entries.last())
        }
    }

    /// Every expectation is met.
    pub open spec fn satisfied(self) -> bool {
        forall|i: int| 0 <= i < self.found.len() ==> #[trigger] self.found[i]
    }

    /// The expectations that are not met, in their order.
    pub open spec fn missing(self) -> Seq<Seq<char>> {
        missing_of(self.expected, self.found)
    }
}

/// The expected texts without their flag, in their order.
pub open spec fn missing_of(expected: Seq<Seq<char>>, found: Seq<bool>) -> Seq<Seq<char>>
    decreases expected.len(),
{
    if expected.len() == 0 {
        Seq::empty()
    } else {
        let before = missing_of(expected.drop_last(), found);
        if found[expected.len() - 1] {
            before
        } else {
            before.push(expected.last())
        }
    }
}

/// The expected entries that an archive lacks.
#[derive(Debug, PartialEq, Eq)]
pub struct MissingEntries {
    pub names: Vec<String>,
}

impl MissingEntries {
    /// The message that reports what is missing.
    pub open spec fn message_text(self) -> Seq<char> {
        "archive is missing expected entries: "@ + joined(texts(self.names@), ", "@)
    }

    /// The message that reports what is missing.
    pub fn message(&self) -> (res: String)
        ensures
            res@ == self.message_text(),
    {
        let mut res = "archive is missing expected entries: ".to_owned();
        res.append(join(&self.names, ", ").as_str());
        res
    }
}

/// A check in progress.
pub struct ArchiveCheck<'a> {
    expected: &'a Vec<String>,
    found: Vec<bool>,
}

impl<'a> View for ArchiveCheck<'a> {
    type V = CheckView;

    closed spec fn view(&self) -> CheckView {
        CheckView { expected: texts(self.expected@), found: self.found@ }
    }
}

impl<'a> ArchiveCheck<'a> {
    /// Every expectation has its flag.
    pub open spec fn wf(self) -> bool {
        self@.found.len() == self@.expected.len()
    }

    /// Begins a check for the expected entries.
    pub fn new(expected: &'a Vec<String>) -> (res: ArchiveCheck<'a>)
        ensures
            res.wf(),
            res@ == CheckView::start(texts(expected@)),
    {
        let mut found: Vec<bool> = Vec::new();
        let mut i: usize = 0;
        while i < expected.len()
            invariant
                i <= expected.len(),
                found@ == Seq::new(i as nat, |k: int| false),
            decreases expected.len() - i,
        {
            found.push(false);
            i += 1;
        }
        ArchiveCheck { expected, found }
    }

    /// Whether every expectation is met.
    pub fn satisfied(&self) -> (yes: bool)
        ensures
            yes == self@.satisfied(),
    {
        let mut i: usize = 0;
        while i < self.found.len()
            invariant
                i <= self.found.len(),
                forall|k: int| 0 <= k < i ==> #[trigger] self.found@[k],
            decreases self.found.len() - i,
        {
            if !self.found[i] {
                assert(!self@.found[i as int]);
                return false;
            }
            i += 1;
        }
        true
    }

    /// Takes note of an entry of the archive; whether every expectation is met now.
    pub fn observe(&mut self, entry: &str) -> (done: bool)
        requires
            old(self).wf(),
        ensures
            final(self).wf(),
            final(self)@ == old(self)@.after(entry@),
            done == final(self)@.satisfied(),
    {
        let mut i: usize = 0;
        while i < self.expected.len()
            invariant
                i <= self.expected.len(),
                self.expected == old(self).expected,
                self.found.len() == self.expected.len(),
                old(self).found.len() == self.expected.len(),
                forall|k: int|
                    0 <= k < i ==> #[trigger] self.found@[k] == (old(self).found@[k]
                        || self.expected@[k]@.is_prefix_of(entry@)),
                forall|k: int|
                    i <= k < self.expected.len() ==> #[trigger] self.found@[k] == old(
                        self,
                    ).found@[k],
            decreases self.expected.len() - i,
        {
            if starts_with(entry, self.expected[i].as_str()) {
                self.found.set(i, true);
            }
            i += 1;
        }
        assert(self@.found =~= old(self)@.after(entry@).found);
        self.satisfied()
    }

    /// Ends the check: what is missing, where something is.
    pub fn finish(&self) -> (res: Result<(), MissingEntries>)
        requires
            self.wf(),
        ensures
            match res {
                Ok(()) => self@.satisfied(),
                Err(missing) => !self@.satisfied() && texts(missing.names@) == self@.missing(),
            },
    {
        if self.satisfied() {
            return Ok(());
        }
        let ghost all = texts(self.expected@);
        let mut names: Vec<String> = Vec::new();
        let mut i: usize = 0;
        assert(texts(names@) =~= missing_of(all.take(0), self.found@));
        while i < self.expected.len()
            invariant
                i <= self.expected.len(),
                self.found.len() == self.expected.len(),
                all == texts(self.expected@),
                texts(names@) == missing_of(all.take(i as int), self.found@),
            decreases self.expected.len() - i,
        {
            assert(all.take(i + 1).drop_last() =~= all.take(i as int));
            assert(all.take(i + 1).last() == self.expected@[i as int]@);
            if !self.found[i] {
                let ghost before = names@;
                names.push(self.expected[i].clone());
                assert(texts(names@) =~= texts(before).push(self.expected@[i as int]@));
            }
            i += 1;
        }
        assert(all.take(all.len() as int) =~= all);
        Err(MissingEntries { names })
    }
}

/// Whether the entry names of an archive meet every expectation.
pub fn verify_archive_entries(entries: &Vec<String>, expected: &Vec<String>) -> (res: Result<
    (),
    MissingEntries,
>)
    ensures
        match res {
            Ok(()) => absent(texts(expected@), texts(entries@)).len() == 0,
            Err(missing) => absent(texts(expected@), texts(entries@)).len() > 0 && texts(
                missing.names@,
            ) == absent(texts(expected@), texts(entries@)),
        },
        res is Ok <==> forall|i: int|
            0 <= i < expected@.len() ==> exists|j: int|
                0 <= j < entries@.len() && (#[trigger] entries@[j])@.len() >= (
                #[trigger] expected@[i])@.len() && entries@[j]@.take(expected@[i]@.len() as int)
                    == expected@[i]@,
{
    let ghost all = texts(entries@);
    let ghost start = CheckView::start(texts(expected@));
    let mut check = ArchiveCheck::new(expected);
    let mut i: usize = 0;
    assert(all.take(0).len() == 0);
    while i < entries.len()
        invariant
            i <= entries.len(),
            all == texts(entries@),
            start == CheckView::start(texts(expected@)),
            check.wf(),
            check@ == start.after_all(all.take(i as int)),
        decreases entries.len() - i,
    {
        assert(all.take(i + 1).drop_last() =~= all.take(i as int));
        assert(all.take(i + 1).last() == entries@[i as int]@);
        let done = check.observe(entries[i].as_str());
        if done {
            proof {
                law_seen_entries_stay_found(texts(expected@), all.take(i + 1), all.skip(i + 1));
                assert(all.take(i + 1) + all.skip(i + 1) =~= all);
                law_check_finds_what_is_absent(texts(expected@), all);
                lemma_entries_of_lists(expected@, entries@);
                assert forall|k: int| 0 <= k < expected@.len() implies exists|j: int|
                    0 <= j < entries@.len() && (#[trigger] entries@[j])@.len() >= (
                    #[trigger] expected@[k])@.len() && entries@[j]@.take(
                        expected@[k]@.len() as int,
                    ) == expected@[k]@ by {
                    assert(expected@[k]@.len() >= 0);
                }
            }
            return Ok(());
        }
        i += 1;
    }
    proof {
        assert(all.take(all.len() as int) =~= all);
        law_check_finds_what_is_absent(texts(expected@), all);
        let missing = lemma_entries_of_lists(expected@, entries@);
        if absent(texts(expected@), all).len() == 0 {
            assert forall|k: int| 0 <= k < expected@.len() implies exists|j: int|
                0 <= j < entries@.len() && (#[trigger] entries@[j])@.len() >= (
                #[trigger] expected@[k])@.len() && entries@[j]@.take(expected@[k]@.len() as int)
                    == expected@[k]@ by {
                assert(expected@[k]@.len() >= 0);
            }
        } else {
            assert(expected@[missing]@.len() >= 0);
        }
    }
    check.finish()
}

/// After a series of entries, an expectation is met exactly if one of them begins with it.
proof fn lemma_found(expected: Seq<Seq<char>>, entries: Seq<Seq<char>>, i: int)
    requires
        0 <= i < expected.len(),
    ensures
        CheckView::start(expected).after_all(entries).expected == expected,
        CheckView::start(expected).after_all(entries).found.len() == expected.len(),
        CheckView::start(expected).after_all(entries).found[i] == is_present(expected[i], entries),
    decreases entries.len(),
{
    if entries.len() > 0 {
        let front = entries.drop_last();
        lemma_found(expected, front, i);
        let text = expected[i];
        if is_present(text, front) {
            let j = choose|j: int| 0 <= j < front.len() && text.is_prefix_of(#[trigger] front[j]);
            assert(entries[j] == front[j]);
        }
        if is_present(text, entries) {
            let j = choose|j: int| 0 <= j < entries.len() && text.is_prefix_of(#[trigger] entries[j]);
            if j < front.len() {
                assert(front[j] == entries[j]);
            }
        }
        assert(entries[entries.len() - 1] == entries.last());
    }
}

/// Where nothing is absent, each string of a list has one of another that begins
/// with it; else there is one that has none.
proof fn lemma_entries_of_lists(expected: Seq<String>, entries: Seq<String>) -> (missing: int)
    ensures
        absent(texts(expected), texts(entries)).len() == 0 ==> forall|i: int|
            0 <= i < expected.len() ==> exists|j: int|
                0 <= j < entries.len() && (#[trigger] entries[j])@.len() >= (
                #[trigger] expected[i])@.len() && entries[j]@.take(expected[i]@.len() as int)
                    == expected[i]@,
        absent(texts(expected), texts(entries)).len() > 0 ==> 0 <= missing < expected.len()
            && forall|j: int|
            0 <= j < entries.len() ==> !((#[trigger] entries[j])@.len() >= expected[missing]@.len()
                && entries[j]@.take(expected[missing]@.len() as int) == expected[missing]@),
{
    let w = texts(expected);
    let e = texts(entries);
    let end = CheckView::start(w).after_all(e);
    law_check_finds_what_is_absent(w, e);
    lemma_shape(w, e);
    if absent(w, e).len() == 0 {
        assert forall|i: int| 0 <= i < expected.len() implies exists|j: int|
            0 <= j < entries.len() && (#[trigger] entries[j])@.len() >= (
            #[trigger] expected[i])@.len() && entries[j]@.take(expected[i]@.len() as int)
                == expected[i]@ by {
            assert(end.found[i]);
            lemma_found(w, e, i);
            lemma_leading_characters(w[i], e);
            let j = choose|j: int|
                0 <= j < e.len() && (#[trigger] e[j]).len() >= w[i].len() && e[j].take(
                    w[i].len() as int,
                ) == w[i];
            assert(e[j] == entries[j]@);
        }
        0
    } else {
        let missing = choose|i: int| 0 <= i < end.found.len() && !#[trigger] end.found[i];
        lemma_found(w, e, missing);
        lemma_leading_characters(w[missing], e);
        assert forall|j: int| 0 <= j < entries.len() implies !((#[trigger] entries[j])@.len()
            >= expected[missing]@.len() && entries[j]@.take(expected[missing]@.len() as int)
            == expected[missing]@) by {
            assert(e[j] == entries[j]@);
        }
        missing
    }
}

/// The number of expectations and their texts never change.
proof fn lemma_shape(expected: Seq<Seq<char>>, entries: Seq<Seq<char>>)
    ensures
        CheckView::start(expected).after_all(entries).expected == expected,
        CheckView::start(expected).after_all(entries).found.len() == expected.len(),
    decreases entries.len(),
{
    if entries.len() > 0 {
        lemma_shape(expected, entries.drop_last());
    }
}

/// The flags say of each expectation whether it is absent.
proof fn lemma_missing(expected: Seq<Seq<char>>, found: Seq<bool>, entries: Seq<Seq<char>>)
    requires
        expected.len() <= found.len(),
        forall|i: int|
            0 <= i < expected.len() ==> #[trigger] found[i] == is_present(expected[i], entries),
    ensures
        missing_of(expected, found) == absent(expected, entries),
    decreases expected.len(),
{
    reveal(Seq::filter);
    if expected.len() > 0 {
        let front = expected.drop_last();
        assert forall|i: int| 0 <= i < front.len() implies #[trigger] found[i] == is_present(
            front[i],
            entries,
        ) by {
            assert(front[i] == expected[i]);
        }
        lemma_missing(front, found, entries);
        assert(found[expected.len() - 1] == is_present(expected.last(), entries));
    } else {
        assert(missing_of(expected, found) =~= absent(expected, entries));
    }
}

/// The streamed check finds what it should: after the entries of an archive,
/// the missing expectations are those with which no entry begins, and the check
/// is satisfied exactly if there is none.
pub proof fn law_check_finds_what_is_absent(expected: Seq<Seq<char>>, entries: Seq<Seq<char>>)
    ensures
        CheckView::start(expected).after_all(entries).missing() == absent(expected, entries),
        CheckView::start(expected).after_all(entries).satisfied() <==> absent(
            expected,
            entries,
        ).len() == 0,
{
    let end = CheckView::start(expected).after_all(entries);
    lemma_shape(expected, entries);
    assert forall|i: int| 0 <= i < expected.len() implies #[trigger] end.found[i] == is_present(
        expected[i],
        entries,
    ) by {
        lemma_found(expected, entries, i);
    }
    lemma_missing(expected, end.found, entries);
    lemma_missing_empty(expected, end.found);
}

/// Nothing is missing exactly if every flag is set.
proof fn lemma_missing_empty(expected: Seq<Seq<char>>, found: Seq<bool>)
    requires
        expected.len() <= found.len(),
    ensures
        missing_of(expected, found).len() == 0 <==> (forall|i: int|
            0 <= i < expected.len() ==> #[trigger] found[i]),
    decreases expected.len(),
{
    if expected.len() > 0 {
        lemma_missing_empty(expected.drop_last(), found);
    }
}

/// What has been found stays found: once every expectation is met, further
/// entries change nothing, so the check may stop there.
pub proof fn law_seen_entries_stay_found(
    expected: Seq<Seq<char>>,
    seen: Seq<Seq<char>>,
    more: Seq<Seq<char>>,
)
    requires
        CheckView::start(expected).after_all(seen).satisfied(),
    ensures
        CheckView::start(expected).after_all(seen + more).satisfied(),
{
    lemma_shape(expected, seen);
    lemma_shape(expected, seen + more);
    let end = CheckView::start(expected).after_all(seen + more);
    assert forall|i: int| 0 <= i < end.found.len() implies #[trigger] end.found[i] by {
        lemma_found(expected, seen, i);
        lemma_found(expected, seen + more, i);
        assert(CheckView::start(expected).after_all(seen).found[i]);
        let j = choose|j: int| 0 <= j < seen.len() && expected[i].is_prefix_of(#[trigger] seen[j]);
        assert((seen + more)[j] == seen[j]);
    }
}

/// Every expectation has its entry: a check is satisfied by the entries of an
/// archive exactly if for each expected text one of them is at least as long and
/// has it as its leading characters; and so for each expectation alone.
pub proof fn law_every_expectation_has_its_entry(
    expected: Seq<Seq<char>>,
    entries: Seq<Seq<char>>,
)
    ensures
        CheckView::start(expected).after_all(entries).satisfied() <==> forall|i: int|
            0 <= i < expected.len() ==> exists|j: int|
                0 <= j < entries.len() && (#[trigger] entries[j]).len() >= (
                #[trigger] expected[i]).len() && entries[j].take(expected[i].len() as int)
                    == expected[i],
        absent(expected, entries).len() == 0 <==> forall|i: int|
            0 <= i < expected.len() ==> exists|j: int|
                0 <= j < entries.len() && (#[trigger] entries[j]).len() >= (
                #[trigger] expected[i]).len() && entries[j].take(expected[i].len() as int)
                    == expected[i],
{
    let end = CheckView::start(expected).after_all(entries);
    law_check_finds_what_is_absent(expected, entries);
    lemma_shape(expected, entries);
    assert forall|i: int| 0 <= i < expected.len() implies #[trigger] end.found[i] == (exists|j: int|
        0 <= j < entries.len() && (#[trigger] entries[j]).len() >= expected[i].len()
            && entries[j].take(expected[i].len() as int) == expected[i]) by {
        lemma_found(expected, entries, i);
        lemma_leading_characters(expected[i], entries);
    }
    if end.satisfied() {
        assert forall|i: int| 0 <= i < expected.len() implies exists|j: int|
            0 <= j < entries.len() && (#[trigger] entries[j]).len() >= (
            #[trigger] expected[i]).len() && entries[j].take(expected[i].len() as int)
                == expected[i] by {
            assert(end.found[i]);
        }
    }
    if forall|i: int|
        0 <= i < expected.len() ==> exists|j: int|
            0 <= j < entries.len() && (#[trigger] entries[j]).len() >= (
            #[trigger] expected[i]).len() && entries[j].take(expected[i].len() as int)
                == expected[i] {
        assert forall|i: int| 0 <= i < end.found.len() implies #[trigger] end.found[i] by {
            assert(expected[i].len() >= 0);
        }
    }
}

/// A text is present exactly if some entry has it as its leading characters.
proof fn lemma_leading_characters(text: Seq<char>, entries: Seq<Seq<char>>)
    ensures
        is_present(text, entries) <==> exists|j: int|
            0 <= j < entries.len() && (#[trigger] entries[j]).len() >= text.len()
                && entries[j].take(text.len() as int) == text,
{
    assert forall|j: int| 0 <= j < entries.len() implies text.is_prefix_of(#[trigger] entries[j])
        == (entries[j].len() >= text.len() && entries[j].take(text.len() as int) == text) by {
        if entries[j].len() >= text.len() {
            assert(entries[j].take(text.len() as int) =~= entries[j].subrange(
                0,
                text.len() as int,
            ));
        }
    }
}

/// What is missing is told text by text and in the order of the expectations:
/// each is missing exactly if no entry has it as its leading characters,
/// whatever else is expected.
pub proof fn law_missing_texts_keep_their_order(
    first: Seq<Seq<char>>,
    text: Seq<char>,
    more: Seq<Seq<char>>,
    entries: Seq<Seq<char>>,
)
    ensures
        absent(first + more, entries) == absent(first, entries) + absent(more, entries),
        absent(seq![text], entries) == if exists|j: int|
            0 <= j < entries.len() && (#[trigger] entries[j]).len() >= text.len()
                && entries[j].take(text.len() as int) == text {
            Seq::<Seq<char>>::empty()
        } else {
            seq![text]
        },
    decreases more.len(),
{
    reveal(Seq::filter);
    lemma_leading_characters(text, entries);
    assert(seq![text].drop_last().len() == 0);
    let alone = seq![text].drop_last();
    assert(absent(alone, entries) =~= Seq::<Seq<char>>::empty());
    assert(absent(seq![text], entries) =~= if is_present(text, entries) {
        Seq::<Seq<char>>::empty()
    } else {
        seq![text]
    });
    if more.len() == 0 {
        assert(first + more =~= first);
        assert(absent(first + more, entries) =~= absent(first, entries) + absent(more, entries));
    } else {
        law_missing_texts_keep_their_order(first, text, more.drop_last(), entries);
        assert((first + more).drop_last() =~= first + more.drop_last());
        assert((first + more).last() == more.last());
        assert(absent(first + more, entries) =~= absent(first, entries) + absent(more, entries));
    }
}

/// The message names what is missing, separated by commas.
pub proof fn law_missing_entries_are_named(missing: MissingEntries)
    ensures
        missing.message_text() == "archive is missing expected entries: "@ + joined(
            texts(missing.names@),
            seq![',', ' '],
        ),
{
    reveal_strlit(", ");
    assert(", "@ =~= seq![',', ' ']);
}

} // verus!
