//! What a directory listing of the FTP server says about backups.

use vstd::prelude::*;

use crate::paths::{base_name, file_name, is_file_name};
use crate::text::{
    ends_with, law_order_is_strict, law_order_is_total, law_order_is_transitive, precedes,
    same_text, starts_with, text_less, texts,
};

verus! {

/// The name of a backup archive.
pub open spec fn is_archive_name(name: Seq<char>) -> bool {
    "backup-"@.is_prefix_of(name) && (".tar.gz"@.is_suffix_of(name) || ".tar"@.is_suffix_of(name))
}

/// A list without repetitions in the order of texts.
pub open spec fn ascending(names: Seq<Seq<char>>) -> bool {
    forall|i: int, j: int|
        0 <= i < j < names.len() ==> precedes(#[trigger] names[i], #[trigger] names[j])
}

/// Some listed entry is a backup archive with this name.
pub open spec fn is_listed(entries: Seq<Seq<char>>, name: Seq<char>) -> bool {
    is_archive_name(name) && exists|i: int|
        0 <= i < entries.len() && file_name(#[trigger] entries[i]) == Some(name)
}

/// `names` are the backup archives among the listed entries, each once and in order.
pub open spec fn lists_backups(names: Seq<Seq<char>>, entries: Seq<Seq<char>>) -> bool {
    ascending(names) && forall|name: Seq<char>|
        #[trigger] names.contains(name) <==> is_listed(entries, name)
}

/// The backup archives among the listed entries, each once and in order.
pub open spec fn backups(entries: Seq<Seq<char>>) -> Seq<Seq<char>> {
    choose|names: Seq<Seq<char>>| lists_backups(names, entries)
}

/// Whether `name` is the name of a backup archive.
pub fn is_backup_archive_name(name: &str) -> (yes: bool)
    ensures
        yes == is_archive_name(name@),
{
    starts_with(name, "backup-") && (ends_with(name, ".tar.gz") || ends_with(name, ".tar"))
}

/// Two ascending lists with the same members are the same list.
proof fn lemma_ascending_unique(s: Seq<Seq<char>>, t: Seq<Seq<char>>)
    requires
        ascending(s),
        ascending(t),
        forall|name: Seq<char>| #[trigger] s.contains(name) <==> t.contains(name),
    ensures
        s == t,
    decreases s.len(),
{
    if s.len() == 0 {
        if t.len() > 0 {
            assert(t.contains(t[0]));
            assert(s.contains(t[0]));
        }
        assert(s =~= t);
    } else {
        assert(s.contains(s[0]));
        let k = choose|k: int| 0 <= k < t.len() && t[k] == s[0];
        assert(t.contains(t[0]));
        assert(s.contains(t[0]));
        let m = choose|m: int| 0 <= m < s.len() && s[m] == t[0];
        assert(s[0] == t[0]) by {
            if k > 0 && m > 0 {
                assert(precedes(t[0], t[k]));
                assert(precedes(s[0], s[m]));
                law_order_is_transitive(t[0], s[0], t[0]);
                law_order_is_strict(t[0]);
            }
        }
        let a = s.drop_first();
        let b = t.drop_first();
        assert(ascending(a)) by {
            assert forall|i: int, j: int| 0 <= i < j < a.len() implies precedes(
                #[trigger] a[i],
                #[trigger] a[j],
            ) by {
                assert(precedes(s[i + 1], s[j + 1]));
            }
        }
        assert(ascending(b)) by {
            assert forall|i: int, j: int| 0 <= i < j < b.len() implies precedes(
                #[trigger] b[i],
                #[trigger] b[j],
            ) by {
                assert(precedes(t[i + 1], t[j + 1]));
            }
        }
        assert forall|name: Seq<char>| #[trigger] a.contains(name) <==> b.contains(name) by {
            lemma_rest_members(s, name);
            lemma_rest_members(t, name);
            assert(s.contains(name) <==> t.contains(name));
        }
        lemma_ascending_unique(a, b);
        assert(s =~= seq![s[0]] + a);
        assert(t =~= seq![t[0]] + b);
    }
}

/// The members of an ascending list after its first are the others.
proof fn lemma_rest_members(s: Seq<Seq<char>>, name: Seq<char>)
    requires
        s.len() > 0,
        ascending(s),
    ensures
        s.drop_first().contains(name) <==> s.contains(name) && name != s[0],
{
    let rest = s.drop_first();
    if rest.contains(name) {
        let i = choose|i: int| 0 <= i < rest.len() && rest[i] == name;
        assert(s[i + 1] == name);
        assert(precedes(s[0], s[i + 1]));
        law_order_is_strict(name);
    }
    if s.contains(name) && name != s[0] {
        let i = choose|i: int| 0 <= i < s.len() && s[i] == name;
        assert(rest[i - 1] == name);
    }
}

/// There is only one list of the backup archives among the listed entries.
pub proof fn law_backups_are_unique(names: Seq<Seq<char>>, entries: Seq<Seq<char>>)
    requires
        lists_backups(names, entries),
    ensures
        backups(entries) == names,
{
    let chosen = backups(entries);
    assert(lists_backups(chosen, entries));
    assert forall|name: Seq<char>| #[trigger] chosen.contains(name) <==> names.contains(name) by {
        assert(chosen.contains(name) <==> is_listed(entries, name));
        assert(names.contains(name) <==> is_listed(entries, name));
    }
    lemma_ascending_unique(chosen, names);
}

/// Puts `name` in its place in an ascending list, unless it is there.
fn insert_name(names: &mut Vec<String>, name: String)
    requires
        ascending(texts(old(names)@)),
    ensures
        ascending(texts(final(names)@)),
        forall|other: Seq<char>| #[trigger]
            texts(final(names)@).contains(other) <==> texts(old(names)@).contains(other) || other
                == name@,
{
    let ghost before = texts(names@);
    let mut i: usize = 0;
    while i < names.len() && text_less(names[i].as_str(), name.as_str())
        invariant
            i <= names.len(),
            names@ == old(names)@,
            before == texts(names@),
            forall|k: int| 0 <= k < i ==> precedes(#[trigger] before[k], name@),
        decreases names.len() - i,
    {
        assert(before[i as int] == names@[i as int]@);
        i += 1;
    }
    if i < names.len() && same_text(names[i].as_str(), name.as_str()) {
        assert(before[i as int] == name@);
        return ;
    }
    proof {
        assert forall|k: int| i <= k < before.len() implies precedes(name@, #[trigger] before[k]) by {
            assert(before[i as int] == names@[i as int]@);
            law_order_is_total(before[i as int], name@);
            if k > i {
                law_order_is_transitive(name@, before[i as int], before[k]);
            }
        }
    }
    names.insert(i, name);
    proof {
        let after = texts(names@);
        assert(after =~= before.insert(i as int, name@));
        assert forall|a: int, b: int| 0 <= a < b < after.len() implies precedes(
            #[trigger] after[a],
            #[trigger] after[b],
        ) by {
            let x = if a < i {
                a
            } else {
                a - 1
            };
            let y = if b < i {
                b
            } else {
                b - 1
            };
            if a != i {
                assert(after[a] == before[x]);
            }
            if b != i {
                assert(after[b] == before[y]);
            }
        }
        assert forall|other: Seq<char>| #[trigger]
            after.contains(other) <==> before.contains(other) || other == name@ by {
            assert(after[i as int] == name@);
            if before.contains(other) {
                let k = choose|k: int| 0 <= k < before.len() && before[k] == other;
                if k < i {
                    assert(after[k] == other);
                } else {
                    assert(after[k + 1] == other);
                }
            }
            if after.contains(other) {
                let k = choose|k: int| 0 <= k < after.len() && after[k] == other;
                if k < i {
                    assert(before[k] == other);
                } else if k > i {
                    assert(before[k - 1] == other);
                }
            }
        }
    }
}

/// The backup archives among the listed entries, each once and in order.
pub fn list_remote_backup_files(entries: &Vec<String>) -> (names: Vec<String>)
    ensures
        texts(names@) == backups(texts(entries@)),
        lists_backups(texts(names@), texts(entries@)),
{
    let ghost all = texts(entries@);
    let mut names: Vec<String> = Vec::new();
    let mut i: usize = 0;
    while i < entries.len()
        invariant
            i <= entries.len(),
            all == texts(entries@),
            lists_backups(texts(names@), all.take(i as int)),
        decreases entries.len() - i,
    {
        let ghost before = texts(names@);
        assert(all[i as int] == entries@[i as int]@);
        match base_name(entries[i].as_str()) {
            Some(name) => {
                if is_backup_archive_name(name.as_str()) {
                    insert_name(&mut names, name);
                }
            },
            None => {},
        }
        proof {
            let after = texts(names@);
            assert forall|name: Seq<char>| #[trigger] after.contains(name) <==> is_listed(
                all.take(i + 1),
                name,
            ) by {
                lemma_listed_step(all, i as int, name);
                assert(before.contains(name) <==> is_listed(all.take(i as int), name));
            }
        }
        i += 1;
    }
    assert(all.take(all.len() as int) =~= all);
    proof {
        law_backups_are_unique(texts(names@), all);
    }
    names
}

/// What one more entry adds to what is listed.
proof fn lemma_listed_step(entries: Seq<Seq<char>>, i: int, name: Seq<char>)
    requires
        0 <= i < entries.len(),
    ensures
        is_listed(entries.take(i + 1), name) <==> is_listed(entries.take(i), name) || (
        is_archive_name(name) && file_name(entries[i]) == Some(name)),
{
    let shorter = entries.take(i);
    let longer = entries.take(i + 1);
    if is_listed(longer, name) {
        let k = choose|k: int| 0 <= k < longer.len() && file_name(#[trigger] longer[k]) == Some(name);
        if k < i {
            assert(shorter[k] == longer[k]);
        }
    }
    if is_listed(shorter, name) {
        let k = choose|k: int|
            0 <= k < shorter.len() && file_name(#[trigger] shorter[k]) == Some(name);
        assert(longer[k] == shorter[k]);
    }
    assert(longer[i] == entries[i]);
}

/// The last of the names whose flag is not set.
pub open spec fn last_unset(names: Seq<Seq<char>>, flags: Seq<bool>) -> Option<Seq<char>>
    decreases names.len(),
{
    if names.len() == 0 {
        None
    } else if !flags[names.len() - 1] {
        Some(names.last())
    } else {
        last_unset(names.drop_last(), flags)
    }
}

/// The last of the names that are not among `known`.
pub open spec fn last_unknown(names: Seq<Seq<char>>, known: Seq<Seq<char>>) -> Option<Seq<char>>
    decreases names.len(),
{
    if names.len() == 0 {
        None
    } else if !known.contains(names.last()) {
        Some(names.last())
    } else {
        last_unknown(names.drop_last(), known)
    }
}

/// The last backup that is not present locally, `present` saying of each
/// whether it is.
pub fn pending_backup(names: &Vec<String>, present: &Vec<bool>) -> (res: Option<String>)
    requires
        names@.len() == present@.len(),
    ensures
        match res {
            Some(name) => last_unset(texts(names@), present@) == Some(name@),
            None => last_unset(texts(names@), present@) is None,
        },
{
    let ghost all = texts(names@);
    let mut n: usize = names.len();
    assert(all.take(all.len() as int) =~= all);
    while n > 0
        invariant
            n <= names.len(),
            names@.len() == present@.len(),
            all == texts(names@),
            last_unset(all, present@) == last_unset(all.take(n as int), present@),
        decreases n,
    {
        assert(all.take(n as int).last() == names@[n - 1]@);
        if !present[n - 1] {
            return Some(names[n - 1].clone());
        }
        assert(all.take(n as int).drop_last() =~= all.take(n - 1));
        n -= 1;
    }
    None
}

/// Whether `name` is among `known`.
fn is_among(known: &Vec<String>, name: &str) -> (yes: bool)
    ensures
        yes == texts(known@).contains(name@),
{
    let mut i: usize = 0;
    while i < known.len()
        invariant
            i <= known.len(),
            forall|k: int| 0 <= k < i ==> #[trigger] texts(known@)[k] != name@,
        decreases known.len() - i,
    {
        assert(texts(known@)[i as int] == known@[i as int]@);
        if same_text(known[i].as_str(), name) {
            return true;
        }
        i += 1;
    }
    false
}

/// The last backup of a new listing that was not there `before`.
pub fn find_new_backup(entries: &Vec<String>, before: &Vec<String>) -> (res: Option<String>)
    ensures
        match res {
            Some(name) => last_unknown(backups(texts(entries@)), texts(before@)) == Some(name@),
            None => last_unknown(backups(texts(entries@)), texts(before@)) is None,
        },
{
    let names = list_remote_backup_files(entries);
    let ghost all = texts(names@);
    let mut n: usize = names.len();
    assert(all.take(all.len() as int) =~= all);
    while n > 0
        invariant
            n <= names.len(),
            all == texts(names@),
            all == backups(texts(entries@)),
            last_unknown(all, texts(before@)) == last_unknown(all.take(n as int), texts(before@)),
        decreases n,
    {
        assert(all.take(n as int).last() == names@[n - 1]@);
        if !is_among(before, names[n - 1].as_str()) {
            return Some(names[n - 1].clone());
        }
        assert(all.take(n as int).drop_last() =~= all.take(n - 1));
        n -= 1;
    }
    None
}

/// A first element before all others keeps a list ascending.
proof fn lemma_ascending_cons(first: Seq<char>, rest: Seq<Seq<char>>)
    requires
        ascending(rest),
        forall|name: Seq<char>| #[trigger] rest.contains(name) ==> precedes(first, name),
    ensures
        ascending(seq![first] + rest),
        forall|name: Seq<char>| #[trigger]
            (seq![first] + rest).contains(name) <==> name == first || rest.contains(name),
{
    let whole = seq![first] + rest;
    assert forall|i: int, j: int| 0 <= i < j < whole.len() implies precedes(
        #[trigger] whole[i],
        #[trigger] whole[j],
    ) by {
        assert(whole[j] == rest[j - 1]);
        if i == 0 {
            assert(rest.contains(rest[j - 1]));
        } else {
            assert(whole[i] == rest[i - 1]);
        }
    }
    assert forall|name: Seq<char>| #[trigger] whole.contains(name) <==> name == first
        || rest.contains(name) by {
        if whole.contains(name) {
            let k = choose|k: int| 0 <= k < whole.len() && whole[k] == name;
            if k > 0 {
                assert(rest[k - 1] == name);
            }
        }
        if rest.contains(name) {
            let k = choose|k: int| 0 <= k < rest.len() && rest[k] == name;
            assert(whole[k + 1] == name);
        }
        assert(whole[0] == first);
    }
}

/// Any name has a place in an ascending list.
proof fn lemma_insertion(names: Seq<Seq<char>>, name: Seq<char>) -> (res: Seq<Seq<char>>)
    requires
        ascending(names),
    ensures
        ascending(res),
        forall|other: Seq<char>| #[trigger]
            res.contains(other) <==> names.contains(other) || other == name,
    decreases names.len(),
{
    if names.len() == 0 {
        let res = seq![name] + names;
        lemma_ascending_cons(name, names);
        res
    } else {
        let first = names[0];
        let rest = names.drop_first();
        assert(names =~= seq![first] + rest);
        assert forall|i: int, j: int| 0 <= i < j < rest.len() implies precedes(
            #[trigger] rest[i],
            #[trigger] rest[j],
        ) by {
            assert(precedes(names[i + 1], names[j + 1]));
        }
        assert forall|other: Seq<char>| #[trigger] rest.contains(other) implies precedes(
            first,
            other,
        ) by {
            let k = choose|k: int| 0 <= k < rest.len() && rest[k] == other;
            assert(precedes(names[0], names[k + 1]));
        }
        lemma_ascending_cons(first, rest);
        law_order_is_total(first, name);
        if first == name {
            names
        } else if precedes(name, first) {
            assert forall|other: Seq<char>| #[trigger] names.contains(other) implies precedes(
                name,
                other,
            ) by {
                if other != first {
                    assert(rest.contains(other));
                    law_order_is_transitive(name, first, other);
                }
            }
            lemma_ascending_cons(name, names);
            seq![name] + names
        } else {
            let longer = lemma_insertion(rest, name);
            lemma_ascending_cons(first, longer);
            seq![first] + longer
        }
    }
}

/// Whatever is listed, its backups can be put in a list without repetitions
/// and in order.
pub proof fn law_backups_exist(entries: Seq<Seq<char>>)
    ensures
        lists_backups(backups(entries), entries),
    decreases entries.len(),
{
    if entries.len() == 0 {
        let none = Seq::<Seq<char>>::empty();
        assert(lists_backups(none, entries));
    } else {
        let n = entries.len() - 1;
        let front = entries.take(n);
        law_backups_exist(front);
        assert(entries.take(n + 1) =~= entries);
        let known = backups(front);
        let names = match file_name(entries[n]) {
            Some(name) if is_archive_name(name) => lemma_insertion(known, name),
            _ => known,
        };
        assert forall|name: Seq<char>| #[trigger] names.contains(name) <==> is_listed(
            entries,
            name,
        ) by {
            lemma_listed_step(entries, n, name);
            assert(known.contains(name) <==> is_listed(front, name));
        }
        assert(lists_backups(names, entries));
    }
}

/// Every backup of a listing has the name of a file, so looking it up from a
/// directory cannot lead out of it.
pub proof fn law_backups_are_file_names(entries: Seq<Seq<char>>, name: Seq<char>)
    requires
        backups(entries).contains(name),
    ensures
        is_file_name(name),
        is_archive_name(name),
{
    law_backups_exist(entries);
    assert(is_listed(entries, name));
}

/// The chosen backup is pending, and the greatest of those that are.
pub proof fn law_pending_is_last(names: Seq<Seq<char>>, present: Seq<bool>)
    requires
        ascending(names),
        present.len() == names.len(),
    ensures
        match last_unset(names, present) {
            Some(name) => exists|i: int|
                0 <= i < names.len() && #[trigger] names[i] == name && !present[i] && forall|j: int|
                    0 <= j < names.len() && !#[trigger] present[j] && j != i ==> precedes(
                        names[j],
                        name,
                    ),
            None => forall|i: int| 0 <= i < names.len() ==> #[trigger] present[i],
        },
{
    lemma_last_unset(names, present, names.len() as int);
    assert(names.take(names.len() as int) =~= names);
}

/// What is the last name without its flag among the first `n`.
proof fn lemma_last_unset(names: Seq<Seq<char>>, present: Seq<bool>, n: int)
    requires
        ascending(names),
        present.len() == names.len(),
        0 <= n <= names.len(),
    ensures
        match last_unset(names.take(n), present) {
            Some(name) => exists|i: int|
                0 <= i < n && #[trigger] names[i] == name && !present[i] && forall|j: int|
                    0 <= j < n && !#[trigger] present[j] && j != i ==> precedes(names[j], name),
            None => forall|i: int| 0 <= i < n ==> #[trigger] present[i],
        },
    decreases n,
{
    if n > 0 {
        lemma_last_unset(names, present, n - 1);
        assert(names.take(n).drop_last() =~= names.take(n - 1));
        assert(names.take(n).last() == names[n - 1]);
        if !present[n - 1] {
            assert forall|j: int| 0 <= j < n && !#[trigger] present[j] && j != n - 1 implies precedes(
                names[j],
                names[n - 1],
            ) by {
                assert(precedes(names[j], names[n - 1]));
            }
        } else {
            match last_unset(names.take(n - 1), present) {
                Some(name) => {
                    let i = choose|i: int|
                        0 <= i < n - 1 && #[trigger] names[i] == name && !present[i] && forall|
                            j: int,
                        |
                            0 <= j < n - 1 && !#[trigger] present[j] && j != i ==> precedes(
                                names[j],
                                name,
                            );
                    assert(names[i] == name);
                },
                None => {},
            }
        }
    }
}

/// The new backup of a listing is one of it, was not there before, and is the
/// greatest of those that were not.
pub proof fn law_new_backup_is_last(names: Seq<Seq<char>>, before: Seq<Seq<char>>)
    requires
        ascending(names),
    ensures
        match last_unknown(names, before) {
            Some(name) => names.contains(name) && !before.contains(name) && forall|other: Seq<char>|
                #[trigger] names.contains(other) && !before.contains(other) && other != name
                    ==> precedes(other, name),
            None => forall|name: Seq<char>| #[trigger]
                names.contains(name) ==> before.contains(name),
        },
    decreases names.len(),
{
    if names.len() > 0 {
        let front = names.drop_last();
        let last = names.last();
        assert forall|i: int, j: int| 0 <= i < j < front.len() implies precedes(
            #[trigger] front[i],
            #[trigger] front[j],
        ) by {
            assert(precedes(names[i], names[j]));
        }
        law_new_backup_is_last(front, before);
        assert(names[names.len() - 1] == last);
        assert forall|other: Seq<char>| #[trigger] names.contains(other) implies other == last || (
        front.contains(other) && precedes(other, last)) by {
            let k = choose|k: int| 0 <= k < names.len() && names[k] == other;
            if k < names.len() - 1 {
                assert(front[k] == other);
                assert(precedes(names[k], names[names.len() - 1]));
            }
        }
        assert forall|other: Seq<char>| #[trigger] front.contains(other) implies names.contains(
            other,
        ) by {
            let k = choose|k: int| 0 <= k < front.len() && front[k] == other;
            assert(names[k] == other);
        }
    }
}

/// The name of a backup begins with `backup-` and ends in `.tar.gz` or `.tar`.
pub proof fn law_backup_names(name: Seq<char>)
    ensures
        is_archive_name(name) <==> {
            &&& name.len() >= 7 && name.take(7) == "backup-"@
            &&& {
                ||| name.len() >= 7 && name.skip(name.len() - 7) == ".tar.gz"@
                ||| name.len() >= 4 && name.skip(name.len() - 4) == ".tar"@
            }
        },
{
    reveal_strlit("backup-");
    reveal_strlit(".tar.gz");
    reveal_strlit(".tar");
    if name.len() >= 7 {
        assert(name.take(7) =~= name.subrange(0, 7));
        assert(name.skip(name.len() - 7) =~= name.subrange(name.len() - 7, name.len() as int));
    }
    if name.len() >= 4 {
        assert(name.skip(name.len() - 4) =~= name.subrange(name.len() - 4, name.len() as int));
    }
}

/// The backups of a listing are the names of backups among the last parts of its
/// entries, all of them and nothing else, each once and the smaller ones first.
pub proof fn law_backups_are_the_listed_names(entries: Seq<Seq<char>>, name: Seq<char>)
    ensures
        backups(entries).contains(name) <==> is_archive_name(name) && exists|i: int|
            0 <= i < entries.len() && file_name(#[trigger] entries[i]) == Some(name),
        forall|i: int, j: int|
            0 <= i < j < backups(entries).len() ==> precedes(
                #[trigger] backups(entries)[i],
                #[trigger] backups(entries)[j],
            ),
{
    law_backups_exist(entries);
    assert(backups(entries).contains(name) <==> is_listed(entries, name));
}

/// The order in which a server lists its entries does not matter, nor how often
/// it lists one.
pub proof fn law_listing_order_is_irrelevant(first: Seq<Seq<char>>, second: Seq<Seq<char>>)
    requires
        forall|entry: Seq<char>| #[trigger] first.contains(entry) <==> second.contains(entry),
    ensures
        backups(first) == backups(second),
{
    law_backups_exist(first);
    law_backups_exist(second);
    assert forall|name: Seq<char>| #[trigger] backups(first).contains(name) <==> backups(
        second,
    ).contains(name) by {
        assert(backups(first).contains(name) <==> is_listed(first, name));
        assert(backups(second).contains(name) <==> is_listed(second, name));
        if is_listed(first, name) {
            let i = choose|i: int|
                0 <= i < first.len() && file_name(#[trigger] first[i]) == Some(name);
            assert(first.contains(first[i]));
            let j = choose|j: int| 0 <= j < second.len() && second[j] == first[i];
            assert(file_name(second[j]) == Some(name));
        }
        if is_listed(second, name) {
            let i = choose|i: int|
                0 <= i < second.len() && file_name(#[trigger] second[i]) == Some(name);
            assert(second.contains(second[i]));
            assert(first.contains(second[i]));
            let j = choose|j: int| 0 <= j < first.len() && first[j] == second[i];
            assert(file_name(first[j]) == Some(name));
        }
    }
    lemma_ascending_unique(backups(first), backups(second));
}

/// Of any names, in whatever order, the last one without its flag is chosen, and
/// the last one that is not known.
pub proof fn law_last_one_is_chosen(
    names: Seq<Seq<char>>,
    flags: Seq<bool>,
    known: Seq<Seq<char>>,
)
    ensures
        match last_unset(names, flags) {
            Some(name) => exists|i: int|
                {
                    &&& 0 <= i < names.len()
                    &&& #[trigger] names[i] == name
                    &&& !flags[i]
                    &&& forall|j: int| i < j < names.len() ==> #[trigger] flags[j]
                },
            None => forall|j: int| 0 <= j < names.len() ==> #[trigger] flags[j],
        },
        match last_unknown(names, known) {
            Some(name) => exists|i: int|
                {
                    &&& 0 <= i < names.len()
                    &&& #[trigger] names[i] == name
                    &&& !known.contains(name)
                    &&& forall|j: int| i < j < names.len() ==> known.contains(#[trigger] names[j])
                },
            None => forall|j: int| 0 <= j < names.len() ==> known.contains(#[trigger] names[j]),
        },
    decreases names.len(),
{
    if names.len() > 0 {
        let n = names.len() - 1;
        let front = names.drop_last();
        law_last_one_is_chosen(front, flags, known);
        assert forall|j: int| 0 <= j < n implies #[trigger] names[j] == front[j] by {}
        if flags[n] {
            match last_unset(front, flags) {
                Some(name) => {
                    let i = choose|i: int|
                        {
                            &&& 0 <= i < front.len()
                            &&& #[trigger] front[i] == name
                            &&& !flags[i]
                            &&& forall|j: int| i < j < front.len() ==> #[trigger] flags[j]
                        };
                    assert(names[i] == name);
                },
                None => {},
            }
        } else {
            assert(names[n] == names.last());
        }
        if known.contains(names[n]) {
            match last_unknown(front, known) {
                Some(name) => {
                    let i = choose|i: int|
                        {
                            &&& 0 <= i < front.len()
                            &&& #[trigger] front[i] == name
                            &&& !known.contains(name)
                            &&& forall|j: int|
                                i < j < front.len() ==> known.contains(#[trigger] front[j])
                        };
                    assert(names[i] == name);
                },
                None => {},
            }
        } else {
            assert(names[n] == names.last());
        }
    }
}

} // verus!
