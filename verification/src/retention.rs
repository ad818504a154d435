//! Which local archives to remove so that only the latest ones stay.

use vstd::prelude::*;

use crate::config::opt_text;
use crate::paths::{
    file_name, is_file_name, join_path, law_file_lies_in_directory,
    law_paths_in_a_plain_directory, law_sibling_lies_beside, normal_end, parent, path_in, sibling, sibling_path_with_suffix,
};
use crate::text::{ends_with, starts_with};

verus! {

/// A file of the backup directory: its name, and when it was last modified, in
/// nanoseconds since the Unix epoch.
#[derive(Debug)]
pub struct LocalFile {
    pub name: String,
    pub modified: i128,
}

/// A file of the backup directory as a mathematical value.
pub struct LocalFileView {
    pub name: Seq<char>,
    pub modified: int,
}

impl View for LocalFile {
    type V = LocalFileView;

    open spec fn view(&self) -> LocalFileView {
        LocalFileView { name: self.name@, modified: self.modified as int }
    }
}

/// The files of the backup directory as mathematical values.
pub open spec fn file_views(files: Seq<LocalFile>) -> Seq<LocalFileView> {
    files.map_values(|file: LocalFile| file@)
}

/// The name of an archive that counts for retention.
pub open spec fn is_retained_name(name: Seq<char>) -> bool {
    "backup-"@.is_prefix_of(name) && ".tar.gz"@.is_suffix_of(name)
}

/// The file at position `i` is an archive that counts for retention.
pub open spec fn is_archive(files: Seq<LocalFileView>, i: int) -> bool {
    0 <= i < files.len() && is_retained_name(files[i].name)
}

/// The number of archives that count for retention.
pub open spec fn archive_count(files: Seq<LocalFileView>) -> nat
    decreases files.len(),
{
    if files.len() == 0 {
        0
    } else if is_retained_name(files.last().name) {
        archive_count(files.drop_last()) + 1
    } else {
        archive_count(files.drop_last())
    }
}

/// The file at position `i` comes before the one at `j` by age, and by position
/// where both are of the same age.
pub open spec fn is_older(files: Seq<LocalFileView>, i: int, j: int) -> bool {
    files[i].modified < files[j].modified || (files[i].modified == files[j].modified && i < j)
}

/// How many archives are to be removed: all but `keep_last`, where that is
/// positive, and none otherwise.
pub open spec fn excess(files: Seq<LocalFileView>, keep_last: nat) -> nat {
    if keep_last == 0 || archive_count(files) <= keep_last {
        0
    } else {
        (archive_count(files) - keep_last) as nat
    }
}

/// `removals` are the positions of the oldest archives, the oldest first, as
/// many as are to be removed.
pub open spec fn is_prune_plan(
    removals: Seq<int>,
    files: Seq<LocalFileView>,
    keep_last: nat,
) -> bool {
    &&& removals.len() == excess(files, keep_last)
    &&& forall|k: int| 0 <= k < removals.len() ==> is_archive(files, #[trigger] removals[k])
    &&& forall|k: int, m: int|
        0 <= k < m < removals.len() ==> is_older(files, #[trigger] removals[k], #[trigger] removals[m])
    &&& forall|k: int, i: int|
        0 <= k < removals.len() && #[trigger] is_archive(files, i) && !removals.contains(i)
            ==> is_older(files, #[trigger] removals[k], i)
}

/// The positions of the archives to remove, the oldest first.
pub open spec fn planned(files: Seq<LocalFileView>, keep_last: nat) -> Seq<int> {
    choose|removals: Seq<int>| is_prune_plan(removals, files, keep_last)
}

/// The path of the archive at position `i`.
pub open spec fn archive_path(dir: Seq<char>, files: Seq<LocalFileView>, i: int) -> Seq<char> {
    join_path(dir, files[i].name)
}

/// What goes from the directory `dir` when the archives at the given positions
/// do: the path of each, with that of the checksum file beside it.
pub open spec fn removed_paths(
    dir: Seq<char>,
    files: Seq<LocalFileView>,
    removals: Seq<int>,
) -> Seq<(Seq<char>, Option<Seq<char>>)> {
    removals.map_values(
        |i: int|
            (archive_path(dir, files, i), sibling(archive_path(dir, files, i), ".sha256"@)),
    )
}

/// Paths as mathematical values.
pub open spec fn path_views(
    paths: Seq<(String, Option<String>)>,
) -> Seq<(Seq<char>, Option<Seq<char>>)> {
    paths.map_values(|pair: (String, Option<String>)| (pair.0@, opt_text(pair.1)))
}

/// Positions as mathematical values.
pub open spec fn positions(list: Seq<usize>) -> Seq<int> {
    list.map_values(|i: usize| i as int)
}

/// `order` holds the positions below `n` of the archives, the oldest first.
spec fn is_age_order(order: Seq<usize>, files: Seq<LocalFileView>, n: int) -> bool {
    &&& order.len() == archive_count(files.take(n))
    &&& forall|k: int|
        0 <= k < order.len() ==> is_archive(files, #[trigger] order[k] as int) && order[k] < n
    &&& forall|k: int, m: int|
        0 <= k < m < order.len() ==> is_older(
            files,
            #[trigger] order[k] as int,
            #[trigger] order[m] as int,
        )
    &&& forall|i: int| 0 <= i < n && #[trigger] is_archive(files, i) ==> order.contains(i as usize)
}

/// Whether `name` is that of an archive that counts for retention.
pub fn counts_for_retention(name: &str) -> (yes: bool)
    ensures
        yes == is_retained_name(name@),
{
    starts_with(name, "backup-") && ends_with(name, ".tar.gz")
}

/// Puts the file at position `i` in its place by age.
fn insert_by_age(order: &mut Vec<usize>, files: &Vec<LocalFile>, i: usize)
    requires
        i < files@.len(),
        is_age_order(old(order)@, file_views(files@), i as int),
        is_archive(file_views(files@), i as int),
    ensures
        is_age_order(final(order)@, file_views(files@), i + 1),
{
    let ghost views = file_views(files@);
    let ghost before = order@;
    let mut at: usize = order.len();
    while at > 0 && files[i].modified < files[order[at - 1]].modified
        invariant
            at <= order.len(),
            i < files@.len(),
            order@ == before,
            views == file_views(files@),
            is_age_order(before, views, i as int),
            forall|k: int|
                at <= k < before.len() ==> views[i as int].modified < views[#[trigger] before[k] as int].modified,
        decreases at,
    {
        assert(is_archive(views, before[at - 1] as int));
        assert(views[before[at - 1] as int].modified == files@[before[at - 1] as int].modified);
        at -= 1;
    }
    proof {
        if at > 0 {
            assert(is_archive(views, before[at - 1] as int));
        }
        assert forall|k: int| 0 <= k < at implies is_older(
            views,
            #[trigger] before[k] as int,
            i as int,
        ) by {
            assert(is_archive(views, before[k] as int));
            if k < at - 1 {
                assert(is_older(views, before[k] as int, before[at - 1] as int));
            }
        }
    }
    order.insert(at, i);
    proof {
        let after = order@;
        assert(after =~= before.insert(at as int, i));
        assert(views.take(i + 1).drop_last() =~= views.take(i as int));
        assert(views.take(i + 1).last() == views[i as int]);
        assert forall|k: int| 0 <= k < after.len() implies is_archive(
            views,
            #[trigger] after[k] as int,
        ) && after[k] < i + 1 by {
            if k < at {
                assert(after[k] == before[k]);
            } else if k > at {
                assert(after[k] == before[k - 1]);
            }
        }
        assert forall|k: int, m: int| 0 <= k < m < after.len() implies is_older(
            views,
            #[trigger] after[k] as int,
            #[trigger] after[m] as int,
        ) by {
            if k != at {
                assert(after[k] == before[if k < at { k } else { k - 1 }]);
            }
            if m != at {
                assert(after[m] == before[if m < at { m } else { m - 1 }]);
            }
        }
        assert forall|j: int| 0 <= j < i + 1 && #[trigger] is_archive(
            views,
            j,
        ) implies after.contains(j as usize) by {
            if j == i {
                assert(after[at as int] == i);
            } else {
                assert(before.contains(j as usize));
                let k = choose|k: int| 0 <= k < before.len() && before[k] == j as usize;
                if k < at {
                    assert(after[k] == before[k]);
                } else {
                    assert(after[k + 1] == before[k]);
                }
            }
        }
    }
}

/// The positions of the archives to remove, the oldest first.
pub fn prune_plan(files: &Vec<LocalFile>, keep_last: usize) -> (removals: Vec<usize>)
    ensures
        is_prune_plan(positions(removals@), file_views(files@), keep_last as nat),
        positions(removals@) == planned(file_views(files@), keep_last as nat),
{
    let ghost views = file_views(files@);
    if keep_last == 0 {
        let none: Vec<usize> = Vec::new();
        proof {
            assert(is_prune_plan(positions(none@), views, 0));
            law_plan_is_unique(positions(none@), planned(views, 0), views, 0);
        }
        return none;
    }
    let mut order: Vec<usize> = Vec::new();
    let mut i: usize = 0;
    while i < files.len()
        invariant
            i <= files.len(),
            views == file_views(files@),
            is_age_order(order@, views, i as int),
        decreases files.len() - i,
    {
        assert(views[i as int].name == files@[i as int].name@);
        assert(views.take(i + 1).drop_last() =~= views.take(i as int));
        assert(views.take(i + 1).last() == views[i as int]);
        if counts_for_retention(files[i].name.as_str()) {
            insert_by_age(&mut order, files, i);
        }
        i += 1;
    }
    assert(views.take(views.len() as int) =~= views);
    let ghost all = order@;
    let excess: usize = if order.len() > keep_last {
        order.len() - keep_last
    } else {
        0
    };
    order.truncate(excess);
    proof {
        let removals = positions(order@);
        assert(order@ =~= all.take(excess as int));
        assert forall|k: int, j: int|
            0 <= k < removals.len() && #[trigger] is_archive(views, j) && !removals.contains(
                j,
            ) implies is_older(views, #[trigger] removals[k], j) by {
            assert(all.contains(j as usize));
            let m = choose|m: int| 0 <= m < all.len() && all[m] == j as usize;
            if m < excess {
                assert(removals[m] == j);
            }
            assert(removals[k] == all[k]);
            assert(is_older(views, all[k] as int, all[m] as int));
        }
        assert forall|k: int| 0 <= k < removals.len() implies is_archive(
            views,
            #[trigger] removals[k],
        ) by {
            assert(removals[k] == all[k]);
        }
        assert forall|k: int, m: int| 0 <= k < m < removals.len() implies is_older(
            views,
            #[trigger] removals[k],
            #[trigger] removals[m],
        ) by {
            assert(removals[k] == all[k] && removals[m] == all[m]);
        }
        assert(is_prune_plan(removals, views, keep_last as nat));
        law_plan_is_unique(removals, planned(views, keep_last as nat), views, keep_last as nat);
    }
    order
}

/// The paths of the archives to remove from the directory `dir`, the oldest
/// first, each with that of its checksum file, which goes with it.
pub fn prune_paths(dir: &str, files: &Vec<LocalFile>, keep_last: usize) -> (res: Vec<
    (String, Option<String>),
>)
    ensures
        path_views(res@) == removed_paths(
            dir@,
            file_views(files@),
            planned(file_views(files@), keep_last as nat),
        ),
        is_prune_plan(
            planned(file_views(files@), keep_last as nat),
            file_views(files@),
            keep_last as nat,
        ),
        res@.len() == planned(file_views(files@), keep_last as nat).len(),
        forall|k: int|
            0 <= k < res@.len() ==> {
                let path = join_path(
                    dir@,
                    files@[planned(file_views(files@), keep_last as nat)[k]].name@,
                );
                &&& (#[trigger] res@[k]).0@ == path
                &&& match res@[k].1 {
                    Some(beside) => sibling(path, ".sha256"@) == Some(beside@),
                    None => sibling(path, ".sha256"@) is None,
                }
            },
{
    let ghost views = file_views(files@);
    let plan = prune_plan(files, keep_last);
    let ghost wanted = removed_paths(dir@, views, positions(plan@));
    let mut res: Vec<(String, Option<String>)> = Vec::new();
    let mut k: usize = 0;
    while k < plan.len()
        invariant
            k <= plan.len(),
            views == file_views(files@),
            wanted == removed_paths(dir@, views, positions(plan@)),
            forall|m: int|
                0 <= m < positions(plan@).len() ==> is_archive(
                    views,
                    #[trigger] positions(plan@)[m],
                ),
            path_views(res@) == wanted.take(k as int),
        decreases plan.len() - k,
    {
        assert(is_archive(views, positions(plan@)[k as int]));
        let path = path_in(dir, files[plan[k]].name.as_str());
        let beside = match sibling_path_with_suffix(path.as_str(), ".sha256") {
            Ok(beside) => Some(beside),
            Err(_) => None,
        };
        let ghost done = res@;
        assert(wanted[k as int] == (path@, opt_text(beside)));
        res.push((path, beside));
        assert(path_views(res@) =~= path_views(done).push(wanted[k as int]));
        assert(path_views(res@) =~= wanted.take(k + 1));
        k += 1;
    }
    assert(wanted.take(wanted.len() as int) =~= wanted);
    assert forall|k: int| 0 <= k < res@.len() implies {
        let path = join_path(dir@, files@[positions(plan@)[k]].name@);
        &&& (#[trigger] res@[k]).0@ == path
        &&& match res@[k].1 {
            Some(beside) => sibling(path, ".sha256"@) == Some(beside@),
            None => sibling(path, ".sha256"@) is None,
        }
    } by {
        assert(is_archive(views, positions(plan@)[k]));
        assert(path_views(res@)[k] == wanted[k]);
    }
    res
}

/// Pruning removes the file at `path`, as an archive or as a checksum file.
pub open spec fn is_removed(
    path: Seq<char>,
    dir: Seq<char>,
    files: Seq<LocalFileView>,
    removals: Seq<int>,
) -> bool {
    exists|k: int|
        0 <= k < removals.len() && ((#[trigger] removed_paths(dir, files, removals)[k]).0 == path
            || removed_paths(dir, files, removals)[k].1 == Some(path))
}

/// Every file has a name that a file can have, and no two have the same one.
pub open spec fn is_directory(files: Seq<LocalFileView>) -> bool {
    &&& forall|i: int| 0 <= i < files.len() ==> is_file_name(#[trigger] files[i].name)
    &&& forall|i: int, j: int|
        0 <= i < j < files.len() ==> #[trigger] files[i].name != #[trigger] files[j].name
}

/// What goes with the archive at position `i` of a directory.
proof fn lemma_removed_pair(dir: Seq<char>, files: Seq<LocalFileView>, i: int)
    requires
        is_directory(files),
        is_archive(files, i),
    ensures
        file_name(archive_path(dir, files, i)) == Some(files[i].name),
        parent(archive_path(dir, files, i)) == normal_end(dir),
        sibling(archive_path(dir, files, i), ".sha256"@) matches Some(beside) && file_name(beside)
            == Some(files[i].name + ".sha256"@) && parent(beside) == normal_end(dir),
{
    reveal_strlit(".sha256");
    law_file_lies_in_directory(dir, files[i].name);
    law_sibling_lies_beside(archive_path(dir, files, i), ".sha256"@);
}

/// The checksum file of a pruned archive goes with it: both are removed, and
/// the one lies beside the other in the backup directory.
pub proof fn law_checksum_goes_with_its_archive(
    dir: Seq<char>,
    files: Seq<LocalFileView>,
    removals: Seq<int>,
    keep_last: nat,
    i: int,
)
    requires
        is_directory(files),
        is_prune_plan(removals, files, keep_last),
        removals.contains(i),
    ensures
        is_removed(archive_path(dir, files, i), dir, files, removals),
        sibling(archive_path(dir, files, i), ".sha256"@) matches Some(beside) && is_removed(
            beside,
            dir,
            files,
            removals,
        ) && parent(beside) == normal_end(dir) && file_name(beside) == Some(
            files[i].name + ".sha256"@,
        ),
{
    let k = choose|k: int| 0 <= k < removals.len() && removals[k] == i;
    assert(is_archive(files, removals[k]));
    lemma_removed_pair(dir, files, i);
    assert(removed_paths(dir, files, removals)[k].0 == archive_path(dir, files, i));
}

/// Pruning leaves every other file alone: what it removes has the name of a
/// pruned archive, or that name with `.sha256` at its end.
pub proof fn law_pruning_spares_other_files(
    path: Seq<char>,
    dir: Seq<char>,
    files: Seq<LocalFileView>,
    removals: Seq<int>,
    keep_last: nat,
)
    requires
        is_directory(files),
        is_prune_plan(removals, files, keep_last),
        is_removed(path, dir, files, removals),
    ensures
        parent(path) == normal_end(dir),
        exists|i: int|
            #![trigger removals.contains(i)]
            removals.contains(i) && is_archive(files, i) && (file_name(path) == Some(files[i].name)
                || file_name(path) == Some(files[i].name + ".sha256"@)),
{
    let k = choose|k: int|
        0 <= k < removals.len() && ((#[trigger] removed_paths(dir, files, removals)[k]).0 == path
            || removed_paths(dir, files, removals)[k].1 == Some(path));
    let i = removals[k];
    assert(is_archive(files, i));
    assert(removals.contains(i));
    lemma_removed_pair(dir, files, i);
}

/// An archive that is kept stays with its checksum file.
pub proof fn law_kept_archives_keep_their_checksums(
    dir: Seq<char>,
    files: Seq<LocalFileView>,
    removals: Seq<int>,
    keep_last: nat,
    i: int,
)
    requires
        is_directory(files),
        is_prune_plan(removals, files, keep_last),
        is_archive(files, i),
        !removals.contains(i),
    ensures
        !is_removed(archive_path(dir, files, i), dir, files, removals),
        sibling(archive_path(dir, files, i), ".sha256"@) matches Some(beside) && !is_removed(
            beside,
            dir,
            files,
            removals,
        ),
{
    lemma_removed_pair(dir, files, i);
    let kept = files[i].name;
    let path = archive_path(dir, files, i);
    let beside = sibling(path, ".sha256"@).unwrap();
    if is_removed(path, dir, files, removals) {
        law_pruning_spares_other_files(path, dir, files, removals, keep_last);
        let j = choose|j: int|
            #![trigger removals.contains(j)]
            removals.contains(j) && is_archive(files, j) && (file_name(path) == Some(files[j].name)
                || file_name(path) == Some(files[j].name + ".sha256"@));
        lemma_checksum_name(kept, files[j].name);
        assert(kept == files[j].name);
        assert(files[i].name == files[j].name && i != j);
    }
    if is_removed(beside, dir, files, removals) {
        law_pruning_spares_other_files(beside, dir, files, removals, keep_last);
        let j = choose|j: int|
            #![trigger removals.contains(j)]
            removals.contains(j) && is_archive(files, j) && (file_name(beside) == Some(
                files[j].name,
            ) || file_name(beside) == Some(files[j].name + ".sha256"@));
        lemma_checksum_name(files[j].name, kept);
        assert(kept + ".sha256"@ == files[j].name + ".sha256"@);
        assert(kept =~= (kept + ".sha256"@).take(kept.len() as int));
        assert(files[j].name =~= (files[j].name + ".sha256"@).take(files[j].name.len() as int));
        assert(files[i].name == files[j].name && i != j);
    }
}

/// No archive that counts for retention has the name of a checksum file.
proof fn lemma_checksum_name(archive: Seq<char>, other: Seq<char>)
    requires
        is_retained_name(archive),
    ensures
        archive != other + ".sha256"@,
{
    reveal_strlit(".sha256");
    reveal_strlit(".tar.gz");
    let n = archive.len() as int;
    assert(archive.subrange(n - 7, n) == ".tar.gz"@);
    assert(archive[n - 1] == archive.subrange(n - 7, n)[6]);
    if archive == other + ".sha256"@ {
        assert(archive[n - 1] == '6');
    }
}

/// The number of archives below position `n` that a plan does not remove.
pub open spec fn kept_count(files: Seq<LocalFileView>, removals: Seq<int>, n: nat) -> nat
    decreases n,
{
    if n == 0 {
        0
    } else if is_archive(files, n - 1) && !removals.contains(n - 1) {
        kept_count(files, removals, (n - 1) as nat) + 1
    } else {
        kept_count(files, removals, (n - 1) as nat)
    }
}

/// Below position `n`, what is kept and what is removed are the archives.
proof fn lemma_kept_and_removed(files: Seq<LocalFileView>, removals: Seq<int>, n: nat)
    requires
        n <= files.len(),
        forall|k: int| 0 <= k < removals.len() ==> is_archive(files, #[trigger] removals[k]),
    ensures
        removals.to_set().filter(|i: int| i < n).finite(),
        kept_count(files, removals, n) + removals.to_set().filter(|i: int| i < n).len()
            == archive_count(files.take(n as int)),
    decreases n,
{
    vstd::seq_lib::seq_to_set_is_finite(removals);
    let below = removals.to_set().filter(|i: int| i < n);
    assert(below.subset_of(removals.to_set()));
    if n == 0 {
        assert forall|i: int| !#[trigger] below.contains(i) by {
            if below.contains(i) {
                let k = choose|k: int| 0 <= k < removals.len() && removals[k] == i;
                assert(is_archive(files, removals[k]));
            }
        }
        assert(below =~= Set::empty());
    } else {
        let m = (n - 1) as nat;
        lemma_kept_and_removed(files, removals, m);
        let less = removals.to_set().filter(|i: int| i < m);
        assert(files.take(n as int).drop_last() =~= files.take(m as int));
        assert(files.take(n as int).last() == files[m as int]);
        if removals.contains(m as int) {
            let k = choose|k: int| 0 <= k < removals.len() && removals[k] == m;
            assert(is_archive(files, removals[k]));
            assert(below =~= less.insert(m as int));
        } else {
            assert(below =~= less);
        }
    }
}

/// A plan removes nothing but archives, keeps the latest ones, and keeps
/// exactly `keep_last` of them, or all where there are no more.
pub proof fn law_latest_archives_stay(
    removals: Seq<int>,
    files: Seq<LocalFileView>,
    keep_last: nat,
)
    requires
        is_prune_plan(removals, files, keep_last),
        keep_last > 0,
    ensures
        kept_count(files, removals, files.len()) == if archive_count(files) < keep_last {
            archive_count(files)
        } else {
            keep_last
        },
        forall|k: int, i: int|
            0 <= k < removals.len() && #[trigger] is_archive(files, i) && !removals.contains(i)
                ==> files[#[trigger] removals[k]].modified <= files[i].modified,
        forall|i: int| #[trigger] removals.contains(i) ==> is_archive(files, i),
{
    let n = files.len();
    lemma_kept_and_removed(files, removals, n);
    assert(files.take(n as int) =~= files);
    assert(removals.no_duplicates()) by {
        assert forall|k: int, m: int|
            0 <= k < removals.len() && 0 <= m < removals.len() && k != m implies removals[k]
            != removals[m] by {
            if k < m {
                assert(is_older(files, removals[k], removals[m]));
            } else {
                assert(is_older(files, removals[m], removals[k]));
            }
        }
    }
    removals.unique_seq_to_set();
    let below = removals.to_set().filter(|i: int| i < n);
    assert forall|i: int| #[trigger] removals.contains(i) implies is_archive(files, i) by {
        let k = choose|k: int| 0 <= k < removals.len() && removals[k] == i;
        assert(is_archive(files, removals[k]));
    }
    assert(below =~= removals.to_set());
}

/// The files below position `n` that a plan leaves, in their order.
pub open spec fn remaining(
    files: Seq<LocalFileView>,
    removals: Seq<int>,
    n: nat,
) -> Seq<LocalFileView>
    decreases n,
{
    if n == 0 {
        Seq::empty()
    } else {
        let before = remaining(files, removals, (n - 1) as nat);
        if removals.contains(n - 1) {
            before
        } else {
            before.push(files[n - 1])
        }
    }
}

/// The archives among the files that a plan leaves are those it keeps.
proof fn lemma_remaining_archives(files: Seq<LocalFileView>, removals: Seq<int>, n: nat)
    requires
        n <= files.len(),
    ensures
        archive_count(remaining(files, removals, n)) == kept_count(files, removals, n),
    decreases n,
{
    if n > 0 {
        let m = (n - 1) as nat;
        lemma_remaining_archives(files, removals, m);
        let before = remaining(files, removals, m);
        if !removals.contains(m as int) {
            assert(before.push(files[m as int]).drop_last() =~= before);
        }
    }
}

/// The names of the archives that count for retention.
pub open spec fn archive_names(files: Seq<LocalFileView>) -> Set<Seq<char>> {
    Set::new(|name: Seq<char>| exists|i: int| #[trigger] is_archive(files, i) && files[i].name == name)
}

/// In a directory there are as many archives as names of them.
proof fn lemma_archives_by_name(files: Seq<LocalFileView>)
    requires
        is_directory(files),
    ensures
        archive_names(files).finite(),
        archive_names(files).len() == archive_count(files),
    decreases files.len(),
{
    if files.len() == 0 {
        assert(archive_names(files) =~= Set::empty());
    } else {
        let front = files.drop_last();
        let n = files.len() - 1;
        assert forall|i: int| 0 <= i < front.len() implies #[trigger] front[i] == files[i] by {}
        lemma_archives_by_name(front);
        let fewer = archive_names(front);
        let all = archive_names(files);
        assert forall|name: Seq<char>| #[trigger] all.contains(name) <==> fewer.contains(name) || (
        is_archive(files, n) && name == files[n].name) by {
            if fewer.contains(name) {
                let i = choose|i: int| #[trigger] is_archive(front, i) && front[i].name == name;
                assert(is_archive(files, i));
            }
            if all.contains(name) {
                let i = choose|i: int| #[trigger] is_archive(files, i) && files[i].name == name;
                if i < n {
                    assert(is_archive(front, i));
                }
            }
        }
        if is_archive(files, n) {
            assert(!fewer.contains(files[n].name)) by {
                if fewer.contains(files[n].name) {
                    let i = choose|i: int| #[trigger]
                        is_archive(front, i) && front[i].name == files[n].name;
                    assert(files[i].name != files[n].name);
                }
            }
            assert(all =~= fewer.insert(files[n].name));
        } else {
            assert(all =~= fewer);
        }
    }
}

/// What a plan leaves of a directory is one.
proof fn lemma_remaining_directory(files: Seq<LocalFileView>, removals: Seq<int>, n: nat)
    requires
        is_directory(files),
        n <= files.len(),
    ensures
        is_directory(remaining(files, removals, n)),
        forall|m: int|
            0 <= m < remaining(files, removals, n).len() ==> exists|j: int|
                0 <= j < n && #[trigger] files[j] == #[trigger] remaining(files, removals, n)[m],
    decreases n,
{
    if n > 0 {
        let before = remaining(files, removals, (n - 1) as nat);
        let after = remaining(files, removals, n);
        lemma_remaining_directory(files, removals, (n - 1) as nat);
        assert forall|m: int| 0 <= m < after.len() implies exists|j: int|
            0 <= j < n && #[trigger] files[j] == #[trigger] after[m] by {
            if m < before.len() {
                assert(after[m] == before[m]);
                let j = choose|j: int| 0 <= j < n - 1 && #[trigger] files[j] == before[m];
                assert(files[j] == after[m]);
            } else {
                assert(files[n - 1] == after[m]);
            }
        }
        assert forall|i: int| 0 <= i < after.len() implies is_file_name(
            #[trigger] after[i].name,
        ) by {
            let j = choose|j: int| 0 <= j < n && #[trigger] files[j] == after[i];
            assert(is_file_name(files[j].name));
        }
        assert forall|i: int, k: int| 0 <= i < k < after.len() implies #[trigger] after[i].name
            != #[trigger] after[k].name by {
            assert(after[i] == before[i]);
            if k < before.len() {
                assert(after[k] == before[k]);
            } else {
                let j = choose|j: int| 0 <= j < n - 1 && #[trigger] files[j] == before[i];
                assert(files[j].name != files[n - 1].name);
            }
        }
    }
}

/// A directory listed again after pruning holds as many archives as were kept,
/// in whatever order it is listed and whatever other files it holds, as long as
/// its archives are those that pruning left.
pub proof fn law_listing_after_pruning(
    removals: Seq<int>,
    files: Seq<LocalFileView>,
    again: Seq<LocalFileView>,
)
    requires
        is_directory(files),
        is_directory(again),
        archive_names(again) == archive_names(remaining(files, removals, files.len())),
    ensures
        archive_count(again) == kept_count(files, removals, files.len()),
{
    lemma_remaining_directory(files, removals, files.len());
    lemma_archives_by_name(again);
    lemma_archives_by_name(remaining(files, removals, files.len()));
    lemma_remaining_archives(files, removals, files.len());
}

/// Pruning is done at once: a listing that holds as many archives as were kept
/// leaves nothing to prune.
pub proof fn law_pruning_twice_changes_nothing(
    first: Seq<int>,
    second: Seq<int>,
    files: Seq<LocalFileView>,
    again: Seq<LocalFileView>,
    keep_last: nat,
)
    requires
        is_prune_plan(first, files, keep_last),
        archive_count(again) == kept_count(files, first, files.len()),
        is_prune_plan(second, again, keep_last),
    ensures
        second.len() == 0,
{
    if keep_last > 0 {
        law_latest_archives_stay(first, files, keep_last);
    }
}

/// With a retention of zero nothing is removed.
pub proof fn law_zero_keeps_all(removals: Seq<int>, files: Seq<LocalFileView>)
    requires
        is_prune_plan(removals, files, 0),
    ensures
        removals.len() == 0,
{
}

/// There is only one plan.
pub proof fn law_plan_is_unique(
    first: Seq<int>,
    second: Seq<int>,
    files: Seq<LocalFileView>,
    keep_last: nat,
)
    requires
        is_prune_plan(first, files, keep_last),
        is_prune_plan(second, files, keep_last),
    ensures
        first == second,
{
    lemma_plans_agree(first, second, files, keep_last, first.len());
    assert(first =~= second);
}

/// Two plans agree on their first `n` removals.
proof fn lemma_plans_agree(
    first: Seq<int>,
    second: Seq<int>,
    files: Seq<LocalFileView>,
    keep_last: nat,
    n: nat,
)
    requires
        is_prune_plan(first, files, keep_last),
        is_prune_plan(second, files, keep_last),
        n <= first.len(),
    ensures
        forall|k: int| 0 <= k < n ==> #[trigger] first[k] == second[k],
    decreases n,
{
    if n > 0 {
        let k = n - 1;
        lemma_plans_agree(first, second, files, keep_last, k as nat);
        assert(is_archive(files, first[k]));
        assert(is_archive(files, second[k]));
        if first[k] != second[k] {
            lemma_later_removal(first, second, files, keep_last, k);
            lemma_later_removal(second, first, files, keep_last, k);
        }
    }
}

/// Where two plans part, the removal of the one is older than that of the other.
proof fn lemma_later_removal(
    first: Seq<int>,
    second: Seq<int>,
    files: Seq<LocalFileView>,
    keep_last: nat,
    k: int,
)
    requires
        is_prune_plan(first, files, keep_last),
        is_prune_plan(second, files, keep_last),
        0 <= k < first.len(),
        first[k] != second[k],
        forall|j: int| 0 <= j < k ==> #[trigger] first[j] == second[j],
    ensures
        is_older(files, second[k], first[k]),
{
    assert(is_archive(files, first[k]));
    if second.contains(first[k]) {
        let m = choose|m: int| 0 <= m < second.len() && second[m] == first[k];
        if m < k {
            assert(first[m] == second[m]);
            assert(is_older(files, first[m], first[k]));
        }
        assert(is_older(files, second[k], second[m]));
    }
}

/// The archives that count for retention begin with `backup-` and end in
/// `.tar.gz`.
pub proof fn law_retained_names(name: Seq<char>)
    ensures
        is_retained_name(name) <==> name.len() >= 7 && name.take(7) == "backup-"@ && name.skip(
            name.len() - 7,
        ) == ".tar.gz"@,
{
    reveal_strlit("backup-");
    reveal_strlit(".tar.gz");
    if name.len() >= 7 {
        assert(name.take(7) =~= name.subrange(0, 7));
        assert(name.skip(name.len() - 7) =~= name.subrange(name.len() - 7, name.len() as int));
    }
}

/// As many archives go as there are more than are to be kept, counted in the
/// listing; none go where all are to be kept.
pub proof fn law_excess_archives_go(removals: Seq<int>, files: Seq<LocalFileView>, keep_last: nat)
    requires
        is_prune_plan(removals, files, keep_last),
    ensures
        ({
            let archives = Set::new(
                |i: int| 0 <= i < files.len() && is_retained_name(files[i].name),
            );
            &&& archives.finite()
            &&& keep_last == 0 ==> removals.len() == 0
            &&& keep_last > 0 && archives.len() <= keep_last ==> removals.len() == 0
            &&& keep_last > 0 && archives.len() > keep_last ==> removals.len() + keep_last
                == archives.len()
        }),
{
    lemma_archives_by_position(files);
}

/// The archives of a listing are counted by their positions.
proof fn lemma_archives_by_position(files: Seq<LocalFileView>)
    ensures
        Set::new(|i: int| 0 <= i < files.len() && is_retained_name(files[i].name)).finite(),
        Set::new(|i: int| 0 <= i < files.len() && is_retained_name(files[i].name)).len()
            == archive_count(files),
    decreases files.len(),
{
    let all = Set::new(|i: int| 0 <= i < files.len() && is_retained_name(files[i].name));
    if files.len() == 0 {
        assert(all =~= Set::empty());
    } else {
        let front = files.drop_last();
        let n = files.len() - 1;
        lemma_archives_by_position(front);
        let fewer = Set::new(|i: int| 0 <= i < front.len() && is_retained_name(front[i].name));
        assert forall|i: int| 0 <= i < n implies #[trigger] front[i] == files[i] by {}
        if is_retained_name(files[n].name) {
            assert(all =~= fewer.insert(n));
        } else {
            assert(all =~= fewer);
        }
    }
}

/// The oldest archives go, the oldest first: none that stays was modified before
/// one that goes, and of two that were modified at the same time the one that is
/// listed first goes first. Nothing but archives goes, and none twice.
pub proof fn law_oldest_archives_go_first(
    removals: Seq<int>,
    files: Seq<LocalFileView>,
    keep_last: nat,
    k: int,
    i: int,
)
    requires
        is_prune_plan(removals, files, keep_last),
        0 <= k < removals.len(),
    ensures
        0 <= removals[k] < files.len(),
        is_retained_name(files[removals[k]].name),
        k < i < removals.len() ==> {
            ||| files[removals[k]].modified < files[removals[i]].modified
            ||| files[removals[k]].modified == files[removals[i]].modified && removals[k]
                < removals[i]
        },
        0 <= i < files.len() && is_retained_name(files[i].name) && !removals.contains(i) ==> {
            ||| files[removals[k]].modified < files[i].modified
            ||| files[removals[k]].modified == files[i].modified && removals[k] < i
        },
{
    assert(is_archive(files, removals[k]));
    if k < i < removals.len() {
        assert(is_older(files, removals[k], removals[i]));
    }
    if is_archive(files, i) && !removals.contains(i) {
        assert(is_older(files, removals[k], i));
    }
}

/// What goes from a plain directory: of each removal the path of the archive, and
/// the same path with `.sha256` at its end.
pub proof fn law_removed_paths_in_a_plain_directory(
    dir: Seq<char>,
    files: Seq<LocalFileView>,
    removals: Seq<int>,
    k: int,
)
    requires
        dir.len() > 0,
        dir.last() != '/',
        dir.last() != '.',
        0 <= k < removals.len(),
        is_file_name(files[removals[k]].name),
    ensures
        removed_paths(dir, files, removals).len() == removals.len(),
        removed_paths(dir, files, removals)[k] == (
            dir + seq!['/'] + files[removals[k]].name,
            Some(dir + seq!['/'] + files[removals[k]].name + ".sha256"@),
        ),
{
    reveal_strlit(".sha256");
    law_paths_in_a_plain_directory(dir, files[removals[k]].name, ".sha256"@);
}

/// A file stands for its name and the time of its last change.
pub proof fn law_files_stand_for_themselves(files: Seq<LocalFile>, i: int)
    requires
        0 <= i < files.len(),
    ensures
        file_views(files).len() == files.len(),
        file_views(files)[i].name == files[i].name@,
        file_views(files)[i].modified == files[i].modified,
{
}

/// Positions stand for themselves.
pub proof fn law_positions_stand_for_themselves(list: Seq<usize>, k: int)
    requires
        0 <= k < list.len(),
    ensures
        positions(list).len() == list.len(),
        positions(list)[k] == list[k],
{
}

} // verus!
