//! Slash-separated paths as texts.

use vstd::prelude::*;

use crate::text::{same_text, to_chars};

verus! {

/// `path` without the separators and the `.` components at its end. The
/// separator of a bare root stays.
pub open spec fn normal_end(path: Seq<char>) -> Seq<char>
    decreases path.len(),
{
    if path.len() > 1 && path.last() == '/' {
        normal_end(path.drop_last())
    } else if path.len() > 1 && path.last() == '.' && path[path.len() - 2] == '/' {
        normal_end(path.drop_last())
    } else {
        path
    }
}

/// Where the part after the last separator begins.
pub open spec fn name_start(path: Seq<char>) -> nat
    decreases path.len(),
{
    if path.len() == 0 || path.last() == '/' {
        path.len()
    } else {
        name_start(path.drop_last())
    }
}

/// A text that can be the name of a file in a directory.
pub open spec fn is_file_name(name: Seq<char>) -> bool {
    name.len() > 0 && name != "."@ && name != ".."@ && !name.contains('/')
}

/// The last component of a path, where it is the name of a file.
pub open spec fn file_name(path: Seq<char>) -> Option<Seq<char>> {
    let end = normal_end(path);
    let name = end.skip(name_start(end) as int);
    if is_file_name(name) {
        Some(name)
    } else {
        None
    }
}

/// The path without its last component.
pub open spec fn parent(path: Seq<char>) -> Seq<char> {
    let end = normal_end(path);
    normal_end(end.take(name_start(end) as int))
}

/// `name` looked up from the directory `dir`.
pub open spec fn join_path(dir: Seq<char>, name: Seq<char>) -> Seq<char> {
    if name.len() > 0 && name.first() == '/' {
        name
    } else if dir.len() == 0 || dir.last() == '/' {
        dir + name
    } else {
        dir.push('/') + name
    }
}

/// The path of the file beside `path` whose name has `suffix` at its end.
pub open spec fn sibling(path: Seq<char>, suffix: Seq<char>) -> Option<Seq<char>> {
    match file_name(path) {
        Some(name) => Some(join_path(parent(path), name + suffix)),
        None => None,
    }
}

/// A path that does not end in the name of a file.
#[derive(Debug, PartialEq, Eq)]
pub struct InvalidFilename {
    pub path: String,
}

/// The message that reports a path without the name of a file.
pub open spec fn invalid_filename_text(path: Seq<char>) -> Seq<char> {
    "invalid filename "@ + path
}

impl InvalidFilename {
    /// The message that reports the path.
    pub fn message(&self) -> (res: String)
        ensures
            res@ == invalid_filename_text(self.path@),
    {
        let mut res = "invalid filename ".to_owned();
        res.append(self.path.as_str());
        res
    }
}

/// The length of `chars[..to]` without the separators and `.` components at its end.
fn normal_len(chars: &Vec<char>, to: usize) -> (res: usize)
    requires
        to <= chars@.len(),
    ensures
        res <= to,
        normal_end(chars@.take(to as int)) == chars@.take(res as int),
{
    let mut len: usize = to;
    while len > 1 && (chars[len - 1] == '/' || (chars[len - 1] == '.' && chars[len - 2] == '/'))
        invariant
            len <= to <= chars@.len(),
            normal_end(chars@.take(to as int)) == normal_end(chars@.take(len as int)),
        decreases len,
    {
        assert(chars@.take(len as int).drop_last() =~= chars@.take(len - 1));
        len -= 1;
    }
    len
}

/// Where the part of `chars[..to]` after the last separator begins.
fn start_of_name(chars: &Vec<char>, to: usize) -> (res: usize)
    requires
        to <= chars@.len(),
    ensures
        res <= to,
        res == name_start(chars@.take(to as int)),
        forall|i: int| res <= i < to ==> #[trigger] chars@[i] != '/',
{
    let mut start: usize = to;
    while start > 0 && chars[start - 1] != '/'
        invariant
            start <= to <= chars@.len(),
            name_start(chars@.take(to as int)) == name_start(chars@.take(start as int)),
            forall|i: int| start <= i < to ==> #[trigger] chars@[i] != '/',
        decreases start,
    {
        assert(chars@.take(start as int).drop_last() =~= chars@.take(start - 1));
        start -= 1;
    }
    start
}

/// Where the last component of a path stands, where it is the name of a file.
fn locate_name(path: &str) -> (res: Option<(usize, usize)>)
    ensures
        match res {
            Some((start, end)) => {
                &&& start <= end <= path@.len()
                &&& normal_end(path@) == path@.take(end as int)
                &&& name_start(normal_end(path@)) == start
                &&& file_name(path@) == Some(path@.subrange(start as int, end as int))
            },
            None => file_name(path@) is None,
        },
{
    let chars = to_chars(path);
    assert(chars@.take(chars@.len() as int) =~= path@);
    let end = normal_len(&chars, chars.len());
    let start = start_of_name(&chars, end);
    let name = path.substring_char(start, end);
    let ghost whole = path@.take(end as int);
    assert(whole.skip(start as int) =~= name@);
    assert(!name@.contains('/')) by {
        assert forall|i: int| 0 <= i < name@.len() implies name@[i] != '/' by {
            assert(name@[i] == chars@[start + i]);
        }
    }
    if name.is_empty() || same_text(name, ".") || same_text(name, "..") {
        None
    } else {
        Some((start, end))
    }
}

/// The last component of a path, where it is the name of a file.
pub fn base_name(path: &str) -> (res: Option<String>)
    ensures
        match res {
            Some(name) => file_name(path@) == Some(name@),
            None => file_name(path@) is None,
        },
{
    match locate_name(path) {
        Some((start, end)) => Some(path.substring_char(start, end).to_owned()),
        None => None,
    }
}

/// `name` looked up from the directory `dir`.
pub fn path_in(dir: &str, name: &str) -> (res: String)
    ensures
        res@ == join_path(dir@, name@),
{
    let tail = to_chars(name);
    if tail.len() > 0 && tail[0] == '/' {
        return name.to_owned();
    }
    let head = to_chars(dir);
    let mut res = dir.to_owned();
    if head.len() > 0 && head[head.len() - 1] != '/' {
        res.push('/');
    }
    res.append(name);
    res
}

/// The path of the file beside `path` whose name has `suffix` at its end;
/// an error where `path` does not end in the name of a file.
pub fn sibling_path_with_suffix(path: &str, suffix: &str) -> (res: Result<
    String,
    InvalidFilename,
>)
    ensures
        match res {
            Ok(beside) => sibling(path@, suffix@) == Some(beside@),
            Err(error) => sibling(path@, suffix@) is None && error.path@ == path@,
        },
{
    match locate_name(path) {
        Some((start, end)) => {
            let chars = to_chars(path);
            let len = normal_len(&chars, start);
            assert(path@.take(end as int).take(start as int) =~= path@.take(start as int));
            assert(path@.subrange(0, len as int) =~= path@.take(len as int));
            let mut name = path.substring_char(start, end).to_owned();
            name.append(suffix);
            Ok(path_in(path.substring_char(0, len), name.as_str()))
        },
        None => Err(InvalidFilename { path: path.to_owned() }),
    }
}

/// What precedes a name does not matter for where the name begins.
proof fn lemma_name_start(head: Seq<char>, name: Seq<char>)
    requires
        !name.contains('/'),
    ensures
        name_start(head + name) == name_start(head),
    decreases name.len(),
{
    if name.len() == 0 {
        assert(head + name =~= head);
    } else {
        let shorter = name.drop_last();
        assert(name[name.len() - 1] != '/');
        assert forall|i: int| 0 <= i < shorter.len() implies shorter[i] != '/' by {
            assert(name[i] != '/');
        }
        lemma_name_start(head, shorter);
        assert((head + name).drop_last() =~= head + shorter);
    }
}

/// A path that ends in a file name after a separator, or is one, splits there.
proof fn lemma_split_path(head: Seq<char>, name: Seq<char>)
    requires
        is_file_name(name),
        head.len() > 0 ==> head.last() == '/',
    ensures
        file_name(head + name) == Some(name),
        parent(head + name) == normal_end(head),
{
    reveal_strlit(".");
    reveal_strlit("..");
    let path = head + name;
    assert(name[name.len() - 1] != '/');
    assert(path.last() == name.last());
    if name.len() == 1 {
        assert(name.last() != '.') by {
            if name.last() == '.' {
                assert(name =~= "."@);
            }
        }
    } else {
        assert(name[name.len() - 2] != '/');
        assert(path[path.len() - 2] == name[name.len() - 2]);
    }
    assert(normal_end(path) == path);
    lemma_name_start(head, name);
    assert(name_start(head) == head.len());
    assert(path.skip(head.len() as int) =~= name);
    assert(path.take(head.len() as int) =~= head);
}

/// A file looked up from a directory lies in it: the last component of its
/// path is the name, and what is before it is the directory.
pub proof fn law_file_lies_in_directory(dir: Seq<char>, name: Seq<char>)
    requires
        is_file_name(name),
    ensures
        file_name(join_path(dir, name)) == Some(name),
        parent(join_path(dir, name)) == normal_end(dir),
{
    assert(name[0] != '/');
    if dir.len() == 0 || dir.last() == '/' {
        lemma_split_path(dir, name);
    } else {
        lemma_split_path(dir.push('/'), name);
        assert(dir.push('/').drop_last() =~= dir);
    }
}

/// The directory part of a path has no loose end.
proof fn lemma_normal_end_idempotent(path: Seq<char>)
    ensures
        normal_end(normal_end(path)) == normal_end(path),
    decreases path.len(),
{
    if path.len() > 1 && (path.last() == '/' || (path.last() == '.' && path[path.len() - 2]
        == '/')) {
        lemma_normal_end_idempotent(path.drop_last());
    }
}

/// The file beside another one lies in the same directory and has the longer name.
pub proof fn law_sibling_lies_beside(path: Seq<char>, suffix: Seq<char>)
    requires
        file_name(path) is Some,
        !suffix.contains('/'),
    ensures
        sibling(path, suffix) matches Some(beside) && file_name(beside) == Some(
            file_name(path).unwrap() + suffix,
        ) && parent(beside) == parent(path),
{
    reveal_strlit(".");
    reveal_strlit("..");
    let name = file_name(path).unwrap();
    let longer = name + suffix;
    assert forall|i: int| 0 <= i < longer.len() implies longer[i] != '/' by {
        if i < name.len() {
            assert(name[i] != '/');
        } else {
            assert(longer[i] == suffix[i - name.len()]);
            assert(suffix[i - name.len()] != '/');
        }
    }
    if longer == "."@ || longer == ".."@ {
        assert(longer[0] == name[0]);
        if name.len() == 1 {
            assert(name =~= "."@);
        } else {
            assert(name =~= longer);
        }
    }
    law_file_lies_in_directory(parent(path), longer);
    lemma_normal_end_idempotent(
        normal_end(path).take(name_start(normal_end(path)) as int),
    );
}

/// Looking up a name keeps the directory before it and the name after it, with a
/// separator between them where there was none; an absolute name stands alone.
pub proof fn law_lookup_keeps_both_parts(dir: Seq<char>, name: Seq<char>)
    ensures
        name.len() > 0 && name[0] == '/' ==> join_path(dir, name) == name,
        name.len() == 0 || name[0] != '/' ==> {
            let path = join_path(dir, name);
            &&& path.take(dir.len() as int) == dir
            &&& path.skip(path.len() - name.len()) == name
            &&& path.len() == dir.len() + name.len() + if dir.len() == 0 || dir.last() == '/' {
                0int
            } else {
                1
            }
            &&& path.len() > dir.len() + name.len() ==> path[dir.len() as int] == '/'
        },
{
    let path = join_path(dir, name);
    if name.len() == 0 || name[0] != '/' {
        assert(path.take(dir.len() as int) =~= dir);
        assert(path.skip(path.len() - name.len()) =~= name);
    }
}

/// In a directory whose path ends in neither a separator nor a dot, a file has
/// the path of the directory, a separator and its name, and the file beside it
/// has that path with the suffix at its end.
pub proof fn law_paths_in_a_plain_directory(dir: Seq<char>, name: Seq<char>, suffix: Seq<char>)
    requires
        dir.len() > 0,
        dir.last() != '/',
        dir.last() != '.',
        name.len() > 0,
        name != "."@,
        name != ".."@,
        !name.contains('/'),
        !suffix.contains('/'),
    ensures
        join_path(dir, name) == dir + seq!['/'] + name,
        file_name(dir + seq!['/'] + name) == Some(name),
        parent(dir + seq!['/'] + name) == dir,
        sibling(dir + seq!['/'] + name, suffix) == Some(dir + seq!['/'] + name + suffix),
{
    assert(name[0] != '/');
    assert(join_path(dir, name) =~= dir + seq!['/'] + name);
    law_file_lies_in_directory(dir, name);
    let longer = name + suffix;
    assert(longer[0] == name[0]);
    assert(join_path(dir, longer) =~= dir + seq!['/'] + name + suffix);
}

/// A file at the root, and one without a directory, lie beside what has the
/// suffix at the end of their path.
pub proof fn law_paths_at_the_root(name: Seq<char>, suffix: Seq<char>)
    requires
        name.len() > 0,
        name != "."@,
        name != ".."@,
        !name.contains('/'),
        !suffix.contains('/'),
    ensures
        join_path(seq!['/'], name) == seq!['/'] + name,
        join_path(Seq::empty(), name) == name,
        file_name(seq!['/'] + name) == Some(name),
        file_name(name) == Some(name),
        sibling(seq!['/'] + name, suffix) == Some(seq!['/'] + name + suffix),
        sibling(name, suffix) == Some(name + suffix),
{
    assert(name[0] != '/');
    assert(join_path(Seq::empty(), name) =~= name);
    law_file_lies_in_directory(seq!['/'], name);
    law_file_lies_in_directory(Seq::empty(), name);
    let longer = name + suffix;
    assert(longer[0] == name[0]);
    assert(join_path(seq!['/'], longer) =~= seq!['/'] + name + suffix);
    assert(join_path(Seq::empty(), longer) =~= name + suffix);
}

/// The name of a file in a path is what stands after the last separator, apart
/// from separators and single dots at the very end; where that is a step up, or
/// nothing, there is none.
pub proof fn law_file_name_is_the_last_part(path: Seq<char>, head: Seq<char>, name: Seq<char>)
    ensures
        file_name(path) matches Some(found) ==> {
            &&& found.len() > 0 && !found.contains('/') && found != "."@ && found != ".."@
            &&& exists|start: int, end: int|
                {
                    &&& 0 <= start < end <= path.len()
                    &&& #[trigger] path.subrange(start, end) == found
                    &&& start > 0 ==> path[start - 1] == '/'
                    &&& end < path.len() ==> path[end] == '/'
                    &&& forall|k: int|
                        end <= k < path.len() ==> #[trigger] path[k] == '/' || path[k] == '.'
                }
        },
        (head.len() == 0 || head.last() == '/') && name.len() > 0 && !name.contains('/') && name
            != "."@ && name != ".."@ ==> file_name(head + name) == Some(name),
        head.len() == 0 || head.last() == '/' ==> file_name(head + ".."@) is None,
        file_name(Seq::empty()) is None,
{
    reveal_strlit(".");
    reveal_strlit("..");
    if is_file_name(name) && (head.len() == 0 || head.last() == '/') {
        lemma_split_path(head, name);
    }
    if head.len() == 0 || head.last() == '/' {
        let up = head + ".."@;
        assert(up.last() == '.' && up[up.len() - 2] == '.');
        lemma_name_start(head, ".."@);
        assert(up.skip(head.len() as int) =~= ".."@);
    }
    if file_name(path) is Some {
        let found = file_name(path).unwrap();
        let end = lemma_normal_end(path);
        let short = path.take(end);
        lemma_name_start_bounds(short);
        let start = name_start(short) as int;
        assert(path.subrange(start, end) =~= short.skip(start));
        if start > 0 {
            assert(short[start - 1] == path[start - 1]);
        }
    }
}

/// What is cut from the end of a path are separators and dots.
proof fn lemma_normal_end(path: Seq<char>) -> (end: int)
    ensures
        0 <= end <= path.len(),
        normal_end(path) == path.take(end),
        end < path.len() ==> path[end] == '/' || (end > 0 && path[end - 1] == '/'),
        forall|k: int| end <= k < path.len() ==> #[trigger] path[k] == '/' || path[k] == '.',
        end > 1 ==> path[end - 1] != '/',
    decreases path.len(),
{
    if path.len() > 1 && (path.last() == '/' || (path.last() == '.' && path[path.len() - 2]
        == '/')) {
        let front = path.drop_last();
        let end = lemma_normal_end(front);
        assert(front.take(end) =~= path.take(end));
        assert forall|k: int| end <= k < path.len() implies #[trigger] path[k] == '/' || path[k]
            == '.' by {
            if k < front.len() {
                assert(front[k] == path[k]);
            }
        }
        if end < front.len() {
            assert(front[end] == path[end]);
        }
        if end > 0 {
            assert(front[end - 1] == path[end - 1]);
        }
        end
    } else {
        assert(path.take(path.len() as int) =~= path);
        path.len() as int
    }
}

/// What precedes a name, where anything does, is a separator.
proof fn lemma_name_start_bounds(path: Seq<char>)
    ensures
        name_start(path) <= path.len(),
        name_start(path) > 0 ==> path[name_start(path) - 1] == '/',
    decreases path.len(),
{
    if path.len() > 0 && path.last() != '/' {
        lemma_name_start_bounds(path.drop_last());
    }
}

/// Separators and single dots at the end of a path do not matter for the name of
/// the file, nor for what lies beside it.
pub proof fn law_loose_ends_do_not_matter(path: Seq<char>, suffix: Seq<char>)
    requires
        path.len() > 0,
    ensures
        file_name(path.push('/')) == file_name(path),
        file_name(path.push('/').push('.')) == file_name(path),
        sibling(path.push('/'), suffix) == sibling(path, suffix),
        sibling(path.push('/').push('.'), suffix) == sibling(path, suffix),
{
    let once = path.push('/');
    let twice = once.push('.');
    assert(once.drop_last() =~= path);
    assert(twice.drop_last() =~= once);
    assert(normal_end(once) == normal_end(path));
    assert(normal_end(twice) == normal_end(once));
}

/// The message of an invalid path tells the path.
pub proof fn law_invalid_filename_is_told(path: Seq<char>)
    ensures
        invalid_filename_text(path) == "invalid filename "@ + path,
{
}

} // verus!
