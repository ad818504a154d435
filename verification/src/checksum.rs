//! The checksum file that stands beside an archive.

use vstd::prelude::*;

use crate::paths::{
    base_name, file_name, is_file_name, join_path, law_file_lies_in_directory,
    law_paths_in_a_plain_directory, law_sibling_lies_beside, normal_end, parent, sibling,
    sibling_path_with_suffix,
};
use crate::text::{hex_char, hex_text};

verus! {

/// A line as `sha256sum -c` reads it: the checksum, two spaces, and the name of
/// the file.
pub open spec fn checksum_line(checksum: Seq<char>, name: Seq<char>) -> Seq<char> {
    checksum + "  "@ + name + "\n"@
}

/// A text and the path of the file that should hold it.
#[derive(Debug, PartialEq, Eq)]
pub struct ChecksumFile {
    pub path: String,
    pub text: String,
}

/// The checksum file for the archive at `path`, as its path and its text;
/// nothing where `path` does not end in the name of a file.
pub open spec fn checksum_file(
    path: Seq<char>,
    checksum: Seq<char>,
) -> Option<(Seq<char>, Seq<char>)> {
    match (file_name(path), sibling(path, ".sha256"@)) {
        (Some(name), Some(beside)) => Some((beside, checksum_line(checksum, name))),
        _ => None,
    }
}

/// The path of an archive that does not end in the name of a file.
#[derive(Debug, PartialEq, Eq)]
pub struct InvalidBackupFilename {
    pub path: String,
}

/// The message that reports the path of an archive without the name of a file.
pub open spec fn invalid_backup_filename_text(path: Seq<char>) -> Seq<char> {
    "invalid backup filename "@ + path
}

impl InvalidBackupFilename {
    /// The message that reports the path.
    pub fn message(&self) -> (res: String)
        ensures
            res@ == invalid_backup_filename_text(self.path@),
    {
        let mut res = "invalid backup filename ".to_owned();
        res.append(self.path.as_str());
        res
    }
}

/// The checksum file for the archive at `path`; an error where `path` does not
/// end in the name of a file.
pub fn write_sha256(path: &str, sha256: &str) -> (res: Result<ChecksumFile, InvalidBackupFilename>)
    ensures
        match res {
            Ok(file) => checksum_file(path@, sha256@) == Some((file.path@, file.text@)),
            Err(error) => checksum_file(path@, sha256@) is None && error.path@ == path@,
        },
{
    match (base_name(path), sibling_path_with_suffix(path, ".sha256")) {
        (Some(name), Ok(beside)) => {
            let mut text = sha256.to_owned();
            text.append("  ");
            text.append(name.as_str());
            text.append("\n");
            Ok(ChecksumFile { path: beside, text })
        },
        _ => Err(InvalidBackupFilename { path: path.to_owned() }),
    }
}

/// The checksum file of an archive lies beside it: in the same directory, under
/// the name of the archive with `.sha256` at its end, and it names the archive.
pub proof fn law_checksum_lies_beside_the_archive(
    dir: Seq<char>,
    name: Seq<char>,
    checksum: Seq<char>,
)
    requires
        is_file_name(name),
    ensures
        checksum_file(join_path(dir, name), checksum) matches Some((path, text)) && parent(path)
            == normal_end(dir) && file_name(path) == Some(name + ".sha256"@) && text
            == checksum_line(checksum, name),
{
    reveal_strlit(".sha256");
    law_file_lies_in_directory(dir, name);
    law_sibling_lies_beside(join_path(dir, name), ".sha256"@);
}

/// Two digits for each byte.
proof fn lemma_hex_len(bytes: Seq<u8>)
    ensures
        hex_text(bytes).len() == 2 * bytes.len(),
    decreases bytes.len(),
{
    if bytes.len() > 0 {
        lemma_hex_len(bytes.drop_last());
    }
}

/// No two byte sequences have the same hexadecimal form, which has two digits
/// for each byte.
pub proof fn law_hex_is_injective(a: Seq<u8>, b: Seq<u8>)
    ensures
        hex_text(a).len() == 2 * a.len(),
        hex_text(a) == hex_text(b) ==> a == b,
    decreases a.len(),
{
    lemma_hex_len(a);
    lemma_hex_len(b);
    if hex_text(a) == hex_text(b) {
        if a.len() == 0 {
            assert(a =~= b);
        } else {
            let x = hex_text(a);
            let y = hex_text(b);
            let n = x.len() as int;
            assert(x[n - 1] == hex_char((a.last() % 16) as nat));
            assert(y[n - 1] == hex_char((b.last() % 16) as nat));
            assert(x[n - 2] == hex_char((a.last() / 16) as nat));
            assert(y[n - 2] == hex_char((b.last() / 16) as nat));
            assert(a.last() == b.last());
            assert(hex_text(a.drop_last()) =~= x.take(n - 2));
            assert(hex_text(b.drop_last()) =~= y.take(n - 2));
            law_hex_is_injective(a.drop_last(), b.drop_last());
            assert(a =~= a.drop_last().push(a.last()));
            assert(b =~= b.drop_last().push(b.last()));
        }
    }
}

/// What was written can be read back: the line for a SHA-256 digest shows its
/// 64 digits, then two spaces, then the name up to the line end.
pub proof fn law_checksum_line_reads_back(digest: Seq<u8>, name: Seq<char>)
    requires
        digest.len() == 32,
    ensures
        checksum_line(hex_text(digest), name).take(64) == hex_text(digest),
        checksum_line(hex_text(digest), name).subrange(64, 66) == "  "@,
        checksum_line(hex_text(digest), name).skip(66) == name + "\n"@,
{
    reveal_strlit("  ");
    lemma_hex_len(digest);
    let line = checksum_line(hex_text(digest), name);
    assert(line.take(64) =~= hex_text(digest));
    assert(line.subrange(64, 66) =~= "  "@);
    assert(line.skip(66) =~= name + "\n"@);
}

/// No two digests or names share a line.
pub proof fn law_checksum_line_is_unambiguous(
    a: Seq<u8>,
    b: Seq<u8>,
    m: Seq<char>,
    n: Seq<char>,
)
    requires
        a.len() == 32,
        b.len() == 32,
        checksum_line(hex_text(a), m) == checksum_line(hex_text(b), n),
    ensures
        a == b,
        m == n,
{
    reveal_strlit("\n");
    law_checksum_line_reads_back(a, m);
    law_checksum_line_reads_back(b, n);
    law_hex_is_injective(a, b);
    assert((m + "\n"@).drop_last() =~= m);
    assert((n + "\n"@).drop_last() =~= n);
}

/// The checksum file of an archive has the path of the archive with `.sha256` at
/// its end, and holds the checksum, two spaces, the name of the archive and a
/// line end, whatever the checksum is.
pub proof fn law_checksum_file_in_a_plain_directory(
    dir: Seq<char>,
    name: Seq<char>,
    checksum: Seq<char>,
)
    requires
        dir.len() > 0,
        dir.last() != '/',
        dir.last() != '.',
        is_file_name(name),
    ensures
        checksum_file(dir + seq!['/'] + name, checksum) == Some(
            (
                dir + seq!['/'] + name + ".sha256"@,
                checksum + seq![' ', ' '] + name + seq!['\n'],
            ),
        ),
{
    reveal_strlit(".sha256");
    reveal_strlit("  ");
    reveal_strlit("\n");
    law_paths_in_a_plain_directory(dir, name, ".sha256"@);
    assert("  "@ =~= seq![' ', ' ']);
    assert("\n"@ =~= seq!['\n']);
}

/// The message of an invalid archive path tells the path.
pub proof fn law_invalid_backup_filename_is_told(path: Seq<char>)
    ensures
        invalid_backup_filename_text(path) == "invalid backup filename "@ + path,
{
}

} // verus!
