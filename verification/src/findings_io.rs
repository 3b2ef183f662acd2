//! Where private findings are stored. Compression does not filter observations.

use crate::event::opt_str;
use crate::text::same_text;
use vstd::prelude::*;

verus! {

broadcast use vstd::string::group_string_axioms;

pub const PLAIN_NAME: &'static str = "private-findings.jsonl";

pub const COMPRESSED_NAME: &'static str = "private-findings.jsonl.gz";

/// Which file holds the findings that a path stands for.
#[derive(Clone, Copy, Debug, PartialEq, Eq, Structural)]
pub enum FindingFile {
    /// The path itself.
    Given,
    /// The plain file in the place of the given one.
    PlainBeside,
    /// The compressed file in the place of the given one.
    CompressedBeside,
    /// The plain file in the given directory.
    PlainInside,
    /// The compressed file in the given directory.
    CompressedInside,
}

pub open spec fn chosen_file(
    name: Option<Seq<char>>,
    exists: bool,
    is_directory: bool,
    compressed_is_file: bool,
) -> FindingFile {
    if name == Some(COMPRESSED_NAME@) && !exists {
        FindingFile::PlainBeside
    } else if is_directory {
        if compressed_is_file {
            FindingFile::CompressedInside
        } else {
            FindingFile::PlainInside
        }
    } else if name == Some(PLAIN_NAME@) && compressed_is_file {
        FindingFile::CompressedBeside
    } else {
        FindingFile::Given
    }
}

/// Resolves a run directory or a conventional finding path, given the name of the file, whether
/// the path exists and is a directory, and whether the compressed file beside it, or in the
/// directory, is a file. The stored compressed file is preferred; old runs that hold only the
/// plain one remain readable.
pub fn resolve(
    name: Option<&str>,
    exists: bool,
    is_directory: bool,
    compressed_is_file: bool,
) -> (r: FindingFile)
    ensures
        r == chosen_file(opt_str(name), exists, is_directory, compressed_is_file),
{
    let (is_plain, is_compressed) = match name {
        Some(text) => (same_text(text, PLAIN_NAME), same_text(text, COMPRESSED_NAME)),
        None => (false, false),
    };
    if is_compressed && !exists {
        FindingFile::PlainBeside
    } else if is_directory {
        if compressed_is_file {
            FindingFile::CompressedInside
        } else {
            FindingFile::PlainInside
        }
    } else if is_plain && compressed_is_file {
        FindingFile::CompressedBeside
    } else {
        FindingFile::Given
    }
}

/// Where the compressed file is there, a run directory and its plain file stand for it.
pub proof fn compressed_findings_are_preferred(name: Option<Seq<char>>, exists: bool)
    ensures
        name != Some(COMPRESSED_NAME@) ==> chosen_file(name, exists, true, true)
            == FindingFile::CompressedInside,
        chosen_file(Some(PLAIN_NAME@), exists, false, true) != FindingFile::Given,
{
    reveal_strlit("private-findings.jsonl");
    reveal_strlit("private-findings.jsonl.gz");
    assert(PLAIN_NAME@.len() != COMPRESSED_NAME@.len());
}

} // verus!
