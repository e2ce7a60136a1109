//! The kinds of directory entries, as directory listings report them.

use vstd::prelude::*;

verus! {

#[derive(Debug, Clone, Copy, PartialEq, Eq, Structural)]
pub enum FileKind {
    Dir,
    File,
    Other,
}

/// A directory first, then a file, else other.
pub fn file_kind(is_dir: bool, is_file: bool) -> (r: FileKind)
    ensures
        r == if is_dir {
            FileKind::Dir
        } else if is_file {
            FileKind::File
        } else {
            FileKind::Other
        },
{
    if is_dir {
        FileKind::Dir
    } else if is_file {
        FileKind::File
    } else {
        FileKind::Other
    }
}

} // verus!
