//! The kinds of file system entries the site tells apart.

use vstd::prelude::*;

verus! {

#[derive(Debug, Clone, Copy, PartialEq, Eq, Structural)]
pub enum EasyFileType {
    Dir,
    File,
    Symlink,
    Other,  // device files, sockets, pipes, ?
}

/// What a file type says of itself (as `std::fs::FileType` does).
#[derive(Debug, Clone, Copy, PartialEq, Eq, Structural)]
pub struct FileTypeFlags {
    pub is_symlink: bool,
    pub is_dir: bool,
    pub is_file: bool,
}

pub trait GetEasyFileType {
    spec fn spec_easyfiletype(&self) -> EasyFileType;

    fn easyfiletype(&self) -> (r: EasyFileType)
        ensures
            r == self.spec_easyfiletype(),
    ;
}

impl GetEasyFileType for FileTypeFlags {
    /// A symlink first, then a directory, then a file, else other.
    open spec fn spec_easyfiletype(&self) -> EasyFileType {
        if self.is_symlink {
            EasyFileType::Symlink
        } else if self.is_dir {
            EasyFileType::Dir
        } else if self.is_file {
            EasyFileType::File
        } else {
            EasyFileType::Other
        }
    }

    fn easyfiletype(&self) -> (r: EasyFileType) {
        if self.is_symlink {
            EasyFileType::Symlink
        } else if self.is_dir {
            EasyFileType::Dir
        } else if self.is_file {
            EasyFileType::File
        } else {
            EasyFileType::Other
        }
    }
}

} // verus!
