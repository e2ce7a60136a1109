//! File metadata that can be used as key to verify (with good chance,
//! given good faith actors) whether a file has changed on disk.

use vstd::prelude::*;

use crate::easyfiletype::EasyFileType;
use crate::systime::TimeStamp;

verus! {

#[derive(Debug, Clone, Copy, PartialEq, Eq, Structural)]
pub struct CmpFileMeta {
    pub easyfiletype: EasyFileType,
    pub modified_time: TimeStamp,
    pub created_time: TimeStamp,
    pub ino: u64,
    pub len: u64,  // size
}

} // verus!
