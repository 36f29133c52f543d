//! Pieces of the virtual file-system interface: seek origins and block
//! device access.
use vstd::prelude::*;

verus! {

/// Where a seek is measured from.
#[derive(PartialEq, Eq, Structural, Clone, Copy, Debug)]
pub enum SeekFrom {
    /// An absolute offset from the start of the file.
    Start(usize),
    /// An offset from the current position.
    Current(isize),
    /// An offset from the end of the file.
    End(isize),
}

/// Block-level access to the disk a file system lives on.
pub trait DiskOperation {
    fn read_block(index: usize, buf: &mut [u8]);

    fn write_block(index: usize, data: &[u8]);
}

} // verus!
