//! Run configuration: which source to read, how much of it, and how each
//! output row is laid out.

use vstd::prelude::*;

verus! {

/// Configuration for one dump run, as parsed from the command line by the
/// surrounding binary.
///
/// `cols` is the number of bytes per output row and `groupsize` the number of
/// bytes per hex group; both are positive, and the padding formula further
/// assumes `groupsize <= cols`. `len == 0` means "read to the end of the
/// source", not "read nothing". `endian` set means the bytes of each group
/// are reversed before rendering (little-endian display).
pub struct Args {
    /// Input file path; `None` means the source is standard input.
    pub filename: Option<String>,
    /// Bytes per output row.
    pub cols: usize,
    /// Bytes per hex group within a row.
    pub groupsize: usize,
    /// Maximum number of bytes to read; 0 means unbounded.
    pub len: usize,
    /// Byte offset at which reading starts; `None` means 0.
    pub seek: Option<u64>,
    /// Display each group in little-endian byte order.
    pub endian: bool,
    /// Colorize the printed output.
    pub color: bool,
}

impl Args {
    /// The layout parameters are usable: positive column count, and a group
    /// size that is positive and at most the column count.
    pub open spec fn wf(&self) -> bool {
        1 <= self.groupsize <= self.cols
    }

    /// The address at which the dump starts: the requested seek offset, or 0.
    pub fn start_address(&self) -> (r: u64)
        ensures
            r == self.start_address_spec(),
    {
        match self.seek {
            Some(s) => s,
            None => 0,
        }
    }

    /// Specification twin of [`Self::start_address`].
    pub open spec fn start_address_spec(&self) -> u64 {
        match self.seek {
            Some(s) => s,
            None => 0u64,
        }
    }
}

} // verus!
