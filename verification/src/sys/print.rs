use vstd::prelude::*;

verus! {

/// A writer that sends formatted text to a file descriptor.
pub struct FdWriter {
    pub fd: u32,
}

impl FdWriter {
    pub fn new(fd: u32) -> (r: Self)
        ensures
            r.fd == fd,
    {
        Self { fd }
    }
}

} // verus!
