//! The handle of a file descriptor.

use vstd::prelude::*;

verus! {

/// Stands for one open file descriptor and for the duty to close it.
///
/// The handle cannot be copied: whoever holds it is the descriptor's only
/// owner, and handing it on hands the descriptor on. It keeps the number and
/// nothing else. Closing is a system call, which this crate does not make:
/// the embedding program takes the number out with [`OwnedFd::into_raw_fd`]
/// and closes it, or wraps it in a type that does.
#[derive(Debug)]
pub struct OwnedFd {
    fd: i32,
}

impl View for OwnedFd {
    type V = i32;

    /// The descriptor's number.
    closed spec fn view(&self) -> i32 {
        self.fd
    }
}

impl OwnedFd {
    /// Takes over the descriptor `fd`. The caller vouches that nothing else
    /// owns it.
    pub fn from_raw(fd: i32) -> (owned: OwnedFd)
        ensures
            owned@ == fd,
    {
        OwnedFd { fd }
    }

    pub fn as_raw_fd(&self) -> (fd: i32)
        ensures
            fd == self@,
    {
        self.fd
    }

    /// Gives the descriptor up, unclosed, to the caller.
    pub fn into_raw_fd(self) -> (fd: i32)
        ensures
            fd == self@,
    {
        self.fd
    }
}

/// The numbers of a list of descriptors.
pub open spec fn numbers(fds: Seq<OwnedFd>) -> Seq<i32> {
    Seq::new(fds.len(), |i: int| fds[i]@)
}

} // verus!
