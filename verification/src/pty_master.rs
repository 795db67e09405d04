//! The master side of a pseudo-terminal.
//!
//! Reads and writes are the kernel's, with one addition: a terminal reports
//! that the other side is gone by failing a read with `EIO`, never by a read
//! of no bytes, so a read that fails with `EIO` counts as the end of the
//! stream.

use vstd::prelude::*;

verus! {

/// The error number `EIO`.
pub const EIO: i32 = 5;

/// A read that failed.
#[derive(Debug)]
pub struct ReadError {
    /// The error number that the system gave, if it gave one.
    pub errno: Option<i32>,
    /// The error as the embedding program knows it.
    pub source: std::io::Error,
}

/// What a read from the terminal comes to.
#[derive(Debug)]
pub enum ReadOutcome {
    /// This many bytes were read.
    Data(usize),
    /// The other side is gone; nothing was read.
    End,
    /// The read failed.
    Failed(std::io::Error),
}

/// Judges the result of one read from the terminal.
pub fn read_outcome(result: Result<usize, ReadError>) -> (outcome: ReadOutcome)
    ensures
        outcome == (match result {
            Ok(n) => ReadOutcome::Data(n),
            Err(e) => if e.errno == Some(EIO) {
                ReadOutcome::End
            } else {
                ReadOutcome::Failed(e.source)
            },
        }),
{
    match result {
        Ok(n) => ReadOutcome::Data(n),
        Err(e) => match e.errno {
            Some(code) => if code == EIO {
                ReadOutcome::End
            } else {
                ReadOutcome::Failed(e.source)
            },
            None => ReadOutcome::Failed(e.source),
        },
    }
}

} // verus!
