//! Where the pipeline reads from.

use vstd::prelude::*;

pub mod file;
pub mod url;

verus! {

/// What a reader handed over when it was asked for its next chunk.
#[derive(Debug)]
pub enum Read {
    /// The next unit of data: a line of a file, or a piece of a response
    /// body.
    Chunk(Vec<u8>),
    /// The stream is at its end.
    End,
    /// The reader failed.
    Failed,
}

} // verus!
