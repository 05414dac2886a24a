//! What can go wrong for one asset in one cycle.

use vstd::prelude::*;

verus! {

/// Why no decoded envelope came back from the quoting service.
#[derive(Clone, Copy, Debug, PartialEq, Eq)]
pub enum FetchError {
    /// The request never got an answer: unreachable host, broken connection,
    /// timeout.
    Transport,
    /// The service answered with a status that is not a success.
    Status(u16),
    /// The body could not be decoded into the expected shape.
    Decode,
}

/// Why an observation did not reach its record.
#[derive(Clone, Copy, Debug, PartialEq, Eq)]
pub enum IoError {
    /// The destination could not be opened or created.
    Open,
    /// The destination was opened but the line could not be written.
    Write,
}

} // verus!
