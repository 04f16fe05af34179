//! Byte-stream input and output classification: what a read or write
//! against an object's stream layer reports, and the kinds of stream an
//! object may carry.  The line disciplines themselves are external
//! collaborators of the core.

use vstd::prelude::*;

verus! {

/// The extension tag of the stream header.
pub const IO_METAEXT_TAG: u64 = 0x0000_0000_1010_1010;

/// The kinds of stream an object may carry.
#[derive(Clone, Copy, PartialEq, Eq, Structural, Debug)]
pub enum TwzIOType {
    Unknown,
    Bstream,
    PtyClient,
    PtyServer,
}

/// What a read reported: bytes done, end of stream, or nothing available
/// without blocking.
#[derive(Clone, Copy, PartialEq, Eq, Structural, Debug)]
pub enum ReadOutput {
    Done(usize),
    EOF,
    WouldBlock,
}

/// What a write reported: bytes done, or no room without blocking.
#[derive(Clone, Copy, PartialEq, Eq, Structural, Debug)]
pub enum WriteOutput {
    Done(usize),
    WouldBlock,
}

impl ReadOutput {
    /// Whether the read completed with data.
    pub fn is_ready(&self) -> (r: bool)
        ensures
            r == (self is Done),
    {
        match self {
            ReadOutput::Done(_) => true,
            _ => false,
        }
    }

    /// Whether the stream ended.
    pub fn is_eof(&self) -> (r: bool)
        ensures
            r == (self is EOF),
    {
        match self {
            ReadOutput::EOF => true,
            _ => false,
        }
    }

    /// Whether the read would have blocked.
    pub fn is_blocked(&self) -> (r: bool)
        ensures
            r == (self is WouldBlock),
    {
        match self {
            ReadOutput::WouldBlock => true,
            _ => false,
        }
    }
}

} // verus!
