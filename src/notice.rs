use vstd::prelude::*;

use crate::geometry::BlockPos;

verus! {

/// Why a command line was not understood.
#[derive(Clone, Copy, Debug, PartialEq, Eq, Structural)]
pub enum ParseError {
    /// A positional argument is missing.
    MissingArgument,
    /// A coordinate is not an integer that fits in 32 bits.
    BadNumber,
}

/// A message to the operator. None of them is an error of the processor:
/// each one reports progress or a failure that was recovered from.
#[derive(Debug)]
pub enum Notice {
    Hi,
    Indexing,
    /// How many containers of the region are about to be indexed.
    IndexingCount(usize),
    Retrying,
    RetrySuccessful,
    /// A retry failed, with this many attempts left.
    RetryFailed(u32),
    /// The container could not be opened within the retry bound; it is skipped.
    ContainerUnavailable(BlockPos),
    /// The container opened but its contents could not be read; it is skipped.
    ReadFailure(BlockPos),
    /// A slot of an open container holds this item.
    FoundItem(String, i8),
    Done,
    ClearedDb,
    /// No record exists for the container asked about.
    NoItemsAtLocation,
    /// A non-empty slot of the container asked about.
    ItemLine(String, i16),
    /// The container asked about holds nothing.
    NoItemsInStorageBlock,
    /// `count` of the item asked about lie in the container at `pos`.
    FoundAt(String, i16, BlockPos),
    UnknownCommand,
    BadArguments(ParseError),
    /// The index could not be written; no further command is run.
    QueueDied,
}

} // verus!
