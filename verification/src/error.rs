//! What can go wrong while a replica is brought up to date.

use vstd::prelude::*;

verus! {

/// The error type of std's I/O, as the replica hands it out. Nothing of what it
/// holds is known here: it is carried through.
#[verifier::external_type_specification]
#[verifier::external_body]
pub struct ExIoError(std::io::Error);

/// A local replica refused a block, or could not be made or opened.
#[derive(Debug)]
pub enum StoreError {
    /// The bytes handed over are not one block: the number is what was handed over.
    BlockSize(usize),
    /// The replica itself refused: the block does not link to the tail, or the
    /// replica's file could not be read or written.
    Rejected(std::io::Error),
}

/// The request could not be completed; the text is the transport's own.
#[derive(Debug, PartialEq, Eq)]
pub struct TransportError {
    pub message: String,
}

/// Why a synchronisation step failed.
#[derive(Debug)]
pub enum SyncError {
    /// The caller asked for something that does not exist, such as a range of
    /// zero blocks.
    Argument,
    /// The first fetch of a chain was answered with this status in place of 206.
    BootstrapFailed(u16),
    /// A fetch of the tail was answered with this status, which is neither 206
    /// nor 416.
    UnexpectedStatus(u16),
    /// The local replica refused what the remote sent.
    ChainIntegrity(StoreError),
    /// The request could not be completed at all.
    Transport(TransportError),
}

} // verus!
