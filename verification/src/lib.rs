//! Range-based synchronisation of a local, append-only replica of a remote
//! chain of fixed-size blocks.
//!
//! The remote chain is a single static resource that is read with HTTP byte-range
//! requests. This crate computes the ranges, interprets the replies, cuts reply
//! bodies into whole blocks and feeds them, in order, to the local replica. The
//! transport is handed in by the caller as a function from a request to a reply.

pub mod blocks;
pub mod client;
pub mod convergence;
pub mod decimal;
pub mod error;
pub mod hash;
pub mod header;
pub mod range;
pub mod reply;
pub mod store;
