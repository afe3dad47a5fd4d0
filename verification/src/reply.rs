//! Requests and replies, and what a reply does to a replica.

use vstd::prelude::*;
use vstd::string::StringExecFns;
use crate::blocks::{nth_block, whole_block_count, whole_blocks};
use crate::error::{StoreError, SyncError};
use crate::hash::{z32_text, BlockHash};
use crate::range::{ByteRange, BLOCK};
use crate::store::{Store, StoreDir};

verus! {

/// The status of a reply that carries the bytes asked for.
pub const PARTIAL_CONTENT: u16 = 206;

/// The status of a reply to a range that starts past the end of the chain.
pub const RANGE_NOT_SATISFIABLE: u16 = 416;

/// One GET request: where to send it and which bytes to ask for.
#[derive(Debug)]
pub struct Request {
    pub url: String,
    pub range: ByteRange,
}

/// What came back for one request.
#[derive(Debug)]
pub struct Response {
    pub status: u16,
    pub body: Vec<u8>,
}

/// The address of chain `id` at `origin`: the origin, `/chains/`, and the text
/// form of the chain's hash.
pub open spec fn chain_url_text(origin: Seq<char>, id: Seq<u8>) -> Seq<char> {
    origin + "/chains/"@ + z32_text(id)
}

/// The address of the chain `id` at `origin`.
pub fn chain_url(origin: &str, id: &BlockHash) -> (url: String)
    ensures
        url@ == chain_url_text(origin@, id@),
{
    let mut url = String::from_str(origin);
    url.append("/chains/");
    let name = id.to_z32();
    url.append(name.as_str());
    url
}

/// What a reply to a request for the tail does to a replica that held `before`:
/// the blocks `after` that it holds then, and the `result` handed to the caller.
///
/// A 206 carries blocks: the whole blocks of its body are offered in order, and
/// the result is their number when all were accepted; when one was refused, the
/// blocks before it stay. A 416 says that there is nothing new: no block is
/// offered and the result is zero. Any other status is an error that changes
/// nothing.
pub open spec fn resync_outcome(
    before: Seq<Seq<u8>>,
    reply: Response,
    after: Seq<Seq<u8>>,
    result: Result<u64, SyncError>,
) -> bool {
    if reply.status == PARTIAL_CONTENT {
        match result {
            Ok(n) => n as nat == whole_block_count(reply.body@) && after == before + whole_blocks(
                reply.body@,
            ),
            Err(e) => (e matches SyncError::ChainIntegrity(StoreError::Rejected(_))) && exists|
                k: int,
            |
                0 <= k < whole_block_count(reply.body@) && after == before + whole_blocks(
                    reply.body@,
                ).take(k),
        }
    } else if reply.status == RANGE_NOT_SATISFIABLE {
        after == before && (result matches Ok(n) && n == 0)
    } else {
        after == before && (result matches Err(SyncError::UnexpectedStatus(s)) && s
            == reply.status)
    }
}

/// What a reply to the first request for chain `id` leads to.
///
/// Any status but 206 is a failure that names the status. A body of less than
/// one block cannot seed a replica. Otherwise the replica is made of the first
/// block and fed the remaining whole blocks in order: where it accepts all of
/// them, it holds exactly the whole blocks of the body.
pub open spec fn bootstrap_outcome(reply: Response, id: BlockHash, result: Result<Store, SyncError>) -> bool {
    if reply.status != PARTIAL_CONTENT {
        result matches Err(SyncError::BootstrapFailed(s)) && s == reply.status
    } else if reply.body@.len() < BLOCK {
        result matches Err(SyncError::ChainIntegrity(StoreError::BlockSize(n))) && n
            == reply.body@.len()
    } else {
        match result {
            Ok(store) => store@ == whole_blocks(reply.body@) && store.wf() && store.chain_id()
                == id && !store.converged(),
            Err(e) => e matches SyncError::ChainIntegrity(StoreError::Rejected(_)),
        }
    }
}

/// Brings `store` forward by the reply to a request for its tail.
pub fn apply_tail_reply(store: &mut Store, reply: &Response) -> (result: Result<u64, SyncError>)
    requires
        old(store).wf(),
    ensures
        final(store).wf(),
        final(store).chain_id() == old(store).chain_id(),
        resync_outcome(old(store)@, *reply, final(store)@, result),
        final(store).converged() == (result matches Ok(n) && n == 0),
{
    let result = if reply.status == PARTIAL_CONTENT {
        match store.append_blocks(reply.body.as_slice()) {
            Ok(n) => Ok(n),
            Err(e) => Err(SyncError::ChainIntegrity(e)),
        }
    } else if reply.status == RANGE_NOT_SATISFIABLE {
        Ok(0)
    } else {
        Err(SyncError::UnexpectedStatus(reply.status))
    };
    let nothing_new = match &result {
        Ok(n) => *n == 0,
        Err(_) => false,
    };
    store.set_converged(nothing_new);
    result
}

/// Makes the replica of chain `id` in `dir` out of the reply to the first
/// request for the chain.
pub fn apply_first_reply(dir: &StoreDir, id: &BlockHash, reply: &Response) -> (result: Result<
    Store,
    SyncError,
>)
    ensures
        bootstrap_outcome(*reply, *id, result),
{
    if reply.status != PARTIAL_CONTENT {
        return Err(SyncError::BootstrapFailed(reply.status));
    }
    let body = reply.body.as_slice();
    if body.len() < BLOCK {
        return Err(SyncError::ChainIntegrity(StoreError::BlockSize(body.len())));
    }
    let first = nth_block(body, 0);
    let mut store = match dir.create(first, id) {
        Ok(store) => store,
        Err(e) => {
            return Err(SyncError::ChainIntegrity(e));
        },
    };
    match store.append_blocks_from(body, 1) {
        Ok(()) => {
            assert(seq![first@] + whole_blocks(body@).skip(1) =~= whole_blocks(body@));
            Ok(store)
        },
        Err(e) => Err(SyncError::ChainIntegrity(e)),
    }
}

} // verus!
