//! The synchronisation client: one request per step, sent by a function that
//! the caller hands in.

use vstd::prelude::*;
use crate::error::{SyncError, TransportError};
use crate::hash::BlockHash;
use crate::range::{bulk_range, spec_bulk_range, spec_tail_range, tail_range, ByteRange};
use crate::reply::{
    apply_first_reply, apply_tail_reply, bootstrap_outcome, chain_url, chain_url_text,
    resync_outcome, Request, Response,
};
use crate::store::{Store, StoreDir};

verus! {

/// Keeps local replicas in one directory up to date with the chains at one
/// origin.
pub struct SyncClient {
    pub dir: StoreDir,
    pub origin: String,
}

/// What one round of catching up does, given what the transport handed back:
/// a failed request changes nothing and is passed on; a reply is applied.
pub open spec fn resync_step(
    before: Seq<Seq<u8>>,
    reply: Result<Response, TransportError>,
    after: Seq<Seq<u8>>,
    result: Result<u64, SyncError>,
) -> bool {
    match reply {
        Ok(response) => resync_outcome(before, response, after, result),
        Err(failure) => after == before && (result matches Err(SyncError::Transport(f)) && f
            == failure),
    }
}

impl SyncClient {
    /// The client for the chains at `origin`, with its replicas in `dir`.
    pub fn new(dir: StoreDir, origin: String) -> (client: SyncClient)
        ensures
            client.dir == dir,
            client.origin == origin,
    {
        SyncClient { dir, origin }
    }

    /// Whether `request` asks this client's origin for the bytes `range` of
    /// chain `id`.
    pub open spec fn asks(&self, request: Request, id: BlockHash, range: ByteRange) -> bool {
        &&& request.url@ == chain_url_text(self.origin@, id@)
        &&& request.range == range
    }

    /// Whether `fetch` can be handed every request for bytes of chain `id`.
    pub open spec fn can_ask<F: Fn(Request) -> Result<Response, TransportError>>(
        &self,
        fetch: F,
        id: BlockHash,
    ) -> bool {
        forall|request: Request|
            request.url@ == chain_url_text(self.origin@, id@) ==> #[trigger] call_requires(
                fetch,
                (request,),
            )
    }

    /// The request for the bytes `range` of chain `id`.
    pub fn request(&self, id: &BlockHash, range: ByteRange) -> (request: Request)
        ensures
            self.asks(request, *id, range),
    {
        Request { url: chain_url(self.origin.as_str(), id), range }
    }

    /// Whether one round of catching up, with `fetch` as the transport, can
    /// take a replica of chain `id` from `before` to `after` with `result`.
    pub open spec fn round<F: Fn(Request) -> Result<Response, TransportError>>(
        &self,
        fetch: F,
        id: BlockHash,
        before: Seq<Seq<u8>>,
        after: Seq<Seq<u8>>,
        result: Result<u64, SyncError>,
    ) -> bool {
        exists|request: Request, reply: Result<Response, TransportError>|
            {
                &&& self.asks(request, id, spec_tail_range(before.len()))
                &&& #[trigger] call_ensures(fetch, (request,), reply)
                &&& resync_step(before, reply, after, result)
            }
    }

    /// One round of catching up: asks for everything past the blocks that
    /// `store` holds and applies the reply.
    pub fn resync<F: Fn(Request) -> Result<Response, TransportError>>(
        &self,
        store: &mut Store,
        fetch: &F,
    ) -> (result: Result<u64, SyncError>)
        requires
            old(store).wf(),
            self.can_ask(*fetch, old(store).chain_id()),
        ensures
            final(store).wf(),
            final(store).chain_id() == old(store).chain_id(),
            self.round(*fetch, old(store).chain_id(), old(store)@, final(store)@, result),
            final(store).converged() == (result matches Ok(n) && n == 0),
    {
        let id = store.id();
        let request = self.request(&id, tail_range(store.block_count()));
        let ghost asked = request;
        let reply = fetch(request);
        let ghost got = reply;
        assert(call_ensures(*fetch, (asked,), got));
        match reply {
            Ok(response) => {
                let result = apply_tail_reply(store, &response);
                assert(resync_step(old(store)@, got, store@, result));
                result
            },
            Err(failure) => {
                store.set_converged(false);
                let result = Err(SyncError::Transport(failure));
                assert(resync_step(old(store)@, got, store@, result));
                result
            },
        }
    }

    /// Whether `rounds` rounds of catching up, each of which brought one block
    /// or more, can take a replica of chain `id` from `start` to `end`.
    pub open spec fn reaches<F: Fn(Request) -> Result<Response, TransportError>>(
        &self,
        fetch: F,
        id: BlockHash,
        start: Seq<Seq<u8>>,
        rounds: nat,
        end: Seq<Seq<u8>>,
    ) -> bool
        decreases rounds,
    {
        if rounds == 0 {
            end == start
        } else {
            exists|mid: Seq<Seq<u8>>, n: u64|
                {
                    &&& n > 0
                    &&& self.reaches(fetch, id, start, (rounds - 1) as nat, mid)
                    &&& #[trigger] self.round(fetch, id, mid, end, Ok(n))
                }
        }
    }

    /// Whether catching up until a round brings nothing can take a replica of
    /// chain `id` from `start` to `end` with `result`, in `rounds` rounds that
    /// brought blocks and one more that closed the run.
    ///
    /// The run is closed by the first round that brings no block, which leaves
    /// the replica as it was, or by the first round that fails, whose error is
    /// the result. A run that ends well reports how many blocks it brought.
    pub open spec fn run<F: Fn(Request) -> Result<Response, TransportError>>(
        &self,
        fetch: F,
        id: BlockHash,
        start: Seq<Seq<u8>>,
        rounds: nat,
        end: Seq<Seq<u8>>,
        result: Result<u64, SyncError>,
    ) -> bool {
        exists|mid: Seq<Seq<u8>>| #[trigger]
            self.reaches(fetch, id, start, rounds, mid) && match result {
                Ok(total) => end == mid && self.round(fetch, id, mid, end, Ok(0)) && total
                    == end.len() - start.len(),
                Err(e) => self.round(fetch, id, mid, end, Err(e)),
            }
    }

    /// A round that ends well adds the whole blocks of one reply behind the
    /// blocks that were there, and reports their number.
    pub proof fn lemma_round_grows<F: Fn(Request) -> Result<Response, TransportError>>(
        &self,
        fetch: F,
        id: BlockHash,
        before: Seq<Seq<u8>>,
        after: Seq<Seq<u8>>,
        n: u64,
    )
        requires
            self.round(fetch, id, before, after, Ok(n)),
        ensures
            after.len() == before.len() + n,
            after.take(before.len() as int) == before,
            n == 0 ==> after == before,
    {
        let (request, reply) = choose|request: Request, reply: Result<Response, TransportError>|
            {
                &&& self.asks(request, id, spec_tail_range(before.len()))
                &&& #[trigger] call_ensures(fetch, (request,), reply)
                &&& resync_step(before, reply, after, Ok(n))
            };
        assert(after.take(before.len() as int) =~= before);
        if n == 0 {
            assert(after =~= before);
        }
    }

    /// Rounds only add blocks, and each round that counts adds one at least.
    pub proof fn lemma_reaches_grows<F: Fn(Request) -> Result<Response, TransportError>>(
        &self,
        fetch: F,
        id: BlockHash,
        start: Seq<Seq<u8>>,
        rounds: nat,
        end: Seq<Seq<u8>>,
    )
        requires
            self.reaches(fetch, id, start, rounds, end),
        ensures
            end.len() >= start.len() + rounds,
            end.take(start.len() as int) == start,
        decreases rounds,
    {
        if rounds == 0 {
            assert(end.take(start.len() as int) =~= start);
        } else {
            let (mid, n) = choose|mid: Seq<Seq<u8>>, n: u64|
                {
                    &&& n > 0
                    &&& self.reaches(fetch, id, start, (rounds - 1) as nat, mid)
                    &&& #[trigger] self.round(fetch, id, mid, end, Ok(n))
                };
            self.lemma_reaches_grows(fetch, id, start, (rounds - 1) as nat, mid);
            self.lemma_round_grows(fetch, id, mid, end, n);
            assert(end.take(start.len() as int) =~= mid.take(start.len() as int));
        }
    }

    /// Catches up: repeats rounds until one brings no block, and reports how
    /// many blocks were brought in all. A round that fails ends the work with
    /// its error; the blocks brought before it stay.
    pub fn resync_loop<F: Fn(Request) -> Result<Response, TransportError>>(
        &self,
        store: &mut Store,
        fetch: &F,
    ) -> (result: Result<u64, SyncError>)
        requires
            old(store).wf(),
            self.can_ask(*fetch, old(store).chain_id()),
        ensures
            final(store).wf(),
            final(store).chain_id() == old(store).chain_id(),
            final(store).converged() == (result is Ok),
            exists|rounds: nat| #[trigger]
                self.run(
                    *fetch,
                    old(store).chain_id(),
                    old(store)@,
                    rounds,
                    final(store)@,
                    result,
                ),
    {
        let start_count: u64 = store.block_count();
        let mut count: u64 = start_count;
        let ghost id = store.chain_id();
        let ghost mut rounds: nat = 0;
        loop
            invariant
                store.wf(),
                store.chain_id() == id,
                id == old(store).chain_id(),
                start_count as nat == old(store)@.len(),
                count as nat == store@.len(),
                self.can_ask(*fetch, id),
                self.reaches(*fetch, id, old(store)@, rounds, store@),
            decreases u64::MAX - count,
        {
            let ghost before = store@;
            match self.resync(store, fetch) {
                Ok(n) => {
                    proof {
                        self.lemma_round_grows(*fetch, id, before, store@, n);
                        self.lemma_reaches_grows(*fetch, id, old(store)@, rounds, before);
                    }
                    if n == 0 {
                        let total: u64 = count - start_count;
                        assert(self.run(*fetch, id, old(store)@, rounds, store@, Ok(total)));
                        return Ok(total);
                    }
                    count = store.block_count();
                    proof {
                        rounds = rounds + 1;
                    }
                },
                Err(e) => {
                    assert(self.run(*fetch, id, old(store)@, rounds, store@, Err(e)));
                    return Err(e);
                },
            }
        }
    }

    /// Whether the first request for chain `id`, for `seed_block_count` blocks
    /// from the first on and with `fetch` as the transport, can end in `result`.
    ///
    /// A failed request is passed on. A reply is applied: see
    /// [`bootstrap_outcome`].
    pub open spec fn first_round<F: Fn(Request) -> Result<Response, TransportError>>(
        &self,
        fetch: F,
        id: BlockHash,
        seed_block_count: u64,
        result: Result<Store, SyncError>,
    ) -> bool {
        exists|request: Request, reply: Result<Response, TransportError>|
            {
                &&& self.asks(request, id, spec_bulk_range(0, seed_block_count))
                &&& #[trigger] call_ensures(fetch, (request,), reply)
                &&& match reply {
                    Ok(response) => bootstrap_outcome(response, id, result),
                    Err(failure) => result matches Err(SyncError::Transport(f)) && f == failure,
                }
            }
    }

    /// Makes the local replica of chain `id`: asks for the first
    /// `seed_block_count` blocks of the chain and seeds the replica with what
    /// comes back. A seed of no blocks is refused.
    pub fn bootstrap<F: Fn(Request) -> Result<Response, TransportError>>(
        &self,
        id: &BlockHash,
        seed_block_count: u64,
        fetch: &F,
    ) -> (result: Result<Store, SyncError>)
        requires
            self.can_ask(*fetch, *id),
        ensures
            seed_block_count == 0 ==> result matches Err(SyncError::Argument),
            seed_block_count > 0 ==> self.first_round(*fetch, *id, seed_block_count, result),
    {
        let range = match bulk_range(0, seed_block_count) {
            Ok(range) => range,
            Err(e) => {
                return Err(e);
            },
        };
        let request = self.request(id, range);
        let ghost asked = request;
        let reply = fetch(request);
        let ghost got = reply;
        assert(call_ensures(*fetch, (asked,), got));
        match reply {
            Ok(response) => apply_first_reply(&self.dir, id, &response),
            Err(failure) => Err(SyncError::Transport(failure)),
        }
    }
}

} // verus!
