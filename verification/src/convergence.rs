//! What catching up comes to when the remote holds a fixed chain that the
//! replica accepts: the replica ends up equal to the remote, in as few rounds
//! as the size of the replies allows, and a further round brings nothing.

use vstd::prelude::*;
use crate::blocks::{whole_block_count, whole_blocks};
use crate::client::{resync_step, SyncClient};
use crate::error::{SyncError, TransportError};
use crate::hash::BlockHash;
use crate::range::{spec_tail_range, ByteRange, BLOCK};
use crate::reply::{chain_url_text, Request, Response, PARTIAL_CONTENT, RANGE_NOT_SATISFIABLE};

verus! {

/// The most blocks that a remote which holds `remote`, and sends `cap` blocks at
/// most in one reply, can send to a replica that holds the first `have` of them.
pub open spec fn served_count(remote: Seq<Seq<u8>>, cap: nat, have: nat) -> nat {
    if have >= remote.len() {
        0
    } else if remote.len() - have <= cap {
        (remote.len() - have) as nat
    } else {
        cap
    }
}

/// Whether `response` is what a remote that holds `remote`, and sends `cap`
/// blocks at most in one reply, may answer to a request for everything past its
/// first `have` blocks.
///
/// Where there is nothing past them, the answer is 416, or a 206 with less
/// than one block. Else it is a 206 with the next blocks of the remote: one at
/// least, `cap` at most, and maybe less than one block behind them.
pub open spec fn is_tail_reply(remote: Seq<Seq<u8>>, cap: nat, have: nat, response: Response) -> bool {
    if have >= remote.len() {
        ||| response.status == RANGE_NOT_SATISFIABLE
        ||| response.status == PARTIAL_CONTENT && whole_block_count(response.body@) == 0
    } else {
        &&& response.status == PARTIAL_CONTENT
        &&& 1 <= whole_block_count(response.body@) <= served_count(remote, cap, have)
        &&& whole_blocks(response.body@) == remote.subrange(
            have as int,
            (have + whole_block_count(response.body@)) as int,
        )
    }
}

/// The least number of replies of `cap` blocks at most that hold `missing`
/// blocks between them: `missing / cap`, rounded up.
pub open spec fn rounds_needed(missing: nat, cap: nat) -> nat
    recommends
        cap >= 1,
{
    if missing == 0 {
        0
    } else {
        ((missing - 1) / cap as int + 1) as nat
    }
}

/// More missing blocks never need fewer replies.
pub proof fn lemma_rounds_needed_grows(fewer: nat, more: nat, cap: nat)
    requires
        cap >= 1,
        fewer <= more,
    ensures
        rounds_needed(fewer, cap) <= rounds_needed(more, cap),
{
    if fewer > 0 {
        assert((fewer - 1) / cap as int <= (more - 1) / cap as int) by (nonlinear_arith)
            requires
                cap >= 1,
                0 <= fewer - 1 <= more - 1,
        ;
    } else if more > 0 {
        assert((more - 1) / cap as int >= 0) by (nonlinear_arith)
            requires
                cap >= 1,
                more - 1 >= 0,
        ;
    }
}

impl SyncClient {
    /// Whether `fetch` stands for a remote that holds the chain `id` as the
    /// blocks `remote`, answers every request for a tail, and sends `cap`
    /// blocks at most in one reply.
    pub open spec fn serves<F: Fn(Request) -> Result<Response, TransportError>>(
        &self,
        fetch: F,
        id: BlockHash,
        remote: Seq<Seq<u8>>,
        cap: nat,
    ) -> bool {
        forall|request: Request, reply: Result<Response, TransportError>|
            request.url@ == chain_url_text(self.origin@, id@) && #[trigger] call_ensures(
                fetch,
                (request,),
                reply,
            ) ==> match request.range {
                ByteRange::Open { start } => start as nat % BLOCK as nat == 0 ==> (
                reply matches Ok(response) && is_tail_reply(
                    remote,
                    cap,
                    start as nat / BLOCK as nat,
                    response,
                )),
                ByteRange::Bounded { .. } => true,
            }
    }

    /// Whether every reply of `fetch` to a request for a tail of chain `id`
    /// holds as many blocks as `cap` and the remote allow.
    pub open spec fn fills<F: Fn(Request) -> Result<Response, TransportError>>(
        &self,
        fetch: F,
        id: BlockHash,
        remote: Seq<Seq<u8>>,
        cap: nat,
    ) -> bool {
        forall|request: Request, reply: Result<Response, TransportError>|
            request.url@ == chain_url_text(self.origin@, id@) && #[trigger] call_ensures(
                fetch,
                (request,),
                reply,
            ) ==> match (request.range, reply) {
                (ByteRange::Open { start }, Ok(response)) => start as nat % BLOCK as nat == 0
                    && response.status == PARTIAL_CONTENT ==> whole_block_count(response.body@)
                    == served_count(remote, cap, start as nat / BLOCK as nat),
                _ => true,
            }
    }

    /// Whether `fetch` answers a request for the tail behind `have` blocks of
    /// chain `id` in one way only: with a reply, and always the same.
    pub open spec fn steady<F: Fn(Request) -> Result<Response, TransportError>>(
        &self,
        fetch: F,
        id: BlockHash,
        have: nat,
    ) -> bool {
        forall|
            first: Request,
            first_reply: Result<Response, TransportError>,
            second: Request,
            second_reply: Result<Response, TransportError>,
        |
            {
                &&& self.asks(first, id, spec_tail_range(have))
                &&& self.asks(second, id, spec_tail_range(have))
                &&& #[trigger] call_ensures(fetch, (first,), first_reply)
                &&& #[trigger] call_ensures(fetch, (second,), second_reply)
            } ==> {
                &&& first_reply is Ok
                &&& second_reply is Ok
                &&& first_reply->Ok_0.status == second_reply->Ok_0.status
                &&& first_reply->Ok_0.body@ == second_reply->Ok_0.body@
            }
    }

    /// One round against a remote that holds more than the replica brings the
    /// next blocks of the remote: one at least, and no more than one reply
    /// holds. Against a remote that holds no more, it brings nothing.
    pub proof fn lemma_round_follows_remote<F: Fn(Request) -> Result<Response, TransportError>>(
        &self,
        fetch: F,
        id: BlockHash,
        remote: Seq<Seq<u8>>,
        cap: nat,
        before: Seq<Seq<u8>>,
        after: Seq<Seq<u8>>,
        n: u64,
    )
        requires
            self.serves(fetch, id, remote, cap),
            remote.len() <= u64::MAX,
            before.len() <= remote.len(),
            before == remote.take(before.len() as int),
            self.round(fetch, id, before, after, Ok(n)),
        ensures
            n as nat <= served_count(remote, cap, before.len()),
            before.len() < remote.len() ==> n >= 1,
            self.fills(fetch, id, remote, cap) ==> n as nat == served_count(
                remote,
                cap,
                before.len(),
            ),
            after == remote.take(before.len() + n),
            after.len() == before.len() + n,
            after.len() <= remote.len(),
    {
        let have = before.len();
        let (request, reply) = choose|request: Request, reply: Result<Response, TransportError>|
            {
                &&& self.asks(request, id, spec_tail_range(have))
                &&& #[trigger] call_ensures(fetch, (request,), reply)
                &&& resync_step(before, reply, after, Ok(n))
            };
        assert(have * 4069 <= u64::MAX * 4069) by (nonlinear_arith)
            requires
                have <= u64::MAX,
        ;
        assert((have * 4069) % 4069 == 0 && (have * 4069) / 4069 == have) by (nonlinear_arith);
        let response = reply->Ok_0;
        assert(is_tail_reply(remote, cap, have, response));
        assert(after =~= remote.take(before.len() + n));
    }

    /// Rounds against a remote bring its blocks in order, a reply's worth at
    /// most in each round. Where every reply is as full as can be, no round is
    /// spent that a fuller reply could have saved.
    pub proof fn lemma_reaches_follows_remote<F: Fn(Request) -> Result<Response, TransportError>>(
        &self,
        fetch: F,
        id: BlockHash,
        remote: Seq<Seq<u8>>,
        cap: nat,
        start: Seq<Seq<u8>>,
        rounds: nat,
        end: Seq<Seq<u8>>,
    )
        requires
            self.serves(fetch, id, remote, cap),
            remote.len() <= u64::MAX,
            start.len() <= remote.len(),
            start == remote.take(start.len() as int),
            self.reaches(fetch, id, start, rounds, end),
        ensures
            end.len() <= remote.len(),
            end == remote.take(end.len() as int),
            start.len() + rounds <= end.len() <= start.len() + rounds * cap,
            self.fills(fetch, id, remote, cap) ==> end.len() == start.len() + rounds * cap
                || end.len() == remote.len(),
            self.fills(fetch, id, remote, cap) && rounds >= 1 ==> start.len() + (rounds - 1) * cap
                < remote.len(),
        decreases rounds,
    {
        if rounds == 0 {
            assert(rounds * cap == 0) by (nonlinear_arith)
                requires
                    rounds == 0,
            ;
        } else {
            let (mid, n) = choose|mid: Seq<Seq<u8>>, n: u64|
                {
                    &&& n > 0
                    &&& self.reaches(fetch, id, start, (rounds - 1) as nat, mid)
                    &&& #[trigger] self.round(fetch, id, mid, end, Ok(n))
                };
            self.lemma_reaches_follows_remote(fetch, id, remote, cap, start, (rounds - 1) as nat, mid);
            self.lemma_round_follows_remote(fetch, id, remote, cap, mid, end, n);
            assert(rounds * cap == (rounds - 1) * cap + cap) by (nonlinear_arith);
            assert(end =~= remote.take(end.len() as int));
        }
    }

    /// Catching up with a remote that holds a fixed chain, of which the replica
    /// holds the first blocks, and that sends `cap` blocks at most in one reply:
    /// where the run ends well, the replica is equal to the remote, block for
    /// block and so in its last block too, and the number of blocks brought is
    /// what was missing. No round went by without a block, and none brought
    /// more than `cap`.
    pub proof fn lemma_run_converges<F: Fn(Request) -> Result<Response, TransportError>>(
        &self,
        fetch: F,
        id: BlockHash,
        remote: Seq<Seq<u8>>,
        cap: nat,
        start: Seq<Seq<u8>>,
        rounds: nat,
        end: Seq<Seq<u8>>,
        total: u64,
    )
        requires
            self.serves(fetch, id, remote, cap),
            remote.len() <= u64::MAX,
            start.len() <= remote.len(),
            start == remote.take(start.len() as int),
            self.run(fetch, id, start, rounds, end, Ok(total)),
        ensures
            end == remote,
            total as nat == remote.len() - start.len(),
            rounds <= remote.len() - start.len() <= rounds * cap,
    {
        let mid = choose|mid: Seq<Seq<u8>>| #[trigger]
            self.reaches(fetch, id, start, rounds, mid) && end == mid && self.round(
                fetch,
                id,
                mid,
                end,
                Ok(0),
            ) && total == end.len() - start.len();
        self.lemma_reaches_follows_remote(fetch, id, remote, cap, start, rounds, mid);
        self.lemma_round_follows_remote(fetch, id, remote, cap, mid, end, 0);
        assert(end =~= remote);
    }

    /// Catching up with such a remote whose every reply is as full as `cap`
    /// allows takes as few rounds as can be: the missing blocks divided by
    /// `cap`, rounded up. That is never more than the whole chain would need.
    /// One more round, which brings nothing, closes the run.
    pub proof fn lemma_run_takes_fewest_rounds<F: Fn(Request) -> Result<Response, TransportError>>(
        &self,
        fetch: F,
        id: BlockHash,
        remote: Seq<Seq<u8>>,
        cap: nat,
        start: Seq<Seq<u8>>,
        rounds: nat,
        end: Seq<Seq<u8>>,
        total: u64,
    )
        requires
            self.serves(fetch, id, remote, cap),
            self.fills(fetch, id, remote, cap),
            cap >= 1,
            remote.len() <= u64::MAX,
            start.len() <= remote.len(),
            start == remote.take(start.len() as int),
            self.run(fetch, id, start, rounds, end, Ok(total)),
        ensures
            rounds == rounds_needed((remote.len() - start.len()) as nat, cap),
            rounds <= rounds_needed(remote.len(), cap),
    {
        let mid = choose|mid: Seq<Seq<u8>>| #[trigger]
            self.reaches(fetch, id, start, rounds, mid) && end == mid && self.round(
                fetch,
                id,
                mid,
                end,
                Ok(0),
            ) && total == end.len() - start.len();
        self.lemma_reaches_follows_remote(fetch, id, remote, cap, start, rounds, mid);
        self.lemma_run_converges(fetch, id, remote, cap, start, rounds, end, total);
        let missing = (remote.len() - start.len()) as nat;
        if rounds == 0 {
            assert(rounds * cap == 0) by (nonlinear_arith)
                requires
                    rounds == 0,
            ;
        } else {
            assert(rounds * cap == (rounds - 1) * cap + cap) by (nonlinear_arith);
            assert(((rounds - 1) * cap + (missing - 1 - (rounds - 1) * cap)) / cap as int == rounds
                - 1) by (nonlinear_arith)
                requires
                    cap >= 1,
                    rounds >= 1,
                    0 <= missing - 1 - (rounds - 1) * cap < cap,
            ;
        }
        lemma_rounds_needed_grows(missing, remote.len(), cap);
    }

    /// A round that brought nothing, followed at once by another against a
    /// remote that answers as before: the second brings nothing either, and the
    /// replica is as it was before both.
    pub proof fn lemma_resync_is_idempotent<F: Fn(Request) -> Result<Response, TransportError>>(
        &self,
        fetch: F,
        id: BlockHash,
        before: Seq<Seq<u8>>,
        between: Seq<Seq<u8>>,
        after: Seq<Seq<u8>>,
        again: Result<u64, SyncError>,
    )
        requires
            self.round(fetch, id, before, between, Ok(0)),
            self.round(fetch, id, between, after, again),
            self.steady(fetch, id, before.len()),
        ensures
            between == before,
            after == before,
            again matches Ok(n) && n == 0,
    {
        let have = before.len();
        self.lemma_round_grows(fetch, id, before, between, 0);
        let (first, first_reply) = choose|
            request: Request,
            reply: Result<Response, TransportError>,
        |
            {
                &&& self.asks(request, id, spec_tail_range(have))
                &&& #[trigger] call_ensures(fetch, (request,), reply)
                &&& resync_step(before, reply, between, Ok(0))
            };
        let (second, second_reply) = choose|
            request: Request,
            reply: Result<Response, TransportError>,
        |
            {
                &&& self.asks(request, id, spec_tail_range(have))
                &&& #[trigger] call_ensures(fetch, (request,), reply)
                &&& resync_step(between, reply, after, again)
            };
        assert(whole_block_count(second_reply->Ok_0.body@) == whole_block_count(
            first_reply->Ok_0.body@,
        ));
        if second_reply->Ok_0.status == PARTIAL_CONTENT {
            assert(whole_blocks(second_reply->Ok_0.body@) =~= Seq::<Seq<u8>>::empty());
            assert(after =~= before);
        }
    }
}

} // verus!
