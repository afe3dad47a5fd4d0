//! The local replica of a chain: an append-only ledger of blocks kept by
//! `zf_zebrachain`, which checks every block against the one before it.

use vstd::prelude::*;
use crate::blocks::{all_block_sized, count_whole_blocks, nth_block, whole_block_count, whole_blocks};
use crate::error::StoreError;
use crate::hash::{BlockHash, DIGEST};
use crate::range::BLOCK;

verus! {

/// A directory of chain files, as `zf_zebrachain` keeps it.
#[verifier::external_type_specification]
#[verifier::external_body]
pub struct ExChainStore(zf_zebrachain::ChainStore);

/// One open chain file, as `zf_zebrachain` keeps it.
#[verifier::external_type_specification]
#[verifier::external_body]
pub struct ExChain(zf_zebrachain::Chain);

/// The blocks that an open chain holds, first block first.
pub uninterp spec fn chain_blocks(chain: zf_zebrachain::Chain) -> Seq<Seq<u8>>;

/// The path of the directory that a chain store keeps its chain files in.
pub uninterp spec fn chain_store_dir(store: zf_zebrachain::ChainStore) -> Seq<char>;

/// `zf_zebrachain::ChainStore::new`: the store keeps the path handed over as its
/// directory, and touches nothing on disk.
#[verifier::external_body]
fn chain_store_at(dir: &str) -> (store: zf_zebrachain::ChainStore)
    ensures
        chain_store_dir(store) == dir@,
{
    zf_zebrachain::ChainStore::new(std::path::Path::new(dir))
}

/// `zf_zebrachain::ChainStore::create_chain`. It panics on a buffer that is not
/// `BLOCK` bytes long. Where it succeeds, the new chain holds the one block
/// handed over, and the hash that this block carries in its first `DIGEST`
/// bytes is the chain's. Whether it succeeds is up to the block's content and
/// the disk.
#[verifier::external_body]
fn chain_create(
    dir: &zf_zebrachain::ChainStore,
    first_block: &[u8],
    id: &BlockHash,
) -> (result: Result<zf_zebrachain::Chain, std::io::Error>)
    requires
        first_block@.len() == BLOCK,
    ensures
        result matches Ok(chain) ==> chain_blocks(chain) == seq![first_block@]
            && first_block@.subrange(0, DIGEST as int) == id@,
{
    dir.create_chain(first_block, &zf_zebrachain::Hash::from_bytes(id.bytes))
}

/// `zf_zebrachain::ChainStore::open_chain`. A chain that opens holds its first
/// block at least, and whole blocks only; the hash that its first block carries
/// in its first `DIGEST` bytes is the chain's.
#[verifier::external_body]
fn chain_open(dir: &zf_zebrachain::ChainStore, id: &BlockHash) -> (result: Result<
    zf_zebrachain::Chain,
    std::io::Error,
>)
    ensures
        result matches Ok(chain) ==> chain_blocks(chain).len() >= 1 && all_block_sized(
            chain_blocks(chain),
        ) && chain_blocks(chain)[0].subrange(0, DIGEST as int) == id@,
{
    dir.open_chain(&zf_zebrachain::Hash::from_bytes(id.bytes))
}

/// `zf_zebrachain::Chain::append`. It panics on a buffer that is not `BLOCK`
/// bytes long. An accepted block becomes the last block of the chain; a refused
/// one leaves the chain as it was.
#[verifier::external_body]
fn chain_append(chain: &mut zf_zebrachain::Chain, block: &[u8]) -> (result: Result<
    (),
    std::io::Error,
>)
    requires
        block@.len() == BLOCK,
    ensures
        result is Ok ==> chain_blocks(*final(chain)) == chain_blocks(*old(chain)).push(block@),
        result is Err ==> chain_blocks(*final(chain)) == chain_blocks(*old(chain)),
{
    match chain.append(block) {
        Ok(_) => Ok(()),
        Err(e) => Err(e),
    }
}

/// `zf_zebrachain::Chain::count`: the number of blocks in the chain.
#[verifier::external_body]
fn chain_count(chain: &zf_zebrachain::Chain) -> (count: u64)
    ensures
        count as nat == chain_blocks(*chain).len(),
{
    chain.count()
}

/// The `block_hash` of `zf_zebrachain::Chain::tail`: the hash that the last
/// block of the chain carries in its first `DIGEST` bytes.
#[verifier::external_body]
fn chain_tail_hash(chain: &zf_zebrachain::Chain) -> (hash: [u8; DIGEST])
    ensures
        hash@ == chain_blocks(*chain).last().subrange(0, DIGEST as int),
{
    *chain.tail().block_hash.as_bytes()
}

/// The directory in which the local replicas live, one file per chain.
pub struct StoreDir {
    inner: zf_zebrachain::ChainStore,
}

/// The local replica of one chain.
///
/// A replica is converged when the last attempt to catch up with the remote
/// found nothing new, and no block has been added since.
pub struct Store {
    chain: zf_zebrachain::Chain,
    id: BlockHash,
    converged: bool,
}

impl View for Store {
    type V = Seq<Seq<u8>>;

    /// The blocks of the replica, first block first.
    closed spec fn view(&self) -> Seq<Seq<u8>> {
        chain_blocks(self.chain)
    }
}

impl StoreDir {
    /// The directory at `dir`: the replica of a chain is the file in `dir` that
    /// is named by the text form of the chain's hash. Nothing is read or written
    /// yet.
    pub fn new(dir: &str) -> (store_dir: StoreDir)
        ensures
            store_dir.dir() == dir@,
    {
        StoreDir { inner: chain_store_at(dir) }
    }

    /// The path of the directory in which the replicas live.
    pub closed spec fn dir(&self) -> Seq<char> {
        chain_store_dir(self.inner)
    }

    /// Makes the replica of chain `id` out of the chain's first block.
    ///
    /// Bytes that are not exactly one block are refused before anything is
    /// written. Whether a block of the right size is accepted is for the
    /// replica to say; where it is, the new replica holds that one block.
    pub fn create(&self, first_block: &[u8], id: &BlockHash) -> (result: Result<Store, StoreError>)
        ensures
            first_block@.len() != BLOCK ==> (result matches Err(StoreError::BlockSize(n)) && n
                == first_block@.len()),
            first_block@.len() == BLOCK ==> !(result matches Err(StoreError::BlockSize(_))),
            result matches Ok(store) ==> store@ == seq![first_block@] && store.wf()
                && store.chain_id() == *id && !store.converged(),
    {
        if first_block.len() != BLOCK {
            return Err(StoreError::BlockSize(first_block.len()));
        }
        match chain_create(&self.inner, first_block, id) {
            Ok(chain) => Ok(Store { chain, id: *id, converged: false }),
            Err(e) => Err(StoreError::Rejected(e)),
        }
    }

    /// Opens the replica of chain `id`, if there is one.
    pub fn open(&self, id: &BlockHash) -> (result: Result<Store, StoreError>)
        ensures
            result matches Ok(store) ==> store.wf() && store.chain_id() == *id
                && !store.converged(),
            result matches Err(e) ==> e is Rejected,
    {
        match chain_open(&self.inner, id) {
            Ok(chain) => Ok(Store { chain, id: *id, converged: false }),
            Err(e) => Err(StoreError::Rejected(e)),
        }
    }
}

impl Store {
    /// The chain that this is a replica of.
    pub closed spec fn chain_id(&self) -> BlockHash {
        self.id
    }

    /// Whether the last attempt to catch up found nothing new, with no block
    /// added since.
    pub closed spec fn converged(&self) -> bool {
        self.converged
    }

    /// A replica holds its chain's first block at least, and whole blocks only.
    /// The hash that the first block carries is the name of the chain.
    pub open spec fn wf(&self) -> bool {
        &&& self@.len() >= 1
        &&& all_block_sized(self@)
        &&& self@[0].subrange(0, DIGEST as int) == self.chain_id()@
    }

    /// The hash of the chain that this is a replica of.
    pub fn id(&self) -> (id: BlockHash)
        ensures
            id == self.chain_id(),
    {
        self.id
    }

    /// Whether the last attempt to catch up found nothing new, with no block
    /// added since.
    pub fn is_converged(&self) -> (converged: bool)
        ensures
            converged == self.converged(),
    {
        self.converged
    }

    /// Records whether an attempt to catch up found nothing new.
    pub(crate) fn set_converged(&mut self, converged: bool)
        ensures
            final(self)@ == old(self)@,
            final(self).chain_id() == old(self).chain_id(),
            final(self).converged() == converged,
    {
        self.converged = converged;
    }

    /// The number of blocks in the replica.
    pub fn block_count(&self) -> (count: u64)
        ensures
            count as nat == self@.len(),
    {
        chain_count(&self.chain)
    }

    /// The hash of the last block of the replica: that block's first `DIGEST`
    /// bytes.
    pub fn tail_hash(&self) -> (hash: BlockHash)
        ensures
            hash@ == self@.last().subrange(0, DIGEST as int),
    {
        BlockHash { bytes: chain_tail_hash(&self.chain) }
    }

    /// Offers one block to the replica.
    ///
    /// Bytes that are not exactly one block are refused at once. An accepted
    /// block becomes the last block; a refused one changes nothing.
    pub fn append(&mut self, block: &[u8]) -> (result: Result<(), StoreError>)
        requires
            old(self).wf(),
        ensures
            final(self).wf(),
            final(self).chain_id() == old(self).chain_id(),
            result is Ok ==> final(self)@ == old(self)@.push(block@) && !final(self).converged(),
            result is Err ==> final(self)@ == old(self)@ && final(self).converged() == old(
                self,
            ).converged(),
            block@.len() != BLOCK ==> (result matches Err(StoreError::BlockSize(n)) && n
                == block@.len()),
            block@.len() == BLOCK ==> !(result matches Err(StoreError::BlockSize(_))),
    {
        if block.len() != BLOCK {
            return Err(StoreError::BlockSize(block.len()));
        }
        match chain_append(&mut self.chain, block) {
            Ok(()) => {
                self.converged = false;
                Ok(())
            },
            Err(e) => Err(StoreError::Rejected(e)),
        }
    }

    /// Offers the whole blocks of `body` from the `from`-th on to the replica,
    /// one after the other and in the order in which they stand in `body`.
    ///
    /// Where every block is accepted, the replica has grown by exactly those
    /// blocks. The first refusal ends the work: the blocks before the refused
    /// one stay, none behind it is offered.
    pub fn append_blocks_from(&mut self, body: &[u8], from: usize) -> (result: Result<
        (),
        StoreError,
    >)
        requires
            old(self).wf(),
            from as nat <= whole_block_count(body@),
        ensures
            final(self).wf(),
            final(self).chain_id() == old(self).chain_id(),
            !old(self).converged() ==> !final(self).converged(),
            result is Ok ==> final(self)@ == old(self)@ + whole_blocks(body@).skip(from as int),
            result matches Err(e) ==> e is Rejected && exists|k: int|
                from <= k < whole_block_count(body@) && final(self)@ == old(self)@ + whole_blocks(
                    body@,
                ).subrange(from as int, k),
    {
        let count: usize = count_whole_blocks(body);
        let mut i: usize = from;
        assert(whole_blocks(body@).subrange(from as int, from as int) =~= Seq::empty());
        assert(old(self)@ + Seq::<Seq<u8>>::empty() =~= old(self)@);
        while i < count
            invariant
                from <= i <= count,
                count as nat == whole_block_count(body@),
                count as nat == whole_blocks(body@).len(),
                self.wf(),
                self.chain_id() == old(self).chain_id(),
                !old(self).converged() ==> !self.converged(),
                self@ == old(self)@ + whole_blocks(body@).subrange(from as int, i as int),
            decreases count - i,
        {
            let block = nth_block(body, i);
            match self.append(block) {
                Ok(()) => {
                    assert(whole_blocks(body@).subrange(from as int, i as int).push(block@)
                        =~= whole_blocks(body@).subrange(from as int, i + 1));
                    assert(self@ =~= old(self)@ + whole_blocks(body@).subrange(
                        from as int,
                        i + 1,
                    ));
                },
                Err(e) => {
                    return Err(e);
                },
            }
            i += 1;
        }
        assert(whole_blocks(body@).subrange(from as int, count as int) =~= whole_blocks(
            body@,
        ).skip(from as int));
        Ok(())
    }

    /// Offers the whole blocks at the front of `body` to the replica, one after
    /// the other and in the order in which they stand in `body`. What follows the
    /// last whole block is never offered.
    ///
    /// Where every block is accepted, the replica has grown by exactly those
    /// blocks and their number is returned. The first refusal ends the work: the
    /// blocks before the refused one stay, none behind it is offered.
    pub fn append_blocks(&mut self, body: &[u8]) -> (result: Result<u64, StoreError>)
        requires
            old(self).wf(),
        ensures
            final(self).wf(),
            final(self).chain_id() == old(self).chain_id(),
            !old(self).converged() ==> !final(self).converged(),
            result matches Ok(n) ==> n as nat == whole_block_count(body@) && final(self)@ == old(
                self,
            )@ + whole_blocks(body@),
            result matches Err(e) ==> e is Rejected && exists|k: int|
                0 <= k < whole_block_count(body@) && final(self)@ == old(self)@ + whole_blocks(
                    body@,
                ).take(k),
    {
        let count: usize = count_whole_blocks(body);
        match self.append_blocks_from(body, 0) {
            Ok(()) => {
                assert(whole_blocks(body@).skip(0) =~= whole_blocks(body@));
                Ok(count as u64)
            },
            Err(e) => {
                assert forall|k: int| 0 <= k < whole_block_count(body@) implies #[trigger] whole_blocks(
                    body@,
                ).subrange(0, k) == whole_blocks(body@).take(k) by {}
                Err(e)
            },
        }
    }
}

} // verus!
