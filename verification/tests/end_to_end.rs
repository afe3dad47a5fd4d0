use chain_sync::client::SyncClient;
use chain_sync::error::TransportError;
use chain_sync::hash::BlockHash;
use chain_sync::range::{ByteRange, BLOCK};
use chain_sync::reply::{Request, Response};
use chain_sync::store::StoreDir;
use std::cell::Cell;
use zf_zebrachain::{sign_block, BlockState, Payload, Secret, Seed, DIGEST, SECRET};

const BLOCKS: usize = 84;
const PER_REPLY: usize = 20;
const CHAIN_HASH: &[u8] = b"KTWQTZC5N5JF9THP7SIEBPXHLP5NONE9HGSSSVWEROFQQNLNOP9N8ENNUS4QGBA45YUKBMVH";
const TAIL_BLOCK_HASH: &[u8] = b"5QXDWO98EUMJBGAF94SXIQZLEDA4RE5NYNDFKPBV7XBR9ZKVBNSHUWVKWU5DFFP77ON9WK5P";

fn hash_at(buf: &[u8], offset: usize) -> zf_zebrachain::Hash {
    zf_zebrachain::Hash::from_slice(&buf[offset..offset + DIGEST]).unwrap()
}

fn remote_chain(blocks: usize) -> Vec<u8> {
    let zeros = zf_zebrachain::Hash::from_bytes([0; DIGEST]);
    let mut seed = Seed::create(&Secret::from_bytes([42; SECRET]));
    let mut bytes = Vec::new();
    let mut prev: Option<BlockState> = None;
    for i in 0..blocks {
        let mut buf = vec![0u8; BLOCK];
        let state_hash = zf_zebrachain::Hash::from_bytes([(i % 251) as u8; DIGEST]);
        let payload = Payload::new(1000 + i as u64, state_hash);
        let hash = sign_block(&mut buf, &seed, &payload, prev.as_ref());
        let state = match &prev {
            None => BlockState::new(0, hash, zeros, zeros, hash_at(&buf, 3873), payload),
            Some(before) => BlockState::new(
                i as u64,
                hash,
                before.effective_chain_hash(),
                before.block_hash,
                hash_at(&buf, 3873),
                payload,
            ),
        };
        bytes.extend_from_slice(&buf);
        let mut entropy = [1u8; SECRET];
        entropy[0] = (i % 256) as u8;
        entropy[1] = (i / 256) as u8;
        seed = seed.next(&Secret::from_bytes(entropy));
        prev = Some(state);
    }
    bytes
}

#[test]
fn bootstrap_then_catch_up_with_a_fixed_chain() {
    let remote = remote_chain(BLOCKS);
    assert_eq!(remote.len(), BLOCKS * BLOCK);
    let tmp = tempfile::TempDir::new().unwrap();
    let client = SyncClient::new(
        StoreDir::new(tmp.path().to_str().unwrap()),
        String::from("https://chains.example"),
    );
    let id = BlockHash::from_z32(CHAIN_HASH).unwrap();
    let requests = Cell::new(0usize);
    let fetch = |request: Request| -> Result<Response, TransportError> {
        requests.set(requests.get() + 1);
        let len = remote.len() as u128;
        let (start, end) = match request.range {
            ByteRange::Bounded { start, end } => (start, end),
            ByteRange::Open { start } => (start, u128::MAX),
        };
        if start >= len {
            return Ok(Response { status: 416, body: Vec::new() });
        }
        let end = end.min(len - 1).min(start + (PER_REPLY * BLOCK) as u128 - 1);
        Ok(Response { status: 206, body: remote[start as usize..=end as usize].to_vec() })
    };
    let mut store = client.bootstrap(&id, 1, &fetch).unwrap();
    assert_eq!(store.block_count(), 1);
    let brought = client.resync_loop(&mut store, &fetch).unwrap();
    assert_eq!(brought, BLOCKS as u64 - 1);
    assert_eq!(store.block_count(), BLOCKS as u64);
    assert_eq!(store.tail_hash(), BlockHash::from_z32(TAIL_BLOCK_HASH).unwrap());
    assert_eq!(store.tail_hash().to_z32().as_bytes(), TAIL_BLOCK_HASH);
    assert_eq!(requests.get(), 1 + 5 + 1);
    assert!(store.is_converged());
    let reopened = client.dir.open(&id).unwrap();
    assert_eq!(reopened.block_count(), BLOCKS as u64);
}
