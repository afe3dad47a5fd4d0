use chain_sync::blocks::{count_whole_blocks, nth_block};
use chain_sync::hash::BlockHash;
use chain_sync::range::BLOCK;
use chain_sync::reply::chain_url;

fn patterned(len: usize) -> Vec<u8> {
    (0..len).map(|i| (i % 251) as u8).collect()
}

#[test]
fn empty_body_holds_no_block() {
    assert_eq!(count_whole_blocks(&[]), 0);
}

#[test]
fn body_shorter_than_a_block_holds_no_block() {
    assert_eq!(count_whole_blocks(&patterned(1)), 0);
    assert_eq!(count_whole_blocks(&patterned(BLOCK - 1)), 0);
}

#[test]
fn body_of_exact_blocks() {
    assert_eq!(count_whole_blocks(&patterned(BLOCK)), 1);
    assert_eq!(count_whole_blocks(&patterned(3 * BLOCK)), 3);
}

#[test]
fn trailing_remainder_adds_no_block() {
    assert_eq!(count_whole_blocks(&patterned(BLOCK + 1)), 1);
    assert_eq!(count_whole_blocks(&patterned(3 * BLOCK + BLOCK - 1)), 3);
    assert_eq!(count_whole_blocks(&patterned(2 * BLOCK + 100)), 2);
}

#[test]
fn blocks_come_out_in_body_order() {
    let body = patterned(3 * BLOCK + 17);
    for i in 0..3 {
        let block = nth_block(&body, i);
        assert_eq!(block.len(), BLOCK);
        assert_eq!(block, &body[i * BLOCK..(i + 1) * BLOCK]);
    }
}

#[test]
fn hash_text_of_known_bytes() {
    assert_eq!(BlockHash::new([0u8; 45]).to_z32(), "4".repeat(72));
    assert_eq!(BlockHash::new([255u8; 45]).to_z32(), "Z".repeat(72));
}

#[test]
fn hash_text_round_trip() {
    let text = b"K4UDPUCXUUWROI4T7X8DVKO7PXN8DFOUGA5COIRQZKW6BQGDW8MAIMACKJU69JHN5TMUXZLT";
    let hash = BlockHash::from_z32(text).unwrap();
    assert_eq!(hash.to_z32().as_bytes(), text);
    assert_eq!(hash.bytes, *zf_zebrachain::Hash::from_z32(text).unwrap().as_bytes());
    assert_ne!(&hash.bytes[..], &text[..45]);
}

#[test]
fn hash_text_of_wrong_length_is_refused() {
    assert_eq!(BlockHash::from_z32(b""), None);
    assert_eq!(BlockHash::from_z32(&[b'4'; 71]), None);
    assert_eq!(BlockHash::from_z32(&[b'4'; 73]), None);
    assert!(BlockHash::from_z32(&[b'4'; 72]).is_some());
}

#[test]
fn hash_text_with_foreign_symbol_is_refused() {
    for bad in [b'0', b'1', b'2', b'3', b'a', b'z', b'@', b'[', b':', b' ', 0u8, 255u8] {
        let mut text = [b'Z'; 72];
        text[40] = bad;
        assert_eq!(BlockHash::from_z32(&text), None);
    }
    for good in [b'4', b'9', b'A', b'Z'] {
        let mut text = [b'K'; 72];
        text[71] = good;
        assert!(BlockHash::from_z32(&text).is_some());
    }
}

#[test]
fn hashes_compare_by_bytes() {
    let a = BlockHash::new([7u8; 45]);
    let mut bytes = [7u8; 45];
    let b = BlockHash::new(bytes);
    assert!(a.same_as(&b));
    bytes[44] = 8;
    assert!(!a.same_as(&BlockHash::new(bytes)));
    bytes[44] = 7;
    bytes[0] = 0;
    assert!(!a.same_as(&BlockHash::new(bytes)));
}

#[test]
fn chain_url_joins_origin_and_hash_text() {
    let text = b"K4UDPUCXUUWROI4T7X8DVKO7PXN8DFOUGA5COIRQZKW6BQGDW8MAIMACKJU69JHN5TMUXZLT";
    let id = BlockHash::from_z32(text).unwrap();
    assert_eq!(
        chain_url("https://json420.github.io", &id),
        "https://json420.github.io/chains/K4UDPUCXUUWROI4T7X8DVKO7PXN8DFOUGA5COIRQZKW6BQGDW8MAIMACKJU69JHN5TMUXZLT"
    );
    assert_eq!(chain_url("", &BlockHash::new([0u8; 45])), format!("/chains/{}", "4".repeat(72)));
}
