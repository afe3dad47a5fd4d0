use chain_sync::error::SyncError;
use chain_sync::header::range_value;
use chain_sync::range::{bulk_range, single_block_range, tail_range, ByteRange, BLOCK};

#[test]
fn block_size_is_that_of_the_chain_format() {
    assert_eq!(BLOCK, 4069);
    assert_eq!(BLOCK, zf_zebrachain::BLOCK);
}

#[test]
fn single_block_range_of_first_block() {
    let range = single_block_range(0);
    assert_eq!(range, ByteRange::Bounded { start: 0, end: 4068 });
    assert_eq!(range.to_wire(), "bytes=0-4068");
}

#[test]
fn single_block_range_of_later_block() {
    let range = single_block_range(3);
    assert_eq!(range, ByteRange::Bounded { start: 12207, end: 16275 });
    assert_eq!(range.to_wire(), "bytes=12207-16275");
    assert_eq!(range.start(), 12207);
    assert!(!range.is_open());
}

#[test]
fn single_block_range_equals_bulk_range_of_one() {
    for index in [0u64, 1, 2, 41, 419, 1 << 20, u64::MAX - 1, u64::MAX] {
        let single = single_block_range(index);
        let bulk = bulk_range(index, 1).unwrap();
        assert_eq!(single, bulk);
        assert_eq!(single.to_wire(), bulk.to_wire());
    }
}

#[test]
fn bulk_range_spans_whole_blocks() {
    for (index, count) in [(0u64, 1u64), (0, 420), (7, 3), (419, 1), (u64::MAX, u64::MAX)] {
        let range = bulk_range(index, count).unwrap();
        assert_eq!(range.byte_len(), Some(count as u128 * BLOCK as u128));
        assert_eq!(range.start(), index as u128 * BLOCK as u128);
        match range {
            ByteRange::Bounded { start, end } => {
                assert_eq!(end - start + 1, count as u128 * 4069);
                assert_eq!(start % 4069, 0);
            }
            ByteRange::Open { .. } => panic!("a bulk range is bounded"),
        }
    }
}

#[test]
fn bulk_range_exact_values() {
    assert_eq!(bulk_range(2, 3).unwrap(), ByteRange::Bounded { start: 8138, end: 20344 });
    assert_eq!(bulk_range(2, 3).unwrap().to_wire(), "bytes=8138-20344");
    assert_eq!(bulk_range(0, 420).unwrap().to_wire(), "bytes=0-1708979");
}

#[test]
fn bulk_range_of_zero_blocks_is_an_argument_error() {
    assert!(matches!(bulk_range(0, 0), Err(SyncError::Argument)));
    assert!(matches!(bulk_range(17, 0), Err(SyncError::Argument)));
    assert!(matches!(bulk_range(u64::MAX, 0), Err(SyncError::Argument)));
}

#[test]
fn tail_range_is_open_ended() {
    let range = tail_range(420);
    assert_eq!(range, ByteRange::Open { start: 1708980 });
    assert_eq!(range.to_wire(), "bytes=1708980-");
    assert!(range.is_open());
    assert_eq!(range.byte_len(), None);
    assert_eq!(tail_range(0).to_wire(), "bytes=0-");
    assert_eq!(tail_range(1).to_wire(), "bytes=4069-");
}

#[test]
fn ranges_of_the_largest_index_do_not_overflow() {
    let range = single_block_range(u64::MAX);
    let start = u64::MAX as u128 * 4069;
    assert_eq!(range, ByteRange::Bounded { start, end: start + 4068 });
    assert_eq!(range.to_wire(), format!("bytes={}-{}", start, start + 4068));
    assert_eq!(tail_range(u64::MAX).to_wire(), format!("bytes={}-", start));
    let bulk = bulk_range(u64::MAX, u64::MAX).unwrap();
    assert_eq!(bulk.to_wire(), format!("bytes={}-{}", start, 2 * start - 1));
}

#[test]
fn wire_form_matches_decimal_formatting() {
    for index in [0u64, 9, 10, 99, 100, 101, 1000, 65535, 123456789, u64::MAX / 4069] {
        let start = index as u128 * 4069;
        assert_eq!(single_block_range(index).to_wire(), format!("bytes={}-{}", start, start + 4068));
        assert_eq!(tail_range(index).to_wire(), format!("bytes={}-", start));
    }
}

#[test]
fn range_header_value_holds_the_wire_form() {
    let value = range_value(&single_block_range(0));
    assert_eq!(value.to_str().unwrap(), "bytes=0-4068");
    assert_eq!(value.as_bytes(), b"bytes=0-4068");
    let value = range_value(&tail_range(420));
    assert_eq!(value.to_str().unwrap(), "bytes=1708980-");
    let value = range_value(&bulk_range(u64::MAX, u64::MAX).unwrap());
    assert_eq!(
        value.as_bytes(),
        bulk_range(u64::MAX, u64::MAX).unwrap().to_wire().as_bytes()
    );
}

#[test]
fn decimal_numerals() {
    for n in [0u128, 1, 9, 10, 11, 99, 100, 4068, 4069, 1708979, u64::MAX as u128, u128::MAX] {
        let mut text = String::from(">");
        chain_sync::decimal::push_decimal(&mut text, n);
        assert_eq!(text, format!(">{}", n));
    }
}
