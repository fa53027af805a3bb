use blockstream::block::Block;
use blockstream::codec::encode;
use blockstream::stream::{read_blocks, Deframer, Pulled};

fn block(number: u64, hash_byte: u8, content_byte: u8) -> Block {
    Block {
        block_number: number,
        parent_hash: vec![hash_byte; 32],
        content: vec![content_byte; 16],
    }
}

fn frames_for(blocks: &[Block]) -> Vec<u8> {
    let mut bytes = Vec::new();
    for b in blocks {
        bytes.extend_from_slice(&encode(b));
    }
    bytes
}

#[test]
fn test_read_blocks() {
    let data = vec![0; 56];
    let mut stream = read_blocks(data);
    loop {
        match stream.next_record() {
            Pulled::Block(b) => assert_eq!(b.block_number, 0),
            Pulled::End => break,
            Pulled::Malformed => panic!("a full frame must decode"),
        }
    }
}

#[test]
fn full_frames_yield_each_block_in_order() {
    let blocks = vec![block(30, 1, 10), block(20, 2, 20), block(10, 3, 30)];
    let mut stream = read_blocks(frames_for(&blocks));
    for expected in &blocks {
        match stream.next_record() {
            Pulled::Block(b) => assert_eq!(&b, expected),
            _ => panic!("expected a block"),
        }
    }
    assert!(matches!(stream.next_record(), Pulled::End));
}

#[test]
fn malformed_tail_yields_blocks_then_one_error() {
    let blocks = vec![block(9, 1, 1), block(8, 2, 2)];
    let mut bytes = frames_for(&blocks);
    bytes.extend_from_slice(&[0xde; 13]);
    let mut stream = read_blocks(bytes);
    assert!(matches!(stream.next_record(), Pulled::Block(_)));
    assert!(matches!(stream.next_record(), Pulled::Block(_)));
    assert!(matches!(stream.next_record(), Pulled::Malformed));
    // terminated: no further items, even when polled again
    assert!(matches!(stream.next_record(), Pulled::End));
    assert!(matches!(stream.next_record(), Pulled::End));
}

#[test]
fn exhausted_stream_stays_exhausted() {
    let mut stream = read_blocks(frames_for(&[block(1, 0, 0)]));
    assert!(matches!(stream.next_record(), Pulled::Block(_)));
    assert!(matches!(stream.next_record(), Pulled::End));
    assert!(matches!(stream.next_record(), Pulled::End));
}

#[test]
fn single_short_read_is_malformed_at_close() {
    let mut stream = read_blocks(vec![1, 2, 3]);
    assert!(matches!(stream.next_record(), Pulled::Malformed));
    assert!(matches!(stream.next_record(), Pulled::End));
}

#[test]
fn deframer_accumulates_across_partial_deliveries() {
    let b = block(77, 4, 5);
    let frame = encode(&b);
    let mut deframer = Deframer::new();
    assert!(deframer.push(&frame[0..20]).is_empty());
    assert!(!deframer.boundary_clean());
    let out = deframer.push(&frame[20..56]);
    assert_eq!(out.len(), 1);
    assert_eq!(out[0], b);
    assert!(deframer.boundary_clean());
}

#[test]
fn deframer_drains_every_complete_frame() {
    let b1 = block(5, 1, 1);
    let b2 = block(4, 2, 2);
    let mut bytes = frames_for(&[b1.duplicate(), b2.duplicate()]);
    bytes.extend_from_slice(&[9; 11]);
    let mut deframer = Deframer::new();
    let out = deframer.push(&bytes);
    assert_eq!(out.len(), 2);
    assert_eq!(out[0], b1);
    assert_eq!(out[1], b2);
    // eleven stray bytes remain: a close here is not at a boundary
    assert!(!deframer.boundary_clean());
}

#[test]
fn empty_source_ends_immediately() {
    let mut stream = read_blocks(Vec::new());
    assert!(matches!(stream.next_record(), Pulled::End));
    assert!(matches!(stream.next_record(), Pulled::End));
}

#[test]
fn deframer_takes_a_frame_one_byte_at_a_time() {
    let b = block(11, 6, 7);
    let frame = encode(&b);
    let mut deframer = Deframer::new();
    let mut out = Vec::new();
    for &byte in frame.iter() {
        out.extend(deframer.push(&[byte]));
    }
    assert_eq!(out.len(), 1);
    assert_eq!(out[0], b);
    assert!(deframer.boundary_clean());
}
