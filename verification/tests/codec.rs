use blockstream::block::Block;
use blockstream::codec::{decode, encode};

fn sample_block() -> Block {
    let mut parent_hash = vec![0u8; 32];
    parent_hash[0] = 0xaa;
    parent_hash[31] = 0x55;
    let mut content = vec![0u8; 16];
    content[0] = 1;
    content[1] = 2;
    content[2] = 3;
    Block { block_number: 0x0102030405060708, parent_hash, content }
}

#[test]
fn encode_layout_is_fixed() {
    let b = sample_block();
    let frame = encode(&b);
    assert_eq!(frame.len(), 56);
    // little-endian number in the first eight bytes
    assert_eq!(&frame[0..8], &[0x08, 0x07, 0x06, 0x05, 0x04, 0x03, 0x02, 0x01]);
    // parent hash in the next thirty-two
    assert_eq!(&frame[8..40], b.parent_hash.as_slice());
    // content in the last sixteen
    assert_eq!(&frame[40..56], b.content.as_slice());
}

#[test]
fn decode_reads_all_three_fields() {
    let mut frame = vec![0u8; 56];
    frame[0] = 42;
    frame[8] = 9;
    frame[39] = 7;
    frame[40] = 100;
    frame[55] = 200;
    let b = decode(&frame);
    assert_eq!(b.block_number, 42);
    assert_eq!(b.parent_hash[0], 9);
    assert_eq!(b.parent_hash[31], 7);
    assert_eq!(b.content[0], 100);
    assert_eq!(b.content[15], 200);
}

#[test]
fn decode_inverts_encode() {
    let b = sample_block();
    let frame = encode(&b);
    let back = decode(&frame);
    assert_eq!(back, b);
}

#[test]
fn decode_inverts_encode_on_extreme_values() {
    let b = Block { block_number: u64::MAX, parent_hash: vec![0xff; 32], content: vec![0xff; 16] };
    assert_eq!(decode(&encode(&b)), b);
    let z = Block { block_number: 0, parent_hash: vec![0; 32], content: vec![0; 16] };
    assert_eq!(decode(&encode(&z)), z);
}

#[test]
fn all_zero_parent_hash_is_the_genesis_sentinel() {
    let b = Block { block_number: 0, parent_hash: vec![0; 32], content: vec![0; 16] };
    let frame = encode(&b);
    assert!(frame[8..40].iter().all(|&x| x == 0));
}

#[test]
fn blocks_compare_by_all_fields() {
    let a = sample_block();
    let mut b = sample_block();
    assert_eq!(a, b);
    b.content[5] = 99;
    assert_ne!(a, b);
    let mut c = sample_block();
    c.block_number = 1;
    assert_ne!(a, c);
}

#[test]
fn duplicate_copies_every_field() {
    let a = sample_block();
    let d = a.duplicate();
    assert_eq!(a, d);
}
