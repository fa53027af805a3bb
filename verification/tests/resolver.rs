use blockstream::block::Block;
use blockstream::codec::encode;
use blockstream::resolver::{find_common_ancestor, resolve_step, StepVerdict};
use blockstream::stream::{read_blocks, BlockStream, StreamError};

/// A record of one test chain.  Heights one to three are the suffix
/// shared by every chain: identical number, parent hash and content.
/// Height three carries the all-zero genesis-sentinel parent hash.
/// Higher records get a parent hash that depends on the chain, so
/// equal heights on different chains never collide by accident.
fn record(chain: u8, number: u64) -> Block {
    let parent_hash = if number == 3 {
        vec![0u8; 32]
    } else if number < 3 {
        vec![number as u8; 32]
    } else {
        vec![50 * chain + number as u8; 32]
    };
    let content = if number == 3 {
        let mut c = vec![0u8; 16];
        c[0] = 1;
        c[1] = 2;
        c[2] = 3;
        c
    } else {
        vec![number as u8; 16]
    };
    Block { block_number: number, parent_hash, content }
}

/// Streams the records for the ascending heights, reversed so that the
/// highest record arrives first.
fn chain_stream(chain: u8, ascending: &[u64]) -> BlockStream {
    let mut bytes = Vec::new();
    for &number in ascending.iter().rev() {
        bytes.extend_from_slice(&encode(&record(chain, number)));
    }
    read_blocks(bytes)
}

#[test]
fn test_find_common_ancestor() {
    let mut streams = vec![
        chain_stream(0, &[1, 2, 3, 4, 5, 6, 7, 8, 9]),
        chain_stream(1, &[1, 2, 3, 9, 10, 11, 13, 14, 15, 16]),
        chain_stream(2, &[1, 2, 3, 17, 18, 19, 20, 21]),
    ];
    let common_ancestor = find_common_ancestor(&mut streams).unwrap();
    assert_eq!(
        common_ancestor,
        Some(Block {
            block_number: 3,
            parent_hash: vec![0u8; 32],
            content: {
                let mut c = vec![0u8; 16];
                c[0] = 1;
                c[1] = 2;
                c[2] = 3;
                c
            },
        })
    );
}

#[test]
fn single_chain_resolves_to_none() {
    let mut streams = vec![chain_stream(0, &[1, 2, 3, 4, 5])];
    assert_eq!(find_common_ancestor(&mut streams).unwrap(), None);
}

#[test]
fn no_chains_resolve_to_none() {
    let mut streams: Vec<BlockStream> = Vec::new();
    assert_eq!(find_common_ancestor(&mut streams).unwrap(), None);
}

#[test]
fn disjoint_number_ranges_resolve_to_none() {
    // chain 0 holds heights seven to nine, chain 1 heights one to
    // three: no height is shared, so one chain exhausts first
    let mut streams = vec![chain_stream(0, &[7, 8, 9]), chain_stream(1, &[1, 2, 3])];
    assert_eq!(find_common_ancestor(&mut streams).unwrap(), None);
}

#[test]
fn equal_heights_with_different_hashes_resolve_past_them() {
    // both chains hold height five, but with different parent hashes;
    // the true meeting point is the shared suffix at height three
    let mut streams = vec![chain_stream(0, &[1, 2, 3, 5]), chain_stream(1, &[1, 2, 3, 5, 6])];
    let found = find_common_ancestor(&mut streams).unwrap();
    assert_eq!(found.map(|b| b.block_number), Some(3));
}

#[test]
fn chains_of_unequal_length_still_meet() {
    // one chain is far longer above the shared suffix; only the
    // lagging chain may advance, or the meeting point would be skipped
    let mut streams = vec![
        chain_stream(0, &[1, 2, 3, 30, 31, 32, 33, 34, 35, 36]),
        chain_stream(1, &[1, 2, 3]),
    ];
    let found = find_common_ancestor(&mut streams).unwrap();
    assert_eq!(found.map(|b| b.block_number), Some(3));
}

#[test]
fn malformed_chain_aborts_resolution() {
    let mut bytes = Vec::new();
    bytes.extend_from_slice(&encode(&record(0, 10)));
    bytes.extend_from_slice(&[0xee; 21]);
    let mut streams = vec![read_blocks(bytes), chain_stream(1, &[4, 5])];
    let outcome = find_common_ancestor(&mut streams);
    assert!(matches!(outcome, Err(StreamError::MalformedFrame)));
}

#[test]
fn immediately_empty_chain_resolves_to_none() {
    let mut streams = vec![read_blocks(Vec::new()), chain_stream(1, &[1, 2, 3])];
    assert_eq!(find_common_ancestor(&mut streams).unwrap(), None);
}

#[test]
fn replayed_byte_content_resolves_identically() {
    let make = || {
        vec![
            chain_stream(0, &[1, 2, 3, 4, 5, 6, 7, 8, 9]),
            chain_stream(1, &[1, 2, 3, 9, 10, 11, 13, 14, 15, 16]),
            chain_stream(2, &[1, 2, 3, 17, 18, 19, 20, 21]),
        ]
    };
    let first = find_common_ancestor(&mut make()).unwrap();
    let second = find_common_ancestor(&mut make()).unwrap();
    assert_eq!(first, second);
}

#[test]
fn resolve_step_converges_on_one_shared_identity() {
    let frontiers = vec![record(0, 3), record(1, 3), record(2, 3)];
    match resolve_step(&frontiers) {
        StepVerdict::Converged(b) => assert_eq!(b, record(0, 3)),
        StepVerdict::Advance(_) => panic!("identical frontiers must converge"),
    }
}

#[test]
fn resolve_step_advances_only_chains_above_the_floor() {
    let frontiers = vec![record(0, 9), record(1, 4), record(2, 12)];
    match resolve_step(&frontiers) {
        StepVerdict::Converged(_) => panic!("different heights cannot converge"),
        StepVerdict::Advance(ix) => assert_eq!(ix, vec![0, 2]),
    }
}

#[test]
fn resolve_step_advances_everyone_on_a_hash_tie() {
    // one height, two hashes: nothing at this height is common
    let frontiers = vec![record(0, 7), record(1, 7)];
    match resolve_step(&frontiers) {
        StepVerdict::Converged(_) => panic!("differing hashes cannot converge"),
        StepVerdict::Advance(ix) => assert_eq!(ix, vec![0, 1]),
    }
}
