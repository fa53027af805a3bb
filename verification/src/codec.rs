use crate::block::{Block, BlockView, FRAME_BYTES, HASH_BYTES, NUMBER_BYTES};
use vstd::bytes::*;
use vstd::prelude::*;
use vstd::slice::*;

verus! {

/// The 56-byte wire image of a block: eight little-endian number bytes,
/// then the 32 parent-hash bytes, then the 16 content bytes.
pub open spec fn spec_encode(v: BlockView) -> Seq<u8> {
    spec_u64_to_le_bytes(v.number) + v.parent_hash + v.content
}

/// The block a 56-byte buffer denotes.  Every bit pattern is a valid
/// frame, so decoding is total on full buffers.
pub open spec fn spec_decode(s: Seq<u8>) -> BlockView {
    BlockView {
        number: spec_u64_from_le_bytes(s.subrange(0, NUMBER_BYTES as int)),
        parent_hash: s.subrange(NUMBER_BYTES as int, (NUMBER_BYTES + HASH_BYTES) as int),
        content: s.subrange((NUMBER_BYTES + HASH_BYTES) as int, FRAME_BYTES as int),
    }
}

/// Round trip: decoding an encoded block gives the block back, for every
/// block whose fields have the wire widths.
pub proof fn lemma_decode_encode(v: BlockView)
    requires
        v.wf(),
    ensures
        spec_encode(v).len() == FRAME_BYTES,
        spec_decode(spec_encode(v)) == v,
{
    lemma_auto_spec_u64_to_from_le_bytes();
    let s = spec_encode(v);
    assert(s.subrange(0, NUMBER_BYTES as int) =~= spec_u64_to_le_bytes(v.number));
    assert(s.subrange(NUMBER_BYTES as int, (NUMBER_BYTES + HASH_BYTES) as int)
        =~= v.parent_hash);
    assert(s.subrange((NUMBER_BYTES + HASH_BYTES) as int, FRAME_BYTES as int) =~= v.content);
    assert(spec_decode(s) =~= v);
}

/// Writes the 56-byte frame for a block.
pub fn encode(b: &Block) -> (out: Vec<u8>)
    requires
        b.wf(),
    ensures
        out@.len() == FRAME_BYTES,
        out@ == spec_encode(b@),
{
    let mut out = u64_to_le_bytes(b.block_number);
    let mut i: usize = 0;
    while i < b.parent_hash.len()
        invariant
            i <= b.parent_hash.len(),
            out@ == spec_u64_to_le_bytes(b.block_number) + b.parent_hash@.take(i as int),
        decreases b.parent_hash.len() - i,
    {
        out.push(b.parent_hash[i]);
        proof {
            assert(out@ =~= spec_u64_to_le_bytes(b.block_number) + b.parent_hash@.take(
                i + 1,
            ));
        }
        i = i + 1;
    }
    let mut j: usize = 0;
    while j < b.content.len()
        invariant
            j <= b.content.len(),
            out@ == spec_u64_to_le_bytes(b.block_number) + b.parent_hash@ + b.content@.take(
                j as int,
            ),
        decreases b.content.len() - j,
    {
        out.push(b.content[j]);
        proof {
            assert(out@ =~= spec_u64_to_le_bytes(b.block_number) + b.parent_hash@
                + b.content@.take(j + 1));
        }
        j = j + 1;
    }
    proof {
        lemma_auto_spec_u64_to_from_le_bytes();
        assert(b.parent_hash@.take(b.parent_hash@.len() as int) =~= b.parent_hash@);
        assert(b.content@.take(b.content@.len() as int) =~= b.content@);
        assert(out@ =~= spec_encode(b@));
    }
    out
}

/// Reads the block a full 56-byte frame denotes.
pub fn decode(frame: &[u8]) -> (b: Block)
    requires
        frame@.len() == FRAME_BYTES,
    ensures
        b@ == spec_decode(frame@),
        b.wf(),
{
    let number_bytes = slice_subrange(frame, 0, NUMBER_BYTES);
    let block_number = u64_from_le_bytes(number_bytes);
    let mut parent_hash: Vec<u8> = Vec::new();
    let mut i: usize = NUMBER_BYTES;
    while i < NUMBER_BYTES + HASH_BYTES
        invariant
            NUMBER_BYTES <= i <= NUMBER_BYTES + HASH_BYTES,
            frame@.len() == FRAME_BYTES,
            parent_hash@ == frame@.subrange(NUMBER_BYTES as int, i as int),
        decreases NUMBER_BYTES + HASH_BYTES - i,
    {
        parent_hash.push(*slice_index_get(frame, i));
        proof {
            assert(parent_hash@ =~= frame@.subrange(NUMBER_BYTES as int, i + 1));
        }
        i = i + 1;
    }
    let mut content: Vec<u8> = Vec::new();
    let mut j: usize = NUMBER_BYTES + HASH_BYTES;
    while j < FRAME_BYTES
        invariant
            NUMBER_BYTES + HASH_BYTES <= j <= FRAME_BYTES,
            frame@.len() == FRAME_BYTES,
            content@ == frame@.subrange((NUMBER_BYTES + HASH_BYTES) as int, j as int),
        decreases FRAME_BYTES - j,
    {
        content.push(*slice_index_get(frame, j));
        proof {
            assert(content@ =~= frame@.subrange((NUMBER_BYTES + HASH_BYTES) as int, j + 1));
        }
        j = j + 1;
    }
    let b = Block { block_number, parent_hash, content };
    proof {
        assert(b@ =~= spec_decode(frame@));
    }
    b
}

} // verus!
