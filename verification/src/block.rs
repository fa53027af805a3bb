use vstd::prelude::*;

verus! {

/// Width in bytes of one encoded frame on the wire.
pub const FRAME_BYTES: usize = 56;

/// Width in bytes of the little-endian block number field.
pub const NUMBER_BYTES: usize = 8;

/// Width in bytes of the parent-hash field.
pub const HASH_BYTES: usize = 32;

/// Width in bytes of the opaque content field.
pub const CONTENT_BYTES: usize = 16;

/// Mathematical model of one block: the block number, the parent hash as a
/// byte sequence, and the opaque content as a byte sequence.
#[verifier::ext_equal]
pub struct BlockView {
    pub number: u64,
    pub parent_hash: Seq<u8>,
    pub content: Seq<u8>,
}

impl BlockView {
    /// The field widths the wire format fixes.
    pub open spec fn wf(self) -> bool {
        self.parent_hash.len() == HASH_BYTES && self.content.len() == CONTENT_BYTES
    }

    /// Chain identity compares the block number and the parent hash only;
    /// the opaque content takes no part in it.
    pub open spec fn same_key(self, other: BlockView) -> bool {
        self.number == other.number && self.parent_hash == other.parent_hash
    }
}

/// One block of chained data, as decoded from a 56-byte frame.
///
/// `parent_hash` always holds 32 bytes and `content` 16; an all-zero
/// `parent_hash` is the sentinel for "no parent" (genesis).
#[derive(Debug)]
pub struct Block {
    pub block_number: u64,
    pub parent_hash: Vec<u8>,
    pub content: Vec<u8>,
}

impl View for Block {
    type V = BlockView;

    open spec fn view(&self) -> BlockView {
        BlockView {
            number: self.block_number,
            parent_hash: self.parent_hash@,
            content: self.content@,
        }
    }
}

/// Copies a byte vector element by element.
fn copy_bytes(src: &Vec<u8>) -> (out: Vec<u8>)
    ensures
        out@ == src@,
{
    let mut out: Vec<u8> = Vec::new();
    let mut i: usize = 0;
    while i < src.len()
        invariant
            i <= src.len(),
            out@ == src@.take(i as int),
        decreases src.len() - i,
    {
        out.push(src[i]);
        i = i + 1;
    }
    proof {
        assert(out@ =~= src@);
    }
    out
}

impl Block {
    /// The field widths the wire format fixes.
    pub open spec fn wf(self) -> bool {
        self@.wf()
    }

    /// Makes an identical copy of the block.
    pub fn duplicate(&self) -> (r: Block)
        ensures
            r@ == self@,
    {
        Block {
            block_number: self.block_number,
            parent_hash: copy_bytes(&self.parent_hash),
            content: copy_bytes(&self.content),
        }
    }
}

/// Compares two byte vectors for equality of their contents.
pub fn bytes_eq(a: &Vec<u8>, b: &Vec<u8>) -> (r: bool)
    ensures
        r == (a@ == b@),
{
    if a.len() != b.len() {
        return false;
    }
    let mut i: usize = 0;
    while i < a.len()
        invariant
            a.len() == b.len(),
            i <= a.len(),
            forall|j: int| 0 <= j < i ==> a@[j] == b@[j],
        decreases a.len() - i,
    {
        if a[i] != b[i] {
            return false;
        }
        i = i + 1;
    }
    proof {
        assert(a@ =~= b@);
    }
    true
}

impl PartialEq for Block {
    fn eq(&self, other: &Self) -> (r: bool) {
        self.block_number == other.block_number && bytes_eq(&self.parent_hash, &other.parent_hash)
            && bytes_eq(&self.content, &other.content)
    }
}

impl vstd::std_specs::cmp::PartialEqSpecImpl for Block {
    open spec fn obeys_eq_spec() -> bool {
        true
    }

    open spec fn eq_spec(&self, other: &Self) -> bool {
        self@ == other@
    }
}

} // verus!
