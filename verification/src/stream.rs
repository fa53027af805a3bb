use crate::block::{Block, BlockView, FRAME_BYTES};
use crate::codec::{decode, spec_decode, spec_encode, lemma_decode_encode};
use vstd::prelude::*;
use vstd::slice::{slice_index_get, slice_subrange};

verus! {

/// Why a stream stopped exceptionally.
#[derive(Debug)]
pub enum StreamError {
    /// The byte source closed in the middle of a frame.
    MalformedFrame,
    /// The byte source itself reported a failure; carries its detail.
    SourceReadFailure(String),
}

/// The blocks a byte sequence carries: one per complete 56-byte frame,
/// in order.  Leftover bytes after the last complete frame carry none.
pub open spec fn frames_of(s: Seq<u8>) -> Seq<BlockView>
    decreases s.len(),
{
    if s.len() < FRAME_BYTES {
        Seq::empty()
    } else {
        seq![spec_decode(s.take(FRAME_BYTES as int))] + frames_of(s.skip(FRAME_BYTES as int))
    }
}

/// A byte sequence ends cleanly when nothing is left over after its
/// complete frames.
pub open spec fn ends_clean(s: Seq<u8>) -> bool {
    s.len() as int % (FRAME_BYTES as int) == 0
}

/// The concatenated wire image of a sequence of blocks.
pub open spec fn encode_all(blocks: Seq<BlockView>) -> Seq<u8>
    decreases blocks.len(),
{
    if blocks.len() == 0 {
        Seq::empty()
    } else {
        spec_encode(blocks[0]) + encode_all(blocks.skip(1))
    }
}

/// The wire image of K blocks is 56 * K bytes long.
pub proof fn lemma_encode_all_len(blocks: Seq<BlockView>)
    requires
        forall|i: int| 0 <= i < blocks.len() ==> (#[trigger] blocks[i]).wf(),
    ensures
        encode_all(blocks).len() == FRAME_BYTES * blocks.len(),
    decreases blocks.len(),
{
    if blocks.len() == 0 {
    } else {
        lemma_decode_encode(blocks[0]);
        lemma_encode_all_len(blocks.skip(1));
    }
}

/// Full-frame sequencing: a source holding exactly the wire images of K
/// blocks carries exactly those K blocks, in order, and ends cleanly.
pub proof fn lemma_frames_of_encode_all(blocks: Seq<BlockView>)
    requires
        forall|i: int| 0 <= i < blocks.len() ==> (#[trigger] blocks[i]).wf(),
    ensures
        frames_of(encode_all(blocks)) == blocks,
        ends_clean(encode_all(blocks)),
    decreases blocks.len(),
{
    lemma_encode_all_len(blocks);
    if blocks.len() == 0 {
        assert(frames_of(encode_all(blocks)) =~= blocks);
    } else {
        let s = encode_all(blocks);
        lemma_decode_encode(blocks[0]);
        lemma_encode_all_len(blocks.skip(1));
        assert(s.take(FRAME_BYTES as int) =~= spec_encode(blocks[0]));
        assert(s.skip(FRAME_BYTES as int) =~= encode_all(blocks.skip(1)));
        lemma_frames_of_encode_all(blocks.skip(1));
        assert(frames_of(s) =~= blocks);
    }
}

/// Malformed tail: a source holding K complete frames and then 1 to 55
/// leftover bytes still carries exactly those K blocks, but does not end
/// cleanly.
pub proof fn lemma_frames_of_ragged_tail(blocks: Seq<BlockView>, tail: Seq<u8>)
    requires
        forall|i: int| 0 <= i < blocks.len() ==> (#[trigger] blocks[i]).wf(),
        0 < tail.len() < FRAME_BYTES,
    ensures
        frames_of(encode_all(blocks) + tail) == blocks,
        !ends_clean(encode_all(blocks) + tail),
    decreases blocks.len(),
{
    lemma_encode_all_len(blocks);
    if blocks.len() == 0 {
        assert(encode_all(blocks) + tail =~= tail);
        assert(frames_of(encode_all(blocks) + tail) =~= blocks);
    } else {
        let s = encode_all(blocks) + tail;
        lemma_decode_encode(blocks[0]);
        lemma_encode_all_len(blocks.skip(1));
        assert(s.take(FRAME_BYTES as int) =~= spec_encode(blocks[0]));
        assert(s.skip(FRAME_BYTES as int) =~= encode_all(blocks.skip(1)) + tail);
        lemma_frames_of_ragged_tail(blocks.skip(1), tail);
        assert(frames_of(s) =~= blocks);
    }
}

/// What one pull on a block stream yields.
#[derive(Debug)]
pub enum Pulled {
    /// One full frame was collected and decoded.
    Block(Block),
    /// The source ended cleanly at a frame boundary; the stream is spent.
    End,
    /// The source ended inside a frame; the stream is spent.
    Malformed,
}

/// A lazy, finite, non-restartable sequence of blocks over one byte
/// source.  Once the stream has terminated, by exhaustion or by a
/// malformed tail, it yields `End` forever.
pub struct BlockStream {
    data: Vec<u8>,
    pos: usize,
    done: bool,
}

impl BlockStream {
    #[verifier::type_invariant]
    spec fn inv(self) -> bool {
        self.pos <= self.data@.len()
    }

    /// The bytes the stream has not yet consumed; none once it has
    /// terminated.
    pub closed spec fn pending(self) -> Seq<u8> {
        if self.done {
            Seq::empty()
        } else {
            self.data@.skip(self.pos as int)
        }
    }

    /// The blocks the stream still has to yield.
    pub open spec fn blocks(self) -> Seq<BlockView> {
        frames_of(self.pending())
    }

    /// Pulls the next item: collects one full 56-byte frame and decodes
    /// it, or reports how the source ended.
    pub fn next_record(&mut self) -> (r: Pulled)
        ensures
            old(self).pending().len() == 0
                ==> (r is End && final(self).pending() == Seq::<u8>::empty()),
            0 < old(self).pending().len() < FRAME_BYTES
                ==> (r is Malformed && final(self).pending() == Seq::<u8>::empty()),
            old(self).pending().len() >= FRAME_BYTES
                ==> (r matches Pulled::Block(b)
                    && b@ == spec_decode(old(self).pending().take(FRAME_BYTES as int))
                    && b@.wf()
                    && final(self).pending() == old(self).pending().skip(FRAME_BYTES as int)),
    {
        proof {
            use_type_invariant(&*self);
        }
        if self.done {
            return Pulled::End;
        }
        let remaining = self.data.len() - self.pos;
        if remaining == 0 {
            self.done = true;
            return Pulled::End;
        }
        if remaining < FRAME_BYTES {
            self.done = true;
            return Pulled::Malformed;
        }
        let frame = slice_subrange(self.data.as_slice(), self.pos, self.pos + FRAME_BYTES);
        let b = decode(frame);
        proof {
            assert(frame@ =~= old(self).pending().take(FRAME_BYTES as int));
        }
        self.pos = self.pos + FRAME_BYTES;
        proof {
            assert(self.pending() =~= old(self).pending().skip(FRAME_BYTES as int));
        }
        Pulled::Block(b)
    }
}

/// Wraps an in-memory byte source as a block stream.
pub fn read_blocks(source: Vec<u8>) -> (s: BlockStream)
    ensures
        s.pending() == source@,
{
    let s = BlockStream { data: source, pos: 0, done: false };
    proof {
        assert(s.pending() =~= s.data@);
    }
    s
}

/// Accumulates bytes delivered piecemeal by an asynchronous source and
/// drains every complete 56-byte frame as soon as it closes, so a read
/// may end anywhere inside a frame without losing data.
pub struct Deframer {
    buf: Vec<u8>,
}

impl Deframer {
    /// The bytes collected so far that do not yet fill a frame.
    pub closed spec fn residue(self) -> Seq<u8> {
        self.buf@
    }

    /// An empty accumulator.
    pub fn new() -> (d: Deframer)
        ensures
            d.residue() == Seq::<u8>::empty(),
    {
        let d = Deframer { buf: Vec::new() };
        proof {
            assert(d.residue() =~= Seq::<u8>::empty());
        }
        d
    }

    /// Takes one delivery of bytes, and hands back every block whose
    /// frame is now complete; what is left of a frame stays accumulated.
    pub fn push(&mut self, chunk: &[u8]) -> (out: Vec<Block>)
        ensures
            ({
                let whole = old(self).residue() + chunk@;
                let blocks = frames_of(whole);
                &&& out@.len() == blocks.len()
                &&& forall|i: int| 0 <= i < out@.len() ==> (#[trigger] out@[i])@ == blocks[i]
                &&& final(self).residue() == whole.skip(
                    (FRAME_BYTES * out@.len()) as int,
                )
                &&& final(self).residue().len() < FRAME_BYTES
            }),
    {
        let ghost res0 = old(self).residue();
        let ghost whole = old(self).residue() + chunk@;
        let mut k: usize = 0;
        while k < chunk.len()
            invariant
                k <= chunk@.len(),
                self.buf@ == res0 + chunk@.take(k as int),
            decreases chunk@.len() - k,
        {
            self.buf.push(*slice_index_get(chunk, k));
            proof {
                assert(self.buf@ =~= res0 + chunk@.take(k + 1));
            }
            k = k + 1;
        }
        proof {
            assert(self.buf@ =~= whole);
        }
        let mut out: Vec<Block> = Vec::new();
        let mut start: usize = 0;
        proof {
            assert(whole.skip(0) =~= whole);
            assert(out@.map_values(|b: Block| b@) =~= Seq::<BlockView>::empty());
            assert(frames_of(whole) =~= out@.map_values(|b: Block| b@) + frames_of(
                whole.skip(0),
            ));
        }
        while self.buf.len() - start >= FRAME_BYTES
            invariant
                start <= self.buf@.len(),
                self.buf@ == whole,
                start == FRAME_BYTES * out@.len(),
                frames_of(whole) == out@.map_values(|b: Block| b@) + frames_of(
                    whole.skip(start as int),
                ),
                forall|i: int| 0 <= i < out@.len() ==> (#[trigger] out@[i])@ == frames_of(
                    whole,
                )[i],
            decreases self.buf@.len() - start,
        {
            let frame = slice_subrange(self.buf.as_slice(), start, start + FRAME_BYTES);
            let b = decode(frame);
            proof {
                assert(frame@ =~= whole.skip(start as int).take(FRAME_BYTES as int));
                assert(whole.skip(start as int).skip(FRAME_BYTES as int) =~= whole.skip(
                    start + FRAME_BYTES,
                ));
            }
            let ghost old_out = out@;
            out.push(b);
            start = start + FRAME_BYTES;
            proof {
                assert(out@.map_values(|b: Block| b@) =~= old_out.map_values(|b: Block| b@)
                    + seq![b@]);
                assert(frames_of(whole) =~= out@.map_values(|b: Block| b@) + frames_of(
                    whole.skip(start as int),
                ));
            }
        }
        let mut rest: Vec<u8> = Vec::new();
        let mut m: usize = start;
        while m < self.buf.len()
            invariant
                start <= m <= self.buf@.len(),
                self.buf@ == whole,
                rest@ == whole.subrange(start as int, m as int),
            decreases self.buf@.len() - m,
        {
            rest.push(self.buf[m]);
            proof {
                assert(rest@ =~= whole.subrange(start as int, m + 1));
            }
            m = m + 1;
        }
        self.buf = rest;
        proof {
            assert(self.residue() =~= whole.skip((FRAME_BYTES * out@.len()) as int));
            assert(frames_of(self.residue()) =~= Seq::<BlockView>::empty());
            assert(frames_of(whole) =~= out@.map_values(|b: Block| b@));
        }
        out
    }

    /// Says whether a clean close of the source at this point respects
    /// the frame boundary.
    pub fn boundary_clean(&self) -> (clean: bool)
        ensures
            clean == (self.residue().len() == 0),
    {
        self.buf.len() == 0
    }
}

} // verus!
