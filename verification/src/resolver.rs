use crate::block::{bytes_eq, Block, BlockView, FRAME_BYTES};
use crate::stream::{ends_clean, frames_of, BlockStream, Pulled, StreamError};
use vstd::prelude::*;

verus! {

/// A chain carries a given (number, parent hash) identity somewhere.
pub open spec fn chain_has_key(chain: Seq<BlockView>, number: u64, hash: Seq<u8>) -> bool {
    exists|i: int|
        0 <= i < chain.len() && (#[trigger] chain[i]).number == number && chain[i].parent_hash
            == hash
}

/// A (number, parent hash) identity that every chain carries.
pub open spec fn common_key(chains: Seq<Seq<BlockView>>, number: u64, hash: Seq<u8>) -> bool {
    forall|c: int| 0 <= c < chains.len() ==> chain_has_key(#[trigger] chains[c], number, hash)
}

/// Some identity is common to every chain.
pub open spec fn exists_common_key(chains: Seq<Seq<BlockView>>) -> bool {
    exists|number: u64, hash: Seq<u8>| common_key(chains, number, hash)
}

/// Block numbers strictly decrease along a chain, newest first.
pub open spec fn strictly_descending(chain: Seq<BlockView>) -> bool {
    forall|i: int, j: int|
        0 <= i < j < chain.len() ==> (#[trigger] chain[i]).number > (#[trigger] chain[j]).number
}

/// The block resolution must deliver: its identity is common to every
/// chain, no common identity sits higher, and the block itself is the
/// first chain's copy.
pub open spec fn is_resolution_answer(chains: Seq<Seq<BlockView>>, v: BlockView) -> bool {
    &&& chains.len() >= 2
    &&& common_key(chains, v.number, v.parent_hash)
    &&& forall|number: u64, hash: Seq<u8>|
        common_key(chains, number, hash) ==> number <= v.number
    &&& chains[0].contains(v)
}

/// Everything resolution promises of its outcome, over the mathematical
/// chains alone.  `all_clean` says whether every byte source ends at a
/// frame boundary.
pub open spec fn resolution_post(
    chains: Seq<Seq<BlockView>>,
    all_clean: bool,
    outcome: Result<Option<BlockView>, ()>,
) -> bool {
    &&& (outcome matches Ok(Some(v)) ==> is_resolution_answer(chains, v))
    &&& (chains.len() >= 2 && exists_common_key(chains) ==> outcome matches Ok(Some(_)))
    &&& (outcome matches Ok(None) ==> chains.len() < 2 || !exists_common_key(chains))
    &&& (outcome matches Err(_) ==> chains.len() >= 2 && !exists_common_key(chains) && !all_clean)
    &&& (chains.len() < 2 ==> outcome == Ok::<Option<BlockView>, ()>(None))
}

/// Two answers that both satisfy the resolution contract over the same
/// chains are the same block: the shared height is unique, and within
/// the first chain so is the block at that height.
pub proof fn lemma_answer_unique(chains: Seq<Seq<BlockView>>, v1: BlockView, v2: BlockView)
    requires
        strictly_descending(chains[0]),
        is_resolution_answer(chains, v1),
        is_resolution_answer(chains, v2),
    ensures
        v1 == v2,
{
    assert(v1.number <= v2.number);
    assert(v2.number <= v1.number);
    let i1 = choose|i: int| 0 <= i < chains[0].len() && chains[0][i] == v1;
    let i2 = choose|i: int| 0 <= i < chains[0].len() && chains[0][i] == v2;
    assert(chains[0][i1] == v1);
    assert(chains[0][i2] == v2);
    if i1 < i2 {
        assert(chains[0][i1].number > chains[0][i2].number);
    } else if i2 < i1 {
        assert(chains[0][i2].number > chains[0][i1].number);
    }
}

/// Determinism: over the same chains, all drawn from clean sources, any
/// two resolutions that meet the contract agree exactly.
pub proof fn lemma_resolution_deterministic(
    chains: Seq<Seq<BlockView>>,
    r1: Result<Option<BlockView>, ()>,
    r2: Result<Option<BlockView>, ()>,
)
    requires
        chains.len() >= 1 ==> strictly_descending(chains[0]),
        resolution_post(chains, true, r1),
        resolution_post(chains, true, r2),
    ensures
        r1 == r2,
{
    if chains.len() < 2 {
    } else if exists_common_key(chains) {
        let v1 = r1->Ok_0->Some_0;
        let v2 = r2->Ok_0->Some_0;
        lemma_answer_unique(chains, v1, v2);
    } else {
        assert(!(r1 matches Ok(Some(_)))) by {
            match r1 {
                Ok(Some(v)) => {
                    assert(common_key(chains, v.number, v.parent_hash));
                    assert(false);
                },
                _ => {},
            }
        }
        assert(!(r2 matches Ok(Some(_)))) by {
            match r2 {
                Ok(Some(v)) => {
                    assert(common_key(chains, v.number, v.parent_hash));
                    assert(false);
                },
                _ => {},
            }
        }
    }
}

/// Divergence: when two of the chains never even share a block number,
/// no identity is common to all of them.
pub proof fn lemma_disjoint_numbers_no_common(chains: Seq<Seq<BlockView>>, a: int, b: int)
    requires
        0 <= a < chains.len(),
        0 <= b < chains.len(),
        forall|i: int, j: int|
            0 <= i < chains[a].len() && 0 <= j < chains[b].len() ==> (#[trigger] chains[a][i]).number
                != (#[trigger] chains[b][j]).number,
    ensures
        !exists_common_key(chains),
{
    if exists_common_key(chains) {
        let (number, hash) = choose|number: u64, hash: Seq<u8>| common_key(chains, number, hash);
        assert(chain_has_key(chains[a], number, hash));
        assert(chain_has_key(chains[b], number, hash));
        let i = choose|i: int|
            0 <= i < chains[a].len() && (#[trigger] chains[a][i]).number == number
                && chains[a][i].parent_hash == hash;
        let j = choose|j: int|
            0 <= j < chains[b].len() && (#[trigger] chains[b][j]).number == number
                && chains[b][j].parent_hash == hash;
        assert(chains[a][i].number != chains[b][j].number);
    }
}

/// Divergence: with nothing common to every chain and every source
/// clean, resolution of two or more chains always answers `None`.
pub proof fn lemma_no_common_resolves_to_none(
    chains: Seq<Seq<BlockView>>,
    outcome: Result<Option<BlockView>, ()>,
)
    requires
        resolution_post(chains, true, outcome),
        chains.len() >= 2,
        !exists_common_key(chains),
    ensures
        outcome == Ok::<Option<BlockView>, ()>(None),
{
    match outcome {
        Ok(Some(v)) => {
            assert(common_key(chains, v.number, v.parent_hash));
            assert(false);
        },
        Ok(None) => {},
        Err(_) => {
            assert(false);
        },
    }
}

/// Convergence: when two chains agree, identity for identity, from some
/// height down, and share nothing above it, resolution owes exactly the
/// first chain's block at that height.
pub proof fn lemma_shared_suffix_answer(c1: Seq<BlockView>, c2: Seq<BlockView>, t1: int, t2: int)
    requires
        strictly_descending(c1),
        strictly_descending(c2),
        0 <= t1 < c1.len(),
        0 <= t2 < c2.len(),
        c1.len() - t1 == c2.len() - t2,
        forall|m: int|
            0 <= m < c1.len() - t1 ==> (#[trigger] c1[t1 + m]).number == c2[t2 + m].number && c1[t1
                + m].parent_hash == c2[t2 + m].parent_hash,
        forall|i: int, j: int|
            0 <= i < t1 && 0 <= j < t2 ==> !((#[trigger] c1[i]).number == (#[trigger] c2[j]).number
                && c1[i].parent_hash == c2[j].parent_hash),
    ensures
        is_resolution_answer(seq![c1, c2], c1[t1]),
{
    let chains = seq![c1, c2];
    let v = c1[t1];
    assert(c1[t1 + 0].number == c2[t2 + 0].number && c1[t1 + 0].parent_hash == c2[
        t2 + 0
    ].parent_hash);
    assert(chain_has_key(c1, v.number, v.parent_hash)) by {
        assert(c1[t1].number == v.number && c1[t1].parent_hash == v.parent_hash);
    }
    assert(chain_has_key(c2, v.number, v.parent_hash)) by {
        assert(c2[t2].number == v.number && c2[t2].parent_hash == v.parent_hash);
    }
    assert forall|number: u64, hash: Seq<u8>|
        common_key(chains, number, hash) implies number <= v.number by {
        assert(chain_has_key(chains[0], number, hash));
        assert(chain_has_key(chains[1], number, hash));
        let i = choose|i: int|
            0 <= i < c1.len() && (#[trigger] c1[i]).number == number && c1[i].parent_hash == hash;
        let j = choose|j: int|
            0 <= j < c2.len() && (#[trigger] c2[j]).number == number && c2[j].parent_hash == hash;
        if i < t1 && j < t2 {
            assert(!(c1[i].number == c2[j].number && c1[i].parent_hash == c2[j].parent_hash));
        } else if i >= t1 {
            if i > t1 {
                assert(c1[t1].number > c1[i].number);
            }
        } else {
            if j > t2 {
                assert(c2[t2].number > c2[j].number);
            }
            assert(number <= c2[t2].number);
        }
    }
    assert(chains[0].contains(v)) by {
        assert(chains[0][t1] == v);
    }
}


/// The chain each stream still carries, newest block first.
pub open spec fn chains_of(streams: Seq<BlockStream>) -> Seq<Seq<BlockView>> {
    Seq::new(streams.len(), |i: int| frames_of(streams[i].pending()))
}

/// Every stream's bytes end at a frame boundary.
pub open spec fn streams_all_clean(streams: Seq<BlockStream>) -> bool {
    forall|i: int| 0 <= i < streams.len() ==> ends_clean((#[trigger] streams[i]).pending())
}

/// The resolution outcome shorn of executable detail.
pub open spec fn outcome_of(r: Result<Option<Block>, StreamError>) -> Result<
    Option<BlockView>,
    (),
> {
    match r {
        Ok(Some(b)) => Ok(Some(b@)),
        Ok(None) => Ok(None),
        Err(_) => Err(()),
    }
}

/// What one stream still has to give: its frontier block, then every
/// block still on its source.
pub open spec fn remaining_of(f: BlockView, s: BlockStream) -> Seq<BlockView> {
    seq![f] + frames_of(s.pending())
}

/// `suf` is a suffix of `s`.
pub open spec fn is_suffix_of(suf: Seq<BlockView>, s: Seq<BlockView>) -> bool {
    exists|c: int| 0 <= c <= s.len() && s.skip(c) == suf
}

/// Every identity common to the chains still lies at or beyond this
/// frontier: nothing common has been discarded.
pub open spec fn keeps_common_keys(
    chains: Seq<Seq<BlockView>>,
    f: BlockView,
    s: BlockStream,
) -> bool {
    forall|number: u64, hash: Seq<u8>|
        #[trigger] common_key(chains, number, hash) ==> chain_has_key(
            remaining_of(f, s),
            number,
            hash,
        )
}

/// The standing shape of one frontier during the merge: what remains is
/// a suffix of the original chain, still strictly descending.
pub open spec fn frontier_ok(chain: Seq<BlockView>, f: BlockView, s: BlockStream) -> bool {
    &&& is_suffix_of(remaining_of(f, s), chain)
    &&& strictly_descending(remaining_of(f, s))
}

/// How many blocks all the streams together still hold.
pub open spec fn total_blocks(streams: Seq<BlockStream>) -> nat
    decreases streams.len(),
{
    if streams.len() == 0 {
        0
    } else {
        frames_of(streams[0].pending()).len() + total_blocks(streams.skip(1))
    }
}

proof fn lemma_total_blocks_le(s1: Seq<BlockStream>, s2: Seq<BlockStream>)
    requires
        s1.len() == s2.len(),
        forall|j: int|
            0 <= j < s1.len() ==> frames_of((#[trigger] s2[j]).pending()).len() <= frames_of(
                s1[j].pending(),
            ).len(),
    ensures
        total_blocks(s2) <= total_blocks(s1),
    decreases s1.len(),
{
    if s1.len() > 0 {
        assert(frames_of(s2[0].pending()).len() <= frames_of(s1[0].pending()).len());
        assert forall|j: int| 0 <= j < s1.skip(1).len() implies frames_of(
            (#[trigger] s2.skip(1)[j]).pending(),
        ).len() <= frames_of(s1.skip(1)[j].pending()).len() by {
            assert(s2.skip(1)[j] == s2[j + 1]);
            assert(s1.skip(1)[j] == s1[j + 1]);
            assert(frames_of(s2[j + 1].pending()).len() <= frames_of(s1[j + 1].pending()).len());
        }
        lemma_total_blocks_le(s1.skip(1), s2.skip(1));
    }
}

proof fn lemma_total_blocks_lt(s1: Seq<BlockStream>, s2: Seq<BlockStream>, w: int)
    requires
        s1.len() == s2.len(),
        forall|j: int|
            0 <= j < s1.len() ==> frames_of((#[trigger] s2[j]).pending()).len() <= frames_of(
                s1[j].pending(),
            ).len(),
        0 <= w < s1.len(),
        frames_of(s2[w].pending()).len() < frames_of(s1[w].pending()).len(),
    ensures
        total_blocks(s2) < total_blocks(s1),
    decreases s1.len(),
{
    assert forall|j: int| 0 <= j < s1.skip(1).len() implies frames_of(
        (#[trigger] s2.skip(1)[j]).pending(),
    ).len() <= frames_of(s1.skip(1)[j].pending()).len() by {
        assert(s2.skip(1)[j] == s2[j + 1]);
        assert(s1.skip(1)[j] == s1[j + 1]);
        assert(frames_of(s2[j + 1].pending()).len() <= frames_of(s1[j + 1].pending()).len());
    }
    if w == 0 {
        lemma_total_blocks_le(s1.skip(1), s2.skip(1));
    } else {
        assert(frames_of(s2[0].pending()).len() <= frames_of(s1[0].pending()).len());
        assert(s2.skip(1)[w - 1] == s2[w]);
        assert(s1.skip(1)[w - 1] == s1[w]);
        lemma_total_blocks_lt(s1.skip(1), s2.skip(1), w - 1);
    }
}

/// A chain with no blocks at all rules out any common identity.
proof fn lemma_empty_chain_no_common(chains: Seq<Seq<BlockView>>, c: int)
    requires
        0 <= c < chains.len(),
        chains[c].len() == 0,
    ensures
        !exists_common_key(chains),
{
    if exists_common_key(chains) {
        let (number, hash) = choose|number: u64, hash: Seq<u8>| common_key(chains, number, hash);
        assert(chain_has_key(chains[c], number, hash));
        let i = choose|i: int|
            0 <= i < chains[c].len() && (#[trigger] chains[c][i]).number == number
                && chains[c][i].parent_hash == hash;
        assert(false);
    }
}

/// A frontier standing above some other frontier carries no common
/// identity: the lower chain has already rewound past that height.
proof fn lemma_ahead_frontier_not_common(
    chains: Seq<Seq<BlockView>>,
    frs: Seq<BlockView>,
    streams: Seq<BlockStream>,
    j: int,
    m: int,
)
    requires
        chains.len() == frs.len(),
        streams.len() == frs.len(),
        forall|c: int|
            0 <= c < frs.len() ==> strictly_descending(
                remaining_of(#[trigger] frs[c], streams[c]),
            ),
        forall|c: int|
            0 <= c < frs.len() ==> keeps_common_keys(chains, #[trigger] frs[c], streams[c]),
        0 <= j < frs.len(),
        0 <= m < frs.len(),
        frs[m].number < frs[j].number,
    ensures
        !common_key(chains, frs[j].number, frs[j].parent_hash),
{
    if common_key(chains, frs[j].number, frs[j].parent_hash) {
        assert(keeps_common_keys(chains, frs[m], streams[m]));
        let rem = remaining_of(frs[m], streams[m]);
        assert(chain_has_key(rem, frs[j].number, frs[j].parent_hash));
        let idx = choose|i: int|
            0 <= i < rem.len() && (#[trigger] rem[i]).number == frs[j].number && rem[i].parent_hash
                == frs[j].parent_hash;
        assert(rem[0] == frs[m]);
        if idx > 0 {
            assert(rem[0].number > rem[idx].number);
        }
        assert(false);
    }
}

/// When every frontier sits at one height but two hashes disagree, that
/// height is no common identity for any of the chains.
proof fn lemma_tied_frontier_not_common(
    chains: Seq<Seq<BlockView>>,
    frs: Seq<BlockView>,
    streams: Seq<BlockStream>,
    j: int,
)
    requires
        chains.len() == frs.len(),
        streams.len() == frs.len(),
        frs.len() >= 1,
        forall|c: int|
            0 <= c < frs.len() ==> strictly_descending(
                remaining_of(#[trigger] frs[c], streams[c]),
            ),
        forall|c: int|
            0 <= c < frs.len() ==> keeps_common_keys(chains, #[trigger] frs[c], streams[c]),
        all_same_number(frs),
        exists|m: int| 0 <= m < frs.len() && (#[trigger] frs[m]).parent_hash != frs[0].parent_hash,
        0 <= j < frs.len(),
    ensures
        !common_key(chains, frs[j].number, frs[j].parent_hash),
{
    if common_key(chains, frs[j].number, frs[j].parent_hash) {
        let m = choose|m: int|
            0 <= m < frs.len() && (#[trigger] frs[m]).parent_hash != frs[0].parent_hash;
        assert forall|c: int| 0 <= c < frs.len() implies (#[trigger] frs[c]).parent_hash == frs[
            j
        ].parent_hash by {
            assert(keeps_common_keys(chains, frs[c], streams[c]));
            let rem = remaining_of(frs[c], streams[c]);
            assert(chain_has_key(rem, frs[j].number, frs[j].parent_hash));
            let idx = choose|i: int|
                0 <= i < rem.len() && (#[trigger] rem[i]).number == frs[j].number
                    && rem[i].parent_hash == frs[j].parent_hash;
            assert(rem[0] == frs[c]);
            assert(frs[c].number == frs[j].number);
            if idx > 0 {
                assert(rem[0].number > rem[idx].number);
                assert(false);
            }
        }
        assert(frs[m].parent_hash == frs[j].parent_hash);
        assert(frs[0].parent_hash == frs[j].parent_hash);
        assert(false);
    }
}

/// Once a frontier that carries no common identity has nothing behind
/// it, no identity is common to all the chains.
proof fn lemma_no_common_key_left(chains: Seq<Seq<BlockView>>, f: BlockView, s: BlockStream)
    requires
        keeps_common_keys(chains, f, s),
        frames_of(s.pending()).len() == 0,
        !common_key(chains, f.number, f.parent_hash),
    ensures
        !exists_common_key(chains),
{
    if exists_common_key(chains) {
        let (number, hash) = choose|number: u64, hash: Seq<u8>| common_key(chains, number, hash);
        let rem = remaining_of(f, s);
        assert(chain_has_key(rem, number, hash));
        let idx = choose|i: int|
            0 <= i < rem.len() && (#[trigger] rem[i]).number == number && rem[i].parent_hash
                == hash;
        assert(rem.len() == 1);
        assert(rem[0] == f);
        assert(common_key(chains, f.number, f.parent_hash));
        assert(false);
    }
}

/// At convergence the shared frontier identity is the answer the
/// resolution contract demands.
proof fn lemma_converged_answer(
    chains: Seq<Seq<BlockView>>,
    frs: Seq<BlockView>,
    streams: Seq<BlockStream>,
)
    requires
        chains.len() == frs.len(),
        streams.len() == frs.len(),
        frs.len() >= 2,
        forall|c: int|
            0 <= c < frs.len() ==> frontier_ok(chains[c], #[trigger] frs[c], streams[c]),
        forall|c: int|
            0 <= c < frs.len() ==> keeps_common_keys(chains, #[trigger] frs[c], streams[c]),
        converged(frs),
    ensures
        is_resolution_answer(chains, frs[0]),
{
    assert forall|c: int| 0 <= c < chains.len() implies chain_has_key(
        #[trigger] chains[c],
        frs[0].number,
        frs[0].parent_hash,
    ) by {
        assert(frontier_ok(chains[c], frs[c], streams[c]));
        let rem = remaining_of(frs[c], streams[c]);
        assert(is_suffix_of(rem, chains[c]));
        let cc = choose|cc2: int| 0 <= cc2 <= chains[c].len() && chains[c].skip(cc2) == rem;
        assert(0 <= cc <= chains[c].len() && chains[c].skip(cc) == rem);
        assert(rem.len() >= 1);
        assert(chains[c].skip(cc).len() == chains[c].len() - cc);
        assert(cc < chains[c].len());
        assert(chains[c].skip(cc)[0] == chains[c][cc]);
        assert(chains[c][cc] == rem[0]);
        assert(rem[0] == frs[c]);
        assert(frs[c].same_key(frs[0]));
        assert(0 <= cc < chains[c].len() && chains[c][cc].number == frs[0].number && chains[
            c
        ][cc].parent_hash == frs[0].parent_hash);
    }
    assert(common_key(chains, frs[0].number, frs[0].parent_hash));
    assert forall|number: u64, hash: Seq<u8>|
        common_key(chains, number, hash) implies number <= frs[0].number by {
        assert(keeps_common_keys(chains, frs[0], streams[0]));
        let rem = remaining_of(frs[0], streams[0]);
        assert(chain_has_key(rem, number, hash));
        let idx = choose|i: int|
            0 <= i < rem.len() && (#[trigger] rem[i]).number == number && rem[i].parent_hash
                == hash;
        assert(rem[0] == frs[0]);
        if idx > 0 {
            assert(rem[0].number > rem[idx].number);
        }
    }
    assert(frontier_ok(chains[0], frs[0], streams[0]));
    let rem0 = remaining_of(frs[0], streams[0]);
    assert(is_suffix_of(rem0, chains[0]));
    let c0 = choose|cc2: int| 0 <= cc2 <= chains[0].len() && chains[0].skip(cc2) == rem0;
    assert(0 <= c0 <= chains[0].len() && chains[0].skip(c0) == rem0);
    assert(rem0.len() >= 1);
    assert(chains[0].skip(c0).len() == chains[0].len() - c0);
    assert(c0 < chains[0].len());
    assert(chains[0].skip(c0)[0] == chains[0][c0]);
    assert(chains[0][c0] == rem0[0]);
    assert(rem0[0] == frs[0]);
    assert(chains[0].contains(frs[0]));
}

/// Every frontier shares one identity: the merge has converged.
pub open spec fn converged(fr: Seq<BlockView>) -> bool {
    forall|i: int| 0 <= i < fr.len() ==> (#[trigger] fr[i]).same_key(fr[0])
}

/// Every frontier sits at one height.
pub open spec fn all_same_number(fr: Seq<BlockView>) -> bool {
    forall|i: int, j: int|
        0 <= i < fr.len() && 0 <= j < fr.len() ==> (#[trigger] fr[i]).number == (
        #[trigger] fr[j]).number
}

/// Some frontier sits below this one, so this one has yet to catch
/// down.
pub open spec fn is_ahead(fr: Seq<BlockView>, i: int) -> bool {
    exists|j: int| 0 <= j < fr.len() && (#[trigger] fr[j]).number < fr[i].number
}

/// Which frontiers the merge advances this round: those above the
/// lowest height; or, when every chain sits at one height but their
/// hashes disagree, all of them.
pub open spec fn advances(fr: Seq<BlockView>, i: int) -> bool {
    if all_same_number(fr) {
        true
    } else {
        is_ahead(fr, i)
    }
}

/// One round of the synchronized merge.
pub enum StepVerdict {
    /// Every chain sits on one identity; resolution succeeds with a
    /// copy of the first frontier.
    Converged(Block),
    /// No convergence yet: pull the next block on exactly these
    /// streams, given in ascending order.
    Advance(Vec<usize>),
}

/// Decides one round of the merge from the current frontiers alone.
pub fn resolve_step(frontiers: &Vec<Block>) -> (v: StepVerdict)
    requires
        frontiers@.len() >= 1,
    ensures
        ({
            let fr = frontiers@.map_values(|b: Block| b@);
            match v {
                StepVerdict::Converged(b) => converged(fr) && b@ == fr[0],
                StepVerdict::Advance(ix) => {
                    &&& !converged(fr)
                    &&& ix@.len() > 0
                    &&& forall|t: int| 0 <= t < ix@.len() ==> (#[trigger] ix@[t]) < fr.len()
                    &&& forall|t1: int, t2: int|
                        0 <= t1 < t2 < ix@.len() ==> ix@[t1] < ix@[t2]
                    &&& forall|i: int|
                        0 <= i < fr.len() ==> (advances(fr, i) <==> ix@.contains(i as usize))
                },
            }
        }),
{
    let ghost fr = frontiers@.map_values(|b: Block| b@);
    let n = frontiers.len();
    let mut min_val: u64 = frontiers[0].block_number;
    let mut max_val: u64 = frontiers[0].block_number;
    let ghost mut min_idx: int = 0;
    let ghost mut max_idx: int = 0;
    let mut i: usize = 1;
    while i < n
        invariant
            1 <= i <= n,
            n == fr.len(),
            fr == frontiers@.map_values(|b: Block| b@),
            forall|j: int| 0 <= j < i ==> min_val <= (#[trigger] fr[j]).number,
            forall|j: int| 0 <= j < i ==> (#[trigger] fr[j]).number <= max_val,
            0 <= min_idx < i && fr[min_idx].number == min_val,
            0 <= max_idx < i && fr[max_idx].number == max_val,
        decreases n - i,
    {
        let x = frontiers[i].block_number;
        if x < min_val {
            min_val = x;
            proof {
                min_idx = i as int;
            }
        }
        if x > max_val {
            max_val = x;
            proof {
                max_idx = i as int;
            }
        }
        i = i + 1;
    }
    if max_val == min_val {
        // One shared height; convergence now turns on the hashes.
        assert(all_same_number(fr));
        let mut h: usize = 1;
        while h < n
            invariant
                1 <= h <= n,
                n == fr.len(),
                n >= 1,
                fr == frontiers@.map_values(|b: Block| b@),
                all_same_number(fr),
                forall|j: int| 0 <= j < h ==> (#[trigger] fr[j]).parent_hash == fr[0].parent_hash,
            decreases n - h,
        {
            if !bytes_eq(&frontiers[h].parent_hash, &frontiers[0].parent_hash) {
                // The shared height is no shared identity: every chain
                // must rewind past it.
                assert(!fr[h as int].same_key(fr[0]));
                let mut ix: Vec<usize> = Vec::new();
                let mut k: usize = 0;
                while k < n
                    invariant
                        k <= n,
                        n == fr.len(),
                        ix@.len() == k,
                        forall|t: int| 0 <= t < k ==> (#[trigger] ix@[t]) == t,
                    decreases n - k,
                {
                    ix.push(k);
                    k = k + 1;
                }
                assert forall|i2: int| 0 <= i2 < fr.len() implies (advances(fr, i2)
                    <==> ix@.contains(i2 as usize)) by {
                    assert(ix@[i2] == i2 as usize);
                }
                return StepVerdict::Advance(ix);
            }
            h = h + 1;
        }
        assert(converged(fr));
        return StepVerdict::Converged(frontiers[0].duplicate());
    }
    // Heights differ: advance exactly the chains above the lowest.
    assert(!all_same_number(fr)) by {
        assert(fr[min_idx].number != fr[max_idx].number);
    }
    assert(!converged(fr)) by {
        assert(fr[min_idx].same_key(fr[0]) && fr[max_idx].same_key(fr[0]) ==> fr[min_idx].number
            == fr[max_idx].number);
    }
    let mut ix: Vec<usize> = Vec::new();
    let mut k: usize = 0;
    while k < n
        invariant
            k <= n,
            n == fr.len(),
            fr == frontiers@.map_values(|b: Block| b@),
            forall|j: int| 0 <= j < n ==> min_val <= (#[trigger] fr[j]).number,
            0 <= min_idx < n && fr[min_idx].number == min_val,
            forall|t: int| 0 <= t < ix@.len() ==> 0 <= (#[trigger] ix@[t]) < k,
            forall|t1: int, t2: int| 0 <= t1 < t2 < ix@.len() ==> ix@[t1] < ix@[t2],
            forall|j: int|
                0 <= j < k ==> ((#[trigger] fr[j]).number > min_val <==> ix@.contains(j as usize)),
        decreases n - k,
    {
        let ghost ix_old = ix@;
        if frontiers[k].block_number > min_val {
            ix.push(k);
        }
        proof {
            assert forall|j: int|
                0 <= j < k + 1 implies ((#[trigger] fr[j]).number > min_val <==> ix@.contains(
                j as usize,
            )) by {
                if j < k {
                    assert(ix_old.contains(j as usize) ==> ix@.contains(j as usize)) by {
                        if ix_old.contains(j as usize) {
                            let t = choose|t: int|
                                0 <= t < ix_old.len() && ix_old[t] == j as usize;
                            assert(ix@[t] == j as usize);
                        }
                    }
                    assert(ix@.contains(j as usize) ==> fr[j].number > min_val) by {
                        if ix@.contains(j as usize) {
                            let t = choose|t: int| 0 <= t < ix@.len() && ix@[t] == j as usize;
                            if t < ix_old.len() {
                                assert(ix_old[t] == j as usize);
                            }
                        }
                    }
                } else {
                    if fr[j].number > min_val {
                        assert(ix@[ix@.len() - 1] == j as usize);
                    } else {
                        if ix@.contains(j as usize) {
                            let t = choose|t: int| 0 <= t < ix@.len() && ix@[t] == j as usize;
                            assert(ix@[t] < k + 1);
                            assert(false);
                        }
                    }
                }
            }
        }
        k = k + 1;
    }
    proof {
        // Some chain stands above the lowest height, so the round
        // advances at least one stream.
        assert(fr[max_idx].number > min_val);
        assert(ix@.contains(max_idx as usize));
        assert forall|i2: int| 0 <= i2 < fr.len() implies (advances(fr, i2) <==> ix@.contains(
            i2 as usize,
        )) by {
            if fr[i2].number > min_val {
                assert(is_ahead(fr, i2)) by {
                    assert(fr[min_idx].number < fr[i2].number);
                }
            } else {
                assert(fr[i2].number == min_val);
                if is_ahead(fr, i2) {
                    let j = choose|j: int|
                        0 <= j < fr.len() && (#[trigger] fr[j]).number < fr[i2].number;
                    assert(min_val <= fr[j].number);
                    assert(false);
                }
            }
        }
    }
    StepVerdict::Advance(ix)
}

/// Finds the most recent block identical across every chain, pulling no
/// more of any stream than the merge needs.
///
/// Each stream must carry a structurally valid chain, newest block
/// first with strictly decreasing numbers; that is the caller's promise
/// and is not checked here.  With fewer than two streams no peer exists
/// to agree with, so the answer is `None` by definition.  A stream that
/// ends inside a frame aborts resolution with `MalformedFrame`.
#[verifier::loop_isolation(false)]
#[verifier::rlimit(60)]
pub fn find_common_ancestor(streams: &mut Vec<BlockStream>) -> (r: Result<
    Option<Block>,
    StreamError,
>)
    requires
        forall|i: int|
            0 <= i < old(streams)@.len() ==> strictly_descending(
                frames_of((#[trigger] old(streams)@[i]).pending()),
            ),
    ensures
        final(streams)@.len() == old(streams)@.len(),
        resolution_post(chains_of(old(streams)@), streams_all_clean(old(streams)@), outcome_of(r)),
        r matches Err(e) ==> e is MalformedFrame,
{
    let ghost orig = streams@;
    let ghost chains = chains_of(orig);
    proof {
        assert(chains.len() == orig.len());
    }
    let n = streams.len();
    if n < 2 {
        return Ok(None);
    }
    // Seed one frontier from every stream.
    let mut frontiers: Vec<Block> = Vec::new();
    let mut i: usize = 0;
    while i < n
        invariant
            i <= n,
            streams@.len() == n,
            frontiers@.len() == i,
            forall|j: int| i <= j < n ==> (#[trigger] streams@[j]) == orig[j],
            forall|j: int|
                0 <= j < i ==> remaining_of((#[trigger] frontiers@[j])@, streams@[j]) == chains[j],
            forall|j: int|
                0 <= j < i ==> ends_clean((#[trigger] streams@[j]).pending()) == ends_clean(
                    orig[j].pending(),
                ),
        decreases n - i,
    {
        let ghost pend0 = streams@[i as int].pending();
        let pulled = streams[i].next_record();
        match pulled {
            Pulled::Block(b) => {
                proof {
                    assert(chains[i as int] == frames_of(pend0));
                    assert(pend0.len() >= FRAME_BYTES);
                    assert(remaining_of(b@, streams@[i as int]) =~= chains[i as int]);
                    assert(streams@[i as int].pending().len() as int % (FRAME_BYTES as int)
                        == pend0.len() as int % (FRAME_BYTES as int));
                }
                frontiers.push(b);
            },
            Pulled::End => {
                proof {
                    assert(pend0.len() == 0);
                    assert(chains[i as int].len() == 0);
                    lemma_empty_chain_no_common(chains, i as int);
                }
                return Ok(None);
            },
            Pulled::Malformed => {
                proof {
                    assert(0 < pend0.len() < FRAME_BYTES);
                    assert(chains[i as int].len() == 0);
                    lemma_empty_chain_no_common(chains, i as int);
                    assert(!ends_clean(orig[i as int].pending()));
                    assert(!streams_all_clean(orig));
                }
                return Err(StreamError::MalformedFrame);
            },
        }
        i = i + 1;
    }
    proof {
        assert forall|j: int| 0 <= j < n implies frontier_ok(
            chains[j],
            (#[trigger] frontiers@[j])@,
            streams@[j],
        ) && keeps_common_keys(chains, frontiers@[j]@, streams@[j]) by {
            let rem = remaining_of(frontiers@[j]@, streams@[j]);
            assert(rem == chains[j]);
            assert(chains[j].skip(0) =~= chains[j]);
            assert(is_suffix_of(rem, chains[j]));
            assert(strictly_descending(frames_of(orig[j].pending())));
            assert forall|number: u64, hash: Seq<u8>| #[trigger]
                common_key(chains, number, hash) implies chain_has_key(rem, number, hash) by {
                assert(chain_has_key(chains[j], number, hash));
            }
        }
    }
    loop
        invariant
            streams@.len() == n,
            frontiers@.len() == n,
            forall|j: int|
                0 <= j < n ==> frontier_ok(chains[j], (#[trigger] frontiers@[j])@, streams@[j]),
            forall|j: int|
                0 <= j < n ==> keeps_common_keys(chains, (#[trigger] frontiers@[j])@, streams@[j]),
            forall|j: int|
                0 <= j < n ==> ends_clean((#[trigger] streams@[j]).pending()) == ends_clean(
                    orig[j].pending(),
                ),
        decreases total_blocks(streams@),
    {
        let verdict = resolve_step(&frontiers);
        match verdict {
            StepVerdict::Converged(b) => {
                proof {
                    let frs = frontiers@.map_values(|x: Block| x@);
                    assert(frs.len() == n);
                    assert forall|c: int| 0 <= c < n implies frontier_ok(
                        chains[c],
                        #[trigger] frs[c],
                        streams@[c],
                    ) && keeps_common_keys(chains, frs[c], streams@[c]) by {
                        assert(frs[c] == frontiers@[c]@);
                        assert(frontier_ok(chains[c], frontiers@[c]@, streams@[c]));
                    }
                    lemma_converged_answer(chains, frs, streams@);
                    assert(b@ == frs[0]);
                }
                return Ok(Some(b));
            },
            StepVerdict::Advance(ix) => {
                let ghost snap = streams@;
                let ghost frontiers0 = frontiers@;
                let ghost fr = frontiers0.map_values(|x: Block| x@);
                let mut t: usize = 0;
                while t < ix.len()
                    invariant
                        t <= ix@.len(),
                        streams@.len() == n,
                        frontiers@.len() == n,
                        forall|j: int|
                            0 <= j < n ==> frontier_ok(
                                chains[j],
                                (#[trigger] frontiers@[j])@,
                                streams@[j],
                            ),
                        forall|j: int|
                            0 <= j < n ==> keeps_common_keys(
                                chains,
                                (#[trigger] frontiers@[j])@,
                                streams@[j],
                            ),
                        forall|j: int|
                            0 <= j < n ==> ends_clean((#[trigger] streams@[j]).pending())
                                == ends_clean(orig[j].pending()),
                        forall|j: int|
                            0 <= j < n ==> frames_of((#[trigger] streams@[j]).pending()).len()
                                <= frames_of(snap[j].pending()).len(),
                        forall|j: int|
                            0 <= j < n ==> (#[trigger] frontiers@[j])@.number
                                <= frontiers0[j]@.number,
                        forall|j: int|
                            0 <= j < n ==> ((#[trigger] frontiers@[j]) == frontiers0[j]
                                || ix@.take(t as int).contains(j as usize)),
                        t > 0 ==> frontiers@[ix@[0] as int]@.number < frontiers0[
                            ix@[0] as int
                        ]@.number,
                        t > 0 ==> frames_of(streams@[ix@[0] as int].pending()).len() < frames_of(
                            snap[ix@[0] as int].pending(),
                        ).len(),
                    decreases ix@.len() - t,
                {
                    let j = ix[t];
                    proof {
                        assert(ix@[t as int] < fr.len());
                        assert(j < n);
                        if frontiers@[j as int] != frontiers0[j as int] {
                            assert(ix@.take(t as int).contains(j as usize));
                            let u = choose|u: int|
                                0 <= u < ix@.take(t as int).len() && ix@.take(t as int)[u] == (
                                j as usize);
                            assert(ix@[u] == j as usize);
                            assert(ix@[u] < ix@[t as int]);
                            assert(false);
                        }
                    }
                    let ghost frs_now = frontiers@.map_values(|x: Block| x@);
                    proof {
                        assert forall|c: int| 0 <= c < n implies strictly_descending(
                            remaining_of(#[trigger] frs_now[c], streams@[c]),
                        ) && keeps_common_keys(chains, frs_now[c], streams@[c]) by {
                            assert(frs_now[c] == frontiers@[c]@);
                            assert(frontier_ok(chains[c], frontiers@[c]@, streams@[c]));
                        }
                        assert(frs_now[j as int] == fr[j as int]);
                        assert(ix@.contains(ix@[t as int]));
                        assert(advances(fr, j as int));
                        if t == 0 {
                            assert forall|c: int| 0 <= c < n implies (#[trigger] frontiers@[c])
                                == frontiers0[c] by {
                                if ix@.take(0).contains(c as usize) {
                                    let u = choose|u: int|
                                        0 <= u < ix@.take(0).len() && ix@.take(0)[u] == (
                                        c as usize);
                                    assert(false);
                                }
                            }
                            assert(frs_now =~= fr);
                            if all_same_number(fr) {
                                assert(!converged(fr));
                                let m = choose|m: int|
                                    !(0 <= m < fr.len() ==> (#[trigger] fr[m]).same_key(fr[0]));
                                assert(0 <= m < fr.len() && !fr[m].same_key(fr[0]));
                                assert(fr[m].number == fr[0].number);
                                assert(fr[m].parent_hash != fr[0].parent_hash);
                                lemma_tied_frontier_not_common(chains, frs_now, streams@, j as int);
                            } else {
                                assert(is_ahead(fr, j as int));
                                let m = choose|m: int|
                                    0 <= m < fr.len() && (#[trigger] fr[m]).number < fr[
                                    j as int].number;
                                lemma_ahead_frontier_not_common(
                                    chains,
                                    frs_now,
                                    streams@,
                                    j as int,
                                    m,
                                );
                            }
                        } else {
                            let w = ix@[0] as int;
                            assert(0 <= w < n);
                            assert(frs_now[w].number < fr[w].number);
                            if all_same_number(fr) {
                                assert(fr[w].number == fr[j as int].number);
                                assert(frs_now[w].number < frs_now[j as int].number);
                                lemma_ahead_frontier_not_common(
                                    chains,
                                    frs_now,
                                    streams@,
                                    j as int,
                                    w,
                                );
                            } else {
                                assert(is_ahead(fr, j as int));
                                let m = choose|m: int|
                                    0 <= m < fr.len() && (#[trigger] fr[m]).number < fr[
                                    j as int].number;
                                assert(frs_now[m].number <= fr[m].number);
                                assert(frs_now[m].number < frs_now[j as int].number);
                                lemma_ahead_frontier_not_common(
                                    chains,
                                    frs_now,
                                    streams@,
                                    j as int,
                                    m,
                                );
                            }
                        }
                        assert(!common_key(
                            chains,
                            frs_now[j as int].number,
                            frs_now[j as int].parent_hash,
                        ));
                    }
                    let ghost pend0 = streams@[j as int].pending();
                    let ghost stream_snap = streams@;
                    let ghost frontier_snap = frontiers@;
                    let ghost oldrem = remaining_of(frontier_snap[j as int]@, stream_snap[j as int]);
                    let pulled = streams[j].next_record();
                    match pulled {
                        Pulled::Block(b) => {
                            proof {
                                assert(pend0.len() >= FRAME_BYTES);
                                assert(streams@ == stream_snap.update(j as int, streams@[j as int]));
                                assert(frames_of(pend0) =~= seq![b@] + frames_of(
                                    streams@[j as int].pending(),
                                ));
                                let newrem = remaining_of(b@, streams@[j as int]);
                                assert(newrem =~= oldrem.skip(1)) by {
                                    assert(oldrem.skip(1) =~= frames_of(pend0));
                                    assert(newrem =~= frames_of(pend0));
                                }
                                // the old frontier's identity is not common, so
                                // every common identity survives into the rest
                                let c = choose|c: int|
                                    0 <= c <= chains[j as int].len() && chains[j as int].skip(c)
                                        == oldrem;
                                assert(chains[j as int].skip(c).len() == chains[j as int].len()
                                    - c);
                                assert(oldrem.len() == 1 + frames_of(pend0).len());
                                assert(oldrem.len() >= 2);
                                assert(chains[j as int].skip(c).skip(1) =~= chains[j as int].skip(
                                    c + 1,
                                ));
                                assert(chains[j as int].skip(c + 1) == oldrem.skip(1));
                                assert(is_suffix_of(newrem, chains[j as int]));
                                assert(strictly_descending(oldrem));
                                assert forall|i1: int, i2: int|
                                    0 <= i1 < i2 < newrem.len() implies (
                                #[trigger] newrem[i1]).number > (#[trigger] newrem[i2]).number by {
                                    assert(newrem[i1] == oldrem[i1 + 1]);
                                    assert(newrem[i2] == oldrem[i2 + 1]);
                                }
                                assert(strictly_descending(newrem));
                                assert forall|number: u64, hash: Seq<u8>| #[trigger]
                                    common_key(chains, number, hash) implies chain_has_key(
                                    newrem,
                                    number,
                                    hash,
                                ) by {
                                    assert(keeps_common_keys(
                                        chains,
                                        frontier_snap[j as int]@,
                                        stream_snap[j as int],
                                    ));
                                    assert(chain_has_key(oldrem, number, hash));
                                    let idx = choose|idx: int|
                                        0 <= idx < oldrem.len() && (#[trigger] oldrem[idx]).number
                                            == number && oldrem[idx].parent_hash == hash;
                                    assert(oldrem[0] == frontier_snap[j as int]@);
                                    if idx == 0 {
                                        assert(common_key(
                                            chains,
                                            frs_now[j as int].number,
                                            frs_now[j as int].parent_hash,
                                        ));
                                        assert(false);
                                    }
                                    assert(newrem[idx - 1] == oldrem[idx]);
                                }
                                assert(keeps_common_keys(chains, b@, streams@[j as int]));
                                assert(oldrem[1] == frames_of(pend0)[0]);
                                assert(oldrem[1] == b@);
                                assert(oldrem[0].number > oldrem[1].number);
                                assert(b@.number < frontier_snap[j as int]@.number);
                                assert(frames_of(streams@[j as int].pending()).len() == frames_of(
                                    pend0,
                                ).len() - 1);
                                assert(streams@[j as int].pending().len() as int % (
                                FRAME_BYTES as int) == pend0.len() as int % (FRAME_BYTES as int));
                            }
                            frontiers[j] = b;
                            proof {
                                assert(frontiers@ == frontier_snap.update(j as int, b));
                                assert forall|j2: int| 0 <= j2 < n implies frontier_ok(
                                    chains[j2],
                                    (#[trigger] frontiers@[j2])@,
                                    streams@[j2],
                                ) && keeps_common_keys(chains, frontiers@[j2]@, streams@[j2]) by {
                                    if j2 == j as int {
                                        assert(frontiers@[j2] == b);
                                    } else {
                                        assert(frontiers@[j2] == frontier_snap[j2]);
                                        assert(streams@[j2] == stream_snap[j2]);
                                        assert(frontier_ok(
                                            chains[j2],
                                            frontier_snap[j2]@,
                                            stream_snap[j2],
                                        ));
                                        assert(keeps_common_keys(
                                            chains,
                                            frontier_snap[j2]@,
                                            stream_snap[j2],
                                        ));
                                    }
                                }
                                assert(ix@.take(t + 1)[t as int] == ix@[t as int]);
                                assert(ix@.take(t + 1).contains(j as usize));
                                assert forall|j2: int| 0 <= j2 < n implies ((
                                #[trigger] frontiers@[j2]) == frontiers0[j2] || ix@.take(
                                    t + 1,
                                ).contains(j2 as usize)) by {
                                    if j2 != j as int {
                                        if frontiers@[j2] != frontiers0[j2] {
                                            assert(frontier_snap[j2] != frontiers0[j2]);
                                            assert(ix@.take(t as int).contains(j2 as usize));
                                            let u = choose|u: int|
                                                0 <= u < ix@.take(t as int).len() && ix@.take(
                                                    t as int,
                                                )[u] == (j2 as usize);
                                            assert(ix@.take(t + 1)[u] == ix@[u]);
                                            assert(ix@.take(t + 1).contains(j2 as usize));
                                        }
                                    }
                                }
                                if t == 0 {
                                    assert(frontiers@[ix@[0] as int]@.number < frontiers0[
                                        ix@[0] as int
                                    ]@.number);
                                } else {
                                    assert(ix@[0] < ix@[t as int]);
                                    assert(frontiers@[ix@[0] as int] == frontier_snap[
                                        ix@[0] as int
                                    ]);
                                    assert(streams@[ix@[0] as int] == stream_snap[ix@[0] as int]);
                                }
                            }
                        },
                        Pulled::End => {
                            proof {
                                assert(pend0.len() == 0);
                                assert(frames_of(pend0).len() == 0);
                                assert(keeps_common_keys(
                                    chains,
                                    frontier_snap[j as int]@,
                                    stream_snap[j as int],
                                ));
                                lemma_no_common_key_left(
                                    chains,
                                    frontier_snap[j as int]@,
                                    stream_snap[j as int],
                                );
                            }
                            return Ok(None);
                        },
                        Pulled::Malformed => {
                            proof {
                                assert(0 < pend0.len() < FRAME_BYTES);
                                assert(frames_of(pend0).len() == 0);
                                assert(keeps_common_keys(
                                    chains,
                                    frontier_snap[j as int]@,
                                    stream_snap[j as int],
                                ));
                                lemma_no_common_key_left(
                                    chains,
                                    frontier_snap[j as int]@,
                                    stream_snap[j as int],
                                );
                                assert(!ends_clean(pend0));
                                assert(!ends_clean(orig[j as int].pending()));
                                assert(!streams_all_clean(orig));
                            }
                            return Err(StreamError::MalformedFrame);
                        },
                    }
                    t = t + 1;
                }
                proof {
                    assert(ix@.len() > 0);
                    lemma_total_blocks_lt(snap, streams@, ix@[0] as int);
                }
            },
        }
    }
}

} // verus!
