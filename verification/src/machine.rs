//! The liftover machine: an immutable index of alignment blocks keyed
//! by reference contig, and the lift operation itself.
//!
//! Where blocks from different chains overlap on the reference, the
//! builder keeps one of them: an incoming block replaces the blocks it
//! overlaps only when its chain's score is strictly above each of
//! theirs; otherwise the incoming block is discarded, so on a tie the
//! chain seen first wins.

use vstd::prelude::*;
use crate::block::{AlignmentBlock, GBlock, GChain};
use crate::interval::{Coordinate, GInterval, Interval, InvalidIntervalError};
use crate::parse::{
    chain_views, parse_chains, parse_chains_spec, strand_of, strand_ok, ParseError,
};
use crate::strand::{flip_spec, parse_strand, Strand, StrandValueError};
use crate::util::{bytes_eq, copy_bytes, copy_slice};

verus! {

/// Blocks in strictly increasing reference order, never overlapping.
pub open spec fn blocks_sorted_disjoint(bs: Seq<GBlock>) -> bool {
    forall|i: int, j: int|
        0 <= i < j < bs.len() ==> (#[trigger] bs[i]).ref_end() <= (#[trigger] bs[j]).ref_start
}

/// Every block of the list is usable.
pub open spec fn blocks_wf(bs: Seq<GBlock>) -> bool {
    forall|i: int| 0 <= i < bs.len() ==> (#[trigger] bs[i]).wf()
}

/// The block covers part of the query range on the reference side.
pub open spec fn intersects(b: GBlock, q: GInterval) -> bool {
    b.ref_start < q.end && q.start < b.ref_end()
}

/// Two blocks cover a common reference position.
pub open spec fn overlaps(a: GBlock, b: GBlock) -> bool {
    a.ref_start < b.ref_end() && b.ref_start < a.ref_end()
}

/// The lifted image of the part of `q` that block `b` covers: the
/// covered reference sub-range shifted into block-local offsets and
/// re-based on the query side.  For a negative-strand block the file's
/// query coordinates are reflected through the query contig size here,
/// at output emission and nowhere else, and the reported strand flips.
pub open spec fn piece(b: GBlock, q: GInterval) -> GInterval {
    let s = if q.start > b.ref_start {
        q.start
    } else {
        b.ref_start
    };
    let e = if q.end < b.ref_end() {
        q.end
    } else {
        b.ref_end()
    };
    let qs = b.q_start + (s - b.ref_start);
    let qe = b.q_start + (e - b.ref_start);
    match b.q_strand {
        Strand::Positive => GInterval { contig: b.q_contig, start: qs, end: qe, strand: q.strand },
        Strand::Negative => GInterval {
            contig: b.q_contig,
            start: b.q_size - qe,
            end: b.q_size - qs,
            strand: flip_spec(q.strand),
        },
    }
}

/// The lifted images of a query against a block list, one per
/// intersecting block, in list order; covered gaps yield nothing.
pub open spec fn lift_spec(bs: Seq<GBlock>, q: GInterval) -> Seq<GInterval>
    decreases bs.len(),
{
    if bs.len() == 0 {
        Seq::<GInterval>::empty()
    } else {
        let rest = lift_spec(bs.drop_last(), q);
        if intersects(bs.last(), q) {
            rest.push(piece(bs.last(), q))
        } else {
            rest
        }
    }
}

/// A list without intersecting blocks lifts to nothing.
pub proof fn lemma_lift_spec_none(bs: Seq<GBlock>, q: GInterval)
    requires
        forall|k: int| 0 <= k < bs.len() ==> !intersects(#[trigger] bs[k], q),
    ensures
        lift_spec(bs, q).len() == 0,
    decreases bs.len(),
{
    if bs.len() > 0 {
        lemma_lift_spec_none(bs.drop_last(), q);
    }
}

/// Blocks past `i` that miss the query do not change the lift.
pub proof fn lemma_lift_spec_stable(bs: Seq<GBlock>, q: GInterval, i: int)
    requires
        0 <= i <= bs.len(),
        forall|k: int| i <= k < bs.len() ==> !intersects(#[trigger] bs[k], q),
    ensures
        lift_spec(bs, q) == lift_spec(bs.take(i), q),
    decreases bs.len() - i,
{
    if i < bs.len() {
        assert(!intersects(bs.last(), q));
        lemma_lift_spec_stable(bs.drop_last(), q, i);
        assert(bs.drop_last().take(i) =~= bs.take(i));
    } else {
        assert(bs.take(i) =~= bs);
    }
}

/// All blocks of one reference contig, in reference order.
#[derive(Clone, Debug)]
pub struct ContigBlocks {
    pub contig: Vec<u8>,
    pub blocks: Vec<AlignmentBlock>,
}

/// Mathematical value of a [`ContigBlocks`].
#[verifier::ext_equal]
pub struct GContigBlocks {
    pub contig: Seq<u8>,
    pub blocks: Seq<GBlock>,
}

/// The views of a vector of alignment blocks.
pub open spec fn block_views(v: Seq<AlignmentBlock>) -> Seq<GBlock> {
    v.map_values(|b: AlignmentBlock| b@)
}

impl View for ContigBlocks {
    type V = GContigBlocks;

    open spec fn view(&self) -> GContigBlocks {
        GContigBlocks { contig: self.contig@, blocks: block_views(self.blocks@) }
    }
}

/// The views of a vector of per-contig entries.
pub open spec fn entry_views(v: Seq<ContigBlocks>) -> Seq<GContigBlocks> {
    v.map_values(|e: ContigBlocks| e@)
}

/// Index of the entry for contig `c`, or `-1` when there is none.
pub open spec fn find_entry(entries: Seq<GContigBlocks>, c: Seq<u8>) -> int
    decreases entries.len(),
{
    if entries.len() == 0 {
        -1
    } else if entries[0].contig == c {
        0
    } else {
        let r = find_entry(entries.skip(1), c);
        if r < 0 {
            -1
        } else {
            r + 1
        }
    }
}

/// What [`find_entry`] returns: the first matching index, or `-1` when
/// no entry matches.
pub proof fn lemma_find_entry_char(entries: Seq<GContigBlocks>, c: Seq<u8>)
    ensures
        -1 <= find_entry(entries, c) < entries.len(),
        find_entry(entries, c) == -1 ==> forall|k: int|
            0 <= k < entries.len() ==> (#[trigger] entries[k]).contig != c,
        find_entry(entries, c) >= 0 ==> entries[find_entry(entries, c)].contig == c,
        find_entry(entries, c) >= 0 ==> forall|k: int|
            0 <= k < find_entry(entries, c) ==> (#[trigger] entries[k]).contig != c,
    decreases entries.len(),
{
    if entries.len() > 0 && entries[0].contig != c {
        lemma_find_entry_char(entries.skip(1), c);
        assert forall|k: int| 1 <= k < entries.len() implies entries.skip(1)[k - 1] == entries[k]
        by {}
    }
}

/// The blocks the machine holds for contig `c`; none when the contig
/// is unknown.
pub open spec fn blocks_for(entries: Seq<GContigBlocks>, c: Seq<u8>) -> Seq<GBlock> {
    let i = find_entry(entries, c);
    if i < 0 {
        Seq::<GBlock>::empty()
    } else {
        entries[i].blocks
    }
}

/// A usable index: one entry per contig, each holding usable blocks in
/// strictly increasing, non-overlapping reference order.
pub open spec fn machine_wf(entries: Seq<GContigBlocks>) -> bool {
    &&& forall|i: int, j: int|
        0 <= i < j < entries.len() ==> (#[trigger] entries[i]).contig != (
        #[trigger] entries[j]).contig
    &&& forall|i: int|
        0 <= i < entries.len() ==> blocks_sorted_disjoint((#[trigger] entries[i]).blocks)
    &&& forall|i: int| 0 <= i < entries.len() ==> blocks_wf((#[trigger] entries[i]).blocks)
}

/// Number of leading blocks that end at or before `x`.
pub open spec fn first_end_gt(bs: Seq<GBlock>, x: int) -> int
    decreases bs.len(),
{
    if bs.len() == 0 {
        0
    } else if bs[0].ref_end() > x {
        0
    } else {
        1 + first_end_gt(bs.skip(1), x)
    }
}

/// Number of leading blocks that start below `x`.
pub open spec fn first_start_ge(bs: Seq<GBlock>, x: int) -> int
    decreases bs.len(),
{
    if bs.len() == 0 {
        0
    } else if bs[0].ref_start >= x {
        0
    } else {
        1 + first_start_ge(bs.skip(1), x)
    }
}

/// What [`first_end_gt`] returns.
pub proof fn lemma_first_end_gt_char(bs: Seq<GBlock>, x: int)
    ensures
        0 <= first_end_gt(bs, x) <= bs.len(),
        forall|k: int| 0 <= k < first_end_gt(bs, x) ==> (#[trigger] bs[k]).ref_end() <= x,
        first_end_gt(bs, x) < bs.len() ==> bs[first_end_gt(bs, x)].ref_end() > x,
    decreases bs.len(),
{
    if bs.len() > 0 && !(bs[0].ref_end() > x) {
        lemma_first_end_gt_char(bs.skip(1), x);
        assert forall|k: int| 1 <= k < bs.len() implies bs.skip(1)[k - 1] == bs[k] by {}
    }
}

/// What [`first_start_ge`] returns.
pub proof fn lemma_first_start_ge_char(bs: Seq<GBlock>, x: int)
    ensures
        0 <= first_start_ge(bs, x) <= bs.len(),
        forall|k: int| 0 <= k < first_start_ge(bs, x) ==> (#[trigger] bs[k]).ref_start < x,
        first_start_ge(bs, x) < bs.len() ==> bs[first_start_ge(bs, x)].ref_start >= x,
    decreases bs.len(),
{
    if bs.len() > 0 && !(bs[0].ref_start >= x) {
        lemma_first_start_ge_char(bs.skip(1), x);
        assert forall|k: int| 1 <= k < bs.len() implies bs.skip(1)[k - 1] == bs[k] by {}
    }
}

/// Some block already in the list overlaps `b` with a score at least
/// `b`'s: the incoming block loses and is discarded.
pub open spec fn has_blocker(bs: Seq<GBlock>, b: GBlock) -> bool {
    exists|i: int| 0 <= i < bs.len() && overlaps(#[trigger] bs[i], b) && bs[i].score >= b.score
}

/// Inserts `b` into a sorted disjoint list under the overlap policy:
/// if any overlapped block has a score at least `b`'s the list is
/// unchanged, else `b` replaces exactly the blocks it overlaps, at its
/// sorted position.
pub open spec fn insert_block_spec(bs: Seq<GBlock>, b: GBlock) -> Seq<GBlock> {
    if has_blocker(bs, b) {
        bs
    } else {
        bs.take(first_end_gt(bs, b.ref_start)) + seq![b] + bs.skip(
            first_start_ge(bs, b.ref_end()),
        )
    }
}

/// Copies an alignment block.
pub fn clone_block(b: &AlignmentBlock) -> (r: AlignmentBlock)
    ensures
        r@ == b@,
{
    let r = AlignmentBlock {
        ref_contig: copy_bytes(&b.ref_contig),
        ref_start: b.ref_start,
        size: b.size,
        q_contig: copy_bytes(&b.q_contig),
        q_start: b.q_start,
        q_size: b.q_size,
        q_strand: b.q_strand,
        score: b.score,
    };
    proof {
        assert(r@ =~= b@);
    }
    r
}

/// Inserts one block into one contig's sorted block list, as
/// [`insert_block_spec`] describes.
#[verifier::rlimit(80)]
fn insert_block(bs: &mut Vec<AlignmentBlock>, b: AlignmentBlock)
    requires
        blocks_sorted_disjoint(block_views(old(bs)@)),
        blocks_wf(block_views(old(bs)@)),
        b@.wf(),
    ensures
        block_views(final(bs)@) == insert_block_spec(block_views(old(bs)@), b@),
        blocks_sorted_disjoint(block_views(final(bs)@)),
        blocks_wf(block_views(final(bs)@)),
{
    let ghost gbs = block_views(bs@);
    let ghost gb = b@;
    let n = bs.len();
    proof {
        lemma_first_end_gt_char(gbs, gb.ref_start);
        lemma_first_start_ge_char(gbs, gb.ref_end());
    }
    let ghost glo = first_end_gt(gbs, gb.ref_start);
    let ghost ghi = first_start_ge(gbs, gb.ref_end());

    // the reference end of every block, for overflow-free comparisons
    let mut ends: Vec<u64> = Vec::new();
    let mut t: usize = 0;
    while t < n
        invariant
            0 <= t <= n,
            ends@.len() == t,
            forall|k: int| 0 <= k < t ==> ends@[k] as int == (#[trigger] gbs[k]).ref_end(),
        decreases n - t,
    {
        proof {
            assert(gbs[t as int] == bs@[t as int]@);
            assert(gbs[t as int].wf());
        }
        ends.push(bs[t].ref_start + bs[t].size);
        t = t + 1;
    }

    // find the first block ending past the start of `b`
    let mut lo: usize = 0;
    while lo < n && ends[lo] <= b.ref_start
        invariant
            0 <= lo <= n,
            forall|k: int| 0 <= k < lo ==> (#[trigger] gbs[k]).ref_end() <= gb.ref_start,
        decreases n - lo,
    {
        lo = lo + 1;
    }
    proof {
        assert(lo < n ==> gbs[lo as int].ref_end() > gb.ref_start);
        assert(lo as int == glo) by {
            if (lo as int) < glo {
                assert(gbs[lo as int].ref_end() <= gb.ref_start);
            }
            if glo < lo as int {
                assert(gbs[glo].ref_end() <= gb.ref_start);
            }
        }
    }

    // find the first block starting at or past the end of `b`
    let b_end = b.ref_start + b.size;
    let mut hi: usize = lo;
    while hi < n && bs[hi].ref_start < b_end
        invariant
            lo <= hi <= n,
            forall|k: int| lo <= k < hi ==> (#[trigger] gbs[k]).ref_start < gb.ref_end(),
        decreases n - hi,
    {
        proof {
            assert(gbs[hi as int] == bs@[hi as int]@);
        }
        hi = hi + 1;
    }
    proof {
        assert(hi < n ==> gbs[hi as int].ref_start >= gb.ref_end());
        assert forall|k: int| 0 <= k < hi implies (#[trigger] gbs[k]).ref_start < gb.ref_end() by {
            if k < lo {
                assert(gbs[k].wf());
                assert(gbs[k].ref_end() <= gb.ref_start);
            }
        }
        assert(hi as int == ghi) by {
            if (hi as int) < ghi {
                assert(gbs[hi as int].ref_start < gb.ref_end());
            }
            if ghi < hi as int {
                assert(gbs[ghi].ref_start < gb.ref_end());
            }
        }
        // blocks outside [lo, hi) cannot overlap `b`
        assert forall|k: int| 0 <= k < n && !(glo <= k < ghi) implies !overlaps(gbs[k], gb) by {
            if k < glo {
                assert(gbs[k].ref_end() <= gb.ref_start);
            } else {
                assert(gbs[k].ref_start >= gb.ref_end());
            }
        }
    }

    // the policy: any overlapped block with an equal or better score blocks `b`
    let mut i: usize = lo;
    while i < hi
        invariant
            lo <= i <= hi <= n,
            n == gbs.len(),
            gbs == block_views(bs@),
            blocks_sorted_disjoint(gbs),
            blocks_wf(gbs),
            lo as int == glo,
            hi as int == ghi,
            lo < n ==> gbs[lo as int].ref_end() > gb.ref_start,
            forall|k: int| lo <= k < hi ==> (#[trigger] gbs[k]).ref_start < gb.ref_end(),
            forall|k: int| lo <= k < i ==> (#[trigger] gbs[k]).score < gb.score,
        decreases hi - i,
    {
        proof {
            assert(gbs[i as int] == bs@[i as int]@);
        }
        if bs[i].score >= b.score {
            proof {
                if i > lo {
                    assert(gbs[lo as int].ref_end() <= gbs[i as int].ref_start);
                    assert(gbs[i as int].wf());
                }
                assert(gbs[i as int].ref_end() > gb.ref_start);
                assert(gbs[i as int].ref_start < gb.ref_end());
                assert(overlaps(gbs[i as int], gb));
                assert(has_blocker(gbs, gb));
            }
            return ;
        }
        i = i + 1;
    }
    proof {
        assert(!has_blocker(gbs, gb)) by {
            if has_blocker(gbs, gb) {
                let w = choose|w: int|
                    0 <= w < gbs.len() && overlaps(#[trigger] gbs[w], gb) && gbs[w].score
                        >= gb.score;
                assert(glo <= w < ghi);
            }
        }
    }

    // splice: keep [0, lo), place `b`, keep [hi, n)
    let mut out: Vec<AlignmentBlock> = Vec::new();
    let mut k: usize = 0;
    proof {
        assert(block_views(out@) =~= gbs.take(0));
    }
    while k < lo
        invariant
            0 <= k <= lo <= n,
            n == gbs.len(),
            gbs == block_views(bs@),
            block_views(out@) == gbs.take(k as int),
        decreases lo - k,
    {
        out.push(clone_block(&bs[k]));
        proof {
            assert(gbs[k as int] == bs@[k as int]@);
            assert(block_views(out@) =~= gbs.take(k as int + 1));
        }
        k = k + 1;
    }
    out.push(b);
    proof {
        assert(block_views(out@) =~= gbs.take(lo as int) + seq![gb]);
    }
    let mut k2: usize = hi;
    while k2 < n
        invariant
            hi <= k2 <= n,
            n == gbs.len(),
            gbs == block_views(bs@),
            block_views(out@) == gbs.take(lo as int) + seq![gb] + gbs.subrange(hi as int, k2 as int),
        decreases n - k2,
    {
        let ghost out_pre = out@;
        out.push(clone_block(&bs[k2]));
        proof {
            assert(gbs[k2 as int] == bs@[k2 as int]@);
            assert(out@ == out_pre.push(out@.last()));
            assert(out@.last()@ == gbs[k2 as int]);
            assert(block_views(out@) =~= block_views(out_pre).push(gbs[k2 as int]));
            assert(gbs.subrange(hi as int, k2 as int + 1) =~= gbs.subrange(
                hi as int,
                k2 as int,
            ).push(gbs[k2 as int]));
            assert(block_views(out@) =~= gbs.take(lo as int) + seq![gb] + gbs.subrange(
                hi as int,
                k2 as int + 1,
            ));
        }
        k2 = k2 + 1;
    }
    proof {
        assert(gbs.subrange(hi as int, n as int) =~= gbs.skip(hi as int));
        assert(block_views(out@) =~= insert_block_spec(gbs, gb));
    }
    *bs = out;
    proof {
        let res = block_views(bs@);
        assert forall|p: int, q: int| 0 <= p < q < res.len() implies (#[trigger] res[p]).ref_end()
            <= (#[trigger] res[q]).ref_start by {
            let lo_i = lo as int;
            let hi_i = hi as int;
            let old_p = if p < lo_i {
                p
            } else {
                p - lo_i - 1 + hi_i
            };
            let old_q = if q < lo_i {
                q
            } else {
                q - lo_i - 1 + hi_i
            };
            if p < lo_i && q == lo_i {
                assert(res[p] == gbs[p]);
                assert(gbs[p].ref_end() <= gb.ref_start);
            } else if p == lo_i {
                assert(res[p] == gb);
                assert(res[q] == gbs[old_q]);
                assert(gbs[old_q].ref_start >= gb.ref_end());
            } else if p < lo_i && q > lo_i {
                assert(res[p] == gbs[p]);
                assert(res[q] == gbs[old_q]);
                assert(gbs[p].ref_end() <= gb.ref_start);
                assert(gbs[old_q].ref_start >= gb.ref_end());
                assert(gb.ref_start < gb.ref_end());
            } else {
                assert(res[p] == gbs[old_p]);
                assert(res[q] == gbs[old_q]);
                assert(gbs[old_p].ref_end() <= gbs[old_q].ref_start);
            }
        }
        assert forall|p: int| 0 <= p < res.len() implies (#[trigger] res[p]).wf() by {
            let lo_i = lo as int;
            let hi_i = hi as int;
            if p < lo_i {
                assert(res[p] == gbs[p]);
                assert(gbs[p].wf());
            } else if p == lo_i {
                assert(res[p] == gb);
            } else {
                assert(res[p] == gbs[p - lo_i - 1 + hi_i]);
                assert(gbs[p - lo_i - 1 + hi_i].wf());
            }
        }
    }
}

/// Adds one block to the per-contig index: a new entry for a new
/// contig, else an [`insert_block_spec`] insertion into its entry.
pub open spec fn add_block_spec(entries: Seq<GContigBlocks>, b: GBlock) -> Seq<GContigBlocks> {
    let i = find_entry(entries, b.ref_contig);
    if i < 0 {
        entries.push(
            GContigBlocks {
                contig: b.ref_contig,
                blocks: insert_block_spec(Seq::<GBlock>::empty(), b),
            },
        )
    } else {
        entries.update(
            i,
            GContigBlocks {
                contig: entries[i].contig,
                blocks: insert_block_spec(entries[i].blocks, b),
            },
        )
    }
}

/// Adds a chain's blocks to the index, in chain order.
pub open spec fn add_blocks_spec(entries: Seq<GContigBlocks>, blocks: Seq<GBlock>) -> Seq<
    GContigBlocks,
>
    decreases blocks.len(),
{
    if blocks.len() == 0 {
        entries
    } else {
        add_block_spec(add_blocks_spec(entries, blocks.drop_last()), blocks.last())
    }
}

/// The index built from a list of chains, block by block in file order.
pub open spec fn build_index_spec(chains: Seq<GChain>) -> Seq<GContigBlocks>
    decreases chains.len(),
{
    if chains.len() == 0 {
        Seq::<GContigBlocks>::empty()
    } else {
        add_blocks_spec(build_index_spec(chains.drop_last()), chains.last().blocks)
    }
}

/// Finds the entry of a contig, as [`find_entry`] describes.
fn find_contig(entries: &Vec<ContigBlocks>, c: &[u8]) -> (r: Option<usize>)
    ensures
        match r {
            Some(i) => 0 <= i < entries@.len() && find_entry(entry_views(entries@), c@)
                == i as int,
            None => find_entry(entry_views(entries@), c@) == -1,
        },
{
    let ghost ge = entry_views(entries@);
    proof {
        lemma_find_entry_char(ge, c@);
    }
    let mut i: usize = 0;
    while i < entries.len()
        invariant
            0 <= i <= entries@.len(),
            forall|k: int| 0 <= k < i ==> (#[trigger] ge[k]).contig != c@,
        decreases entries@.len() - i,
    {
        proof {
            assert(ge[i as int] == entries@[i as int]@);
        }
        if bytes_eq(entries[i].contig.as_slice(), c) {
            proof {
                let r = find_entry(ge, c@);
                if r < 0 {
                    assert(ge[i as int].contig != c@);
                }
                if 0 <= r < i as int {
                    assert(ge[r].contig != c@);
                }
                if (i as int) < r {
                    assert(ge[i as int].contig != c@);
                }
            }
            return Some(i);
        }
        i = i + 1;
    }
    proof {
        let r = find_entry(ge, c@);
        if r >= 0 {
            assert(ge[r].contig != c@);
        }
    }
    None
}

/// Adds one block to the index, as [`add_block_spec`] describes.
fn add_block(entries: &mut Vec<ContigBlocks>, b: AlignmentBlock)
    requires
        machine_wf(entry_views(old(entries)@)),
        b@.wf(),
    ensures
        entry_views(final(entries)@) == add_block_spec(entry_views(old(entries)@), b@),
        machine_wf(entry_views(final(entries)@)),
{
    let ghost ge = entry_views(entries@);
    let ghost gb = b@;
    proof {
        lemma_find_entry_char(ge, gb.ref_contig);
    }
    match find_contig(entries, b.ref_contig.as_slice()) {
        None => {
            let contig = copy_bytes(&b.ref_contig);
            let mut blocks: Vec<AlignmentBlock> = Vec::new();
            proof {
                assert(block_views(blocks@) =~= Seq::<GBlock>::empty());
            }
            insert_block(&mut blocks, b);
            entries.push(ContigBlocks { contig, blocks });
            proof {
                assert(entry_views(entries@) =~= add_block_spec(ge, gb));
                let ge2 = entry_views(entries@);
                assert forall|p: int, q: int| 0 <= p < q < ge2.len() implies (
                #[trigger] ge2[p]).contig != (#[trigger] ge2[q]).contig by {
                    if q == ge2.len() - 1 {
                        assert(ge2[p] == ge[p]);
                        assert(ge[p].contig != gb.ref_contig);
                    }
                }
                assert forall|p: int| 0 <= p < ge2.len() implies blocks_sorted_disjoint(
                    (#[trigger] ge2[p]).blocks,
                ) && blocks_wf(ge2[p].blocks) by {
                    if p < ge2.len() - 1 {
                        assert(ge2[p] == ge[p]);
                    }
                }
            }
        },
        Some(i) => {
            let ghost gi = i as int;
            let mut e = entries.remove(i);
            insert_block(&mut e.blocks, b);
            entries.insert(i, e);
            proof {
                assert(entries@ =~= old(entries)@.update(gi, entries@[gi]));
                assert(entries@[gi]@.contig == ge[gi].contig);
                assert(entries@[gi]@.blocks == insert_block_spec(ge[gi].blocks, gb));
                assert(entry_views(entries@) =~= add_block_spec(ge, gb));
                let ge2 = entry_views(entries@);
                assert forall|p: int, q: int| 0 <= p < q < ge2.len() implies (
                #[trigger] ge2[p]).contig != (#[trigger] ge2[q]).contig by {
                    assert(ge2[p].contig == ge[p].contig);
                    assert(ge2[q].contig == ge[q].contig);
                }
                assert forall|p: int| 0 <= p < ge2.len() implies blocks_sorted_disjoint(
                    (#[trigger] ge2[p]).blocks,
                ) && blocks_wf(ge2[p].blocks) by {
                    if p != gi {
                        assert(ge2[p] == ge[p]);
                    }
                }
            }
        },
    }
}

/// Construction failed: the text is malformed, or it holds no chain.
#[derive(Clone, Copy, Debug, PartialEq, Eq, Structural)]
pub enum ChainfileError {
    /// The chain text itself is malformed.
    Parse(ParseError),
    /// The input parsed but held no chain at all.
    NoChains,
}

/// Builds a [`Machine`] from chain text; construction either succeeds
/// whole or fails without exposing a partial machine.
#[derive(Clone, Copy, Debug, PartialEq, Eq, Structural)]
pub struct Builder;

impl Default for Builder {
    fn default() -> (r: Builder)
        ensures
            r == Builder,
    {
        Builder
    }
}

/// An immutable index of all alignment blocks of a chain file, keyed
/// by reference contig and sorted by reference start.  Built once,
/// then queried read-only.
#[derive(Debug)]
pub struct Machine {
    pub entries: Vec<ContigBlocks>,
}

impl View for Machine {
    type V = Seq<GContigBlocks>;

    open spec fn view(&self) -> Seq<GContigBlocks> {
        entry_views(self.entries@)
    }
}

impl Machine {
    /// The machine invariant: one entry per contig, blocks sorted,
    /// disjoint and usable.  Every machine the builder hands out
    /// satisfies it.
    pub open spec fn wf(self) -> bool {
        machine_wf(self@)
    }
}

impl Builder {
    /// Parses chain text and builds the index.  Fails with the parse
    /// error of the first bad line, or with
    /// [`ChainfileError::NoChains`] on an input without chains; on
    /// success the machine's contents are exactly
    /// [`build_index_spec`] of the parsed chains.
    pub fn try_build_from(&self, input: &[u8]) -> (r: Result<Machine, ChainfileError>)
        ensures
            match r {
                Ok(m) => {
                    &&& parse_chains_spec(input@) matches Ok(g) && g.len() > 0 && m@
                        == build_index_spec(g)
                    &&& m.wf()
                },
                Err(ChainfileError::Parse(e)) => parse_chains_spec(input@) matches Err(ge) && e@
                    == ge,
                Err(ChainfileError::NoChains) => parse_chains_spec(input@) matches Ok(g) && g.len()
                    == 0,
            },
    {
        let chains = match parse_chains(input) {
            Ok(v) => v,
            Err(e) => { return Err(ChainfileError::Parse(e)) },
        };
        if chains.len() == 0 {
            return Err(ChainfileError::NoChains);
        }
        let ghost gchains = chain_views(chains@);
        let mut entries: Vec<ContigBlocks> = Vec::new();
        proof {
            assert(entry_views(entries@) =~= build_index_spec(gchains.take(0)));
        }
        let mut ci: usize = 0;
        while ci < chains.len()
            invariant
                0 <= ci <= chains@.len(),
                machine_wf(entry_views(entries@)),
                entry_views(entries@) == build_index_spec(gchains.take(ci as int)),
            decreases chains@.len() - ci,
        {
            proof {
                assert(gchains[ci as int] == chains@[ci as int]@);
                assert(chains@[ci as int]@.wf());
            }
            let blocks_len = chains[ci].blocks.len();
            let ghost gblocks = gchains[ci as int].blocks;
            let mut bi: usize = 0;
            proof {
                assert(gblocks.take(0) =~= Seq::<GBlock>::empty());
            }
            while bi < blocks_len
                invariant
                    0 <= bi <= blocks_len,
                    blocks_len == gblocks.len(),
                    machine_wf(entry_views(entries@)),
                    entry_views(entries@) == add_blocks_spec(
                        build_index_spec(gchains.take(ci as int)),
                        gblocks.take(bi as int),
                    ),
                decreases blocks_len - bi,
            {
                let blk = clone_block(&chains[ci].blocks[bi]);
                proof {
                    assert(gblocks[bi as int] == chains[ci as int].blocks@[bi as int]@);
                    assert(blk@ == gblocks[bi as int]);
                    assert(gblocks[bi as int].wf());
                }
                add_block(&mut entries, blk);
                proof {
                    assert(gblocks.take(bi as int + 1).drop_last() =~= gblocks.take(bi as int));
                    assert(gblocks.take(bi as int + 1).last() == gblocks[bi as int]);
                }
                bi = bi + 1;
            }
            proof {
                assert(gblocks.take(blocks_len as int) =~= gblocks);
                assert(gchains.take(ci as int + 1).drop_last() =~= gchains.take(ci as int));
                assert(gchains.take(ci as int + 1).last() == gchains[ci as int]);
            }
            ci = ci + 1;
        }
        proof {
            assert(gchains.take(chains@.len() as int) =~= gchains);
        }
        Ok(Machine { entries })
    }
}

/// The views of a vector of intervals.
pub open spec fn interval_views(v: Seq<Interval>) -> Seq<GInterval> {
    v.map_values(|iv: Interval| iv@)
}

/// Builds the output interval of one intersecting block, as [`piece`]
/// describes.
fn make_piece(b: &AlignmentBlock, query: &Interval) -> (r: Interval)
    requires
        b@.wf(),
        query.wf(),
        intersects(b@, query@),
    ensures
        r@ == piece(b@, query@),
        r.wf(),
{
    let s = if query.start.position > b.ref_start {
        query.start.position
    } else {
        b.ref_start
    };
    let bend = b.ref_start + b.size;
    let e = if query.end.position < bend {
        query.end.position
    } else {
        bend
    };
    let ds = s - b.ref_start;
    let de = e - b.ref_start;
    let qs = b.q_start + ds;
    let qe = b.q_start + de;
    match b.q_strand {
        Strand::Positive => {
            let r = Interval {
                start: Coordinate {
                    contig: copy_bytes(&b.q_contig),
                    position: qs,
                    strand: query.start.strand,
                },
                end: Coordinate {
                    contig: copy_bytes(&b.q_contig),
                    position: qe,
                    strand: query.start.strand,
                },
            };
            proof {
                assert(r@ =~= piece(b@, query@));
            }
            r
        },
        Strand::Negative => {
            let rs = b.q_size - qe;
            let re = b.q_size - qs;
            let st = query.start.strand.flip();
            let r = Interval {
                start: Coordinate { contig: copy_bytes(&b.q_contig), position: rs, strand: st },
                end: Coordinate { contig: copy_bytes(&b.q_contig), position: re, strand: st },
            };
            proof {
                assert(r@ =~= piece(b@, query@));
            }
            r
        },
    }
}

impl Machine {
    /// Lifts one query interval.  Returns one output interval per
    /// alignment block that covers part of the query, in reference
    /// order — exactly [`lift_spec`] over this contig's blocks — or
    /// `None` when no block covers any part of it.  Reference gaps
    /// inside the query simply yield no piece.
    #[verifier::rlimit(80)]
    pub fn lift(&self, query: &Interval) -> (r: Option<Vec<Interval>>)
        requires
            self.wf(),
            query.wf(),
        ensures
            ({
                let l = lift_spec(blocks_for(self@, query@.contig), query@);
                match r {
                    Some(v) => interval_views(v@) == l && v@.len() > 0,
                    None => l.len() == 0,
                }
            }),
    {
        let ghost gq = query@;
        let ghost gall = blocks_for(self@, gq.contig);
        let ei = match find_contig(&self.entries, query.start.contig.as_slice()) {
            None => {
                proof {
                    assert(gall =~= Seq::<GBlock>::empty());
                    lemma_lift_spec_none(gall, gq);
                }
                return None;
            },
            Some(i) => i,
        };
        let bs = &self.entries[ei].blocks;
        let ghost gbs = block_views(bs@);
        proof {
            assert(self@[ei as int] == self.entries@[ei as int]@);
            assert(gbs == gall);
            assert(blocks_sorted_disjoint(gbs));
            assert(blocks_wf(gbs));
        }
        let n = bs.len();
        let qstart = query.start.position;
        let qend = query.end.position;

        // binary search: the first block whose reference end lies past
        // the query start; intersecting blocks form a run from there
        let mut low: usize = 0;
        let mut high: usize = n;
        while low < high
            invariant
                0 <= low <= high <= n,
                n == gbs.len(),
                forall|k: int| 0 <= k < low ==> (#[trigger] gbs[k]).ref_end() <= qstart,
                high < n ==> gbs[high as int].ref_end() > qstart,
            decreases high - low,
        {
            let mid = low + (high - low) / 2;
            proof {
                assert(gbs[mid as int] == bs@[mid as int]@);
                assert(gbs[mid as int].wf());
            }
            if bs[mid].ref_start + bs[mid].size <= qstart {
                proof {
                    assert forall|k: int| 0 <= k < mid + 1 implies (#[trigger] gbs[k]).ref_end()
                        <= qstart by {
                        if k < mid as int {
                            assert(gbs[k].ref_end() <= gbs[mid as int].ref_start);
                        }
                    }
                }
                low = mid + 1;
            } else {
                high = mid;
            }
        }

        let mut out: Vec<Interval> = Vec::new();
        proof {
            assert forall|k: int| 0 <= k < low implies !intersects(#[trigger] gbs[k], gq) by {}
            lemma_lift_spec_none(gbs.take(low as int), gq);
            assert(interval_views(out@) =~= lift_spec(gbs.take(low as int), gq));
        }
        let mut i: usize = low;
        while i < n && bs[i].ref_start < qend
            invariant
                low <= i <= n,
                n == gbs.len(),
                interval_views(out@) == lift_spec(gbs.take(i as int), gq),
            decreases n - i,
        {
            proof {
                assert(gbs[i as int] == bs@[i as int]@);
                assert(gbs[i as int].wf());
                if i > low {
                    assert(gbs[low as int].ref_end() <= gbs[i as int].ref_start);
                    assert(gbs[low as int].ref_end() > qstart);
                }
                assert(intersects(gbs[i as int], gq));
            }
            let piece_iv = make_piece(&bs[i], query);
            out.push(piece_iv);
            proof {
                assert(gbs.take(i as int + 1).drop_last() =~= gbs.take(i as int));
                assert(gbs.take(i as int + 1).last() == gbs[i as int]);
                assert(interval_views(out@) =~= lift_spec(gbs.take(i as int + 1), gq));
            }
            i = i + 1;
        }
        proof {
            assert forall|k: int| i <= k < n implies !intersects(#[trigger] gbs[k], gq) by {
                assert(gbs[i as int] == bs@[i as int]@);
                if k > i as int {
                    assert(gbs[i as int].ref_end() <= gbs[k].ref_start);
                    assert(gbs[i as int].wf());
                }
            }
            lemma_lift_spec_stable(gbs, gq, i as int);
        }
        if out.len() == 0 {
            None
        } else {
            Some(out)
        }
    }
}

/// How a coordinate-level query fails.
#[derive(Clone, Copy, Debug, PartialEq, Eq, Structural)]
pub enum LiftError {
    /// The strand token was neither `+` nor `-`.
    StrandValue(StrandValueError),
    /// The positions do not form a non-empty half-open interval.
    InvalidInterval(InvalidIntervalError),
    /// The queried locus has no mapping in the target assembly: the
    /// contig is unknown or no block covers the range.  A normal
    /// outcome, distinguishable from the malformed-query errors.
    NoLiftover,
}

impl Machine {
    /// The query facade over plain values: reads the strand token,
    /// forms the interval `[start, end)` on `chrom`, lifts it, and
    /// folds "unknown contig" and "no covering block" into
    /// [`LiftError::NoLiftover`].  A failed query never touches the
    /// machine, which stays valid for further calls.
    pub fn lift_coords(&self, chrom: &[u8], start: u64, end: u64, strand: &[u8]) -> (r: Result<
        Vec<Interval>,
        LiftError,
    >)
        requires
            self.wf(),
        ensures
            !strand_ok(strand@) ==> r == Err::<Vec<Interval>, LiftError>(
                LiftError::StrandValue(StrandValueError),
            ),
            strand_ok(strand@) && start >= end ==> r == Err::<Vec<Interval>, LiftError>(
                LiftError::InvalidInterval(InvalidIntervalError::EmptyOrInverted),
            ),
            strand_ok(strand@) && start < end ==> ({
                let q = GInterval {
                    contig: chrom@,
                    start: start as int,
                    end: end as int,
                    strand: strand_of(strand@),
                };
                let l = lift_spec(blocks_for(self@, chrom@), q);
                &&& l.len() == 0 ==> r == Err::<Vec<Interval>, LiftError>(LiftError::NoLiftover)
                &&& l.len() > 0 ==> (r matches Ok(v) && interval_views(v@) == l)
            }),
    {
        let st = match parse_strand(strand) {
            Ok(s) => s,
            Err(e) => { return Err(LiftError::StrandValue(e)) },
        };
        let start_c = Coordinate::new(copy_slice(chrom), start, st);
        let end_c = Coordinate::new(copy_slice(chrom), end, st);
        let iv = match Interval::new(start_c, end_c) {
            Ok(iv) => iv,
            Err(e) => { return Err(LiftError::InvalidInterval(e)) },
        };
        proof {
            assert(iv@ =~= GInterval {
                contig: chrom@,
                start: start as int,
                end: end as int,
                strand: strand_of(strand@),
            });
        }
        match self.lift(&iv) {
            Some(v) => Ok(v),
            None => Err(LiftError::NoLiftover),
        }
    }
}

} // verus!
