//! The crate-level guarantees, stated and proved once over the spec
//! functions that the executable contracts use.

use vstd::prelude::*;
use crate::block::GBlock;
use crate::interval::GInterval;
use crate::machine::{
    blocks_for, build_index_spec, intersects, lift_spec, piece, Machine,
};
use crate::parse::parse_chains_spec;
use crate::strand::{flip_spec, Strand};

verus! {

/// Law: lifting a single position `p` through a block that maps
/// `[a, a+n)` onto `[b, b+n)` returns exactly `b + (p - a)` on the
/// query side — reflected through the query contig size for a
/// negative-strand block — with the strand preserved or flipped
/// accordingly.
pub proof fn lemma_point_round_trip(b: GBlock, q: GInterval, p: int)
    requires
        b.wf(),
        q.start == p,
        q.end == p + 1,
        b.ref_start <= p < b.ref_end(),
    ensures
        lift_spec(seq![b], q) == seq![piece(b, q)],
        b.q_strand == Strand::Positive ==> piece(b, q) == (GInterval {
            contig: b.q_contig,
            start: b.q_start + (p - b.ref_start),
            end: b.q_start + (p - b.ref_start) + 1,
            strand: q.strand,
        }),
        b.q_strand == Strand::Negative ==> piece(b, q) == (GInterval {
            contig: b.q_contig,
            start: b.q_size - (b.q_start + (p - b.ref_start)) - 1,
            end: b.q_size - (b.q_start + (p - b.ref_start)),
            strand: flip_spec(q.strand),
        }),
{
    assert(seq![b].drop_last() =~= Seq::<GBlock>::empty());
    assert(seq![b].last() == b);
    assert(intersects(b, q));
    assert(lift_spec(Seq::<GBlock>::empty(), q).len() == 0);
    assert(lift_spec(seq![b], q) =~= seq![piece(b, q)]);
    if b.q_strand == Strand::Positive {
        assert(piece(b, q) =~= GInterval {
            contig: b.q_contig,
            start: b.q_start + (p - b.ref_start),
            end: b.q_start + (p - b.ref_start) + 1,
            strand: q.strand,
        });
    } else {
        assert(piece(b, q) =~= GInterval {
            contig: b.q_contig,
            start: b.q_size - (b.q_start + (p - b.ref_start)) - 1,
            end: b.q_size - (b.q_start + (p - b.ref_start)),
            strand: flip_spec(q.strand),
        });
    }
}

/// Law: every well-formed block maps a reference sub-range and a query
/// sub-range of equal length, in the file frame and in the reflected
/// forward frame alike.
pub proof fn lemma_block_equal_lengths(b: GBlock)
    requires
        b.wf(),
    ensures
        b.ref_end() - b.ref_start == b.q_end() - b.q_start,
        b.ref_end() - b.ref_start == (b.q_size - b.q_start) - (b.q_size - b.q_end()),
{
}

/// Law: each lifted piece is exactly as long as the part of the query
/// its block covers on the reference.
pub proof fn lemma_piece_length(b: GBlock, q: GInterval)
    requires
        b.wf(),
        q.start < q.end,
        intersects(b, q),
    ensures
        piece(b, q).end - piece(b, q).start == (if q.end < b.ref_end() {
            q.end
        } else {
            b.ref_end()
        }) - (if q.start > b.ref_start {
            q.start
        } else {
            b.ref_start
        }),
{
}

/// Law: a query interval wholly outside every block of its contig
/// lifts to nothing — an empty result, never an error of any kind.
pub proof fn lemma_outside_blocks_no_lift(bs: Seq<GBlock>, q: GInterval)
    requires
        forall|k: int|
            0 <= k < bs.len() ==> q.end <= (#[trigger] bs[k]).ref_start || bs[k].ref_end()
                <= q.start,
    ensures
        lift_spec(bs, q).len() == 0,
{
    assert forall|k: int| 0 <= k < bs.len() implies !intersects(#[trigger] bs[k], q) by {}
    crate::machine::lemma_lift_spec_none(bs, q);
}

/// Law: a query spanning two reference-contiguous positive-strand
/// blocks yields exactly two pieces that together cover the whole
/// query; when the blocks are also query-contiguous the pieces are
/// adjacent, and a query-side gap leaves exactly that hole between
/// them.
pub proof fn lemma_two_block_span(b1: GBlock, b2: GBlock, q: GInterval)
    requires
        b1.wf(),
        b2.wf(),
        b1.q_strand == Strand::Positive,
        b2.q_strand == Strand::Positive,
        b2.ref_start == b1.ref_end(),
        b1.ref_start <= q.start < b1.ref_end(),
        b2.ref_start < q.end <= b2.ref_end(),
    ensures
        lift_spec(seq![b1, b2], q) == seq![piece(b1, q), piece(b2, q)],
        (piece(b1, q).end - piece(b1, q).start) + (piece(b2, q).end - piece(b2, q).start) == q.end
            - q.start,
        b2.q_start == b1.q_end() ==> piece(b1, q).end == piece(b2, q).start,
        b2.q_start > b1.q_end() ==> piece(b2, q).start - piece(b1, q).end == b2.q_start
            - b1.q_end(),
{
    assert(seq![b1, b2].drop_last() =~= seq![b1]);
    assert(seq![b1, b2].last() == b2);
    assert(seq![b1].drop_last() =~= Seq::<GBlock>::empty());
    assert(seq![b1].last() == b1);
    assert(intersects(b1, q));
    assert(intersects(b2, q));
    assert(lift_spec(Seq::<GBlock>::empty(), q).len() == 0);
    assert(lift_spec(seq![b1], q) =~= seq![piece(b1, q)]);
    assert(lift_spec(seq![b1, b2], q) =~= seq![piece(b1, q), piece(b2, q)]);
}

/// Law: building from byte-identical inputs is deterministic — the
/// two machines hold the same contents and answer every query with
/// the same pieces.
pub proof fn lemma_build_deterministic(
    input1: Seq<u8>,
    input2: Seq<u8>,
    m1: Machine,
    m2: Machine,
    c: Seq<u8>,
    q: GInterval,
)
    requires
        input1 == input2,
        parse_chains_spec(input1) is Ok,
        m1@ == build_index_spec(parse_chains_spec(input1)->Ok_0),
        m2@ == build_index_spec(parse_chains_spec(input2)->Ok_0),
    ensures
        m1@ == m2@,
        lift_spec(blocks_for(m1@, c), q) == lift_spec(blocks_for(m2@, c), q),
{
}

} // verus!
