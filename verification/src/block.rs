//! Alignment blocks and chains: the parsed form of a chain file.

use vstd::prelude::*;
use crate::strand::Strand;

verus! {

/// Mathematical value of an [`AlignmentBlock`].
#[verifier::ext_equal]
pub struct GBlock {
    pub ref_contig: Seq<u8>,
    pub ref_start: int,
    pub size: int,
    pub q_contig: Seq<u8>,
    pub q_start: int,
    pub q_size: int,
    pub q_strand: Strand,
    pub score: int,
}

impl GBlock {
    /// One past the last covered reference position.
    pub open spec fn ref_end(self) -> int {
        self.ref_start + self.size
    }

    /// One past the last covered query position, in the frame the chain
    /// file wrote the coordinates in.
    pub open spec fn q_end(self) -> int {
        self.q_start + self.size
    }

    /// A usable block: non-empty, its reference range fits the machine
    /// word, and its query range lies inside the query contig so that
    /// reflection through the contig size stays non-negative.
    pub open spec fn wf(self) -> bool {
        &&& 0 < self.size
        &&& self.ref_end() <= u64::MAX
        &&& self.q_end() <= self.q_size <= u64::MAX
    }
}

/// The atomic unit of a chain: a contiguous reference sub-interval of
/// length `size` mapped onto a contiguous query sub-interval of the same
/// length.  Query coordinates are kept exactly as the chain file gives
/// them; for a negative query strand they are reflected through
/// `q_size` only when an output interval is emitted.
#[derive(Clone, Debug)]
pub struct AlignmentBlock {
    pub ref_contig: Vec<u8>,
    pub ref_start: u64,
    pub size: u64,
    pub q_contig: Vec<u8>,
    pub q_start: u64,
    pub q_size: u64,
    pub q_strand: Strand,
    pub score: u64,
}

impl AlignmentBlock {
    /// Mathematical value of the block.
    pub open spec fn view_spec(self) -> GBlock {
        GBlock {
            ref_contig: self.ref_contig@,
            ref_start: self.ref_start as int,
            size: self.size as int,
            q_contig: self.q_contig@,
            q_start: self.q_start as int,
            q_size: self.q_size as int,
            q_strand: self.q_strand,
            score: self.score as int,
        }
    }
}

impl View for AlignmentBlock {
    type V = GBlock;

    open spec fn view(&self) -> GBlock {
        self.view_spec()
    }
}

/// Mathematical value of a [`Chain`].
#[verifier::ext_equal]
pub struct GChain {
    pub id: int,
    pub score: int,
    pub ref_contig: Seq<u8>,
    pub ref_size: int,
    pub ref_strand: Strand,
    pub q_contig: Seq<u8>,
    pub q_size: int,
    pub q_strand: Strand,
    pub blocks: Seq<GBlock>,
}

impl GChain {
    /// Every block of the chain is usable, carries the chain's own
    /// metadata, and the blocks sit in strictly increasing reference
    /// order without overlap.
    pub open spec fn wf(self) -> bool {
        &&& forall|i: int|
            0 <= i < self.blocks.len() ==> {
                &&& (#[trigger] self.blocks[i]).wf()
                &&& self.blocks[i].ref_contig == self.ref_contig
                &&& self.blocks[i].q_contig == self.q_contig
                &&& self.blocks[i].q_size == self.q_size
                &&& self.blocks[i].q_strand == self.q_strand
                &&& self.blocks[i].score == self.score
            }
        &&& forall|i: int, j: int|
            0 <= i < j < self.blocks.len() ==> (#[trigger] self.blocks[i]).ref_end() <= (
            #[trigger] self.blocks[j]).ref_start
    }
}

/// One chain of a chain file: its header metadata and its ordered
/// alignment blocks.
#[derive(Clone, Debug)]
pub struct Chain {
    pub id: u64,
    pub score: u64,
    pub ref_contig: Vec<u8>,
    pub ref_size: u64,
    pub ref_strand: Strand,
    pub q_contig: Vec<u8>,
    pub q_size: u64,
    pub q_strand: Strand,
    pub blocks: Vec<AlignmentBlock>,
}

impl Chain {
    /// Mathematical value of the chain.
    pub open spec fn view_spec(self) -> GChain {
        GChain {
            id: self.id as int,
            score: self.score as int,
            ref_contig: self.ref_contig@,
            ref_size: self.ref_size as int,
            ref_strand: self.ref_strand,
            q_contig: self.q_contig@,
            q_size: self.q_size as int,
            q_strand: self.q_strand,
            blocks: self.blocks@.map_values(|b: AlignmentBlock| b@),
        }
    }
}

impl View for Chain {
    type V = GChain;

    open spec fn view(&self) -> GChain {
        self.view_spec()
    }
}

} // verus!
