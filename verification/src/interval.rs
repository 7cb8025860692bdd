//! Zero-based, half-open coordinates and intervals on named contigs.

use vstd::prelude::*;
use crate::strand::Strand;
use crate::util::bytes_eq;

verus! {

/// Mathematical value of an [`Interval`]: a half-open range `[start, end)`
/// on a named contig with an orientation.
#[verifier::ext_equal]
pub struct GInterval {
    pub contig: Seq<u8>,
    pub start: int,
    pub end: int,
    pub strand: Strand,
}

/// A zero-based position on a named contig with an orientation.
#[derive(Clone, Debug)]
pub struct Coordinate {
    pub contig: Vec<u8>,
    pub position: u64,
    pub strand: Strand,
}

impl Coordinate {
    /// Builds a coordinate; construction itself never fails, bounds
    /// against a contig length are the caller's concern.
    pub fn new(contig: Vec<u8>, position: u64, strand: Strand) -> (r: Coordinate)
        ensures
            r.contig@ == contig@,
            r.position == position,
            r.strand == strand,
    {
        Coordinate { contig, position, strand }
    }
}

/// Why an interval could not be formed from two coordinates.
#[derive(Clone, Copy, Debug, PartialEq, Eq, Structural)]
pub enum InvalidIntervalError {
    /// The two coordinates name different contigs.
    ContigMismatch,
    /// The two coordinates carry different strands.
    StrandMismatch,
    /// The start position is not strictly below the end position.
    EmptyOrInverted,
}

/// A non-empty half-open interval `[start, end)`; both endpoints share
/// one contig and one strand.
#[derive(Clone, Debug)]
pub struct Interval {
    pub start: Coordinate,
    pub end: Coordinate,
}

impl Interval {
    /// Both endpoints agree on contig and strand and the range is
    /// non-empty; every interval handed out by this crate satisfies it.
    pub open spec fn wf(self) -> bool {
        &&& self.start.contig@ == self.end.contig@
        &&& self.start.strand == self.end.strand
        &&& self.start.position < self.end.position
    }

    /// Forms an interval from two coordinates.  Fails with the first
    /// applicable error, checked in this order: mismatched contigs,
    /// mismatched strands, then an empty or inverted range.
    pub fn new(start: Coordinate, end: Coordinate) -> (r: Result<Interval, InvalidIntervalError>)
        ensures
            start.contig@ != end.contig@ ==> r == Err::<Interval, InvalidIntervalError>(
                InvalidIntervalError::ContigMismatch,
            ),
            start.contig@ == end.contig@ && start.strand != end.strand ==> r == Err::<
                Interval,
                InvalidIntervalError,
            >(InvalidIntervalError::StrandMismatch),
            start.contig@ == end.contig@ && start.strand == end.strand && start.position
                >= end.position ==> r == Err::<Interval, InvalidIntervalError>(
                InvalidIntervalError::EmptyOrInverted,
            ),
            start.contig@ == end.contig@ && start.strand == end.strand && start.position
                < end.position ==> (r matches Ok(iv) && iv.start == start && iv.end == end
                && iv.wf()),
    {
        if !bytes_eq(start.contig.as_slice(), end.contig.as_slice()) {
            Err(InvalidIntervalError::ContigMismatch)
        } else if start.strand != end.strand {
            Err(InvalidIntervalError::StrandMismatch)
        } else if start.position >= end.position {
            Err(InvalidIntervalError::EmptyOrInverted)
        } else {
            Ok(Interval { start, end })
        }
    }

    /// Mathematical value: the contig, the two positions and the strand,
    /// all taken from the start endpoint where both agree.
    pub open spec fn view_spec(self) -> GInterval {
        GInterval {
            contig: self.start.contig@,
            start: self.start.position as int,
            end: self.end.position as int,
            strand: self.start.strand,
        }
    }
}

impl View for Interval {
    type V = GInterval;

    open spec fn view(&self) -> GInterval {
        self.view_spec()
    }
}

impl PartialEq for Coordinate {
    fn eq(&self, other: &Coordinate) -> (r: bool) {
        bytes_eq(self.contig.as_slice(), other.contig.as_slice()) && self.position
            == other.position && self.strand == other.strand
    }
}

impl vstd::std_specs::cmp::PartialEqSpecImpl for Coordinate {
    open spec fn obeys_eq_spec() -> bool {
        true
    }

    open spec fn eq_spec(&self, other: &Coordinate) -> bool {
        self.contig@ == other.contig@ && self.position == other.position && self.strand
            == other.strand
    }
}

impl PartialEq for Interval {
    fn eq(&self, other: &Interval) -> (r: bool) {
        self.start == other.start && self.end == other.end
    }
}

impl vstd::std_specs::cmp::PartialEqSpecImpl for Interval {
    open spec fn obeys_eq_spec() -> bool {
        true
    }

    open spec fn eq_spec(&self, other: &Interval) -> bool {
        self.start.contig@ == other.start.contig@ && self.start.position == other.start.position
            && self.start.strand == other.start.strand && self.end.contig@ == other.end.contig@
            && self.end.position == other.end.position && self.end.strand == other.end.strand
    }
}

/// Orders two interval values by contig name, then start, then end:
/// the order promised for query results on one contig.
pub open spec fn ginterval_le(a: GInterval, b: GInterval) -> bool {
    if a.contig != b.contig {
        lex_le_bytes(a.contig, b.contig)
    } else if a.start != b.start {
        a.start < b.start
    } else {
        a.end <= b.end
    }
}

/// Lexicographic order on byte strings.
pub open spec fn lex_le_bytes(a: Seq<u8>, b: Seq<u8>) -> bool
    decreases a.len(),
{
    if a.len() == 0 {
        true
    } else if b.len() == 0 {
        false
    } else if a[0] != b[0] {
        a[0] < b[0]
    } else {
        lex_le_bytes(a.skip(1), b.skip(1))
    }
}

/// Decides [`lex_le_bytes`] from position `i` on.
fn lex_le_from(a: &[u8], b: &[u8], i: usize) -> (r: bool)
    requires
        i <= a@.len(),
        i <= b@.len(),
    ensures
        r == lex_le_bytes(a@.skip(i as int), b@.skip(i as int)),
    decreases a@.len() - i,
{
    if i == a.len() {
        true
    } else if i == b.len() {
        false
    } else if a[i] != b[i] {
        a[i] < b[i]
    } else {
        proof {
            assert(a@.skip(i as int).skip(1) =~= a@.skip(i as int + 1));
            assert(b@.skip(i as int).skip(1) =~= b@.skip(i as int + 1));
        }
        lex_le_from(a, b, i + 1)
    }
}

impl Interval {
    /// Decides the interval order used for result lists: by contig name,
    /// then start position, then end position.
    pub fn precedes_or_eq(&self, other: &Interval) -> (r: bool)
        ensures
            r == ginterval_le(self@, other@),
    {
        if !bytes_eq(self.start.contig.as_slice(), other.start.contig.as_slice()) {
            proof {
                assert(self.start.contig@.skip(0) =~= self.start.contig@);
                assert(other.start.contig@.skip(0) =~= other.start.contig@);
            }
            lex_le_from(self.start.contig.as_slice(), other.start.contig.as_slice(), 0)
        } else if self.start.position != other.start.position {
            self.start.position < other.start.position
        } else {
            self.end.position <= other.end.position
        }
    }
}

} // verus!
