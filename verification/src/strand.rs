//! The two orientations a genomic range can have.

use vstd::prelude::*;
use crate::util::{PLUS_BYTE, MINUS_BYTE};

verus! {

/// Orientation of a coordinate or interval: the forward (`+`) or the
/// reverse (`-`) strand of a contig.
#[derive(Clone, Copy, Debug, PartialEq, Eq, Structural)]
pub enum Strand {
    Positive,
    Negative,
}

/// The opposite orientation.
pub open spec fn flip_spec(s: Strand) -> Strand {
    match s {
        Strand::Positive => Strand::Negative,
        Strand::Negative => Strand::Positive,
    }
}

impl Strand {
    /// Returns the opposite orientation.
    pub fn flip(self) -> (r: Strand)
        ensures
            r == flip_spec(self),
    {
        match self {
            Strand::Positive => Strand::Negative,
            Strand::Negative => Strand::Positive,
        }
    }
}

/// The strand token at the query boundary was neither `+` nor `-`.
#[derive(Clone, Copy, Debug, PartialEq, Eq, Structural)]
pub struct StrandValueError;

/// The byte sequence consisting of the single byte `+`.
pub open spec fn plus_token() -> Seq<u8> {
    seq![PLUS_BYTE]
}

/// The byte sequence consisting of the single byte `-`.
pub open spec fn minus_token() -> Seq<u8> {
    seq![MINUS_BYTE]
}

/// Reads a strand token: `+` is the positive strand, `-` the negative
/// one, and anything else is a [`StrandValueError`].
pub fn parse_strand(token: &[u8]) -> (r: Result<Strand, StrandValueError>)
    ensures
        token@ == plus_token() ==> r == Ok::<Strand, StrandValueError>(Strand::Positive),
        token@ == minus_token() ==> r == Ok::<Strand, StrandValueError>(Strand::Negative),
        token@ != plus_token() && token@ != minus_token() ==> r == Err::<Strand,
            StrandValueError,
        >(StrandValueError),
{
    if token.len() == 1 && token[0] == PLUS_BYTE {
        proof {
            assert(token@ =~= plus_token());
        }
        Ok(Strand::Positive)
    } else if token.len() == 1 && token[0] == MINUS_BYTE {
        proof {
            assert(token@ =~= minus_token());
        }
        Ok(Strand::Negative)
    } else {
        proof {
            assert(token@ != plus_token() && token@ != minus_token());
        }
        Err(StrandValueError)
    }
}

} // verus!
