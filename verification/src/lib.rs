//! A liftover engine for UCSC chain files.
//!
//! The crate parses the plain-text chain format into ordered alignment
//! blocks, builds an immutable query machine indexed by reference contig,
//! and lifts half-open intervals from the reference assembly onto the
//! query assembly.  Every function is specified and verified; the laws
//! module states the crate-level guarantees as proved lemmas.
#![verifier::loop_isolation(false)]

pub mod strand;
pub mod util;
pub mod interval;
pub mod block;
pub mod parse;
pub mod machine;
pub mod laws;
