use agct::interval::{Coordinate, Interval, InvalidIntervalError};
use agct::strand::Strand;

fn coord(contig: &str, position: u64, strand: Strand) -> Coordinate {
    Coordinate::new(contig.as_bytes().to_vec(), position, strand)
}

fn interval(contig: &str, start: u64, end: u64, strand: Strand) -> Interval {
    Interval::new(coord(contig, start, strand), coord(contig, end, strand)).unwrap()
}

#[test]
fn interval_new_accepts_well_formed_endpoints() {
    let iv = interval("chr1", 10, 20, Strand::Positive);
    assert_eq!(iv.start.position, 10);
    assert_eq!(iv.end.position, 20);
    assert_eq!(iv.start.strand, Strand::Positive);
}

#[test]
fn interval_new_rejects_mismatched_contigs() {
    let r = Interval::new(
        coord("chr1", 10, Strand::Positive),
        coord("chr2", 20, Strand::Positive),
    );
    assert_eq!(r.unwrap_err(), InvalidIntervalError::ContigMismatch);
}

#[test]
fn interval_new_rejects_mismatched_strands() {
    let r = Interval::new(
        coord("chr1", 10, Strand::Positive),
        coord("chr1", 20, Strand::Negative),
    );
    assert_eq!(r.unwrap_err(), InvalidIntervalError::StrandMismatch);
}

#[test]
fn interval_new_rejects_empty_and_inverted_ranges() {
    let empty = Interval::new(
        coord("chr1", 10, Strand::Positive),
        coord("chr1", 10, Strand::Positive),
    );
    assert_eq!(empty.unwrap_err(), InvalidIntervalError::EmptyOrInverted);
    let inverted = Interval::new(
        coord("chr1", 20, Strand::Positive),
        coord("chr1", 10, Strand::Positive),
    );
    assert_eq!(inverted.unwrap_err(), InvalidIntervalError::EmptyOrInverted);
}

#[test]
fn intervals_order_by_contig_then_start_then_end() {
    let a = interval("chr1", 10, 20, Strand::Positive);
    let b = interval("chr2", 5, 6, Strand::Positive);
    assert!(a.precedes_or_eq(&b));
    assert!(!b.precedes_or_eq(&a));

    let c = interval("chr1", 5, 30, Strand::Positive);
    assert!(c.precedes_or_eq(&a));
    assert!(!a.precedes_or_eq(&c));

    let d = interval("chr1", 10, 15, Strand::Positive);
    assert!(d.precedes_or_eq(&a));
    assert!(!a.precedes_or_eq(&d));

    assert!(a.precedes_or_eq(&a));
}

#[test]
fn interval_equality_compares_endpoints() {
    let a = interval("chr1", 10, 20, Strand::Positive);
    let b = interval("chr1", 10, 20, Strand::Positive);
    let c = interval("chr1", 10, 21, Strand::Positive);
    assert_eq!(a, b);
    assert_ne!(a, c);
}

#[test]
fn strand_flip_swaps_orientations() {
    assert_eq!(Strand::Positive.flip(), Strand::Negative);
    assert_eq!(Strand::Negative.flip(), Strand::Positive);
}
