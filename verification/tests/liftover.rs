use agct::interval::Interval;
use agct::machine::{Builder, ChainfileError, LiftError, Machine};
use agct::strand::Strand;

fn build(text: &str) -> Machine {
    Builder.try_build_from(text.as_bytes()).unwrap()
}

fn piece_of(iv: &Interval) -> (String, u64, u64, Strand) {
    (
        String::from_utf8(iv.start.contig.clone()).unwrap(),
        iv.start.position,
        iv.end.position,
        iv.start.strand,
    )
}

const SCENARIO: &str = "chain 1000 chr1 1000 + 0 1000 chr1 1000 + 0 1000 1\n500 10 10\n490\n";

#[test]
fn scenario_first_block_maps_identically() {
    let m = build(SCENARIO);
    let out = m.lift_coords(b"chr1", 0, 500, b"+").unwrap();
    assert_eq!(out.len(), 1);
    assert_eq!(piece_of(&out[0]), ("chr1".to_string(), 0, 500, Strand::Positive));
}

#[test]
fn scenario_gap_region_yields_no_mapping() {
    let m = build(SCENARIO);
    let out = m.lift_coords(b"chr1", 495, 520, b"+").unwrap();
    // the gap [500, 510) yields nothing; the covered flanks are returned
    assert_eq!(piece_of(&out[0]), ("chr1".to_string(), 495, 500, Strand::Positive));
    for iv in &out {
        let (_, s, e, _) = piece_of(iv);
        assert!(e <= 500 || s >= 510);
    }
    assert_eq!(out.len(), 2);
    assert_eq!(piece_of(&out[1]), ("chr1".to_string(), 510, 520, Strand::Positive));
}

#[test]
fn scenario_query_inside_gap_is_unmapped() {
    let m = build(SCENARIO);
    assert_eq!(m.lift_coords(b"chr1", 500, 510, b"+"), Err(LiftError::NoLiftover));
}

#[test]
fn scenario_second_block_applies_offset() {
    let m = build(SCENARIO);
    let out = m.lift_coords(b"chr1", 510, 1000, b"+").unwrap();
    assert_eq!(out.len(), 1);
    assert_eq!(piece_of(&out[0]), ("chr1".to_string(), 510, 1000, Strand::Positive));
}

#[test]
fn point_round_trip_with_offset() {
    // one block [100, 200) on chrA mapped to [300, 400) on chrB
    let m = build("chain 5 chrA 1000 + 100 200 chrB 1000 + 300 400 7\n100\n");
    let out = m.lift_coords(b"chrA", 150, 151, b"+").unwrap();
    assert_eq!(out.len(), 1);
    assert_eq!(piece_of(&out[0]), ("chrB".to_string(), 350, 351, Strand::Positive));
}

#[test]
fn negative_strand_block_reflects_and_flips() {
    let m = build("chain 5 chrA 1000 + 100 200 chrB 1000 - 300 400 7\n100\n");
    let out = m.lift_coords(b"chrA", 150, 151, b"+").unwrap();
    assert_eq!(out.len(), 1);
    // file-frame [350, 351) reflected through the contig size 1000
    assert_eq!(piece_of(&out[0]), ("chrB".to_string(), 649, 650, Strand::Negative));
}

#[test]
fn negative_query_on_negative_block_flips_back() {
    let m = build("chain 5 chrA 1000 + 100 200 chrB 1000 - 300 400 7\n100\n");
    let out = m.lift_coords(b"chrA", 150, 151, b"-").unwrap();
    assert_eq!(out.len(), 1);
    assert_eq!(piece_of(&out[0]), ("chrB".to_string(), 649, 650, Strand::Positive));
}

#[test]
fn negative_query_on_positive_block_keeps_its_strand() {
    let m = build("chain 5 chrA 1000 + 100 200 chrB 1000 + 300 400 7\n100\n");
    let out = m.lift_coords(b"chrA", 150, 151, b"-").unwrap();
    assert_eq!(out.len(), 1);
    assert_eq!(piece_of(&out[0]), ("chrB".to_string(), 350, 351, Strand::Negative));
}

#[test]
fn unknown_contig_is_unmapped_not_an_error() {
    let m = build(SCENARIO);
    assert_eq!(m.lift_coords(b"chr2", 0, 10, b"+"), Err(LiftError::NoLiftover));
}

#[test]
fn query_outside_all_blocks_is_unmapped() {
    let m = build("chain 5 chrA 1000 + 100 200 chrB 1000 + 300 400 7\n100\n");
    assert_eq!(m.lift_coords(b"chrA", 0, 50, b"+"), Err(LiftError::NoLiftover));
    assert_eq!(m.lift_coords(b"chrA", 200, 900, b"+"), Err(LiftError::NoLiftover));
}

#[test]
fn two_contiguous_blocks_give_adjacent_pieces() {
    // blocks [0,100) -> [0,100) and [100,200) -> [100,200), no gaps
    let m = build("chain 5 c 1000 + 0 200 d 1000 + 0 200 1\n100 0 0\n100\n");
    let out = m.lift_coords(b"c", 50, 150, b"+").unwrap();
    assert_eq!(out.len(), 2);
    assert_eq!(piece_of(&out[0]), ("d".to_string(), 50, 100, Strand::Positive));
    assert_eq!(piece_of(&out[1]), ("d".to_string(), 100, 150, Strand::Positive));
}

#[test]
fn query_side_gap_leaves_a_hole() {
    // second block shifted by dq = 10 on the query side
    let m = build("chain 5 c 1000 + 0 200 d 1000 + 0 210 1\n100 0 10\n100\n");
    let out = m.lift_coords(b"c", 50, 150, b"+").unwrap();
    assert_eq!(out.len(), 2);
    assert_eq!(piece_of(&out[0]), ("d".to_string(), 50, 100, Strand::Positive));
    assert_eq!(piece_of(&out[1]), ("d".to_string(), 110, 160, Strand::Positive));
}

#[test]
fn building_twice_answers_identically() {
    let m1 = build(SCENARIO);
    let m2 = build(SCENARIO);
    let queries: [(u64, u64); 5] = [(0, 500), (495, 520), (510, 1000), (500, 510), (999, 1000)];
    for (s, e) in queries {
        assert_eq!(m1.lift_coords(b"chr1", s, e, b"+"), m2.lift_coords(b"chr1", s, e, b"+"));
    }
}

#[test]
fn bad_strand_token_fails_and_machine_survives() {
    let m = build(SCENARIO);
    let r = m.lift_coords(b"chr1", 0, 500, b"x");
    assert!(matches!(r, Err(LiftError::StrandValue(_))));
    // the machine stays valid: the corrected call succeeds
    let out = m.lift_coords(b"chr1", 0, 500, b"+").unwrap();
    assert_eq!(out.len(), 1);
}

#[test]
fn empty_or_inverted_query_is_rejected() {
    let m = build(SCENARIO);
    assert!(matches!(
        m.lift_coords(b"chr1", 500, 500, b"+"),
        Err(LiftError::InvalidInterval(_))
    ));
    assert!(matches!(
        m.lift_coords(b"chr1", 600, 500, b"+"),
        Err(LiftError::InvalidInterval(_))
    ));
}

#[test]
fn zero_size_record_produces_no_block() {
    let m = build("chain 1 c 100 + 0 50 d 100 + 0 50 1\n0 10 10\n40\n");
    assert_eq!(m.lift_coords(b"c", 0, 5, b"+"), Err(LiftError::NoLiftover));
    let out = m.lift_coords(b"c", 10, 20, b"+").unwrap();
    assert_eq!(out.len(), 1);
    assert_eq!(piece_of(&out[0]), ("d".to_string(), 10, 20, Strand::Positive));
}

#[test]
fn overlapping_chain_with_higher_score_wins() {
    let text = "chain 100 c 1000 + 0 100 d 1000 + 0 100 1\n100\n\
                chain 200 c 1000 + 50 150 e 1000 + 0 100 2\n100\n";
    let m = build(text);
    // the lower-scoring block was replaced outright
    assert_eq!(m.lift_coords(b"c", 0, 10, b"+"), Err(LiftError::NoLiftover));
    let out = m.lift_coords(b"c", 60, 70, b"+").unwrap();
    assert_eq!(out.len(), 1);
    assert_eq!(piece_of(&out[0]), ("e".to_string(), 10, 20, Strand::Positive));
}

#[test]
fn overlapping_chain_on_tied_score_first_seen_wins() {
    let text = "chain 100 c 1000 + 0 100 d 1000 + 0 100 1\n100\n\
                chain 100 c 1000 + 50 150 e 1000 + 0 100 2\n100\n";
    let m = build(text);
    let out = m.lift_coords(b"c", 60, 70, b"+").unwrap();
    assert_eq!(out.len(), 1);
    assert_eq!(piece_of(&out[0]), ("d".to_string(), 60, 70, Strand::Positive));
    assert_eq!(m.lift_coords(b"c", 120, 130, b"+"), Err(LiftError::NoLiftover));
}

#[test]
fn no_chains_fails_construction() {
    assert_eq!(Builder.try_build_from(b"").unwrap_err(), ChainfileError::NoChains);
    assert_eq!(
        Builder.try_build_from(b"# just a comment\n\n").unwrap_err(),
        ChainfileError::NoChains
    );
}
