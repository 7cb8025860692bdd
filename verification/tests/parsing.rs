use agct::machine::{Builder, ChainfileError};
use agct::parse::{parse_chains, parse_u64, ParseErrorKind};

fn parse_err(text: &str) -> (usize, ParseErrorKind) {
    match parse_chains(text.as_bytes()) {
        Err(e) => (e.line, e.kind),
        Ok(_) => panic!("expected a parse error"),
    }
}

#[test]
fn well_formed_chain_parses() {
    let chains = parse_chains(b"chain 1000 chr1 1000 + 0 1000 chr1 1000 + 0 1000 1\n500 10 10\n490\n")
        .unwrap();
    assert_eq!(chains.len(), 1);
    let c = &chains[0];
    assert_eq!(c.id, 1);
    assert_eq!(c.score, 1000);
    assert_eq!(c.ref_contig, b"chr1".to_vec());
    assert_eq!(c.blocks.len(), 2);
    assert_eq!(c.blocks[0].ref_start, 0);
    assert_eq!(c.blocks[0].size, 500);
    assert_eq!(c.blocks[0].q_start, 0);
    assert_eq!(c.blocks[1].ref_start, 510);
    assert_eq!(c.blocks[1].size, 490);
    assert_eq!(c.blocks[1].q_start, 510);
}

#[test]
fn block_lengths_match_on_both_sides() {
    let chains = parse_chains(b"chain 1000 chr1 1000 + 0 1000 chr2 2000 + 5 1005 1\n500 10 10\n490\n")
        .unwrap();
    for c in &chains {
        for b in &c.blocks {
            // one size field drives both sides: the reference sub-range
            // [ref_start, ref_start+size) and the query sub-range
            // [q_start, q_start+size) are equally long by construction
            assert_eq!(
                (b.ref_start + b.size) - b.ref_start,
                (b.q_start + b.size) - b.q_start
            );
        }
    }
}

#[test]
fn leading_blank_lines_and_comments_are_skipped() {
    let chains = parse_chains(b"\n\n# produced upstream\nchain 1 c 100 + 0 50 d 100 + 0 50 1\n50\n\n")
        .unwrap();
    assert_eq!(chains.len(), 1);
}

#[test]
fn malformed_header_wrong_field_count_names_the_line() {
    // twelve fields instead of thirteen
    let (line, kind) = parse_err("chain 1000 chr1 1000 + 0 1000 chr1 1000 + 0 1000\n500\n");
    assert_eq!(line, 1);
    assert_eq!(kind, ParseErrorKind::BadFieldCount);
    // the builder reports the same failure, producing no machine
    let e = Builder
        .try_build_from(b"chain 1000 chr1 1000 + 0 1000 chr1 1000 + 0 1000\n500\n")
        .unwrap_err();
    match e {
        ChainfileError::Parse(pe) => {
            assert_eq!(pe.line, 1);
            assert_eq!(pe.kind, ParseErrorKind::BadFieldCount);
        },
        other => panic!("expected a parse failure, got {:?}", other),
    }
}

#[test]
fn body_line_before_any_header_is_rejected() {
    let (line, kind) = parse_err("500 10 10\n");
    assert_eq!((line, kind), (1, ParseErrorKind::MissingHeader));
}

#[test]
fn non_numeric_header_field_is_rejected() {
    let (line, kind) = parse_err("chain abc chr1 1000 + 0 1000 chr1 1000 + 0 1000 1\n490\n");
    assert_eq!((line, kind), (1, ParseErrorKind::BadNumber));
}

#[test]
fn oversized_number_is_rejected() {
    // one past the largest 64-bit value
    let (line, kind) =
        parse_err("chain 18446744073709551616 chr1 1000 + 0 1000 chr1 1000 + 0 1000 1\n1000\n");
    assert_eq!((line, kind), (1, ParseErrorKind::BadNumber));
}

#[test]
fn negative_size_is_rejected_as_bad_number() {
    let (line, kind) = parse_err("chain 1 chr1 100 + 0 50 chr1 100 + 0 50 1\n-5 0 0\n50\n");
    assert_eq!((line, kind), (2, ParseErrorKind::BadNumber));
}

#[test]
fn bad_strand_field_is_rejected() {
    let (line, kind) = parse_err("chain 1 chr1 1000 * 0 1000 chr1 1000 + 0 1000 1\n1000\n");
    assert_eq!((line, kind), (1, ParseErrorKind::BadStrand));
}

#[test]
fn inverted_header_range_is_rejected() {
    let (line, kind) = parse_err("chain 1 chr1 1000 + 500 400 chr1 1000 + 0 1000 1\n100\n");
    assert_eq!((line, kind), (1, ParseErrorKind::BadHeaderRange));
}

#[test]
fn header_end_beyond_contig_size_is_rejected() {
    let (line, kind) = parse_err("chain 1 chr1 1000 + 0 1000 chr1 500 + 0 1000 1\n1000\n");
    assert_eq!((line, kind), (1, ParseErrorKind::BadHeaderRange));
}

#[test]
fn block_past_declared_end_is_rejected() {
    let (line, kind) = parse_err("chain 1 chr1 100 + 0 50 chr1 100 + 0 50 1\n60\n");
    assert_eq!((line, kind), (2, ParseErrorKind::CursorOverflow));
}

#[test]
fn comment_inside_chain_is_rejected() {
    let (line, kind) = parse_err("chain 1 chr1 100 + 0 50 chr1 100 + 0 50 1\n# note\n50\n");
    assert_eq!((line, kind), (2, ParseErrorKind::CommentInChain));
}

#[test]
fn blank_line_inside_chain_is_rejected() {
    let (line, kind) = parse_err("chain 1 chr1 100 + 0 50 chr1 100 + 0 50 1\n\n50\n");
    assert_eq!((line, kind), (2, ParseErrorKind::BlankInChain));
}

#[test]
fn truncated_chain_is_rejected() {
    let (line, kind) = parse_err("chain 1 chr1 100 + 0 50 chr1 100 + 0 50 1");
    assert_eq!((line, kind), (1, ParseErrorKind::UnterminatedChain));
}

#[test]
fn body_line_with_two_fields_is_rejected() {
    let (line, kind) = parse_err("chain 1 chr1 100 + 0 50 chr1 100 + 0 50 1\n30 10\n10\n");
    assert_eq!((line, kind), (2, ParseErrorKind::BadFieldCount));
}

#[test]
fn two_chains_parse_in_order() {
    let chains = parse_chains(
        b"chain 9 c1 100 + 0 50 d1 100 + 0 50 1\n50\n\nchain 8 c2 100 + 0 40 d2 100 + 0 40 2\n40\n",
    )
    .unwrap();
    assert_eq!(chains.len(), 2);
    assert_eq!(chains[0].id, 1);
    assert_eq!(chains[1].id, 2);
    assert_eq!(chains[1].ref_contig, b"c2".to_vec());
}

#[test]
fn parse_u64_reads_plain_decimals_exactly() {
    assert_eq!(parse_u64(b"0"), Ok(0));
    assert_eq!(parse_u64(b"1000"), Ok(1000));
    assert_eq!(parse_u64(b"18446744073709551615"), Ok(u64::MAX));
    assert!(parse_u64(b"").is_err());
    assert!(parse_u64(b"12a").is_err());
    assert!(parse_u64(b"-1").is_err());
    assert!(parse_u64(b"18446744073709551616").is_err());
}
