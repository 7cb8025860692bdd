//! Parser for the UCSC chain text format.
//!
//! The format, one chain per paragraph:
//!
//! ```text
//! chain <score> <refName> <refSize> <refStrand> <refStart> <refEnd> <qName> <qSize> <qStrand> <qStart> <qEnd> <id>
//! <size> <dt> <dq>
//! ...
//! <size>
//! ```
//!
//! Blank lines separate chains, and `#`-prefixed lines before a chain
//! header are skipped; inside a chain either is a parse error.

use vstd::prelude::*;
use crate::block::{AlignmentBlock, Chain, GBlock, GChain};
use crate::strand::{minus_token, plus_token, Strand};
use crate::util::{
    copy_bytes, CR_BYTE, HASH_BYTE, NEWLINE_BYTE, NINE_BYTE, SPACE_BYTE, TAB_BYTE, ZERO_BYTE,
};

verus! {

/// Bytes that separate tokens inside one line.
pub open spec fn is_space(b: u8) -> bool {
    b == SPACE_BYTE || b == TAB_BYTE || b == CR_BYTE
}

/// The views of a vector of byte vectors.
pub open spec fn views_of(v: Seq<Vec<u8>>) -> Seq<Seq<u8>> {
    v.map_values(|t: Vec<u8>| t@)
}

/// The lines of a byte stream, split on `\n`; the separator belongs to
/// no line, and a stream without a final `\n` still ends a line.
pub open spec fn split_lines(s: Seq<u8>) -> Seq<Seq<u8>>
    decreases s.len(),
{
    if s.len() == 0 {
        seq![Seq::<u8>::empty()]
    } else {
        let rest = split_lines(s.drop_last());
        if s.last() == NEWLINE_BYTE {
            rest.push(Seq::<u8>::empty())
        } else {
            rest.update(rest.len() - 1, rest.last().push(s.last()))
        }
    }
}

/// Splits a byte stream into its lines.
pub fn split_into_lines(input: &[u8]) -> (r: Vec<Vec<u8>>)
    ensures
        views_of(r@) == split_lines(input@),
        r@.len() >= 1,
{
    let mut lines: Vec<Vec<u8>> = Vec::new();
    lines.push(Vec::new());
    proof {
        assert(views_of(lines@) =~= split_lines(input@.take(0)));
    }
    let mut i: usize = 0;
    while i < input.len()
        invariant
            0 <= i <= input@.len(),
            lines@.len() >= 1,
            views_of(lines@) == split_lines(input@.take(i as int)),
        decreases input@.len() - i,
    {
        proof {
            assert(input@.take(i as int + 1).drop_last() =~= input@.take(i as int));
            assert(input@.take(i as int + 1).last() == input@[i as int]);
        }
        let b = input[i];
        if b == NEWLINE_BYTE {
            lines.push(Vec::new());
            proof {
                assert(views_of(lines@) =~= split_lines(input@.take(i as int + 1)));
            }
        } else {
            let mut last = lines.pop().unwrap();
            last.push(b);
            lines.push(last);
            proof {
                assert(views_of(lines@) =~= split_lines(input@.take(i as int + 1)));
            }
        }
        i = i + 1;
    }
    proof {
        assert(input@.take(input@.len() as int) =~= input@);
    }
    lines
}

/// One step of tokenizing: feeds one byte into `(finished tokens,
/// open token)`.
pub open spec fn tok_step(st: (Seq<Seq<u8>>, Seq<u8>), b: u8) -> (Seq<Seq<u8>>, Seq<u8>) {
    if is_space(b) {
        if st.1.len() == 0 {
            st
        } else {
            (st.0.push(st.1), Seq::<u8>::empty())
        }
    } else {
        (st.0, st.1.push(b))
    }
}

/// Folds `tok_step` over a whole line.
pub open spec fn tok_fold(line: Seq<u8>) -> (Seq<Seq<u8>>, Seq<u8>)
    decreases line.len(),
{
    if line.len() == 0 {
        (Seq::<Seq<u8>>::empty(), Seq::<u8>::empty())
    } else {
        tok_step(tok_fold(line.drop_last()), line.last())
    }
}

/// The whitespace-separated tokens of one line, in order; separators
/// never produce empty tokens.
pub open spec fn tokens_of(line: Seq<u8>) -> Seq<Seq<u8>> {
    let st = tok_fold(line);
    if st.1.len() == 0 {
        st.0
    } else {
        st.0.push(st.1)
    }
}

/// Splits a line into its whitespace-separated tokens.
pub fn tokenize(line: &[u8]) -> (r: Vec<Vec<u8>>)
    ensures
        views_of(r@) == tokens_of(line@),
{
    let mut toks: Vec<Vec<u8>> = Vec::new();
    let mut cur: Vec<u8> = Vec::new();
    proof {
        assert(views_of(toks@) =~= tok_fold(line@.take(0)).0);
        assert(cur@ =~= tok_fold(line@.take(0)).1);
    }
    let mut i: usize = 0;
    while i < line.len()
        invariant
            0 <= i <= line@.len(),
            views_of(toks@) == tok_fold(line@.take(i as int)).0,
            cur@ == tok_fold(line@.take(i as int)).1,
        decreases line@.len() - i,
    {
        proof {
            assert(line@.take(i as int + 1).drop_last() =~= line@.take(i as int));
            assert(line@.take(i as int + 1).last() == line@[i as int]);
        }
        let b = line[i];
        if b == SPACE_BYTE || b == TAB_BYTE || b == CR_BYTE {
            if cur.len() > 0 {
                toks.push(cur);
                cur = Vec::new();
                proof {
                    assert(views_of(toks@) =~= tok_fold(line@.take(i as int + 1)).0);
                }
            }
        } else {
            cur.push(b);
        }
        i = i + 1;
    }
    proof {
        assert(line@.take(line@.len() as int) =~= line@);
    }
    if cur.len() > 0 {
        toks.push(cur);
        proof {
            assert(views_of(toks@) =~= tokens_of(line@));
        }
    }
    toks
}

/// Bytes `0` through `9`.
pub open spec fn is_digit(b: u8) -> bool {
    ZERO_BYTE <= b <= NINE_BYTE
}

/// Every byte of the token is a digit.
pub open spec fn all_digits(t: Seq<u8>) -> bool {
    forall|i: int| 0 <= i < t.len() ==> is_digit(#[trigger] t[i])
}

/// Numeric value of a digit byte; non-digits count as zero.
pub open spec fn digit_val(b: u8) -> nat {
    if is_digit(b) {
        (b - ZERO_BYTE) as nat
    } else {
        0
    }
}

/// The base-ten value of a digit string.
pub open spec fn nat_of(t: Seq<u8>) -> nat
    decreases t.len(),
{
    if t.len() == 0 {
        0
    } else {
        nat_of(t.drop_last()) * 10 + digit_val(t.last())
    }
}

/// Extending a digit string never shrinks its value.
pub proof fn lemma_nat_of_prefix_le(t: Seq<u8>, j: int, k: int)
    requires
        0 <= j <= k <= t.len(),
    ensures
        nat_of(t.take(j)) <= nat_of(t.take(k)),
    decreases k - j,
{
    if j < k {
        lemma_nat_of_prefix_le(t, j, k - 1);
        assert(t.take(k).drop_last() =~= t.take(k - 1));
        assert(nat_of(t.take(k)) == nat_of(t.take(k - 1)) * 10 + digit_val(t.take(k).last()));
    }
}

/// Reads an unsigned decimal token.  Succeeds exactly on non-empty
/// all-digit tokens whose value fits a `u64`, and then returns that
/// value.
pub fn parse_u64(t: &[u8]) -> (r: Result<u64, ()>)
    ensures
        r is Ok <==> t@.len() > 0 && all_digits(t@) && nat_of(t@) <= u64::MAX,
        r matches Ok(n) ==> n == nat_of(t@),
{
    if t.len() == 0 {
        return Err(());
    }
    let mut acc: u64 = 0;
    let mut i: usize = 0;
    while i < t.len()
        invariant
            0 < t@.len(),
            0 <= i <= t@.len(),
            all_digits(t@.take(i as int)),
            acc == nat_of(t@.take(i as int)),
        decreases t@.len() - i,
    {
        proof {
            assert(t@.take(i as int + 1).drop_last() =~= t@.take(i as int));
            assert(t@.take(i as int + 1).last() == t@[i as int]);
        }
        let b = t[i];
        if b < ZERO_BYTE || b > NINE_BYTE {
            assert(!all_digits(t@));
            return Err(());
        }
        let d = (b - ZERO_BYTE) as u64;
        if acc > (u64::MAX - d) / 10 {
            proof {
                assert(acc * 10 + d > u64::MAX) by (nonlinear_arith)
                    requires
                        acc > (u64::MAX - d) / 10,
                        d <= 9,
                        acc <= u64::MAX,
                ;
                assert(nat_of(t@.take(i as int + 1)) > u64::MAX);
                lemma_nat_of_prefix_le(t@, i as int + 1, t@.len() as int);
                assert(t@.take(t@.len() as int) =~= t@);
            }
            return Err(());
        }
        proof {
            assert(acc * 10 + d <= u64::MAX) by (nonlinear_arith)
                requires
                    acc <= (u64::MAX - d) / 10,
                    d <= 9,
            ;
        }
        acc = acc * 10 + d;
        i = i + 1;
    }
    proof {
        assert(t@.take(t@.len() as int) =~= t@);
    }
    Ok(acc)
}

/// Why a line of chain text was rejected.
#[derive(Clone, Copy, Debug, PartialEq, Eq, Structural)]
pub enum ParseErrorKind {
    /// A non-blank, non-comment line appeared outside a chain and is no
    /// chain header.
    MissingHeader,
    /// A header without exactly thirteen fields, or a body line with a
    /// token count other than three or one.
    BadFieldCount,
    /// A numeric field that is not a plain decimal number fitting a
    /// 64-bit word.
    BadNumber,
    /// A strand field that is neither `+` nor `-`.
    BadStrand,
    /// Header positions out of order, or an end beyond its contig size.
    BadHeaderRange,
    /// A body line drives a cursor past the end its header promised.
    CursorOverflow,
    /// A `#` line inside a chain.
    CommentInChain,
    /// A blank line inside a chain.
    BlankInChain,
    /// The input ended before the single-field closing line of a chain.
    UnterminatedChain,
}

/// Mathematical value of a [`ParseError`].
#[verifier::ext_equal]
pub struct GParseError {
    pub line: int,
    pub kind: ParseErrorKind,
}

/// A parse failure, locating the offending line (1-based).
#[derive(Clone, Copy, Debug, PartialEq, Eq, Structural)]
pub struct ParseError {
    pub line: usize,
    pub kind: ParseErrorKind,
}

impl View for ParseError {
    type V = GParseError;

    open spec fn view(&self) -> GParseError {
        GParseError { line: self.line as int, kind: self.kind }
    }
}

/// A chain whose closing line has not been seen yet: the header data
/// plus the two replay cursors and the header's promised ends.
#[derive(Clone, Debug)]
pub struct PartialChain {
    pub chain: Chain,
    pub ref_cursor: u64,
    pub q_cursor: u64,
    pub ref_end: u64,
    pub q_end: u64,
}

/// Mathematical value of a [`PartialChain`].
#[verifier::ext_equal]
pub struct GPartialChain {
    pub chain: GChain,
    pub ref_cursor: int,
    pub q_cursor: int,
    pub ref_end: int,
    pub q_end: int,
}

impl View for PartialChain {
    type V = GPartialChain;

    open spec fn view(&self) -> GPartialChain {
        GPartialChain {
            chain: self.chain@,
            ref_cursor: self.ref_cursor as int,
            q_cursor: self.q_cursor as int,
            ref_end: self.ref_end as int,
            q_end: self.q_end as int,
        }
    }
}

/// Parser state between lines: the chain being replayed, if any, and
/// the chains finished so far.
#[verifier::ext_equal]
pub struct GParseState {
    pub cur: Option<GPartialChain>,
    pub acc: Seq<GChain>,
}

/// The views of a vector of chains.
pub open spec fn chain_views(v: Seq<Chain>) -> Seq<GChain> {
    v.map_values(|c: Chain| c@)
}

/// Pairs the two exec state pieces into their mathematical value.
pub open spec fn gstate(cur: Option<PartialChain>, acc: Seq<Chain>) -> GParseState {
    GParseState {
        cur: match cur {
            Some(p) => Some(p@),
            None => None,
        },
        acc: chain_views(acc),
    }
}

/// An open chain is internally consistent: its finished blocks are
/// usable and lie below the cursors, and the cursors stay within the
/// ends the header promised.
pub open spec fn partial_inv(p: GPartialChain) -> bool {
    &&& p.chain.wf()
    &&& 0 <= p.ref_cursor <= p.ref_end <= u64::MAX
    &&& 0 <= p.q_cursor <= p.q_end <= p.chain.q_size <= u64::MAX
    &&& forall|i: int|
        0 <= i < p.chain.blocks.len() ==> (#[trigger] p.chain.blocks[i]).ref_end() <= p.ref_cursor
    &&& forall|i: int|
        0 <= i < p.chain.blocks.len() ==> (#[trigger] p.chain.blocks[i]).q_end() <= p.q_cursor
}

/// Every piece of the parser state is internally consistent.
pub open spec fn state_inv(st: GParseState) -> bool {
    &&& match st.cur {
        Some(p) => partial_inv(p),
        None => true,
    }
    &&& forall|i: int| 0 <= i < st.acc.len() ==> (#[trigger] st.acc[i]).wf()
}

/// The keyword that opens a chain header: the bytes of `chain`.
pub open spec fn chain_kw() -> Seq<u8> {
    seq![99u8, 104u8, 97u8, 105u8, 110u8]
}

/// A token that parses as a `u64`.
pub open spec fn num_ok(t: Seq<u8>) -> bool {
    t.len() > 0 && all_digits(t) && nat_of(t) <= u64::MAX
}

/// A token that names a strand.
pub open spec fn strand_ok(t: Seq<u8>) -> bool {
    t == plus_token() || t == minus_token()
}

/// The strand a valid strand token names.
pub open spec fn strand_of(t: Seq<u8>) -> Strand {
    if t == plus_token() {
        Strand::Positive
    } else {
        Strand::Negative
    }
}

/// Reads a header line from its tokens.  Checks, in this order: the
/// field count is thirteen, the eight numeric fields parse, the two
/// strand fields parse, and the declared ranges are ordered and lie
/// within their contig sizes.
pub open spec fn header_chain(toks: Seq<Seq<u8>>) -> Result<GPartialChain, ParseErrorKind> {
    if toks.len() != 13 {
        Err(ParseErrorKind::BadFieldCount)
    } else if !(num_ok(toks[1]) && num_ok(toks[3]) && num_ok(toks[5]) && num_ok(toks[6]) && num_ok(
        toks[8],
    ) && num_ok(toks[10]) && num_ok(toks[11]) && num_ok(toks[12])) {
        Err(ParseErrorKind::BadNumber)
    } else if !(strand_ok(toks[4]) && strand_ok(toks[9])) {
        Err(ParseErrorKind::BadStrand)
    } else if !(nat_of(toks[5]) <= nat_of(toks[6]) && nat_of(toks[6]) <= nat_of(toks[3]) && nat_of(
        toks[10],
    ) <= nat_of(toks[11]) && nat_of(toks[11]) <= nat_of(toks[8])) {
        Err(ParseErrorKind::BadHeaderRange)
    } else {
        Ok(
            GPartialChain {
                chain: GChain {
                    id: nat_of(toks[12]) as int,
                    score: nat_of(toks[1]) as int,
                    ref_contig: toks[2],
                    ref_size: nat_of(toks[3]) as int,
                    ref_strand: strand_of(toks[4]),
                    q_contig: toks[7],
                    q_size: nat_of(toks[8]) as int,
                    q_strand: strand_of(toks[9]),
                    blocks: Seq::<GBlock>::empty(),
                },
                ref_cursor: nat_of(toks[5]) as int,
                q_cursor: nat_of(toks[10]) as int,
                ref_end: nat_of(toks[6]) as int,
                q_end: nat_of(toks[11]) as int,
            },
        )
    }
}

/// Replays one body record `(size, dt, dq)` against an open chain: the
/// covered block is appended (when non-empty) and both cursors advance
/// by the covered size plus the gap.  The closing record is the same
/// step with both gaps zero.
pub open spec fn body_step(p: GPartialChain, size: nat, dt: nat, dq: nat) -> Result<
    GPartialChain,
    ParseErrorKind,
> {
    if p.ref_cursor + size + dt <= p.ref_end && p.q_cursor + size + dq <= p.q_end {
        let b = GBlock {
            ref_contig: p.chain.ref_contig,
            ref_start: p.ref_cursor,
            size: size as int,
            q_contig: p.chain.q_contig,
            q_start: p.q_cursor,
            q_size: p.chain.q_size,
            q_strand: p.chain.q_strand,
            score: p.chain.score,
        };
        let blocks2 = if size > 0 {
            p.chain.blocks.push(b)
        } else {
            p.chain.blocks
        };
        Ok(
            GPartialChain {
                chain: GChain {
                    id: p.chain.id,
                    score: p.chain.score,
                    ref_contig: p.chain.ref_contig,
                    ref_size: p.chain.ref_size,
                    ref_strand: p.chain.ref_strand,
                    q_contig: p.chain.q_contig,
                    q_size: p.chain.q_size,
                    q_strand: p.chain.q_strand,
                    blocks: blocks2,
                },
                ref_cursor: p.ref_cursor + size + dt,
                q_cursor: p.q_cursor + size + dq,
                ref_end: p.ref_end,
                q_end: p.q_end,
            },
        )
    } else {
        Err(ParseErrorKind::CursorOverflow)
    }
}

/// Consumes one line in the current state.  Outside a chain, blank and
/// `#` lines are skipped and a `chain` line opens a chain; inside one,
/// a three-field line replays a block and a one-field line replays the
/// last block and closes the chain.
pub open spec fn step_line(st: GParseState, line: Seq<u8>) -> Result<GParseState, ParseErrorKind> {
    let toks = tokens_of(line);
    match st.cur {
        None => {
            if toks.len() == 0 {
                Ok(st)
            } else if toks[0].len() > 0 && toks[0][0] == HASH_BYTE {
                Ok(st)
            } else if toks[0] == chain_kw() {
                match header_chain(toks) {
                    Ok(p) => Ok(GParseState { cur: Some(p), acc: st.acc }),
                    Err(k) => Err(k),
                }
            } else {
                Err(ParseErrorKind::MissingHeader)
            }
        },
        Some(p) => {
            if toks.len() == 0 {
                Err(ParseErrorKind::BlankInChain)
            } else if toks[0].len() > 0 && toks[0][0] == HASH_BYTE {
                Err(ParseErrorKind::CommentInChain)
            } else if toks.len() == 3 {
                if !(num_ok(toks[0]) && num_ok(toks[1]) && num_ok(toks[2])) {
                    Err(ParseErrorKind::BadNumber)
                } else {
                    match body_step(p, nat_of(toks[0]), nat_of(toks[1]), nat_of(toks[2])) {
                        Ok(p2) => Ok(GParseState { cur: Some(p2), acc: st.acc }),
                        Err(k) => Err(k),
                    }
                }
            } else if toks.len() == 1 {
                if !num_ok(toks[0]) {
                    Err(ParseErrorKind::BadNumber)
                } else {
                    match body_step(p, nat_of(toks[0]), 0, 0) {
                        Ok(p2) => Ok(GParseState { cur: None, acc: st.acc.push(p2.chain) }),
                        Err(k) => Err(k),
                    }
                }
            } else {
                Err(ParseErrorKind::BadFieldCount)
            }
        },
    }
}

/// Runs [`step_line`] over the lines from position `i` on.  An error on
/// line `i` (0-based) is reported with the 1-based number `i + 1`; an
/// input that ends inside a chain is reported against its last line.
pub open spec fn parse_from(lines: Seq<Seq<u8>>, i: int, st: GParseState) -> Result<
    Seq<GChain>,
    GParseError,
> decreases lines.len() - i,
{
    if i < 0 || i >= lines.len() {
        match st.cur {
            None => Ok(st.acc),
            Some(_) => Err(
                GParseError { line: lines.len() as int, kind: ParseErrorKind::UnterminatedChain },
            ),
        }
    } else {
        match step_line(st, lines[i]) {
            Ok(st2) => parse_from(lines, i + 1, st2),
            Err(k) => Err(GParseError { line: i + 1, kind: k }),
        }
    }
}

/// What parsing a whole byte stream yields: the chains of the stream,
/// in order, or the first error.
pub open spec fn parse_chains_spec(input: Seq<u8>) -> Result<Seq<GChain>, GParseError> {
    parse_from(split_lines(input), 0, GParseState { cur: None, acc: Seq::<GChain>::empty() })
}

/// Decides whether a token is the `chain` keyword.
fn is_chain_kw(t: &[u8]) -> (r: bool)
    ensures
        r == (t@ == chain_kw()),
{
    if t.len() == 5 && t[0] == 99 && t[1] == 104 && t[2] == 97 && t[3] == 105 && t[4] == 110 {
        proof {
            assert(t@ =~= chain_kw());
        }
        true
    } else {
        proof {
            assert(t@ != chain_kw());
        }
        false
    }
}

/// Reads a header line from its tokens, as [`header_chain`] describes.
fn parse_header(toks: &Vec<Vec<u8>>) -> (r: Result<PartialChain, ParseErrorKind>)
    ensures
        match header_chain(views_of(toks@)) {
            Ok(gp) => r matches Ok(p) && p@ == gp && partial_inv(gp),
            Err(k) => r matches Err(k2) && k2 == k,
        },
{
    let ghost gtoks = views_of(toks@);
    if toks.len() != 13 {
        return Err(ParseErrorKind::BadFieldCount);
    }
    let score = parse_u64(toks[1].as_slice());
    let ref_size = parse_u64(toks[3].as_slice());
    let ref_start = parse_u64(toks[5].as_slice());
    let ref_end = parse_u64(toks[6].as_slice());
    let q_size = parse_u64(toks[8].as_slice());
    let q_start = parse_u64(toks[10].as_slice());
    let q_end = parse_u64(toks[11].as_slice());
    let id = parse_u64(toks[12].as_slice());
    match (score, ref_size, ref_start, ref_end, q_size, q_start, q_end, id) {
        (
            Ok(score),
            Ok(ref_size),
            Ok(ref_start),
            Ok(ref_end),
            Ok(q_size),
            Ok(q_start),
            Ok(q_end),
            Ok(id),
        ) => {
            let ref_strand = crate::strand::parse_strand(toks[4].as_slice());
            let q_strand = crate::strand::parse_strand(toks[9].as_slice());
            match (ref_strand, q_strand) {
                (Ok(ref_strand), Ok(q_strand)) => {
                    if !(ref_start <= ref_end && ref_end <= ref_size && q_start <= q_end && q_end
                        <= q_size) {
                        return Err(ParseErrorKind::BadHeaderRange);
                    }
                    let p = PartialChain {
                        chain: Chain {
                            id,
                            score,
                            ref_contig: copy_bytes(&toks[2]),
                            ref_size,
                            ref_strand,
                            q_contig: copy_bytes(&toks[7]),
                            q_size,
                            q_strand,
                            blocks: Vec::new(),
                        },
                        ref_cursor: ref_start,
                        q_cursor: q_start,
                        ref_end,
                        q_end,
                    };
                    proof {
                        assert(p.chain.blocks@.map_values(|b: AlignmentBlock| b@) =~= Seq::<
                            GBlock,
                        >::empty());
                        assert(p@ =~~= header_chain(gtoks)->Ok_0);
                    }
                    Ok(p)
                },
                _ => Err(ParseErrorKind::BadStrand),
            }
        },
        _ => Err(ParseErrorKind::BadNumber),
    }
}

/// Replays one body record, as [`body_step`] describes.
fn apply_body(p: PartialChain, size: u64, dt: u64, dq: u64) -> (r: Result<
    PartialChain,
    ParseErrorKind,
>)
    requires
        partial_inv(p@),
    ensures
        match body_step(p@, size as nat, dt as nat, dq as nat) {
            Ok(gp) => r matches Ok(p2) && p2@ == gp && partial_inv(gp),
            Err(k) => r matches Err(k2) && k2 == k,
        },
{
    let ref_room = p.ref_end - p.ref_cursor;
    if size > ref_room || dt > ref_room - size {
        return Err(ParseErrorKind::CursorOverflow);
    }
    let q_room = p.q_end - p.q_cursor;
    if size > q_room || dq > q_room - size {
        return Err(ParseErrorKind::CursorOverflow);
    }
    let ghost gp_in = p@;
    let ghost gb = GBlock {
        ref_contig: gp_in.chain.ref_contig,
        ref_start: gp_in.ref_cursor,
        size: size as int,
        q_contig: gp_in.chain.q_contig,
        q_start: gp_in.q_cursor,
        q_size: gp_in.chain.q_size,
        q_strand: gp_in.chain.q_strand,
        score: gp_in.chain.score,
    };
    let mut chain = p.chain;
    if size > 0 {
        let b = AlignmentBlock {
            ref_contig: copy_bytes(&chain.ref_contig),
            ref_start: p.ref_cursor,
            size,
            q_contig: copy_bytes(&chain.q_contig),
            q_start: p.q_cursor,
            q_size: chain.q_size,
            q_strand: chain.q_strand,
            score: chain.score,
        };
        proof {
            assert(b@ =~= gb);
        }
        chain.blocks.push(b);
        proof {
            assert(chain@.blocks =~= gp_in.chain.blocks.push(gb));
        }
    }
    let p2 = PartialChain {
        chain,
        ref_cursor: p.ref_cursor + size + dt,
        q_cursor: p.q_cursor + size + dq,
        ref_end: p.ref_end,
        q_end: p.q_end,
    };
    proof {
        let gp2 = body_step(gp_in, size as nat, dt as nat, dq as nat)->Ok_0;
        assert(p2@ =~~= gp2);
        assert forall|i: int| 0 <= i < gp2.chain.blocks.len() implies {
            &&& (#[trigger] gp2.chain.blocks[i]).wf()
            &&& gp2.chain.blocks[i].ref_contig == gp2.chain.ref_contig
            &&& gp2.chain.blocks[i].q_contig == gp2.chain.q_contig
            &&& gp2.chain.blocks[i].q_size == gp2.chain.q_size
            &&& gp2.chain.blocks[i].q_strand == gp2.chain.q_strand
            &&& gp2.chain.blocks[i].score == gp2.chain.score
            &&& gp2.chain.blocks[i].ref_end() <= gp2.ref_cursor
            &&& gp2.chain.blocks[i].q_end() <= gp2.q_cursor
        } by {
            if i < gp_in.chain.blocks.len() {
                assert(gp_in.chain.blocks[i].wf());
            }
        }
        assert forall|i: int, j: int| 0 <= i < j < gp2.chain.blocks.len() implies (
        #[trigger] gp2.chain.blocks[i]).ref_end() <= (#[trigger] gp2.chain.blocks[j]).ref_start
        by {
            if j < gp_in.chain.blocks.len() {
                assert(gp_in.chain.wf());
            } else {
                assert(gp_in.chain.blocks[i].ref_end() <= gp_in.ref_cursor);
            }
        }
        assert(partial_inv(gp2));
    }
    Ok(p2)
}

/// Consumes one line, as [`step_line`] describes.
fn step_line_exec(cur: Option<PartialChain>, acc: Vec<Chain>, line: &Vec<u8>) -> (r: Result<
    (Option<PartialChain>, Vec<Chain>),
    ParseErrorKind,
>)
    requires
        state_inv(gstate(cur, acc@)),
    ensures
        match step_line(gstate(cur, acc@), line@) {
            Ok(st2) => r matches Ok(p) && gstate(p.0, p.1@) == st2 && state_inv(st2),
            Err(k) => r matches Err(k2) && k2 == k,
        },
{
    let ghost pre = gstate(cur, acc@);
    let toks = tokenize(line.as_slice());
    let ghost gtoks = tokens_of(line@);
    match cur {
        None => {
            if toks.len() == 0 {
                return Ok((None, acc));
            }
            if toks[0].len() > 0 && toks[0][0] == HASH_BYTE {
                return Ok((None, acc));
            }
            if is_chain_kw(toks[0].as_slice()) {
                match parse_header(&toks) {
                    Ok(p) => {
                        proof {
                            assert(gstate(Some(p), acc@) =~~= step_line(pre, line@)->Ok_0);
                        }
                        Ok((Some(p), acc))
                    },
                    Err(k) => Err(k),
                }
            } else {
                Err(ParseErrorKind::MissingHeader)
            }
        },
        Some(p) => {
            if toks.len() == 0 {
                return Err(ParseErrorKind::BlankInChain);
            }
            if toks[0].len() > 0 && toks[0][0] == HASH_BYTE {
                return Err(ParseErrorKind::CommentInChain);
            }
            if toks.len() == 3 {
                let n0 = parse_u64(toks[0].as_slice());
                let n1 = parse_u64(toks[1].as_slice());
                let n2 = parse_u64(toks[2].as_slice());
                match (n0, n1, n2) {
                    (Ok(size), Ok(dt), Ok(dq)) => {
                        match apply_body(p, size, dt, dq) {
                            Ok(p2) => {
                                proof {
                                    assert(gstate(Some(p2), acc@) =~~= step_line(
                                        pre,
                                        line@,
                                    )->Ok_0);
                                }
                                Ok((Some(p2), acc))
                            },
                            Err(k) => Err(k),
                        }
                    },
                    _ => Err(ParseErrorKind::BadNumber),
                }
            } else if toks.len() == 1 {
                match parse_u64(toks[0].as_slice()) {
                    Ok(size) => {
                        match apply_body(p, size, 0, 0) {
                            Ok(p2) => {
                                let mut acc2 = acc;
                                acc2.push(p2.chain);
                                proof {
                                    assert(chain_views(acc2@) =~= chain_views(acc@).push(
                                        step_line(pre, line@)->Ok_0.acc.last(),
                                    ));
                                    assert(gstate(None, acc2@) =~~= step_line(pre, line@)->Ok_0);
                                }
                                Ok((None, acc2))
                            },
                            Err(k) => Err(k),
                        }
                    },
                    _ => Err(ParseErrorKind::BadNumber),
                }
            } else {
                Err(ParseErrorKind::BadFieldCount)
            }
        },
    }
}

/// Parses a whole chain file, returning its chains in file order or
/// the first error, exactly as [`parse_chains_spec`] describes; every
/// returned chain is well-formed.
pub fn parse_chains(input: &[u8]) -> (r: Result<Vec<Chain>, ParseError>)
    ensures
        r matches Ok(v) ==> parse_chains_spec(input@) matches Ok(g) && chain_views(v@) == g,
        r matches Ok(v) ==> forall|i: int| 0 <= i < v@.len() ==> (#[trigger] v@[i])@.wf(),
        r matches Err(e) ==> parse_chains_spec(input@) matches Err(ge) && e@ == ge,
{
    let lines = split_into_lines(input);
    let ghost glines = split_lines(input@);
    let mut cur: Option<PartialChain> = None;
    let mut acc: Vec<Chain> = Vec::new();
    proof {
        assert(chain_views(acc@) =~= Seq::<GChain>::empty());
        assert(gstate(cur, acc@) =~~= GParseState { cur: None, acc: Seq::<GChain>::empty() });
    }
    let mut i: usize = 0;
    while i < lines.len()
        invariant
            0 <= i <= lines@.len(),
            views_of(lines@) == glines,
            glines.len() == lines@.len(),
            state_inv(gstate(cur, acc@)),
            parse_from(glines, i as int, gstate(cur, acc@)) == parse_chains_spec(input@),
        decreases lines@.len() - i,
    {
        match step_line_exec(cur, acc, &lines[i]) {
            Ok(p) => {
                cur = p.0;
                acc = p.1;
            },
            Err(k) => {
                return Err(ParseError { line: i + 1, kind: k });
            },
        }
        i = i + 1;
    }
    match cur {
        Some(_) => Err(ParseError { line: lines.len(), kind: ParseErrorKind::UnterminatedChain }),
        None => {
            proof {
                assert forall|j: int| 0 <= j < acc@.len() implies (#[trigger] acc@[j])@.wf() by {
                    assert(chain_views(acc@)[j] == acc@[j]@);
                }
            }
            Ok(acc)
        },
    }
}

} // verus!
