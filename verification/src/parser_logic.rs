//! Comment stripping ahead of the external grammar parser.
//!
//! The preprocessor replaces comment text by ASCII spaces instead of
//! removing it, so every byte offset of the preprocessed text is also a
//! valid offset into the original source; diagnostics produced later still
//! point at the right place. Line feeds are kept even inside comments so
//! that line numbers survive as well.
//!
//! The machine works on UTF-8 bytes. Comment delimiters are ASCII and a
//! UTF-8 continuation byte never equals `/`, `*` or a line feed, so a
//! multi-byte character inside a comment simply becomes one space per
//! encoded byte.

use vstd::prelude::*;
use vstd::string::{StringExecFns, StringSliceAdditionalSpecFns};

use crate::report::{FileID, LabelView, Report, ReportCode, ReportView, Severity};

verus! {

pub const SLASH: u8 = 0x2f;

pub const STAR: u8 = 0x2a;

pub const LF: u8 = 0x0a;

pub const SP: u8 = 0x20;

/// Mode of the comment-stripping machine between two input bytes.
#[derive(PartialEq, Eq, Structural, Clone, Copy, Debug)]
pub enum PpState {
    /// Ordinary source text.
    Code,
    /// A `/` was read in code and is held back until the next byte decides
    /// whether a comment starts.
    CodeSlash,
    /// Inside a line comment.
    Line,
    /// Inside a block comment.
    Block,
    /// A `*` was read inside a block comment and is held back until the
    /// next byte decides whether the comment closes.
    BlockStar,
}

/// Full configuration of the machine: mode, output so far, and the offset
/// of the `/` that opened the current block comment.
#[verifier::ext_equal]
pub ghost struct PpConfig {
    pub state: PpState,
    pub out: Seq<u8>,
    pub block_start: int,
}

pub open spec fn pp_init() -> PpConfig {
    PpConfig { state: PpState::Code, out: Seq::empty(), block_start: 0 }
}

/// One step of the machine on byte `b` at offset `pos` of the input.
pub open spec fn pp_step(c: PpConfig, b: u8, pos: int) -> PpConfig {
    match c.state {
        PpState::Code => if b == SLASH {
            PpConfig { state: PpState::CodeSlash, ..c }
        } else {
            PpConfig { out: c.out.push(b), ..c }
        },
        PpState::CodeSlash => if b == SLASH {
            PpConfig { state: PpState::Line, out: c.out.push(SP).push(SP), ..c }
        } else if b == STAR {
            PpConfig {
                state: PpState::Block,
                out: c.out.push(SP).push(SP),
                block_start: pos - 1,
            }
        } else {
            PpConfig { state: PpState::Code, out: c.out.push(SLASH).push(b), ..c }
        },
        PpState::Line => if b == LF {
            PpConfig { state: PpState::Code, out: c.out.push(LF), ..c }
        } else {
            PpConfig { out: c.out.push(SP), ..c }
        },
        PpState::Block => if b == STAR {
            PpConfig { state: PpState::BlockStar, ..c }
        } else if b == LF {
            PpConfig { out: c.out.push(LF), ..c }
        } else {
            PpConfig { out: c.out.push(SP), ..c }
        },
        PpState::BlockStar => if b == SLASH {
            PpConfig { state: PpState::Code, out: c.out.push(SP).push(SP), ..c }
        } else if b == LF {
            PpConfig { state: PpState::Block, out: c.out.push(SP).push(LF), ..c }
        } else {
            PpConfig { state: PpState::Block, out: c.out.push(SP).push(SP), ..c }
        },
    }
}

/// The machine run over the whole input.
pub open spec fn pp_run(s: Seq<u8>) -> PpConfig
    decreases s.len(),
{
    if s.len() == 0 {
        pp_init()
    } else {
        pp_step(pp_run(s.drop_last()), s.last(), s.len() - 1)
    }
}

/// The input ends outside any block comment, so preprocessing succeeds.
pub open spec fn pp_accepts(s: Seq<u8>) -> bool {
    !(pp_run(s).state is Block || pp_run(s).state is BlockStar)
}

/// The preprocessed text of an accepted input: the emitted bytes, plus the
/// held-back `/` when the input ends right after one.
pub open spec fn pp_output(s: Seq<u8>) -> Seq<u8> {
    let c = pp_run(s);
    if c.state is CodeSlash {
        c.out.push(SLASH)
    } else {
        c.out
    }
}

/// Number of input bytes held back by the machine in this mode.
pub open spec fn pp_pending(state: PpState) -> int {
    match state {
        PpState::CodeSlash => 1,
        PpState::BlockStar => 1,
        _ => 0,
    }
}

pub proof fn lemma_pp_run_step(s: Seq<u8>, i: int)
    requires
        0 <= i < s.len(),
    ensures
        pp_run(s.take(i + 1)) == pp_step(pp_run(s.take(i)), s[i], i),
{
    let t = s.take(i + 1);
    assert(t.drop_last() =~= s.take(i));
    assert(t.last() == s[i]);
    assert(pp_run(t) == pp_step(pp_run(t.drop_last()), t.last(), i));
}

/// Byte-level shape of every run: the output tracks the input byte for
/// byte (up to the held-back byte), each output byte is the input byte or
/// a space, and line feeds are kept exactly.
pub proof fn lemma_pp_run_shape(s: Seq<u8>)
    ensures
        ({
            let c = pp_run(s);
            &&& c.out.len() == s.len() - pp_pending(c.state)
            &&& forall|j: int|
                0 <= j < c.out.len() ==> (c.out[j] == s[j] || c.out[j] == SP)
            &&& forall|j: int| 0 <= j < c.out.len() ==> ((c.out[j] == LF) <==> (s[j] == LF))
            &&& (c.state is CodeSlash ==> s.len() >= 1 && s.last() == SLASH)
            &&& (c.state is BlockStar ==> s.len() >= 1 && s.last() == STAR)
            &&& ((c.state is Block || c.state is BlockStar) ==> 0 <= c.block_start
                < s.len())
        }),
    decreases s.len(),
{
    if s.len() > 0 {
        lemma_pp_run_shape(s.drop_last());
        let p = pp_run(s.drop_last());
        let c = pp_run(s);
        assert(c == pp_step(p, s.last(), s.len() - 1));
        assert(forall|j: int| 0 <= j < s.len() - 1 ==> s.drop_last()[j] == s[j]);
    }
}

/// Byte length is preserved: the preprocessed text of an accepted input
/// has exactly as many bytes as the input.
pub proof fn lemma_preprocess_preserves_length(s: Seq<u8>)
    requires
        pp_accepts(s),
    ensures
        pp_output(s).len() == s.len(),
{
    lemma_pp_run_shape(s);
}

/// Every byte of the preprocessed text equals the corresponding input byte
/// or is an ASCII space.
pub proof fn lemma_preprocess_byte_or_space(s: Seq<u8>)
    requires
        pp_accepts(s),
    ensures
        forall|j: int| 0 <= j < s.len() ==> (pp_output(s)[j] == s[j] || pp_output(s)[j] == SP),
{
    lemma_pp_run_shape(s);
}

/// Line feeds are preserved at their original offsets, and no line feed is
/// invented.
pub proof fn lemma_preprocess_preserves_newlines(s: Seq<u8>)
    requires
        pp_accepts(s),
    ensures
        forall|j: int| 0 <= j < s.len() ==> ((pp_output(s)[j] == LF) <==> (s[j] == LF)),
{
    lemma_pp_run_shape(s);
}

/// A line-comment opener inside a block comment does not open anything:
/// after `//` the machine is still in the same block comment, and the two
/// bytes become spaces.
pub proof fn lemma_line_comment_opener_inert_in_block(s: Seq<u8>)
    requires
        pp_run(s).state is Block,
    ensures
        pp_run(s.push(SLASH).push(SLASH)).state is Block,
        pp_run(s.push(SLASH).push(SLASH)).out == pp_run(s).out.push(SP).push(SP),
        pp_run(s.push(SLASH).push(SLASH)).block_start == pp_run(s).block_start,
{
    let s1 = s.push(SLASH);
    let s2 = s1.push(SLASH);
    assert(s1.drop_last() =~= s);
    assert(pp_run(s1) == pp_step(pp_run(s), SLASH, s.len() as int));
    assert(s2.drop_last() =~= s1);
    assert(pp_run(s2) == pp_step(pp_run(s1), SLASH, s1.len() as int));
}

/// The report for an unclosed block comment whose opener starts at byte
/// `start` of file `file_id`.
pub open spec fn unclosed_comment_report(file_id: FileID, start: usize) -> ReportView {
    ReportView {
        severity: Severity::Error,
        code: ReportCode::UnclosedComment,
        message: "The source contains an unclosed block comment."@,
        primary: seq![
            (LabelView {
                file_id,
                start,
                end: start,
                message: "The block comment opened here is never closed."@,
            }),
        ],
        secondary: Seq::empty(),
    }
}

/// Strips comments from `source`, keeping byte offsets intact.
///
/// Comment bytes become ASCII spaces, except line feeds, which are kept.
/// Fails exactly when the input ends inside a block comment; the report
/// then points at the byte offset of the `/*` that opened it.
pub fn preprocess(source: &[u8], file_id: FileID) -> (result: Result<Vec<u8>, Report>)
    ensures
        match result {
            Ok(out) => pp_accepts(source@) && out@ == pp_output(source@),
            Err(report) => !pp_accepts(source@) && report@ == unclosed_comment_report(
                file_id,
                pp_run(source@).block_start as usize,
            ),
        },
{
    let n = source.len();
    let mut out: Vec<u8> = Vec::new();
    let mut state: PpState = PpState::Code;
    let mut block_start: usize = 0;
    let mut i: usize = 0;
    proof {
        assert(source@.take(0) =~= Seq::<u8>::empty());
    }
    while i < n
        invariant
            n == source@.len(),
            i <= n,
            pp_run(source@.take(i as int)) == (PpConfig {
                state: state,
                out: out@,
                block_start: block_start as int,
            }),
        decreases n - i,
    {
        let b = source[i];
        proof {
            lemma_pp_run_step(source@, i as int);
        }
        match state {
            PpState::Code => {
                if b == SLASH {
                    state = PpState::CodeSlash;
                } else {
                    out.push(b);
                }
            },
            PpState::CodeSlash => {
                if b == SLASH {
                    state = PpState::Line;
                    out.push(SP);
                    out.push(SP);
                } else if b == STAR {
                    state = PpState::Block;
                    out.push(SP);
                    out.push(SP);
                    block_start = i - 1;
                } else {
                    state = PpState::Code;
                    out.push(SLASH);
                    out.push(b);
                }
            },
            PpState::Line => {
                if b == LF {
                    state = PpState::Code;
                    out.push(LF);
                } else {
                    out.push(SP);
                }
            },
            PpState::Block => {
                if b == STAR {
                    state = PpState::BlockStar;
                } else if b == LF {
                    out.push(LF);
                } else {
                    out.push(SP);
                }
            },
            PpState::BlockStar => {
                if b == SLASH {
                    state = PpState::Code;
                    out.push(SP);
                    out.push(SP);
                } else if b == LF {
                    state = PpState::Block;
                    out.push(SP);
                    out.push(LF);
                } else {
                    state = PpState::Block;
                    out.push(SP);
                    out.push(SP);
                }
            },
        }
        i = i + 1;
    }
    proof {
        assert(source@.take(n as int) =~= source@);
    }
    match state {
        PpState::Block | PpState::BlockStar => {
            let mut report = Report::error(
                String::from_str("The source contains an unclosed block comment."),
                ReportCode::UnclosedComment,
            );
            report.add_primary(
                block_start,
                block_start,
                file_id,
                String::from_str("The block comment opened here is never closed."),
            );
            proof {
                assert(report@ =~= unclosed_comment_report(file_id, block_start));
            }
            Err(report)
        },
        PpState::CodeSlash => {
            out.push(SLASH);
            Ok(out)
        },
        _ => Ok(out),
    }
}

/// Runs the preprocessor over a source string and hands back the text the
/// external grammar parser consumes, or `None` when a block comment is
/// unclosed. The grammar itself is an external collaborator; this entry
/// point covers the core's share of parsing and produces no diagnostics.
pub fn parse_string(src: &str) -> (result: Option<Vec<u8>>)
    ensures
        match result {
            Some(out) => pp_accepts(src.spec_bytes()) && out@ == pp_output(src.spec_bytes()),
            None => !pp_accepts(src.spec_bytes()),
        },
{
    let bytes = src.as_bytes();
    match preprocess(bytes, 0) {
        Ok(out) => Some(out),
        Err(_) => None,
    }
}

} // verus!
