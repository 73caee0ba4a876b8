//! The error reporter: structured, position-precise diagnostics.
//!
//! A failed parse yields a [`Diagnostic`]: the byte offset of the
//! furthest failure, its 1-based line and column, the deduplicated set of
//! tokens expected there in first-recorded order, and a rendered message.
//! Every field is pinned by the specification functions of this module,
//! so repeated parses of the same failing input yield identical
//! diagnostics.

use vstd::prelude::*;
use crate::rules::TokenId;
use crate::engine::FailTrack;
use crate::grammar::LF;

verus! {

/// 1-based line number of byte offset `off`: one more than the number of
/// line feeds strictly before it.
pub open spec fn line_of(input: Seq<u8>, off: int) -> int
    decreases off,
{
    if off <= 0 {
        1
    } else {
        line_of(input, off - 1) + if input[off - 1] == LF { 1int } else { 0int }
    }
}

/// 1-based column of byte offset `off`: bytes since the last line feed.
pub open spec fn col_of(input: Seq<u8>, off: int) -> int
    decreases off,
{
    if off <= 0 {
        1
    } else if input[off - 1] == LF {
        1
    } else {
        col_of(input, off - 1) + 1
    }
}

/// Decimal digits of a nonnegative number, most significant first.
pub open spec fn dec_rep(n: int) -> Seq<u8>
    decreases n,
{
    if n <= 9 {
        seq![(48 + if 0 <= n { n } else { 0int }) as u8]
    } else {
        dec_rep(n / 10).push((48 + n % 10) as u8)
    }
}

/// ASCII name of an expected token, as rendered in messages.
pub open spec fn tok_name(t: TokenId) -> Seq<u8> {
    match t {
        // "term"
        TokenId::TermToken => seq![116, 101, 114, 109],
        // "opening quote"
        TokenId::OpenQuote => seq![111, 112, 101, 110, 105, 110, 103, 32, 113, 117, 111, 116, 101],
        // "closing quote"
        TokenId::CloseQuote => seq![99, 108, 111, 115, 105, 110, 103, 32, 113, 117, 111, 116, 101],
        // "opening bracket"
        TokenId::OpenBracket => seq![111, 112, 101, 110, 105, 110, 103, 32, 98, 114, 97, 99, 107, 101, 116],
        // "closing bracket"
        TokenId::CloseBracket => seq![99, 108, 111, 115, 105, 110, 103, 32, 98, 114, 97, 99, 107, 101, 116],
        // "opening slash"
        TokenId::OpenSlash => seq![111, 112, 101, 110, 105, 110, 103, 32, 115, 108, 97, 115, 104],
        // "closing slash"
        TokenId::CloseSlash => seq![99, 108, 111, 115, 105, 110, 103, 32, 115, 108, 97, 115, 104],
        // "range operator"
        TokenId::RangeOp => seq![114, 97, 110, 103, 101, 32, 111, 112, 101, 114, 97, 116, 111, 114],
        // "word"
        TokenId::Word => seq![119, 111, 114, 100],
        // "whitespace"
        TokenId::Whitespace => seq![119, 104, 105, 116, 101, 115, 112, 97, 99, 101],
        // "digits"
        TokenId::Digits => seq![100, 105, 103, 105, 116, 115],
        // "colon"
        TokenId::Colon => seq![99, 111, 108, 111, 110],
        // "at sign"
        TokenId::AtSign => seq![97, 116, 32, 115, 105, 103, 110],
        // "directive name"
        TokenId::DirectiveName => seq![100, 105, 114, 101, 99, 116, 105, 118, 101, 32, 110, 97, 109, 101],
        // "end of input"
        TokenId::EndOfInput => seq![101, 110, 100, 32, 111, 102, 32, 105, 110, 112, 117, 116],
    }
}

/// The expected tokens, joined by a comma and a space.
pub open spec fn render_toks(toks: Seq<TokenId>) -> Seq<u8>
    decreases toks.len(),
{
    if toks.len() == 0 {
        Seq::empty()
    } else if toks.len() == 1 {
        tok_name(toks[0])
    } else {
        // ", "
        tok_name(toks[0]) + seq![44, 32] + render_toks(toks.drop_first())
    }
}

/// The full rendered message:
/// `parse error at line L, column C: expected T1, T2, ...`.
pub open spec fn spec_render(line: int, col: int, toks: Seq<TokenId>) -> Seq<u8> {
    // "parse error at line "
    seq![112, 97, 114, 115, 101, 32, 101, 114, 114, 111, 114, 32, 97, 116, 32, 108, 105, 110, 101, 32] + dec_rep(line)
        // ", column "
        + seq![44, 32, 99, 111, 108, 117, 109, 110, 32] + dec_rep(col)
        // ": expected "
        + seq![58, 32, 101, 120, 112, 101, 99, 116, 101, 100, 32] + render_toks(toks)
}

/// A structured diagnostic for a failed parse.
#[derive(Debug)]
pub struct Diagnostic {
    /// Byte offset of the furthest failure position.
    pub offset: usize,
    /// 1-based line of the failure.
    pub line: usize,
    /// 1-based column of the failure.
    pub column: usize,
    /// Deduplicated tokens expected at the position, first-recorded first.
    pub expected: Vec<TokenId>,
    /// Deterministic ASCII rendering of position and expected set.
    pub message: Vec<u8>,
}

impl Diagnostic {
    /// Every field agrees with the input and the recorded expectations.
    pub open spec fn wf(self, input: Seq<u8>) -> bool {
        &&& self.offset <= input.len()
        &&& self.line as int == line_of(input, self.offset as int)
        &&& self.column as int == col_of(input, self.offset as int)
        &&& self.expected@.no_duplicates()
        &&& self.expected@.len() > 0
        &&& self.message@ == spec_render(self.line as int, self.column as int, self.expected@)
    }
}

/// Line and column of a byte offset.
#[verifier::loop_isolation(false)]
fn line_col(input: &[u8], off: usize) -> (r: (usize, usize))
    requires
        off <= input@.len(),
        input@.len() < usize::MAX,
    ensures
        r.0 as int == line_of(input@, off as int),
        r.1 as int == col_of(input@, off as int),
{
    let mut line: usize = 1;
    let mut col: usize = 1;
    let mut i: usize = 0;
    while i < off
        invariant
            i <= off,
            line as int == line_of(input@, i as int),
            col as int == col_of(input@, i as int),
            line <= i + 1,
            col <= i + 1,
        decreases off - i,
    {
        if input[i] == LF {
            line = line + 1;
            col = 1;
        } else {
            col = col + 1;
        }
        i = i + 1;
    }
    (line, col)
}

/// Appends the decimal digits of `n`.
fn push_dec(n: usize, out: &mut Vec<u8>)
    ensures
        final(out)@ == old(out)@ + dec_rep(n as int),
    decreases n,
{
    if n <= 9 {
        out.push(48 + (n as u8));
        proof {
            assert(out@ =~= old(out)@ + dec_rep(n as int));
        }
    } else {
        push_dec(n / 10, out);
        out.push(48 + ((n % 10) as u8));
        proof {
            assert(out@ =~= old(out)@ + dec_rep(n as int));
        }
    }
}

/// The rendered name of one token.
fn tok_name_vec(t: TokenId) -> (v: Vec<u8>)
    ensures
        v@ == tok_name(t),
{
    let v: Vec<u8> = match t {
        TokenId::TermToken => vec![116, 101, 114, 109],
        TokenId::OpenQuote => vec![111, 112, 101, 110, 105, 110, 103, 32, 113, 117, 111, 116, 101],
        TokenId::CloseQuote => vec![99, 108, 111, 115, 105, 110, 103, 32, 113, 117, 111, 116, 101],
        TokenId::OpenBracket => vec![111, 112, 101, 110, 105, 110, 103, 32, 98, 114, 97, 99, 107, 101, 116],
        TokenId::CloseBracket => vec![99, 108, 111, 115, 105, 110, 103, 32, 98, 114, 97, 99, 107, 101, 116],
        TokenId::OpenSlash => vec![111, 112, 101, 110, 105, 110, 103, 32, 115, 108, 97, 115, 104],
        TokenId::CloseSlash => vec![99, 108, 111, 115, 105, 110, 103, 32, 115, 108, 97, 115, 104],
        TokenId::RangeOp => vec![114, 97, 110, 103, 101, 32, 111, 112, 101, 114, 97, 116, 111, 114],
        TokenId::Word => vec![119, 111, 114, 100],
        TokenId::Whitespace => vec![119, 104, 105, 116, 101, 115, 112, 97, 99, 101],
        TokenId::Digits => vec![100, 105, 103, 105, 116, 115],
        TokenId::Colon => vec![99, 111, 108, 111, 110],
        TokenId::AtSign => vec![97, 116, 32, 115, 105, 103, 110],
        TokenId::DirectiveName => vec![100, 105, 114, 101, 99, 116, 105, 118, 101, 32, 110, 97, 109, 101],
        TokenId::EndOfInput => vec![101, 110, 100, 32, 111, 102, 32, 105, 110, 112, 117, 116],
    };
    proof {
        assert(v@ =~= tok_name(t));
    }
    v
}

/// Appends the rendering of `toks[i..]`.
fn push_toks(toks: &Vec<TokenId>, i: usize, out: &mut Vec<u8>)
    requires
        i <= toks@.len(),
    ensures
        final(out)@ == old(out)@ + render_toks(toks@.subrange(i as int, toks@.len() as int)),
    decreases toks@.len() - i,
{
    let ghost suf = toks@.subrange(i as int, toks@.len() as int);
    if i == toks.len() {
        proof {
            assert(suf.len() == 0);
            assert(out@ =~= old(out)@ + render_toks(suf));
        }
        return;
    }
    proof {
        assert(suf[0] == toks@[i as int]);
    }
    let mut name = tok_name_vec(toks[i]);
    out.append(&mut name);
    if i + 1 == toks.len() {
        proof {
            assert(suf.len() == 1);
            assert(out@ =~= old(out)@ + render_toks(suf));
        }
    } else {
        // ", "
        out.push(44);
        out.push(32);
        push_toks(toks, i + 1, out);
        proof {
            assert(suf.drop_first() =~= toks@.subrange(i + 1, toks@.len() as int));
            assert(out@ =~= old(out)@ + render_toks(suf));
        }
    }
}

/// Builds the diagnostic for a finished failing parse from the furthest-
/// failure record.
pub(crate) fn build_diagnostic(input: &[u8], st: &FailTrack) -> (d: Diagnostic)
    requires
        st.wf(input@.len() as int),
        st.expected@.len() > 0,
        input@.len() < usize::MAX,
    ensures
        d.wf(input@),
        d.offset == st.pos,
        d.expected@ == st.expected@,
{
    let (line, column) = line_col(input, st.pos);
    // "parse error at line "
    let mut message: Vec<u8> = vec![112, 97, 114, 115, 101, 32, 101, 114, 114, 111, 114, 32, 97, 116, 32, 108, 105, 110, 101, 32];
    proof {
        assert(message@ =~= seq![112, 97, 114, 115, 101, 32, 101, 114, 114, 111, 114, 32, 97, 116, 32, 108, 105, 110, 101, 32]);
    }
    push_dec(line, &mut message);
    // ", column "
    let mut sep1: Vec<u8> = vec![44, 32, 99, 111, 108, 117, 109, 110, 32];
    proof {
        assert(sep1@ =~= seq![44, 32, 99, 111, 108, 117, 109, 110, 32]);
    }
    message.append(&mut sep1);
    push_dec(column, &mut message);
    // ": expected "
    let mut sep2: Vec<u8> = vec![58, 32, 101, 120, 112, 101, 99, 116, 101, 100, 32];
    proof {
        assert(sep2@ =~= seq![58, 32, 101, 120, 112, 101, 99, 116, 101, 100, 32]);
    }
    message.append(&mut sep2);
    push_toks(&st.expected, 0, &mut message);
    proof {
        assert(st.expected@.subrange(0, st.expected@.len() as int) =~= st.expected@);
        assert(message@ =~= spec_render(line as int, column as int, st.expected@));
    }
    let expected = clone_toks(&st.expected);
    Diagnostic { offset: st.pos, line, column, expected, message }
}

/// A copy of the expected-token sequence.
fn clone_toks(v: &Vec<TokenId>) -> (r: Vec<TokenId>)
    ensures
        r@ == v@,
{
    let mut r: Vec<TokenId> = Vec::new();
    let mut i: usize = 0;
    while i < v.len()
        invariant
            i <= v@.len(),
            r@ == v@.subrange(0, i as int),
        decreases v@.len() - i,
    {
        r.push(v[i]);
        proof {
            assert(r@ =~= v@.subrange(0, i + 1));
        }
        i += 1;
    }
    proof {
        assert(v@.subrange(0, v@.len() as int) =~= v@);
    }
    r
}

} // verus!
