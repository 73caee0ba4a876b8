//! Laws of the parser, stated and proved over the grammar semantics.

use vstd::prelude::*;
use vstd::utf8::valid_utf8;
use crate::rules::RuleId;
use crate::grammar::{spec_parse, SpecOutcome, MRes, m_term, scan_term, is_term_byte, m_quoted, scan_quoted, m_directive, scan_alpha, is_alpha, QUOTE, BACKSLASH, AT};
use crate::tree::spec_leaf;
use crate::parser::{parse_ok, ParseResult, ParseFailure, lemma_root_spans};

verus! {

/// A successful parse covers its input exactly: whenever an input is
/// valid under a rule, the root node's text is the whole input.
pub proof fn lemma_success_covers_input(
    r: ParseResult,
    rule: RuleId,
    input: Seq<u8>,
    limit: int,
)
    requires
        parse_ok(r, rule, input, limit),
    ensures
        r matches ParseResult::Success(root) ==> root.deep().start == 0 && root.deep().end
            == input.len() && root.deep().text == input,
{
    lemma_root_spans(rule, input, limit);
}

/// Parsing is deterministic: two results of parsing the same well-encoded
/// input under the same rule and budget describe the same outcome — the
/// same tree on success, and on a grammar mismatch the same diagnostic,
/// byte for byte.  In particular no hidden or shared state can make
/// concurrent parses disagree: the outcome is a function of the
/// arguments alone.
#[verifier::rlimit(100)]
pub proof fn lemma_parse_deterministic(
    r1: ParseResult,
    r2: ParseResult,
    rule: RuleId,
    input: Seq<u8>,
    limit: int,
)
    requires
        valid_utf8(input),
        parse_ok(r1, rule, input, limit),
        parse_ok(r2, rule, input, limit),
    ensures
        r1 matches ParseResult::Success(a) ==> (r2 matches ParseResult::Success(b) ==> a.deep()
            == b.deep()),
        (r1 is Success) == (r2 is Success),
        r1 matches ParseResult::Failure(ParseFailure::GrammarMismatch(d1)) ==> (r2 matches
            ParseResult::Failure(ParseFailure::GrammarMismatch(d2)) ==> d1.offset == d2.offset
            && d1.line == d2.line && d1.column == d2.column && d1.expected@ == d2.expected@
            && d1.message@ == d2.message@),
{
    let m = spec_parse(rule, input, limit);
    lemma_result_shape(r1, rule, input, limit);
    lemma_result_shape(r2, rule, input, limit);
    match (r1, r2) {
        (ParseResult::Success(a), ParseResult::Success(b)) => {
            assert(m == SpecOutcome::Root(a.deep()));
            assert(m == SpecOutcome::Root(b.deep()));
            assert(a.deep() == b.deep());
        },
        (
            ParseResult::Failure(ParseFailure::GrammarMismatch(d1)),
            ParseResult::Failure(ParseFailure::GrammarMismatch(d2)),
        ) => {
            assert(d1.offset == d2.offset);
            assert(d1.line as int == d2.line as int);
            assert(d1.column as int == d2.column as int);
            assert(d1.expected@ == d2.expected@);
            assert(d1.message@ == d2.message@);
        },
        _ => {},
    }
}

/// The shape of any result meeting the parser's contract on well-encoded
/// input: it is `Success` exactly when the semantics name a root, the
/// depth failure exactly when they name depth exhaustion, and the
/// defensive engine error and the encoding error never.
#[verifier::rlimit(100)]
pub proof fn lemma_result_shape(r: ParseResult, rule: RuleId, input: Seq<u8>, limit: int)
    requires
        valid_utf8(input),
        parse_ok(r, rule, input, limit),
    ensures
        (r is Success) <==> (spec_parse(rule, input, limit) is Root),
        !(r matches ParseResult::Failure(ParseFailure::EncodingError)),
        !(r matches ParseResult::Failure(ParseFailure::InternalEngineError)),
{
    let m = spec_parse(rule, input, limit);
    match r {
        ParseResult::Success(root) => {
            assert(m == SpecOutcome::Root(root.deep()));
        },
        ParseResult::Failure(f) => {
            match f {
                ParseFailure::GrammarMismatch(d) => {
                    assert(m is Mismatch);
                },
                ParseFailure::RecursionLimitExceeded => {
                    assert(m is DepthExceeded);
                },
                ParseFailure::EncodingError => {
                    assert(!valid_utf8(input));
                },
                ParseFailure::InternalEngineError => {
                    assert(false);
                },
            }
        },
    }
}

/// The term scanner stops exactly at the first non-term byte.
proof fn lemma_scan_term_props(input: Seq<u8>, pos: int)
    requires
        0 <= pos <= input.len(),
    ensures
        pos <= scan_term(input, pos) <= input.len(),
        forall|j: int| pos <= j < scan_term(input, pos) ==> is_term_byte(#[trigger] input[j]),
    decreases input.len() - pos,
{
    if pos < input.len() && is_term_byte(input[pos]) {
        lemma_scan_term_props(input, pos + 1);
    }
}

/// On a sequence of term bytes the scanner reaches the end.
proof fn lemma_scan_term_full(t: Seq<u8>, i: int)
    requires
        0 <= i <= t.len(),
        forall|j: int| i <= j < t.len() ==> is_term_byte(#[trigger] t[j]),
    ensures
        scan_term(t, i) == t.len(),
    decreases t.len() - i,
{
    if i < t.len() {
        lemma_scan_term_full(t, i + 1);
    }
}

/// Structural idempotence for term nodes: re-parsing the text of a term
/// match under the `Term` rule reproduces an equivalent node, shifted to
/// the origin.
pub proof fn lemma_term_reparse(input: Seq<u8>, pos: int, limit: int)
    ensures
        m_term(input, pos) matches MRes::Hit { end, nodes } ==> spec_parse(
            RuleId::Term,
            input.subrange(pos, end),
            limit,
        ) == SpecOutcome::Root(
            spec_leaf(input.subrange(pos, end), RuleId::Term, 0, end - pos),
        ),
{
    match m_term(input, pos) {
        MRes::Hit { end, nodes } => {
            assert(pos < end);
            assert(pos < input.len());
            lemma_scan_term_props(input, pos);
            let t = input.subrange(pos, end);
            assert forall|j: int| 0 <= j < t.len() implies is_term_byte(#[trigger] t[j]) by {
                assert(t[j] == input[pos + j]);
            }
            lemma_scan_term_full(t, 0);
            assert(t.subrange(0, t.len() as int) =~= t);
        },
        _ => {},
    }
}

/// A successful quoted-literal scan ends past its start and inside the
/// input.
proof fn lemma_scan_quoted_min(input: Seq<u8>, j: int)
    ensures
        scan_quoted(input, j) == -1 || (j + 1 <= scan_quoted(input, j) <= input.len()),
    decreases input.len() - j,
{
    if 0 <= j < input.len() {
        if input[j] == QUOTE {
        } else if input[j] == BACKSLASH {
            if j + 1 < input.len() {
                lemma_scan_quoted_min(input, j + 2);
            }
        } else {
            lemma_scan_quoted_min(input, j + 1);
        }
    }
}

/// The quoted-literal scan is unchanged by cutting the input down to the
/// matched region: scanning the copy from the shifted position ends at
/// the copy's end.
proof fn lemma_scan_quoted_shift(input: Seq<u8>, pos: int, i: int, end: int)
    requires
        0 <= pos < i <= end <= input.len(),
        scan_quoted(input, i) == end,
    ensures
        scan_quoted(input.subrange(pos, end), i - pos) == end - pos,
    decreases input.len() - i,
{
    let t = input.subrange(pos, end);
    lemma_scan_quoted_min(input, i);
    assert(i < input.len());
    assert(t[i - pos] == input[i]);
    if input[i] == QUOTE {
    } else if input[i] == BACKSLASH {
        assert(i + 1 < input.len());
        lemma_scan_quoted_min(input, i + 2);
        lemma_scan_quoted_shift(input, pos, i + 2, end);
    } else {
        lemma_scan_quoted_min(input, i + 1);
        lemma_scan_quoted_shift(input, pos, i + 1, end);
    }
}

/// Structural idempotence for quoted literals: re-parsing the text of a
/// quoted-literal match under its own rule reproduces an equivalent
/// node, shifted to the origin.
pub proof fn lemma_quoted_reparse(input: Seq<u8>, pos: int, limit: int)
    ensures
        m_quoted(input, pos) matches MRes::Hit { end, nodes } ==> spec_parse(
            RuleId::QuotedLiteral,
            input.subrange(pos, end),
            limit,
        ) == SpecOutcome::Root(
            spec_leaf(input.subrange(pos, end), RuleId::QuotedLiteral, 0, end - pos),
        ),
{
    match m_quoted(input, pos) {
        MRes::Hit { end, nodes } => {
            lemma_scan_quoted_min(input, pos + 1);
            lemma_scan_quoted_shift(input, pos, pos + 1, end);
            let t = input.subrange(pos, end);
            assert(t[0] == input[pos]);
            assert(t.subrange(0, t.len() as int) =~= t);
        },
        _ => {},
    }
}

/// The letter scanner scans letters only, and on a sequence of letters
/// it reaches the end.
proof fn lemma_scan_alpha_props(input: Seq<u8>, pos: int)
    requires
        0 <= pos <= input.len(),
    ensures
        pos <= scan_alpha(input, pos) <= input.len(),
        forall|j: int| pos <= j < scan_alpha(input, pos) ==> is_alpha(#[trigger] input[j]),
    decreases input.len() - pos,
{
    if pos < input.len() && is_alpha(input[pos]) {
        lemma_scan_alpha_props(input, pos + 1);
    }
}

/// On a sequence of letters the scanner reaches the end.
proof fn lemma_scan_alpha_full(t: Seq<u8>, i: int)
    requires
        0 <= i <= t.len(),
        forall|j: int| i <= j < t.len() ==> is_alpha(#[trigger] t[j]),
    ensures
        scan_alpha(t, i) == t.len(),
    decreases t.len() - i,
{
    if i < t.len() {
        lemma_scan_alpha_full(t, i + 1);
    }
}

/// Structural idempotence for directives: re-parsing the text of a
/// directive match under its own rule reproduces an equivalent node,
/// shifted to the origin.
pub proof fn lemma_directive_reparse(input: Seq<u8>, pos: int, limit: int)
    ensures
        m_directive(input, pos) matches MRes::Hit { end, nodes } ==> spec_parse(
            RuleId::Directive,
            input.subrange(pos, end),
            limit,
        ) == SpecOutcome::Root(
            spec_leaf(input.subrange(pos, end), RuleId::Directive, 0, end - pos),
        ),
{
    match m_directive(input, pos) {
        MRes::Hit { end, nodes } => {
            lemma_scan_alpha_props(input, pos + 1);
            let t = input.subrange(pos, end);
            assert(t[0] == input[pos]);
            assert forall|j: int| 1 <= j < t.len() implies is_alpha(#[trigger] t[j]) by {
                assert(t[j] == input[pos + j]);
            }
            lemma_scan_alpha_full(t, 1);
            assert(t.subrange(0, t.len() as int) =~= t);
        },
        _ => {},
    }
}

} // verus!
