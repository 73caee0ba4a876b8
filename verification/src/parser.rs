//! The public parsing interface.
//!
//! [`parse`] is a total function: for every entry rule and every input it
//! returns a [`ParseResult`], never panics, and never touches shared
//! state.  On success the result is exactly the tree that the grammar
//! semantics prescribe; on failure it is a typed outcome carrying a
//! position-precise diagnostic where the grammar mismatched.

use vstd::prelude::*;
use vstd::utf8::valid_utf8;
use crate::rules::{RuleId, TokenId};
use crate::tree::ParseNode;
use crate::grammar::{
    spec_parse, SpecOutcome, MRes, m_term, m_quoted, m_field, m_range, m_citation, m_directive,
    m_proximity, m_orx, m_command, m_statement,
};
use crate::engine::{
    FailTrack, Step, p_statement, p_command, p_orx, p_quoted, p_proximity, p_field, p_range,
    p_citation, p_term, p_directive, deep_seq, nodes_wf, TrackState, r_step, t_statement,
    t_command, t_orx, t_quoted, t_proximity, t_field, t_range, t_citation, t_term, t_directive,
};
use crate::diag::{Diagnostic, build_diagnostic};
use crate::encoding::utf8_ok;

verus! {

/// The nesting-depth budget used by [`parse`]: how many proximity groups
/// may be open at once.
pub const DEFAULT_DEPTH_LIMIT: usize = 1000;

/// Why a parse failed.
#[derive(Debug)]
pub enum ParseFailure {
    /// The input does not conform to the selected entry rule; carries the
    /// furthest-failure diagnostic.
    GrammarMismatch(Diagnostic),
    /// Nesting depth exceeded the configured bound.
    RecursionLimitExceeded,
    /// The input is not valid UTF-8.
    EncodingError,
    /// Defensive variant for a broken engine invariant; proved never to
    /// be returned.
    InternalEngineError,
}

/// Exactly one of a root node or a failure.
#[derive(Debug)]
pub enum ParseResult {
    /// The entry rule matched the whole input and built this tree.
    Success(ParseNode),
    /// The parse failed, and this is why.
    Failure(ParseFailure),
}

/// The match of the selected entry rule against the input.
pub open spec fn m_entry(rule: RuleId, input: Seq<u8>, limit: int) -> MRes {
    match rule {
        RuleId::Statement => m_statement(input),
        RuleId::Command => m_command(input, limit),
        RuleId::BooleanExpr => m_orx(input, 0, limit),
        RuleId::QuotedLiteral => m_quoted(input, 0),
        RuleId::ProximityGroup => m_proximity(input, 0, limit),
        RuleId::FieldRestrictedTerm => m_field(input, 0),
        RuleId::RangeExpr => m_range(input, 0),
        RuleId::CitationRef => m_citation(input, 0),
        RuleId::Term => m_term(input, 0),
        RuleId::Directive => m_directive(input, 0),
    }
}

/// What running the selected entry rule does to a fresh failure record,
/// before the anchoring check.
pub open spec fn t_entry(rule: RuleId, input: Seq<u8>, limit: int, st: TrackState) -> TrackState {
    match rule {
        RuleId::Statement => t_statement(input, st),
        RuleId::Command => t_command(input, limit, st),
        RuleId::BooleanExpr => t_orx(input, 0, limit, st),
        RuleId::QuotedLiteral => t_quoted(input, 0, st),
        RuleId::ProximityGroup => t_proximity(input, 0, limit, st),
        RuleId::FieldRestrictedTerm => t_field(input, 0, st),
        RuleId::RangeExpr => t_range(input, 0, st),
        RuleId::CitationRef => t_citation(input, 0, st),
        RuleId::Term => t_term(input, 0, st),
        RuleId::Directive => t_directive(input, 0, st),
    }
}

/// The furthest-failure record of a failing parse: the greatest position
/// any attempted alternative reached, with the tokens attempted there in
/// first-attempt order — the engine's record, plus the end-of-input
/// expectation when the rule matched a proper prefix only.
pub open spec fn spec_failure(rule: RuleId, input: Seq<u8>, limit: int) -> TrackState {
    let s1 = t_entry(
        rule,
        input,
        limit,
        TrackState { pos: 0, expected: Seq::empty() },
    );
    match m_entry(rule, input, limit) {
        MRes::Hit { end, nodes } => if end == input.len() {
            s1
        } else {
            r_step(s1, end, TokenId::EndOfInput)
        },
        _ => s1,
    }
}

/// What [`parse_with_limit`] promises for well-encoded input: the result
/// mirrors the grammar semantics case for case, a successful root is a
/// well-formed tree covering the whole input, and the defensive engine
/// error is never returned.
pub open spec fn parse_ok(r: ParseResult, rule: RuleId, input: Seq<u8>, limit: int) -> bool {
    match r {
        ParseResult::Success(root) => {
            &&& spec_parse(rule, input, limit) == SpecOutcome::Root(root.deep())
            &&& root.deep().wf(input)
            &&& root.start == 0
            &&& root.end == input.len()
            &&& root.text@ == input
        },
        ParseResult::Failure(f) => match f {
            ParseFailure::GrammarMismatch(d) => {
                &&& spec_parse(rule, input, limit) is Mismatch
                &&& d.wf(input)
                &&& d.offset as int == spec_failure(rule, input, limit).pos
                &&& d.expected@ == spec_failure(rule, input, limit).expected
            },
            ParseFailure::RecursionLimitExceeded => spec_parse(rule, input, limit)
                is DepthExceeded,
            ParseFailure::EncodingError => !valid_utf8(input),
            ParseFailure::InternalEngineError => false,
        },
    }
}

/// A successful root prescribed by the semantics always spans the whole
/// input, and its text is the whole input.
#[verifier::rlimit(100)]
pub proof fn lemma_root_spans(rule: RuleId, input: Seq<u8>, limit: int)
    ensures
        spec_parse(rule, input, limit) matches SpecOutcome::Root(n) ==> n.start == 0 && n.end
            == input.len() && n.text == input,
{
    assert(input.subrange(0, input.len() as int) =~= input);
    match rule {
        RuleId::Statement => {
            match m_statement(input) {
                MRes::Hit { end, nodes } => {},
                _ => {},
            }
        },
        RuleId::Command => {
            match m_command(input, limit) {
                MRes::Hit { end, nodes } => {},
                _ => {},
            }
        },
        RuleId::BooleanExpr => {
            match m_orx(input, 0, limit) {
                MRes::Hit { end, nodes } => {},
                _ => {},
            }
        },
        RuleId::QuotedLiteral => {
            match m_quoted(input, 0) {
                MRes::Hit { end, nodes } => {},
                _ => {},
            }
        },
        RuleId::ProximityGroup => {
            match m_proximity(input, 0, limit) {
                MRes::Hit { end, nodes } => {},
                _ => {},
            }
        },
        RuleId::FieldRestrictedTerm => {
            match m_field(input, 0) {
                MRes::Hit { end, nodes } => {},
                _ => {},
            }
        },
        RuleId::RangeExpr => {
            match m_range(input, 0) {
                MRes::Hit { end, nodes } => {},
                _ => {},
            }
        },
        RuleId::CitationRef => {
            match m_citation(input, 0) {
                MRes::Hit { end, nodes } => {},
                _ => {},
            }
        },
        RuleId::Term => {
            match m_term(input, 0) {
                MRes::Hit { end, nodes } => {},
                _ => {},
            }
        },
        RuleId::Directive => {
            match m_directive(input, 0) {
                MRes::Hit { end, nodes } => {},
                _ => {},
            }
        },
    }
}

/// Parses `input` under `rule` with an explicit nesting-depth budget.
/// Total: returns a result for every input.  For valid UTF-8 the result
/// is exactly what the grammar semantics prescribe; anything else is
/// rejected as an encoding error.
#[verifier::rlimit(100)]
pub fn parse_with_limit(rule: RuleId, input: &[u8], limit: usize) -> (r: ParseResult)
    requires
        input@.len() < usize::MAX,
    ensures
        valid_utf8(input@) ==> parse_ok(r, rule, input@, limit as int),
        !valid_utf8(input@) ==> r matches ParseResult::Failure(ParseFailure::EncodingError),
{
    let ghost len = input@.len() as int;
    if !utf8_ok(input) {
        return ParseResult::Failure(ParseFailure::EncodingError);
    }
    let mut st = FailTrack::empty();
    proof {
        assert(st.wf(len));
    }
    let step = match rule {
        RuleId::Statement => p_statement(input, &mut st),
        RuleId::Command => p_command(input, limit, &mut st),
        RuleId::BooleanExpr => p_orx(input, 0, limit, &mut st),
        RuleId::QuotedLiteral => p_quoted(input, 0, &mut st),
        RuleId::ProximityGroup => p_proximity(input, 0, limit, &mut st),
        RuleId::FieldRestrictedTerm => p_field(input, 0, &mut st),
        RuleId::RangeExpr => p_range(input, 0, &mut st),
        RuleId::CitationRef => p_citation(input, 0, &mut st),
        RuleId::Term => p_term(input, 0, &mut st),
        RuleId::Directive => p_directive(input, 0, &mut st),
    };
    proof {
        assert(st@ == t_entry(
            rule,
            input@,
            limit as int,
            TrackState { pos: 0, expected: Seq::empty() },
        ));
    }
    match step {
        Step::Depth => ParseResult::Failure(ParseFailure::RecursionLimitExceeded),
        Step::Miss => {
            let d = build_diagnostic(input, &st);
            ParseResult::Failure(ParseFailure::GrammarMismatch(d))
        },
        Step::Hit(mut v, e) => {
            let ghost ns = deep_seq(v@);
            if e == input.len() {
                match v.pop() {
                    Some(root) => {
                        proof {
                            assert(root.deep() == ns[0]);
                            assert(nodes_wf(ns, input@));
                            assert(root.deep().wf(input@));
                            assert(spec_parse(rule, input@, limit as int)
                                == SpecOutcome::Root(root.deep()));
                            lemma_root_spans(rule, input@, limit as int);
                        }
                        ParseResult::Success(root)
                    },
                    None => {
                        proof {
                            assert(false);
                        }
                        ParseResult::Failure(ParseFailure::InternalEngineError)
                    },
                }
            } else {
                st.record(e, TokenId::EndOfInput, Ghost(len));
                let d = build_diagnostic(input, &st);
                ParseResult::Failure(ParseFailure::GrammarMismatch(d))
            }
        },
    }
}

/// Parses `input` under the selected entry rule with the default
/// nesting-depth budget.
pub fn parse(rule: RuleId, input: &[u8]) -> (r: ParseResult)
    requires
        input@.len() < usize::MAX,
    ensures
        valid_utf8(input@) ==> parse_ok(r, rule, input@, DEFAULT_DEPTH_LIMIT as int),
        !valid_utf8(input@) ==> r matches ParseResult::Failure(ParseFailure::EncodingError),
{
    parse_with_limit(rule, input, DEFAULT_DEPTH_LIMIT)
}

} // verus!
