//! The grammar, stated as mathematical matching functions.
//!
//! Each production of the language is a specification function from the
//! input and a start position to a [`MRes`]: the position one past the
//! matched region together with the non-silent nodes produced, a mismatch,
//! or exhaustion of the nesting-depth budget.  Alternatives are ordered
//! choice (the first that matches wins) and repetition is greedy, in the
//! standard PEG fashion.  Whitespace between tokens is silent: it produces
//! no nodes of its own and is absorbed into the enclosing node's span.
//!
//! The executable engine in [`crate::engine`] is proved to return exactly
//! what these functions prescribe, so they are the single authority on
//! what parses and to which tree.

use vstd::prelude::*;
use crate::rules::RuleId;
use crate::tree::{SpecNode, spec_leaf, spec_node};

verus! {

/// Byte values of the structural characters of the grammar.
pub const SPACE: u8 = 32;
pub const TAB: u8 = 9;
pub const LF: u8 = 10;
pub const CR: u8 = 13;
pub const QUOTE: u8 = 34;
pub const AMP: u8 = 38;
pub const PLUS: u8 = 43;
pub const SLASH: u8 = 47;
pub const COLON: u8 = 58;
pub const LT: u8 = 60;
pub const GT: u8 = 62;
pub const AT: u8 = 64;
pub const LBRACKET: u8 = 91;
pub const BACKSLASH: u8 = 92;
pub const RBRACKET: u8 = 93;

/// Result of matching one production at one position.
pub ghost enum MRes {
    /// The nesting-depth budget was exhausted.
    Depth,
    /// The production does not match at this position.
    Miss,
    /// The production matches up to `end` (exclusive) and produces
    /// `nodes`, in left-to-right order.
    Hit { end: int, nodes: Seq<SpecNode> },
}

// ---------------------------------------------------------------------
// Character classes
// ---------------------------------------------------------------------

/// Whitespace: space, tab, line feed, carriage return.
pub open spec fn is_ws(b: u8) -> bool {
    b == SPACE || b == TAB || b == LF || b == CR
}

/// ASCII letters, the alphabet of directive names and citation words.
pub open spec fn is_alpha(b: u8) -> bool {
    (97 <= b && b <= 122) || (65 <= b && b <= 90)
}

/// ASCII decimal digits.
pub open spec fn is_digit(b: u8) -> bool {
    48 <= b && b <= 57
}

/// Bytes with a structural meaning; they terminate a bare term.
pub open spec fn is_special(b: u8) -> bool {
    b == QUOTE || b == LBRACKET || b == RBRACKET || b == SLASH || b == AMP || b == PLUS || b == LT
        || b == GT || b == AT
}

/// Bytes that may appear in a bare term: anything that is neither
/// whitespace nor structural.  Multi-byte UTF-8 sequences fall here.
pub open spec fn is_term_byte(b: u8) -> bool {
    !is_ws(b) && !is_special(b)
}

// ---------------------------------------------------------------------
// Scanners
// ---------------------------------------------------------------------

/// First position at or after `pos` holding a non-whitespace byte, or the
/// input length.  Out-of-range positions are returned unchanged.
pub open spec fn skip_ws(input: Seq<u8>, pos: int) -> int
    decreases input.len() - pos,
{
    if 0 <= pos < input.len() && is_ws(input[pos]) {
        skip_ws(input, pos + 1)
    } else {
        pos
    }
}

/// End of the run of term bytes beginning at `pos`.
pub open spec fn scan_term(input: Seq<u8>, pos: int) -> int
    decreases input.len() - pos,
{
    if 0 <= pos < input.len() && is_term_byte(input[pos]) {
        scan_term(input, pos + 1)
    } else {
        pos
    }
}

/// End of the run of ASCII letters beginning at `pos`.
pub open spec fn scan_alpha(input: Seq<u8>, pos: int) -> int
    decreases input.len() - pos,
{
    if 0 <= pos < input.len() && is_alpha(input[pos]) {
        scan_alpha(input, pos + 1)
    } else {
        pos
    }
}

/// End of the run of decimal digits beginning at `pos`.
pub open spec fn scan_digits(input: Seq<u8>, pos: int) -> int
    decreases input.len() - pos,
{
    if 0 <= pos < input.len() && is_digit(input[pos]) {
        scan_digits(input, pos + 1)
    } else {
        pos
    }
}

/// Scan the body of a quoted literal from `pos` (just after the opening
/// `"`).  A backslash escapes the following byte.  Returns the position
/// one past the closing `"`, or -1 when the literal is unterminated.
pub open spec fn scan_quoted(input: Seq<u8>, pos: int) -> int
    decreases input.len() - pos,
{
    if !(0 <= pos < input.len()) {
        -1
    } else if input[pos] == QUOTE {
        pos + 1
    } else if input[pos] == BACKSLASH {
        if pos + 1 < input.len() {
            scan_quoted(input, pos + 2)
        } else {
            -1
        }
    } else {
        scan_quoted(input, pos + 1)
    }
}

// ---------------------------------------------------------------------
// Leaf productions
// ---------------------------------------------------------------------

/// `Term`: one or more term bytes.
pub open spec fn m_term(input: Seq<u8>, pos: int) -> MRes {
    let end = scan_term(input, pos);
    if 0 <= pos < end {
        MRes::Hit { end, nodes: seq![spec_leaf(input, RuleId::Term, pos, end)] }
    } else {
        MRes::Miss
    }
}

/// `QuotedLiteral`: `"` ... `"` with backslash escapes; the node's span
/// includes both delimiters.
pub open spec fn m_quoted(input: Seq<u8>, pos: int) -> MRes {
    if 0 <= pos < input.len() && input[pos] == QUOTE {
        let end = scan_quoted(input, pos + 1);
        if end >= 0 {
            MRes::Hit { end, nodes: seq![spec_leaf(input, RuleId::QuotedLiteral, pos, end)] }
        } else {
            MRes::Miss
        }
    } else {
        MRes::Miss
    }
}

/// Greedy continuation of a field chain from `e`, the position just after
/// a closing `/`: each further link is `&` `/` term `/`.  Returns the end
/// of the last complete link.
pub open spec fn m_field_chain(input: Seq<u8>, e: int) -> int
    decreases input.len() - e,
{
    if 0 <= e && e + 1 < input.len() && input[e] == AMP && input[e + 1] == SLASH {
        let t = scan_term(input, e + 2);
        if t > e + 2 && t < input.len() && input[t] == SLASH {
            m_field_chain(input, t + 1)
        } else {
            e
        }
    } else {
        e
    }
}

/// `FieldRestrictedTerm`: `/` term `/`, optionally chained with `&`.
pub open spec fn m_field(input: Seq<u8>, pos: int) -> MRes {
    if 0 <= pos < input.len() && input[pos] == SLASH {
        let t = scan_term(input, pos + 1);
        if t > pos + 1 && t < input.len() && input[t] == SLASH {
            let end = m_field_chain(input, t + 1);
            MRes::Hit { end, nodes: seq![spec_leaf(input, RuleId::FieldRestrictedTerm, pos, end)] }
        } else {
            MRes::Miss
        }
    } else {
        MRes::Miss
    }
}

/// `CitationRef`: an alphabetic word, whitespace, then `chapter:verse`
/// digits.
pub open spec fn m_citation(input: Seq<u8>, pos: int) -> MRes {
    let w = scan_alpha(input, pos);
    if 0 <= pos < w {
        let i = skip_ws(input, w);
        if i > w {
            let d1 = scan_digits(input, i);
            if d1 > i && d1 < input.len() && input[d1] == COLON {
                let d2 = scan_digits(input, d1 + 1);
                if d2 > d1 + 1 {
                    MRes::Hit { end: d2, nodes: seq![spec_leaf(input, RuleId::CitationRef, pos, d2)] }
                } else {
                    MRes::Miss
                }
            } else {
                MRes::Miss
            }
        } else {
            MRes::Miss
        }
    } else {
        MRes::Miss
    }
}

/// `RangeExpr`: `>` or `<`, optional whitespace, then the target: a
/// citation reference or a bare term.
pub open spec fn m_range(input: Seq<u8>, pos: int) -> MRes {
    if 0 <= pos < input.len() && (input[pos] == GT || input[pos] == LT) {
        let i = skip_ws(input, pos + 1);
        match m_citation(input, i) {
            MRes::Hit { end, nodes } => MRes::Hit {
                end,
                nodes: seq![spec_leaf(input, RuleId::RangeExpr, pos, end)],
            },
            _ => match m_term(input, i) {
                MRes::Hit { end, nodes } => MRes::Hit {
                    end,
                    nodes: seq![spec_leaf(input, RuleId::RangeExpr, pos, end)],
                },
                _ => MRes::Miss,
            },
        }
    } else {
        MRes::Miss
    }
}

/// `Directive`: `@` followed by an alphabetic name.
pub open spec fn m_directive(input: Seq<u8>, pos: int) -> MRes {
    if 0 <= pos < input.len() && input[pos] == AT {
        let a = scan_alpha(input, pos + 1);
        if a > pos + 1 {
            MRes::Hit { end: a, nodes: seq![spec_leaf(input, RuleId::Directive, pos, a)] }
        } else {
            MRes::Miss
        }
    } else {
        MRes::Miss
    }
}

// ---------------------------------------------------------------------
// Proximity groups (the one recursive nesting of the grammar)
// ---------------------------------------------------------------------
//
// The three functions below are mutually recursive: a group holds items,
// and an item may itself be a group.  The `depth` budget is spent on each
// nested group.  Their bound guards ("cannot happen" branches) restate,
// for the termination checker, facts that hold of every reachable call:
// scanners stay inside the input and every item consumes at least one
// byte.

/// One item of a proximity group: a quoted literal, a field-restricted
/// term, a nested group, or a bare term, in that order of preference.
pub open spec fn m_gitem(input: Seq<u8>, pos: int, depth: int) -> MRes
    decreases input.len() - pos, 2int,
{
    match m_quoted(input, pos) {
        MRes::Hit { end, nodes } => MRes::Hit { end, nodes },
        _ => match m_field(input, pos) {
            MRes::Hit { end, nodes } => MRes::Hit { end, nodes },
            _ => match m_proximity(input, pos, depth) {
                MRes::Depth => MRes::Depth,
                MRes::Hit { end, nodes } => MRes::Hit { end, nodes },
                MRes::Miss => m_term(input, pos),
            },
        },
    }
}

/// Greedy sequence of group items, each preceded by optional whitespace,
/// starting at `pos` and collected onto `acc`.  Never a `Miss`: an empty
/// sequence of items is allowed, and `end` is then the position after the
/// whitespace that was skipped looking for an item.
pub open spec fn m_gitems(input: Seq<u8>, pos: int, depth: int, acc: Seq<SpecNode>) -> MRes
    decreases input.len() - pos, 3int,
{
    let k = skip_ws(input, pos);
    if !(pos <= k <= input.len()) {
        MRes::Miss  // cannot happen: skipping whitespace stays inside the input
    } else {
        match m_gitem(input, k, depth) {
            MRes::Depth => MRes::Depth,
            MRes::Miss => MRes::Hit { end: k, nodes: acc },
            MRes::Hit { end, nodes } => if k < end <= input.len() {
                m_gitems(input, end, depth, acc + nodes)
            } else {
                MRes::Miss  // cannot happen: an item consumes at least one byte
            },
        }
    }
}

/// `ProximityGroup`: `[` items `]`.  Entering a group spends one unit of
/// the nesting-depth budget; an exhausted budget is reported as `Depth`.
pub open spec fn m_proximity(input: Seq<u8>, pos: int, depth: int) -> MRes
    decreases input.len() - pos, 0int,
{
    if !(0 <= pos < input.len() && input[pos] == LBRACKET) {
        MRes::Miss
    } else if depth <= 0 {
        MRes::Depth
    } else {
        match m_gitems(input, pos + 1, depth - 1, Seq::empty()) {
            MRes::Depth => MRes::Depth,
            MRes::Miss => MRes::Miss,
            MRes::Hit { end, nodes } => {
                let j = skip_ws(input, end);
                if 0 <= j < input.len() && input[j] == RBRACKET {
                    MRes::Hit {
                        end: j + 1,
                        nodes: seq![
                            spec_node(input, RuleId::ProximityGroup, pos, j + 1, nodes),
                        ],
                    }
                } else {
                    MRes::Miss
                }
            },
        }
    }
}

// ---------------------------------------------------------------------
// Boolean expressions
// ---------------------------------------------------------------------

/// A primary of a boolean expression, by ordered choice: quoted literal,
/// proximity group, field-restricted term, range, citation, bare term.
pub open spec fn m_primary(input: Seq<u8>, pos: int, depth: int) -> MRes {
    match m_quoted(input, pos) {
        MRes::Hit { end, nodes } => MRes::Hit { end, nodes },
        _ => match m_proximity(input, pos, depth) {
            MRes::Depth => MRes::Depth,
            MRes::Hit { end, nodes } => MRes::Hit { end, nodes },
            MRes::Miss => match m_field(input, pos) {
                MRes::Hit { end, nodes } => MRes::Hit { end, nodes },
                _ => match m_range(input, pos) {
                    MRes::Hit { end, nodes } => MRes::Hit { end, nodes },
                    _ => match m_citation(input, pos) {
                        MRes::Hit { end, nodes } => MRes::Hit { end, nodes },
                        _ => m_term(input, pos),
                    },
                },
            },
        },
    }
}

/// Greedy adjacency: further primaries, each separated from the previous
/// one by at least one whitespace byte.  `e` is the end of the last
/// primary taken; its nodes are on `acc`.
pub open spec fn m_adj_rest(input: Seq<u8>, e: int, depth: int, acc: Seq<SpecNode>) -> MRes
    decreases input.len() - e,
{
    let k = skip_ws(input, e);
    if !(e < k <= input.len()) {
        MRes::Hit { end: e, nodes: acc }
    } else {
        match m_primary(input, k, depth) {
            MRes::Depth => MRes::Depth,
            MRes::Miss => MRes::Hit { end: e, nodes: acc },
            MRes::Hit { end, nodes } => if k < end <= input.len() {
                m_adj_rest(input, end, depth, acc + nodes)
            } else {
                MRes::Miss  // cannot happen: a primary consumes at least one byte
            },
        }
    }
}

/// Adjacency (implicit conjunction): one or more whitespace-separated
/// primaries.
pub open spec fn m_adj(input: Seq<u8>, pos: int, depth: int) -> MRes {
    match m_primary(input, pos, depth) {
        MRes::Depth => MRes::Depth,
        MRes::Miss => MRes::Miss,
        MRes::Hit { end, nodes } => m_adj_rest(input, end, depth, nodes),
    }
}

/// Greedy conjunction chain: further `&`-joined adjacency groups.
pub open spec fn m_andx_rest(input: Seq<u8>, e: int, depth: int, acc: Seq<SpecNode>) -> MRes
    decreases input.len() - e,
{
    let k = skip_ws(input, e);
    if 0 <= k < input.len() && input[k] == AMP {
        let m = skip_ws(input, k + 1);
        match m_adj(input, m, depth) {
            MRes::Depth => MRes::Depth,
            MRes::Miss => MRes::Hit { end: e, nodes: acc },
            MRes::Hit { end, nodes } => if e < end <= input.len() {
                m_andx_rest(input, end, depth, acc + nodes)
            } else {
                MRes::Miss  // cannot happen: the operand lies beyond `e`
            },
        }
    } else {
        MRes::Hit { end: e, nodes: acc }
    }
}

/// Conjunction: adjacency groups joined by `&`.
pub open spec fn m_andx(input: Seq<u8>, pos: int, depth: int) -> MRes {
    match m_adj(input, pos, depth) {
        MRes::Depth => MRes::Depth,
        MRes::Miss => MRes::Miss,
        MRes::Hit { end, nodes } => m_andx_rest(input, end, depth, nodes),
    }
}

/// Greedy disjunction chain: further `+`-joined conjunction groups.
pub open spec fn m_orx_rest(input: Seq<u8>, e: int, depth: int, acc: Seq<SpecNode>) -> MRes
    decreases input.len() - e,
{
    let k = skip_ws(input, e);
    if 0 <= k < input.len() && input[k] == PLUS {
        let m = skip_ws(input, k + 1);
        match m_andx(input, m, depth) {
            MRes::Depth => MRes::Depth,
            MRes::Miss => MRes::Hit { end: e, nodes: acc },
            MRes::Hit { end, nodes } => if e < end <= input.len() {
                m_orx_rest(input, end, depth, acc + nodes)
            } else {
                MRes::Miss  // cannot happen: the operand lies beyond `e`
            },
        }
    } else {
        MRes::Hit { end: e, nodes: acc }
    }
}

/// `BooleanExpr`: conjunction groups joined by `+` (disjunction binds
/// loosest, then `&`, then adjacency).  Produces one node spanning the
/// whole expression whose children are the primaries in match order.
pub open spec fn m_orx(input: Seq<u8>, pos: int, depth: int) -> MRes {
    match m_andx(input, pos, depth) {
        MRes::Depth => MRes::Depth,
        MRes::Miss => MRes::Miss,
        MRes::Hit { end, nodes } => match m_orx_rest(input, end, depth, nodes) {
            MRes::Depth => MRes::Depth,
            MRes::Miss => MRes::Miss,
            MRes::Hit { end: e2, nodes: all } => MRes::Hit {
                end: e2,
                nodes: seq![spec_node(input, RuleId::BooleanExpr, pos, e2, all)],
            },
        },
    }
}

// ---------------------------------------------------------------------
// Entry rules
// ---------------------------------------------------------------------

/// `command`: optional whitespace, a boolean expression, optional
/// whitespace, end of input.  The root node spans the entire input.
pub open spec fn m_command(input: Seq<u8>, limit: int) -> MRes {
    let i = skip_ws(input, 0);
    match m_orx(input, i, limit) {
        MRes::Depth => MRes::Depth,
        MRes::Miss => MRes::Miss,
        MRes::Hit { end, nodes } => {
            let j = skip_ws(input, end);
            if j == input.len() {
                MRes::Hit {
                    end: j,
                    nodes: seq![spec_node(input, RuleId::Command, 0, j, nodes)],
                }
            } else {
                MRes::Miss
            }
        },
    }
}

/// The optional whitespace-separated argument term of a `statement`:
/// extends the directive's match (ending at `end`, having produced
/// `nodes`) when an argument is present.
pub open spec fn m_stmt_arg(input: Seq<u8>, end: int, nodes: Seq<SpecNode>) -> MRes {
    let k = skip_ws(input, end);
    if k > end {
        match m_term(input, k) {
            MRes::Hit { end: e2, nodes: tn } => MRes::Hit { end: e2, nodes: nodes + tn },
            _ => MRes::Hit { end, nodes },
        }
    } else {
        MRes::Hit { end, nodes }
    }
}

/// `statement`: optional whitespace, a directive, an optional
/// whitespace-separated argument term, optional whitespace, end of
/// input.  The root node spans the entire input.
pub open spec fn m_statement(input: Seq<u8>) -> MRes {
    let i = skip_ws(input, 0);
    match m_directive(input, i) {
        MRes::Hit { end, nodes } => {
            match m_stmt_arg(input, end, nodes) {
                MRes::Hit { end: ae, nodes: an } => {
                    let j = skip_ws(input, ae);
                    if j == input.len() {
                        MRes::Hit {
                            end: j,
                            nodes: seq![spec_node(input, RuleId::Statement, 0, j, an)],
                        }
                    } else {
                        MRes::Miss
                    }
                },
                _ => MRes::Miss,
            }
        },
        _ => MRes::Miss,
    }
}

/// Outcome of a whole parse, in mathematical form.
pub ghost enum SpecOutcome {
    /// The entry rule matches the entire input and yields this root node.
    Root(SpecNode),
    /// The entry rule does not match the entire input.
    Mismatch,
    /// The nesting-depth budget was exhausted.
    DepthExceeded,
}

/// Anchors a match result: a parse succeeds exactly when the rule matches
/// the whole input and yields a single root node.
pub open spec fn anchored(input: Seq<u8>, m: MRes) -> SpecOutcome {
    match m {
        MRes::Depth => SpecOutcome::DepthExceeded,
        MRes::Miss => SpecOutcome::Mismatch,
        MRes::Hit { end, nodes } => if end == input.len() && nodes.len() == 1 {
            SpecOutcome::Root(nodes[0])
        } else {
            SpecOutcome::Mismatch
        },
    }
}

/// What parsing `input` under `rule` with nesting budget `limit` returns.
/// The two top-level entry rules elide surrounding whitespace themselves;
/// every other rule must cover the input exactly.
pub open spec fn spec_parse(rule: RuleId, input: Seq<u8>, limit: int) -> SpecOutcome {
    match rule {
        RuleId::Statement => anchored(input, m_statement(input)),
        RuleId::Command => anchored(input, m_command(input, limit)),
        RuleId::BooleanExpr => anchored(input, m_orx(input, 0, limit)),
        RuleId::QuotedLiteral => anchored(input, m_quoted(input, 0)),
        RuleId::ProximityGroup => anchored(input, m_proximity(input, 0, limit)),
        RuleId::FieldRestrictedTerm => anchored(input, m_field(input, 0)),
        RuleId::RangeExpr => anchored(input, m_range(input, 0)),
        RuleId::CitationRef => anchored(input, m_citation(input, 0)),
        RuleId::Term => anchored(input, m_term(input, 0)),
        RuleId::Directive => anchored(input, m_directive(input, 0)),
    }
}

} // verus!
