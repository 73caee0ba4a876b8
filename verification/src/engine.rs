//! The executable parser engine.
//!
//! Every function here is proved to return exactly what the matching
//! functions of [`crate::grammar`] prescribe, to build only well-formed
//! nodes, and to transform the furthest-failure record exactly as the
//! tracker functions (`t_*`, built from [`r_step`]) prescribe.  The
//! engine is a total function of its arguments: it holds no state of its
//! own, so two parses of the same input agree on the tree and on the
//! diagnostic alike.

use vstd::prelude::*;
use crate::rules::{RuleId, TokenId};
use crate::tree::{ParseNode, SpecNode, spec_leaf, spec_node};
use crate::grammar::{
    MRes, is_ws, is_alpha, is_digit, is_term_byte, skip_ws, scan_term, scan_alpha, scan_digits,
    scan_quoted, m_term, m_quoted, m_field, m_field_chain, m_range, m_citation, m_directive,
    m_gitem, m_gitems, m_proximity, m_primary, m_adj, m_adj_rest, m_andx, m_andx_rest, m_orx,
    m_orx_rest, m_command, m_statement, m_stmt_arg, SPACE, TAB, LF, CR, QUOTE, AMP, PLUS, SLASH, COLON, LT,
    GT, AT, LBRACKET, BACKSLASH, RBRACKET,
};

verus! {

/// The mathematical forms of a sequence of executable nodes.
pub open spec fn deep_seq(s: Seq<ParseNode>) -> Seq<SpecNode> {
    Seq::new(s.len(), |i: int| s[i].deep())
}

/// Every node of the sequence is well formed against the input.
pub open spec fn nodes_wf(ns: Seq<SpecNode>, input: Seq<u8>) -> bool {
    forall|i: int| 0 <= i < ns.len() ==> (#[trigger] ns[i]).wf(input)
}

/// Every span lies inside `[lo, hi]` and sibling spans are ordered left to
/// right without overlap.
pub open spec fn nodes_within(ns: Seq<SpecNode>, lo: int, hi: int) -> bool {
    &&& forall|i: int|
        0 <= i < ns.len() ==> lo <= (#[trigger] ns[i]).start && ns[i].end <= hi
    &&& forall|i: int|
        0 <= i && i + 1 < ns.len() ==> (#[trigger] ns[i]).end <= ns[i + 1].start
}

/// Concatenating two well-placed node runs that meet at a boundary yields
/// a well-placed run.
#[verifier::rlimit(50)]
pub proof fn lemma_nodes_concat(
    a: Seq<SpecNode>,
    b: Seq<SpecNode>,
    input: Seq<u8>,
    lo: int,
    mid: int,
    hi: int,
)
    requires
        nodes_wf(a, input),
        nodes_wf(b, input),
        nodes_within(a, lo, mid),
        nodes_within(b, mid, hi),
        lo <= mid <= hi,
    ensures
        nodes_wf(a + b, input),
        nodes_within(a + b, lo, hi),
{
    assert forall|i: int| 0 <= i < (a + b).len() implies (#[trigger] (a + b)[i]).wf(input) by {
        if i < a.len() {
            assert(a[i].wf(input));
            assert((a + b)[i] == a[i]);
        } else {
            assert(b[i - a.len()].wf(input));
            assert((a + b)[i] == b[i - a.len()]);
        }
    }
    assert forall|i: int|
        0 <= i < (a + b).len() implies lo <= (#[trigger] (a + b)[i]).start && (a + b)[i].end
        <= hi by {
        if i < a.len() {
            assert((a + b)[i] == a[i]);
        } else {
            assert((a + b)[i] == b[i - a.len()]);
        }
    }
    assert forall|i: int| 0 <= i && i + 1 < (a + b).len() implies (#[trigger] (a + b)[i]).end
        <= (a + b)[i + 1].start by {
        if i + 1 < a.len() {
            assert((a + b)[i] == a[i] && (a + b)[i + 1] == a[i + 1]);
        } else if i + 1 == a.len() {
            assert((a + b)[i] == a[i] && (a + b)[i + 1] == b[0]);
        } else {
            assert((a + b)[i] == b[i - a.len()] && (a + b)[i + 1] == b[i + 1 - a.len()]);
        }
    }
}

/// `deep_seq` distributes over concatenation.
pub proof fn lemma_deep_seq_concat(a: Seq<ParseNode>, b: Seq<ParseNode>)
    ensures
        deep_seq(a + b) == deep_seq(a) + deep_seq(b),
{
    assert(deep_seq(a + b) =~= deep_seq(a) + deep_seq(b)) by {
        assert forall|i: int| 0 <= i < (a + b).len() implies deep_seq(a + b)[i] == (deep_seq(a)
            + deep_seq(b))[i] by {
            if i < a.len() {
                assert((a + b)[i] == a[i]);
            } else {
                assert((a + b)[i] == b[i - a.len()]);
            }
        }
    }
}

/// Result of one engine step: the depth budget ran out, the production
/// did not match, or it matched ending at an offset with its nodes.
pub(crate) enum Step {
    Depth,
    Miss,
    Hit(Vec<ParseNode>, usize),
}

/// The furthest-failure record: the greatest input position any attempted
/// alternative reached, and the deduplicated tokens attempted there, in
/// first-recorded order.
pub struct FailTrack {
    /// Furthest position at which an expectation failed.
    pub pos: usize,
    /// Tokens that were expected at `pos`; no duplicates.
    pub expected: Vec<TokenId>,
}

/// Mathematical form of the furthest-failure record.
pub ghost struct TrackState {
    pub pos: int,
    pub expected: Seq<TokenId>,
}

impl View for FailTrack {
    type V = TrackState;

    open spec fn view(&self) -> TrackState {
        TrackState { pos: self.pos as int, expected: self.expected@ }
    }
}

/// What noting one failed expectation does to the record: a further
/// position replaces the set, the same position adds the token once, and
/// an earlier position changes nothing.
pub open spec fn r_step(s: TrackState, pos: int, tok: TokenId) -> TrackState {
    if pos > s.pos {
        TrackState { pos, expected: seq![tok] }
    } else if pos == s.pos {
        if s.expected.contains(tok) {
            s
        } else {
            TrackState { pos: s.pos, expected: s.expected.push(tok) }
        }
    } else {
        s
    }
}

impl FailTrack {
    /// Invariant: the position is inside the input (one past the last byte
    /// at most), the expected set holds no duplicates, and it is empty only
    /// before anything was recorded.
    pub open spec fn wf(self, len: int) -> bool {
        &&& self.pos <= len
        &&& self.expected@.no_duplicates()
        &&& self.expected@.len() == 0 ==> self.pos == 0
    }

    /// A fresh record with nothing recorded yet.
    pub fn empty() -> (r: FailTrack)
        ensures
            r.wf(0),
            r@ == (TrackState { pos: 0, expected: Seq::<TokenId>::empty() }),
    {
        let r = FailTrack { pos: 0, expected: Vec::new() };
        proof {
            assert(r@.expected =~= Seq::<TokenId>::empty());
        }
        r
    }

    /// Note that `tok` was expected at `pos` and the input there does not
    /// satisfy it.  Further positions win; at the same position the token
    /// is added once.
    pub fn record(&mut self, pos: usize, tok: TokenId, Ghost(len): Ghost<int>)
        requires
            old(self).wf(len),
            pos <= len,
        ensures
            final(self)@ == r_step(old(self)@, pos as int, tok),
            final(self).wf(len),
            final(self).pos >= old(self).pos,
            final(self).expected@.len() > 0,
    {
        if pos > self.pos {
            self.pos = pos;
            self.expected = Vec::new();
            self.expected.push(tok);
            proof {
                assert(self@.expected =~= seq![tok]);
            }
        } else if pos == self.pos {
            if !tok_in(&self.expected, tok) {
                self.expected.push(tok);
            }
        }
    }
}

/// How the failure record may change across an engine step: it stays well
/// formed, only moves forward, and never forgets that something was
/// recorded.
pub open spec fn st_evolve(pre: FailTrack, post: FailTrack, len: int) -> bool {
    &&& post.wf(len)
    &&& post.pos >= pre.pos
    &&& pre.expected@.len() > 0 ==> post.expected@.len() > 0
}

/// Whether the token sequence holds `t`.
fn tok_in(v: &Vec<TokenId>, t: TokenId) -> (r: bool)
    ensures
        r == v@.contains(t),
{
    let mut i: usize = 0;
    while i < v.len()
        invariant
            i <= v@.len(),
            forall|j: int| 0 <= j < i ==> v@[j] != t,
        decreases v@.len() - i,
    {
        if v[i] == t {
            return true;
        }
        i += 1;
    }
    false
}

// ---------------------------------------------------------------------
// Character classes and scanners
// ---------------------------------------------------------------------

fn is_ws_b(b: u8) -> (r: bool)
    ensures
        r == is_ws(b),
{
    b == SPACE || b == TAB || b == LF || b == CR
}

fn is_term_b(b: u8) -> (r: bool)
    ensures
        r == is_term_byte(b),
{
    !(b == SPACE || b == TAB || b == LF || b == CR || b == QUOTE || b == LBRACKET
        || b == RBRACKET || b == SLASH || b == AMP || b == PLUS || b == LT || b == GT || b == AT)
}

fn is_alpha_b(b: u8) -> (r: bool)
    ensures
        r == is_alpha(b),
{
    (97 <= b && b <= 122) || (65 <= b && b <= 90)
}

fn is_digit_b(b: u8) -> (r: bool)
    ensures
        r == is_digit(b),
{
    48 <= b && b <= 57
}

/// First non-whitespace position at or after `pos`.
fn e_skip_ws(input: &[u8], pos: usize) -> (r: usize)
    requires
        pos <= input@.len(),
    ensures
        r as int == skip_ws(input@, pos as int),
        pos <= r <= input@.len(),
{
    let mut i: usize = pos;
    while i < input.len() && is_ws_b(input[i])
        invariant
            pos <= i <= input@.len(),
            skip_ws(input@, pos as int) == skip_ws(input@, i as int),
        decreases input@.len() - i,
    {
        i += 1;
    }
    i
}

/// End of the run of term bytes at `pos`.
fn e_scan_term(input: &[u8], pos: usize) -> (r: usize)
    requires
        pos <= input@.len(),
    ensures
        r as int == scan_term(input@, pos as int),
        pos <= r <= input@.len(),
{
    let mut i: usize = pos;
    while i < input.len() && is_term_b(input[i])
        invariant
            pos <= i <= input@.len(),
            scan_term(input@, pos as int) == scan_term(input@, i as int),
        decreases input@.len() - i,
    {
        i += 1;
    }
    i
}

/// End of the run of letters at `pos`.
fn e_scan_alpha(input: &[u8], pos: usize) -> (r: usize)
    requires
        pos <= input@.len(),
    ensures
        r as int == scan_alpha(input@, pos as int),
        pos <= r <= input@.len(),
{
    let mut i: usize = pos;
    while i < input.len() && is_alpha_b(input[i])
        invariant
            pos <= i <= input@.len(),
            scan_alpha(input@, pos as int) == scan_alpha(input@, i as int),
        decreases input@.len() - i,
    {
        i += 1;
    }
    i
}

/// End of the run of digits at `pos`.
fn e_scan_digits(input: &[u8], pos: usize) -> (r: usize)
    requires
        pos <= input@.len(),
    ensures
        r as int == scan_digits(input@, pos as int),
        pos <= r <= input@.len(),
{
    let mut i: usize = pos;
    while i < input.len() && is_digit_b(input[i])
        invariant
            pos <= i <= input@.len(),
            scan_digits(input@, pos as int) == scan_digits(input@, i as int),
        decreases input@.len() - i,
    {
        i += 1;
    }
    i
}

/// Scan a quoted-literal body; `None` when unterminated.
fn e_scan_quoted(input: &[u8], pos: usize) -> (r: Option<usize>)
    requires
        pos <= input@.len(),
    ensures
        match r {
            Some(e) => scan_quoted(input@, pos as int) == e as int && pos < e <= input@.len(),
            None => scan_quoted(input@, pos as int) == -1,
        },
{
    let mut i: usize = pos;
    loop
        invariant
            pos <= i <= input@.len(),
            scan_quoted(input@, pos as int) == scan_quoted(input@, i as int),
        decreases input@.len() - i,
    {
        if i >= input.len() {
            return None;
        }
        if input[i] == QUOTE {
            return Some(i + 1);
        }
        if input[i] == BACKSLASH {
            if i + 1 < input.len() {
                i += 2;
            } else {
                return None;
            }
        } else {
            i += 1;
        }
    }
}

// ---------------------------------------------------------------------
// Node construction
// ---------------------------------------------------------------------

/// The exact bytes `input[start..end]`.
fn copy_range(input: &[u8], start: usize, end: usize) -> (v: Vec<u8>)
    requires
        start <= end <= input@.len(),
    ensures
        v@ == input@.subrange(start as int, end as int),
{
    let mut v: Vec<u8> = Vec::new();
    let mut i: usize = start;
    while i < end
        invariant
            start <= i <= end <= input@.len(),
            v@ == input@.subrange(start as int, i as int),
        decreases end - i,
    {
        v.push(input[i]);
        assert(v@ =~= input@.subrange(start as int, i + 1));
        i += 1;
    }
    v
}

/// A childless node covering `input[start..end]`.
fn make_leaf(input: &[u8], rule: RuleId, start: usize, end: usize) -> (n: ParseNode)
    requires
        start <= end <= input@.len(),
    ensures
        n.deep() == spec_leaf(input@, rule, start as int, end as int),
        n.deep().wf(input@),
        n.start == start,
        n.end == end,
{
    let text = copy_range(input, start, end);
    let n = ParseNode { rule, start, end, text, children: Vec::new() };
    proof {
        reveal(SpecNode::wf);
        assert(n.deep().children =~= Seq::<SpecNode>::empty());
        assert(n.deep() == spec_leaf(input@, rule, start as int, end as int));
    }
    n
}

/// Wraps finished children in a parent node covering `input[start..end]`.
#[verifier::rlimit(50)]
fn make_node(
    input: &[u8],
    rule: RuleId,
    start: usize,
    end: usize,
    children: Vec<ParseNode>,
) -> (n: ParseNode)
    requires
        start <= end <= input@.len(),
        nodes_wf(deep_seq(children@), input@),
        nodes_within(deep_seq(children@), start as int, end as int),
    ensures
        n.deep() == spec_node(input@, rule, start as int, end as int, deep_seq(children@)),
        n.deep().wf(input@),
        n.start == start,
        n.end == end,
{
    let ghost kids = deep_seq(children@);
    let text = copy_range(input, start, end);
    let n = ParseNode { rule, start, end, text, children };
    proof {
        reveal(SpecNode::wf);
        assert(n.deep().children =~= kids);
        assert(n.deep() == spec_node(input@, rule, start as int, end as int, kids));
        assert forall|i: int| 0 <= i < kids.len() implies (#[trigger] kids[i]).wf(input@) by {}
    }
    n
}

/// A singleton step result.
fn one(n: ParseNode, end: usize) -> (r: Step)
    ensures
        (r matches Step::Hit(v, e) && v@.len() == 1 && deep_seq(v@) == seq![n.deep()]
            && e == end),
{
    let mut v: Vec<ParseNode> = Vec::new();
    v.push(n);
    proof {
        assert(deep_seq(v@) =~= seq![n.deep()]);
    }
    Step::Hit(v, end)
}

/// Shape of every rule parser's result: the step agrees exactly with the
/// matching function `m`, hit nodes are well formed and well placed after
/// `pos`, and a miss leaves a nonempty expected set behind.
pub(crate) open spec fn step_matches(
    r: Step,
    m: MRes,
    input: Seq<u8>,
    pos: int,
    st: FailTrack,
) -> bool {
    match r {
        Step::Depth => m is Depth,
        Step::Miss => m is Miss && st.expected@.len() > 0,
        Step::Hit(v, end) => {
            &&& m == (MRes::Hit { end: end as int, nodes: deep_seq(v@) })
            &&& pos <= end <= input.len()
            &&& nodes_wf(deep_seq(v@), input)
            &&& nodes_within(deep_seq(v@), pos, end as int)
        },
    }
}


// ---------------------------------------------------------------------
// Leaf rule parsers
// ---------------------------------------------------------------------

/// What parsing a `Term` at `pos` does to the failure record.
pub open spec fn t_term(input: Seq<u8>, pos: int, st: TrackState) -> TrackState {
    let end = scan_term(input, pos);
    if 0 <= pos < end {
        st
    } else {
        r_step(st, pos, TokenId::TermToken)
    }
}

/// What parsing a `QuotedLiteral` at `pos` does to the failure record.
pub open spec fn t_quoted(input: Seq<u8>, pos: int, st: TrackState) -> TrackState {
    if 0 <= pos < input.len() && input[pos] == QUOTE {
        if scan_quoted(input, pos + 1) >= 0 {
            st
        } else {
            r_step(st, input.len() as int, TokenId::CloseQuote)
        }
    } else {
        r_step(st, pos, TokenId::OpenQuote)
    }
}

/// What parsing a `FieldRestrictedTerm` at `pos` does to the failure
/// record.
pub open spec fn t_field(input: Seq<u8>, pos: int, st: TrackState) -> TrackState {
    if 0 <= pos < input.len() && input[pos] == SLASH {
        let t = scan_term(input, pos + 1);
        if t > pos + 1 && t < input.len() && input[t] == SLASH {
            st
        } else {
            if t == pos + 1 {
                r_step(st, pos + 1, TokenId::TermToken)
            } else {
                r_step(st, t, TokenId::CloseSlash)
            }
        }
    } else {
        r_step(st, pos, TokenId::OpenSlash)
    }
}

/// What parsing a `CitationRef` at `pos` does to the failure record.
pub open spec fn t_citation(input: Seq<u8>, pos: int, st: TrackState) -> TrackState {
    let w = scan_alpha(input, pos);
    if w == pos {
        r_step(st, pos, TokenId::Word)
    } else {
        let i = skip_ws(input, w);
        if i == w {
            r_step(st, w, TokenId::Whitespace)
        } else {
            let d1 = scan_digits(input, i);
            if d1 == i {
                r_step(st, i, TokenId::Digits)
            } else if !(d1 < input.len() && input[d1] == COLON) {
                r_step(st, d1, TokenId::Colon)
            } else {
                let d2 = scan_digits(input, d1 + 1);
                if d2 == d1 + 1 {
                    r_step(st, d1 + 1, TokenId::Digits)
                } else {
                    st
                }
            }
        }
    }
}

/// What parsing a `RangeExpr` at `pos` does to the failure record.
pub open spec fn t_range(input: Seq<u8>, pos: int, st: TrackState) -> TrackState {
    if 0 <= pos < input.len() && (input[pos] == GT || input[pos] == LT) {
        let i = skip_ws(input, pos + 1);
        let s1 = t_citation(input, i, st);
        if m_citation(input, i) is Hit {
            s1
        } else {
            t_term(input, i, s1)
        }
    } else {
        r_step(st, pos, TokenId::RangeOp)
    }
}

/// What parsing a `Directive` at `pos` does to the failure record.
pub open spec fn t_directive(input: Seq<u8>, pos: int, st: TrackState) -> TrackState {
    if 0 <= pos < input.len() && input[pos] == AT {
        let a = scan_alpha(input, pos + 1);
        if a > pos + 1 {
            st
        } else {
            r_step(st, pos + 1, TokenId::DirectiveName)
        }
    } else {
        r_step(st, pos, TokenId::AtSign)
    }
}

/// Parses a bare `Term` at `pos`.
pub(crate) fn p_term(input: &[u8], pos: usize, st: &mut FailTrack) -> (r: Step)
    requires
        pos <= input@.len(),
        old(st).wf(input@.len() as int),
    ensures
        st_evolve(*old(st), *final(st), input@.len() as int),
        step_matches(r, m_term(input@, pos as int), input@, pos as int, *final(st)),
        final(st)@ == t_term(input@, pos as int, old(st)@),
        r matches Step::Hit(v, end) ==> pos < end && v@.len() == 1,
{
    let end = e_scan_term(input, pos);
    if end > pos {
        let n = make_leaf(input, RuleId::Term, pos, end);
        proof {
            assert(seq![n.deep()][0] == n.deep());
        }
        one(n, end)
    } else {
        st.record(pos, TokenId::TermToken, Ghost(input@.len() as int));
        Step::Miss
    }
}

/// Parses a `QuotedLiteral` at `pos`.
pub(crate) fn p_quoted(input: &[u8], pos: usize, st: &mut FailTrack) -> (r: Step)
    requires
        pos <= input@.len(),
        old(st).wf(input@.len() as int),
    ensures
        st_evolve(*old(st), *final(st), input@.len() as int),
        step_matches(r, m_quoted(input@, pos as int), input@, pos as int, *final(st)),
        final(st)@ == t_quoted(input@, pos as int, old(st)@),
        r matches Step::Hit(v, end) ==> pos < end && v@.len() == 1,
{
    let ghost len = input@.len() as int;
    if pos < input.len() && input[pos] == QUOTE {
        match e_scan_quoted(input, pos + 1) {
            Some(e) => {
                let n = make_leaf(input, RuleId::QuotedLiteral, pos, e);
                proof {
                    assert(seq![n.deep()][0] == n.deep());
                }
                one(n, e)
            },
            None => {
                st.record(input.len(), TokenId::CloseQuote, Ghost(len));
                Step::Miss
            },
        }
    } else {
        st.record(pos, TokenId::OpenQuote, Ghost(len));
        Step::Miss
    }
}

/// Greedy continuation of a field chain.
fn e_field_chain(input: &[u8], e0: usize) -> (r: usize)
    requires
        e0 <= input@.len(),
    ensures
        r as int == m_field_chain(input@, e0 as int),
        e0 <= r <= input@.len(),
{
    let mut e: usize = e0;
    loop
        invariant
            e0 <= e <= input@.len(),
            m_field_chain(input@, e0 as int) == m_field_chain(input@, e as int),
        decreases input@.len() - e,
    {
        if e < input.len() && e + 1 < input.len() && input[e] == AMP && input[e + 1] == SLASH {
            let t = e_scan_term(input, e + 2);
            if t > e + 2 && t < input.len() && input[t] == SLASH {
                e = t + 1;
            } else {
                return e;
            }
        } else {
            return e;
        }
    }
}

/// Parses a `FieldRestrictedTerm` at `pos`.
pub(crate) fn p_field(input: &[u8], pos: usize, st: &mut FailTrack) -> (r: Step)
    requires
        pos <= input@.len(),
        old(st).wf(input@.len() as int),
    ensures
        st_evolve(*old(st), *final(st), input@.len() as int),
        step_matches(r, m_field(input@, pos as int), input@, pos as int, *final(st)),
        final(st)@ == t_field(input@, pos as int, old(st)@),
        r matches Step::Hit(v, end) ==> pos < end && v@.len() == 1,
{
    let ghost len = input@.len() as int;
    if pos < input.len() && input[pos] == SLASH {
        let t = e_scan_term(input, pos + 1);
        if t > pos + 1 && t < input.len() && input[t] == SLASH {
            let end = e_field_chain(input, t + 1);
            let n = make_leaf(input, RuleId::FieldRestrictedTerm, pos, end);
            proof {
                assert(seq![n.deep()][0] == n.deep());
            }
            one(n, end)
        } else {
            if t == pos + 1 {
                st.record(pos + 1, TokenId::TermToken, Ghost(len));
            } else {
                st.record(t, TokenId::CloseSlash, Ghost(len));
            }
            Step::Miss
        }
    } else {
        st.record(pos, TokenId::OpenSlash, Ghost(len));
        Step::Miss
    }
}

/// Parses a `RangeExpr` at `pos`.
#[verifier::rlimit(50)]
pub(crate) fn p_range(input: &[u8], pos: usize, st: &mut FailTrack) -> (r: Step)
    requires
        pos <= input@.len(),
        old(st).wf(input@.len() as int),
    ensures
        st_evolve(*old(st), *final(st), input@.len() as int),
        step_matches(r, m_range(input@, pos as int), input@, pos as int, *final(st)),
        final(st)@ == t_range(input@, pos as int, old(st)@),
        r matches Step::Hit(v, end) ==> pos < end && v@.len() == 1,
{
    let ghost len = input@.len() as int;
    if pos < input.len() && (input[pos] == GT || input[pos] == LT) {
        let i = e_skip_ws(input, pos + 1);
        match p_citation(input, i, st) {
            Step::Hit(_, e) => {
                let n = make_leaf(input, RuleId::RangeExpr, pos, e);
                proof {
                    assert(seq![n.deep()][0] == n.deep());
                }
                return one(n, e);
            },
            Step::Miss => {},
            Step::Depth => {
                proof {
                    assert(false);
                }
            },
        }
        match p_term(input, i, st) {
            Step::Hit(_, e) => {
                let n = make_leaf(input, RuleId::RangeExpr, pos, e);
                proof {
                    assert(seq![n.deep()][0] == n.deep());
                }
                one(n, e)
            },
            Step::Miss => Step::Miss,
            Step::Depth => {
                proof {
                    assert(false);
                }
                Step::Miss
            },
        }
    } else {
        st.record(pos, TokenId::RangeOp, Ghost(len));
        Step::Miss
    }
}

/// Parses a `CitationRef` at `pos`.
pub(crate) fn p_citation(input: &[u8], pos: usize, st: &mut FailTrack) -> (r: Step)
    requires
        pos <= input@.len(),
        old(st).wf(input@.len() as int),
    ensures
        st_evolve(*old(st), *final(st), input@.len() as int),
        step_matches(r, m_citation(input@, pos as int), input@, pos as int, *final(st)),
        final(st)@ == t_citation(input@, pos as int, old(st)@),
        r matches Step::Hit(v, end) ==> pos < end && v@.len() == 1,
{
    let ghost len = input@.len() as int;
    let w = e_scan_alpha(input, pos);
    if w == pos {
        st.record(pos, TokenId::Word, Ghost(len));
        return Step::Miss;
    }
    let i = e_skip_ws(input, w);
    if i == w {
        st.record(w, TokenId::Whitespace, Ghost(len));
        return Step::Miss;
    }
    let d1 = e_scan_digits(input, i);
    if d1 == i {
        st.record(i, TokenId::Digits, Ghost(len));
        return Step::Miss;
    }
    if !(d1 < input.len() && input[d1] == COLON) {
        st.record(d1, TokenId::Colon, Ghost(len));
        return Step::Miss;
    }
    let d2 = e_scan_digits(input, d1 + 1);
    if d2 == d1 + 1 {
        st.record(d1 + 1, TokenId::Digits, Ghost(len));
        return Step::Miss;
    }
    let n = make_leaf(input, RuleId::CitationRef, pos, d2);
    proof {
        assert(seq![n.deep()][0] == n.deep());
    }
    one(n, d2)
}

/// Parses a `Directive` at `pos`.
pub(crate) fn p_directive(input: &[u8], pos: usize, st: &mut FailTrack) -> (r: Step)
    requires
        pos <= input@.len(),
        old(st).wf(input@.len() as int),
    ensures
        st_evolve(*old(st), *final(st), input@.len() as int),
        step_matches(r, m_directive(input@, pos as int), input@, pos as int, *final(st)),
        final(st)@ == t_directive(input@, pos as int, old(st)@),
        r matches Step::Hit(v, end) ==> pos < end && v@.len() == 1,
{
    let ghost len = input@.len() as int;
    if pos < input.len() && input[pos] == AT {
        let a = e_scan_alpha(input, pos + 1);
        if a > pos + 1 {
            let n = make_leaf(input, RuleId::Directive, pos, a);
            proof {
                assert(seq![n.deep()][0] == n.deep());
            }
            one(n, a)
        } else {
            st.record(pos + 1, TokenId::DirectiveName, Ghost(len));
            Step::Miss
        }
    } else {
        st.record(pos, TokenId::AtSign, Ghost(len));
        Step::Miss
    }
}

// ---------------------------------------------------------------------
// Proximity groups (the one mutual recursion of the engine)
// ---------------------------------------------------------------------

/// Containment bounds of a node run may be widened.
pub proof fn lemma_nodes_widen(ns: Seq<SpecNode>, lo: int, hi: int, lo2: int, hi2: int)
    requires
        nodes_within(ns, lo, hi),
        lo2 <= lo,
        hi <= hi2,
    ensures
        nodes_within(ns, lo2, hi2),
{
}

/// What parsing one group item at `pos` does to the failure record.
pub open spec fn t_gitem(input: Seq<u8>, pos: int, depth: int, st: TrackState) -> TrackState
    decreases input.len() - pos, 2int,
{
    let s1 = t_quoted(input, pos, st);
    if m_quoted(input, pos) is Hit {
        s1
    } else {
        let s2 = t_field(input, pos, s1);
        if m_field(input, pos) is Hit {
            s2
        } else {
            let s3 = t_proximity(input, pos, depth, s2);
            match m_proximity(input, pos, depth) {
                MRes::Depth => s3,
                MRes::Hit { end, nodes } => s3,
                MRes::Miss => t_term(input, pos, s3),
            }
        }
    }
}

/// What parsing the greedy item sequence from `pos` does to the failure
/// record.
pub open spec fn t_gitems(input: Seq<u8>, pos: int, depth: int, st: TrackState) -> TrackState
    decreases input.len() - pos, 3int,
{
    let k = skip_ws(input, pos);
    if !(pos <= k <= input.len()) {
        st
    } else {
        let s1 = t_gitem(input, k, depth, st);
        match m_gitem(input, k, depth) {
            MRes::Depth => s1,
            MRes::Miss => s1,
            MRes::Hit { end, nodes } => if k < end <= input.len() {
                t_gitems(input, end, depth, s1)
            } else {
                s1
            },
        }
    }
}

/// What parsing a `ProximityGroup` at `pos` does to the failure record.
pub open spec fn t_proximity(input: Seq<u8>, pos: int, depth: int, st: TrackState) -> TrackState
    decreases input.len() - pos, 0int,
{
    if !(0 <= pos < input.len() && input[pos] == LBRACKET) {
        r_step(st, pos, TokenId::OpenBracket)
    } else if depth <= 0 {
        st
    } else {
        let s1 = t_gitems(input, pos + 1, depth - 1, st);
        match m_gitems(input, pos + 1, depth - 1, Seq::empty()) {
            MRes::Depth => s1,
            MRes::Miss => s1,
            MRes::Hit { end, nodes } => {
                let j = skip_ws(input, end);
                if 0 <= j < input.len() && input[j] == RBRACKET {
                    s1
                } else {
                    r_step(s1, j, TokenId::CloseBracket)
                }
            },
        }
    }
}

/// Parses one item of a proximity group at `pos`: quoted literal, field
/// term, nested group, or bare term, by ordered choice.
#[verifier::rlimit(100)]
pub(crate) fn p_gitem(input: &[u8], pos: usize, depth: usize, st: &mut FailTrack) -> (r: Step)
    requires
        pos <= input@.len(),
        old(st).wf(input@.len() as int),
    ensures
        st_evolve(*old(st), *final(st), input@.len() as int),
        step_matches(r, m_gitem(input@, pos as int, depth as int), input@, pos as int, *final(st)),
        final(st)@ == t_gitem(input@, pos as int, depth as int, old(st)@),
        r matches Step::Hit(v, end) ==> pos < end && v@.len() == 1,
    decreases input@.len() - pos, 2int,
{
    match p_quoted(input, pos, st) {
        Step::Hit(v, e) => Step::Hit(v, e),
        Step::Depth => {
            proof {
                assert(false);
            }
            Step::Miss
        },
        Step::Miss => match p_field(input, pos, st) {
            Step::Hit(v, e) => Step::Hit(v, e),
            Step::Depth => {
                proof {
                    assert(false);
                }
                Step::Miss
            },
            Step::Miss => match p_proximity(input, pos, depth, st) {
                Step::Depth => Step::Depth,
                Step::Hit(v, e) => Step::Hit(v, e),
                Step::Miss => p_term(input, pos, st),
            },
        },
    }
}

/// Parses the greedy item sequence of a proximity group starting at
/// `pos`.  Never a miss: the sequence may be empty.
#[verifier::loop_isolation(false)]
#[verifier::rlimit(100)]
pub(crate) fn p_gitems(input: &[u8], pos: usize, depth: usize, st: &mut FailTrack) -> (r: Step)
    requires
        pos <= input@.len(),
        old(st).wf(input@.len() as int),
    ensures
        st_evolve(*old(st), *final(st), input@.len() as int),
        !(r matches Step::Miss),
        r matches Step::Hit(v, end) ==> ({
            &&& m_gitems(input@, pos as int, depth as int, Seq::empty()) == (MRes::Hit {
                end: end as int,
                nodes: deep_seq(v@),
            })
            &&& pos <= end <= input@.len()
            &&& nodes_wf(deep_seq(v@), input@)
            &&& nodes_within(deep_seq(v@), pos as int, end as int)
        }),
        r matches Step::Depth ==> m_gitems(input@, pos as int, depth as int, Seq::empty())
            is Depth,
        final(st)@ == t_gitems(input@, pos as int, depth as int, old(st)@),
    decreases input@.len() - pos, 3int,
{
    let ghost len = input@.len() as int;
    let ghost st0 = *st;
    let mut out: Vec<ParseNode> = Vec::new();
    let mut cur: usize = pos;
    proof {
        assert(deep_seq(out@) =~= Seq::<SpecNode>::empty());
    }
    loop
        invariant
            pos <= cur <= input@.len(),
            st.wf(len),
            st.pos >= st0.pos,
            st0.expected@.len() > 0 ==> st.expected@.len() > 0,
            m_gitems(input@, pos as int, depth as int, Seq::empty()) == m_gitems(
                input@,
                cur as int,
                depth as int,
                deep_seq(out@),
            ),
            t_gitems(input@, pos as int, depth as int, old(st)@) == t_gitems(
                input@,
                cur as int,
                depth as int,
                st@,
            ),
            nodes_wf(deep_seq(out@), input@),
            nodes_within(deep_seq(out@), pos as int, cur as int),
        decreases input@.len() - cur,
    {
        let k = e_skip_ws(input, cur);
        match p_gitem(input, k, depth, st) {
            Step::Depth => {
                return Step::Depth;
            },
            Step::Miss => {
                proof {
                    lemma_nodes_widen(deep_seq(out@), pos as int, cur as int, pos as int, k as int);
                }
                return Step::Hit(out, k);
            },
            Step::Hit(mut ns, e) => {
                proof {
                    lemma_deep_seq_concat(out@, ns@);
                    lemma_nodes_widen(deep_seq(out@), pos as int, cur as int, pos as int, k as int);
                    lemma_nodes_concat(
                        deep_seq(out@),
                        deep_seq(ns@),
                        input@,
                        pos as int,
                        k as int,
                        e as int,
                    );
                }
                out.append(&mut ns);
                cur = e;
            },
        }
    }
}

/// Parses a `ProximityGroup` at `pos`, spending one unit of the nesting
/// budget.
#[verifier::rlimit(100)]
pub(crate) fn p_proximity(input: &[u8], pos: usize, depth: usize, st: &mut FailTrack) -> (r: Step)
    requires
        pos <= input@.len(),
        old(st).wf(input@.len() as int),
    ensures
        st_evolve(*old(st), *final(st), input@.len() as int),
        step_matches(
            r,
            m_proximity(input@, pos as int, depth as int),
            input@,
            pos as int,
            *final(st),
        ),
        final(st)@ == t_proximity(input@, pos as int, depth as int, old(st)@),
        r matches Step::Hit(v, end) ==> pos < end && v@.len() == 1,
    decreases input@.len() - pos, 0int,
{
    let ghost len = input@.len() as int;
    if pos < input.len() && input[pos] == LBRACKET {
        if depth == 0 {
            return Step::Depth;
        }
        match p_gitems(input, pos + 1, depth - 1, st) {
            Step::Depth => Step::Depth,
            Step::Miss => {
                proof {
                    assert(false);
                }
                Step::Miss
            },
            Step::Hit(items, e) => {
                let j = e_skip_ws(input, e);
                if j < input.len() && input[j] == RBRACKET {
                    proof {
                        lemma_nodes_widen(
                            deep_seq(items@),
                            pos + 1,
                            e as int,
                            pos as int,
                            j + 1,
                        );
                    }
                    let n = make_node(input, RuleId::ProximityGroup, pos, j + 1, items);
                    proof {
                        assert(seq![n.deep()][0] == n.deep());
                    }
                    one(n, j + 1)
                } else {
                    st.record(j, TokenId::CloseBracket, Ghost(len));
                    Step::Miss
                }
            },
        }
    } else {
        st.record(pos, TokenId::OpenBracket, Ghost(len));
        Step::Miss
    }
}

// ---------------------------------------------------------------------
// Boolean expressions and entry rules
// ---------------------------------------------------------------------

/// What parsing one primary at `pos` does to the failure record.
pub open spec fn t_primary(input: Seq<u8>, pos: int, depth: int, st: TrackState) -> TrackState {
    let s1 = t_quoted(input, pos, st);
    if m_quoted(input, pos) is Hit {
        s1
    } else {
        let s2 = t_proximity(input, pos, depth, s1);
        match m_proximity(input, pos, depth) {
            MRes::Depth => s2,
            MRes::Hit { end, nodes } => s2,
            MRes::Miss => {
                let s3 = t_field(input, pos, s2);
                if m_field(input, pos) is Hit {
                    s3
                } else {
                    let s4 = t_range(input, pos, s3);
                    if m_range(input, pos) is Hit {
                        s4
                    } else {
                        let s5 = t_citation(input, pos, s4);
                        if m_citation(input, pos) is Hit {
                            s5
                        } else {
                            t_term(input, pos, s5)
                        }
                    }
                }
            },
        }
    }
}

/// What the greedy adjacency continuation from `e` does to the failure
/// record.
pub open spec fn t_adj_rest(input: Seq<u8>, e: int, depth: int, st: TrackState) -> TrackState
    decreases input.len() - e,
{
    let k = skip_ws(input, e);
    if !(e < k <= input.len()) {
        st
    } else {
        let s1 = t_primary(input, k, depth, st);
        match m_primary(input, k, depth) {
            MRes::Depth => s1,
            MRes::Miss => s1,
            MRes::Hit { end, nodes } => if k < end <= input.len() {
                t_adj_rest(input, end, depth, s1)
            } else {
                s1
            },
        }
    }
}

/// What parsing an adjacency group at `pos` does to the failure record.
pub open spec fn t_adj(input: Seq<u8>, pos: int, depth: int, st: TrackState) -> TrackState {
    let s1 = t_primary(input, pos, depth, st);
    match m_primary(input, pos, depth) {
        MRes::Depth => s1,
        MRes::Miss => s1,
        MRes::Hit { end, nodes } => t_adj_rest(input, end, depth, s1),
    }
}

/// What the greedy conjunction continuation from `e` does to the failure
/// record.
pub open spec fn t_andx_rest(input: Seq<u8>, e: int, depth: int, st: TrackState) -> TrackState
    decreases input.len() - e,
{
    let k = skip_ws(input, e);
    if 0 <= k < input.len() && input[k] == AMP {
        let m = skip_ws(input, k + 1);
        let s1 = t_adj(input, m, depth, st);
        match m_adj(input, m, depth) {
            MRes::Depth => s1,
            MRes::Miss => s1,
            MRes::Hit { end, nodes } => if e < end <= input.len() {
                t_andx_rest(input, end, depth, s1)
            } else {
                s1
            },
        }
    } else {
        st
    }
}

/// What parsing a conjunction at `pos` does to the failure record.
pub open spec fn t_andx(input: Seq<u8>, pos: int, depth: int, st: TrackState) -> TrackState {
    let s1 = t_adj(input, pos, depth, st);
    match m_adj(input, pos, depth) {
        MRes::Depth => s1,
        MRes::Miss => s1,
        MRes::Hit { end, nodes } => t_andx_rest(input, end, depth, s1),
    }
}

/// What the greedy disjunction continuation from `e` does to the failure
/// record.
pub open spec fn t_orx_rest(input: Seq<u8>, e: int, depth: int, st: TrackState) -> TrackState
    decreases input.len() - e,
{
    let k = skip_ws(input, e);
    if 0 <= k < input.len() && input[k] == PLUS {
        let m = skip_ws(input, k + 1);
        let s1 = t_andx(input, m, depth, st);
        match m_andx(input, m, depth) {
            MRes::Depth => s1,
            MRes::Miss => s1,
            MRes::Hit { end, nodes } => if e < end <= input.len() {
                t_orx_rest(input, end, depth, s1)
            } else {
                s1
            },
        }
    } else {
        st
    }
}

/// What parsing a `BooleanExpr` at `pos` does to the failure record.
pub open spec fn t_orx(input: Seq<u8>, pos: int, depth: int, st: TrackState) -> TrackState {
    let s1 = t_andx(input, pos, depth, st);
    match m_andx(input, pos, depth) {
        MRes::Depth => s1,
        MRes::Miss => s1,
        MRes::Hit { end, nodes } => t_orx_rest(input, end, depth, s1),
    }
}

/// Parses one primary of a boolean expression at `pos`, by ordered
/// choice: quoted literal, proximity group, field term, range, citation,
/// bare term.
#[verifier::rlimit(100)]
pub(crate) fn p_primary(input: &[u8], pos: usize, depth: usize, st: &mut FailTrack) -> (r: Step)
    requires
        pos <= input@.len(),
        old(st).wf(input@.len() as int),
    ensures
        st_evolve(*old(st), *final(st), input@.len() as int),
        step_matches(
            r,
            m_primary(input@, pos as int, depth as int),
            input@,
            pos as int,
            *final(st),
        ),
        final(st)@ == t_primary(input@, pos as int, depth as int, old(st)@),
        r matches Step::Hit(v, end) ==> pos < end && v@.len() == 1,
{
    match p_quoted(input, pos, st) {
        Step::Hit(v, e) => Step::Hit(v, e),
        Step::Depth => {
            proof {
                assert(false);
            }
            Step::Miss
        },
        Step::Miss => match p_proximity(input, pos, depth, st) {
            Step::Depth => Step::Depth,
            Step::Hit(v, e) => Step::Hit(v, e),
            Step::Miss => match p_field(input, pos, st) {
                Step::Hit(v, e) => Step::Hit(v, e),
                Step::Depth => {
                    proof {
                        assert(false);
                    }
                    Step::Miss
                },
                Step::Miss => match p_range(input, pos, st) {
                    Step::Hit(v, e) => Step::Hit(v, e),
                    Step::Depth => {
                        proof {
                            assert(false);
                        }
                        Step::Miss
                    },
                    Step::Miss => match p_citation(input, pos, st) {
                        Step::Hit(v, e) => Step::Hit(v, e),
                        Step::Depth => {
                            proof {
                                assert(false);
                            }
                            Step::Miss
                        },
                        Step::Miss => p_term(input, pos, st),
                    },
                },
            },
        },
    }
}

/// Parses an adjacency group at `pos`: one or more whitespace-separated
/// primaries.
#[verifier::loop_isolation(false)]
#[verifier::rlimit(100)]
pub(crate) fn p_adj(input: &[u8], pos: usize, depth: usize, st: &mut FailTrack) -> (r: Step)
    requires
        pos <= input@.len(),
        old(st).wf(input@.len() as int),
    ensures
        st_evolve(*old(st), *final(st), input@.len() as int),
        step_matches(r, m_adj(input@, pos as int, depth as int), input@, pos as int, *final(st)),
        final(st)@ == t_adj(input@, pos as int, depth as int, old(st)@),
        r matches Step::Hit(v, end) ==> pos < end,
{
    let mut out: Vec<ParseNode>;
    let mut cur: usize;
    match p_primary(input, pos, depth, st) {
        Step::Depth => {
            return Step::Depth;
        },
        Step::Miss => {
            return Step::Miss;
        },
        Step::Hit(v, e) => {
            out = v;
            cur = e;
        },
    }
    loop
        invariant
            pos < cur <= input@.len(),
            st.wf(input@.len() as int),
            st.pos >= old(st).pos,
            old(st).expected@.len() > 0 ==> st.expected@.len() > 0,
            m_adj(input@, pos as int, depth as int) == m_adj_rest(
                input@,
                cur as int,
                depth as int,
                deep_seq(out@),
            ),
            t_adj(input@, pos as int, depth as int, old(st)@) == t_adj_rest(
                input@,
                cur as int,
                depth as int,
                st@,
            ),
            nodes_wf(deep_seq(out@), input@),
            nodes_within(deep_seq(out@), pos as int, cur as int),
        decreases input@.len() - cur,
    {
        let k = e_skip_ws(input, cur);
        if k == cur {
            return Step::Hit(out, cur);
        }
        match p_primary(input, k, depth, st) {
            Step::Depth => {
                return Step::Depth;
            },
            Step::Miss => {
                return Step::Hit(out, cur);
            },
            Step::Hit(mut ns, e2) => {
                proof {
                    lemma_deep_seq_concat(out@, ns@);
                    lemma_nodes_widen(deep_seq(out@), pos as int, cur as int, pos as int, k as int);
                    lemma_nodes_concat(
                        deep_seq(out@),
                        deep_seq(ns@),
                        input@,
                        pos as int,
                        k as int,
                        e2 as int,
                    );
                }
                out.append(&mut ns);
                cur = e2;
            },
        }
    }
}

/// Parses a conjunction at `pos`: adjacency groups joined by `&`.
#[verifier::loop_isolation(false)]
#[verifier::rlimit(100)]
pub(crate) fn p_andx(input: &[u8], pos: usize, depth: usize, st: &mut FailTrack) -> (r: Step)
    requires
        pos <= input@.len(),
        old(st).wf(input@.len() as int),
    ensures
        st_evolve(*old(st), *final(st), input@.len() as int),
        step_matches(r, m_andx(input@, pos as int, depth as int), input@, pos as int, *final(st)),
        final(st)@ == t_andx(input@, pos as int, depth as int, old(st)@),
        r matches Step::Hit(v, end) ==> pos < end,
{
    let mut out: Vec<ParseNode>;
    let mut cur: usize;
    match p_adj(input, pos, depth, st) {
        Step::Depth => {
            return Step::Depth;
        },
        Step::Miss => {
            return Step::Miss;
        },
        Step::Hit(v, e) => {
            out = v;
            cur = e;
        },
    }
    loop
        invariant
            pos < cur <= input@.len(),
            st.wf(input@.len() as int),
            st.pos >= old(st).pos,
            old(st).expected@.len() > 0 ==> st.expected@.len() > 0,
            m_andx(input@, pos as int, depth as int) == m_andx_rest(
                input@,
                cur as int,
                depth as int,
                deep_seq(out@),
            ),
            t_andx(input@, pos as int, depth as int, old(st)@) == t_andx_rest(
                input@,
                cur as int,
                depth as int,
                st@,
            ),
            nodes_wf(deep_seq(out@), input@),
            nodes_within(deep_seq(out@), pos as int, cur as int),
        decreases input@.len() - cur,
    {
        let k = e_skip_ws(input, cur);
        if !(k < input.len() && input[k] == AMP) {
            return Step::Hit(out, cur);
        }
        let m = e_skip_ws(input, k + 1);
        match p_adj(input, m, depth, st) {
            Step::Depth => {
                return Step::Depth;
            },
            Step::Miss => {
                return Step::Hit(out, cur);
            },
            Step::Hit(mut ns, e2) => {
                proof {
                    lemma_deep_seq_concat(out@, ns@);
                    lemma_nodes_widen(deep_seq(out@), pos as int, cur as int, pos as int, m as int);
                    lemma_nodes_concat(
                        deep_seq(out@),
                        deep_seq(ns@),
                        input@,
                        pos as int,
                        m as int,
                        e2 as int,
                    );
                }
                out.append(&mut ns);
                cur = e2;
            },
        }
    }
}

/// Parses a `BooleanExpr` at `pos`: conjunctions joined by `+`.  Yields
/// one node spanning the whole expression.
#[verifier::loop_isolation(false)]
#[verifier::rlimit(100)]
pub(crate) fn p_orx(input: &[u8], pos: usize, depth: usize, st: &mut FailTrack) -> (r: Step)
    requires
        pos <= input@.len(),
        old(st).wf(input@.len() as int),
    ensures
        st_evolve(*old(st), *final(st), input@.len() as int),
        step_matches(r, m_orx(input@, pos as int, depth as int), input@, pos as int, *final(st)),
        final(st)@ == t_orx(input@, pos as int, depth as int, old(st)@),
        r matches Step::Hit(v, end) ==> pos < end && v@.len() == 1,
{
    let mut out: Vec<ParseNode>;
    let mut cur: usize;
    match p_andx(input, pos, depth, st) {
        Step::Depth => {
            return Step::Depth;
        },
        Step::Miss => {
            return Step::Miss;
        },
        Step::Hit(v, e) => {
            out = v;
            cur = e;
        },
    }
    loop
        invariant
            pos < cur <= input@.len(),
            st.wf(input@.len() as int),
            st.pos >= old(st).pos,
            old(st).expected@.len() > 0 ==> st.expected@.len() > 0,
            m_orx(input@, pos as int, depth as int) == (match m_orx_rest(
                input@,
                cur as int,
                depth as int,
                deep_seq(out@),
            ) {
                MRes::Depth => MRes::Depth,
                MRes::Miss => MRes::Miss,
                MRes::Hit { end: e2, nodes: all } => MRes::Hit {
                    end: e2,
                    nodes: seq![
                        spec_node(input@, RuleId::BooleanExpr, pos as int, e2, all),
                    ],
                },
            }),
            t_orx(input@, pos as int, depth as int, old(st)@) == t_orx_rest(
                input@,
                cur as int,
                depth as int,
                st@,
            ),
            nodes_wf(deep_seq(out@), input@),
            nodes_within(deep_seq(out@), pos as int, cur as int),
        decreases input@.len() - cur,
    {
        let k = e_skip_ws(input, cur);
        if !(k < input.len() && input[k] == PLUS) {
            let n = make_node(input, RuleId::BooleanExpr, pos, cur, out);
            proof {
                assert(seq![n.deep()][0] == n.deep());
            }
            return one(n, cur);
        }
        let m = e_skip_ws(input, k + 1);
        match p_andx(input, m, depth, st) {
            Step::Depth => {
                return Step::Depth;
            },
            Step::Miss => {
                let n = make_node(input, RuleId::BooleanExpr, pos, cur, out);
                proof {
                    assert(seq![n.deep()][0] == n.deep());
                }
                return one(n, cur);
            },
            Step::Hit(mut ns, e2) => {
                proof {
                    lemma_deep_seq_concat(out@, ns@);
                    lemma_nodes_widen(deep_seq(out@), pos as int, cur as int, pos as int, m as int);
                    lemma_nodes_concat(
                        deep_seq(out@),
                        deep_seq(ns@),
                        input@,
                        pos as int,
                        m as int,
                        e2 as int,
                    );
                }
                out.append(&mut ns);
                cur = e2;
            },
        }
    }
}

/// What parsing the `command` entry rule does to the failure record.
pub open spec fn t_command(input: Seq<u8>, limit: int, st: TrackState) -> TrackState {
    let i = skip_ws(input, 0);
    let s1 = t_orx(input, i, limit, st);
    match m_orx(input, i, limit) {
        MRes::Depth => s1,
        MRes::Miss => s1,
        MRes::Hit { end, nodes } => {
            let j = skip_ws(input, end);
            if j == input.len() {
                s1
            } else {
                r_step(s1, j, TokenId::EndOfInput)
            }
        },
    }
}

/// Parses the `command` entry rule against the whole input.
#[verifier::rlimit(100)]
pub(crate) fn p_command(input: &[u8], limit: usize, st: &mut FailTrack) -> (r: Step)
    requires
        old(st).wf(input@.len() as int),
    ensures
        st_evolve(*old(st), *final(st), input@.len() as int),
        step_matches(r, m_command(input@, limit as int), input@, 0, *final(st)),
        final(st)@ == t_command(input@, limit as int, old(st)@),
        r matches Step::Hit(v, end) ==> end == input@.len() && v@.len() == 1,
{
    let ghost len = input@.len() as int;
    let i = e_skip_ws(input, 0);
    match p_orx(input, i, limit, st) {
        Step::Depth => Step::Depth,
        Step::Miss => Step::Miss,
        Step::Hit(v, e) => {
            let j = e_skip_ws(input, e);
            if j == input.len() {
                proof {
                    lemma_nodes_widen(deep_seq(v@), i as int, e as int, 0, j as int);
                }
                let n = make_node(input, RuleId::Command, 0, j, v);
                proof {
                    assert(seq![n.deep()][0] == n.deep());
                }
                one(n, j)
            } else {
                st.record(j, TokenId::EndOfInput, Ghost(len));
                Step::Miss
            }
        },
    }
}

/// What taking the optional statement argument does to the failure
/// record.
pub open spec fn t_stmt_arg(input: Seq<u8>, e: int, st: TrackState) -> TrackState {
    let k = skip_ws(input, e);
    if k > e {
        t_term(input, k, st)
    } else {
        st
    }
}

/// Takes the directive's nodes and extends them with the optional
/// argument term, mirroring `m_stmt_arg`.
#[verifier::rlimit(100)]
fn p_stmt_arg(
    input: &[u8],
    e: usize,
    v: Vec<ParseNode>,
    Ghost(lo): Ghost<int>,
    st: &mut FailTrack,
) -> (r: (Vec<ParseNode>, usize))
    requires
        0 <= lo <= e <= input@.len(),
        old(st).wf(input@.len() as int),
        nodes_wf(deep_seq(v@), input@),
        nodes_within(deep_seq(v@), lo, e as int),
    ensures
        st_evolve(*old(st), *final(st), input@.len() as int),
        m_stmt_arg(input@, e as int, deep_seq(v@)) == (MRes::Hit {
            end: r.1 as int,
            nodes: deep_seq(r.0@),
        }),
        final(st)@ == t_stmt_arg(input@, e as int, old(st)@),
        e <= r.1 <= input@.len(),
        nodes_wf(deep_seq(r.0@), input@),
        nodes_within(deep_seq(r.0@), lo, r.1 as int),
{
    let mut out = v;
    let mut cur = e;
    let k = e_skip_ws(input, e);
    if k > e {
        match p_term(input, k, st) {
            Step::Hit(mut tv, e2) => {
                proof {
                    lemma_deep_seq_concat(out@, tv@);
                    lemma_nodes_widen(deep_seq(out@), lo, e as int, lo, k as int);
                    lemma_nodes_concat(
                        deep_seq(out@),
                        deep_seq(tv@),
                        input@,
                        lo,
                        k as int,
                        e2 as int,
                    );
                }
                out.append(&mut tv);
                cur = e2;
            },
            Step::Miss => {},
            Step::Depth => {
                proof {
                    assert(false);
                }
            },
        }
    }
    (out, cur)
}

/// What parsing the `statement` entry rule does to the failure record.
pub open spec fn t_statement(input: Seq<u8>, st: TrackState) -> TrackState {
    let i = skip_ws(input, 0);
    let s1 = t_directive(input, i, st);
    match m_directive(input, i) {
        MRes::Hit { end, nodes } => {
            let s2 = t_stmt_arg(input, end, s1);
            match m_stmt_arg(input, end, nodes) {
                MRes::Hit { end: ae, nodes: an } => {
                    let j = skip_ws(input, ae);
                    if j == input.len() {
                        s2
                    } else {
                        r_step(s2, j, TokenId::EndOfInput)
                    }
                },
                _ => s2,
            }
        },
        _ => s1,
    }
}

/// Parses the `statement` entry rule against the whole input.
#[verifier::rlimit(100)]
pub(crate) fn p_statement(input: &[u8], st: &mut FailTrack) -> (r: Step)
    requires
        old(st).wf(input@.len() as int),
    ensures
        st_evolve(*old(st), *final(st), input@.len() as int),
        step_matches(r, m_statement(input@), input@, 0, *final(st)),
        final(st)@ == t_statement(input@, old(st)@),
        r matches Step::Hit(v, end) ==> end == input@.len() && v@.len() == 1,
{
    let ghost len = input@.len() as int;
    let i = e_skip_ws(input, 0);
    match p_directive(input, i, st) {
        Step::Depth => {
            proof {
                assert(false);
            }
            Step::Miss
        },
        Step::Miss => Step::Miss,
        Step::Hit(v, e) => {
            let (out, cur) = p_stmt_arg(input, e, v, Ghost(i as int), st);
            let j = e_skip_ws(input, cur);
            if j == input.len() {
                proof {
                    lemma_nodes_widen(deep_seq(out@), i as int, cur as int, 0, j as int);
                }
                let n = make_node(input, RuleId::Statement, 0, j, out);
                proof {
                    assert(seq![n.deep()][0] == n.deep());
                }
                one(n, j)
            } else {
                st.record(j, TokenId::EndOfInput, Ghost(len));
                Step::Miss
            }
        },
    }
}

} // verus!
