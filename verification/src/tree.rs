//! The immutable parse tree: executable nodes and their mathematical form.

use vstd::prelude::*;
use crate::rules::RuleId;

verus! {

/// Mathematical form of a parse node: a rule identifier, a span into the
/// original input, the matched bytes, and the ordered children.
pub ghost struct SpecNode {
    pub rule: RuleId,
    pub start: int,
    pub end: int,
    pub text: Seq<u8>,
    pub children: Seq<SpecNode>,
}

impl SpecNode {
    /// Well-formedness of a node tree against the original input: the span
    /// lies inside the input, the text is the exact subrange of the input
    /// that the span names, every child span is contained in the parent
    /// span, sibling spans are ordered left to right and never overlap,
    /// and the children are themselves well formed.
    #[verifier::opaque]
    pub open spec fn wf(self, input: Seq<u8>) -> bool
        decreases self,
    {
        &&& 0 <= self.start <= self.end <= input.len()
        &&& self.text == input.subrange(self.start, self.end)
        &&& forall|i: int|
            0 <= i < self.children.len() ==> (#[trigger] self.children[i]).wf(input)
        &&& forall|i: int|
            0 <= i < self.children.len() ==> self.start <= (#[trigger] self.children[i]).start
                && self.children[i].end <= self.end
        &&& forall|i: int|
            0 <= i && i + 1 < self.children.len() ==> (#[trigger] self.children[i]).end
                <= self.children[i + 1].start
    }
}

/// A childless node of the mathematical tree covering `input[start..end]`.
pub open spec fn spec_leaf(input: Seq<u8>, rule: RuleId, start: int, end: int) -> SpecNode {
    SpecNode { rule, start, end, text: input.subrange(start, end), children: Seq::empty() }
}

/// A node of the mathematical tree with the given children.
pub open spec fn spec_node(
    input: Seq<u8>,
    rule: RuleId,
    start: int,
    end: int,
    children: Seq<SpecNode>,
) -> SpecNode {
    SpecNode { rule, start, end, text: input.subrange(start, end), children }
}

/// Output unit of a successful match: rule identifier, span, the exact
/// matched substring, and the non-silent sub-matches in match order.
/// Nodes are immutable once built.
#[derive(Debug)]
pub struct ParseNode {
    /// Identifier of the rule that produced this node.
    pub rule: RuleId,
    /// Byte offset of the first byte of the match.
    pub start: usize,
    /// Byte offset one past the last byte of the match.
    pub end: usize,
    /// The exact matched bytes, `input[start..end]`.
    pub text: Vec<u8>,
    /// Children, in left-to-right match order.
    pub children: Vec<ParseNode>,
}

impl ParseNode {
    /// The mathematical form of this node and of all of its descendants.
    pub open spec fn deep(self) -> SpecNode
        decreases self,
    {
        SpecNode {
            rule: self.rule,
            start: self.start as int,
            end: self.end as int,
            text: self.text@,
            children: Seq::new(
                self.children@.len(),
                |i: int|
                    {
                        if 0 <= i < self.children@.len() {
                            proof {
                                assert(decreases_to!(self => self.children));
                                assert(decreases_to!(self.children => self.children@));
                                assert(decreases_to!(self.children@ => self.children@[i]));
                            }
                            self.children@[i].deep()
                        } else {
                            SpecNode {
                                rule: self.rule,
                                start: 0,
                                end: 0,
                                text: Seq::empty(),
                                children: Seq::empty(),
                            }
                        }
                    },
            ),
        }
    }
}

} // verus!
