//! The closed set of rule identifiers of the grammar, and the token
//! identifiers that a diagnostic's expected set may name.

use vstd::prelude::*;

verus! {

/// Stable identifier of a grammar rule.  Consumers of a parse tree match on
/// these identifiers; they are decoupled from any display formatting.
#[derive(Clone, Copy, Debug, PartialEq, Eq, Structural)]
pub enum RuleId {
    /// Entry rule: an administrative directive statement.
    Statement,
    /// Entry rule: a boolean search query.
    Command,
    /// A boolean combination of primaries joined by `+`, `&` and adjacency.
    BooleanExpr,
    /// A `"`-delimited literal with backslash escapes.
    QuotedLiteral,
    /// A `[` ... `]` group asserting positional proximity of its items.
    ProximityGroup,
    /// A `/term/` field constraint, optionally chained with `&`.
    FieldRestrictedTerm,
    /// A `>` or `<` prefix applied to a target token.
    RangeExpr,
    /// A word followed by a numeric `chapter:verse` pattern.
    CitationRef,
    /// A bare term token.
    Term,
    /// `@` followed by a directive name.
    Directive,
}

impl RuleId {
    /// Display name of the rule, used when rendering results.
    pub fn name(self) -> (r: &'static str)
        ensures
            r@ == self.spec_name(),
    {
        proof {
            reveal_strlit("statement");
            reveal_strlit("command");
            reveal_strlit("BooleanExpr");
            reveal_strlit("QuotedLiteral");
            reveal_strlit("ProximityGroup");
            reveal_strlit("FieldRestrictedTerm");
            reveal_strlit("RangeExpr");
            reveal_strlit("CitationRef");
            reveal_strlit("Term");
            reveal_strlit("Directive");
        }
        match self {
            RuleId::Statement => "statement",
            RuleId::Command => "command",
            RuleId::BooleanExpr => "BooleanExpr",
            RuleId::QuotedLiteral => "QuotedLiteral",
            RuleId::ProximityGroup => "ProximityGroup",
            RuleId::FieldRestrictedTerm => "FieldRestrictedTerm",
            RuleId::RangeExpr => "RangeExpr",
            RuleId::CitationRef => "CitationRef",
            RuleId::Term => "Term",
            RuleId::Directive => "Directive",
        }
    }

    /// The display name, as a mathematical character sequence.
    pub open spec fn spec_name(self) -> Seq<char> {
        match self {
            RuleId::Statement => "statement"@,
            RuleId::Command => "command"@,
            RuleId::BooleanExpr => "BooleanExpr"@,
            RuleId::QuotedLiteral => "QuotedLiteral"@,
            RuleId::ProximityGroup => "ProximityGroup"@,
            RuleId::FieldRestrictedTerm => "FieldRestrictedTerm"@,
            RuleId::RangeExpr => "RangeExpr"@,
            RuleId::CitationRef => "CitationRef"@,
            RuleId::Term => "Term"@,
            RuleId::Directive => "Directive"@,
        }
    }
}

/// Identifier of a token that the engine was attempting when a position
/// failed to parse; diagnostics carry a deduplicated set of these.
#[derive(Clone, Copy, Debug, PartialEq, Eq, Structural)]
pub enum TokenId {
    /// A bare term token was expected.
    TermToken,
    /// The opening `"` of a quoted literal.
    OpenQuote,
    /// The closing `"` of a quoted literal.
    CloseQuote,
    /// The opening `[` of a proximity group.
    OpenBracket,
    /// The closing `]` of a proximity group.
    CloseBracket,
    /// The opening `/` of a field-restricted term.
    OpenSlash,
    /// The closing `/` of a field-restricted term.
    CloseSlash,
    /// The `>` or `<` of a range expression.
    RangeOp,
    /// The alphabetic word of a citation.
    Word,
    /// Separating whitespace.
    Whitespace,
    /// A run of decimal digits.
    Digits,
    /// The `:` between chapter and verse of a citation.
    Colon,
    /// The `@` that introduces a directive.
    AtSign,
    /// The alphabetic name of a directive.
    DirectiveName,
    /// End of input.
    EndOfInput,
}

} // verus!
