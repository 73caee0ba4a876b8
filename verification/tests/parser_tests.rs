use quelle::parser::{parse, parse_with_limit, ParseFailure, ParseResult, DEFAULT_DEPTH_LIMIT};
use quelle::rules::{RuleId, TokenId};
use quelle::tree::ParseNode;

fn expect_success(r: ParseResult) -> ParseNode {
    match r {
        ParseResult::Success(n) => n,
        ParseResult::Failure(f) => panic!("expected success, got {:?}", f),
    }
}

fn expect_mismatch(r: ParseResult) -> quelle::diag::Diagnostic {
    match r {
        ParseResult::Failure(ParseFailure::GrammarMismatch(d)) => d,
        other => panic!("expected a grammar mismatch, got {:?}", other),
    }
}

fn node_eq(a: &ParseNode, b: &ParseNode) -> bool {
    a.rule == b.rule && a.text == b.text && a.children.len() == b.children.len()
        && a.children.iter().zip(b.children.iter()).all(|(x, y)| node_eq(x, y))
}

#[test]
fn empty_command_fails() {
    let d = expect_mismatch(parse(RuleId::Command, b""));
    assert_eq!(d.offset, 0);
    assert_eq!(d.line, 1);
    assert_eq!(d.column, 1);
    assert!(!d.expected.is_empty());
}

#[test]
fn statement_help_find() {
    let root = expect_success(parse(RuleId::Statement, b"@Help find"));
    assert_eq!(root.rule, RuleId::Statement);
    assert_eq!(root.text, b"@Help find".to_vec());
    assert_eq!(root.children.len(), 2);
    assert_eq!(root.children[0].rule, RuleId::Directive);
    assert_eq!(root.children[0].text, b"@Help".to_vec());
    assert_eq!(root.children[1].rule, RuleId::Term);
    assert_eq!(root.children[1].text, b"find".to_vec());
}

#[test]
fn command_disjunction_of_literal_and_term() {
    let root = expect_success(parse(RuleId::Command, b"\"foo\" + bar"));
    assert_eq!(root.rule, RuleId::Command);
    assert_eq!(root.text, b"\"foo\" + bar".to_vec());
    assert_eq!(root.children.len(), 1);
    let bexpr = &root.children[0];
    assert_eq!(bexpr.rule, RuleId::BooleanExpr);
    assert_eq!(bexpr.text, b"\"foo\" + bar".to_vec());
    assert_eq!(bexpr.children.len(), 2);
    assert_eq!(bexpr.children[0].rule, RuleId::QuotedLiteral);
    assert_eq!(bexpr.children[0].text, b"\"foo\"".to_vec());
    assert_eq!(bexpr.children[1].rule, RuleId::Term);
    assert_eq!(bexpr.children[1].text, b"bar".to_vec());
}

#[test]
fn unterminated_group_expects_closing_bracket_at_end() {
    let d = expect_mismatch(parse(RuleId::Command, b"[unterminated"));
    assert_eq!(d.offset, b"[unterminated".len());
    assert!(d.expected.contains(&TokenId::CloseBracket));
}

#[test]
fn nesting_one_past_the_limit_is_a_typed_failure() {
    let input: Vec<u8> = std::iter::repeat(b'[').take(1001).collect();
    match parse(RuleId::Command, &input) {
        ParseResult::Failure(ParseFailure::RecursionLimitExceeded) => {},
        other => panic!("expected the recursion limit failure, got {:?}", other),
    }
}

#[test]
fn nesting_at_the_limit_with_small_budget() {
    match parse_with_limit(RuleId::Command, b"[[[[a]]]]", 3) {
        ParseResult::Failure(ParseFailure::RecursionLimitExceeded) => {},
        other => panic!("expected the recursion limit failure, got {:?}", other),
    }
    let root = expect_success(parse_with_limit(RuleId::Command, b"[[[a]]]", 3));
    assert_eq!(root.text, b"[[[a]]]".to_vec());
    assert!(DEFAULT_DEPTH_LIMIT >= 1000);
}

#[test]
fn invalid_utf8_is_an_encoding_error() {
    match parse(RuleId::Command, &[0xff, 0xfe]) {
        ParseResult::Failure(ParseFailure::EncodingError) => {},
        other => panic!("expected an encoding error, got {:?}", other),
    }
    // an overlong encoding of '/' must be rejected, not parsed
    match parse(RuleId::Command, &[0xc0, 0xaf]) {
        ParseResult::Failure(ParseFailure::EncodingError) => {},
        other => panic!("expected an encoding error, got {:?}", other),
    }
    // a surrogate encoding is rejected
    match parse(RuleId::Command, &[0xed, 0xa0, 0x80]) {
        ParseResult::Failure(ParseFailure::EncodingError) => {},
        other => panic!("expected an encoding error, got {:?}", other),
    }
}

#[test]
fn multibyte_utf8_inside_terms_is_accepted() {
    let root = expect_success(parse(RuleId::Command, "caf\u{e9} + na\u{ef}ve".as_bytes()));
    let bexpr = &root.children[0];
    assert_eq!(bexpr.children.len(), 2);
    assert_eq!(bexpr.children[0].text, "caf\u{e9}".as_bytes().to_vec());
    assert_eq!(bexpr.children[1].text, "na\u{ef}ve".as_bytes().to_vec());
}

#[test]
fn success_root_text_covers_the_input() {
    let inputs: [&[u8]; 5] = [
        b"\"foo\" + bar",
        b"  a & b  ",
        b"[he \t said]",
        b"> xfile",
        b"genesis 1:1",
    ];
    for input in inputs {
        let root = expect_success(parse(RuleId::Command, input));
        assert_eq!(root.text, input.to_vec());
        assert_eq!(root.start, 0);
        assert_eq!(root.end, input.len());
    }
}

#[test]
fn reparsing_children_reproduces_equivalent_subtrees() {
    let root = expect_success(parse(RuleId::Command, b"\"foo\" + bar"));
    let bexpr = &root.children[0];
    for child in &bexpr.children {
        let again = expect_success(parse(child.rule, &child.text));
        assert_eq!(again.rule, child.rule);
        assert_eq!(again.text, child.text);
        assert_eq!(again.children.len(), child.children.len());
    }
}

#[test]
fn parsing_is_deterministic_across_calls() {
    let a = expect_success(parse(RuleId::Command, b"a&b + [x y] /f/&/g/"));
    let b = expect_success(parse(RuleId::Command, b"a&b + [x y] /f/&/g/"));
    assert!(node_eq(&a, &b));
}

#[test]
fn boolean_children_are_flat_and_ordered() {
    let root = expect_success(parse(RuleId::Command, b"a&b + c d"));
    let bexpr = &root.children[0];
    assert_eq!(bexpr.rule, RuleId::BooleanExpr);
    let texts: Vec<&[u8]> = bexpr.children.iter().map(|c| c.text.as_slice()).collect();
    assert_eq!(texts, vec![b"a" as &[u8], b"b", b"c", b"d"]);
}

#[test]
fn proximity_group_items_with_tab_whitespace() {
    let root = expect_success(parse(RuleId::Command, b"[he \t said]"));
    let bexpr = &root.children[0];
    assert_eq!(bexpr.children.len(), 1);
    let group = &bexpr.children[0];
    assert_eq!(group.rule, RuleId::ProximityGroup);
    assert_eq!(group.text, b"[he \t said]".to_vec());
    assert_eq!(group.children.len(), 2);
    assert_eq!(group.children[0].text, b"he".to_vec());
    assert_eq!(group.children[1].text, b"said".to_vec());
}

#[test]
fn whitespace_between_group_items_is_optional() {
    // documented choice: items may also sit directly next to one another
    let root = expect_success(parse(RuleId::Command, b"[a\"b\"]"));
    let group = &root.children[0].children[0];
    assert_eq!(group.rule, RuleId::ProximityGroup);
    assert_eq!(group.children.len(), 2);
    assert_eq!(group.children[0].text, b"a".to_vec());
    assert_eq!(group.children[1].rule, RuleId::QuotedLiteral);
    assert_eq!(group.children[1].text, b"\"b\"".to_vec());
}

#[test]
fn nested_proximity_groups() {
    let root = expect_success(parse(RuleId::Command, b"[a [b c]]"));
    let outer = &root.children[0].children[0];
    assert_eq!(outer.rule, RuleId::ProximityGroup);
    assert_eq!(outer.children.len(), 2);
    assert_eq!(outer.children[1].rule, RuleId::ProximityGroup);
    assert_eq!(outer.children[1].text, b"[b c]".to_vec());
}

#[test]
fn field_restricted_term_chain() {
    let root = expect_success(parse(RuleId::FieldRestrictedTerm, b"/pronoun/&/3p/"));
    assert_eq!(root.rule, RuleId::FieldRestrictedTerm);
    assert_eq!(root.text, b"/pronoun/&/3p/".to_vec());
    let inside = expect_success(parse(RuleId::Command, b"x /pronoun/&/3p/"));
    let bexpr = &inside.children[0];
    assert_eq!(bexpr.children.len(), 2);
    assert_eq!(bexpr.children[1].rule, RuleId::FieldRestrictedTerm);
    assert_eq!(bexpr.children[1].text, b"/pronoun/&/3p/".to_vec());
}

#[test]
fn range_and_citation() {
    let range = expect_success(parse(RuleId::RangeExpr, b"> xfile"));
    assert_eq!(range.rule, RuleId::RangeExpr);
    assert_eq!(range.text, b"> xfile".to_vec());
    let cite = expect_success(parse(RuleId::CitationRef, b"genesis 1:1"));
    assert_eq!(cite.rule, RuleId::CitationRef);
    assert_eq!(cite.text, b"genesis 1:1".to_vec());
    let root = expect_success(parse(RuleId::Command, b"a > xfile < genesis 1:1"));
    let bexpr = &root.children[0];
    let rules: Vec<RuleId> = bexpr.children.iter().map(|c| c.rule).collect();
    assert_eq!(
        rules,
        vec![RuleId::Term, RuleId::RangeExpr, RuleId::RangeExpr],
    );
    assert_eq!(bexpr.children[2].text, b"< genesis 1:1".to_vec());
}

#[test]
fn quoted_literal_escapes() {
    let root = expect_success(parse(RuleId::QuotedLiteral, b"\"a\\\"b\""));
    assert_eq!(root.text, b"\"a\\\"b\"".to_vec());
    // trailing backslash leaves the literal unterminated
    let d = expect_mismatch(parse(RuleId::QuotedLiteral, b"\"abc\\"));
    assert!(d.expected.contains(&TokenId::CloseQuote));
    assert_eq!(d.offset, 5);
}

#[test]
fn directive_forms() {
    let d = expect_success(parse(RuleId::Directive, b"@Help"));
    assert_eq!(d.rule, RuleId::Directive);
    let bare = expect_success(parse(RuleId::Statement, b"@Help"));
    assert_eq!(bare.children.len(), 1);
    expect_mismatch(parse(RuleId::Statement, b"@Help find extra"));
    let no_name = expect_mismatch(parse(RuleId::Statement, b"@ x"));
    assert!(no_name.expected.contains(&TokenId::DirectiveName));
    let no_at = expect_mismatch(parse(RuleId::Statement, b"Help"));
    assert!(no_at.expected.contains(&TokenId::AtSign));
}

#[test]
fn diagnostic_position_line_and_column() {
    let d = expect_mismatch(parse(RuleId::Command, b"foo\n[bar"));
    assert_eq!(d.offset, 8);
    assert_eq!(d.line, 2);
    assert_eq!(d.column, 5);
    assert!(d.expected.contains(&TokenId::CloseBracket));
}

#[test]
fn diagnostic_message_is_exactly_rendered() {
    let d = expect_mismatch(parse(RuleId::Command, b""));
    assert_eq!(
        d.expected,
        vec![
            TokenId::OpenQuote,
            TokenId::OpenBracket,
            TokenId::OpenSlash,
            TokenId::RangeOp,
            TokenId::Word,
            TokenId::TermToken,
        ],
    );
    assert_eq!(
        d.message,
        b"parse error at line 1, column 1: expected opening quote, opening bracket, \
opening slash, range operator, word, term"
            .to_vec(),
    );
}

#[test]
fn diagnostics_are_deterministic() {
    let d1 = expect_mismatch(parse(RuleId::Command, b"[x + "));
    let d2 = expect_mismatch(parse(RuleId::Command, b"[x + "));
    assert_eq!(d1.offset, d2.offset);
    assert_eq!(d1.expected, d2.expected);
    assert_eq!(d1.message, d2.message);
}

#[test]
fn entry_rules_are_mutually_exclusive() {
    expect_mismatch(parse(RuleId::Command, b"@Help find"));
    expect_mismatch(parse(RuleId::Statement, b"\"foo\" + bar"));
}

#[test]
fn rule_names_are_stable() {
    assert_eq!(RuleId::Statement.name(), "statement");
    assert_eq!(RuleId::Command.name(), "command");
    assert_eq!(RuleId::QuotedLiteral.name(), "QuotedLiteral");
    assert_eq!(RuleId::ProximityGroup.name(), "ProximityGroup");
}

#[test]
fn child_spans_nest_within_parents() {
    let root = expect_success(parse(RuleId::Command, b"  \"foo\" + [a b]  "));
    fn check(n: &ParseNode) {
        assert!(n.start <= n.end);
        let mut last_end = n.start;
        for c in &n.children {
            assert!(n.start <= c.start && c.end <= n.end);
            assert!(last_end <= c.start);
            last_end = c.end;
            check(c);
        }
    }
    check(&root);
}

#[test]
fn diagnostic_message_with_two_digit_column() {
    let d = expect_mismatch(parse(RuleId::Command, b"aaaaaaaaaaa ["));
    assert_eq!(d.offset, 13);
    assert_eq!(d.line, 1);
    assert_eq!(d.column, 14);
    assert_eq!(
        d.message,
        b"parse error at line 1, column 14: expected opening quote, opening slash, \
opening bracket, term, closing bracket"
            .to_vec(),
    );
}
