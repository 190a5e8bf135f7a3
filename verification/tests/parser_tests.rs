use rss::ast::ASTNode;
use rss::driver::{scan_depth, skips_line, trim_ws};
use rss::num::{parse_int, render_int};
use rss::parser::parse;
use rss::token::tokenize;

#[test]
fn tokenize_splits_parens_and_atoms() {
    let toks = tokenize("(add 1 22)");
    assert_eq!(toks, vec!["(", "add", "1", "22", ")"]);
}

#[test]
fn tokenize_keeps_literal_delimiters() {
    let toks = tokenize("(print 'a (b)\tc')");
    assert_eq!(toks, vec!["(", "print", "'a (b)\tc'", ")"]);
}

#[test]
fn tokenize_flushes_a_trailing_partial_token() {
    let toks = tokenize("(add 12");
    assert_eq!(toks, vec!["(", "add", "12"]);
}

#[test]
fn parse_reports_consumed_tokens() {
    let toks = tokenize("(add 1 (mul 2 3))");
    let (node, consumed) = parse(&toks).unwrap();
    assert_eq!(consumed, toks.len());
    match node {
        ASTNode::Operator(op, operands) => {
            assert_eq!(op, "add");
            assert_eq!(operands.len(), 2);
            assert!(matches!(&operands[0], ASTNode::Value(v) if v == "1"));
            assert!(matches!(&operands[1], ASTNode::Operator(m, _) if m == "mul"));
        },
        _ => panic!("expected an operator node"),
    }
}

#[test]
fn parse_empty_parens_to_noop() {
    let toks = tokenize("()");
    let (node, consumed) = parse(&toks).unwrap();
    assert!(matches!(node, ASTNode::NoOp));
    assert_eq!(consumed, 2);
}

#[test]
fn parse_strips_string_delimiters() {
    let toks = tokenize("(print 'hi')");
    let (node, _) = parse(&toks).unwrap();
    match node {
        ASTNode::Operator(_, operands) => {
            assert!(matches!(&operands[0], ASTNode::StringValue(s) if s == "hi"));
        },
        _ => panic!("expected an operator node"),
    }
}

#[test]
fn parse_rejects_bad_input() {
    assert!(parse(&tokenize("add 1")).is_err());
    assert!(parse(&tokenize("(add 1")).is_err());
    assert!(parse(&Vec::new()).is_err());
}

#[test]
fn numbers_round_trip() {
    let cases: [i64; 8] = [0, 1, -1, 9, 10, -3007, i64::MAX, i64::MIN];
    for n in cases {
        assert_eq!(parse_int(&render_int(n)), Some(n));
    }
    assert_eq!(render_int(120), "120");
    assert_eq!(render_int(-5), "-5");
}

#[test]
fn parse_int_rejects_non_literals() {
    assert_eq!(parse_int(""), None);
    assert_eq!(parse_int("-"), None);
    assert_eq!(parse_int("12a"), None);
    assert_eq!(parse_int("1.5"), None);
    assert_eq!(parse_int("9223372036854775808"), None);
    assert_eq!(parse_int("-9223372036854775809"), None);
    assert_eq!(parse_int("007"), Some(7));
}

#[test]
fn driver_helpers() {
    assert_eq!(trim_ws("  (add 1) \t"), "(add 1)");
    assert!(skips_line(""));
    assert!(skips_line("// a comment"));
    assert!(!skips_line("(add 1)"));
    assert_eq!(scan_depth("(add (mul 1 2)"), 1);
    assert_eq!(scan_depth("))"), -2);
    // the counter is not literal-aware, on purpose: the quoted paren counts
    assert_eq!(scan_depth("(print '(')"), 1);
}
