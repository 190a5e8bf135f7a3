//! Recursive-descent parsing of a token sequence into a syntax tree.
//!
//! Grammar: `form := '(' OPERATOR operand* ')'`; an operand is a nested
//! form, a quoted string literal or a bare atom. The empty form `()`
//! parses to `NoOp`. Parsing returns the node together with the position
//! right after it, so a caller parsing sibling operands can resume.

use vstd::prelude::*;
use crate::ast::{ASTNode, AstV, ast_view_seq, lemma_ast_view_seq};
use crate::strutil::str_eq;
use crate::token::strs_view;
use crate::value::{ErrV, ErrorHandler};

verus! {

/// Whether a token is a quoted string literal: both delimiters present.
pub open spec fn is_quoted(t: Seq<char>) -> bool {
    t.len() >= 2 && t[0] == '\'' && t[t.len() - 1] == '\''
}

/// What parsing one form starting at `at` yields: the node and the
/// position right after it, or a syntax error.
pub open spec fn spec_parse(toks: Seq<Seq<char>>, at: int) -> Result<(AstV, int), ErrV>
    decreases toks.len() - at, 0int,
{
    if at < 0 || at >= toks.len() {
        Err(ErrV::ParseError("Empty expression"@))
    } else if toks[at] != "("@ {
        Err(ErrV::ParseError("Expected '('. Good luck!"@))
    } else if at + 1 < toks.len() && toks[at + 1] == ")"@ {
        Ok((AstV::NoOp, at + 2))
    } else if at + 2 > toks.len() {
        Err(ErrV::ParseError("Unexpected end of input"@))
    } else {
        let operator = toks[at + 1];
        match spec_parse_operands(toks, at + 2) {
            Err(e) => Err(e),
            Ok((operands, j)) => if j < toks.len() && toks[j] == ")"@ {
                Ok((AstV::Op(operator, operands), j + 1))
            } else {
                Err(ErrV::ParseError("Expected ')'. Good luck!"@))
            },
        }
    }
}

/// The operands read from `at` up to the next `)` or the end of input.
pub open spec fn spec_parse_operands(toks: Seq<Seq<char>>, at: int) -> Result<
    (Seq<AstV>, int),
    ErrV,
>
    decreases toks.len() - at, 1int,
{
    if at < 0 || at >= toks.len() || toks[at] == ")"@ {
        Ok((Seq::empty(), at))
    } else if toks[at] == "("@ {
        match spec_parse(toks, at) {
            Err(e) => Err(e),
            Ok((node, at2)) => {
                // a parsed form always moves forward and stays inside the
                // input; the guard keeps the recursion well-founded
                let at3 = if at < at2 <= toks.len() {
                    at2
                } else {
                    at + 1
                };
                match spec_parse_operands(toks, at3) {
                    Err(e) => Err(e),
                    Ok((rest, j)) => Ok((seq![node] + rest, j)),
                }
            },
        }
    } else {
        let node = if is_quoted(toks[at]) {
            AstV::Str(toks[at].subrange(1, toks[at].len() - 1))
        } else {
            AstV::Val(toks[at])
        };
        match spec_parse_operands(toks, at + 1) {
            Err(e) => Err(e),
            Ok((rest, j)) => Ok((seq![node] + rest, j)),
        }
    }
}

/// A successfully parsed form covers at least its two parentheses and
/// never runs past the input.
pub proof fn lemma_spec_parse_advances(toks: Seq<Seq<char>>, at: int)
    ensures
        spec_parse(toks, at) matches Ok((n, nx)) ==> at + 2 <= nx <= toks.len(),
    decreases toks.len() - at, 0int,
{
    if 0 <= at && at < toks.len() && toks[at] == "("@ {
        if !(at + 1 < toks.len() && toks[at + 1] == ")"@) && at + 2 <= toks.len() {
            lemma_spec_parse_operands_bounds(toks, at + 2);
        }
    }
}

/// Reading operands never moves backwards nor past the input.
pub proof fn lemma_spec_parse_operands_bounds(toks: Seq<Seq<char>>, at: int)
    requires
        0 <= at <= toks.len(),
    ensures
        spec_parse_operands(toks, at) matches Ok((ops, j)) ==> at <= j <= toks.len(),
    decreases toks.len() - at, 1int,
{
    if at < toks.len() && toks[at] != ")"@ {
        if toks[at] == "("@ {
            lemma_spec_parse_advances(toks, at);
            match spec_parse(toks, at) {
                Ok((node, at2)) => {
                    let at3 = if at < at2 <= toks.len() {
                        at2
                    } else {
                        at + 1
                    };
                    lemma_spec_parse_operands_bounds(toks, at3);
                },
                Err(_) => {},
            }
        } else {
            lemma_spec_parse_operands_bounds(toks, at + 1);
        }
    }
}

/// How an exec parse result relates to the specified one.
pub open spec fn parse_result_matches(
    r: Result<(ASTNode, usize), ErrorHandler>,
    s: Result<(AstV, int), ErrV>,
) -> bool {
    match (r, s) {
        (Ok((node, nx)), Ok((nv, nxv))) => node@ == nv && nx == nxv,
        (Err(e), Err(ev)) => e@ == ev,
        _ => false,
    }
}

/// Parses the form that starts at `at`.
fn parse_at(tokens: &[String], at: usize) -> (r: Result<(ASTNode, usize), ErrorHandler>)
    ensures
        parse_result_matches(r, spec_parse(strs_view(tokens@), at as int)),
    decreases tokens@.len() - at, 0int,
{
    let ghost toks = strs_view(tokens@);
    let n = tokens.len();
    if at >= n {
        return Err(ErrorHandler::ParseError("Empty expression".to_owned()));
    }
    if !str_eq(tokens[at].as_str(), "(") {
        return Err(ErrorHandler::ParseError("Expected '('. Good luck!".to_owned()));
    }
    if at + 1 < n && str_eq(tokens[at + 1].as_str(), ")") {
        return Ok((ASTNode::NoOp, at + 2));
    }
    if n - at < 2 {
        return Err(ErrorHandler::ParseError("Unexpected end of input".to_owned()));
    }
    let operator = tokens[at + 1].clone();
    match parse_operands_at(tokens, at + 2) {
        Err(e) => Err(e),
        Ok((operands, j)) => {
            if j < n && str_eq(tokens[j].as_str(), ")") {
                let node = ASTNode::Operator(operator, operands);
                proof {
                    assert(node@ == AstV::Op(operator@, ast_view_seq(operands@)));
                }
                Ok((node, j + 1))
            } else {
                Err(ErrorHandler::ParseError("Expected ')'. Good luck!".to_owned()))
            }
        },
    }
}

/// How an exec operand list relates to the specified one.
pub open spec fn operands_result_matches(
    r: Result<(Vec<ASTNode>, usize), ErrorHandler>,
    s: Result<(Seq<AstV>, int), ErrV>,
) -> bool {
    match (r, s) {
        (Ok((ops, j)), Ok((opsv, jv))) => ast_view_seq(ops@) == opsv && j == jv,
        (Err(e), Err(ev)) => e@ == ev,
        _ => false,
    }
}

/// Reads sibling operands until a `)` or the end of the input.
fn parse_operands_at(tokens: &[String], at: usize) -> (r: Result<
    (Vec<ASTNode>, usize),
    ErrorHandler,
>)
    ensures
        operands_result_matches(r, spec_parse_operands(strs_view(tokens@), at as int)),
    decreases tokens@.len() - at, 1int,
{
    let ghost toks = strs_view(tokens@);
    let n = tokens.len();
    if at >= n || str_eq(tokens[at].as_str(), ")") {
        let v: Vec<ASTNode> = Vec::new();
        proof {
            assert(ast_view_seq(v@) =~= Seq::<AstV>::empty());
        }
        return Ok((v, at));
    }
    if str_eq(tokens[at].as_str(), "(") {
        let (node, at2) = match parse_at(tokens, at) {
            Ok(p) => p,
            Err(e) => {
                return Err(e);
            },
        };
        proof {
            lemma_spec_parse_advances(toks, at as int);
        }
        match parse_operands_at(tokens, at2) {
            Err(e) => Err(e),
            Ok((rest, j)) => {
                let ghost nodeg = node;
                let ghost restg = rest@;
                let mut v: Vec<ASTNode> = Vec::new();
                v.push(node);
                let mut rest = rest;
                v.append(&mut rest);
                proof {
                    assert(v@ =~= seq![nodeg] + restg);
                    lemma_cons_view(nodeg, restg, v@);
                }
                Ok((v, j))
            },
        }
    } else {
        let node = atom_node(&tokens[at]);
        match parse_operands_at(tokens, at + 1) {
            Err(e) => Err(e),
            Ok((rest, j)) => {
                let ghost nodeg = node;
                let ghost restg = rest@;
                let mut v: Vec<ASTNode> = Vec::new();
                v.push(node);
                let mut rest = rest;
                v.append(&mut rest);
                proof {
                    assert(v@ =~= seq![nodeg] + restg);
                    lemma_cons_view(nodeg, restg, v@);
                }
                Ok((v, j))
            },
        }
    }
}

/// Putting a node in front of a list of operands puts its shape in front
/// of their shapes.
proof fn lemma_cons_view(node: ASTNode, rest: Seq<ASTNode>, v: Seq<ASTNode>)
    requires
        v == seq![node] + rest,
    ensures
        ast_view_seq(v) == seq![crate::ast::ast_view(node)] + ast_view_seq(rest),
{
    assert(v.len() == rest.len() + 1);
    assert(v[0] == node);
    assert(v.subrange(1, v.len() as int) =~= rest);
    assert(seq![crate::ast::ast_view(node)] + ast_view_seq(rest) =~= ast_view_seq(v));
}

/// Turns one non-paren token into its node: a quoted atom becomes a
/// string literal with the delimiters stripped, anything else a plain
/// value atom.
fn atom_node(t: &String) -> (node: ASTNode)
    ensures
        node@ == (if is_quoted(t@) {
            AstV::Str(t@.subrange(1, t@.len() - 1))
        } else {
            AstV::Val(t@)
        }),
{
    let n = t.as_str().unicode_len();
    if n >= 2 && t.as_str().get_char(0) == '\'' && t.as_str().get_char(n - 1) == '\'' {
        let inner = t.as_str().substring_char(1, n - 1).to_owned();
        ASTNode::StringValue(inner)
    } else {
        ASTNode::Value(t.clone())
    }
}

/// Parses the first complete form held in the tokens, returning the node
/// and the count of tokens consumed.
pub fn parse(tokens: &[String]) -> (r: Result<(ASTNode, usize), ErrorHandler>)
    ensures
        parse_result_matches(r, spec_parse(strs_view(tokens@), 0)),
{
    parse_at(tokens, 0)
}

} // verus!
