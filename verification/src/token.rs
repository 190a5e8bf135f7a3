//! Cutting the text of one form into lexical tokens.
//!
//! `(` and `)` are single-character tokens unless inside a string literal;
//! a single quote toggles string-literal mode, and the emitted literal token
//! keeps both delimiters; outside a literal, space, tab and newline end the
//! current token; any trailing partial token is flushed at end of input.
//! No balance checking happens here.

use vstd::prelude::*;
use crate::strutil::{chars_to_string, push_char};

verus! {

/// The character sequences of a sequence of strings.
pub open spec fn strs_view(ss: Seq<String>) -> Seq<Seq<char>> {
    ss.map_values(|t: String| t@)
}

/// What the current token contributes when it is flushed.
pub open spec fn flush_tok(cur: Seq<char>) -> Seq<Seq<char>> {
    if cur.len() > 0 {
        seq![cur]
    } else {
        Seq::empty()
    }
}

/// The tokens still to come, reading from position `i` with the pending
/// token `cur` and string-literal mode `in_str`.
pub open spec fn spec_tokenize_from(s: Seq<char>, i: int, cur: Seq<char>, in_str: bool) -> Seq<
    Seq<char>,
>
    decreases s.len() - i,
{
    if i < 0 || i >= s.len() {
        flush_tok(cur)
    } else {
        let c = s[i];
        if (c == '(' || c == ')') && !in_str {
            flush_tok(cur) + seq![seq![c]] + spec_tokenize_from(s, i + 1, Seq::empty(), false)
        } else if c == '\'' {
            if in_str {
                seq![cur.push(c)] + spec_tokenize_from(s, i + 1, Seq::empty(), false)
            } else {
                flush_tok(cur) + spec_tokenize_from(s, i + 1, seq![c], true)
            }
        } else if (c == ' ' || c == '\n' || c == '\t') && !in_str {
            flush_tok(cur) + spec_tokenize_from(s, i + 1, Seq::empty(), false)
        } else {
            spec_tokenize_from(s, i + 1, cur.push(c), in_str)
        }
    }
}

/// The token sequence of a whole text.
pub open spec fn spec_tokenize(s: Seq<char>) -> Seq<Seq<char>> {
    spec_tokenize_from(s, 0, Seq::empty(), false)
}

fn char_to_string(c: char) -> (s: String)
    ensures
        s@ == seq![c],
{
    let mut s = String::new();
    push_char(&mut s, c);
    proof {
        assert(s@ =~= seq![c]);
    }
    s
}

/// Converts the text of one form into its ordered token sequence.
pub fn tokenize(expr: &str) -> (tokens: Vec<String>)
    ensures
        strs_view(tokens@) == spec_tokenize(expr@),
{
    let n = expr.unicode_len();
    let mut tokens: Vec<String> = Vec::new();
    let mut cur: Vec<char> = Vec::new();
    let mut in_str = false;
    let mut i: usize = 0;
    proof {
        assert(strs_view(tokens@) =~= Seq::<Seq<char>>::empty());
        assert(spec_tokenize(expr@) =~= Seq::<Seq<char>>::empty() + spec_tokenize_from(
            expr@,
            0,
            cur@,
            false,
        ));
    }
    while i < n
        invariant
            i <= n,
            n == expr@.len(),
            spec_tokenize(expr@) == strs_view(tokens@) + spec_tokenize_from(
                expr@,
                i as int,
                cur@,
                in_str,
            ),
        decreases n - i,
    {
        let c = expr.get_char(i);
        let ghost toks0 = strs_view(tokens@);
        let ghost cur0 = cur@;
        if (c == '(' || c == ')') && !in_str {
            if cur.len() > 0 {
                let t = chars_to_string(&cur);
                tokens.push(t);
                cur.clear();
            }
            let t = char_to_string(c);
            tokens.push(t);
            proof {
                assert(strs_view(tokens@) =~= toks0 + flush_tok(cur0) + seq![seq![c]]);
                assert(toks0 + (flush_tok(cur0) + seq![seq![c]] + spec_tokenize_from(
                    expr@,
                    i + 1,
                    Seq::empty(),
                    false,
                )) =~= (toks0 + flush_tok(cur0) + seq![seq![c]]) + spec_tokenize_from(
                    expr@,
                    i + 1,
                    Seq::empty(),
                    false,
                ));
                assert(cur@ =~= Seq::<char>::empty());
            }
        } else if c == '\'' {
            if in_str {
                cur.push(c);
                let t = chars_to_string(&cur);
                tokens.push(t);
                cur.clear();
                in_str = false;
                proof {
                    assert(strs_view(tokens@) =~= toks0 + seq![cur0.push(c)]);
                    assert(toks0 + (seq![cur0.push(c)] + spec_tokenize_from(
                        expr@,
                        i + 1,
                        Seq::empty(),
                        false,
                    )) =~= (toks0 + seq![cur0.push(c)]) + spec_tokenize_from(
                        expr@,
                        i + 1,
                        Seq::empty(),
                        false,
                    ));
                    assert(cur@ =~= Seq::<char>::empty());
                }
            } else {
                if cur.len() > 0 {
                    let t = chars_to_string(&cur);
                    tokens.push(t);
                    cur.clear();
                }
                cur.push(c);
                in_str = true;
                proof {
                    assert(strs_view(tokens@) =~= toks0 + flush_tok(cur0));
                    assert(toks0 + (flush_tok(cur0) + spec_tokenize_from(expr@, i + 1, seq![c], true))
                        =~= (toks0 + flush_tok(cur0)) + spec_tokenize_from(
                        expr@,
                        i + 1,
                        seq![c],
                        true,
                    ));
                    assert(cur@ =~= seq![c]);
                }
            }
        } else if (c == ' ' || c == '\n' || c == '\t') && !in_str {
            if cur.len() > 0 {
                let t = chars_to_string(&cur);
                tokens.push(t);
                cur.clear();
            }
            proof {
                assert(strs_view(tokens@) =~= toks0 + flush_tok(cur0));
                assert(toks0 + (flush_tok(cur0) + spec_tokenize_from(expr@, i + 1, Seq::empty(), false))
                    =~= (toks0 + flush_tok(cur0)) + spec_tokenize_from(
                    expr@,
                    i + 1,
                    Seq::empty(),
                    false,
                ));
                assert(cur@ =~= Seq::<char>::empty());
            }
        } else {
            cur.push(c);
        }
        i = i + 1;
    }
    if cur.len() > 0 {
        let t = chars_to_string(&cur);
        tokens.push(t);
        proof {
            assert(strs_view(tokens@) =~= strs_view(tokens@.drop_last()) + flush_tok(cur@));
        }
    }
    proof {
        assert(strs_view(tokens@) =~= strs_view(tokens@) + Seq::<Seq<char>>::empty());
    }
    tokens
}

} // verus!
