//! What evaluation means: a definitional evaluator over the mathematical
//! shapes of trees, values and interpreter state.
//!
//! Every executable method of the interpreter is proved to return exactly
//! what these functions say, so this module is the contract of the whole
//! evaluator.

use vstd::prelude::*;
use crate::ast::{AstV, ast_size, seq_size, lemma_seq_size_index};
use crate::env::{env_lookup, env_remove, env_set, env_upsert};
use crate::num::{spec_parse_int, spec_render_int};
use crate::parser::spec_parse;
use crate::token::spec_tokenize;
use crate::value::{ErrV, ValV};

verus! {

/// A user-defined function: its parameter names, in order, and the
/// unevaluated body.
pub struct FunV {
    pub params: Seq<Seq<char>>,
    pub body: AstV,
}

/// One interpreter's mutable state: the variable table, the function
/// table, both in insertion order, and the pending output lines.
pub struct StateV {
    pub vars: Seq<(Seq<char>, ValV)>,
    pub funcs: Seq<(Seq<char>, FunV)>,
    pub out: Seq<Seq<char>>,
}

/// The state of a freshly created interpreter.
pub open spec fn init_state() -> StateV {
    StateV { vars: Seq::empty(), funcs: Seq::empty(), out: Seq::empty() }
}

/// The builtin operators, each with its own arity and error contract.
#[derive(Clone, Copy)]
pub enum Builtin {
    Add,
    Sub,
    Mul,
    Div,
    Mod,
    Max,
    Min,
    Pow,
    Sqrt,
    Abs,
    If,
    Switch,
    ZeroQ,
    EvenQ,
    OddQ,
    PosQ,
    NegQ,
    EqQ,
    NeqQ,
    LtQ,
    LteQ,
    GtQ,
    GteQ,
    And,
    Or,
    Not,
    LetVar,
    SetVar,
    GetVar,
    DelVar,
    For,
    Concat,
    Len,
    Substring,
    Print,
    Exit,
    Debug,
    Base,
    Func,
}

/// Which builtin, if any, an operator keyword names.
pub open spec fn classify(name: Seq<char>) -> Option<Builtin> {
    if name == "add"@ {
        Some(Builtin::Add)
    } else if name == "sub"@ {
        Some(Builtin::Sub)
    } else if name == "mul"@ {
        Some(Builtin::Mul)
    } else if name == "div"@ {
        Some(Builtin::Div)
    } else if name == "mod"@ {
        Some(Builtin::Mod)
    } else if name == "max"@ {
        Some(Builtin::Max)
    } else if name == "min"@ {
        Some(Builtin::Min)
    } else if name == "pow"@ {
        Some(Builtin::Pow)
    } else if name == "sqrt"@ {
        Some(Builtin::Sqrt)
    } else if name == "abs"@ {
        Some(Builtin::Abs)
    } else if name == "if"@ {
        Some(Builtin::If)
    } else if name == "switch"@ {
        Some(Builtin::Switch)
    } else if name == "zero?"@ {
        Some(Builtin::ZeroQ)
    } else if name == "even?"@ {
        Some(Builtin::EvenQ)
    } else if name == "odd?"@ {
        Some(Builtin::OddQ)
    } else if name == "pos?"@ {
        Some(Builtin::PosQ)
    } else if name == "neg?"@ {
        Some(Builtin::NegQ)
    } else if name == "eq?"@ {
        Some(Builtin::EqQ)
    } else if name == "neq?"@ {
        Some(Builtin::NeqQ)
    } else if name == "lt?"@ {
        Some(Builtin::LtQ)
    } else if name == "lte?"@ {
        Some(Builtin::LteQ)
    } else if name == "gt?"@ {
        Some(Builtin::GtQ)
    } else if name == "gte?"@ {
        Some(Builtin::GteQ)
    } else if name == "and"@ {
        Some(Builtin::And)
    } else if name == "or"@ {
        Some(Builtin::Or)
    } else if name == "not"@ {
        Some(Builtin::Not)
    } else if name == "let"@ {
        Some(Builtin::LetVar)
    } else if name == "set"@ {
        Some(Builtin::SetVar)
    } else if name == "get"@ {
        Some(Builtin::GetVar)
    } else if name == "del"@ {
        Some(Builtin::DelVar)
    } else if name == "for"@ {
        Some(Builtin::For)
    } else if name == "concat"@ {
        Some(Builtin::Concat)
    } else if name == "len"@ {
        Some(Builtin::Len)
    } else if name == "substring"@ {
        Some(Builtin::Substring)
    } else if name == "print"@ {
        Some(Builtin::Print)
    } else if name == "exit"@ {
        Some(Builtin::Exit)
    } else if name == "debug"@ {
        Some(Builtin::Debug)
    } else if name == "base"@ {
        Some(Builtin::Base)
    } else if name == "func"@ {
        Some(Builtin::Func)
    } else {
        None
    }
}

/// The numeric encoding of a boolean: 1 or 0.
pub open spec fn bool_num(b: bool) -> ValV {
    ValV::Num(
        if b {
            1
        } else {
            0
        },
    )
}

/// The error reported when a checked arithmetic step leaves the 64-bit
/// signed range.
pub open spec fn overflow_err() -> ErrV {
    ErrV::ParseError("Number out of range"@)
}

/// The error reported where an operand had the wrong shape for a numeric
/// operator.
pub open spec fn num_operand_err() -> ErrV {
    ErrV::ParseError("Operands must be numbers"@)
}

/// Clamps an exact result into the representable range or reports it.
pub open spec fn rng(v: int) -> Result<i64, ErrV> {
    if i64::MIN <= v <= i64::MAX {
        Ok(v as i64)
    } else {
        Err(overflow_err())
    }
}

/// Truncating division, as the hardware does it: the quotient is rounded
/// toward zero.
pub open spec fn trunc_div(a: int, b: int) -> int {
    let m = abs_int(a) / abs_int(b);
    if (a < 0) != (b < 0) {
        -m
    } else {
        m
    }
}

/// The remainder of truncating division: it takes the dividend's sign.
pub open spec fn trunc_rem(a: int, b: int) -> int {
    let m = abs_int(a) % abs_int(b);
    if a < 0 {
        -m
    } else {
        m
    }
}

pub open spec fn abs_int(a: int) -> int {
    if a < 0 {
        -a
    } else {
        a
    }
}

/// One step of a left fold: the checked operation of the given builtin.
pub open spec fn arith_step(k: Builtin, acc: i64, x: i64) -> Result<i64, ErrV> {
    match k {
        Builtin::Add => rng(acc + x),
        Builtin::Sub => rng(acc - x),
        Builtin::Mul => rng(acc * x),
        _ => Err(num_operand_err()),
    }
}

/// A checked left fold over already-evaluated numbers.
pub open spec fn fold_arith(k: Builtin, acc: i64, nums: Seq<i64>) -> Result<i64, ErrV>
    decreases nums.len(),
{
    if nums.len() == 0 {
        Ok(acc)
    } else {
        match arith_step(k, acc, nums[0]) {
            Err(e) => Err(e),
            Ok(a2) => fold_arith(k, a2, nums.subrange(1, nums.len() as int)),
        }
    }
}

/// The largest number seen, scanning with a strict comparison.
pub open spec fn fold_max(acc: i64, nums: Seq<i64>) -> i64
    decreases nums.len(),
{
    if nums.len() == 0 {
        acc
    } else {
        fold_max(
            if nums[0] > acc {
                nums[0]
            } else {
                acc
            },
            nums.subrange(1, nums.len() as int),
        )
    }
}

/// The smallest number seen, scanning with a strict comparison.
pub open spec fn fold_min(acc: i64, nums: Seq<i64>) -> i64
    decreases nums.len(),
{
    if nums.len() == 0 {
        acc
    } else {
        fold_min(
            if nums[0] < acc {
                nums[0]
            } else {
                acc
            },
            nums.subrange(1, nums.len() as int),
        )
    }
}

/// Checked exponentiation by a non-negative exponent: multiplies step by
/// step and reports the first step that leaves the representable range.
pub open spec fn pow_fold(b: i64, acc: i64, e: nat) -> Result<i64, ErrV>
    decreases e,
{
    if e == 0 {
        Ok(acc)
    } else {
        match rng(acc * b) {
            Err(er) => Err(er),
            Ok(a2) => pow_fold(b, a2, (e - 1) as nat),
        }
    }
}

/// The integer square root: the largest `r` with `r * r <= n`.
pub open spec fn spec_isqrt(n: int) -> int
    decreases n,
{
    if n < 1 {
        0
    } else {
        let r = 2 * spec_isqrt(n / 4);
        if (r + 1) * (r + 1) <= n {
            r + 1
        } else {
            r
        }
    }
}

/// The numbers behind a list of evaluated operands, when every operand
/// produced one.
pub open spec fn nums_of(vals: Seq<Option<ValV>>) -> Option<Seq<i64>>
    decreases vals.len(),
{
    if vals.len() == 0 {
        Some(Seq::empty())
    } else {
        match vals[0] {
            Some(ValV::Num(n)) => match nums_of(vals.subrange(1, vals.len() as int)) {
                Some(rest) => Some(seq![n] + rest),
                None => None,
            },
            _ => None,
        }
    }
}

/// How a value is written out: numbers in decimal, text as it is.
pub open spec fn render_val(v: ValV) -> Seq<char> {
    match v {
        ValV::Num(n) => spec_render_int(n as int),
        ValV::Text(t) => t,
    }
}

/// The characters `print` trims from the end of a line.
pub open spec fn is_ws(c: char) -> bool {
    c == ' ' || c == '\t' || c == '\n' || c == '\r'
}

/// A line with its trailing whitespace removed.
pub open spec fn trim_end_ws(s: Seq<char>) -> Seq<char>
    decreases s.len(),
{
    if s.len() > 0 && is_ws(s[s.len() - 1]) {
        trim_end_ws(s.take(s.len() - 1))
    } else {
        s
    }
}

/// A suffix of whitespace and nothing after it trims down to the prefix.
pub proof fn lemma_trim_end_at(s: Seq<char>, k: int)
    requires
        0 <= k <= s.len(),
        forall|j: int| k <= j < s.len() ==> is_ws(#[trigger] s[j]),
        k > 0 ==> !is_ws(s[k - 1]),
    ensures
        trim_end_ws(s) == s.take(k),
    decreases s.len(),
{
    if k == s.len() {
        if s.len() == 0 || !is_ws(s[s.len() - 1]) {
            assert(s.take(k) =~= s);
        } else {
            assert(!is_ws(s[k - 1]));
        }
    } else {
        assert(is_ws(s[s.len() - 1]));
        let s2 = s.take(s.len() - 1);
        assert(forall|j: int| k <= j < s2.len() ==> is_ws(#[trigger] s2[j]));
        if k > 0 {
            assert(s2[k - 1] == s[k - 1]);
        }
        lemma_trim_end_at(s2, k);
        assert(s2.take(k) =~= s.take(k));
    }
}

/// What `print` writes before trimming: each value and a space.
pub open spec fn print_parts(vals: Seq<Option<ValV>>) -> Result<Seq<char>, ErrV>
    decreases vals.len(),
{
    if vals.len() == 0 {
        Ok(Seq::empty())
    } else {
        match vals[0] {
            Some(v) => match print_parts(vals.subrange(1, vals.len() as int)) {
                Ok(rest) => Ok(render_val(v) + " "@ + rest),
                Err(e) => Err(e),
            },
            None => Err(ErrV::ParseError("Invalid print syntax"@)),
        }
    }
}

/// What `concat` builds: the rendering of every operand, joined.
pub open spec fn concat_vals(vals: Seq<Option<ValV>>) -> Result<Seq<char>, ErrV>
    decreases vals.len(),
{
    if vals.len() == 0 {
        Ok(Seq::empty())
    } else {
        match vals[0] {
            Some(v) => match concat_vals(vals.subrange(1, vals.len() as int)) {
                Ok(rest) => Ok(render_val(v) + rest),
                Err(e) => Err(e),
            },
            None => Err(ErrV::ParseError("Invalid concat syntax"@)),
        }
    }
}

/// The parameter names of a `func` parameter form: every child must be a
/// bare atom.
pub open spec fn param_names(children: Seq<AstV>) -> Option<Seq<Seq<char>>>
    decreases children.len(),
{
    if children.len() == 0 {
        Some(Seq::empty())
    } else {
        match children[0] {
            AstV::Val(name) => match param_names(children.subrange(1, children.len() as int)) {
                Some(rest) => Some(seq![name] + rest),
                None => None,
            },
            _ => None,
        }
    }
}

/// Binds each parameter whose argument evaluated to a number; any other
/// argument leaves its parameter unbound.
pub open spec fn bind_params(
    vars: Seq<(Seq<char>, ValV)>,
    params: Seq<Seq<char>>,
    vals: Seq<Option<ValV>>,
) -> Seq<(Seq<char>, ValV)>
    decreases params.len(),
{
    if params.len() == 0 || vals.len() == 0 {
        vars
    } else {
        let v2 = match vals[0] {
            Some(ValV::Num(n)) => env_upsert(vars, params[0], ValV::Num(n)),
            _ => vars,
        };
        bind_params(v2, params.subrange(1, params.len() as int), vals.subrange(1, vals.len() as int))
    }
}

/// The lines `debug` emits for the variable table, in insertion order.
pub open spec fn dump_vars(vars: Seq<(Seq<char>, ValV)>) -> Seq<Seq<char>>
    decreases vars.len(),
{
    if vars.len() == 0 {
        Seq::empty()
    } else {
        seq![vars[0].0 + ": "@ + render_val(vars[0].1)] + dump_vars(
            vars.subrange(1, vars.len() as int),
        )
    }
}

/// A function's parameter names joined by single spaces.
pub open spec fn join_params(params: Seq<Seq<char>>) -> Seq<char>
    decreases params.len(),
{
    if params.len() == 0 {
        Seq::empty()
    } else if params.len() == 1 {
        params[0]
    } else {
        params[0] + " "@ + join_params(params.subrange(1, params.len() as int))
    }
}

/// The lines `debug` emits for the function table, in insertion order.
pub open spec fn dump_funcs(funcs: Seq<(Seq<char>, FunV)>) -> Seq<Seq<char>>
    decreases funcs.len(),
{
    if funcs.len() == 0 {
        Seq::empty()
    } else {
        seq![funcs[0].0 + "("@ + join_params(funcs[0].1.params) + ")"@] + dump_funcs(
            funcs.subrange(1, funcs.len() as int),
        )
    }
}

/// Everything `debug` appends to the output buffer.
pub open spec fn dump_lines(st: StateV) -> Seq<Seq<char>> {
    let vs = if st.vars.len() > 0 {
        seq!["Variables:"@] + dump_vars(st.vars)
    } else {
        Seq::empty()
    };
    let fs = if st.funcs.len() > 0 {
        seq!["Functions:"@] + dump_funcs(st.funcs)
    } else {
        Seq::empty()
    };
    vs + fs
}

/// How a bare atom is read: boolean keyword, then numeric literal, then
/// variable; anything else is unknown. The state never changes.
pub open spec fn eval_atom(st: StateV, tok: Seq<char>) -> Result<Option<ValV>, ErrV> {
    if tok == "True"@ {
        Ok(Some(ValV::Num(1)))
    } else if tok == "False"@ {
        Ok(Some(ValV::Num(0)))
    } else {
        match spec_parse_int(tok) {
            Some(n) => Ok(Some(ValV::Num(n))),
            None => match env_lookup(st.vars, tok) {
                Some(v) => Ok(Some(v)),
                None => Err(ErrV::VariableNotFound(tok)),
            },
        }
    }
}

/// How many levels of user-defined function calls one evaluation allows
/// before it reports `RecursionLimit`.
pub const CALL_FUEL: u64 = 1024;

/// What evaluating one node does to the state, and what it yields.
pub open spec fn eval_node(st: StateV, node: AstV, fuel: nat) -> (StateV, Result<
    Option<ValV>,
    ErrV,
>)
    decreases fuel, ast_size(node), 0nat, 0int,
{
    match node {
        AstV::NoOp => (st, Ok(None)),
        AstV::Val(tok) => (st, eval_atom(st, tok)),
        AstV::Str(s) => (st, Ok(Some(ValV::Text(s)))),
        AstV::Op(name, args) => eval_op(st, name, args, fuel),
    }
}

/// Evaluates the operands from left to right, threading the state, and
/// stops at the first error.
pub open spec fn eval_list(st: StateV, s: Seq<AstV>, fuel: nat) -> (StateV, Result<
    Seq<Option<ValV>>,
    ErrV,
>)
    decreases fuel, seq_size(s), 1nat, 0int,
{
    if s.len() == 0 {
        (st, Ok(Seq::empty()))
    } else {
        let (st1, r) = eval_node(st, s[0], fuel);
        match r {
            Err(e) => (st1, Err(e)),
            Ok(v) => {
                let (st2, rr) = eval_list(st1, s.subrange(1, s.len() as int), fuel);
                match rr {
                    Err(e) => (st2, Err(e)),
                    Ok(rest) => (st2, Ok(seq![v] + rest)),
                }
            },
        }
    }
}

/// The left fold of `div` and `mod`: each divisor is evaluated in turn,
/// and a zero divisor stops everything right there.
pub open spec fn div_fold(st: StateV, s: Seq<AstV>, acc: i64, want_div: bool, fuel: nat) -> (
    StateV,
    Result<Option<ValV>, ErrV>,
)
    decreases fuel, seq_size(s), 1nat, 0int,
{
    if s.len() == 0 {
        (st, Ok(Some(ValV::Num(acc))))
    } else {
        let (st1, r) = eval_node(st, s[0], fuel);
        match r {
            Err(e) => (st1, Err(e)),
            Ok(Some(ValV::Num(d))) => if d == 0 {
                (st1, Err(ErrV::DivisionByZero))
            } else {
                let step = if want_div {
                    rng(trunc_div(acc as int, d as int))
                } else {
                    rng(trunc_rem(acc as int, d as int))
                };
                match step {
                    Err(e) => (st1, Err(e)),
                    Ok(a2) => div_fold(st1, s.subrange(1, s.len() as int), a2, want_div, fuel),
                }
            },
            Ok(_) => (st1, Err(num_operand_err())),
        }
    }
}

/// Walks the arms of a `switch`: the first case whose value matches the
/// selector wins; otherwise the last `default` seen is evaluated.
pub open spec fn switch_scan(
    st: StateV,
    args: Seq<AstV>,
    i: int,
    sel: i64,
    dflt: Option<int>,
    fuel: nat,
) -> (StateV, Result<Option<ValV>, ErrV>)
    decreases fuel, seq_size(args), 1nat, args.len() - i,
    via switch_scan_dec
{
    if !(0 <= i < args.len()) {
        match dflt {
            Some(di) => if 0 <= di < args.len() {
                match args[di] {
                    AstV::Op(dn, dch) => if dch.len() == 1 {
                        eval_node(st, dch[0], fuel)
                    } else {
                        (st, Ok(None))
                    },
                    _ => (st, Ok(None)),
                }
            } else {
                (st, Ok(None))
            },
            None => (st, Ok(None)),
        }
    } else {
        match args[i] {
            AstV::Op(cn, cch) => if cn == "case"@ {
                if cch.len() != 2 {
                    (st, Err(ErrV::ParseError("Invalid syntax for 'case'"@)))
                } else {
                    let (st1, r) = eval_node(st, cch[0], fuel);
                    match r {
                        Err(e) => (st1, Err(e)),
                        Ok(Some(ValV::Num(cv))) => if cv == sel {
                            eval_node(st1, cch[1], fuel)
                        } else {
                            switch_scan(st1, args, i + 1, sel, dflt, fuel)
                        },
                        Ok(_) => (st1, Err(ErrV::ParseError("Invalid switch syntax"@))),
                    }
                }
            } else if cn == "default"@ {
                if cch.len() != 1 {
                    (st, Err(ErrV::ParseError("Invalid syntax for 'default'"@)))
                } else {
                    switch_scan(st, args, i + 1, sel, Some(i), fuel)
                }
            } else {
                (st, Err(ErrV::ParseError("Invalid switch syntax"@)))
            },
            _ => (st, Err(ErrV::ParseError("Invalid switch syntax"@))),
        }
    }
}

#[via_fn]
proof fn switch_scan_dec(st: StateV, args: Seq<AstV>, i: int, sel: i64, dflt: Option<int>, fuel: nat) {
    if 0 <= i < args.len() {
        lemma_seq_size_index(args, i);
        if let AstV::Op(cn, cch) = args[i] {
            if cch.len() > 0 {
                lemma_seq_size_index(cch, 0);
            }
            if cch.len() > 1 {
                lemma_seq_size_index(cch, 1);
            }
        }
    }
    if let Some(di) = dflt {
        if 0 <= di < args.len() {
            lemma_seq_size_index(args, di);
            if let AstV::Op(dn, dch) = args[di] {
                if dch.len() > 0 {
                    lemma_seq_size_index(dch, 0);
                }
            }
        }
    }
}

/// One pass of a `for` loop: writes the loop variable into the shared
/// environment, runs the body for its effects, and moves on.
pub open spec fn for_loop(
    st: StateV,
    var: Seq<char>,
    i: int,
    end: int,
    body: AstV,
    fuel: nat,
) -> (StateV, Result<Option<ValV>, ErrV>)
    decreases fuel, ast_size(body), 1nat, (if i < end { end - i } else { 0 }),
{
    if i >= end {
        (st, Ok(None))
    } else {
        let st1 = StateV { vars: env_upsert(st.vars, var, ValV::Num(i as i64)), ..st };
        let (st2, r) = eval_node(st1, body, fuel);
        match r {
            Err(e) => (st2, Err(e)),
            Ok(_) => for_loop(st2, var, i + 1, end, body, fuel),
        }
    }
}

/// Dispatches one parenthesised form: a builtin from the fixed table, or
/// a user-defined function with snapshot isolation.
pub open spec fn eval_op(st: StateV, name: Seq<char>, args: Seq<AstV>, fuel: nat) -> (
    StateV,
    Result<Option<ValV>, ErrV>,
)
    decreases fuel, seq_size(args), 3nat, 0int,
{
    match classify(name) {
        Some(b) => eval_builtin(st, b, args, fuel),
        None => match env_lookup(st.funcs, name) {
            None => (st, Err(ErrV::FunctionOrOperatorNotFound(name))),
            Some(f) => if args.len() != f.params.len() {
                (st, Err(ErrV::ParseError("Invalid number of arguments"@)))
            } else if fuel == 0 {
                (st, Err(ErrV::RecursionLimit))
            } else {
                let (st1, r) = eval_list(st, args, fuel);
                match r {
                    Err(e) => (st1, Err(e)),
                    Ok(vals) => {
                        let callst = StateV {
                            vars: bind_params(st1.vars, f.params, vals),
                            funcs: st1.funcs,
                            out: Seq::empty(),
                        };
                        let (st2, rr) = eval_node(callst, f.body, (fuel - 1) as nat);
                        match rr {
                            Err(e) => (st1, Err(e)),
                            Ok(v) => (
                                StateV { vars: st1.vars, funcs: st1.funcs, out: st1.out + st2.out },
                                Ok(v),
                            ),
                        }
                    },
                }
            },
        },
    }
}

/// The meaning of each builtin, dispatched on the classified keyword.
pub open spec fn eval_builtin(st: StateV, b: Builtin, args: Seq<AstV>, fuel: nat) -> (
    StateV,
    Result<Option<ValV>, ErrV>,
)
    decreases fuel, seq_size(args), 2nat, 0int,
    via eval_builtin_dec
{
    match b {
        Builtin::Add => fold_group(st, Builtin::Add, 0, args, fuel),
        Builtin::Mul => fold_group(st, Builtin::Mul, 1, args, fuel),
        Builtin::Sub => if args.len() == 0 {
            (st, Err(ErrV::ParseError("Empty subtraction"@)))
        } else {
            let (st1, r) = eval_list(st, args, fuel);
            match r {
                Err(e) => (st1, Err(e)),
                Ok(vals) => match nums_of(vals) {
                    None => (st1, Err(num_operand_err())),
                    Some(nums) => match fold_arith(
                        Builtin::Sub,
                        nums[0],
                        nums.subrange(1, nums.len() as int),
                    ) {
                        Err(e) => (st1, Err(e)),
                        Ok(n) => (st1, Ok(Some(ValV::Num(n)))),
                    },
                },
            }
        },
        Builtin::Div | Builtin::Mod => {
            let want_div = (b matches Builtin::Div);
            if args.len() == 0 {
                (
                    st,
                    Err(
                        ErrV::ParseError(
                            if (want_div) {
                                "Empty division"@
                            } else {
                                "Empty modulo"@
                            },
                        ),
                    ),
                )
            } else {
                let (st1, r) = eval_node(st, args[0], fuel);
                match r {
                    Err(e) => (st1, Err(e)),
                    Ok(Some(ValV::Num(n))) => div_fold(
                        st1,
                        args.subrange(1, args.len() as int),
                        n,
                        want_div,
                        fuel,
                    ),
                    Ok(_) => (st1, Err(num_operand_err())),
                }
            }
        },
        Builtin::Max | Builtin::Min => {
            let (st1, r) = eval_list(st, args, fuel);
            match r {
                Err(e) => (st1, Err(e)),
                Ok(vals) => match nums_of(vals) {
                    None => (st1, Err(num_operand_err())),
                    Some(nums) => (
                        st1,
                        Ok(
                            Some(
                                ValV::Num(
                                    if (b matches Builtin::Max) {
                                        fold_max(i64::MIN, nums)
                                    } else {
                                        fold_min(i64::MAX, nums)
                                    },
                                ),
                            ),
                        ),
                    ),
                },
            }
        },
        Builtin::Pow => {
            if args.len() != 2 {
                (st, Err(ErrV::ParseError("Invalid number of operands for 'pow'"@)))
            } else {
                let (st1, r) = eval_node(st, args[0], fuel);
                match r {
                    Err(e) => (st1, Err(e)),
                    Ok(Some(ValV::Num(base))) => {
                        let (st2, r2) = eval_node(st1, args[1], fuel);
                        match r2 {
                            Err(e) => (st2, Err(e)),
                            Ok(Some(ValV::Num(e0))) => if e0 < 0 {
                                (st2, Err(ErrV::ParseError("Negative exponent"@)))
                            } else {
                                match pow_fold(base, 1, e0 as nat) {
                                    Err(e) => (st2, Err(e)),
                                    Ok(n) => (st2, Ok(Some(ValV::Num(n)))),
                                }
                            },
                            Ok(_) => (st2, Err(num_operand_err())),
                        }
                    },
                    Ok(_) => (st1, Err(num_operand_err())),
                }
            }
        },
        Builtin::Sqrt => {
            if args.len() != 1 {
                (st, Err(ErrV::ParseError("Invalid number of operands for 'sqrt'"@)))
            } else {
                let (st1, r) = eval_node(st, args[0], fuel);
                match r {
                    Err(e) => (st1, Err(e)),
                    Ok(Some(ValV::Num(n))) => if n < 0 {
                        (st1, Err(ErrV::ParseError("Square root of negative number"@)))
                    } else {
                        (st1, Ok(Some(ValV::Num(spec_isqrt(n as int) as i64))))
                    },
                    Ok(_) => (st1, Err(num_operand_err())),
                }
            }
        },
        Builtin::Abs => {
            if args.len() != 1 {
                (st, Err(ErrV::ParseError("Invalid number of operands for 'abs'"@)))
            } else {
                let (st1, r) = eval_node(st, args[0], fuel);
                match r {
                    Err(e) => (st1, Err(e)),
                    Ok(Some(ValV::Num(n))) => match rng(abs_int(n as int)) {
                        Err(e) => (st1, Err(e)),
                        Ok(m) => (st1, Ok(Some(ValV::Num(m)))),
                    },
                    Ok(_) => (st1, Err(num_operand_err())),
                }
            }
        },
        Builtin::ZeroQ | Builtin::EvenQ | Builtin::OddQ | Builtin::PosQ | Builtin::NegQ
            | Builtin::Not => {
            if args.len() != 1 {
                (st, Err(ErrV::ParseError(unary_arity_msg(b))))
            } else {
                let (st1, r) = eval_node(st, args[0], fuel);
                match r {
                    Err(e) => (st1, Err(e)),
                    Ok(Some(ValV::Num(n))) => (st1, Ok(Some(bool_num(unary_pred(b, n))))),
                    Ok(_) => (st1, Err(num_operand_err())),
                }
            }
        },
        Builtin::EqQ | Builtin::NeqQ | Builtin::LtQ | Builtin::LteQ | Builtin::GtQ
            | Builtin::GteQ => {
            if args.len() != 2 {
                (st, Err(ErrV::ParseError(cmp_arity_msg(b))))
            } else {
                let (st1, r) = eval_node(st, args[0], fuel);
                match r {
                    Err(e) => (st1, Err(e)),
                    Ok(Some(ValV::Num(x))) => {
                        let (st2, r2) = eval_node(st1, args[1], fuel);
                        match r2 {
                            Err(e) => (st2, Err(e)),
                            Ok(Some(ValV::Num(y))) => (st2, Ok(Some(bool_num(cmp_pred(b, x, y))))),
                            Ok(_) => (st2, Err(num_operand_err())),
                        }
                    },
                    Ok(_) => (st1, Err(num_operand_err())),
                }
            }
        },
        Builtin::And | Builtin::Or => {
            if args.len() < 2 {
                (
                    st,
                    Err(
                        ErrV::ParseError(
                            if (b matches Builtin::And) {
                                "Invalid number of operands for 'and'"@
                            } else {
                                "Invalid number of operands for 'or'"@
                            },
                        ),
                    ),
                )
            } else {
                let (st1, r) = eval_list(st, args, fuel);
                match r {
                    Err(e) => (st1, Err(e)),
                    Ok(vals) => match nums_of(vals) {
                        None => (st1, Err(num_operand_err())),
                        Some(nums) => if (b matches Builtin::And) {
                            (
                                st1,
                                Ok(
                                    Some(
                                        bool_num(
                                            forall|j: int|
                                                0 <= j < nums.len() ==> #[trigger] nums[j] != 0,
                                        ),
                                    ),
                                ),
                            )
                        } else {
                            (
                                st1,
                                Ok(
                                    Some(
                                        bool_num(
                                            exists|j: int|
                                                0 <= j < nums.len() && #[trigger] nums[j] != 0,
                                        ),
                                    ),
                                ),
                            )
                        },
                    },
                }
            }
        },
        Builtin::If => {
            if args.len() < 2 {
                (st, Err(ErrV::ParseError("Invalid syntax for 'if'"@)))
            } else {
                let (st1, r) = eval_node(st, args[0], fuel);
                match r {
                    Err(e) => (st1, Err(e)),
                    Ok(None) => (st1, Err(ErrV::ParseError("Invalid if syntax"@))),
                    Ok(Some(ValV::Text(_))) => (st1, Err(num_operand_err())),
                    Ok(Some(ValV::Num(c))) => if c != 0 {
                        eval_node(st1, args[1], fuel)
                    } else if args.len() == 2 {
                        (st1, Ok(None))
                    } else {
                        match args[2] {
                            AstV::Op(en, ech) => if en == "else"@ {
                                if ech.len() != 1 {
                                    (st1, Err(ErrV::ParseError("Invalid syntax for 'else'"@)))
                                } else {
                                    eval_node(st1, ech[0], fuel)
                                }
                            } else {
                                (st1, Err(ErrV::ParseError("Invalid conditional syntax"@)))
                            },
                            _ => (st1, Err(ErrV::ParseError("Invalid conditional syntax"@))),
                        }
                    },
                }
            }
        },
        Builtin::Switch => {
            if args.len() < 2 {
                (st, Err(ErrV::ParseError("Invalid syntax for 'switch'"@)))
            } else {
                let (st1, r) = eval_node(st, args[0], fuel);
                match r {
                    Err(e) => (st1, Err(e)),
                    Ok(Some(ValV::Num(sel))) => switch_scan(st1, args, 1, sel, None, fuel),
                    Ok(_) => (st1, Err(ErrV::ParseError("Invalid switch syntax"@))),
                }
            }
        },
        Builtin::LetVar | Builtin::SetVar => {
            let is_let = (b matches Builtin::LetVar);
            if args.len() != 2 {
                (
                    st,
                    Err(
                        ErrV::ParseError(
                            if is_let {
                                "Invalid syntax for 'let'"@
                            } else {
                                "Invalid syntax for 'set'"@
                            },
                        ),
                    ),
                )
            } else {
                match args[0] {
                    AstV::Val(var) => {
                        let (st1, r) = eval_node(st, args[1], fuel);
                        match r {
                            Err(e) => (st1, Err(e)),
                            Ok(None) => (
                                st1,
                                Err(
                                    ErrV::ParseError(
                                        if is_let {
                                            "Invalid let syntax"@
                                        } else {
                                            "Invalid set syntax"@
                                        },
                                    ),
                                ),
                            ),
                            Ok(Some(v)) => if is_let {
                                if env_lookup(st1.vars, var) is Some {
                                    (st1, Err(ErrV::ParseError("Variable already exists"@)))
                                } else {
                                    (StateV { vars: st1.vars.push((var, v)), ..st1 }, Ok(None))
                                }
                            } else {
                                if env_lookup(st1.vars, var) is None {
                                    (st1, Err(ErrV::ParseError("Variable not found"@)))
                                } else {
                                    (StateV { vars: env_set(st1.vars, var, v), ..st1 }, Ok(None))
                                }
                            },
                        }
                    },
                    _ => (
                        st,
                        Err(
                            ErrV::ParseError(
                                if is_let {
                                    "Invalid let syntax"@
                                } else {
                                    "Invalid set syntax"@
                                },
                            ),
                        ),
                    ),
                }
            }
        },
        Builtin::GetVar => {
            if args.len() != 1 {
                (st, Err(ErrV::ParseError("Invalid get syntax"@)))
            } else {
                match args[0] {
                    AstV::Val(var) => match env_lookup(st.vars, var) {
                        Some(v) => (st, Ok(Some(v))),
                        None => (st, Err(ErrV::VariableNotFound(var))),
                    },
                    _ => (st, Err(ErrV::ParseError("Invalid get syntax"@))),
                }
            }
        },
        Builtin::DelVar => {
            if args.len() != 1 {
                (st, Err(ErrV::ParseError("Invalid del syntax"@)))
            } else {
                match args[0] {
                    AstV::Val(var) => if env_lookup(st.vars, var) is Some {
                        (StateV { vars: env_remove(st.vars, var), ..st }, Ok(None))
                    } else {
                        (st, Err(ErrV::VariableNotFound(var)))
                    },
                    _ => (st, Err(ErrV::ParseError("Invalid del syntax"@))),
                }
            }
        },
        Builtin::For => {
            if args.len() != 4 {
                (st, Err(ErrV::ParseError("Invalid number of operands for 'for'"@)))
            } else {
                match args[0] {
                    AstV::Val(var) => {
                        let (st1, r) = eval_node(st, args[1], fuel);
                        match r {
                            Err(e) => (st1, Err(e)),
                            Ok(Some(ValV::Num(s0))) => {
                                let (st2, r2) = eval_node(st1, args[2], fuel);
                                match r2 {
                                    Err(e) => (st2, Err(e)),
                                    Ok(Some(ValV::Num(e0))) => for_loop(
                                        st2,
                                        var,
                                        s0 as int,
                                        e0 as int,
                                        args[3],
                                        fuel,
                                    ),
                                    Ok(_) => (st2, Err(ErrV::ParseError("Invalid for syntax"@))),
                                }
                            },
                            Ok(_) => (st1, Err(ErrV::ParseError("Invalid for syntax"@))),
                        }
                    },
                    _ => (st, Err(ErrV::ParseError("Invalid for syntax"@))),
                }
            }
        },
        Builtin::Concat => {
            let (st1, r) = eval_list(st, args, fuel);
            match r {
                Err(e) => (st1, Err(e)),
                Ok(vals) => match concat_vals(vals) {
                    Err(e) => (st1, Err(e)),
                    Ok(text) => (st1, Ok(Some(ValV::Text(text)))),
                },
            }
        },
        Builtin::Len => {
            if args.len() != 1 {
                (st, Err(ErrV::ParseError("Invalid number of operands for 'len'"@)))
            } else {
                let (st1, r) = eval_node(st, args[0], fuel);
                match r {
                    Err(e) => (st1, Err(e)),
                    Ok(Some(ValV::Text(t))) => if t.len() > i64::MAX {
                        (st1, Err(overflow_err()))
                    } else {
                        (st1, Ok(Some(ValV::Num(t.len() as i64))))
                    },
                    Ok(_) => (st1, Err(ErrV::ParseError("Invalid len syntax"@))),
                }
            }
        },
        Builtin::Substring => {
            if args.len() != 3 {
                (st, Err(ErrV::ParseError("Invalid number of operands for 'substring'"@)))
            } else {
                let (st1, r) = eval_node(st, args[0], fuel);
                match r {
                    Err(e) => (st1, Err(e)),
                    Ok(Some(ValV::Text(t))) => {
                        let (st2, r2) = eval_node(st1, args[1], fuel);
                        match r2 {
                            Err(e) => (st2, Err(e)),
                            Ok(Some(ValV::Num(s0))) => {
                                let (st3, r3) = eval_node(st2, args[2], fuel);
                                match r3 {
                                    Err(e) => (st3, Err(e)),
                                    Ok(Some(ValV::Num(e0))) => (
                                        st3,
                                        Ok(Some(ValV::Text(substring_of(t, s0 as int, e0 as int)))),
                                    ),
                                    Ok(_) => (
                                        st3,
                                        Err(ErrV::ParseError("Invalid substring syntax"@)),
                                    ),
                                }
                            },
                            Ok(_) => (st2, Err(ErrV::ParseError("Invalid substring syntax"@))),
                        }
                    },
                    Ok(_) => (st1, Err(ErrV::ParseError("Invalid substring syntax"@))),
                }
            }
        },
        Builtin::Print => {
            if args.len() == 0 {
                (st, Err(ErrV::ParseError("Invalid print syntax"@)))
            } else {
                let (st1, r) = eval_list(st, args, fuel);
                match r {
                    Err(e) => (st1, Err(e)),
                    Ok(vals) => match print_parts(vals) {
                        Err(e) => (st1, Err(e)),
                        Ok(line) => (
                            StateV { out: st1.out.push(trim_end_ws(line)), ..st1 },
                            Ok(None),
                        ),
                    },
                }
            }
        },
        Builtin::Exit => {
            if args.len() != 1 {
                (st, Err(ErrV::ParseError("Invalid number of operands for 'exit'"@)))
            } else {
                let (st1, r) = eval_node(st, args[0], fuel);
                match r {
                    Err(e) => (st1, Err(e)),
                    Ok(Some(ValV::Num(c))) => (st1, Err(ErrV::Exit(c))),
                    Ok(_) => (st1, Err(ErrV::ParseError("Invalid exit syntax"@))),
                }
            }
        },
        Builtin::Debug => {
            if args.len() != 0 {
                (st, Err(ErrV::ParseError("Invalid number of operands for 'debug'"@)))
            } else {
                (StateV { out: st.out + dump_lines(st), ..st }, Ok(None))
            }
        },
        Builtin::Base => {
            if args.len() != 1 {
                (st, Err(ErrV::ParseError("Invalid syntax for 'base'"@)))
            } else {
                eval_node(st, args[0], fuel)
            }
        },
        Builtin::Func => {
            if args.len() != 3 {
                (st, Err(ErrV::ParseError("Invalid syntax for 'func'"@)))
            } else {
                match args[0] {
                    AstV::Val(fname) => match args[1] {
                        AstV::Op(p0, pch) => match param_names(pch) {
                            None => (st, Err(ErrV::ParseError("Invalid parameter"@))),
                            Some(rest) => (
                                StateV {
                                    funcs: env_upsert(
                                        st.funcs,
                                        fname,
                                        FunV { params: seq![p0] + rest, body: args[2] },
                                    ),
                                    ..st
                                },
                                Ok(None),
                            ),
                        },
                        _ => (st, Err(ErrV::ParseError("Invalid function parameters"@))),
                    },
                    _ => (st, Err(ErrV::ParseError("Invalid function name"@))),
                }
            }
        },
    }
}

#[via_fn]
proof fn eval_builtin_dec(st: StateV, b: Builtin, args: Seq<AstV>, fuel: nat) {
    if args.len() > 0 {
        lemma_seq_size_index(args, 0);
    }
    if args.len() > 1 {
        lemma_seq_size_index(args, 1);
    }
    if args.len() > 2 {
        lemma_seq_size_index(args, 2);
        if let AstV::Op(en, ech) = args[2] {
            if ech.len() > 0 {
                lemma_seq_size_index(ech, 0);
            }
        }
    }
    if args.len() > 3 {
        lemma_seq_size_index(args, 3);
    }
}

/// The `add`/`mul` shape: evaluate everything, then fold from the seed.
pub open spec fn fold_group(st: StateV, k: Builtin, seed: i64, args: Seq<AstV>, fuel: nat) -> (
    StateV,
    Result<Option<ValV>, ErrV>,
)
    decreases fuel, seq_size(args), 1nat, 1int,
{
    let (st1, r) = eval_list(st, args, fuel);
    match r {
        Err(e) => (st1, Err(e)),
        Ok(vals) => match nums_of(vals) {
            None => (st1, Err(num_operand_err())),
            Some(nums) => match fold_arith(k, seed, nums) {
                Err(e) => (st1, Err(e)),
                Ok(n) => (st1, Ok(Some(ValV::Num(n)))),
            },
        },
    }
}

/// The arity message of each single-operand predicate.
pub open spec fn unary_arity_msg(b: Builtin) -> Seq<char> {
    match b {
        Builtin::ZeroQ => "Invalid number of operands for 'zero?'"@,
        Builtin::EvenQ => "Invalid number of operands for 'even?'"@,
        Builtin::OddQ => "Invalid number of operands for 'odd?'"@,
        Builtin::PosQ => "Invalid number of operands for 'pos?'"@,
        Builtin::NegQ => "Invalid number of operands for 'neg?'"@,
        _ => "Invalid number of operands for 'not'"@,
    }
}

/// What each single-operand predicate asks of its number.
pub open spec fn unary_pred(b: Builtin, n: i64) -> bool {
    match b {
        Builtin::ZeroQ => n == 0,
        Builtin::EvenQ => n as int % 2 == 0,
        Builtin::OddQ => n as int % 2 != 0,
        Builtin::PosQ => n > 0,
        Builtin::NegQ => n < 0,
        _ => n == 0,
    }
}

/// The arity message of each comparison.
pub open spec fn cmp_arity_msg(b: Builtin) -> Seq<char> {
    match b {
        Builtin::EqQ => "Invalid number of operands for 'eq?'"@,
        Builtin::NeqQ => "Invalid number of operands for 'neq?'"@,
        Builtin::LtQ => "Invalid number of operands for 'lt?'"@,
        Builtin::LteQ => "Invalid number of operands for 'le?'"@,
        Builtin::GtQ => "Invalid number of operands for 'gt?'"@,
        _ => "Invalid number of operands for 'ge?'"@,
    }
}

/// What each comparison asks of its two numbers.
pub open spec fn cmp_pred(b: Builtin, x: i64, y: i64) -> bool {
    match b {
        Builtin::EqQ => x == y,
        Builtin::NeqQ => x != y,
        Builtin::LtQ => x < y,
        Builtin::LteQ => x <= y,
        Builtin::GtQ => x > y,
        _ => x >= y,
    }
}

/// The slice `substring` takes: characters from `start`, covering
/// `end - start + 1` positions, clipped to the text.
pub open spec fn substring_of(t: Seq<char>, start: int, end: int) -> Seq<char> {
    let lo0 = if start < 0 {
        0
    } else {
        start
    };
    let lo = if lo0 > t.len() {
        t.len() as int
    } else {
        lo0
    };
    let cnt = if end - start + 1 < 0 {
        0
    } else {
        end - start + 1
    };
    let hi = if lo + cnt > t.len() {
        t.len() as int
    } else {
        lo + cnt
    };
    t.subrange(lo, hi)
}

/// A successful operand evaluation yields one result per operand.
pub proof fn lemma_eval_list_len(st: StateV, s: Seq<AstV>, fuel: nat)
    ensures
        eval_list(st, s, fuel).1 matches Ok(vals) ==> vals.len() == s.len(),
    decreases s.len(),
{
    if s.len() > 0 {
        let (st1, r) = eval_node(st, s[0], fuel);
        match r {
            Ok(v) => {
                lemma_eval_list_len(st1, s.subrange(1, s.len() as int), fuel);
            },
            Err(_) => {},
        }
    }
}

/// Reading the numbers out keeps the count.
pub proof fn lemma_nums_of_len(vals: Seq<Option<ValV>>)
    ensures
        nums_of(vals) matches Some(ns) ==> ns.len() == vals.len(),
    decreases vals.len(),
{
    if vals.len() > 0 {
        lemma_nums_of_len(vals.subrange(1, vals.len() as int));
    }
}

/// What one whole textual form does: tokenize, parse, evaluate, then
/// flush the output buffer. On success the result is the rendered value,
/// or the word `OK` for a form with no value, together with the flushed
/// lines; every error leaves the buffer in place.
pub open spec fn spec_eval(st: StateV, expr: Seq<char>) -> (StateV, Result<
    (Seq<char>, Seq<Seq<char>>),
    ErrV,
>) {
    let toks = spec_tokenize(expr);
    match spec_parse(toks, 0) {
        Err(e) => (st, Err(e)),
        Ok((node, consumed)) => {
            let (st1, r) = eval_node(st, node, CALL_FUEL as nat);
            match r {
                Err(e) => (st1, Err(e)),
                Ok(v) => (
                    StateV { vars: st1.vars, funcs: st1.funcs, out: Seq::empty() },
                    Ok(
                        (
                            match v {
                                Some(val) => render_val(val),
                                None => "OK"@,
                            },
                            st1.out,
                        ),
                    ),
                ),
            }
        },
    }
}

} // verus!
