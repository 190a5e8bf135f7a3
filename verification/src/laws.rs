//! The general properties of the evaluator, each proved once and for all
//! against the definitional semantics.

use vstd::prelude::*;
use crate::ast::{ast_size, seq_size, lemma_seq_size_index, AstV};
use crate::env::{
    env_lookup, env_set, env_upsert, lemma_env_idx, lemma_env_upsert_lookup,
    lemma_remove_unique_keys, lemma_set_unique_keys, lemma_upsert_unique_keys, unique_keys,
};
use crate::num::{lemma_parse_render_int, lemma_render_nat_digits, spec_render_int};
use crate::semantics::{
    bind_params, bool_num, classify, div_fold, eval_builtin, eval_list, eval_node, eval_op,
    for_loop, nums_of, spec_eval, switch_scan, Builtin, FunV, StateV,
};
use crate::value::{ErrV, ValV};

verus! {

/// Evaluating the decimal literal written for any number yields that
/// number unchanged, and leaves the state as it was.
pub proof fn lemma_literal_eval(st: StateV, n: i64, fuel: nat)
    ensures
        eval_node(st, AstV::Val(spec_render_int(n as int)), fuel) == (
            st,
            Ok::<Option<ValV>, ErrV>(Some(ValV::Num(n))),
        ),
{
    lemma_parse_render_int(n);
    let tok = spec_render_int(n as int);
    reveal_strlit("True");
    reveal_strlit("False");
    if n >= 0 {
        lemma_render_nat_digits(n as int);
        assert(48 <= tok[0] as u32 <= 57);
        assert(tok != "True"@ && tok != "False"@) by {
            if tok == "True"@ {
                assert(tok[0] == 'T');
            }
            if tok == "False"@ {
                assert(tok[0] == 'F');
            }
        }
    } else {
        assert(tok[0] == '-');
        assert(tok != "True"@ && tok != "False"@) by {
            if tok == "True"@ {
                assert(tok[0] == 'T');
            }
            if tok == "False"@ {
                assert(tok[0] == 'F');
            }
        }
    }
}

/// A `div` or `mod` whose next divisor evaluates to zero stops right
/// there with a division-by-zero error, whatever the accumulator and
/// whatever state the earlier operands left behind. Instantiating `st`
/// with the state reached before any operand position makes this the
/// statement that a zero divisor in any position always fails.
pub proof fn lemma_div_mod_zero(st: StateV, s: Seq<AstV>, acc: i64, want_div: bool, fuel: nat)
    requires
        s.len() > 0,
        eval_node(st, s[0], fuel).1 == Ok::<Option<ValV>, ErrV>(Some(ValV::Num(0))),
    ensures
        div_fold(st, s, acc, want_div, fuel) == (
            eval_node(st, s[0], fuel).0,
            Err::<Option<ValV>, ErrV>(ErrV::DivisionByZero),
        ),
{
}

/// A `div` or `mod` fold never returns a value once its next divisor
/// evaluates to zero: the error is `DivisionByZero` and nothing else.
pub proof fn lemma_div_mod_zero_never_value(
    st: StateV,
    s: Seq<AstV>,
    acc: i64,
    want_div: bool,
    fuel: nat,
)
    requires
        s.len() > 0,
        eval_node(st, s[0], fuel).1 == Ok::<Option<ValV>, ErrV>(Some(ValV::Num(0))),
    ensures
        !(div_fold(st, s, acc, want_div, fuel).1 is Ok),
{
    lemma_div_mod_zero(st, s, acc, want_div, fuel);
}

/// `let` on a name that is still bound after the value was computed
/// always fails, whatever the value evaluation did.
pub proof fn lemma_let_rejects_bound(st: StateV, args: Seq<AstV>, x: Seq<char>, fuel: nat)
    requires
        args.len() == 2,
        args[0] == AstV::Val(x),
        env_lookup(eval_node(st, args[1], fuel).0.vars, x) is Some,
    ensures
        eval_builtin(st, Builtin::LetVar, args, fuel).1 is Err,
{
}

/// `let` on a fresh name binds it: afterwards the name is bound to
/// exactly the computed value.
pub proof fn lemma_let_fresh_binds(
    st: StateV,
    args: Seq<AstV>,
    x: Seq<char>,
    st1: StateV,
    v: ValV,
    fuel: nat,
)
    requires
        args.len() == 2,
        args[0] == AstV::Val(x),
        eval_node(st, args[1], fuel) == (st1, Ok::<Option<ValV>, ErrV>(Some(v))),
        env_lookup(st1.vars, x) is None,
    ensures
        eval_builtin(st, Builtin::LetVar, args, fuel) == (
            StateV { vars: st1.vars.push((x, v)), funcs: st1.funcs, out: st1.out },
            Ok::<Option<ValV>, ErrV>(None),
        ),
        env_lookup(st1.vars.push((x, v)), x) == Some(v),
{
    lemma_env_idx(st1.vars, x);
    lemma_env_upsert_lookup(st1.vars, x, v, x);
    assert(env_upsert(st1.vars, x, v) == st1.vars.push((x, v)));
}

/// `set` on a bound name overwrites the binding in force: afterwards the
/// name is bound to exactly the computed value.
pub proof fn lemma_set_bound_updates(
    st: StateV,
    args: Seq<AstV>,
    x: Seq<char>,
    st1: StateV,
    v: ValV,
    fuel: nat,
)
    requires
        args.len() == 2,
        args[0] == AstV::Val(x),
        eval_node(st, args[1], fuel) == (st1, Ok::<Option<ValV>, ErrV>(Some(v))),
        env_lookup(st1.vars, x) is Some,
    ensures
        eval_builtin(st, Builtin::SetVar, args, fuel) == (
            StateV { vars: env_set(st1.vars, x, v), funcs: st1.funcs, out: st1.out },
            Ok::<Option<ValV>, ErrV>(None),
        ),
        env_lookup(env_set(st1.vars, x, v), x) == Some(v),
{
    lemma_env_idx(st1.vars, x);
    lemma_env_upsert_lookup(st1.vars, x, v, x);
    assert(env_upsert(st1.vars, x, v) == env_set(st1.vars, x, v));
}

/// `set` on an unbound name fails.
pub proof fn lemma_set_unbound_fails(
    st: StateV,
    args: Seq<AstV>,
    x: Seq<char>,
    st1: StateV,
    v: ValV,
    fuel: nat,
)
    requires
        args.len() == 2,
        args[0] == AstV::Val(x),
        eval_node(st, args[1], fuel) == (st1, Ok::<Option<ValV>, ErrV>(Some(v))),
        env_lookup(st1.vars, x) is None,
    ensures
        eval_builtin(st, Builtin::SetVar, args, fuel) == (
            st1,
            Err::<Option<ValV>, ErrV>(ErrV::ParseError("Variable not found"@)),
        ),
{
}

/// `get` returns the bound value untouched, and reports an unbound name
/// as variable-not-found.
pub proof fn lemma_get_semantics(st: StateV, args: Seq<AstV>, x: Seq<char>, fuel: nat)
    requires
        args.len() == 1,
        args[0] == AstV::Val(x),
    ensures
        env_lookup(st.vars, x) matches Some(v) ==> eval_builtin(st, Builtin::GetVar, args, fuel)
            == (st, Ok::<Option<ValV>, ErrV>(Some(v))),
        env_lookup(st.vars, x) is None ==> eval_builtin(st, Builtin::GetVar, args, fuel) == (
            st,
            Err::<Option<ValV>, ErrV>(ErrV::VariableNotFound(x)),
        ),
{
}

/// `del` on an unbound name fails with variable-not-found.
pub proof fn lemma_del_unbound_fails(st: StateV, args: Seq<AstV>, x: Seq<char>, fuel: nat)
    requires
        args.len() == 1,
        args[0] == AstV::Val(x),
        env_lookup(st.vars, x) is None,
    ensures
        eval_builtin(st, Builtin::DelVar, args, fuel) == (
            st,
            Err::<Option<ValV>, ErrV>(ErrV::VariableNotFound(x)),
        ),
{
}

/// A body whose evaluation never changes what `var` is bound to, from
/// any state it may be run in.
pub open spec fn preserves_var(body: AstV, var: Seq<char>, fuel: nat) -> bool {
    forall|s: StateV|
        env_lookup((#[trigger] eval_node(s, body, fuel)).0.vars, var) == env_lookup(s.vars, var)
}

/// After a `for` loop that ran at least once completes, its loop
/// variable remains bound in the shared environment and holds the final
/// iterated value, provided the body leaves that binding alone. (A body
/// that deletes or rebinds the variable, such as `(del i)`, is excluded:
/// for it the claim does not hold.)
pub proof fn lemma_for_leaves_final(
    st: StateV,
    var: Seq<char>,
    i: int,
    end: int,
    body: AstV,
    fuel: nat,
)
    requires
        i < end,
        preserves_var(body, var, fuel),
        for_loop(st, var, i, end, body, fuel).1 is Ok,
    ensures
        env_lookup(for_loop(st, var, i, end, body, fuel).0.vars, var) == Some(
            ValV::Num((end - 1) as i64),
        ),
    decreases end - i,
{
    let st1 = StateV { vars: env_upsert(st.vars, var, ValV::Num(i as i64)), ..st };
    lemma_env_upsert_lookup(st.vars, var, ValV::Num(i as i64), var);
    let (st2, r) = eval_node(st1, body, fuel);
    assert(env_lookup(st2.vars, var) == env_lookup(st1.vars, var));
    match r {
        Err(_) => {
            assert(false);
        },
        Ok(_) => {
            if i + 1 < end {
                lemma_for_leaves_final(st2, var, i + 1, end, body, fuel);
            } else {
                assert(for_loop(st2, var, i + 1, end, body, fuel) == (
                    st2,
                    Ok::<Option<ValV>, ErrV>(None),
                ));
            }
        },
    }
}

/// `and` and `or` evaluate every operand: their effect on the state is
/// exactly the effect of evaluating the whole operand list, even when an
/// early operand already decides the outcome; only the final boolean is
/// folded. When every operand yields a number, the result encodes
/// whether all (for `and`) or any (for `or`) of them are nonzero.
pub proof fn lemma_logic_evaluates_all(st: StateV, b: Builtin, args: Seq<AstV>, fuel: nat)
    requires
        b matches Builtin::And || b matches Builtin::Or,
        args.len() >= 2,
    ensures
        eval_builtin(st, b, args, fuel).0 == eval_list(st, args, fuel).0,
        ({
            let (st1, r) = eval_list(st, args, fuel);
            r matches Ok(vals) ==> match nums_of(vals) {
                Some(nums) => eval_builtin(st, b, args, fuel).1 == Ok::<Option<ValV>, ErrV>(
                    Some(
                        bool_num(
                            if (b matches Builtin::And) {
                                forall|j: int| 0 <= j < nums.len() ==> #[trigger] nums[j] != 0
                            } else {
                                exists|j: int| 0 <= j < nums.len() && #[trigger] nums[j] != 0
                            },
                        ),
                    ),
                ),
                None => eval_builtin(st, b, args, fuel).1 == Err::<Option<ValV>, ErrV>(
                    crate::semantics::num_operand_err(),
                ),
            }
        }),
{
}

/// Calling a user-defined function with the wrong operand count always
/// fails, before any operand is evaluated: the state is untouched.
pub proof fn lemma_call_wrong_arity(
    st: StateV,
    name: Seq<char>,
    f: FunV,
    args: Seq<AstV>,
    fuel: nat,
)
    requires
        classify(name) is None,
        crate::env::env_lookup(st.funcs, name) == Some(f),
        args.len() != f.params.len(),
    ensures
        eval_op(st, name, args, fuel) == (
            st,
            Err::<Option<ValV>, ErrV>(ErrV::ParseError("Invalid number of arguments"@)),
        ),
{
}

/// Naming something that is neither a builtin nor a defined function
/// fails with function-or-operator-not-found.
pub proof fn lemma_unknown_operator(st: StateV, name: Seq<char>, args: Seq<AstV>, fuel: nat)
    requires
        classify(name) is None,
        crate::env::env_lookup(st.funcs, name) is None,
    ensures
        eval_op(st, name, args, fuel) == (
            st,
            Err::<Option<ValV>, ErrV>(ErrV::FunctionOrOperatorNotFound(name)),
        ),
{
}

/// A well-formed state: no variable name and no function name is bound
/// twice.
pub open spec fn wf_state(st: StateV) -> bool {
    unique_keys(st.vars) && unique_keys(st.funcs)
}

/// Binding call parameters keeps the variable keys unique.
proof fn lemma_bind_wf(
    vars: Seq<(Seq<char>, ValV)>,
    params: Seq<Seq<char>>,
    vals: Seq<Option<ValV>>,
)
    requires
        unique_keys(vars),
    ensures
        unique_keys(bind_params(vars, params, vals)),
    decreases params.len(),
{
    if params.len() > 0 && vals.len() > 0 {
        let v2 = match vals[0] {
            Some(ValV::Num(n)) => env_upsert(vars, params[0], ValV::Num(n)),
            _ => vars,
        };
        match vals[0] {
            Some(ValV::Num(n)) => {
                lemma_upsert_unique_keys(vars, params[0], ValV::Num(n));
            },
            _ => {},
        }
        lemma_bind_wf(
            v2,
            params.subrange(1, params.len() as int),
            vals.subrange(1, vals.len() as int),
        );
    }
}

/// Evaluating any node keeps the state well formed.
pub proof fn lemma_node_wf(st: StateV, node: AstV, fuel: nat)
    requires
        wf_state(st),
    ensures
        wf_state(eval_node(st, node, fuel).0),
    decreases fuel, ast_size(node), 0nat, 0int,
{
    match node {
        AstV::Op(name, args) => {
            lemma_op_wf(st, name, args, fuel);
        },
        _ => {},
    }
}

/// Evaluating an operand list keeps the state well formed.
proof fn lemma_list_wf(st: StateV, s: Seq<AstV>, fuel: nat)
    requires
        wf_state(st),
    ensures
        wf_state(eval_list(st, s, fuel).0),
    decreases fuel, seq_size(s), 1nat, 0int,
{
    if s.len() > 0 {
        let (st1, r) = eval_node(st, s[0], fuel);
        lemma_node_wf(st, s[0], fuel);
        match r {
            Ok(_) => {
                lemma_list_wf(st1, s.subrange(1, s.len() as int), fuel);
            },
            Err(_) => {},
        }
    }
}

/// The `div`/`mod` fold keeps the state well formed.
proof fn lemma_divfold_wf(st: StateV, s: Seq<AstV>, acc: i64, want_div: bool, fuel: nat)
    requires
        wf_state(st),
    ensures
        wf_state(div_fold(st, s, acc, want_div, fuel).0),
    decreases fuel, seq_size(s), 1nat, 0int,
{
    if s.len() > 0 {
        let (st1, r) = eval_node(st, s[0], fuel);
        lemma_node_wf(st, s[0], fuel);
        match r {
            Ok(Some(ValV::Num(d))) => {
                if d != 0 {
                    let step = if want_div {
                        crate::semantics::rng(crate::semantics::trunc_div(acc as int, d as int))
                    } else {
                        crate::semantics::rng(crate::semantics::trunc_rem(acc as int, d as int))
                    };
                    match step {
                        Ok(a2) => {
                            lemma_divfold_wf(
                                st1,
                                s.subrange(1, s.len() as int),
                                a2,
                                want_div,
                                fuel,
                            );
                        },
                        Err(_) => {},
                    }
                }
            },
            _ => {},
        }
    }
}

/// The `switch` scan keeps the state well formed.
proof fn lemma_switch_wf(
    st: StateV,
    args: Seq<AstV>,
    i: int,
    sel: i64,
    dflt: Option<int>,
    fuel: nat,
)
    requires
        wf_state(st),
    ensures
        wf_state(switch_scan(st, args, i, sel, dflt, fuel).0),
    decreases fuel, seq_size(args), 1nat, args.len() - i,
{
    if !(0 <= i < args.len()) {
        match dflt {
            Some(di) => {
                if 0 <= di < args.len() {
                    lemma_seq_size_index(args, di);
                    match args[di] {
                        AstV::Op(dn, dch) => {
                            if dch.len() == 1 {
                                lemma_seq_size_index(dch, 0);
                                lemma_node_wf(st, dch[0], fuel);
                            }
                        },
                        _ => {},
                    }
                }
            },
            None => {},
        }
    } else {
        lemma_seq_size_index(args, i);
        match args[i] {
            AstV::Op(cn, cch) => {
                if cn == "case"@ {
                    if cch.len() == 2 {
                        lemma_seq_size_index(cch, 0);
                        lemma_seq_size_index(cch, 1);
                        let (st1, r) = eval_node(st, cch[0], fuel);
                        lemma_node_wf(st, cch[0], fuel);
                        match r {
                            Ok(Some(ValV::Num(cv))) => {
                                if cv == sel {
                                    lemma_node_wf(st1, cch[1], fuel);
                                } else {
                                    lemma_switch_wf(st1, args, i + 1, sel, dflt, fuel);
                                }
                            },
                            _ => {},
                        }
                    }
                } else if cn == "default"@ {
                    if cch.len() == 1 {
                        lemma_switch_wf(st, args, i + 1, sel, Some(i), fuel);
                    }
                }
            },
            _ => {},
        }
    }
}

/// The `for` loop keeps the state well formed.
proof fn lemma_forloop_wf(st: StateV, var: Seq<char>, i: int, end: int, body: AstV, fuel: nat)
    requires
        wf_state(st),
    ensures
        wf_state(for_loop(st, var, i, end, body, fuel).0),
    decreases fuel, ast_size(body), 1nat, (if i < end { end - i } else { 0 }),
{
    if i < end {
        lemma_upsert_unique_keys(st.vars, var, ValV::Num(i as i64));
        let st1 = StateV { vars: env_upsert(st.vars, var, ValV::Num(i as i64)), ..st };
        let (st2, r) = eval_node(st1, body, fuel);
        lemma_node_wf(st1, body, fuel);
        match r {
            Ok(_) => {
                lemma_forloop_wf(st2, var, i + 1, end, body, fuel);
            },
            Err(_) => {},
        }
    }
}

/// Dispatching any form keeps the state well formed.
proof fn lemma_op_wf(st: StateV, name: Seq<char>, args: Seq<AstV>, fuel: nat)
    requires
        wf_state(st),
    ensures
        wf_state(eval_op(st, name, args, fuel).0),
    decreases fuel, seq_size(args), 3nat, 0int,
{
    match classify(name) {
        Some(b) => {
            lemma_builtin_wf(st, b, args, fuel);
        },
        None => {
            match env_lookup(st.funcs, name) {
                None => {},
                Some(f) => {
                    if args.len() == f.params.len() && fuel > 0 {
                        let (st1, r) = eval_list(st, args, fuel);
                        lemma_list_wf(st, args, fuel);
                        match r {
                            Err(_) => {},
                            Ok(vals) => {
                                lemma_bind_wf(st1.vars, f.params, vals);
                                let callst = StateV {
                                    vars: bind_params(st1.vars, f.params, vals),
                                    funcs: st1.funcs,
                                    out: Seq::empty(),
                                };
                                lemma_node_wf(callst, f.body, (fuel - 1) as nat);
                            },
                        }
                    }
                },
            }
        },
    }
}

/// Every builtin keeps the state well formed.
proof fn lemma_builtin_wf(st: StateV, b: Builtin, args: Seq<AstV>, fuel: nat)
    requires
        wf_state(st),
    ensures
        wf_state(eval_builtin(st, b, args, fuel).0),
    decreases fuel, seq_size(args), 2nat, 0int,
{
    if args.len() > 0 {
        lemma_seq_size_index(args, 0);
    }
    if args.len() > 1 {
        lemma_seq_size_index(args, 1);
    }
    if args.len() > 2 {
        lemma_seq_size_index(args, 2);
    }
    if args.len() > 3 {
        lemma_seq_size_index(args, 3);
    }
    match b {
        Builtin::Add | Builtin::Mul | Builtin::Sub | Builtin::Max | Builtin::Min | Builtin::And
            | Builtin::Or | Builtin::Concat | Builtin::Print => {
            lemma_list_wf(st, args, fuel);
        },
        Builtin::Div | Builtin::Mod => {
            if args.len() > 0 {
                let (st1, r) = eval_node(st, args[0], fuel);
                lemma_node_wf(st, args[0], fuel);
                match r {
                    Ok(Some(ValV::Num(n))) => {
                        lemma_divfold_wf(
                            st1,
                            args.subrange(1, args.len() as int),
                            n,
                            b matches Builtin::Div,
                            fuel,
                        );
                    },
                    _ => {},
                }
            }
        },
        Builtin::Pow | Builtin::EqQ | Builtin::NeqQ | Builtin::LtQ | Builtin::LteQ
            | Builtin::GtQ | Builtin::GteQ => {
            if args.len() == 2 {
                let (st1, r) = eval_node(st, args[0], fuel);
                lemma_node_wf(st, args[0], fuel);
                match r {
                    Ok(Some(ValV::Num(_))) => {
                        lemma_node_wf(st1, args[1], fuel);
                    },
                    _ => {},
                }
            }
        },
        Builtin::Sqrt | Builtin::Abs | Builtin::ZeroQ | Builtin::EvenQ | Builtin::OddQ
            | Builtin::PosQ | Builtin::NegQ | Builtin::Not | Builtin::Len | Builtin::Exit => {
            if args.len() == 1 {
                lemma_node_wf(st, args[0], fuel);
            }
        },
        Builtin::If => {
            if args.len() >= 2 {
                let (st1, r) = eval_node(st, args[0], fuel);
                lemma_node_wf(st, args[0], fuel);
                match r {
                    Ok(Some(ValV::Num(c))) => {
                        if c != 0 {
                            lemma_node_wf(st1, args[1], fuel);
                        } else if args.len() > 2 {
                            match args[2] {
                                AstV::Op(en, ech) => {
                                    if en == "else"@ && ech.len() == 1 {
                                        lemma_seq_size_index(ech, 0);
                                        lemma_node_wf(st1, ech[0], fuel);
                                    }
                                },
                                _ => {},
                            }
                        }
                    },
                    _ => {},
                }
            }
        },
        Builtin::Switch => {
            if args.len() >= 2 {
                let (st1, r) = eval_node(st, args[0], fuel);
                lemma_node_wf(st, args[0], fuel);
                match r {
                    Ok(Some(ValV::Num(sel))) => {
                        lemma_switch_wf(st1, args, 1, sel, None, fuel);
                    },
                    _ => {},
                }
            }
        },
        Builtin::LetVar | Builtin::SetVar => {
            if args.len() == 2 {
                match args[0] {
                    AstV::Val(var) => {
                        let (st1, r) = eval_node(st, args[1], fuel);
                        lemma_node_wf(st, args[1], fuel);
                        match r {
                            Ok(Some(v)) => {
                                lemma_env_idx(st1.vars, var);
                                if (b matches Builtin::LetVar) && env_lookup(st1.vars, var)
                                    is None {
                                    lemma_upsert_unique_keys(st1.vars, var, v);
                                    assert(env_upsert(st1.vars, var, v) == st1.vars.push(
                                        (var, v),
                                    ));
                                }
                                if (b matches Builtin::SetVar) && env_lookup(st1.vars, var)
                                    is Some {
                                    lemma_set_unique_keys(st1.vars, var, v);
                                }
                            },
                            _ => {},
                        }
                    },
                    _ => {},
                }
            }
        },
        Builtin::DelVar => {
            if args.len() == 1 {
                match args[0] {
                    AstV::Val(var) => {
                        if env_lookup(st.vars, var) is Some {
                            lemma_remove_unique_keys(st.vars, var);
                        }
                    },
                    _ => {},
                }
            }
        },
        Builtin::For => {
            if args.len() == 4 {
                match args[0] {
                    AstV::Val(var) => {
                        let (st1, r) = eval_node(st, args[1], fuel);
                        lemma_node_wf(st, args[1], fuel);
                        match r {
                            Ok(Some(ValV::Num(s0))) => {
                                let (st2, r2) = eval_node(st1, args[2], fuel);
                                lemma_node_wf(st1, args[2], fuel);
                                match r2 {
                                    Ok(Some(ValV::Num(e0))) => {
                                        lemma_forloop_wf(
                                            st2,
                                            var,
                                            s0 as int,
                                            e0 as int,
                                            args[3],
                                            fuel,
                                        );
                                    },
                                    _ => {},
                                }
                            },
                            _ => {},
                        }
                    },
                    _ => {},
                }
            }
        },
        Builtin::Substring => {
            if args.len() == 3 {
                let (st1, r) = eval_node(st, args[0], fuel);
                lemma_node_wf(st, args[0], fuel);
                match r {
                    Ok(Some(ValV::Text(_))) => {
                        let (st2, r2) = eval_node(st1, args[1], fuel);
                        lemma_node_wf(st1, args[1], fuel);
                        match r2 {
                            Ok(Some(ValV::Num(_))) => {
                                lemma_node_wf(st2, args[2], fuel);
                            },
                            _ => {},
                        }
                    },
                    _ => {},
                }
            }
        },
        Builtin::GetVar | Builtin::Debug => {},
        Builtin::Base => {
            if args.len() == 1 {
                lemma_node_wf(st, args[0], fuel);
            }
        },
        Builtin::Func => {
            if args.len() == 3 {
                match (args[0], args[1]) {
                    (AstV::Val(fname), AstV::Op(p0, pch)) => {
                        match crate::semantics::param_names(pch) {
                            Some(rest) => {
                                lemma_upsert_unique_keys(
                                    st.funcs,
                                    fname,
                                    FunV { params: seq![p0] + rest, body: args[2] },
                                );
                            },
                            None => {},
                        }
                    },
                    _ => {},
                }
            }
        },
    }
}

/// Names stay unique for the life of one interpreter instance: a state
/// with unique variable and function names evaluates any top-level form
/// into a state with unique variable and function names.
pub proof fn lemma_eval_keeps_unique_names(st: StateV, expr: Seq<char>)
    requires
        wf_state(st),
    ensures
        wf_state(spec_eval(st, expr).0),
{
    let toks = crate::token::spec_tokenize(expr);
    match crate::parser::spec_parse(toks, 0) {
        Err(_) => {},
        Ok((node, consumed)) => {
            lemma_node_wf(st, node, crate::semantics::CALL_FUEL as nat);
        },
    }
}

} // verus!
