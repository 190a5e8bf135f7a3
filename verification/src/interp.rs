//! The interpreter: mutable state and the executable evaluator, proved
//! equal to the definitional evaluator in `semantics`.

use vstd::prelude::*;
use crate::arith::{
    div_exec, fold_arith_exec, fold_max_exec, fold_min_exec, isqrt_exec, pow_exec, rem_exec,
};
use crate::ast::{ASTNode, ast_view, ast_view_seq, lemma_ast_view_seq};
use crate::env::{env_find, env_upsert, lemma_env_idx_absent, lemma_env_idx_is};
use crate::num::{parse_int, render_int};
use crate::semantics::{
    bind_params, classify, concat_vals, dump_funcs, dump_lines, dump_vars, eval_atom,
    eval_builtin, eval_list, eval_node, eval_op, div_fold, for_loop, is_ws, join_params, nums_of,
    param_names, print_parts, render_val, spec_eval, switch_scan, trim_end_ws, Builtin, FunV,
    StateV, CALL_FUEL,
};
use crate::strutil::{append_str, str_eq};
use crate::token::{strs_view, tokenize};
use crate::value::{ErrV, ErrorHandler, ValV, VariableValue};

verus! {

/// A user-defined function: its parameter names, in order, and the
/// unevaluated body, stored as parsed.
pub struct FunctionDef {
    pub params: Vec<String>,
    pub body: ASTNode,
}

impl View for FunctionDef {
    type V = FunV;

    open spec fn view(&self) -> FunV {
        FunV { params: strs_view(self.params@), body: ast_view(self.body) }
    }
}

impl FunctionDef {
    /// Deep copy; the copy has the same abstract shape.
    pub fn duplicate(&self) -> (r: FunctionDef)
        ensures
            r@ == self@,
    {
        let r = FunctionDef { params: clone_strings(&self.params), body: self.body.duplicate() };
        r
    }
}

/// The abstraction of a variable table.
pub open spec fn vars_view(s: Seq<(String, VariableValue)>) -> Seq<(Seq<char>, ValV)> {
    s.map_values(|p: (String, VariableValue)| (p.0@, p.1@))
}

/// The abstraction of a function table.
pub open spec fn funcs_view(s: Seq<(String, FunctionDef)>) -> Seq<(Seq<char>, FunV)> {
    s.map_values(|p: (String, FunctionDef)| (p.0@, p.1@))
}

/// The abstraction of a list of evaluated operands.
pub open spec fn opts_view(s: Seq<Option<VariableValue>>) -> Seq<Option<ValV>> {
    s.map_values(
        |o: Option<VariableValue>|
            match o {
                Some(v) => Some(v@),
                None => None,
            },
    )
}

/// One interpreter instance: its variables, its functions, and the
/// output buffered by `print` during the current top-level evaluation.
pub struct Interpreter {
    pub variables: Vec<(String, VariableValue)>,
    pub functions: Vec<(String, FunctionDef)>,
    pub output: Vec<String>,
}

impl View for Interpreter {
    type V = StateV;

    open spec fn view(&self) -> StateV {
        StateV {
            vars: vars_view(self.variables@),
            funcs: funcs_view(self.functions@),
            out: strs_view(self.output@),
        }
    }
}

/// How an exec evaluation result relates to a specified one.
pub open spec fn res_matches(
    r: Result<Option<VariableValue>, ErrorHandler>,
    s: Result<Option<ValV>, ErrV>,
) -> bool {
    match (r, s) {
        (Ok(a), Ok(b)) => match (a, b) {
            (None, None) => true,
            (Some(x), Some(y)) => x@ == y,
            _ => false,
        },
        (Err(e), Err(ev)) => e@ == ev,
        _ => false,
    }
}

/// How an exec operand list relates to a specified one.
pub open spec fn list_matches(
    r: Result<Vec<Option<VariableValue>>, ErrorHandler>,
    s: Result<Seq<Option<ValV>>, ErrV>,
) -> bool {
    match (r, s) {
        (Ok(a), Ok(b)) => opts_view(a@) == b,
        (Err(e), Err(ev)) => e@ == ev,
        _ => false,
    }
}

/// Copies a list of strings.
pub fn clone_strings(v: &Vec<String>) -> (r: Vec<String>)
    ensures
        strs_view(r@) == strs_view(v@),
{
    let mut r: Vec<String> = Vec::new();
    let mut i: usize = 0;
    while i < v.len()
        invariant
            i <= v@.len(),
            r@.len() == i,
            forall|j: int| 0 <= j < i ==> (#[trigger] r@[j])@ == v@[j]@,
        decreases v@.len() - i,
    {
        r.push(v[i].clone());
        i = i + 1;
    }
    proof {
        assert(strs_view(r@) =~= strs_view(v@));
    }
    r
}

/// Copies a variable table.
fn clone_vars(v: &Vec<(String, VariableValue)>) -> (r: Vec<(String, VariableValue)>)
    ensures
        vars_view(r@) == vars_view(v@),
{
    let mut r: Vec<(String, VariableValue)> = Vec::new();
    let mut i: usize = 0;
    while i < v.len()
        invariant
            i <= v@.len(),
            r@.len() == i,
            forall|j: int|
                0 <= j < i ==> (#[trigger] r@[j]).0@ == v@[j].0@ && r@[j].1@ == v@[j].1@,
        decreases v@.len() - i,
    {
        let name = v[i].0.clone();
        let val = v[i].1.duplicate();
        r.push((name, val));
        i = i + 1;
    }
    proof {
        assert(vars_view(r@) =~= vars_view(v@));
    }
    r
}

/// Copies a function table.
fn clone_funcs(v: &Vec<(String, FunctionDef)>) -> (r: Vec<(String, FunctionDef)>)
    ensures
        funcs_view(r@) == funcs_view(v@),
{
    let mut r: Vec<(String, FunctionDef)> = Vec::new();
    let mut i: usize = 0;
    while i < v.len()
        invariant
            i <= v@.len(),
            r@.len() == i,
            forall|j: int|
                0 <= j < i ==> (#[trigger] r@[j]).0@ == v@[j].0@ && r@[j].1@ == v@[j].1@,
        decreases v@.len() - i,
    {
        let name = v[i].0.clone();
        let def = v[i].1.duplicate();
        r.push((name, def));
        i = i + 1;
    }
    proof {
        assert(funcs_view(r@) =~= funcs_view(v@));
    }
    r
}

/// Writes a binding: overwrites the one in force or appends a new one.
fn upsert_var(v: &mut Vec<(String, VariableValue)>, name: &String, val: VariableValue)
    ensures
        vars_view(final(v)@) == env_upsert(vars_view(old(v)@), name@, val@),
{
    let ghost vv = vars_view(v@);
    match env_find(v, name.as_str()) {
        Some(i) => {
            proof {
                lemma_env_idx_is(vv, name@, i as int);
            }
            v.remove(i);
            v.insert(i, (name.clone(), val));
            proof {
                assert(vars_view(v@) =~= vv.update(i as int, (name@, val@)));
            }
        },
        None => {
            proof {
                lemma_env_idx_absent(vv, name@);
            }
            v.push((name.clone(), val));
            proof {
                assert(vars_view(v@) =~= vv.push((name@, val@)));
            }
        },
    }
}

/// Which builtin, if any, an operator keyword names.
pub fn lookup_builtin(name: &str) -> (r: Option<Builtin>)
    ensures
        r == classify(name@),
{
    if str_eq(name, "add") {
        Some(Builtin::Add)
    } else if str_eq(name, "sub") {
        Some(Builtin::Sub)
    } else if str_eq(name, "mul") {
        Some(Builtin::Mul)
    } else if str_eq(name, "div") {
        Some(Builtin::Div)
    } else if str_eq(name, "mod") {
        Some(Builtin::Mod)
    } else if str_eq(name, "max") {
        Some(Builtin::Max)
    } else if str_eq(name, "min") {
        Some(Builtin::Min)
    } else if str_eq(name, "pow") {
        Some(Builtin::Pow)
    } else if str_eq(name, "sqrt") {
        Some(Builtin::Sqrt)
    } else if str_eq(name, "abs") {
        Some(Builtin::Abs)
    } else if str_eq(name, "if") {
        Some(Builtin::If)
    } else if str_eq(name, "switch") {
        Some(Builtin::Switch)
    } else if str_eq(name, "zero?") {
        Some(Builtin::ZeroQ)
    } else if str_eq(name, "even?") {
        Some(Builtin::EvenQ)
    } else if str_eq(name, "odd?") {
        Some(Builtin::OddQ)
    } else if str_eq(name, "pos?") {
        Some(Builtin::PosQ)
    } else if str_eq(name, "neg?") {
        Some(Builtin::NegQ)
    } else if str_eq(name, "eq?") {
        Some(Builtin::EqQ)
    } else if str_eq(name, "neq?") {
        Some(Builtin::NeqQ)
    } else if str_eq(name, "lt?") {
        Some(Builtin::LtQ)
    } else if str_eq(name, "lte?") {
        Some(Builtin::LteQ)
    } else if str_eq(name, "gt?") {
        Some(Builtin::GtQ)
    } else if str_eq(name, "gte?") {
        Some(Builtin::GteQ)
    } else if str_eq(name, "and") {
        Some(Builtin::And)
    } else if str_eq(name, "or") {
        Some(Builtin::Or)
    } else if str_eq(name, "not") {
        Some(Builtin::Not)
    } else if str_eq(name, "let") {
        Some(Builtin::LetVar)
    } else if str_eq(name, "set") {
        Some(Builtin::SetVar)
    } else if str_eq(name, "get") {
        Some(Builtin::GetVar)
    } else if str_eq(name, "del") {
        Some(Builtin::DelVar)
    } else if str_eq(name, "for") {
        Some(Builtin::For)
    } else if str_eq(name, "concat") {
        Some(Builtin::Concat)
    } else if str_eq(name, "len") {
        Some(Builtin::Len)
    } else if str_eq(name, "substring") {
        Some(Builtin::Substring)
    } else if str_eq(name, "print") {
        Some(Builtin::Print)
    } else if str_eq(name, "exit") {
        Some(Builtin::Exit)
    } else if str_eq(name, "debug") {
        Some(Builtin::Debug)
    } else if str_eq(name, "base") {
        Some(Builtin::Base)
    } else if str_eq(name, "func") {
        Some(Builtin::Func)
    } else {
        None
    }
}

/// Writes a value out: numbers in decimal, text as it is.
pub fn render_value(v: &VariableValue) -> (s: String)
    ensures
        s@ == render_val(v@),
{
    match v {
        VariableValue::Number(n) => render_int(*n),
        VariableValue::Text(t) => t.clone(),
    }
}

/// Removes trailing whitespace from a line.
pub fn trim_line(s: &String) -> (r: String)
    ensures
        r@ == trim_end_ws(s@),
{
    let n = s.as_str().unicode_len();
    let mut k: usize = n;
    while k > 0
        invariant
            k <= n,
            n == s@.len(),
            forall|j: int| k <= j < s@.len() ==> is_ws(#[trigger] s@[j]),
        ensures
            k <= n,
            forall|j: int| k <= j < s@.len() ==> is_ws(#[trigger] s@[j]),
            k > 0 ==> !is_ws(s@[k - 1]),
        decreases k,
    {
        let c = s.as_str().get_char(k - 1);
        if !(c == ' ' || c == '\t' || c == '\n' || c == '\r') {
            break;
        }
        k = k - 1;
    }
    proof {
        crate::semantics::lemma_trim_end_at(s@, k as int);
    }
    let r = s.as_str().substring_char(0, k).to_owned();
    proof {
        assert(s@.subrange(0, k as int) =~= s@.take(k as int));
    }
    r
}

/// The numbers behind the evaluated operands from `idx` on, if every one
/// of them is a number.
fn vals_to_nums(vals: &Vec<Option<VariableValue>>, idx: usize) -> (r: Option<Vec<i64>>)
    requires
        idx <= vals@.len(),
    ensures
        match (r, nums_of(opts_view(vals@).subrange(idx as int, vals@.len() as int))) {
            (Some(a), Some(b)) => a@ == b,
            (None, None) => true,
            _ => false,
        },
    decreases vals@.len() - idx,
{
    let ghost tail = opts_view(vals@).subrange(idx as int, vals@.len() as int);
    if idx == vals.len() {
        proof {
            assert(tail.len() == 0);
            assert(Seq::<i64>::empty() =~= nums_of(tail).unwrap());
        }
        Some(Vec::new())
    } else {
        proof {
            assert(tail[0] == opts_view(vals@)[idx as int]);
            assert(tail.subrange(1, tail.len() as int) =~= opts_view(vals@).subrange(
                idx + 1,
                vals@.len() as int,
            ));
        }
        match &vals[idx] {
            Some(VariableValue::Number(n)) => {
                match vals_to_nums(vals, idx + 1) {
                    Some(rest) => {
                        let mut out = rest;
                        out.insert(0, *n);
                        proof {
                            assert(out@ =~= seq![*n] + out@.subrange(1, out@.len() as int));
                        }
                        Some(out)
                    },
                    None => None,
                }
            },
            _ => None,
        }
    }
}

/// Builds what `print` writes before trimming, from `idx` on.
fn print_parts_exec(vals: &Vec<Option<VariableValue>>, idx: usize) -> (r: Result<
    String,
    ErrorHandler,
>)
    requires
        idx <= vals@.len(),
    ensures
        match (r, print_parts(opts_view(vals@).subrange(idx as int, vals@.len() as int))) {
            (Ok(a), Ok(b)) => a@ == b,
            (Err(e), Err(ev)) => e@ == ev,
            _ => false,
        },
    decreases vals@.len() - idx,
{
    let ghost tail = opts_view(vals@).subrange(idx as int, vals@.len() as int);
    if idx == vals.len() {
        proof {
            assert(tail.len() == 0);
        }
        Ok(String::new())
    } else {
        proof {
            assert(tail[0] == opts_view(vals@)[idx as int]);
            assert(tail.subrange(1, tail.len() as int) =~= opts_view(vals@).subrange(
                idx + 1,
                vals@.len() as int,
            ));
        }
        match &vals[idx] {
            Some(v) => match print_parts_exec(vals, idx + 1) {
                Ok(rest) => {
                    let mut line = render_value(v);
                    append_str(&mut line, " ");
                    append_str(&mut line, rest.as_str());
                    Ok(line)
                },
                Err(e) => Err(e),
            },
            None => Err(ErrorHandler::ParseError("Invalid print syntax".to_owned())),
        }
    }
}

/// Builds what `concat` returns, from `idx` on.
fn concat_exec(vals: &Vec<Option<VariableValue>>, idx: usize) -> (r: Result<String, ErrorHandler>)
    requires
        idx <= vals@.len(),
    ensures
        match (r, concat_vals(opts_view(vals@).subrange(idx as int, vals@.len() as int))) {
            (Ok(a), Ok(b)) => a@ == b,
            (Err(e), Err(ev)) => e@ == ev,
            _ => false,
        },
    decreases vals@.len() - idx,
{
    let ghost tail = opts_view(vals@).subrange(idx as int, vals@.len() as int);
    if idx == vals.len() {
        proof {
            assert(tail.len() == 0);
        }
        Ok(String::new())
    } else {
        proof {
            assert(tail[0] == opts_view(vals@)[idx as int]);
            assert(tail.subrange(1, tail.len() as int) =~= opts_view(vals@).subrange(
                idx + 1,
                vals@.len() as int,
            ));
        }
        match &vals[idx] {
            Some(v) => match concat_exec(vals, idx + 1) {
                Ok(rest) => {
                    let mut line = render_value(v);
                    append_str(&mut line, rest.as_str());
                    Ok(line)
                },
                Err(e) => Err(e),
            },
            None => Err(ErrorHandler::ParseError("Invalid concat syntax".to_owned())),
        }
    }
}

/// Reads the parameter names of a `func` form, from `idx` on.
fn params_of(children: &Vec<ASTNode>, idx: usize) -> (r: Option<Vec<String>>)
    requires
        idx <= children@.len(),
    ensures
        match (r, param_names(ast_view_seq(children@).subrange(idx as int, children@.len() as int))) {
            (Some(a), Some(b)) => strs_view(a@) == b,
            (None, None) => true,
            _ => false,
        },
    decreases children@.len() - idx,
{
    proof {
        lemma_ast_view_seq(children@);
    }
    let ghost tail = ast_view_seq(children@).subrange(idx as int, children@.len() as int);
    if idx == children.len() {
        proof {
            assert(tail.len() == 0);
            assert(strs_view(Seq::<String>::empty()) =~= Seq::<Seq<char>>::empty());
        }
        Some(Vec::new())
    } else {
        proof {
            assert(tail[0] == ast_view_seq(children@)[idx as int]);
            assert(tail.subrange(1, tail.len() as int) =~= ast_view_seq(children@).subrange(
                idx + 1,
                children@.len() as int,
            ));
        }
        match &children[idx] {
            ASTNode::Value(name) => {
                match params_of(children, idx + 1) {
                    Some(rest) => {
                        let mut out = rest;
                        out.insert(0, name.clone());
                        proof {
                            assert(strs_view(out@) =~= seq![name@] + strs_view(
                                out@.subrange(1, out@.len() as int),
                            ));
                        }
                        Some(out)
                    },
                    None => None,
                }
            },
            _ => None,
        }
    }
}

/// Binds each parameter whose argument came out numeric.
fn bind_params_exec(
    vars: &mut Vec<(String, VariableValue)>,
    params: &Vec<String>,
    vals: &Vec<Option<VariableValue>>,
    idx: usize,
)
    requires
        idx <= params@.len(),
        idx <= vals@.len(),
        params@.len() == vals@.len(),
    ensures
        vars_view(final(vars)@) == bind_params(
            vars_view(old(vars)@),
            strs_view(params@).subrange(idx as int, params@.len() as int),
            opts_view(vals@).subrange(idx as int, vals@.len() as int),
        ),
    decreases params@.len() - idx,
{
    let ghost ptail = strs_view(params@).subrange(idx as int, params@.len() as int);
    let ghost vtail = opts_view(vals@).subrange(idx as int, vals@.len() as int);
    if idx == params.len() {
        proof {
            assert(ptail.len() == 0);
        }
    } else {
        proof {
            assert(ptail[0] == params@[idx as int]@);
            assert(vtail[0] == opts_view(vals@)[idx as int]);
            assert(ptail.subrange(1, ptail.len() as int) =~= strs_view(params@).subrange(
                idx + 1,
                params@.len() as int,
            ));
            assert(vtail.subrange(1, vtail.len() as int) =~= opts_view(vals@).subrange(
                idx + 1,
                vals@.len() as int,
            ));
        }
        match &vals[idx] {
            Some(VariableValue::Number(n)) => {
                upsert_var(vars, &params[idx], VariableValue::Number(*n));
            },
            _ => {},
        }
        bind_params_exec(vars, params, vals, idx + 1);
    }
}

/// The lines `debug` emits for the variable table.
fn dump_vars_exec(v: &Vec<(String, VariableValue)>) -> (r: Vec<String>)
    ensures
        strs_view(r@) == dump_vars(vars_view(v@)),
{
    let ghost vv = vars_view(v@);
    let mut out: Vec<String> = Vec::new();
    let mut i: usize = 0;
    proof {
        assert(vv.subrange(0, vv.len() as int) =~= vv);
        assert(strs_view(out@) =~= Seq::<Seq<char>>::empty());
    }
    while i < v.len()
        invariant
            i <= v@.len(),
            vv == vars_view(v@),
            dump_vars(vv) == strs_view(out@) + dump_vars(
                vv.subrange(i as int, vv.len() as int),
            ),
        decreases v@.len() - i,
    {
        let ghost tail = vv.subrange(i as int, vv.len() as int);
        proof {
            assert(tail[0] == vv[i as int]);
            assert(tail.subrange(1, tail.len() as int) =~= vv.subrange(
                i + 1,
                vv.len() as int,
            ));
        }
        let mut line = v[i].0.clone();
        append_str(&mut line, ": ");
        let rv = render_value(&v[i].1);
        append_str(&mut line, rv.as_str());
        out.push(line);
        i = i + 1;
        proof {
            assert(strs_view(out@) =~= strs_view(out@.drop_last()) + seq![out@.last()@]);
            assert(strs_view(out@.drop_last()) + (seq![vv[i - 1].0 + ": "@ + render_val(
                vv[i - 1].1,
            )] + dump_vars(vv.subrange(i as int, vv.len() as int))) =~= strs_view(out@)
                + dump_vars(vv.subrange(i as int, vv.len() as int)));
        }
    }
    proof {
        assert(vv.subrange(v@.len() as int, vv.len() as int).len() == 0);
        assert(strs_view(out@) + Seq::<Seq<char>>::empty() =~= strs_view(out@));
    }
    out
}

/// A function's parameter names joined by single spaces, from `idx` on.
fn join_params_exec(params: &Vec<String>, idx: usize) -> (r: String)
    requires
        idx <= params@.len(),
    ensures
        r@ == join_params(strs_view(params@).subrange(idx as int, params@.len() as int)),
    decreases params@.len() - idx,
{
    let ghost tail = strs_view(params@).subrange(idx as int, params@.len() as int);
    if idx == params.len() {
        proof {
            assert(tail.len() == 0);
        }
        String::new()
    } else if idx + 1 == params.len() {
        proof {
            assert(tail.len() == 1);
            assert(tail[0] == params@[idx as int]@);
        }
        params[idx].clone()
    } else {
        proof {
            assert(tail[0] == params@[idx as int]@);
            assert(tail.subrange(1, tail.len() as int) =~= strs_view(params@).subrange(
                idx + 1,
                params@.len() as int,
            ));
        }
        let mut line = params[idx].clone();
        append_str(&mut line, " ");
        let rest = join_params_exec(params, idx + 1);
        append_str(&mut line, rest.as_str());
        line
    }
}

/// The lines `debug` emits for the function table.
fn dump_funcs_exec(v: &Vec<(String, FunctionDef)>) -> (r: Vec<String>)
    ensures
        strs_view(r@) == dump_funcs(funcs_view(v@)),
{
    let ghost vv = funcs_view(v@);
    let mut out: Vec<String> = Vec::new();
    let mut i: usize = 0;
    proof {
        assert(vv.subrange(0, vv.len() as int) =~= vv);
        assert(strs_view(out@) =~= Seq::<Seq<char>>::empty());
    }
    while i < v.len()
        invariant
            i <= v@.len(),
            vv == funcs_view(v@),
            dump_funcs(vv) == strs_view(out@) + dump_funcs(
                vv.subrange(i as int, vv.len() as int),
            ),
        decreases v@.len() - i,
    {
        let ghost tail = vv.subrange(i as int, vv.len() as int);
        proof {
            assert(tail[0] == vv[i as int]);
            assert(tail.subrange(1, tail.len() as int) =~= vv.subrange(
                i + 1,
                vv.len() as int,
            ));
        }
        let mut line = v[i].0.clone();
        append_str(&mut line, "(");
        let ps = join_params_exec(&v[i].1.params, 0);
        proof {
            assert(strs_view(v@[i as int].1.params@).subrange(
                0,
                strs_view(v@[i as int].1.params@).len() as int,
            ) =~= strs_view(v@[i as int].1.params@));
        }
        append_str(&mut line, ps.as_str());
        append_str(&mut line, ")");
        out.push(line);
        i = i + 1;
        proof {
            assert(strs_view(out@) =~= strs_view(out@.drop_last()) + seq![out@.last()@]);
            assert(strs_view(out@.drop_last()) + (seq![vv[i - 1].0 + "("@ + join_params(
                vv[i - 1].1.params,
            ) + ")"@] + dump_funcs(vv.subrange(i as int, vv.len() as int))) =~= strs_view(out@)
                + dump_funcs(vv.subrange(i as int, vv.len() as int)));
        }
    }
    proof {
        assert(vv.subrange(v@.len() as int, vv.len() as int).len() == 0);
        assert(strs_view(out@) + Seq::<Seq<char>>::empty() =~= strs_view(out@));
    }
    out
}

/// Writes a function definition: overwrites or appends.
fn upsert_fn(v: &mut Vec<(String, FunctionDef)>, name: &String, def: FunctionDef)
    ensures
        funcs_view(final(v)@) == env_upsert(funcs_view(old(v)@), name@, def@),
{
    let ghost vv = funcs_view(v@);
    let ghost defv = def@;
    match env_find(v, name.as_str()) {
        Some(i) => {
            proof {
                lemma_env_idx_is(vv, name@, i as int);
            }
            v.remove(i);
            v.insert(i, (name.clone(), def));
            proof {
                assert(funcs_view(v@) =~= vv.update(i as int, (name@, defv)));
            }
        },
        None => {
            proof {
                lemma_env_idx_absent(vv, name@);
            }
            v.push((name.clone(), def));
            proof {
                assert(funcs_view(v@) =~= vv.push((name@, defv)));
            }
        },
    }
}

impl Interpreter {
    /// A fresh interpreter: no variables, no functions, no pending output.
    pub fn new() -> (r: Interpreter)
        ensures
            r@ == crate::semantics::init_state(),
    {
        let r = Interpreter { variables: Vec::new(), functions: Vec::new(), output: Vec::new() };
        proof {
            assert(vars_view(r.variables@) =~= Seq::<(Seq<char>, ValV)>::empty());
            assert(funcs_view(r.functions@) =~= Seq::<(Seq<char>, FunV)>::empty());
            assert(strs_view(r.output@) =~= Seq::<Seq<char>>::empty());
        }
        r
    }

    /// Resolves a bare atom: boolean keyword, numeric literal, variable.
    fn eval_value_atom(&self, tok: &String) -> (r: Result<Option<VariableValue>, ErrorHandler>)
        ensures
            res_matches(r, eval_atom(self@, tok@)),
    {
        if str_eq(tok.as_str(), "True") {
            return Ok(Some(VariableValue::Number(1)));
        }
        if str_eq(tok.as_str(), "False") {
            return Ok(Some(VariableValue::Number(0)));
        }
        match parse_int(tok.as_str()) {
            Some(n) => Ok(Some(VariableValue::Number(n))),
            None => {
                let ghost vv = vars_view(self.variables@);
                match env_find(&self.variables, tok.as_str()) {
                    Some(i) => {
                        proof {
                            lemma_env_idx_is(vv, tok@, i as int);
                        }
                        Ok(Some(self.variables[i].1.duplicate()))
                    },
                    None => {
                        proof {
                            lemma_env_idx_absent(vv, tok@);
                        }
                        Err(ErrorHandler::VariableNotFound(tok.clone()))
                    },
                }
            },
        }
    }

    /// Evaluates one node of the tree against this interpreter's state.
    pub fn eval_ast(&mut self, node: &ASTNode, fuel: u64) -> (r: Result<
        Option<VariableValue>,
        ErrorHandler,
    >)
        ensures
            ({
                let (st2, rv) = eval_node(old(self)@, node@, fuel as nat);
                final(self)@ == st2 && res_matches(r, rv)
            }),
        decreases fuel, crate::ast::ast_size(node@), 0nat, 0int,
    {
        match node {
            ASTNode::NoOp => Ok(None),
            ASTNode::StringValue(s) => Ok(Some(VariableValue::Text(s.clone()))),
            ASTNode::Value(tok) => self.eval_value_atom(tok),
            ASTNode::Operator(name, args) => self.eval_operator(name, args, fuel),
        }
    }

    /// Dispatches one form: a builtin, or a user-defined function call.
    fn eval_operator(&mut self, name: &String, args: &Vec<ASTNode>, fuel: u64) -> (r: Result<
        Option<VariableValue>,
        ErrorHandler,
    >)
        ensures
            ({
                let (st2, rv) = eval_op(old(self)@, name@, ast_view_seq(args@), fuel as nat);
                final(self)@ == st2 && res_matches(r, rv)
            }),
        decreases fuel, crate::ast::seq_size(ast_view_seq(args@)), 3nat, 0int,
    {
        let ghost argv = ast_view_seq(args@);
        proof {
            lemma_ast_view_seq(args@);
        }
        match lookup_builtin(name.as_str()) {
            Some(b) => match b {
                Builtin::Add | Builtin::Sub | Builtin::Mul => self.bi_fold(b, args, fuel),
                Builtin::Div | Builtin::Mod => self.bi_divmod(b, args, fuel),
                Builtin::Max | Builtin::Min => self.bi_extrema(b, args, fuel),
                Builtin::Pow => self.bi_pow(args, fuel),
                Builtin::Sqrt => self.bi_sqrt(args, fuel),
                Builtin::Abs => self.bi_abs(args, fuel),
                Builtin::ZeroQ | Builtin::EvenQ | Builtin::OddQ | Builtin::PosQ | Builtin::NegQ
                    | Builtin::Not => self.bi_unary(b, args, fuel),
                Builtin::EqQ | Builtin::NeqQ | Builtin::LtQ | Builtin::LteQ | Builtin::GtQ
                    | Builtin::GteQ => self.bi_cmp(b, args, fuel),
                Builtin::And | Builtin::Or => self.bi_logic(b, args, fuel),
                Builtin::If => self.bi_if(args, fuel),
                Builtin::Switch => self.bi_switch(args, fuel),
                Builtin::LetVar | Builtin::SetVar => self.bi_letset(b, args, fuel),
                Builtin::GetVar => self.bi_get(args, fuel),
                Builtin::DelVar => self.bi_del(args, fuel),
                Builtin::For => self.bi_for(args, fuel),
                Builtin::Concat => self.bi_concat(args, fuel),
                Builtin::Len => self.bi_len(args, fuel),
                Builtin::Substring => self.bi_substring(args, fuel),
                Builtin::Print => self.bi_print(args, fuel),
                Builtin::Exit => self.bi_exit(args, fuel),
                Builtin::Debug => self.bi_debug(args, fuel),
                Builtin::Base => self.bi_base(args, fuel),
                Builtin::Func => self.bi_func(args, fuel),
            },
            None => {
                let ghost fv = funcs_view(self.functions@);
                let fi = match env_find(&self.functions, name.as_str()) {
                    Some(i) => {
                        proof {
                            lemma_env_idx_is(fv, name@, i as int);
                        }
                        i
                    },
                    None => {
                        proof {
                            lemma_env_idx_absent(fv, name@);
                        }
                        return Err(ErrorHandler::FunctionOrOperatorNotFound(name.clone()));
                    },
                };
                let fdef = self.functions[fi].1.duplicate();
                if args.len() != fdef.params.len() {
                    return Err(ErrorHandler::ParseError("Invalid number of arguments".to_owned()));
                }
                if fuel == 0 {
                    return Err(ErrorHandler::RecursionLimit);
                }
                let vals = match self.eval_args_all(args, 0, fuel) {
                    Ok(v) => v,
                    Err(e) => {
                        proof {
                            assert(argv.subrange(0, argv.len() as int) =~= argv);
                        }
                        return Err(e);
                    },
                };
                proof {
                    assert(argv.subrange(0, argv.len() as int) =~= argv);
                }
                proof {
                    crate::semantics::lemma_eval_list_len(old(self)@, argv, fuel as nat);
                    assert(opts_view(vals@).len() == vals@.len());
                }
                let mut callvars = clone_vars(&self.variables);
                bind_params_exec(&mut callvars, &fdef.params, &vals, 0);
                proof {
                    assert(strs_view(fdef.params@).subrange(0, strs_view(fdef.params@).len() as int)
                        =~= strs_view(fdef.params@));
                    assert(opts_view(vals@).subrange(0, opts_view(vals@).len() as int) =~= opts_view(
                        vals@,
                    ));
                }
                let callfuncs = clone_funcs(&self.functions);
                let mut local = Interpreter {
                    variables: callvars,
                    functions: callfuncs,
                    output: Vec::new(),
                };
                proof {
                    assert(strs_view(local.output@) =~= Seq::<Seq<char>>::empty());
                }
                let rr = local.eval_ast(&fdef.body, fuel - 1);
                match rr {
                    Err(e) => Err(e),
                    Ok(v) => {
                        let ghost out_before = strs_view(self.output@);
                        let ghost out_local = strs_view(local.output@);
                        let mut lo = local.output;
                        self.output.append(&mut lo);
                        proof {
                            assert(strs_view(self.output@) =~= out_before + out_local);
                        }
                        Ok(v)
                    },
                }
            },
        }
    }

    /// Evaluates the operands from position `idx` on, left to right.
    fn eval_args_all(&mut self, args: &Vec<ASTNode>, idx: usize, fuel: u64) -> (r: Result<
        Vec<Option<VariableValue>>,
        ErrorHandler,
    >)
        requires
            idx <= args@.len(),
        ensures
            ({
                let (st2, rv) = eval_list(
                    old(self)@,
                    ast_view_seq(args@).subrange(idx as int, args@.len() as int),
                    fuel as nat,
                );
                final(self)@ == st2 && list_matches(r, rv)
            }),
        decreases fuel, crate::ast::seq_size(ast_view_seq(args@)), 1nat, args@.len() - idx,
    {
        let ghost argv = ast_view_seq(args@);
        let ghost tail = argv.subrange(idx as int, args@.len() as int);
        proof {
            lemma_ast_view_seq(args@);
        }
        if idx == args.len() {
            let out: Vec<Option<VariableValue>> = Vec::new();
            proof {
                assert(tail.len() == 0);
                assert(opts_view(out@) =~= Seq::<Option<ValV>>::empty());
            }
            return Ok(out);
        }
        proof {
            assert(tail[0] == argv[idx as int]);
            assert(tail.subrange(1, tail.len() as int) =~= argv.subrange(
                idx + 1,
                args@.len() as int,
            ));
            crate::ast::lemma_seq_size_index(argv, idx as int);
        }
        let v = match self.eval_ast(&args[idx], fuel) {
            Ok(v) => v,
            Err(e) => {
                return Err(e);
            },
        };
        let ghost vg = match v {
            Some(ref x) => Some(x@),
            None => None,
        };
        match self.eval_args_all(args, idx + 1, fuel) {
            Err(e) => Err(e),
            Ok(rest) => {
                let ghost restv = opts_view(rest@);
                let mut out = rest;
                out.insert(0, v);
                proof {
                    assert(opts_view(out@) =~= seq![vg] + restv);
                }
                Ok(out)
            },
        }
    }

    /// The `div`/`mod` fold from position `idx` on.
    fn div_fold_exec(
        &mut self,
        args: &Vec<ASTNode>,
        idx: usize,
        acc: i64,
        want_div: bool,
        fuel: u64,
    ) -> (r: Result<Option<VariableValue>, ErrorHandler>)
        requires
            idx <= args@.len(),
        ensures
            ({
                let (st2, rv) = div_fold(
                    old(self)@,
                    ast_view_seq(args@).subrange(idx as int, args@.len() as int),
                    acc,
                    want_div,
                    fuel as nat,
                );
                final(self)@ == st2 && res_matches(r, rv)
            }),
        decreases fuel, crate::ast::seq_size(ast_view_seq(args@)), 1nat, args@.len() - idx,
    {
        let ghost argv = ast_view_seq(args@);
        let ghost tail = argv.subrange(idx as int, args@.len() as int);
        proof {
            lemma_ast_view_seq(args@);
        }
        if idx == args.len() {
            proof {
                assert(tail.len() == 0);
            }
            return Ok(Some(VariableValue::Number(acc)));
        }
        proof {
            assert(tail[0] == argv[idx as int]);
            assert(tail.subrange(1, tail.len() as int) =~= argv.subrange(
                idx + 1,
                args@.len() as int,
            ));
            crate::ast::lemma_seq_size_index(argv, idx as int);
        }
        match self.eval_ast(&args[idx], fuel) {
            Err(e) => Err(e),
            Ok(Some(VariableValue::Number(d))) => {
                if d == 0 {
                    Err(ErrorHandler::DivisionByZero)
                } else {
                    let step = if want_div {
                        div_exec(acc, d)
                    } else {
                        rem_exec(acc, d)
                    };
                    match step {
                        Err(e) => Err(e),
                        Ok(a2) => self.div_fold_exec(args, idx + 1, a2, want_div, fuel),
                    }
                }
            },
            Ok(_) => Err(ErrorHandler::ParseError("Operands must be numbers".to_owned())),
        }
    }

    /// Walks the arms of a `switch` from position `i` on.
    fn switch_scan_exec(
        &mut self,
        args: &Vec<ASTNode>,
        i: usize,
        sel: i64,
        dflt: Option<usize>,
        fuel: u64,
    ) -> (r: Result<Option<VariableValue>, ErrorHandler>)
        ensures
            ({
                let (st2, rv) = switch_scan(
                    old(self)@,
                    ast_view_seq(args@),
                    i as int,
                    sel,
                    match dflt {
                        Some(d) => Some(d as int),
                        None => None,
                    },
                    fuel as nat,
                );
                final(self)@ == st2 && res_matches(r, rv)
            }),
        decreases fuel, crate::ast::seq_size(ast_view_seq(args@)), 1nat, args@.len() - i,
    {
        let ghost argv = ast_view_seq(args@);
        proof {
            lemma_ast_view_seq(args@);
        }
        if i >= args.len() {
            match dflt {
                Some(di) => {
                    if di < args.len() {
                        proof {
                            crate::ast::lemma_seq_size_index(argv, di as int);
                        }
                        match &args[di] {
                            ASTNode::Operator(dn, dch) => {
                                proof {
                                    assert(argv[di as int] == args@[di as int]@);
                                    lemma_ast_view_seq(dch@);
                                }
                                if dch.len() == 1 {
                                    proof {
                                        crate::ast::lemma_seq_size_index(ast_view_seq(dch@), 0);
                                    }
                                    self.eval_ast(&dch[0], fuel)
                                } else {
                                    Ok(None)
                                }
                            },
                            _ => Ok(None),
                        }
                    } else {
                        Ok(None)
                    }
                },
                None => Ok(None),
            }
        } else {
            proof {
                crate::ast::lemma_seq_size_index(argv, i as int);
            }
            match &args[i] {
                ASTNode::Operator(cn, cch) => {
                    proof {
                        assert(argv[i as int] == args@[i as int]@);
                        lemma_ast_view_seq(cch@);
                    }
                    if str_eq(cn.as_str(), "case") {
                        if cch.len() != 2 {
                            Err(ErrorHandler::ParseError("Invalid syntax for 'case'".to_owned()))
                        } else {
                            proof {
                                crate::ast::lemma_seq_size_index(ast_view_seq(cch@), 0);
                                crate::ast::lemma_seq_size_index(ast_view_seq(cch@), 1);
                            }
                            match self.eval_ast(&cch[0], fuel) {
                                Err(e) => Err(e),
                                Ok(Some(VariableValue::Number(cv))) => {
                                    if cv == sel {
                                        self.eval_ast(&cch[1], fuel)
                                    } else {
                                        self.switch_scan_exec(args, i + 1, sel, dflt, fuel)
                                    }
                                },
                                Ok(_) => Err(
                                    ErrorHandler::ParseError("Invalid switch syntax".to_owned()),
                                ),
                            }
                        }
                    } else if str_eq(cn.as_str(), "default") {
                        if cch.len() != 1 {
                            Err(ErrorHandler::ParseError("Invalid syntax for 'default'".to_owned()))
                        } else {
                            self.switch_scan_exec(args, i + 1, sel, Some(i), fuel)
                        }
                    } else {
                        Err(ErrorHandler::ParseError("Invalid switch syntax".to_owned()))
                    }
                },
                _ => Err(ErrorHandler::ParseError("Invalid switch syntax".to_owned())),
            }
        }
    }

    /// Runs a `for` body once per index, writing the loop variable into
    /// the shared environment each time.
    fn for_loop_exec(
        &mut self,
        var: &String,
        i: i64,
        end: i64,
        body: &ASTNode,
        fuel: u64,
    ) -> (r: Result<Option<VariableValue>, ErrorHandler>)
        ensures
            ({
                let (st2, rv) = for_loop(old(self)@, var@, i as int, end as int, body@, fuel as nat);
                final(self)@ == st2 && res_matches(r, rv)
            }),
        decreases
            fuel,
            crate::ast::ast_size(body@),
            1nat,
            (if i < end {
                end - i
            } else {
                0
            }),
    {
        if i >= end {
            Ok(None)
        } else {
            upsert_var(&mut self.variables, var, VariableValue::Number(i));
            match self.eval_ast(body, fuel) {
                Err(e) => Err(e),
                Ok(_) => self.for_loop_exec(var, i + 1, end, body, fuel),
            }
        }
    }
}

impl Interpreter {
    /// `add`, `sub` and `mul`: evaluate everything, then fold.
    fn bi_fold(&mut self, b: Builtin, args: &Vec<ASTNode>, fuel: u64) -> (r: Result<
        Option<VariableValue>,
        ErrorHandler,
    >)
        requires
            b matches Builtin::Add || b matches Builtin::Sub || b matches Builtin::Mul,
        ensures
            ({
                let (st2, rv) = eval_builtin(old(self)@, b, ast_view_seq(args@), fuel as nat);
                final(self)@ == st2 && res_matches(r, rv)
            }),
        decreases fuel, crate::ast::seq_size(ast_view_seq(args@)), 2nat, 0int,
    {
        let ghost argv = ast_view_seq(args@);
        proof {
            lemma_ast_view_seq(args@);
        }
        let is_sub = match b {
            Builtin::Sub => true,
            _ => false,
        };
        if is_sub && args.len() == 0 {
            return Err(ErrorHandler::ParseError("Empty subtraction".to_owned()));
        }
        let vals = match self.eval_args_all(args, 0, fuel) {
            Ok(v) => v,
            Err(e) => {
                proof {
                    assert(argv.subrange(0, argv.len() as int) =~= argv);
                }
                return Err(e);
            },
        };
        proof {
            assert(argv.subrange(0, argv.len() as int) =~= argv);
            crate::semantics::lemma_eval_list_len(old(self)@, argv, fuel as nat);
        }
        let nums = match vals_to_nums(&vals, 0) {
            Some(n) => n,
            None => {
                proof {
                    assert(opts_view(vals@).subrange(0, opts_view(vals@).len() as int) =~= opts_view(
                        vals@,
                    ));
                }
                return Err(ErrorHandler::ParseError("Operands must be numbers".to_owned()));
            },
        };
        proof {
            assert(opts_view(vals@).subrange(0, opts_view(vals@).len() as int) =~= opts_view(
                vals@,
            ));
            crate::semantics::lemma_nums_of_len(opts_view(vals@));
        }
        let folded = match b {
            Builtin::Add => fold_arith_exec(Builtin::Add, 0, &nums, 0),
            Builtin::Mul => fold_arith_exec(Builtin::Mul, 1, &nums, 0),
            _ => fold_arith_exec(Builtin::Sub, nums[0], &nums, 1),
        };
        proof {
            assert(nums@.subrange(0, nums@.len() as int) =~= nums@);
        }
        match folded {
            Ok(n) => Ok(Some(VariableValue::Number(n))),
            Err(e) => Err(e),
        }
    }

    /// `div` and `mod`: the first operand seeds an incremental fold.
    fn bi_divmod(&mut self, b: Builtin, args: &Vec<ASTNode>, fuel: u64) -> (r: Result<
        Option<VariableValue>,
        ErrorHandler,
    >)
        requires
            b matches Builtin::Div || b matches Builtin::Mod,
        ensures
            ({
                let (st2, rv) = eval_builtin(old(self)@, b, ast_view_seq(args@), fuel as nat);
                final(self)@ == st2 && res_matches(r, rv)
            }),
        decreases fuel, crate::ast::seq_size(ast_view_seq(args@)), 2nat, 0int,
    {
        let ghost argv = ast_view_seq(args@);
        proof {
            lemma_ast_view_seq(args@);
        }
        let want_div = match b {
            Builtin::Div => true,
            _ => false,
        };
        if args.len() == 0 {
            return Err(
                ErrorHandler::ParseError(
                    if want_div {
                        "Empty division".to_owned()
                    } else {
                        "Empty modulo".to_owned()
                    },
                ),
            );
        }
        proof {
            crate::ast::lemma_seq_size_index(argv, 0);
        }
        match self.eval_ast(&args[0], fuel) {
            Err(e) => Err(e),
            Ok(Some(VariableValue::Number(n))) => self.div_fold_exec(args, 1, n, want_div, fuel),
            Ok(_) => Err(ErrorHandler::ParseError("Operands must be numbers".to_owned())),
        }
    }

    /// `max` and `min`: a linear scan with a strict comparison.
    fn bi_extrema(&mut self, b: Builtin, args: &Vec<ASTNode>, fuel: u64) -> (r: Result<
        Option<VariableValue>,
        ErrorHandler,
    >)
        requires
            b matches Builtin::Max || b matches Builtin::Min,
        ensures
            ({
                let (st2, rv) = eval_builtin(old(self)@, b, ast_view_seq(args@), fuel as nat);
                final(self)@ == st2 && res_matches(r, rv)
            }),
        decreases fuel, crate::ast::seq_size(ast_view_seq(args@)), 2nat, 0int,
    {
        let ghost argv = ast_view_seq(args@);
        proof {
            lemma_ast_view_seq(args@);
        }
        let vals = match self.eval_args_all(args, 0, fuel) {
            Ok(v) => v,
            Err(e) => {
                proof {
                    assert(argv.subrange(0, argv.len() as int) =~= argv);
                }
                return Err(e);
            },
        };
        proof {
            assert(argv.subrange(0, argv.len() as int) =~= argv);
        }
        let nums = match vals_to_nums(&vals, 0) {
            Some(n) => n,
            None => {
                proof {
                    assert(opts_view(vals@).subrange(0, opts_view(vals@).len() as int) =~= opts_view(
                        vals@,
                    ));
                }
                return Err(ErrorHandler::ParseError("Operands must be numbers".to_owned()));
            },
        };
        proof {
            assert(opts_view(vals@).subrange(0, opts_view(vals@).len() as int) =~= opts_view(
                vals@,
            ));
            assert(nums@.subrange(0, nums@.len() as int) =~= nums@);
        }
        let is_max = match b {
            Builtin::Max => true,
            _ => false,
        };
        let m = if is_max {
            fold_max_exec(i64::MIN, &nums, 0)
        } else {
            fold_min_exec(i64::MAX, &nums, 0)
        };
        Ok(Some(VariableValue::Number(m)))
    }

    /// `pow`: checked integer exponentiation.
    fn bi_pow(&mut self, args: &Vec<ASTNode>, fuel: u64) -> (r: Result<
        Option<VariableValue>,
        ErrorHandler,
    >)
        ensures
            ({
                let (st2, rv) = eval_builtin(
                    old(self)@,
                    Builtin::Pow,
                    ast_view_seq(args@),
                    fuel as nat,
                );
                final(self)@ == st2 && res_matches(r, rv)
            }),
        decreases fuel, crate::ast::seq_size(ast_view_seq(args@)), 2nat, 0int,
    {
        let ghost argv = ast_view_seq(args@);
        proof {
            lemma_ast_view_seq(args@);
        }
        if args.len() != 2 {
            return Err(ErrorHandler::ParseError("Invalid number of operands for 'pow'".to_owned()));
        }
        proof {
            crate::ast::lemma_seq_size_index(argv, 0);
            crate::ast::lemma_seq_size_index(argv, 1);
        }
        match self.eval_ast(&args[0], fuel) {
            Err(e) => Err(e),
            Ok(Some(VariableValue::Number(base))) => match self.eval_ast(&args[1], fuel) {
                Err(e) => Err(e),
                Ok(Some(VariableValue::Number(e0))) => {
                    if e0 < 0 {
                        Err(ErrorHandler::ParseError("Negative exponent".to_owned()))
                    } else {
                        match pow_exec(base, e0 as u64) {
                            Ok(n) => Ok(Some(VariableValue::Number(n))),
                            Err(e) => Err(e),
                        }
                    }
                },
                Ok(_) => Err(ErrorHandler::ParseError("Operands must be numbers".to_owned())),
            },
            Ok(_) => Err(ErrorHandler::ParseError("Operands must be numbers".to_owned())),
        }
    }

    /// `sqrt`: the integer square root of a non-negative number.
    fn bi_sqrt(&mut self, args: &Vec<ASTNode>, fuel: u64) -> (r: Result<
        Option<VariableValue>,
        ErrorHandler,
    >)
        ensures
            ({
                let (st2, rv) = eval_builtin(
                    old(self)@,
                    Builtin::Sqrt,
                    ast_view_seq(args@),
                    fuel as nat,
                );
                final(self)@ == st2 && res_matches(r, rv)
            }),
        decreases fuel, crate::ast::seq_size(ast_view_seq(args@)), 2nat, 0int,
    {
        let ghost argv = ast_view_seq(args@);
        proof {
            lemma_ast_view_seq(args@);
        }
        if args.len() != 1 {
            return Err(
                ErrorHandler::ParseError("Invalid number of operands for 'sqrt'".to_owned()),
            );
        }
        proof {
            crate::ast::lemma_seq_size_index(argv, 0);
        }
        match self.eval_ast(&args[0], fuel) {
            Err(e) => Err(e),
            Ok(Some(VariableValue::Number(n))) => {
                if n < 0 {
                    Err(ErrorHandler::ParseError("Square root of negative number".to_owned()))
                } else {
                    Ok(Some(VariableValue::Number(isqrt_exec(n))))
                }
            },
            Ok(_) => Err(ErrorHandler::ParseError("Operands must be numbers".to_owned())),
        }
    }

    /// `abs`: the magnitude, checked.
    fn bi_abs(&mut self, args: &Vec<ASTNode>, fuel: u64) -> (r: Result<
        Option<VariableValue>,
        ErrorHandler,
    >)
        ensures
            ({
                let (st2, rv) = eval_builtin(
                    old(self)@,
                    Builtin::Abs,
                    ast_view_seq(args@),
                    fuel as nat,
                );
                final(self)@ == st2 && res_matches(r, rv)
            }),
        decreases fuel, crate::ast::seq_size(ast_view_seq(args@)), 2nat, 0int,
    {
        let ghost argv = ast_view_seq(args@);
        proof {
            lemma_ast_view_seq(args@);
        }
        if args.len() != 1 {
            return Err(ErrorHandler::ParseError("Invalid number of operands for 'abs'".to_owned()));
        }
        proof {
            crate::ast::lemma_seq_size_index(argv, 0);
        }
        match self.eval_ast(&args[0], fuel) {
            Err(e) => Err(e),
            Ok(Some(VariableValue::Number(n))) => {
                if n == i64::MIN {
                    Err(ErrorHandler::ParseError("Number out of range".to_owned()))
                } else if n < 0 {
                    Ok(Some(VariableValue::Number(-n)))
                } else {
                    Ok(Some(VariableValue::Number(n)))
                }
            },
            Ok(_) => Err(ErrorHandler::ParseError("Operands must be numbers".to_owned())),
        }
    }

    /// The single-operand predicates and `not`.
    fn bi_unary(&mut self, b: Builtin, args: &Vec<ASTNode>, fuel: u64) -> (r: Result<
        Option<VariableValue>,
        ErrorHandler,
    >)
        requires
            b matches Builtin::ZeroQ || b matches Builtin::EvenQ || b matches Builtin::OddQ
                || b matches Builtin::PosQ || b matches Builtin::NegQ || b matches Builtin::Not,
        ensures
            ({
                let (st2, rv) = eval_builtin(old(self)@, b, ast_view_seq(args@), fuel as nat);
                final(self)@ == st2 && res_matches(r, rv)
            }),
        decreases fuel, crate::ast::seq_size(ast_view_seq(args@)), 2nat, 0int,
    {
        let ghost argv = ast_view_seq(args@);
        proof {
            lemma_ast_view_seq(args@);
        }
        if args.len() != 1 {
            let msg = match b {
                Builtin::ZeroQ => "Invalid number of operands for 'zero?'",
                Builtin::EvenQ => "Invalid number of operands for 'even?'",
                Builtin::OddQ => "Invalid number of operands for 'odd?'",
                Builtin::PosQ => "Invalid number of operands for 'pos?'",
                Builtin::NegQ => "Invalid number of operands for 'neg?'",
                _ => "Invalid number of operands for 'not'",
            };
            return Err(ErrorHandler::ParseError(msg.to_owned()));
        }
        proof {
            crate::ast::lemma_seq_size_index(argv, 0);
        }
        match self.eval_ast(&args[0], fuel) {
            Err(e) => Err(e),
            Ok(Some(VariableValue::Number(n))) => {
                proof {
                    crate::arith::lemma_parity(n as int);
                }
                let even = match rem_exec(n, 2) {
                    Ok(m) => m == 0,
                    Err(_) => false,
                };
                let p = match b {
                    Builtin::ZeroQ => n == 0,
                    Builtin::EvenQ => even,
                    Builtin::OddQ => !even,
                    Builtin::PosQ => n > 0,
                    Builtin::NegQ => n < 0,
                    _ => n == 0,
                };
                Ok(
                    Some(
                        VariableValue::Number(
                            if p {
                                1
                            } else {
                                0
                            },
                        ),
                    ),
                )
            },
            Ok(_) => Err(ErrorHandler::ParseError("Operands must be numbers".to_owned())),
        }
    }

    /// The two-operand comparisons.
    fn bi_cmp(&mut self, b: Builtin, args: &Vec<ASTNode>, fuel: u64) -> (r: Result<
        Option<VariableValue>,
        ErrorHandler,
    >)
        requires
            b matches Builtin::EqQ || b matches Builtin::NeqQ || b matches Builtin::LtQ
                || b matches Builtin::LteQ || b matches Builtin::GtQ || b matches Builtin::GteQ,
        ensures
            ({
                let (st2, rv) = eval_builtin(old(self)@, b, ast_view_seq(args@), fuel as nat);
                final(self)@ == st2 && res_matches(r, rv)
            }),
        decreases fuel, crate::ast::seq_size(ast_view_seq(args@)), 2nat, 0int,
    {
        let ghost argv = ast_view_seq(args@);
        proof {
            lemma_ast_view_seq(args@);
        }
        if args.len() != 2 {
            let msg = match b {
                Builtin::EqQ => "Invalid number of operands for 'eq?'",
                Builtin::NeqQ => "Invalid number of operands for 'neq?'",
                Builtin::LtQ => "Invalid number of operands for 'lt?'",
                Builtin::LteQ => "Invalid number of operands for 'le?'",
                Builtin::GtQ => "Invalid number of operands for 'gt?'",
                _ => "Invalid number of operands for 'ge?'",
            };
            return Err(ErrorHandler::ParseError(msg.to_owned()));
        }
        proof {
            crate::ast::lemma_seq_size_index(argv, 0);
            crate::ast::lemma_seq_size_index(argv, 1);
        }
        match self.eval_ast(&args[0], fuel) {
            Err(e) => Err(e),
            Ok(Some(VariableValue::Number(x))) => match self.eval_ast(&args[1], fuel) {
                Err(e) => Err(e),
                Ok(Some(VariableValue::Number(y))) => {
                    let p = match b {
                        Builtin::EqQ => x == y,
                        Builtin::NeqQ => x != y,
                        Builtin::LtQ => x < y,
                        Builtin::LteQ => x <= y,
                        Builtin::GtQ => x > y,
                        _ => x >= y,
                    };
                    Ok(
                        Some(
                            VariableValue::Number(
                                if p {
                                    1
                                } else {
                                    0
                                },
                            ),
                        ),
                    )
                },
                Ok(_) => Err(ErrorHandler::ParseError("Operands must be numbers".to_owned())),
            },
            Ok(_) => Err(ErrorHandler::ParseError("Operands must be numbers".to_owned())),
        }
    }

    /// `and` and `or`: every operand is evaluated; only the boolean
    /// outcome is folded.
    fn bi_logic(&mut self, b: Builtin, args: &Vec<ASTNode>, fuel: u64) -> (r: Result<
        Option<VariableValue>,
        ErrorHandler,
    >)
        requires
            b matches Builtin::And || b matches Builtin::Or,
        ensures
            ({
                let (st2, rv) = eval_builtin(old(self)@, b, ast_view_seq(args@), fuel as nat);
                final(self)@ == st2 && res_matches(r, rv)
            }),
        decreases fuel, crate::ast::seq_size(ast_view_seq(args@)), 2nat, 0int,
    {
        let ghost argv = ast_view_seq(args@);
        proof {
            lemma_ast_view_seq(args@);
        }
        let is_and = match b {
            Builtin::And => true,
            _ => false,
        };
        if args.len() < 2 {
            return Err(
                ErrorHandler::ParseError(
                    if is_and {
                        "Invalid number of operands for 'and'".to_owned()
                    } else {
                        "Invalid number of operands for 'or'".to_owned()
                    },
                ),
            );
        }
        let vals = match self.eval_args_all(args, 0, fuel) {
            Ok(v) => v,
            Err(e) => {
                proof {
                    assert(argv.subrange(0, argv.len() as int) =~= argv);
                }
                return Err(e);
            },
        };
        proof {
            assert(argv.subrange(0, argv.len() as int) =~= argv);
        }
        let nums = match vals_to_nums(&vals, 0) {
            Some(n) => n,
            None => {
                proof {
                    assert(opts_view(vals@).subrange(0, opts_view(vals@).len() as int) =~= opts_view(
                        vals@,
                    ));
                }
                return Err(ErrorHandler::ParseError("Operands must be numbers".to_owned()));
            },
        };
        proof {
            assert(opts_view(vals@).subrange(0, opts_view(vals@).len() as int) =~= opts_view(
                vals@,
            ));
        }
        let mut all = true;
        let mut any = false;
        let mut i: usize = 0;
        while i < nums.len()
            invariant
                i <= nums@.len(),
                all == (forall|j: int| 0 <= j < i ==> #[trigger] nums@[j] != 0),
                any == (exists|j: int| 0 <= j < i && #[trigger] nums@[j] != 0),
            decreases nums@.len() - i,
        {
            if nums[i] == 0 {
                all = false;
            } else {
                any = true;
            }
            i = i + 1;
        }
        let p = if is_and {
            all
        } else {
            any
        };
        Ok(
            Some(
                VariableValue::Number(
                    if p {
                        1
                    } else {
                        0
                    },
                ),
            ),
        )
    }

    /// `if`: a numeric condition, a consequent, and at most one `else`.
    fn bi_if(&mut self, args: &Vec<ASTNode>, fuel: u64) -> (r: Result<
        Option<VariableValue>,
        ErrorHandler,
    >)
        ensures
            ({
                let (st2, rv) = eval_builtin(
                    old(self)@,
                    Builtin::If,
                    ast_view_seq(args@),
                    fuel as nat,
                );
                final(self)@ == st2 && res_matches(r, rv)
            }),
        decreases fuel, crate::ast::seq_size(ast_view_seq(args@)), 2nat, 0int,
    {
        let ghost argv = ast_view_seq(args@);
        proof {
            lemma_ast_view_seq(args@);
        }
        if args.len() < 2 {
            return Err(ErrorHandler::ParseError("Invalid syntax for 'if'".to_owned()));
        }
        proof {
            crate::ast::lemma_seq_size_index(argv, 0);
            crate::ast::lemma_seq_size_index(argv, 1);
        }
        match self.eval_ast(&args[0], fuel) {
            Err(e) => Err(e),
            Ok(None) => Err(ErrorHandler::ParseError("Invalid if syntax".to_owned())),
            Ok(Some(VariableValue::Text(_))) => Err(
                ErrorHandler::ParseError("Operands must be numbers".to_owned()),
            ),
            Ok(Some(VariableValue::Number(c))) => {
                if c != 0 {
                    self.eval_ast(&args[1], fuel)
                } else if args.len() == 2 {
                    Ok(None)
                } else {
                    proof {
                        crate::ast::lemma_seq_size_index(argv, 2);
                    }
                    match &args[2] {
                        ASTNode::Operator(en, ech) => {
                            proof {
                                lemma_ast_view_seq(ech@);
                            }
                            if str_eq(en.as_str(), "else") {
                                if ech.len() != 1 {
                                    Err(
                                        ErrorHandler::ParseError(
                                            "Invalid syntax for 'else'".to_owned(),
                                        ),
                                    )
                                } else {
                                    proof {
                                        crate::ast::lemma_seq_size_index(ast_view_seq(ech@), 0);
                                    }
                                    self.eval_ast(&ech[0], fuel)
                                }
                            } else {
                                Err(
                                    ErrorHandler::ParseError(
                                        "Invalid conditional syntax".to_owned(),
                                    ),
                                )
                            }
                        },
                        _ => Err(ErrorHandler::ParseError("Invalid conditional syntax".to_owned())),
                    }
                }
            },
        }
    }

    /// `switch`: a numeric selector and a scan over its arms.
    fn bi_switch(&mut self, args: &Vec<ASTNode>, fuel: u64) -> (r: Result<
        Option<VariableValue>,
        ErrorHandler,
    >)
        ensures
            ({
                let (st2, rv) = eval_builtin(
                    old(self)@,
                    Builtin::Switch,
                    ast_view_seq(args@),
                    fuel as nat,
                );
                final(self)@ == st2 && res_matches(r, rv)
            }),
        decreases fuel, crate::ast::seq_size(ast_view_seq(args@)), 2nat, 0int,
    {
        let ghost argv = ast_view_seq(args@);
        proof {
            lemma_ast_view_seq(args@);
        }
        if args.len() < 2 {
            return Err(ErrorHandler::ParseError("Invalid syntax for 'switch'".to_owned()));
        }
        proof {
            crate::ast::lemma_seq_size_index(argv, 0);
        }
        match self.eval_ast(&args[0], fuel) {
            Err(e) => Err(e),
            Ok(Some(VariableValue::Number(sel))) => self.switch_scan_exec(args, 1, sel, None, fuel),
            Ok(_) => Err(ErrorHandler::ParseError("Invalid switch syntax".to_owned())),
        }
    }

    /// `let` creates a binding and refuses an existing name; `set`
    /// overwrites and demands one.
    fn bi_letset(&mut self, b: Builtin, args: &Vec<ASTNode>, fuel: u64) -> (r: Result<
        Option<VariableValue>,
        ErrorHandler,
    >)
        requires
            b matches Builtin::LetVar || b matches Builtin::SetVar,
        ensures
            ({
                let (st2, rv) = eval_builtin(old(self)@, b, ast_view_seq(args@), fuel as nat);
                final(self)@ == st2 && res_matches(r, rv)
            }),
        decreases fuel, crate::ast::seq_size(ast_view_seq(args@)), 2nat, 0int,
    {
        let ghost argv = ast_view_seq(args@);
        proof {
            lemma_ast_view_seq(args@);
        }
        let is_let = match b {
            Builtin::LetVar => true,
            _ => false,
        };
        if args.len() != 2 {
            return Err(
                ErrorHandler::ParseError(
                    if is_let {
                        "Invalid syntax for 'let'".to_owned()
                    } else {
                        "Invalid syntax for 'set'".to_owned()
                    },
                ),
            );
        }
        proof {
            crate::ast::lemma_seq_size_index(argv, 1);
        }
        match &args[0] {
            ASTNode::Value(var) => {
                match self.eval_ast(&args[1], fuel) {
                    Err(e) => Err(e),
                    Ok(None) => Err(
                        ErrorHandler::ParseError(
                            if is_let {
                                "Invalid let syntax".to_owned()
                            } else {
                                "Invalid set syntax".to_owned()
                            },
                        ),
                    ),
                    Ok(Some(v)) => {
                        let ghost vg = v@;
                        let ghost vv = vars_view(self.variables@);
                        let found = env_find(&self.variables, var.as_str());
                        proof {
                            match found {
                                Some(i) => lemma_env_idx_is(vv, var@, i as int),
                                None => lemma_env_idx_absent(vv, var@),
                            }
                        }
                        if is_let {
                            match found {
                                Some(_) => Err(
                                    ErrorHandler::ParseError("Variable already exists".to_owned()),
                                ),
                                None => {
                                    self.variables.push((var.clone(), v));
                                    proof {
                                        assert(vars_view(self.variables@) =~= vv.push((var@, vg)));
                                    }
                                    Ok(None)
                                },
                            }
                        } else {
                            match found {
                                None => Err(
                                    ErrorHandler::ParseError("Variable not found".to_owned()),
                                ),
                                Some(i) => {
                                    self.variables.remove(i);
                                    self.variables.insert(i, (var.clone(), v));
                                    proof {
                                        assert(vars_view(self.variables@) =~= vv.update(
                                            i as int,
                                            (var@, vg),
                                        ));
                                    }
                                    Ok(None)
                                },
                            }
                        }
                    },
                }
            },
            _ => Err(
                ErrorHandler::ParseError(
                    if is_let {
                        "Invalid let syntax".to_owned()
                    } else {
                        "Invalid set syntax".to_owned()
                    },
                ),
            ),
        }
    }

    /// `get`: the value bound to a name.
    fn bi_get(&mut self, args: &Vec<ASTNode>, fuel: u64) -> (r: Result<
        Option<VariableValue>,
        ErrorHandler,
    >)
        ensures
            ({
                let (st2, rv) = eval_builtin(
                    old(self)@,
                    Builtin::GetVar,
                    ast_view_seq(args@),
                    fuel as nat,
                );
                final(self)@ == st2 && res_matches(r, rv)
            }),
    {
        let ghost argv = ast_view_seq(args@);
        proof {
            lemma_ast_view_seq(args@);
        }
        if args.len() != 1 {
            return Err(ErrorHandler::ParseError("Invalid get syntax".to_owned()));
        }
        match &args[0] {
            ASTNode::Value(var) => {
                let ghost vv = vars_view(self.variables@);
                match env_find(&self.variables, var.as_str()) {
                    Some(i) => {
                        proof {
                            lemma_env_idx_is(vv, var@, i as int);
                        }
                        Ok(Some(self.variables[i].1.duplicate()))
                    },
                    None => {
                        proof {
                            lemma_env_idx_absent(vv, var@);
                        }
                        Err(ErrorHandler::VariableNotFound(var.clone()))
                    },
                }
            },
            _ => Err(ErrorHandler::ParseError("Invalid get syntax".to_owned())),
        }
    }

    /// `del`: removes a binding.
    fn bi_del(&mut self, args: &Vec<ASTNode>, fuel: u64) -> (r: Result<
        Option<VariableValue>,
        ErrorHandler,
    >)
        ensures
            ({
                let (st2, rv) = eval_builtin(
                    old(self)@,
                    Builtin::DelVar,
                    ast_view_seq(args@),
                    fuel as nat,
                );
                final(self)@ == st2 && res_matches(r, rv)
            }),
    {
        let ghost argv = ast_view_seq(args@);
        proof {
            lemma_ast_view_seq(args@);
        }
        if args.len() != 1 {
            return Err(ErrorHandler::ParseError("Invalid del syntax".to_owned()));
        }
        match &args[0] {
            ASTNode::Value(var) => {
                let ghost vv = vars_view(self.variables@);
                match env_find(&self.variables, var.as_str()) {
                    Some(i) => {
                        proof {
                            lemma_env_idx_is(vv, var@, i as int);
                        }
                        self.variables.remove(i);
                        proof {
                            assert(vars_view(self.variables@) =~= vv.remove(i as int));
                        }
                        Ok(None)
                    },
                    None => {
                        proof {
                            lemma_env_idx_absent(vv, var@);
                        }
                        Err(ErrorHandler::VariableNotFound(var.clone()))
                    },
                }
            },
            _ => Err(ErrorHandler::ParseError("Invalid del syntax".to_owned())),
        }
    }

    /// `for`: a bounded loop over a half-open integer range.
    fn bi_for(&mut self, args: &Vec<ASTNode>, fuel: u64) -> (r: Result<
        Option<VariableValue>,
        ErrorHandler,
    >)
        ensures
            ({
                let (st2, rv) = eval_builtin(
                    old(self)@,
                    Builtin::For,
                    ast_view_seq(args@),
                    fuel as nat,
                );
                final(self)@ == st2 && res_matches(r, rv)
            }),
        decreases fuel, crate::ast::seq_size(ast_view_seq(args@)), 2nat, 0int,
    {
        let ghost argv = ast_view_seq(args@);
        proof {
            lemma_ast_view_seq(args@);
        }
        if args.len() != 4 {
            return Err(ErrorHandler::ParseError("Invalid number of operands for 'for'".to_owned()));
        }
        proof {
            crate::ast::lemma_seq_size_index(argv, 1);
            crate::ast::lemma_seq_size_index(argv, 2);
            crate::ast::lemma_seq_size_index(argv, 3);
        }
        match &args[0] {
            ASTNode::Value(var) => match self.eval_ast(&args[1], fuel) {
                Err(e) => Err(e),
                Ok(Some(VariableValue::Number(s0))) => match self.eval_ast(&args[2], fuel) {
                    Err(e) => Err(e),
                    Ok(Some(VariableValue::Number(e0))) => {
                        let var2 = var.clone();
                        self.for_loop_exec(&var2, s0, e0, &args[3], fuel)
                    },
                    Ok(_) => Err(ErrorHandler::ParseError("Invalid for syntax".to_owned())),
                },
                Ok(_) => Err(ErrorHandler::ParseError("Invalid for syntax".to_owned())),
            },
            _ => Err(ErrorHandler::ParseError("Invalid for syntax".to_owned())),
        }
    }

    /// `concat`: the rendering of every operand, joined into one text.
    fn bi_concat(&mut self, args: &Vec<ASTNode>, fuel: u64) -> (r: Result<
        Option<VariableValue>,
        ErrorHandler,
    >)
        ensures
            ({
                let (st2, rv) = eval_builtin(
                    old(self)@,
                    Builtin::Concat,
                    ast_view_seq(args@),
                    fuel as nat,
                );
                final(self)@ == st2 && res_matches(r, rv)
            }),
        decreases fuel, crate::ast::seq_size(ast_view_seq(args@)), 2nat, 0int,
    {
        let ghost argv = ast_view_seq(args@);
        proof {
            lemma_ast_view_seq(args@);
        }
        let vals = match self.eval_args_all(args, 0, fuel) {
            Ok(v) => v,
            Err(e) => {
                proof {
                    assert(argv.subrange(0, argv.len() as int) =~= argv);
                }
                return Err(e);
            },
        };
        proof {
            assert(argv.subrange(0, argv.len() as int) =~= argv);
        }
        match concat_exec(&vals, 0) {
            Ok(text) => {
                proof {
                    assert(opts_view(vals@).subrange(0, opts_view(vals@).len() as int) =~= opts_view(
                        vals@,
                    ));
                }
                Ok(Some(VariableValue::Text(text)))
            },
            Err(e) => {
                proof {
                    assert(opts_view(vals@).subrange(0, opts_view(vals@).len() as int) =~= opts_view(
                        vals@,
                    ));
                }
                Err(e)
            },
        }
    }

    /// `len`: the character count of a text.
    fn bi_len(&mut self, args: &Vec<ASTNode>, fuel: u64) -> (r: Result<
        Option<VariableValue>,
        ErrorHandler,
    >)
        ensures
            ({
                let (st2, rv) = eval_builtin(
                    old(self)@,
                    Builtin::Len,
                    ast_view_seq(args@),
                    fuel as nat,
                );
                final(self)@ == st2 && res_matches(r, rv)
            }),
        decreases fuel, crate::ast::seq_size(ast_view_seq(args@)), 2nat, 0int,
    {
        let ghost argv = ast_view_seq(args@);
        proof {
            lemma_ast_view_seq(args@);
        }
        if args.len() != 1 {
            return Err(ErrorHandler::ParseError("Invalid number of operands for 'len'".to_owned()));
        }
        proof {
            crate::ast::lemma_seq_size_index(argv, 0);
        }
        match self.eval_ast(&args[0], fuel) {
            Err(e) => Err(e),
            Ok(Some(VariableValue::Text(t))) => {
                let l = t.as_str().unicode_len();
                if l as u64 > i64::MAX as u64 {
                    Err(ErrorHandler::ParseError("Number out of range".to_owned()))
                } else {
                    Ok(Some(VariableValue::Number(l as i64)))
                }
            },
            Ok(_) => Err(ErrorHandler::ParseError("Invalid len syntax".to_owned())),
        }
    }

    /// `substring`: a character-indexed slice with an inclusive end.
    fn bi_substring(&mut self, args: &Vec<ASTNode>, fuel: u64) -> (r: Result<
        Option<VariableValue>,
        ErrorHandler,
    >)
        ensures
            ({
                let (st2, rv) = eval_builtin(
                    old(self)@,
                    Builtin::Substring,
                    ast_view_seq(args@),
                    fuel as nat,
                );
                final(self)@ == st2 && res_matches(r, rv)
            }),
        decreases fuel, crate::ast::seq_size(ast_view_seq(args@)), 2nat, 0int,
    {
        let ghost argv = ast_view_seq(args@);
        proof {
            lemma_ast_view_seq(args@);
        }
        if args.len() != 3 {
            return Err(
                ErrorHandler::ParseError("Invalid number of operands for 'substring'".to_owned()),
            );
        }
        proof {
            crate::ast::lemma_seq_size_index(argv, 0);
            crate::ast::lemma_seq_size_index(argv, 1);
            crate::ast::lemma_seq_size_index(argv, 2);
        }
        match self.eval_ast(&args[0], fuel) {
            Err(e) => Err(e),
            Ok(Some(VariableValue::Text(t))) => match self.eval_ast(&args[1], fuel) {
                Err(e) => Err(e),
                Ok(Some(VariableValue::Number(s0))) => match self.eval_ast(&args[2], fuel) {
                    Err(e) => Err(e),
                    Ok(Some(VariableValue::Number(e0))) => {
                        let tlen = t.as_str().unicode_len();
                        let lo0: i128 = if (s0 as i128) < 0 {
                            0
                        } else {
                            s0 as i128
                        };
                        let lo: i128 = if lo0 > tlen as i128 {
                            tlen as i128
                        } else {
                            lo0
                        };
                        let cnt0: i128 = e0 as i128 - s0 as i128 + 1;
                        let cnt: i128 = if cnt0 < 0 {
                            0
                        } else {
                            cnt0
                        };
                        let hi: i128 = if lo + cnt > tlen as i128 {
                            tlen as i128
                        } else {
                            lo + cnt
                        };
                        let sub = t.as_str().substring_char(lo as usize, hi as usize).to_owned();
                        proof {
                            assert(sub@ == crate::semantics::substring_of(
                                t@,
                                s0 as int,
                                e0 as int,
                            ));
                        }
                        Ok(Some(VariableValue::Text(sub)))
                    },
                    Ok(_) => Err(ErrorHandler::ParseError("Invalid substring syntax".to_owned())),
                },
                Ok(_) => Err(ErrorHandler::ParseError("Invalid substring syntax".to_owned())),
            },
            Ok(_) => Err(ErrorHandler::ParseError("Invalid substring syntax".to_owned())),
        }
    }

    /// `print`: renders the operands into one line of buffered output.
    fn bi_print(&mut self, args: &Vec<ASTNode>, fuel: u64) -> (r: Result<
        Option<VariableValue>,
        ErrorHandler,
    >)
        ensures
            ({
                let (st2, rv) = eval_builtin(
                    old(self)@,
                    Builtin::Print,
                    ast_view_seq(args@),
                    fuel as nat,
                );
                final(self)@ == st2 && res_matches(r, rv)
            }),
        decreases fuel, crate::ast::seq_size(ast_view_seq(args@)), 2nat, 0int,
    {
        let ghost argv = ast_view_seq(args@);
        proof {
            lemma_ast_view_seq(args@);
        }
        if args.len() == 0 {
            return Err(ErrorHandler::ParseError("Invalid print syntax".to_owned()));
        }
        let vals = match self.eval_args_all(args, 0, fuel) {
            Ok(v) => v,
            Err(e) => {
                proof {
                    assert(argv.subrange(0, argv.len() as int) =~= argv);
                }
                return Err(e);
            },
        };
        proof {
            assert(argv.subrange(0, argv.len() as int) =~= argv);
        }
        match print_parts_exec(&vals, 0) {
            Err(e) => {
                proof {
                    assert(opts_view(vals@).subrange(0, opts_view(vals@).len() as int) =~= opts_view(
                        vals@,
                    ));
                }
                Err(e)
            },
            Ok(line) => {
                proof {
                    assert(opts_view(vals@).subrange(0, opts_view(vals@).len() as int) =~= opts_view(
                        vals@,
                    ));
                }
                let trimmed = trim_line(&line);
                let ghost out0 = strs_view(self.output@);
                self.output.push(trimmed);
                proof {
                    assert(strs_view(self.output@) =~= out0.push(
                        trim_end_ws(crate::semantics::print_parts(opts_view(vals@))->Ok_0),
                    ));
                }
                Ok(None)
            },
        }
    }

    /// `exit`: asks the embedder to stop with the given status.
    fn bi_exit(&mut self, args: &Vec<ASTNode>, fuel: u64) -> (r: Result<
        Option<VariableValue>,
        ErrorHandler,
    >)
        ensures
            ({
                let (st2, rv) = eval_builtin(
                    old(self)@,
                    Builtin::Exit,
                    ast_view_seq(args@),
                    fuel as nat,
                );
                final(self)@ == st2 && res_matches(r, rv)
            }),
        decreases fuel, crate::ast::seq_size(ast_view_seq(args@)), 2nat, 0int,
    {
        let ghost argv = ast_view_seq(args@);
        proof {
            lemma_ast_view_seq(args@);
        }
        if args.len() != 1 {
            return Err(
                ErrorHandler::ParseError("Invalid number of operands for 'exit'".to_owned()),
            );
        }
        proof {
            crate::ast::lemma_seq_size_index(argv, 0);
        }
        match self.eval_ast(&args[0], fuel) {
            Err(e) => Err(e),
            Ok(Some(VariableValue::Number(c))) => Err(ErrorHandler::Exit(c)),
            Ok(_) => Err(ErrorHandler::ParseError("Invalid exit syntax".to_owned())),
        }
    }

    /// `debug`: appends a dump of the state to the output buffer.
    fn bi_debug(&mut self, args: &Vec<ASTNode>, fuel: u64) -> (r: Result<
        Option<VariableValue>,
        ErrorHandler,
    >)
        ensures
            ({
                let (st2, rv) = eval_builtin(
                    old(self)@,
                    Builtin::Debug,
                    ast_view_seq(args@),
                    fuel as nat,
                );
                final(self)@ == st2 && res_matches(r, rv)
            }),
    {
        let ghost argv = ast_view_seq(args@);
        proof {
            lemma_ast_view_seq(args@);
        }
        if args.len() != 0 {
            return Err(
                ErrorHandler::ParseError("Invalid number of operands for 'debug'".to_owned()),
            );
        }
        let ghost st = self@;
        let mut lines: Vec<String> = Vec::new();
        proof {
            assert(strs_view(lines@) =~= Seq::<Seq<char>>::empty());
        }
        if self.variables.len() > 0 {
            lines.push("Variables:".to_owned());
            let mut dv = dump_vars_exec(&self.variables);
            let ghost l0 = strs_view(lines@);
            let ghost dvv = strs_view(dv@);
            lines.append(&mut dv);
            proof {
                assert(strs_view(lines@) =~= l0 + dvv);
                assert(strs_view(lines@) =~= seq!["Variables:"@] + dump_vars(st.vars));
            }
        }
        let ghost vpart = strs_view(lines@);
        if self.functions.len() > 0 {
            lines.push("Functions:".to_owned());
            let mut df = dump_funcs_exec(&self.functions);
            let ghost l0 = strs_view(lines@);
            let ghost dfv = strs_view(df@);
            lines.append(&mut df);
            proof {
                assert(strs_view(lines@) =~= l0 + dfv);
                assert(l0 =~= vpart.push("Functions:"@));
                assert(strs_view(lines@) =~= vpart + (seq!["Functions:"@] + dump_funcs(st.funcs)));
            }
        }
        proof {
            assert(strs_view(lines@) =~= dump_lines(st));
        }
        let ghost out0 = strs_view(self.output@);
        let ghost linesv = strs_view(lines@);
        let mut lines2 = lines;
        self.output.append(&mut lines2);
        proof {
            assert(strs_view(self.output@) =~= out0 + linesv);
        }
        Ok(None)
    }

    /// `base`: the identity wrapper.
    fn bi_base(&mut self, args: &Vec<ASTNode>, fuel: u64) -> (r: Result<
        Option<VariableValue>,
        ErrorHandler,
    >)
        ensures
            ({
                let (st2, rv) = eval_builtin(
                    old(self)@,
                    Builtin::Base,
                    ast_view_seq(args@),
                    fuel as nat,
                );
                final(self)@ == st2 && res_matches(r, rv)
            }),
        decreases fuel, crate::ast::seq_size(ast_view_seq(args@)), 2nat, 0int,
    {
        let ghost argv = ast_view_seq(args@);
        proof {
            lemma_ast_view_seq(args@);
        }
        if args.len() != 1 {
            return Err(ErrorHandler::ParseError("Invalid syntax for 'base'".to_owned()));
        }
        proof {
            crate::ast::lemma_seq_size_index(argv, 0);
        }
        self.eval_ast(&args[0], fuel)
    }

    /// `func`: stores a definition, silently overwriting any old one.
    fn bi_func(&mut self, args: &Vec<ASTNode>, fuel: u64) -> (r: Result<
        Option<VariableValue>,
        ErrorHandler,
    >)
        ensures
            ({
                let (st2, rv) = eval_builtin(
                    old(self)@,
                    Builtin::Func,
                    ast_view_seq(args@),
                    fuel as nat,
                );
                final(self)@ == st2 && res_matches(r, rv)
            }),
    {
        let ghost argv = ast_view_seq(args@);
        proof {
            lemma_ast_view_seq(args@);
        }
        if args.len() != 3 {
            return Err(ErrorHandler::ParseError("Invalid syntax for 'func'".to_owned()));
        }
        match &args[0] {
            ASTNode::Value(fname) => match &args[1] {
                ASTNode::Operator(p0, pch) => {
                    proof {
                        lemma_ast_view_seq(pch@);
                    }
                    match params_of(pch, 0) {
                        None => {
                            proof {
                                assert(ast_view_seq(pch@).subrange(
                                    0,
                                    ast_view_seq(pch@).len() as int,
                                ) =~= ast_view_seq(pch@));
                            }
                            Err(ErrorHandler::ParseError("Invalid parameter".to_owned()))
                        },
                        Some(rest) => {
                            proof {
                                assert(ast_view_seq(pch@).subrange(
                                    0,
                                    ast_view_seq(pch@).len() as int,
                                ) =~= ast_view_seq(pch@));
                            }
                            let ghost restv = strs_view(rest@);
                            let mut params = rest;
                            params.insert(0, p0.clone());
                            proof {
                                assert(strs_view(params@) =~= seq![p0@] + restv);
                            }
                            let body = args[2].duplicate();
                            let def = FunctionDef { params, body };
                            upsert_fn(&mut self.functions, fname, def);
                            Ok(None)
                        },
                    }
                },
                _ => Err(ErrorHandler::ParseError("Invalid function parameters".to_owned())),
            },
            _ => Err(ErrorHandler::ParseError("Invalid function name".to_owned())),
        }
    }

    /// Evaluates one textual form: tokenize, parse, evaluate, flush.
    ///
    /// On success the first part of the result is the rendered value, or
    /// the word `OK` for a form with no value; the second part holds the
    /// output lines `print` buffered, which are cleared here. On error
    /// the buffer is left in place.
    pub fn eval(&mut self, expr: &str) -> (r: Result<(String, Vec<String>), ErrorHandler>)
        ensures
            ({
                let (st2, rv) = spec_eval(old(self)@, expr@);
                final(self)@ == st2 && match (r, rv) {
                    (Ok((s, lines)), Ok((sv, lv))) => s@ == sv && strs_view(lines@) == lv,
                    (Err(e), Err(ev)) => e@ == ev,
                    _ => false,
                }
            }),
    {
        let tokens = tokenize(expr);
        let parsed = match crate::parser::parse(tokens.as_slice()) {
            Ok(p) => p,
            Err(e) => {
                return Err(e);
            },
        };
        let (ast, _consumed) = parsed;
        match self.eval_ast(&ast, CALL_FUEL) {
            Err(e) => Err(e),
            Ok(v) => {
                let s = match v {
                    Some(val) => render_value(&val),
                    None => "OK".to_owned(),
                };
                let lines = clone_strings(&self.output);
                self.output.clear();
                proof {
                    assert(strs_view(self.output@) =~= Seq::<Seq<char>>::empty());
                }
                Ok((s, lines))
            },
        }
    }
}

} // verus!
