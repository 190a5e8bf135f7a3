//! Runtime values and the error type of the interpreter.

use vstd::prelude::*;
use crate::num::spec_render_int;
use crate::strutil::append_str;

verus! {

/// A runtime value: a 64-bit signed integer or a piece of text.
/// No implicit coercion happens between the two except inside `concat`.
#[derive(Debug)]
pub enum VariableValue {
    Number(i64),
    Text(String),
}

/// The mathematical shape of a runtime value: the text is a sequence of
/// characters.
pub enum ValV {
    Num(i64),
    Text(Seq<char>),
}

impl View for VariableValue {
    type V = ValV;

    open spec fn view(&self) -> ValV {
        match self {
            VariableValue::Number(n) => ValV::Num(*n),
            VariableValue::Text(s) => ValV::Text(s@),
        }
    }
}

impl VariableValue {
    /// Deep copy; the copy has the same abstract value.
    pub fn duplicate(&self) -> (r: VariableValue)
        ensures
            r@ == self@,
    {
        match self {
            VariableValue::Number(n) => VariableValue::Number(*n),
            VariableValue::Text(s) => VariableValue::Text(s.clone()),
        }
    }
}

/// Everything that can go wrong while evaluating a form.
///
/// `Exit` is not a fault: it asks the embedder to stop the process with the
/// given status, bypassing the output flush. `RecursionLimit` reports that
/// the nesting of user-defined function calls exceeded the evaluator's
/// depth budget.
#[derive(Debug)]
pub enum ErrorHandler {
    DivisionByZero,
    VariableNotFound(String),
    ParseError(String),
    FunctionOrOperatorNotFound(String),
    Exit(i64),
    RecursionLimit,
}

/// The mathematical shape of an error.
pub enum ErrV {
    DivisionByZero,
    VariableNotFound(Seq<char>),
    ParseError(Seq<char>),
    FunctionOrOperatorNotFound(Seq<char>),
    Exit(i64),
    RecursionLimit,
}

impl View for ErrorHandler {
    type V = ErrV;

    open spec fn view(&self) -> ErrV {
        match self {
            ErrorHandler::DivisionByZero => ErrV::DivisionByZero,
            ErrorHandler::VariableNotFound(s) => ErrV::VariableNotFound(s@),
            ErrorHandler::ParseError(s) => ErrV::ParseError(s@),
            ErrorHandler::FunctionOrOperatorNotFound(s) => ErrV::FunctionOrOperatorNotFound(s@),
            ErrorHandler::Exit(c) => ErrV::Exit(*c),
            ErrorHandler::RecursionLimit => ErrV::RecursionLimit,
        }
    }
}

/// The one-line description of an error.
pub open spec fn err_message(e: ErrV) -> Seq<char> {
    match e {
        ErrV::DivisionByZero => "Division by zero"@,
        ErrV::VariableNotFound(name) => "Variable '"@ + name + "' not found"@,
        ErrV::ParseError(msg) => "Parse error: "@ + msg,
        ErrV::FunctionOrOperatorNotFound(name) => "Function or operator '"@ + name
            + "' not found"@,
        ErrV::Exit(code) => "Exit with status "@ + spec_render_int(code as int),
        ErrV::RecursionLimit => "Recursion limit exceeded"@,
    }
}

impl ErrorHandler {
    /// Writes the error out in one line.
    pub fn message(&self) -> (s: String)
        ensures
            s@ == err_message(self@),
    {
        match self {
            ErrorHandler::DivisionByZero => "Division by zero".to_owned(),
            ErrorHandler::VariableNotFound(name) => {
                let mut s = "Variable '".to_owned();
                append_str(&mut s, name.as_str());
                append_str(&mut s, "' not found");
                s
            },
            ErrorHandler::ParseError(msg) => {
                let mut s = "Parse error: ".to_owned();
                append_str(&mut s, msg.as_str());
                s
            },
            ErrorHandler::FunctionOrOperatorNotFound(name) => {
                let mut s = "Function or operator '".to_owned();
                append_str(&mut s, name.as_str());
                append_str(&mut s, "' not found");
                s
            },
            ErrorHandler::Exit(code) => {
                let mut s = "Exit with status ".to_owned();
                let c = crate::num::render_int(*code);
                append_str(&mut s, c.as_str());
                s
            },
            ErrorHandler::RecursionLimit => "Recursion limit exceeded".to_owned(),
        }
    }
}

} // verus!
