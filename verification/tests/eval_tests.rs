use rss::interp::Interpreter;
use rss::value::ErrorHandler;

fn ok_result(i: &mut Interpreter, src: &str) -> String {
    match i.eval(src) {
        Ok((s, _lines)) => s,
        Err(_) => panic!("expected success for {}", src),
    }
}

fn ok_lines(i: &mut Interpreter, src: &str) -> Vec<String> {
    match i.eval(src) {
        Ok((_s, lines)) => lines,
        Err(_) => panic!("expected success for {}", src),
    }
}

fn err_of(i: &mut Interpreter, src: &str) -> ErrorHandler {
    match i.eval(src) {
        Ok(_) => panic!("expected an error for {}", src),
        Err(e) => e,
    }
}

#[test]
fn add_three_numbers() {
    let mut i = Interpreter::new();
    assert_eq!(ok_result(&mut i, "(add 1 2 3)"), "6");
}

#[test]
fn let_set_get_sequence() {
    let mut i = Interpreter::new();
    assert_eq!(ok_result(&mut i, "(let x 5)"), "OK");
    assert_eq!(ok_result(&mut i, "(set x (add x 1))"), "OK");
    assert_eq!(ok_result(&mut i, "(get x)"), "6");
}

#[test]
fn division_by_zero_fails() {
    let mut i = Interpreter::new();
    assert!(matches!(err_of(&mut i, "(div 10 0)"), ErrorHandler::DivisionByZero));
}

#[test]
fn division_by_zero_any_position() {
    let mut i = Interpreter::new();
    assert!(matches!(err_of(&mut i, "(div 100 5 0 2)"), ErrorHandler::DivisionByZero));
    assert!(matches!(err_of(&mut i, "(mod 100 0)"), ErrorHandler::DivisionByZero));
    assert!(matches!(err_of(&mut i, "(mod 100 7 0)"), ErrorHandler::DivisionByZero));
}

#[test]
fn user_function_square() {
    let mut i = Interpreter::new();
    assert_eq!(ok_result(&mut i, "(func sq (n) (mul n n))"), "OK");
    assert_eq!(ok_result(&mut i, "(sq 5)"), "25");
}

#[test]
fn if_with_else_branch() {
    let mut i = Interpreter::new();
    assert_eq!(ok_result(&mut i, "(if (eq? 1 2) 10 (else 20))"), "20");
}

#[test]
fn switch_matches_second_case() {
    let mut i = Interpreter::new();
    assert_eq!(ok_result(&mut i, "(switch 2 (case 1 100) (case 2 200) (default 0))"), "200");
}

#[test]
fn factorial_up_to_ten() {
    let mut i = Interpreter::new();
    ok_result(
        &mut i,
        "(func factorial (n) (if (eq? n 0) 1 (else (mul n (factorial (sub n 1))))))",
    );
    let expected = [
        "1", "1", "2", "6", "24", "120", "720", "5040", "40320", "362880", "3628800",
    ];
    let mut n: usize = 0;
    while n <= 10 {
        let src = format!("(factorial {})", n);
        assert_eq!(ok_result(&mut i, &src), expected[n]);
        n += 1;
    }
}

#[test]
fn factorial_wrong_arity_fails() {
    let mut i = Interpreter::new();
    ok_result(
        &mut i,
        "(func factorial (n) (if (eq? n 0) 1 (else (mul n (factorial (sub n 1))))))",
    );
    assert!(matches!(err_of(&mut i, "(factorial 1 2)"), ErrorHandler::ParseError(_)));
}

#[test]
fn substring_inclusive_end() {
    let mut i = Interpreter::new();
    assert_eq!(ok_result(&mut i, "(substring 'Hello, World!' 0 4)"), "Hello");
}

#[test]
fn substring_edges() {
    let mut i = Interpreter::new();
    // a negative start still counts positions from the raw start
    assert_eq!(ok_result(&mut i, "(substring 'Hello' -2 2)"), "Hello");
    // an end before the start takes nothing
    assert_eq!(ok_result(&mut i, "(substring 'Hello' 3 1)"), "");
    // an end past the text stops at the text's end
    assert_eq!(ok_result(&mut i, "(substring 'Hello' 1 99)"), "ello");
}

#[test]
fn bare_literals_evaluate_to_themselves() {
    let mut i = Interpreter::new();
    assert_eq!(ok_result(&mut i, "(base 42)"), "42");
    assert_eq!(ok_result(&mut i, "(base -7)"), "-7");
    assert_eq!(ok_result(&mut i, "(base 0)"), "0");
    assert_eq!(ok_result(&mut i, "(base 9223372036854775807)"), "9223372036854775807");
    assert_eq!(ok_result(&mut i, "(base -9223372036854775808)"), "-9223372036854775808");
}

#[test]
fn boolean_keywords() {
    let mut i = Interpreter::new();
    assert_eq!(ok_result(&mut i, "(base True)"), "1");
    assert_eq!(ok_result(&mut i, "(base False)"), "0");
}

#[test]
fn let_twice_fails() {
    let mut i = Interpreter::new();
    ok_result(&mut i, "(let x 1)");
    assert!(matches!(err_of(&mut i, "(let x 2)"), ErrorHandler::ParseError(_)));
}

#[test]
fn set_unbound_fails() {
    let mut i = Interpreter::new();
    assert!(matches!(err_of(&mut i, "(set x 1)"), ErrorHandler::ParseError(_)));
}

#[test]
fn get_and_del_unbound_fail() {
    let mut i = Interpreter::new();
    assert!(matches!(err_of(&mut i, "(get nope)"), ErrorHandler::VariableNotFound(_)));
    assert!(matches!(err_of(&mut i, "(del nope)"), ErrorHandler::VariableNotFound(_)));
}

#[test]
fn del_removes_binding() {
    let mut i = Interpreter::new();
    ok_result(&mut i, "(let x 1)");
    ok_result(&mut i, "(del x)");
    assert!(matches!(err_of(&mut i, "(get x)"), ErrorHandler::VariableNotFound(_)));
}

#[test]
fn for_leaves_loop_variable_bound() {
    let mut i = Interpreter::new();
    ok_result(&mut i, "(let total 0)");
    assert_eq!(ok_result(&mut i, "(for k 0 5 (set total (add total k)))"), "OK");
    assert_eq!(ok_result(&mut i, "(get k)"), "4");
    assert_eq!(ok_result(&mut i, "(get total)"), "10");
}

#[test]
fn and_or_evaluate_every_operand() {
    let mut i = Interpreter::new();
    ok_result(&mut i, "(let y 0)");
    ok_result(&mut i, "(func seven (p) 7)");
    // the first operand already decides the outcome; the later ones must
    // still run for their side effects
    assert_eq!(ok_result(&mut i, "(and 0 (seven (set y 1)) (seven (set y 2)))"), "0");
    assert_eq!(ok_result(&mut i, "(get y)"), "2");
    assert_eq!(ok_result(&mut i, "(or 1 (seven (set y 3)))"), "1");
    assert_eq!(ok_result(&mut i, "(get y)"), "3");
}

#[test]
fn arithmetic_folds() {
    let mut i = Interpreter::new();
    assert_eq!(ok_result(&mut i, "(sub 10 1 2)"), "7");
    assert_eq!(ok_result(&mut i, "(mul 2 3 4)"), "24");
    assert_eq!(ok_result(&mut i, "(div 100 5 2)"), "10");
    assert_eq!(ok_result(&mut i, "(mod 17 5)"), "2");
    assert_eq!(ok_result(&mut i, "(add)"), "0");
    assert_eq!(ok_result(&mut i, "(mul)"), "1");
    assert!(matches!(err_of(&mut i, "(sub)"), ErrorHandler::ParseError(_)));
    assert!(matches!(err_of(&mut i, "(div)"), ErrorHandler::ParseError(_)));
}

#[test]
fn truncating_division_semantics() {
    let mut i = Interpreter::new();
    assert_eq!(ok_result(&mut i, "(div -7 2)"), "-3");
    assert_eq!(ok_result(&mut i, "(mod -7 3)"), "-1");
    assert_eq!(ok_result(&mut i, "(mod 7 -3)"), "1");
}

#[test]
fn arithmetic_overflow_is_reported() {
    let mut i = Interpreter::new();
    assert!(matches!(
        err_of(&mut i, "(add 9223372036854775807 1)"),
        ErrorHandler::ParseError(_)
    ));
    assert!(matches!(
        err_of(&mut i, "(div -9223372036854775808 -1)"),
        ErrorHandler::ParseError(_)
    ));
}

#[test]
fn extrema() {
    let mut i = Interpreter::new();
    assert_eq!(ok_result(&mut i, "(max 3 9 2)"), "9");
    assert_eq!(ok_result(&mut i, "(min 3 -9 2)"), "-9");
    // with no operands the scan never moves off its seed
    assert_eq!(ok_result(&mut i, "(max)"), "-9223372036854775808");
    assert_eq!(ok_result(&mut i, "(min)"), "9223372036854775807");
}

#[test]
fn math_builtins() {
    let mut i = Interpreter::new();
    assert_eq!(ok_result(&mut i, "(pow 2 10)"), "1024");
    assert_eq!(ok_result(&mut i, "(sqrt 49)"), "7");
    assert_eq!(ok_result(&mut i, "(sqrt 50)"), "7");
    assert_eq!(ok_result(&mut i, "(abs -5)"), "5");
    assert_eq!(ok_result(&mut i, "(abs 5)"), "5");
    assert!(matches!(err_of(&mut i, "(sqrt -1)"), ErrorHandler::ParseError(_)));
    assert!(matches!(err_of(&mut i, "(pow 2)"), ErrorHandler::ParseError(_)));
}

#[test]
fn predicates() {
    let mut i = Interpreter::new();
    assert_eq!(ok_result(&mut i, "(zero? 0)"), "1");
    assert_eq!(ok_result(&mut i, "(zero? 3)"), "0");
    assert_eq!(ok_result(&mut i, "(even? -4)"), "1");
    assert_eq!(ok_result(&mut i, "(even? -3)"), "0");
    assert_eq!(ok_result(&mut i, "(odd? -3)"), "1");
    assert_eq!(ok_result(&mut i, "(pos? 2)"), "1");
    assert_eq!(ok_result(&mut i, "(neg? -2)"), "1");
    assert_eq!(ok_result(&mut i, "(not 0)"), "1");
    assert_eq!(ok_result(&mut i, "(not 5)"), "0");
}

#[test]
fn comparisons() {
    let mut i = Interpreter::new();
    assert_eq!(ok_result(&mut i, "(eq? 2 2)"), "1");
    assert_eq!(ok_result(&mut i, "(neq? 2 3)"), "1");
    assert_eq!(ok_result(&mut i, "(lt? 2 3)"), "1");
    assert_eq!(ok_result(&mut i, "(lte? 2 2)"), "1");
    assert_eq!(ok_result(&mut i, "(gt? 3 2)"), "1");
    assert_eq!(ok_result(&mut i, "(gte? 2 3)"), "0");
}

#[test]
fn string_builtins() {
    let mut i = Interpreter::new();
    assert_eq!(ok_result(&mut i, "(len 'abc')"), "3");
    assert!(matches!(err_of(&mut i, "(len 5)"), ErrorHandler::ParseError(_)));
    assert_eq!(ok_result(&mut i, "(concat 'a' 1 'b')"), "a1b");
    assert_eq!(ok_result(&mut i, "(concat)"), "");
}

#[test]
fn print_buffers_and_flushes() {
    let mut i = Interpreter::new();
    let lines = ok_lines(&mut i, "(print 1 'two' 3)");
    assert_eq!(lines, vec!["1 two 3".to_string()]);
    // the buffer was cleared with the flush
    let lines2 = ok_lines(&mut i, "(base 1)");
    assert!(lines2.is_empty());
    assert!(matches!(err_of(&mut i, "(print)"), ErrorHandler::ParseError(_)));
}

#[test]
fn string_literal_keeps_parens_and_spaces() {
    let mut i = Interpreter::new();
    let lines = ok_lines(&mut i, "(print 'a (b) c')");
    assert_eq!(lines, vec!["a (b) c".to_string()]);
}

#[test]
fn output_survives_an_error_until_the_next_flush() {
    let mut i = Interpreter::new();
    ok_result(&mut i, "(func ten (p) 10)");
    // the argument prints into the caller's buffer before the zero
    // divisor aborts the form; the buffer is not flushed by the error
    assert!(matches!(
        err_of(&mut i, "(div (ten (print 'kept')) 0)"),
        ErrorHandler::DivisionByZero
    ));
    let lines = ok_lines(&mut i, "(base 1)");
    assert_eq!(lines, vec!["kept".to_string()]);
}

#[test]
fn exit_is_reported_to_the_embedder() {
    let mut i = Interpreter::new();
    match err_of(&mut i, "(exit 3)") {
        ErrorHandler::Exit(code) => assert_eq!(code, 3),
        _ => panic!("expected an exit signal"),
    }
}

#[test]
fn debug_dumps_state_into_the_output() {
    let mut i = Interpreter::new();
    ok_result(&mut i, "(let a 1)");
    ok_result(&mut i, "(func f (x y) (add x y))");
    let lines = ok_lines(&mut i, "(debug)");
    assert_eq!(
        lines,
        vec![
            "Variables:".to_string(),
            "a: 1".to_string(),
            "Functions:".to_string(),
            "f(x y)".to_string(),
        ]
    );
}

#[test]
fn if_without_matching_else() {
    let mut i = Interpreter::new();
    assert_eq!(ok_result(&mut i, "(if 0 1)"), "OK");
    assert_eq!(ok_result(&mut i, "(if 1 7)"), "7");
    assert!(matches!(err_of(&mut i, "(if 0 1 2)"), ErrorHandler::ParseError(_)));
}

#[test]
fn switch_default_and_bad_arms() {
    let mut i = Interpreter::new();
    assert_eq!(ok_result(&mut i, "(switch 5 (case 1 10) (default 99))"), "99");
    assert_eq!(ok_result(&mut i, "(switch 5 (case 1 10))"), "OK");
    assert!(matches!(
        err_of(&mut i, "(switch 5 (whatever 1 10))"),
        ErrorHandler::ParseError(_)
    ));
}

#[test]
fn func_redefinition_overwrites() {
    let mut i = Interpreter::new();
    ok_result(&mut i, "(func f (n) (add n 1))");
    assert_eq!(ok_result(&mut i, "(f 1)"), "2");
    ok_result(&mut i, "(func f (n) (add n 10))");
    assert_eq!(ok_result(&mut i, "(f 1)"), "11");
}

#[test]
fn call_isolation_hides_callee_bindings() {
    let mut i = Interpreter::new();
    ok_result(&mut i, "(func leaky (n) (let z 9))");
    assert_eq!(ok_result(&mut i, "(leaky 1)"), "OK");
    assert!(matches!(err_of(&mut i, "(get z)"), ErrorHandler::VariableNotFound(_)));
}

#[test]
fn callee_output_reaches_the_caller() {
    let mut i = Interpreter::new();
    ok_result(&mut i, "(func noisy (n) (print 'from inside' n))");
    let lines = ok_lines(&mut i, "(noisy 4)");
    assert_eq!(lines, vec!["from inside 4".to_string()]);
}

#[test]
fn unbounded_recursion_is_cut_off() {
    let mut i = Interpreter::new();
    ok_result(&mut i, "(func loopy (n) (loopy n))");
    assert!(matches!(err_of(&mut i, "(loopy 1)"), ErrorHandler::RecursionLimit));
}

#[test]
fn unknown_names_fail() {
    let mut i = Interpreter::new();
    assert!(matches!(err_of(&mut i, "(base zzz)"), ErrorHandler::VariableNotFound(_)));
    assert!(matches!(
        err_of(&mut i, "(zzz 1)"),
        ErrorHandler::FunctionOrOperatorNotFound(_)
    ));
}

#[test]
fn syntax_errors() {
    let mut i = Interpreter::new();
    assert!(matches!(err_of(&mut i, "add 1"), ErrorHandler::ParseError(_)));
    assert!(matches!(err_of(&mut i, "(add 1"), ErrorHandler::ParseError(_)));
    assert!(matches!(err_of(&mut i, ""), ErrorHandler::ParseError(_)));
}

#[test]
fn empty_form_yields_nothing() {
    let mut i = Interpreter::new();
    assert_eq!(ok_result(&mut i, "()"), "OK");
}

#[test]
fn error_messages() {
    let mut i = Interpreter::new();
    assert_eq!(err_of(&mut i, "(div 1 0)").message(), "Division by zero");
    assert_eq!(err_of(&mut i, "(get zzz)").message(), "Variable 'zzz' not found");
    assert_eq!(
        err_of(&mut i, "(frob 1)").message(),
        "Function or operator 'frob' not found"
    );
    assert_eq!(err_of(&mut i, "(exit -2)").message(), "Exit with status -2");
    assert_eq!(err_of(&mut i, "(add 'a')").message(), "Parse error: Operands must be numbers");
}
