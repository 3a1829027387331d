//! Whole-run scenarios: source text in, printed texts or one error out.

use lox_core::errors::{Error, LexError, RuntimeError, SyntaxError};
use lox_core::run;

fn chars(s: &str) -> Vec<char> {
    s.chars().collect()
}

#[test]
fn arithmetic_precedence() {
    let r = run(String::from("print 1+6/(3+3)*2"));
    assert_eq!(r.unwrap(), vec![chars("3")]);
}

#[test]
fn variable_lookup() {
    let r = run(String::from("var a = 3\nvar b = a\nprint b"));
    assert_eq!(r.unwrap(), vec![chars("3")]);
}

#[test]
fn assignment_mutates_outer_scope() {
    let r = run(String::from("var a = 3\nvar b = 4\nif (a < b) { b = 10 }\nprint b"));
    assert_eq!(r.unwrap(), vec![chars("10")]);
}

#[test]
fn function_call_prints() {
    let r = run(String::from("fun a() { print 1 }\na()"));
    assert_eq!(r.unwrap(), vec![chars("1")]);
}

#[test]
fn closure_uses_declaration_scope() {
    let r = run(String::from("var x = 1\nfun f() { print x }\n{ var x = 99\nf() }"));
    assert_eq!(r.unwrap(), vec![chars("1")]);
}

#[test]
fn assignment_to_unbound_name_fails() {
    let r = run(String::from("b = 5"));
    assert!(matches!(
        r,
        Err(Error::Runtime(RuntimeError::UndefinedVariable { line: 1 }))
    ));
}

#[test]
fn block_bindings_invisible_after_exit() {
    let r = run(String::from("{ var q = 5 }\nprint q"));
    assert!(matches!(
        r,
        Err(Error::Runtime(RuntimeError::UndefinedVariable { line: 2 }))
    ));
}

#[test]
fn block_shadowing_restores_outer_binding() {
    let r = run(String::from("var a = 1\n{ var a = 2\nprint a }\nprint a"));
    assert_eq!(r.unwrap(), vec![chars("2"), chars("1")]);
}

#[test]
fn left_associative_subtraction() {
    let r = run(String::from("print 7-2-3"));
    assert_eq!(r.unwrap(), vec![chars("2")]);
}

#[test]
fn unary_minus_binds_tighter() {
    let r = run(String::from("print -4*2"));
    assert_eq!(r.unwrap(), vec![chars("-8")]);
}

#[test]
fn division_truncates() {
    let r = run(String::from("print 7/2"));
    assert_eq!(r.unwrap(), vec![chars("3")]);
}

#[test]
fn division_by_zero_saturates() {
    let r = run(String::from("print 1/0"));
    assert_eq!(r.unwrap(), vec![chars("9223372036854775807")]);
}

#[test]
fn zero_over_zero_is_zero() {
    let r = run(String::from("print 0/0"));
    assert_eq!(r.unwrap(), vec![chars("0")]);
}

#[test]
fn negative_division_by_zero_saturates_low() {
    let r = run(String::from("print -1/0"));
    assert_eq!(r.unwrap(), vec![chars("-9223372036854775808")]);
}

#[test]
fn addition_saturates() {
    let r = run(String::from("print 9223372036854775807+1"));
    assert_eq!(r.unwrap(), vec![chars("9223372036854775807")]);
}

#[test]
fn oversized_literal_saturates() {
    let r = run(String::from("print 99999999999999999999999999"));
    assert_eq!(r.unwrap(), vec![chars("9223372036854775807")]);
}

#[test]
fn fractional_literal_keeps_integer_part() {
    let r = run(String::from("print 12.5"));
    assert_eq!(r.unwrap(), vec![chars("12")]);
}

#[test]
fn string_literal_prints_contents() {
    let r = run(String::from("print \"hello\""));
    assert_eq!(r.unwrap(), vec![chars("hello")]);
}

#[test]
fn booleans_print_as_words() {
    let r = run(String::from("print true\nprint false"));
    assert_eq!(r.unwrap(), vec![chars("true"), chars("false")]);
}

#[test]
fn equality_covers_the_union() {
    let r = run(String::from("print 1 == 1\nprint 1 == \"x\"\nprint \"x\" == \"x\"\nprint 1 != 2"));
    assert_eq!(
        r.unwrap(),
        vec![chars("true"), chars("false"), chars("true"), chars("true")]
    );
}

#[test]
fn comparisons_require_numbers() {
    let r = run(String::from("print 1 + true"));
    assert!(matches!(
        r,
        Err(Error::Runtime(RuntimeError::TypeMismatch { line: 1 }))
    ));
}

#[test]
fn logical_operators_short_circuit() {
    let r = run(String::from("fun boom() { boom() }\nprint true or boom()\nprint false and boom()"));
    assert_eq!(r.unwrap(), vec![chars("true"), chars("false")]);
}

#[test]
fn logical_operands_must_be_boolean() {
    let r = run(String::from("print 3 or true"));
    assert!(matches!(
        r,
        Err(Error::Runtime(RuntimeError::TypeMismatch { line: 1 }))
    ));
}

#[test]
fn bang_negates_booleans_only() {
    let r = run(String::from("print !true"));
    assert_eq!(r.unwrap(), vec![chars("false")]);
    let r2 = run(String::from("print !3"));
    assert!(matches!(
        r2,
        Err(Error::Runtime(RuntimeError::TypeMismatch { line: 1 }))
    ));
}

#[test]
fn calling_a_number_is_not_callable() {
    let r = run(String::from("var a = 3\na()"));
    assert!(matches!(
        r,
        Err(Error::Runtime(RuntimeError::NotCallable { line: 2 }))
    ));
}

#[test]
fn arity_mismatch_is_reported() {
    let r = run(String::from("fun f(x) { print x }\nf()"));
    assert!(matches!(
        r,
        Err(Error::Runtime(RuntimeError::ArityMismatch { expected: 1, got: 0, line: 2 }))
    ));
}

#[test]
fn unbounded_recursion_hits_depth_limit() {
    let r = run(String::from("fun f() { f() }\nf()"));
    assert!(matches!(
        r,
        Err(Error::Runtime(RuntimeError::StackOverflow { .. }))
    ));
}

#[test]
fn chained_assignment_is_right_associative() {
    let r = run(String::from("var a = 1\nvar b = 2\na = b = 7\nprint a\nprint b"));
    assert_eq!(r.unwrap(), vec![chars("7"), chars("7")]);
}

#[test]
fn assignment_target_must_be_a_variable() {
    let r = run(String::from("var a = 1\n1 = a"));
    assert!(matches!(
        r,
        Err(Error::Syntax(SyntaxError::InvalidAssignmentTarget { line: 2 }))
    ));
}

#[test]
fn unterminated_string_is_fatal() {
    let r = run(String::from("var a = 1\nprint \"oops"));
    assert!(matches!(
        r,
        Err(Error::Lex(LexError::UnterminatedString { line: 2 }))
    ));
}

#[test]
fn missing_paren_is_reported() {
    let r = run(String::from("print (1 + 2"));
    assert!(matches!(r, Err(Error::Syntax(SyntaxError::UnexpectedEndOfInput { .. }))));
}

#[test]
fn nil_keyword_starts_no_expression() {
    let r = run(String::from("print nil"));
    assert!(matches!(r, Err(Error::Syntax(SyntaxError::ExpectedExpression { line: 1 }))));
}

#[test]
fn calling_a_call_result_is_not_callable() {
    let r = run(String::from("fun f() { print 0 }\nf()()"));
    assert!(matches!(
        r,
        Err(Error::Runtime(RuntimeError::NotCallable { line: 2 }))
    ));
}

#[test]
fn function_arguments_bind_positionally() {
    let r = run(String::from("fun add(x, y) { print x + y }\nadd(2, 5)"));
    assert_eq!(r.unwrap(), vec![chars("7")]);
}

#[test]
fn comments_are_discarded() {
    let r = run(String::from("// nothing here\nprint 1 // trailing\nprint 2"));
    assert_eq!(r.unwrap(), vec![chars("1"), chars("2")]);
}

#[test]
fn else_branch_runs_when_condition_is_false() {
    let r = run(String::from("if (1 > 2) { print 1 } else { print 2 }"));
    assert_eq!(r.unwrap(), vec![chars("2")]);
}

#[test]
fn if_condition_must_be_boolean() {
    let r = run(String::from("if (1) { print 1 }"));
    assert!(matches!(r, Err(Error::Runtime(RuntimeError::TypeMismatch { .. }))));
}
