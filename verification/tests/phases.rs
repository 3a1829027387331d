//! The phases one at a time: the scanner's tokens and diagnostics, the
//! parser's trees, and the evaluator driven by hand.

use lox_core::compiler::{Compiler, MAX_CALL_DEPTH};
use lox_core::environment::Environment;
use lox_core::errors::{LexError, RuntimeError};
use lox_core::lexer::Lexer;
use lox_core::parser::Parser;
use lox_core::token::{Object, TokenType, keyword};

fn chars(s: &str) -> Vec<char> {
    s.chars().collect()
}

fn scan(source: &str) -> Lexer {
    let mut lx = Lexer::new(String::from(source));
    lx.scan_tokens().expect("scan failed");
    lx
}

#[test]
fn compiler_test() {
    // `function` is no keyword, so this program parses as bare expressions
    // and fails at the first unbound name.
    let source = "function a(){\n            print 1\n        }\n\n        a()\n\n        ";
    let lx = scan(source);
    let mut parser = Parser::new(lx.tokens);
    let statements = parser.parse().expect("parse failed");
    let mut compiler = Compiler::new();
    let r = compiler.interpret(&statements);
    assert!(matches!(r, Err(RuntimeError::UndefinedVariable { line: 1 })));
}

#[test]
fn parser_test() {
    let lx = scan("1+6/(3+3)*2");
    let mut parser = Parser::new(lx.tokens);
    let exp = parser.parse().expect("parse failed");
    assert_eq!(exp.len(), 1);
}

#[test]
fn lifetime_test() {}

#[test]
fn scanner_tokens_and_maximal_munch() {
    let lx = scan("console<>+-*<=abc>= \"hello\"\n77");
    let tags: Vec<TokenType> = lx.tokens.iter().map(|t| t.tag).collect();
    assert_eq!(
        tags,
        vec![
            TokenType::IDENTIFIER,
            TokenType::LESS,
            TokenType::GREATER,
            TokenType::PLUS,
            TokenType::MINUS,
            TokenType::STAR,
            TokenType::LESS_EQUAL,
            TokenType::IDENTIFIER,
            TokenType::GREATER_EQUAL,
            TokenType::STRING,
            TokenType::NUMBER,
            TokenType::EOF,
        ]
    );
    assert_eq!(lx.tokens[0].lexeme, chars("console"));
    assert!(matches!(&lx.tokens[9].literal, Some(Object::String(s)) if *s == chars("hello")));
    assert!(matches!(&lx.tokens[10].literal, Some(Object::Digit(77))));
    assert_eq!(lx.tokens[10].line, 2);
}

#[test]
fn invalid_characters_are_diagnosed_and_skipped() {
    let lx = scan("1 @ 2\n# 3");
    let tags: Vec<TokenType> = lx.tokens.iter().map(|t| t.tag).collect();
    assert_eq!(
        tags,
        vec![TokenType::NUMBER, TokenType::NUMBER, TokenType::NUMBER, TokenType::EOF]
    );
    assert_eq!(
        lx.diagnostics,
        vec![
            LexError::InvalidCharacter { ch: '@', line: 1 },
            LexError::InvalidCharacter { ch: '#', line: 2 },
        ]
    );
}

#[test]
fn string_spans_lines_and_counts_them() {
    let lx = scan("\"a\nb\"\n7");
    assert_eq!(lx.tokens[0].tag, TokenType::STRING);
    assert!(matches!(&lx.tokens[0].literal, Some(Object::String(s)) if *s == chars("a\nb")));
    assert_eq!(lx.tokens[1].line, 3);
}

#[test]
fn keywords_are_reserved_words_only() {
    assert_eq!(keyword(&chars("and")), Some(TokenType::AND));
    assert_eq!(keyword(&chars("while")), Some(TokenType::WHILE));
    assert_eq!(keyword(&chars("fun")), Some(TokenType::FUN));
    assert_eq!(keyword(&chars("function")), None);
    assert_eq!(keyword(&chars("An")), None);
    assert_eq!(keyword(&chars("")), None);
}

#[test]
fn parsing_twice_builds_identical_trees() {
    let source = "var a = 3\nfun f(x) { if (x < a) { print x } }\nf(1)";
    let lx1 = scan(source);
    let lx2 = scan(source);
    let mut p1 = Parser::new(lx1.tokens);
    let mut p2 = Parser::new(lx2.tokens);
    let t1 = p1.parse().expect("parse failed");
    let t2 = p2.parse().expect("parse failed");
    assert_eq!(format!("{:?}", t1), format!("{:?}", t2));
}

#[test]
fn interpreter_runs_statements_against_its_state() {
    let lx = scan("var a = 2\nvar b = a * 21\nprint b");
    let mut parser = Parser::new(lx.tokens);
    let statements = parser.parse().expect("parse failed");
    let mut compiler = Compiler::new();
    compiler.interpret(&statements).expect("run failed");
    assert_eq!(compiler.output, vec![chars("42")]);
    assert!(MAX_CALL_DEPTH >= 1);
}

#[test]
fn environment_chain_resolves_and_assigns() {
    let mut env = Environment::new();
    env.define(0, chars("x"), Object::Digit(1));
    let inner = env.new_scope(0);
    env.define(inner, chars("y"), Object::Digit(2));
    assert!(matches!(env.retrieve(inner, &chars("x"), 1), Ok(Object::Digit(1))));
    assert!(matches!(env.retrieve(inner, &chars("y"), 1), Ok(Object::Digit(2))));
    assert!(matches!(env.retrieve(0, &chars("y"), 1), Err(RuntimeError::UndefinedVariable { line: 1 })));
    env.assign(inner, &chars("x"), Object::Digit(9), 1).expect("assign failed");
    assert!(matches!(env.retrieve(0, &chars("x"), 1), Ok(Object::Digit(9))));
    let r = env.assign(inner, &chars("zz"), Object::Digit(0), 7);
    assert!(matches!(r, Err(RuntimeError::UndefinedVariable { line: 7 })));
}
