//! The laws of the engine: properties that hold of every input, stated over
//! the spec functions the executable phases are proved to match.

use vstd::prelude::*;
use crate::ast::{GExpr, GStmt, ObjectView, TokenView};
use crate::compiler::{
    bind_params, eval_expr, sat_add, sat_mul, sat_neg, sat_sub,
};
use crate::environment::{EnvironmentView, ScopeView, resolve};
use crate::errors::RuntimeError;
use crate::parser::spec_program;
use crate::token::TokenType;

verus! {

/// Parsing is deterministic: the same token sequence always yields the same
/// syntax tree or the same error, because the grammar is a function of the
/// tokens. The executable parser is proved to return exactly this function's
/// value, so two parses of identical source text build structurally
/// identical trees.
pub proof fn law_parse_deterministic(ts1: Seq<TokenView>, ts2: Seq<TokenView>)
    requires
        ts1 == ts2,
    ensures
        spec_program(ts1, 0) == spec_program(ts2, 0),
{
}

/// Assigning to a name that no enclosing scope binds fails with an
/// undefined-variable error, never silently: once the right-hand side has a
/// value, the assignment reports the name's line exactly when the chain
/// resolves nothing.
pub proof fn law_assign_undefined(fuel: nat, t: TokenView, sub: Box<GExpr>, st: crate::compiler::StateView)
    ensures
        ({
            let (rv, st1) = eval_expr(fuel, *sub, st);
            rv matches Result::Ok(_) && resolve(st1.env, st1.current, t.lexeme) is None
                ==> eval_expr(fuel, GExpr::Assignment(t, sub), st) == (
                Result::<ObjectView, RuntimeError>::Err(
                    RuntimeError::UndefinedVariable { line: t.line as usize },
                ),
                st1,
            )
        }),
{
}

/// Multiplication binds tighter than addition: for any number literals, the
/// token shape `a + b * c` parses as `a + (b * c)`, and evaluating that tree
/// in any state yields `a + (b * c)` under the saturating arithmetic, leaving
/// the state alone.
#[verifier::rlimit(100)]
pub proof fn law_precedence(
    ts: Seq<TokenView>,
    a: i64,
    b: i64,
    c: i64,
    fuel: nat,
    st: crate::compiler::StateView,
)
    requires
        ts.len() == 6,
        ts[0].tag == TokenType::NUMBER,
        ts[0].literal == Option::Some(ObjectView::Digit(a)),
        ts[1].tag == TokenType::PLUS,
        ts[2].tag == TokenType::NUMBER,
        ts[2].literal == Option::Some(ObjectView::Digit(b)),
        ts[3].tag == TokenType::STAR,
        ts[4].tag == TokenType::NUMBER,
        ts[4].literal == Option::Some(ObjectView::Digit(c)),
        ts[5].tag == TokenType::EOF,
    ensures
        ({
            let tree = GExpr::Binary(
                Box::new(GExpr::Literal(ObjectView::Digit(a))),
                ts[1],
                Box::new(
                    GExpr::Binary(
                        Box::new(GExpr::Literal(ObjectView::Digit(b))),
                        ts[3],
                        Box::new(GExpr::Literal(ObjectView::Digit(c))),
                    ),
                ),
            );
            &&& spec_program(ts, 0) == (
                Result::<Seq<GStmt>, crate::errors::SyntaxError>::Ok(
                    seq![GStmt::Expression(tree)],
                ),
                5int,
            )
            &&& eval_expr(fuel, tree, st) == (
                Result::<ObjectView, RuntimeError>::Ok(
                    ObjectView::Digit(sat_add(a, sat_mul(b, c))),
                ),
                st,
            )
        }),
{
    let la = GExpr::Literal(ObjectView::Digit(a));
    let lb = GExpr::Literal(ObjectView::Digit(b));
    let lc = GExpr::Literal(ObjectView::Digit(c));
    let mul = GExpr::Binary(Box::new(lb), ts[3], Box::new(lc));
    let add = GExpr::Binary(Box::new(la), ts[1], Box::new(mul));
    assert(crate::parser::spec_primary(ts, 0) == (Result::<GExpr, crate::errors::SyntaxError>::Ok(la), 1int));
    assert(crate::parser::spec_primary(ts, 2) == (Result::<GExpr, crate::errors::SyntaxError>::Ok(lb), 3int));
    assert(crate::parser::spec_primary(ts, 4) == (Result::<GExpr, crate::errors::SyntaxError>::Ok(lc), 5int));
    assert(crate::parser::spec_call_tail(ts, 1, la) == (Result::<GExpr, crate::errors::SyntaxError>::Ok(la), 1int));
    assert(crate::parser::spec_call_tail(ts, 3, lb) == (Result::<GExpr, crate::errors::SyntaxError>::Ok(lb), 3int));
    assert(crate::parser::spec_call_tail(ts, 5, lc) == (Result::<GExpr, crate::errors::SyntaxError>::Ok(lc), 5int));
    assert(crate::parser::spec_call(ts, 0) == (Result::<GExpr, crate::errors::SyntaxError>::Ok(la), 1int));
    assert(crate::parser::spec_call(ts, 2) == (Result::<GExpr, crate::errors::SyntaxError>::Ok(lb), 3int));
    assert(crate::parser::spec_call(ts, 4) == (Result::<GExpr, crate::errors::SyntaxError>::Ok(lc), 5int));
    assert(crate::parser::spec_unary(ts, 0) == (Result::<GExpr, crate::errors::SyntaxError>::Ok(la), 1int));
    assert(crate::parser::spec_unary(ts, 2) == (Result::<GExpr, crate::errors::SyntaxError>::Ok(lb), 3int));
    assert(crate::parser::spec_unary(ts, 4) == (Result::<GExpr, crate::errors::SyntaxError>::Ok(lc), 5int));
    assert(crate::parser::spec_level_down(3, ts, 0) == (Result::<GExpr, crate::errors::SyntaxError>::Ok(la), 1int));
    assert(crate::parser::spec_level_down(3, ts, 2) == (Result::<GExpr, crate::errors::SyntaxError>::Ok(lb), 3int));
    assert(crate::parser::spec_level_down(3, ts, 4) == (Result::<GExpr, crate::errors::SyntaxError>::Ok(lc), 5int));
    assert(crate::parser::spec_level_tail(3, ts, 5, mul) == (Result::<GExpr, crate::errors::SyntaxError>::Ok(mul), 5int));
    assert(crate::parser::spec_level_tail(3, ts, 3, lb) == (Result::<GExpr, crate::errors::SyntaxError>::Ok(mul), 5int));
    assert(crate::parser::spec_level(3, ts, 2) == (Result::<GExpr, crate::errors::SyntaxError>::Ok(mul), 5int));
    assert(crate::parser::spec_level_tail(3, ts, 1, la) == (Result::<GExpr, crate::errors::SyntaxError>::Ok(la), 1int));
    assert(crate::parser::spec_level(3, ts, 0) == (Result::<GExpr, crate::errors::SyntaxError>::Ok(la), 1int));
    assert(crate::parser::spec_level_down(4, ts, 0) == (Result::<GExpr, crate::errors::SyntaxError>::Ok(la), 1int));
    assert(crate::parser::spec_level_down(4, ts, 2) == (Result::<GExpr, crate::errors::SyntaxError>::Ok(mul), 5int));
    assert(crate::parser::spec_level_tail(4, ts, 5, add) == (Result::<GExpr, crate::errors::SyntaxError>::Ok(add), 5int));
    assert(crate::parser::spec_level_tail(4, ts, 1, la) == (Result::<GExpr, crate::errors::SyntaxError>::Ok(add), 5int));
    assert(crate::parser::spec_level(4, ts, 0) == (Result::<GExpr, crate::errors::SyntaxError>::Ok(add), 5int));
    assert(crate::parser::spec_level_tail(5, ts, 5, add) == (Result::<GExpr, crate::errors::SyntaxError>::Ok(add), 5int));
    assert(crate::parser::spec_level_down(5, ts, 0) == (Result::<GExpr, crate::errors::SyntaxError>::Ok(add), 5int));
    assert(crate::parser::spec_level(5, ts, 0) == (Result::<GExpr, crate::errors::SyntaxError>::Ok(add), 5int));
    assert(crate::parser::spec_level_tail(6, ts, 5, add) == (Result::<GExpr, crate::errors::SyntaxError>::Ok(add), 5int));
    assert(crate::parser::spec_level_down(6, ts, 0) == (Result::<GExpr, crate::errors::SyntaxError>::Ok(add), 5int));
    assert(crate::parser::spec_level(6, ts, 0) == (Result::<GExpr, crate::errors::SyntaxError>::Ok(add), 5int));
    assert(crate::parser::spec_level_tail(7, ts, 5, add) == (Result::<GExpr, crate::errors::SyntaxError>::Ok(add), 5int));
    assert(crate::parser::spec_level_down(7, ts, 0) == (Result::<GExpr, crate::errors::SyntaxError>::Ok(add), 5int));
    assert(crate::parser::spec_level(7, ts, 0) == (Result::<GExpr, crate::errors::SyntaxError>::Ok(add), 5int));
    assert(crate::parser::spec_level_tail(8, ts, 5, add) == (Result::<GExpr, crate::errors::SyntaxError>::Ok(add), 5int));
    assert(crate::parser::spec_level_down(8, ts, 0) == (Result::<GExpr, crate::errors::SyntaxError>::Ok(add), 5int));
    assert(crate::parser::spec_level(8, ts, 0) == (Result::<GExpr, crate::errors::SyntaxError>::Ok(add), 5int));
    assert(crate::parser::spec_assignment(ts, 0) == (Result::<GExpr, crate::errors::SyntaxError>::Ok(add), 5int));
    assert(crate::parser::spec_expression(ts, 0) == (Result::<GExpr, crate::errors::SyntaxError>::Ok(add), 5int));
    assert(crate::parser::spec_statement(ts, 0) == (Result::<GStmt, crate::errors::SyntaxError>::Ok(GStmt::Expression(add)), 5int));
    assert(crate::parser::spec_declaration(ts, 0) == (Result::<GStmt, crate::errors::SyntaxError>::Ok(GStmt::Expression(add)), 5int));
    assert(spec_program(ts, 5) == (Result::<Seq<GStmt>, crate::errors::SyntaxError>::Ok(Seq::empty()), 5int));
    assert(seq![GStmt::Expression(add)] + Seq::<GStmt>::empty() =~= seq![GStmt::Expression(add)]);
    assert(spec_program(ts, 0) == (Result::<Seq<GStmt>, crate::errors::SyntaxError>::Ok(seq![GStmt::Expression(add)]), 5int));
    assert(eval_expr(fuel, la, st) == (Result::<ObjectView, RuntimeError>::Ok(ObjectView::Digit(a)), st));
    assert(eval_expr(fuel, lb, st) == (Result::<ObjectView, RuntimeError>::Ok(ObjectView::Digit(b)), st));
    assert(eval_expr(fuel, lc, st) == (Result::<ObjectView, RuntimeError>::Ok(ObjectView::Digit(c)), st));
    assert(eval_expr(fuel, mul, st) == (Result::<ObjectView, RuntimeError>::Ok(ObjectView::Digit(sat_mul(b, c))), st));
    assert(eval_expr(fuel, add, st) == (Result::<ObjectView, RuntimeError>::Ok(ObjectView::Digit(sat_add(a, sat_mul(b, c)))), st));
}

/// Binary operators of one level are left-associative: the token shape
/// `a - b - c` parses as `(a - b) - c`, and evaluating that tree in any state
/// yields `(a - b) - c` under the saturating arithmetic.
#[verifier::rlimit(100)]
pub proof fn law_left_associative(
    ts: Seq<TokenView>,
    a: i64,
    b: i64,
    c: i64,
    fuel: nat,
    st: crate::compiler::StateView,
)
    requires
        ts.len() == 6,
        ts[0].tag == TokenType::NUMBER,
        ts[0].literal == Option::Some(ObjectView::Digit(a)),
        ts[1].tag == TokenType::MINUS,
        ts[2].tag == TokenType::NUMBER,
        ts[2].literal == Option::Some(ObjectView::Digit(b)),
        ts[3].tag == TokenType::MINUS,
        ts[4].tag == TokenType::NUMBER,
        ts[4].literal == Option::Some(ObjectView::Digit(c)),
        ts[5].tag == TokenType::EOF,
    ensures
        ({
            let tree = GExpr::Binary(
                Box::new(
                    GExpr::Binary(
                        Box::new(GExpr::Literal(ObjectView::Digit(a))),
                        ts[1],
                        Box::new(GExpr::Literal(ObjectView::Digit(b))),
                    ),
                ),
                ts[3],
                Box::new(GExpr::Literal(ObjectView::Digit(c))),
            );
            &&& spec_program(ts, 0) == (
                Result::<Seq<GStmt>, crate::errors::SyntaxError>::Ok(
                    seq![GStmt::Expression(tree)],
                ),
                5int,
            )
            &&& eval_expr(fuel, tree, st) == (
                Result::<ObjectView, RuntimeError>::Ok(
                    ObjectView::Digit(sat_sub(sat_sub(a, b), c)),
                ),
                st,
            )
        }),
{
    let la = GExpr::Literal(ObjectView::Digit(a));
    let lb = GExpr::Literal(ObjectView::Digit(b));
    let lc = GExpr::Literal(ObjectView::Digit(c));
    let sub1 = GExpr::Binary(Box::new(la), ts[1], Box::new(lb));
    let sub2 = GExpr::Binary(Box::new(sub1), ts[3], Box::new(lc));
    assert(crate::parser::spec_primary(ts, 0) == (Result::<GExpr, crate::errors::SyntaxError>::Ok(la), 1int));
    assert(crate::parser::spec_primary(ts, 2) == (Result::<GExpr, crate::errors::SyntaxError>::Ok(lb), 3int));
    assert(crate::parser::spec_primary(ts, 4) == (Result::<GExpr, crate::errors::SyntaxError>::Ok(lc), 5int));
    assert(crate::parser::spec_call_tail(ts, 1, la) == (Result::<GExpr, crate::errors::SyntaxError>::Ok(la), 1int));
    assert(crate::parser::spec_call_tail(ts, 3, lb) == (Result::<GExpr, crate::errors::SyntaxError>::Ok(lb), 3int));
    assert(crate::parser::spec_call_tail(ts, 5, lc) == (Result::<GExpr, crate::errors::SyntaxError>::Ok(lc), 5int));
    assert(crate::parser::spec_call(ts, 0) == (Result::<GExpr, crate::errors::SyntaxError>::Ok(la), 1int));
    assert(crate::parser::spec_unary(ts, 0) == (Result::<GExpr, crate::errors::SyntaxError>::Ok(la), 1int));
    assert(crate::parser::spec_level_down(3, ts, 0) == (Result::<GExpr, crate::errors::SyntaxError>::Ok(la), 1int));
    assert(crate::parser::spec_call(ts, 2) == (Result::<GExpr, crate::errors::SyntaxError>::Ok(lb), 3int));
    assert(crate::parser::spec_unary(ts, 2) == (Result::<GExpr, crate::errors::SyntaxError>::Ok(lb), 3int));
    assert(crate::parser::spec_level_down(3, ts, 2) == (Result::<GExpr, crate::errors::SyntaxError>::Ok(lb), 3int));
    assert(crate::parser::spec_call(ts, 4) == (Result::<GExpr, crate::errors::SyntaxError>::Ok(lc), 5int));
    assert(crate::parser::spec_unary(ts, 4) == (Result::<GExpr, crate::errors::SyntaxError>::Ok(lc), 5int));
    assert(crate::parser::spec_level_down(3, ts, 4) == (Result::<GExpr, crate::errors::SyntaxError>::Ok(lc), 5int));
    assert(crate::parser::spec_level_tail(3, ts, 1, la) == (Result::<GExpr, crate::errors::SyntaxError>::Ok(la), 1int));
    assert(crate::parser::spec_level(3, ts, 0) == (Result::<GExpr, crate::errors::SyntaxError>::Ok(la), 1int));
    assert(crate::parser::spec_level_tail(3, ts, 3, lb) == (Result::<GExpr, crate::errors::SyntaxError>::Ok(lb), 3int));
    assert(crate::parser::spec_level(3, ts, 2) == (Result::<GExpr, crate::errors::SyntaxError>::Ok(lb), 3int));
    assert(crate::parser::spec_level_tail(3, ts, 5, lc) == (Result::<GExpr, crate::errors::SyntaxError>::Ok(lc), 5int));
    assert(crate::parser::spec_level(3, ts, 4) == (Result::<GExpr, crate::errors::SyntaxError>::Ok(lc), 5int));
    assert(crate::parser::spec_level_down(4, ts, 0) == (Result::<GExpr, crate::errors::SyntaxError>::Ok(la), 1int));
    assert(crate::parser::spec_level_down(4, ts, 2) == (Result::<GExpr, crate::errors::SyntaxError>::Ok(lb), 3int));
    assert(crate::parser::spec_level_down(4, ts, 4) == (Result::<GExpr, crate::errors::SyntaxError>::Ok(lc), 5int));
    assert(crate::parser::spec_level_tail(4, ts, 5, sub2) == (Result::<GExpr, crate::errors::SyntaxError>::Ok(sub2), 5int));
    assert(crate::parser::spec_level_tail(4, ts, 3, sub1) == (Result::<GExpr, crate::errors::SyntaxError>::Ok(sub2), 5int));
    assert(crate::parser::spec_level_tail(4, ts, 1, la) == (Result::<GExpr, crate::errors::SyntaxError>::Ok(sub2), 5int));
    assert(crate::parser::spec_level(4, ts, 0) == (Result::<GExpr, crate::errors::SyntaxError>::Ok(sub2), 5int));
    assert(crate::parser::spec_level_tail(5, ts, 5, sub2) == (Result::<GExpr, crate::errors::SyntaxError>::Ok(sub2), 5int));
    assert(crate::parser::spec_level_down(5, ts, 0) == (Result::<GExpr, crate::errors::SyntaxError>::Ok(sub2), 5int));
    assert(crate::parser::spec_level(5, ts, 0) == (Result::<GExpr, crate::errors::SyntaxError>::Ok(sub2), 5int));
    assert(crate::parser::spec_level_tail(6, ts, 5, sub2) == (Result::<GExpr, crate::errors::SyntaxError>::Ok(sub2), 5int));
    assert(crate::parser::spec_level_down(6, ts, 0) == (Result::<GExpr, crate::errors::SyntaxError>::Ok(sub2), 5int));
    assert(crate::parser::spec_level(6, ts, 0) == (Result::<GExpr, crate::errors::SyntaxError>::Ok(sub2), 5int));
    assert(crate::parser::spec_level_tail(7, ts, 5, sub2) == (Result::<GExpr, crate::errors::SyntaxError>::Ok(sub2), 5int));
    assert(crate::parser::spec_level_down(7, ts, 0) == (Result::<GExpr, crate::errors::SyntaxError>::Ok(sub2), 5int));
    assert(crate::parser::spec_level(7, ts, 0) == (Result::<GExpr, crate::errors::SyntaxError>::Ok(sub2), 5int));
    assert(crate::parser::spec_level_tail(8, ts, 5, sub2) == (Result::<GExpr, crate::errors::SyntaxError>::Ok(sub2), 5int));
    assert(crate::parser::spec_level_down(8, ts, 0) == (Result::<GExpr, crate::errors::SyntaxError>::Ok(sub2), 5int));
    assert(crate::parser::spec_level(8, ts, 0) == (Result::<GExpr, crate::errors::SyntaxError>::Ok(sub2), 5int));
    assert(crate::parser::spec_assignment(ts, 0) == (Result::<GExpr, crate::errors::SyntaxError>::Ok(sub2), 5int));
    assert(crate::parser::spec_expression(ts, 0) == (Result::<GExpr, crate::errors::SyntaxError>::Ok(sub2), 5int));
    assert(crate::parser::spec_statement(ts, 0) == (Result::<GStmt, crate::errors::SyntaxError>::Ok(GStmt::Expression(sub2)), 5int));
    assert(crate::parser::spec_declaration(ts, 0) == (Result::<GStmt, crate::errors::SyntaxError>::Ok(GStmt::Expression(sub2)), 5int));
    assert(spec_program(ts, 5) == (Result::<Seq<GStmt>, crate::errors::SyntaxError>::Ok(Seq::empty()), 5int));
    assert(seq![GStmt::Expression(sub2)] + Seq::<GStmt>::empty() =~= seq![GStmt::Expression(sub2)]);
    assert(spec_program(ts, 0) == (Result::<Seq<GStmt>, crate::errors::SyntaxError>::Ok(seq![GStmt::Expression(sub2)]), 5int));
    assert(eval_expr(fuel, la, st) == (Result::<ObjectView, RuntimeError>::Ok(ObjectView::Digit(a)), st));
    assert(eval_expr(fuel, lb, st) == (Result::<ObjectView, RuntimeError>::Ok(ObjectView::Digit(b)), st));
    assert(eval_expr(fuel, lc, st) == (Result::<ObjectView, RuntimeError>::Ok(ObjectView::Digit(c)), st));
    assert(eval_expr(fuel, sub1, st) == (Result::<ObjectView, RuntimeError>::Ok(ObjectView::Digit(sat_sub(a, b))), st));
    assert(eval_expr(fuel, sub2, st) == (Result::<ObjectView, RuntimeError>::Ok(ObjectView::Digit(sat_sub(sat_sub(a, b), c))), st));
}

/// Unary minus binds tighter than any binary operator: the token shape
/// `- a * b` parses as `(- a) * b`, and evaluating that tree in any state
/// yields `(- a) * b` under the saturating arithmetic.
#[verifier::rlimit(100)]
pub proof fn law_unary_binds_tighter(
    ts: Seq<TokenView>,
    a: i64,
    b: i64,
    fuel: nat,
    st: crate::compiler::StateView,
)
    requires
        ts.len() == 5,
        ts[0].tag == TokenType::MINUS,
        ts[1].tag == TokenType::NUMBER,
        ts[1].literal == Option::Some(ObjectView::Digit(a)),
        ts[2].tag == TokenType::STAR,
        ts[3].tag == TokenType::NUMBER,
        ts[3].literal == Option::Some(ObjectView::Digit(b)),
        ts[4].tag == TokenType::EOF,
    ensures
        ({
            let tree = GExpr::Binary(
                Box::new(GExpr::Unary(ts[0], Box::new(GExpr::Literal(ObjectView::Digit(a))))),
                ts[2],
                Box::new(GExpr::Literal(ObjectView::Digit(b))),
            );
            &&& spec_program(ts, 0) == (
                Result::<Seq<GStmt>, crate::errors::SyntaxError>::Ok(
                    seq![GStmt::Expression(tree)],
                ),
                4int,
            )
            &&& eval_expr(fuel, tree, st) == (
                Result::<ObjectView, RuntimeError>::Ok(ObjectView::Digit(sat_mul(sat_neg(a), b))),
                st,
            )
        }),
{
    let la = GExpr::Literal(ObjectView::Digit(a));
    let lb = GExpr::Literal(ObjectView::Digit(b));
    let neg = GExpr::Unary(ts[0], Box::new(la));
    let m = GExpr::Binary(Box::new(neg), ts[2], Box::new(lb));
    assert(crate::parser::spec_primary(ts, 1) == (Result::<GExpr, crate::errors::SyntaxError>::Ok(la), 2int));
    assert(crate::parser::spec_call_tail(ts, 2, la) == (Result::<GExpr, crate::errors::SyntaxError>::Ok(la), 2int));
    assert(crate::parser::spec_call(ts, 1) == (Result::<GExpr, crate::errors::SyntaxError>::Ok(la), 2int));
    assert(crate::parser::spec_unary(ts, 1) == (Result::<GExpr, crate::errors::SyntaxError>::Ok(la), 2int));
    assert(crate::parser::spec_unary(ts, 0) == (Result::<GExpr, crate::errors::SyntaxError>::Ok(neg), 2int));
    assert(crate::parser::spec_primary(ts, 3) == (Result::<GExpr, crate::errors::SyntaxError>::Ok(lb), 4int));
    assert(crate::parser::spec_call_tail(ts, 4, lb) == (Result::<GExpr, crate::errors::SyntaxError>::Ok(lb), 4int));
    assert(crate::parser::spec_call(ts, 3) == (Result::<GExpr, crate::errors::SyntaxError>::Ok(lb), 4int));
    assert(crate::parser::spec_unary(ts, 3) == (Result::<GExpr, crate::errors::SyntaxError>::Ok(lb), 4int));
    assert(crate::parser::spec_level_down(3, ts, 3) == (Result::<GExpr, crate::errors::SyntaxError>::Ok(lb), 4int));
    assert(crate::parser::spec_level_down(3, ts, 0) == (Result::<GExpr, crate::errors::SyntaxError>::Ok(neg), 2int));
    assert(crate::parser::spec_level_tail(3, ts, 4, m) == (Result::<GExpr, crate::errors::SyntaxError>::Ok(m), 4int));
    assert(crate::parser::spec_level_tail(3, ts, 2, neg) == (Result::<GExpr, crate::errors::SyntaxError>::Ok(m), 4int));
    assert(crate::parser::spec_level(3, ts, 0) == (Result::<GExpr, crate::errors::SyntaxError>::Ok(m), 4int));
    assert(crate::parser::spec_level_tail(4, ts, 4, m) == (Result::<GExpr, crate::errors::SyntaxError>::Ok(m), 4int));
    assert(crate::parser::spec_level_down(4, ts, 0) == (Result::<GExpr, crate::errors::SyntaxError>::Ok(m), 4int));
    assert(crate::parser::spec_level(4, ts, 0) == (Result::<GExpr, crate::errors::SyntaxError>::Ok(m), 4int));
    assert(crate::parser::spec_level_tail(5, ts, 4, m) == (Result::<GExpr, crate::errors::SyntaxError>::Ok(m), 4int));
    assert(crate::parser::spec_level_down(5, ts, 0) == (Result::<GExpr, crate::errors::SyntaxError>::Ok(m), 4int));
    assert(crate::parser::spec_level(5, ts, 0) == (Result::<GExpr, crate::errors::SyntaxError>::Ok(m), 4int));
    assert(crate::parser::spec_level_tail(6, ts, 4, m) == (Result::<GExpr, crate::errors::SyntaxError>::Ok(m), 4int));
    assert(crate::parser::spec_level_down(6, ts, 0) == (Result::<GExpr, crate::errors::SyntaxError>::Ok(m), 4int));
    assert(crate::parser::spec_level(6, ts, 0) == (Result::<GExpr, crate::errors::SyntaxError>::Ok(m), 4int));
    assert(crate::parser::spec_level_tail(7, ts, 4, m) == (Result::<GExpr, crate::errors::SyntaxError>::Ok(m), 4int));
    assert(crate::parser::spec_level_down(7, ts, 0) == (Result::<GExpr, crate::errors::SyntaxError>::Ok(m), 4int));
    assert(crate::parser::spec_level(7, ts, 0) == (Result::<GExpr, crate::errors::SyntaxError>::Ok(m), 4int));
    assert(crate::parser::spec_level_tail(8, ts, 4, m) == (Result::<GExpr, crate::errors::SyntaxError>::Ok(m), 4int));
    assert(crate::parser::spec_level_down(8, ts, 0) == (Result::<GExpr, crate::errors::SyntaxError>::Ok(m), 4int));
    assert(crate::parser::spec_level(8, ts, 0) == (Result::<GExpr, crate::errors::SyntaxError>::Ok(m), 4int));
    assert(crate::parser::spec_assignment(ts, 0) == (Result::<GExpr, crate::errors::SyntaxError>::Ok(m), 4int));
    assert(crate::parser::spec_expression(ts, 0) == (Result::<GExpr, crate::errors::SyntaxError>::Ok(m), 4int));
    assert(crate::parser::spec_statement(ts, 0) == (Result::<GStmt, crate::errors::SyntaxError>::Ok(GStmt::Expression(m)), 4int));
    assert(crate::parser::spec_declaration(ts, 0) == (Result::<GStmt, crate::errors::SyntaxError>::Ok(GStmt::Expression(m)), 4int));
    assert(spec_program(ts, 4) == (Result::<Seq<GStmt>, crate::errors::SyntaxError>::Ok(Seq::empty()), 4int));
    assert(seq![GStmt::Expression(m)] + Seq::<GStmt>::empty() =~= seq![GStmt::Expression(m)]);
    assert(spec_program(ts, 0) == (Result::<Seq<GStmt>, crate::errors::SyntaxError>::Ok(seq![GStmt::Expression(m)]), 4int));
    assert(eval_expr(fuel, la, st) == (Result::<ObjectView, RuntimeError>::Ok(ObjectView::Digit(a)), st));
    assert(eval_expr(fuel, lb, st) == (Result::<ObjectView, RuntimeError>::Ok(ObjectView::Digit(b)), st));
    assert(eval_expr(fuel, neg, st) == (Result::<ObjectView, RuntimeError>::Ok(ObjectView::Digit(sat_neg(a))), st));
    assert(eval_expr(fuel, m, st) == (Result::<ObjectView, RuntimeError>::Ok(ObjectView::Digit(sat_mul(sat_neg(a), b))), st));
}

/// A parameter binding map holds exactly the parameter names.
pub proof fn lemma_bind_params_dom(params: Seq<Seq<char>>, vals: Seq<ObjectView>, name: Seq<char>)
    requires
        !params.contains(name),
    ensures
        !bind_params(params, vals).contains_key(name),
    decreases params,
{
    if params.len() > 0 && vals.len() > 0 {
        assert(params[params.len() - 1] != name);
        let pp = params.subrange(0, params.len() - 1);
        assert(!pp.contains(name)) by {
            if pp.contains(name) {
                let k = choose|k: int| 0 <= k < pp.len() && pp[k] == name;
                assert(params[k] == name);
            }
        }
        lemma_bind_params_dom(pp, vals.subrange(0, vals.len() - 1), name);
    }
}

/// Appending a scope record to the arena changes no existing resolution.
pub proof fn lemma_resolve_push(env: EnvironmentView, c: int, name: Seq<char>, sc: ScopeView)
    requires
        0 <= c < env.scopes.len(),
    ensures
        resolve(EnvironmentView { scopes: env.scopes.push(sc) }, c, name) == resolve(env, c, name),
    decreases c,
{
    let env2 = EnvironmentView { scopes: env.scopes.push(sc) };
    assert(env2.scopes[c] == env.scopes[c]);
    if !env.scopes[c].bindings.contains_key(name) {
        match env.scopes[c].parent {
            Option::Some(p) => {
                if 0 <= p < c {
                    lemma_resolve_push(env, p, name, sc);
                }
            },
            Option::None => {},
        }
    }
}

/// Closure correctness: the fresh scope of a call binds exactly the
/// parameters, and its parent is the scope the function captured at its
/// declaration. So a free name of the body (one that is no parameter)
/// resolves against the declaration-time chain, whatever scope the call was
/// made from.
pub proof fn law_closure_declaration_env(
    env: EnvironmentView,
    params: Seq<Seq<char>>,
    vals: Seq<ObjectView>,
    cenv: int,
    name: Seq<char>,
)
    requires
        0 <= cenv < env.scopes.len(),
        !params.contains(name),
    ensures
        ({
            let ns = env.scopes.len() as int;
            let env2 = EnvironmentView {
                scopes: env.scopes.push(
                    ScopeView { bindings: bind_params(params, vals), parent: Option::Some(cenv) },
                ),
            };
            resolve(env2, ns, name) == resolve(env, cenv, name)
        }),
{
    let ns = env.scopes.len() as int;
    let env2 = EnvironmentView {
        scopes: env.scopes.push(
            ScopeView { bindings: bind_params(params, vals), parent: Option::Some(cenv) },
        ),
    };
    lemma_bind_params_dom(params, vals, name);
    assert(env2.scopes[ns].bindings == bind_params(params, vals));
    assert(resolve(env2, ns, name) == resolve(env2, cenv, name));
    lemma_resolve_push(env, cenv, name, env2.scopes[ns]);
}

} // verus!

verus! {

/// A resolved name names an existing scope record that binds it.
pub proof fn lemma_resolve_some(env: EnvironmentView, s: int, name: Seq<char>)
    ensures
        (resolve(env, s, name) matches Option::Some(t) ==> 0 <= t < env.scopes.len()
            && env.scopes[t].bindings.contains_key(name)),
    decreases s,
{
    if 0 <= s < env.scopes.len() {
        if !env.scopes[s].bindings.contains_key(name) {
            match env.scopes[s].parent {
                Option::Some(p) => {
                    if 0 <= p < s {
                        lemma_resolve_some(env, p, name);
                    }
                },
                Option::None => {},
            }
        }
    }
}

/// What any evaluation leaves of the scope records that existed before it:
/// the arena only grows, no parent link changes, and only the scope
/// execution stands in can gain a name.
pub open spec fn frame_ok(st: crate::compiler::StateView, rst: crate::compiler::StateView) -> bool {
    &&& st.env.scopes.len() <= rst.env.scopes.len()
    &&& forall|i: int|
        0 <= i < st.env.scopes.len() ==> (#[trigger] rst.env.scopes[i]).parent
            == st.env.scopes[i].parent
    &&& forall|i: int|
        0 <= i < st.env.scopes.len() && i != st.current ==> (#[trigger] rst.env.scopes[i]).bindings.dom()
            == st.env.scopes[i].bindings.dom()
}

/// Frames compose along an evaluation that stays in one scope.
pub proof fn lemma_frame_trans(
    a: crate::compiler::StateView,
    b: crate::compiler::StateView,
    c: crate::compiler::StateView,
)
    requires
        frame_ok(a, b),
        frame_ok(b, c),
        b.current == a.current,
    ensures
        frame_ok(a, c),
{
}

/// The frame claim for one expression.
pub proof fn frame_expr(fuel: nat, e: GExpr, st: crate::compiler::StateView)
    requires
        0 <= st.current < st.env.scopes.len(),
    ensures
        ({
            let (r, rst) = eval_expr(fuel, e, st);
            &&& frame_ok(st, rst)
            &&& (r is Ok ==> rst.current == st.current && 0 <= rst.current
                < rst.env.scopes.len())
        }),
    decreases fuel, e, 0int,
{
    match e {
        GExpr::Literal(_) => {},
        GExpr::Grouping(sub) => {
            frame_expr(fuel, *sub, st);
        },
        GExpr::Var(_) => {},
        GExpr::Assignment(t, sub) => {
            frame_expr(fuel, *sub, st);
            let (rv, st1) = eval_expr(fuel, *sub, st);
            if rv is Ok {
                lemma_resolve_some(st1.env, st1.current, t.lexeme);
                match resolve(st1.env, st1.current, t.lexeme) {
                    Option::Some(tgt) => {
                        let env2 = crate::compiler::define_in(
                            st1.env,
                            tgt,
                            t.lexeme,
                            rv->Ok_0,
                        );
                        assert(st1.env.scopes[tgt].bindings.dom().insert(t.lexeme)
                            =~= st1.env.scopes[tgt].bindings.dom());
                        assert(forall|i: int|
                            0 <= i < st1.env.scopes.len() && i != tgt
                                ==> #[trigger] env2.scopes[i] == st1.env.scopes[i]);
                    },
                    Option::None => {},
                }
            }
        },
        GExpr::Unary(_, sub) => {
            frame_expr(fuel, *sub, st);
        },
        GExpr::Binary(l, _, r) => {
            frame_expr(fuel, *l, st);
            let (rl, st1) = eval_expr(fuel, *l, st);
            if rl is Ok {
                frame_expr(fuel, *r, st1);
                let (rr, st2) = eval_expr(fuel, *r, st1);
                lemma_frame_trans(st, st1, st2);
            }
        },
        GExpr::Logical(l, _, r) => {
            frame_expr(fuel, *l, st);
            let (rl, st1) = eval_expr(fuel, *l, st);
            if rl is Ok {
                frame_expr(fuel, *r, st1);
                let (rr, st2) = eval_expr(fuel, *r, st1);
                lemma_frame_trans(st, st1, st2);
            }
        },
        GExpr::Call(callee, paren, args) => {
            frame_expr(fuel, *callee, st);
            let (rc, st1) = eval_expr(fuel, *callee, st);
            if rc is Ok {
                frame_call(fuel, rc->Ok_0, paren, args, st1);
                let (r2, st2) = crate::compiler::eval_call(fuel, rc->Ok_0, paren, args, st1);
                lemma_frame_trans(st, st1, st2);
            }
        },
    }
}

/// The frame claim for a call whose callee is already evaluated.
pub proof fn frame_call(
    fuel: nat,
    cv: ObjectView,
    paren: TokenView,
    args: Seq<GExpr>,
    st: crate::compiler::StateView,
)
    requires
        0 <= st.current < st.env.scopes.len(),
    ensures
        ({
            let (r, rst) = crate::compiler::eval_call(fuel, cv, paren, args, st);
            &&& frame_ok(st, rst)
            &&& (r is Ok ==> rst.current == st.current && 0 <= rst.current
                < rst.env.scopes.len())
        }),
    decreases fuel, args, 2int,
{
    match cv {
        ObjectView::Function(params, body, cenv) => {
            frame_exprs(fuel, args, st);
            let (ra, st2) = crate::compiler::eval_exprs(fuel, args, st);
            if ra is Ok && params.len() == (ra->Ok_0).len() && fuel > 0 {
                let ns = st2.env.scopes.len() as int;
                let env2 = EnvironmentView {
                    scopes: st2.env.scopes.push(
                        ScopeView {
                            bindings: bind_params(params, ra->Ok_0),
                            parent: Option::Some(cenv),
                        },
                    ),
                };
                let st3 = crate::compiler::StateView { env: env2, current: ns, out: st2.out };
                frame_stmts((fuel - 1) as nat, body, st3);
                let (rb, st4) = crate::compiler::eval_stmts((fuel - 1) as nat, body, st3);
                assert(frame_ok(st2, st3));
                lemma_frame_trans(st, st2, st3);
                assert(frame_ok(st3, st4));
                assert(frame_ok(st, st4)) by {
                    assert(forall|i: int|
                        0 <= i < st.env.scopes.len() && i != st.current
                            ==> (#[trigger] st4.env.scopes[i]).bindings.dom()
                            == st3.env.scopes[i].bindings.dom());
                }
            }
        },
        _ => {},
    }
}

/// The frame claim for an argument list.
pub proof fn frame_exprs(fuel: nat, es: Seq<GExpr>, st: crate::compiler::StateView)
    requires
        0 <= st.current < st.env.scopes.len(),
    ensures
        ({
            let (r, rst) = crate::compiler::eval_exprs(fuel, es, st);
            &&& frame_ok(st, rst)
            &&& (r is Ok ==> rst.current == st.current && 0 <= rst.current
                < rst.env.scopes.len())
        }),
    decreases fuel, es, 1int,
{
    if es.len() > 0 {
        frame_expr(fuel, es[0], st);
        let (r0, st1) = eval_expr(fuel, es[0], st);
        if r0 is Ok {
            frame_exprs(fuel, es.subrange(1, es.len() as int), st1);
            let (rr, st2) = crate::compiler::eval_exprs(
                fuel,
                es.subrange(1, es.len() as int),
                st1,
            );
            lemma_frame_trans(st, st1, st2);
        }
    }
}

/// The frame claim for one statement.
pub proof fn frame_stmt(fuel: nat, s: GStmt, st: crate::compiler::StateView)
    requires
        0 <= st.current < st.env.scopes.len(),
    ensures
        ({
            let (r, rst) = crate::compiler::eval_stmt(fuel, s, st);
            &&& frame_ok(st, rst)
            &&& (r is Ok ==> rst.current == st.current && 0 <= rst.current
                < rst.env.scopes.len())
        }),
    decreases fuel, s, 0int,
{
    match s {
        GStmt::Expression(e) => {
            frame_expr(fuel, e, st);
        },
        GStmt::Print(e) => {
            frame_expr(fuel, e, st);
        },
        GStmt::Var(t, e) => {
            frame_expr(fuel, e, st);
            let (rv, st1) = eval_expr(fuel, e, st);
            if rv is Ok {
                let env2 = crate::compiler::define_in(st1.env, st1.current, t.lexeme, rv->Ok_0);
                assert(forall|i: int|
                    0 <= i < st1.env.scopes.len() && i != st1.current
                        ==> #[trigger] env2.scopes[i] == st1.env.scopes[i]);
            }
        },
        GStmt::Block(body) => {
            let ns = st.env.scopes.len() as int;
            let env2 = EnvironmentView {
                scopes: st.env.scopes.push(
                    ScopeView { bindings: Map::empty(), parent: Option::Some(st.current) },
                ),
            };
            let st2 = crate::compiler::StateView { env: env2, current: ns, out: st.out };
            frame_stmts(fuel, body, st2);
            let (rb, st3) = crate::compiler::eval_stmts(fuel, body, st2);
            assert(frame_ok(st, st2));
            assert(frame_ok(st, st3)) by {
                assert(forall|i: int|
                    0 <= i < st.env.scopes.len() && i != st.current
                        ==> (#[trigger] st3.env.scopes[i]).bindings.dom()
                        == st2.env.scopes[i].bindings.dom());
            }
        },
        GStmt::If(c, th, el) => {
            frame_expr(fuel, c, st);
            let (rv, st1) = eval_expr(fuel, c, st);
            if rv is Ok {
                match rv->Ok_0 {
                    ObjectView::Bool(true) => {
                        frame_stmt(fuel, *th, st1);
                        let (r2, st2) = crate::compiler::eval_stmt(fuel, *th, st1);
                        lemma_frame_trans(st, st1, st2);
                    },
                    ObjectView::Bool(false) => {
                        match el {
                            Option::Some(es) => {
                                frame_stmt(fuel, *es, st1);
                                let (r2, st2) = crate::compiler::eval_stmt(fuel, *es, st1);
                                lemma_frame_trans(st, st1, st2);
                            },
                            Option::None => {},
                        }
                    },
                    _ => {},
                }
            }
        },
        GStmt::Function(name, params, body) => {
            let v = ObjectView::Function(
                params.map_values(|t: TokenView| t.lexeme),
                body,
                st.current,
            );
            let env2 = crate::compiler::define_in(st.env, st.current, name.lexeme, v);
            assert(forall|i: int|
                0 <= i < st.env.scopes.len() && i != st.current ==> #[trigger] env2.scopes[i]
                    == st.env.scopes[i]);
        },
    }
}

/// The frame claim for a statement list.
pub proof fn frame_stmts(fuel: nat, ss: Seq<GStmt>, st: crate::compiler::StateView)
    requires
        0 <= st.current < st.env.scopes.len(),
    ensures
        ({
            let (r, rst) = crate::compiler::eval_stmts(fuel, ss, st);
            &&& frame_ok(st, rst)
            &&& (r is Ok ==> rst.current == st.current && 0 <= rst.current
                < rst.env.scopes.len())
        }),
    decreases fuel, ss, 1int,
{
    if ss.len() > 0 {
        frame_stmt(fuel, ss[0], st);
        let (r0, st1) = crate::compiler::eval_stmt(fuel, ss[0], st);
        if r0 is Ok {
            frame_stmts(fuel, ss.subrange(1, ss.len() as int), st1);
            let (rr, st2) = crate::compiler::eval_stmts(fuel, ss.subrange(1, ss.len() as int), st1);
            lemma_frame_trans(st, st1, st2);
        }
    }
}

/// Resolution depends only on the names each record binds and the parent
/// links, never on the bound values.
pub proof fn lemma_resolve_same_doms(
    e1: EnvironmentView,
    e2: EnvironmentView,
    n: int,
    c: int,
    name: Seq<char>,
)
    requires
        n <= e1.scopes.len(),
        n <= e2.scopes.len(),
        forall|i: int|
            0 <= i < n ==> (#[trigger] e2.scopes[i]).parent == e1.scopes[i].parent && e2.scopes[i].bindings.dom()
                == e1.scopes[i].bindings.dom(),
        c < n,
    ensures
        (resolve(e1, c, name) matches Option::Some(t) ==> resolve(e2, c, name)
            == Option::Some(t)),
        (resolve(e1, c, name) is None ==> resolve(e2, c, name) is None),
    decreases c,
{
    if 0 <= c < n {
        assert(e2.scopes[c].bindings.dom() == e1.scopes[c].bindings.dom());
        assert(e1.scopes[c].bindings.contains_key(name) <==> e1.scopes[c].bindings.dom().contains(
            name,
        ));
        assert(e2.scopes[c].bindings.contains_key(name) <==> e2.scopes[c].bindings.dom().contains(
            name,
        ));
        if !e1.scopes[c].bindings.contains_key(name) {
            match e1.scopes[c].parent {
                Option::Some(p) => {
                    if 0 <= p < c {
                        lemma_resolve_same_doms(e1, e2, n, p, name);
                    }
                },
                Option::None => {},
            }
        }
    }
}

/// Block scoping: a block's own declarations are invisible once it exits.
/// A completed block leaves execution in the scope record it started in, and
/// a name then resolves exactly as many records up the chain as it would
/// have before the block ran, or fails if it was nowhere bound; only the
/// values assignments wrote can differ.
pub proof fn law_block_scoping(fuel: nat, body: Seq<GStmt>, st: crate::compiler::StateView, name: Seq<char>)
    requires
        0 <= st.current < st.env.scopes.len(),
    ensures
        ({
            let (r, rst) = crate::compiler::eval_stmt(fuel, GStmt::Block(body), st);
            r is Ok ==> {
                &&& rst.current == st.current
                &&& (resolve(st.env, st.current, name) matches Option::Some(t) ==> resolve(
                    rst.env,
                    rst.current,
                    name,
                ) == Option::Some(t))
                &&& (resolve(st.env, st.current, name) is None ==> resolve(
                    rst.env,
                    rst.current,
                    name,
                ) is None)
            }
        }),
{
    frame_stmt(fuel, GStmt::Block(body), st);
    let (r, rst) = crate::compiler::eval_stmt(fuel, GStmt::Block(body), st);
    if r is Ok {
        let n = st.env.scopes.len() as int;
        assert(forall|i: int|
            0 <= i < n && i != st.current ==> (#[trigger] rst.env.scopes[i]).bindings.dom()
                == st.env.scopes[i].bindings.dom());
        // The scope the block stands in gains no name either: its domain is
        // preserved through the fresh child scope, where every declaration
        // of the body lands.
        let ns = n;
        let env2 = EnvironmentView {
            scopes: st.env.scopes.push(
                ScopeView { bindings: Map::empty(), parent: Option::Some(st.current) },
            ),
        };
        let st2 = crate::compiler::StateView { env: env2, current: ns, out: st.out };
        frame_stmts(fuel, body, st2);
        let (rb, st3) = crate::compiler::eval_stmts(fuel, body, st2);
        assert(st.current != ns);
        assert(st2.env.scopes[st.current].bindings.dom() == st.env.scopes[st.current].bindings.dom());
        assert(st3.env.scopes[st.current].bindings.dom() == st.env.scopes[st.current].bindings.dom());
        assert(rst.env == st3.env);
        assert(forall|i: int|
            0 <= i < n ==> (#[trigger] rst.env.scopes[i]).parent == st.env.scopes[i].parent);
        lemma_resolve_same_doms(st.env, rst.env, n, st.current as int, name);
    }
}

} // verus!
