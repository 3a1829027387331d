//! The parser: recursive descent over the token sequence, honoring a fixed
//! precedence grammar. Its meaning is the family of `spec_*` functions below,
//! one per grammar production; the executable `Parser` is proved to build
//! exactly the tree they describe, so parsing is deterministic, and every
//! production consumes input before it recurses.

use vstd::prelude::*;
use crate::ast::{Expression, GExpr, GStmt, Statement, TokenView, exprs_view, stmts_view, toks_view};
use crate::errors::SyntaxError;
use crate::token::{Token, TokenType};

verus! {

/// What the lexer guarantees of its product: the sequence ends with exactly
/// one end-of-input token, and literal tokens carry literals of the right
/// shape.
pub open spec fn toks_wf(ts: Seq<TokenView>) -> bool {
    &&& ts.len() >= 1
    &&& ts[ts.len() - 1].tag == TokenType::EOF
    &&& forall|k: int| 0 <= k < ts.len() - 1 ==> (#[trigger] ts[k]).tag != TokenType::EOF
    &&& forall|k: int|
        0 <= k < ts.len() && (#[trigger] ts[k]).tag == TokenType::NUMBER ==> (ts[k].literal matches Option::Some(
            crate::ast::ObjectView::Digit(_),
        ))
    &&& forall|k: int|
        0 <= k < ts.len() && (#[trigger] ts[k]).tag == TokenType::STRING ==> (ts[k].literal matches Option::Some(
            crate::ast::ObjectView::String(_),
        ))
}

/// The error for a required token that is absent at position `j`.
pub open spec fn spec_expect_err(ts: Seq<TokenView>, j: int, tag: TokenType) -> SyntaxError {
    if 0 <= j < ts.len() {
        if ts[j].tag == TokenType::EOF {
            SyntaxError::UnexpectedEndOfInput { line: ts[j].line as usize }
        } else {
            SyntaxError::ExpectedToken { expected: tag, line: ts[j].line as usize }
        }
    } else {
        SyntaxError::UnexpectedEndOfInput { line: 0 }
    }
}

/// The error for a position where an expression had to start.
pub open spec fn spec_primary_err(ts: Seq<TokenView>, j: int) -> SyntaxError {
    if 0 <= j < ts.len() {
        if ts[j].tag == TokenType::EOF {
            SyntaxError::UnexpectedEndOfInput { line: ts[j].line as usize }
        } else {
            SyntaxError::ExpectedExpression { line: ts[j].line as usize }
        }
    } else {
        SyntaxError::UnexpectedEndOfInput { line: 0 }
    }
}

/// Consuming one required token of the given kind.
pub open spec fn spec_consume(ts: Seq<TokenView>, i: int, tag: TokenType) -> (Result<
    TokenView,
    SyntaxError,
>, int) {
    if 0 <= i < ts.len() && ts[i].tag == tag {
        (Result::Ok(ts[i]), i + 1)
    } else {
        (Result::Err(spec_expect_err(ts, i, tag)), i)
    }
}

/// The operators of one left-associative binary level. Levels three to six
/// fold into `Binary` nodes; seven and eight are the short-circuiting
/// `and` / `or` and fold into `Logical` nodes.
pub open spec fn level_op(lvl: int, tag: TokenType) -> bool {
    if lvl == 3 {
        tag == TokenType::SLASH || tag == TokenType::STAR
    } else if lvl == 4 {
        tag == TokenType::MINUS || tag == TokenType::PLUS
    } else if lvl == 5 {
        tag == TokenType::GREATER || tag == TokenType::GREATER_EQUAL || tag == TokenType::LESS
            || tag == TokenType::LESS_EQUAL
    } else if lvl == 6 {
        tag == TokenType::BANG_EQUAL || tag == TokenType::EQUAL_EQUAL
    } else if lvl == 7 {
        tag == TokenType::AND
    } else if lvl == 8 {
        tag == TokenType::OR
    } else {
        false
    }
}

/// A `primary`: a literal, `true` or `false`, a parenthesized expression, or
/// a variable.
pub open spec fn spec_primary(ts: Seq<TokenView>, i: int) -> (Result<GExpr, SyntaxError>, int)
    decreases ts.len() - i, 0int,
{
    if !(0 <= i < ts.len()) {
        (Result::Err(spec_primary_err(ts, i)), i)
    } else {
        let t = ts[i];
        if t.tag == TokenType::FALSE {
            (Result::Ok(GExpr::Literal(crate::ast::ObjectView::Bool(false))), i + 1)
        } else if t.tag == TokenType::TRUE {
            (Result::Ok(GExpr::Literal(crate::ast::ObjectView::Bool(true))), i + 1)
        } else if t.tag == TokenType::NUMBER || t.tag == TokenType::STRING {
            (
                Result::Ok(
                    GExpr::Literal(
                        match t.literal {
                            Option::Some(o) => o,
                            Option::None => crate::ast::ObjectView::Nil,
                        },
                    ),
                ),
                i + 1,
            )
        } else if t.tag == TokenType::LEFT_PAREN {
            let (r, j) = spec_expression(ts, i + 1);
            match r {
                Result::Ok(e) => {
                    let (r2, j2) = spec_consume(ts, j, TokenType::RIGHT_PAREN);
                    match r2 {
                        Result::Ok(_) => (Result::Ok(GExpr::Grouping(Box::new(e))), j2),
                        Result::Err(err) => (Result::Err(err), j),
                    }
                },
                Result::Err(err) => (Result::Err(err), j),
            }
        } else if t.tag == TokenType::IDENTIFIER {
            (Result::Ok(GExpr::Var(t)), i + 1)
        } else {
            (Result::Err(spec_primary_err(ts, i)), i)
        }
    }
}

/// A comma-separated argument list, each argument an assignment-level
/// expression; `acc` holds the arguments already parsed.
pub open spec fn spec_args_tail(ts: Seq<TokenView>, i: int, acc: Seq<GExpr>) -> (Result<
    Seq<GExpr>,
    SyntaxError,
>, int)
    decreases ts.len() - i, 0int,
{
    if 0 <= i < ts.len() && ts[i].tag == TokenType::COMMA {
        let (r, j) = spec_assignment(ts, i + 1);
        match r {
            Result::Ok(e) => {
                if i + 1 <= j <= ts.len() {
                    spec_args_tail(ts, j, acc.push(e))
                } else {
                    (Result::Err(spec_primary_err(ts, j)), j)
                }
            },
            Result::Err(err) => (Result::Err(err), j),
        }
    } else {
        (Result::Ok(acc), i)
    }
}

/// One or more call arguments.
pub open spec fn spec_arguments(ts: Seq<TokenView>, i: int) -> (Result<Seq<GExpr>, SyntaxError>, int)
    decreases ts.len() - i, 10int,
{
    if !(0 <= i <= ts.len()) {
        (Result::Err(spec_primary_err(ts, i)), i)
    } else {
        let (r, j) = spec_assignment(ts, i);
        match r {
            Result::Ok(e) => {
                if i < j <= ts.len() {
                    spec_args_tail(ts, j, seq![e])
                } else {
                    (Result::Err(spec_primary_err(ts, j)), j)
                }
            },
            Result::Err(err) => (Result::Err(err), j),
        }
    }
}

/// Zero or more parenthesized argument lists after a primary, each one
/// folding into a `Call` node around the callee so far.
pub open spec fn spec_call_tail(ts: Seq<TokenView>, i: int, callee: GExpr) -> (Result<
    GExpr,
    SyntaxError,
>, int)
    decreases ts.len() - i, 0int,
{
    if 0 <= i < ts.len() && ts[i].tag == TokenType::LEFT_PAREN {
        if i + 1 < ts.len() && ts[i + 1].tag == TokenType::RIGHT_PAREN {
            let node = GExpr::Call(Box::new(callee), ts[i + 1], Seq::empty());
            spec_call_tail(ts, i + 2, node)
        } else {
            let (r, j) = spec_arguments(ts, i + 1);
            match r {
                Result::Ok(args) => {
                    let (r2, j2) = spec_consume(ts, j, TokenType::RIGHT_PAREN);
                    match r2 {
                        Result::Ok(paren) => {
                            if i < j2 <= ts.len() {
                                spec_call_tail(ts, j2, GExpr::Call(Box::new(callee), paren, args))
                            } else {
                                (Result::Err(spec_primary_err(ts, j2)), j2)
                            }
                        },
                        Result::Err(err) => (Result::Err(err), j),
                    }
                },
                Result::Err(err) => (Result::Err(err), j),
            }
        }
    } else {
        (Result::Ok(callee), i)
    }
}

/// A `call`: a primary followed by any number of argument lists.
pub open spec fn spec_call(ts: Seq<TokenView>, i: int) -> (Result<GExpr, SyntaxError>, int)
    decreases ts.len() - i, 1int,
{
    let (r, j) = spec_primary(ts, i);
    match r {
        Result::Ok(e) => {
            if i < j <= ts.len() {
                spec_call_tail(ts, j, e)
            } else {
                (Result::Err(spec_primary_err(ts, j)), j)
            }
        },
        Result::Err(err) => (Result::Err(err), j),
    }
}

/// A `unary`: `!` or `-` applied to a unary, or a call.
pub open spec fn spec_unary(ts: Seq<TokenView>, i: int) -> (Result<GExpr, SyntaxError>, int)
    decreases ts.len() - i, 2int,
{
    if 0 <= i < ts.len() && (ts[i].tag == TokenType::BANG || ts[i].tag == TokenType::MINUS) {
        let (r, j) = spec_unary(ts, i + 1);
        match r {
            Result::Ok(e) => (Result::Ok(GExpr::Unary(ts[i], Box::new(e))), j),
            Result::Err(err) => (Result::Err(err), j),
        }
    } else {
        spec_call(ts, i)
    }
}

/// The next-tighter level under a binary level.
pub open spec fn spec_level_down(lvl: int, ts: Seq<TokenView>, i: int) -> (Result<
    GExpr,
    SyntaxError,
>, int)
    decreases ts.len() - i, (if lvl < 3 { 3int } else { lvl }), 0int,
{
    if lvl <= 3 {
        spec_unary(ts, i)
    } else {
        spec_level(lvl - 1, ts, i)
    }
}

/// The fold of one left-associative binary level: while the current token is
/// one of the level's operators, consume it and the next-tighter operand and
/// fold leftward.
pub open spec fn spec_level_tail(lvl: int, ts: Seq<TokenView>, i: int, acc: GExpr) -> (Result<
    GExpr,
    SyntaxError,
>, int)
    decreases ts.len() - i, (if lvl < 3 { 3int } else { lvl }), 1int,
{
    if 0 <= i < ts.len() && level_op(lvl, ts[i].tag) {
        let (r, j) = spec_level_down(lvl, ts, i + 1);
        match r {
            Result::Ok(e) => {
                let node = if lvl >= 7 {
                    GExpr::Logical(Box::new(acc), ts[i], Box::new(e))
                } else {
                    GExpr::Binary(Box::new(acc), ts[i], Box::new(e))
                };
                if i < j <= ts.len() {
                    spec_level_tail(lvl, ts, j, node)
                } else {
                    (Result::Err(spec_primary_err(ts, j)), j)
                }
            },
            Result::Err(err) => (Result::Err(err), j),
        }
    } else {
        (Result::Ok(acc), i)
    }
}

/// One binary precedence level: factors, terms, comparisons, equalities, and
/// the two logical levels, by increasing `lvl`.
pub open spec fn spec_level(lvl: int, ts: Seq<TokenView>, i: int) -> (Result<GExpr, SyntaxError>, int)
    decreases ts.len() - i, (if lvl < 3 { 3int } else { lvl }), 2int,
{
    let (r, j) = spec_level_down(lvl, ts, i);
    match r {
        Result::Ok(e) => {
            if i < j <= ts.len() {
                spec_level_tail(lvl, ts, j, e)
            } else {
                (Result::Err(spec_primary_err(ts, j)), j)
            }
        },
        Result::Err(err) => (Result::Err(err), j),
    }
}

/// An `assignment`: either a bare variable followed by `=` and another
/// assignment (right-associative), or a logical-or-level expression.
pub open spec fn spec_assignment(ts: Seq<TokenView>, i: int) -> (Result<GExpr, SyntaxError>, int)
    decreases ts.len() - i, 9int,
{
    if !(0 <= i <= ts.len()) {
        (Result::Err(spec_primary_err(ts, i)), i)
    } else {
        let (r, j) = spec_level(8, ts, i);
        match r {
            Result::Ok(e) => {
                if i <= j < ts.len() && ts[j].tag == TokenType::EQUAL {
                    let (rv, k) = spec_assignment(ts, j + 1);
                    match rv {
                        Result::Ok(v) => match e {
                            GExpr::Var(name) => (
                                Result::Ok(GExpr::Assignment(name, Box::new(v))),
                                k,
                            ),
                            _ => (
                                Result::Err(
                                    SyntaxError::InvalidAssignmentTarget {
                                        line: ts[j].line as usize,
                                    },
                                ),
                                k,
                            ),
                        },
                        Result::Err(err) => (Result::Err(err), k),
                    }
                } else {
                    (Result::Ok(e), j)
                }
            },
            Result::Err(err) => (Result::Err(err), j),
        }
    }
}

/// An `expression` is an assignment.
pub open spec fn spec_expression(ts: Seq<TokenView>, i: int) -> (Result<GExpr, SyntaxError>, int)
    decreases ts.len() - i, 10int,
{
    spec_assignment(ts, i)
}

/// A parameter list: identifiers separated by commas; `acc` holds those
/// already parsed.
pub open spec fn spec_params_tail(ts: Seq<TokenView>, i: int, acc: Seq<TokenView>) -> (Result<
    Seq<TokenView>,
    SyntaxError,
>, int)
    decreases ts.len() - i, 0int,
{
    if 0 <= i < ts.len() && ts[i].tag == TokenType::COMMA {
        let (r, j) = spec_consume(ts, i + 1, TokenType::IDENTIFIER);
        match r {
            Result::Ok(name) => spec_params_tail(ts, j, acc.push(name)),
            Result::Err(err) => (Result::Err(err), j),
        }
    } else {
        (Result::Ok(acc), i)
    }
}

/// One or more parameters.
pub open spec fn spec_params(ts: Seq<TokenView>, i: int) -> (Result<Seq<TokenView>, SyntaxError>, int)
    decreases ts.len() - i, 1int,
{
    let (r, j) = spec_consume(ts, i, TokenType::IDENTIFIER);
    match r {
        Result::Ok(name) => {
            if i < j <= ts.len() {
                spec_params_tail(ts, j, seq![name])
            } else {
                (Result::Err(spec_primary_err(ts, j)), j)
            }
        },
        Result::Err(err) => (Result::Err(err), j),
    }
}

/// The body of a block after its opening brace: declarations, then the
/// closing brace.
pub open spec fn spec_block(ts: Seq<TokenView>, i: int) -> (Result<Seq<GStmt>, SyntaxError>, int)
    decreases ts.len() - i, 18int,
{
    let (r, j) = spec_block_items(ts, i);
    match r {
        Result::Ok(ss) => {
            let (r2, j2) = spec_consume(ts, j, TokenType::RIGHT_BRACE);
            match r2 {
                Result::Ok(_) => (Result::Ok(ss), j2),
                Result::Err(err) => (Result::Err(err), j),
            }
        },
        Result::Err(err) => (Result::Err(err), j),
    }
}

/// An `if` statement after the `if` keyword: a parenthesized condition, a
/// statement, and an optional `else` branch.
pub open spec fn spec_if_stmt(ts: Seq<TokenView>, i: int) -> (Result<GStmt, SyntaxError>, int)
    decreases ts.len() - i, 11int,
{
    if !(0 <= i <= ts.len()) {
        (Result::Err(spec_primary_err(ts, i)), i)
    } else {
        let (r1, j1) = spec_consume(ts, i, TokenType::LEFT_PAREN);
        match r1 {
            Result::Ok(_) => {
                let (rc, jc) = spec_expression(ts, j1);
                match rc {
                    Result::Ok(cond) => {
                        let (r2, j2) = spec_consume(ts, jc, TokenType::RIGHT_PAREN);
                        match r2 {
                            Result::Ok(_) => {
                                if i < j2 <= ts.len() {
                                    let (rt, jt) = spec_statement(ts, j2);
                                    match rt {
                                        Result::Ok(then_s) => {
                                            if 0 <= jt < ts.len() && ts[jt].tag == TokenType::ELSE
                                                && i < jt + 1 {
                                                let (re, je) = spec_statement(ts, jt + 1);
                                                match re {
                                                    Result::Ok(else_s) => (
                                                        Result::Ok(
                                                            GStmt::If(
                                                                cond,
                                                                Box::new(then_s),
                                                                Option::Some(Box::new(else_s)),
                                                            ),
                                                        ),
                                                        je,
                                                    ),
                                                    Result::Err(err) => (Result::Err(err), je),
                                                }
                                            } else {
                                                (
                                                    Result::Ok(
                                                        GStmt::If(
                                                            cond,
                                                            Box::new(then_s),
                                                            Option::None,
                                                        ),
                                                    ),
                                                    jt,
                                                )
                                            }
                                        },
                                        Result::Err(err) => (Result::Err(err), jt),
                                    }
                                } else {
                                    (Result::Err(spec_primary_err(ts, j2)), j2)
                                }
                            },
                            Result::Err(err) => (Result::Err(err), jc),
                        }
                    },
                    Result::Err(err) => (Result::Err(err), jc),
                }
            },
            Result::Err(err) => (Result::Err(err), j1),
        }
    }
}

/// A function declaration after the `fun` keyword: a name, a parameter list
/// in parentheses, and a braced body.
pub open spec fn spec_fun_stmt(ts: Seq<TokenView>, i: int) -> (Result<GStmt, SyntaxError>, int)
    decreases ts.len() - i, 18int,
{
    if !(0 <= i <= ts.len()) {
        (Result::Err(spec_primary_err(ts, i)), i)
    } else {
        let (rn, jn) = spec_consume(ts, i, TokenType::IDENTIFIER);
        match rn {
            Result::Ok(name) => {
                let (rp, jp) = spec_consume(ts, jn, TokenType::LEFT_PAREN);
                match rp {
                    Result::Ok(_) => {
                        let (rps, jps) = if 0 <= jp < ts.len() && ts[jp].tag
                            == TokenType::RIGHT_PAREN {
                            (Result::Ok(Seq::<TokenView>::empty()), jp)
                        } else {
                            if i < jp <= ts.len() {
                                spec_params(ts, jp)
                            } else {
                                (Result::Err(spec_primary_err(ts, jp)), jp)
                            }
                        };
                        match rps {
                            Result::Ok(params) => {
                                let (rr, jr) = spec_consume(ts, jps, TokenType::RIGHT_PAREN);
                                match rr {
                                    Result::Ok(_) => {
                                        let (rb, jb) = spec_consume(ts, jr, TokenType::LEFT_BRACE);
                                        match rb {
                                            Result::Ok(_) => {
                                                if i < jb <= ts.len() {
                                                    let (rss, jss) = spec_block(ts, jb);
                                                    match rss {
                                                        Result::Ok(body) => (
                                                            Result::Ok(
                                                                GStmt::Function(
                                                                    name,
                                                                    params,
                                                                    body,
                                                                ),
                                                            ),
                                                            jss,
                                                        ),
                                                        Result::Err(err) => (
                                                            Result::Err(err),
                                                            jss,
                                                        ),
                                                    }
                                                } else {
                                                    (Result::Err(spec_primary_err(ts, jb)), jb)
                                                }
                                            },
                                            Result::Err(err) => (Result::Err(err), jr),
                                        }
                                    },
                                    Result::Err(err) => (Result::Err(err), jps),
                                }
                            },
                            Result::Err(err) => (Result::Err(err), jps),
                        }
                    },
                    Result::Err(err) => (Result::Err(err), jn),
                }
            },
            Result::Err(err) => (Result::Err(err), jn),
        }
    }
}

/// A `statement`: a print statement, a block, an `if`, a function
/// declaration, or an expression statement.
pub open spec fn spec_statement(ts: Seq<TokenView>, i: int) -> (Result<GStmt, SyntaxError>, int)
    decreases ts.len() - i, 15int,
{
    if !(0 <= i < ts.len()) {
        (Result::Err(spec_primary_err(ts, i)), i)
    } else {
        let t = ts[i];
        if t.tag == TokenType::PRINT {
            spec_print_stmt(ts, i + 1)
        } else if t.tag == TokenType::LEFT_BRACE {
            let (r, j) = spec_block(ts, i + 1);
            match r {
                Result::Ok(ss) => (Result::Ok(GStmt::Block(ss)), j),
                Result::Err(err) => (Result::Err(err), j),
            }
        } else if t.tag == TokenType::IF {
            spec_if_stmt(ts, i + 1)
        } else if t.tag == TokenType::FUN {
            spec_fun_stmt(ts, i + 1)
        } else {
            let (r, j) = spec_expression(ts, i);
            match r {
                Result::Ok(e) => (Result::Ok(GStmt::Expression(e)), j),
                Result::Err(err) => (Result::Err(err), j),
            }
        }
    }
}

/// A `declaration`: a `var` declaration with a required initializer, or a
/// statement.
pub open spec fn spec_declaration(ts: Seq<TokenView>, i: int) -> (Result<GStmt, SyntaxError>, int)
    decreases ts.len() - i, 16int,
{
    if !(0 <= i < ts.len()) {
        (Result::Err(spec_primary_err(ts, i)), i)
    } else if ts[i].tag == TokenType::VAR {
        spec_var_decl(ts, i + 1)
    } else {
        spec_statement(ts, i)
    }
}

/// The declarations of a block, up to the closing brace.
pub open spec fn spec_block_items(ts: Seq<TokenView>, i: int) -> (Result<Seq<GStmt>, SyntaxError>, int)
    decreases ts.len() - i, 17int,
{
    if !(0 <= i < ts.len()) {
        (Result::Ok(Seq::empty()), i)
    } else if ts[i].tag == TokenType::RIGHT_BRACE || ts[i].tag == TokenType::EOF {
        (Result::Ok(Seq::empty()), i)
    } else {
        let (r, j) = spec_declaration(ts, i);
        match r {
            Result::Ok(s) => {
                if i < j <= ts.len() {
                    let (rr, k) = spec_block_items(ts, j);
                    match rr {
                        Result::Ok(rest) => (Result::Ok(seq![s] + rest), k),
                        Result::Err(err) => (Result::Err(err), k),
                    }
                } else {
                    (Result::Err(spec_primary_err(ts, j)), j)
                }
            },
            Result::Err(err) => (Result::Err(err), j),
        }
    }
}

/// A `print` statement's argument, after the `print` keyword.
pub open spec fn spec_print_stmt(ts: Seq<TokenView>, i: int) -> (Result<GStmt, SyntaxError>, int)
    decreases ts.len() - i, 11int,
{
    let (r, j) = spec_expression(ts, i);
    match r {
        Result::Ok(e) => (Result::Ok(GStmt::Print(e)), j),
        Result::Err(err) => (Result::Err(err), j),
    }
}

/// A `var` declaration after the `var` keyword: a name, `=`, and an
/// initializer.
pub open spec fn spec_var_decl(ts: Seq<TokenView>, i: int) -> (Result<GStmt, SyntaxError>, int)
    decreases ts.len() - i, 11int,
{
    let (rn, jn) = spec_consume(ts, i, TokenType::IDENTIFIER);
    match rn {
        Result::Ok(name) => {
            let (re, je) = spec_consume(ts, jn, TokenType::EQUAL);
            match re {
                Result::Ok(_) => {
                    if i <= je <= ts.len() {
                        let (rv, jv) = spec_expression(ts, je);
                        match rv {
                            Result::Ok(e) => (Result::Ok(GStmt::Var(name, e)), jv),
                            Result::Err(err) => (Result::Err(err), jv),
                        }
                    } else {
                        (Result::Err(spec_primary_err(ts, je)), je)
                    }
                },
                Result::Err(err) => (Result::Err(err), jn),
            }
        },
        Result::Err(err) => (Result::Err(err), jn),
    }
}

/// The whole program: declarations up to the end-of-input token.
pub open spec fn spec_program(ts: Seq<TokenView>, i: int) -> (Result<Seq<GStmt>, SyntaxError>, int)
    decreases ts.len() - i, 17int,
{
    if !(0 <= i < ts.len()) {
        (Result::Ok(Seq::empty()), i)
    } else if ts[i].tag == TokenType::EOF {
        (Result::Ok(Seq::empty()), i)
    } else {
        let (r, j) = spec_declaration(ts, i);
        match r {
            Result::Ok(s) => {
                if i < j <= ts.len() {
                    let (rr, k) = spec_program(ts, j);
                    match rr {
                        Result::Ok(rest) => (Result::Ok(seq![s] + rest), k),
                        Result::Err(err) => (Result::Err(err), k),
                    }
                } else {
                    (Result::Err(spec_primary_err(ts, j)), j)
                }
            },
            Result::Err(err) => (Result::Err(err), j),
        }
    }
}

} // verus!

verus! {

/// The executable parser: a cursor over the token sequence.
pub struct Parser {
    pub tokens: Vec<Token>,
    pub current: usize,
}

impl Parser {
    /// The shadow of the token sequence.
    pub open spec fn ts(&self) -> Seq<TokenView> {
        toks_view(self.tokens@)
    }

    /// The parser's invariant: well-formed tokens, cursor in bounds, and the
    /// shadow in step with the vector.
    pub open spec fn wf(&self) -> bool {
        &&& toks_wf(self.ts())
        &&& self.ts().len() == self.tokens@.len()
        &&& (self.current as int) < self.ts().len()
    }

    /// What an expression-level method guarantees: the cursor lands where
    /// the grammar function says, and the built node is its tree.
    pub open spec fn expr_post(
        old_p: Parser,
        new_p: Parser,
        r: Result<Expression, SyntaxError>,
        s: (Result<GExpr, SyntaxError>, int),
    ) -> bool {
        &&& new_p.tokens == old_p.tokens
        &&& new_p.wf()
        &&& new_p.current as int == s.1
        &&& old_p.current <= new_p.current
        &&& match (r, s.0) {
            (Result::Ok(e), Result::Ok(ge)) => crate::ast::expr_view(e) == ge && old_p.current
                < new_p.current,
            (Result::Err(a), Result::Err(b)) => a == b,
            _ => false,
        }
    }

    /// What a statement-level method guarantees.
    pub open spec fn stmt_post(
        old_p: Parser,
        new_p: Parser,
        r: Result<Statement, SyntaxError>,
        s: (Result<GStmt, SyntaxError>, int),
    ) -> bool {
        &&& new_p.tokens == old_p.tokens
        &&& new_p.wf()
        &&& new_p.current as int == s.1
        &&& old_p.current <= new_p.current
        &&& match (r, s.0) {
            (Result::Ok(st), Result::Ok(gs)) => crate::ast::stmt_view(st) == gs && old_p.current
                < new_p.current,
            (Result::Err(a), Result::Err(b)) => a == b,
            _ => false,
        }
    }

    /// A parser at the start of a token sequence.
    pub fn new(tokens: Vec<Token>) -> (p: Parser)
        ensures
            p.tokens == tokens,
            p.current == 0,
    {
        Parser { tokens, current: 0 }
    }

    /// The token under the cursor.
    fn peek(&self) -> (t: Token)
        requires
            self.wf(),
        ensures
            t@ == self.ts()[self.current as int],
    {
        proof {
            crate::ast::lemma_toks_view_index(self.tokens@, self.current as int);
        }
        crate::ast::clone_token(&self.tokens[self.current])
    }

    /// The token before the cursor.
    fn previous(&self) -> (t: Token)
        requires
            self.wf(),
            self.current >= 1,
        ensures
            t@ == self.ts()[self.current - 1],
    {
        proof {
            crate::ast::lemma_toks_view_index(self.tokens@, self.current - 1);
        }
        crate::ast::clone_token(&self.tokens[self.current - 1])
    }

    /// Whether the cursor has reached the end-of-input token.
    fn is_at_end(&self) -> (b: bool)
        requires
            self.wf(),
        ensures
            b == (self.ts()[self.current as int].tag == TokenType::EOF),
    {
        proof {
            crate::ast::lemma_toks_view_index(self.tokens@, self.current as int);
        }
        self.tokens[self.current].tag == TokenType::EOF
    }

    /// Whether the token under the cursor has the given kind; never true at
    /// the end of input.
    fn check(&self, tag: TokenType) -> (b: bool)
        requires
            self.wf(),
        ensures
            b == (self.ts()[self.current as int].tag == tag && self.ts()[self.current as int].tag
                != TokenType::EOF),
    {
        proof {
            crate::ast::lemma_toks_view_index(self.tokens@, self.current as int);
        }
        let tt = self.tokens[self.current].tag;
        tt == tag && !(tt == TokenType::EOF)
    }

    /// Consumes and returns the token under the cursor, which must not be
    /// the end-of-input token.
    fn advance(&mut self) -> (t: Token)
        requires
            old(self).wf(),
            old(self).ts()[old(self).current as int].tag != TokenType::EOF,
        ensures
            final(self).wf(),
            final(self).tokens == old(self).tokens,
            final(self).current == old(self).current + 1,
            t@ == old(self).ts()[old(self).current as int],
    {
        let t = self.peek();
        let n = self.tokens.len();
        proof {
            assert(self.current < self.ts().len() - 1);
            assert(self.current < n);
        }
        self.current = self.current + 1;
        t
    }

    /// If the token under the cursor has one of the given kinds, consumes it
    /// and answers true; otherwise leaves the cursor alone.
    fn expect(&mut self, tags: Vec<TokenType>) -> (b: bool)
        requires
            old(self).wf(),
            forall|k: int| 0 <= k < tags@.len() ==> #[trigger] tags@[k] != TokenType::EOF,
        ensures
            final(self).wf(),
            final(self).tokens == old(self).tokens,
            b == (exists|k: int|
                0 <= k < tags@.len() && old(self).ts()[old(self).current as int].tag == tags@[k]),
            b ==> final(self).current == old(self).current + 1,
            !b ==> final(self).current == old(self).current,
    {
        let n = tags.len();
        let mut i: usize = 0;
        while i < n
            invariant
                self.wf(),
                *self == *old(self),
                n == tags@.len(),
                forall|k: int| 0 <= k < tags@.len() ==> #[trigger] tags@[k] != TokenType::EOF,
                0 <= i <= n,
                forall|k: int|
                    0 <= k < i ==> old(self).ts()[old(self).current as int].tag != #[trigger] tags@[k],
            decreases n - i,
        {
            if self.check(tags[i]) {
                let _ = self.advance();
                return true;
            }
            proof {
                assert(old(self).ts()[old(self).current as int].tag != tags@[i as int]);
            }
            i += 1;
        }
        false
    }

    /// Consumes one required token of the given kind, or reports exactly the
    /// error the grammar function gives.
    fn consume(&mut self, tag: TokenType) -> (r: Result<Token, SyntaxError>)
        requires
            old(self).wf(),
            tag != TokenType::EOF,
        ensures
            final(self).wf(),
            final(self).tokens == old(self).tokens,
            ({
                let (sr, j) = spec_consume(old(self).ts(), old(self).current as int, tag);
                &&& final(self).current as int == j
                &&& match (r, sr) {
                    (Result::Ok(t), Result::Ok(tv)) => t@ == tv,
                    (Result::Err(a), Result::Err(b)) => a == b,
                    _ => false,
                }
            }),
    {
        if self.check(tag) {
            let t = self.advance();
            Result::Ok(t)
        } else {
            let p = self.peek();
            if p.tag == TokenType::EOF {
                Result::Err(SyntaxError::UnexpectedEndOfInput { line: p.line })
            } else {
                Result::Err(SyntaxError::ExpectedToken { expected: tag, line: p.line })
            }
        }
    }

    /// A `primary` expression.
    fn primary(&mut self) -> (r: Result<Expression, SyntaxError>)
        requires
            old(self).wf(),
        ensures
            Self::expr_post(
                *old(self),
                *final(self),
                r,
                spec_primary(old(self).ts(), old(self).current as int),
            ),
        decreases old(self).ts().len() - old(self).current, 0int,
    {
        proof {
            reveal_with_fuel(crate::ast::expr_view, 3);
        }
        let t = self.peek();
        if t.tag == TokenType::FALSE {
            let _ = self.advance();
            Result::Ok(Expression::Literal(crate::token::Object::Bool(false)))
        } else if t.tag == TokenType::TRUE {
            let _ = self.advance();
            Result::Ok(Expression::Literal(crate::token::Object::Bool(true)))
        } else if t.tag == TokenType::NUMBER || t.tag == TokenType::STRING {
            let tok = self.advance();
            match tok.literal {
                Option::Some(l) => Result::Ok(Expression::Literal(l)),
                Option::None => {
                    proof {
                        assert(false);
                    }
                    Result::Ok(Expression::Literal(crate::token::Object::Nil))
                },
            }
        } else if t.tag == TokenType::LEFT_PAREN {
            let _ = self.advance();
            let inner = match self.expression() {
                Result::Ok(e) => e,
                Result::Err(err) => {
                    return Result::Err(err);
                },
            };
            match self.consume(TokenType::RIGHT_PAREN) {
                Result::Ok(_) => Result::Ok(Expression::Grouping(Box::new(inner))),
                Result::Err(err) => Result::Err(err),
            }
        } else if t.tag == TokenType::IDENTIFIER {
            let tok = self.advance();
            Result::Ok(Expression::Var(tok))
        } else if t.tag == TokenType::EOF {
            Result::Err(SyntaxError::UnexpectedEndOfInput { line: t.line })
        } else {
            Result::Err(SyntaxError::ExpectedExpression { line: t.line })
        }
    }

    /// One or more call arguments, comma-separated.
    fn arguments(&mut self) -> (r: Result<Vec<Expression>, SyntaxError>)
        requires
            old(self).wf(),
        ensures
            final(self).tokens == old(self).tokens,
            final(self).wf(),
            old(self).current <= final(self).current,
            ({
                let (sr, j) = spec_arguments(old(self).ts(), old(self).current as int);
                &&& final(self).current as int == j
                &&& match (r, sr) {
                    (Result::Ok(v), Result::Ok(ges)) => exprs_view(v@) == ges && old(self).current
                        < final(self).current,
                    (Result::Err(a), Result::Err(b)) => a == b,
                    _ => false,
                }
            }),
        decreases old(self).ts().len() - old(self).current, 10int,
    {
        let ghost ts = self.ts();
        let ghost i0 = self.current as int;
        let first = match self.assignment() {
            Result::Ok(e) => e,
            Result::Err(err) => {
                return Result::Err(err);
            },
        };
        let mut v: Vec<Expression> = Vec::new();
        v.push(first);
        proof {
            reveal_with_fuel(exprs_view, 3);
            assert(v@.subrange(0, 0) =~= Seq::<Expression>::empty());
            assert(exprs_view(v@) =~= seq![crate::ast::expr_view(v@[0])]);
        }
        loop
            invariant
                self.wf(),
                self.tokens == old(self).tokens,
                ts == old(self).ts(),
                i0 == old(self).current as int,
                i0 < self.current as int <= ts.len(),
                spec_args_tail(ts, self.current as int, exprs_view(v@)) == spec_arguments(ts, i0),
            ensures
                self.wf(),
                self.tokens == old(self).tokens,
                i0 < self.current as int <= ts.len(),
                spec_args_tail(ts, self.current as int, exprs_view(v@)) == spec_arguments(ts, i0),
                !(ts[self.current as int].tag == TokenType::COMMA),
            decreases ts.len() - self.current,
        {
            if !self.check(TokenType::COMMA) {
                proof {
                    if ts[self.current as int].tag == TokenType::COMMA {
                        assert(false);
                    }
                }
                break ;
            }
            let _ = self.advance();
            let nxt = match self.assignment() {
                Result::Ok(e) => e,
                Result::Err(err) => {
                    return Result::Err(err);
                },
            };
            let ghost oldv = v@;
            v.push(nxt);
            proof {
                assert(v@.subrange(0, v@.len() - 1) =~= oldv);
                assert(exprs_view(v@) == exprs_view(oldv).push(crate::ast::expr_view(nxt)));
            }
        }
        Result::Ok(v)
    }

    /// A `call`: a primary and any number of argument lists.
    fn call(&mut self) -> (r: Result<Expression, SyntaxError>)
        requires
            old(self).wf(),
        ensures
            Self::expr_post(
                *old(self),
                *final(self),
                r,
                spec_call(old(self).ts(), old(self).current as int),
            ),
        decreases old(self).ts().len() - old(self).current, 1int,
    {
        let ghost ts = self.ts();
        let ghost i0 = self.current as int;
        let mut e = match self.primary() {
            Result::Ok(e) => e,
            Result::Err(err) => {
                return Result::Err(err);
            },
        };
        loop
            invariant
                self.wf(),
                self.tokens == old(self).tokens,
                ts == old(self).ts(),
                i0 == old(self).current as int,
                i0 < self.current as int <= ts.len(),
                spec_call_tail(ts, self.current as int, crate::ast::expr_view(e)) == spec_call(
                    ts,
                    i0,
                ),
            ensures
                self.wf(),
                self.tokens == old(self).tokens,
                i0 < self.current as int <= ts.len(),
                spec_call_tail(ts, self.current as int, crate::ast::expr_view(e)) == spec_call(
                    ts,
                    i0,
                ),
                !(ts[self.current as int].tag == TokenType::LEFT_PAREN),
            decreases ts.len() - self.current,
        {
            if !self.check(TokenType::LEFT_PAREN) {
                proof {
                    if ts[self.current as int].tag == TokenType::LEFT_PAREN {
                        assert(false);
                    }
                }
                break ;
            }
            let _ = self.advance();
            if self.check(TokenType::RIGHT_PAREN) {
                let paren = self.advance();
                let prev = e;
                let noargs: Vec<Expression> = Vec::new();
                proof {
                    assert(exprs_view(noargs@) =~= Seq::<GExpr>::empty());
                }
                e = Expression::Call(Box::new(prev), paren, noargs);
            } else {
                let args = match self.arguments() {
                    Result::Ok(a) => a,
                    Result::Err(err) => {
                        return Result::Err(err);
                    },
                };
                let paren = match self.consume(TokenType::RIGHT_PAREN) {
                    Result::Ok(p) => p,
                    Result::Err(err) => {
                        return Result::Err(err);
                    },
                };
                let prev = e;
                e = Expression::Call(Box::new(prev), paren, args);
            }
        }
        Result::Ok(e)
    }

    /// A `unary`: `!` or `-` applied to a unary, or a call.
    fn unary(&mut self) -> (r: Result<Expression, SyntaxError>)
        requires
            old(self).wf(),
        ensures
            Self::expr_post(
                *old(self),
                *final(self),
                r,
                spec_unary(old(self).ts(), old(self).current as int),
            ),
        decreases old(self).ts().len() - old(self).current, 2int,
    {
        let tags = vec![TokenType::BANG, TokenType::MINUS];
        proof {
            assert(tags@[0] == TokenType::BANG && tags@[1] == TokenType::MINUS);
        }
        if self.expect(tags) {
            let op = self.previous();
            let right = match self.unary() {
                Result::Ok(e) => e,
                Result::Err(err) => {
                    return Result::Err(err);
                },
            };
            Result::Ok(Expression::Unary(op, Box::new(right)))
        } else {
            self.call()
        }
    }

    /// The next-tighter level under a binary level.
    fn level_down(&mut self, lvl: usize) -> (r: Result<Expression, SyntaxError>)
        requires
            old(self).wf(),
            3 <= lvl <= 8,
        ensures
            Self::expr_post(
                *old(self),
                *final(self),
                r,
                spec_level_down(lvl as int, old(self).ts(), old(self).current as int),
            ),
        decreases old(self).ts().len() - old(self).current, lvl, 0int,
    {
        if lvl == 3 {
            self.unary()
        } else {
            self.binary_level(lvl - 1)
        }
    }

    /// One left-associative binary level: parse the tighter operand, then
    /// fold while the level's operators continue.
    fn binary_level(&mut self, lvl: usize) -> (r: Result<Expression, SyntaxError>)
        requires
            old(self).wf(),
            3 <= lvl <= 8,
        ensures
            Self::expr_post(
                *old(self),
                *final(self),
                r,
                spec_level(lvl as int, old(self).ts(), old(self).current as int),
            ),
        decreases old(self).ts().len() - old(self).current, lvl, 2int,
    {
        let ghost ts = self.ts();
        let ghost i0 = self.current as int;
        let mut e = match self.level_down(lvl) {
            Result::Ok(e) => e,
            Result::Err(err) => {
                return Result::Err(err);
            },
        };
        loop
            invariant
                self.wf(),
                self.tokens == old(self).tokens,
                ts == old(self).ts(),
                i0 == old(self).current as int,
                3 <= lvl <= 8,
                i0 < self.current as int <= ts.len(),
                spec_level_tail(lvl as int, ts, self.current as int, crate::ast::expr_view(e))
                    == spec_level(lvl as int, ts, i0),
            ensures
                self.wf(),
                self.tokens == old(self).tokens,
                i0 < self.current as int <= ts.len(),
                spec_level_tail(lvl as int, ts, self.current as int, crate::ast::expr_view(e))
                    == spec_level(lvl as int, ts, i0),
                !level_op(lvl as int, ts[self.current as int].tag),
            decreases ts.len() - self.current,
        {
            let t = self.peek();
            if !level_op_ex(lvl, t.tag) {
                break ;
            }
            let op = self.advance();
            let right = match self.level_down(lvl) {
                Result::Ok(e2) => e2,
                Result::Err(err) => {
                    return Result::Err(err);
                },
            };
            let prev = e;
            e = if lvl >= 7 {
                Expression::Logical(Box::new(prev), op, Box::new(right))
            } else {
                Expression::Binary(Box::new(prev), op, Box::new(right))
            };
        }
        Result::Ok(e)
    }

    /// An `assignment`: right-associative `=` over a bare variable, or a
    /// logical-or-level expression.
    fn assignment(&mut self) -> (r: Result<Expression, SyntaxError>)
        requires
            old(self).wf(),
        ensures
            Self::expr_post(
                *old(self),
                *final(self),
                r,
                spec_assignment(old(self).ts(), old(self).current as int),
            ),
        decreases old(self).ts().len() - old(self).current, 9int,
    {
        let e = match self.binary_level(8) {
            Result::Ok(e) => e,
            Result::Err(err) => {
                return Result::Err(err);
            },
        };
        let tags = vec![TokenType::EQUAL];
        proof {
            assert(tags@[0] == TokenType::EQUAL);
        }
        if self.expect(tags) {
            let eqtok = self.previous();
            let value = match self.assignment() {
                Result::Ok(v) => v,
                Result::Err(err) => {
                    return Result::Err(err);
                },
            };
            match e {
                Expression::Var(name) => Result::Ok(
                    Expression::Assignment(name, Box::new(value)),
                ),
                _ => Result::Err(SyntaxError::InvalidAssignmentTarget { line: eqtok.line }),
            }
        } else {
            Result::Ok(e)
        }
    }

    /// The argument of a `print` statement, after the keyword.
    fn print(&mut self) -> (r: Result<Statement, SyntaxError>)
        requires
            old(self).wf(),
        ensures
            Self::stmt_post(
                *old(self),
                *final(self),
                r,
                spec_print_stmt(old(self).ts(), old(self).current as int),
            ),
        decreases old(self).ts().len() - old(self).current, 11int,
    {
        match self.expression() {
            Result::Ok(e) => Result::Ok(Statement::Print(e)),
            Result::Err(err) => Result::Err(err),
        }
    }

    /// A `var` declaration after the keyword: a name, `=`, an initializer.
    fn var(&mut self) -> (r: Result<Statement, SyntaxError>)
        requires
            old(self).wf(),
        ensures
            Self::stmt_post(
                *old(self),
                *final(self),
                r,
                spec_var_decl(old(self).ts(), old(self).current as int),
            ),
        decreases old(self).ts().len() - old(self).current, 11int,
    {
        let name = match self.consume(TokenType::IDENTIFIER) {
            Result::Ok(t) => t,
            Result::Err(err) => {
                return Result::Err(err);
            },
        };
        match self.consume(TokenType::EQUAL) {
            Result::Ok(_) => {},
            Result::Err(err) => {
                return Result::Err(err);
            },
        }
        match self.expression() {
            Result::Ok(e) => Result::Ok(Statement::Var(name, e)),
            Result::Err(err) => Result::Err(err),
        }
    }

    /// An expression standing as a statement.
    fn expression_statement(&mut self) -> (r: Result<Statement, SyntaxError>)
        requires
            old(self).wf(),
        ensures
            final(self).tokens == old(self).tokens,
            final(self).wf(),
            old(self).current <= final(self).current,
            ({
                let (sr, j) = spec_expression(old(self).ts(), old(self).current as int);
                &&& final(self).current as int == j
                &&& match (r, sr) {
                    (Result::Ok(st), Result::Ok(ge)) => crate::ast::stmt_view(st)
                        == GStmt::Expression(ge) && old(self).current < final(self).current,
                    (Result::Err(a), Result::Err(b)) => a == b,
                    _ => false,
                }
            }),
        decreases old(self).ts().len() - old(self).current, 11int,
    {
        match self.expression() {
            Result::Ok(e) => Result::Ok(Statement::Expression(e)),
            Result::Err(err) => Result::Err(err),
        }
    }

    /// The declarations of a block up to, and then past, its closing brace.
    fn block(&mut self) -> (r: Result<Vec<Statement>, SyntaxError>)
        requires
            old(self).wf(),
        ensures
            final(self).tokens == old(self).tokens,
            final(self).wf(),
            old(self).current <= final(self).current,
            ({
                let (sr, j) = spec_block(old(self).ts(), old(self).current as int);
                &&& final(self).current as int == j
                &&& match (r, sr) {
                    (Result::Ok(v), Result::Ok(gss)) => stmts_view(v@) == gss,
                    (Result::Err(a), Result::Err(b)) => a == b,
                    _ => false,
                }
            }),
        decreases old(self).ts().len() - old(self).current, 18int,
    {
        let ghost ts = self.ts();
        let ghost i0 = self.current as int;
        let mut v: Vec<Statement> = Vec::new();
        proof {
            assert(stmts_view(v@) =~= Seq::<GStmt>::empty());
        }
        loop
            invariant
                self.wf(),
                self.tokens == old(self).tokens,
                ts == old(self).ts(),
                i0 == old(self).current as int,
                i0 <= self.current as int <= ts.len(),
                match spec_block_items(ts, self.current as int) {
                    (Result::Ok(rest), k) => spec_block_items(ts, i0) == (
                        Result::<Seq<GStmt>, SyntaxError>::Ok(stmts_view(v@) + rest),
                        k,
                    ),
                    (Result::Err(e), k) => spec_block_items(ts, i0) == (
                        Result::<Seq<GStmt>, SyntaxError>::Err(e),
                        k,
                    ),
                },
            ensures
                self.wf(),
                self.tokens == old(self).tokens,
                i0 <= self.current as int <= ts.len(),
                spec_block_items(ts, i0) == (
                    Result::<Seq<GStmt>, SyntaxError>::Ok(stmts_view(v@)),
                    self.current as int,
                ),
                ts[self.current as int].tag == TokenType::RIGHT_BRACE || ts[self.current as int].tag
                    == TokenType::EOF,
            decreases ts.len() - self.current,
        {
            if self.check(TokenType::RIGHT_BRACE) {
                proof {
                    assert(stmts_view(v@) + Seq::<GStmt>::empty() =~= stmts_view(v@));
                }
                break ;
            }
            if self.is_at_end() {
                proof {
                    assert(stmts_view(v@) + Seq::<GStmt>::empty() =~= stmts_view(v@));
                }
                break ;
            }
            let s = match self.declaration() {
                Result::Ok(s) => s,
                Result::Err(err) => {
                    return Result::Err(err);
                },
            };
            let ghost oldv = v@;
            v.push(s);
            proof {
                assert(v@.subrange(0, v@.len() - 1) =~= oldv);
                assert(stmts_view(v@) == stmts_view(oldv).push(crate::ast::stmt_view(s)));
                match spec_block_items(ts, self.current as int) {
                    (Result::Ok(rest), k) => {
                        assert(stmts_view(v@) + rest =~= stmts_view(oldv) + (
                        seq![crate::ast::stmt_view(s)] + rest));
                    },
                    (Result::Err(_), _) => {},
                }
            }
        }
        match self.consume(TokenType::RIGHT_BRACE) {
            Result::Ok(_) => Result::Ok(v),
            Result::Err(err) => Result::Err(err),
        }
    }

    /// An `if` statement after the keyword: a parenthesized condition, a
    /// statement, and an optional `else` branch.
    fn if_statement(&mut self) -> (r: Result<Statement, SyntaxError>)
        requires
            old(self).wf(),
        ensures
            Self::stmt_post(
                *old(self),
                *final(self),
                r,
                spec_if_stmt(old(self).ts(), old(self).current as int),
            ),
        decreases old(self).ts().len() - old(self).current, 11int,
    {
        match self.consume(TokenType::LEFT_PAREN) {
            Result::Ok(_) => {},
            Result::Err(err) => {
                return Result::Err(err);
            },
        }
        let cond = match self.expression() {
            Result::Ok(e) => e,
            Result::Err(err) => {
                return Result::Err(err);
            },
        };
        match self.consume(TokenType::RIGHT_PAREN) {
            Result::Ok(_) => {},
            Result::Err(err) => {
                return Result::Err(err);
            },
        }
        let then_s = match self.statement() {
            Result::Ok(s) => s,
            Result::Err(err) => {
                return Result::Err(err);
            },
        };
        let tags = vec![TokenType::ELSE];
        proof {
            assert(tags@[0] == TokenType::ELSE);
        }
        if self.expect(tags) {
            let else_s = match self.statement() {
                Result::Ok(s) => s,
                Result::Err(err) => {
                    return Result::Err(err);
                },
            };
            Result::Ok(
                Statement::If(cond, Box::new(then_s), Option::Some(Box::new(else_s))),
            )
        } else {
            Result::Ok(Statement::If(cond, Box::new(then_s), Option::None))
        }
    }

    /// A function declaration after the keyword: a name, parameters in
    /// parentheses, and a braced body.
    fn function(&mut self) -> (r: Result<Statement, SyntaxError>)
        requires
            old(self).wf(),
        ensures
            Self::stmt_post(
                *old(self),
                *final(self),
                r,
                spec_fun_stmt(old(self).ts(), old(self).current as int),
            ),
        decreases old(self).ts().len() - old(self).current, 18int,
    {
        let name = match self.consume(TokenType::IDENTIFIER) {
            Result::Ok(t) => t,
            Result::Err(err) => {
                return Result::Err(err);
            },
        };
        match self.consume(TokenType::LEFT_PAREN) {
            Result::Ok(_) => {},
            Result::Err(err) => {
                return Result::Err(err);
            },
        }
        let params: Vec<Token> = if self.check(TokenType::RIGHT_PAREN) {
            let empty: Vec<Token> = Vec::new();
            proof {
                assert(toks_view(empty@) =~= Seq::<TokenView>::empty());
            }
            empty
        } else {
            match self.params_list() {
                Result::Ok(ps) => ps,
                Result::Err(err) => {
                    return Result::Err(err);
                },
            }
        };
        match self.consume(TokenType::RIGHT_PAREN) {
            Result::Ok(_) => {},
            Result::Err(err) => {
                return Result::Err(err);
            },
        }
        match self.consume(TokenType::LEFT_BRACE) {
            Result::Ok(_) => {},
            Result::Err(err) => {
                return Result::Err(err);
            },
        }
        let body = match self.block() {
            Result::Ok(b) => b,
            Result::Err(err) => {
                return Result::Err(err);
            },
        };
        Result::Ok(Statement::Function(name, params, body))
    }

    /// One or more parameters, comma-separated.
    fn params_list(&mut self) -> (r: Result<Vec<Token>, SyntaxError>)
        requires
            old(self).wf(),
        ensures
            final(self).tokens == old(self).tokens,
            final(self).wf(),
            old(self).current <= final(self).current,
            ({
                let (sr, j) = spec_params(old(self).ts(), old(self).current as int);
                &&& final(self).current as int == j
                &&& match (r, sr) {
                    (Result::Ok(v), Result::Ok(tvs)) => toks_view(v@) == tvs,
                    (Result::Err(a), Result::Err(b)) => a == b,
                    _ => false,
                }
            }),
        decreases old(self).ts().len() - old(self).current, 1int,
    {
        let ghost ts = self.ts();
        let ghost i0 = self.current as int;
        let first = match self.consume(TokenType::IDENTIFIER) {
            Result::Ok(t) => t,
            Result::Err(err) => {
                return Result::Err(err);
            },
        };
        let mut v: Vec<Token> = Vec::new();
        v.push(first);
        proof {
            reveal_with_fuel(toks_view, 3);
            assert(v@.subrange(0, 0) =~= Seq::<Token>::empty());
            assert(toks_view(v@) =~= seq![first@]);
        }
        loop
            invariant
                self.wf(),
                self.tokens == old(self).tokens,
                ts == old(self).ts(),
                i0 == old(self).current as int,
                i0 < self.current as int <= ts.len(),
                spec_params_tail(ts, self.current as int, toks_view(v@)) == spec_params(ts, i0),
            ensures
                self.wf(),
                self.tokens == old(self).tokens,
                i0 < self.current as int <= ts.len(),
                spec_params_tail(ts, self.current as int, toks_view(v@)) == spec_params(ts, i0),
                !(ts[self.current as int].tag == TokenType::COMMA),
            decreases ts.len() - self.current,
        {
            if !self.check(TokenType::COMMA) {
                proof {
                    if ts[self.current as int].tag == TokenType::COMMA {
                        assert(false);
                    }
                }
                break ;
            }
            let _ = self.advance();
            let nxt = match self.consume(TokenType::IDENTIFIER) {
                Result::Ok(t) => t,
                Result::Err(err) => {
                    return Result::Err(err);
                },
            };
            let ghost oldv = v@;
            v.push(nxt);
            proof {
                assert(v@.subrange(0, v@.len() - 1) =~= oldv);
                assert(toks_view(v@) == toks_view(oldv).push(nxt@));
            }
        }
        Result::Ok(v)
    }

    /// A `statement` of any kind.
    fn statement(&mut self) -> (r: Result<Statement, SyntaxError>)
        requires
            old(self).wf(),
        ensures
            Self::stmt_post(
                *old(self),
                *final(self),
                r,
                spec_statement(old(self).ts(), old(self).current as int),
            ),
        decreases old(self).ts().len() - old(self).current, 15int,
    {
        let tags_print = vec![TokenType::PRINT];
        proof {
            assert(tags_print@[0] == TokenType::PRINT);
        }
        if self.expect(tags_print) {
            return self.print();
        }
        let tags_brace = vec![TokenType::LEFT_BRACE];
        proof {
            assert(tags_brace@[0] == TokenType::LEFT_BRACE);
        }
        if self.expect(tags_brace) {
            return match self.block() {
                Result::Ok(v) => Result::Ok(Statement::Block(v)),
                Result::Err(err) => Result::Err(err),
            };
        }
        let tags_if = vec![TokenType::IF];
        proof {
            assert(tags_if@[0] == TokenType::IF);
        }
        if self.expect(tags_if) {
            return self.if_statement();
        }
        let tags_fun = vec![TokenType::FUN];
        proof {
            assert(tags_fun@[0] == TokenType::FUN);
        }
        if self.expect(tags_fun) {
            return self.function();
        }
        self.expression_statement()
    }

    /// A `declaration`: a `var` declaration or a statement.
    fn declaration(&mut self) -> (r: Result<Statement, SyntaxError>)
        requires
            old(self).wf(),
        ensures
            Self::stmt_post(
                *old(self),
                *final(self),
                r,
                spec_declaration(old(self).ts(), old(self).current as int),
            ),
        decreases old(self).ts().len() - old(self).current, 16int,
    {
        let tags_var = vec![TokenType::VAR];
        proof {
            assert(tags_var@[0] == TokenType::VAR);
        }
        if self.expect(tags_var) {
            self.var()
        } else {
            self.statement()
        }
    }

    /// Parses the whole program: declarations up to the end-of-input token.
    /// The tree is exactly the one the grammar functions describe, so parsing
    /// the same tokens always builds the same tree.
    pub fn parse(&mut self) -> (r: Result<Vec<Statement>, SyntaxError>)
        requires
            old(self).wf(),
        ensures
            final(self).tokens == old(self).tokens,
            final(self).wf(),
            ({
                let (sr, j) = spec_program(old(self).ts(), old(self).current as int);
                &&& final(self).current as int == j
                &&& match (r, sr) {
                    (Result::Ok(v), Result::Ok(gss)) => stmts_view(v@) == gss,
                    (Result::Err(a), Result::Err(b)) => a == b,
                    _ => false,
                }
            }),
    {
        let ghost ts = self.ts();
        let ghost i0 = self.current as int;
        let mut v: Vec<Statement> = Vec::new();
        proof {
            assert(stmts_view(v@) =~= Seq::<GStmt>::empty());
        }
        loop
            invariant
                self.wf(),
                self.tokens == old(self).tokens,
                ts == old(self).ts(),
                i0 == old(self).current as int,
                i0 <= self.current as int <= ts.len(),
                match spec_program(ts, self.current as int) {
                    (Result::Ok(rest), k) => spec_program(ts, i0) == (
                        Result::<Seq<GStmt>, SyntaxError>::Ok(stmts_view(v@) + rest),
                        k,
                    ),
                    (Result::Err(e), k) => spec_program(ts, i0) == (
                        Result::<Seq<GStmt>, SyntaxError>::Err(e),
                        k,
                    ),
                },
            ensures
                self.wf(),
                self.tokens == old(self).tokens,
                spec_program(ts, i0) == (
                    Result::<Seq<GStmt>, SyntaxError>::Ok(stmts_view(v@)),
                    self.current as int,
                ),
            decreases ts.len() - self.current,
        {
            if self.is_at_end() {
                proof {
                    assert(stmts_view(v@) + Seq::<GStmt>::empty() =~= stmts_view(v@));
                }
                break ;
            }
            let s = match self.declaration() {
                Result::Ok(s) => s,
                Result::Err(err) => {
                    return Result::Err(err);
                },
            };
            let ghost oldv = v@;
            v.push(s);
            proof {
                assert(v@.subrange(0, v@.len() - 1) =~= oldv);
                assert(stmts_view(v@) == stmts_view(oldv).push(crate::ast::stmt_view(s)));
                match spec_program(ts, self.current as int) {
                    (Result::Ok(rest), k) => {
                        assert(stmts_view(v@) + rest =~= stmts_view(oldv) + (
                        seq![crate::ast::stmt_view(s)] + rest));
                    },
                    (Result::Err(_), _) => {},
                }
            }
        }
        Result::Ok(v)
    }

    /// An `expression` is an assignment.
    pub fn expression(&mut self) -> (r: Result<Expression, SyntaxError>)
        requires
            old(self).wf(),
        ensures
            Self::expr_post(
                *old(self),
                *final(self),
                r,
                spec_expression(old(self).ts(), old(self).current as int),
            ),
        decreases old(self).ts().len() - old(self).current, 10int,
    {
        self.assignment()
    }
}

/// The operators of one binary level, decided in executable code.
fn level_op_ex(lvl: usize, tag: TokenType) -> (b: bool)
    ensures
        b == level_op(lvl as int, tag),
{
    if lvl == 3 {
        tag == TokenType::SLASH || tag == TokenType::STAR
    } else if lvl == 4 {
        tag == TokenType::MINUS || tag == TokenType::PLUS
    } else if lvl == 5 {
        tag == TokenType::GREATER || tag == TokenType::GREATER_EQUAL || tag == TokenType::LESS
            || tag == TokenType::LESS_EQUAL
    } else if lvl == 6 {
        tag == TokenType::BANG_EQUAL || tag == TokenType::EQUAL_EQUAL
    } else if lvl == 7 {
        tag == TokenType::AND
    } else if lvl == 8 {
        tag == TokenType::OR
    } else {
        false
    }
}

} // verus!
