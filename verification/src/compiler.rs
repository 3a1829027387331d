//! The evaluator: walks statements and expressions against the scope arena,
//! producing values and print output. Its meaning is the big-step family
//! `eval_expr` / `eval_stmt` below, with an explicit remaining call depth, so
//! every run provably terminates or stops with a depth error; the executable
//! `Compiler` is proved to produce exactly that outcome.

use vstd::prelude::*;
use crate::ast::{Expression, GExpr, GStmt, ObjectView, Statement, TokenView, stmts_view};
use crate::environment::{Environment, EnvironmentView, ScopeView, lookup, obj_wf, resolve};
use crate::errors::RuntimeError;
use crate::token::{Object, Token, TokenType};

verus! {

/// The most nested function calls a run may have under way at once.
pub const MAX_CALL_DEPTH: usize = 256;

/// The mathematical shadow of the evaluator's state: the arena, the index of
/// the scope execution stands in, and the texts printed so far.
pub struct StateView {
    pub env: EnvironmentView,
    pub current: int,
    pub out: Seq<Seq<char>>,
}

/// A state makes sense when its arena does and its current scope exists.
pub open spec fn state_wf(st: StateView) -> bool {
    &&& crate::environment::env_wf(st.env)
    &&& 0 <= st.current < st.env.scopes.len()
}

/// A value clamped into the number type's range.
pub open spec fn clamp_i64(v: int) -> i64 {
    if v > i64::MAX as int {
        i64::MAX
    } else if v < i64::MIN as int {
        i64::MIN
    } else {
        v as i64
    }
}

/// Saturating addition of two numbers.
pub open spec fn sat_add(a: i64, b: i64) -> i64 {
    clamp_i64(a as int + b as int)
}

/// Saturating subtraction of two numbers.
pub open spec fn sat_sub(a: i64, b: i64) -> i64 {
    clamp_i64(a as int - b as int)
}

/// Saturating multiplication of two numbers.
pub open spec fn sat_mul(a: i64, b: i64) -> i64 {
    clamp_i64(a as int * b as int)
}

/// Saturating negation of a number.
pub open spec fn sat_neg(a: i64) -> i64 {
    clamp_i64(-(a as int))
}

/// A magnitude.
pub open spec fn spec_abs(a: int) -> int {
    if a < 0 {
        -a
    } else {
        a
    }
}

/// Division, truncating toward zero and saturating at the range ends;
/// division by zero saturates to the dividend's sign (zero over zero is
/// zero), standing in for the infinities of a fractional number type.
pub open spec fn trunc_div(a: i64, b: i64) -> i64 {
    if b == 0 {
        if a > 0 {
            i64::MAX
        } else if a < 0 {
            i64::MIN
        } else {
            0
        }
    } else {
        let q = spec_abs(a as int) / spec_abs(b as int);
        if (a < 0) != (b < 0) {
            clamp_i64(-q)
        } else {
            clamp_i64(q)
        }
    }
}

/// Structural equality over the value union, covering text, numbers,
/// booleans and nil; comparing a function value is not defined.
pub open spec fn values_equal(a: ObjectView, b: ObjectView) -> Option<bool> {
    match (a, b) {
        (ObjectView::Function(_, _, _), _) => Option::None,
        (_, ObjectView::Function(_, _, _)) => Option::None,
        (ObjectView::String(x), ObjectView::String(y)) => Option::Some(x == y),
        (ObjectView::Digit(x), ObjectView::Digit(y)) => Option::Some(x == y),
        (ObjectView::Bool(x), ObjectView::Bool(y)) => Option::Some(x == y),
        (ObjectView::Nil, ObjectView::Nil) => Option::Some(true),
        _ => Option::Some(false),
    }
}

/// What one binary operator yields on two evaluated operands. Arithmetic and
/// ordering demand two numbers; equality covers the union except functions.
pub open spec fn eval_binop(tag: TokenType, line: usize, l: ObjectView, r: ObjectView) -> Result<
    ObjectView,
    RuntimeError,
> {
    if tag == TokenType::EQUAL_EQUAL || tag == TokenType::BANG_EQUAL {
        match values_equal(l, r) {
            Option::Some(b) => Result::Ok(
                ObjectView::Bool(
                    if tag == TokenType::EQUAL_EQUAL {
                        b
                    } else {
                        !b
                    },
                ),
            ),
            Option::None => Result::Err(RuntimeError::TypeMismatch { line }),
        }
    } else {
        match (l, r) {
            (ObjectView::Digit(x), ObjectView::Digit(y)) => {
                if tag == TokenType::PLUS {
                    Result::Ok(ObjectView::Digit(sat_add(x, y)))
                } else if tag == TokenType::MINUS {
                    Result::Ok(ObjectView::Digit(sat_sub(x, y)))
                } else if tag == TokenType::STAR {
                    Result::Ok(ObjectView::Digit(sat_mul(x, y)))
                } else if tag == TokenType::SLASH {
                    Result::Ok(ObjectView::Digit(trunc_div(x, y)))
                } else if tag == TokenType::GREATER {
                    Result::Ok(ObjectView::Bool(x > y))
                } else if tag == TokenType::GREATER_EQUAL {
                    Result::Ok(ObjectView::Bool(x >= y))
                } else if tag == TokenType::LESS {
                    Result::Ok(ObjectView::Bool(x < y))
                } else if tag == TokenType::LESS_EQUAL {
                    Result::Ok(ObjectView::Bool(x <= y))
                } else {
                    Result::Err(RuntimeError::TypeMismatch { line })
                }
            },
            _ => Result::Err(RuntimeError::TypeMismatch { line }),
        }
    }
}

/// The digit character of one decimal digit.
pub open spec fn digit_char(d: int) -> char {
    if d == 0 {
        '0'
    } else if d == 1 {
        '1'
    } else if d == 2 {
        '2'
    } else if d == 3 {
        '3'
    } else if d == 4 {
        '4'
    } else if d == 5 {
        '5'
    } else if d == 6 {
        '6'
    } else if d == 7 {
        '7'
    } else if d == 8 {
        '8'
    } else {
        '9'
    }
}

/// The decimal digits of a nonnegative value, most significant first.
pub open spec fn nat_digits(v: int) -> Seq<char>
    recommends
        v >= 0,
    decreases v,
{
    if v < 10 {
        seq![digit_char(v)]
    } else {
        nat_digits(v / 10).push(digit_char(v % 10))
    }
}

/// The canonical decimal form of a number.
pub open spec fn decimal_of(n: i64) -> Seq<char> {
    if n < 0 {
        seq!['-'] + nat_digits(-(n as int))
    } else {
        nat_digits(n as int)
    }
}

/// The textual rendering of a value: text as its contents, a number in
/// decimal, a boolean as `true` or `false`, nil as `nil`, and a function
/// value as `fun`.
pub open spec fn render_val(v: ObjectView) -> Seq<char> {
    match v {
        ObjectView::String(s) => s,
        ObjectView::Digit(n) => decimal_of(n),
        ObjectView::Bool(b) => if b {
            seq!['t', 'r', 'u', 'e']
        } else {
            seq!['f', 'a', 'l', 's', 'e']
        },
        ObjectView::Nil => seq!['n', 'i', 'l'],
        ObjectView::Function(_, _, _) => seq!['f', 'u', 'n'],
    }
}

/// The bindings of a fresh call scope: parameters bound positionally, a
/// later duplicate name overwriting an earlier one.
pub open spec fn bind_params(params: Seq<Seq<char>>, vals: Seq<ObjectView>) -> Map<
    Seq<char>,
    ObjectView,
>
    recommends
        params.len() == vals.len(),
    decreases params,
{
    if params.len() == 0 || vals.len() == 0 {
        Map::empty()
    } else {
        bind_params(params.subrange(0, params.len() - 1), vals.subrange(0, vals.len() - 1)).insert(
            params[params.len() - 1],
            vals[vals.len() - 1],
        )
    }
}

/// Defining a name in one scope of the arena.
pub open spec fn define_in(env: EnvironmentView, s: int, name: Seq<char>, v: ObjectView)
    -> EnvironmentView
    recommends
        0 <= s < env.scopes.len(),
{
    EnvironmentView {
        scopes: env.scopes.update(
            s,
            ScopeView { bindings: env.scopes[s].bindings.insert(name, v), parent: env.scopes[s].parent },
        ),
    }
}

/// One evaluated expression: its value and the state it leaves behind, or
/// the first error, fail-fast.
pub open spec fn eval_expr(fuel: nat, e: GExpr, st: StateView) -> (Result<
    ObjectView,
    RuntimeError,
>, StateView)
    decreases fuel, e, 0int,
{
    match e {
        GExpr::Literal(o) => match o {
            // A function value cannot be written as a literal.
            ObjectView::Function(_, _, _) => (
                Result::Err(RuntimeError::TypeMismatch { line: 0 }),
                st,
            ),
            _ => (Result::Ok(o), st),
        },
        GExpr::Grouping(sub) => eval_expr(fuel, *sub, st),
        GExpr::Var(t) => {
            match lookup(st.env, st.current, t.lexeme) {
                Option::Some(v) => (Result::Ok(v), st),
                Option::None => (
                    Result::Err(RuntimeError::UndefinedVariable { line: t.line as usize }),
                    st,
                ),
            }
        },
        GExpr::Assignment(t, sub) => {
            let (rv, st1) = eval_expr(fuel, *sub, st);
            match rv {
                Result::Ok(v) => {
                    match resolve(st1.env, st1.current, t.lexeme) {
                        Option::Some(tgt) => (
                            Result::Ok(v),
                            StateView { env: define_in(st1.env, tgt, t.lexeme, v), ..st1 },
                        ),
                        Option::None => (
                            Result::Err(
                                RuntimeError::UndefinedVariable { line: t.line as usize },
                            ),
                            st1,
                        ),
                    }
                },
                Result::Err(err) => (Result::Err(err), st1),
            }
        },
        GExpr::Unary(t, sub) => {
            let (rv, st1) = eval_expr(fuel, *sub, st);
            match rv {
                Result::Ok(v) => {
                    if t.tag == TokenType::MINUS {
                        match v {
                            ObjectView::Digit(n) => (
                                Result::Ok(ObjectView::Digit(sat_neg(n))),
                                st1,
                            ),
                            _ => (
                                Result::Err(
                                    RuntimeError::TypeMismatch { line: t.line as usize },
                                ),
                                st1,
                            ),
                        }
                    } else {
                        match v {
                            ObjectView::Bool(b) => (Result::Ok(ObjectView::Bool(!b)), st1),
                            _ => (
                                Result::Err(
                                    RuntimeError::TypeMismatch { line: t.line as usize },
                                ),
                                st1,
                            ),
                        }
                    }
                },
                Result::Err(err) => (Result::Err(err), st1),
            }
        },
        GExpr::Binary(l, t, r) => {
            let (rl, st1) = eval_expr(fuel, *l, st);
            match rl {
                Result::Ok(lv) => {
                    let (rr, st2) = eval_expr(fuel, *r, st1);
                    match rr {
                        Result::Ok(rv) => (eval_binop(t.tag, t.line as usize, lv, rv), st2),
                        Result::Err(err) => (Result::Err(err), st2),
                    }
                },
                Result::Err(err) => (Result::Err(err), st1),
            }
        },
        GExpr::Logical(l, t, r) => {
            let (rl, st1) = eval_expr(fuel, *l, st);
            match rl {
                Result::Ok(lv) => {
                    match lv {
                        ObjectView::Bool(b) => {
                            if t.tag == TokenType::OR && b {
                                (Result::Ok(ObjectView::Bool(true)), st1)
                            } else if t.tag != TokenType::OR && !b {
                                (Result::Ok(ObjectView::Bool(false)), st1)
                            } else {
                                let (rr, st2) = eval_expr(fuel, *r, st1);
                                match rr {
                                    Result::Ok(rv) => match rv {
                                        ObjectView::Bool(b2) => (
                                            Result::Ok(ObjectView::Bool(b2)),
                                            st2,
                                        ),
                                        _ => (
                                            Result::Err(
                                                RuntimeError::TypeMismatch {
                                                    line: t.line as usize,
                                                },
                                            ),
                                            st2,
                                        ),
                                    },
                                    Result::Err(err) => (Result::Err(err), st2),
                                }
                            }
                        },
                        _ => (
                            Result::Err(RuntimeError::TypeMismatch { line: t.line as usize }),
                            st1,
                        ),
                    }
                },
                Result::Err(err) => (Result::Err(err), st1),
            }
        },
        GExpr::Call(callee, paren, args) => {
            let (rc, st1) = eval_expr(fuel, *callee, st);
            match rc {
                Result::Ok(cv) => eval_call(fuel, cv, paren, args, st1),
                Result::Err(err) => (Result::Err(err), st1),
            }
        },
    }
}

/// A call, once the callee is evaluated: the callee must be a function
/// value; the arguments are evaluated left to right in the caller's state;
/// the arity must match; one unit of call depth is spent; parameters are
/// bound positionally in a fresh scope whose parent is the scope the
/// function captured at its declaration, not the caller's; and the body runs
/// there. A completed call yields nil, and execution returns to the caller's
/// scope.
pub open spec fn eval_call(
    fuel: nat,
    cv: ObjectView,
    paren: TokenView,
    args: Seq<GExpr>,
    st: StateView,
) -> (Result<ObjectView, RuntimeError>, StateView)
    decreases fuel, args, 2int,
{
    match cv {
        ObjectView::Function(params, body, cenv) => {
            let (ra, st2) = eval_exprs(fuel, args, st);
            match ra {
                Result::Ok(vals) => {
                    if params.len() != vals.len() {
                        (
                            Result::Err(
                                RuntimeError::ArityMismatch {
                                    expected: params.len() as usize,
                                    got: vals.len() as usize,
                                    line: paren.line as usize,
                                },
                            ),
                            st2,
                        )
                    } else if fuel == 0 {
                        (
                            Result::Err(
                                RuntimeError::StackOverflow { line: paren.line as usize },
                            ),
                            st2,
                        )
                    } else {
                        let ns = st2.env.scopes.len() as int;
                        let env2 = EnvironmentView {
                            scopes: st2.env.scopes.push(
                                ScopeView {
                                    bindings: bind_params(params, vals),
                                    parent: Option::Some(cenv),
                                },
                            ),
                        };
                        let st3 = StateView { env: env2, current: ns, out: st2.out };
                        let (rb, st4) = eval_stmts((fuel - 1) as nat, body, st3);
                        match rb {
                            Result::Ok(_) => (
                                Result::Ok(ObjectView::Nil),
                                StateView { current: st2.current, ..st4 },
                            ),
                            Result::Err(err) => (Result::Err(err), st4),
                        }
                    }
                },
                Result::Err(err) => (Result::Err(err), st2),
            }
        },
        _ => (Result::Err(RuntimeError::NotCallable { line: paren.line as usize }), st),
    }
}

/// Call arguments evaluated left to right in the caller's state.
pub open spec fn eval_exprs(fuel: nat, es: Seq<GExpr>, st: StateView) -> (Result<
    Seq<ObjectView>,
    RuntimeError,
>, StateView)
    decreases fuel, es, 1int,
{
    if es.len() == 0 {
        (Result::Ok(Seq::empty()), st)
    } else {
        let (r0, st1) = eval_expr(fuel, es[0], st);
        match r0 {
            Result::Ok(v) => {
                let (rr, st2) = eval_exprs(fuel, es.subrange(1, es.len() as int), st1);
                match rr {
                    Result::Ok(vs) => (Result::Ok(seq![v] + vs), st2),
                    Result::Err(err) => (Result::Err(err), st2),
                }
            },
            Result::Err(err) => (Result::Err(err), st1),
        }
    }
}

/// One executed statement: the state it leaves behind, or the first error.
pub open spec fn eval_stmt(fuel: nat, s: GStmt, st: StateView) -> (Result<(), RuntimeError>, StateView)
    decreases fuel, s, 0int,
{
    match s {
        GStmt::Expression(e) => {
            let (r, st1) = eval_expr(fuel, e, st);
            match r {
                Result::Ok(_) => (Result::Ok(()), st1),
                Result::Err(err) => (Result::Err(err), st1),
            }
        },
        GStmt::Print(e) => {
            let (r, st1) = eval_expr(fuel, e, st);
            match r {
                Result::Ok(v) => (
                    Result::Ok(()),
                    StateView { out: st1.out.push(render_val(v)), ..st1 },
                ),
                Result::Err(err) => (Result::Err(err), st1),
            }
        },
        GStmt::Var(t, e) => {
            let (r, st1) = eval_expr(fuel, e, st);
            match r {
                Result::Ok(v) => (
                    Result::Ok(()),
                    StateView { env: define_in(st1.env, st1.current, t.lexeme, v), ..st1 },
                ),
                Result::Err(err) => (Result::Err(err), st1),
            }
        },
        GStmt::Block(body) => {
            let ns = st.env.scopes.len() as int;
            let env2 = EnvironmentView {
                scopes: st.env.scopes.push(
                    ScopeView { bindings: Map::empty(), parent: Option::Some(st.current) },
                ),
            };
            let st2 = StateView { env: env2, current: ns, out: st.out };
            let (rb, st3) = eval_stmts(fuel, body, st2);
            match rb {
                Result::Ok(_) => (Result::Ok(()), StateView { current: st.current, ..st3 }),
                Result::Err(err) => (Result::Err(err), st3),
            }
        },
        GStmt::If(c, th, el) => {
            let (r, st1) = eval_expr(fuel, c, st);
            match r {
                Result::Ok(v) => {
                    match v {
                        ObjectView::Bool(true) => eval_stmt(fuel, *th, st1),
                        ObjectView::Bool(false) => match el {
                            Option::Some(es) => eval_stmt(fuel, *es, st1),
                            Option::None => (Result::Ok(()), st1),
                        },
                        _ => (Result::Err(RuntimeError::TypeMismatch { line: 0 }), st1),
                    }
                },
                Result::Err(err) => (Result::Err(err), st1),
            }
        },
        GStmt::Function(name, params, body) => {
            let v = ObjectView::Function(
                params.map_values(|t: TokenView| t.lexeme),
                body,
                st.current,
            );
            (
                Result::Ok(()),
                StateView { env: define_in(st.env, st.current, name.lexeme, v), ..st },
            )
        },
    }
}

/// Statements executed in order, fail-fast.
pub open spec fn eval_stmts(fuel: nat, ss: Seq<GStmt>, st: StateView) -> (Result<
    (),
    RuntimeError,
>, StateView)
    decreases fuel, ss, 1int,
{
    if ss.len() == 0 {
        (Result::Ok(()), st)
    } else {
        let (r0, st1) = eval_stmt(fuel, ss[0], st);
        match r0 {
            Result::Ok(_) => eval_stmts(fuel, ss.subrange(1, ss.len() as int), st1),
            Result::Err(err) => (Result::Err(err), st1),
        }
    }
}

/// Saturating addition, in executable code.
fn sat_add_ex(a: i64, b: i64) -> (c: i64)
    ensures
        c == sat_add(a, b),
{
    let s: i128 = (a as i128) + (b as i128);
    if s > (i64::MAX as i128) {
        i64::MAX
    } else if s < (i64::MIN as i128) {
        i64::MIN
    } else {
        s as i64
    }
}

/// Saturating subtraction, in executable code.
fn sat_sub_ex(a: i64, b: i64) -> (c: i64)
    ensures
        c == sat_sub(a, b),
{
    let s: i128 = (a as i128) - (b as i128);
    if s > (i64::MAX as i128) {
        i64::MAX
    } else if s < (i64::MIN as i128) {
        i64::MIN
    } else {
        s as i64
    }
}

/// Saturating multiplication, in executable code.
fn sat_mul_ex(a: i64, b: i64) -> (c: i64)
    ensures
        c == sat_mul(a, b),
{
    proof {
        let x = a as int;
        let y = b as int;
        assert(x * y <= i128::MAX as int && i128::MIN as int <= x * y) by (nonlinear_arith)
            requires
                -0x8000_0000_0000_0000 <= x <= 0x7fff_ffff_ffff_ffff,
                -0x8000_0000_0000_0000 <= y <= 0x7fff_ffff_ffff_ffff,
        ;
    }
    let s: i128 = (a as i128) * (b as i128);
    if s > (i64::MAX as i128) {
        i64::MAX
    } else if s < (i64::MIN as i128) {
        i64::MIN
    } else {
        s as i64
    }
}

/// Saturating negation, in executable code.
fn sat_neg_ex(a: i64) -> (c: i64)
    ensures
        c == sat_neg(a),
{
    let s: i128 = -(a as i128);
    if s > (i64::MAX as i128) {
        i64::MAX
    } else {
        s as i64
    }
}

/// The magnitude of a number, in a type wide enough for the least one.
fn abs_u64(a: i64) -> (m: u64)
    ensures
        m as int == spec_abs(a as int),
{
    if a < 0 {
        (-(a as i128)) as u64
    } else {
        a as u64
    }
}

/// Truncating, saturating division, in executable code.
fn trunc_div_ex(a: i64, b: i64) -> (c: i64)
    ensures
        c == trunc_div(a, b),
{
    if b == 0 {
        if a > 0 {
            i64::MAX
        } else if a < 0 {
            i64::MIN
        } else {
            0
        }
    } else {
        let ma = abs_u64(a);
        let mb = abs_u64(b);
        let q: u64 = ma / mb;
        if (a < 0) != (b < 0) {
            proof {
                assert(q as int <= ma as int) by {
                    vstd::arithmetic::div_mod::lemma_div_is_ordered_by_denominator(
                        ma as int,
                        1,
                        mb as int,
                    );
                }
            }
            (-(q as i128)) as i64
        } else {
            if q > (i64::MAX as u64) {
                i64::MAX
            } else {
                q as i64
            }
        }
    }
}

/// Structural equality of two values, in executable code.
fn values_equal_ex(a: &Object, b: &Object) -> (r: Option<bool>)
    ensures
        r == values_equal(a@, b@),
{
    match (a, b) {
        (Object::Function(_, _, _), _) => Option::None,
        (_, Object::Function(_, _, _)) => Option::None,
        (Object::String(x), Object::String(y)) => Option::Some(crate::token::chars_eq(x, y)),
        (Object::Digit(x), Object::Digit(y)) => Option::Some(*x == *y),
        (Object::Bool(x), Object::Bool(y)) => Option::Some(*x == *y),
        (Object::Nil, Object::Nil) => Option::Some(true),
        _ => Option::Some(false),
    }
}

/// One binary operator applied to two evaluated operands, in executable
/// code.
fn eval_binop_ex(tag: TokenType, line: usize, l: &Object, r: &Object) -> (res: Result<
    Object,
    RuntimeError,
>)
    ensures
        match (res, eval_binop(tag, line, l@, r@)) {
            (Result::Ok(o), Result::Ok(v)) => o@ == v,
            (Result::Err(a), Result::Err(b)) => a == b,
            _ => false,
        },
{
    if tag == TokenType::EQUAL_EQUAL || tag == TokenType::BANG_EQUAL {
        match values_equal_ex(l, r) {
            Option::Some(b) => Result::Ok(
                Object::Bool(
                    if tag == TokenType::EQUAL_EQUAL {
                        b
                    } else {
                        !b
                    },
                ),
            ),
            Option::None => Result::Err(RuntimeError::TypeMismatch { line }),
        }
    } else {
        match (l, r) {
            (Object::Digit(x), Object::Digit(y)) => {
                if tag == TokenType::PLUS {
                    Result::Ok(Object::Digit(sat_add_ex(*x, *y)))
                } else if tag == TokenType::MINUS {
                    Result::Ok(Object::Digit(sat_sub_ex(*x, *y)))
                } else if tag == TokenType::STAR {
                    Result::Ok(Object::Digit(sat_mul_ex(*x, *y)))
                } else if tag == TokenType::SLASH {
                    Result::Ok(Object::Digit(trunc_div_ex(*x, *y)))
                } else if tag == TokenType::GREATER {
                    Result::Ok(Object::Bool(*x > *y))
                } else if tag == TokenType::GREATER_EQUAL {
                    Result::Ok(Object::Bool(*x >= *y))
                } else if tag == TokenType::LESS {
                    Result::Ok(Object::Bool(*x < *y))
                } else if tag == TokenType::LESS_EQUAL {
                    Result::Ok(Object::Bool(*x <= *y))
                } else {
                    Result::Err(RuntimeError::TypeMismatch { line })
                }
            },
            _ => Result::Err(RuntimeError::TypeMismatch { line }),
        }
    }
}

/// The digit character of one decimal digit, in executable code.
fn digit_char_ex(d: u64) -> (c: char)
    requires
        d < 10,
    ensures
        c == digit_char(d as int),
{
    if d == 0 {
        '0'
    } else if d == 1 {
        '1'
    } else if d == 2 {
        '2'
    } else if d == 3 {
        '3'
    } else if d == 4 {
        '4'
    } else if d == 5 {
        '5'
    } else if d == 6 {
        '6'
    } else if d == 7 {
        '7'
    } else if d == 8 {
        '8'
    } else {
        '9'
    }
}

/// The decimal digits of a nonnegative value, in executable code.
fn nat_digits_ex(v: u64) -> (r: Vec<char>)
    ensures
        r@ == nat_digits(v as int),
    decreases v,
{
    if v < 10 {
        let mut r: Vec<char> = Vec::new();
        r.push(digit_char_ex(v));
        proof {
            assert(r@ =~= seq![digit_char(v as int)]);
        }
        r
    } else {
        let mut r = nat_digits_ex(v / 10);
        r.push(digit_char_ex(v % 10));
        r
    }
}

/// The canonical decimal form of a number, in executable code.
fn decimal_of_ex(n: i64) -> (r: Vec<char>)
    ensures
        r@ == decimal_of(n),
{
    if n < 0 {
        let m: u64 = (-(n as i128)) as u64;
        let mut r: Vec<char> = Vec::new();
        r.push('-');
        let mut ds = nat_digits_ex(m);
        proof {
            assert(r@ =~= seq!['-']);
        }
        r.append(&mut ds);
        r
    } else {
        nat_digits_ex(n as u64)
    }
}

/// The shadows of a list of values.
pub open spec fn objs_view(s: Seq<Object>) -> Seq<ObjectView> {
    s.map_values(|o: Object| o@)
}

/// The evaluator's state: the arena of scope records, the index of the scope
/// execution stands in, and the texts printed so far.
pub struct Compiler {
    pub environment: Environment,
    pub current: usize,
    pub output: Vec<Vec<char>>,
}

impl View for Compiler {
    type V = StateView;

    open spec fn view(&self) -> StateView {
        StateView {
            env: self.environment@,
            current: self.current as int,
            out: self.output@.map_values(|v: Vec<char>| v@),
        }
    }
}

impl Compiler {
    /// The evaluator's invariant.
    pub open spec fn wf(&self) -> bool {
        &&& self.environment.inv()
        &&& (self.current as int) < self.environment@.scopes.len()
        &&& self.environment@.scopes.len() == self.environment.scopes@.len()
    }

    /// What evaluating one expression guarantees: the state lands where the
    /// semantics says, the value is its value and makes sense against the
    /// arena, and the arena only ever grows.
    pub open spec fn e_post(
        o: Compiler,
        n: Compiler,
        fuel: nat,
        ge: GExpr,
        r: Result<Object, RuntimeError>,
    ) -> bool {
        let (r2, st2) = eval_expr(fuel, ge, o@);
        &&& n.wf()
        &&& n@ == st2
        &&& o@.env.scopes.len() <= n@.env.scopes.len()
        &&& match (r, r2) {
            (Result::Ok(ob), Result::Ok(v)) => ob@ == v && obj_wf(
                v,
                n@.env.scopes.len() as int,
            ),
            (Result::Err(a), Result::Err(b)) => a == b,
            _ => false,
        }
    }

    /// What executing one statement (or a list) guarantees.
    pub open spec fn s_post(
        o: Compiler,
        n: Compiler,
        sr: (Result<(), RuntimeError>, StateView),
        r: Result<(), RuntimeError>,
    ) -> bool {
        &&& n.wf()
        &&& n@ == sr.1
        &&& o@.env.scopes.len() <= n@.env.scopes.len()
        &&& match (r, sr.0) {
            (Result::Ok(()), Result::Ok(())) => true,
            (Result::Err(a), Result::Err(b)) => a == b,
            _ => false,
        }
    }

    /// A fresh evaluator: one empty global scope, nothing printed.
    pub fn new() -> (c: Compiler)
        ensures
            c.wf(),
            c@.env.scopes.len() == 1,
            c@.env.scopes[0].bindings == Map::<Seq<char>, ObjectView>::empty(),
            c@.env.scopes[0].parent is None,
            c@.current == 0,
            c@.out == Seq::<Seq<char>>::empty(),
    {
        let c = Compiler { environment: Environment::new(), current: 0, output: Vec::new() };
        proof {
            assert(c@.out =~= Seq::<Seq<char>>::empty());
        }
        c
    }
}

/// The textual rendering of a value, in executable code.
fn render_object(o: &Object) -> (r: Vec<char>)
    ensures
        r@ == render_val(o@),
{
    match o {
        Object::String(s) => crate::token::clone_chars(s),
        Object::Digit(n) => decimal_of_ex(*n),
        Object::Bool(b) => {
            if *b {
                let r = vec!['t', 'r', 'u', 'e'];
                proof {
                    assert(r@ =~= seq!['t', 'r', 'u', 'e']);
                }
                r
            } else {
                let r = vec!['f', 'a', 'l', 's', 'e'];
                proof {
                    assert(r@ =~= seq!['f', 'a', 'l', 's', 'e']);
                }
                r
            }
        },
        Object::Nil => {
            let r = vec!['n', 'i', 'l'];
            proof {
                assert(r@ =~= seq!['n', 'i', 'l']);
            }
            r
        },
        Object::Function(_, _, _) => {
            let r = vec!['f', 'u', 'n'];
            proof {
                assert(r@ =~= seq!['f', 'u', 'n']);
            }
            r
        },
    }
}

} // verus!

verus! {

impl Compiler {
    /// Binds parameter names to argument values, positionally, in a freshly
    /// opened (still empty) scope.
    fn define_params(&mut self, ns: usize, params: &Vec<Vec<char>>, vals: &Vec<Object>)
        requires
            old(self).wf(),
            (ns as int) < old(self)@.env.scopes.len(),
            params@.len() == vals@.len(),
            old(self)@.env.scopes[ns as int].bindings == Map::<Seq<char>, ObjectView>::empty(),
            forall|k: int|
                0 <= k < vals@.len() ==> obj_wf(
                    (#[trigger] vals@[k])@,
                    old(self)@.env.scopes.len() as int,
                ),
        ensures
            final(self).wf(),
            final(self).current == old(self).current,
            final(self).output == old(self).output,
            final(self)@.env.scopes == old(self)@.env.scopes.update(
                ns as int,
                ScopeView {
                    bindings: bind_params(
                        params@.map_values(|p: Vec<char>| p@),
                        objs_view(vals@),
                    ),
                    parent: old(self)@.env.scopes[ns as int].parent,
                },
            ),
    {
        let ghost pv = params@.map_values(|p: Vec<char>| p@);
        let ghost vv = objs_view(vals@);
        let n = params.len();
        let mut i: usize = 0;
        proof {
            assert(pv.subrange(0, 0) =~= Seq::<Seq<char>>::empty());
            assert(vv.subrange(0, 0) =~= Seq::<ObjectView>::empty());
            assert(old(self)@.env.scopes.update(
                ns as int,
                ScopeView {
                    bindings: bind_params(pv.subrange(0, 0), vv.subrange(0, 0)),
                    parent: old(self)@.env.scopes[ns as int].parent,
                },
            ) =~= old(self)@.env.scopes);
        }
        while i < n
            invariant
                self.wf(),
                self.current == old(self).current,
                self.output == old(self).output,
                (ns as int) < self@.env.scopes.len(),
                self@.env.scopes.len() == old(self)@.env.scopes.len(),
                n == params@.len(),
                params@.len() == vals@.len(),
                pv == params@.map_values(|p: Vec<char>| p@),
                vv == objs_view(vals@),
                0 <= i <= n,
                forall|k: int|
                    0 <= k < vals@.len() ==> obj_wf(
                        (#[trigger] vals@[k])@,
                        old(self)@.env.scopes.len() as int,
                    ),
                self@.env.scopes == old(self)@.env.scopes.update(
                    ns as int,
                    ScopeView {
                        bindings: bind_params(pv.subrange(0, i as int), vv.subrange(0, i as int)),
                        parent: old(self)@.env.scopes[ns as int].parent,
                    },
                ),
            decreases n - i,
        {
            let nm = crate::token::clone_chars(&params[i]);
            let v = crate::ast::clone_object(&vals[i]);
            proof {
                assert(pv[i as int] == params@[i as int]@);
                assert(vv[i as int] == vals@[i as int]@);
            }
            self.environment.define(ns, nm, v);
            proof {
                assert(pv.subrange(0, i + 1).subrange(0, i as int) =~= pv.subrange(0, i as int));
                assert(vv.subrange(0, i + 1).subrange(0, i as int) =~= vv.subrange(0, i as int));
                assert(pv.subrange(0, i + 1)[i as int] == pv[i as int]);
                assert(vv.subrange(0, i + 1)[i as int] == vv[i as int]);
                assert(bind_params(pv.subrange(0, i + 1), vv.subrange(0, i + 1)) == bind_params(
                    pv.subrange(0, i as int),
                    vv.subrange(0, i as int),
                ).insert(pv[i as int], vv[i as int]));
                assert(self@.env.scopes =~= old(self)@.env.scopes.update(
                    ns as int,
                    ScopeView {
                        bindings: bind_params(pv.subrange(0, i + 1), vv.subrange(0, i + 1)),
                        parent: old(self)@.env.scopes[ns as int].parent,
                    },
                ));
            }
            i += 1;
        }
        proof {
            assert(pv.subrange(0, n as int) =~= pv);
            assert(vv.subrange(0, n as int) =~= vv);
        }
    }

    /// Evaluates one expression: exactly the value and state the semantics
    /// gives, with the first error aborting the walk.
    #[verifier::rlimit(80)]
    pub fn compile_expr(&mut self, expr: &Expression, fuel: usize) -> (r: Result<
        Object,
        RuntimeError,
    >)
        requires
            old(self).wf(),
        ensures
            Self::e_post(*old(self), *final(self), fuel as nat, expr@, r),
        decreases fuel, *expr, 0int,
    {
        proof {
            reveal_with_fuel(crate::ast::expr_view, 3);
        }
        match expr {
            Expression::Literal(o) => {
                match o {
                    Object::Function(_, _, _) => Result::Err(
                        RuntimeError::TypeMismatch { line: 0 },
                    ),
                    _ => Result::Ok(crate::ast::clone_object(o)),
                }
            },
            Expression::Grouping(sub) => self.compile_expr(sub, fuel),
            Expression::Var(t) => {
                match self.environment.retrieve(self.current, &t.lexeme, t.line) {
                    Result::Ok(o) => Result::Ok(o),
                    Result::Err(e) => Result::Err(e),
                }
            },
            Expression::Assignment(t, sub) => {
                let v = match self.compile_expr(sub, fuel) {
                    Result::Ok(v) => v,
                    Result::Err(e) => {
                        return Result::Err(e);
                    },
                };
                let v2 = crate::ast::clone_object(&v);
                let ghost st1 = self@;
                let ghost vv = v@;
                match self.environment.assign(self.current, &t.lexeme, v, t.line) {
                    Result::Ok(_) => {
                        let r = Result::<Object, RuntimeError>::Ok(v2);
                        proof {
                            assert(self.environment@.scopes.len() == st1.env.scopes.len());
                            assert(Self::e_post(*old(self), *self, fuel as nat, expr@, r));
                        }
                        r
                    },
                    Result::Err(e) => Result::Err(e),
                }
            },
            Expression::Unary(t, sub) => {
                let v = match self.compile_expr(sub, fuel) {
                    Result::Ok(v) => v,
                    Result::Err(e) => {
                        return Result::Err(e);
                    },
                };
                if t.tag == TokenType::MINUS {
                    match v {
                        Object::Digit(n) => Result::Ok(Object::Digit(sat_neg_ex(n))),
                        _ => Result::Err(RuntimeError::TypeMismatch { line: t.line }),
                    }
                } else {
                    match v {
                        Object::Bool(b) => Result::Ok(Object::Bool(!b)),
                        _ => Result::Err(RuntimeError::TypeMismatch { line: t.line }),
                    }
                }
            },
            Expression::Binary(l, t, rr) => {
                let lv = match self.compile_expr(l, fuel) {
                    Result::Ok(v) => v,
                    Result::Err(e) => {
                        return Result::Err(e);
                    },
                };
                let rv = match self.compile_expr(rr, fuel) {
                    Result::Ok(v) => v,
                    Result::Err(e) => {
                        return Result::Err(e);
                    },
                };
                eval_binop_ex(t.tag, t.line, &lv, &rv)
            },
            Expression::Logical(l, t, rr) => {
                let lv = match self.compile_expr(l, fuel) {
                    Result::Ok(v) => v,
                    Result::Err(e) => {
                        return Result::Err(e);
                    },
                };
                match lv {
                    Object::Bool(b) => {
                        if t.tag == TokenType::OR && b {
                            Result::Ok(Object::Bool(true))
                        } else if t.tag != TokenType::OR && !b {
                            Result::Ok(Object::Bool(false))
                        } else {
                            let rv = match self.compile_expr(rr, fuel) {
                                Result::Ok(v) => v,
                                Result::Err(e) => {
                                    return Result::Err(e);
                                },
                            };
                            match rv {
                                Object::Bool(b2) => Result::Ok(Object::Bool(b2)),
                                _ => Result::Err(RuntimeError::TypeMismatch { line: t.line }),
                            }
                        }
                    },
                    _ => Result::Err(RuntimeError::TypeMismatch { line: t.line }),
                }
            },
            Expression::Call(callee, paren, args) => {
                let cv = match self.compile_expr(callee, fuel) {
                    Result::Ok(v) => v,
                    Result::Err(e) => {
                        return Result::Err(e);
                    },
                };
                self.call_value(cv, paren, args, fuel)
            },
        }
    }

    /// Performs a call once the callee is evaluated, exactly as the
    /// semantics says: arguments left to right, arity checked, one unit of
    /// call depth spent, parameters bound in a fresh scope under the
    /// function's captured scope, the body run there.
    #[verifier::rlimit(60)]
    fn call_value(&mut self, cv: Object, paren: &Token, args: &Vec<Expression>, fuel: usize) -> (r:
        Result<Object, RuntimeError>)
        requires
            old(self).wf(),
            obj_wf(cv@, old(self)@.env.scopes.len() as int),
        ensures
            final(self).wf(),
            old(self)@.env.scopes.len() <= final(self)@.env.scopes.len(),
            ({
                let (r2, st2) = eval_call(
                    fuel as nat,
                    cv@,
                    paren@,
                    crate::ast::exprs_view(args@),
                    old(self)@,
                );
                &&& final(self)@ == st2
                &&& match (r, r2) {
                    (Result::Ok(ob), Result::Ok(v)) => ob@ == v && obj_wf(
                        v,
                        final(self)@.env.scopes.len() as int,
                    ),
                    (Result::Err(a), Result::Err(b)) => a == b,
                    _ => false,
                }
            }),
        decreases fuel, *args, 2int,
    {
        match cv {
            Object::Function(params, body, cenv) => {
                let vals = match self.compile_exprs(args, fuel) {
                    Result::Ok(v) => v,
                    Result::Err(e) => {
                        return Result::Err(e);
                    },
                };
                if params.len() != vals.len() {
                    return Result::Err(
                        RuntimeError::ArityMismatch {
                            expected: params.len(),
                            got: vals.len(),
                            line: paren.line,
                        },
                    );
                }
                if fuel == 0 {
                    return Result::Err(RuntimeError::StackOverflow { line: paren.line });
                }
                let ghost st2 = self@;
                let ns = self.environment.new_scope(cenv);
                self.define_params(ns, &params, &vals);
                proof {
                    assert(self@.env.scopes =~= st2.env.scopes.push(
                        ScopeView {
                            bindings: bind_params(
                                params@.map_values(|p: Vec<char>| p@),
                                objs_view(vals@),
                            ),
                            parent: Option::Some(cenv as int),
                        },
                    ));
                }
                let saved = self.current;
                self.current = ns;
                match self.compile_stmts(&body, fuel - 1) {
                    Result::Err(e) => Result::Err(e),
                    Result::Ok(_) => {
                        self.current = saved;
                        Result::Ok(Object::Nil)
                    },
                }
            },
            _ => Result::Err(RuntimeError::NotCallable { line: paren.line }),
        }
    }

    /// Evaluates call arguments left to right.
    fn compile_exprs(&mut self, args: &Vec<Expression>, fuel: usize) -> (r: Result<
        Vec<Object>,
        RuntimeError,
    >)
        requires
            old(self).wf(),
        ensures
            final(self).wf(),
            old(self)@.env.scopes.len() <= final(self)@.env.scopes.len(),
            ({
                let (r2, st2) = eval_exprs(
                    fuel as nat,
                    crate::ast::exprs_view(args@),
                    old(self)@,
                );
                &&& final(self)@ == st2
                &&& match (r, r2) {
                    (Result::Ok(v), Result::Ok(vs)) => objs_view(v@) == vs && forall|k: int|
                        0 <= k < v@.len() ==> obj_wf(
                            (#[trigger] v@[k])@,
                            final(self)@.env.scopes.len() as int,
                        ),
                    (Result::Err(a), Result::Err(b)) => a == b,
                    _ => false,
                }
            }),
        decreases fuel, *args, 1int,
    {
        let ghost gs = crate::ast::exprs_view(args@);
        let ghost st0 = self@;
        proof {
            crate::ast::lemma_exprs_view_len(args@);
        }
        let n = args.len();
        let mut v: Vec<Object> = Vec::new();
        let mut i: usize = 0;
        proof {
            assert(objs_view(v@) =~= Seq::<ObjectView>::empty());
            assert(gs.subrange(0, gs.len() as int) =~= gs);
        }
        while i < n
            invariant
                self.wf(),
                st0.env.scopes.len() <= self@.env.scopes.len(),
                n == args@.len(),
                gs == crate::ast::exprs_view(args@),
                gs.len() == n,
                st0 == old(self)@,
                0 <= i <= n,
                v@.len() == i,
                forall|k: int|
                    0 <= k < v@.len() ==> obj_wf(
                        (#[trigger] v@[k])@,
                        self@.env.scopes.len() as int,
                    ),
                ({
                    let (r2, st2) = eval_exprs(fuel as nat, gs.subrange(i as int, n as int), self@);
                    match r2 {
                        Result::Ok(vs) => eval_exprs(fuel as nat, gs, st0) == (
                            Result::<Seq<ObjectView>, RuntimeError>::Ok(objs_view(v@) + vs),
                            st2,
                        ),
                        Result::Err(e) => eval_exprs(fuel as nat, gs, st0) == (
                            Result::<Seq<ObjectView>, RuntimeError>::Err(e),
                            st2,
                        ),
                    }
                }),
            decreases n - i,
        {
            proof {
                crate::ast::lemma_exprs_view_index(args@, i as int);
                assert(gs.subrange(i as int, n as int)[0] == gs[i as int]);
            }
            let ghost pre_len = self@.env.scopes.len();
            let x = match self.compile_expr(&args[i], fuel) {
                Result::Ok(x) => x,
                Result::Err(e) => {
                    return Result::Err(e);
                },
            };
            let ghost oldv = v@;
            v.push(x);
            proof {
                assert(gs.subrange(i as int, n as int).subrange(
                    1,
                    gs.subrange(i as int, n as int).len() as int,
                ) =~= gs.subrange(i + 1, n as int));
                assert(objs_view(v@) =~= objs_view(oldv).push(x@));
                assert(forall|k: int|
                    0 <= k < v@.len() ==> obj_wf(
                        (#[trigger] v@[k])@,
                        self@.env.scopes.len() as int,
                    ));
                let (r2, st2) = eval_exprs(fuel as nat, gs.subrange(i + 1, n as int), self@);
                match r2 {
                    Result::Ok(vs) => {
                        assert(objs_view(v@) + vs =~= objs_view(oldv) + (seq![x@] + vs));
                    },
                    Result::Err(_) => {},
                }
            }
            i += 1;
        }
        proof {
            assert(gs.subrange(n as int, n as int) =~= Seq::<GExpr>::empty());
            assert(objs_view(v@) + Seq::<ObjectView>::empty() =~= objs_view(v@));
        }
        Result::Ok(v)
    }

    /// Executes one statement: exactly the state the semantics gives.
    pub fn compile_stmt(&mut self, stmt: &Statement, fuel: usize) -> (r: Result<(), RuntimeError>)
        requires
            old(self).wf(),
        ensures
            Self::s_post(
                *old(self),
                *final(self),
                eval_stmt(fuel as nat, stmt@, old(self)@),
                r,
            ),
        decreases fuel, *stmt, 0int,
    {
        proof {
            reveal_with_fuel(crate::ast::stmt_view, 3);
        }
        match stmt {
            Statement::Expression(e) => {
                match self.compile_expr(e, fuel) {
                    Result::Ok(_) => Result::Ok(()),
                    Result::Err(err) => Result::Err(err),
                }
            },
            Statement::Print(e) => {
                let v = match self.compile_expr(e, fuel) {
                    Result::Ok(v) => v,
                    Result::Err(err) => {
                        return Result::Err(err);
                    },
                };
                let text = render_object(&v);
                let ghost oldout = self@.out;
                self.output.push(text);
                proof {
                    assert(self@.out =~= oldout.push(render_val(v@)));
                }
                Result::Ok(())
            },
            Statement::Var(t, e) => {
                let v = match self.compile_expr(e, fuel) {
                    Result::Ok(v) => v,
                    Result::Err(err) => {
                        return Result::Err(err);
                    },
                };
                let nm = crate::token::clone_chars(&t.lexeme);
                self.environment.define(self.current, nm, v);
                Result::Ok(())
            },
            Statement::Block(body) => {
                let ns = self.environment.new_scope(self.current);
                let saved = self.current;
                self.current = ns;
                match self.compile_stmts(body, fuel) {
                    Result::Err(err) => Result::Err(err),
                    Result::Ok(_) => {
                        self.current = saved;
                        Result::Ok(())
                    },
                }
            },
            Statement::If(c, th, el) => {
                let v = match self.compile_expr(c, fuel) {
                    Result::Ok(v) => v,
                    Result::Err(err) => {
                        return Result::Err(err);
                    },
                };
                match v {
                    Object::Bool(b) => {
                        if b {
                            self.compile_stmt(th, fuel)
                        } else {
                            match el {
                                Option::Some(s2) => self.compile_stmt(s2, fuel),
                                Option::None => Result::Ok(()),
                            }
                        }
                    },
                    _ => Result::Err(RuntimeError::TypeMismatch { line: 0 }),
                }
            },
            Statement::Function(name, params, body) => {
                let mut names: Vec<Vec<char>> = Vec::new();
                let n = params.len();
                let mut i: usize = 0;
                while i < n
                    invariant
                        n == params@.len(),
                        0 <= i <= n,
                        names@.len() == i,
                        forall|k: int| 0 <= k < i ==> (#[trigger] names@[k])@ == params@[k].lexeme@,
                    decreases n - i,
                {
                    names.push(crate::token::clone_chars(&params[i].lexeme));
                    i += 1;
                }
                let body2 = crate::ast::clone_stmts(body);
                proof {
                    crate::ast::lemma_toks_view_len(params@);
                    assert forall|k: int| 0 <= k < n implies crate::ast::toks_view(
                        params@,
                    )[k].lexeme == params@[k].lexeme@ by {
                        crate::ast::lemma_toks_view_index(params@, k);
                    }
                    assert(names@.map_values(|p: Vec<char>| p@) =~= crate::ast::toks_view(
                        params@,
                    ).map_values(|t: crate::ast::TokenView| t.lexeme));
                }
                let value = Object::Function(names, body2, self.current);
                let nm = crate::token::clone_chars(&name.lexeme);
                self.environment.define(self.current, nm, value);
                Result::Ok(())
            },
        }
    }

    /// Executes statements in order, fail-fast.
    pub fn compile_stmts(&mut self, stmts: &Vec<Statement>, fuel: usize) -> (r: Result<
        (),
        RuntimeError,
    >)
        requires
            old(self).wf(),
        ensures
            Self::s_post(
                *old(self),
                *final(self),
                eval_stmts(fuel as nat, stmts_view(stmts@), old(self)@),
                r,
            ),
        decreases fuel, *stmts, 1int,
    {
        let ghost gs = stmts_view(stmts@);
        let ghost st0 = self@;
        let n = stmts.len();
        let mut i: usize = 0;
        proof {
            crate::ast::lemma_stmts_view_len(stmts@);
            assert(gs.subrange(0, n as int) =~= gs);
            assert(eval_stmts(fuel as nat, gs.subrange(0, n as int), self@) == eval_stmts(
                fuel as nat,
                gs,
                st0,
            ));
            let (r2, st2) = eval_stmts(fuel as nat, gs.subrange(0, n as int), self@);
            match r2 {
                Result::Ok(u) => {
                    assert(u == ());
                    assert(eval_stmts(fuel as nat, gs, st0) == (
                        Result::<(), RuntimeError>::Ok(()),
                        st2,
                    ));
                },
                Result::Err(e) => {
                    assert(eval_stmts(fuel as nat, gs, st0) == (
                        Result::<(), RuntimeError>::Err(e),
                        st2,
                    ));
                },
            }
        }
        while i < n
            invariant
                self.wf(),
                st0.env.scopes.len() <= self@.env.scopes.len(),
                n == stmts@.len(),
                gs == stmts_view(stmts@),
                gs.len() == n,
                st0 == old(self)@,
                0 <= i <= n,
                ({
                    let (r2, st2) = eval_stmts(fuel as nat, gs.subrange(i as int, n as int), self@);
                    match r2 {
                        Result::Ok(_) => eval_stmts(fuel as nat, gs, st0) == (
                            Result::<(), RuntimeError>::Ok(()),
                            st2,
                        ),
                        Result::Err(e) => eval_stmts(fuel as nat, gs, st0) == (
                            Result::<(), RuntimeError>::Err(e),
                            st2,
                        ),
                    }
                }),
            decreases n - i,
        {
            proof {
                crate::ast::lemma_stmts_view_index(stmts@, i as int);
                assert(gs.subrange(i as int, n as int)[0] == gs[i as int]);
            }
            match self.compile_stmt(&stmts[i], fuel) {
                Result::Ok(_) => {},
                Result::Err(e) => {
                    return Result::Err(e);
                },
            }
            proof {
                assert(gs.subrange(i as int, n as int).subrange(
                    1,
                    gs.subrange(i as int, n as int).len() as int,
                ) =~= gs.subrange(i + 1, n as int));
            }
            i += 1;
        }
        proof {
            assert(gs.subrange(n as int, n as int) =~= Seq::<GStmt>::empty());
        }
        Result::Ok(())
    }

    /// Runs a program: its statements in order against this evaluator's
    /// state, under the explicit maximum call depth.
    pub fn interpret(&mut self, statements: &Vec<Statement>) -> (r: Result<(), RuntimeError>)
        requires
            old(self).wf(),
        ensures
            Self::s_post(
                *old(self),
                *final(self),
                eval_stmts(MAX_CALL_DEPTH as nat, stmts_view(statements@), old(self)@),
                r,
            ),
    {
        self.compile_stmts(statements, MAX_CALL_DEPTH)
    }
}

} // verus!
