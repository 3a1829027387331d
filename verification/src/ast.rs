//! The abstract syntax tree: the parsed, structured representation of a
//! program, and its mathematical shadow. The exec nodes are pure data,
//! produced by the parser and consumed by the evaluator; the ghost nodes
//! (`GExpr`, `GStmt`) are what contracts and the semantic model speak of.

use vstd::prelude::*;
use crate::token::{Object, Token, TokenType};

verus! {

broadcast use vstd::seq::axiom_seq_index_decreases, vstd::seq::axiom_seq_subrange_decreases, vstd::std_specs::vec::axiom_vec_decreases_to_view, vstd::std_specs::vec::axiom_vec_index_decreases;

/// An expression node. Operator nodes keep the operator's token so that
/// diagnostics can name the source line.
#[derive(Debug)]
pub enum Expression {
    Literal(Object),
    Assignment(Token, Box<Expression>),
    Unary(Token, Box<Expression>),
    Binary(Box<Expression>, Token, Box<Expression>),
    Grouping(Box<Expression>),
    Logical(Box<Expression>, Token, Box<Expression>),
    Call(Box<Expression>, Token, Vec<Expression>),
    Var(Token),
}

/// A statement node.
#[derive(Debug)]
pub enum Statement {
    Print(Expression),
    Expression(Expression),
    Var(Token, Expression),
    Block(Vec<Statement>),
    If(Expression, Box<Statement>, Option<Box<Statement>>),
    Function(Token, Vec<Token>, Vec<Statement>),
}

/// The mathematical shadow of a runtime value: text as `Seq<char>`, the
/// captured scope of a function value as an unbounded integer, and the
/// function body as shadow statements.
pub enum ObjectView {
    String(Seq<char>),
    Digit(i64),
    Bool(bool),
    Function(Seq<Seq<char>>, Seq<GStmt>, int),
    Nil,
}

/// The mathematical shadow of a token.
pub struct TokenView {
    pub tag: TokenType,
    pub lexeme: Seq<char>,
    pub literal: Option<ObjectView>,
    pub line: int,
}

/// The mathematical shadow of an expression node.
pub enum GExpr {
    Literal(ObjectView),
    Assignment(TokenView, Box<GExpr>),
    Unary(TokenView, Box<GExpr>),
    Binary(Box<GExpr>, TokenView, Box<GExpr>),
    Grouping(Box<GExpr>),
    Logical(Box<GExpr>, TokenView, Box<GExpr>),
    Call(Box<GExpr>, TokenView, Seq<GExpr>),
    Var(TokenView),
}

/// The mathematical shadow of a statement node.
pub enum GStmt {
    Print(GExpr),
    Expression(GExpr),
    Var(TokenView, GExpr),
    Block(Seq<GStmt>),
    If(GExpr, Box<GStmt>, Option<Box<GStmt>>),
    Function(TokenView, Seq<TokenView>, Seq<GStmt>),
}

/// The shadow of a runtime value.
pub open spec fn object_view(o: Object) -> ObjectView
    decreases o,
{
    match o {
        Object::String(s) => ObjectView::String(s@),
        Object::Digit(n) => ObjectView::Digit(n),
        Object::Bool(b) => ObjectView::Bool(b),
        Object::Function(params, body, env) => ObjectView::Function(
            params@.map_values(|p: Vec<char>| p@),
            stmts_view(body@),
            env as int,
        ),
        Object::Nil => ObjectView::Nil,
    }
}

/// The shadow of a token.
pub open spec fn tok_view(t: Token) -> TokenView
    decreases t,
{
    TokenView {
        tag: t.tag,
        lexeme: t.lexeme@,
        literal: match t.literal {
            Option::Some(o) => Option::Some(object_view(o)),
            Option::None => Option::None,
        },
        line: t.line as int,
    }
}

/// The shadow of a token sequence.
pub open spec fn toks_view(ts: Seq<Token>) -> Seq<TokenView>
    decreases ts,
{
    if ts.len() == 0 {
        Seq::empty()
    } else {
        toks_view(ts.subrange(0, ts.len() - 1)).push(tok_view(ts[ts.len() - 1]))
    }
}

/// The shadow of an expression node.
pub open spec fn expr_view(e: Expression) -> GExpr
    decreases e,
{
    match e {
        Expression::Literal(o) => GExpr::Literal(object_view(o)),
        Expression::Assignment(t, sub) => GExpr::Assignment(tok_view(t), Box::new(expr_view(*sub))),
        Expression::Unary(t, sub) => GExpr::Unary(tok_view(t), Box::new(expr_view(*sub))),
        Expression::Binary(l, t, r) => GExpr::Binary(
            Box::new(expr_view(*l)),
            tok_view(t),
            Box::new(expr_view(*r)),
        ),
        Expression::Grouping(sub) => GExpr::Grouping(Box::new(expr_view(*sub))),
        Expression::Logical(l, t, r) => GExpr::Logical(
            Box::new(expr_view(*l)),
            tok_view(t),
            Box::new(expr_view(*r)),
        ),
        Expression::Call(callee, t, args) => GExpr::Call(
            Box::new(expr_view(*callee)),
            tok_view(t),
            exprs_view(args@),
        ),
        Expression::Var(t) => GExpr::Var(tok_view(t)),
    }
}

/// The shadow of an expression sequence.
pub open spec fn exprs_view(es: Seq<Expression>) -> Seq<GExpr>
    decreases es,
{
    if es.len() == 0 {
        Seq::empty()
    } else {
        exprs_view(es.subrange(0, es.len() - 1)).push(expr_view(es[es.len() - 1]))
    }
}

/// The shadow of a statement node.
pub open spec fn stmt_view(s: Statement) -> GStmt
    decreases s,
{
    match s {
        Statement::Print(e) => GStmt::Print(expr_view(e)),
        Statement::Expression(e) => GStmt::Expression(expr_view(e)),
        Statement::Var(t, e) => GStmt::Var(tok_view(t), expr_view(e)),
        Statement::Block(body) => GStmt::Block(stmts_view(body@)),
        Statement::If(c, th, el) => GStmt::If(
            expr_view(c),
            Box::new(stmt_view(*th)),
            match el {
                Option::Some(s2) => Option::Some(Box::new(stmt_view(*s2))),
                Option::None => Option::None,
            },
        ),
        Statement::Function(name, params, body) => GStmt::Function(
            tok_view(name),
            toks_view(params@),
            stmts_view(body@),
        ),
    }
}

/// The shadow of a statement sequence.
pub open spec fn stmts_view(ss: Seq<Statement>) -> Seq<GStmt>
    decreases ss,
{
    if ss.len() == 0 {
        Seq::empty()
    } else {
        stmts_view(ss.subrange(0, ss.len() - 1)).push(stmt_view(ss[ss.len() - 1]))
    }
}

/// How a shadow sequence grows with its sequence, one element at a time.
pub proof fn lemma_stmts_view_extend(s: Seq<Statement>, i: int)
    requires
        0 <= i < s.len(),
    ensures
        stmts_view(s.subrange(0, i + 1)) == stmts_view(s.subrange(0, i)).push(stmt_view(s[i])),
{
    let t = s.subrange(0, i + 1);
    assert(t[i] == s[i]);
    assert(t.subrange(0, i) =~= s.subrange(0, i));
}

/// How a shadow sequence grows with its sequence, one element at a time.
pub proof fn lemma_exprs_view_extend(s: Seq<Expression>, i: int)
    requires
        0 <= i < s.len(),
    ensures
        exprs_view(s.subrange(0, i + 1)) == exprs_view(s.subrange(0, i)).push(expr_view(s[i])),
{
    let t = s.subrange(0, i + 1);
    assert(t[i] == s[i]);
    assert(t.subrange(0, i) =~= s.subrange(0, i));
}

/// How a shadow sequence grows with its sequence, one element at a time.
pub proof fn lemma_toks_view_extend(s: Seq<Token>, i: int)
    requires
        0 <= i < s.len(),
    ensures
        toks_view(s.subrange(0, i + 1)) == toks_view(s.subrange(0, i)).push(tok_view(s[i])),
{
    let t = s.subrange(0, i + 1);
    assert(t[i] == s[i]);
    assert(t.subrange(0, i) =~= s.subrange(0, i));
}

/// A shadow sequence has its sequence's length.
pub proof fn lemma_stmts_view_len(s: Seq<Statement>)
    ensures
        stmts_view(s).len() == s.len(),
    decreases s,
{
    if s.len() > 0 {
        lemma_stmts_view_len(s.subrange(0, s.len() - 1));
    }
}

/// A shadow sequence is the elementwise shadow of its sequence.
pub proof fn lemma_stmts_view_index(s: Seq<Statement>, i: int)
    requires
        0 <= i < s.len(),
    ensures
        stmts_view(s).len() == s.len(),
        stmts_view(s)[i] == stmt_view(s[i]),
    decreases s,
{
    lemma_stmts_view_len(s);
    if s.len() > 0 {
        lemma_stmts_view_len(s.subrange(0, s.len() - 1));
        if i < s.len() - 1 {
            lemma_stmts_view_index(s.subrange(0, s.len() - 1), i);
        }
    }
}

/// A shadow sequence has its sequence's length.
pub proof fn lemma_exprs_view_len(s: Seq<Expression>)
    ensures
        exprs_view(s).len() == s.len(),
    decreases s,
{
    if s.len() > 0 {
        lemma_exprs_view_len(s.subrange(0, s.len() - 1));
    }
}

/// A shadow sequence is the elementwise shadow of its sequence.
pub proof fn lemma_exprs_view_index(s: Seq<Expression>, i: int)
    requires
        0 <= i < s.len(),
    ensures
        exprs_view(s).len() == s.len(),
        exprs_view(s)[i] == expr_view(s[i]),
    decreases s,
{
    lemma_exprs_view_len(s);
    if s.len() > 0 {
        lemma_exprs_view_len(s.subrange(0, s.len() - 1));
        if i < s.len() - 1 {
            lemma_exprs_view_index(s.subrange(0, s.len() - 1), i);
        }
    }
}

/// A shadow sequence has its sequence's length.
pub proof fn lemma_toks_view_len(s: Seq<Token>)
    ensures
        toks_view(s).len() == s.len(),
    decreases s,
{
    if s.len() > 0 {
        lemma_toks_view_len(s.subrange(0, s.len() - 1));
    }
}

/// A shadow sequence is the elementwise shadow of its sequence.
pub proof fn lemma_toks_view_index(s: Seq<Token>, i: int)
    requires
        0 <= i < s.len(),
    ensures
        toks_view(s).len() == s.len(),
        toks_view(s)[i] == tok_view(s[i]),
    decreases s,
{
    lemma_toks_view_len(s);
    if s.len() > 0 {
        lemma_toks_view_len(s.subrange(0, s.len() - 1));
        if i < s.len() - 1 {
            lemma_toks_view_index(s.subrange(0, s.len() - 1), i);
        }
    }
}

impl View for Object {
    type V = ObjectView;

    open spec fn view(&self) -> ObjectView {
        object_view(*self)
    }
}

impl View for Token {
    type V = TokenView;

    open spec fn view(&self) -> TokenView {
        tok_view(*self)
    }
}

impl View for Expression {
    type V = GExpr;

    open spec fn view(&self) -> GExpr {
        expr_view(*self)
    }
}

impl View for Statement {
    type V = GStmt;

    open spec fn view(&self) -> GStmt {
        stmt_view(*self)
    }
}

/// Copies a list of names.
pub fn clone_names(v: &Vec<Vec<char>>) -> (r: Vec<Vec<char>>)
    ensures
        r@.len() == v@.len(),
        forall|i: int| 0 <= i < v@.len() ==> r@[i]@ == v@[i]@,
{
    let mut r: Vec<Vec<char>> = Vec::new();
    let n = v.len();
    let mut i: usize = 0;
    while i < n
        invariant
            n == v@.len(),
            0 <= i <= n,
            r@.len() == i,
            forall|j: int| 0 <= j < i ==> r@[j]@ == v@[j]@,
        decreases n - i,
    {
        r.push(crate::token::clone_chars(&v[i]));
        i += 1;
    }
    r
}

/// Copies a value, shadow for shadow.
pub fn clone_object(o: &Object) -> (r: Object)
    ensures
        r@ == o@,
    decreases *o,
{
    match o {
        Object::String(s) => Object::String(crate::token::clone_chars(s)),
        Object::Digit(n) => Object::Digit(*n),
        Object::Bool(b) => Object::Bool(*b),
        Object::Function(params, body, env) => {
            let p2 = clone_names(params);
            let b2 = clone_stmts(body);
            proof {
                assert(p2@.map_values(|p: Vec<char>| p@) =~= params@.map_values(
                    |p: Vec<char>| p@,
                ));
            }
            Object::Function(p2, b2, *env)
        },
        Object::Nil => Object::Nil,
    }
}

/// Copies a token, shadow for shadow.
pub fn clone_token(t: &Token) -> (r: Token)
    ensures
        r@ == t@,
    decreases *t,
{
    Token {
        tag: t.tag,
        lexeme: crate::token::clone_chars(&t.lexeme),
        literal: match &t.literal {
            Option::Some(o) => Option::Some(clone_object(o)),
            Option::None => Option::None,
        },
        line: t.line,
    }
}

/// Copies an expression node, shadow for shadow.
pub fn clone_expr(e: &Expression) -> (r: Expression)
    ensures
        r@ == e@,
    decreases *e,
{
    match e {
        Expression::Literal(o) => Expression::Literal(clone_object(o)),
        Expression::Assignment(t, sub) => Expression::Assignment(
            clone_token(t),
            Box::new(clone_expr(sub)),
        ),
        Expression::Unary(t, sub) => Expression::Unary(clone_token(t), Box::new(clone_expr(sub))),
        Expression::Binary(l, t, rr) => Expression::Binary(
            Box::new(clone_expr(l)),
            clone_token(t),
            Box::new(clone_expr(rr)),
        ),
        Expression::Grouping(sub) => Expression::Grouping(Box::new(clone_expr(sub))),
        Expression::Logical(l, t, rr) => Expression::Logical(
            Box::new(clone_expr(l)),
            clone_token(t),
            Box::new(clone_expr(rr)),
        ),
        Expression::Call(callee, t, args) => Expression::Call(
            Box::new(clone_expr(callee)),
            clone_token(t),
            clone_exprs(args),
        ),
        Expression::Var(t) => Expression::Var(clone_token(t)),
    }
}

/// Copies a list of expression nodes, shadow for shadow.
pub fn clone_exprs(v: &Vec<Expression>) -> (r: Vec<Expression>)
    ensures
        r@.len() == v@.len(),
        exprs_view(r@) == exprs_view(v@),
    decreases *v,
{
    let mut r: Vec<Expression> = Vec::new();
    let n = v.len();
    let mut i: usize = 0;
    while i < n
        invariant
            n == v@.len(),
            0 <= i <= n,
            r@.len() == i,
            exprs_view(r@) == exprs_view(v@.subrange(0, i as int)),
        decreases n - i,
    {
        let c = clone_expr(&v[i]);
        proof {
            lemma_exprs_view_extend(v@, i as int);
            assert(r@.push(c).subrange(0, i as int) =~= r@);
        }
        let ghost old_r = r@;
        r.push(c);
        proof {
            assert(r@.subrange(0, i as int) =~= old_r);
            assert(exprs_view(r@) == exprs_view(old_r).push(expr_view(c)));
        }
        i += 1;
    }
    proof {
        assert(v@.subrange(0, n as int) =~= v@);
    }
    r
}

/// Copies a statement node, shadow for shadow.
pub fn clone_stmt(s: &Statement) -> (r: Statement)
    ensures
        r@ == s@,
    decreases *s,
{
    match s {
        Statement::Print(e) => Statement::Print(clone_expr(e)),
        Statement::Expression(e) => Statement::Expression(clone_expr(e)),
        Statement::Var(t, e) => Statement::Var(clone_token(t), clone_expr(e)),
        Statement::Block(body) => Statement::Block(clone_stmts(body)),
        Statement::If(c, th, el) => Statement::If(
            clone_expr(c),
            Box::new(clone_stmt(th)),
            match el {
                Option::Some(s2) => Option::Some(Box::new(clone_stmt(s2))),
                Option::None => Option::None,
            },
        ),
        Statement::Function(name, params, body) => Statement::Function(
            clone_token(name),
            clone_tokens(params),
            clone_stmts(body),
        ),
    }
}

/// Copies a list of tokens, shadow for shadow.
pub fn clone_tokens(v: &Vec<Token>) -> (r: Vec<Token>)
    ensures
        r@.len() == v@.len(),
        toks_view(r@) == toks_view(v@),
    decreases *v,
{
    let mut r: Vec<Token> = Vec::new();
    let n = v.len();
    let mut i: usize = 0;
    while i < n
        invariant
            n == v@.len(),
            0 <= i <= n,
            r@.len() == i,
            toks_view(r@) == toks_view(v@.subrange(0, i as int)),
        decreases n - i,
    {
        let c = clone_token(&v[i]);
        proof {
            lemma_toks_view_extend(v@, i as int);
        }
        let ghost old_r = r@;
        r.push(c);
        proof {
            assert(r@.subrange(0, i as int) =~= old_r);
            assert(toks_view(r@) == toks_view(old_r).push(tok_view(c)));
        }
        i += 1;
    }
    proof {
        assert(v@.subrange(0, n as int) =~= v@);
    }
    r
}

/// Copies a list of statement nodes, shadow for shadow.
pub fn clone_stmts(v: &Vec<Statement>) -> (r: Vec<Statement>)
    ensures
        r@.len() == v@.len(),
        stmts_view(r@) == stmts_view(v@),
    decreases *v,
{
    let mut r: Vec<Statement> = Vec::new();
    let n = v.len();
    let mut i: usize = 0;
    while i < n
        invariant
            n == v@.len(),
            0 <= i <= n,
            r@.len() == i,
            stmts_view(r@) == stmts_view(v@.subrange(0, i as int)),
        decreases n - i,
    {
        let c = clone_stmt(&v[i]);
        proof {
            lemma_stmts_view_extend(v@, i as int);
        }
        let ghost old_r = r@;
        r.push(c);
        proof {
            assert(r@.subrange(0, i as int) =~= old_r);
            assert(stmts_view(r@) == stmts_view(old_r).push(stmt_view(c)));
        }
        i += 1;
    }
    proof {
        assert(v@.subrange(0, n as int) =~= v@);
    }
    r
}

} // verus!
