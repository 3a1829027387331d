//! A small dynamically-typed scripting language: a lexer, a recursive-descent
//! parser, and a tree-walking evaluator over a lexically-scoped environment
//! chain held in an arena of scope records. Each phase's meaning is a spec
//! function, and each executable phase is proved to match it exactly, so a
//! whole run is pinned down by `spec_run`.

use vstd::prelude::*;

pub mod ast;
pub mod compiler;
pub mod environment;
pub mod errors;
pub mod laws;
pub mod lexer;
pub mod parser;
pub mod playground;
pub mod token;

use crate::compiler::{Compiler, MAX_CALL_DEPTH, StateView, eval_stmts};
use crate::environment::{EnvironmentView, ScopeView};
use crate::errors::Error;
use crate::lexer::{Lexer, lemma_scan_wf, spec_scan};
use crate::parser::{Parser, spec_program};

verus! {

/// The state a run starts from: one empty global scope, nothing printed.
pub open spec fn init_state() -> StateView {
    StateView {
        env: EnvironmentView {
            scopes: seq![
                ScopeView {
                    bindings: Map::<Seq<char>, crate::ast::ObjectView>::empty(),
                    parent: Option::None,
                },
            ],
        },
        current: 0,
        out: Seq::empty(),
    }
}

/// What a whole run of a source text means: scan, parse, then evaluate from
/// the initial state under the maximum call depth; the first error of any
/// phase ends the run.
pub open spec fn spec_run(src: Seq<char>) -> Result<Seq<Seq<char>>, Error> {
    match spec_scan(src, 0, 1) {
        Result::Err(e) => Result::Err(Error::Lex(e)),
        Result::Ok((ts, _diags)) => {
            let (pr, _) = spec_program(ts, 0);
            match pr {
                Result::Err(e) => Result::Err(Error::Syntax(e)),
                Result::Ok(ss) => {
                    let (er, st) = eval_stmts(MAX_CALL_DEPTH as nat, ss, init_state());
                    match er {
                        Result::Ok(_) => Result::Ok(st.out),
                        Result::Err(e) => Result::Err(Error::Runtime(e)),
                    }
                },
            }
        },
    }
}

/// Runs a source text end to end and hands back the printed texts, or the
/// first error, exactly as `spec_run` says.
pub fn run(source: String) -> (r: Result<Vec<Vec<char>>, Error>)
    requires
        source@.len() < usize::MAX - 1,
    ensures
        match (r, spec_run(source@)) {
            (Result::Ok(outs), Result::Ok(souts)) => outs@.map_values(|v: Vec<char>| v@) == souts,
            (Result::Err(a), Result::Err(b)) => a == b,
            _ => false,
        },
{
    let ghost src = source@;
    let mut lx = Lexer::new(source);
    match lx.scan_tokens() {
        Result::Err(e) => {
            return Result::Err(Error::Lex(e));
        },
        Result::Ok(_) => {},
    }
    proof {
        lemma_scan_wf(src, 0, 1);
        crate::ast::lemma_toks_view_len(lx.tokens@);
    }
    let mut p = Parser::new(lx.tokens);
    let stmts = match p.parse() {
        Result::Err(e) => {
            return Result::Err(Error::Syntax(e));
        },
        Result::Ok(v) => v,
    };
    let mut c = Compiler::new();
    proof {
        assert(c@.env.scopes =~= init_state().env.scopes);
        assert(c@ == init_state());
    }
    match c.interpret(&stmts) {
        Result::Err(e) => Result::Err(Error::Runtime(e)),
        Result::Ok(_) => Result::Ok(c.output),
    }
}

} // verus!
