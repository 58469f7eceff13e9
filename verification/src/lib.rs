//! A small scripting language: a lexer, a recursive-descent parser and a
//! tree-walking interpreter, each computing the function that its contract
//! states over models of tokens, syntax trees and interpreter states.
pub mod ast;
pub mod interpreter;
pub mod laws;
pub mod lexer;
pub mod numeric;
pub mod parser;
pub mod scope;
pub mod semantics;
pub mod text;
pub mod value;

pub use ast::{Expr, Stmt, TypeAnnotation};
pub use interpreter::{Interpreter, InterpreterConfig};
pub use scope::Scope;
pub use value::Value;

use vstd::prelude::*;
use crate::ast::StmtM;
use crate::interpreter::{initial_state, program_fuel, view_lines, view_result};
use crate::lexer::lex_spec;
use crate::parser::{Parser, parse_program_spec};
use crate::semantics::{IState, program_run};
use crate::value::ValueM;

verus! {

/// The program a source text denotes: its tokens parsed as statements, or
/// the first lexing or parsing error.
pub open spec fn program_of(source: Seq<char>) -> Result<Seq<StmtM>, Seq<char>> {
    match lex_spec(source) {
        Ok(toks) => parse_program_spec(toks),
        Err(e) => Err(e),
    }
}

/// What running a program over a root scope gives: the final state and the
/// value of the last statement, or the first error.
pub open spec fn run_spec(prog: Seq<StmtM>, root: Map<Seq<char>, ValueM>) -> (IState, Result<ValueM, Seq<char>>) {
    program_run(program_fuel(), initial_state(root, Seq::empty()), prog, 0, ValueM::Unit)
}

/// Evaluates a script over `scope`, as [`eval`] does, and also gives the
/// lines that `print` wrote, in order (those written before an error are
/// kept). A lexing or parsing error prints nothing and leaves `scope` as it was.
pub fn eval_with_output(script: &str, scope: &mut Scope) -> (r: (Vec<String>, Result<Value, String>))
    ensures
        match program_of(script@) {
            Err(e) => r.0@.len() == 0 && (r.1 matches Err(m) && m@ == e) && final(scope)@ == old(scope)@,
            Ok(prog) => view_lines(r.0@) == run_spec(prog, old(scope)@).0.output
                && view_result(r.1) == run_spec(prog, old(scope)@).1
                && final(scope)@ == run_spec(prog, old(scope)@).0.root,
        },
{
    let tokens = match lexer::lex(script) {
        Ok(t) => t,
        Err(e) => {
            return (Vec::new(), Err(e));
        },
    };
    let mut parser = Parser::new(tokens);
    let program = match parser.parse_program() {
        Ok(p) => p,
        Err(e) => {
            return (Vec::new(), Err(e));
        },
    };
    let mut interpreter = Interpreter::new(scope);
    let result = interpreter.execute_program(program.as_slice());
    let mut lines: Vec<String> = Vec::new();
    std::mem::swap(&mut lines, &mut interpreter.config.output);
    (lines, result)
}

/// Evaluates a script over `scope`: the variables the script defines or
/// assigns at top level stay in `scope`, and the result is the value of the
/// last statement. A lexing or parsing error leaves `scope` as it was. What
/// `print` writes is given by [`eval_with_output`], which this calls.
pub fn eval(script: &str, scope: &mut Scope) -> (r: Result<Value, String>)
    ensures
        match program_of(script@) {
            Err(e) => (r matches Err(m) && m@ == e) && final(scope)@ == old(scope)@,
            Ok(prog) => view_result(r) == run_spec(prog, old(scope)@).1
                && final(scope)@ == run_spec(prog, old(scope)@).0.root,
        },
{
    let (_lines, result) = eval_with_output(script, scope);
    result
}

/// Runs a program on an empty scope. The result holds the lines that `print`
/// wrote, in order, and whether the program ran to its end or the error that
/// stopped it (lines printed before an error are kept).
pub fn run_program(source: &str) -> (r: (Vec<String>, Result<(), String>))
    ensures
        match program_of(source@) {
            Err(e) => r.0@.len() == 0 && (r.1 matches Err(m) && m@ == e),
            Ok(prog) => view_lines(r.0@) == run_spec(prog, Map::empty()).0.output && match run_spec(
                prog,
                Map::empty(),
            ).1 {
                Ok(_) => r.1 is Ok,
                Err(e) => (r.1 matches Err(m) && m@ == e),
            },
        },
{
    let tokens = match lexer::lex(source) {
        Ok(t) => t,
        Err(e) => {
            return (Vec::new(), Err(e));
        },
    };
    let mut parser = Parser::new(tokens);
    let program = match parser.parse_program() {
        Ok(p) => p,
        Err(e) => {
            return (Vec::new(), Err(e));
        },
    };
    let mut scope = Scope::new();
    let mut interpreter = Interpreter::new(&mut scope);
    let result = interpreter.execute_program(program.as_slice());
    let mut lines: Vec<String> = Vec::new();
    std::mem::swap(&mut lines, &mut interpreter.config.output);
    match result {
        Ok(_) => (lines, Ok(())),
        Err(e) => (lines, Err(e)),
    }
}

} // verus!
