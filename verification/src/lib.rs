//! An evaluator for arithmetic expressions: numbers, `+ - * / ^`, a leading
//! minus sign, parentheses, and multiplication by writing two factors side
//! by side.
//!
//! An input passes three stages. The character filter (`expression`) drops
//! blanks and keeps each character's offset. The tokenizer (`tokenizer`)
//! turns the characters into numbers, operators and parentheses. The
//! grammar (`grammar`) says what a stream of tokens means; two readers
//! follow it, one that builds the tree of the expression (`ast`) and one
//! that evaluates while it reads (`parser`).
//!
//! Numbers are kept as the text of their literals, and an evaluation is the
//! list of its arithmetic steps: which arithmetic carries them out is left
//! to the caller.
//!
//! Every function is verified against the mathematical description of its
//! stage, and the laws that relate the stages are proved in `laws`,
//! `shape`, `order`, `extent`, `offsets` and `blanks`.

use vstd::prelude::*;

pub mod ast;
pub mod blanks;
pub mod expression;
pub mod extent;
pub mod grammar;
pub mod laws;
pub mod literal;
pub mod offsets;
pub mod order;
pub mod parser;
pub mod shape;
pub mod steps;
pub mod tokenizer;
pub mod utils;

use crate::ast::AST;
use crate::expression::significant;
use crate::grammar::{parse, Parse};
use crate::parser::Parser;
use crate::steps::{postfix, program};
use crate::tokenizer::tokens;
use crate::utils::{Node, NodeView, ParseError, Step, StepView};

verus! {

/// The tree of the expression `input`, or the error that reading it meets.
pub open spec fn tree_of(input: Seq<char>) -> Result<NodeView, ParseError> {
    match parse(tokens(significant(input))) {
        Parse::Done { node, .. } => Ok(node),
        Parse::Failed { error, .. } => Err(error),
    }
}

/// The steps that evaluate the expression `input`, or the error that
/// reading it meets.
pub open spec fn steps_of(input: Seq<char>) -> Result<Seq<StepView>, ParseError> {
    match tree_of(input) {
        Ok(tree) => Ok(postfix(tree)),
        Err(error) => Err(error),
    }
}

/// Reads `expression` and returns its tree.
pub fn build_ast(expression: &str) -> (r: Result<Node, ParseError>)
    ensures
        match tree_of(expression@) {
            Ok(tree) => r matches Ok(node) && node@ == tree,
            Err(error) => r matches Err(e) && e == error,
        },
{
    let mut ast = AST::new(expression);
    ast.generate()
}

/// Reads `expression` and returns the steps of its evaluation, in the order
/// in which they are carried out: each number is put on a stack, each
/// operation replaces the values on top of the stack by its result, and the
/// one value left at the end is the value of the expression.
pub fn evaluate(expression: &str) -> (r: Result<Vec<Step>, ParseError>)
    ensures
        match steps_of(expression@) {
            Ok(steps) => r matches Ok(list) && program(list@) == steps,
            Err(error) => r matches Err(e) && e == error,
        },
{
    let mut parser = Parser::new(expression);
    parser.eval()
}

} // verus!
