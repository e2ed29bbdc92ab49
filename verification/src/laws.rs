use crate::shape::lemma_tree_well_formed;
use crate::steps::{fold, lemma_run_postfix, run, Arithmetic};
use crate::utils::{Node, ParseError, StepView};
use crate::{steps_of, tree_of};
use vstd::prelude::*;

verus! {

/// Evaluating an expression while reading it and folding its tree agree,
/// whatever the arithmetic: where the expression can be read, carrying out
/// the steps of its evaluation on an empty stack leaves exactly the value
/// that folding its tree gives; where it cannot, both ways meet the same
/// error.
pub proof fn lemma_evaluation_agrees_with_tree<V>(a: Arithmetic<V>, input: Seq<char>)
    ensures
        match tree_of(input) {
            Ok(tree) => steps_of(input) matches Ok(steps) && run(a, steps, Seq::empty()) == Some(
                seq![fold(a, tree)],
            ),
            Err(error) => steps_of(input) == Err::<Seq<StepView>, ParseError>(error),
        },
{
    lemma_tree_well_formed(input);
    match tree_of(input) {
        Ok(tree) => {
            lemma_run_postfix(a, tree, Seq::empty());
            assert(Seq::<V>::empty().push(fold(a, tree)) =~= seq![fold(a, tree)]);
        },
        Err(_) => {},
    }
}

/// Reading the same input twice gives the same outcome: two results of
/// `build_ast` for one input hold trees that are equal node by node,
/// offsets included, or the same error.
pub proof fn lemma_reading_is_repeatable(
    input: Seq<char>,
    first: Result<Node, ParseError>,
    second: Result<Node, ParseError>,
)
    requires
        is_reading_of(first, input),
        is_reading_of(second, input),
    ensures
        match (first, second) {
            (Ok(a), Ok(b)) => a@ == b@,
            (Err(a), Err(b)) => a == b,
            _ => false,
        },
{
}

/// `r` is what `build_ast` returns for `input`.
pub open spec fn is_reading_of(r: Result<Node, ParseError>, input: Seq<char>) -> bool {
    match tree_of(input) {
        Ok(tree) => r matches Ok(node) && node@ == tree,
        Err(error) => r matches Err(e) && e == error,
    }
}

} // verus!
