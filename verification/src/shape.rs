use crate::expression::significant;
use crate::grammar::{
    is_operator_token, parse_expression, parse_factor, parse_power, parse_primary, parse_product,
    parse_sum, parse_term, product_op, sum_op, Parse,
};
use crate::literal::is_number_literal;
use crate::steps::well_formed;
use crate::tokenizer::{lemma_lex_used, lex, tokens, Front, Lexed, TokenStream};
use crate::tree_of;
use crate::utils::{binary, spec_is_operator, unary, NodeView, Op, TokenTypeView, TokenView};
use vstd::prelude::*;

verus! {

/// A token is valid when a number holds a number literal and an operator
/// is one of the five.
pub open spec fn valid_token(t: TokenView) -> bool {
    match t.token {
        TokenTypeView::Number(text) => is_number_literal(text),
        TokenTypeView::Operator(c) => spec_is_operator(c),
        TokenTypeView::Delimiter(_) => true,
    }
}

/// A stream is valid when all its tokens are.
pub open spec fn valid_stream(s: TokenStream) -> bool {
    forall|i: int| 0 <= i < s.tokens.len() ==> valid_token(#[trigger] s.tokens[i])
}

/// Every token that the tokenizer reads is valid.
pub proof fn lemma_tokens_valid(cs: Seq<(usize, char)>)
    ensures
        valid_stream(tokens(cs)),
    decreases cs.len(),
{
    lemma_lex_valid(cs);
    match lex(cs) {
        Lexed::Token { token, used } => {
            lemma_lex_used(cs);
            lemma_tokens_valid(cs.skip(used as int));
            let rest = tokens(cs.skip(used as int));
            assert forall|i: int| 0 <= i < tokens(cs).tokens.len() implies valid_token(
                #[trigger] tokens(cs).tokens[i],
            ) by {
                if i > 0 {
                    assert(tokens(cs).tokens[i] == rest.tokens[i - 1]);
                }
            }
        },
        _ => {},
    }
}

proof fn lemma_lex_valid(cs: Seq<(usize, char)>)
    ensures
        lex(cs) matches Lexed::Token { token, .. } ==> valid_token(token),
    decreases cs.len(),
{
    if cs.len() > 0 {
        lemma_lex_valid(cs.skip(1));
    }
}

/// What is left of a valid stream is valid.
pub proof fn lemma_valid_after(s: TokenStream, k: nat)
    requires
        valid_stream(s),
    ensures
        valid_stream(s.after(k)),
{
    assert forall|i: int| 0 <= i < s.after(k).tokens.len() implies valid_token(
        #[trigger] s.after(k).tokens[i],
    ) by {
        assert(s.after(k).tokens[i] == s.tokens[i + k]);
    }
}

proof fn lemma_well_formed_unary(pos: usize, op: Op, child: NodeView)
    requires
        well_formed(child),
        op == Op::Negation,
    ensures
        well_formed(unary(pos, op, child)),
{
}

proof fn lemma_well_formed_binary(pos: usize, op: Op, left: NodeView, right: NodeView)
    requires
        well_formed(left),
        well_formed(right),
        op != Op::Negation,
    ensures
        well_formed(binary(pos, op, left, right)),
{
}

proof fn lemma_primary_well_formed(s: TokenStream)
    requires
        valid_stream(s),
    ensures
        parse_primary(s) matches Parse::Done { node, .. } ==> well_formed(node),
    decreases s.tokens.len(), 0nat,
{
    match s.front() {
        Front::Token(t) => {
            assert(valid_token(s.tokens[0]));
            if t.token is Delimiter {
                lemma_valid_after(s, 1);
                lemma_expression_well_formed(s.after(1));
            }
        },
        _ => {},
    }
}

proof fn lemma_factor_well_formed(s: TokenStream)
    requires
        valid_stream(s),
    ensures
        parse_factor(s) matches Parse::Done { node, .. } ==> well_formed(node),
    decreases s.tokens.len(), 1nat,
{
    lemma_primary_well_formed(s);
    match parse_primary(s) {
        Parse::Done { node, used } => {
            lemma_valid_after(s, used);
            lemma_power_well_formed(s.after(used), node);
        },
        _ => {},
    }
}

proof fn lemma_power_well_formed(s: TokenStream, base: NodeView)
    requires
        valid_stream(s),
        well_formed(base),
    ensures
        parse_power(s, base) matches Parse::Done { node, .. } ==> well_formed(node),
    decreases s.tokens.len(), 0nat,
{
    match s.front() {
        Front::Token(t) => {
            if is_operator_token(t, '^') {
                lemma_valid_after(s, 1);
                lemma_factor_well_formed(s.after(1));
                match parse_factor(s.after(1)) {
                    Parse::Done { node, .. } => {
                        lemma_well_formed_binary(t.pos, Op::Exponentiation, base, node);
                    },
                    _ => {},
                }
            }
        },
        _ => {},
    }
}

proof fn lemma_term_well_formed(s: TokenStream)
    requires
        valid_stream(s),
    ensures
        parse_term(s) matches Parse::Done { node, .. } ==> well_formed(node),
    decreases s.tokens.len(), 3nat,
{
    lemma_factor_well_formed(s);
    match parse_factor(s) {
        Parse::Done { node, used } => {
            lemma_valid_after(s, used);
            lemma_product_well_formed(s.after(used), node);
        },
        _ => {},
    }
}

proof fn lemma_product_well_formed(s: TokenStream, left: NodeView)
    requires
        valid_stream(s),
        well_formed(left),
    ensures
        parse_product(s, left) matches Parse::Done { node, .. } ==> well_formed(node),
    decreases s.tokens.len(), 2nat,
{
    match s.front() {
        Front::Token(t) => {
            if let Some(op) = product_op(t.token.kind()) {
                lemma_valid_after(s, 1);
                lemma_factor_well_formed(s.after(1));
                match parse_factor(s.after(1)) {
                    Parse::Done { node, used } => {
                        lemma_well_formed_binary(t.pos, op, left, node);
                        lemma_valid_after(s, used + 1);
                        lemma_product_well_formed(s.after(used + 1), binary(t.pos, op, left, node));
                    },
                    _ => {},
                }
            } else {
                lemma_factor_well_formed(s);
                match parse_factor(s) {
                    Parse::Done { node, used } => {
                        if used > 0 {
                            lemma_well_formed_binary(t.pos, Op::Multiplication, left, node);
                            lemma_valid_after(s, used);
                            lemma_product_well_formed(
                                s.after(used),
                                binary(t.pos, Op::Multiplication, left, node),
                            );
                        }
                    },
                    _ => {},
                }
            }
        },
        _ => {},
    }
}

proof fn lemma_expression_well_formed(s: TokenStream)
    requires
        valid_stream(s),
    ensures
        parse_expression(s) matches Parse::Done { node, .. } ==> well_formed(node),
    decreases s.tokens.len(), 5nat,
{
    match s.front() {
        Front::Token(t) if is_operator_token(t, '-') => {
            lemma_valid_after(s, 1);
            lemma_term_well_formed(s.after(1));
            match parse_term(s.after(1)) {
                Parse::Done { node, used } => {
                    lemma_well_formed_unary(t.pos, Op::Negation, node);
                    lemma_valid_after(s, used + 1);
                    lemma_sum_well_formed(s.after(used + 1), unary(t.pos, Op::Negation, node));
                },
                _ => {},
            }
        },
        _ => {
            lemma_term_well_formed(s);
            match parse_term(s) {
                Parse::Done { node, used } => {
                    lemma_valid_after(s, used);
                    lemma_sum_well_formed(s.after(used), node);
                },
                _ => {},
            }
        },
    }
}

proof fn lemma_sum_well_formed(s: TokenStream, left: NodeView)
    requires
        valid_stream(s),
        well_formed(left),
    ensures
        parse_sum(s, left) matches Parse::Done { node, .. } ==> well_formed(node),
    decreases s.tokens.len(), 4nat,
{
    match s.front() {
        Front::Token(t) => {
            if let Some(op) = sum_op(t.token.kind()) {
                lemma_valid_after(s, 1);
                lemma_term_well_formed(s.after(1));
                match parse_term(s.after(1)) {
                    Parse::Done { node, used } => {
                        lemma_well_formed_binary(t.pos, op, left, node);
                        lemma_valid_after(s, used + 1);
                        lemma_sum_well_formed(s.after(used + 1), binary(t.pos, op, left, node));
                    },
                    _ => {},
                }
            }
        },
        _ => {},
    }
}

/// Every tree that is read from an input is well formed: its leaves hold
/// numbers, a negation has one child, and every other operation has two.
pub proof fn lemma_tree_well_formed(input: Seq<char>)
    ensures
        tree_of(input) matches Ok(tree) ==> well_formed(tree),
{
    lemma_tokens_valid(significant(input));
    lemma_expression_well_formed(tokens(significant(input)));
}

} // verus!
