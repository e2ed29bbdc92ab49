use crate::grammar::{
    is_close, is_operator_token, lemma_after_after, lemma_after_zero, parse, parse_expression,
    parse_factor, parse_power, parse_primary, parse_product, parse_sum, parse_term, product_op,
    starts_factor, sum_op, Parse,
};
use crate::shape::{lemma_valid_after, valid_stream, valid_token};
use crate::tokenizer::{Front, TokenStream};
use crate::utils::{binary, unary, NodeView, Op, ParseError};
use vstd::prelude::*;

verus! {

proof fn lemma_after_len(s: TokenStream, k: nat)
    ensures
        k <= s.tokens.len() ==> s.after(k).tokens.len() == s.tokens.len() - k,
        k > s.tokens.len() ==> s.after(k).tokens.len() == 0,
{
}

proof fn lemma_primary_bounded(s: TokenStream)
    ensures
        parse_primary(s).used() <= s.tokens.len(),
    decreases s.tokens.len(), 0nat,
{
    match s.front() {
        Front::Token(t) => {
            if t.token is Delimiter {
                lemma_expression_bounded(s.after(1));
                lemma_after_len(s, parse_expression(s.after(1)).used() + 1);
            }
        },
        _ => {},
    }
}

proof fn lemma_factor_bounded(s: TokenStream)
    ensures
        parse_factor(s).used() <= s.tokens.len(),
    decreases s.tokens.len(), 1nat,
{
    lemma_primary_bounded(s);
    match parse_primary(s) {
        Parse::Done { node, used } => {
            lemma_after_len(s, used);
            lemma_power_bounded(s.after(used), node);
        },
        _ => {},
    }
}

proof fn lemma_power_bounded(s: TokenStream, base: NodeView)
    ensures
        parse_power(s, base).used() <= s.tokens.len(),
    decreases s.tokens.len(), 0nat,
{
    match s.front() {
        Front::Token(t) => {
            if is_operator_token(t, '^') {
                lemma_factor_bounded(s.after(1));
            }
        },
        _ => {},
    }
}

proof fn lemma_term_bounded(s: TokenStream)
    ensures
        parse_term(s).used() <= s.tokens.len(),
    decreases s.tokens.len(), 3nat,
{
    lemma_factor_bounded(s);
    match parse_factor(s) {
        Parse::Done { node, used } => {
            lemma_after_len(s, used);
            lemma_product_bounded(s.after(used), node);
        },
        _ => {},
    }
}

proof fn lemma_product_bounded(s: TokenStream, left: NodeView)
    ensures
        parse_product(s, left).used() <= s.tokens.len(),
    decreases s.tokens.len(), 2nat,
{
    match s.front() {
        Front::Token(t) => {
            if let Some(op) = product_op(t.token.kind()) {
                lemma_factor_bounded(s.after(1));
                match parse_factor(s.after(1)) {
                    Parse::Done { node, used } => {
                        lemma_after_len(s, used + 1);
                        lemma_product_bounded(s.after(used + 1), binary(t.pos, op, left, node));
                    },
                    _ => {},
                }
            } else {
                lemma_factor_bounded(s);
                match parse_factor(s) {
                    Parse::Done { node, used } => {
                        if used > 0 {
                            lemma_after_len(s, used);
                            lemma_product_bounded(
                                s.after(used),
                                binary(t.pos, Op::Multiplication, left, node),
                            );
                        }
                    },
                    _ => {},
                }
            }
        },
        _ => {},
    }
}

proof fn lemma_expression_bounded(s: TokenStream)
    ensures
        parse_expression(s).used() <= s.tokens.len(),
    decreases s.tokens.len(), 5nat,
{
    match s.front() {
        Front::Token(t) if is_operator_token(t, '-') => {
            lemma_term_bounded(s.after(1));
            match parse_term(s.after(1)) {
                Parse::Done { node, used } => {
                    lemma_after_len(s, used + 1);
                    lemma_sum_bounded(s.after(used + 1), unary(t.pos, Op::Negation, node));
                },
                _ => {},
            }
        },
        _ => {
            lemma_term_bounded(s);
            match parse_term(s) {
                Parse::Done { node, used } => {
                    lemma_after_len(s, used);
                    lemma_sum_bounded(s.after(used), node);
                },
                _ => {},
            }
        },
    }
}

proof fn lemma_sum_bounded(s: TokenStream, left: NodeView)
    ensures
        parse_sum(s, left).used() <= s.tokens.len(),
    decreases s.tokens.len(), 4nat,
{
    match s.front() {
        Front::Token(t) => {
            if let Some(op) = sum_op(t.token.kind()) {
                lemma_term_bounded(s.after(1));
                match parse_term(s.after(1)) {
                    Parse::Done { node, used } => {
                        lemma_after_len(s, used + 1);
                        lemma_sum_bounded(s.after(used + 1), binary(t.pos, op, left, node));
                    },
                    _ => {},
                }
            }
        },
        _ => {},
    }
}

/// Reading never takes more tokens than there are, and where it succeeds
/// it has taken them all and met no fault: nothing of the input is left
/// over.
pub proof fn lemma_parse_takes_all(s: TokenStream)
    ensures
        parse(s).used() <= s.tokens.len(),
        parse(s) matches Parse::Done { used, .. } ==> used == s.tokens.len() && s.fault.is_none(),
{
    lemma_expression_bounded(s);
    lemma_after_len(s, parse_expression(s).used());
}

/// Nothing that could continue a factor stands at the head of `s`: no
/// fault, and no `^`.
pub open spec fn ends_factor(s: TokenStream) -> bool {
    match s.front() {
        Front::Fault(_) => false,
        Front::End => true,
        Front::Token(t) => !is_operator_token(t, '^'),
    }
}

/// Nothing that could continue a term stands at the head of `s`.
pub open spec fn ends_term(s: TokenStream) -> bool {
    &&& ends_factor(s)
    &&& s.front() matches Front::Token(t) ==> product_op(t.token.kind()).is_none()
        && !starts_factor(t.token.kind())
}

/// Nothing that could continue an expression stands at the head of `s`.
pub open spec fn ends_expression(s: TokenStream) -> bool {
    &&& ends_term(s)
    &&& s.front() matches Front::Token(t) ==> sum_op(t.token.kind()).is_none()
}

proof fn lemma_factor_ends(s: TokenStream)
    ensures
        parse_factor(s) matches Parse::Done { used, .. } ==> ends_factor(s.after(used)),
    decreases s.tokens.len(), 1nat,
{
    match parse_primary(s) {
        Parse::Done { node, used } => {
            lemma_power_ends(s.after(used), node);
            lemma_after_after(s, used, parse_power(s.after(used), node).used());
        },
        _ => {},
    }
}

proof fn lemma_power_ends(s: TokenStream, base: NodeView)
    ensures
        parse_power(s, base) matches Parse::Done { used, .. } ==> ends_factor(s.after(used)),
    decreases s.tokens.len(), 0nat,
{
    lemma_after_zero(s);
    match s.front() {
        Front::Token(t) => {
            if is_operator_token(t, '^') {
                lemma_factor_ends(s.after(1));
                lemma_after_after(s, 1, parse_factor(s.after(1)).used());
            }
        },
        _ => {},
    }
}

proof fn lemma_term_ends(s: TokenStream)
    ensures
        parse_term(s) matches Parse::Done { used, .. } ==> ends_term(s.after(used)),
    decreases s.tokens.len(), 3nat,
{
    lemma_factor_ends(s);
    match parse_factor(s) {
        Parse::Done { node, used } => {
            lemma_product_ends(s.after(used), node);
            lemma_after_after(s, used, parse_product(s.after(used), node).used());
        },
        _ => {},
    }
}

proof fn lemma_product_ends(s: TokenStream, left: NodeView)
    requires
        ends_factor(s),
    ensures
        parse_product(s, left) matches Parse::Done { used, .. } ==> ends_term(s.after(used)),
    decreases s.tokens.len(), 2nat,
{
    lemma_after_zero(s);
    match s.front() {
        Front::Token(t) => {
            if let Some(op) = product_op(t.token.kind()) {
                lemma_factor_ends(s.after(1));
                match parse_factor(s.after(1)) {
                    Parse::Done { node, used } => {
                        let next = binary(t.pos, op, left, node);
                        lemma_after_after(s, 1, used);
                        lemma_product_ends(s.after(used + 1), next);
                        lemma_after_after(
                            s,
                            used + 1,
                            parse_product(s.after(used + 1), next).used(),
                        );
                    },
                    _ => {},
                }
            } else if starts_factor(t.token.kind()) {
                lemma_factor_ends(s);
                match parse_factor(s) {
                    Parse::Done { node, used } => {
                        if used > 0 {
                            let next = binary(t.pos, Op::Multiplication, left, node);
                            lemma_product_ends(s.after(used), next);
                            lemma_after_after(s, used, parse_product(s.after(used), next).used());
                        }
                    },
                    _ => {},
                }
            }
        },
        _ => {},
    }
}

proof fn lemma_expression_ends(s: TokenStream)
    ensures
        parse_expression(s) matches Parse::Done { used, .. } ==> ends_expression(s.after(used)),
    decreases s.tokens.len(), 5nat,
{
    match s.front() {
        Front::Token(t) if is_operator_token(t, '-') => {
            lemma_term_ends(s.after(1));
            match parse_term(s.after(1)) {
                Parse::Done { node, used } => {
                    let first = unary(t.pos, Op::Negation, node);
                    lemma_after_after(s, 1, used);
                    lemma_sum_ends(s.after(used + 1), first);
                    lemma_after_after(s, used + 1, parse_sum(s.after(used + 1), first).used());
                },
                _ => {},
            }
        },
        _ => {
            lemma_term_ends(s);
            match parse_term(s) {
                Parse::Done { node, used } => {
                    lemma_sum_ends(s.after(used), node);
                    lemma_after_after(s, used, parse_sum(s.after(used), node).used());
                },
                _ => {},
            }
        },
    }
}

proof fn lemma_sum_ends(s: TokenStream, left: NodeView)
    requires
        ends_term(s),
    ensures
        parse_sum(s, left) matches Parse::Done { used, .. } ==> ends_expression(s.after(used)),
    decreases s.tokens.len(), 4nat,
{
    lemma_after_zero(s);
    match s.front() {
        Front::Token(t) => {
            if let Some(op) = sum_op(t.token.kind()) {
                lemma_term_ends(s.after(1));
                match parse_term(s.after(1)) {
                    Parse::Done { node, used } => {
                        let next = binary(t.pos, op, left, node);
                        lemma_after_after(s, 1, used);
                        lemma_sum_ends(s.after(used + 1), next);
                        lemma_after_after(s, used + 1, parse_sum(s.after(used + 1), next).used());
                    },
                    _ => {},
                }
            }
        },
        _ => {},
    }
}

/// Behind an expression that was read from valid tokens stands the end of
/// the input or a closing parenthesis, nothing else: whatever could go on
/// has been read as part of the expression.
pub proof fn lemma_behind_an_expression(s: TokenStream)
    requires
        valid_stream(s),
    ensures
        parse_expression(s) matches Parse::Done { used, .. } ==> match s.after(used).front() {
            Front::End => true,
            Front::Token(t) => is_close(t),
            Front::Fault(_) => false,
        },
{
    lemma_expression_ends(s);
    match parse_expression(s) {
        Parse::Done { used, .. } => {
            lemma_valid_after(s, used);
            let rest = s.after(used);
            if rest.tokens.len() > 0 {
                assert(valid_token(rest.tokens[0]));
            }
        },
        _ => {},
    }
}

/// A whole input of valid tokens is refused as an unexpected token only in
/// front of or inside the expression, never behind it: what is left over
/// there is a closing parenthesis without a partner.
pub proof fn lemma_left_over_is_a_parenthesis(s: TokenStream)
    requires
        valid_stream(s),
    ensures
        parse_expression(s) matches Parse::Done { used, .. } ==> (parse(s) is Done || (
        s.after(used).front() matches Front::Token(t) && parse(s) == (Parse::Failed {
            error: ParseError::UnmatchedParenthesis(t.pos),
            used,
        }))),
{
    lemma_behind_an_expression(s);
}

} // verus!
