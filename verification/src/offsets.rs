use crate::grammar::{
    is_operator_token, parse, parse_expression, parse_factor, parse_power, parse_primary,
    parse_product, parse_sum, parse_term, product_op, sum_op, Parse,
};
use crate::steps::{postfix, postfix_first};
use crate::tokenizer::{Front, TokenStream};
use crate::utils::{binary, leaf, unary, NodeTypeView, NodeView, Op, TokenTypeView};
use vstd::prelude::*;

verus! {

/// The tree with every offset set to zero: what is left of a tree once it
/// is forgotten where in the input its parts stood.
pub open spec fn unplaced(t: NodeView) -> NodeView
    decreases t, 0nat,
{
    NodeView {
        pos: 0,
        node: match t.node {
            NodeTypeView::Number(text) => NodeTypeView::Number(text),
            NodeTypeView::Operation(op, children) => NodeTypeView::Operation(
                op,
                unplaced_all(children),
            ),
        },
    }
}

/// Each of `children` with every offset set to zero.
pub open spec fn unplaced_all(children: Seq<NodeView>) -> Seq<NodeView>
    decreases children, 1nat,
{
    Seq::new(
        children.len(),
        |i: int|
            if 0 <= i < children.len() {
                unplaced(children[i])
            } else {
                arbitrary()
            },
    )
}

/// Two streams hold the same tokens, whatever their offsets, and both or
/// neither end in a fault.
pub open spec fn same_contents(a: TokenStream, b: TokenStream) -> bool {
    &&& a.tokens.len() == b.tokens.len()
    &&& forall|i: int|
        0 <= i < a.tokens.len() ==> (#[trigger] a.tokens[i]).token == b.tokens[i].token
    &&& a.fault.is_some() == b.fault.is_some()
}

/// Two outcomes took as many tokens and are both errors, or both trees
/// that differ in their offsets at most.
pub open spec fn alike(p: Parse, q: Parse) -> bool {
    &&& p.used() == q.used()
    &&& match (p, q) {
        (Parse::Done { node: x, .. }, Parse::Done { node: y, .. }) => unplaced(x) == unplaced(y),
        (Parse::Failed { .. }, Parse::Failed { .. }) => true,
        _ => false,
    }
}

proof fn lemma_unplaced_leaf(pos: usize, text: Seq<char>)
    ensures
        unplaced(leaf(pos, text)) == leaf(0, text),
{
}

proof fn lemma_unplaced_unary(pos: usize, op: Op, child: NodeView)
    ensures
        unplaced(unary(pos, op, child)) == unary(0, op, unplaced(child)),
{
    assert(unplaced(unary(pos, op, child)).node->Operation_1 =~= seq![unplaced(child)]);
}

proof fn lemma_unplaced_binary(pos: usize, op: Op, left: NodeView, right: NodeView)
    ensures
        unplaced(binary(pos, op, left, right)) == binary(0, op, unplaced(left), unplaced(right)),
{
    assert(unplaced(binary(pos, op, left, right)).node->Operation_1 =~= seq![
        unplaced(left),
        unplaced(right),
    ]);
}

/// The steps of a tree do not depend on its offsets.
pub proof fn lemma_postfix_unplaced(t: NodeView)
    ensures
        postfix(unplaced(t)) == postfix(t),
    decreases t, 0nat,
{
    reveal(postfix);
    reveal(postfix_first);
    match t.node {
        NodeTypeView::Number(_) => {},
        NodeTypeView::Operation(op, children) => {
            lemma_postfix_first_unplaced(children, children.len());
        },
    }
}

proof fn lemma_postfix_first_unplaced(children: Seq<NodeView>, n: nat)
    requires
        n <= children.len(),
    ensures
        postfix_first(unplaced_all(children), n) == postfix_first(children, n),
    decreases children, n,
{
    reveal(postfix);
    reveal(postfix_first);
    if n > 0 {
        lemma_postfix_first_unplaced(children, (n - 1) as nat);
        lemma_postfix_unplaced(children[n - 1]);
    }
}

proof fn lemma_same_after(a: TokenStream, b: TokenStream, k: nat)
    requires
        same_contents(a, b),
    ensures
        same_contents(a.after(k), b.after(k)),
{
    assert forall|i: int| 0 <= i < a.after(k).tokens.len() implies (#[trigger] a.after(
        k,
    ).tokens[i]).token == b.after(k).tokens[i].token by {
        assert(a.after(k).tokens[i] == a.tokens[i + k]);
        assert(b.after(k).tokens[i] == b.tokens[i + k]);
    }
}

proof fn lemma_same_front(a: TokenStream, b: TokenStream)
    requires
        same_contents(a, b),
    ensures
        match (a.front(), b.front()) {
            (Front::Token(x), Front::Token(y)) => x.token == y.token,
            (Front::End, Front::End) => true,
            (Front::Fault(_), Front::Fault(_)) => true,
            _ => false,
        },
{
    if a.tokens.len() > 0 {
        assert(a.tokens[0].token == b.tokens[0].token);
    }
}

proof fn lemma_primary_alike(a: TokenStream, b: TokenStream)
    requires
        same_contents(a, b),
    ensures
        alike(parse_primary(a), parse_primary(b)),
    decreases a.tokens.len(), 0nat,
{
    lemma_same_front(a, b);
    match (a.front(), b.front()) {
        (Front::Token(t), Front::Token(u)) => match t.token {
            TokenTypeView::Number(text) => {
                lemma_unplaced_leaf(t.pos, text);
                lemma_unplaced_leaf(u.pos, text);
            },
            TokenTypeView::Delimiter(_) => {
                lemma_same_after(a, b, 1);
                lemma_expression_alike(a.after(1), b.after(1));
                let used = parse_expression(a.after(1)).used();
                lemma_same_after(a, b, used + 1);
                lemma_same_front(a.after(used + 1), b.after(used + 1));
            },
            _ => {},
        },
        _ => {},
    }
}

proof fn lemma_factor_alike(a: TokenStream, b: TokenStream)
    requires
        same_contents(a, b),
    ensures
        alike(parse_factor(a), parse_factor(b)),
    decreases a.tokens.len(), 1nat,
{
    lemma_primary_alike(a, b);
    match (parse_primary(a), parse_primary(b)) {
        (Parse::Done { node: x, used }, Parse::Done { node: y, .. }) => {
            lemma_same_after(a, b, used);
            lemma_power_alike(a.after(used), b.after(used), x, y);
        },
        _ => {},
    }
}

proof fn lemma_power_alike(a: TokenStream, b: TokenStream, x: NodeView, y: NodeView)
    requires
        same_contents(a, b),
        unplaced(x) == unplaced(y),
    ensures
        alike(parse_power(a, x), parse_power(b, y)),
    decreases a.tokens.len(), 0nat,
{
    lemma_same_front(a, b);
    match (a.front(), b.front()) {
        (Front::Token(t), Front::Token(u)) => {
            if is_operator_token(t, '^') {
                lemma_same_after(a, b, 1);
                lemma_factor_alike(a.after(1), b.after(1));
                match (parse_factor(a.after(1)), parse_factor(b.after(1))) {
                    (Parse::Done { node: p, .. }, Parse::Done { node: q, .. }) => {
                        lemma_unplaced_binary(t.pos, Op::Exponentiation, x, p);
                        lemma_unplaced_binary(u.pos, Op::Exponentiation, y, q);
                    },
                    _ => {},
                }
            }
        },
        _ => {},
    }
}

proof fn lemma_term_alike(a: TokenStream, b: TokenStream)
    requires
        same_contents(a, b),
    ensures
        alike(parse_term(a), parse_term(b)),
    decreases a.tokens.len(), 3nat,
{
    lemma_factor_alike(a, b);
    match (parse_factor(a), parse_factor(b)) {
        (Parse::Done { node: x, used }, Parse::Done { node: y, .. }) => {
            lemma_same_after(a, b, used);
            lemma_product_alike(a.after(used), b.after(used), x, y);
        },
        _ => {},
    }
}

proof fn lemma_product_alike(a: TokenStream, b: TokenStream, x: NodeView, y: NodeView)
    requires
        same_contents(a, b),
        unplaced(x) == unplaced(y),
    ensures
        alike(parse_product(a, x), parse_product(b, y)),
    decreases a.tokens.len(), 2nat,
{
    lemma_same_front(a, b);
    match (a.front(), b.front()) {
        (Front::Token(t), Front::Token(u)) => {
            if let Some(op) = product_op(t.token.kind()) {
                lemma_same_after(a, b, 1);
                lemma_factor_alike(a.after(1), b.after(1));
                match (parse_factor(a.after(1)), parse_factor(b.after(1))) {
                    (Parse::Done { node: p, used }, Parse::Done { node: q, .. }) => {
                        lemma_unplaced_binary(t.pos, op, x, p);
                        lemma_unplaced_binary(u.pos, op, y, q);
                        lemma_same_after(a, b, used + 1);
                        lemma_product_alike(
                            a.after(used + 1),
                            b.after(used + 1),
                            binary(t.pos, op, x, p),
                            binary(u.pos, op, y, q),
                        );
                    },
                    _ => {},
                }
            } else {
                lemma_factor_alike(a, b);
                match (parse_factor(a), parse_factor(b)) {
                    (Parse::Done { node: p, used }, Parse::Done { node: q, .. }) => {
                        if used > 0 {
                            lemma_unplaced_binary(t.pos, Op::Multiplication, x, p);
                            lemma_unplaced_binary(u.pos, Op::Multiplication, y, q);
                            lemma_same_after(a, b, used);
                            lemma_product_alike(
                                a.after(used),
                                b.after(used),
                                binary(t.pos, Op::Multiplication, x, p),
                                binary(u.pos, Op::Multiplication, y, q),
                            );
                        }
                    },
                    _ => {},
                }
            }
        },
        _ => {},
    }
}

proof fn lemma_expression_alike(a: TokenStream, b: TokenStream)
    requires
        same_contents(a, b),
    ensures
        alike(parse_expression(a), parse_expression(b)),
    decreases a.tokens.len(), 5nat,
{
    lemma_same_front(a, b);
    match (a.front(), b.front()) {
        (Front::Token(t), Front::Token(u)) if is_operator_token(t, '-') => {
            lemma_same_after(a, b, 1);
            lemma_term_alike(a.after(1), b.after(1));
            match (parse_term(a.after(1)), parse_term(b.after(1))) {
                (Parse::Done { node: p, used }, Parse::Done { node: q, .. }) => {
                    lemma_unplaced_unary(t.pos, Op::Negation, p);
                    lemma_unplaced_unary(u.pos, Op::Negation, q);
                    lemma_same_after(a, b, used + 1);
                    lemma_sum_alike(
                        a.after(used + 1),
                        b.after(used + 1),
                        unary(t.pos, Op::Negation, p),
                        unary(u.pos, Op::Negation, q),
                    );
                },
                _ => {},
            }
        },
        _ => {
            lemma_term_alike(a, b);
            match (parse_term(a), parse_term(b)) {
                (Parse::Done { node: p, used }, Parse::Done { node: q, .. }) => {
                    lemma_same_after(a, b, used);
                    lemma_sum_alike(a.after(used), b.after(used), p, q);
                },
                _ => {},
            }
        },
    }
}

proof fn lemma_sum_alike(a: TokenStream, b: TokenStream, x: NodeView, y: NodeView)
    requires
        same_contents(a, b),
        unplaced(x) == unplaced(y),
    ensures
        alike(parse_sum(a, x), parse_sum(b, y)),
    decreases a.tokens.len(), 4nat,
{
    lemma_same_front(a, b);
    match (a.front(), b.front()) {
        (Front::Token(t), Front::Token(u)) => {
            if let Some(op) = sum_op(t.token.kind()) {
                lemma_same_after(a, b, 1);
                lemma_term_alike(a.after(1), b.after(1));
                match (parse_term(a.after(1)), parse_term(b.after(1))) {
                    (Parse::Done { node: p, used }, Parse::Done { node: q, .. }) => {
                        lemma_unplaced_binary(t.pos, op, x, p);
                        lemma_unplaced_binary(u.pos, op, y, q);
                        lemma_same_after(a, b, used + 1);
                        lemma_sum_alike(
                            a.after(used + 1),
                            b.after(used + 1),
                            binary(t.pos, op, x, p),
                            binary(u.pos, op, y, q),
                        );
                    },
                    _ => {},
                }
            }
        },
        _ => {},
    }
}

/// What is read from a stream depends on what its tokens are, not on where
/// they stood: two streams with the same contents are both read or both
/// refused, and where they are read their trees differ in their offsets at
/// most and their steps not at all.
pub proof fn lemma_parse_ignores_offsets(a: TokenStream, b: TokenStream)
    requires
        same_contents(a, b),
    ensures
        alike(parse(a), parse(b)),
        match (parse(a), parse(b)) {
            (Parse::Done { node: x, .. }, Parse::Done { node: y, .. }) => postfix(x) == postfix(y),
            _ => true,
        },
{
    lemma_expression_alike(a, b);
    match (parse_expression(a), parse_expression(b)) {
        (Parse::Done { node: x, used }, Parse::Done { node: y, .. }) => {
            lemma_same_after(a, b, used);
            lemma_same_front(a.after(used), b.after(used));
            lemma_postfix_unplaced(x);
            lemma_postfix_unplaced(y);
        },
        _ => {},
    }
}

} // verus!
