use crate::tokenizer::{Front, TokenStream};
use crate::utils::{
    binary, leaf, unary, Delimiter, NodeView, Op, ParseError, Side, TokenKind, TokenTypeView,
    TokenView,
};
use vstd::prelude::*;

verus! {

/// The outcome of applying a rule of the grammar at the head of a stream:
/// the tree it builds or the error it meets, and how many tokens it took
/// until then.
pub enum Parse {
    Done { node: NodeView, used: nat },
    Failed { error: ParseError, used: nat },
}

impl Parse {
    /// The same outcome after `k` more tokens in front.
    pub open spec fn shift(self, k: nat) -> Parse {
        match self {
            Parse::Done { node, used } => Parse::Done { node, used: used + k },
            Parse::Failed { error, used } => Parse::Failed { error, used: used + k },
        }
    }

    /// How many tokens were taken.
    pub open spec fn used(self) -> nat {
        match self {
            Parse::Done { used, .. } => used,
            Parse::Failed { used, .. } => used,
        }
    }
}

/// `t` is the operator `c`.
pub open spec fn is_operator_token(t: TokenView, c: char) -> bool {
    t.token == TokenTypeView::Operator(c)
}

/// `t` is a closing parenthesis.
pub open spec fn is_close(t: TokenView) -> bool {
    t.token == TokenTypeView::Delimiter(Delimiter::Paranthesis(Side::Close))
}

/// The error for a token that cannot stand where it was found.
pub open spec fn unexpected(t: TokenView) -> ParseError {
    ParseError::UnexpectedToken(t.token.kind(), t.pos)
}

/// The operation that joins two factors of a term, if `kind` is the token
/// of one.
pub open spec fn spec_product_op(kind: TokenKind) -> Option<Op> {
    if kind == TokenKind::Operator('*') {
        Some(Op::Multiplication)
    } else if kind == TokenKind::Operator('/') {
        Some(Op::Division)
    } else {
        None
    }
}

/// The operation that joins two terms of an expression, if `kind` is the
/// token of one.
pub open spec fn spec_sum_op(kind: TokenKind) -> Option<Op> {
    if kind == TokenKind::Operator('+') {
        Some(Op::Addition)
    } else if kind == TokenKind::Operator('-') {
        Some(Op::Subtraction)
    } else {
        None
    }
}

/// Whether a factor can start with a token of this kind: a number or an
/// opening parenthesis.
pub open spec fn spec_starts_factor(kind: TokenKind) -> bool {
    kind == TokenKind::Number || kind == TokenKind::Delimiter(Delimiter::Paranthesis(Side::Open))
}

/// The operation that joins two factors of a term, if `kind` is the token
/// of one.
#[verifier::when_used_as_spec(spec_product_op)]
pub fn product_op(kind: TokenKind) -> (r: Option<Op>)
    ensures
        r == spec_product_op(kind),
{
    match kind {
        TokenKind::Operator('*') => Some(Op::Multiplication),
        TokenKind::Operator('/') => Some(Op::Division),
        _ => None,
    }
}

/// The operation that joins two terms of an expression, if `kind` is the
/// token of one.
#[verifier::when_used_as_spec(spec_sum_op)]
pub fn sum_op(kind: TokenKind) -> (r: Option<Op>)
    ensures
        r == spec_sum_op(kind),
{
    match kind {
        TokenKind::Operator('+') => Some(Op::Addition),
        TokenKind::Operator('-') => Some(Op::Subtraction),
        _ => None,
    }
}

/// Whether a factor can start with a token of this kind: a number or an
/// opening parenthesis.
#[verifier::when_used_as_spec(spec_starts_factor)]
pub fn starts_factor(kind: TokenKind) -> (r: bool)
    ensures
        r == spec_starts_factor(kind),
{
    match kind {
        TokenKind::Number => true,
        TokenKind::Delimiter(Delimiter::Paranthesis(Side::Open)) => true,
        _ => false,
    }
}

/// `primary := number | '(' expression ')'`
///
/// Where the input ends behind the expression in parentheses, the opening
/// parenthesis has no partner.
pub open spec fn parse_primary(s: TokenStream) -> Parse
    decreases s.tokens.len(), 0nat,
{
    match s.front() {
        Front::Fault(e) => Parse::Failed { error: e, used: 0 },
        Front::End => Parse::Failed { error: ParseError::UnexpectedEndOfInput, used: 0 },
        Front::Token(t) => match t.token {
            TokenTypeView::Number(text) => Parse::Done { node: leaf(t.pos, text), used: 1 },
            TokenTypeView::Delimiter(Delimiter::Paranthesis(Side::Open)) => match parse_expression(
                s.after(1),
            ) {
                Parse::Failed { error, used } => Parse::Failed { error, used: used + 1 },
                Parse::Done { node, used } => match s.after(used + 1).front() {
                    Front::Fault(e) => Parse::Failed { error: e, used: used + 1 },
                    Front::End => Parse::Failed {
                        error: ParseError::UnmatchedParenthesis(t.pos),
                        used: used + 1,
                    },
                    Front::Token(c) => if is_close(c) {
                        Parse::Done { node, used: used + 2 }
                    } else {
                        Parse::Failed { error: unexpected(c), used: used + 1 }
                    },
                },
            },
            _ => Parse::Failed { error: unexpected(t), used: 0 },
        },
    }
}

/// `factor := primary ['^' factor]`
pub open spec fn parse_factor(s: TokenStream) -> Parse
    decreases s.tokens.len(), 1nat,
{
    match parse_primary(s) {
        Parse::Done { node, used } => parse_power(s.after(used), node).shift(used),
        failed => failed,
    }
}

/// The optional `'^' factor` behind the operand `base`. The exponent is a
/// factor again, so exponentiation groups to the right.
pub open spec fn parse_power(s: TokenStream, base: NodeView) -> Parse
    decreases s.tokens.len(), 0nat,
{
    match s.front() {
        Front::Fault(e) => Parse::Failed { error: e, used: 0 },
        Front::End => Parse::Done { node: base, used: 0 },
        Front::Token(t) => if is_operator_token(t, '^') {
            match parse_factor(s.after(1)) {
                Parse::Done { node, used } => Parse::Done {
                    node: binary(t.pos, Op::Exponentiation, base, node),
                    used: used + 1,
                },
                Parse::Failed { error, used } => Parse::Failed { error, used: used + 1 },
            }
        } else {
            Parse::Done { node: base, used: 0 }
        },
    }
}

/// `term := factor (('*' | '/' | implicit) factor)*`
pub open spec fn parse_term(s: TokenStream) -> Parse
    decreases s.tokens.len(), 3nat,
{
    match parse_factor(s) {
        Parse::Done { node, used } => parse_product(s.after(used), node).shift(used),
        failed => failed,
    }
}

/// The factors that follow `left` in a term, each joined to what stands
/// left of it. A number or an opening parenthesis where an operator could
/// stand starts a factor that multiplies; its node takes that token's
/// offset.
pub open spec fn parse_product(s: TokenStream, left: NodeView) -> Parse
    decreases s.tokens.len(), 2nat,
{
    match s.front() {
        Front::Fault(e) => Parse::Failed { error: e, used: 0 },
        Front::End => Parse::Done { node: left, used: 0 },
        Front::Token(t) => if let Some(op) = product_op(t.token.kind()) {
            match parse_factor(s.after(1)) {
                Parse::Done { node, used } => parse_product(
                    s.after(used + 1),
                    binary(t.pos, op, left, node),
                ).shift(used + 1),
                Parse::Failed { error, used } => Parse::Failed { error, used: used + 1 },
            }
        } else if starts_factor(t.token.kind()) {
            match parse_factor(s) {
                Parse::Done { node, used } => if used > 0 {
                    parse_product(
                        s.after(used),
                        binary(t.pos, Op::Multiplication, left, node),
                    ).shift(used)
                } else {
                    // never met: a factor takes at least one token
                    Parse::Failed { error: unexpected(t), used: 0 }
                },
                failed => failed,
            }
        } else {
            Parse::Done { node: left, used: 0 }
        },
    }
}

/// `expression := ['-'] term (('+' | '-') term)*`
///
/// A leading minus sign negates the whole first term.
pub open spec fn parse_expression(s: TokenStream) -> Parse
    decreases s.tokens.len(), 5nat,
{
    match s.front() {
        Front::Token(t) if is_operator_token(t, '-') => match parse_term(s.after(1)) {
            Parse::Done { node, used } => parse_sum(
                s.after(used + 1),
                unary(t.pos, Op::Negation, node),
            ).shift(used + 1),
            Parse::Failed { error, used } => Parse::Failed { error, used: used + 1 },
        },
        _ => match parse_term(s) {
            Parse::Done { node, used } => parse_sum(s.after(used), node).shift(used),
            failed => failed,
        },
    }
}

/// The terms that follow `left` in an expression, each added to or
/// subtracted from what stands left of it.
pub open spec fn parse_sum(s: TokenStream, left: NodeView) -> Parse
    decreases s.tokens.len(), 4nat,
{
    match s.front() {
        Front::Fault(e) => Parse::Failed { error: e, used: 0 },
        Front::End => Parse::Done { node: left, used: 0 },
        Front::Token(t) => if let Some(op) = sum_op(t.token.kind()) {
            match parse_term(s.after(1)) {
                Parse::Done { node, used } => parse_sum(
                    s.after(used + 1),
                    binary(t.pos, op, left, node),
                ).shift(used + 1),
                Parse::Failed { error, used } => Parse::Failed { error, used: used + 1 },
            }
        } else {
            Parse::Done { node: left, used: 0 }
        },
    }
}

/// The outcome of reading a whole stream as one expression. What is left
/// behind the expression is an error: a closing parenthesis has no partner.
pub open spec fn parse(s: TokenStream) -> Parse {
    match parse_expression(s) {
        Parse::Done { node, used } => match s.after(used).front() {
            Front::End => Parse::Done { node, used },
            Front::Fault(e) => Parse::Failed { error: e, used },
            Front::Token(t) => Parse::Failed {
                error: if is_close(t) {
                    ParseError::UnmatchedParenthesis(t.pos)
                } else {
                    unexpected(t)
                },
                used,
            },
        },
        failed => failed,
    }
}

/// Taking `a` tokens and then `b` more is taking `a + b`.
pub proof fn lemma_after_after(s: TokenStream, a: nat, b: nat)
    ensures
        s.after(a).after(b) == s.after(a + b),
{
    assert(s.after(a).after(b).tokens =~= s.after(a + b).tokens);
}

/// Taking no token leaves the stream as it is.
pub proof fn lemma_after_zero(s: TokenStream)
    ensures
        s.after(0) == s,
{
    assert(s.after(0).tokens =~= s.tokens);
}

/// A factor that is read takes at least one token.
pub proof fn lemma_factor_takes(s: TokenStream)
    ensures
        parse_primary(s) matches Parse::Done { used, .. } ==> used >= 1,
        parse_factor(s) matches Parse::Done { used, .. } ==> used >= 1,
{
}

} // verus!
