use crate::expression::significant;
use crate::grammar::{
    is_operator_token, lemma_after_after, lemma_after_zero, lemma_factor_takes, parse,
    parse_expression, parse_factor, parse_primary, parse_product, parse_sum, parse_term,
    product_op, starts_factor, sum_op, Parse,
};
use crate::tokenizer::{tokens, Front, TokenStream, Tokenizer};
use crate::utils::{
    binary, unary, Delimiter, Node, Op, ParseError, Side, Token, TokenKind, TokenType,
};
use vstd::prelude::*;

verus! {

/// `r` is what the outcome `p` of a rule asks for: the tree, or the error.
pub open spec fn is_tree_of(r: Result<Node, ParseError>, p: Parse) -> bool {
    match p {
        Parse::Done { node, .. } => r matches Ok(n) && n@ == node,
        Parse::Failed { error, .. } => r matches Err(e) && e == error,
    }
}

/// Builds the tree of an expression.
pub struct AST {
    tokenizer: Tokenizer,
}

impl AST {
    /// The tokens that are still to be read.
    pub closed spec fn stream(&self) -> TokenStream {
        self.tokenizer.stream()
    }

    /// A builder at the start of `expr`.
    pub fn new(expr: &str) -> (r: AST)
        ensures
            r.stream() == tokens(significant(expr@)),
    {
        AST { tokenizer: Tokenizer::new(expr) }
    }

    /// Reads the rest of the input as one expression and returns its tree.
    /// On an error the builder stops in front of the token that it could
    /// not use.
    pub fn generate(&mut self) -> (r: Result<Node, ParseError>)
        ensures
            is_tree_of(r, parse(old(self).stream())),
            final(self).stream() == old(self).stream().after(parse(old(self).stream()).used()),
    {
        let node = match self.eval_exp() {
            Ok(n) => n,
            Err(e) => {
                return Err(e);
            },
        };
        match self.tokenizer.peek() {
            Err(e) => Err(e),
            Ok(None) => Ok(node),
            Ok(Some((pos, kind))) => match kind {
                TokenKind::Delimiter(Delimiter::Paranthesis(Side::Close)) => Err(
                    ParseError::UnmatchedParenthesis(pos),
                ),
                _ => Err(ParseError::UnexpectedToken(kind, pos)),
            },
        }
    }

    /// Reads an expression, `['-'] term (('+' | '-') term)*`, and returns
    /// its tree.
    fn eval_exp(&mut self) -> (r: Result<Node, ParseError>)
        ensures
            is_tree_of(r, parse_expression(old(self).stream())),
            final(self).stream() == old(self).stream().after(
                parse_expression(old(self).stream()).used(),
            ),
        decreases old(self).stream().tokens.len(), 5nat,
    {
        let ghost s0 = self.stream();
        let sign = self.eval_sign();
        let ghost s1 = self.stream();
        proof {
            lemma_after_after(s0, 1, parse_term(s1).used());
            lemma_after_zero(s0);
        }
        let first = match self.eval_term() {
            Ok(n) => n,
            Err(e) => {
                return Err(e);
            },
        };
        let mut node = match sign {
            Some(pos) => Node::unary(pos, Op::Negation, first),
            None => first,
        };
        let ghost mut k: nat = parse_term(s1).used() + (if sign.is_some() {
            1nat
        } else {
            0nat
        });
        loop
            invariant
                s0 == old(self).stream(),
                self.stream() == s0.after(k),
                parse_expression(s0) == parse_sum(s0.after(k), node@).shift(k),
            decreases self.stream().tokens.len(),
        {
            let (r, Ghost(used)) = self.eval_sum(node);
            proof {
                lemma_after_after(s0, k, used);
                k = k + used;
            }
            match r {
                Ok((joined, true)) => {
                    node = joined;
                },
                Ok((joined, false)) => {
                    return Ok(joined);
                },
                Err(e) => {
                    return Err(e);
                },
            }
        }
    }

    /// Reads one more term of an expression, if one follows, and joins it
    /// to `left`. Returns the tree so far, whether a term was read, and how
    /// many tokens that took.
    fn eval_sum(&mut self, left: Node) -> (r: (Result<(Node, bool), ParseError>, Ghost<nat>))
        ensures
            final(self).stream() == old(self).stream().after(r.1@),
            match r.0 {
                Ok((node, true)) => old(self).stream().tokens.len() > 0 && r.1@ > 0 && parse_sum(
                    old(self).stream(),
                    left@,
                ) == parse_sum(final(self).stream(), node@).shift(r.1@),
                Ok((node, false)) => node@ == left@ && parse_sum(old(self).stream(), left@) == (
                Parse::Done { node: left@, used: r.1@ }),
                Err(e) => parse_sum(old(self).stream(), left@) == (Parse::Failed {
                    error: e,
                    used: r.1@,
                }),
            },
        decreases old(self).stream().tokens.len(), 4nat,
    {
        let ghost s = self.stream();
        proof {
            lemma_after_zero(s);
        }
        let (pos, kind) = match self.tokenizer.peek() {
            Err(e) => {
                return (Err(e), Ghost(0));
            },
            Ok(None) => {
                return (Ok((left, false)), Ghost(0));
            },
            Ok(Some(p)) => p,
        };
        match sum_op(kind) {
            Some(op) => {
                let _ = self.tokenizer.next();
                let ghost used = parse_term(s.after(1)).used();
                proof {
                    lemma_after_after(s, 1, used);
                }
                match self.eval_term() {
                    Ok(right) => (Ok((Node::binary(pos, op, left, right), true)), Ghost(used + 1)),
                    Err(e) => (Err(e), Ghost(used + 1)),
                }
            },
            None => (Ok((left, false)), Ghost(0)),
        }
    }

    /// Reads a term, `factor (('*' | '/' | implicit) factor)*`, and returns
    /// its tree.
    fn eval_term(&mut self) -> (r: Result<Node, ParseError>)
        ensures
            is_tree_of(r, parse_term(old(self).stream())),
            final(self).stream() == old(self).stream().after(parse_term(old(self).stream()).used()),
        decreases old(self).stream().tokens.len(), 3nat,
    {
        let ghost s0 = self.stream();
        let mut node = match self.eval_factor() {
            Ok(n) => n,
            Err(e) => {
                return Err(e);
            },
        };
        let ghost mut k: nat = parse_factor(s0).used();
        loop
            invariant
                s0 == old(self).stream(),
                self.stream() == s0.after(k),
                parse_term(s0) == parse_product(s0.after(k), node@).shift(k),
            decreases self.stream().tokens.len(),
        {
            let (r, Ghost(used)) = self.eval_product(node);
            proof {
                lemma_after_after(s0, k, used);
                k = k + used;
            }
            match r {
                Ok((joined, true)) => {
                    node = joined;
                },
                Ok((joined, false)) => {
                    return Ok(joined);
                },
                Err(e) => {
                    return Err(e);
                },
            }
        }
    }

    /// Reads one more factor of a term, if one follows, and joins it to
    /// `left`. Returns the tree so far, whether a factor was read, and how
    /// many tokens that took.
    fn eval_product(&mut self, left: Node) -> (r: (Result<(Node, bool), ParseError>, Ghost<nat>))
        ensures
            final(self).stream() == old(self).stream().after(r.1@),
            match r.0 {
                Ok((node, true)) => old(self).stream().tokens.len() > 0 && r.1@ > 0
                    && parse_product(old(self).stream(), left@) == parse_product(
                    final(self).stream(),
                    node@,
                ).shift(r.1@),
                Ok((node, false)) => node@ == left@ && parse_product(old(self).stream(), left@) == (
                Parse::Done { node: left@, used: r.1@ }),
                Err(e) => parse_product(old(self).stream(), left@) == (Parse::Failed {
                    error: e,
                    used: r.1@,
                }),
            },
        decreases old(self).stream().tokens.len(), 2nat,
    {
        let ghost s = self.stream();
        proof {
            lemma_after_zero(s);
        }
        let (pos, kind) = match self.tokenizer.peek() {
            Err(e) => {
                return (Err(e), Ghost(0));
            },
            Ok(None) => {
                return (Ok((left, false)), Ghost(0));
            },
            Ok(Some(p)) => p,
        };
        if let Some(op) = product_op(kind) {
            let _ = self.tokenizer.next();
            let ghost used = parse_factor(s.after(1)).used();
            proof {
                lemma_after_after(s, 1, used);
            }
            match self.eval_factor() {
                Ok(right) => (Ok((Node::binary(pos, op, left, right), true)), Ghost(used + 1)),
                Err(e) => (Err(e), Ghost(used + 1)),
            }
        } else if starts_factor(kind) {
            let ghost used = parse_factor(s).used();
            proof {
                lemma_factor_takes(s);
            }
            match self.eval_factor() {
                Ok(right) => (
                    Ok((Node::binary(pos, Op::Multiplication, left, right), true)),
                    Ghost(used),
                ),
                Err(e) => (Err(e), Ghost(used)),
            }
        } else {
            (Ok((left, false)), Ghost(0))
        }
    }

    /// Reads a factor, `primary ['^' factor]`, and returns its tree.
    fn eval_factor(&mut self) -> (r: Result<Node, ParseError>)
        ensures
            is_tree_of(r, parse_factor(old(self).stream())),
            final(self).stream() == old(self).stream().after(
                parse_factor(old(self).stream()).used(),
            ),
        decreases old(self).stream().tokens.len(), 1nat,
    {
        let ghost s0 = self.stream();
        let base = match self.eval_primary() {
            Ok(n) => n,
            Err(e) => {
                return Err(e);
            },
        };
        let ghost k = parse_primary(s0).used();
        let ghost s1 = self.stream();
        proof {
            lemma_factor_takes(s0);
            lemma_after_zero(s1);
        }
        match self.tokenizer.peek() {
            Ok(Some((at, TokenKind::Operator('^')))) => {
                let _ = self.tokenizer.next();
                let ghost used = parse_factor(s1.after(1)).used();
                proof {
                    lemma_after_after(s0, k, 1);
                    lemma_after_after(s0, k + 1, used);
                    lemma_after_after(s0, k, used + 1);
                }
                match self.eval_factor() {
                    Ok(exponent) => Ok(Node::binary(at, Op::Exponentiation, base, exponent)),
                    Err(e) => Err(e),
                }
            },
            Err(e) => Err(e),
            _ => Ok(base),
        }
    }

    /// Reads a primary, `number | '(' expression ')'`, and returns its
    /// tree.
    fn eval_primary(&mut self) -> (r: Result<Node, ParseError>)
        ensures
            is_tree_of(r, parse_primary(old(self).stream())),
            final(self).stream() == old(self).stream().after(
                parse_primary(old(self).stream()).used(),
            ),
        decreases old(self).stream().tokens.len(), 0nat,
    {
        let ghost s0 = self.stream();
        proof {
            lemma_after_zero(s0);
        }
        let (pos, kind) = match self.tokenizer.peek() {
            Err(e) => {
                return Err(e);
            },
            Ok(None) => {
                return Err(ParseError::UnexpectedEndOfInput);
            },
            Ok(Some(p)) => p,
        };
        match kind {
            TokenKind::Number => match self.tokenizer.next() {
                Ok(Some(Token { pos, token: TokenType::Number(text) })) => Ok(
                    Node::number(pos, text),
                ),
                Ok(_) => Err(ParseError::UnexpectedEndOfInput),
                Err(e) => Err(e),
            },
            TokenKind::Delimiter(Delimiter::Paranthesis(Side::Open)) => {
                let _ = self.tokenizer.next();
                let ghost used = parse_expression(s0.after(1)).used();
                proof {
                    lemma_after_after(s0, 1, used);
                    lemma_after_after(s0, used + 1, 1);
                }
                let inner = match self.eval_exp() {
                    Ok(n) => n,
                    Err(e) => {
                        return Err(e);
                    },
                };
                match self.tokenizer.peek() {
                    Err(e) => Err(e),
                    Ok(None) => Err(ParseError::UnmatchedParenthesis(pos)),
                    Ok(Some((at, closing))) => match closing {
                        TokenKind::Delimiter(Delimiter::Paranthesis(Side::Close)) => {
                            let _ = self.tokenizer.next();
                            Ok(inner)
                        },
                        _ => Err(ParseError::UnexpectedToken(closing, at)),
                    },
                }
            },
            _ => Err(ParseError::UnexpectedToken(kind, pos)),
        }
    }

    /// Takes the minus sign in front of an expression, if there is one, and
    /// returns its offset.
    fn eval_sign(&mut self) -> (r: Option<usize>)
        ensures
            match old(self).stream().front() {
                Front::Token(t) => if is_operator_token(t, '-') {
                    r == Some(t.pos) && final(self).stream() == old(self).stream().after(1)
                } else {
                    r.is_none() && final(self).stream() == old(self).stream()
                },
                _ => r.is_none() && final(self).stream() == old(self).stream(),
            },
    {
        match self.tokenizer.peek() {
            Ok(Some((pos, TokenKind::Operator('-')))) => {
                let _ = self.tokenizer.next();
                Some(pos)
            },
            _ => None,
        }
    }
}

} // verus!
