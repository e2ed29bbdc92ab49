use crate::expression::significant;
use crate::grammar::{
    is_operator_token, lemma_after_after, lemma_after_zero, lemma_factor_takes, parse,
    parse_expression, parse_factor, parse_primary, parse_product, parse_sum, parse_term,
    product_op, starts_factor, sum_op, Parse,
};
use crate::steps::{
    lemma_emitted_binary, lemma_emitted_leaf, lemma_emitted_unary, lemma_program_empty, postfix,
    program,
};
use crate::tokenizer::{tokens, Front, TokenStream, Tokenizer};
use crate::utils::{
    binary, unary, Delimiter, NodeView, Op, ParseError, Side, Step, StepView, Token, TokenKind,
    TokenType,
};
use vstd::prelude::*;

verus! {

/// `r` is what the outcome `p` of a rule asks for: the steps that evaluate
/// the tree, or the error.
pub open spec fn is_steps_of(r: Result<Vec<Step>, ParseError>, p: Parse) -> bool {
    match p {
        Parse::Done { node, .. } => r matches Ok(steps) && program(steps@) == postfix(node),
        Parse::Failed { error, .. } => r matches Err(e) && e == error,
    }
}

/// `after` is `before` with the steps added that the outcome `p` of a rule
/// asks for, or `r` is the error.
pub open spec fn has_emitted(
    r: Result<(), ParseError>,
    before: Seq<Step>,
    after: Seq<Step>,
    p: Parse,
) -> bool {
    match p {
        Parse::Done { node, .. } => r is Ok && program(after) == program(before) + postfix(node),
        Parse::Failed { error, .. } => r matches Err(e) && e == error,
    }
}

/// Evaluates an expression while reading it: each rule of the grammar
/// hands on the steps of its arithmetic as soon as it has read its
/// operands, and no tree is built.
pub struct Parser {
    tokenizer: Tokenizer,
}

impl Parser {
    /// The tokens that are still to be read.
    pub closed spec fn stream(&self) -> TokenStream {
        self.tokenizer.stream()
    }

    /// A parser at the start of `expr`.
    pub fn new(expr: &str) -> (r: Parser)
        ensures
            r.stream() == tokens(significant(expr@)),
    {
        Parser { tokenizer: Tokenizer::new(expr) }
    }

    /// Reads the rest of the input as one expression and returns the steps
    /// of its evaluation, in the order in which they are carried out. On an
    /// error the parser stops in front of the token that it could not use.
    pub fn eval(&mut self) -> (r: Result<Vec<Step>, ParseError>)
        ensures
            is_steps_of(r, parse(old(self).stream())),
            final(self).stream() == old(self).stream().after(parse(old(self).stream()).used()),
    {
        let mut out: Vec<Step> = Vec::new();
        match self.eval_exp(&mut out) {
            Ok(()) => {},
            Err(e) => {
                return Err(e);
            },
        }
        proof {
            let node = parse_expression(old(self).stream())->node;
            lemma_program_empty();
            assert(Seq::<StepView>::empty() + postfix(node) =~= postfix(node));
        }
        match self.tokenizer.peek() {
            Err(e) => Err(e),
            Ok(None) => Ok(out),
            Ok(Some((pos, kind))) => match kind {
                TokenKind::Delimiter(Delimiter::Paranthesis(Side::Close)) => Err(
                    ParseError::UnmatchedParenthesis(pos),
                ),
                _ => Err(ParseError::UnexpectedToken(kind, pos)),
            },
        }
    }

    /// Reads an expression, `['-'] term (('+' | '-') term)*`, and adds to
    /// `out` the steps of its evaluation.
    fn eval_exp(&mut self, out: &mut Vec<Step>) -> (r: Result<(), ParseError>)
        ensures
            has_emitted(r, old(out)@, final(out)@, parse_expression(old(self).stream())),
            final(self).stream() == old(self).stream().after(
                parse_expression(old(self).stream()).used(),
            ),
        decreases old(self).stream().tokens.len(), 5nat,
    {
        let ghost s0 = self.stream();
        let ghost before = program(out@);
        let sign = self.eval_sign();
        let ghost s1 = self.stream();
        proof {
            lemma_after_after(s0, 1, parse_term(s1).used());
            lemma_after_zero(s0);
        }
        match self.eval_term(out) {
            Ok(()) => {},
            Err(e) => {
                return Err(e);
            },
        }
        let ghost mut node: NodeView = parse_term(s1)->node;
        match sign {
            Some(pos) => {
                proof {
                    lemma_emitted_unary(before, out@, pos, Op::Negation, node);
                    node = unary(pos, Op::Negation, node);
                }
                out.push(Step::Apply(Op::Negation));
            },
            None => {},
        }
        let ghost mut k: nat = parse_term(s1).used() + (if sign.is_some() {
            1nat
        } else {
            0nat
        });
        loop
            invariant
                s0 == old(self).stream(),
                before == program(old(out)@),
                self.stream() == s0.after(k),
                program(out@) == before + postfix(node),
                parse_expression(s0) == parse_sum(s0.after(k), node).shift(k),
            decreases self.stream().tokens.len(),
        {
            let (r, Ghost(joined), Ghost(used)) = self.eval_sum(out, Ghost(before), Ghost(node));
            proof {
                lemma_after_after(s0, k, used);
                k = k + used;
                node = joined;
            }
            match r {
                Ok(true) => {},
                Ok(false) => {
                    return Ok(());
                },
                Err(e) => {
                    return Err(e);
                },
            }
        }
    }

    /// Reads one more term of an expression, if one follows, and adds to
    /// `out` the steps that join it to `left`, whose own steps `out` ends
    /// in. Returns whether a term was read, the tree so far, and how many
    /// tokens that took.
    fn eval_sum(
        &mut self,
        out: &mut Vec<Step>,
        Ghost(before): Ghost<Seq<StepView>>,
        Ghost(left): Ghost<NodeView>,
    ) -> (r: (Result<bool, ParseError>, Ghost<NodeView>, Ghost<nat>))
        requires
            program(old(out)@) == before + postfix(left),
        ensures
            final(self).stream() == old(self).stream().after(r.2@),
            match r.0 {
                Ok(true) => old(self).stream().tokens.len() > 0 && r.2@ > 0 && program(
                    final(out)@,
                ) == before + postfix(r.1@) && parse_sum(old(self).stream(), left) == parse_sum(
                    final(self).stream(),
                    r.1@,
                ).shift(r.2@),
                Ok(false) => r.1@ == left && final(out)@ == old(out)@ && parse_sum(
                    old(self).stream(),
                    left,
                ) == (Parse::Done { node: left, used: r.2@ }),
                Err(e) => parse_sum(old(self).stream(), left) == (Parse::Failed {
                    error: e,
                    used: r.2@,
                }),
            },
        decreases old(self).stream().tokens.len(), 4nat,
    {
        let ghost s = self.stream();
        proof {
            lemma_after_zero(s);
        }
        let (pos, kind) = match self.tokenizer.peek() {
            Err(e) => {
                return (Err(e), Ghost(left), Ghost(0));
            },
            Ok(None) => {
                return (Ok(false), Ghost(left), Ghost(0));
            },
            Ok(Some(p)) => p,
        };
        match sum_op(kind) {
            Some(op) => {
                let _ = self.tokenizer.next();
                let ghost right = parse_term(s.after(1))->node;
                let ghost used = parse_term(s.after(1)).used();
                proof {
                    lemma_after_after(s, 1, used);
                }
                match self.eval_term(out) {
                    Ok(()) => {},
                    Err(e) => {
                        return (Err(e), Ghost(left), Ghost(used + 1));
                    },
                }
                proof {
                    lemma_emitted_binary(before, out@, pos, op, left, right);
                }
                out.push(Step::Apply(op));
                (Ok(true), Ghost(binary(pos, op, left, right)), Ghost(used + 1))
            },
            None => (Ok(false), Ghost(left), Ghost(0)),
        }
    }

    /// Reads a term, `factor (('*' | '/' | implicit) factor)*`, and adds to
    /// `out` the steps of its evaluation.
    fn eval_term(&mut self, out: &mut Vec<Step>) -> (r: Result<(), ParseError>)
        ensures
            has_emitted(r, old(out)@, final(out)@, parse_term(old(self).stream())),
            final(self).stream() == old(self).stream().after(parse_term(old(self).stream()).used()),
        decreases old(self).stream().tokens.len(), 3nat,
    {
        let ghost s0 = self.stream();
        let ghost before = program(out@);
        match self.eval_factor(out) {
            Ok(()) => {},
            Err(e) => {
                return Err(e);
            },
        }
        let ghost mut node: NodeView = parse_factor(s0)->node;
        let ghost mut k: nat = parse_factor(s0).used();
        loop
            invariant
                s0 == old(self).stream(),
                before == program(old(out)@),
                self.stream() == s0.after(k),
                program(out@) == before + postfix(node),
                parse_term(s0) == parse_product(s0.after(k), node).shift(k),
            decreases self.stream().tokens.len(),
        {
            let (r, Ghost(joined), Ghost(used)) = self.eval_product(
                out,
                Ghost(before),
                Ghost(node),
            );
            proof {
                lemma_after_after(s0, k, used);
                k = k + used;
                node = joined;
            }
            match r {
                Ok(true) => {},
                Ok(false) => {
                    return Ok(());
                },
                Err(e) => {
                    return Err(e);
                },
            }
        }
    }

    /// Reads one more factor of a term, if one follows, and adds to `out`
    /// the steps that join it to `left`, whose own steps `out` ends in.
    /// Returns whether a factor was read, the tree so far, and how many
    /// tokens that took.
    fn eval_product(
        &mut self,
        out: &mut Vec<Step>,
        Ghost(before): Ghost<Seq<StepView>>,
        Ghost(left): Ghost<NodeView>,
    ) -> (r: (Result<bool, ParseError>, Ghost<NodeView>, Ghost<nat>))
        requires
            program(old(out)@) == before + postfix(left),
        ensures
            final(self).stream() == old(self).stream().after(r.2@),
            match r.0 {
                Ok(true) => old(self).stream().tokens.len() > 0 && r.2@ > 0 && program(
                    final(out)@,
                ) == before + postfix(r.1@) && parse_product(old(self).stream(), left)
                    == parse_product(final(self).stream(), r.1@).shift(r.2@),
                Ok(false) => r.1@ == left && final(out)@ == old(out)@ && parse_product(
                    old(self).stream(),
                    left,
                ) == (Parse::Done { node: left, used: r.2@ }),
                Err(e) => parse_product(old(self).stream(), left) == (Parse::Failed {
                    error: e,
                    used: r.2@,
                }),
            },
        decreases old(self).stream().tokens.len(), 2nat,
    {
        let ghost s = self.stream();
        proof {
            lemma_after_zero(s);
        }
        let (pos, kind) = match self.tokenizer.peek() {
            Err(e) => {
                return (Err(e), Ghost(left), Ghost(0));
            },
            Ok(None) => {
                return (Ok(false), Ghost(left), Ghost(0));
            },
            Ok(Some(p)) => p,
        };
        if let Some(op) = product_op(kind) {
            let _ = self.tokenizer.next();
            let ghost right = parse_factor(s.after(1))->node;
            let ghost used = parse_factor(s.after(1)).used();
            proof {
                lemma_after_after(s, 1, used);
            }
            match self.eval_factor(out) {
                Ok(()) => {},
                Err(e) => {
                    return (Err(e), Ghost(left), Ghost(used + 1));
                },
            }
            proof {
                lemma_emitted_binary(before, out@, pos, op, left, right);
            }
            out.push(Step::Apply(op));
            (Ok(true), Ghost(binary(pos, op, left, right)), Ghost(used + 1))
        } else if starts_factor(kind) {
            let ghost right = parse_factor(s)->node;
            let ghost used = parse_factor(s).used();
            proof {
                lemma_factor_takes(s);
            }
            match self.eval_factor(out) {
                Ok(()) => {},
                Err(e) => {
                    return (Err(e), Ghost(left), Ghost(used));
                },
            }
            proof {
                lemma_emitted_binary(before, out@, pos, Op::Multiplication, left, right);
            }
            out.push(Step::Apply(Op::Multiplication));
            (Ok(true), Ghost(binary(pos, Op::Multiplication, left, right)), Ghost(used))
        } else {
            (Ok(false), Ghost(left), Ghost(0))
        }
    }

    /// Reads a factor, `primary ['^' factor]`, and adds to `out` the steps
    /// of its evaluation.
    fn eval_factor(&mut self, out: &mut Vec<Step>) -> (r: Result<(), ParseError>)
        ensures
            has_emitted(r, old(out)@, final(out)@, parse_factor(old(self).stream())),
            final(self).stream() == old(self).stream().after(
                parse_factor(old(self).stream()).used(),
            ),
        decreases old(self).stream().tokens.len(), 1nat,
    {
        let ghost s0 = self.stream();
        let ghost before = program(out@);
        match self.eval_primary(out) {
            Ok(()) => {},
            Err(e) => {
                return Err(e);
            },
        }
        let ghost base = parse_primary(s0)->node;
        let ghost k = parse_primary(s0).used();
        let ghost s1 = self.stream();
        proof {
            lemma_factor_takes(s0);
            lemma_after_zero(s1);
        }
        match self.tokenizer.peek() {
            Ok(Some((at, TokenKind::Operator('^')))) => {
                let _ = self.tokenizer.next();
                let ghost exponent = parse_factor(s1.after(1))->node;
                let ghost used = parse_factor(s1.after(1)).used();
                proof {
                    lemma_after_after(s0, k, 1);
                    lemma_after_after(s0, k + 1, used);
                    lemma_after_after(s0, k, used + 1);
                }
                match self.eval_factor(out) {
                    Ok(()) => {},
                    Err(e) => {
                        return Err(e);
                    },
                }
                proof {
                    lemma_emitted_binary(before, out@, at, Op::Exponentiation, base, exponent);
                }
                out.push(Step::Apply(Op::Exponentiation));
                Ok(())
            },
            Err(e) => Err(e),
            _ => Ok(()),
        }
    }

    /// Reads a primary, `number | '(' expression ')'`, and adds to `out`
    /// the steps of its evaluation.
    fn eval_primary(&mut self, out: &mut Vec<Step>) -> (r: Result<(), ParseError>)
        ensures
            has_emitted(r, old(out)@, final(out)@, parse_primary(old(self).stream())),
            final(self).stream() == old(self).stream().after(
                parse_primary(old(self).stream()).used(),
            ),
        decreases old(self).stream().tokens.len(), 0nat,
    {
        let ghost s0 = self.stream();
        let ghost before = program(out@);
        proof {
            lemma_after_zero(s0);
        }
        let (pos, kind) = match self.tokenizer.peek() {
            Err(e) => {
                return Err(e);
            },
            Ok(None) => {
                return Err(ParseError::UnexpectedEndOfInput);
            },
            Ok(Some(p)) => p,
        };
        match kind {
            TokenKind::Number => match self.tokenizer.next() {
                Ok(Some(Token { pos, token: TokenType::Number(text) })) => {
                    proof {
                        lemma_emitted_leaf(before, out@, pos, text);
                    }
                    out.push(Step::Push(text));
                    Ok(())
                },
                Ok(_) => Err(ParseError::UnexpectedEndOfInput),
                Err(e) => Err(e),
            },
            TokenKind::Delimiter(Delimiter::Paranthesis(Side::Open)) => {
                let _ = self.tokenizer.next();
                let ghost used = parse_expression(s0.after(1)).used();
                proof {
                    lemma_after_after(s0, 1, used);
                    lemma_after_after(s0, used + 1, 1);
                }
                match self.eval_exp(out) {
                    Ok(()) => {},
                    Err(e) => {
                        return Err(e);
                    },
                }
                match self.tokenizer.peek() {
                    Err(e) => Err(e),
                    Ok(None) => Err(ParseError::UnmatchedParenthesis(pos)),
                    Ok(Some((at, closing))) => match closing {
                        TokenKind::Delimiter(Delimiter::Paranthesis(Side::Close)) => {
                            let _ = self.tokenizer.next();
                            Ok(())
                        },
                        _ => Err(ParseError::UnexpectedToken(closing, at)),
                    },
                }
            },
            _ => Err(ParseError::UnexpectedToken(kind, pos)),
        }
    }

    /// Takes the minus sign in front of an expression, if there is one, and
    /// returns its offset.
    fn eval_sign(&mut self) -> (r: Option<usize>)
        ensures
            match old(self).stream().front() {
                Front::Token(t) => if is_operator_token(t, '-') {
                    r == Some(t.pos) && final(self).stream() == old(self).stream().after(1)
                } else {
                    r.is_none() && final(self).stream() == old(self).stream()
                },
                _ => r.is_none() && final(self).stream() == old(self).stream(),
            },
    {
        match self.tokenizer.peek() {
            Ok(Some((pos, TokenKind::Operator('-')))) => {
                let _ = self.tokenizer.next();
                Some(pos)
            },
            _ => None,
        }
    }
}

} // verus!
