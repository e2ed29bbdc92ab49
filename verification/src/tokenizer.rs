use crate::expression::{significant, Expression};
use crate::literal::{is_number, is_number_literal};
use crate::utils::{
    is_admissible, is_decimal, is_delimiter, is_operator, is_whitespace, make_delimiter,
    ParseError, Token, TokenKind, TokenType, TokenTypeView, TokenView,
};
use vstd::prelude::*;

verus! {

/// What a tokenizer still has to give: the tokens ahead and, where reading
/// stops at a fault, that fault. A fault stays: every read past the tokens
/// meets it again.
pub struct TokenStream {
    pub tokens: Seq<TokenView>,
    pub fault: Option<ParseError>,
}

/// What stands at the head of a stream.
pub enum Front {
    Token(TokenView),
    End,
    Fault(ParseError),
}

impl TokenStream {
    /// What the next read meets.
    pub open spec fn front(self) -> Front {
        if self.tokens.len() > 0 {
            Front::Token(self.tokens[0])
        } else {
            match self.fault {
                Some(e) => Front::Fault(e),
                None => Front::End,
            }
        }
    }

    /// The stream once `k` tokens are taken; taking more than there are
    /// leaves none.
    pub open spec fn after(self, k: nat) -> TokenStream {
        TokenStream {
            tokens: if k <= self.tokens.len() {
                self.tokens.skip(k as int)
            } else {
                Seq::empty()
            },
            fault: self.fault,
        }
    }

    /// The stream with `t` in front.
    pub open spec fn prepend(self, t: TokenView) -> TokenStream {
        TokenStream { tokens: seq![t] + self.tokens, fault: self.fault }
    }
}

/// The outcome of reading one token from filtered characters.
pub enum Lexed {
    /// No characters are left.
    End,
    /// A token, made of the first `used` characters.
    Token { token: TokenView, used: nat },
    /// No token can be read.
    Fail(ParseError),
}

impl Lexed {
    /// The same outcome after `k` more characters in front.
    pub open spec fn shift(self, k: nat) -> Lexed {
        match self {
            Lexed::Token { token, used } => Lexed::Token { token, used: used + k },
            other => other,
        }
    }
}

/// A character `c` right after `prev` ends the literal that `prev` is part
/// of: whitespace, a parenthesis, or an operator other than the minus sign
/// of an exponent.
pub open spec fn separates(prev: char, c: char) -> bool {
    is_whitespace(c) || is_delimiter(c) || (is_operator(c) && !(c == '-' && prev == 'e'))
}

/// The character at `n` continues the literal held in the `n` characters
/// before it: it follows the last of them with no blank between, and does
/// not end the literal.
pub open spec fn joins(cs: Seq<(usize, char)>, n: int) -> bool {
    &&& 0 < n < cs.len()
    &&& cs[n].0 == cs[n - 1].0 + 1
    &&& !separates(cs[n - 1].1, cs[n].1)
}

/// The first `n` characters, without their offsets.
pub open spec fn text(cs: Seq<(usize, char)>, n: int) -> Seq<char> {
    Seq::new(n as nat, |i: int| cs[i].1)
}

/// The character at `n` would be the second decimal point or the second
/// exponent marker of the literal.
pub open spec fn repeats(cs: Seq<(usize, char)>, n: int) -> bool {
    is_decimal(cs[n].1) && text(cs, n).contains(cs[n].1)
}

/// How many characters the literal gathers that starts with the first `n`
/// of `cs`: it grows while the next character joins it and neither is
/// inadmissible nor repeats a marker.
pub open spec fn literal_extent(cs: Seq<(usize, char)>, n: nat) -> nat
    decreases cs.len() - n,
{
    if joins(cs, n as int) && is_admissible(cs[n as int].1) && !repeats(cs, n as int) {
        literal_extent(cs, n + 1)
    } else {
        n
    }
}

/// The outcome of reading a literal at the head of `cs`.
pub open spec fn lex_literal(cs: Seq<(usize, char)>) -> Lexed {
    let n = literal_extent(cs, 1);
    let buffer = text(cs, n as int);
    if joins(cs, n as int) {
        if !is_admissible(cs[n as int].1) {
            Lexed::Fail(ParseError::InvalidCharacter(cs[n as int].1, cs[n as int].0))
        } else {
            Lexed::Fail(ParseError::InvalidLiteral(cs[n as int].0))
        }
    } else if n == cs.len() && (buffer.last() == 'e' || buffer.last() == '-') {
        Lexed::Fail(ParseError::UnexpectedEndOfInput)
    } else if !is_number_literal(buffer) {
        Lexed::Fail(ParseError::MalformedNumber(cs[0].0))
    } else {
        Lexed::Token {
            token: TokenView { pos: cs[0].0, token: TokenTypeView::Number(buffer) },
            used: n,
        }
    }
}

/// The outcome of reading one token at the head of `cs`.
pub open spec fn lex(cs: Seq<(usize, char)>) -> Lexed
    decreases cs.len(),
{
    if cs.len() == 0 {
        Lexed::End
    } else {
        let (pos, c) = cs[0];
        if !is_admissible(c) {
            Lexed::Fail(ParseError::InvalidCharacter(c, pos))
        } else if is_delimiter(c) {
            Lexed::Token {
                token: TokenView {
                    pos,
                    token: TokenTypeView::Delimiter(make_delimiter(c).unwrap()),
                },
                used: 1,
            }
        } else if is_operator(c) {
            Lexed::Token { token: TokenView { pos, token: TokenTypeView::Operator(c) }, used: 1 }
        } else if is_whitespace(c) {
            lex(cs.skip(1)).shift(1)
        } else {
            lex_literal(cs)
        }
    }
}

/// A literal holds at least the characters it starts with and no more than
/// there are.
pub proof fn lemma_literal_extent_bounds(cs: Seq<(usize, char)>, n: nat)
    requires
        n <= cs.len(),
    ensures
        n <= literal_extent(cs, n) <= cs.len(),
    decreases cs.len() - n,
{
    if joins(cs, n as int) && is_admissible(cs[n as int].1) && !repeats(cs, n as int) {
        lemma_literal_extent_bounds(cs, n + 1);
    }
}

/// A token is made of at least one character and of no more than there are.
pub proof fn lemma_lex_used(cs: Seq<(usize, char)>)
    ensures
        lex(cs) matches Lexed::Token { used, .. } ==> 1 <= used <= cs.len(),
    decreases cs.len(),
{
    if cs.len() > 0 {
        let c = cs[0].1;
        if is_admissible(c) && !is_delimiter(c) && !is_operator(c) {
            if is_whitespace(c) {
                lemma_lex_used(cs.skip(1));
            } else {
                lemma_literal_extent_bounds(cs, 1);
            }
        }
    }
}

/// The stream of tokens that filtered characters hold: the tokens read one
/// after another until the characters end or one cannot be read.
pub open spec fn tokens(cs: Seq<(usize, char)>) -> TokenStream
    decreases cs.len(),
    via tokens_decreases
{
    match lex(cs) {
        Lexed::End => TokenStream { tokens: Seq::empty(), fault: None },
        Lexed::Fail(e) => TokenStream { tokens: Seq::empty(), fault: Some(e) },
        Lexed::Token { token, used } => tokens(cs.skip(used as int)).prepend(token),
    }
}

#[via_fn]
proof fn tokens_decreases(cs: Seq<(usize, char)>) {
    lemma_lex_used(cs);
}

/// Reads the literal whose first character, `first` at offset `pos`, has
/// just been taken from `expression`; `cs` is what `expression` held before
/// that.
fn scan_literal(
    expression: &mut Expression,
    pos: usize,
    first: char,
    Ghost(cs): Ghost<Seq<(usize, char)>>,
) -> (r: Result<Token, ParseError>)
    requires
        cs.len() > 0,
        cs[0] == (pos, first),
        old(expression).remaining() == cs.skip(1),
    ensures
        match lex_literal(cs) {
            Lexed::Token { token, used } => r matches Ok(t) && t@ == token
                && final(expression).remaining() == cs.skip(used as int),
            Lexed::Fail(e) => r matches Err(x) && x == e,
            Lexed::End => false,
        },
{
    let mut buffer: Vec<char> = Vec::new();
    buffer.push(first);
    let mut last_pos: usize = pos;
    let mut last: char = first;
    let mut point: bool = first == '.';
    let mut marker: bool = first == 'e';
    let ghost mut n: nat = 1;
    let mut ended: bool = false;
    assert(buffer@ =~= text(cs, 1));
    assert(text(cs, 1)[0] == first);
    loop
        invariant_except_break
            !ended,
        invariant
            1 <= n <= cs.len(),
            expression.remaining() == cs.skip(n as int),
            buffer@ == text(cs, n as int),
            (last_pos, last) == cs[n - 1],
            point == text(cs, n as int).contains('.'),
            marker == text(cs, n as int).contains('e'),
            literal_extent(cs, n) == literal_extent(cs, 1),
        ensures
            !joins(cs, n as int),
            ended == (n == cs.len()),
        decreases cs.len() - n,
    {
        match expression.peek() {
            None => {
                ended = true;
                break ;
            },
            Some((at, c)) => {
                assert(cs.skip(n as int)[0] == cs[n as int]);
                let adjacent = last_pos < usize::MAX && at == last_pos + 1;
                if !adjacent || is_whitespace(c) || is_delimiter(c) || (is_operator(c) && !(c
                    == '-' && last == 'e')) {
                    break ;
                }
                assert(joins(cs, n as int));
                if !is_admissible(c) {
                    return Err(ParseError::InvalidCharacter(c, at));
                }
                if (c == 'e' && marker) || (c == '.' && point) {
                    return Err(ParseError::InvalidLiteral(at));
                }
                let _ = expression.next();
                buffer.push(c);
                proof {
                    let before = text(cs, n as int);
                    let now = text(cs, n as int + 1);
                    assert(now =~= before.push(c));
                    assert(now[n as int] == c);
                    assert forall|x: char| now.contains(x) <==> (before.contains(x) || x == c) by {
                        if before.contains(x) {
                            let i = choose|i: int| 0 <= i < before.len() && before[i] == x;
                            assert(now[i] == x);
                        }
                    }
                    assert(cs.skip(n as int).skip(1) =~= cs.skip(n as int + 1));
                    n = n + 1;
                }
                last_pos = at;
                last = c;
                point = point || c == '.';
                marker = marker || c == 'e';
            },
        }
    }
    assert(buffer@.last() == last);
    if ended && (last == 'e' || last == '-') {
        return Err(ParseError::UnexpectedEndOfInput);
    }
    if !is_number(&buffer) {
        return Err(ParseError::MalformedNumber(pos));
    }
    Ok(Token { pos, token: TokenType::Number(buffer) })
}

/// Reads one token from `expression`.
fn scan(expression: &mut Expression) -> (r: Result<Option<Token>, ParseError>)
    ensures
        match lex(old(expression).remaining()) {
            Lexed::Token { token, used } => r matches Ok(Some(t)) && t@ == token
                && final(expression).remaining() == old(expression).remaining().skip(used as int),
            Lexed::Fail(e) => r matches Err(x) && x == e,
            Lexed::End => r matches Ok(None) && final(expression).remaining().len() == 0,
        },
{
    let ghost start = expression.remaining();
    let ghost mut skipped: nat = 0;
    assert(start.skip(0) =~= start);
    loop
        invariant
            start == old(expression).remaining(),
            skipped <= start.len(),
            expression.remaining() == start.skip(skipped as int),
            lex(start) == lex(expression.remaining()).shift(skipped),
        decreases start.len() - skipped,
    {
        let ghost cs = expression.remaining();
        match expression.next() {
            None => {
                return Ok(None);
            },
            Some((pos, c)) => {
                assert(cs.skip(1) =~= start.skip(skipped as int + 1));
                if !is_admissible(c) {
                    return Err(ParseError::InvalidCharacter(c, pos));
                }
                match make_delimiter(c) {
                    Some(d) => {
                        return Ok(Some(Token { pos, token: TokenType::Delimiter(d) }));
                    },
                    None => {},
                }
                if is_operator(c) {
                    return Ok(Some(Token { pos, token: TokenType::Operator(c) }));
                }
                if !is_whitespace(c) {
                    let r = scan_literal(expression, pos, c, Ghost(cs));
                    proof {
                        lemma_literal_extent_bounds(cs, 1);
                        let n = literal_extent(cs, 1);
                        assert(cs.skip(n as int) =~= start.skip((n + skipped) as int));
                    }
                    return match r {
                        Ok(t) => Ok(Some(t)),
                        Err(e) => Err(e),
                    };
                }
                proof {
                    skipped = skipped + 1;
                }
            },
        }
    }
}

/// Turns the characters of an input into tokens, one at a time, looking one
/// token ahead where asked. Once a token cannot be read, every later read
/// reports the same fault.
pub struct Tokenizer {
    expression: Expression,
    peeked: Option<Token>,
    fault: Option<ParseError>,
}

impl Tokenizer {
    /// The tokens that are still to come.
    pub closed spec fn stream(&self) -> TokenStream {
        let rest = match self.fault {
            Some(e) => TokenStream { tokens: Seq::empty(), fault: Some(e) },
            None => tokens(self.expression.remaining()),
        };
        match self.peeked {
            Some(t) => rest.prepend(t@),
            None => rest,
        }
    }

    /// A tokenizer at the start of `expr`.
    pub fn new(expr: &str) -> (r: Tokenizer)
        ensures
            r.stream() == tokens(significant(expr@)),
    {
        Tokenizer { expression: Expression::new(expr), peeked: None, fault: None }
    }

    /// Reads the next token into the lookahead slot unless one is there.
    fn fill(&mut self)
        ensures
            final(self).stream() == old(self).stream(),
            old(self).stream().tokens.len() > 0 ==> final(self).peeked.is_some(),
            old(self).stream().tokens.len() == 0 ==> final(self).peeked.is_none(),
            final(self).peeked.is_none() ==> final(self).stream() == (TokenStream {
                tokens: Seq::empty(),
                fault: final(self).fault,
            }),
    {
        if self.peeked.is_none() && self.fault.is_none() {
            let ghost cs = self.expression.remaining();
            proof {
                lemma_lex_used(cs);
            }
            match scan(&mut self.expression) {
                Ok(Some(t)) => {
                    self.peeked = Some(t);
                },
                Ok(None) => {},
                Err(e) => {
                    self.fault = Some(e);
                },
            }
        }
        proof {
            if self.peeked.is_some() {
                let rest = match self.fault {
                    Some(e) => TokenStream { tokens: Seq::empty(), fault: Some(e) },
                    None => tokens(self.expression.remaining()),
                };
                assert(rest.prepend(self.peeked.unwrap()@).tokens.len() > 0);
            }
        }
    }

    /// What the next token is and where it starts, without taking it:
    /// `None` at the end of the input, the fault where no token can be read.
    pub fn peek(&mut self) -> (r: Result<Option<(usize, TokenKind)>, ParseError>)
        ensures
            final(self).stream() == old(self).stream(),
            match old(self).stream().front() {
                Front::Token(t) => r matches Ok(Some(p)) && p == (t.pos, t.token.kind()),
                Front::End => r matches Ok(None),
                Front::Fault(e) => r matches Err(x) && x == e,
            },
    {
        self.fill();
        match &self.peeked {
            Some(t) => Ok(Some((t.pos, t.token.kind()))),
            None => match self.fault {
                Some(e) => Err(e),
                None => Ok(None),
            },
        }
    }

    /// Takes the next token: `None` at the end of the input, the fault
    /// where no token can be read.
    pub fn next(&mut self) -> (r: Result<Option<Token>, ParseError>)
        ensures
            match old(self).stream().front() {
                Front::Token(t) => r matches Ok(Some(x)) && x@ == t && final(self).stream()
                    == old(self).stream().after(1),
                Front::End => r matches Ok(None) && final(self).stream() == old(self).stream(),
                Front::Fault(e) => r matches Err(x) && x == e && final(self).stream()
                    == old(self).stream(),
            },
    {
        self.fill();
        let ghost filled = self.stream();
        let mut slot: Option<Token> = None;
        std::mem::swap(&mut self.peeked, &mut slot);
        match slot {
            Some(t) => {
                assert(self.stream().prepend(t@) == filled);
                assert(filled.after(1).tokens =~= self.stream().tokens);
                Ok(Some(t))
            },
            None => match self.fault {
                Some(e) => Err(e),
                None => Ok(None),
            },
        }
    }
}

} // verus!
