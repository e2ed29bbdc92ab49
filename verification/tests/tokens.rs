use exprcalc::expression::Expression;
use exprcalc::literal::is_number;
use exprcalc::tokenizer::Tokenizer;
use exprcalc::utils::{
    is_admissible, is_decimal, is_delimiter, is_digit, is_operator, is_whitespace,
    make_delimiter, Delimiter, ParseError, Side, Token, TokenKind, TokenType,
};

fn all(expr: &str) -> (Vec<Token>, Option<ParseError>) {
    let mut tokenizer = Tokenizer::new(expr);
    let mut tokens = Vec::new();
    loop {
        match tokenizer.next() {
            Ok(Some(t)) => tokens.push(t),
            Ok(None) => return (tokens, None),
            Err(e) => return (tokens, Some(e)),
        }
    }
}

fn number(pos: usize, text: &str) -> Token {
    Token {
        pos,
        token: TokenType::Number(text.chars().collect()),
    }
}

fn operator(pos: usize, c: char) -> Token {
    Token {
        pos,
        token: TokenType::Operator(c),
    }
}

fn delimiter(pos: usize, side: Side) -> Token {
    Token {
        pos,
        token: TokenType::Delimiter(Delimiter::Paranthesis(side)),
    }
}

#[test]
fn filter_keeps_offsets() {
    let mut e = Expression::new(" a\tb  c ");
    assert_eq!(e.peek(), Some((1, 'a')));
    assert_eq!(e.next(), Some((1, 'a')));
    assert_eq!(e.next(), Some((3, 'b')));
    assert_eq!(e.peek(), Some((6, 'c')));
    assert_eq!(e.next(), Some((6, 'c')));
    assert_eq!(e.peek(), None);
    assert_eq!(e.next(), None);
    assert_eq!(e.next(), None);
}

#[test]
fn filter_of_nothing_is_empty() {
    assert_eq!(Expression::new("").next(), None);
    assert_eq!(Expression::new(" \t ").next(), None);
}

#[test]
fn filter_counts_characters_not_bytes() {
    let mut e = Expression::new("é 1");
    assert_eq!(e.next(), Some((0, 'é')));
    assert_eq!(e.next(), Some((2, '1')));
}

#[test]
fn filter_leaves_other_whitespace() {
    let mut e = Expression::new("1\n2");
    assert_eq!(e.next(), Some((0, '1')));
    assert_eq!(e.next(), Some((1, '\n')));
    assert_eq!(e.next(), Some((2, '2')));
}

#[test]
fn make_delimiter_knows_both_sides() {
    assert_eq!(make_delimiter('('), Some(Delimiter::Paranthesis(Side::Open)));
    assert_eq!(make_delimiter(')'), Some(Delimiter::Paranthesis(Side::Close)));
    assert_eq!(make_delimiter('['), None);
    assert_eq!(make_delimiter('1'), None);
}

#[test]
fn character_classes() {
    for c in "0123456789".chars() {
        assert!(is_digit(c) && is_admissible(c));
    }
    assert!(!is_digit('a') && !is_digit('/') && !is_digit(':'));
    assert!(is_decimal('e') && is_decimal('.') && !is_decimal('E'));
    assert!(is_delimiter('(') && is_delimiter(')') && !is_delimiter('['));
    for c in "^*/+-".chars() {
        assert!(is_operator(c) && is_admissible(c));
    }
    assert!(!is_operator('%') && !is_admissible('%') && !is_admissible('x'));
}

#[test]
fn whitespace_is_what_the_standard_library_says() {
    for code in 0..=0x10FFFFu32 {
        if let Some(c) = char::from_u32(code) {
            assert_eq!(is_whitespace(c), c.is_whitespace(), "{:x}", code);
        }
    }
}

#[test]
fn tokens_carry_the_offset_of_their_first_character() {
    assert_eq!(
        all(" 12 +(3.5e-2)^ 4"),
        (
            vec![
                number(1, "12"),
                operator(4, '+'),
                delimiter(5, Side::Open),
                number(6, "3.5e-2"),
                delimiter(12, Side::Close),
                operator(13, '^'),
                number(15, "4"),
            ],
            None
        )
    );
}

#[test]
fn minus_after_the_exponent_marker_belongs_to_the_number() {
    assert_eq!(all("1e-3"), (vec![number(0, "1e-3")], None));
    assert_eq!(
        all("1-3"),
        (vec![number(0, "1"), operator(1, '-'), number(2, "3")], None)
    );
    assert_eq!(
        all("1e2-3"),
        (vec![number(0, "1e2"), operator(3, '-'), number(4, "3")], None)
    );
}

#[test]
fn a_blank_ends_a_literal() {
    assert_eq!(all("2 3"), (vec![number(0, "2"), number(2, "3")], None));
    assert_eq!(all("23"), (vec![number(0, "23")], None));
    assert_eq!(all("2\n3"), (vec![number(0, "2"), number(2, "3")], None));
}

#[test]
fn tokens_before_a_fault_are_handed_out() {
    assert_eq!(
        all("1+2$"),
        (
            vec![number(0, "1"), operator(1, '+')],
            Some(ParseError::InvalidCharacter('$', 3))
        )
    );
    assert_eq!(
        all("(1..2)"),
        (
            vec![delimiter(0, Side::Open)],
            Some(ParseError::InvalidLiteral(3))
        )
    );
    assert_eq!(all("1e"), (vec![], Some(ParseError::UnexpectedEndOfInput)));
    assert_eq!(all("7 ."), (vec![number(0, "7")], Some(ParseError::MalformedNumber(2))));
}

#[test]
fn a_fault_stays() {
    let mut tokenizer = Tokenizer::new("1 $ 2");
    assert_eq!(tokenizer.next(), Ok(Some(number(0, "1"))));
    assert_eq!(tokenizer.peek(), Err(ParseError::InvalidCharacter('$', 2)));
    assert_eq!(tokenizer.next(), Err(ParseError::InvalidCharacter('$', 2)));
    assert_eq!(tokenizer.next(), Err(ParseError::InvalidCharacter('$', 2)));
    assert_eq!(tokenizer.peek(), Err(ParseError::InvalidCharacter('$', 2)));
}

#[test]
fn peek_does_not_take() {
    let mut tokenizer = Tokenizer::new("7*");
    assert_eq!(tokenizer.peek(), Ok(Some((0, TokenKind::Number))));
    assert_eq!(tokenizer.peek(), Ok(Some((0, TokenKind::Number))));
    assert_eq!(tokenizer.next(), Ok(Some(number(0, "7"))));
    assert_eq!(tokenizer.peek(), Ok(Some((1, TokenKind::Operator('*')))));
    assert_eq!(tokenizer.next(), Ok(Some(operator(1, '*'))));
    assert_eq!(tokenizer.peek(), Ok(None));
    assert_eq!(tokenizer.next(), Ok(None));
    assert_eq!(tokenizer.next(), Ok(None));
}

#[test]
fn kind_forgets_only_the_text() {
    assert_eq!(number(0, "1").token.kind(), TokenKind::Number);
    assert_eq!(operator(0, '/').token.kind(), TokenKind::Operator('/'));
    assert_eq!(
        delimiter(0, Side::Close).token.kind(),
        TokenKind::Delimiter(Delimiter::Paranthesis(Side::Close))
    );
}

fn strings(alphabet: &[char], len: usize) -> Vec<Vec<char>> {
    let mut out: Vec<Vec<char>> = vec![Vec::new()];
    let mut last: Vec<Vec<char>> = vec![Vec::new()];
    for _ in 0..len {
        let mut next = Vec::new();
        for s in &last {
            for c in alphabet {
                let mut t = s.clone();
                t.push(*c);
                next.push(t);
            }
        }
        out.extend(next.iter().cloned());
        last = next;
    }
    out
}

#[test]
fn numbers_are_what_the_standard_library_reads() {
    // without a sign in front, the standard library reads exactly the
    // literals of this grammar, and `inf`, `nan` and a plus sign in the
    // exponent besides, none of which these characters can spell
    for s in strings(&['1', '0', '.', 'e', '-'], 6) {
        let text: String = s.iter().collect();
        let expected = !text.starts_with('-') && text.parse::<f64>().is_ok();
        assert_eq!(is_number(&s), expected, "{:?}", text);
    }
}

#[test]
fn literals_from_the_tokenizer_are_read_by_the_standard_library() {
    for s in strings(&['7', '.', 'e', '-', ' '], 6) {
        let text: String = s.iter().collect();
        let (tokens, _) = all(&text);
        for t in tokens {
            if let TokenType::Number(chars) = t.token {
                let literal: String = chars.iter().collect();
                assert!(literal.parse::<f64>().is_ok(), "{:?} in {:?}", literal, text);
            }
        }
    }
}

#[test]
fn tokens_stand_in_the_order_of_the_input() {
    for expr in [
        "1+2",
        " ( 1.5e-3 ) ^ 2 - 7 / 3",
        "2 3 4 5",
        "((((1))))",
        "1\n+\n2",
        "- 1 * ( - 2 )",
    ] {
        let (tokens, fault) = all(expr);
        assert_eq!(fault, None);
        for pair in tokens.windows(2) {
            assert!(pair[0].pos < pair[1].pos, "{:?}", expr);
        }
    }
}

#[test]
fn errors_tell_their_offset() {
    assert_eq!(ParseError::InvalidCharacter('$', 3).offset(), Some(3));
    assert_eq!(ParseError::InvalidLiteral(4).offset(), Some(4));
    assert_eq!(ParseError::MalformedNumber(5).offset(), Some(5));
    assert_eq!(ParseError::UnexpectedEndOfInput.offset(), None);
    assert_eq!(
        ParseError::UnexpectedToken(TokenKind::Operator('*'), 6).offset(),
        Some(6)
    );
    assert_eq!(ParseError::UnmatchedParenthesis(7).offset(), Some(7));
}
