use crate::expression::significant;
use crate::offsets::{lemma_parse_ignores_offsets, same_contents};
use crate::tokenizer::{
    joins, lemma_lex_used, lemma_literal_extent_bounds, lex, literal_extent, repeats, separates,
    text, tokens, Lexed,
};
use crate::utils::{
    spec_is_admissible, spec_is_decimal, spec_is_delimiter, spec_is_digit, spec_is_operator,
    spec_is_whitespace,
};
use crate::steps_of;
use vstd::prelude::*;

verus! {

/// The characters at `i - 1` and at `i` stood side by side in the input,
/// with no blank between them.
pub open spec fn adjacent(cs: Seq<(usize, char)>, i: int) -> bool {
    cs[i].0 == cs[i - 1].0 + 1
}

/// A blank in front of the character at `i` is idle: with or without it
/// the same tokens are read. That is so where the character ends a
/// literal anyway, and where the character before it belongs to no
/// literal (a minus sign belongs to one where it follows the exponent
/// marker).
pub open spec fn idle(cs: Seq<(usize, char)>, i: int) -> bool {
    let prev = cs[i - 1].1;
    ||| separates(prev, cs[i].1)
    ||| spec_is_delimiter(prev)
    ||| spec_is_whitespace(prev)
    ||| spec_is_operator(prev) && !(prev == '-' && i >= 2 && cs[i - 2].1 == 'e')
}

/// `a` and `b` hold the same characters, and differ in where blanks stood
/// between them only at places where a blank is idle.
pub open spec fn same_but_idle_blanks(a: Seq<(usize, char)>, b: Seq<(usize, char)>) -> bool {
    &&& a.len() == b.len()
    &&& forall|i: int| 0 <= i < a.len() ==> (#[trigger] a[i]).1 == b[i].1
    &&& forall|i: int|
        0 < i < a.len() ==> #[trigger] adjacent(a, i) == adjacent(b, i) || idle(a, i)
}

/// Two outcomes of reading a token are both the end, both a failure, or
/// both a token of as many characters and the same content.
pub open spec fn same_lexed(p: Lexed, q: Lexed) -> bool {
    match (p, q) {
        (Lexed::End, Lexed::End) => true,
        (Lexed::Fail(_), Lexed::Fail(_)) => true,
        (Lexed::Token { token: x, used: m }, Lexed::Token { token: y, used: n }) => x.token
            == y.token && m == n,
        _ => false,
    }
}

spec fn in_literal(cs: Seq<(usize, char)>, k: int) -> bool {
    let c = cs[k].1;
    spec_is_digit(c) || spec_is_decimal(c) || (c == '-' && k >= 1 && cs[k - 1].1 == 'e')
}

proof fn lemma_same_text(a: Seq<(usize, char)>, b: Seq<(usize, char)>, n: int)
    requires
        same_but_idle_blanks(a, b),
        0 <= n <= a.len(),
    ensures
        text(a, n) == text(b, n),
{
    assert(text(a, n) =~= text(b, n));
}

proof fn lemma_same_joins(a: Seq<(usize, char)>, b: Seq<(usize, char)>, n: int)
    requires
        same_but_idle_blanks(a, b),
        1 <= n <= a.len(),
        in_literal(a, n - 1),
    ensures
        joins(a, n) == joins(b, n),
{
    if n < a.len() {
        assert(a[n].1 == b[n].1);
        assert(a[n - 1].1 == b[n - 1].1);
        assert(adjacent(a, n) == adjacent(b, n) || idle(a, n));
    }
}

proof fn lemma_same_extent(a: Seq<(usize, char)>, b: Seq<(usize, char)>, n: nat)
    requires
        same_but_idle_blanks(a, b),
        1 <= n <= a.len(),
        in_literal(a, n - 1),
    ensures
        literal_extent(a, n) == literal_extent(b, n),
        in_literal(a, literal_extent(a, n) - 1),
    decreases a.len() - n,
{
    lemma_same_joins(a, b, n as int);
    lemma_same_text(a, b, n as int);
    if joins(a, n as int) && spec_is_admissible(a[n as int].1) && !repeats(a, n as int) {
        assert(a[n as int].1 == b[n as int].1);
        lemma_same_extent(a, b, n + 1);
    } else if n < a.len() {
        assert(a[n as int].1 == b[n as int].1);
    }
}

proof fn lemma_same_skip(a: Seq<(usize, char)>, b: Seq<(usize, char)>, k: int)
    requires
        same_but_idle_blanks(a, b),
        0 <= k <= a.len(),
    ensures
        same_but_idle_blanks(a.skip(k), b.skip(k)),
{
    let x = a.skip(k);
    let y = b.skip(k);
    assert forall|i: int| 0 <= i < x.len() implies (#[trigger] x[i]).1 == y[i].1 by {
        assert(a[i + k].1 == b[i + k].1);
    }
    assert forall|i: int| 0 < i < x.len() implies #[trigger] adjacent(x, i) == adjacent(y, i)
        || idle(x, i) by {
        assert(adjacent(a, i + k) == adjacent(b, i + k) || idle(a, i + k));
    }
}

/// Where blanks are idle the same token is read.
pub proof fn lemma_same_lex(a: Seq<(usize, char)>, b: Seq<(usize, char)>)
    requires
        same_but_idle_blanks(a, b),
    ensures
        same_lexed(lex(a), lex(b)),
    decreases a.len(),
{
    if a.len() > 0 {
        let c = a[0].1;
        assert(b[0].1 == c);
        if spec_is_admissible(c) && !spec_is_delimiter(c) && !spec_is_operator(c) {
            if spec_is_whitespace(c) {
                lemma_same_skip(a, b, 1);
                lemma_same_lex(a.skip(1), b.skip(1));
            } else {
                lemma_same_extent(a, b, 1);
                lemma_literal_extent_bounds(a, 1);
                let n = literal_extent(a, 1);
                lemma_same_joins(a, b, n as int);
                lemma_same_text(a, b, n as int);
                if n < a.len() {
                    assert(a[n as int].1 == b[n as int].1);
                }
            }
        }
    }
}

/// Where blanks are idle the same tokens are read.
pub proof fn lemma_same_tokens(a: Seq<(usize, char)>, b: Seq<(usize, char)>)
    requires
        same_but_idle_blanks(a, b),
    ensures
        same_contents(tokens(a), tokens(b)),
    decreases a.len(),
{
    lemma_same_lex(a, b);
    match (lex(a), lex(b)) {
        (Lexed::Token { token: x, used }, Lexed::Token { token: y, .. }) => {
            lemma_lex_used(a);
            lemma_same_skip(a, b, used as int);
            lemma_same_tokens(a.skip(used as int), b.skip(used as int));
            let p = tokens(a.skip(used as int));
            let q = tokens(b.skip(used as int));
            assert forall|i: int| 0 <= i < tokens(a).tokens.len() implies (#[trigger] tokens(
                a,
            ).tokens[i]).token == tokens(b).tokens[i].token by {
                if i > 0 {
                    assert(tokens(a).tokens[i] == p.tokens[i - 1]);
                    assert(tokens(b).tokens[i] == q.tokens[i - 1]);
                }
            }
        },
        _ => {},
    }
}

/// Blanks that are idle do not matter: two inputs with the same characters
/// apart from blanks, whose blanks differ only where they are idle, can
/// both be read or both not, and where they can they are evaluated by the
/// same steps.
pub proof fn lemma_idle_blanks_do_not_matter(x: Seq<char>, y: Seq<char>)
    requires
        same_but_idle_blanks(significant(x), significant(y)),
    ensures
        steps_of(x) is Ok <==> steps_of(y) is Ok,
        steps_of(x) is Ok ==> steps_of(x) == steps_of(y),
{
    lemma_same_tokens(significant(x), significant(y));
    lemma_parse_ignores_offsets(tokens(significant(x)), tokens(significant(y)));
}

} // verus!
