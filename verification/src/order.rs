use crate::expression::{indexed, keeps, significant};
use crate::tokenizer::{lemma_lex_used, lemma_literal_extent_bounds, lex, tokens, Lexed};
use crate::utils::{
    spec_is_admissible, spec_is_delimiter, spec_is_operator, spec_is_whitespace, TokenView,
};
use vstd::prelude::*;

verus! {

/// Offsets grow along `cs`.
pub open spec fn ascending(cs: Seq<(usize, char)>) -> bool {
    forall|i: int, j: int| 0 <= i < j < cs.len() ==> cs[i].0 < cs[j].0
}

/// The positions of the tokens grow along `ts`.
pub open spec fn positions_ascend(ts: Seq<TokenView>) -> bool {
    forall|i: int, j: int| 0 <= i < j < ts.len() ==> ts[i].pos < ts[j].pos
}

proof fn lemma_filter_ascending(cs: Seq<(usize, char)>, keep: spec_fn((usize, char)) -> bool)
    requires
        ascending(cs),
    ensures
        ascending(cs.filter(keep)),
        forall|k: int|
            0 <= k < cs.filter(keep).len() ==> cs.contains(#[trigger] cs.filter(keep)[k]),
    decreases cs.len(),
{
    reveal(Seq::filter);
    if cs.len() > 0 {
        let front = cs.drop_last();
        let kept = front.filter(keep);
        lemma_filter_ascending(front, keep);
        assert forall|k: int| 0 <= k < kept.len() implies cs.contains(#[trigger] kept[k])
            && kept[k].0 < cs.last().0 by {
            assert(front.contains(kept[k]));
            let i = choose|i: int| 0 <= i < front.len() && front[i] == kept[k];
            assert(cs[i] == kept[k]);
        }
        assert(cs.contains(cs.last())) by {
            assert(cs[cs.len() - 1] == cs.last());
        }
    }
}

/// The filter hands out the characters in the order of the input: their
/// offsets grow.
pub proof fn lemma_significant_ascending(input: Seq<char>)
    requires
        input.len() <= usize::MAX,
    ensures
        ascending(significant(input)),
{
    lemma_filter_ascending(indexed(input), keeps());
}

proof fn lemma_ascending_skip(cs: Seq<(usize, char)>, k: int)
    requires
        ascending(cs),
        0 <= k <= cs.len(),
    ensures
        ascending(cs.skip(k)),
{
}

proof fn lemma_lex_pos(cs: Seq<(usize, char)>)
    ensures
        lex(cs) matches Lexed::Token { token, used } ==> exists|j: int|
            0 <= j < used && j < cs.len() && token.pos == (#[trigger] cs[j]).0,
    decreases cs.len(),
{
    if cs.len() > 0 {
        match lex(cs) {
            Lexed::Token { token, used } => {
                if spec_is_admissible(cs[0].1) && !spec_is_delimiter(cs[0].1) && !spec_is_operator(
                    cs[0].1,
                ) && spec_is_whitespace(cs[0].1) {
                    lemma_lex_pos(cs.skip(1));
                    let rest = cs.skip(1);
                    let j = choose|j: int|
                        0 <= j < used - 1 && j < rest.len() && token.pos == (#[trigger] rest[j]).0;
                    assert(cs[j + 1] == rest[j]);
                } else {
                    lemma_literal_extent_bounds(cs, 1);
                    assert(token.pos == cs[0].0);
                }
            },
            _ => {},
        }
    }
}

proof fn lemma_tokens_ascend(cs: Seq<(usize, char)>)
    requires
        ascending(cs),
    ensures
        positions_ascend(tokens(cs).tokens),
        forall|k: int|
            0 <= k < tokens(cs).tokens.len() ==> exists|i: int|
                0 <= i < cs.len() && (#[trigger] tokens(cs).tokens[k]).pos == cs[i].0,
    decreases cs.len(),
{
    match lex(cs) {
        Lexed::Token { token, used } => {
            lemma_lex_used(cs);
            lemma_lex_pos(cs);
            let rest_cs = cs.skip(used as int);
            lemma_ascending_skip(cs, used as int);
            lemma_tokens_ascend(rest_cs);
            let rest = tokens(rest_cs).tokens;
            let ts = tokens(cs).tokens;
            let j0 = choose|j: int|
                0 <= j < used && j < cs.len() && token.pos == (#[trigger] cs[j]).0;
            assert(ts[0] == token);
            assert forall|k: int| 0 <= k < ts.len() implies exists|i: int|
                0 <= i < cs.len() && (#[trigger] ts[k]).pos == cs[i].0 && (k > 0 ==> i >= used) by {
                if k == 0 {
                    assert(ts[0].pos == cs[j0].0);
                } else {
                    assert(ts[k] == rest[k - 1]);
                    let i = choose|i: int|
                        0 <= i < rest_cs.len() && rest[k - 1].pos == rest_cs[i].0;
                    assert(rest_cs[i] == cs[i + used]);
                }
            }
            assert forall|a: int, b: int| 0 <= a < b < ts.len() implies ts[a].pos < ts[b].pos by {
                assert(ts[b] == rest[b - 1]);
                if a == 0 {
                    let i = choose|i: int|
                        0 <= i < cs.len() && ts[b].pos == cs[i].0 && (b > 0 ==> i >= used);
                    assert(cs[j0].0 < cs[i].0);
                } else {
                    assert(ts[a] == rest[a - 1]);
                }
            }
        },
        _ => {},
    }
}

/// The tokens of an input stand in the order of the input: each starts at
/// a later offset than the one before it.
pub proof fn lemma_token_positions_ascend(input: Seq<char>)
    requires
        input.len() <= usize::MAX,
    ensures
        positions_ascend(tokens(significant(input)).tokens),
{
    lemma_significant_ascending(input);
    lemma_tokens_ascend(significant(input));
}

} // verus!
