use vstd::prelude::*;

verus! {

/// The whitespace that the filter removes: space and tab.
pub open spec fn is_blank(c: char) -> bool {
    c == ' ' || c == '\t'
}

/// Every character of `s` paired with its offset in `s`.
pub open spec fn indexed(s: Seq<char>) -> Seq<(usize, char)> {
    Seq::new(s.len(), |i: int| (i as usize, s[i]))
}

/// The test that a pair passes when its character is not blank.
pub open spec fn keeps() -> spec_fn((usize, char)) -> bool {
    |p: (usize, char)| !is_blank(p.1)
}

/// The characters of `s` that are not blank, in order, each with its offset
/// in `s`.
pub open spec fn significant(s: Seq<char>) -> Seq<(usize, char)> {
    indexed(s).filter(keeps())
}

/// The character filter: hands out the characters of an input that are not
/// blank, one at a time, each with its offset in the input.
pub struct Expression {
    chars: Vec<char>,
    index: usize,
}

proof fn lemma_skip_step(s: Seq<char>, k: int)
    requires
        0 <= k < s.len(),
    ensures
        indexed(s).skip(k).filter(keeps()) == (if is_blank(s[k]) {
            Seq::<(usize, char)>::empty()
        } else {
            seq![(k as usize, s[k])]
        }) + indexed(s).skip(k + 1).filter(keeps()),
{
    let head = (k as usize, s[k]);
    assert(indexed(s).skip(k) =~= seq![head] + indexed(s).skip(k + 1));
    indexed(s).skip(k + 1).lemma_filter_prepend(head, keeps());
}

impl Expression {
    /// The pairs that are still to be handed out.
    pub closed spec fn remaining(&self) -> Seq<(usize, char)> {
        indexed(self.chars@).skip(self.index as int).filter(keeps())
    }

    #[verifier::type_invariant]
    spec fn inv(self) -> bool {
        &&& self.index <= self.chars.len()
        &&& self.index < self.chars.len() ==> !is_blank(self.chars[self.index as int])
    }

    /// The first offset at or after `from` whose character is not blank, or
    /// the length of `chars` if there is none.
    fn seek(chars: &Vec<char>, from: usize) -> (r: usize)
        requires
            from <= chars.len(),
        ensures
            from <= r <= chars.len(),
            r < chars.len() ==> !is_blank(chars[r as int]),
            indexed(chars@).skip(r as int).filter(keeps()) == indexed(chars@).skip(
                from as int,
            ).filter(keeps()),
    {
        let mut at: usize = from;
        while at < chars.len() && (chars[at] == ' ' || chars[at] == '\t')
            invariant
                from <= at <= chars.len(),
                indexed(chars@).skip(at as int).filter(keeps()) == indexed(chars@).skip(
                    from as int,
                ).filter(keeps()),
            decreases chars.len() - at,
        {
            proof {
                lemma_skip_step(chars@, at as int);
            }
            at = at + 1;
        }
        at
    }

    /// A filter over the characters of `expr`.
    pub fn new(expr: &str) -> (r: Expression)
        ensures
            r.remaining() == significant(expr@),
    {
        let mut chars: Vec<char> = Vec::new();
        for c in rest: expr.chars()
            invariant
                rest.seq() == expr@,
                chars@ == rest.seq().take(rest.index()),
        {
            chars.push(c);
            assert(rest.seq().take(rest.index() + 1) =~= rest.seq().take(rest.index()).push(c));
        }
        assert(chars@ =~= expr@);
        let index = Expression::seek(&chars, 0);
        assert(indexed(chars@).skip(0) =~= indexed(chars@));
        Expression { chars, index }
    }

    /// The pair that `next` would hand out, without taking it.
    pub fn peek(&self) -> (r: Option<(usize, char)>)
        ensures
            self.remaining().len() == 0 ==> r.is_none(),
            self.remaining().len() > 0 ==> r == Some(self.remaining()[0]),
    {
        proof {
            use_type_invariant(self);
        }
        if self.index < self.chars.len() {
            proof {
                lemma_skip_step(self.chars@, self.index as int);
            }
            Some((self.index, self.chars[self.index]))
        } else {
            assert(indexed(self.chars@).skip(self.index as int) =~= Seq::empty());
            None
        }
    }

    /// Hands out the next character that is not blank, with its offset, or
    /// `None` when the input is used up.
    pub fn next(&mut self) -> (r: Option<(usize, char)>)
        ensures
            old(self).remaining().len() == 0 ==> r.is_none(),
            old(self).remaining().len() == 0 ==> final(self).remaining() == old(self).remaining(),
            old(self).remaining().len() > 0 ==> r == Some(old(self).remaining()[0]),
            old(self).remaining().len() > 0 ==> final(self).remaining()
                == old(self).remaining().skip(1),
    {
        proof {
            use_type_invariant(&*self);
        }
        if self.index < self.chars.len() {
            let at = self.index;
            let c = self.chars[at];
            proof {
                lemma_skip_step(self.chars@, at as int);
            }
            let ghost tail = indexed(self.chars@).skip(at + 1).filter(keeps());
            assert((seq![(at, c)] + tail).skip(1) =~= tail);
            self.index = Expression::seek(&self.chars, at + 1);
            Some((at, c))
        } else {
            assert(indexed(self.chars@).skip(self.index as int) =~= Seq::empty());
            None
        }
    }
}

} // verus!
