use crate::utils::is_digit;
use vstd::prelude::*;

verus! {

/// `s` is made of digits only.
pub open spec fn all_digits(s: Seq<char>) -> bool {
    forall|i: int| 0 <= i < s.len() ==> is_digit(#[trigger] s[i])
}

/// `s` is digits around at most one decimal point, with at least one digit.
pub open spec fn is_mantissa(s: Seq<char>) -> bool {
    &&& forall|i: int| 0 <= i < s.len() ==> is_digit(#[trigger] s[i]) || s[i] == '.'
    &&& forall|i: int, j: int|
        0 <= i < j < s.len() ==> !(#[trigger] s[i] == '.' && #[trigger] s[j] == '.')
    &&& exists|i: int| 0 <= i < s.len() && is_digit(#[trigger] s[i])
}

/// `s` is the exponent marker, an optional minus sign, and at least one
/// digit.
pub open spec fn is_exponent(s: Seq<char>) -> bool {
    &&& s.len() >= 2
    &&& s[0] == 'e'
    &&& if s[1] == '-' {
        s.len() >= 3 && all_digits(s.skip(2))
    } else {
        all_digits(s.skip(1))
    }
}

/// `s` is a number: a mantissa, then possibly an exponent.
pub open spec fn is_number_literal(s: Seq<char>) -> bool {
    exists|m: int|
        0 <= m <= s.len() && #[trigger] is_mantissa(s.take(m)) && (m == s.len() || is_exponent(
            s.skip(m),
        ))
}

/// Whether the characters of `text` from `from` on are all digits.
fn digits_from(text: &Vec<char>, from: usize) -> (r: bool)
    requires
        from <= text.len(),
    ensures
        r == all_digits(text@.skip(from as int)),
{
    let mut at: usize = from;
    while at < text.len()
        invariant
            from <= at <= text.len(),
            forall|i: int| from <= i < at ==> is_digit(#[trigger] text@[i]),
        decreases text.len() - at,
    {
        if !is_digit(text[at]) {
            assert(!is_digit(text@.skip(from as int)[at - from]));
            return false;
        }
        at = at + 1;
    }
    assert forall|i: int| 0 <= i < text@.skip(from as int).len() implies is_digit(
        #[trigger] text@.skip(from as int)[i],
    ) by {
        assert(is_digit(text@[from + i]));
    }
    true
}

/// Whether `text` is a number.
pub fn is_number(text: &Vec<char>) -> (r: bool)
    ensures
        r == is_number_literal(text@),
{
    let ghost s = text@;
    let mut split: usize = 0;
    let mut digits: bool = false;
    let mut points: usize = 0;
    while split < text.len() && (is_digit(text[split]) || text[split] == '.')
        invariant
            split <= text.len(),
            points <= split,
            forall|i: int| 0 <= i < split ==> is_digit(#[trigger] s[i]) || s[i] == '.',
            digits <==> exists|i: int| 0 <= i < split && is_digit(#[trigger] s[i]),
            points == 0 ==> forall|i: int| 0 <= i < split ==> #[trigger] s[i] != '.',
            points == 1 ==> forall|i: int, j: int|
                0 <= i < j < split ==> !(#[trigger] s[i] == '.' && #[trigger] s[j] == '.'),
            points == 1 ==> exists|i: int| 0 <= i < split && #[trigger] s[i] == '.',
            points >= 2 ==> exists|i: int, j: int|
                0 <= i < j < split && #[trigger] s[i] == '.' && #[trigger] s[j] == '.',
            s == text@,
        decreases text.len() - split,
    {
        if text[split] == '.' {
            if points == 1 {
                let ghost i0 = choose|i: int| 0 <= i < split && #[trigger] s[i] == '.';
                assert(s[i0] == '.' && s[split as int] == '.');
            }
            points = points + 1;
        } else {
            digits = true;
            assert(is_digit(s[split as int]));
        }
        split = split + 1;
    }
    // no other place can part the mantissa from the exponent
    assert forall|m: int|
        0 <= m <= s.len() && #[trigger] is_mantissa(s.take(m)) && (m == s.len() || is_exponent(
            s.skip(m),
        )) implies m == split by {
        if m > split {
            assert(s.take(m)[split as int] == s[split as int]);
        }
        if m < split {
            assert(s.skip(m)[0] == s[m]);
        }
    }
    let ghost head = s.take(split as int);
    assert(forall|i: int| 0 <= i < split ==> head[i] == s[i]);
    if !digits || points >= 2 {
        if points >= 2 {
            let ghost (i0, j0) = choose|i: int, j: int|
                0 <= i < j < split && #[trigger] s[i] == '.' && #[trigger] s[j] == '.';
            assert(head[i0] == '.' && head[j0] == '.');
        }
        assert(!is_mantissa(head));
        return false;
    }
    assert(is_mantissa(head)) by {
        let i0 = choose|i: int| 0 <= i < split && is_digit(#[trigger] s[i]);
        assert(is_digit(head[i0]));
    }
    if split == text.len() {
        return true;
    }
    let ghost tail = s.skip(split as int);
    assert(tail[0] == s[split as int]);
    if text[split] != 'e' || split + 1 >= text.len() {
        return false;
    }
    assert(tail[1] == s[split + 1]);
    assert(tail.skip(1) =~= s.skip(split + 1));
    assert(tail.skip(2) =~= s.skip(split + 2));
    if text[split + 1] == '-' {
        split + 2 < text.len() && digits_from(text, split + 2)
    } else {
        digits_from(text, split + 1)
    }
}

} // verus!
