use vstd::prelude::*;
use crate::chars::{is_digit, to_ascii_uppercase, upper};
use crate::grammar::{decimal_value, keyword_of, spelling, Keyword};

verus! {

/// The value of a run of digits does not shrink when digits are appended.
pub proof fn lemma_decimal_grows(digits: Seq<u8>, n: int)
    requires
        0 <= n <= digits.len(),
        forall|i: int| 0 <= i < digits.len() ==> is_digit(#[trigger] digits[i]),
    ensures
        decimal_value(digits.subrange(0, n)) <= decimal_value(digits),
    decreases digits.len() - n,
{
    if n == digits.len() {
        assert(digits.subrange(0, n) == digits);
    } else {
        let longer = digits.subrange(0, n + 1);
        assert(longer.drop_last() == digits.subrange(0, n));
        assert(is_digit(digits[n]));
        assert(longer.last() == digits[n]);
        lemma_decimal_grows(digits, n + 1);
    }
}

/// Reads the digits `text[start..end]` as a number in base ten. The result is the number
/// they denote, or nothing where that number is above `i64::MAX`.
pub fn parse_decimal(text: &[u8], start: usize, end: usize) -> (r: Option<i64>)
    requires
        start <= end <= text@.len(),
        forall|i: int| start <= i < end ==> is_digit(#[trigger] text@[i]),
    ensures
        r == if decimal_value(text@.subrange(start as int, end as int)) <= i64::MAX {
            Some(decimal_value(text@.subrange(start as int, end as int)) as i64)
        } else {
            None::<i64>
        },
{
    let ghost digits = text@.subrange(start as int, end as int);
    let mut value: i64 = 0;
    let mut i: usize = start;
    proof {
        assert(digits.subrange(0, 0) == Seq::<u8>::empty());
    }
    while i < end
        invariant
            start <= i <= end <= text@.len(),
            digits == text@.subrange(start as int, end as int),
            forall|k: int| start <= k < end ==> is_digit(#[trigger] text@[k]),
            forall|k: int| 0 <= k < digits.len() ==> is_digit(#[trigger] digits[k]),
            0 <= value,
            value == decimal_value(digits.subrange(0, i - start)),
        decreases end - i,
    {
        assert(is_digit(text@[i as int]));
        let digit: i64 = (text[i] - 0x30) as i64;
        proof {
            let longer = digits.subrange(0, i - start + 1);
            assert(longer.drop_last() == digits.subrange(0, i - start));
            assert(longer.last() == text@[i as int]);
            assert(is_digit(digits[i - start]));
            assert(decimal_value(longer) == value * 10 + digit);
            lemma_decimal_grows(digits, i - start + 1);
        }
        if value > (i64::MAX - digit) / 10 {
            return None;
        }
        value = value * 10 + digit;
        i = i + 1;
    }
    proof {
        assert(digits.subrange(0, end - start) == digits);
    }
    Some(value)
}

/// Tells whether `text[start..end]`, with its letters put in upper case, is `word`.
pub fn matches_ignoring_case(text: &[u8], start: usize, end: usize, word: &[u8]) -> (r: bool)
    requires
        start <= end <= text@.len(),
    ensures
        r == (text@.subrange(start as int, end as int).map_values(|b: u8| upper(b)) == word@),
{
    let ghost folded = text@.subrange(start as int, end as int).map_values(|b: u8| upper(b));
    if end - start != word.len() {
        return false;
    }
    let mut i: usize = 0;
    while i < word.len()
        invariant
            start <= end <= text@.len(),
            end - start == word@.len(),
            0 <= i <= word@.len(),
            folded == text@.subrange(start as int, end as int).map_values(|b: u8| upper(b)),
            forall|k: int| 0 <= k < i ==> folded[k] == word@[k],
        decreases word@.len() - i,
    {
        if to_ascii_uppercase(text[start + i]) != word[i] {
            assert(folded[i as int] != word@[i as int]);
            return false;
        }
        i = i + 1;
    }
    assert(folded =~= word@);
    true
}

/// Looks a whole identifier up among the reserved words, ignoring the case of its letters.
pub fn lookup_keyword(text: &[u8], start: usize, end: usize) -> (r: Option<Keyword>)
    requires
        start <= end <= text@.len(),
    ensures
        r == keyword_of(text@.subrange(start as int, end as int)),
{
    let word: [u8; 2] = [0x49, 0x46];
    assert(word@ =~= spelling(Keyword::If));
    if matches_ignoring_case(text, start, end, word.as_slice()) {
        Some(Keyword::If)
    } else {
        None
    }
}

} // verus!
