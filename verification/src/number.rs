//! Number words: an optional minus sign followed by decimal digits.

use vstd::prelude::*;

verus! {

/// Whether `c` is a decimal digit.
pub open spec fn is_digit(c: char) -> bool {
    '0' <= c <= '9'
}

/// The number that a decimal digit denotes.
pub open spec fn digit_value(c: char) -> int {
    c as int - '0' as int
}

/// Whether `s` holds decimal digits only.
pub open spec fn all_digits(s: Seq<char>) -> bool {
    forall|i: int| 0 <= i < s.len() ==> is_digit(#[trigger] s[i])
}

/// The number that a run of decimal digits denotes.
pub open spec fn decimal_value(s: Seq<char>) -> int
    decreases s.len(),
{
    if s.len() == 0 {
        0
    } else {
        10 * decimal_value(s.drop_last()) + digit_value(s.last())
    }
}

/// Whether `w` begins with a minus sign.
pub open spec fn is_negative(w: Seq<char>) -> bool {
    w.len() > 0 && w[0] == '-'
}

/// `w` without its minus sign.
pub open spec fn digits_of(w: Seq<char>) -> Seq<char> {
    if is_negative(w) {
        w.skip(1)
    } else {
        w
    }
}

/// Whether `w` is a number word, of the form `["-"] digit+`.
pub open spec fn is_number_word(w: Seq<char>) -> bool {
    digits_of(w).len() > 0 && all_digits(digits_of(w))
}

/// The integer that a number word denotes, however large.
pub open spec fn number_value(w: Seq<char>) -> int {
    if is_negative(w) {
        -decimal_value(digits_of(w))
    } else {
        decimal_value(digits_of(w))
    }
}

/// Whether `n` is in the range of 64 signed bits.
pub open spec fn fits(n: int) -> bool {
    i64::MIN <= n <= i64::MAX
}

/// What a word is, read as a number.
#[derive(Clone, Copy, Debug, PartialEq, Eq, Structural)]
pub enum Literal {
    /// A number word, with the value it denotes.
    Number(i64),
    /// A number word whose value does not fit in 64 signed bits.
    OutOfRange,
    /// No number word.
    Other,
}

/// Reads `w` as a number.
pub open spec fn literal_of(w: Seq<char>) -> Literal {
    if !is_number_word(w) {
        Literal::Other
    } else if fits(number_value(w)) {
        Literal::Number(number_value(w) as i64)
    } else {
        Literal::OutOfRange
    }
}

/// A run of digits denotes at least as much as any of its prefixes.
pub proof fn lemma_decimal_value_prefix(s: Seq<char>, k: int)
    requires
        all_digits(s),
        0 <= k <= s.len(),
    ensures
        0 <= decimal_value(s.take(k)) <= decimal_value(s),
    decreases s.len(),
{
    if s.len() == 0 {
        assert(s.take(k) =~= s);
    } else if k == s.len() {
        assert(s.take(k) =~= s);
        lemma_decimal_value_prefix(s.drop_last(), k - 1);
        assert(is_digit(s[s.len() - 1]));
    } else {
        assert(is_digit(s[s.len() - 1]));
        lemma_decimal_value_prefix(s.drop_last(), k);
        assert(s.drop_last().take(k) =~= s.take(k));
    }
}

/// Reads `w` as a number.
pub fn parse_number(w: &[char]) -> (r: Literal)
    ensures
        r == literal_of(w@),
{
    let n = w.len();
    if n == 0 {
        return Literal::Other;
    }
    let negative = w[0] == '-';
    let start: usize = if negative { 1 } else { 0 };
    if start == n {
        return Literal::Other;
    }
    let ghost digits = digits_of(w@);
    let mut i: usize = start;
    while i < n
        invariant
            start <= i <= n,
            n == w.len(),
            negative == is_negative(w@),
            start == if negative { 1int } else { 0int },
            digits == digits_of(w@),
            all_digits(digits.take(i - start)),
        decreases n - i,
    {
        let c = w[i];
        if !('0' <= c && c <= '9') {
            assert(!is_digit(digits[i - start]));
            return Literal::Other;
        }
        assert(digits.take(i - start + 1).drop_last() =~= digits.take(i - start));
        i += 1;
    }
    assert(digits.take(n - start) =~= digits);
    // The magnitude is accumulated negated, so that the least value is reached.
    let mut acc: i64 = 0;
    let mut i: usize = start;
    while i < n
        invariant
            start <= i <= n,
            start < n,
            n == w.len(),
            negative == is_negative(w@),
            start == if negative { 1int } else { 0int },
            digits == digits_of(w@),
            all_digits(digits),
            acc == -decimal_value(digits.take(i - start)),
        decreases n - i,
    {
        let c = w[i];
        let d: i64 = (c as u8 - '0' as u8) as i64;
        proof {
            let next = digits.take(i - start + 1);
            assert(next.drop_last() =~= digits.take(i - start));
            assert(is_digit(digits[i - start]));
            assert(next.last() == c);
            lemma_decimal_value_prefix(digits, i - start + 1);
        }
        let shifted = match acc.checked_mul(10) {
            Some(m) => m,
            None => {
                return Literal::OutOfRange;
            },
        };
        acc = match shifted.checked_sub(d) {
            Some(v) => v,
            None => {
                return Literal::OutOfRange;
            },
        };
        i += 1;
    }
    assert(digits.take(n - start) =~= digits);
    if negative {
        Literal::Number(acc)
    } else if acc == i64::MIN {
        Literal::OutOfRange
    } else {
        Literal::Number(-acc)
    }
}

} // verus!
