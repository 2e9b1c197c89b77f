//! Unsigned decimal numbers as text, in both directions.

use vstd::prelude::*;
use vstd::string::*;
use crate::text::chars_of;

verus! {

/// `c` is one of the ten digits.
pub open spec fn is_digit(c: char) -> bool {
    '0' <= c && c <= '9'
}

/// The character for a digit below ten.
pub open spec fn digit_char(d: nat) -> char
    recommends
        d < 10,
{
    ('0' as nat + d) as char
}

/// The digit a character stands for; zero where it stands for none.
pub open spec fn digit_value(c: char) -> nat {
    if is_digit(c) {
        (c as nat - '0' as nat) as nat
    } else {
        0
    }
}

/// `s` holds digits only.
pub open spec fn all_digits(s: Seq<char>) -> bool {
    forall|i: int| 0 <= i < s.len() ==> is_digit(#[trigger] s[i])
}

/// The number that a run of digits denotes, most significant digit first.
pub open spec fn digits_value(s: Seq<char>) -> nat
    decreases s.len(),
{
    if s.len() == 0 {
        0
    } else {
        digits_value(s.drop_last()) * 10 + digit_value(s.last())
    }
}

/// The decimal form of `n`: digits only, no sign, no padding.
pub open spec fn decimal(n: nat) -> Seq<char>
    decreases n,
{
    if n < 10 {
        seq![digit_char(n)]
    } else {
        decimal(n / 10).push(digit_char(n % 10))
    }
}

/// `s` without the one `+` that may lead a number.
pub open spec fn unsigned_part(s: Seq<char>) -> Seq<char> {
    if s.len() > 0 && s[0] == '+' {
        s.skip(1)
    } else {
        s
    }
}

/// What a text means as a `usize`: an optional `+`, then one digit or more,
/// denoting a value that a `usize` can hold. Any other text means nothing.
pub open spec fn parse_spec(s: Seq<char>) -> Option<usize> {
    let digits = unsigned_part(s);
    if digits.len() > 0 && all_digits(digits) && digits_value(digits) <= usize::MAX {
        Some(digits_value(digits) as usize)
    } else {
        None
    }
}

/// Every prefix of a run of digits denotes at most what the whole run denotes.
pub proof fn lemma_digits_value_prefix(s: Seq<char>, k: int)
    requires
        0 <= k <= s.len(),
    ensures
        digits_value(s.take(k)) <= digits_value(s),
    decreases s.len() - k,
{
    if k == s.len() {
        assert(s.take(k) == s);
    } else {
        lemma_digits_value_prefix(s, k + 1);
        assert(s.take(k + 1).drop_last() == s.take(k));
    }
}

/// The decimal form of a number is a run of digits that denotes it, with no
/// zero in front of a number above zero.
pub proof fn lemma_decimal_denotes(n: nat)
    ensures
        decimal(n).len() >= 1,
        all_digits(decimal(n)),
        digits_value(decimal(n)) == n,
        n > 0 ==> decimal(n)[0] != '0',
        n == 0 ==> decimal(n) == seq!['0'],
    decreases n,
{
    if n < 10 {
        assert(digits_value(decimal(n).drop_last()) == 0);
    } else {
        lemma_decimal_denotes(n / 10);
        assert(decimal(n).drop_last() == decimal(n / 10));
    }
}

/// A number written in decimal reads back as itself.
pub proof fn lemma_parse_decimal(n: usize)
    ensures
        parse_spec(decimal(n as nat)) == Some(n),
{
    lemma_decimal_denotes(n as nat);
}

/// Reads a `usize` from `text`.
pub fn parse_usize(text: &str) -> (value: Option<usize>)
    ensures
        value == parse_spec(text@),
{
    let chars = chars_of(text);
    let n = chars.len();
    let start: usize = if n > 0 && chars[0] == '+' {
        1
    } else {
        0
    };
    let ghost digits = unsigned_part(text@);
    if start == n {
        return None;
    }
    let mut value: usize = 0;
    let mut i: usize = start;
    while i < n
        invariant
            chars@ == text@,
            n == chars@.len(),
            start <= i <= n,
            digits == text@.skip(start as int),
            digits == unsigned_part(text@),
            all_digits(digits.take(i - start)),
            value == digits_value(digits.take(i - start)),
        decreases n - i,
    {
        let c = chars[i];
        proof {
            assert(digits.take(i + 1 - start).drop_last() == digits.take(i - start));
            lemma_digits_value_prefix(digits, i + 1 - start);
        }
        if !(c >= '0' && c <= '9') {
            return None;
        }
        let d = (c as u8 - '0' as u8) as usize;
        let shifted = match value.checked_mul(10) {
            Some(v) => v,
            None => { return None; },
        };
        value = match shifted.checked_add(d) {
            Some(v) => v,
            None => { return None; },
        };
        i += 1;
    }
    assert(digits.take(n - start) == digits);
    Some(value)
}

/// The text of one digit.
fn digit_str(d: usize) -> (text: &'static str)
    requires
        d < 10,
    ensures
        text@ == seq![digit_char(d as nat)],
{
    proof {
        reveal_strlit("0");
        reveal_strlit("1");
        reveal_strlit("2");
        reveal_strlit("3");
        reveal_strlit("4");
        reveal_strlit("5");
        reveal_strlit("6");
        reveal_strlit("7");
        reveal_strlit("8");
        reveal_strlit("9");
    }
    match d {
        0 => "0",
        1 => "1",
        2 => "2",
        3 => "3",
        4 => "4",
        5 => "5",
        6 => "6",
        7 => "7",
        8 => "8",
        _ => "9",
    }
}

/// Writes `n` in decimal.
pub fn to_decimal(n: usize) -> (text: String)
    ensures
        text@ == decimal(n as nat),
    decreases n,
{
    if n < 10 {
        String::from_str(digit_str(n))
    } else {
        let mut text = to_decimal(n / 10);
        text.append(digit_str(n % 10));
        text
    }
}

} // verus!
