//! Natural numbers in decimal notation.

use vstd::arithmetic::div_mod::lemma_div_denominator;
use vstd::arithmetic::power::{lemma_pow0, lemma_pow_positive, pow};
use vstd::prelude::*;
use vstd::string::StringExecFns;

use crate::text::chars_of;

verus! {

/// The digit that stands for a number below ten.
pub open spec fn digit(d: nat) -> char {
    (48 + d) as char
}

/// A number in decimal notation.
pub open spec fn decimal(n: nat) -> Seq<char>
    decreases n,
{
    if n < 10 {
        seq![digit(n)]
    } else {
        decimal(n / 10).push(digit(n % 10))
    }
}

fn digit_text(d: u64) -> (text: &'static str)
    requires
        d < 10,
    ensures
        text@ == seq![digit(d as nat)],
{
    proof {
        reveal_strlit("0");
        reveal_strlit("1");
        reveal_strlit("2");
        reveal_strlit("3");
        reveal_strlit("4");
        reveal_strlit("5");
        reveal_strlit("6");
        reveal_strlit("7");
        reveal_strlit("8");
        reveal_strlit("9");
    }
    match d {
        0 => "0",
        1 => "1",
        2 => "2",
        3 => "3",
        4 => "4",
        5 => "5",
        6 => "6",
        7 => "7",
        8 => "8",
        _ => "9",
    }
}

/// Writes a number in decimal notation.
pub fn decimal_text(n: u64) -> (text: String)
    ensures
        text@ == decimal(n as nat),
    decreases n,
{
    if n < 10 {
        digit_text(n).to_owned()
    } else {
        let mut text = decimal_text(n / 10);
        text.append(digit_text(n % 10));
        assert(text@ =~= decimal(n as nat));
        text
    }
}

/// Whether a character is a decimal digit.
pub open spec fn is_digit(c: char) -> bool {
    '0' <= c <= '9'
}

/// Whether a text has only decimal digits.
pub open spec fn all_digits(s: Seq<char>) -> bool {
    forall|i: int| 0 <= i < s.len() ==> is_digit(#[trigger] s[i])
}

/// The number that a text of decimal digits stands for.
pub open spec fn digits_value(s: Seq<char>) -> nat
    decreases s.len(),
{
    if s.len() == 0 {
        0
    } else {
        (digits_value(s.drop_last()) * 10 + (s.last() as nat - 48)) as nat
    }
}

/// Decimal notation has only digits, at least one, and stands for the number it was
/// written for.
pub proof fn law_decimal_reads_back(n: nat)
    ensures
        decimal(n).len() > 0,
        all_digits(decimal(n)),
        digits_value(decimal(n)) == n,
    decreases n,
{
    if n < 10 {
        assert(decimal(n).drop_last() =~= Seq::<char>::empty());
        assert(digits_value(decimal(n).drop_last()) == 0);
    } else {
        law_decimal_reads_back(n / 10);
        assert(decimal(n).drop_last() =~= decimal(n / 10));
    }
}

/// Decimal notation has the digit for each power of ten in its place, the ones last, and
/// starts with a zero only for the number zero.
pub proof fn law_decimal_has_each_digit(n: nat, i: nat)
    ensures
        n == 0 ==> decimal(n).len() == 1,
        n > 0 ==> pow(10, (decimal(n).len() - 1) as nat) <= n < pow(10, decimal(n).len()),
        i < decimal(n).len() ==> decimal(n)[decimal(n).len() - 1 - i] as u32 == 48 + n as int / pow(
            10,
            i,
        ) % 10,
    decreases n,
{
    lemma_pow0(10);
    reveal(pow);
    if n < 10 {
        assert(pow(10, 1) == 10 * pow(10, 0));
        if i == 0 {
            assert(n as int / 1 == n);
        }
    } else {
        let shorter = decimal(n / 10);
        let len = decimal(n).len();
        law_decimal_has_each_digit(n / 10, if i > 0 {
            (i - 1) as nat
        } else {
            0
        });
        law_decimal_reads_back(n / 10);
        assert(len == shorter.len() + 1);
        assert(pow(10, len) == 10 * pow(10, shorter.len()));
        assert(pow(10, shorter.len()) == 10 * pow(10, (shorter.len() - 1) as nat));
        if i == 0 {
            assert(n as int / 1 == n);
        } else if i < len {
            let power = pow(10, (i - 1) as nat);
            lemma_pow_positive(10, (i - 1) as nat);
            assert(pow(10, i) == 10 * power);
            lemma_div_denominator(n as int, 10, power);
            assert(decimal(n)[len - 1 - i] == shorter[shorter.len() - 1 - (i - 1)]);
        }
    }
}

/// Each further digit makes a number ten times as large and adds itself.
pub proof fn law_digits_count_by_tens(s: Seq<char>, c: char)
    requires
        48 <= c as u32 <= 57,
    ensures
        digits_value(Seq::empty()) == 0,
        digits_value(s.push(c)) == 10 * digits_value(s) + (c as u32 - 48),
{
    assert(s.push(c).drop_last() =~= s);
}

/// Two different numbers have different decimal notations.
pub proof fn law_decimal_is_injective(m: nat, n: nat)
    ensures
        decimal(m) == decimal(n) ==> m == n,
{
    law_decimal_reads_back(m);
    law_decimal_reads_back(n);
}

/// The digits of a number that may have a plus sign before it.
pub open spec fn unsigned_digits(s: Seq<char>) -> Seq<char> {
    if s.len() > 0 && s[0] == '+' {
        s.drop_first()
    } else {
        s
    }
}

/// The number that a text stands for: an optional plus sign and then digits alone, at least
/// one, for a number that fits in a `usize`.
pub open spec fn parsed_usize(s: Seq<char>) -> Option<usize> {
    let digits = unsigned_digits(s);
    if digits.len() > 0 && all_digits(digits) && digits_value(digits) <= usize::MAX {
        Some(digits_value(digits) as usize)
    } else {
        None
    }
}

/// A number that fits in a `usize` is read back from its decimal notation.
pub proof fn law_parse_reads_decimal(n: usize)
    ensures
        parsed_usize(decimal(n as nat)) == Some(n),
{
    law_decimal_reads_back(n as nat);
    assert(is_digit(decimal(n as nat)[0]));
}

/// A number is read exactly from a text of one or more decimal digits, with or without a
/// plus sign before them, for a number that fits; it is then the number of the digits.
pub proof fn law_digits_alone_are_a_number(digits: Seq<char>)
    ensures
        digits.len() == 0 ==> parsed_usize(digits) is None,
        digits.len() > 0 && (forall|i: int|
            0 <= i < digits.len() ==> 48 <= (#[trigger] digits[i]) as int <= 57) ==> {
            let value = digits_value(digits);
            &&& value <= usize::MAX ==> parsed_usize(digits) == Some(value as usize)
            &&& value > usize::MAX ==> parsed_usize(digits) is None
        },
        parsed_usize(digits) is Some ==> forall|i: int|
            #![trigger digits[i]]
            0 <= i < digits.len() ==> 48 <= digits[i] as int <= 57 || (i == 0 && digits[i] == '+'
                && digits.len() > 1),
        digits.len() > 0 && digits[0] == '+' ==> parsed_usize(seq!['+'] + digits) is None,
        digits.len() > 0 && digits[0] != '+' ==> parsed_usize(seq!['+'] + digits) == parsed_usize(
            digits,
        ),
{
    let signed = seq!['+'] + digits;
    assert(signed.drop_first() =~= digits);
    if digits.len() > 0 && forall|i: int|
        0 <= i < digits.len() ==> 48 <= (#[trigger] digits[i]) as int <= 57 {
        assert(48 <= digits[0] as int <= 57);
        assert(all_digits(digits));
    }
    if digits.len() > 0 && digits[0] == '+' {
        assert(!is_digit(digits[0]));
    }
    if parsed_usize(digits) is Some {
        let rest = unsigned_digits(digits);
        assert forall|i: int|
            #![trigger digits[i]]
            0 <= i < digits.len() implies 48 <= digits[i] as int <= 57 || (i == 0 && digits[i]
            == '+' && digits.len() > 1) by {
            if digits[0] == '+' {
                if i > 0 {
                    assert(rest[i - 1] == digits[i]);
                    assert(is_digit(rest[i - 1]));
                }
            } else {
                assert(is_digit(rest[i]));
            }
        }
    }
}

/// Reads a number that fits in a `usize`.
pub fn parse_usize(text: &str) -> (number: Option<usize>)
    ensures
        number == parsed_usize(text@),
{
    let chars = chars_of(text);
    let start: usize = if chars.len() > 0 && chars[0] == '+' {
        1
    } else {
        0
    };
    let ghost digits = unsigned_digits(text@);
    assert(digits =~= chars@.skip(start as int));
    if start == chars.len() {
        return None;
    }
    let mut fits: bool = true;
    let mut value: usize = 0;
    let mut i: usize = start;
    assert(digits.take(0) =~= Seq::<char>::empty());
    while i < chars.len()
        invariant
            start <= i <= chars@.len(),
            digits == chars@.skip(start as int),
            digits == unsigned_digits(text@),
            all_digits(digits.take(i - start)),
            fits ==> value == digits_value(digits.take(i - start)),
            !fits ==> digits_value(digits.take(i - start)) > usize::MAX,
        decreases chars@.len() - i,
    {
        let c = chars[i];
        let ghost done = digits.take(i - start);
        let ghost more = digits.take(i + 1 - start);
        assert(more.drop_last() =~= done);
        assert(more.last() == c);
        if c < '0' || c > '9' {
            assert(!is_digit(digits[i - start]));
            return None;
        }
        assert(all_digits(more)) by {
            assert forall|j: int| 0 <= j < more.len() implies is_digit(#[trigger] more[j]) by {
                if j < done.len() {
                    assert(done[j] == more[j]);
                }
            }
        }
        let d: usize = (c as u32 - 48) as usize;
        if fits {
            match value.checked_mul(10) {
                Some(tens) => match tens.checked_add(d) {
                    Some(sum) => {
                        value = sum;
                    },
                    None => {
                        fits = false;
                    },
                },
                None => {
                    fits = false;
                },
            }
        }
        i += 1;
    }
    assert(digits.take(i - start) =~= digits);
    if fits {
        Some(value)
    } else {
        None
    }
}

} // verus!
