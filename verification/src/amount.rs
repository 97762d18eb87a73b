//! Amounts of money as text.
//!
//! An amount is a whole number of hundredths. Its text is a decimal number
//! with at most two digits behind the point; the digits before the point may
//! be grouped by commas.

use vstd::prelude::*;
use crate::text::{
    all_digits, char_is_digit, char_of_digit, chars_of, decimal_text, decimal_value, digit_char,
    digit_value, first_position, is_digit, lemma_decimal_text, lemma_digit_reads_back,
    lemma_digit_value_range, lemma_first_position, push_decimal, value_of_digit,
};

verus! {

/// Whether `s` is a run of digits in which commas may stand: it starts with
/// a digit, and a digit follows every comma.
pub open spec fn is_grouped_digits(s: Seq<char>) -> bool {
    &&& s.len() > 0
    &&& is_digit(s[0])
    &&& forall|i: int| 0 <= i < s.len() ==> is_digit(#[trigger] s[i]) || s[i] == ','
    &&& forall|i: int|
        0 <= i < s.len() && #[trigger] s[i] == ',' ==> i + 1 < s.len() && is_digit(s[i + 1])
}

/// The number that the digits of `s` spell, its commas passed over.
pub open spec fn grouped_value(s: Seq<char>) -> nat
    decreases s.len(),
{
    if s.len() == 0 {
        0
    } else if s.last() == ',' {
        grouped_value(s.drop_last())
    } else {
        (grouped_value(s.drop_last()) * 10 + digit_value(s.last())) as nat
    }
}

/// Whether `s` is what may follow the point: one digit or two.
pub open spec fn is_fraction(s: Seq<char>) -> bool {
    (s.len() == 1 || s.len() == 2) && all_digits(s)
}

/// The hundredths that the digits behind the point stand for.
pub open spec fn fraction_value(s: Seq<char>) -> int {
    if s.len() == 1 {
        digit_value(s[0]) * 10
    } else {
        digit_value(s[0]) * 10 + digit_value(s[1])
    }
}

/// The hundredths that an amount without a sign stands for, or `None` where
/// `body` is no such amount.
pub open spec fn magnitude_of_text(body: Seq<char>) -> Option<int> {
    let dot = first_position(body, '.');
    let whole = body.take(dot);
    if !is_grouped_digits(whole) {
        None
    } else if dot == body.len() {
        Some(grouped_value(whole) as int * 100)
    } else {
        let fraction = body.skip(dot + 1);
        if is_fraction(fraction) {
            Some(grouped_value(whole) as int * 100 + fraction_value(fraction))
        } else {
            None
        }
    }
}

/// The amount of the given sign and size, where it fits in 64 bits.
pub open spec fn signed_amount(negative: bool, size: Option<int>) -> Option<int> {
    match size {
        None => None,
        Some(magnitude) => {
            let value = if negative {
                -magnitude
            } else {
                magnitude
            };
            if i64::MIN <= value <= i64::MAX {
                Some(value)
            } else {
                None
            }
        },
    }
}

/// The hundredths that the text `s` stands for: an optional minus sign, then
/// digits that commas may group, then at most a point and one or two digits.
/// `None` where `s` is no such text or stands for more than 64 bits hold.
pub open spec fn amount_of_text(s: Seq<char>) -> Option<int> {
    if s.len() > 0 && s[0] == '-' {
        signed_amount(true, magnitude_of_text(s.skip(1)))
    } else {
        signed_amount(false, magnitude_of_text(s))
    }
}

/// The two digits of `v`, a number below a hundred.
pub open spec fn two_digits(v: int) -> Seq<char> {
    seq![digit_char(v / 10), digit_char(v % 10)]
}

/// The minus sign of a negative number, and nothing for any other.
pub open spec fn sign_text(v: int) -> Seq<char> {
    if v < 0 {
        seq!['-']
    } else {
        Seq::empty()
    }
}

/// `v` without its sign.
pub open spec fn magnitude(v: int) -> nat {
    if v < 0 {
        (-v) as nat
    } else {
        v as nat
    }
}

/// The text in which an amount is stored: its units, a point and two digits
/// of hundredths, behind a minus sign where it is negative.
pub open spec fn amount_text(v: int) -> Seq<char> {
    sign_text(v) + decimal_text(magnitude(v) / 100) + seq!['.'] + two_digits(
        (magnitude(v) % 100) as int,
    )
}

/// The decimal numeral of `n` with `separator` before each group of three
/// digits but the first.
pub open spec fn grouped_text(n: nat, separator: char) -> Seq<char>
    decreases n,
{
    if n < 1000 {
        decimal_text(n)
    } else {
        grouped_text(n / 1000, separator) + seq![
            separator,
            digit_char((n / 100 % 10) as int),
            digit_char((n / 10 % 10) as int),
            digit_char((n % 10) as int),
        ]
    }
}

/// The text in which an amount is shown: a dollar sign, a minus sign where
/// the amount is negative, the units in groups of three, a point and two
/// digits of hundredths.
pub open spec fn currency_text(v: int, separator: char) -> Seq<char> {
    seq!['$'] + sign_text(v) + grouped_text(magnitude(v) / 100, separator) + seq!['.']
        + two_digits((magnitude(v) % 100) as int)
}

/// A run of digits without commas spells the same number either way.
pub proof fn lemma_grouped_value_of_digits(s: Seq<char>)
    requires
        all_digits(s),
    ensures
        grouped_value(s) == decimal_value(s),
    decreases s.len(),
{
    if s.len() > 0 {
        let front = s.drop_last();
        assert(forall|i: int| 0 <= i < front.len() ==> front[i] == s[i]);
        lemma_grouped_value_of_digits(front);
        assert(is_digit(s[s.len() - 1]));
    }
}

/// More characters never lower the number that a run spells.
pub proof fn lemma_grouped_value_grows(s: Seq<char>, n: int)
    requires
        0 <= n <= s.len(),
    ensures
        grouped_value(s.take(n)) <= grouped_value(s),
    decreases s.len() - n,
{
    if n < s.len() {
        lemma_grouped_value_grows(s, n + 1);
        let longer = s.take(n + 1);
        assert(longer.drop_last() =~= s.take(n));
        lemma_digit_value_range(longer.last());
        assert(grouped_value(s.take(n)) <= grouped_value(longer)) by (nonlinear_arith)
            requires
                grouped_value(longer) == grouped_value(s.take(n)) || grouped_value(longer)
                    == grouped_value(s.take(n)) * 10 + digit_value(longer.last()),
                0 <= digit_value(longer.last()),
        ;
    } else {
        assert(s.take(n) =~= s);
    }
}

/// Reading an amount's stored text gives the amount back.
pub proof fn lemma_amount_text_reads_back(v: int)
    requires
        i64::MIN <= v <= i64::MAX,
    ensures
        amount_of_text(amount_text(v)) == Some(v),
{
    let m = magnitude(v);
    let units = m / 100;
    let hundredths = (m % 100) as int;
    let numeral = decimal_text(units);
    let body = numeral + seq!['.'] + two_digits(hundredths);
    let text = amount_text(v);
    lemma_decimal_text(units);
    lemma_digit_reads_back(hundredths / 10);
    lemma_digit_reads_back(hundredths % 10);
    assert(is_digit(numeral[0]));
    if v < 0 {
        assert(text[0] == '-');
        assert(text.skip(1) =~= body);
    } else {
        assert(text =~= body);
    }
    let dot = numeral.len() as int;
    assert(body[dot] == '.');
    assert forall|j: int| 0 <= j < dot implies body[j] != '.' by {
        assert(body[j] == numeral[j]);
    }
    lemma_first_position(body, '.', dot);
    assert(body.take(dot) =~= numeral);
    lemma_grouped_value_of_digits(numeral);
    assert(is_grouped_digits(numeral)) by {
        assert forall|i: int| 0 <= i < numeral.len() && #[trigger] numeral[i] == ',' implies false by {
        }
    }
    let fraction = body.skip(dot + 1);
    assert(fraction =~= two_digits(hundredths));
    assert(is_fraction(fraction));
    assert(fraction_value(fraction) == hundredths);
    assert(magnitude_of_text(body) == Some(units * 100 + hundredths));
}

/// Reads an amount from its characters.
pub fn parse_amount_chars(chars: &Vec<char>) -> (r: Option<i64>)
    ensures
        r is Some <==> amount_of_text(chars@) is Some,
        r matches Some(v) ==> amount_of_text(chars@) == Some(v as int),
{
    let len = chars.len();
    let negative = len > 0 && chars[0] == '-';
    let start: usize = if negative {
        1
    } else {
        0
    };
    let ghost body = chars@.skip(start as int);
    // the point
    let mut dot: usize = start;
    while dot < len && chars[dot] != '.'
        invariant
            start <= dot <= len,
            len == chars.len(),
            forall|j: int| start <= j < dot ==> #[trigger] chars[j] != '.',
        decreases len - dot,
    {
        dot = dot + 1;
    }
    let ghost whole = body.take(dot - start);
    proof {
        assert(forall|j: int| 0 <= j < body.len() ==> body[j] == chars[j + start]);
        lemma_first_position(body, '.', dot - start);
        assert(whole =~= chars@.subrange(start as int, dot as int));
        if !negative {
            assert(body =~= chars@);
        }
        assert(amount_of_text(chars@) == signed_amount(negative, magnitude_of_text(body)));
    }
    // the digits before it
    if dot == start || !char_is_digit(chars[start]) {
        assert(!is_grouped_digits(whole)) by {
            if dot > start {
                assert(whole[0] == chars[start as int]);
            }
        }
        return None;
    }
    let mut units: u128 = 0;
    let mut i: usize = start;
    while i < dot
        invariant
            start <= i <= dot <= len,
            len == chars.len(),
            whole == chars@.subrange(start as int, dot as int),
            body == chars@.skip(start as int),
            whole == body.take(dot - start),
            first_position(body, '.') == dot - start,
            amount_of_text(chars@) == signed_amount(negative, magnitude_of_text(body)),
            forall|j: int| start <= j < i ==> is_digit(#[trigger] chars[j]) || chars[j] == ',',
            forall|j: int|
                start <= j < i && #[trigger] chars[j] == ',' ==> j + 1 < dot && is_digit(
                    chars[j + 1],
                ),
            units == grouped_value(whole.take(i - start)),
            units <= 92233720368547758,
        decreases dot - i,
    {
        let c = chars[i];
        proof {
            let longer = whole.take(i - start + 1);
            assert(longer.drop_last() =~= whole.take(i - start));
            assert(longer.last() == c);
            lemma_digit_value_range(c);
        }
        if c == ',' {
            if i + 1 >= dot || !char_is_digit(chars[i + 1]) {
                assert(!is_grouped_digits(whole)) by {
                    assert(whole[i - start] == ',');
                    if i + 1 < dot {
                        assert(whole[i - start + 1] == chars[i + 1]);
                    }
                }
                return None;
            }
        } else if char_is_digit(c) {
            units = units * 10 + value_of_digit(c) as u128;
            if units > 92233720368547758 {
                proof {
                    lemma_grouped_value_grows(whole, i - start + 1);
                    assert(grouped_value(whole) * 100 > 9223372036854775808);
                    if magnitude_of_text(body) is Some {
                        let total = magnitude_of_text(body)->0;
                        if dot < len {
                            let fraction = body.skip(dot - start + 1);
                            lemma_digit_value_range(fraction[0]);
                            lemma_digit_value_range(fraction[1]);
                            assert(fraction_value(fraction) >= 0);
                        }
                        assert(total >= grouped_value(whole) * 100);
                    }
                }
                return None;
            }
        } else {
            assert(!is_grouped_digits(whole)) by {
                assert(whole[i - start] == c);
            }
            return None;
        }
        i = i + 1;
    }
    proof {
        assert(whole.take(dot - start) =~= whole);
        assert(is_grouped_digits(whole)) by {
            assert(whole[0] == chars[start as int]);
            assert forall|k: int| 0 <= k < whole.len() implies is_digit(#[trigger] whole[k])
                || whole[k] == ',' by {
                assert(whole[k] == chars[k + start]);
            }
            assert forall|k: int| 0 <= k < whole.len() && #[trigger] whole[k] == ',' implies k + 1
                < whole.len() && is_digit(whole[k + 1]) by {
                assert(whole[k] == chars[k + start]);
                assert(whole[k + 1] == chars[k + start + 1]);
            }
        }
    }
    // the digits behind it
    let mut hundredths: u128 = 0;
    if dot < len {
        let ghost fraction = body.skip(dot - start + 1);
        proof {
            assert(fraction =~= chars@.subrange(dot + 1, len as int));
        }
        let count = len - dot - 1;
        if count != 1 && count != 2 {
            return None;
        }
        if !char_is_digit(chars[dot + 1]) {
            assert(fraction[0] == chars[dot + 1]);
            return None;
        }
        hundredths = value_of_digit(chars[dot + 1]) as u128 * 10;
        assert(fraction[0] == chars[dot + 1]);
        if count == 2 {
            if !char_is_digit(chars[dot + 2]) {
                assert(fraction[1] == chars[dot + 2]);
                return None;
            }
            hundredths = hundredths + value_of_digit(chars[dot + 2]) as u128;
            assert(fraction[1] == chars[dot + 2]);
        }
        assert(is_fraction(fraction));
        assert(hundredths == fraction_value(fraction));
    }
    let total: u128 = units * 100 + hundredths;
    assert(magnitude_of_text(body) == Some(total as int));
    if negative {
        if total > 9223372036854775808 {
            None
        } else if total == 9223372036854775808 {
            Some(i64::MIN)
        } else {
            Some(-(total as i64))
        }
    } else {
        if total > 9223372036854775807 {
            None
        } else {
            Some(total as i64)
        }
    }
}

/// Reads an amount: an optional minus sign, digits that commas may group,
/// and at most a point with one or two digits behind it.
pub fn parse_amount(text: &str) -> (r: Option<i64>)
    ensures
        r is Some <==> amount_of_text(text@) is Some,
        r matches Some(v) ==> amount_of_text(text@) == Some(v as int),
{
    let chars = chars_of(text);
    parse_amount_chars(&chars)
}

/// `v` without its sign.
pub fn magnitude_of(v: i128) -> (m: u128)
    ensures
        m == magnitude(v as int),
{
    if v < 0 {
        ((-(v + 1)) as u128) + 1
    } else {
        v as u128
    }
}

/// Appends the two digits of `v` to `out`.
fn push_two_digits(out: &mut String, v: u8)
    requires
        v <= 99,
    ensures
        final(out)@ == old(out)@ + two_digits(v as int),
{
    out.push(char_of_digit(v / 10));
    out.push(char_of_digit(v % 10));
}

/// Appends the numeral of `n` in groups of three digits to `out`.
fn push_grouped(out: &mut String, n: u128, separator: char)
    ensures
        final(out)@ == old(out)@ + grouped_text(n as nat, separator),
    decreases n,
{
    if n < 1000 {
        push_decimal(out, n);
    } else {
        push_grouped(out, n / 1000, separator);
        out.push(separator);
        out.push(char_of_digit((n / 100 % 10) as u8));
        out.push(char_of_digit((n / 10 % 10) as u8));
        out.push(char_of_digit((n % 10) as u8));
    }
}

/// Appends the stored text of the amount `v` to `out`.
pub fn push_amount(out: &mut String, v: i128)
    ensures
        final(out)@ == old(out)@ + amount_text(v as int),
{
    let m = magnitude_of(v);
    if v < 0 {
        out.push('-');
    }
    push_decimal(out, m / 100);
    out.push('.');
    push_two_digits(out, (m % 100) as u8);
}

/// The text in which the amount `v` is stored, such as `-1234.50`.
pub fn format_amount(v: i128) -> (s: String)
    ensures
        s@ == amount_text(v as int),
{
    let mut s = String::new();
    push_amount(&mut s, v);
    s
}

/// The text in which the amount `v` is shown, such as `$-1,234.50` with a
/// comma for `separator`.
pub fn format_currency(v: i128, separator: char) -> (s: String)
    ensures
        s@ == currency_text(v as int, separator),
{
    let m = magnitude_of(v);
    let mut s = String::new();
    s.push('$');
    if v < 0 {
        s.push('-');
    }
    push_grouped(&mut s, m / 100, separator);
    s.push('.');
    push_two_digits(&mut s, (m % 100) as u8);
    s
}

} // verus!
