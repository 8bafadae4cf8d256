//! Numbers written and read as text.

use crate::text::{chars_of, push_char};
use vstd::prelude::*;
use vstd::string::StringExecFns;

verus! {

/// The character of a decimal digit.
pub open spec fn digit_char(digit: int) -> char {
    ('0' as int + digit) as char
}

/// Whether a character is a decimal digit.
pub open spec fn is_digit(character: char) -> bool {
    '0' as int <= character as int <= '9' as int
}

/// The decimal form of a number, without leading zeros.
pub open spec fn decimal(n: nat) -> Seq<char>
    decreases n,
{
    if n < 10 {
        seq![digit_char(n as int)]
    } else {
        decimal(n / 10).push(digit_char((n % 10) as int))
    }
}

/// The decimal form of a number, filled with leading zeros up to `width`.
pub open spec fn zero_padded(n: nat, width: nat) -> Seq<char> {
    let digits = decimal(n);
    if digits.len() < width {
        zeros((width - digits.len()) as nat) + digits
    } else {
        digits
    }
}

/// A text of `count` zeros.
pub open spec fn zeros(count: nat) -> Seq<char> {
    Seq::new(count, |i: int| '0')
}

/// Whether every character is a decimal digit.
pub open spec fn all_digits(text: Seq<char>) -> bool {
    forall|i: int| 0 <= i < text.len() ==> is_digit(#[trigger] text[i])
}

/// The number that a text of decimal digits stands for.
pub open spec fn digits_value(text: Seq<char>) -> nat
    decreases text.len(),
{
    if text.len() == 0 {
        0
    } else {
        (digits_value(text.drop_last()) * 10 + (text.last() as int - '0' as int)) as nat
    }
}

/// The digits of an unsigned number: the text without one leading `+`.
pub open spec fn unsigned_digits(text: Seq<char>) -> Seq<char> {
    if text.len() > 0 && text[0] == '+' {
        text.skip(1)
    } else {
        text
    }
}

/// The number that a text stands for: an optional `+` and then at least one
/// decimal digit, and nothing else.
pub open spec fn unsigned_number(text: Seq<char>) -> Option<nat> {
    let digits = unsigned_digits(text);
    if digits.len() > 0 && all_digits(digits) {
        Some(digits_value(digits))
    } else {
        None
    }
}

/// A number that a text stands for and that does not pass `max`.
pub open spec fn bounded_number(text: Seq<char>, max: nat) -> Option<nat> {
    match unsigned_number(text) {
        Some(n) => if n <= max {
            Some(n)
        } else {
            None
        },
        None => None,
    }
}

/// A decimal number is made of digits that stand for it.
pub proof fn lemma_decimal(n: nat)
    ensures
        decimal(n).len() > 0,
        all_digits(decimal(n)),
        digits_value(decimal(n)) == n,
    decreases n,
{
    if n < 10 {
        let d = decimal(n);
        assert(d.drop_last() =~= Seq::<char>::empty());
        assert(digits_value(d.drop_last()) == 0);
    } else {
        lemma_decimal(n / 10);
        let front = decimal(n / 10);
        assert(decimal(n).drop_last() =~= front);
    }
}

/// Different numbers have different decimal forms.
pub proof fn decimal_is_injective(a: nat, b: nat)
    requires
        decimal(a) == decimal(b),
    ensures
        a == b,
{
    lemma_decimal(a);
    lemma_decimal(b);
}

/// Reading the decimal form of a number gives the number back.
pub proof fn decimal_reads_back(n: nat)
    ensures
        unsigned_number(decimal(n)) == Some(n),
{
    lemma_decimal(n);
    assert(is_digit(decimal(n)[0]));
    assert(unsigned_digits(decimal(n)) == decimal(n));
}

proof fn lemma_leading_zeros(count: nat, digits: Seq<char>)
    ensures
        digits_value(zeros(count) + digits) == digits_value(digits),
    decreases digits.len(), count,
{
    if digits.len() > 0 {
        lemma_leading_zeros(count, digits.drop_last());
        assert((zeros(count) + digits).drop_last() =~= zeros(count) + digits.drop_last());
    } else if count > 0 {
        lemma_leading_zeros((count - 1) as nat, digits);
        assert((zeros(count) + digits).drop_last() =~= zeros((count - 1) as nat) + digits);
    } else {
        assert(zeros(count) + digits =~= digits);
    }
}

/// Different numbers have different zero-padded forms.
pub proof fn zero_padded_is_injective(a: nat, b: nat, width: nat)
    requires
        zero_padded(a, width) == zero_padded(b, width),
    ensures
        a == b,
{
    lemma_decimal(a);
    lemma_decimal(b);
    lemma_leading_zeros((width - decimal(a).len()) as nat, decimal(a));
    lemma_leading_zeros((width - decimal(b).len()) as nat, decimal(b));
}

fn digit_of(digit: u64) -> (character: char)
    requires
        digit < 10,
    ensures
        character == digit_char(digit as int),
{
    (48u8 + digit as u8) as char
}

/// Writes a number in decimal.
pub fn decimal_text(n: u64) -> (text: String)
    ensures
        text@ == decimal(n as nat),
    decreases n,
{
    if n < 10 {
        let mut text = String::new();
        push_char(&mut text, digit_of(n));
        proof {
            assert(text@ =~= decimal(n as nat));
        }
        text
    } else {
        let mut text = decimal_text(n / 10);
        push_char(&mut text, digit_of(n % 10));
        text
    }
}

/// Writes a number in decimal with leading zeros up to `width`.
pub fn zero_padded_text(n: u64, width: usize) -> (text: String)
    ensures
        text@ == zero_padded(n as nat, width as nat),
{
    let digits = decimal_text(n);
    let length = chars_of(digits.as_str()).len();
    if length >= width {
        return digits;
    }
    let mut text = String::new();
    let mut i: usize = length;
    while i < width
        invariant
            length <= i <= width,
            text@ == zeros((i - length) as nat),
        decreases width - i,
    {
        push_char(&mut text, '0');
        i = i + 1;
        proof {
            assert(zeros((i - length) as nat) =~= zeros((i - 1 - length) as nat).push('0'));
        }
    }
    text.append(digits.as_str());
    text
}

proof fn lemma_prefix_value(text: Seq<char>, upto: int)
    requires
        all_digits(text),
        0 <= upto <= text.len(),
    ensures
        digits_value(text.take(upto)) <= digits_value(text),
    decreases text.len() - upto,
{
    if upto < text.len() {
        lemma_prefix_value(text, upto + 1);
        assert(text.take(upto + 1).drop_last() =~= text.take(upto));
        assert(is_digit(text[upto]));
    } else {
        assert(text.take(upto) =~= text);
    }
}

/// Reads an unsigned number that does not pass `max`.
pub fn parse_bounded(text: &str, max: u64) -> (number: Option<u64>)
    ensures
        match number {
            Some(n) => bounded_number(text@, max as nat) == Some(n as nat),
            None => bounded_number(text@, max as nat) is None,
        },
{
    let chars = chars_of(text);
    let start: usize = if chars.len() > 0 && chars[0] == '+' {
        1
    } else {
        0
    };
    let ghost digits = unsigned_digits(text@);
    proof {
        if start == 0 {
            assert(text@.skip(0) =~= text@);
        }
    }
    assert(digits == text@.skip(start as int));
    if chars.len() == start {
        return None;
    }
    let mut value: u64 = 0;
    let mut i: usize = start;
    proof {
        assert(digits.take(0) =~= Seq::<char>::empty());
    }
    while i < chars.len()
        invariant
            chars@ == text@,
            start <= i <= chars@.len(),
            digits == text@.skip(start as int),
            digits == unsigned_digits(text@),
            all_digits(digits.take(i - start)),
            value == digits_value(digits.take(i - start)),
            value <= max,
        decreases chars@.len() - i,
    {
        let c = chars[i];
        let ghost position = i - start;
        assert(digits[position] == c);
        if !('0' <= c && c <= '9') {
            assert(!is_digit(digits[position]));
            return None;
        }
        let digit: u64 = c as u64 - '0' as u64;
        proof {
            assert(digits.take(position + 1).drop_last() =~= digits.take(position));
            assert(digits.take(position + 1).last() == c);
            assert(digits_value(digits.take(position + 1)) == value * 10 + digit);
        }
        let wide: u128 = value as u128 * 10 + digit as u128;
        if wide > max as u128 {
            proof {
                if all_digits(digits) {
                    lemma_prefix_value(digits, position + 1);
                }
            }
            return None;
        }
        value = wide as u64;
        i = i + 1;
        proof {
            assert forall|j: int| 0 <= j < position + 1 implies is_digit(
                #[trigger] digits.take(position + 1)[j],
            ) by {
                if j < position {
                    assert(digits.take(position)[j] == digits[j]);
                    assert(is_digit(digits.take(position)[j]));
                }
            }
        }
    }
    proof {
        assert(digits.take(digits.len() as int) =~= digits);
    }
    Some(value)
}

/// The character of a hexadecimal digit, in lower case.
pub open spec fn hex_digit(digit: int) -> char {
    if digit < 10 {
        digit_char(digit)
    } else {
        ('a' as int + digit - 10) as char
    }
}

/// The two hexadecimal digits of a byte.
pub open spec fn hex_pair(byte: u8) -> Seq<char> {
    seq![hex_digit(byte as int / 16), hex_digit(byte as int % 16)]
}

/// The hexadecimal form of a sequence of bytes, two digits for each.
pub open spec fn hex(bytes: Seq<u8>) -> Seq<char>
    decreases bytes.len(),
{
    if bytes.len() == 0 {
        Seq::empty()
    } else {
        hex(bytes.drop_last()) + hex_pair(bytes.last())
    }
}

fn hex_digit_of(digit: u8) -> (character: char)
    requires
        digit < 16,
    ensures
        character == hex_digit(digit as int),
{
    if digit < 10 {
        (48u8 + digit) as char
    } else {
        (97u8 + (digit - 10)) as char
    }
}

/// Appends the two hexadecimal digits of a byte.
pub(crate) fn push_hex_pair(text: &mut String, byte: u8)
    ensures
        final(text)@ == old(text)@ + hex_pair(byte),
{
    let ghost before = text@;
    push_char(text, hex_digit_of(byte / 16));
    push_char(text, hex_digit_of(byte % 16));
    proof {
        assert(text@ =~= before + hex_pair(byte));
    }
}

/// Writes bytes in hexadecimal, in lower case.
pub fn hex_text(bytes: &Vec<u8>) -> (text: String)
    ensures
        text@ == hex(bytes@),
{
    let mut text = String::new();
    let mut i: usize = 0;
    while i < bytes.len()
        invariant
            i <= bytes@.len(),
            text@ == hex(bytes@.take(i as int)),
        decreases bytes@.len() - i,
    {
        push_hex_pair(&mut text, bytes[i]);
        i = i + 1;
        proof {
            assert(bytes@.take(i as int).drop_last() =~= bytes@.take(i - 1));
        }
    }
    proof {
        assert(bytes@.take(bytes@.len() as int) =~= bytes@);
    }
    text
}

/// Two characters stand for each byte.
pub proof fn lemma_hex_length(bytes: Seq<u8>)
    ensures
        hex(bytes).len() == 2 * bytes.len(),
    decreases bytes.len(),
{
    if bytes.len() > 0 {
        lemma_hex_length(bytes.drop_last());
    }
}

/// Different byte sequences have different hexadecimal forms.
pub proof fn hex_is_injective(a: Seq<u8>, b: Seq<u8>)
    requires
        hex(a) == hex(b),
    ensures
        a == b,
    decreases a.len(),
{
    lemma_hex_length(a);
    lemma_hex_length(b);
    if a.len() > 0 {
        let fa = hex(a.drop_last());
        let fb = hex(b.drop_last());
        lemma_hex_length(a.drop_last());
        lemma_hex_length(b.drop_last());
        assert((fa + hex_pair(a.last())).take(fa.len() as int) =~= fa);
        assert((fb + hex_pair(b.last())).take(fb.len() as int) =~= fb);
        hex_is_injective(a.drop_last(), b.drop_last());
        let n = fa.len() as int;
        assert(hex(a)[n] == hex_pair(a.last())[0]);
        assert(hex(b)[n] == hex_pair(b.last())[0]);
        assert(hex(a)[n + 1] == hex_pair(a.last())[1]);
        assert(hex(b)[n + 1] == hex_pair(b.last())[1]);
        assert(a.last() == b.last());
        assert(a =~= a.drop_last().push(a.last()));
        assert(b =~= b.drop_last().push(b.last()));
    } else {
        assert(a =~= b);
    }
}

// Laws

/// A padded number is written with digits only, has the value of the number,
/// and is exactly as wide as asked for unless the number itself is wider.
pub proof fn padding_keeps_the_value(n: nat, width: nat)
    ensures
        all_digits(zero_padded(n, width)),
        digits_value(zero_padded(n, width)) == n,
        zero_padded(n, width).len() == if decimal(n).len() < width {
            width
        } else {
            decimal(n).len()
        },
{
    lemma_decimal(n);
    if decimal(n).len() < width {
        let count = (width - decimal(n).len()) as nat;
        let whole = zeros(count) + decimal(n);
        lemma_leading_zeros(count, decimal(n));
        assert forall|i: int| 0 <= i < whole.len() implies is_digit(#[trigger] whole[i]) by {
            if i >= count {
                assert(whole[i] == decimal(n)[i - count]);
            }
        }
    }
}

/// A number is written without a zero before it, unless it is zero.
pub proof fn decimals_have_no_leading_zero(n: nat)
    ensures
        decimal(n).len() > 0,
        n > 0 ==> decimal(n)[0] != '0',
        n == 0 ==> decimal(n) == seq!['0'],
    decreases n,
{
    if n >= 10 {
        decimals_have_no_leading_zero(n / 10);
    }
}

/// How a number is read: one digit stands for itself, a digit more makes a
/// number ten times as large and adds itself, anything but a digit spoils it,
/// and a plus may stand before it.
pub proof fn numbers_are_read_digit_by_digit(text: Seq<char>, character: char)
    ensures
        '0' <= character <= '9' ==> unsigned_number(seq![character]) == Some(
            (character as int - '0' as int) as nat,
        ),
        '0' <= character <= '9' ==> (unsigned_number(text) matches Some(n) ==> unsigned_number(
            text.push(character),
        ) == Some((10 * n + (character as int - '0' as int)) as nat)),
        !('0' <= character <= '9') ==> unsigned_number(text.push(character)) is None,
        unsigned_number(text) is Some && text[0] != '+' ==> unsigned_number(seq!['+'] + text)
            == unsigned_number(text),
        unsigned_number(Seq::empty()) is None,
        unsigned_number(seq!['+', '+'] + text) is None,
{
    let one = seq![character];
    if '0' <= character <= '9' {
        assert(one.drop_last() =~= Seq::<char>::empty());
        assert(all_digits(one));
        assert(unsigned_digits(one) == one);
        assert(digits_value(one.drop_last()) == 0);
    }
    let more = text.push(character);
    let digits = unsigned_digits(text);
    if unsigned_number(text) is Some {
        assert(unsigned_digits(more) =~= digits.push(character));
        let after = digits.push(character);
        assert(after.drop_last() =~= digits);
        if '0' <= character <= '9' {
            assert forall|i: int| 0 <= i < after.len() implies is_digit(#[trigger] after[i]) by {
                if i < digits.len() {
                    assert(after[i] == digits[i]);
                }
            }
        }
    }
    if !('0' <= character <= '9') && unsigned_number(more) is Some {
        let after = unsigned_digits(more);
        assert(after.last() == character);
        assert(is_digit(after[after.len() - 1]));
    }
    if unsigned_number(text) is Some && text[0] != '+' {
        assert((seq!['+'] + text).skip(1) =~= text);
    }
    let twice = seq!['+', '+'] + text;
    assert(unsigned_digits(twice)[0] == '+');
    if unsigned_number(twice) is Some {
        assert(is_digit(unsigned_digits(twice)[0]));
    }
}

/// A number with a bound is read as it is without one, unless it is larger.
pub proof fn bounds_only_refuse_larger_numbers(text: Seq<char>, max: nat, n: nat)
    ensures
        bounded_number(text, max) == Some(n) <==> unsigned_number(text) == Some(n) && n <= max,
{
}

/// The value of a hexadecimal digit.
pub open spec fn hex_value(character: char) -> Option<int> {
    if '0' <= character <= '9' {
        Some(character as int - '0' as int)
    } else if 'a' <= character <= 'f' {
        Some(character as int - 'a' as int + 10)
    } else {
        None
    }
}

/// Bytes in hexadecimal form have two digits each, in their order, the higher
/// one first.
pub proof fn hex_reads_back(bytes: Seq<u8>, i: int)
    requires
        0 <= i < bytes.len(),
    ensures
        hex(bytes).len() == 2 * bytes.len(),
        hex_value(hex(bytes)[2 * i]) matches Some(high) && hex_value(hex(bytes)[2 * i + 1]) matches
            Some(low) && bytes[i] == 16 * high + low,
    decreases bytes.len(),
{
    lemma_hex_length(bytes);
    lemma_hex_length(bytes.drop_last());
    if i < bytes.len() - 1 {
        hex_reads_back(bytes.drop_last(), i);
    }
}

} // verus!
