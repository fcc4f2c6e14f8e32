//! Integers in decimal and hexadecimal notation.

use crate::text::chars_of;
use vstd::prelude::*;
use vstd::string::StringExecFns;

verus! {

/// The decimal digit of a value below ten.
pub open spec fn digit_char(value: nat) -> char {
    (48 + value) as char
}

/// Decimal notation of a natural number, without leading zeros.
pub open spec fn decimal(value: nat) -> Seq<char>
    decreases value,
{
    if value < 10 {
        seq![digit_char(value)]
    } else {
        decimal(value / 10).push(digit_char(value % 10))
    }
}

/// Decimal notation of an integer, with a minus sign where it is negative.
pub open spec fn signed_decimal(value: int) -> Seq<char> {
    if value < 0 {
        seq!['-'] + decimal((-value) as nat)
    } else {
        decimal(value as nat)
    }
}

/// Writes a number in decimal.
pub fn decimal_text(value: u64) -> (text: String)
    ensures
        text@ == decimal(value as nat),
    decreases value,
{
    let mut text = if value < 10 {
        String::new()
    } else {
        decimal_text(value / 10)
    };
    text.push((48 + (value % 10) as u8) as char);
    proof {
        assert(text@ =~= decimal(value as nat));
    }
    text
}

/// Writes an integer in decimal.
pub fn signed_decimal_text(value: i64) -> (text: String)
    ensures
        text@ == signed_decimal(value as int),
{
    if value < 0 {
        let magnitude: u64 = (-(value as i128)) as u64;
        let digits = decimal_text(magnitude);
        let mut text = String::new();
        text.push('-');
        text.append(digits.as_str());
        proof {
            assert(text@ =~= seq!['-'] + digits@);
        }
        text
    } else {
        decimal_text(value as u64)
    }
}

/// Whether a character is a decimal digit.
pub open spec fn is_digit(c: char) -> bool {
    '0' <= c <= '9'
}

/// Whether a text is a non-empty run of decimal digits.
pub open spec fn is_digits(s: Seq<char>) -> bool {
    s.len() > 0 && forall|i: int| 0 <= i < s.len() ==> is_digit(#[trigger] s[i])
}

/// The number that a run of decimal digits denotes.
pub open spec fn digits_value(s: Seq<char>) -> nat
    decreases s.len(),
{
    if s.len() == 0 {
        0
    } else {
        digits_value(s.drop_last()) * 10 + ((s.last() as nat - 48) as nat)
    }
}

/// A text without one leading plus sign.
pub open spec fn without_plus(s: Seq<char>) -> Seq<char> {
    if s.len() > 0 && s[0] == '+' {
        s.drop_first()
    } else {
        s
    }
}

/// The number that a text denotes, where it is at most `max`: an optional plus
/// sign and decimal digits.
pub open spec fn parsed_unsigned(s: Seq<char>, max: nat) -> Option<nat> {
    let digits = without_plus(s);
    if is_digits(digits) && digits_value(digits) <= max {
        Some(digits_value(digits))
    } else {
        None
    }
}

/// The integer that a text denotes, where 64 bits hold it: an optional sign and
/// decimal digits.
pub open spec fn parsed_i64(s: Seq<char>) -> Option<int> {
    if s.len() > 0 && s[0] == '-' {
        let digits = s.drop_first();
        if is_digits(digits) && -digits_value(digits) >= i64::MIN {
            Some(-digits_value(digits))
        } else {
            None
        }
    } else {
        match parsed_unsigned(s, i64::MAX as nat) {
            Some(value) => Some(value as int),
            None => None,
        }
    }
}

/// A longer run of digits denotes no smaller number.
proof fn lemma_digits_grow(s: Seq<char>, n: int)
    requires
        0 <= n <= s.len(),
    ensures
        digits_value(s.take(n)) <= digits_value(s),
    decreases s.len(),
{
    if n == s.len() {
        assert(s.take(n) == s);
    } else {
        lemma_digits_grow(s.drop_last(), n);
        assert(s.drop_last().take(n) == s.take(n));
    }
}

/// Reads the decimal digits that start at an index.
fn read_digits(chars: &Vec<char>, from: usize) -> (result: Option<u64>)
    requires
        from <= chars@.len(),
    ensures
        result == ({
            let digits = chars@.skip(from as int);
            if is_digits(digits) && digits_value(digits) <= u64::MAX {
                Some(digits_value(digits) as u64)
            } else {
                None
            }
        }),
{
    if from == chars.len() {
        return None;
    }
    let ghost digits = chars@.skip(from as int);
    let mut value: u64 = 0;
    let mut i: usize = from;
    while i < chars.len()
        invariant
            from <= i <= chars.len(),
            digits == chars@.skip(from as int),
            value == digits_value(digits.take(i - from)),
            forall|k: int| 0 <= k < i - from ==> is_digit(#[trigger] digits[k]),
        decreases chars.len() - i,
    {
        let c = chars[i];
        proof {
            assert(digits[i - from] == c);
            assert(digits.take(i - from + 1).drop_last() =~= digits.take(i - from));
            lemma_digits_grow(digits, i - from + 1);
        }
        if c < '0' || c > '9' {
            return None;
        }
        let digit: u64 = (c as u32 - 48) as u64;
        match value.checked_mul(10) {
            Some(shifted) => {
                match shifted.checked_add(digit) {
                    Some(sum) => {
                        value = sum;
                    },
                    None => {
                        return None;
                    },
                }
            },
            None => {
                return None;
            },
        }
        i = i + 1;
    }
    proof {
        assert(digits.take(digits.len() as int) == digits);
    }
    Some(value)
}

/// Reads an unsigned integer.
pub fn parse_u64(text: &str) -> (result: Option<u64>)
    ensures
        match result {
            Some(value) => parsed_unsigned(text@, u64::MAX as nat) == Some(value as nat),
            None => parsed_unsigned(text@, u64::MAX as nat) is None,
        },
{
    let chars = chars_of(text);
    let from: usize = if chars.len() > 0 && chars[0] == '+' {
        1
    } else {
        0
    };
    proof {
        assert(chars@.skip(from as int) =~= without_plus(text@));
    }
    read_digits(&chars, from)
}

/// Reads a length.
pub fn parse_usize(text: &str) -> (result: Option<usize>)
    ensures
        match result {
            Some(value) => parsed_unsigned(text@, usize::MAX as nat) == Some(value as nat),
            None => parsed_unsigned(text@, usize::MAX as nat) is None,
        },
{
    match parse_u64(text) {
        Some(value) => if value <= usize::MAX as u64 {
            Some(value as usize)
        } else {
            None
        },
        None => None,
    }
}

/// Reads a signed integer.
pub fn parse_i64(text: &str) -> (result: Option<i64>)
    ensures
        match result {
            Some(value) => parsed_i64(text@) == Some(value as int),
            None => parsed_i64(text@) is None,
        },
{
    let chars = chars_of(text);
    if chars.len() > 0 && chars[0] == '-' {
        proof {
            assert(chars@.skip(1) =~= text@.drop_first());
        }
        match read_digits(&chars, 1) {
            Some(magnitude) => if magnitude <= 0x8000_0000_0000_0000 {
                Some((-(magnitude as i128)) as i64)
            } else {
                None
            },
            None => None,
        }
    } else {
        match parse_u64(text) {
            Some(value) => if value <= i64::MAX as u64 {
                Some(value as i64)
            } else {
                None
            },
            None => None,
        }
    }
}

/// Decimal notation is a run of digits that denotes the number.
pub proof fn lemma_decimal_denotes(value: nat)
    ensures
        is_digits(decimal(value)),
        digits_value(decimal(value)) == value,
    decreases value,
{
    if value < 10 {
        let s = decimal(value);
        assert(s.drop_last() =~= Seq::empty());
        assert(digits_value(s.drop_last()) == 0);
    } else {
        lemma_decimal_denotes(value / 10);
        let s = decimal(value);
        assert(s.drop_last() =~= decimal(value / 10));
    }
}

/// A 64-bit integer written in decimal reads back as itself.
pub proof fn law_signed_decimal_reads_back(value: i64)
    ensures
        parsed_i64(signed_decimal(value as int)) == Some(value as int),
{
    let magnitude: nat = if value < 0 {
        (-value) as nat
    } else {
        value as nat
    };
    lemma_decimal_denotes(magnitude);
    let digits = decimal(magnitude);
    if value < 0 {
        assert(signed_decimal(value as int).drop_first() =~= digits);
    } else {
        assert(is_digit(digits[0]));
        assert(without_plus(digits) == digits);
    }
}

/// An unsigned integer written in decimal reads back as itself under any bound
/// that it meets.
pub proof fn law_decimal_reads_back(value: nat, max: nat)
    requires
        value <= max,
    ensures
        parsed_unsigned(decimal(value), max) == Some(value),
{
    lemma_decimal_denotes(value);
    assert(is_digit(decimal(value)[0]));
}

/// The upper-case hexadecimal digit of a value below sixteen.
pub open spec fn hex_char(value: nat) -> char {
    if value < 10 {
        (48 + value) as char
    } else {
        (55 + value) as char
    }
}

/// The value of an upper-case hexadecimal digit.
pub open spec fn hex_value(c: char) -> nat {
    if c <= '9' {
        (c as nat - 48) as nat
    } else {
        (c as nat - 55) as nat
    }
}

/// Writes a hexadecimal digit.
pub fn hex_digit(value: u8) -> (c: char)
    requires
        value < 16,
    ensures
        c == hex_char(value as nat),
{
    if value < 10 {
        (48 + value) as char
    } else {
        (55 + value) as char
    }
}

/// Decimal notation goes by tens: a number below ten is its digit, the character with its code
/// behind that of zero, and any other is what its tens are and then the digit of its ones.
pub proof fn law_decimal_goes_by_tens(tens: nat, ones: nat)
    requires
        ones < 10,
    ensures
        decimal(ones) == seq![(48 + ones) as char],
        tens > 0 ==> decimal(10 * tens + ones) == decimal(tens) + decimal(ones),
{
    if tens > 0 {
        let value = 10 * tens + ones;
        assert(value / 10 == tens && value % 10 == ones);
        assert(decimal(value) =~= decimal(tens) + decimal(ones));
    }
}

/// An integer that is not negative is written as the number that it is, and its negative with a
/// minus sign in front of that.
pub proof fn law_minus_stands_in_front(value: nat)
    ensures
        signed_decimal(value as int) == decimal(value),
        value > 0 ==> signed_decimal(-value) == "-"@ + decimal(value),
{
    reveal_strlit("-");
    assert("-"@ =~= seq!['-']);
}

/// A run of zeros.
pub open spec fn zeros(count: nat) -> Seq<char> {
    Seq::new(count, |i: int| '0')
}

/// A run of digits is the number that it denotes, with zeros in front.
proof fn lemma_digits_are_decimal(s: Seq<char>) -> (count: nat)
    requires
        is_digits(s),
    ensures
        s == zeros(count) + decimal(digits_value(s)),
    decreases s.len(),
{
    let front = s.drop_last();
    let ones = (s.last() as nat - 48) as nat;
    assert(is_digit(s[s.len() - 1]));
    lemma_digit_code(s.last());
    if front.len() == 0 {
        assert(digits_value(front) == 0);
        assert(digits_value(s) == ones);
        assert(s =~= zeros(0) + decimal(ones));
        0
    } else {
        assert(is_digits(front)) by {
            assert forall|i: int| 0 <= i < front.len() implies is_digit(#[trigger] front[i]) by {
                assert(front[i] == s[i]);
            }
        }
        let count = lemma_digits_are_decimal(front);
        let tens = digits_value(front);
        if tens == 0 {
            assert(decimal(0) =~= zeros(1));
            assert(digits_value(s) == ones);
            assert(front =~= zeros(count + 1));
            assert(s =~= zeros(count + 1) + decimal(ones));
            count + 1
        } else {
            law_decimal_goes_by_tens(tens, ones);
            assert(decimal(ones) =~= seq![s.last()]);
            assert(s =~= front + seq![s.last()]);
            assert(zeros(count) + decimal(tens) + decimal(ones) =~= zeros(count) + (decimal(tens)
                + decimal(ones)));
            assert(s =~= zeros(count) + decimal(10 * tens + ones));
            count
        }
    }
}

/// The code of a digit.
proof fn lemma_digit_code(c: char)
    requires
        is_digit(c),
    ensures
        48 <= c as nat <= 57,
        digit_char((c as nat - 48) as nat) == c,
{
}

/// Zeros in front do not change what digits denote.
proof fn lemma_zeros_in_front(count: nat, s: Seq<char>)
    requires
        is_digits(s),
    ensures
        is_digits(zeros(count) + s),
        digits_value(zeros(count) + s) == digits_value(s),
    decreases s.len(),
{
    let whole = zeros(count) + s;
    assert forall|i: int| 0 <= i < whole.len() implies is_digit(#[trigger] whole[i]) by {
        if i >= count {
            assert(whole[i] == s[i - count]);
        }
    }
    if s.len() == 1 {
        assert(whole.drop_last() =~= zeros(count));
        assert(s.drop_last() =~= Seq::empty());
        lemma_zeros_denote_nothing(count);
        assert(digits_value(s.drop_last()) == 0);
    } else {
        let front = s.drop_last();
        assert(is_digits(front)) by {
            assert forall|i: int| 0 <= i < front.len() implies is_digit(#[trigger] front[i]) by {
                assert(front[i] == s[i]);
            }
        }
        assert(whole.drop_last() =~= zeros(count) + front);
        lemma_zeros_in_front(count, front);
    }
}

/// Zeros denote zero.
proof fn lemma_zeros_denote_nothing(count: nat)
    ensures
        digits_value(zeros(count)) == 0,
    decreases count,
{
    if count > 0 {
        assert(zeros(count).drop_last() =~= zeros((count - 1) as nat));
        lemma_zeros_denote_nothing((count - 1) as nat);
    }
}

/// A number is read from its decimal notation, with any zeros and at most one plus sign in front
/// of it, where it is not above the limit, and from no other text.
pub proof fn law_unsigned_is_read_from_decimal(s: Seq<char>, max: nat, value: nat)
    ensures
        parsed_unsigned(s, max) == Some(value) <==> value <= max && exists|count: nat|
            s == #[trigger] zeros(count) + decimal(value) || s == "+"@ + (zeros(count) + decimal(
                value,
            )),
{
    reveal_strlit("+");
    assert("+"@ =~= seq!['+']);
    let digits = without_plus(s);
    lemma_decimal_denotes(value);
    assert forall|count: nat| true implies {
        &&& is_digits(#[trigger] zeros(count) + decimal(value))
        &&& digits_value(zeros(count) + decimal(value)) == value
    } by {
        lemma_zeros_in_front(count, decimal(value));
    }
    assert forall|count: nat| s == #[trigger] zeros(count) + decimal(value) implies digits == s by {
        assert(is_digit((zeros(count) + decimal(value))[0]));
    }
    assert forall|count: nat| s == "+"@ + (#[trigger] zeros(count) + decimal(value)) implies digits
        == zeros(count) + decimal(value) by {
        assert(s.drop_first() =~= zeros(count) + decimal(value));
    }
    if parsed_unsigned(s, max) == Some(value) {
        let count = lemma_digits_are_decimal(digits);
        if s != digits {
            assert(s =~= "+"@ + digits);
        }
        assert(s == zeros(count) + decimal(value) || s == "+"@ + (zeros(count) + decimal(value)));
    }
}

/// An integer that 64 bits hold is read from its notation as a number, and a negative one from a
/// minus sign and then decimal notation, with any zeros in front of the digits.
pub proof fn law_integer_is_read_from_decimal(s: Seq<char>, value: int)
    ensures
        parsed_i64(s) matches Some(read) ==> i64::MIN <= read <= i64::MAX,
        !(s.len() > 0 && s[0] == '-') ==> (parsed_i64(s) == Some(value) <==> value >= 0
            && parsed_unsigned(s, i64::MAX as nat) == Some(value as nat)),
        s.len() > 0 && s[0] == '-' ==> (parsed_i64(s) == Some(value) <==> i64::MIN <= value <= 0
            && exists|count: nat|
            s == "-"@ + (#[trigger] zeros(count) + decimal((-value) as nat))),
{
    reveal_strlit("-");
    assert("-"@ =~= seq!['-']);
    if s.len() > 0 && s[0] == '-' {
        let digits = s.drop_first();
        if value <= 0 {
            let magnitude = (-value) as nat;
            lemma_decimal_denotes(magnitude);
            assert forall|count: nat| s == "-"@ + (#[trigger] zeros(count) + decimal(magnitude))
                implies is_digits(digits) && digits_value(digits) == magnitude by {
                lemma_zeros_in_front(count, decimal(magnitude));
                assert(digits =~= zeros(count) + decimal(magnitude));
            }
        }
        if parsed_i64(s) == Some(value) {
            let count = lemma_digits_are_decimal(digits);
            assert(s =~= "-"@ + (zeros(count) + decimal((-value) as nat)));
        }
    }
}

/// Hexadecimal digits are `0` to `9` and then `A` to `F`.
pub proof fn law_hex_digits_are_listed(value: nat)
    requires
        value < 16,
    ensures
        hex_char(value) == "0123456789ABCDEF"@[value as int],
{
    reveal_strlit("0123456789ABCDEF");
}

} // verus!
