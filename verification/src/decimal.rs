//! Decimal text for integers: the form in which sequence numbers and integer
//! ids travel.

use vstd::prelude::*;

verus! {

/// The byte of the character `-`.
pub const MINUS: u8 = 0x2d;

/// `b` is one of the characters `0` to `9`.
pub open spec fn is_digit(b: u8) -> bool {
    0x30 <= b <= 0x39
}

/// Every byte of `s` is a digit.
pub open spec fn all_digits(s: Seq<u8>) -> bool {
    forall|i: int| 0 <= i < s.len() ==> is_digit(#[trigger] s[i])
}

/// The number that the digits of `s` spell, most significant first.
pub open spec fn digits_value(s: Seq<u8>) -> nat
    decreases s.len(),
{
    if s.len() == 0 {
        0
    } else {
        digits_value(s.drop_last()) * 10 + (s.last() - 0x30) as nat
    }
}

/// The shortest decimal text of `n`.
pub open spec fn decimal_text(n: nat) -> Seq<u8>
    decreases n,
{
    if n < 10 {
        seq![(0x30 + n) as u8]
    } else {
        decimal_text(n / 10).push((0x30 + n % 10) as u8)
    }
}

/// The unsigned 64-bit number that `s` spells: `s` is one or more digits and
/// nothing else, and the number fits. Leading zeros are read.
pub open spec fn parse_decimal(s: Seq<u8>) -> Option<u64> {
    if s.len() > 0 && all_digits(s) && digits_value(s) <= u64::MAX {
        Some(digits_value(s) as u64)
    } else {
        None
    }
}

/// The decimal text of `n`, with `-` in front of a negative number.
pub open spec fn signed_text(n: int) -> Seq<u8> {
    if n < 0 {
        seq![MINUS] + decimal_text((-n) as nat)
    } else {
        decimal_text(n as nat)
    }
}

/// The signed 32-bit number that `s` spells: digits, or `-` and digits.
pub open spec fn parse_signed(s: Seq<u8>) -> Option<i32> {
    if s.len() > 0 && s[0] == MINUS {
        let digits = s.subrange(1, s.len() as int);
        if digits.len() > 0 && all_digits(digits) && digits_value(digits) <= 0x8000_0000 {
            Some((-(digits_value(digits) as int)) as i32)
        } else {
            None
        }
    } else if s.len() > 0 && all_digits(s) && digits_value(s) <= i32::MAX {
        Some(digits_value(s) as i32)
    } else {
        None
    }
}

/// The text of a number is made of digits, at least one.
pub proof fn lemma_decimal_text_digits(n: nat)
    ensures
        decimal_text(n).len() > 0,
        all_digits(decimal_text(n)),
    decreases n,
{
    if n >= 10 {
        lemma_decimal_text_digits(n / 10);
    }
}

/// Reading the text of a number gives the number back.
pub proof fn lemma_decimal_round_trip(n: nat)
    ensures
        digits_value(decimal_text(n)) == n,
    decreases n,
{
    if n < 10 {
        let t = decimal_text(n);
        assert(t.drop_last() =~= Seq::<u8>::empty());
        assert(digits_value(t.drop_last()) == 0);
    } else {
        lemma_decimal_round_trip(n / 10);
        let t = decimal_text(n);
        assert(t.drop_last() =~= decimal_text(n / 10));
    }
}

/// The text of a 64-bit number has at most 20 digits.
pub proof fn lemma_decimal_text_len(n: nat)
    ensures
        n <= u64::MAX ==> decimal_text(n).len() <= 20,
{
    lemma_decimal_len_bound(n, 20);
    assert(pow10(20) == 100_000_000_000_000_000_000) by {
        reveal_with_fuel(pow10, 21);
    }
}

/// A number below the `k`-th power of ten has at most `k` digits.
proof fn lemma_decimal_len_bound(n: nat, k: nat)
    requires
        k >= 1,
    ensures
        n < pow10(k) ==> decimal_text(n).len() <= k,
    decreases n,
{
    reveal_with_fuel(pow10, 2);
    if n >= 10 && n < pow10(k) {
        assert(k >= 2) by {
            if k == 1 {
                assert(pow10(1) == 10);
            }
        }
        assert(pow10(k) == 10 * pow10((k - 1) as nat));
        lemma_decimal_len_bound(n / 10, (k - 1) as nat);
    }
}

/// Ten to the `k`.
pub open spec fn pow10(k: nat) -> nat
    decreases k,
{
    if k == 0 {
        1
    } else {
        10 * pow10((k - 1) as nat)
    }
}

/// A prefix of digits spells no more than the whole.
pub proof fn lemma_digits_value_prefix(s: Seq<u8>, i: int)
    requires
        0 <= i <= s.len(),
    ensures
        digits_value(s.take(i)) <= digits_value(s),
    decreases s.len(),
{
    if i == s.len() {
        assert(s.take(i) =~= s);
    } else {
        assert(s.drop_last().take(i) =~= s.take(i));
        lemma_digits_value_prefix(s.drop_last(), i);
    }
}

/// The decimal text of `n`.
pub fn format_u64(n: u64) -> (text: Vec<u8>)
    ensures
        text@ == decimal_text(n as nat),
    decreases n,
{
    if n < 10 {
        let mut text: Vec<u8> = Vec::new();
        text.push(0x30 + n as u8);
        assert(text@ =~= decimal_text(n as nat));
        text
    } else {
        let mut text = format_u64(n / 10);
        text.push(0x30 + (n % 10) as u8);
        text
    }
}

/// Reads an unsigned 64-bit number from its decimal text.
pub fn parse_u64(text: &[u8]) -> (r: Option<u64>)
    ensures
        r == parse_decimal(text@),
{
    if text.len() == 0 {
        return None;
    }
    let mut value: u64 = 0;
    let mut i: usize = 0;
    while i < text.len()
        invariant
            i <= text@.len(),
            all_digits(text@.take(i as int)),
            value == digits_value(text@.take(i as int)),
        decreases text@.len() - i,
    {
        let b: u8 = text[i];
        if b < 0x30 || b > 0x39 {
            assert(!is_digit(text@[i as int]));
            return None;
        }
        let d: u64 = (b - 0x30) as u64;
        proof {
            assert(text@.take(i + 1).drop_last() =~= text@.take(i as int));
            assert(text@.take(i + 1).last() == b);
            lemma_digits_value_prefix(text@, i + 1);
        }
        if value > (u64::MAX - d) / 10 {
            assert(digits_value(text@.take(i + 1)) > u64::MAX);
            return None;
        }
        value = value * 10 + d;
        i = i + 1;
    }
    assert(text@.take(i as int) =~= text@);
    Some(value)
}

/// The decimal text of `n`, with `-` in front of a negative number.
pub fn format_i32(n: i32) -> (text: Vec<u8>)
    ensures
        text@ == signed_text(n as int),
{
    if n < 0 {
        let magnitude: u64 = (-(n as i64)) as u64;
        let digits = format_u64(magnitude);
        let mut text: Vec<u8> = Vec::new();
        text.push(MINUS);
        let mut i: usize = 0;
        while i < digits.len()
            invariant
                i <= digits@.len(),
                text@ == seq![MINUS] + digits@.take(i as int),
            decreases digits@.len() - i,
        {
            text.push(digits[i]);
            i = i + 1;
            assert(text@ =~= seq![MINUS] + digits@.take(i as int));
        }
        assert(digits@.take(i as int) =~= digits@);
        text
    } else {
        format_u64(n as u64)
    }
}

/// Reads a signed 32-bit number from its decimal text.
pub fn parse_i32(text: &[u8]) -> (r: Option<i32>)
    ensures
        r == parse_signed(text@),
{
    if text.len() > 0 && text[0] == MINUS {
        let digits = vstd::slice::slice_subrange(text, 1, text.len());
        match parse_u64(digits) {
            Some(magnitude) => {
                if magnitude <= 0x8000_0000 {
                    Some((-(magnitude as i64)) as i32)
                } else {
                    None
                }
            },
            None => None,
        }
    } else {
        match parse_u64(text) {
            Some(value) => {
                if value <= 0x7fff_ffff {
                    Some(value as i32)
                } else {
                    None
                }
            },
            None => None,
        }
    }
}

} // verus!
