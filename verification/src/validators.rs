//! Checksum validators.
//!
//! A validator inspects the matched text and answers:
//! - `Some(true)`: the checksum passes; the analyzer raises the score to `1.0`;
//! - `Some(false)`: the checksum fails; the analyzer drops the match;
//! - `None`: no decision; the analyzer keeps the pattern's base score.
use vstd::prelude::*;
use vstd::string::*;

verus! {

/// An ASCII decimal digit, which `char::to_digit(10)` accepts.
pub open spec fn is_ascii_digit(c: char) -> bool {
    '0' <= c && c <= '9'
}

/// The numeric value of an ASCII letter or digit in base 36.
pub open spec fn base36_value(c: char) -> int {
    if is_ascii_digit(c) {
        c as int - '0' as int
    } else if 'A' <= c && c <= 'Z' {
        c as int - 'A' as int + 10
    } else {
        c as int - 'a' as int + 10
    }
}

/// The values of the decimal digits of `s`, in order, every other character left out.
pub open spec fn decimal_digits(s: Seq<char>) -> Seq<int>
    decreases s.len(),
{
    if s.len() == 0 {
        Seq::empty()
    } else if is_ascii_digit(s.last()) {
        decimal_digits(s.drop_last()).push(s.last() as int - '0' as int)
    } else {
        decimal_digits(s.drop_last())
    }
}

/// The Luhn contribution of digit `j`: every second digit, counted from the rightmost
/// one, is doubled, and a doubled value above nine loses nine.
pub open spec fn luhn_term(d: Seq<int>, j: int) -> int {
    if (d.len() - 1 - j) % 2 == 1 {
        if 2 * d[j] > 9 {
            2 * d[j] - 9
        } else {
            2 * d[j]
        }
    } else {
        d[j]
    }
}

/// The sum of the Luhn contributions of the first `k` digits.
pub open spec fn luhn_sum(d: Seq<int>, k: int) -> int
    decreases k,
{
    if k <= 0 {
        0
    } else {
        luhn_sum(d, k - 1) + luhn_term(d, k - 1)
    }
}

/// The Luhn verdict on `s`: its decimal digits, 13 to 19 of them, sum to a multiple of ten.
pub open spec fn luhn_verdict(s: Seq<char>) -> bool {
    let d = decimal_digits(s);
    13 <= d.len() <= 19 && luhn_sum(d, d.len() as int) % 10 == 0
}

proof fn lemma_decimal_digits_bounds(s: Seq<char>)
    ensures
        decimal_digits(s).len() <= s.len(),
        forall|j: int| 0 <= j < decimal_digits(s).len() ==> 0 <= #[trigger] decimal_digits(s)[j] <= 9,
    decreases s.len(),
{
    if s.len() > 0 {
        lemma_decimal_digits_bounds(s.drop_last());
    }
}

proof fn lemma_luhn_sum_bounds(d: Seq<int>, k: int)
    requires
        0 <= k <= d.len(),
        forall|j: int| 0 <= j < d.len() ==> 0 <= #[trigger] d[j] <= 9,
    ensures
        0 <= luhn_sum(d, k) <= 9 * k,
    decreases k,
{
    if k > 0 {
        lemma_luhn_sum_bounds(d, k - 1);
    }
}

/// Luhn (mod-10) check, used for credit-card numbers.
pub fn luhn(matched: &str) -> (r: Option<bool>)
    ensures
        r == Some(luhn_verdict(matched@)),
{
    let n = matched.unicode_len();
    let mut digits: Vec<u32> = Vec::new();
    let mut i: usize = 0;
    while i < n
        invariant
            n == matched@.len(),
            i <= n,
            digits@.len() == decimal_digits(matched@.take(i as int)).len(),
            forall|j: int|
                0 <= j < digits@.len() ==> digits@[j] as int == #[trigger] decimal_digits(
                    matched@.take(i as int),
                )[j],
        decreases n - i,
    {
        let c = matched.get_char(i);
        proof {
            assert(matched@.take(i + 1).drop_last() =~= matched@.take(i as int));
            assert(matched@.take(i + 1).last() == c);
        }
        if '0' <= c && c <= '9' {
            digits.push(c as u32 - 48);
        }
        i = i + 1;
    }
    proof {
        assert(matched@.take(n as int) =~= matched@);
        lemma_decimal_digits_bounds(matched@);
    }
    let ghost d = decimal_digits(matched@);
    let count = digits.len();
    if count < 13 || count > 19 {
        return Some(false);
    }
    let mut sum: u32 = 0;
    let mut k: usize = 0;
    while k < count
        invariant
            count == digits@.len() == d.len(),
            13 <= count <= 19,
            k <= count,
            forall|j: int| 0 <= j < count ==> digits@[j] as int == #[trigger] d[j],
            forall|j: int| 0 <= j < d.len() ==> 0 <= #[trigger] d[j] <= 9,
            sum as int == luhn_sum(d, k as int),
        decreases count - k,
    {
        proof {
            lemma_luhn_sum_bounds(d, k as int);
            assert(0 <= d[k as int] <= 9);
        }
        let mut v = digits[k];
        if (count - 1 - k) % 2 == 1 {
            v = v * 2;
            if v > 9 {
                v = v - 9;
            }
        }
        sum = sum + v;
        k = k + 1;
    }
    Some(sum % 10 == 0)
}

/// An ASCII letter or digit, which `char::is_ascii_alphanumeric` accepts.
pub open spec fn is_ascii_alnum_char(c: char) -> bool {
    is_ascii_digit(c) || ('A' <= c && c <= 'Z') || ('a' <= c && c <= 'z')
}

/// The ASCII letters and digits of `s`, in order.
pub open spec fn alphanumerics(s: Seq<char>) -> Seq<char>
    decreases s.len(),
{
    if s.len() == 0 {
        Seq::empty()
    } else if is_ascii_alnum_char(s.last()) {
        alphanumerics(s.drop_last()).push(s.last())
    } else {
        alphanumerics(s.drop_last())
    }
}

/// One step of the ISO 7064 mod-97 reduction: a letter stands for its two-digit
/// number `10..=35`, a digit for itself.
pub open spec fn mod97_step(remainder: int, c: char) -> int {
    let v = base36_value(c);
    if v >= 10 {
        (remainder * 100 + v) % 97
    } else {
        (remainder * 10 + v) % 97
    }
}

/// The mod-97 remainder of the first `k` characters of `s`.
pub open spec fn mod97_prefix(s: Seq<char>, k: int) -> int
    decreases k,
{
    if k <= 0 {
        0
    } else {
        mod97_step(mod97_prefix(s, k - 1), s[k - 1])
    }
}

/// The characters of an IBAN with the four leading ones moved to the end.
pub open spec fn rotated(s: Seq<char>) -> Seq<char> {
    s.subrange(4, s.len() as int) + s.subrange(0, 4)
}

/// The IBAN verdict on `s`: its ASCII letters and digits, 15 to 34 of them, rotated,
/// have remainder one modulo 97.
pub open spec fn iban_verdict(s: Seq<char>) -> bool {
    let c = alphanumerics(s);
    15 <= c.len() <= 34 && mod97_prefix(rotated(c), c.len() as int) == 1
}

pub(crate) proof fn lemma_alphanumerics(s: Seq<char>)
    ensures
        alphanumerics(s).len() <= s.len(),
        forall|j: int| 0 <= j < alphanumerics(s).len() ==> is_ascii_alnum_char(#[trigger] alphanumerics(s)[j]),
    decreases s.len(),
{
    if s.len() > 0 {
        lemma_alphanumerics(s.drop_last());
    }
}

/// ISO 13616 IBAN mod-97 check.
pub fn iban_mod97(matched: &str) -> (r: Option<bool>)
    ensures
        r == Some(iban_verdict(matched@)),
{
    let n = matched.unicode_len();
    let mut compact: Vec<char> = Vec::new();
    let mut i: usize = 0;
    while i < n
        invariant
            n == matched@.len(),
            i <= n,
            compact@ == alphanumerics(matched@.take(i as int)),
        decreases n - i,
    {
        let c = matched.get_char(i);
        proof {
            assert(matched@.take(i + 1).drop_last() =~= matched@.take(i as int));
            assert(matched@.take(i + 1).last() == c);
        }
        if ('0' <= c && c <= '9') || ('A' <= c && c <= 'Z') || ('a' <= c && c <= 'z') {
            compact.push(c);
        }
        i = i + 1;
    }
    proof {
        assert(matched@.take(n as int) =~= matched@);
        lemma_alphanumerics(matched@);
    }
    let len = compact.len();
    if len < 15 || len > 34 {
        return Some(false);
    }
    let ghost rot = rotated(compact@);
    let mut remainder: u32 = 0;
    let mut k: usize = 0;
    while k < len
        invariant
            len == compact@.len(),
            15 <= len <= 34,
            rot == rotated(compact@),
            rot.len() == len,
            forall|j: int| 0 <= j < len ==> is_ascii_alnum_char(#[trigger] compact@[j]),
            k <= len,
            remainder as int == mod97_prefix(rot, k as int),
            remainder < 97,
        decreases len - k,
    {
        let idx = if k + 4 < len { k + 4 } else { k + 4 - len };
        let c = compact[idx];
        assert(rot[k as int] == c);
        let value: u32 = if '0' <= c && c <= '9' {
            c as u32 - 48
        } else if 'A' <= c && c <= 'Z' {
            c as u32 - 65 + 10
        } else {
            c as u32 - 97 + 10
        };
        assert(value as int == base36_value(c));
        if value >= 10 {
            remainder = (remainder * 100 + value) % 97;
        } else {
            remainder = (remainder * 10 + value) % 97;
        }
        k = k + 1;
    }
    Some(remainder == 1)
}

} // verus!
