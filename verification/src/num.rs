//! Decimal integers read the way `str::parse` reads `u64` and `i32`.

use vstd::prelude::*;

use crate::fmt::{decimal, digit_char};

verus! {

/// Why a piece of text is not an integer (the kinds of `std::num::IntErrorKind`).
#[derive(Debug, Clone, Copy, PartialEq, Eq, Structural)]
pub enum IntErrorKind {
    /// The text is empty.
    Empty,
    /// The text holds a character that is not a decimal digit where one is needed.
    InvalidDigit,
    /// The value is above the type's maximum.
    PosOverflow,
    /// The value is below the type's minimum.
    NegOverflow,
}

impl IntErrorKind {
    /// The message that `std::num::ParseIntError` shows for this kind.
    pub fn description(&self) -> (s: &'static str)
        ensures
            s@ == self.spec_description(),
    {
        match self {
            IntErrorKind::Empty => "cannot parse integer from empty string",
            IntErrorKind::InvalidDigit => "invalid digit found in string",
            IntErrorKind::PosOverflow => "number too large to fit in target type",
            IntErrorKind::NegOverflow => "number too small to fit in target type",
        }
    }

    /// The message for this kind, as text.
    pub open spec fn spec_description(&self) -> Seq<char> {
        match self {
            IntErrorKind::Empty => "cannot parse integer from empty string"@,
            IntErrorKind::InvalidDigit => "invalid digit found in string"@,
            IntErrorKind::PosOverflow => "number too large to fit in target type"@,
            IntErrorKind::NegOverflow => "number too small to fit in target type"@,
        }
    }
}

/// An ASCII decimal digit.
pub open spec fn is_digit(c: char) -> bool {
    '0' <= c && c <= '9'
}

/// The value of the digit `c`.
pub open spec fn digit_value(c: char) -> nat {
    (c as u32 - '0' as u32) as nat
}

/// The value of a run of decimal digits, most significant first.
pub open spec fn digits_value(ds: Seq<char>) -> nat
    decreases ds.len(),
{
    if ds.len() == 0 {
        0
    } else {
        digits_value(ds.drop_last()) * 10 + digit_value(ds.last())
    }
}

/// How many decimal digits `ds` starts with.
pub open spec fn digit_run(ds: Seq<char>) -> nat
    decreases ds.len(),
{
    if ds.len() == 0 || !is_digit(ds[0]) {
        0
    } else {
        1 + digit_run(ds.drop_first())
    }
}

/// Reading `ds` as an unsigned magnitude no larger than `limit`, left to right:
/// the reading stops at the first digit that takes the value past `limit`
/// (error `overflow`) or at the first character that is not a digit.
pub open spec fn magnitude(ds: Seq<char>, limit: nat, overflow: IntErrorKind) -> Result<nat, IntErrorKind> {
    let k = digit_run(ds);
    if digits_value(ds.take(k as int)) > limit {
        Err(overflow)
    } else if k < ds.len() {
        Err(IntErrorKind::InvalidDigit)
    } else {
        Ok(digits_value(ds))
    }
}

/// A lone sign with no digits after it.
pub open spec fn is_lone_sign(s: Seq<char>) -> bool {
    s.len() == 1 && (s[0] == '+' || s[0] == '-')
}

/// What `s.parse::<u64>()` gives: an optional `+` then decimal digits.
pub open spec fn parse_u64_spec(s: Seq<char>) -> Result<u64, IntErrorKind> {
    if s.len() == 0 {
        Err(IntErrorKind::Empty)
    } else if is_lone_sign(s) {
        Err(IntErrorKind::InvalidDigit)
    } else {
        let ds = if s[0] == '+' { s.drop_first() } else { s };
        match magnitude(ds, u64::MAX as nat, IntErrorKind::PosOverflow) {
            Ok(v) => Ok(v as u64),
            Err(e) => Err(e),
        }
    }
}

/// What `s.parse::<i32>()` gives: an optional sign then decimal digits.
pub open spec fn parse_i32_spec(s: Seq<char>) -> Result<i32, IntErrorKind> {
    if s.len() == 0 {
        Err(IntErrorKind::Empty)
    } else if is_lone_sign(s) {
        Err(IntErrorKind::InvalidDigit)
    } else if s[0] == '-' {
        match magnitude(s.drop_first(), 0x8000_0000, IntErrorKind::NegOverflow) {
            Ok(v) => Ok((-v) as i32),
            Err(e) => Err(e),
        }
    } else {
        let ds = if s[0] == '+' { s.drop_first() } else { s };
        match magnitude(ds, 0x7fff_ffff, IntErrorKind::PosOverflow) {
            Ok(v) => Ok(v as i32),
            Err(e) => Err(e),
        }
    }
}

proof fn lemma_digit_run_bounds(ds: Seq<char>)
    ensures
        digit_run(ds) <= ds.len(),
        forall|j: int| 0 <= j < digit_run(ds) ==> #[trigger] is_digit(ds[j]),
        digit_run(ds) < ds.len() ==> !is_digit(ds[digit_run(ds) as int]),
    decreases ds.len(),
{
    if ds.len() > 0 && is_digit(ds[0]) {
        lemma_digit_run_bounds(ds.drop_first());
        assert forall|j: int| 0 <= j < digit_run(ds) implies #[trigger] is_digit(ds[j]) by {
            if j > 0 {
                assert(ds[j] == ds.drop_first()[j - 1]);
            }
        }
    }
}

/// The run of digits is the one that ends at the first non-digit.
proof fn lemma_digit_run_is(ds: Seq<char>, k: int)
    requires
        0 <= k <= ds.len(),
        forall|j: int| 0 <= j < k ==> #[trigger] is_digit(ds[j]),
        k < ds.len() ==> !is_digit(ds[k]),
    ensures
        digit_run(ds) == k,
    decreases ds.len(),
{
    if k > 0 {
        assert(is_digit(ds[0]));
        assert forall|j: int| 0 <= j < k - 1 implies #[trigger] is_digit(ds.drop_first()[j]) by {
            assert(is_digit(ds[j + 1]));
        }
        lemma_digit_run_is(ds.drop_first(), k - 1);
    }
}

/// A longer prefix of digits never has a smaller value.
proof fn lemma_digits_value_grows(ds: Seq<char>, j: int, k: int)
    requires
        0 <= j <= k <= ds.len(),
    ensures
        digits_value(ds.take(j)) <= digits_value(ds.take(k)),
    decreases k - j,
{
    if j < k {
        lemma_digits_value_grows(ds, j, k - 1);
        assert(ds.take(k).drop_last() == ds.take(k - 1));
    }
}

/// Reads the decimal magnitude held in `s[start..]`, with the value bounded by `limit`.
fn read_magnitude(s: &Vec<char>, start: usize, limit: u64, overflow: IntErrorKind) -> (r: Result<u64, IntErrorKind>)
    requires
        start <= s.len(),
    ensures
        match r {
            Ok(v) => magnitude(s@.skip(start as int), limit as nat, overflow) == Ok::<nat, IntErrorKind>(v as nat),
            Err(e) => magnitude(s@.skip(start as int), limit as nat, overflow) == Err::<nat, IntErrorKind>(e),
        },
        r matches Ok(v) ==> v <= limit,
{
    let ghost ds = s@.skip(start as int);
    let mut acc: u64 = 0;
    let mut i: usize = start;
    assert(ds.take(0) == Seq::<char>::empty());
    while i < s.len()
        invariant
            start <= i <= s.len(),
            ds == s@.skip(start as int),
            forall|j: int| 0 <= j < i - start ==> #[trigger] is_digit(ds[j]),
            acc as nat == digits_value(ds.take(i - start)),
            acc <= limit,
        decreases s.len() - i,
    {
        let c = s[i];
        assert(ds[i - start] == c);
        if !('0' <= c && c <= '9') {
            proof {
                lemma_digit_run_is(ds, i - start);
            }
            return Err(IntErrorKind::InvalidDigit);
        }
        let d = (c as u32 - '0' as u32) as u64;
        let next: u128 = acc as u128 * 10 + d as u128;
        assert(ds.take(i - start + 1).drop_last() == ds.take(i - start));
        assert(next == digits_value(ds.take(i - start + 1)));
        if next > limit as u128 {
            proof {
                lemma_digit_run_bounds(ds);
                let k = digit_run(ds) as int;
                if k < i - start + 1 {
                    assert(is_digit(ds[k]));
                }
                lemma_digits_value_grows(ds, i - start + 1, k);
            }
            return Err(overflow);
        }
        acc = next as u64;
        i = i + 1;
    }
    proof {
        lemma_digit_run_is(ds, ds.len() as int);
        assert(ds.take(ds.len() as int) == ds);
    }
    Ok(acc)
}

/// Reads `s` as `s.parse::<u64>()` does.
pub fn parse_u64(s: &Vec<char>) -> (r: Result<u64, IntErrorKind>)
    ensures
        r == parse_u64_spec(s@),
{
    if s.len() == 0 {
        return Err(IntErrorKind::Empty);
    }
    if s.len() == 1 && (s[0] == '+' || s[0] == '-') {
        return Err(IntErrorKind::InvalidDigit);
    }
    let start: usize = if s[0] == '+' { 1 } else { 0 };
    assert(s@.skip(0) == s@);
    assert(s@.skip(1) == s@.drop_first());
    read_magnitude(s, start, u64::MAX, IntErrorKind::PosOverflow)
}

/// Reads `s` as `s.parse::<i32>()` does.
pub fn parse_i32(s: &Vec<char>) -> (r: Result<i32, IntErrorKind>)
    ensures
        r == parse_i32_spec(s@),
{
    if s.len() == 0 {
        return Err(IntErrorKind::Empty);
    }
    if s.len() == 1 && (s[0] == '+' || s[0] == '-') {
        return Err(IntErrorKind::InvalidDigit);
    }
    assert(s@.skip(0) == s@);
    assert(s@.skip(1) == s@.drop_first());
    if s[0] == '-' {
        match read_magnitude(s, 1, 0x8000_0000, IntErrorKind::NegOverflow) {
            Ok(v) => {
                let m = v as i64;
                Ok((-m) as i32)
            },
            Err(e) => Err(e),
        }
    } else {
        let start: usize = if s[0] == '+' { 1 } else { 0 };
        match read_magnitude(s, start, 0x7fff_ffff, IntErrorKind::PosOverflow) {
            Ok(v) => Ok(v as i32),
            Err(e) => Err(e),
        }
    }
}

proof fn lemma_digit_char(d: nat)
    requires
        d < 10,
    ensures
        is_digit(digit_char(d)),
        digit_value(digit_char(d)) == d,
        digit_char(d) != '+' && digit_char(d) != '-',
{
    let b: u8 = (48 + d) as u8;
    assert(b == 48 + d);
    assert((b as char) as u32 == b as u32);
}

/// The decimal text of `n` is all digits and reads back as `n`.
pub proof fn lemma_decimal_digits(n: nat)
    ensures
        decimal(n).len() > 0,
        forall|i: int| 0 <= i < decimal(n).len() ==> #[trigger] is_digit(decimal(n)[i]),
        digits_value(decimal(n)) == n,
        decimal(n)[0] != '+' && decimal(n)[0] != '-',
    decreases n,
{
    lemma_digit_char(n % 10);
    if n < 10 {
        assert(decimal(n).drop_last() == Seq::<char>::empty());
        assert(decimal(n).last() == digit_char(n));
        assert(digits_value(Seq::<char>::empty()) == 0);
        assert(digits_value(decimal(n)) == digits_value(decimal(n).drop_last()) * 10 + digit_value(decimal(n).last()));
    } else {
        lemma_decimal_digits(n / 10);
        let d = decimal(n);
        assert(d.drop_last() == decimal(n / 10));
        assert(d.last() == digit_char(n % 10));
        assert(n == (n / 10) * 10 + n % 10);
        assert(digits_value(d) == digits_value(d.drop_last()) * 10 + digit_value(d.last()));
        assert forall|i: int| 0 <= i < d.len() implies #[trigger] is_digit(d[i]) by {
            if i < d.len() - 1 {
                assert(d[i] == decimal(n / 10)[i]);
            }
        }
    }
}

/// Reading the decimal text of a `u64` gives the number back.
pub proof fn lemma_parse_u64_decimal(n: u64)
    ensures
        parse_u64_spec(decimal(n as nat)) == Ok::<u64, IntErrorKind>(n),
{
    let d = decimal(n as nat);
    lemma_decimal_digits(n as nat);
    lemma_digit_run_is(d, d.len() as int);
    assert(d.take(d.len() as int) == d);
}

/// `-` followed by the decimal text of `n` reads as the `i32` `-n`.
pub proof fn lemma_parse_i32_negative(n: nat)
    requires
        1 <= n <= 0x8000_0000,
    ensures
        parse_i32_spec(seq!['-'] + decimal(n)) == Ok::<i32, IntErrorKind>((-n) as i32),
        (-n) as i32 == -n,
{
    let d = decimal(n);
    let s = seq!['-'] + d;
    lemma_decimal_digits(n);
    assert(s.drop_first() == d);
    assert(s[0] == '-');
    assert(s.len() >= 2);
    lemma_digit_run_is(d, d.len() as int);
    assert(d.take(d.len() as int) == d);
}

/// The decimal text of `n` reads as the `i32` `n`.
pub proof fn lemma_parse_i32_decimal(n: nat)
    requires
        n <= 0x7fff_ffff,
    ensures
        parse_i32_spec(decimal(n)) == Ok::<i32, IntErrorKind>(n as i32),
{
    let d = decimal(n);
    lemma_decimal_digits(n);
    lemma_digit_run_is(d, d.len() as int);
    assert(d.take(d.len() as int) == d);
    if d.len() == 1 {
        assert(!is_lone_sign(d));
    }
}

} // verus!
