//! Human-readable byte counts for the dashboard.
//!
//! The figures are those that dividing the count, converted to `f64`, by the
//! unit and printing it with a fixed number of decimals gives. They are
//! computed here in exact integer arithmetic: the conversion to `f64` rounds
//! to 53 significant bits, ties to even; dividing by a power of two is exact;
//! printing rounds the exact value to the requested decimals, ties to even.

use vstd::prelude::*;

use crate::fmt::{decimal, padded, push_decimal, push_padded};
use crate::text::{chars_of, push_all, push_char};

verus! {

pub const KIB: u64 = 1_024;
pub const MIB: u64 = 1_048_576;
pub const GIB: u64 = 1_073_741_824;

/// `n / d` rounded to the nearest integer, ties to the even one.
pub open spec fn round_half_even(n: nat, d: nat) -> nat
    recommends
        d > 0,
{
    let q = n / d;
    let r = n % d;
    if 2 * r > d || (2 * r == d && q % 2 == 1) {
        q + 1
    } else {
        q
    }
}

/// `2` to the power `e`.
pub open spec fn two_pow(e: nat) -> nat
    decreases e,
{
    if e == 0 {
        1
    } else {
        2 * two_pow((e - 1) as nat)
    }
}

/// `2^53`: integers below it are exact in `f64`.
pub open spec fn f64_exact_limit() -> nat {
    0x20_0000_0000_0000
}

/// How many low bits of `n` fall outside a 53-bit significand.
pub open spec fn excess_bits(n: nat) -> nat
    decreases n,
{
    if n < f64_exact_limit() {
        0
    } else {
        1 + excess_bits(n / 2)
    }
}

/// The value of `n as f64`: `n` rounded to 53 significant bits, ties to even.
pub open spec fn f64_value(n: nat) -> nat {
    let unit = two_pow(excess_bits(n));
    round_half_even(n, unit) * unit
}

/// The text for `bytes`: gigabytes with two decimals, megabytes or kilobytes
/// with none, or plain bytes, by the largest unit that `bytes` reaches.
pub open spec fn bytes_text(bytes: u64) -> Seq<char> {
    if bytes >= GIB {
        let hundredths = round_half_even(f64_value(bytes as nat) * 100, GIB as nat);
        decimal(hundredths / 100) + seq!['.'] + padded(hundredths % 100, 2) + " GB"@
    } else if bytes >= MIB {
        decimal(round_half_even(bytes as nat, MIB as nat)) + " MB"@
    } else if bytes >= KIB {
        decimal(round_half_even(bytes as nat, KIB as nat)) + " KB"@
    } else {
        decimal(bytes as nat) + " B"@
    }
}

fn round_half_even_exec(n: u128, d: u128) -> (r: u128)
    requires
        0 < d < 0x1_0000_0000_0000_0000_0000,
        n < 0x1_0000_0000_0000_0000_0000_0000,
    ensures
        r == round_half_even(n as nat, d as nat),
{
    let q = n / d;
    let rem = n % d;
    if 2 * rem > d || (2 * rem == d && q % 2 == 1) {
        q + 1
    } else {
        q
    }
}

proof fn lemma_round_half_even_bound(n: nat, d: nat)
    requires
        d > 0,
    ensures
        round_half_even(n, d) <= n / d + 1,
        round_half_even(n, d) * d <= n + d,
{
    let q = n / d;
    vstd::arithmetic::div_mod::lemma_fundamental_div_mod(n as int, d as int);
    assert(q * d <= n) by (nonlinear_arith)
        requires
            n == d * q + n % d,
            n % d >= 0,
    ;
    assert((q + 1) * d == q * d + d) by (nonlinear_arith);
}

/// `bytes as f64`, as an integer.
fn f64_value_exec(bytes: u64) -> (x: u128)
    ensures
        x == f64_value(bytes as nat),
        x <= 0x1_0000_0000_0000_1000,
{
    let mut q: u64 = bytes;
    let mut unit: u64 = 1;
    let ghost mut e: nat = 0;
    while q >= 0x20_0000_0000_0000
        invariant
            unit == two_pow(e),
            0 < unit,
            q == bytes / unit,
            excess_bits(bytes as nat) == e + excess_bits(q as nat),
            q >= 0x20_0000_0000_0000 ==> unit <= 0x800,
            unit <= 0x1000,
        decreases q,
    {
        proof {
            vstd::arithmetic::div_mod::lemma_div_denominator(bytes as int, unit as int, 2);
            assert(q < 0x1_0000_0000_0000_0000);
            assert(unit <= 0x800) by (nonlinear_arith)
                requires
                    q == bytes / unit,
                    q >= 0x20_0000_0000_0000,
                    bytes < 0x1_0000_0000_0000_0000,
                    unit > 0,
            {
                vstd::arithmetic::div_mod::lemma_fundamental_div_mod(bytes as int, unit as int);
            }
        }
        q = q / 2;
        unit = unit * 2;
        proof {
            e = e + 1;
            assert(q < 0x20_0000_0000_0000 || unit <= 0x800) by (nonlinear_arith)
                requires
                    q == bytes / unit,
                    bytes < 0x1_0000_0000_0000_0000,
                    unit > 0,
                    unit <= 0x1000,
            {
                vstd::arithmetic::div_mod::lemma_fundamental_div_mod(bytes as int, unit as int);
                if unit > 0x800 {
                    assert(unit >= 0x801);
                    assert(q * unit <= bytes);
                    assert(q * 0x801 <= q * unit);
                }
            }
        }
    }
    let r = round_half_even_exec(bytes as u128, unit as u128);
    proof {
        lemma_round_half_even_bound(bytes as nat, unit as nat);
    }
    r * unit as u128
}

/// Formats a byte count for display.
pub fn fmt_bytes(bytes: u64) -> (text: String)
    ensures
        text@ == bytes_text(bytes),
{
    let mut s = String::new();
    if bytes >= GIB {
        let x = f64_value_exec(bytes);
        let hundredths = round_half_even_exec(x * 100, GIB as u128);
        proof {
            lemma_round_half_even_bound((x * 100) as nat, GIB as nat);
        }
        let h = hundredths as u64;
        push_decimal(&mut s, h / 100);
        push_char(&mut s, '.');
        push_padded(&mut s, h % 100, 2);
        push_char(&mut s, ' ');
        push_char(&mut s, 'G');
        push_char(&mut s, 'B');
        proof {
            reveal_strlit(" GB");
        }
    } else if bytes >= MIB {
        let m = round_half_even_exec(bytes as u128, MIB as u128);
        proof {
            lemma_round_half_even_bound(bytes as nat, MIB as nat);
        }
        push_decimal(&mut s, m as u64);
        push_char(&mut s, ' ');
        push_char(&mut s, 'M');
        push_char(&mut s, 'B');
        proof {
            reveal_strlit(" MB");
        }
    } else if bytes >= KIB {
        let k = round_half_even_exec(bytes as u128, KIB as u128);
        proof {
            lemma_round_half_even_bound(bytes as nat, KIB as nat);
        }
        push_decimal(&mut s, k as u64);
        push_char(&mut s, ' ');
        push_char(&mut s, 'K');
        push_char(&mut s, 'B');
        proof {
            reveal_strlit(" KB");
        }
    } else {
        push_decimal(&mut s, bytes);
        push_char(&mut s, ' ');
        push_char(&mut s, 'B');
        proof {
            reveal_strlit(" B");
        }
    }
    s
}

/// `s` followed by spaces up to `width` characters, as `format!("{:<width$}", s)` gives it.
pub open spec fn pad_right(s: Seq<char>, width: nat) -> Seq<char> {
    if s.len() < width {
        s + Seq::new((width - s.len()) as nat, |i: int| ' ')
    } else {
        s
    }
}

/// The name column of a swap row: the display name padded to 16 characters.
pub fn swap_name_cell(display_name: &str) -> (text: String)
    ensures
        text@ == pad_right(display_name@, 16),
{
    let chars = chars_of(display_name);
    let mut text = String::new();
    push_all(&mut text, &chars);
    let ghost start = text@;
    let mut k: usize = chars.len();
    while k < 16
        invariant
            chars.len() <= k,
            k <= 16 || k == chars.len(),
            text@ == start + Seq::new((k - chars.len()) as nat, |i: int| ' '),
            start == display_name@,
            chars@ == display_name@,
        decreases 16 - k,
    {
        push_char(&mut text, ' ');
        k = k + 1;
        assert(Seq::new((k - chars.len()) as nat, |i: int| ' ')
            == Seq::new((k - 1 - chars.len()) as nat, |i: int| ' ').push(' '));
    }
    if chars.len() >= 16 {
        assert(text@ == start + Seq::<char>::empty());
        assert(start + Seq::<char>::empty() == start);
    }
    text
}

/// The type column of a swap row: `[partition]` for a partition, else `[file     ]`.
pub open spec fn kind_cell(kind: Seq<char>) -> Seq<char> {
    if kind == "partition"@ { "[partition]"@ } else { "[file     ]"@ }
}

fn same_chars(a: &Vec<char>, b: &Vec<char>) -> (eq: bool)
    ensures
        eq == (a@ == b@),
{
    if a.len() != b.len() {
        return false;
    }
    let mut i: usize = 0;
    while i < a.len()
        invariant
            i <= a.len() == b.len(),
            forall|j: int| 0 <= j < i ==> a@[j] == b@[j],
        decreases a.len() - i,
    {
        if a[i] != b[i] {
            return false;
        }
        i = i + 1;
    }
    assert(a@ == b@);
    true
}

/// The type column of a swap row.
pub fn swap_kind_cell(kind: &str) -> (text: String)
    ensures
        text@ == kind_cell(kind@),
{
    let k = chars_of(kind);
    let partition = chars_of("partition");
    let tag = if same_chars(&k, &partition) { "[partition]" } else { "[file     ]" };
    let mut text = String::new();
    push_all(&mut text, &chars_of(tag));
    text
}

/// The priority column of a swap row: `  prio ` then the priority with its sign
/// (`+` for zero and above).
pub open spec fn priority_cell(priority: i32) -> Seq<char> {
    if priority >= 0 {
        "  prio +"@ + decimal(priority as nat)
    } else {
        "  prio -"@ + decimal((-priority) as nat)
    }
}

/// The priority column of a swap row.
pub fn swap_priority_cell(priority: i32) -> (text: String)
    ensures
        text@ == priority_cell(priority),
{
    let mut text = String::new();
    let magnitude: u64 = if priority >= 0 {
        push_all(&mut text, &chars_of("  prio +"));
        priority as u64
    } else {
        push_all(&mut text, &chars_of("  prio -"));
        (-(priority as i64)) as u64
    };
    push_decimal(&mut text, magnitude);
    text
}

} // verus!
