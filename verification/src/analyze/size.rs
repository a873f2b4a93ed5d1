//! Human-readable file sizes.

use vstd::prelude::*;
use crate::text::{decimal, digit, digit_char, is_digit, push_decimal, push_str, string_of};

verus! {

/// 2 to the power `n`.
pub open spec fn two_pow(n: nat) -> nat
    decreases n,
{
    if n == 0 {
        1
    } else {
        2 * two_pow((n - 1) as nat)
    }
}

/// The number of binary digits of `n` (0 for 0).
pub open spec fn bit_length(n: nat) -> nat
    decreases n,
{
    if n == 0 {
        0
    } else {
        1 + bit_length(n / 2)
    }
}

/// `n / d` rounded to the nearest integer, ties to the even one.
pub open spec fn round_half_even(n: nat, d: nat) -> nat
    recommends
        d > 0,
{
    let q = n / d;
    let r = n % d;
    if 2 * r > d || (2 * r == d && q % 2 == 1) {
        q + 1
    } else {
        q
    }
}

/// The value of `n as f64`: `n` rounded to 53 significant bits, ties to even.
pub open spec fn as_double(n: nat) -> nat {
    if bit_length(n) <= 53 {
        n
    } else {
        let s = (bit_length(n) - 53) as nat;
        round_half_even(n, two_pow(s)) * two_pow(s)
    }
}

/// `bytes / 2^shift` printed with two decimals, as `{:.2}` prints the
/// double value: the hundredths rounded to nearest, ties to even.
pub open spec fn two_decimals(bytes: nat, shift: nat) -> Seq<char> {
    let h = round_half_even(as_double(bytes) * 100, two_pow(shift));
    decimal(h / 100) + seq!['.', digit_char(((h % 100) / 10) as int), digit_char((h % 10) as int)]
}

/// The human-readable size: bytes below 1 KiB, else KB, MB or GB with
/// two decimals (units of 1024).
pub open spec fn file_size_text(bytes: nat) -> Seq<char> {
    if bytes >= two_pow(30) {
        two_decimals(bytes, 30) + seq![' ', 'G', 'B']
    } else if bytes >= two_pow(20) {
        two_decimals(bytes, 20) + seq![' ', 'M', 'B']
    } else if bytes >= two_pow(10) {
        two_decimals(bytes, 10) + seq![' ', 'K', 'B']
    } else {
        decimal(bytes) + seq![' ', 'b', 'y', 't', 'e', 's']
    }
}

proof fn lemma_two_pow_values()
    ensures
        two_pow(10) == 1024,
        two_pow(20) == 1048576,
        two_pow(30) == 1073741824,
        two_pow(53) == 9007199254740992,
        two_pow(64) == 18446744073709551616,
{
    reveal_with_fuel(two_pow, 65);
}

proof fn lemma_two_pow_pos(n: nat)
    ensures
        two_pow(n) >= 1,
    decreases n,
{
    if n > 0 {
        lemma_two_pow_pos((n - 1) as nat);
    }
}

proof fn lemma_two_pow_mono(a: nat, b: nat)
    requires
        a <= b,
    ensures
        two_pow(a) <= two_pow(b),
    decreases b,
{
    lemma_two_pow_pos(b);
    if a < b {
        lemma_two_pow_mono(a, (b - 1) as nat);
    }
}

/// `bit_length(n) <= k` exactly when `n < 2^k`.
proof fn lemma_bit_length_bound(n: nat, k: nat)
    ensures
        bit_length(n) <= k <==> n < two_pow(k),
    decreases n, k,
{
    lemma_two_pow_pos(k);
    if n > 0 && k > 0 {
        lemma_bit_length_bound(n / 2, (k - 1) as nat);
    }
}

/// Computes `round_half_even(n, d)`.
fn round_half_even_u128(n: u128, d: u128) -> (r: u128)
    requires
        d > 0,
        n / d + 1 <= u128::MAX,
    ensures
        r == round_half_even(n as nat, d as nat),
{
    let q = n / d;
    let r = n % d;
    if r > d - r || (r == d - r && q % 2 == 1) {
        q + 1
    } else {
        q
    }
}

/// Computes `as_double(n)`.
fn double_value(n: u64) -> (v: u128)
    ensures
        v == as_double(n as nat),
        v <= n + 2048,
{
    proof {
        lemma_bit_length_bound(n as nat, 64);
        lemma_two_pow_values();
    }
    let mut len: u64 = 0;
    let mut m: u64 = n;
    while m > 0
        invariant
            bit_length(n as nat) == len + bit_length(m as nat),
            len <= 64,
            len + bit_length(m as nat) <= 64,
        decreases m,
    {
        m = m / 2;
        len = len + 1;
    }
    if len <= 53 {
        return n as u128;
    }
    let s = len - 53;
    let mut p: u128 = 1;
    let mut j: u64 = 0;
    while j < s
        invariant
            j <= s,
            s <= 11,
            p == two_pow(j as nat),
            p <= 2048,
        decreases s - j,
    {
        proof {
            lemma_two_pow_mono((j + 1) as nat, 11);
            reveal_with_fuel(two_pow, 12);
        }
        p = p * 2;
        j = j + 1;
    }
    proof {
        lemma_two_pow_pos(s as nat);
    }
    let q = round_half_even_u128(n as u128, p);
    assert(q * p <= n + p) by (nonlinear_arith)
        requires
            p >= 1,
            q <= (n as u128) / p + 1,
    {
        assert((n as u128) / p * p <= n);
    }
    q * p
}

/// Appends `bytes / 2^shift` with two decimals (see `two_decimals`).
fn push_two_decimals(out: &mut Vec<char>, bytes: u64, shift: u64, unit: u128)
    requires
        shift == 10 || shift == 20 || shift == 30,
        unit == two_pow(shift as nat),
    ensures
        final(out)@ == old(out)@ + two_decimals(bytes as nat, shift as nat),
{
    proof {
        lemma_two_pow_values();
    }
    let v = double_value(bytes);
    let w: u128 = v * 100;
    assert(w / unit <= w / 1024) by (nonlinear_arith)
        requires
            unit >= 1024,
    ;
    let h = round_half_even_u128(w, unit);
    let whole: u64 = (h / 100) as u64;
    let frac: u64 = (h % 100) as u64;
    push_decimal(out, whole);
    out.push('.');
    out.push(digit(frac / 10));
    out.push(digit(frac % 10));
    assert(frac % 10 == h % 10);
}

/// Formats a byte count as a human-readable size, e.g. `1.50 KB`.
pub fn format_file_size(bytes: u64) -> (r: String)
    ensures
        r@ == file_size_text(bytes as nat),
{
    proof {
        lemma_two_pow_values();
    }
    let mut out: Vec<char> = Vec::new();
    if bytes >= 1073741824 {
        push_two_decimals(&mut out, bytes, 30, 1073741824);
        push_str(&mut out, " GB");
        proof { reveal_strlit(" GB"); }
    } else if bytes >= 1048576 {
        push_two_decimals(&mut out, bytes, 20, 1048576);
        push_str(&mut out, " MB");
        proof { reveal_strlit(" MB"); }
    } else if bytes >= 1024 {
        push_two_decimals(&mut out, bytes, 10, 1024);
        push_str(&mut out, " KB");
        proof { reveal_strlit(" KB"); }
    } else {
        push_decimal(&mut out, bytes);
        push_str(&mut out, " bytes");
        proof { reveal_strlit(" bytes"); }
    }
    assert(out@ =~= file_size_text(bytes as nat));
    string_of(out.as_slice())
}

/// Sizes are shown in the largest unit of 1024 that they reach: below
/// 1024 bytes as the exact number and " bytes", then KB from 1024, MB from
/// 1024 * 1024 and GB from 1024 * 1024 * 1024, each after a number with two
/// decimals (`<whole>.<d><d>`).
pub proof fn sizes_use_the_largest_unit_reached(bytes: nat)
    ensures
        bytes < 1024 ==> file_size_text(bytes) == decimal(bytes) + " bytes"@,
        1024 <= bytes < 1048576 ==> file_size_text(bytes).take(file_size_text(bytes).len() - 3) == two_decimals(bytes, 10)
            && file_size_text(bytes).skip(file_size_text(bytes).len() - 3) == " KB"@,
        1048576 <= bytes < 1073741824 ==> file_size_text(bytes).take(file_size_text(bytes).len() - 3) == two_decimals(bytes, 20)
            && file_size_text(bytes).skip(file_size_text(bytes).len() - 3) == " MB"@,
        1073741824 <= bytes ==> file_size_text(bytes).take(file_size_text(bytes).len() - 3) == two_decimals(bytes, 30)
            && file_size_text(bytes).skip(file_size_text(bytes).len() - 3) == " GB"@,
        bytes >= 1024 ==> {
            let t = file_size_text(bytes);
            let n = t.len() - 3;
            n >= 4 && t[n - 3] == '.' && is_digit(t[n - 2]) && is_digit(t[n - 1])
        },
{
    lemma_two_pow_values();
    reveal_strlit(" bytes");
    reveal_strlit(" KB");
    reveal_strlit(" MB");
    reveal_strlit(" GB");
    let t = file_size_text(bytes);
    if bytes >= 1024 {
        let shift: nat = if bytes >= 1073741824 { 30 } else if bytes >= 1048576 { 20 } else { 10 };
        let h = round_half_even(as_double(bytes) * 100, two_pow(shift));
        let w = decimal(h / 100);
        let tail = seq!['.', digit_char(((h % 100) / 10) as int), digit_char((h % 10) as int)];
        assert(two_decimals(bytes, shift) == w + tail);
        assert(t.take(t.len() - 3) =~= two_decimals(bytes, shift));
        assert(t.skip(t.len() - 3) =~= t.subrange(t.len() - 3, t.len() as int));
    }
}

} // verus!
