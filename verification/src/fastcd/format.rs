//! Text for the status line of the directory browser: file sizes,
//! permission bits and modification times.

use vstd::prelude::*;
use crate::text::{decimal, digit_char, digit_to_char, push_decimal, push_pad2, pad2, string_of};

verus! {

/// `2^s`.
pub open spec fn p2(s: nat) -> nat
    decreases s,
{
    if s == 0 {
        1
    } else {
        2 * p2((s - 1) as nat)
    }
}

/// The number of binary digits of `n` (0 for 0).
pub open spec fn bit_len(n: nat) -> nat
    decreases n,
{
    if n == 0 {
        0
    } else {
        1 + bit_len(n / 2)
    }
}

/// `n / d` rounded to the nearest integer, ties to the even one.
pub open spec fn round_div(n: nat, d: nat) -> nat {
    let q = n / d;
    let r = n % d;
    if 2 * r > d || (2 * r == d && q % 2 == 1) {
        q + 1
    } else {
        q
    }
}

/// The value of `n as f64`: `n` rounded to 53 significant bits, ties to
/// even.
pub open spec fn to_f64(n: nat) -> nat {
    if bit_len(n) <= 53 {
        n
    } else {
        let s = (bit_len(n) - 53) as nat;
        round_div(n, p2(s)) * p2(s)
    }
}

/// `q / 10` with one decimal: the text of `q` tenths.
pub open spec fn tenths(q: nat) -> Seq<char> {
    decimal(q / 10) + seq!['.', digit_char((q % 10) as int)]
}

/// The size text of the browser: whole bytes below 1024, else kibibytes,
/// mebibytes or gibibytes with one decimal, as `format!("{:.1}")` prints
/// the `f64` quotient (rounded to nearest, ties to even).
pub open spec fn fmt_size_spec(b: nat) -> Seq<char> {
    if b < 1024 {
        decimal(b) + seq![' ', 'B']
    } else if b < 1048576 {
        tenths(round_div(b * 10, 1024)) + seq![' ', 'K', 'B']
    } else if b < 1073741824 {
        tenths(round_div(b * 10, 1048576)) + seq![' ', 'M', 'B']
    } else {
        tenths(round_div(to_f64(b) * 10, 1073741824)) + seq![' ', 'G', 'B']
    }
}

/// A number below `2^k` has at most `k` binary digits.
proof fn lemma_bit_len_bound(n: nat, k: nat)
    requires
        n < p2(k),
    ensures
        bit_len(n) <= k,
    decreases k,
{
    if n > 0 && k > 0 {
        lemma_bit_len_bound(n / 2, (k - 1) as nat);
    }
}

/// Powers of two grow with the exponent.
proof fn lemma_p2_mono(a: nat, b: nat)
    requires
        a <= b,
    ensures
        1 <= p2(a) <= p2(b),
    decreases b,
{
    if b > a {
        lemma_p2_mono(a, (b - 1) as nat);
    } else {
        lemma_p2_pos(a);
    }
}

/// Powers of two are positive.
proof fn lemma_p2_pos(s: nat)
    ensures
        p2(s) >= 1,
    decreases s,
{
    if s > 0 {
        lemma_p2_pos((s - 1) as nat);
    }
}

/// Powers of two are positive, and small ones small.
proof fn lemma_p2_bounds(s: nat)
    ensures
        p2(s) >= 1,
        s <= 11 ==> p2(s) <= 2048,
{
    lemma_p2_mono(0, s);
    if s <= 11 {
        lemma_p2_mono(s, 11);
        reveal_with_fuel(p2, 12);
    }
}

/// Rounded division.
fn round_div_exec(n: u128, d: u128) -> (r: u128)
    requires
        d > 0,
        n < 0x1_0000_0000_0000_0000_0000,
        d < 0x1_0000_0000_0000_0000_0000,
    ensures
        r == round_div(n as nat, d as nat),
        r <= n / d + 1,
{
    let q = n / d;
    let r = n % d;
    if 2 * r > d || (2 * r == d && q % 2 == 1) {
        q + 1
    } else {
        q
    }
}

/// `n as f64`, as an integer.
fn to_f64_exec(n: u64) -> (r: u128)
    ensures
        r == to_f64(n as nat),
        r <= 0x1_0000_0000_0000_0800,
{
    let mut m: u64 = n;
    let mut bits: u64 = 0;
    assert(p2(0) == 1);
    assert(m as nat * p2(bits as nat) == n);
    while m > 0
        invariant
            bit_len(n as nat) == bits + bit_len(m as nat),
            bits <= 64,
            m as nat * p2(bits as nat) <= n,
        decreases m,
    {
        proof {
            lemma_p2_bounds(bits as nat);
            assert((m / 2) as nat * p2((bits + 1) as nat) <= m as nat * p2(bits as nat)) by (nonlinear_arith)
                requires
                    p2((bits + 1) as nat) == 2 * p2(bits as nat),
                    m > 0,
            ;
            assert(p2(bits as nat) <= n) by (nonlinear_arith)
                requires
                    m as nat * p2(bits as nat) <= n,
                    m > 0,
            ;
            if bits >= 64 {
                lemma_p2_ge64(bits as nat);
            }
        }
        m = m / 2;
        bits = bits + 1;
    }
    proof {
        lemma_p2_64();
        lemma_bit_len_bound(n as nat, 64);
    }
    if bits <= 53 {
        return n as u128;
    }
    let s = bits - 53;
    let mut d: u128 = 1;
    let mut i: u64 = 0;
    while i < s
        invariant
            s <= 11,
            i <= s,
            d == p2(i as nat),
            d <= 2048,
        decreases s - i,
    {
        proof {
            lemma_p2_bounds((i + 1) as nat);
        }
        d = d * 2;
        i = i + 1;
    }
    proof {
        lemma_p2_bounds(s as nat);
    }
    let q = round_div_exec(n as u128, d);
    proof {
        vstd::arithmetic::div_mod::lemma_fundamental_div_mod(n as int, d as int);
        assert((n as nat / d as nat) * d <= n) by (nonlinear_arith)
            requires
                n as int == d * (n as int / d as int) + (n as int % d as int),
                n as int % d as int >= 0,
                d > 0,
        ;
        assert(q * d <= n as nat + d) by (nonlinear_arith)
            requires
                q <= n as nat / d as nat + 1,
                (n as nat / d as nat) * d <= n,
                d > 0,
        ;
    }
    q * d
}

/// `2^64` exceeds every `u64`.
proof fn lemma_p2_64()
    ensures
        p2(64) == 0x1_0000_0000_0000_0000,
{
    reveal_with_fuel(p2, 65);
}

/// Powers of two from 64 on exceed every `u64`.
proof fn lemma_p2_ge64(s: nat)
    requires
        s >= 64,
    ensures
        p2(s) >= 0x1_0000_0000_0000_0000,
    decreases s,
{
    if s == 64 {
        lemma_p2_64();
    } else {
        lemma_p2_ge64((s - 1) as nat);
    }
}

/// Appends `q` tenths with one decimal.
fn push_tenths(out: &mut Vec<char>, q: u128)
    requires
        q / 10 <= u64::MAX,
    ensures
        final(out)@ == old(out)@ + tenths(q as nat),
{
    push_decimal(out, (q / 10) as u64);
    out.push('.');
    out.push(digit_to_char((q % 10) as u64));
    assert(final(out)@ =~= old(out)@ + tenths(q as nat));
}

/// A file size for the browser: `512 B`, `1.5 KB`, `3.0 MB`, `1.2 GB`.
pub fn fmt_size(bytes: u64) -> (r: String)
    ensures
        r@ == fmt_size_spec(bytes as nat),
{
    let mut out: Vec<char> = Vec::new();
    if bytes < 1024 {
        push_decimal(&mut out, bytes);
        out.push(' ');
        out.push('B');
    } else if bytes < 1048576 {
        let q = round_div_exec(bytes as u128 * 10, 1024);
        push_tenths(&mut out, q);
        out.push(' ');
        out.push('K');
        out.push('B');
    } else if bytes < 1073741824 {
        let q = round_div_exec(bytes as u128 * 10, 1048576);
        push_tenths(&mut out, q);
        out.push(' ');
        out.push('M');
        out.push('B');
    } else {
        let f = to_f64_exec(bytes);
        let q = round_div_exec(f * 10, 1073741824);
        push_tenths(&mut out, q);
        out.push(' ');
        out.push('G');
        out.push('B');
    }
    assert(out@ =~= fmt_size_spec(bytes as nat));
    string_of(out.as_slice())
}

/// The permission text `rwxrwxrwx` for the low nine mode bits, with `-`
/// for each bit that is clear.
pub open spec fn fmt_permissions_spec(mode: u32) -> Seq<char> {
    seq![
        if mode & 0o400 != 0 { 'r' } else { '-' },
        if mode & 0o200 != 0 { 'w' } else { '-' },
        if mode & 0o100 != 0 { 'x' } else { '-' },
        if mode & 0o040 != 0 { 'r' } else { '-' },
        if mode & 0o020 != 0 { 'w' } else { '-' },
        if mode & 0o010 != 0 { 'x' } else { '-' },
        if mode & 0o004 != 0 { 'r' } else { '-' },
        if mode & 0o002 != 0 { 'w' } else { '-' },
        if mode & 0o001 != 0 { 'x' } else { '-' },
    ]
}

/// The permission text of a Unix file mode.
pub fn fmt_permissions(mode: u32) -> (r: String)
    ensures
        r@ == fmt_permissions_spec(mode),
{
    let mut out: Vec<char> = Vec::new();
    out.push(if mode & 0o400 != 0 { 'r' } else { '-' });
    out.push(if mode & 0o200 != 0 { 'w' } else { '-' });
    out.push(if mode & 0o100 != 0 { 'x' } else { '-' });
    out.push(if mode & 0o040 != 0 { 'r' } else { '-' });
    out.push(if mode & 0o020 != 0 { 'w' } else { '-' });
    out.push(if mode & 0o010 != 0 { 'x' } else { '-' });
    out.push(if mode & 0o004 != 0 { 'r' } else { '-' });
    out.push(if mode & 0o002 != 0 { 'w' } else { '-' });
    out.push(if mode & 0o001 != 0 { 'x' } else { '-' });
    assert(out@ =~= fmt_permissions_spec(mode));
    string_of(out.as_slice())
}

/// The permission text where only a read-only flag is known:
/// `r--------` when read-only, else `rw-rw-rw-`.
pub fn fmt_readonly_permissions(readonly: bool) -> (r: String)
    ensures
        readonly ==> r@ == seq!['r', '-', '-', '-', '-', '-', '-', '-', '-'],
        !readonly ==> r@ == seq!['r', 'w', '-', 'r', 'w', '-', 'r', 'w', '-'],
{
    let v: Vec<char> = if readonly {
        vec!['r', '-', '-', '-', '-', '-', '-', '-', '-']
    } else {
        vec!['r', 'w', '-', 'r', 'w', '-', 'r', 'w', '-']
    };
    string_of(v.as_slice())
}

/// The rough modification date of the browser for `s` seconds after the
/// epoch: `year-month-day hour:minute`, with 365-day years and 30-day
/// months counted from 1970.
pub open spec fn format_modified_spec(s: nat) -> Seq<char> {
    let mins = (s % 3600) / 60;
    let hours = (s % 86400) / 3600;
    let days = s / 86400;
    let year = 1970 + days / 365;
    let doy = days % 365;
    decimal(year) + seq!['-'] + pad2(doy / 30 + 1) + seq!['-'] + pad2(doy % 30 + 1) + seq![' ']
        + pad2(hours) + seq![':'] + pad2(mins)
}

/// The modification date text for a time in seconds after the epoch.
pub fn format_modified(s: u64) -> (r: String)
    ensures
        r@ == format_modified_spec(s as nat),
{
    let mins = (s % 3600) / 60;
    let hours = (s % 86400) / 3600;
    let days = s / 86400;
    let year = 1970 + days / 365;
    let doy = days % 365;
    let mut out: Vec<char> = Vec::new();
    push_decimal(&mut out, year);
    out.push('-');
    push_pad2(&mut out, doy / 30 + 1);
    out.push('-');
    push_pad2(&mut out, doy % 30 + 1);
    out.push(' ');
    push_pad2(&mut out, hours);
    out.push(':');
    push_pad2(&mut out, mins);
    assert(out@ =~= format_modified_spec(s as nat));
    string_of(out.as_slice())
}

} // verus!
