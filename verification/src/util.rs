//! Sizes in binary units, and the rule for URLs.

use vstd::prelude::*;
use crate::error::NeoError;
use crate::text::{decimal, digit_char, push_char, push_decimal, digit, starts_with};

verus! {

/// `n / d` rounded to the nearest integer, ties to the even neighbour.
pub open spec fn div_round_even(n: nat, d: nat) -> nat {
    let q = n / d;
    let r = n % d;
    if 2 * r > d || (2 * r == d && q % 2 == 1) {
        q + 1
    } else {
        q
    }
}

/// A count of tenths written with one decimal: `t = 15` gives `1.5`.
pub open spec fn tenths(t: nat) -> Seq<char> {
    decimal(t / 10) + seq!['.', digit_char(t % 10)]
}

/// The distance between neighbouring 64-bit floats around the integer `b`:
/// 1 below 2^53, doubling with each further power of two.
pub open spec fn f64_spacing(b: nat) -> nat
    decreases b,
{
    if b < 0x20_0000_0000_0000 {
        1
    } else {
        2 * f64_spacing(b / 2)
    }
}

/// The 64-bit float nearest to the integer `b` (ties to even), as `b as f64` gives it.
pub open spec fn f64_nearest(b: nat) -> nat {
    div_round_even(b, f64_spacing(b)) * f64_spacing(b)
}

/// `value / unit` written with one decimal, rounded half to even, followed by `suffix`.
pub open spec fn scaled(value: nat, unit: nat, suffix: Seq<char>) -> Seq<char> {
    tenths(div_round_even(value * 10, unit)) + suffix
}

/// A byte count in binary units: bytes below 1 KiB, then KB, MB, GB and TB
/// with one decimal (the float value of the count divided by the unit,
/// rounded half to even).
pub open spec fn humansize_spec(bytes: u64) -> Seq<char> {
    if bytes < 1024 {
        decimal(bytes as nat) + seq!['B']
    } else if bytes < 0x10_0000 {
        scaled(bytes as nat, 1024, seq!['K', 'B'])
    } else if bytes < 0x4000_0000 {
        scaled(bytes as nat, 0x10_0000, seq!['M', 'B'])
    } else if bytes < 0x100_0000_0000 {
        scaled(bytes as nat, 0x4000_0000, seq!['G', 'B'])
    } else {
        scaled(f64_nearest(bytes as nat), 0x100_0000_0000, seq!['T', 'B'])
    }
}

} // verus!

verus! {

fn div_round_even_exec(n: u128, d: u128) -> (r: u128)
    requires
        0 < d <= 0x1_0000_0000_0000_0000_0000,
        n <= 0x1_0000_0000_0000_0000_0000,
    ensures
        r == div_round_even(n as nat, d as nat),
        r <= n / d + 1,
{
    let q = n / d;
    let r = n % d;
    if 2 * r > d || (2 * r == d && q % 2 == 1) {
        q + 1
    } else {
        q
    }
}

/// `b as f64`, as an integer.
fn f64_nearest_exec(b: u64) -> (f: u128)
    ensures
        f == f64_nearest(b as nat),
        f <= 0x1_0000_0000_0000_1000,
{
    let mut t: u64 = b;
    let mut u: u64 = 1;
    while t >= 0x20_0000_0000_0000
        invariant
            1 <= u <= 4096,
            t as nat * u as nat <= b as nat,
            u as nat * f64_spacing(t as nat) == f64_spacing(b as nat),
        decreases t,
    {
        assert(f64_spacing(t as nat) == 2 * f64_spacing((t / 2) as nat));
        assert(u < 2048) by (nonlinear_arith)
            requires
                t >= 0x20_0000_0000_0000,
                t as nat * u as nat <= b as nat,
                b <= 0xffff_ffff_ffff_ffff,
        ;
        assert((t / 2) as nat * (2 * u) as nat <= b as nat) by (nonlinear_arith)
            requires
                t as nat * u as nat <= b as nat,
        ;
        assert((2 * u) as nat * f64_spacing((t / 2) as nat) == u as nat * f64_spacing(t as nat))
            by (nonlinear_arith)
            requires
                f64_spacing(t as nat) == 2 * f64_spacing((t / 2) as nat),
        ;
        t = t / 2;
        u = u * 2;
    }
    assert(f64_spacing(t as nat) == 1);
    assert(u as nat == f64_spacing(b as nat)) by (nonlinear_arith)
        requires
            u as nat * f64_spacing(t as nat) == f64_spacing(b as nat),
            f64_spacing(t as nat) == 1,
    ;
    let q = div_round_even_exec(b as u128, u as u128);
    assert(q * u <= b as nat + 4096) by (nonlinear_arith)
        requires
            q <= b as nat / u as nat + 1,
            1 <= u <= 4096,
    {
        assert((b as nat / u as nat) * u <= b) by (nonlinear_arith) requires u >= 1;
    }
    q * (u as u128)
}

/// Appends `value / unit` with one decimal (rounded half to even).
fn push_scaled(s: &mut String, value: u128, unit: u128)
    requires
        1024 <= unit <= 0x100_0000_0000,
        value <= 0x1_0000_0000_0000_1000,
    ensures
        final(s)@ == old(s)@ + tenths(div_round_even(value as nat * 10, unit as nat)),
{
    let t = div_round_even_exec(value * 10, unit);
    assert(t <= 0xffff_ffff_ffff_ffff) by {
        assert((value * 10) as nat / unit as nat <= (value * 10) as nat / 1024) by {
            vstd::arithmetic::div_mod::lemma_div_is_ordered_by_denominator(
                (value * 10) as int,
                1024,
                unit as int,
            );
        }
    }
    let ghost start = s@;
    push_decimal(s, (t / 10) as u64);
    push_char(s, '.');
    push_char(s, digit((t % 10) as u64));
    proof {
        assert(s@ =~= start + tenths(t as nat));
    }
}

/// A byte count in binary units: `"1023B"`, `"1.5KB"`, `"5.5MB"`, `"3.3GB"`, `"2.5TB"`.
pub fn humansize(bytes: u64) -> (s: String)
    ensures
        s@ == humansize_spec(bytes),
{
    let mut s = String::new();
    if bytes < 1024 {
        push_decimal(&mut s, bytes);
        push_char(&mut s, 'B');
    } else if bytes < 0x10_0000 {
        push_scaled(&mut s, bytes as u128, 1024);
        push_char(&mut s, 'K');
        push_char(&mut s, 'B');
    } else if bytes < 0x4000_0000 {
        push_scaled(&mut s, bytes as u128, 0x10_0000);
        push_char(&mut s, 'M');
        push_char(&mut s, 'B');
    } else if bytes < 0x100_0000_0000 {
        push_scaled(&mut s, bytes as u128, 0x4000_0000);
        push_char(&mut s, 'G');
        push_char(&mut s, 'B');
    } else {
        let f = f64_nearest_exec(bytes);
        push_scaled(&mut s, f, 0x100_0000_0000);
        push_char(&mut s, 'T');
        push_char(&mut s, 'B');
    }
    proof {
        assert(s@ =~= humansize_spec(bytes));
    }
    s
}

/// The text of the error for a URL that is refused.
pub open spec fn url_error_text() -> Seq<char> {
    "url must start with http:// or https://"@
}

/// Whether a URL is accepted: it starts with `http://` or `https://`.
pub open spec fn url_is_valid(url: Seq<char>) -> bool {
    "http://"@.is_prefix_of(url) || "https://"@.is_prefix_of(url)
}

/// Accepts a URL that starts with `http://` or `https://`, and refuses any other.
pub fn validate_url(url: &str) -> (r: Result<(), NeoError>)
    ensures
        r is Ok <==> url_is_valid(url@),
        r matches Err(e) ==> e@ == (crate::error::ErrorKind::Message, url_error_text()),
{
    if starts_with(url, "http://") || starts_with(url, "https://") {
        Ok(())
    } else {
        Err(NeoError::Message(String::from_str("url must start with http:// or https://")))
    }
}

} // verus!
