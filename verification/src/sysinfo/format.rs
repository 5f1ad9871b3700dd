//! Sizes and clock rates as text. They are divided and rounded as double-precision
//! numbers are: to the nearest, and to the even one of two as near.

use vstd::prelude::*;
use vstd::string::*;
use crate::num::{decimal, padded, padded_text, u64_text};

verus! {

/// Shown for what is not known.
pub const DASH: &'static str = "\u{2014}";

/// `n / d` rounded to the nearest whole number, to the even one of two as near.
pub open spec fn half_even(n: int, d: int) -> int {
    let q = n / d;
    let r = n % d;
    if 2 * r > d || (2 * r == d && q % 2 == 1) {
        q + 1
    } else {
        q
    }
}

pub fn round_half_even(n: u128, d: u128) -> (r: u128)
    requires
        0 < d <= 0x1_0000_0000_0000_0000,
        n <= 0x1_0000_0000_0000_0000_0000_0000,
    ensures
        r == half_even(n as int, d as int),
{
    let q: u128 = n / d;
    let rest: u128 = n % d;
    assert(0 <= n as int / d as int <= n) by (nonlinear_arith)
        requires
            n >= 0,
            d > 0,
    ;
    assert(0 <= n as int % d as int && n as int % d as int <= d) by (nonlinear_arith)
        requires
            n >= 0,
            d > 0,
    ;
    if 2 * rest > d || (2 * rest == d && q % 2 == 1) {
        q + 1
    } else {
        q
    }
}

/// The distance between double-precision numbers near `b`: they have 53 bits.
pub open spec fn spacing(b: int) -> int
    decreases b,
{
    if b < 0x20_0000_0000_0000 {
        1
    } else {
        2 * spacing(b / 2)
    }
}

/// The double-precision number nearest to `b`.
pub open spec fn as_double(b: int) -> int {
    half_even(b, spacing(b)) * spacing(b)
}

fn spacing_of(b: u64) -> (r: u64)
    ensures
        r == spacing(b as int),
        1 <= r <= 4096,
{
    let mut unit: u64 = 1;
    let mut left: u64 = b;
    while left >= 0x20_0000_0000_0000
        invariant
            spacing(b as int) == unit * spacing(left as int),
            1 <= unit <= 4096,
            unit * left <= b,
        decreases left,
    {
        assert(unit * 0x20_0000_0000_0000 <= unit * left) by (nonlinear_arith)
            requires
                left >= 0x20_0000_0000_0000,
                unit >= 1,
        ;
        assert(unit * (2 * spacing(left as int / 2)) == (unit * 2) * spacing(left as int / 2))
            by (nonlinear_arith);
        assert((unit * 2) * (left as int / 2) <= unit * left) by (nonlinear_arith)
            requires
                unit >= 1,
                left >= 0,
        ;
        left = left / 2;
        unit = unit * 2;
    }
    assert(unit * 1 == unit) by (nonlinear_arith);
    unit
}

/// A number of tenths, as a decimal with one digit behind the point.
pub open spec fn tenths(t: nat) -> Seq<char> {
    decimal(t / 10) + "."@ + decimal(t % 10)
}

/// A size: gigabytes with one digit behind the point, or whole megabytes below one
/// gigabyte; a dash for 0.
pub open spec fn bytes_text(b: int) -> Seq<char> {
    if b == 0 {
        DASH@
    } else if b >= 0x4000_0000 {
        tenths(half_even(as_double(b) * 10, 0x4000_0000) as nat) + " GB"@
    } else {
        decimal(half_even(b, 0x10_0000) as nat) + " MB"@
    }
}

pub fn fmt_bytes(b: u64) -> (r: String)
    ensures
        r@ == bytes_text(b as int),
{
    if b == 0 {
        return DASH.to_owned();
    }
    if b >= 0x4000_0000 {
        let unit: u64 = spacing_of(b);
        let q: u128 = round_half_even(b as u128, unit as u128);
        assert(q <= b as int / unit as int + 1);
        assert((b as int / unit as int) * unit <= b) by (nonlinear_arith)
            requires
                unit > 0,
                b >= 0,
        ;
        assert((b as int / unit as int + 1) * unit == (b as int / unit as int) * unit + unit)
            by (nonlinear_arith);
        assert(0 <= q * unit <= (b as int / unit as int + 1) * unit) by (nonlinear_arith)
            requires
                0 <= q <= b as int / unit as int + 1,
                unit > 0,
        ;
        let d: u128 = q * unit as u128;
        let t: u128 = round_half_even(d * 10, 0x4000_0000);
        assert(t <= d * 10 / 0x4000_0000 + 1);
        let t: u64 = t as u64;
        let mut s = u64_text(t / 10);
        s.append(".");
        s.append(u64_text(t % 10).as_str());
        s.append(" GB");
        s
    } else {
        let m: u128 = round_half_even(b as u128, 0x10_0000);
        assert(m <= b / 0x10_0000 + 1);
        let mut s = u64_text(m as u64);
        s.append(" MB");
        s
    }
}

/// How often `n` doubles before `n / d` has 53 bits.
pub open spec fn doublings(n: int, d: int) -> int
    decreases
            if n < d * 0x10_0000_0000_0000 {
                d * 0x10_0000_0000_0000 - n
            } else {
                0
            },
{
    if n <= 0 || n >= d * 0x10_0000_0000_0000 {
        0
    } else {
        1 + doublings(2 * n, d)
    }
}

/// Two to the power `k`.
pub open spec fn pow2(k: int) -> int
    decreases k,
{
    if k <= 0 {
        1
    } else {
        2 * pow2(k - 1)
    }
}

/// Hundredths of the double-precision number nearest to `mhz / 1000`.
pub open spec fn hundredths(mhz: int) -> int {
    let unit = pow2(doublings(mhz, 1000));
    half_even(half_even(mhz * unit, 1000) * 100, unit)
}

/// A clock rate: gigahertz with two digits behind the point from 1000 MHz up; a
/// dash for 0.
pub open spec fn mhz_text(mhz: int) -> Seq<char> {
    if mhz == 0 {
        DASH@
    } else if mhz >= 1000 {
        let h = hundredths(mhz);
        decimal((h / 100) as nat) + "."@ + padded((h % 100) as nat, 2) + " GHz"@
    } else {
        decimal(mhz as nat) + " MHz"@
    }
}

pub fn fmt_mhz(mhz: u32) -> (r: String)
    ensures
        r@ == mhz_text(mhz as int),
{
    if mhz == 0 {
        return DASH.to_owned();
    }
    if mhz >= 1000 {
        let mut n: u64 = mhz as u64;
        let mut unit: u64 = 1;
        let ghost mut k: int = 0;
        while n < 1000 * 0x10_0000_0000_0000
            invariant
                1000 <= n < 2 * 1000 * 0x10_0000_0000_0000,
                n == mhz * unit,
                1 <= unit <= n,
                unit == pow2(k),
                k >= 0,
                1000 * unit <= n,
                doublings(mhz as int, 1000) == k + doublings(n as int, 1000),
            decreases
                    if n < 1000 * 0x10_0000_0000_0000 {
                        1000 * 0x10_0000_0000_0000 - n
                    } else {
                        0
                    },
        {
            assert(2 * (mhz * unit) == mhz * (2 * unit)) by (nonlinear_arith);
            n = 2 * n;
            unit = 2 * unit;
            proof {
                k = k + 1;
            }
        }
        let q: u128 = round_half_even(n as u128, 1000);
        assert(q <= n / 1000 + 1);
        let h: u128 = round_half_even(q * 100, unit as u128);
        assert(h == hundredths(mhz as int));
        assert(0 <= h <= q * 100 + 1) by {
            assert(0 <= (q * 100) as int / unit as int <= q * 100) by (nonlinear_arith)
                requires
                    q >= 0,
                    unit >= 1,
            ;
        }
        let h: u64 = h as u64;
        let mut s = u64_text(h / 100);
        s.append(".");
        s.append(padded_text(h % 100, 2).as_str());
        s.append(" GHz");
        s
    } else {
        let mut s = u64_text(mhz as u64);
        s.append(" MHz");
        s
    }
}

/// A text, or a dash for an empty one.
pub open spec fn dashed(s: Seq<char>) -> Seq<char> {
    if s.len() == 0 {
        DASH@
    } else {
        s
    }
}

pub fn dash(s: &str) -> (r: String)
    ensures
        r@ == dashed(s@),
{
    if crate::text::chars_of(s).len() == 0 {
        DASH.to_owned()
    } else {
        s.to_owned()
    }
}

/// A number, or a dash for 0.
pub open spec fn count_text(n: int) -> Seq<char> {
    if n == 0 {
        DASH@
    } else {
        decimal(n as nat)
    }
}

pub fn num(n: u32) -> (r: String)
    ensures
        r@ == count_text(n as int),
{
    if n == 0 {
        DASH.to_owned()
    } else {
        u64_text(n as u64)
    }
}

/// Rounding is to a nearest whole number.
pub proof fn rounding_is_nearest(n: int, d: int)
    requires
        0 <= n,
        0 < d,
    ensures
        2 * half_even(n, d) * d <= 2 * n + d,
        2 * n - d <= 2 * half_even(n, d) * d,
{
    let q = n / d;
    let r = n % d;
    vstd::arithmetic::div_mod::lemma_fundamental_div_mod(n, d);
    vstd::arithmetic::div_mod::lemma_mod_bound(n, d);
    assert(2 * (q + 1) * d == 2 * (d * q) + 2 * d) by (nonlinear_arith);
    assert(2 * q * d == 2 * (d * q)) by (nonlinear_arith);
}

/// Whole gigabytes and whole megabytes are written as such.
pub proof fn whole_sizes_are_written_exactly(k: int)
    ensures
        1 <= k < 0x80_0000 ==> bytes_text(k * 0x4000_0000) == decimal(k as nat) + "."@ + decimal(0)
            + " GB"@,
        1 <= k < 1024 ==> bytes_text(k * 0x10_0000) == decimal(k as nat) + " MB"@,
        bytes_text(0) == DASH@,
{
    if 1 <= k < 0x80_0000 {
        let b = k * 0x4000_0000;
        lemma_exact_double(b);
        assert(b * 10 == (k * 10) * 0x4000_0000);
        assert((k * 10) * 0x4000_0000 / 0x4000_0000 == k * 10);
        assert((k * 10) * 0x4000_0000 % 0x4000_0000 == 0);
        assert(half_even(b * 10, 0x4000_0000) == k * 10);
    }
    if 1 <= k < 1024 {
        assert(k * 0x10_0000 / 0x10_0000 == k);
        assert(k * 0x10_0000 % 0x10_0000 == 0);
    }
}

proof fn lemma_exact_double(b: int)
    requires
        0 <= b < 0x20_0000_0000_0000,
    ensures
        as_double(b) == b,
{
    assert(spacing(b) == 1);
    assert(b / 1 == b && b % 1 == 0);
}

/// A size is written to the nearest tenth of a gigabyte, or below one gigabyte to the
/// nearest megabyte.
pub proof fn sizes_are_written_to_the_nearest(b: int)
    ensures
        0x4000_0000 <= b < 0x20_0000_0000_0000 ==> exists|t: nat|
            #![trigger decimal(t / 10)]
            bytes_text(b) == decimal(t / 10) + "."@ + decimal(t % 10) + " GB"@ && -0x4000_0000 <= 2
                * (t * 0x4000_0000 - b * 10) <= 0x4000_0000,
        0 < b < 0x4000_0000 ==> exists|m: nat|
            #![trigger decimal(m)]
            bytes_text(b) == decimal(m) + " MB"@ && -0x10_0000 <= 2 * (m * 0x10_0000 - b)
                <= 0x10_0000,
{
    if 0x4000_0000 <= b < 0x20_0000_0000_0000 {
        lemma_exact_double(b);
        rounding_is_nearest(b * 10, 0x4000_0000);
        let t = half_even(b * 10, 0x4000_0000) as nat;
        assert(bytes_text(b) == decimal(t / 10) + "."@ + decimal(t % 10) + " GB"@);
    } else if 0 < b < 0x4000_0000 {
        rounding_is_nearest(b, 0x10_0000);
        let m = half_even(b, 0x10_0000) as nat;
        assert(bytes_text(b) == decimal(m) + " MB"@);
    }
}

proof fn lemma_doublings(n: int, d: int)
    requires
        0 < n,
        0 < d,
    ensures
        n * pow2(doublings(n, d)) >= d * 0x10_0000_0000_0000,
        pow2(doublings(n, d)) >= 1,
    decreases
            if n < d * 0x10_0000_0000_0000 {
                d * 0x10_0000_0000_0000 - n
            } else {
                0
            },
{
    if n < d * 0x10_0000_0000_0000 {
        lemma_doublings(2 * n, d);
        let p = pow2(doublings(2 * n, d));
        lemma_doublings_nonneg(2 * n, d);
        assert(pow2(doublings(n, d)) == 2 * p);
        assert(n * (2 * p) == (2 * n) * p) by (nonlinear_arith);
    } else {
        assert(pow2(0) == 1);
        assert(n * 1 == n);
    }
}

proof fn lemma_doublings_nonneg(n: int, d: int)
    ensures
        doublings(n, d) >= 0,
    decreases
            if n < d * 0x10_0000_0000_0000 {
                d * 0x10_0000_0000_0000 - n
            } else {
                0
            },
{
    if 0 < n < d * 0x10_0000_0000_0000 {
        lemma_doublings_nonneg(2 * n, d);
    }
}

/// A clock rate below 1000 MHz is written in whole megahertz, and from there on in
/// gigahertz, to the nearest hundredth.
pub proof fn clocks_are_written_to_the_nearest(mhz: int)
    requires
        0 < mhz <= 0xffff_ffff,
    ensures
        mhz < 1000 ==> mhz_text(mhz) == decimal(mhz as nat) + " MHz"@,
        mhz >= 1000 ==> exists|h: nat|
            #![trigger decimal(h / 100)]
            mhz_text(mhz) == decimal(h / 100) + "."@ + padded(h % 100, 2) + " GHz"@ && -5 <= 10 * h
                - mhz <= 5,
{
    if mhz >= 1000 {
        let u = pow2(doublings(mhz, 1000));
        lemma_doublings(mhz, 1000);
        assert(u >= 1000) by (nonlinear_arith)
            requires
                mhz * u >= 1000 * 0x10_0000_0000_0000,
                0 < mhz <= 0xffff_ffff,
                u >= 1,
        ;
        let n = mhz * u;
        assert(n >= 0) by (nonlinear_arith)
            requires
                n == mhz * u,
                mhz > 0,
                u > 0,
        ;
        let q = half_even(n, 1000);
        rounding_is_nearest(n, 1000);
        let h = half_even(q * 100, u);
        rounding_is_nearest(q * 100, u);
        // 10 h and mhz, both times u, are apart by less than six times u.
        assert(2 * h * u <= 200 * q + u);
        assert(200 * q - u <= 2 * h * u);
        assert(2000 * q <= 2 * n + 1000);
        assert(2 * n - 1000 <= 2000 * q);
        assert(10 * h - mhz <= 5) by (nonlinear_arith)
            requires
                2 * h * u <= 200 * q + u,
                2000 * q <= 2 * n + 1000,
                n == mhz * u,
                u >= 1000,
        ;
        assert(-5 <= 10 * h - mhz) by (nonlinear_arith)
            requires
                200 * q - u <= 2 * h * u,
                2 * n - 1000 <= 2000 * q,
                n == mhz * u,
                u >= 1000,
        ;
        assert(h == hundredths(mhz));
        let hn = h as nat;
        assert(mhz_text(mhz) == decimal(hn / 100) + "."@ + padded(hn % 100, 2) + " GHz"@);
    }
}

/// What is not known is shown as a dash, and what is known as it is.
pub proof fn unknown_facts_are_dashed(s: Seq<char>, n: nat)
    ensures
        s.len() > 0 ==> dashed(s) == s,
        dashed(seq![]) == DASH@,
        n > 0 ==> count_text(n as int) == decimal(n),
        count_text(0) == DASH@,
        mhz_text(0) == DASH@,
{
}

} // verus!
