//! Arithmetic on binary numbers with 53 significant bits, on integers: a number is
//! counted in units of 2^-84, and each operation rounds its exact result.
use crate::format::{nearest, spacing};
use vstd::arithmetic::div_mod::{
    lemma_div_denominator, lemma_div_multiples_vanish_quotient, lemma_fundamental_div_mod,
    lemma_fundamental_div_mod_converse,
};
use vstd::prelude::*;

verus! {

/// Two to the power of `e`.
pub open spec fn two(e: nat) -> nat
    decreases e,
{
    if e == 0 {
        1
    } else {
        2 * two((e - 1) as nat)
    }
}

/// The number one.
pub open spec fn one() -> nat {
    0x1_00000_00000000_00000000
}

/// The number with 53 significant bits nearest to `num / den`; of two, the one whose
/// last bit is zero.
pub open spec fn float(num: nat, den: nat) -> nat {
    let s = spacing(num / den);
    nearest(num, den * s) * s
}

/// A time of `secs` seconds and `nanos` nanoseconds: the fraction is divided, the
/// seconds are added.
pub open spec fn float_seconds(secs: nat, nanos: nat) -> nat {
    float(float(secs * one(), 1) + float(nanos * one(), 1_000_000_000), 1)
}

/// A time in milliseconds.
pub open spec fn float_millis(secs: nat, nanos: nat) -> nat {
    float(1000 * float_seconds(secs, nanos), 1)
}

/// Milliseconds as a whole number; of two, the larger.
pub open spec fn whole_millis(ms: nat) -> nat {
    (2 * ms + one()) / (2 * one())
}

/// Milliseconds as hundredths of a second; of two, the even one.
pub open spec fn hundredths(ms: nat) -> nat {
    nearest(100 * float(ms, 1000), one())
}

proof fn lemma_two(e: nat)
    ensures
        two(e) >= 1,
    decreases e,
{
    if e > 0 {
        lemma_two((e - 1) as nat);
    }
}

proof fn lemma_two_adds(a: nat, b: nat)
    ensures
        two(a + b) == two(a) * two(b),
    decreases a,
{
    if a > 0 {
        lemma_two_adds((a - 1) as nat, b);
        let x = two((a - 1) as nat);
        let y = two(b);
        assert(((a - 1) as nat + b) as nat == (a + b - 1) as nat);
        assert(2 * (x * y) == (2 * x) * y) by (nonlinear_arith);
    } else {
        assert(1 * two(b) == two(b));
    }
}

proof fn lemma_two_ascends(a: nat, b: nat)
    requires
        a <= b,
    ensures
        two(a) <= two(b),
    decreases b - a,
{
    if a < b {
        lemma_two_ascends(a, (b - 1) as nat);
        lemma_two((b - 1) as nat);
    }
}

proof fn lemma_two_values()
    ensures
        two(8) == 0x100,
        two(9) == 0x200,
        two(10) == 0x400,
        two(11) == 0x800,
        two(12) == 0x1000,
        two(31) == 0x8000_0000,
        two(32) == 0x1_0000_0000,
        two(52) == 0x10_0000_0000_0000,
        two(53) == 0x20_0000_0000_0000,
        two(60) == 0x1000_0000_0000_0000,
        two(84) == one(),
{
    reveal_with_fuel(two, 13);
    lemma_two_adds(12, 12);
    assert(two(24) == 0x100_0000);
    lemma_two_adds(24, 7);
    lemma_two_adds(24, 8);
    lemma_two_adds(24, 24);
    assert(two(48) == 0x1_0000_0000_0000);
    lemma_two_adds(48, 4);
    lemma_two_adds(48, 5);
    lemma_two_adds(48, 12);
    assert(two(4) == 0x10 && two(5) == 0x20);
    lemma_two_adds(60, 24);
}

/// The spacing is a power of two that leaves 53 bits.
proof fn lemma_spacing_form(n: nat) -> (e: nat)
    ensures
        spacing(n) == two(e),
        n < two(53) * two(e),
        n >= two(52) ==> n >= two(52) * two(e),
        e > 0 ==> n >= two(52) * two(e),
    decreases n,
{
    lemma_two_values();
    if n < 0x20_0000_0000_0000 {
        0
    } else {
        let k = lemma_spacing_form(n / 2);
        assert(two(k + 1) == 2 * two(k));
        let t = two(k);
        assert(two(53) * (2 * t) == 2 * (two(53) * t)) by (nonlinear_arith);
        assert(two(52) * (2 * t) == 2 * (two(52) * t)) by (nonlinear_arith);
        k + 1
    }
}

/// A number of 53 bits, shifted, has the spacing of the shift.
proof fn lemma_spacing_of(n: nat, e: nat)
    requires
        two(52) * two(e) <= n < two(53) * two(e),
    ensures
        spacing(n) == two(e),
    decreases e,
{
    lemma_two_values();
    lemma_two(e);
    if e > 0 {
        let t = two((e - 1) as nat);
        assert(two(53) * (2 * t) == 2 * (two(53) * t)) by (nonlinear_arith);
        assert(two(52) * (2 * t) == 2 * (two(52) * t)) by (nonlinear_arith);
        assert(two(52) * two(e) >= two(53)) by {
            lemma_two((e - 1) as nat);
            assert(two(52) * t >= two(52)) by (nonlinear_arith)
                requires
                    t >= 1,
            ;
        }
        lemma_spacing_of(n / 2, (e - 1) as nat);
    }
}

proof fn lemma_halves(num: nat, den: nat)
    requires
        den > 0,
    ensures
        ((2 * num) / den) / 2 == num / den,
        (2 * num) / den >= 2 * (num / den),
{
    lemma_div_denominator(2 * num as int, den as int, 2);
    lemma_div_multiples_vanish_quotient(2, num as int, den as int);
    assert(den * 2 == 2 * den);
}

proof fn lemma_spacing_shifts(num: nat, den: nat, e: nat)
    requires
        den > 0,
        num / den >= two(52),
    ensures
        spacing((num * two(e)) / den) == two(e) * spacing(num / den),
        (num * two(e)) / den >= two(52),
    decreases e,
{
    lemma_two_values();
    if e == 0 {
        assert(num * 1 == num);
        assert(1 * spacing(num / den) == spacing(num / den));
    } else {
        let d = (e - 1) as nat;
        lemma_spacing_shifts(num, den, d);
        let a = num * two(d);
        assert(num * two(e) == 2 * a) by (nonlinear_arith)
            requires
                two(e) == 2 * two(d),
                a == num * two(d),
        ;
        lemma_halves(a, den);
        let s = spacing(num / den);
        assert(2 * (two(d) * s) == two(e) * s) by (nonlinear_arith)
            requires
                two(e) == 2 * two(d),
        ;
    }
}

proof fn lemma_nearest_scales(num: nat, den: nat, c: nat)
    requires
        den > 0,
        c > 0,
    ensures
        nearest(num * c, den * c) == nearest(num, den),
{
    let q = num / den;
    let r = num % den;
    lemma_fundamental_div_mod(num as int, den as int);
    assert(num * c == q * (den * c) + r * c) by (nonlinear_arith)
        requires
            num == den * q + r,
    ;
    assert(0 <= r * c < den * c) by (nonlinear_arith)
        requires
            0 <= r < den,
            c > 0,
    ;
    lemma_fundamental_div_mod_converse(
        (num * c) as int,
        (den * c) as int,
        q as int,
        (r * c) as int,
    );
    assert((2 * r > den) == (2 * (r * c) > den * c)) by (nonlinear_arith)
        requires
            c > 0,
    ;
    assert((2 * r == den) == (2 * (r * c) == den * c)) by (nonlinear_arith)
        requires
            c > 0,
    ;
}

proof fn lemma_nearest_shifts(a: nat, b: nat, den: nat)
    requires
        den > 0,
        a % 2 == 0,
    ensures
        nearest(a * den + b, den) == a + nearest(b, den),
{
    let q = b / den;
    let r = b % den;
    lemma_fundamental_div_mod(b as int, den as int);
    assert(a * den + b == (a + q) * den + r) by (nonlinear_arith)
        requires
            b == den * q + r,
    ;
    lemma_fundamental_div_mod_converse((a * den + b) as int, den as int, (a + q) as int, r as int);
}

proof fn lemma_nearest_small(a: nat, b: nat, den: nat)
    requires
        2 * b < den,
    ensures
        nearest(a * den + b, den) == a,
{
    lemma_fundamental_div_mod_converse((a * den + b) as int, den as int, a as int, b as int);
}

proof fn lemma_nearest_bounds(num: nat, den: nat, low: nat, high: nat)
    requires
        den > 0,
        low * den <= num < high * den,
    ensures
        low <= nearest(num, den) <= high,
        nearest(num, den) * den <= num + den,
{
    let q = num / den;
    let r = num % den;
    lemma_fundamental_div_mod(num as int, den as int);
    assert(low <= q < high) by (nonlinear_arith)
        requires
            num == den * q + r,
            0 <= r < den,
            low * den <= num < high * den,
    ;
    assert(q * den <= num && (q + 1) * den <= num + den) by (nonlinear_arith)
        requires
            num == den * q + r,
            0 <= r,
    ;
}

/// Rounding is the same at every scale.
pub proof fn floats_scale(num: nat, den: nat, e: nat)
    requires
        den > 0,
        num / den >= 0x10_0000_0000_0000,
    ensures
        float(num * two(e), den) == float(num, den) * two(e),
{
    lemma_two_values();
    lemma_spacing_shifts(num, den, e);
    let s = spacing(num / den);
    let t = two(e);
    let k = lemma_spacing_form(num / den);
    lemma_two(k);
    lemma_two(e);
    assert(den * s > 0) by (nonlinear_arith)
        requires
            den > 0,
            s >= 1,
    ;
    lemma_nearest_scales(num, den * s, t);
    assert(den * (t * s) == (den * s) * t) by (nonlinear_arith);
    let n = nearest(num, den * s);
    assert(n * (t * s) == (n * s) * t) by (nonlinear_arith);
}

fn near(num: u128, den: u128) -> (r: u128)
    requires
        0 < den < 0x4000_0000_0000_0000_0000_0000_0000_0000,
        num < 0x8000_0000_0000_0000_0000_0000_0000_0000,
    ensures
        r == nearest(num as nat, den as nat),
        r <= num + 1,
{
    let q = num / den;
    let twice = 2 * (num % den);
    proof {
        assert(num / den <= num) by (nonlinear_arith)
            requires
                den > 0,
        ;
    }
    if twice > den || (twice == den && q % 2 == 1) {
        q + 1
    } else {
        q
    }
}

/// Two to the power of `e`.
fn power(e: u32) -> (r: u128)
    requires
        e <= 126,
    ensures
        r == two(e as nat),
        1 <= r <= 0x4000_0000_0000_0000_0000_0000_0000_0000,
{
    let mut r: u128 = 1;
    let mut i: u32 = 0;
    while i < e
        invariant
            i <= e <= 126,
            r == two(i as nat),
            1 <= r <= 0x4000_0000_0000_0000_0000_0000_0000_0000,
        decreases e - i,
    {
        proof {
            lemma_power_fits((i + 1) as nat);
        }
        r = 2 * r;
        i = i + 1;
    }
    r
}

proof fn lemma_power_fits(i: nat)
    requires
        i <= 126,
    ensures
        two(i) <= 0x4000_0000_0000_0000_0000_0000_0000_0000,
{
    lemma_two_values();
    lemma_two_adds(84, 31);
    lemma_two_adds(115, 11);
    lemma_two_ascends(i, 126);
}

/// Rounds a quotient to 53 bits: a significand and an exponent.
fn round(num: u128, den: u128) -> (r: (u128, u32))
    requires
        0 < den <= 0x1_0000_0000_0000_0000,
        num < 0x8000_0000_0000_0000_0000_0000_0000_0000,
        num as nat / den as nat >= 0x10_0000_0000_0000,
    ensures
        float(num as nat, den as nat) == r.0 as nat * two(r.1 as nat),
        0x10_0000_0000_0000 <= r.0 <= 0x20_0000_0000_0000,
        r.1 <= 75,
        two(52) * two(r.1 as nat) <= num as nat / den as nat,
        (num as nat / den as nat) < two(53) * two(r.1 as nat),
        r.0 * (den * two(r.1 as nat)) <= num + den * two(r.1 as nat),
{
    let n = num / den;
    let mut rest: u128 = n;
    let mut e: u32 = 0;
    proof {
        lemma_two_values();
        assert(rest * 1 == n);
        assert(1 * spacing(rest as nat) == spacing(rest as nat));
    }
    while rest >= 0x20_0000_0000_0000
        invariant
            n < 0x8000_0000_0000_0000_0000_0000_0000_0000,
            rest as nat * two(e as nat) <= n,
            spacing(n as nat) == two(e as nat) * spacing(rest as nat),
            e <= 75,
        decreases rest,
    {
        proof {
            lemma_exponent(rest as nat, e as nat, n as nat);
            let t = two(e as nat);
            let s = spacing((rest / 2) as nat);
            assert(t * (2 * s) == (2 * t) * s) by (nonlinear_arith);
            assert((rest / 2) as nat * (2 * t) <= n) by (nonlinear_arith)
                requires
                    rest as nat * t <= n,
            ;
        }
        rest = rest / 2;
        e = e + 1;
    }
    proof {
        assert(two(e as nat) * 1 == two(e as nat));
        let k = lemma_spacing_form(n as nat);
        let s = two(e as nat);
        lemma_two(e as nat);
        lemma_fundamental_div_mod(num as int, den as int);
        assert(two(52) * (den * s) <= num) by (nonlinear_arith)
            requires
                two(52) * s <= n,
                den * n <= num,
        ;
        assert(num < two(53) * (den * s)) by (nonlinear_arith)
            requires
                n + 1 <= two(53) * s,
                num < den * n + den,
        ;
        assert(den * s >= 1) by (nonlinear_arith)
            requires
                den >= 1,
                s >= 1,
        ;
        lemma_nearest_bounds(num as nat, (den * s) as nat, two(52), two(53));
        lemma_power_fits(e as nat);
        assert(den * s <= num);
    }
    let wide = den * power(e);
    (near(num, wide), e)
}

proof fn lemma_exponent(rest: nat, e: nat, n: nat)
    requires
        rest >= 0x20_0000_0000_0000,
        rest * two(e) <= n,
        n < 0x8000_0000_0000_0000_0000_0000_0000_0000,
    ensures
        e < 75,
{
    lemma_two_values();
    if e >= 75 {
        lemma_two_ascends(75, e);
        lemma_two_adds(60, 12);
        lemma_two_adds(72, 3);
        reveal_with_fuel(two, 4);
        assert(rest * two(e) >= 0x20_0000_0000_0000 * two(75)) by (nonlinear_arith)
            requires
                rest >= 0x20_0000_0000_0000,
                two(e) >= two(75),
        ;
    }
}

/// The fraction of a second.
fn fraction(nanos: u32) -> (r: u128)
    requires
        nanos < 1_000_000_000,
    ensures
        r == float(nanos as nat * one(), 1_000_000_000),
        r < one(),
        nanos > 0 ==> r >= 0x20_0000_0000_0000,
{
    if nanos == 0 {
        proof {
            assert(0 * one() == 0);
            lemma_zero(1_000_000_000);
        }
        return 0;
    }
    let unit: u128 = 0x1_00000_00000000_00000000;
    let num = nanos as u128 * unit;
    let (k, e) = round(num, 1_000_000_000);
    proof {
        lemma_two_values();
        let t = two(e as nat);
        let n = num as nat / 1_000_000_000;
        assert(n < one());
        assert(t <= two(32)) by (nonlinear_arith)
            requires
                two(52) * t <= n,
                n < 0x1_00000_00000000_00000000,
                two(52) == 0x10_0000_0000_0000,
                two(32) == 0x1_0000_0000,
        ;
        assert(n >= 0x40_0000_0000_0000);
        assert(t >= 2) by (nonlinear_arith)
            requires
                n < two(53) * t,
                n >= 0x40_0000_0000_0000,
                two(53) == 0x20_0000_0000_0000,
        ;
        assert(k * (1_000_000_000 * t) == 1_000_000_000 * (k * t)) by (nonlinear_arith);
        assert(1_000_000_000 * (k * t) <= num + 1_000_000_000 * t);
        assert(k * t >= 0x20_0000_0000_0000) by (nonlinear_arith)
            requires
                k >= 0x10_0000_0000_0000,
                t >= 2,
        ;
        lemma_power_fits(e as nat);
    }
    k * power(e)
}

proof fn lemma_zero(den: nat)
    requires
        den > 0,
    ensures
        float(0, den) == 0,
{
    lemma_fundamental_div_mod_converse(0, den as int, 0, 0);
    assert(spacing(0) == 1);
    assert(den * 1 == den);
}

/// A whole number of seconds that fits 53 bits is not rounded.
proof fn lemma_whole_seconds(secs: nat)
    requires
        1 <= secs < 0x20_0000_0000_0000,
    ensures
        float(secs * one(), 1) == secs * one(),
{
    lemma_two_values();
    let n = secs * one();
    let e = lemma_spacing_form(n);
    assert(n / 1 == n);
    lemma_shift_bound(n, e);
    let d = (84 - e) as nat;
    lemma_two_adds(d, e);
    lemma_two(e);
    let a = secs * two(d);
    assert(n == a * two(e)) by (nonlinear_arith)
        requires
            n == secs * one(),
            one() == two(d) * two(e),
            a == secs * two(d),
    ;
    lemma_fundamental_div_mod_converse(n as int, two(e) as int, a as int, 0);
    assert(1 * two(e) == two(e));
}

/// A number below 2^53 has a spacing of at most one.
proof fn lemma_shift_bound(n: nat, e: nat)
    requires
        n < two(53) * one(),
        e > 0 ==> n >= two(52) * two(e),
    ensures
        e <= 84,
{
    lemma_two_values();
    if e > 84 {
        lemma_two_ascends(85, e);
        assert(two(85) == 2 * two(84));
        assert(two(52) * two(e) >= two(53) * one()) by (nonlinear_arith)
            requires
                two(e) >= 2 * one(),
                two(53) == 2 * two(52),
        ;
    }
}

/// Seconds with a fraction, where the seconds fit 53 bits.
fn add_fraction(secs: u64, part: u128) -> (r: (u128, u32))
    requires
        1 <= secs < 0x20_0000_0000_0000,
        part < one(),
    ensures
        float(secs as nat * one() + part as nat, 1) == r.0 as nat * two(r.1 as nat),
        0x10_0000_0000_0000 <= r.0 <= 0x20_0000_0000_0000,
        32 <= r.1 <= 84,
{
    let unit: u128 = 0x1_00000_00000000_00000000;
    let scaled: u128 = secs as u128 * 0x10_0000_0000_0000 + part / 0x1_0000_0000;
    let (_k, d) = round(scaled, 1);
    let ghost n = secs as nat * one() + part as nat;
    let ghost t = (d + 32) as nat;
    proof {
        lemma_two_values();
        assert(scaled as nat / 1 == scaled as nat);
        lemma_two_adds(d as nat, 32);
        let w = two(d as nat);
        assert(two(t) == w * 0x1_0000_0000);
        assert(n == secs as nat * 0x10_0000_0000_0000 * 0x1_0000_0000 + part as nat);
        let low = part as nat % 0x1_0000_0000;
        assert(n == scaled as nat * 0x1_0000_0000 + low);
        assert(two(52) * two(t) <= n) by (nonlinear_arith)
            requires
                two(52) * w <= scaled as nat,
                two(t) == w * 0x1_0000_0000,
                scaled as nat * 0x1_0000_0000 <= n,
        ;
        assert(n < two(53) * two(t)) by (nonlinear_arith)
            requires
                scaled as nat + 1 <= two(53) * w,
                two(t) == w * 0x1_0000_0000,
                n < scaled as nat * 0x1_0000_0000 + 0x1_0000_0000,
        ;
        lemma_spacing_of(n, t);
        assert(n < two(53) * one());
        lemma_shift_bound(n, t);
        assert(n / 1 == n);
        assert(1 * two(t) == two(t));
    }
    let e: u32 = d + 32;
    let odd: u128 = (secs % 2) as u128;
    let even: u128 = secs as u128 - odd;
    let near_part = near(odd * unit + part, power(e));
    proof {
        let up = (84 - e) as nat;
        lemma_two_adds(up, e as nat);
        lemma_two(e as nat);
        lemma_two(up);
        let a = even as nat * two(up);
        let b = odd as nat * one() + part as nat;
        assert(a % 2 == 0) by {
            let half = even as nat / 2;
            assert(even as nat == 2 * half);
            assert(a == 2 * (half * two(up))) by (nonlinear_arith)
                requires
                    even as nat == 2 * half,
                    a == even as nat * two(up),
            ;
        }
        assert(a * two(t) + b == n) by (nonlinear_arith)
            requires
                a == even as nat * two(up),
                one() == two(up) * two(t),
                b == odd as nat * one() + part as nat,
                n == secs as nat * one() + part as nat,
                even as nat + odd as nat == secs as nat,
        ;
        lemma_nearest_shifts(a, b, two(t));
        lemma_nearest_bounds(n, two(t), two(52), two(53));
        assert(a <= two(53));
        assert(a as int == even * two(up));
    }
    let r = even * power(84 - e) + near_part;
    (r, e)
}

/// A fraction of a second is lost on a number whose spacing is more than two.
proof fn lemma_large(k: nat, e: nat, part: nat)
    requires
        0x10_0000_0000_0000 <= k <= 0x20_0000_0000_0000,
        2 * part < two(e),
    ensures
        float(k * two(e) + part, 1) == k * two(e),
{
    lemma_two_values();
    lemma_two(e);
    let n = k * two(e) + part;
    assert(n / 1 == n);
    if k < 0x20_0000_0000_0000 {
        let t = two(e);
        assert(two(52) * t <= n < two(53) * t) by (nonlinear_arith)
            requires
                n == k * t + part,
                0 <= part < t,
                two(52) <= k,
                k + 1 <= two(53),
        ;
        lemma_spacing_of(n, e);
        lemma_nearest_small(k, part, t);
        assert(1 * t == t);
    } else {
        let t = two(e + 1);
        assert(t == 2 * two(e));
        let h: nat = 0x10_0000_0000_0000;
        assert(n == h * t + part);
        assert(two(52) * t <= n < two(53) * t) by (nonlinear_arith)
            requires
                n == h * t + part,
                0 <= part < t,
                two(52) == h,
                two(53) == 2 * h,
                h == 0x10_0000_0000_0000,
        ;
        lemma_spacing_of(n, e + 1);
        lemma_nearest_small(h, part, t);
        assert(1 * t == t);
    }
}

/// A time that is not zero, as a significand and an exponent.
fn seconds(secs: u64, nanos: u32) -> (r: (u128, u32))
    requires
        secs > 0 || nanos > 0,
        nanos < 1_000_000_000,
    ensures
        float_seconds(secs as nat, nanos as nat) == r.0 as nat * two(r.1 as nat),
        0x10_0000_0000_0000 <= r.0 <= 0x20_0000_0000_0000,
        r.1 <= 95,
{
    let part = fraction(nanos);
    if secs == 0 {
        proof {
            assert(0 * one() == 0);
            lemma_zero(1);
            assert(part as nat / 1 == part as nat);
        }
        return round(part, 1);
    }
    if secs < 0x20_0000_0000_0000 {
        proof {
            lemma_whole_seconds(secs as nat);
        }
        return add_fraction(secs, part);
    }
    proof {
        assert(secs as nat / 1 == secs as nat);
    }
    let (k, e) = round(secs as u128, 1);
    proof {
        lemma_two_values();
        let t = two(e as nat);
        assert(2 <= t < two(12)) by (nonlinear_arith)
            requires
                two(52) * t <= secs,
                secs < two(53) * t,
                0x20_0000_0000_0000 <= secs <= 0xffff_ffff_ffff_ffff,
                two(52) == 0x10_0000_0000_0000,
                two(53) == 0x20_0000_0000_0000,
                two(12) == 0x1000,
        ;
        if e > 11 {
            lemma_two_ascends(12, e as nat);
        }
        floats_scale(secs as nat, 1, 84);
        lemma_two_adds(e as nat, 84);
        let wide = two((e + 84) as nat);
        assert(k as nat * t * one() == k as nat * wide) by (nonlinear_arith)
            requires
                wide == t * one(),
        ;
        assert(wide >= 2 * one()) by (nonlinear_arith)
            requires
                wide == t * one(),
                t >= 2,
        ;
        lemma_large(k as nat, (e + 84) as nat, part as nat);
    }
    (k, e + 84)
}

/// A thousand times a number, by the significand.
fn thousandfold(m: u128, Ghost(e): Ghost<nat>) -> (r: u128)
    requires
        0x10_0000_0000_0000 <= m <= 0x20_0000_0000_0000,
    ensures
        float(1000 * (m as nat * two(e)), 1) == r as nat * two(e),
        1000 * 0x10_0000_0000_0000 <= r <= 0x8000_0000_0000_0000,
{
    let num = 1000 * m;
    proof {
        assert(num as nat / 1 == num as nat);
    }
    let (k, f) = round(num, 1);
    proof {
        lemma_two_values();
        let t = two(f as nat);
        assert(two(8) < t < two(11)) by (nonlinear_arith)
            requires
                two(52) * t <= num,
                num < two(53) * t,
                1000 * 0x10_0000_0000_0000 <= num <= 1000 * 0x20_0000_0000_0000,
                two(52) == 0x10_0000_0000_0000,
                two(53) == 0x20_0000_0000_0000,
                two(8) == 0x100,
                two(11) == 0x800,
        ;
        if f <= 8 {
            lemma_two_ascends(f as nat, 8);
        }
        if f >= 11 {
            lemma_two_ascends(11, f as nat);
        }
        assert(spacing(num as nat) == t) by {
            lemma_spacing_of(num as nat, f as nat);
        }
        assert(1 * t == t);
        if f == 9 {
            lemma_nearest_bounds(num as nat, t, 1000 * 0x800_0000_0000, two(53));
        } else {
            lemma_nearest_bounds(num as nat, t, 1000 * 0x400_0000_0000, two(53));
        }
        let near_num = nearest(num as nat, t);
        assert(near_num == k) by (nonlinear_arith)
            requires
                near_num * t == k as nat * t,
                t > 0,
        ;
        if f == 9 {
            assert(k * t == k * 0x200);
        } else {
            assert(f == 10);
            assert(k * t == k * 0x400);
        }
        floats_scale(num as nat, 1, e);
        assert(1000 * (m as nat * two(e)) == num as nat * two(e)) by (nonlinear_arith)
            requires
                num as nat == 1000 * m as nat,
        ;
    }
    k * power(f)
}

/// How a time is shown.
pub enum Shown {
    Millis(u128),
    Hundredths(u128),
}

/// A time in whole milliseconds below a second, else in hundredths of a second.
pub fn shown(secs: u64, nanos: u32) -> (r: Shown)
    requires
        nanos < 1_000_000_000,
    ensures
        ({
            let ms = float_millis(secs as nat, nanos as nat);
            match r {
                Shown::Millis(w) => whole_millis(ms) < 1000 && w == whole_millis(ms),
                Shown::Hundredths(h) => whole_millis(ms) >= 1000 && h == hundredths(ms),
            }
        }),
{
    if secs == 0 && nanos == 0 {
        proof {
            assert(0 * one() == 0);
            lemma_zero(1);
            lemma_zero(1_000_000_000);
        }
        return Shown::Millis(0);
    }
    let unit: u128 = 0x1_00000_00000000_00000000;
    let (m, e) = seconds(secs, nanos);
    let ghost ms = float_millis(secs as nat, nanos as nat);
    let big = thousandfold(m, Ghost(e as nat));
    proof {
        lemma_two_values();
        assert(ms == big as nat * two(e as nat));
    }
    if e < 60 {
        proof {
            lemma_two_ascends(e as nat, 60);
            assert(big * two(e as nat) <= 0x8000_0000_0000_0000 * 0x1000_0000_0000_0000)
                by (nonlinear_arith)
                requires
                    big <= 0x8000_0000_0000_0000,
                    two(e as nat) <= 0x1000_0000_0000_0000,
            ;
        }
        let whole = (2 * (big * power(e)) + unit) / (2 * unit);
        if whole < 1000 {
            return Shown::Millis(whole);
        }
    } else {
        proof {
            lemma_two_ascends(60, e as nat);
            assert(big * two(e as nat) >= 1000 * 0x10_0000_0000_0000 * 0x1000_0000_0000_0000)
                by (nonlinear_arith)
                requires
                    big >= 1000 * 0x10_0000_0000_0000,
                    two(e as nat) >= 0x1000_0000_0000_0000,
            ;
            assert(whole_millis(ms) >= 1000);
        }
    }
    proof {
        lemma_fundamental_div_mod(big as int, 1000);
        assert(big as nat / 1000 >= 0x10_0000_0000_0000);
        floats_scale(big as nat, 1000, e as nat);
    }
    let (k, f) = round(big, 1000);
    proof {
        let t = two(f as nat);
        assert(t <= 2) by (nonlinear_arith)
            requires
                two(52) * t <= big as nat / 1000,
                big <= 0x8000_0000_0000_0000,
                two(52) == 0x10_0000_0000_0000,
        ;
        assert(k * t <= 0x40_0000_0000_0000) by (nonlinear_arith)
            requires
                k <= 0x20_0000_0000_0000,
                t <= 2,
        ;
    }
    let sec = k * power(f);
    let num = 100 * sec;
    proof {
        assert(float(ms, 1000) == sec as nat * two(e as nat));
        assert(100 * (sec as nat * two(e as nat)) == num as nat * two(e as nat)) by (nonlinear_arith)
            requires
                num as nat == 100 * sec as nat,
        ;
    }
    if e <= 84 {
        proof {
            let d = (84 - e) as nat;
            lemma_two_adds(d, e as nat);
            lemma_two_ascends(d, 84);
            lemma_two(d);
            lemma_two(e as nat);
            lemma_nearest_scales(num as nat, two(d), two(e as nat));
        }
        Shown::Hundredths(near(num, power(84 - e)))
    } else {
        proof {
            let d = (e - 84) as nat;
            lemma_two_adds(d, 84);
            lemma_two_ascends(d, 12);
            let a = num as nat * two(d);
            assert(num as nat * two(e as nat) == a * one()) by (nonlinear_arith)
                requires
                    two(e as nat) == two(d) * one(),
                    a == num as nat * two(d),
            ;
            lemma_nearest_small(a, 0, one());
            assert(num * two(d) <= 0x4_0000_0000_0000_0000 * 0x1000) by (nonlinear_arith)
                requires
                    num <= 0x4_0000_0000_0000_0000,
                    two(d) <= 0x1000,
            ;
        }
        Shown::Hundredths(num * power(e - 84))
    }
}

} // verus!
