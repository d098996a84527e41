//! Laws of what is shown to the user: sizes and durations stay close to what they
//! stand for.
use crate::float::{float, float_millis, hundredths, one, whole_millis};
use crate::format::{bytes_text, duration_text, nearest, significand, spacing, unit_of};
use crate::strings::{decimal, digit, padded};
use vstd::arithmetic::div_mod::lemma_fundamental_div_mod;
use vstd::prelude::*;

verus! {

proof fn lemma_nearest(num: nat, den: nat)
    requires
        den > 0,
    ensures
        -(den as int) <= 2 * (nearest(num, den) * den - num) <= den,
{
    let q = num / den;
    let r = num % den;
    lemma_fundamental_div_mod(num as int, den as int);
    assert(q * den == num - r) by (nonlinear_arith)
        requires
            num == den * q + r,
    ;
    assert((q + 1) * den == num - r + den) by (nonlinear_arith)
        requires
            q * den == num - r,
    ;
}

/// The unit of a size as it is written.
pub open spec fn unit_mark(unit: nat) -> Seq<char> {
    if unit == 1024 {
        " KB"@
    } else if unit == 1024 * 1024 {
        " MB"@
    } else if unit == 1024 * 1024 * 1024 {
        " GB"@
    } else {
        " TB"@
    }
}

/// A size below a kilobyte is shown as its number of bytes. A larger one is shown
/// with one decimal in the unit in which it is at least one and below 1024, where
/// there is such a unit, and is off by half a tenth of that unit at most.
pub proof fn sizes_are_shown_closely(n: nat) -> (r: (nat, nat))
    requires
        n < 0x20_0000_0000_0000,
    ensures
        n < 1024 ==> bytes_text(n) == decimal(n) + " B"@,
        n >= 1024 ==> ({
            let (tenths, unit) = r;
            &&& bytes_text(n) == decimal(tenths / 10) + "."@ + seq![digit((tenths % 10) as int)]
                + unit_mark(unit)
            &&& unit == 1024 || unit == 1024 * 1024 || unit == 1024 * 1024 * 1024 || unit == 1024
                * 1024 * 1024 * 1024
            &&& -(unit as int) <= 2 * (tenths * unit - 10 * n) <= unit
            &&& tenths >= 10
            &&& unit < 1024 * 1024 * 1024 * 1024 ==> tenths < 10240
        }),
{
    if n < 1024 {
        (0, 0)
    } else {
        let k = unit_of(n);
        let unit = crate::format::unit_size(k);
        assert(spacing(n) == 1);
        assert(n / 1 == n && n % 1 == 0);
        assert(significand(n) == n);
        let tenths = nearest(10 * n, unit);
        lemma_nearest(10 * n, unit);
        if k < 3 {
            crate::format::shown_sizes_stay_in_range(n);
        } else {
            assert(20 * n >= 20479 * 0x4000_0000);
            assert(tenths * unit == tenths * 0x100_0000_0000);
        }
        (tenths, unit)
    }
}

proof fn lemma_spacing(n: nat)
    ensures
        spacing(n) >= 1,
        spacing(n) > 1 ==> n >= 0x10_0000_0000_0000 * spacing(n),
    decreases n,
{
    if n >= 0x20_0000_0000_0000 {
        lemma_spacing(n / 2);
        let s = spacing(n / 2);
        if s == 1 {
            assert(spacing(n) == 2);
        } else {
            assert(0x10_0000_0000_0000 * (2 * s) == 2 * (0x10_0000_0000_0000 * s));
        }
    }
}

/// A rounded quotient is off by one part in 2^53 at most, or by half the smallest
/// step.
proof fn lemma_float(num: nat, den: nat)
    requires
        den > 0,
    ensures
        ({
            let d = float(num, den) * den - num;
            -(num + 0x10_0000_0000_0000 * den) <= 0x20_0000_0000_0000 * d <= num
                + 0x10_0000_0000_0000 * den
        }),
{
    let s = spacing(num / den);
    lemma_spacing(num / den);
    let wide = den * s;
    assert(wide >= den) by (nonlinear_arith)
        requires
            s >= 1,
            den > 0,
            wide == den * s,
    ;
    lemma_nearest(num, wide);
    let k = nearest(num, wide);
    assert((k * s) * den == k * wide) by (nonlinear_arith)
        requires
            wide == den * s,
    ;
    if s > 1 {
        lemma_fundamental_div_mod(num as int, den as int);
        let q = num / den;
        assert(num >= q * den) by (nonlinear_arith)
            requires
                num == den * q + num % den,
                num % den >= 0,
        ;
        assert(q * den >= (0x10_0000_0000_0000 * s) * den) by (nonlinear_arith)
            requires
                q >= 0x10_0000_0000_0000 * s,
        ;
        assert((0x10_0000_0000_0000 * s) * den == 0x10_0000_0000_0000 * wide) by (nonlinear_arith)
            requires
                wide == den * s,
        ;
    } else {
        assert(wide == den) by (nonlinear_arith)
            requires
                wide == den * s,
                s == 1,
        ;
    }
}

/// The milliseconds of a time, scaled, are off by less than the given bound.
proof fn lemma_millis(secs: nat, nanos: nat)
    ensures
        ({
            let exact = (secs * 1_000_000_000 + nanos) * one();
            let off = float_millis(secs, nanos) * 1_000_000 - exact;
            -(7 * exact + 0x10_0000_0000_0000 * 16_000_000_000) <= 0x20_0000_0000_0000 * off <= 7
                * exact + 0x10_0000_0000_0000 * 16_000_000_000
        }),
{
    let a = secs * one();
    let b = nanos * one();
    let exact = (secs * 1_000_000_000 + nanos) * one();
    assert(exact == a * 1_000_000_000 + b) by (nonlinear_arith)
        requires
            exact == (secs * 1_000_000_000 + nanos) * one(),
            a == secs * one(),
            b == nanos * one(),
    ;
    let f0 = float(a, 1);
    let f1 = float(b, 1_000_000_000);
    let f2 = float(f0 + f1, 1);
    let f3 = float(1000 * f2, 1);
    lemma_float(a, 1);
    lemma_float(b, 1_000_000_000);
    lemma_float(f0 + f1, 1);
    lemma_float(1000 * f2, 1);
    assert(f3 == float_millis(secs, nanos));
    assert(f0 * 1 == f0 && f2 * 1 == f2 && f3 * 1 == f3);
    let y = (f0 + f1) * 1_000_000_000 - exact;
    assert(0x20_0000_0000_0000 * y <= exact + 0x20_0000_0000_0000 * 1_000_000_000);
    assert(0x20_0000_0000_0000 * y >= -(exact + 0x20_0000_0000_0000 * 1_000_000_000));
    let z = f2 * 1_000_000_000 - exact;
    assert((f0 + f1) * 1_000_000_000 <= 2 * exact + 1_000_000_000);
    assert(0x20_0000_0000_0000 * z <= 3 * exact + 0x10_0000_0000_0000 * 4_000_000_000);
    assert(0x20_0000_0000_0000 * z >= -(3 * exact + 0x10_0000_0000_0000 * 4_000_000_000));
}

/// A time below a second is shown as its nearest number of whole milliseconds, but
/// never as none; a longer one, up to six days, as its nearest number of hundredths
/// of a second.
pub proof fn durations_are_shown_closely(nanos: nat) -> (r: (bool, nat))
    requires
        nanos < 0x2_0000_0000_0000,
    ensures
        ({
            let (in_millis, shown) = r;
            if in_millis {
                &&& shown < 1000
                &&& duration_text(nanos) == decimal(
                    if shown == 0 {
                        1
                    } else {
                        shown
                    },
                ) + " ms"@
                &&& -500_000 <= shown * 1_000_000 - nanos <= 500_000
            } else {
                &&& nanos >= 999_500_000
                &&& duration_text(nanos) == decimal(shown / 100) + "."@ + padded(shown % 100, 2)
                    + " s"@
                &&& -5_000_000 <= shown * 10_000_000 - nanos <= 5_000_000
            }
        }),
{
    let secs = nanos / 1_000_000_000;
    let rest = nanos % 1_000_000_000;
    assert(secs * 1_000_000_000 + rest == nanos);
    let ms = float_millis(secs, rest);
    lemma_millis(secs, rest);
    let exact = nanos * one();
    assert(exact < 0x2_0000_0000_0000 * one()) by (nonlinear_arith)
        requires
            nanos < 0x2_0000_0000_0000,
            exact == nanos * one(),
            one() > 0,
    ;
    let off = ms * 1_000_000 - exact;
    assert(-(one() as int) < off < one());
    let whole = whole_millis(ms);
    lemma_fundamental_div_mod((2 * ms + one()) as int, (2 * one()) as int);
    assert(-(one() as int) <= 2 * (whole * one() - ms) <= one()) by (nonlinear_arith)
        requires
            2 * ms + one() == (2 * one()) * whole + (2 * ms + one()) % (2 * one()),
            0 <= (2 * ms + one()) % (2 * one()) < 2 * one(),
    ;
    lemma_close(whole * 1_000_000, nanos, 500_000, whole, ms, exact, off);
    if whole < 1000 {
        (true, whole)
    } else {
        let g = float(ms, 1000);
        lemma_float(ms, 1000);
        let h = hundredths(ms);
        lemma_nearest(100 * g, one());
        assert(g * 1000 * 1_000_000 == g * 1_000_000_000);
        let miss = g * 1_000_000_000 - exact;
        assert(-(one() as int) < miss < one());
        lemma_close_hundredths(h, g, nanos, exact, miss);
        (false, h)
    }
}

proof fn lemma_close(
    shown: nat,
    nanos: nat,
    half: nat,
    whole: nat,
    ms: nat,
    exact: nat,
    off: int,
)
    requires
        shown == whole * 1_000_000,
        half == 500_000,
        exact == nanos * one(),
        off == ms * 1_000_000 - exact,
        -(one() as int) < off < one(),
        -(one() as int) <= 2 * (whole * one() - ms) <= one(),
    ensures
        -(half as int) <= shown - nanos <= half,
{
    let d = shown - nanos;
    let u = one() as int;
    assert(d * u == 1_000_000 * (whole * u - ms) + off) by (nonlinear_arith)
        requires
            d == whole * 1_000_000 - nanos,
            off == ms * 1_000_000 - nanos * u,
    ;
    assert(-(500_000 * u + u) < d * u < 500_000 * u + u);
    assert(-(500_001) < d < 500_001) by (nonlinear_arith)
        requires
            -(500_000 * u + u) < d * u < 500_000 * u + u,
            u > 0,
    ;
}

proof fn lemma_close_hundredths(h: nat, g: nat, nanos: nat, exact: nat, miss: int)
    requires
        exact == nanos * one(),
        miss == g * 1_000_000_000 - exact,
        -(one() as int) < miss < one(),
        -(one() as int) <= 2 * (h * one() - 100 * g) <= one(),
    ensures
        -5_000_000 <= h * 10_000_000 - nanos <= 5_000_000,
{
    let d = h * 10_000_000 - nanos;
    let u = one() as int;
    assert(d * u == 10_000_000 * (h * u - 100 * g) + miss) by (nonlinear_arith)
        requires
            d == h * 10_000_000 - nanos,
            miss == g * 1_000_000_000 - nanos * u,
    ;
    assert(-(5_000_000 * u + u) < d * u < 5_000_000 * u + u);
    assert(-(5_000_001) < d < 5_000_001) by (nonlinear_arith)
        requires
            -(5_000_000 * u + u) < d * u < 5_000_000 * u + u,
            u > 0,
    ;
}

} // verus!
