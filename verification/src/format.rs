//! Numbers and colours as they are shown.
use crate::float::{float_millis, hundredths, shown, whole_millis, Shown};
use crate::model::{Duration, Method};
use crate::strings::{decimal, digit, push_decimal, push_padded, push_text, padded};
use vstd::prelude::*;

verus! {

/// The whole number nearest to `num / den`; of two, the even one.
pub open spec fn nearest(num: nat, den: nat) -> nat {
    let q = num / den;
    let twice = 2 * (num % den);
    if twice > den || (twice == den && q % 2 == 1) {
        q + 1
    } else {
        q
    }
}

/// The distance between `n` and the next number with 53 significant bits.
pub open spec fn spacing(n: nat) -> nat
    decreases n,
{
    if n < 0x20_0000_0000_0000 {
        1
    } else {
        2 * spacing(n / 2)
    }
}

/// `n` rounded to 53 significant bits.
pub open spec fn significand(n: nat) -> nat {
    nearest(n, spacing(n)) * spacing(n)
}

/// A number of tenths with one decimal.
pub open spec fn tenths_text(tenths: nat) -> Seq<char> {
    decimal(tenths / 10) + "."@ + seq![digit((tenths % 10) as int)]
}

/// Bytes per unit: the first is a kilobyte, the fourth a terabyte.
pub open spec fn unit_size(unit: nat) -> nat {
    if unit == 0 {
        0x400
    } else if unit == 1 {
        0x10_0000
    } else if unit == 2 {
        0x4000_0000
    } else {
        0x100_0000_0000
    }
}

pub open spec fn unit_name(unit: nat) -> Seq<char> {
    if unit == 0 {
        " KB"@
    } else if unit == 1 {
        " MB"@
    } else if unit == 2 {
        " GB"@
    } else {
        " TB"@
    }
}

/// Whether `n` in this unit would be shown as 1024.0 or more.
pub open spec fn carries(n: nat, unit: nat) -> bool {
    20 * n >= 20479 * unit_size(unit)
}

/// The unit in which a size is shown.
pub open spec fn unit_of(n: nat) -> nat {
    if !carries(n, 0) {
        0
    } else if !carries(n, 1) {
        1
    } else if !carries(n, 2) {
        2
    } else {
        3
    }
}

/// A size of at least one kilobyte in the given unit, with one decimal.
pub open spec fn size_in(n: nat, unit: nat) -> Seq<char> {
    tenths_text(nearest(10 * significand(n), unit_size(unit))) + unit_name(unit)
}

/// A size for the user.
pub open spec fn bytes_text(n: nat) -> Seq<char> {
    if n < 1024 {
        decimal(n) + " B"@
    } else {
        size_in(n, unit_of(n))
    }
}

fn nearest_of(num: u128, den: u128) -> (r: u128)
    requires
        0 < den < 0x1_0000_0000_0000_0000,
        num < 0x1000_0000_0000_0000_0000_0000_0000_0000,
    ensures
        r == nearest(num as nat, den as nat),
        r <= num + 1,
{
    let q = num / den;
    let twice = 2 * (num % den);
    proof {
        assert(num / den <= num) by (nonlinear_arith)
            requires
                den > 0,
        ;
    }
    if twice > den || (twice == den && q % 2 == 1) {
        q + 1
    } else {
        q
    }
}

proof fn lemma_spacing(n: nat)
    requires
        n < 0x1_0000_0000_0000_0000,
    ensures
        1 <= spacing(n) <= 2048,
        nearest(n, spacing(n)) <= 0x20_0000_0000_0000,
{
    reveal_with_fuel(spacing, 13);
    lemma_spacing_scales(n);
    let s = spacing(n);
    assert(n / s < 0x20_0000_0000_0000) by (nonlinear_arith)
        requires
            n < 0x20_0000_0000_0000 * s,
            s >= 1,
    ;
}

proof fn lemma_spacing_scales(n: nat)
    ensures
        n < 0x20_0000_0000_0000 * spacing(n),
    decreases n,
{
    if n >= 0x20_0000_0000_0000 {
        lemma_spacing_scales(n / 2);
    }
}

fn spacing_of(n: u64) -> (r: u64)
    ensures
        r == spacing(n as nat),
        1 <= r <= 2048,
{
    let mut rest: u64 = n;
    let mut s: u64 = 1;
    proof {
        lemma_spacing(n as nat);
    }
    while rest >= 0x20_0000_0000_0000
        invariant
            spacing(n as nat) == s * spacing(rest as nat),
            1 <= s,
            1 <= spacing(n as nat) <= 2048,
        decreases rest,
    {
        proof {
            lemma_spacing((rest / 2) as nat);
            let half = spacing((rest / 2) as nat);
            assert(s * (2 * half) == (2 * s) * half) by (nonlinear_arith);
            assert((2 * s) * half >= 2 * s) by (nonlinear_arith)
                requires
                    half >= 1,
                    s >= 1,
            ;
        }
        s = 2 * s;
        rest = rest / 2;
    }
    proof {
        assert(s * 1 == s);
    }
    s
}

fn significand_of(n: u64) -> (r: u128)
    ensures
        r == significand(n as nat),
        r <= 0x1_0000_0000_0000_0000,
{
    let s = spacing_of(n);
    let k = nearest_of(n as u128, s as u128);
    proof {
        lemma_spacing(n as nat);
        assert(k * s <= 0x20_0000_0000_0000 * 2048) by (nonlinear_arith)
            requires
                k <= 0x20_0000_0000_0000,
                s <= 2048,
                0 <= k,
                0 <= s,
        ;
    }
    k * s as u128
}

fn push_tenths(out: &mut String, tenths: u128)
    ensures
        final(out)@ == old(out)@ + tenths_text(tenths as nat),
{
    push_decimal(out, tenths / 10);
    push_text(out, ".");
    proof {
        reveal_with_fuel(decimal, 2);
    }
    push_decimal(out, tenths % 10);
    proof {
        assert(decimal((tenths % 10) as nat) =~= seq![digit((tenths % 10) as int)]);
        assert(out@ =~= old(out)@ + tenths_text(tenths as nat));
    }
}

fn push_size(out: &mut String, n: u64, unit: u8)
    requires
        unit <= 3,
    ensures
        final(out)@ == old(out)@ + size_in(n as nat, unit as nat),
{
    let den: u128 = if unit == 0 {
        0x400
    } else if unit == 1 {
        0x10_0000
    } else if unit == 2 {
        0x4000_0000
    } else {
        0x100_0000_0000
    };
    let m = significand_of(n);
    push_tenths(out, nearest_of(10 * m, den));
    push_text(
        out,
        if unit == 0 {
            " KB"
        } else if unit == 1 {
            " MB"
        } else if unit == 2 {
            " GB"
        } else {
            " TB"
        },
    );
    proof {
        assert(out@ =~= old(out)@ + size_in(n as nat, unit as nat));
    }
}

/// A size for the user: bytes below one kilobyte, else one decimal in the
/// largest unit in which it does not show as 1024.0 or more.
pub fn format_bytes(n: u64) -> (r: String)
    ensures
        r@ == bytes_text(n as nat),
{
    let mut out = String::new();
    if n < 1024 {
        push_decimal(&mut out, n as u128);
        push_text(&mut out, " B");
        proof {
            assert(out@ =~= bytes_text(n as nat));
        }
        return out;
    }
    let twenty: u128 = 20 * (n as u128);
    let unit: u8 = if twenty < 20479 * 0x400u128 {
        0
    } else if twenty < 20479 * 0x10_0000u128 {
        1
    } else if twenty < 20479 * 0x4000_0000u128 {
        2
    } else {
        3
    };
    push_size(&mut out, n, unit);
    proof {
        assert(out@ =~= bytes_text(n as nat));
    }
    out
}

/// A size in megabytes with one decimal.
pub fn format_mb(bytes: u64) -> (r: String)
    ensures
        r@ == size_in(bytes as nat, 1),
{
    let mut out = String::new();
    push_size(&mut out, bytes, 1);
    proof {
        assert(out@ =~= size_in(bytes as nat, 1));
    }
    out
}

/// In any unit but the last, a size shows as at least 1.0 and less than 1024.0.
pub proof fn shown_sizes_stay_in_range(n: nat)
    requires
        n >= 1024,
        unit_of(n) < 3,
    ensures
        10 <= nearest(10 * significand(n), unit_size(unit_of(n))) < 10240,
{
    let u = unit_size(unit_of(n));
    assert(n < 0x20_0000_0000_0000);
    assert(spacing(n) == 1);
    assert(nearest(n, 1) == n) by {
        assert(n / 1 == n);
        assert(n % 1 == 0);
    }
    assert(significand(n) == n);
    let q = (10 * n) / u;
    let rest = (10 * n) % u;
    if unit_of(n) == 0 {
        assert(10 * n == 1024 * q + rest && rest < 1024);
    } else if unit_of(n) == 1 {
        assert(10 * n == 0x10_0000 * q + rest && rest < 0x10_0000);
    } else {
        assert(10 * n == 0x4000_0000 * q + rest && rest < 0x4000_0000);
    }
}

/// A duration for the user: whole milliseconds, at least one, below a second,
/// else seconds with two decimals. It is shown as the binary number with 53
/// significant bits that stands for it.
pub open spec fn duration_text(nanos: nat) -> Seq<char> {
    let ms = float_millis(nanos / 1_000_000_000, nanos % 1_000_000_000);
    let whole = whole_millis(ms);
    if whole < 1000 {
        decimal(if whole == 0 { 1 } else { whole }) + " ms"@
    } else {
        decimal(hundredths(ms) / 100) + "."@ + padded(hundredths(ms) % 100, 2) + " s"@
    }
}

/// A duration for the user.
pub fn format_duration(d: Duration) -> (r: String)
    requires
        d.wf(),
    ensures
        r@ == duration_text(d.total_nanos() as nat),
{
    proof {
        let total = d.total_nanos() as nat;
        assert(total / 1_000_000_000 == d.secs && total % 1_000_000_000 == d.nanos);
    }
    let mut out = String::new();
    match shown(d.secs, d.nanos) {
        Shown::Millis(whole) => {
            push_decimal(
                &mut out,
                if whole == 0 {
                    1
                } else {
                    whole
                },
            );
            push_text(&mut out, " ms");
        },
        Shown::Hundredths(h) => {
            push_decimal(&mut out, h / 100);
            push_text(&mut out, ".");
            push_padded(&mut out, h % 100, 2);
            push_text(&mut out, " s");
        },
    }
    proof {
        assert(out@ =~= duration_text(d.total_nanos() as nat));
    }
    out
}

/// How many digits a number has in decimal; a line number is never 0.
pub fn digits(n: usize) -> (r: usize)
    ensures
        r == decimal(if n == 0 { 1 } else { n as nat }).len(),
{
    let mut rest: usize = if n == 0 {
        1
    } else {
        n
    };
    let ghost total = decimal(rest as nat).len();
    let mut count: usize = 1;
    proof {
        lemma_digits(rest as nat, 20);
    }
    while rest >= 10
        invariant
            count >= 1,
            total <= 20,
            total == decimal(rest as nat).len() + count - 1,
        decreases rest,
    {
        proof {
            lemma_digits((rest / 10) as nat, 20);
        }
        rest = rest / 10;
        count = count + 1;
    }
    count
}

/// A number below ten to the power of `k` has at most `k` digits.
proof fn lemma_digits(n: nat, k: nat)
    requires
        k >= 1,
        n < vstd::arithmetic::power::pow(10, k) || (n < 0x1_0000_0000_0000_0000 && k == 20),
    ensures
        1 <= decimal(n).len(),
        decimal(n).len() <= k,
    decreases k,
{
    reveal(vstd::arithmetic::power::pow);
    if k == 20 {
        assert(vstd::arithmetic::power::pow(10, 20) == 100_000_000_000_000_000_000) by {
            reveal_with_fuel(vstd::arithmetic::power::pow, 21);
        }
    }
    if n >= 10 {
        if k == 1 {
            reveal_with_fuel(vstd::arithmetic::power::pow, 2);
        } else {
            lemma_digits(n / 10, (k - 1) as nat);
        }
    }
}

/// The colour of a method name, as red, green and blue.
pub open spec fn method_rgb(m: Method, dark: bool) -> u32 {
    match m {
        Method::Get => if dark { 0x4bb39a } else { 0x007762 },
        Method::Post => if dark { 0xd7a042 } else { 0x925d0c },
        Method::Put => if dark { 0x6fa8d4 } else { 0x226ea2 },
        Method::Patch => if dark { 0xa596d8 } else { 0x6d5ea6 },
        Method::Delete => if dark { 0xe77968 } else { 0xb74131 },
        Method::Head => if dark { 0x8f9aa3 } else { 0x5e6a77 },
        Method::Options => if dark { 0x8f9aa3 } else { 0x5e6a77 },
    }
}

/// The colour of a method name on a light or a dark ground.
pub fn method_color(m: Method, dark: bool) -> (r: u32)
    ensures
        r == method_rgb(m, dark),
{
    let pair: (u32, u32) = match m {
        Method::Get => (0x007762, 0x4bb39a),
        Method::Post => (0x925d0c, 0xd7a042),
        Method::Put => (0x226ea2, 0x6fa8d4),
        Method::Patch => (0x6d5ea6, 0xa596d8),
        Method::Delete => (0xb74131, 0xe77968),
        Method::Head => (0x5e6a77, 0x8f9aa3),
        Method::Options => (0x5e6a77, 0x8f9aa3),
    };
    if dark {
        pair.1
    } else {
        pair.0
    }
}

/// The colour of a status code; a code outside the known ranges has none.
pub open spec fn status_rgb(status: u16, dark: bool) -> Option<u32> {
    if 200 <= status <= 299 {
        Some(if dark { 0x6ccbb2u32 } else { 0x007460u32 })
    } else if 300 <= status <= 399 {
        Some(if dark { 0xb5a8e0u32 } else { 0x67599fu32 })
    } else if 400 <= status <= 499 {
        Some(if dark { 0xe0ad50u32 } else { 0x8a5600u32 })
    } else if 500 <= status <= 599 {
        Some(if dark { 0xe58474u32 } else { 0xaf3829u32 })
    } else {
        None
    }
}

/// The colour of a status code on a light or a dark ground.
pub fn status_color(status: u16, dark: bool) -> (r: Option<u32>)
    ensures
        r == status_rgb(status, dark),
{
    if status < 200 || status > 599 {
        None
    } else if status <= 299 {
        Some(if dark { 0x6ccbb2u32 } else { 0x007460u32 })
    } else if status <= 399 {
        Some(if dark { 0xb5a8e0u32 } else { 0x67599fu32 })
    } else if status <= 499 {
        Some(if dark { 0xe0ad50u32 } else { 0x8a5600u32 })
    } else {
        Some(if dark { 0xe58474u32 } else { 0xaf3829u32 })
    }
}

/// PUT and PATCH do not share a colour.
pub proof fn put_and_patch_differ(dark: bool)
    ensures
        method_rgb(Method::Put, dark) != method_rgb(Method::Patch, dark),
{
}

} // verus!
