//! Floating-point numbers as bit patterns: what whole numbers and single-precision
//! numbers become.

use vstd::arithmetic::power2::{
    lemma2_to64, lemma2_to64_rest, lemma_pow2_adds, lemma_pow2_pos, lemma_pow2_strictly_increases,
    lemma_pow2_unfold, pow2,
};
use vstd::prelude::*;

verus! {

/// The place of the highest bit of a number, counted from zero.
pub open spec fn highest_bit(n: nat) -> nat
    decreases n,
{
    if n < 2 {
        0
    } else {
        1 + highest_bit(n / 2)
    }
}

/// The quotient next to `n / d`, the even one of two that are as near.
pub open spec fn rounded(n: nat, d: nat) -> nat {
    let q = n / d;
    let r = n % d;
    if 2 * r < d || (2 * r == d && q % 2 == 0) {
        q
    } else {
        q + 1
    }
}

/// The magnitude bits of the number next to `n`, with `width` bits behind the
/// leading one and exponents counted from `bias`: the exponent, then the digits. A
/// number that is rounded up to the next power of two carries into the exponent.
pub open spec fn magnitude(n: nat, width: nat, bias: nat) -> nat {
    if n == 0 {
        0
    } else {
        let e = highest_bit(n);
        ((e + bias - 1) * pow2(width)) as nat + if e <= width {
            n * pow2((width - e) as nat)
        } else {
            rounded(n, pow2((e - width) as nat))
        }
    }
}

pub open spec fn size_of_int(n: i64) -> nat {
    if n < 0 {
        (-n) as nat
    } else {
        n as nat
    }
}

/// The double-precision number next to a whole number.
pub open spec fn float8_of_int(n: i64) -> u64 {
    (magnitude(size_of_int(n), 52, 1023) + if n < 0 {
        0x8000_0000_0000_0000nat
    } else {
        0
    }) as u64
}

/// The single-precision number next to a whole number.
pub open spec fn float4_of_int(n: i64) -> u32 {
    (magnitude(size_of_int(n), 23, 127) + if n < 0 {
        0x8000_0000nat
    } else {
        0
    }) as u32
}

/// A single-precision number in double precision. A pattern that stands for no
/// number becomes another such pattern.
pub open spec fn float8_of_float4(bits: u32) -> u64 {
    let sign = if bits >= 0x8000_0000 {
        0x8000_0000_0000_0000nat
    } else {
        0
    };
    let exponent = (bits % 0x8000_0000) / 0x80_0000;
    let digits = (bits % 0x80_0000) as nat;
    (sign + if exponent == 255 {
        if digits == 0 {
            0x7ff0_0000_0000_0000nat
        } else {
            0x7ff8_0000_0000_0000
        }
    } else if exponent == 0 {
        magnitude(digits, 52, 874)
    } else {
        magnitude(0x80_0000 + digits, 52, (873 + exponent) as nat)
    }) as u64
}

proof fn lemma_highest_bit(n: nat, e: nat)
    requires
        pow2(e) <= n < 2 * pow2(e),
    ensures
        highest_bit(n) == e,
    decreases e,
{
    lemma2_to64();
    if e > 0 {
        lemma_pow2_unfold(e);
        lemma_pow2_pos((e - 1) as nat);
        lemma_highest_bit(n / 2, (e - 1) as nat);
    }
}

proof fn lemma_pow2_up_to(e: nat, top: nat)
    requires
        e <= top,
    ensures
        0 < pow2(e) <= pow2(top),
{
    lemma_pow2_pos(e);
    if e < top {
        lemma_pow2_strictly_increases(e, top);
    }
}

/// A power of two.
fn power(k: u32) -> (r: u128)
    requires
        k <= 64,
    ensures
        r == pow2(k as nat),
        0 < r <= 0x1_0000_0000_0000_0000,
{
    proof {
        lemma2_to64();
        lemma2_to64_rest();
        lemma_pow2_up_to(k as nat, 64);
    }
    let mut r: u128 = 1;
    let mut i: u32 = 0;
    while i < k
        invariant
            i <= k <= 64,
            r == pow2(i as nat),
            r <= 0x1_0000_0000_0000_0000,
        decreases k - i,
    {
        proof {
            lemma_pow2_unfold((i + 1) as nat);
            lemma2_to64_rest();
            lemma_pow2_up_to((i + 1) as nat, 64);
        }
        r = r * 2;
        i += 1;
    }
    r
}

/// The place of the highest bit.
fn find_highest_bit(n: u128) -> (e: u32)
    requires
        0 < n < 0x1_0000_0000_0000_0000,
    ensures
        e == highest_bit(n as nat),
        e < 64,
        pow2(e as nat) <= n < 2 * pow2(e as nat),
{
    let mut p: u128 = 1;
    let mut e: u32 = 0;
    proof {
        lemma2_to64();
        lemma2_to64_rest();
    }
    while 2 * p <= n
        invariant
            0 < n < 0x1_0000_0000_0000_0000,
            p == pow2(e as nat),
            p <= n,
            e < 64,
        decreases n - p,
    {
        proof {
            lemma_pow2_unfold((e + 1) as nat);
            lemma2_to64();
            lemma2_to64_rest();
            if e + 1 >= 64 {
                lemma_pow2_up_to(64, (e + 1) as nat);
            }
        }
        p = 2 * p;
        e += 1;
    }
    proof {
        lemma_highest_bit(n as nat, e as nat);
    }
    e
}

proof fn lemma_quotient_bound(n: int, d: int, c: int)
    by (nonlinear_arith)
    requires
        0 <= n < c * d,
        0 < d,
    ensures
        0 <= n / d < c,
{
}

proof fn lemma_product_bound(a: int, p: int)
    by (nonlinear_arith)
    requires
        0 <= a <= 1300,
        0 <= p <= 0x10_0000_0000_0000,
    ensures
        0 <= a * p <= 1300 * 0x10_0000_0000_0000,
{
}

proof fn lemma_scaled_bound(n: int, p: int, s: int, w: int)
    by (nonlinear_arith)
    requires
        0 <= n < 2 * p,
        0 < s,
        p * s == w,
    ensures
        0 <= n * s < 2 * w,
{
}

/// The exponent counts at most this, the width being `width`.
proof fn lemma_magnitude_bound(n: nat, width: nat, bias: nat)
    requires
        n < 0x1_0000_0000_0000_0000,
        width == 23 || width == 52,
        0 < bias <= 1200,
    ensures
        magnitude(n, width, bias) <= (highest_bit(n) + bias + 1) * pow2(width),
        n > 0 ==> highest_bit(n) < 64,
{
    lemma2_to64();
    lemma2_to64_rest();
    if n > 0 {
        lemma_bit_bounds(n);
        let e = highest_bit(n);
        let w = pow2(width);
        lemma_pow2_pos(width);
        if e >= 64 {
            lemma_pow2_up_to(64, e);
        }
        let tail = if e <= width {
            n * pow2((width - e) as nat)
        } else {
            rounded(n, pow2((e - width) as nat))
        };
        if e <= width {
            lemma_pow2_adds(e, (width - e) as nat);
            lemma_pow2_pos((width - e) as nat);
            lemma_scaled_bound(
                n as int,
                pow2(e) as int,
                pow2((width - e) as nat) as int,
                w as int,
            );
        } else {
            lemma_pow2_adds(width, (e - width) as nat);
            lemma_pow2_pos((e - width) as nat);
            let d = pow2((e - width) as nat);
            assert(2 * (w * d) == (2 * w) * d) by (nonlinear_arith);
            lemma_quotient_bound(n as int, d as int, (2 * w) as int);
        }
        assert(tail <= 2 * w);
        assert((e + bias - 1) * w + 2 * w == (e + bias + 1) * w) by (nonlinear_arith);
    } else {
        assert(0 <= (highest_bit(n) + bias + 1) * pow2(width)) by (nonlinear_arith);
    }
}

proof fn lemma_bit_bounds(n: nat)
    requires
        n > 0,
    ensures
        pow2(highest_bit(n)) <= n < 2 * pow2(highest_bit(n)),
    decreases n,
{
    lemma2_to64();
    if n >= 2 {
        lemma_bit_bounds(n / 2);
        lemma_pow2_unfold(highest_bit(n));
    }
}

/// The magnitude bits of the number next to `n`.
fn find_magnitude(n: u128, width: u32, bias: u32) -> (r: u128)
    requires
        n < 0x1_0000_0000_0000_0000,
        width == 23 || width == 52,
        0 < bias <= 1200,
    ensures
        r == magnitude(n as nat, width as nat, bias as nat),
{
    if n == 0 {
        return 0;
    }
    let e: u32 = find_highest_bit(n);
    let unit: u128 = power(width);
    proof {
        lemma2_to64();
        lemma2_to64_rest();
        lemma_product_bound(e + bias - 1, unit as int);
    }
    let base: u128 = (e + bias - 1) as u128 * unit;
    if e <= width {
        let scale: u128 = power(width - e);
        proof {
            lemma_pow2_adds(e as nat, (width - e) as nat);
            lemma_scaled_bound(n as int, pow2(e as nat) as int, scale as int, unit as int);
        }
        base + n * scale
    } else {
        let d: u128 = power(e - width);
        let q: u128 = n / d;
        let rest: u128 = n % d;
        if 2 * rest < d || (2 * rest == d && q % 2 == 0) {
            base + q
        } else {
            base + q + 1
        }
    }
}

pub(crate) fn find_size(n: i64) -> (r: u128)
    ensures
        r == size_of_int(n),
        r <= 0x8000_0000_0000_0000,
{
    let wide: i128 = n as i128;
    if wide < 0 {
        (-wide) as u128
    } else {
        wide as u128
    }
}

proof fn lemma_int_fits(n: i64, width: nat, bias: nat)
    requires
        width == 23 && bias == 127 || width == 52 && bias == 1023,
    ensures
        width == 52 ==> magnitude(size_of_int(n), width, bias) < 0x7ff0_0000_0000_0000,
        width == 23 ==> magnitude(size_of_int(n), width, bias) < 0x7f80_0000,
{
    lemma2_to64();
    lemma2_to64_rest();
    let size = size_of_int(n);
    lemma_magnitude_bound(size, width, bias);
    if size > 0 {
        let e = highest_bit(size);
        if width == 52 {
            assert((e + bias + 1) * pow2(52) <= 1087 * pow2(52)) by (nonlinear_arith)
                requires
                    e < 64,
                    bias == 1023,
                    pow2(52) > 0,
            ;
        } else {
            assert((e + bias + 1) * pow2(23) <= 191 * pow2(23)) by (nonlinear_arith)
                requires
                    e < 64,
                    bias == 127,
                    pow2(23) > 0,
            ;
        }
    }
}

/// Finds the double-precision number next to a whole number.
pub fn int_to_float8(n: i64) -> (r: u64)
    ensures
        r == float8_of_int(n),
{
    let m: u128 = find_magnitude(find_size(n), 52, 1023);
    proof {
        lemma_int_fits(n, 52, 1023);
    }
    if n < 0 {
        m as u64 + 0x8000_0000_0000_0000
    } else {
        m as u64
    }
}

/// Finds the single-precision number next to a whole number.
pub fn int_to_float4(n: i64) -> (r: u32)
    ensures
        r == float4_of_int(n),
{
    let m: u128 = find_magnitude(find_size(n), 23, 127);
    proof {
        lemma_int_fits(n, 23, 127);
    }
    if n < 0 {
        m as u32 + 0x8000_0000
    } else {
        m as u32
    }
}

proof fn lemma_widened_fits(n: nat, bias: nat)
    requires
        n < 0x100_0000,
        0 < bias <= 1127,
    ensures
        magnitude(n, 52, bias) < 0x7ff0_0000_0000_0000,
{
    lemma2_to64();
    lemma2_to64_rest();
    lemma_magnitude_bound(n, 52, bias);
    if n > 0 {
        lemma_bit_bounds(n);
        let e = highest_bit(n);
        if e >= 24 {
            lemma_pow2_up_to(24, e);
        }
        assert((e + bias + 1) * pow2(52) <= 1152 * pow2(52)) by (nonlinear_arith)
            requires
                e < 24,
                bias <= 1127,
                pow2(52) > 0,
        ;
    }
}

/// Finds a single-precision number in double precision.
pub fn float4_to_float8(bits: u32) -> (r: u64)
    ensures
        r == float8_of_float4(bits),
{
    let sign: u64 = if bits >= 0x8000_0000 {
        0x8000_0000_0000_0000
    } else {
        0
    };
    let exponent: u32 = (bits % 0x8000_0000) / 0x80_0000;
    let digits: u32 = bits % 0x80_0000;
    if exponent == 255 {
        return if digits == 0 {
            sign + 0x7ff0_0000_0000_0000
        } else {
            sign + 0x7ff8_0000_0000_0000
        };
    }
    if exponent == 0 {
        proof {
            lemma_widened_fits(digits as nat, 874);
        }
        return sign + find_magnitude(digits as u128, 52, 874) as u64;
    }
    proof {
        lemma_widened_fits((0x80_0000 + digits) as nat, (873 + exponent) as nat);
    }
    sign + find_magnitude((0x80_0000 + digits) as u128, 52, 873 + exponent) as u64
}

} // verus!
