//! The height of an image that is scaled to a new width.
//!
//! The ratio of the widths and its product with the height are single-precision numbers: each
//! is the exact value rounded to a significand of 24 bits, to the nearest one, and to the even
//! one where two are equally near. All sides are below 2^16, so no value is so large or so
//! small that anything else would come into it.
use vstd::arithmetic::power2::*;
use vstd::prelude::*;

verus! {

/// The least significand of 24 bits, 2^23.
pub const LEAST_SIGNIFICAND: u64 = 8388608;

/// The largest side of a JPEG image.
pub const MAX_SIDE: u32 = 65535;

/// The integer nearest to `a / b`, and the even one where two are equally near.
pub open spec fn nearest(a: nat, b: nat) -> nat {
    let q = a / b;
    let r = a % b;
    if 2 * r < b || (2 * r == b && q % 2 == 0) {
        q
    } else {
        q + 1
    }
}

/// The least power of two that lifts `a / b` to a significand of 24 bits.
pub open spec fn lift(a: nat, b: nat) -> nat
    decreases
            (if a < LEAST_SIGNIFICAND * b {
                LEAST_SIGNIFICAND * b - a
            } else {
                0
            }),
{
    if a == 0 || a >= LEAST_SIGNIFICAND * b {
        1
    } else {
        2 * lift(2 * a, b)
    }
}

/// The significand of the single-precision quotient `a / b`: the quotient is this number over
/// `lift(a, b)`.
pub open spec fn ratio_significand(a: nat, b: nat) -> nat {
    nearest(a * lift(a, b), b)
}

/// The weight of the last of the 24 leading bits of `p`.
pub open spec fn unit(p: nat) -> nat
    decreases p,
{
    if p < 2 * LEAST_SIGNIFICAND {
        1
    } else {
        2 * unit(p / 2)
    }
}

/// `p` rounded to its 24 leading bits.
pub open spec fn rounded(p: nat) -> nat {
    nearest(p, unit(p)) * unit(p)
}

/// The height that goes with `new_width` for an image of `width` by `height`: the integer part
/// of the single-precision product of the height and the ratio of the widths, or the largest
/// side where the product is beyond it.
pub open spec fn height_at(width: nat, height: nat, new_width: nat) -> nat {
    let product = rounded(height * ratio_significand(new_width, width)) / lift(new_width, width);
    if product > MAX_SIDE {
        MAX_SIDE as nat
    } else {
        product
    }
}

/// Computes `nearest`.
fn round_quotient(a: u64, b: u64) -> (n: u64)
    requires
        0 < b < 0x1_0000_0000,
        a < 0x1_0000_0000_0000,
    ensures
        n == nearest(a as nat, b as nat),
{
    let q: u64 = a / b;
    let r: u64 = a % b;
    if 2 * r < b || (2 * r == b && q % 2 == 0) {
        q
    } else {
        q + 1
    }
}

/// The height that goes with `new_width` for an image of `width` by `height`.
pub fn scaled_height(width: u32, height: u32, new_width: u16) -> (new_height: u16)
    requires
        0 < width <= MAX_SIDE,
        height <= MAX_SIDE,
    ensures
        new_height == height_at(width as nat, height as nat, new_width as nat),
{
    let b: u64 = width as u64;
    let target: u64 = LEAST_SIGNIFICAND * b;
    let mut a: u64 = new_width as u64;
    let mut lifted: u64 = 1;
    while a != 0 && a < target
        invariant
            b == width,
            0 < b <= MAX_SIDE,
            target == LEAST_SIGNIFICAND * b,
            a < 2 * target,
            a == new_width * lifted,
            lifted > 0,
            lift(new_width as nat, b as nat) == lifted * lift(a as nat, b as nat),
            a == 0 ==> lifted == 1,
        decreases
                (if a < target {
                    target - a
                } else {
                    0
                }),
    {
        assert(lifted <= a) by (nonlinear_arith)
            requires
                a == new_width * lifted,
                a > 0,
        ;
        assert(lifted * (2 * lift((2 * a) as nat, b as nat)) == (2 * lifted) * lift(
            (2 * a) as nat,
            b as nat,
        )) by (nonlinear_arith);
        assert(2 * (new_width * lifted) == new_width * (2 * lifted)) by (nonlinear_arith);
        a = 2 * a;
        lifted = 2 * lifted;
    }
    assert(lifted * lift(a as nat, b as nat) == lifted) by (nonlinear_arith)
        requires
            lift(a as nat, b as nat) == 1,
    ;
    let significand: u64 = round_quotient(a, b);
    assert(a / b < 2 * LEAST_SIGNIFICAND) by (nonlinear_arith)
        requires
            a < 2 * (LEAST_SIGNIFICAND * b),
            b > 0,
    ;
    assert(height * significand <= 65535 * 16777216) by (nonlinear_arith)
        requires
            height <= 65535,
            significand <= 16777216,
    ;
    let product: u64 = height as u64 * significand;
    let mut leading: u64 = product;
    let mut weight: u64 = 1;
    while leading >= 2 * LEAST_SIGNIFICAND
        invariant
            product <= 65535 * 16777216,
            0 < weight,
            leading * weight <= product,
            weight == 1 || LEAST_SIGNIFICAND * weight <= product,
            unit(product as nat) == weight * unit(leading as nat),
        decreases leading,
    {
        assert(weight * 16777216 <= product) by (nonlinear_arith)
            requires
                leading * weight <= product,
                leading >= 16777216,
        ;
        assert((leading / 2) * (2 * weight) <= leading * weight) by (nonlinear_arith);
        assert(8388608 * (2 * weight) <= (leading / 2) * (2 * weight)) by (nonlinear_arith)
            requires
                leading / 2 >= 8388608,
        ;
        assert(weight * (2 * unit((leading / 2) as nat)) == (2 * weight) * unit(
            (leading / 2) as nat,
        )) by (nonlinear_arith);
        leading = leading / 2;
        weight = 2 * weight;
    }
    assert(weight * unit(leading as nat) == weight) by (nonlinear_arith)
        requires
            unit(leading as nat) == 1,
    ;
    let count: u64 = round_quotient(product, weight);
    assert(count * weight <= product + weight) by (nonlinear_arith)
        requires
            count <= product / weight + 1,
            weight > 0,
    ;
    let value: u64 = count * weight / lifted;
    if value > MAX_SIDE as u64 {
        MAX_SIDE as u16
    } else {
        value as u16
    }
}

/// What `lift` does: it takes the quotient to 2^23 or beyond, and below 2^24.
proof fn lemma_lift(a: nat, b: nat)
    requires
        0 < a < 2 * (LEAST_SIGNIFICAND * b),
    ensures
        lift(a, b) >= 1,
        LEAST_SIGNIFICAND * b <= a * lift(a, b) < 2 * (LEAST_SIGNIFICAND * b),
    decreases
            (if a < LEAST_SIGNIFICAND * b {
                LEAST_SIGNIFICAND * b - a
            } else {
                0
            }),
{
    if a < LEAST_SIGNIFICAND * b {
        lemma_lift(2 * a, b);
        assert((2 * a) * lift(2 * a, b) == a * (2 * lift(2 * a, b))) by (nonlinear_arith);
    } else {
        assert(a * 1 == a);
    }
}

/// What `unit` does: it leaves 24 bits before it, and no fewer if it is more than one.
proof fn lemma_unit(p: nat)
    ensures
        unit(p) >= 1,
        p < 2 * (LEAST_SIGNIFICAND * unit(p)),
        unit(p) == 1 || LEAST_SIGNIFICAND * unit(p) <= p,
    decreases p,
{
    if p >= 2 * LEAST_SIGNIFICAND {
        lemma_unit(p / 2);
    }
}

/// The nearest integer is at most one half away.
proof fn lemma_nearest(a: nat, b: nat)
    requires
        b > 0,
    ensures
        2 * a - b <= 2 * (nearest(a, b) * b) <= 2 * a + b,
        a % b == 0 ==> nearest(a, b) * b == a,
{
    let q = a / b;
    let r = a % b;
    assert(a == q * b + r && 0 <= r < b) by (nonlinear_arith)
        requires
            q == a / b,
            r == a % b,
            b > 0,
    ;
    assert((q + 1) * b == q * b + b) by (nonlinear_arith);
}

/// The ratio of two widths is exactly one if, and only if, the widths are the same.
pub proof fn law_ratio_is_one_for_equal_widths(width: nat, new_width: nat)
    requires
        0 < width <= MAX_SIDE,
        new_width <= MAX_SIDE,
    ensures
        ratio_significand(new_width, width) == lift(new_width, width) <==> new_width == width,
{
    let a = new_width;
    let b = width;
    if a > 0 {
        lemma_lift(a, b);
        let up = lift(a, b);
        let m = ratio_significand(a, b);
        lemma_nearest(a * up, b);
        if a == b {
            assert((a * up) % a == 0 && (a * up) / a == up) by (nonlinear_arith)
                requires
                    a > 0,
            ;
        } else {
            assert(up > b) by (nonlinear_arith)
                requires
                    8388608 * b <= a * up,
                    a <= 65535,
                    b > 0,
            ;
            if m == up {
                assert(m * b == up * b);
                if a > b {
                    assert(a * up >= up * b + up) by (nonlinear_arith)
                        requires
                            a >= b + 1,
                    ;
                } else {
                    assert(a * up + up <= up * b) by (nonlinear_arith)
                        requires
                            a + 1 <= b,
                    ;
                }
            }
        }
    } else {
        assert(0 * lift(0, b) == 0);
        assert(0nat / b == 0 && 0nat % b == 0) by (nonlinear_arith)
            requires
                b > 0,
        ;
    }
}

/// The ratio `2^e` is lifted by the rest of the way to 2^23.
proof fn lemma_lift_power(b: nat, e: nat)
    requires
        b > 0,
        e <= 23,
    ensures
        lift(b * pow2(e), b) == pow2((23 - e) as nat),
    decreases 23 - e,
{
    lemma2_to64();
    lemma_pow2_pos(e);
    assert(b * pow2(e) > 0) by (nonlinear_arith)
        requires
            b > 0,
            pow2(e) > 0,
    ;
    if e < 23 {
        lemma_pow2_strictly_increases(e, 23);
        assert(b * pow2(e) < 8388608 * b) by (nonlinear_arith)
            requires
                b > 0,
                pow2(e) < 8388608,
        ;
        lemma_pow2_unfold(e + 1);
        assert(2 * (b * pow2(e)) == b * pow2(e + 1)) by (nonlinear_arith)
            requires
                pow2(e + 1) == 2 * pow2(e),
        ;
        lemma_lift_power(b, e + 1);
        lemma_pow2_unfold((23 - e) as nat);
    } else {
        assert(b * 8388608 == 8388608 * b);
    }
}

/// The unit of a multiple of a power of two divides that power, where the factor has no more
/// than 24 bits. Gives the quotient.
proof fn lemma_unit_divides(q: nat, e: nat) -> (c: nat)
    requires
        q < 2 * LEAST_SIGNIFICAND,
    ensures
        c * unit(q * pow2(e)) == pow2(e),
    decreases e,
{
    let p = q * pow2(e);
    if p < 2 * LEAST_SIGNIFICAND {
        assert(pow2(e) * unit(p) == pow2(e)) by (nonlinear_arith)
            requires
                unit(p) == 1,
        ;
        pow2(e)
    } else {
        lemma2_to64();
        assert(e > 0) by {
            assert(q * 1 == q);
        }
        lemma_pow2_unfold(e);
        let half = pow2((e - 1) as nat);
        assert(q * (2 * half) == 2 * (q * half)) by (nonlinear_arith);
        let c = lemma_unit_divides(q, (e - 1) as nat);
        assert(c * (2 * unit(q * half)) == 2 * (c * unit(q * half))) by (nonlinear_arith);
        c
    }
}

/// An image that is scaled to the width that it has keeps its height.
pub proof fn law_same_width_keeps_height(width: nat, height: nat)
    requires
        0 < width <= MAX_SIDE,
        height <= MAX_SIDE,
    ensures
        height_at(width, height, width) == height,
{
    lemma2_to64();
    law_ratio_is_one_for_equal_widths(width, width);
    lemma_lift_power(width, 0);
    let p = height * pow2(23);
    let u = unit(p);
    let c = lemma_unit_divides(height, 23);
    lemma_unit(p);
    assert(p % u == 0) by (nonlinear_arith)
        requires
            p == height * pow2(23),
            c * u == pow2(23),
            u > 0,
    {
        assert(p == (height * c) * u);
        vstd::arithmetic::div_mod::lemma_mod_multiples_basic((height * c) as int, u as int);
    }
    lemma_nearest(p, u);
    assert(width * pow2(0) == width);
    assert(p / 8388608 == height);
}

/// Scaling keeps the aspect ratio: wherever the exact height `height * new_width / width` is no
/// more than the largest side, the height is its integer part, but for an error of less than one
/// hundredth before the fraction is dropped.
pub proof fn law_aspect_ratio_is_kept(width: nat, height: nat, new_width: nat)
    requires
        0 < width <= MAX_SIDE,
        height <= MAX_SIDE,
        new_width <= MAX_SIDE,
        height * new_width <= MAX_SIDE * width,
    ensures
        100 * (height_at(width, height, new_width) * width) < 100 * (height * new_width) + width,
        100 * (height * new_width) < (100 * height_at(width, height, new_width) + 101) * width,
{
    let (a, b, h) = (new_width, width, height);
    let up = lift(a, b);
    let m = ratio_significand(a, b);
    let p = h * m;
    let u = unit(p);
    let r = rounded(p);
    lemma_nearest(a * up, b);
    lemma_unit(p);
    lemma_nearest(p, u);
    if a == 0 {
        assert(0 * up == 0);
        assert(0nat / b == 0 && 0nat % b == 0) by (nonlinear_arith)
            requires
                b > 0,
        ;
        assert(h * 0 == 0);
        assert(r == 0);
        assert(height_at(width, height, new_width) == 0);
        assert((100 * height_at(width, height, new_width) + 101) * b > 0) by (nonlinear_arith)
            requires
                b > 0,
        ;
        assert(h * a == 0);
    } else {
        lemma_lift(a, b);
        // The height is small against `up`.
        assert(128 * h <= up) by (nonlinear_arith)
            requires
                h * a <= 65535 * b,
                8388608 * b <= a * up,
                a > 0,
        ;
        // The product is off by less than half of `h`, once for each unit of the quotient.
        assert(2 * (h * a * up) - h * b <= 2 * (p * b) <= 2 * (h * a * up) + h * b)
            by (nonlinear_arith)
            requires
                2 * (a * up) - b <= 2 * (m * b) <= 2 * (a * up) + b,
                p == h * m,
        ;
        assert(h * a * up <= 65535 * b * up) by (nonlinear_arith)
            requires
                h * a <= 65535 * b,
        ;
        assert(p <= 65535 * up + h) by (nonlinear_arith)
            requires
                2 * (p * b) <= 2 * (65535 * b * up) + h * b,
                b > 0,
        ;
        assert(127 * u <= up || u == 1);
        assert(up >= 128) by (nonlinear_arith)
            requires
                8388608 * b <= a * up,
                a <= 65535,
                b > 0,
        ;
        assert(60 * (h + u) <= up);
        assert(2 * (r * b) <= 2 * (h * a * up) + (h + u) * b && 2 * (h * a * up) - (h + u) * b
            <= 2 * (r * b)) by (nonlinear_arith)
            requires
                2 * (h * a * up) - h * b <= 2 * (p * b) <= 2 * (h * a * up) + h * b,
                2 * p - u <= 2 * r <= 2 * p + u,
        ;
        assert(60 * ((h + u) * b) <= up * b) by (nonlinear_arith)
            requires
                60 * (h + u) <= up,
        ;
        assert(up * b > 0) by (nonlinear_arith)
            requires
                up > 0,
                b > 0,
        ;
        let v = r / up;
        assert(v * up <= r < v * up + up) by (nonlinear_arith)
            requires
                v == r / up,
                up > 0,
        ;
        assert(v * b * up <= r * b) by (nonlinear_arith)
            requires
                v * up <= r,
        ;
        assert(r * b < v * b * up + up * b) by (nonlinear_arith)
            requires
                r < v * up + up,
                b > 0,
        ;
        assert(100 * (v * b) < 100 * (h * a) + b) by (nonlinear_arith)
            requires
                100 * (v * b * up) < 100 * (h * a * up) + up * b,
                up > 0,
        ;
        assert(100 * (h * a) < (100 * v + 101) * b) by (nonlinear_arith)
            requires
                100 * (h * a * up) < 100 * (v * b * up) + 101 * (up * b),
                up > 0,
        ;
        assert(v < 65536) by (nonlinear_arith)
            requires
                100 * (v * b) < 100 * (h * a) + b,
                h * a <= 65535 * b,
                b > 0,
        ;
    }
}

/// `lift` is a power of two.
proof fn lemma_lift_is_a_power(a: nat, b: nat) -> (e: nat)
    requires
        0 < a < 2 * (LEAST_SIGNIFICAND * b),
    ensures
        lift(a, b) == pow2(e),
    decreases
            (if a < LEAST_SIGNIFICAND * b {
                LEAST_SIGNIFICAND * b - a
            } else {
                0
            }),
{
    lemma2_to64();
    if a < LEAST_SIGNIFICAND * b {
        let e = lemma_lift_is_a_power(2 * a, b);
        lemma_pow2_unfold(e + 1);
        e + 1
    } else {
        0
    }
}

/// `unit` is a power of two.
proof fn lemma_unit_is_a_power(p: nat) -> (e: nat)
    ensures
        unit(p) == pow2(e),
    decreases p,
{
    lemma2_to64();
    if p < 2 * LEAST_SIGNIFICAND {
        0
    } else {
        let e = lemma_unit_is_a_power(p / 2);
        lemma_pow2_unfold(e + 1);
        e + 1
    }
}

/// The ratio of two widths is a single-precision number, the nearest to the exact one: over a power
/// of two, its significand has 24 bits, is off by no more than one half, and is even where it is off
/// by that.
pub proof fn law_ratio_is_the_nearest(width: nat, new_width: nat)
    requires
        0 < width <= 65535,
        0 < new_width <= 65535,
    ensures
        ({
            let up = lift(new_width, width);
            let m = ratio_significand(new_width, width);
            &&& exists|e: nat| up == #[trigger] pow2(e)
            &&& 8388608 <= m <= 16777216
            &&& 8388608 * width <= new_width * up < 16777216 * width
            &&& -(width as int) <= 2 * (m * width) - 2 * (new_width * up) <= width
            &&& 2 * (m * width) - 2 * (new_width * up) == width || 2 * (new_width * up) - 2 * (m
                * width) == width ==> m % 2 == 0
        }),
{
    let (a, b) = (new_width, width);
    let up = lift(a, b);
    let m = ratio_significand(a, b);
    let e = lemma_lift_is_a_power(a, b);
    assert(up == pow2(e));
    lemma_lift(a, b);
    lemma_nearest(a * up, b);
    let n = a * up;
    let q = n / b;
    let r = n % b;
    assert(n == q * b + r && 0 <= r < b) by (nonlinear_arith)
        requires
            q == n / b,
            r == n % b,
            b > 0,
    ;
    assert(8388608 <= q < 16777216) by (nonlinear_arith)
        requires
            8388608 * b <= n < 2 * (8388608 * b),
            n == q * b + r,
            0 <= r < b,
    ;
    assert((q + 1) * b == q * b + b) by (nonlinear_arith);
}

/// A product is rounded to a single-precision number, the nearest: its unit is a power of two that
/// leaves 24 bits before it, and is one where the product has no more; it is a multiple of the unit,
/// off by no more than one half of it, and an even multiple where it is off by that.
pub proof fn law_product_is_the_nearest(p: nat)
    ensures
        ({
            let u = unit(p);
            let r = rounded(p);
            &&& exists|e: nat| u == #[trigger] pow2(e)
            &&& p < 16777216 * u
            &&& u == 1 || 8388608 * u <= p
            &&& exists|c: nat|
                r == #[trigger] (c * u) && (2 * r - 2 * p == u || 2 * p - 2 * r == u ==> c % 2 == 0)
            &&& -(u as int) <= 2 * r - 2 * p <= u
            &&& p < 16777216 ==> r == p
        }),
{
    let u = unit(p);
    let e = lemma_unit_is_a_power(p);
    assert(u == pow2(e));
    lemma_unit(p);
    lemma_nearest(p, u);
    let c = nearest(p, u);
    let q = p / u;
    let r = p % u;
    assert(p == q * u + r && 0 <= r < u) by (nonlinear_arith)
        requires
            q == p / u,
            r == p % u,
            u > 0,
    ;
    assert((q + 1) * u == q * u + u) by (nonlinear_arith);
    assert(rounded(p) == c * u);
    if p < 16777216 {
        assert(p / 1 == p && p % 1 == 0);
        assert(p * 1 == p);
    }
}

/// The height is the integer part of the rounded product of the old height and the ratio, but never
/// more than the largest side.
pub proof fn law_height_is_the_product(width: nat, height: nat, new_width: nat)
    ensures
        ({
            let exact = rounded(height * ratio_significand(new_width, width)) / lift(
                new_width,
                width,
            );
            height_at(width, height, new_width) == (if exact > 65535 {
                65535
            } else {
                exact
            })
        }),
{
}

/// A height that is far beyond the largest side is cut off there, and no height is beyond it.
pub proof fn law_height_is_cut_off(width: nat, height: nat, new_width: nat)
    requires
        0 < width <= 65535,
        height <= 65535,
        new_width <= 65535,
    ensures
        height_at(width, height, new_width) <= 65535,
        height * new_width >= 65540 * width ==> height_at(width, height, new_width) == 65535,
{
    let (a, b, h) = (new_width, width, height);
    if h * a >= 65540 * b {
        assert(a > 0) by (nonlinear_arith)
            requires
                h * a >= 65540 * b,
                b > 0,
        ;
        let up = lift(a, b);
        let m = ratio_significand(a, b);
        let p = h * m;
        let u = unit(p);
        let r = rounded(p);
        lemma_lift(a, b);
        law_ratio_is_the_nearest(b, a);
        law_product_is_the_nearest(p);
        // The ratio is off by no more than one part in 2^24.
        assert(16777217 * (m * b) >= 16777216 * (a * up)) by (nonlinear_arith)
            requires
                2 * (m * b) >= 2 * (a * up) - b,
                m >= 8388608,
                b > 0,
        ;
        assert(16777217 * (p * b) >= 16777216 * (h * a * up)) by (nonlinear_arith)
            requires
                16777217 * (m * b) >= 16777216 * (a * up),
                p == h * m,
        ;
        assert(h * a * up >= 65540 * b * up) by (nonlinear_arith)
            requires
                h * a >= 65540 * b,
        ;
        assert(16777217 * p >= 16777216 * (65540 * up)) by (nonlinear_arith)
            requires
                16777217 * (p * b) >= 16777216 * (65540 * b * up),
                b > 0,
        ;
        assert(p >= 65539 * up);
        assert(r >= 65537 * up);
        assert(r / up >= 65537) by (nonlinear_arith)
            requires
                r >= 65537 * up,
                up > 0,
        ;
    }
}

} // verus!
