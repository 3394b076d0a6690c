//! The size of a reduced image, as double-precision arithmetic gives it.

use vstd::prelude::*;

verus! {

/// Maximum dimension (width or height) for resized images.
pub const IMAGE_MAX_DIMENSION_PX: u32 = 1200;

/// `n / d`, rounded to the nearest integer, ties to the even one.
pub open spec fn round_even(n: nat, d: nat) -> nat {
    let q = n / d;
    let r = n % d;
    if 2 * r > d || (2 * r == d && q % 2 == 1) {
        q + 1
    } else {
        q
    }
}

/// The first of `n`, `2n`, `4n`, ... that is at least 2^52 times `d`.
pub open spec fn scale_up(n: nat, d: nat) -> nat
    decreases 2 * (0x10_0000_0000_0000 * d) - n,
{
    if n == 0 || n >= 0x10_0000_0000_0000 * d {
        n
    } else {
        scale_up(2 * n, d)
    }
}

/// The first of `g`, `2g`, `4g`, ... of which `p` holds less than 2^53.
pub open spec fn grain(p: nat, g: nat) -> nat
    decreases 2 * p - g * 0x20_0000_0000_0000,
{
    if g == 0 || p < g * 0x20_0000_0000_0000 {
        g
    } else {
        grain(p, 2 * g)
    }
}

/// `p` rounded to 53 significant bits.
pub open spec fn round_53(p: nat) -> nat {
    round_even(p, grain(p, 1)) * grain(p, 1)
}

/// The whole part of `side` times (the maximum divided by `longest`), where the
/// quotient and the product are each rounded to 53 significant bits.
pub open spec fn scaled(side: nat, longest: nat) -> nat {
    let n = scale_up(IMAGE_MAX_DIMENSION_PX as nat, longest);
    round_53(side * round_even(n, longest)) / (n / IMAGE_MAX_DIMENSION_PX as nat)
}

fn nearest(n: u128, d: u128) -> (r: u128)
    requires
        0 < d,
        n < u128::MAX,
        d < 0x1_0000_0000_0000_0000_0000_0000,
    ensures
        r == round_even(n as nat, d as nat),
        r <= n + 1,
{
    let q: u128 = n / d;
    let rem: u128 = n % d;
    assert(q <= n) by (nonlinear_arith)
        requires
            q == n / d,
            0 < d,
    ;
    if 2 * rem > d || (2 * rem == d && q % 2 == 1) {
        q + 1
    } else {
        q
    }
}

proof fn lemma_scale_up(n: nat, d: nat)
    requires
        0 < n < 0x10_0000_0000_0000 * d,
    ensures
        0x10_0000_0000_0000 * d <= scale_up(n, d) < 2 * (0x10_0000_0000_0000 * d),
    decreases 2 * (0x10_0000_0000_0000 * d) - n,
{
    if 2 * n < 0x10_0000_0000_0000 * d {
        lemma_scale_up(2 * n, d);
    } else {
        assert(scale_up(2 * n, d) == 2 * n);
    }
}

proof fn lemma_scale_up_multiple(n: nat, d: nat, k: nat, u: nat)
    requires
        n == k * u,
        0 < k,
    ensures
        exists|v: nat| scale_up(n, d) == #[trigger] (k * v),
    decreases 2 * (0x10_0000_0000_0000 * d) - n,
{
    if n == 0 || n >= 0x10_0000_0000_0000 * d {
        assert(scale_up(n, d) == k * u);
    } else {
        assert(2 * n == k * (2 * u)) by (nonlinear_arith)
            requires
                n == k * u,
        ;
        lemma_scale_up_multiple(2 * n, d, k, 2 * u);
    }
}

proof fn lemma_grain(p: nat, g: nat)
    requires
        0 < g,
        g == 1 || 2 * p >= g * 0x20_0000_0000_0000,
    ensures
        ({
            let r = grain(p, g);
            &&& 0 < r
            &&& p < r * 0x20_0000_0000_0000
            &&& r == 1 || 2 * p >= r * 0x20_0000_0000_0000
        }),
    decreases 2 * p - g * 0x20_0000_0000_0000,
{
    if p >= g * 0x20_0000_0000_0000 {
        lemma_grain(p, 2 * g);
    }
}

proof fn lemma_round_even(n: nat, d: nat)
    requires
        0 < d,
    ensures
        round_even(n, d) * d <= n + d,
{
    let q = n / d;
    assert(q * d <= n) by (nonlinear_arith)
        requires
            q == n / d,
            0 < d,
    ;
    assert((q + 1) * d == q * d + d) by (nonlinear_arith);
}

/// No side of a reduced image exceeds the maximum.
pub proof fn law_scaled_within_maximum(side: nat, longest: nat)
    requires
        side <= longest,
        IMAGE_MAX_DIMENSION_PX < longest,
    ensures
        scaled(side, longest) <= IMAGE_MAX_DIMENSION_PX,
{
    let n = scale_up(1200, longest);
    lemma_scale_up(1200, longest);
    lemma_scale_up_multiple(1200, longest, 1200, 1);
    let v = choose|v: nat| n == #[trigger] (1200 * v);
    let unit = n / 1200;
    assert(unit == v);
    let q = round_even(n, longest);
    lemma_round_even(n, longest);
    let p = side * q;
    assert(p <= longest * q) by (nonlinear_arith)
        requires
            p == side * q,
            side <= longest,
    ;
    assert(longest * q == q * longest) by (nonlinear_arith);
    assert(p <= n + longest);
    lemma_grain(p, 1);
    let g = grain(p, 1);
    lemma_round_even(p, g);
    let rounded = round_53(p);
    assert(rounded <= p + g);
    // The grain and the rounding of the quotient are tiny against one unit.
    assert(n >= 0x10_0000_0000_0000 * longest);
    assert(longest * 0x10_0000_0000_0000 <= n);
    assert(g * 0x10_0000_0000_0000 <= n + longest || g == 1);
    assert(rounded < 1201 * unit);
    assert(rounded / unit <= 1200) by (nonlinear_arith)
        requires
            rounded < 1201 * unit,
            unit > 0,
    ;
}

/// The length of one side of an image whose longest side is reduced to the maximum.
pub fn scaled_side(side: u32, longest: u32) -> (r: u32)
    requires
        side <= longest,
        IMAGE_MAX_DIMENSION_PX < longest,
    ensures
        r == scaled(side as nat, longest as nat),
        r <= IMAGE_MAX_DIMENSION_PX,
{
    let d: u128 = longest as u128;
    let bound: u128 = 0x10_0000_0000_0000 * d;
    let mut n: u128 = 1200;
    while n < bound
        invariant
            0 < n < 2 * bound,
            d == longest,
            bound == 0x10_0000_0000_0000 * d,
            d <= 0xffff_ffff,
            scale_up(1200, longest as nat) == scale_up(n as nat, longest as nat),
        decreases 2 * bound - n,
    {
        n = 2 * n;
    }
    let q: u128 = nearest(n, d);
    let ghost total = longest as nat * q as nat;
    proof {
        lemma_round_even(n as nat, longest as nat);
        assert(total == q as nat * longest as nat) by (nonlinear_arith)
            requires
                total == longest as nat * q as nat,
        ;
        assert(side as nat * q as nat <= total) by (nonlinear_arith)
            requires
                side <= longest,
                total == longest as nat * q as nat,
        ;
        law_scaled_within_maximum(side as nat, longest as nat);
        lemma_scale_up(1200, longest as nat);
    }
    let p: u128 = (side as u128) * q;
    let mut g: u128 = 1;
    while p >= g * 0x20_0000_0000_0000
        invariant
            0 < g,
            g == 1 || 2 * p >= g * 0x20_0000_0000_0000,
            p < 0x100_0000_0000_0000_0000_0000_0000,
            grain(p as nat, 1) == grain(p as nat, g as nat),
        decreases 2 * p - g * 0x20_0000_0000_0000,
    {
        g = 2 * g;
    }
    let m: u128 = nearest(p, g);
    proof {
        lemma_round_even(p as nat, g as nat);
    }
    let rounded: u128 = m * g;
    let unit: u128 = n / 1200;
    (rounded / unit) as u32
}

/// A side of a reduced image is what the exact proportion gives, to within one pixel.
pub proof fn law_scaling_keeps_proportions(side: nat, longest: nat)
    requires
        side <= longest,
        IMAGE_MAX_DIMENSION_PX < longest,
    ensures
        scaled(side, longest) * longest <= side * 1200 + longest,
        (scaled(side, longest) + 2) * longest > side * 1200,
{
    let n = scale_up(1200, longest);
    lemma_scale_up(1200, longest);
    lemma_scale_up_multiple(1200, longest, 1200, 1);
    let v = choose|v: nat| n == #[trigger] (1200 * v);
    let unit = n / 1200;
    assert(unit == v);
    let q = round_even(n, longest);
    lemma_round_even(n, longest);
    lemma_round_even_low(n, longest);
    let p = side * q;
    let total = longest * q;
    assert(p <= total) by (nonlinear_arith)
        requires
            p == side * q,
            total == longest * q,
            side <= longest,
    ;
    assert(total == q * longest) by (nonlinear_arith)
        requires
            total == longest * q,
    ;
    lemma_grain(p, 1);
    let g = grain(p, 1);
    lemma_round_even(p, g);
    lemma_round_even_low(p, g);
    let rounded = round_53(p);
    let r = rounded / unit;
    assert(rounded <= p + g && p <= rounded + g);
    assert(n >= 0x10_0000_0000_0000 * longest);
    assert(g * 0x10_0000_0000_0000 <= n + longest || g == 1);
    // The grain and one step of the quotient are small against one unit.
    assert(unit > 0);
    assert(g + longest <= unit);
    let pl = p * longest;
    let sn = side * n;
    let ql = q * longest;
    assert(pl == side * ql) by (nonlinear_arith)
        requires
            pl == p * longest,
            p == side * q,
            ql == q * longest,
    ;
    assert(side * ql <= sn + side * longest && sn <= side * ql + side * longest) by (nonlinear_arith)
        requires
            sn == side * n,
            ql <= n + longest,
            n <= ql + longest,
    ;
    let s12 = side * 1200;
    assert(sn == s12 * unit) by (nonlinear_arith)
        requires
            sn == side * n,
            s12 == side * 1200,
            n == 1200 * unit,
    ;
    let sl = side * longest;
    let ll = longest * longest;
    let gl = g * longest;
    let ul = unit * longest;
    assert(sl <= ll) by (nonlinear_arith)
        requires
            sl == side * longest,
            ll == longest * longest,
            side <= longest,
    ;
    assert(gl + ll <= ul) by (nonlinear_arith)
        requires
            gl == g * longest,
            ll == longest * longest,
            ul == unit * longest,
            g + longest <= unit,
    ;
    let rl = rounded * longest;
    assert(rl <= pl + gl && pl <= rl + gl) by (nonlinear_arith)
        requires
            rl == rounded * longest,
            pl == p * longest,
            gl == g * longest,
            rounded <= p + g,
            p <= rounded + g,
    ;
    // In units, the rounded product differs from the exact one by less than one side.
    assert(rl <= s12 * unit + ul && s12 * unit <= rl + ul);
    let ru = r * unit;
    assert(ru <= rounded < ru + unit) by (nonlinear_arith)
        requires
            r == rounded / unit,
            ru == r * unit,
            unit > 0,
    ;
    assert(r * longest <= s12 + longest) by (nonlinear_arith)
        requires
            ru == r * unit,
            ru <= rounded,
            rl == rounded * longest,
            rl <= s12 * unit + ul,
            ul == unit * longest,
            unit > 0,
    ;
    assert((r + 2) * longest > s12) by (nonlinear_arith)
        requires
            ru == r * unit,
            rounded < ru + unit,
            rl == rounded * longest,
            s12 * unit <= rl + ul,
            ul == unit * longest,
            unit > 0,
            longest > 0,
    ;
}

proof fn lemma_round_even_low(n: nat, d: nat)
    requires
        0 < d,
    ensures
        n <= round_even(n, d) * d + d,
{
    let q = n / d;
    assert(n <= q * d + d) by (nonlinear_arith)
        requires
            q == n / d,
            0 < d,
    ;
    assert((q + 1) * d == q * d + d) by (nonlinear_arith);
}

} // verus!
