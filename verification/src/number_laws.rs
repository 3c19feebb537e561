//! How close the numbers in an icon are to what they stand for.

use vstd::arithmetic::power2::{lemma2_to64, lemma_pow2_pos, lemma_pow2_unfold, pow2};
use vstd::prelude::*;

use crate::icon_json::{Fill, Layer};
use crate::palette::{
    doubled, doublings, lacking, rounded_integer, rounded_quotient, single_quotient, spacing,
    with_fill, with_layer_fill, PaletteModel,
};

verus! {

/// A rounded quotient is the nearest number; of two that are equally near, the even
/// one.
pub proof fn rounded_quotients_are_nearest(a: nat, b: nat)
    requires
        b > 0,
    ensures
        ({
            let q = rounded_quotient(a, b);
            &&& -(b as int) <= 2 * (q * b - a) <= b
            &&& 2 * (q * b - a) == b || 2 * (a - q * b) == b ==> q % 2 == 0
        }),
{
    let q = (a / b) as int;
    let r = (a % b) as int;
    vstd::arithmetic::div_mod::lemma_fundamental_div_mod(a as int, b as int);
    assert(a == b * q + r);
    assert((q + 1) * b == q * b + b) by (nonlinear_arith);
    assert(q * b == b * q) by (nonlinear_arith);
}

/// An integer of up to 24 binary digits is kept.
pub proof fn small_integers_are_kept(n: nat)
    requires
        n < 0x100_0000,
    ensures
        rounded_integer(n) == n,
{
    assert(spacing(n) == 1);
    rounded_quotients_are_nearest(n, 1);
    assert(rounded_quotient(n, 1) * 1 == rounded_quotient(n, 1));
}

proof fn lemma_doubled(a: nat, b: nat)
    requires
        0 < a < b * 0x100_0000,
    ensures
        doubled(a, b) == a * pow2(doublings(a, b)),
        b * 0x80_0000 <= doubled(a, b) < b * 0x100_0000,
    decreases lacking(a, b),
{
    if a >= b * 0x80_0000 {
        lemma2_to64();
        assert(pow2(0) == 1);
        assert(a * 1 == a);
    } else {
        lemma_doubled(2 * a, b);
        let k = doublings(2 * a, b);
        lemma_pow2_unfold(k + 1);
        assert((2 * a) * pow2(k) == a * (2 * pow2(k))) by (nonlinear_arith);
    }
}

/// The position of a stop between the ends of a gradient is the nearest number of single
/// precision: with the fraction `m` and the exponent that goes with `k` doublings, the
/// fraction is off by at most a half.
pub proof fn positions_are_nearest(i: nat, n: nat) -> (parts: (nat, nat))
    requires
        0 < i <= n < 0x100_0000,
    ensures
        ({
            let (m, k) = parts;
            &&& single_quotient(i, n) == (149 - k) * 0x80_0000 + m
            &&& k <= 47
            &&& 0x80_0000 <= m <= 0x100_0000
            &&& -(n as int) <= 2 * (m * n - i * pow2(k)) <= n
        }),
{
    small_integers_are_kept(i);
    small_integers_are_kept(n);
    lemma_doubled(i, n);
    let d = doubled(i, n);
    let k = doublings(i, n);
    let m = rounded_quotient(d, n);
    rounded_quotients_are_nearest(d, n);
    lemma2_to64();
    lemma_few_doublings(i, n, 0);
    assert(m >= 0x80_0000) by (nonlinear_arith)
        requires
            n > 0,
            -(n as int) <= 2 * (m * n - d),
            d >= n * 0x80_0000,
            m >= 0,
    ;
    assert(m <= 0x100_0000) by (nonlinear_arith)
        requires
            n > 0,
            2 * (m * n - d) <= n,
            d < n * 0x100_0000,
    ;
    (m, k)
}

proof fn lemma_few_doublings(a: nat, b: nat, j: nat)
    requires
        0 < a,
        b < 0x100_0000,
        j <= 47,
        a >= pow2(j),
    ensures
        doublings(a, b) + j <= 47,
    decreases 47 - j,
{
    lemma2_to64();
    if a < b * 0x80_0000 {
        lemma_pow2_unfold(j + 1);
        if j == 47 {
            vstd::arithmetic::power2::lemma_pow2_adds(24, 23);
            assert(pow2(47) == 0x100_0000 * 0x80_0000);
            assert(b * 0x80_0000 <= 0x100_0000 * 0x80_0000);
        } else {
            lemma_few_doublings(2 * a, b, j + 1);
        }
    }
}

/// The first stop is at the start and the last at the end.
pub proof fn ends_are_exact(n: nat)
    requires
        0 < n < 0x100_0000,
    ensures
        single_quotient(0, n) == 0,
        single_quotient(n, n) == 0x3f80_0000,
{
    small_integers_are_kept(n);
    lemma2_to64();
    lemma_whole(n, 0);
    assert(n * 1 == n);
    vstd::arithmetic::div_mod::lemma_div_multiples_vanish(0x80_0000, n as int);
    vstd::arithmetic::div_mod::lemma_mod_multiples_basic(0x80_0000, n as int);
    assert(n * 0x80_0000 == 0x80_0000 * n);
    assert(rounded_quotient(n * 0x80_0000, n) == 0x80_0000);
}

proof fn lemma_whole(n: nat, j: nat)
    requires
        n > 0,
        j <= 23,
    ensures
        doublings(n * pow2(j), n) == 23 - j,
        doubled(n * pow2(j), n) == n * 0x80_0000,
    decreases 23 - j,
{
    lemma2_to64();
    lemma_pow2_pos(j);
    assert(n * pow2(j) > 0) by (nonlinear_arith)
        requires
            n > 0,
            pow2(j) > 0,
    ;
    if j < 23 {
        lemma_whole(n, j + 1);
        lemma_pow2_unfold(j + 1);
        vstd::arithmetic::power2::lemma_pow2_strictly_increases(j, 23);
        assert(n * pow2(j) < n * 0x80_0000) by (nonlinear_arith)
            requires
                n > 0,
                pow2(j) < 0x80_0000,
        ;
        assert(2 * (n * pow2(j)) == n * (2 * pow2(j))) by (nonlinear_arith);
    }
}

/// A layer without a fill adds nothing to the palette, one with a keyword neither; a
/// structured fill adds its colors.
pub proof fn layers_add_their_fills<C: Fn(&str) -> Option<u64>>(
    component: C,
    p: PaletteModel,
    layer: Layer,
    prefix: Seq<char>,
    floor: int,
)
    requires
        layer.fill_specializations is None,
    ensures
        layer.fill is None ==> with_layer_fill(component, p, layer, prefix, floor) == p,
        layer.fill matches Some(Fill::Structured(value)) ==> with_layer_fill(
            component,
            p,
            layer,
            prefix,
            floor,
        ) == with_fill(component, p, value, None, prefix, floor),
{
}

} // verus!
