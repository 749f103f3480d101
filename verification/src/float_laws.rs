//! Floating-point numbers by their bits stand for the numbers of the format.
use crate::choice::{
    are_first, at_least, double_key, double_order, drawable, falls_on, keeps, ranked_len, rule_of,
    single_key, spent, ChoiceError, ChoiceRule,
};
use crate::sampling::{
    first_greatest, half_least, half_order, half_orders, single_least, single_order, single_orders,
    temperature_of, top_p_of, SINGLE_ONE,
};
use vstd::prelude::*;

verus! {

/// Two to the power of `n`.
pub open spec fn two_to(n: int) -> int
    decreases n,
{
    if n <= 0 {
        1
    } else {
        2 * two_to(n - 1)
    }
}

/// The size of a number whose bits without the sign are `bits`, in units of the least one of
/// the format: the fraction of `unit` steps and its leading one, doubled by each step of the
/// exponent. The least exponent has no leading one.
pub open spec fn size_of(bits: int, unit: int) -> int {
    let exponent = bits / unit;
    let fraction = bits % unit;
    if exponent == 0 {
        fraction
    } else {
        (unit + fraction) * two_to(exponent - 1)
    }
}

/// The number that half-precision bits stand for, in units of the least one: a sign, 5 bits of
/// exponent, 10 of fraction. `None` where it is no number; infinity is the size after the
/// greatest.
pub open spec fn half_value(bits: u16) -> Option<int> {
    let size = bits as int % 0x8000;
    if size > 0x1f * 0x400 {
        None
    } else if bits < 0x8000 {
        Some(size_of(size, 0x400))
    } else {
        Some(-size_of(size, 0x400))
    }
}

/// The number that single-precision bits stand for: a sign, 8 bits of exponent, 23 of
/// fraction.
pub open spec fn single_value(bits: u32) -> Option<int> {
    let size = bits as int % 0x8000_0000;
    if size > 0xff * 0x80_0000 {
        None
    } else if bits < 0x8000_0000 {
        Some(size_of(size, 0x80_0000))
    } else {
        Some(-size_of(size, 0x80_0000))
    }
}

/// The number that double-precision bits stand for: a sign, 11 bits of exponent, 52 of
/// fraction.
pub open spec fn double_value(bits: u64) -> Option<int> {
    let size = bits as int % 0x8000_0000_0000_0000;
    if size > 0x7ff * 0x10_0000_0000_0000 {
        None
    } else if bits < 0x8000_0000_0000_0000 {
        Some(size_of(size, 0x10_0000_0000_0000))
    } else {
        Some(-size_of(size, 0x10_0000_0000_0000))
    }
}

proof fn lemma_two_to(n: int)
    ensures
        two_to(n) >= 1,
    decreases n,
{
    if n > 0 {
        lemma_two_to(n - 1);
    }
}

proof fn lemma_next_size(bits: int, unit: int)
    requires
        0 <= bits,
        1 <= unit,
    ensures
        0 <= size_of(bits, unit) < size_of(bits + 1, unit),
{
    let e = bits / unit;
    let f = bits % unit;
    assert(bits == e * unit + f && 0 <= f < unit && 0 <= e) by (nonlinear_arith)
        requires
            e == bits / unit,
            f == bits % unit,
            unit >= 1,
            bits >= 0,
    ;
    lemma_two_to(e - 1);
    lemma_two_to(e);
    let t = two_to(e - 1);
    if f + 1 < unit {
        assert((bits + 1) / unit == e && (bits + 1) % unit == f + 1) by (nonlinear_arith)
            requires
                bits + 1 == e * unit + (f + 1),
                0 <= f + 1 < unit,
        ;
        assert((unit + f) * t < (unit + f + 1) * t && 0 <= (unit + f) * t) by (nonlinear_arith)
            requires
                t >= 1,
                unit >= 1,
                f >= 0,
        ;
    } else {
        assert((bits + 1) / unit == e + 1 && (bits + 1) % unit == 0) by (nonlinear_arith)
            requires
                bits == e * unit + f,
                f + 1 == unit,
                unit >= 1,
        ;
        if e > 0 {
            assert(two_to(e) == 2 * t);
            assert((unit + f) * t < unit * (2 * t) && 0 <= (unit + f) * t) by (nonlinear_arith)
                requires
                    t >= 1,
                    0 <= f < unit,
            ;
        } else {
            assert(two_to(0) == 1);
            assert((unit + 0) * 1 == unit);
        }
    }
}

proof fn lemma_sizes_grow(a: int, b: int, unit: int)
    requires
        0 <= a <= b,
        1 <= unit,
    ensures
        0 <= size_of(a, unit) <= size_of(b, unit),
        a < b ==> size_of(a, unit) < size_of(b, unit),
    decreases b - a,
{
    lemma_next_size(a, unit);
    if a < b {
        lemma_sizes_grow(a + 1, b, unit);
    }
}

/// Half-precision numbers are ordered as the numbers that they stand for.
pub proof fn law_half_order(a: u16, b: u16)
    ensures
        half_order(a) is Some <==> half_value(a) is Some,
        half_value(a) is Some && half_value(b) is Some ==> (half_order(a)->0 < half_order(b)->0
            <==> half_value(a)->0 < half_value(b)->0) && (half_order(a)->0 == half_order(b)->0 <==>
            half_value(a)->0 == half_value(b)->0),
{
    let (x, y) = (a as int % 0x8000, b as int % 0x8000);
    lemma_ordered(x, y, 0x400);
}

/// Single-precision numbers are ordered as the numbers that they stand for.
pub proof fn law_single_order(a: u32, b: u32)
    ensures
        single_order(a) is Some <==> single_value(a) is Some,
        single_value(a) is Some && single_value(b) is Some ==> (single_order(a)->0 < single_order(
            b,
        )->0 <==> single_value(a)->0 < single_value(b)->0) && (single_order(a)->0 == single_order(
            b,
        )->0 <==> single_value(a)->0 == single_value(b)->0),
{
    let (x, y) = (a as int % 0x8000_0000, b as int % 0x8000_0000);
    lemma_ordered(x, y, 0x80_0000);
}

/// Double-precision numbers are ordered as the numbers that they stand for.
pub proof fn law_double_order(a: u64, b: u64)
    ensures
        double_order(a) is Some <==> double_value(a) is Some,
        double_value(a) is Some && double_value(b) is Some ==> (double_order(a)->0 < double_order(
            b,
        )->0 <==> double_value(a)->0 < double_value(b)->0) && (double_order(a)->0 == double_order(
            b,
        )->0 <==> double_value(a)->0 == double_value(b)->0),
{
    let (x, y) = (a as int % 0x8000_0000_0000_0000, b as int % 0x8000_0000_0000_0000);
    lemma_ordered(x, y, 0x10_0000_0000_0000);
}

proof fn lemma_ordered(x: int, y: int, unit: int)
    requires
        0 <= x,
        0 <= y,
        1 <= unit,
    ensures
        x < y <==> size_of(x, unit) < size_of(y, unit),
        x == y <==> size_of(x, unit) == size_of(y, unit),
        0 <= size_of(x, unit),
        0 <= size_of(y, unit),
        0 < x <==> 0 < size_of(x, unit),
        0 < y <==> 0 < size_of(y, unit),
{
    lemma_sizes_grow(0, x, unit);
    lemma_sizes_grow(0, y, unit);
    assert(size_of(0, unit) == 0) by {
        assert(0int / unit == 0 && 0int % unit == 0) by (nonlinear_arith)
            requires
                unit >= 1,
        ;
    }
    if x <= y {
        lemma_sizes_grow(x, y, unit);
    } else {
        lemma_sizes_grow(y, x, unit);
    }
}

/// The first greatest of half-precision numbers is no less than any of them, and greater than
/// all before it, where some number is above negative infinity.
pub proof fn law_argmax_f16_is_greatest(values: Seq<u16>, r: int, i: int)
    requires
        first_greatest(half_orders(values), half_least(), r),
        0 <= i < values.len(),
        half_value(values[i]) is Some,
        half_value(values[i])->0 > half_value(0xfc00)->0,
    ensures
        0 <= r < values.len(),
        half_value(values[r]) is Some,
        half_value(values[i])->0 <= half_value(values[r])->0,
        i < r ==> half_value(values[i])->0 < half_value(values[r])->0,
{
    let orders = half_orders(values);
    law_half_order(values[i], 0xfc00);
    assert(orders[i] == half_order(values[i]));
    assert(crate::sampling::candidate(orders, half_least(), i));
    assert(crate::sampling::candidate(orders, half_least(), r));
    assert(orders[r] == half_order(values[r]));
    law_half_order(values[r], values[i]);
    law_half_order(values[i], values[r]);
}

/// The first greatest of single-precision numbers is no less than any of them, and greater
/// than all before it, where some number is above negative infinity.
pub proof fn law_argmax_f32_is_greatest(values: Seq<u32>, r: int, i: int)
    requires
        first_greatest(single_orders(values), single_least(), r),
        0 <= i < values.len(),
        single_value(values[i]) is Some,
        single_value(values[i])->0 > single_value(0xff80_0000)->0,
    ensures
        0 <= r < values.len(),
        single_value(values[r]) is Some,
        single_value(values[i])->0 <= single_value(values[r])->0,
        i < r ==> single_value(values[i])->0 < single_value(values[r])->0,
{
    let orders = single_orders(values);
    law_single_order(values[i], 0xff80_0000);
    assert(orders[i] == single_order(values[i]));
    assert(crate::sampling::candidate(orders, single_least(), i));
    assert(crate::sampling::candidate(orders, single_least(), r));
    assert(orders[r] == single_order(values[r]));
    law_single_order(values[r], values[i]);
    law_single_order(values[i], values[r]);
}

/// A temperature is what was asked for where that is above the least, which is 0.00001, else
/// the least; 1.0 where nothing was asked for.
pub proof fn law_temperature(bits: u32)
    ensures
        single_value(temperature_of(None)) == single_value(0x3f80_0000),
        single_value(bits) matches Some(x) && x > single_value(0x3727_c5ac)->0
            ==> temperature_of(Some(bits)) == bits,
        !(single_value(bits) matches Some(x) && x > single_value(0x3727_c5ac)->0)
            ==> temperature_of(Some(bits)) == 0x3727_c5ac,
{
    law_single_order(0x3727_c5ac, bits);
    law_single_order(bits, 0x3727_c5ac);
}

/// A bound on probabilities is what was asked for where that is between 0.0 and 1.0, and else
/// the nearer of the two; 1.0 where nothing was asked for.
pub proof fn law_top_p(bits: u32)
    requires
        single_value(bits) is Some,
    ensures
        single_value(top_p_of(None)) == single_value(0x3f80_0000),
        ({
            let (x, zero, one) = (
                single_value(bits)->0,
                single_value(0)->0,
                single_value(0x3f80_0000)->0,
            );
            let y = single_value(top_p_of(Some(bits)))->0;
            &&& x < zero ==> y == zero
            &&& x > one ==> y == one
            &&& zero <= x <= one ==> y == x
        }),
{
    law_single_order(bits, 0);
    law_single_order(0, bits);
    law_single_order(SINGLE_ONE, bits);
    law_single_order(bits, SINGLE_ONE);
}

/// Numbers are ranked as they are ordered, and no two bit patterns share a place.
pub proof fn law_keys_rank_numbers(a: u32, b: u32, c: u64, d: u64)
    ensures
        single_value(a) is Some && single_value(b) is Some && single_value(a)->0 < single_value(
            b,
        )->0 ==> single_key(a) < single_key(b),
        single_key(a) == single_key(b) ==> a == b,
        double_value(c) is Some && double_value(d) is Some && double_value(c)->0 < double_value(
            d,
        )->0 ==> double_key(c) < double_key(d),
        double_key(c) == double_key(d) ==> c == d,
{
    law_single_order(a, b);
    law_single_order(b, a);
    law_double_order(c, d);
    law_double_order(d, c);
}

/// Sums and shares are compared as numbers: a draw needs a sum above zero that is not infinite,
/// a share reaches a bound that it is not below, and a draw is spent where nothing is left.
pub proof fn law_shares_are_numbers(a: u64, b: u64)
    ensures
        drawable(a) <==> double_value(a) is Some && 0 < double_value(a)->0 < double_value(
            0x7ff0_0000_0000_0000,
        )->0,
        at_least(a, b) <==> double_value(a) is Some && double_value(b) is Some && double_value(a)->0
            >= double_value(b)->0,
        spent(a) <==> double_value(a) is Some && double_value(a)->0 <= 0,
{
    law_double_order(a, b);
    law_double_order(b, a);
    law_double_order(a, 0x7ff0_0000_0000_0000);
    law_double_order(0x7ff0_0000_0000_0000, a);
    law_double_order(a, 0);
    law_double_order(0, a);
    assert(double_value(0) == Some(0int));
}

/// A token is chosen by chance exactly where the temperature is not at or below the least: the
/// greatest logit is taken at every temperature that a setting was moved up to.
pub proof fn law_choice_follows_temperature(len: int, temperature: u32)
    requires
        len >= 1,
    ensures
        rule_of(0, temperature) == Err::<ChoiceRule, ChoiceError>(ChoiceError::Empty),
        rule_of(len, temperature) == Ok::<ChoiceRule, ChoiceError>(ChoiceRule::Greatest) <==> (
        single_value(temperature) is Some && single_value(temperature)->0 <= single_value(
            0x3727_c5ac,
        )->0),
        rule_of(len, temperature) is Ok,
        single_value(temperature) is Some && single_value(temperature)->0 <= single_value(
            0x3727_c5ac,
        )->0 ==> rule_of(len, temperature_of(Some(temperature))) == Ok::<ChoiceRule, ChoiceError>(
            ChoiceRule::Greatest,
        ),
{
    law_single_order(0x3727_c5ac, temperature);
    law_single_order(temperature, 0x3727_c5ac);
}

/// Logits are ranked by their values, the greatest first and equal ones as they stand; what is
/// left out is no greater than what is kept, and no more than `limit` are kept unless it is 0.
pub proof fn law_logits_are_ranked(
    logits: Seq<u32>,
    keys: Seq<i64>,
    places: Seq<usize>,
    limit: int,
    i: int,
    j: int,
    out: usize,
)
    requires
        keys.len() == logits.len(),
        forall|k: int| 0 <= k < keys.len() ==> #[trigger] keys[k] == single_key(logits[k]),
        are_first(keys, places, ranked_len(logits.len() as int, limit)),
        forall|k: int| 0 <= k < logits.len() ==> single_value(#[trigger] logits[k]) is Some,
        0 <= j < places.len(),
        limit >= 0,
    ensures
        limit == 0 ==> places.len() == logits.len(),
        limit > 0 ==> places.len() <= limit && (places.len() == limit || places.len()
            == logits.len()),
        places[j] < logits.len(),
        0 <= i < j ==> single_value(logits[places[i] as int])->0 >= single_value(
            logits[places[j] as int],
        )->0,
        0 <= i < j && logits[places[i] as int] == logits[places[j] as int] ==> places[i]
            < places[j],
        out < logits.len() && !places.contains(out) ==> single_value(
            logits[places[j] as int],
        )->0 >= single_value(logits[out as int])->0,
{
    let b = places[j];
    assert(b < keys.len());
    assert(keys[b as int] == single_key(logits[b as int]));
    if 0 <= i < j {
        let a = places[i];
        assert(a < keys.len());
        assert(crate::choice::comes_before(keys, a, b));
        assert(keys[a as int] == single_key(logits[a as int]));
        law_keys_rank_numbers(logits[a as int], logits[b as int], 0, 0);
        law_keys_rank_numbers(logits[b as int], logits[a as int], 0, 0);
    }
    if out < logits.len() && !places.contains(out) {
        assert(crate::choice::comes_before(keys, b, out));
        assert(keys[out as int] == single_key(logits[out as int]));
        law_keys_rank_numbers(logits[b as int], logits[out as int], 0, 0);
        law_keys_rank_numbers(logits[out as int], logits[b as int], 0, 0);
    }
}

/// The tokens that are kept are the fewest whose share reaches the bound, or all where no share
/// does: with the last of them the bound is reached, without it it is not.
pub proof fn law_fewest_tokens_are_kept(sums: Seq<u64>, bound: u64, n: int, i: int)
    requires
        keeps(sums, bound, n),
        double_value(bound) is Some,
        forall|k: int| 0 <= k < sums.len() ==> double_value(#[trigger] sums[k]) is Some,
        0 <= i < sums.len(),
    ensures
        1 <= n <= sums.len(),
        i < n - 1 ==> double_value(sums[i])->0 < double_value(bound)->0,
        double_value(sums[i])->0 >= double_value(bound)->0 ==> n <= i + 1,
        n < sums.len() ==> double_value(sums[n - 1])->0 >= double_value(bound)->0,
{
    law_shares_are_numbers(sums[i], bound);
    assert(double_value(sums[i]) is Some);
    if n < sums.len() {
        law_shares_are_numbers(sums[n - 1], bound);
    }
    if n == 0 {
        assert(sums.len() == 0);
    }
}

/// A draw falls on the first token after which it is not above zero, and on that one only.
pub proof fn law_draw_falls_on_one(left: Seq<u64>, r: Option<usize>, i: int)
    requires
        falls_on(left, r),
        0 <= i < left.len(),
        double_value(left[i]) is Some,
    ensures
        double_value(left[i])->0 <= 0 ==> r is Some && r->0 <= i,
        r matches Some(n) ==> n < left.len() && double_value(left[n as int]) is Some
            && double_value(left[n as int])->0 <= 0,
        r matches Some(n) ==> (i < n ==> double_value(left[i])->0 > 0),
{
    law_shares_are_numbers(left[i], 0);
    if let Some(n) = r {
        law_shares_are_numbers(left[n as int], 0);
    }
}

} // verus!
