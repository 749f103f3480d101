//! Floating-point numbers by their bits: their order, bounds on settings, and the
//! greatest logit.
use vstd::prelude::*;

verus! {

/// The order of a half-precision number among numbers; `None` where it is no number.
/// Numbers of one sign are ordered as their bits without the sign; the two zeros are
/// the same.
pub open spec fn half_order(bits: u16) -> Option<int> {
    let size = (if bits >= 0x8000 {
        bits - 0x8000
    } else {
        bits as int
    });
    if size > 0x7c00 {
        None
    } else if bits >= 0x8000 {
        Some(-size)
    } else {
        Some(size)
    }
}

/// The order of a single-precision number among numbers; `None` where it is no number.
pub open spec fn single_order(bits: u32) -> Option<int> {
    let size = (if bits >= 0x8000_0000 {
        bits - 0x8000_0000
    } else {
        bits as int
    });
    if size > 0x7f80_0000 {
        None
    } else if bits >= 0x8000_0000 {
        Some(-size)
    } else {
        Some(size)
    }
}

/// The order of a half-precision number.
pub fn order_of_half(bits: u16) -> (r: Option<i64>)
    ensures
        match r {
            Some(k) => half_order(bits) == Some(k as int),
            None => half_order(bits) is None,
        },
{
    let size: u16 = if bits >= 0x8000 {
        bits - 0x8000
    } else {
        bits
    };
    if size > 0x7c00 {
        None
    } else if bits >= 0x8000 {
        Some(-(size as i64))
    } else {
        Some(size as i64)
    }
}

/// The order of a single-precision number.
pub fn order_of_single(bits: u32) -> (r: Option<i64>)
    ensures
        match r {
            Some(k) => single_order(bits) == Some(k as int),
            None => single_order(bits) is None,
        },
{
    let size: u32 = if bits >= 0x8000_0000 {
        bits - 0x8000_0000
    } else {
        bits
    };
    if size > 0x7f80_0000 {
        None
    } else if bits >= 0x8000_0000 {
        Some(-(size as i64))
    } else {
        Some(size as i64)
    }
}

/// Bits of 1.0 in single precision.
pub const SINGLE_ONE: u32 = 0x3f80_0000;

/// Bits of 0.00001 in single precision: the least temperature.
pub const LEAST_TEMPERATURE: u32 = 0x3727_c5ac;

/// A temperature by its bits, at least the least: 1.0 where there is none.
pub open spec fn temperature_of(bits: Option<u32>) -> u32 {
    match bits {
        None => SINGLE_ONE,
        Some(b) => match single_order(b) {
            Some(k) => if k > LEAST_TEMPERATURE {
                b
            } else {
                LEAST_TEMPERATURE
            },
            None => LEAST_TEMPERATURE,
        },
    }
}

/// A temperature by its bits, at least the least.
pub fn temperature_or_default(bits: Option<u32>) -> (r: u32)
    ensures
        r == temperature_of(bits),
{
    match bits {
        None => SINGLE_ONE,
        Some(b) => match order_of_single(b) {
            Some(k) => if k > LEAST_TEMPERATURE as i64 {
                b
            } else {
                LEAST_TEMPERATURE
            },
            None => LEAST_TEMPERATURE,
        },
    }
}

/// A probability bound by its bits, moved between 0.0 and 1.0: 1.0 where there is none.
/// What is no number stays what it is.
pub open spec fn top_p_of(bits: Option<u32>) -> u32 {
    match bits {
        None => SINGLE_ONE,
        Some(b) => match single_order(b) {
            Some(k) => if k < 0 {
                0
            } else if k > SINGLE_ONE {
                SINGLE_ONE
            } else {
                b
            },
            None => b,
        },
    }
}

/// A probability bound by its bits, moved between 0.0 and 1.0.
pub fn top_p_or_default(bits: Option<u32>) -> (r: u32)
    ensures
        r == top_p_of(bits),
{
    match bits {
        None => SINGLE_ONE,
        Some(b) => match order_of_single(b) {
            Some(k) => if k < 0 {
                0
            } else if k > SINGLE_ONE as i64 {
                SINGLE_ONE
            } else {
                b
            },
            None => b,
        },
    }
}

/// The order of negative infinity in single precision.
pub open spec fn single_least() -> int {
    -0x7f80_0000
}

/// The order of negative infinity in half precision.
pub open spec fn half_least() -> int {
    -0x7c00
}

/// Whether place `i` holds a number above the least.
pub open spec fn candidate(orders: Seq<Option<int>>, least: int, i: int) -> bool {
    0 <= i < orders.len() && (orders[i] matches Some(k) && k > least)
}

/// Whether `r` is the first place of the greatest number above the least; 0 where there is
/// no such number.
pub open spec fn first_greatest(orders: Seq<Option<int>>, least: int, r: int) -> bool {
    if exists|i: int| candidate(orders, least, i) {
        &&& candidate(orders, least, r)
        &&& forall|i: int|
            #[trigger] candidate(orders, least, i) ==> orders[i]->0 <= orders[r]->0
        &&& forall|i: int|
            i < r && #[trigger] candidate(orders, least, i) ==> orders[i]->0 < orders[r]->0
    } else {
        r == 0
    }
}

/// There is only one such place.
pub proof fn law_first_greatest_is_one(orders: Seq<Option<int>>, least: int, a: int, b: int)
    requires
        first_greatest(orders, least, a),
        first_greatest(orders, least, b),
    ensures
        a == b,
{
    if exists|i: int| candidate(orders, least, i) {
        assert(candidate(orders, least, a) && candidate(orders, least, b));
    }
}

/// The orders of half-precision numbers.
pub open spec fn half_orders(values: Seq<u16>) -> Seq<Option<int>> {
    values.map_values(|b: u16| half_order(b))
}

/// The orders of single-precision numbers.
pub open spec fn single_orders(values: Seq<u32>) -> Seq<Option<int>> {
    values.map_values(|b: u32| single_order(b))
}

/// The first place of the greatest half-precision number.
pub fn argmax_f16(values: &[u16]) -> (r: usize)
    ensures
        first_greatest(half_orders(values@), half_least(), r as int),
{
    let ghost orders = half_orders(values@);
    let mut best: usize = 0;
    let mut best_order: i64 = -0x7c00;
    let mut found: bool = false;
    let mut i: usize = 0;
    while i < values.len()
        invariant
            i <= values.len(),
            orders == half_orders(values@),
            orders.len() == values@.len(),
            best_order >= half_least(),
            !found ==> best == 0 && best_order == half_least(),
            !found ==> forall|k: int| 0 <= k < i ==> !candidate(orders, half_least(), k),
            found ==> best < i && candidate(orders, half_least(), best as int)
                && orders[best as int] == Some(best_order as int),
            found ==> forall|k: int|
                0 <= k < i && #[trigger] candidate(orders, half_least(), k) ==> orders[k]->0
                    <= best_order && (k < best ==> orders[k]->0 < best_order),
        decreases values.len() - i,
    {
        assert(orders[i as int] == half_order(values@[i as int]));
        match order_of_half(values[i]) {
            Some(k) => {
                if k > best_order {
                    best_order = k;
                    best = i;
                    found = true;
                }
            },
            None => {},
        }
        i = i + 1;
    }
    proof {
        if !found {
            assert forall|k: int| !candidate(orders, half_least(), k) by {}
        }
    }
    best
}

/// The first place of the greatest single-precision number.
pub fn argmax_f32(values: &[u32]) -> (r: usize)
    ensures
        first_greatest(single_orders(values@), single_least(), r as int),
{
    let ghost orders = single_orders(values@);
    let mut best: usize = 0;
    let mut best_order: i64 = -0x7f80_0000;
    let mut found: bool = false;
    let mut i: usize = 0;
    while i < values.len()
        invariant
            i <= values.len(),
            orders == single_orders(values@),
            orders.len() == values@.len(),
            best_order >= single_least(),
            !found ==> best == 0 && best_order == single_least(),
            !found ==> forall|k: int| 0 <= k < i ==> !candidate(orders, single_least(), k),
            found ==> best < i && candidate(orders, single_least(), best as int)
                && orders[best as int] == Some(best_order as int),
            found ==> forall|k: int|
                0 <= k < i && #[trigger] candidate(orders, single_least(), k) ==> orders[k]->0
                    <= best_order && (k < best ==> orders[k]->0 < best_order),
        decreases values.len() - i,
    {
        assert(orders[i as int] == single_order(values@[i as int]));
        match order_of_single(values[i]) {
            Some(k) => {
                if k > best_order {
                    best_order = k;
                    best = i;
                    found = true;
                }
            },
            None => {},
        }
        i = i + 1;
    }
    proof {
        if !found {
            assert forall|k: int| !candidate(orders, single_least(), k) by {}
        }
    }
    best
}

/// Whether block `i` reports a number above the least at a place inside the logits.
pub open spec fn block_counts(maxes: Seq<u32>, places: Seq<u32>, len: int, i: int) -> bool {
    0 <= i < maxes.len() && places[i] < len && (single_order(maxes[i]) matches Some(k) && k
        > single_least())
}

/// Whether `r` is the least place that a block reports with the greatest number; 0 where no
/// block counts.
pub open spec fn least_of_greatest(maxes: Seq<u32>, places: Seq<u32>, len: int, r: int) -> bool {
    if exists|i: int| block_counts(maxes, places, len, i) {
        exists|b: int|
            #![trigger block_counts(maxes, places, len, b)]
            block_counts(maxes, places, len, b) && places[b] == r && (forall|i: int|
                #[trigger] block_counts(maxes, places, len, i) ==> single_order(maxes[i])->0
                    <= single_order(maxes[b])->0 && (single_order(maxes[i]) == single_order(
                    maxes[b],
                ) ==> r <= places[i]))
    } else {
        r == 0
    }
}

/// Why the greatest logit cannot be found.
#[derive(Clone, Copy, Debug, PartialEq, Eq, Structural)]
pub enum ArgmaxError {
    /// The logits are not one row.
    Rank { rank: usize },
    /// There are no logits.
    Empty,
}

/// Whether logits of this shape have a greatest, and how many they are.
pub open spec fn logits_len(shape: Seq<usize>) -> Result<usize, ArgmaxError> {
    if shape.len() != 1 {
        Err(ArgmaxError::Rank { rank: shape.len() as usize })
    } else if shape[0] == 0 {
        Err(ArgmaxError::Empty)
    } else {
        Ok(shape[0])
    }
}

/// How many logits there are.
pub fn argmax_len(shape: &[usize]) -> (r: Result<usize, ArgmaxError>)
    ensures
        r == logits_len(shape@),
{
    if shape.len() != 1 {
        return Err(ArgmaxError::Rank { rank: shape.len() });
    }
    if shape[0] == 0 {
        return Err(ArgmaxError::Empty);
    }
    Ok(shape[0])
}

/// The place of the greatest logit, out of the greatest number and its place in each
/// block: the least place where several blocks have the greatest number.
pub fn argmax_of_blocks(maxes: &[u32], places: &[u32], len: usize) -> (r: usize)
    requires
        maxes@.len() == places@.len(),
    ensures
        least_of_greatest(maxes@, places@, len as int, r as int),
{
    let mut best: usize = 0;
    let mut best_order: i64 = -0x7f80_0000;
    let mut i: usize = 0;
    let ghost mut at: int = -1;
    while i < maxes.len()
        invariant
            i <= maxes.len(),
            maxes@.len() == places@.len(),
            best_order >= single_least(),
            at == -1 || 0 <= at < i,
            at == -1 ==> best == 0 && best_order == single_least() && forall|k: int|
                0 <= k < i ==> !block_counts(maxes@, places@, len as int, k),
            at >= 0 ==> block_counts(maxes@, places@, len as int, at) && places@[at] == best
                && single_order(maxes@[at]) == Some(best_order as int) && forall|k: int|
                0 <= k < i && #[trigger] block_counts(maxes@, places@, len as int, k)
                    ==> single_order(maxes@[k])->0 <= best_order && (single_order(maxes@[k])
                    == Some(best_order as int) ==> best <= places@[k]),
        decreases maxes.len() - i,
    {
        let place: u32 = places[i];
        if (place as u64) < (len as u64) {
            match order_of_single(maxes[i]) {
                Some(k) => {
                    if k > best_order || (k == best_order && (place as usize) < best) {
                        best_order = k;
                        best = place as usize;
                        proof {
                            at = i as int;
                        }
                    }
                },
                None => {},
            }
        }
        i = i + 1;
    }
    proof {
        if at == -1 {
            assert forall|k: int| !block_counts(maxes@, places@, len as int, k) by {}
        } else {
            assert(block_counts(maxes@, places@, len as int, at));
        }
    }
    best
}

/// Block `i` of `block` places reports the first place of its greatest number, and that
/// number; a block without one reports no number above the least.
pub open spec fn reports(
    orders: Seq<Option<int>>,
    block: int,
    maxes: Seq<u32>,
    places: Seq<u32>,
    i: int,
) -> bool {
    let (from, to) = (i * block, (i + 1) * block);
    if exists|k: int| from <= k < to && candidate(orders, single_least(), k) {
        &&& from <= places[i] < to
        &&& candidate(orders, single_least(), places[i] as int)
        &&& single_order(maxes[i]) == orders[places[i] as int]
        &&& forall|k: int|
            from <= k < to && #[trigger] candidate(orders, single_least(), k) ==> orders[k]->0
                <= orders[places[i] as int]->0 && (k < places[i] ==> orders[k]->0
                < orders[places[i] as int]->0)
    } else {
        !(single_order(maxes[i]) matches Some(k) && k > single_least())
    }
}

/// The block of a number reports one that is no smaller, and no later where it is equal.
proof fn lemma_block_reports(
    orders: Seq<Option<int>>,
    block: int,
    maxes: Seq<u32>,
    places: Seq<u32>,
    k: int,
) -> (b: int)
    requires
        block > 0,
        maxes.len() == places.len(),
        orders.len() <= maxes.len() * block,
        forall|i: int|
            #![trigger maxes[i]]
            0 <= i < maxes.len() ==> reports(orders, block, maxes, places, i),
        candidate(orders, single_least(), k),
    ensures
        block_counts(maxes, places, orders.len() as int, b),
        single_order(maxes[b])->0 >= orders[k]->0,
        orders[k]->0 == single_order(maxes[b])->0 ==> places[b] <= k,
{
    let b = k / block;
    vstd::arithmetic::div_mod::lemma_fundamental_div_mod(k, block);
    vstd::arithmetic::div_mod::lemma_mod_bound(k, block);
    assert(b * block <= k < (b + 1) * block) by (nonlinear_arith)
        requires
            k == block * b + k % block,
            0 <= k % block < block,
            b == k / block,
    ;
    assert(0 <= b < maxes.len()) by (nonlinear_arith)
        requires
            b * block <= k,
            k < (b + 1) * block,
            0 <= k,
            k < maxes.len() * block,
            block > 0,
    ;
    let m = maxes[b];
    assert(reports(orders, block, maxes, places, b));
    b
}

/// What counts of a block is a number among all.
proof fn lemma_report_counts(
    orders: Seq<Option<int>>,
    block: int,
    maxes: Seq<u32>,
    places: Seq<u32>,
    b: int,
)
    requires
        reports(orders, block, maxes, places, b),
        block_counts(maxes, places, orders.len() as int, b),
    ensures
        candidate(orders, single_least(), places[b] as int),
        single_order(maxes[b]) == orders[places[b] as int],
{
}

/// The greatest logit out of blocks is the greatest of all logits: where every block
/// reports its own, the place found is the first place of the greatest.
pub proof fn law_blocks_find_greatest(
    orders: Seq<Option<int>>,
    block: int,
    maxes: Seq<u32>,
    places: Seq<u32>,
    r: int,
)
    requires
        block > 0,
        maxes.len() == places.len(),
        orders.len() <= maxes.len() * block,
        forall|i: int|
            #![trigger maxes[i]]
            0 <= i < maxes.len() ==> reports(orders, block, maxes, places, i),
        least_of_greatest(maxes, places, orders.len() as int, r),
    ensures
        first_greatest(orders, single_least(), r),
{
    let len = orders.len() as int;
    let least = single_least();
    if exists|i: int| candidate(orders, least, i) {
        let k0 = choose|i: int| candidate(orders, least, i);
        let b0 = lemma_block_reports(orders, block, maxes, places, k0);
        assert(block_counts(maxes, places, len, b0));
        let b = choose|b: int|
            #![trigger block_counts(maxes, places, len, b)]
            block_counts(maxes, places, len, b) && places[b] == r && (forall|i: int|
                #[trigger] block_counts(maxes, places, len, i) ==> single_order(maxes[i])->0
                    <= single_order(maxes[b])->0 && (single_order(maxes[i]) == single_order(
                    maxes[b],
                ) ==> r <= places[i]));
        let m = maxes[b];
        lemma_report_counts(orders, block, maxes, places, b);
        assert forall|k: int| #[trigger] candidate(orders, least, k) implies orders[k]->0
            <= orders[r]->0 && (k < r ==> orders[k]->0 < orders[r]->0) by {
            let c = lemma_block_reports(orders, block, maxes, places, k);
            assert(block_counts(maxes, places, len, c));
        }
    } else if exists|i: int| block_counts(maxes, places, len, i) {
        let b = choose|i: int| block_counts(maxes, places, len, i);
        let m = maxes[b];
        lemma_report_counts(orders, block, maxes, places, b);
        assert(candidate(orders, least, places[b] as int));
    }
}

} // verus!
