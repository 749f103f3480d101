//! Choosing a token by chance: which tokens are weighed, in which order, and which one a
//! draw falls on. Weights and sums come as bits of floating-point numbers.
use crate::sampling::{order_of_single, single_order, LEAST_TEMPERATURE};
use vstd::prelude::*;

verus! {

/// Why no token is chosen.
#[derive(Clone, Copy, Debug, PartialEq, Eq, Structural)]
pub enum ChoiceError {
    /// There are no logits.
    Empty,
}

/// How a token is chosen.
#[derive(Clone, Copy, Debug, PartialEq, Eq, Structural)]
pub enum ChoiceRule {
    /// The greatest logit.
    Greatest,
    /// By chance, with the logits as weights.
    Weighed,
}

/// How a token is chosen out of `len` logits at a temperature: by chance only where the
/// temperature is above the least.
pub open spec fn rule_of(len: int, temperature: u32) -> Result<ChoiceRule, ChoiceError> {
    if len == 0 {
        Err(ChoiceError::Empty)
    } else if (single_order(temperature) matches Some(k) && k <= LEAST_TEMPERATURE) {
        Ok(ChoiceRule::Greatest)
    } else {
        Ok(ChoiceRule::Weighed)
    }
}

/// How a token is chosen out of `len` logits at a temperature.
pub fn choice_rule(len: usize, temperature: u32) -> (r: Result<ChoiceRule, ChoiceError>)
    ensures
        r == rule_of(len as int, temperature),
{
    if len == 0 {
        return Err(ChoiceError::Empty);
    }
    match order_of_single(temperature) {
        Some(k) => {
            if k <= LEAST_TEMPERATURE as i64 {
                return Ok(ChoiceRule::Greatest);
            }
        },
        None => {},
    }
    Ok(ChoiceRule::Weighed)
}

/// The place of a single-precision number among all bit patterns: negative patterns first,
/// the larger ones before the smaller, then the positive ones.
pub open spec fn single_key(bits: u32) -> int {
    if bits >= 0x8000_0000 {
        0x8000_0000 - bits - 1
    } else {
        bits as int
    }
}

/// The place of a double-precision number among all bit patterns.
pub open spec fn double_key(bits: u64) -> int {
    if bits >= 0x8000_0000_0000_0000 {
        0x8000_0000_0000_0000 - bits - 1
    } else {
        bits as int
    }
}

/// Numbers are placed as they are ordered.
pub proof fn law_keys_follow_order(a: u32, b: u32)
    requires
        single_order(a) is Some,
        single_order(b) is Some,
    ensures
        single_order(a)->0 < single_order(b)->0 ==> single_key(a) < single_key(b),
{
}

/// The places of single-precision numbers.
pub fn single_keys(values: &[u32]) -> (r: Vec<i64>)
    ensures
        r@.len() == values@.len(),
        forall|i: int| 0 <= i < r@.len() ==> #[trigger] r@[i] == single_key(values@[i]),
{
    let mut keys: Vec<i64> = Vec::new();
    let mut i: usize = 0;
    while i < values.len()
        invariant
            i <= values@.len(),
            keys@.len() == i,
            forall|k: int| 0 <= k < i ==> #[trigger] keys@[k] == single_key(values@[k]),
        decreases values@.len() - i,
    {
        let bits: u32 = values[i];
        let key: i64 = if bits >= 0x8000_0000 {
            0x8000_0000 - bits as i64 - 1
        } else {
            bits as i64
        };
        keys.push(key);
        i = i + 1;
    }
    keys
}

/// The places of double-precision numbers.
pub fn double_keys(values: &[u64]) -> (r: Vec<i64>)
    ensures
        r@.len() == values@.len(),
        forall|i: int| 0 <= i < r@.len() ==> #[trigger] r@[i] == double_key(values@[i]),
{
    let mut keys: Vec<i64> = Vec::new();
    let mut i: usize = 0;
    while i < values.len()
        invariant
            i <= values@.len(),
            keys@.len() == i,
            forall|k: int| 0 <= k < i ==> #[trigger] keys@[k] == double_key(values@[k]),
        decreases values@.len() - i,
    {
        let bits: u64 = values[i];
        let key: i64 = if bits >= 0x8000_0000_0000_0000 {
            -((bits - 0x8000_0000_0000_0000) as i64) - 1
        } else {
            bits as i64
        };
        keys.push(key);
        i = i + 1;
    }
    keys
}

/// Whether place `a` comes before place `b`: it has the greater key, or the same key and
/// is the earlier place.
pub open spec fn comes_before(keys: Seq<i64>, a: usize, b: usize) -> bool {
    keys[a as int] > keys[b as int] || (keys[a as int] == keys[b as int] && a < b)
}

/// The greatest keys come first.
pub open spec fn in_order(keys: Seq<i64>, places: Seq<usize>) -> bool {
    forall|i: int, j: int|
        #![trigger places[i], places[j]]
        0 <= i < j < places.len() ==> comes_before(keys, places[i], places[j])
}

/// Whether `places` are the `n` places that come first, in order.
pub open spec fn are_first(keys: Seq<i64>, places: Seq<usize>, n: int) -> bool {
    &&& places.len() == n
    &&& in_order(keys, places)
    &&& forall|i: int| 0 <= i < places.len() ==> #[trigger] places[i] < keys.len()
    &&& forall|x: usize, i: int|
        #![trigger places.contains(x), places[i]]
        x < keys.len() && !places.contains(x) && 0 <= i < places.len() ==> comes_before(
            keys,
            places[i],
            x,
        )
}

/// Whether `places` are those from `lo` to `hi`, in order.
pub open spec fn ordered_run(keys: Seq<i64>, places: Seq<usize>, lo: int, hi: int) -> bool {
    &&& places.len() == hi - lo
    &&& in_order(keys, places)
    &&& forall|i: int| 0 <= i < places.len() ==> lo <= #[trigger] places[i] < hi
    &&& forall|x: usize| lo <= x < hi ==> #[trigger] places.contains(x)
}

fn merge_runs(
    keys: &[i64],
    a: &[usize],
    b: &[usize],
    lo: Ghost<int>,
    mid: Ghost<int>,
    hi: Ghost<int>,
) -> (r: Vec<usize>)
    requires
        0 <= lo@ <= mid@ <= hi@ <= keys@.len(),
        ordered_run(keys@, a@, lo@, mid@),
        ordered_run(keys@, b@, mid@, hi@),
    ensures
        ordered_run(keys@, r@, lo@, hi@),
{
    let mut out: Vec<usize> = Vec::new();
    let mut i: usize = 0;
    let mut j: usize = 0;
    while i < a.len() || j < b.len()
        invariant
            0 <= lo@ <= mid@ <= hi@ <= keys@.len(),
            ordered_run(keys@, a@, lo@, mid@),
            ordered_run(keys@, b@, mid@, hi@),
            i <= a@.len(),
            j <= b@.len(),
            out@.len() == i + j,
            in_order(keys@, out@),
            forall|k: int| 0 <= k < out@.len() ==> lo@ <= #[trigger] out@[k] < hi@,
            forall|k: int, m: int|
                #![trigger out@[k], a@[m]]
                0 <= k < out@.len() && i <= m < a@.len() ==> comes_before(keys@, out@[k], a@[m]),
            forall|k: int, m: int|
                #![trigger out@[k], b@[m]]
                0 <= k < out@.len() && j <= m < b@.len() ==> comes_before(keys@, out@[k], b@[m]),
            forall|m: int| 0 <= m < i ==> out@.contains(#[trigger] a@[m]),
            forall|m: int| 0 <= m < j ==> out@.contains(#[trigger] b@[m]),
        decreases a@.len() - i + b@.len() - j,
    {
        let take_a: bool = if i >= a.len() {
            false
        } else if j >= b.len() {
            true
        } else {
            let x: usize = a[i];
            let y: usize = b[j];
            keys[x] >= keys[y]
        };
        let ghost before = out@;
        if take_a {
            let x: usize = a[i];
            assert forall|m: int| j <= m < b@.len() implies comes_before(keys@, x, #[trigger] b@[m])
                by {
                if m > j {
                    assert(comes_before(keys@, b@[j as int], b@[m]));
                }
            }
            out.push(x);
            i = i + 1;
        } else {
            let y: usize = b[j];
            assert forall|m: int| i <= m < a@.len() implies comes_before(keys@, y, #[trigger] a@[m])
                by {
                if m > i {
                    assert(comes_before(keys@, a@[i as int], a@[m]));
                }
            }
            out.push(y);
            j = j + 1;
        }
        proof {
            let last = out@.len() - 1;
            assert(out@ =~= before.push(out@[last]));
            assert forall|x: usize| before.contains(x) implies out@.contains(x) by {
                let k = choose|k: int| 0 <= k < before.len() && before[k] == x;
                assert(out@[k] == x);
            }
        }
    }
    assert forall|x: usize| lo@ <= x < hi@ implies #[trigger] out@.contains(x) by {
        if x < mid@ {
            assert(a@.contains(x));
        } else {
            assert(b@.contains(x));
        }
    }
    out
}

fn order_run(keys: &[i64], lo: usize, hi: usize) -> (r: Vec<usize>)
    requires
        lo <= hi <= keys@.len(),
    ensures
        ordered_run(keys@, r@, lo as int, hi as int),
    decreases hi - lo,
{
    if hi - lo <= 1 {
        let mut out: Vec<usize> = Vec::new();
        if lo < hi {
            out.push(lo);
            assert(out@[0] == lo);
        }
        return out;
    }
    let mid: usize = lo + (hi - lo) / 2;
    let a: Vec<usize> = order_run(keys, lo, mid);
    let b: Vec<usize> = order_run(keys, mid, hi);
    merge_runs(keys, a.as_slice(), b.as_slice(), Ghost(lo as int), Ghost(mid as int), Ghost(hi as int))
}

/// How many places are ranked: all, or `limit` where that is less and not 0.
pub open spec fn ranked_len(len: int, limit: int) -> int {
    if 0 < limit < len {
        limit
    } else {
        len
    }
}

/// The places with the greatest keys, the greatest first and equal ones as they stand: all,
/// or `limit` of them where that is less and not 0.
pub fn ranked(keys: &[i64], limit: usize) -> (r: Vec<usize>)
    ensures
        are_first(keys@, r@, ranked_len(keys@.len() as int, limit as int)),
{
    let mut places: Vec<usize> = order_run(keys, 0, keys.len());
    let ghost all = places@;
    if limit > 0 && limit < places.len() {
        places.truncate(limit);
        assert(places@ =~= all.subrange(0, limit as int));
    }
    proof {
        assert forall|x: usize, i: int|
            #![trigger places@.contains(x), places@[i]]
            x < keys@.len() && !places@.contains(x) && 0 <= i
                < places@.len() implies comes_before(keys@, places@[i], x) by {
            assert(all.contains(x));
            let k = choose|k: int| 0 <= k < all.len() && all[k] == x;
            if k < places@.len() {
                assert(places@[k] == x);
                assert(false);
            }
            assert(comes_before(keys@, all[i], all[k]));
        }
    }
    places
}

/// There is only one such ranking.
pub proof fn law_ranking_is_one(keys: Seq<i64>, a: Seq<usize>, b: Seq<usize>, n: int)
    requires
        are_first(keys, a, n),
        are_first(keys, b, n),
    ensures
        a == b,
{
    assert forall|i: int| 0 <= i < n implies a[i] == b[i] by {
        lemma_same_rank(keys, a, b, n, i);
    }
    assert(a =~= b);
}

/// As long as two rankings agree, they agree on the next place.
proof fn lemma_same_rank(keys: Seq<i64>, a: Seq<usize>, b: Seq<usize>, n: int, i: int)
    requires
        are_first(keys, a, n),
        are_first(keys, b, n),
        0 <= i < n,
    ensures
        a[i] == b[i],
    decreases i,
{
    assert forall|k: int| 0 <= k < i implies a[k] == b[k] by {
        lemma_same_rank(keys, a, b, n, k);
    }
    lemma_not_after(keys, a, b, n, i);
    lemma_not_after(keys, b, a, n, i);
}

/// The place at `i` of one ranking does not come before that of another which agrees with
/// it up to there.
proof fn lemma_not_after(keys: Seq<i64>, a: Seq<usize>, b: Seq<usize>, n: int, i: int)
    requires
        are_first(keys, a, n),
        are_first(keys, b, n),
        0 <= i < n,
        forall|k: int| 0 <= k < i ==> a[k] == b[k],
    ensures
        !comes_before(keys, a[i], b[i]),
{
    if comes_before(keys, a[i], b[i]) {
        if b.contains(a[i]) {
            let k = choose|k: int| 0 <= k < b.len() && b[k] == a[i];
            if k < i {
                assert(a[k] == a[i]);
                assert(comes_before(keys, a[k], a[i]));
            } else if k > i {
                assert(comes_before(keys, b[i], b[k]));
            }
        } else {
            assert(comes_before(keys, b[i], a[i]));
        }
    }
}

/// The order of a double-precision number among numbers; `None` where it is no number.
pub open spec fn double_order(bits: u64) -> Option<int> {
    let size = (if bits >= 0x8000_0000_0000_0000 {
        bits - 0x8000_0000_0000_0000
    } else {
        bits as int
    });
    if size > 0x7ff0_0000_0000_0000 {
        None
    } else if bits >= 0x8000_0000_0000_0000 {
        Some(-size)
    } else {
        Some(size)
    }
}

/// The order of a double-precision number.
pub fn order_of_double(bits: u64) -> (r: Option<i64>)
    ensures
        match r {
            Some(k) => double_order(bits) == Some(k as int),
            None => double_order(bits) is None,
        },
{
    let size: u64 = if bits >= 0x8000_0000_0000_0000 {
        bits - 0x8000_0000_0000_0000
    } else {
        bits
    };
    if size > 0x7ff0_0000_0000_0000 {
        None
    } else if bits >= 0x8000_0000_0000_0000 {
        Some(-(size as i64))
    } else {
        Some(size as i64)
    }
}

/// Whether a sum of weights can be drawn from: it is finite and above 0.
pub open spec fn drawable(sum: u64) -> bool {
    double_order(sum) matches Some(k) && 0 < k < 0x7ff0_0000_0000_0000
}

/// Whether a sum of weights can be drawn from.
pub fn can_draw(sum: u64) -> (r: bool)
    ensures
        r == drawable(sum),
{
    match order_of_double(sum) {
        Some(k) => 0 < k && k < 0x7ff0_0000_0000_0000,
        None => false,
    }
}

/// Whether `a` is a number that is not below the number `b`.
pub open spec fn at_least(a: u64, b: u64) -> bool {
    double_order(a) matches Some(x) && (double_order(b) matches Some(y) && x >= y)
}

fn is_at_least(a: u64, b: u64) -> (r: bool)
    ensures
        r == at_least(a, b),
{
    match (order_of_double(a), order_of_double(b)) {
        (Some(x), Some(y)) => x >= y,
        _ => false,
    }
}

/// Whether `n` tokens are kept where `sums` are their running shares: up to and with the
/// first share that is not below the bound; all where there is none.
pub open spec fn keeps(sums: Seq<u64>, bound: u64, n: int) -> bool {
    &&& 0 <= n <= sums.len()
    &&& forall|i: int| 0 <= i < n - 1 ==> !at_least(#[trigger] sums[i], bound)
    &&& n < sums.len() ==> n >= 1
    &&& n < sums.len() ==> at_least(sums[n - 1], bound)
}

/// How many of the ranked tokens are kept, out of their running shares.
pub fn nucleus_len(sums: &[u64], bound: u64) -> (r: usize)
    ensures
        keeps(sums@, bound, r as int),
{
    let mut i: usize = 0;
    while i < sums.len()
        invariant
            i <= sums@.len(),
            forall|k: int| 0 <= k < i ==> !at_least(#[trigger] sums@[k], bound),
        decreases sums@.len() - i,
    {
        if is_at_least(sums[i], bound) {
            return i + 1;
        }
        i = i + 1;
    }
    i
}

/// Whether nothing is left of a draw: a number that is not above 0.
pub open spec fn spent(left: u64) -> bool {
    double_order(left) matches Some(k) && k <= 0
}

/// Whether a draw falls on place `r`: the first after which nothing is left of it; on none
/// where something is always left.
pub open spec fn falls_on(left: Seq<u64>, r: Option<usize>) -> bool {
    match r {
        Some(n) => n < left.len() && spent(left[n as int]) && forall|i: int|
            0 <= i < n ==> !spent(#[trigger] left[i]),
        None => forall|i: int| 0 <= i < left.len() ==> !spent(#[trigger] left[i]),
    }
}

/// The token that a draw falls on: the first after whose weight nothing is left of the
/// draw. `left` is what is left after each weight.
pub fn drawn(left: &[u64]) -> (r: Option<usize>)
    ensures
        falls_on(left@, r),
{
    let mut i: usize = 0;
    while i < left.len()
        invariant
            i <= left@.len(),
            forall|k: int| 0 <= k < i ==> !spent(#[trigger] left@[k]),
        decreases left@.len() - i,
    {
        match order_of_double(left[i]) {
            Some(k) => {
                if k <= 0 {
                    return Some(i);
                }
            },
            None => {},
        }
        i = i + 1;
    }
    None
}

} // verus!
