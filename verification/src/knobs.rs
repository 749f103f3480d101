//! Tuning knobs: how the text of an environment variable is read, and sizes that follow
//! from other sizes.
use crate::text::{
    chars, is_text, is_text_any_case, lower_all, parse_usize, parse_usize_spec, trim, trim_spec,
};
use vstd::prelude::*;

verus! {

/// The text of a variable, where it is set.
pub open spec fn text_of(raw: Option<&str>) -> Option<Seq<char>> {
    match raw {
        Some(s) => Some(s@),
        None => None,
    }
}

/// A positive number, or the default.
pub open spec fn usize_or(raw: Option<Seq<char>>, default: usize) -> usize {
    match raw {
        Some(s) => match parse_usize_spec(s) {
            Some(v) => if v > 0 {
                v
            } else {
                default
            },
            None => default,
        },
        None => default,
    }
}

/// Every text but `0` is true.
pub open spec fn bool_or(raw: Option<Seq<char>>, default: bool) -> bool {
    match raw {
        Some(s) => s != "0"@,
        None => default,
    }
}

/// Whether a trimmed text says that a hint is to be left to the compiler.
pub open spec fn names_no_hint(s: Seq<char>) -> bool {
    lower_all(s) == lower_all("default"@) || lower_all(s) == lower_all("none"@) || lower_all(s)
        == lower_all("unset"@)
}

/// A positive number as a hint, no hint, or the default.
pub open spec fn usize_hint_or(raw: Option<Seq<char>>, default: usize) -> Option<usize> {
    match raw {
        None => Some(default),
        Some(s) => {
            let t = trim_spec(s);
            if names_no_hint(t) || t == "0"@ {
                None
            } else {
                Some(usize_or(Some(t), default))
            }
        },
    }
}

/// A flag as a hint, no hint, or the default.
pub open spec fn bool_hint_or(raw: Option<Seq<char>>, default: bool) -> Option<bool> {
    match raw {
        None => Some(default),
        Some(s) => {
            let t = trim_spec(s);
            if names_no_hint(t) {
                None
            } else {
                Some(t != "0"@)
            }
        },
    }
}

/// A positive number from a variable, or the default.
pub fn env_usize_or(raw: Option<&str>, default: usize) -> (r: usize)
    ensures
        r == usize_or(text_of(raw), default),
{
    match raw {
        Some(s) => {
            let c: Vec<char> = chars(s);
            match parse_usize(c.as_slice()) {
                Some(v) => if v > 0 {
                    v
                } else {
                    default
                },
                None => default,
            }
        },
        None => default,
    }
}

/// A flag from a variable, or the default.
pub fn env_bool_or(raw: Option<&str>, default: bool) -> (r: bool)
    ensures
        r == bool_or(text_of(raw), default),
{
    match raw {
        Some(s) => {
            let c: Vec<char> = chars(s);
            !is_text(c.as_slice(), "0")
        },
        None => default,
    }
}

fn says_no_hint(s: &[char]) -> (r: bool)
    ensures
        r == names_no_hint(s@),
{
    is_text_any_case(s, "default") || is_text_any_case(s, "none") || is_text_any_case(s, "unset")
}

/// A compile hint from a variable: a positive number, none, or the default.
pub fn env_usize_hint_or(raw: Option<&str>, default: usize) -> (r: Option<usize>)
    ensures
        r == usize_hint_or(text_of(raw), default),
{
    match raw {
        None => Some(default),
        Some(s) => {
            let c: Vec<char> = chars(s);
            let t: &[char] = trim(c.as_slice());
            if says_no_hint(t) || is_text(t, "0") {
                return None;
            }
            match parse_usize(t) {
                Some(v) => if v > 0 {
                    Some(v)
                } else {
                    Some(default)
                },
                None => Some(default),
            }
        },
    }
}

/// A compile hint from a variable: a flag, none, or the default.
pub fn env_bool_hint_or(raw: Option<&str>, default: bool) -> (r: Option<bool>)
    ensures
        r == bool_hint_or(text_of(raw), default),
{
    match raw {
        None => Some(default),
        Some(s) => {
            let c: Vec<char> = chars(s);
            let t: &[char] = trim(c.as_slice());
            if says_no_hint(t) {
                return None;
            }
            Some(!is_text(t, "0"))
        },
    }
}

/// 1, 2, 4, 8 and so on.
pub open spec fn is_power_of_two(n: nat) -> bool
    decreases n,
{
    n == 1 || (n > 1 && n % 2 == 0 && is_power_of_two(n / 2))
}

proof fn lemma_double(p: nat)
    requires
        is_power_of_two(p),
    ensures
        is_power_of_two(2 * p),
{
    assert((2 * p) / 2 == p);
}

proof fn lemma_power_positive(p: nat)
    requires
        is_power_of_two(p),
    ensures
        p >= 1,
{
}

/// Two powers of two within a factor of two of each other are the same.
pub proof fn law_power_of_two_between(p: nat, q: nat)
    requires
        is_power_of_two(p),
        is_power_of_two(q),
        p <= q < 2 * p,
    ensures
        p == q,
    decreases p,
{
    if p > 1 {
        if q == 1 {
        } else {
            assert(p / 2 <= q / 2 < 2 * (p / 2));
            law_power_of_two_between(p / 2, q / 2);
        }
    } else {
        assert(q == 1);
    }
}

/// Whether `n` is 1, 2, 4, 8 and so on.
pub fn power_of_two(n: usize) -> (r: bool)
    ensures
        r == is_power_of_two(n as nat),
    decreases n,
{
    if n == 1 {
        true
    } else if n > 1 && n % 2 == 0 {
        power_of_two(n / 2)
    } else {
        false
    }
}

/// The largest power of two that is not above `n`, and 1 for 0.
pub open spec fn floor_pow2(n: nat) -> nat
    decreases n,
{
    if n < 2 {
        1
    } else {
        2 * floor_pow2(n / 2)
    }
}

/// `floor_pow2` is a power of two, not above `n`, and twice as much is.
pub proof fn law_floor_pow2(n: nat)
    requires
        n >= 1,
    ensures
        is_power_of_two(floor_pow2(n)),
        floor_pow2(n) <= n < 2 * floor_pow2(n),
    decreases n,
{
    if n >= 2 {
        law_floor_pow2(n / 2);
        lemma_double(floor_pow2(n / 2));
    }
}

/// The largest power of two that is not above `n`, and 1 for 0.
pub fn floor_power_of_two_le(n: usize) -> (r: usize)
    requires
        n < usize::MAX,
    ensures
        r == floor_pow2(n as nat),
{
    if n <= 1 {
        return 1;
    }
    let mut p: usize = 1;
    while p <= n / 2
        invariant
            is_power_of_two(p as nat),
            1 <= p <= n,
        decreases n - p,
    {
        proof {
            lemma_double(p as nat);
        }
        p = p * 2;
    }
    proof {
        law_floor_pow2(n as nat);
        if p <= floor_pow2(n as nat) {
            law_power_of_two_between(p as nat, floor_pow2(n as nat));
        } else {
            law_power_of_two_between(floor_pow2(n as nat), p as nat);
        }
    }
    p
}

/// The smallest power of two that is not below `n`, and 1 for 0.
pub open spec fn ceil_pow2(n: nat) -> nat {
    if n < 1 {
        1
    } else {
        floor_pow2((2 * n - 1) as nat)
    }
}

/// `ceil_pow2` is a power of two, not below `n`, and half as much is.
pub proof fn law_ceil_pow2(n: nat)
    requires
        n >= 1,
    ensures
        is_power_of_two(ceil_pow2(n)),
        n <= ceil_pow2(n) < 2 * n,
{
    law_floor_pow2((2 * n - 1) as nat);
}

/// The smallest power of two that is not below `num_blocks`, and 1 for 0: the one block
/// that covers the results of all blocks.
pub fn argmax_reduce_block_size(num_blocks: usize) -> (r: usize)
    requires
        num_blocks <= usize::MAX / 2 + 1,
    ensures
        r == ceil_pow2(num_blocks as nat),
{
    let mut s: usize = 1;
    while s < num_blocks
        invariant
            is_power_of_two(s as nat),
            num_blocks >= 1 ==> s < 2 * num_blocks,
            num_blocks < 1 ==> s == 1,
            num_blocks <= usize::MAX / 2 + 1,
            s >= 1,
        decreases 2 * num_blocks - s,
    {
        proof {
            lemma_double(s as nat);
        }
        s = s * 2;
    }
    proof {
        if num_blocks >= 1 {
            let c = ceil_pow2(num_blocks as nat);
            law_ceil_pow2(num_blocks as nat);
            if s <= c {
                law_power_of_two_between(s as nat, c);
            } else {
                law_power_of_two_between(c, s as nat);
            }
        }
    }
    s
}

/// The product, or the largest `usize` where it does not fit.
pub open spec fn saturated(a: int, b: int) -> int {
    if a * b <= usize::MAX {
        a * b
    } else {
        usize::MAX as int
    }
}

fn saturating_product(a: usize, b: usize) -> (r: usize)
    ensures
        r == saturated(a as int, b as int),
{
    match a.checked_mul(b) {
        Some(p) => p,
        None => usize::MAX,
    }
}

/// Default budget of second-level cache for grouping attention heads.
pub const LPT_L2_BYTES: usize = 52428800;

/// Bytes of keys and values of one head over `q_len` tokens.
pub open spec fn kv_head_bytes(q_len: usize, head_dim: usize) -> int {
    saturated(saturated(q_len as int, saturated(head_dim as int, 2)), 2)
}

/// How many heads fit into the cache budget, at least one.
pub open spec fn heads_that_fit(q_len: usize, head_dim: usize, l2_budget: usize) -> int {
    let bytes = kv_head_bytes(q_len, head_dim);
    if bytes == 0 || l2_budget as int / bytes < 1 {
        1
    } else {
        l2_budget as int / bytes
    }
}

/// The largest power of two of heads whose keys and values fit into the cache, at most
/// all head groups.
pub open spec fn lpt_swizzle_spec(
    q_len: usize,
    head_dim: usize,
    head_groups: usize,
    l2_budget: usize,
) -> int {
    let p = floor_pow2(heads_that_fit(q_len, head_dim, l2_budget) as nat);
    if head_groups < 1 {
        1
    } else if p < head_groups {
        p as int
    } else {
        head_groups as int
    }
}

/// How many neighbouring head groups a long prefill works on together: the largest power
/// of two of heads whose keys and values fit into the cache, at most all of them.
pub fn prefill_lpt_swizzle(
    q_len: usize,
    head_dim: usize,
    head_groups: usize,
    l2_budget: usize,
) -> (r: usize)
    ensures
        r == lpt_swizzle_spec(q_len, head_dim, head_groups, l2_budget),
{
    let bytes: usize = saturating_product(
        saturating_product(q_len, saturating_product(head_dim, 2)),
        2,
    );
    let fit: usize = if bytes == 0 {
        1
    } else {
        let n: usize = l2_budget / bytes;
        proof {
            assert(bytes >= 2);
            assert(2 * n <= l2_budget) by (nonlinear_arith)
                requires
                    n == l2_budget as int / bytes as int,
                    bytes >= 2,
                    l2_budget >= 0,
            ;
        }
        if n < 1 {
            1
        } else {
            n
        }
    };
    let p: usize = floor_power_of_two_le(fit);
    let groups: usize = if head_groups < 1 {
        1
    } else {
        head_groups
    };
    proof {
        law_floor_pow2(fit as nat);
        lemma_power_positive(p as nat);
    }
    if p < groups {
        p
    } else {
        groups
    }
}

} // verus!
