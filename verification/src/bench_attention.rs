//! The benchmark of prefill attention: which kernels run, and with what.
use crate::attention::flag;
use crate::kernel::{new_call, plain_call, CallModel, Grid, Hint, Kernel, KernelCall};
use crate::knobs::{lpt_swizzle_spec, prefill_lpt_swizzle, LPT_L2_BYTES};
use crate::pointwise::{block_count, blocks_for};
use crate::text::{chars, is_text, lower_all, to_lower, trim, trim_spec};
use vstd::prelude::*;

verus! {

/// Which attention is measured.
#[derive(Clone, Copy, Debug, PartialEq, Eq, Structural)]
pub enum AttnMode {
    /// Head by head.
    Causal,
    /// Query heads of one key head together.
    Gqa,
    /// The same, longest stretches first.
    GqaLpt,
    /// The same, each stretch in parts that are merged.
    GqaLptSplit,
}

/// What is measured.
#[derive(Clone, Copy, Debug, PartialEq, Eq, Structural)]
pub struct AttnArgs {
    pub q_len: usize,
    pub q_heads: usize,
    pub kv_heads: usize,
    pub head_dim: usize,
    pub bm: usize,
    pub bn: usize,
    pub group: Option<usize>,
    pub swizzle: Option<usize>,
    pub schedule: usize,
    pub mask_split: usize,
    pub kv_splits: usize,
    pub merge_chunk_d: usize,
    pub latency: usize,
    pub occupancy: usize,
    pub iters: usize,
}

/// Why the benchmark does not run.
#[derive(Clone, Copy, Debug, PartialEq, Eq, Structural)]
pub enum AttnError {
    NoIterations,
    NoQueries,
    NoQueryHeads,
    NoKeyHeads,
    /// The query heads do not split evenly over the key heads.
    HeadGrouping,
    NoHeadDim,
    NoTile,
    Schedule,
    MaskSplit,
    NoSplits,
    /// The merge does not divide the head.
    MergeChunk,
    UnknownMode,
    /// The group does not divide the query heads of a key head.
    Group { group_size: usize },
    /// The group does not divide the query heads.
    GroupHeads { heads: usize },
    /// There is no buffer for the parts.
    NoPartial,
    /// There is no buffer for the sums of the parts.
    NoPartialSums,
}

/// Whether the sizes can be measured, and the first reason against it.
pub open spec fn args_check(a: AttnArgs) -> Result<(), AttnError> {
    if a.iters == 0 {
        Err(AttnError::NoIterations)
    } else if a.q_len == 0 {
        Err(AttnError::NoQueries)
    } else if a.q_heads == 0 {
        Err(AttnError::NoQueryHeads)
    } else if a.kv_heads == 0 {
        Err(AttnError::NoKeyHeads)
    } else if a.q_heads as int % a.kv_heads as int != 0 {
        Err(AttnError::HeadGrouping)
    } else if a.head_dim == 0 {
        Err(AttnError::NoHeadDim)
    } else if a.bm == 0 || a.bn == 0 {
        Err(AttnError::NoTile)
    } else if a.schedule > 3 {
        Err(AttnError::Schedule)
    } else if a.mask_split > 1 {
        Err(AttnError::MaskSplit)
    } else if a.kv_splits == 0 {
        Err(AttnError::NoSplits)
    } else if a.merge_chunk_d == 0 || a.head_dim as int % a.merge_chunk_d as int != 0 {
        Err(AttnError::MergeChunk)
    } else {
        Ok(())
    }
}

/// Checks the sizes.
pub fn check_args(a: &AttnArgs) -> (r: Result<(), AttnError>)
    ensures
        r == args_check(*a),
{
    if a.iters == 0 {
        return Err(AttnError::NoIterations);
    }
    if a.q_len == 0 {
        return Err(AttnError::NoQueries);
    }
    if a.q_heads == 0 {
        return Err(AttnError::NoQueryHeads);
    }
    if a.kv_heads == 0 {
        return Err(AttnError::NoKeyHeads);
    }
    if a.q_heads % a.kv_heads != 0 {
        return Err(AttnError::HeadGrouping);
    }
    if a.head_dim == 0 {
        return Err(AttnError::NoHeadDim);
    }
    if a.bm == 0 || a.bn == 0 {
        return Err(AttnError::NoTile);
    }
    if a.schedule > 3 {
        return Err(AttnError::Schedule);
    }
    if a.mask_split > 1 {
        return Err(AttnError::MaskSplit);
    }
    if a.kv_splits == 0 {
        return Err(AttnError::NoSplits);
    }
    if a.merge_chunk_d == 0 || a.head_dim % a.merge_chunk_d != 0 {
        return Err(AttnError::MergeChunk);
    }
    Ok(())
}

/// The attention that a text names.
pub open spec fn attn_mode_of(text: Seq<char>) -> Result<AttnMode, AttnError> {
    let t = lower_all(trim_spec(text));
    if t == "causal"@ {
        Ok(AttnMode::Causal)
    } else if t == "gqa"@ {
        Ok(AttnMode::Gqa)
    } else if t == "gqa-lpt"@ {
        Ok(AttnMode::GqaLpt)
    } else if t == "gqa-lpt-split"@ {
        Ok(AttnMode::GqaLptSplit)
    } else {
        Err(AttnError::UnknownMode)
    }
}

/// The attention that a text names.
pub fn parse_attn_mode(mode: &str) -> (r: Result<AttnMode, AttnError>)
    ensures
        r == attn_mode_of(mode@),
{
    let text: Vec<char> = chars(mode);
    let t: Vec<char> = to_lower(trim(text.as_slice()));
    let s: &[char] = t.as_slice();
    if is_text(s, "causal") {
        Ok(AttnMode::Causal)
    } else if is_text(s, "gqa") {
        Ok(AttnMode::Gqa)
    } else if is_text(s, "gqa-lpt") {
        Ok(AttnMode::GqaLpt)
    } else if is_text(s, "gqa-lpt-split") {
        Ok(AttnMode::GqaLptSplit)
    } else {
        Err(AttnError::UnknownMode)
    }
}

/// Query heads per key head.
pub open spec fn q_group_size(a: AttnArgs) -> usize {
    (a.q_heads as int / a.kv_heads as int) as usize
}

/// Query heads that are worked on together.
pub open spec fn group_of(a: AttnArgs) -> usize {
    match a.group {
        Some(g) => g,
        None => q_group_size(a),
    }
}

/// Whether the group divides the query heads of a key head.
pub open spec fn group_check(a: AttnArgs) -> Result<usize, AttnError> {
    let g = group_of(a);
    if g < 1 || q_group_size(a) as int % g as int != 0 {
        Err(AttnError::Group { group_size: q_group_size(a) })
    } else {
        Ok(g)
    }
}

/// The same, and all query heads.
pub open spec fn lpt_group_check(a: AttnArgs) -> Result<usize, AttnError> {
    match group_check(a) {
        Err(e) => Err(e),
        Ok(g) => if a.q_heads as int % g as int != 0 {
            Err(AttnError::GroupHeads { heads: a.q_heads })
        } else {
            Ok(g)
        },
    }
}

/// Where the query heads split evenly over the key heads, a group that divides one share
/// divides them all.
pub proof fn law_group_divides_heads(a: AttnArgs)
    requires
        args_check(a) is Ok,
    ensures
        lpt_group_check(a) == group_check(a),
{
    match group_check(a) {
        Ok(g) => {
            let (h, kv, s) = (a.q_heads as int, a.kv_heads as int, q_group_size(a) as int);
            vstd::arithmetic::div_mod::lemma_fundamental_div_mod(h, kv);
            vstd::arithmetic::div_mod::lemma_fundamental_div_mod(s, g as int);
            assert(h == (kv * (s / g as int)) * g) by (nonlinear_arith)
                requires
                    h == kv * s,
                    s == g * (s / g as int),
            ;
            vstd::arithmetic::div_mod::lemma_mod_multiples_basic(kv * (s / g as int), g as int);
        },
        Err(_) => {},
    }
}

fn check_group(a: &AttnArgs) -> (r: Result<usize, AttnError>)
    requires
        a.kv_heads > 0,
    ensures
        r == group_check(*a),
{
    let size: usize = a.q_heads / a.kv_heads;
    let g: usize = match a.group {
        Some(g) => g,
        None => size,
    };
    if g < 1 || size % g != 0 {
        return Err(AttnError::Group { group_size: size });
    }
    Ok(g)
}

fn check_lpt_group(a: &AttnArgs) -> (r: Result<usize, AttnError>)
    requires
        a.kv_heads > 0,
    ensures
        r == lpt_group_check(*a),
{
    let g: usize = check_group(a)?;
    if a.q_heads % g != 0 {
        return Err(AttnError::GroupHeads { heads: a.q_heads });
    }
    Ok(g)
}

/// Neighbouring head groups that are worked on together: the asked count, or as many as
/// fit the cache, and at most all.
pub open spec fn swizzle_of_args(a: AttnArgs, groups: usize) -> usize {
    match a.swizzle {
        Some(s) => if groups < 1 || s < 1 {
            1
        } else if s < groups {
            s
        } else {
            groups
        },
        None => lpt_swizzle_spec(a.q_len, a.head_dim, groups, LPT_L2_BYTES) as usize,
    }
}

/// Neighbouring head groups that are worked on together.
pub fn lpt_swizzle(a: &AttnArgs, num_head_groups: usize) -> (r: usize)
    ensures
        r == swizzle_of_args(*a, num_head_groups),
        r >= 1,
{
    match a.swizzle {
        Some(s) => if num_head_groups < 1 || s < 1 {
            1
        } else if s < num_head_groups {
            s
        } else {
            num_head_groups
        },
        None => {
            proof {
                crate::knobs::law_floor_pow2(
                    crate::knobs::heads_that_fit(a.q_len, a.head_dim, LPT_L2_BYTES) as nat,
                );
            }
            prefill_lpt_swizzle(a.q_len, a.head_dim, num_head_groups, LPT_L2_BYTES)
        },
    }
}

/// The sizes can be added and multiplied.
pub open spec fn attn_args_fit(a: AttnArgs) -> bool {
    let g = group_of(a);
    let blocks = blocks_for(a.q_len as int, a.bm as int);
    &&& a.q_len + a.bm <= usize::MAX
    &&& a.bm * g <= usize::MAX
    &&& a.kv_splits * (a.bm * g) <= usize::MAX
    &&& a.kv_splits * a.bm <= usize::MAX
    &&& g >= 1 ==> blocks * (a.q_heads as int / g as int) <= usize::MAX
}

/// Whether the sizes can be added and multiplied.
pub fn args_fit(a: &AttnArgs) -> (r: bool)
    requires
        a.kv_heads > 0,
        a.bm > 0,
    ensures
        r == attn_args_fit(*a),
{
    let g: usize = match a.group {
        Some(g) => g,
        None => a.q_heads / a.kv_heads,
    };
    if a.q_len.checked_add(a.bm).is_none() || a.kv_splits.checked_mul(a.bm).is_none() {
        return false;
    }
    let rows: Option<usize> = match a.bm.checked_mul(g) {
        Some(n) => a.kv_splits.checked_mul(n),
        None => None,
    };
    if rows.is_none() {
        return false;
    }
    g == 0 || block_count(a.q_len, a.bm).checked_mul(a.q_heads / g).is_some()
}

/// The shape of the buffer for the parts of all stretches: stretches, and rows of each.
pub open spec fn scratch_shape(a: AttnArgs) -> Result<(usize, usize), AttnError> {
    match lpt_group_check(a) {
        Err(e) => Err(e),
        Ok(g) => Ok(
            (
                (blocks_for(a.q_len as int, a.bm as int) * (a.q_heads as int / g as int)) as usize,
                (a.kv_splits * a.bm * g) as usize,
            ),
        ),
    }
}

/// The shape of the buffer for the parts of all stretches.
pub fn split_scratch_shapes(a: &AttnArgs) -> (r: Result<(usize, usize), AttnError>)
    requires
        a.kv_heads > 0,
        a.bm > 0,
        attn_args_fit(*a),
    ensures
        r == scratch_shape(*a),
{
    let g: usize = check_lpt_group(a)?;
    let blocks: usize = block_count(a.q_len, a.bm);
    let groups: usize = a.q_heads / g;
    assert(a.kv_splits * a.bm * g == a.kv_splits * (a.bm * g)) by (nonlinear_arith);
    assert(a.kv_splits * a.bm >= 0) by (nonlinear_arith)
        requires
            a.kv_splits >= 0,
            a.bm >= 0,
    ;
    Ok((blocks * groups, a.kv_splits * a.bm * g))
}

/// The rest of head groups beside whole swizzles, at least one.
pub open spec fn rest_of(groups: usize, swizzle: usize) -> usize {
    if groups % swizzle < 1 {
        1
    } else {
        groups % swizzle
    }
}

/// The kernel that works on parts of each stretch.
pub open spec fn split_call(a: AttnArgs, g: usize) -> CallModel {
    let blocks = blocks_for(a.q_len as int, a.bm as int) as usize;
    let groups = a.q_heads / g;
    let s = swizzle_of_args(a, groups);
    let m_eff = (a.bm * g) as usize;
    CallModel {
        ints: seq![
            q_group_size(a),
            a.q_len,
            a.q_len,
            0,
            blocks,
            groups,
            s,
            groups / s,
            rest_of(groups, s),
        ],
        grid: Some(Grid { x: (blocks * groups) as usize, y: a.kv_splits, z: 1 }),
        hint: Hint::Occupancy(a.occupancy),
        ..plain_call(
            Kernel::FmhaPrefillGqaLptSplit,
            Seq::empty(),
            seq![
                a.bm,
                a.bn,
                a.head_dim,
                g,
                m_eff,
                flag(a.q_len % a.bn == 0),
                a.kv_splits,
                (a.kv_splits * (a.bm * g)) as usize,
                a.latency,
                a.schedule,
            ],
        )
    }
}

/// The kernel that merges the parts.
pub open spec fn merge_call(a: AttnArgs, g: usize) -> CallModel {
    let blocks = blocks_for(a.q_len as int, a.bm as int) as usize;
    let groups = a.q_heads / g;
    let s = swizzle_of_args(a, groups);
    let m_eff = (a.bm * g) as usize;
    CallModel {
        ints: seq![a.q_len, blocks, groups, s, groups / s, rest_of(groups, s)],
        grid: Some(Grid { x: (blocks * groups) as usize, y: a.head_dim / a.merge_chunk_d, z: 1 }),
        hint: Hint::Occupancy(a.occupancy),
        ..plain_call(
            Kernel::PrefillSplitkReduceMerge,
            Seq::empty(),
            seq![
                a.bm,
                g,
                a.head_dim,
                m_eff,
                a.merge_chunk_d,
                a.kv_splits,
                (a.kv_splits * (a.bm * g)) as usize,
                a.schedule,
                a.latency,
            ],
        )
    }
}

/// The kernel that works on the longest stretches first.
pub open spec fn bench_lpt_call(a: AttnArgs, g: usize) -> CallModel {
    let blocks = blocks_for(a.q_len as int, a.bm as int) as usize;
    let groups = a.q_heads / g;
    let s = swizzle_of_args(a, groups);
    CallModel {
        ints: seq![
            q_group_size(a),
            a.q_len,
            a.q_len,
            0,
            blocks,
            groups,
            s,
            groups / s,
            rest_of(groups, s),
        ],
        grid: Some(Grid { x: (blocks * groups) as usize, y: 1, z: 1 }),
        hint: Hint::Occupancy(a.occupancy),
        ..plain_call(
            Kernel::FmhaPrefillGqaLpt,
            Seq::empty(),
            seq![
                a.bm,
                a.bn,
                a.head_dim,
                g,
                (a.bm * g) as usize,
                1,
                flag(a.q_len % a.bn == 0),
                a.latency,
                a.schedule,
                a.mask_split,
            ],
        )
    }
}

/// The kernel that works on groups of query heads.
pub open spec fn bench_gqa_call(a: AttnArgs, g: usize) -> CallModel {
    CallModel {
        ints: seq![q_group_size(a), a.q_len, 0],
        hint: Hint::Occupancy(a.occupancy),
        ..plain_call(
            Kernel::FmhaPrefillGqa,
            seq![a.bm, g, a.head_dim],
            seq![
                a.bm,
                a.bn,
                a.head_dim,
                g,
                (a.bm * g) as usize,
                1,
                flag(a.q_len % a.bn == 0),
                a.latency,
            ],
        )
    }
}

/// The kernel that works head by head.
pub open spec fn bench_causal_call(a: AttnArgs) -> CallModel {
    CallModel {
        ints: seq![q_group_size(a), a.q_len, 0],
        hint: Hint::Occupancy(a.occupancy),
        ..plain_call(
            Kernel::FmhaPrefillCausal,
            seq![a.bm, 1, a.head_dim],
            seq![a.bm, a.bn, a.head_dim, 1, flag(a.q_len % a.bn == 0), a.latency],
        )
    }
}

/// The kernels that one attention runs, in order.
pub open spec fn attention_calls(a: AttnArgs, mode: AttnMode, partial: bool, sums: bool) -> Result<
    Seq<CallModel>,
    AttnError,
> {
    match mode {
        AttnMode::Causal => Ok(seq![bench_causal_call(a)]),
        AttnMode::Gqa => match group_check(a) {
            Err(e) => Err(e),
            Ok(g) => Ok(seq![bench_gqa_call(a, g)]),
        },
        AttnMode::GqaLpt => match lpt_group_check(a) {
            Err(e) => Err(e),
            Ok(g) => Ok(seq![bench_lpt_call(a, g)]),
        },
        AttnMode::GqaLptSplit => match lpt_group_check(a) {
            Err(e) => Err(e),
            Ok(g) => if !partial {
                Err(AttnError::NoPartial)
            } else if !sums {
                Err(AttnError::NoPartialSums)
            } else {
                Ok(seq![split_call(a, g), merge_call(a, g)])
            },
        },
    }
}

/// The models of calls.
pub open spec fn call_models(v: Seq<KernelCall>) -> Seq<CallModel> {
    v.map_values(|c: KernelCall| c@)
}

fn flag_of(b: bool) -> (r: usize)
    ensures
        r == flag(b),
{
    if b {
        1
    } else {
        0
    }
}

fn rest(groups: usize, swizzle: usize) -> (r: usize)
    requires
        swizzle >= 1,
    ensures
        r == rest_of(groups, swizzle),
{
    let n: usize = groups % swizzle;
    if n < 1 {
        1
    } else {
        n
    }
}

fn new_split_calls(a: &AttnArgs, g: usize) -> (r: Vec<KernelCall>)
    requires
        a.kv_heads > 0,
        a.bm > 0 && a.bn > 0,
        a.merge_chunk_d > 0,
        attn_args_fit(*a),
        group_of(*a) == g,
        g >= 1,
    ensures
        call_models(r@) == seq![split_call(*a, g), merge_call(*a, g)],
{
    let blocks: usize = block_count(a.q_len, a.bm);
    let groups: usize = a.q_heads / g;
    let tiles: usize = blocks * groups;
    let s: usize = lpt_swizzle(a, groups);
    let m_eff: usize = a.bm * g;
    let ns_m: usize = a.kv_splits * m_eff;
    let mut split = new_call(
        Kernel::FmhaPrefillGqaLptSplit,
        Vec::new(),
        vec![
            a.bm,
            a.bn,
            a.head_dim,
            g,
            m_eff,
            flag_of(a.q_len % a.bn == 0),
            a.kv_splits,
            ns_m,
            a.latency,
            a.schedule,
        ],
    );
    split.ints = vec![
        a.q_heads / a.kv_heads,
        a.q_len,
        a.q_len,
        0,
        blocks,
        groups,
        s,
        groups / s,
        rest(groups, s),
    ];
    split.grid = Some(Grid { x: tiles, y: a.kv_splits, z: 1 });
    split.hint = Hint::Occupancy(a.occupancy);
    assert(split@ =~= split_call(*a, g));
    let mut merge = new_call(
        Kernel::PrefillSplitkReduceMerge,
        Vec::new(),
        vec![
            a.bm,
            g,
            a.head_dim,
            m_eff,
            a.merge_chunk_d,
            a.kv_splits,
            ns_m,
            a.schedule,
            a.latency,
        ],
    );
    merge.ints = vec![a.q_len, blocks, groups, s, groups / s, rest(groups, s)];
    merge.grid = Some(Grid { x: tiles, y: a.head_dim / a.merge_chunk_d, z: 1 });
    merge.hint = Hint::Occupancy(a.occupancy);
    assert(merge@ =~= merge_call(*a, g));
    let mut out: Vec<KernelCall> = Vec::new();
    out.push(split);
    out.push(merge);
    assert(call_models(out@) =~= seq![split_call(*a, g), merge_call(*a, g)]);
    out
}

fn new_lpt_call(a: &AttnArgs, g: usize) -> (r: KernelCall)
    requires
        a.kv_heads > 0,
        a.bm > 0 && a.bn > 0,
        attn_args_fit(*a),
        group_of(*a) == g,
        g >= 1,
    ensures
        r@ == bench_lpt_call(*a, g),
{
    let blocks: usize = block_count(a.q_len, a.bm);
    let groups: usize = a.q_heads / g;
    let s: usize = lpt_swizzle(a, groups);
    let mut call = new_call(
        Kernel::FmhaPrefillGqaLpt,
        Vec::new(),
        vec![
            a.bm,
            a.bn,
            a.head_dim,
            g,
            a.bm * g,
            1,
            flag_of(a.q_len % a.bn == 0),
            a.latency,
            a.schedule,
            a.mask_split,
        ],
    );
    call.ints = vec![
        a.q_heads / a.kv_heads,
        a.q_len,
        a.q_len,
        0,
        blocks,
        groups,
        s,
        groups / s,
        rest(groups, s),
    ];
    call.grid = Some(Grid { x: blocks * groups, y: 1, z: 1 });
    call.hint = Hint::Occupancy(a.occupancy);
    assert(call@ =~= bench_lpt_call(*a, g));
    call
}

fn one_call(c: KernelCall) -> (r: Vec<KernelCall>)
    ensures
        call_models(r@) == seq![c@],
{
    let mut v: Vec<KernelCall> = Vec::new();
    v.push(c);
    assert(call_models(v@) =~= seq![c@]);
    v
}

/// The kernels that one attention runs, in order. `att_partial` and `lse_partial` say
/// whether the buffers for the parts are there.
pub fn launch_attention(a: &AttnArgs, mode: AttnMode, att_partial: bool, lse_partial: bool) -> (r:
    Result<Vec<KernelCall>, AttnError>)
    requires
        a.kv_heads > 0,
        a.bm > 0 && a.bn > 0,
        a.merge_chunk_d > 0,
        attn_args_fit(*a),
    ensures
        match r {
            Ok(v) => attention_calls(*a, mode, att_partial, lse_partial) == Ok::<
                Seq<CallModel>,
                AttnError,
            >(call_models(v@)),
            Err(e) => attention_calls(*a, mode, att_partial, lse_partial) == Err::<
                Seq<CallModel>,
                AttnError,
            >(e),
        },
{
    match mode {
        AttnMode::Causal => {
            let mut call = new_call(
                Kernel::FmhaPrefillCausal,
                vec![a.bm, 1, a.head_dim],
                vec![a.bm, a.bn, a.head_dim, 1, flag_of(a.q_len % a.bn == 0), a.latency],
            );
            call.ints = vec![a.q_heads / a.kv_heads, a.q_len, 0];
            call.hint = Hint::Occupancy(a.occupancy);
            assert(call@ =~= bench_causal_call(*a));
            Ok(one_call(call))
        },
        AttnMode::Gqa => {
            let g: usize = check_group(a)?;
            let mut call = new_call(
                Kernel::FmhaPrefillGqa,
                vec![a.bm, g, a.head_dim],
                vec![
                    a.bm,
                    a.bn,
                    a.head_dim,
                    g,
                    a.bm * g,
                    1,
                    flag_of(a.q_len % a.bn == 0),
                    a.latency,
                ],
            );
            call.ints = vec![a.q_heads / a.kv_heads, a.q_len, 0];
            call.hint = Hint::Occupancy(a.occupancy);
            assert(call@ =~= bench_gqa_call(*a, g));
            Ok(one_call(call))
        },
        AttnMode::GqaLpt => {
            let g: usize = check_lpt_group(a)?;
            Ok(one_call(new_lpt_call(a, g)))
        },
        AttnMode::GqaLptSplit => {
            let g: usize = check_lpt_group(a)?;
            if !att_partial {
                return Err(AttnError::NoPartial);
            }
            if !lse_partial {
                return Err(AttnError::NoPartialSums);
            }
            Ok(new_split_calls(a, g))
        },
    }
}

/// The buffers of a benchmark have these shapes: queries and output, keys and values, and
/// the parts where there are any.
pub fn buffer_shapes(a: &AttnArgs, mode: AttnMode) -> (r: Result<
    (Vec<usize>, Vec<usize>, Option<(Vec<usize>, Vec<usize>)>),
    AttnError,
>)
    requires
        a.kv_heads > 0,
        a.bm > 0,
        attn_args_fit(*a),
    ensures
        match r {
            Ok((q, kv, partial)) => {
                &&& q@ == seq![a.q_len, a.q_heads, a.head_dim]
                &&& kv@ == seq![a.kv_heads, a.q_len, a.head_dim]
                &&& match partial {
                    Some((att, lse)) => mode is GqaLptSplit && (scratch_shape(*a) matches Ok((
                        tiles,
                        rows,
                    )) && att@ == seq![tiles, rows, a.head_dim] && lse@ == seq![tiles, rows]),
                    None => !(mode is GqaLptSplit),
                }
            },
            Err(e) => mode is GqaLptSplit && scratch_shape(*a) == Err::<(usize, usize), AttnError>(
                e,
            ),
        },
{
    let q: Vec<usize> = vec![a.q_len, a.q_heads, a.head_dim];
    let kv: Vec<usize> = vec![a.kv_heads, a.q_len, a.head_dim];
    assert(q@ =~= seq![a.q_len, a.q_heads, a.head_dim]);
    assert(kv@ =~= seq![a.kv_heads, a.q_len, a.head_dim]);
    match mode {
        AttnMode::GqaLptSplit => {
            let (tiles, rows) = split_scratch_shapes(a)?;
            let att: Vec<usize> = vec![tiles, rows, a.head_dim];
            let lse: Vec<usize> = vec![tiles, rows];
            assert(att@ =~= seq![tiles, rows, a.head_dim]);
            assert(lse@ =~= seq![tiles, rows]);
            Ok((q, kv, Some((att, lse))))
        },
        _ => Ok((q, kv, None)),
    }
}

} // verus!
