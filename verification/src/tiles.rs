//! What single blocks of a kernel work on: keys of an attention, halves of a rotation.
use crate::decode_plan::{grouped_attention_step, DecodeDims, DecodeKnobs};
use crate::pointwise::{block_count, blocks_for, law_blocks_cover};
use vstd::prelude::*;

verus! {

/// Which keys a query attends to.
#[derive(Clone, Copy, Debug, PartialEq, Eq, Structural)]
pub enum KeyMask {
    /// All.
    Full,
    /// Those at its position and before.
    Causal { position: usize },
}

impl KeyMask {
    /// Whether the key at `key` is attended to.
    pub open spec fn allows(self, key: int) -> bool {
        match self {
            KeyMask::Full => true,
            KeyMask::Causal { position } => position >= key,
        }
    }

    /// Keys out of `kv_len` that are attended to.
    pub open spec fn count(self, kv_len: int) -> int {
        match self {
            KeyMask::Full => kv_len,
            KeyMask::Causal { position } => if position < kv_len {
                position + 1
            } else {
                kv_len
            },
        }
    }
}

/// The keys from `from` on, tile by tile up to `end`, that are among the `kv_len` keys and
/// that the mask allows.
pub open spec fn keys_between(mask: KeyMask, kv_len: int, from: int, end: int) -> Seq<usize>
    decreases end - from,
{
    if end <= from {
        Seq::empty()
    } else {
        let rest = keys_between(mask, kv_len, from, end - 1);
        if end - 1 < kv_len && mask.allows(end - 1) {
            rest.push((end - 1) as usize)
        } else {
            rest
        }
    }
}

/// Counting up from `from`.
pub open spec fn run_of(from: int, n: int) -> Seq<usize> {
    Seq::new(
        if n < 0 {
            0
        } else {
            n as nat
        },
        |i: int| (from + i) as usize,
    )
}

/// The keys of a stretch are those from its start to its end or to the last that is
/// attended to, in order.
proof fn lemma_keys_are_a_run(mask: KeyMask, kv_len: int, from: int, end: int)
    requires
        0 <= from <= end,
        kv_len >= 0,
    ensures
        keys_between(mask, kv_len, from, end) == run_of(
            from,
            (if end <= mask.count(kv_len) {
                end
            } else {
                mask.count(kv_len)
            }) - from,
        ),
    decreases end - from,
{
    if end > from {
        lemma_keys_are_a_run(mask, kv_len, from, end - 1);
    }
    assert(keys_between(mask, kv_len, from, end) =~= run_of(
        from,
        (if end <= mask.count(kv_len) {
            end
        } else {
            mask.count(kv_len)
        }) - from,
    ));
}

/// Adds the keys of one tile of `bn` keys that begins at `first`.
fn push_tile(
    keys: &mut Vec<usize>,
    mask: KeyMask,
    kv_len: usize,
    from: Ghost<int>,
    first: usize,
    bn: usize,
)
    requires
        first + bn <= usize::MAX,
        0 <= from@ <= first,
        old(keys)@ == keys_between(mask, kv_len as int, from@, first as int),
    ensures
        final(keys)@ == keys_between(mask, kv_len as int, from@, first + bn),
{
    let mut n: usize = 0;
    while n < bn
        invariant
            n <= bn,
            first + bn <= usize::MAX,
            0 <= from@ <= first,
            keys@ == keys_between(mask, kv_len as int, from@, first + n),
        decreases bn - n,
    {
        let key: usize = first + n;
        let allowed: bool = match mask {
            KeyMask::Full => true,
            KeyMask::Causal { position } => position >= key,
        };
        if key < kv_len && allowed {
            keys.push(key);
        }
        n = n + 1;
    }
}

/// The keys that a query attends to when a block walks `kv_len` keys in tiles of `bn`: the
/// first `mask.count(kv_len)`, each once and in order.
pub fn attended_keys(mask: KeyMask, kv_len: usize, bn: usize) -> (r: Vec<usize>)
    requires
        bn >= 1,
        kv_len + bn <= usize::MAX,
    ensures
        r@ == run_of(0, mask.count(kv_len as int)),
{
    let tiles: usize = block_count(kv_len, bn);
    let mut keys: Vec<usize> = Vec::new();
    let mut j: usize = 0;
    proof {
        lemma_tiles_reach(kv_len as int, bn as int);
    }
    while j < tiles
        invariant
            j <= tiles,
            tiles * bn <= usize::MAX,
            keys@ == keys_between(mask, kv_len as int, 0, j * bn),
        decreases tiles - j,
    {
        assert(j * bn + bn == (j + 1) * bn && (j + 1) * bn <= tiles * bn && 0 <= j * bn)
            by (nonlinear_arith)
            requires
                0 <= j < tiles,
                bn >= 0,
        ;
        push_tile(&mut keys, mask, kv_len, Ghost(0), j * bn, bn);
        j = j + 1;
    }
    proof {
        lemma_keys_are_a_run(mask, kv_len as int, 0, tiles * bn);
    }
    keys
}

proof fn lemma_tiles_reach(kv_len: int, bn: int)
    requires
        bn >= 1,
        kv_len >= 0,
        kv_len + bn <= usize::MAX,
    ensures
        kv_len <= blocks_for(kv_len, bn) * bn <= usize::MAX,
        blocks_for(kv_len, bn) >= 0,
{
    let tiles = blocks_for(kv_len, bn);
    assert(kv_len <= tiles * bn < kv_len + bn && tiles >= 0) by (nonlinear_arith)
        requires
            tiles == (kv_len + bn - 1) / bn,
            bn >= 1,
            kv_len >= 0,
    ;
}

/// The keys that one of several blocks attends to which share the keys of a token:
/// `per_split` keys each, walked in tiles of `tile_n` from the tile of the first on.
pub open spec fn split_keys(split: int, per_split: int, tile_n: int, s_kv: int) -> Seq<usize> {
    let start = split * per_split;
    if start >= s_kv || per_split <= 0 {
        Seq::empty()
    } else {
        let first = start / tile_n * tile_n;
        keys_between(KeyMask::Full, s_kv, first, first + blocks_for(per_split, tile_n) * tile_n)
    }
}

/// The keys that one of several blocks attends to.
pub fn keys_of_split(split: usize, per_split: usize, tile_n: usize, s_kv: usize) -> (r: Vec<usize>)
    requires
        tile_n >= 1,
        split * per_split + per_split + tile_n <= usize::MAX,
    ensures
        r@ == split_keys(split as int, per_split as int, tile_n as int, s_kv as int),
{
    let mut keys: Vec<usize> = Vec::new();
    assert(0 <= split * per_split) by (nonlinear_arith);
    let start: usize = split * per_split;
    let raw: usize = start + per_split;
    let end: usize = if raw < s_kv {
        raw
    } else {
        s_kv
    };
    if end <= start {
        return keys;
    }
    let tiles: usize = block_count(per_split, tile_n);
    let start_tile: usize = start / tile_n;
    let ghost first = start as int / tile_n as int * tile_n;
    proof {
        lemma_tiles_reach(per_split as int, tile_n as int);
        assert(0 <= first <= start) by (nonlinear_arith)
            requires
                first == start as int / tile_n as int * tile_n,
                tile_n >= 1,
                start >= 0,
        ;
        assert(tiles * tile_n <= per_split + tile_n - 1) by (nonlinear_arith)
            requires
                tiles == (per_split + tile_n - 1) / tile_n as int,
                tile_n >= 1,
        ;
        assert(tiles <= per_split) by (nonlinear_arith)
            requires
                tiles == (per_split + tile_n - 1) / tile_n as int,
                tile_n >= 1,
                per_split >= 1,
        ;
        assert(start_tile <= start) by (nonlinear_arith)
            requires
                start_tile == start as int / tile_n as int,
                tile_n >= 1,
                start >= 0,
        ;
        assert((start_tile + tiles) * tile_n == first + tiles * tile_n) by (nonlinear_arith)
            requires
                first == start_tile * tile_n,
        ;
    }
    let mut idx: usize = 0;
    while idx < tiles
        invariant
            idx <= tiles,
            start_tile + tiles <= usize::MAX,
            first == start_tile * tile_n,
            0 <= first,
            (start_tile + tiles) * tile_n <= usize::MAX,
            keys@ == keys_between(KeyMask::Full, s_kv as int, first, first + idx * tile_n),
        decreases tiles - idx,
    {
        let cnt: usize = start_tile + idx;
        assert(cnt * tile_n == first + idx * tile_n && cnt * tile_n + tile_n == first + (idx + 1)
            * tile_n && cnt * tile_n + tile_n <= (start_tile + tiles) * tile_n && first <= cnt
            * tile_n) by (nonlinear_arith)
            requires
                first == start_tile * tile_n,
                cnt == start_tile + idx,
                0 <= idx < tiles,
                tile_n >= 0,
        ;
        push_tile(&mut keys, KeyMask::Full, s_kv, Ghost(first), cnt * tile_n, tile_n);
        idx = idx + 1;
    }
    keys
}

/// The keys of a query with a mask.
pub open spec fn attended(mask: KeyMask, kv_len: int) -> Seq<usize> {
    run_of(0, mask.count(kv_len))
}

/// A token attends to itself and to every token before it, to none after it, and to none
/// twice.
pub proof fn law_tokens_attend_to_the_past(position: usize, kv_len: usize, key: usize)
    requires
        position < kv_len,
    ensures
        attended(KeyMask::Causal { position }, kv_len as int).contains(key) <==> key <= position,
        attended(KeyMask::Causal { position }, kv_len as int).no_duplicates(),
{
    let keys = attended(KeyMask::Causal { position }, kv_len as int);
    if key <= position {
        assert(keys[key as int] == key);
    }
}

proof fn lemma_split_is_a_run(split: int, per_split: int, tile_n: int, s_kv: int)
    requires
        0 <= split,
        1 <= tile_n,
        1 <= per_split,
        per_split % tile_n == 0,
        0 <= s_kv,
    ensures
        split_keys(split, per_split, tile_n, s_kv) == run_of(
            split * per_split,
            (if (split + 1) * per_split <= s_kv {
                (split + 1) * per_split
            } else {
                s_kv
            }) - split * per_split,
        ),
{
    let start = split * per_split;
    let tiles = blocks_for(per_split, tile_n);
    let each = per_split / tile_n;
    assert(each * tile_n == per_split && each >= 1) by (nonlinear_arith)
        requires
            each == per_split / tile_n,
            per_split % tile_n == 0,
            tile_n >= 1,
            per_split >= 1,
    ;
    assert(tiles == each) by (nonlinear_arith)
        requires
            tiles == (per_split + tile_n - 1) / tile_n,
            per_split == each * tile_n,
            tile_n >= 1,
    ;
    let whole = split * each;
    assert(start == whole * tile_n && start >= 0) by (nonlinear_arith)
        requires
            start == split * per_split,
            whole == split * each,
            per_split == each * tile_n,
            per_split >= 1,
            split >= 0,
    ;
    assert(start / tile_n == whole) by {
        vstd::arithmetic::div_mod::lemma_div_multiples_vanish(whole, tile_n);
        assert(tile_n * whole == whole * tile_n) by (nonlinear_arith);
    }
    assert((split + 1) * per_split == start + per_split) by (nonlinear_arith)
        requires
            start == split * per_split,
    ;
    if start < s_kv {
        lemma_keys_are_a_run(KeyMask::Full, s_kv, start, start + per_split);
    }
    assert(split_keys(split, per_split, tile_n, s_kv) =~= run_of(
        start,
        (if start + per_split <= s_kv {
            start + per_split
        } else {
            s_kv
        }) - start,
    ));
}

/// Blocks whose stretches are whole tiles and together reach the last key share the keys:
/// each key is attended to by one block, and once.
pub proof fn law_splits_share_keys(
    splits: int,
    per_split: int,
    tile_n: int,
    s_kv: int,
    split: int,
    key: usize,
)
    requires
        1 <= tile_n,
        1 <= per_split,
        per_split % tile_n == 0,
        0 <= split < splits,
        key < s_kv <= splits * per_split,
        s_kv <= usize::MAX,
    ensures
        split_keys(split, per_split, tile_n, s_kv).contains(key) <==> split == key as int
            / per_split,
        0 <= key as int / per_split < splits,
        split_keys(split, per_split, tile_n, s_kv).no_duplicates(),
{
    lemma_split_is_a_run(split, per_split, tile_n, s_kv);
    let keys = split_keys(split, per_split, tile_n, s_kv);
    let start = split * per_split;
    let owner = key as int / per_split;
    assert(owner * per_split <= key < (owner + 1) * per_split && 0 <= owner < splits)
        by (nonlinear_arith)
        requires
            owner == key as int / per_split,
            per_split >= 1,
            key < splits * per_split,
    ;
    assert((split + 1) * per_split == start + per_split && start >= 0) by (nonlinear_arith)
        requires
            start == split * per_split,
            split >= 0,
            per_split >= 1,
    ;
    if split == owner {
        assert(keys[key - start] == key);
    } else {
        assert(!(start <= key < start + per_split)) by (nonlinear_arith)
            requires
                split != owner,
                owner * per_split <= key < (owner + 1) * per_split,
                start == split * per_split,
                per_split >= 1,
        ;
    }
}

/// The recorded attention of one token attends to every key: where the stretch of each
/// block is whole tiles, there is exactly one block for each of the keys so far.
pub proof fn law_recorded_attention_sees_all(
    p: DecodeDims,
    k: DecodeKnobs,
    l: usize,
    s_kv: usize,
    key: usize,
    split: int,
)
    requires
        k.flash_kv_splits >= 1,
        k.attn_bn >= 1,
        key < s_kv <= p.max_seq_len,
        p.max_seq_len + k.flash_kv_splits <= usize::MAX,
        blocks_for(p.max_seq_len as int, k.flash_kv_splits as int) % (k.attn_bn as int) == 0,
        0 <= split < k.flash_kv_splits,
    ensures
        ({
            let c = grouped_attention_step(p, k, l).action->Call_0;
            let tile_n = c.generics[1] as int;
            let per_split = c.generics[2] as int;
            let owner = key as int / per_split;
            &&& c.grid matches Some(g) && g.z == k.flash_kv_splits && 0 <= owner < g.z
            &&& split_keys(split, per_split, tile_n, s_kv as int).contains(key) <==> split == owner
            &&& split_keys(split, per_split, tile_n, s_kv as int).no_duplicates()
        }),
{
    let splits = k.flash_kv_splits as int;
    let per_split = blocks_for(p.max_seq_len as int, splits);
    law_blocks_cover(p.max_seq_len as int, splits);
    assert(per_split <= p.max_seq_len) by (nonlinear_arith)
        requires
            per_split == (p.max_seq_len + splits - 1) / splits,
            splits >= 1,
            p.max_seq_len >= 1,
    ;
    assert(per_split * splits == splits * per_split) by (nonlinear_arith);
    law_splits_share_keys(splits, per_split, k.attn_bn as int, s_kv as int, split, key);
}

/// The key head that a query head attends to, where `group` query heads share one.
pub open spec fn key_head(q_head: int, group: int) -> int {
    q_head / group
}

/// The key head that a query head attends to.
pub fn kv_head_of(q_head: usize, group: usize) -> (r: usize)
    requires
        group >= 1,
    ensures
        r == key_head(q_head as int, group as int),
{
    q_head / group
}

/// Every query head has a key head, and a key head serves as many query heads as share it:
/// those in a row from its number times their count on.
pub proof fn law_heads_share_keys(heads: int, kv_heads: int, q_head: int, kv_head: int)
    requires
        1 <= kv_heads,
        1 <= heads,
        heads % kv_heads == 0,
        0 <= q_head < heads,
        0 <= kv_head < kv_heads,
    ensures
        ({
            let group = heads / kv_heads;
            &&& 0 <= key_head(q_head, group) < kv_heads
            &&& key_head(q_head, group) == kv_head <==> kv_head * group <= q_head < (kv_head + 1)
                * group
        }),
{
    let group = heads / kv_heads;
    assert(group * kv_heads == heads && group >= 1) by (nonlinear_arith)
        requires
            group == heads / kv_heads,
            heads % kv_heads == 0,
            kv_heads >= 1,
            heads >= 1,
    ;
    let h = q_head / group;
    assert(h * group <= q_head < (h + 1) * group && 0 <= h < kv_heads) by (nonlinear_arith)
        requires
            h == q_head / group,
            group >= 1,
            0 <= q_head < group * kv_heads,
    ;
    if h != kv_head {
        assert(!(kv_head * group <= q_head < (kv_head + 1) * group)) by (nonlinear_arith)
            requires
                h != kv_head,
                h * group <= q_head < (h + 1) * group,
                group >= 1,
        ;
    }
}

/// The element of a head that is rotated together with element `e`: the one at the same
/// place of the other half.
pub open spec fn rope_partner(e: int, head_dim: int) -> int {
    if e < head_dim / 2 {
        e + head_dim / 2
    } else {
        e - head_dim / 2
    }
}

/// The element of a head that is rotated together with element `e`.
pub fn rotated_with(e: usize, head_dim: usize) -> (r: usize)
    requires
        e < head_dim,
        head_dim % 2 == 0,
    ensures
        r == rope_partner(e as int, head_dim as int),
{
    if e < head_dim / 2 {
        e + head_dim / 2
    } else {
        e - head_dim / 2
    }
}

/// Elements are rotated in pairs within their head.
pub proof fn law_rotation_pairs_elements(e: int, head_dim: int)
    requires
        0 <= e < head_dim,
        head_dim % 2 == 0,
    ensures
        0 <= rope_partner(e, head_dim) < head_dim,
        rope_partner(e, head_dim) != e,
        e < head_dim / 2 ==> rope_partner(e, head_dim) == head_dim / 2 + e,
        rope_partner(rope_partner(e, head_dim), head_dim) == e,
{
}

} // verus!
