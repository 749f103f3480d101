//! Free buffers between the values of a step.
use crate::gguf::{dims_product, product_of_dims};
use crate::graph::{SpecKey, TensorSpec};
use crate::names::lookup;
use crate::plan_laws::listed_bytes;
use crate::pool_plan::{count_views, SpecCounts, TensorPoolPlan};
use vstd::prelude::*;

verus! {

/// Why a step cannot run on.
#[derive(Clone, Copy, Debug, PartialEq, Eq, Structural)]
pub enum RunError {
    /// The planned buffers do not add up to the planned bytes.
    Preallocation { expected: usize, got: usize },
    /// A buffer comes back with another element count.
    CheckinNumel { numel: usize, expected: usize },
    /// An operation reads a value that has no buffer.
    MissingValue { value: usize },
    /// A reshape reads a value that has no buffer.
    MissingReshapeInput { value: usize },
    /// A reshape reads a weight.
    ReshapeWeight,
    /// A reshape changes the element count.
    ReshapeNumel,
    /// A projection is read as a plain tensor.
    NotATensor,
    /// A norm is read as a matrix.
    NotAMatrix,
    /// The buffer for the result is gone.
    MissingResultBuffer,
    /// A value is read more often than was counted.
    UseCount { value: usize },
    /// No operation wrote the result.
    MissingResult,
}

/// A buffer of kind `a` can serve as one of kind `k`.
pub open spec fn serves(a: SpecKey, k: SpecKey) -> bool {
    a.dtype == k.dtype && a.numel() == k.numel()
}

/// The free buffer of kind `k` that came back last; -1 where there is none.
pub open spec fn last_exact(free: Seq<(SpecKey, usize)>, k: SpecKey) -> int
    decreases free.len(),
{
    if free.len() == 0 {
        -1
    } else if free.last().0 == k {
        free.len() - 1
    } else {
        last_exact(free.drop_last(), k)
    }
}

/// The free buffer that came back last among those that can serve as kind `k`; -1 where
/// there is none.
pub open spec fn last_serving(free: Seq<(SpecKey, usize)>, k: SpecKey) -> int
    decreases free.len(),
{
    if free.len() == 0 {
        -1
    } else if serves(free.last().0, k) {
        free.len() - 1
    } else {
        last_serving(free.drop_last(), k)
    }
}

/// The free buffer to take for kind `k`: one of that kind, or else one that can serve.
pub open spec fn pick(free: Seq<(SpecKey, usize)>, k: SpecKey) -> int {
    if last_exact(free, k) >= 0 {
        last_exact(free, k)
    } else {
        last_serving(free, k)
    }
}

/// Free buffers of kind `k`.
pub open spec fn count_kind(free: Seq<(SpecKey, usize)>, k: SpecKey) -> nat
    decreases free.len(),
{
    if free.len() == 0 {
        0
    } else {
        count_kind(free.drop_last(), k) + if free.last().0 == k {
            1nat
        } else {
            0
        }
    }
}

/// Whether one more buffer of kind `k` is kept.
pub open spec fn keeps(
    free: Seq<(SpecKey, usize)>,
    caps: Seq<(SpecKey, usize)>,
    k: SpecKey,
) -> bool {
    match lookup(caps, k) {
        Some(cap) => count_kind(free, k) < cap,
        None => count_kind(free, k) < usize::MAX,
    }
}

/// The free buffers after `id` came back as kind `k`.
pub open spec fn given_back(
    free: Seq<(SpecKey, usize)>,
    caps: Seq<(SpecKey, usize)>,
    k: SpecKey,
    id: usize,
) -> Seq<(SpecKey, usize)> {
    if keeps(free, caps, k) {
        free.push((k, id))
    } else {
        free
    }
}

/// How many buffers a list of counts names.
pub open spec fn listed_buffers(s: Seq<(SpecKey, usize)>) -> nat
    decreases s.len(),
{
    if s.len() == 0 {
        0
    } else {
        listed_buffers(s.drop_last()) + s.last().1 as nat
    }
}

/// Buffers for a list of counts, numbered from `first` on.
pub open spec fn preallocated(s: Seq<(SpecKey, usize)>, first: int) -> Seq<(SpecKey, usize)>
    decreases s.len(),
{
    if s.len() == 0 {
        Seq::empty()
    } else {
        let at = first + listed_buffers(s.drop_last());
        preallocated(s.drop_last(), first) + Seq::new(
            s.last().1 as nat,
            |j: int| (s.last().0, (at + j) as usize),
        )
    }
}

/// The buffers of a list can be counted and numbered from `first` on, and so can their
/// bytes.
pub open spec fn list_fits(list: Seq<(SpecKey, usize)>, first: int) -> bool {
    &&& listed_bytes(list) <= usize::MAX
    &&& first + listed_buffers(list) <= usize::MAX
    &&& forall|i: int| 0 <= i < list.len() ==> (#[trigger] list[i]).0.sized()
}

/// Free buffers by kind, in the order in which they came back, and for each kind how
/// many are kept at most.
#[derive(Debug)]
pub struct TensorPool {
    pub free: Vec<(TensorSpec, usize)>,
    pub cache_caps: SpecCounts,
}

proof fn lemma_pick_range(free: Seq<(SpecKey, usize)>, k: SpecKey)
    ensures
        -1 <= last_exact(free, k) < free.len(),
        -1 <= last_serving(free, k) < free.len(),
    decreases free.len(),
{
    if free.len() > 0 {
        lemma_pick_range(free.drop_last(), k);
    }
}

/// What `pick` finds is a free buffer that can serve.
pub proof fn lemma_pick(free: Seq<(SpecKey, usize)>, k: SpecKey)
    ensures
        -1 <= pick(free, k) < free.len(),
        pick(free, k) >= 0 ==> serves(free[pick(free, k)].0, k),
    decreases free.len(),
{
    lemma_pick_range(free, k);
    if free.len() > 0 {
        lemma_pick(free.drop_last(), k);
        lemma_pick_range(free.drop_last(), k);
    }
}

proof fn lemma_listed_prefix(s: Seq<(SpecKey, usize)>, i: int)
    requires
        0 <= i <= s.len(),
    ensures
        listed_buffers(s.subrange(0, i)) <= listed_buffers(s),
        0 <= listed_bytes(s.subrange(0, i)) <= listed_bytes(s),
    decreases s.len() - i,
{
    if i < s.len() {
        lemma_listed_prefix(s, i + 1);
        assert(s.subrange(0, i + 1).drop_last() =~= s.subrange(0, i));
        assert(s[i].1 * s[i].0.bytes() >= 0) by (nonlinear_arith)
            requires
                s[i].1 >= 0,
                s[i].0.bytes() >= 0,
        ;
        lemma_listed_positive(s.subrange(0, i));
    } else {
        assert(s.subrange(0, i) =~= s);
        lemma_listed_positive(s);
    }
}

proof fn lemma_listed_positive(s: Seq<(SpecKey, usize)>)
    ensures
        listed_bytes(s) >= 0,
    decreases s.len(),
{
    if s.len() > 0 {
        lemma_listed_positive(s.drop_last());
        let e = s.last();
        assert(e.1 * e.0.bytes() >= 0) by (nonlinear_arith)
            requires
                e.1 >= 0,
                e.0.bytes() >= 0,
        ;
    }
}

impl TensorPool {
    /// The free buffers.
    pub open spec fn buffers(&self) -> Seq<(SpecKey, usize)> {
        count_views(self.free@)
    }

    /// The elements of every free buffer can be counted.
    pub open spec fn wf(&self) -> bool {
        forall|i: int|
            0 <= i < self.buffers().len() ==> dims_product(
                (#[trigger] self.buffers()[i]).0.shape,
            ) is Some
    }

    /// Whether the buffers of a plan can be numbered from `first` on.
    pub fn fits(plan: &TensorPoolPlan, first: usize) -> (r: bool)
        ensures
            r == list_fits(plan.high_water_live@, first as int),
    {
        let list: &Vec<(TensorSpec, usize)> = &plan.high_water_live.entries;
        let ghost all = plan.high_water_live@;
        let mut bytes: usize = 0;
        let mut next: usize = first;
        let mut i: usize = 0;
        assert(all.subrange(0, 0) =~= Seq::empty());
        while i < list.len()
            invariant
                i <= list@.len(),
                all == plan.high_water_live@,
                all == count_views(list@),
                forall|k: int| 0 <= k < i ==> (#[trigger] all[k]).0.sized(),
                next == first + listed_buffers(all.subrange(0, i as int)),
                bytes == listed_bytes(all.subrange(0, i as int)),
            decreases list@.len() - i,
        {
            let e: &(TensorSpec, usize) = &list[i];
            let ghost (key, count) = all[i as int];
            proof {
                let more = all.subrange(0, i + 1);
                assert(more.drop_last() =~= all.subrange(0, i as int));
                assert(more.last() == (key, count));
                lemma_listed_prefix(all, i + 1);
            }
            let size: usize = match product_of_dims(e.0.shape.as_slice()) {
                None => {
                    assert(!key.sized());
                    return false;
                },
                Some(n) => match n.checked_mul(2) {
                    None => {
                        assert(!key.sized());
                        return false;
                    },
                    Some(size) => size,
                },
            };
            assert(key.sized());
            assert(e.1 * size == size * e.1) by (nonlinear_arith);
            bytes = match size.checked_mul(e.1) {
                None => {
                    return false;
                },
                Some(more) => match bytes.checked_add(more) {
                    None => {
                        return false;
                    },
                    Some(sum) => sum,
                },
            };
            next = match next.checked_add(e.1) {
                None => {
                    return false;
                },
                Some(sum) => sum,
            };
            i = i + 1;
        }
        assert(all.subrange(0, i as int) =~= all);
        true
    }

    /// The pool for a plan: the buffers that are live when most are, numbered from
    /// `first` on, and of each kind at most as many as are ever live at once.
    pub fn from_plan(plan: &TensorPoolPlan, first: usize) -> (r: Result<Self, RunError>)
        requires
            list_fits(plan.high_water_live@, first as int),
        ensures
            match r {
                Ok(pool) => {
                    &&& listed_bytes(plan.high_water_live@) == plan.high_water_bytes
                    &&& pool.wf()
                    &&& pool.buffers() == preallocated(plan.high_water_live@, first as int)
                    &&& pool.cache_caps@ == plan.max_live_by_spec@
                },
                Err(e) => {
                    &&& listed_bytes(plan.high_water_live@) != plan.high_water_bytes
                    &&& e == RunError::Preallocation {
                        expected: plan.high_water_bytes,
                        got: listed_bytes(plan.high_water_live@) as usize,
                    }
                },
            },
    {
        let list: &Vec<(TensorSpec, usize)> = &plan.high_water_live.entries;
        let ghost all = plan.high_water_live@;
        let mut free: Vec<(TensorSpec, usize)> = Vec::new();
        let mut bytes: usize = 0;
        let mut next: usize = first;
        let mut i: usize = 0;
        proof {
            assert(all.subrange(0, 0) =~= Seq::empty());
            assert(count_views(free@) =~= Seq::empty());
        }
        while i < list.len()
            invariant
                i <= list@.len(),
                all == count_views(list@),
                listed_bytes(all) <= usize::MAX,
                first + listed_buffers(all) <= usize::MAX,
                forall|k: int| 0 <= k < all.len() ==> (#[trigger] all[k]).0.sized(),
                next == first + listed_buffers(all.subrange(0, i as int)),
                bytes == listed_bytes(all.subrange(0, i as int)),
                count_views(free@) == preallocated(all.subrange(0, i as int), first as int),
                forall|k: int|
                    0 <= k < count_views(free@).len() ==> dims_product(
                        (#[trigger] count_views(free@)[k]).0.shape,
                    ) is Some,
            decreases list@.len() - i,
        {
            let e: &(TensorSpec, usize) = &list[i];
            let ghost part = all.subrange(0, i as int);
            let ghost more = all.subrange(0, i + 1);
            let ghost key = all[i as int].0;
            let ghost at = next as int;
            let ghost before = count_views(free@);
            proof {
                assert(more.drop_last() =~= part);
                assert(more.last() == all[i as int]);
                lemma_listed_prefix(all, i + 1);
                assert(all[i as int].0.sized());
            }
            let size: usize = e.0.bytes();
            let mut j: usize = 0;
            assert(before + Seq::new(0, |x: int| (key, (at + x) as usize)) =~= before);
            while j < e.1
                invariant
                    j <= e.1,
                    e.0@ == key,
                    key.sized(),
                    size == key.bytes(),
                    next == at + j,
                    at + e.1 <= usize::MAX,
                    bytes == listed_bytes(part) + j * size,
                    listed_bytes(part) + e.1 * size <= usize::MAX,
                    count_views(free@) == before + Seq::new(
                        j as nat,
                        |x: int| (key, (at + x) as usize),
                    ),
                    forall|k: int|
                        0 <= k < count_views(free@).len() ==> dims_product(
                            (#[trigger] count_views(free@)[k]).0.shape,
                        ) is Some,
                decreases e.1 - j,
            {
                proof {
                    assert(j * size + size <= e.1 * size) by (nonlinear_arith)
                        requires
                            j + 1 <= e.1,
                            size >= 0,
                    ;
                    assert((j + 1) * size == j * size + size) by (nonlinear_arith);
                }
                let ghost mid = count_views(free@);
                free.push((e.0.copy(), next));
                proof {
                    assert(count_views(free@) =~= mid.push((key, next)));
                    assert(mid.push((key, next)) =~= before + Seq::new(
                        (j + 1) as nat,
                        |x: int| (key, (at + x) as usize),
                    ));
                }
                bytes = bytes + size;
                next = next + 1;
                j = j + 1;
            }
            i = i + 1;
        }
        assert(all.subrange(0, i as int) =~= all);
        if bytes != plan.high_water_bytes {
            return Err(
                RunError::Preallocation { expected: plan.high_water_bytes, got: bytes },
            );
        }
        Ok(TensorPool { free, cache_caps: plan.max_live_by_spec.copy() })
    }

    /// Takes a free buffer for a value of kind `spec`: one of that kind, or else one of
    /// as many elements. Without one the caller allocates.
    pub fn checkout(&mut self, spec: &TensorSpec) -> (r: Option<usize>)
        requires
            old(self).wf(),
            dims_product(spec@.shape) is Some,
        ensures
            final(self).wf(),
            final(self).cache_caps == old(self).cache_caps,
            ({
                let i = pick(old(self).buffers(), spec@);
                if i >= 0 {
                    &&& r == Some(old(self).buffers()[i].1)
                    &&& final(self).buffers() == old(self).buffers().remove(i)
                } else {
                    &&& r is None
                    &&& final(self).buffers() == old(self).buffers()
                }
            }),
    {
        let ghost all = self.buffers();
        proof {
            lemma_pick(all, spec@);
        }
        let i: usize = self.find_exact(spec);
        if i < self.free.len() {
            return Some(self.take(i));
        }
        self.take_compatible(spec)
    }

    fn take(&mut self, i: usize) -> (r: usize)
        requires
            i < old(self).free@.len(),
            old(self).wf(),
        ensures
            r == old(self).buffers()[i as int].1,
            final(self).buffers() == old(self).buffers().remove(i as int),
            final(self).cache_caps == old(self).cache_caps,
            final(self).wf(),
    {
        let ghost all = self.buffers();
        let e: (TensorSpec, usize) = self.free.remove(i);
        assert(self.buffers() =~= all.remove(i as int));
        e.1
    }

    /// The place of the last free buffer of this kind, or the number of free buffers.
    fn find_exact(&self, spec: &TensorSpec) -> (r: usize)
        ensures
            last_exact(self.buffers(), spec@) >= 0 ==> r == last_exact(self.buffers(), spec@),
            last_exact(self.buffers(), spec@) < 0 ==> r == self.free@.len(),
            r <= self.free@.len(),
    {
        let ghost all = self.buffers();
        let mut i: usize = self.free.len();
        assert(all.subrange(0, all.len() as int) =~= all);
        while i > 0
            invariant
                i <= self.free@.len(),
                all == self.buffers(),
                last_exact(all, spec@) == last_exact(all.subrange(0, i as int), spec@),
            decreases i,
        {
            let ghost part = all.subrange(0, i as int);
            assert(part.drop_last() =~= all.subrange(0, i - 1));
            assert(part.last().0 == self.free@[i - 1].0@);
            if self.free[i - 1].0.same(spec) {
                return i - 1;
            }
            i = i - 1;
        }
        self.free.len()
    }

    /// Takes the last free buffer of as many elements.
    fn take_compatible(&mut self, spec: &TensorSpec) -> (r: Option<usize>)
        requires
            old(self).wf(),
            dims_product(spec@.shape) is Some,
        ensures
            final(self).wf(),
            final(self).cache_caps == old(self).cache_caps,
            ({
                let i = last_serving(old(self).buffers(), spec@);
                if i >= 0 {
                    &&& r == Some(old(self).buffers()[i].1)
                    &&& final(self).buffers() == old(self).buffers().remove(i)
                } else {
                    &&& r is None
                    &&& final(self).buffers() == old(self).buffers()
                }
            }),
    {
        let ghost all = self.buffers();
        let target: usize = spec.numel();
        let mut i: usize = self.free.len();
        assert(all.subrange(0, all.len() as int) =~= all);
        while i > 0
            invariant
                i <= self.free@.len(),
                all == self.buffers(),
                self.wf(),
                *self == *old(self),
                target == spec@.numel(),
                last_serving(all, spec@) == last_serving(all.subrange(0, i as int), spec@),
            decreases i,
        {
            let ghost part = all.subrange(0, i as int);
            proof {
                assert(part.drop_last() =~= all.subrange(0, i - 1));
                assert(part.last().0 == self.free@[i - 1].0@);
                assert(dims_product(all[i - 1].0.shape) is Some);
            }
            let candidate: &TensorSpec = &self.free[i - 1].0;
            if candidate.dtype == spec.dtype && candidate.numel() == target {
                return Some(self.take(i - 1));
            }
            i = i - 1;
        }
        None
    }

    /// Gives a buffer of `numel` elements back as one of kind `spec`, and says whether
    /// the pool keeps it.
    pub fn checkin(&mut self, id: usize, numel: usize, spec: &TensorSpec) -> (r: Result<
        bool,
        RunError,
    >)
        requires
            old(self).wf(),
            dims_product(spec@.shape) is Some,
        ensures
            final(self).wf(),
            final(self).cache_caps == old(self).cache_caps,
            match r {
                Ok(kept) => {
                    &&& numel == spec@.numel()
                    &&& kept == keeps(old(self).buffers(), old(self).cache_caps@, spec@)
                    &&& final(self).buffers() == given_back(
                        old(self).buffers(),
                        old(self).cache_caps@,
                        spec@,
                        id,
                    )
                },
                Err(e) => {
                    &&& numel != spec@.numel()
                    &&& final(self).buffers() == old(self).buffers()
                    &&& e == RunError::CheckinNumel {
                        numel,
                        expected: spec@.numel() as usize,
                    }
                },
            },
    {
        let expected: usize = spec.numel();
        if numel != expected {
            return Err(RunError::CheckinNumel { numel, expected });
        }
        let cap: usize = match self.cache_caps.get(spec) {
            Some(n) => n,
            None => usize::MAX,
        };
        let ghost all = self.buffers();
        let have: usize = self.count(spec);
        if have < cap {
            self.free.push((spec.copy(), id));
            assert(self.buffers() =~= all.push((spec@, id)));
            Ok(true)
        } else {
            Ok(false)
        }
    }

    /// How many buffers of this kind are free.
    fn count(&self, spec: &TensorSpec) -> (r: usize)
        ensures
            r == count_kind(self.buffers(), spec@),
    {
        let ghost all = self.buffers();
        let mut n: usize = 0;
        let mut i: usize = 0;
        assert(all.subrange(0, 0) =~= Seq::empty());
        while i < self.free.len()
            invariant
                i <= self.free@.len(),
                n <= i,
                all == self.buffers(),
                n == count_kind(all.subrange(0, i as int), spec@),
            decreases self.free@.len() - i,
        {
            proof {
                assert(all.subrange(0, i + 1).drop_last() =~= all.subrange(0, i as int));
                assert(all.subrange(0, i + 1).last().0 == self.free@[i as int].0@);
            }
            if self.free[i].0.same(spec) {
                n = n + 1;
            }
            i = i + 1;
        }
        assert(all.subrange(0, i as int) =~= all);
        n
    }
}

proof fn lemma_picks(free: Seq<(SpecKey, usize)>, k: SpecKey, i: int)
    ensures
        -1 <= last_exact(free, k) < free.len(),
        -1 <= last_serving(free, k) < free.len(),
        last_exact(free, k) >= 0 ==> free[last_exact(free, k)].0 == k,
        last_serving(free, k) >= 0 ==> serves(free[last_serving(free, k)].0, k),
        last_exact(free, k) < i < free.len() ==> free[i].0 != k,
        last_serving(free, k) < i < free.len() ==> !serves(free[i].0, k),
    decreases free.len(),
{
    if free.len() > 0 {
        lemma_picks(free.drop_last(), k, i);
    }
}

/// A buffer that is taken has as many elements as are asked for, of the same type; one of the
/// very shape goes before others, and what came back last before what came back earlier. None
/// is taken only where none would do.
pub proof fn law_taken_buffers_fit(free: Seq<(SpecKey, usize)>, k: SpecKey, i: int)
    requires
        0 <= i < free.len(),
    ensures
        ({
            let at = pick(free, k);
            &&& at < 0 ==> !(free[i].0.dtype == k.dtype && free[i].0.numel() == k.numel())
            &&& at >= 0 ==> at < free.len() && free[at].0.dtype == k.dtype && free[at].0.numel()
                == k.numel()
            &&& free[i].0 == k ==> at >= i && free[at].0 == k
            &&& at >= 0 && free[at].0 != k && free[i].0.dtype == k.dtype && free[i].0.numel()
                == k.numel() ==> i <= at
        }),
{
    lemma_picks(free, k, i);
}

/// Of each kind no more buffers are kept than its cap, and a buffer that is not kept changes
/// nothing.
pub proof fn law_pool_keeps_to_its_caps(
    free: Seq<(SpecKey, usize)>,
    caps: Seq<(SpecKey, usize)>,
    k: SpecKey,
    id: usize,
    cap: usize,
)
    requires
        lookup(caps, k) == Some(cap),
        count_kind(free, k) <= cap,
    ensures
        count_kind(given_back(free, caps, k, id), k) <= cap,
        count_kind(free, k) < cap ==> given_back(free, caps, k, id) == free.push((k, id)),
        count_kind(free, k) == cap ==> given_back(free, caps, k, id) == free,
{
    assert(free.push((k, id)).drop_last() =~= free);
}

/// A buffer that is given back is the first to be taken again for its kind.
pub proof fn law_given_buffers_are_taken_again(
    free: Seq<(SpecKey, usize)>,
    caps: Seq<(SpecKey, usize)>,
    k: SpecKey,
    id: usize,
)
    requires
        keeps(free, caps, k),
    ensures
        given_back(free, caps, k, id)[pick(given_back(free, caps, k, id), k)] == (k, id),
{
}

} // verus!
