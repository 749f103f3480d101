//! The benchmark of grouped products: which products run, and in which groups.
use crate::kernel::{new_call, plain_call, CallModel, Grid, Hint, Kernel, KernelCall};
use crate::knobs::text_of;
use crate::text::{
    chars, is_text, lower_all, parse_usize, parse_usize_spec, piece_views, split, split_spec,
    to_lower, trim, trim_spec,
};
use vstd::prelude::*;

verus! {

/// A product of an `m` by `k` and a `k` by `n` matrix.
#[derive(Clone, Copy, Debug, PartialEq, Eq, Structural)]
pub struct Problem {
    pub m: usize,
    pub n: usize,
    pub k: usize,
}

/// The tile that a group of products works on at once.
#[derive(Clone, Copy, Debug, PartialEq, Eq, Structural)]
pub struct TileConfig {
    pub bm: usize,
    pub bn: usize,
    pub bk: usize,
    pub num_ctas: usize,
    pub occupancy: usize,
}

/// Why the benchmark does not run.
#[derive(Clone, Copy, Debug, PartialEq, Eq, Structural)]
pub enum GroupError {
    /// A shape has not three sizes. Shapes count from 0, empty ones too.
    ShapeParts { place: usize, parts: usize },
    BadM { place: usize },
    BadN { place: usize },
    BadK { place: usize },
    /// No shape was given.
    NoProblems,
    /// There is no such tile.
    UnknownTile,
    /// The tile does not divide the product.
    NotDivisible { problem: Problem, tile: TileConfig },
}

/// What separates the sizes of a shape.
pub open spec fn size_separators() -> Seq<char> {
    seq!['x', 'X', ',']
}

/// The pieces without surrounding space, empty ones left out.
pub open spec fn fields(pieces: Seq<Seq<char>>) -> Seq<Seq<char>>
    decreases pieces.len(),
{
    if pieces.len() == 0 {
        Seq::empty()
    } else {
        let before = fields(pieces.drop_last());
        let last = trim_spec(pieces.last());
        if last.len() == 0 {
            before
        } else {
            before.push(last)
        }
    }
}

/// One shape; `None` where it is empty.
pub open spec fn shape_at(piece: Seq<char>, place: usize) -> Result<Option<Problem>, GroupError> {
    let t = trim_spec(piece);
    let parts = fields(split_spec(t, size_separators()));
    if t.len() == 0 {
        Ok(None)
    } else if parts.len() != 3 {
        Err(GroupError::ShapeParts { place, parts: parts.len() as usize })
    } else {
        match parse_usize_spec(parts[0]) {
            None => Err(GroupError::BadM { place }),
            Some(m) => match parse_usize_spec(parts[1]) {
                None => Err(GroupError::BadN { place }),
                Some(n) => match parse_usize_spec(parts[2]) {
                    None => Err(GroupError::BadK { place }),
                    Some(k) => Ok(Some(Problem { m, n, k })),
                },
            },
        }
    }
}

/// The shapes of the first pieces.
pub open spec fn shapes_of(pieces: Seq<Seq<char>>) -> Result<Seq<Problem>, GroupError>
    decreases pieces.len(),
{
    if pieces.len() == 0 {
        Ok(Seq::empty())
    } else {
        match shapes_of(pieces.drop_last()) {
            Err(e) => Err(e),
            Ok(s) => match shape_at(pieces.last(), (pieces.len() - 1) as usize) {
                Err(e) => Err(e),
                Ok(None) => Ok(s),
                Ok(Some(p)) => Ok(s.push(p)),
            },
        }
    }
}

proof fn lemma_shapes_error(pieces: Seq<Seq<char>>, k: int)
    requires
        0 <= k <= pieces.len(),
        shapes_of(pieces.subrange(0, k)) is Err,
    ensures
        shapes_of(pieces) == shapes_of(pieces.subrange(0, k)),
    decreases pieces.len() - k,
{
    if k < pieces.len() {
        assert(pieces.subrange(0, k + 1).drop_last() =~= pieces.subrange(0, k));
        lemma_shapes_error(pieces, k + 1);
    } else {
        assert(pieces.subrange(0, k) =~= pieces);
    }
}

/// The products that a list of shapes names: shapes stand between semicolons.
pub open spec fn problems_in(text: Seq<char>) -> Result<Seq<Problem>, GroupError> {
    match shapes_of(split_spec(text, seq![';'])) {
        Err(e) => Err(e),
        Ok(s) => if s.len() == 0 {
            Err(GroupError::NoProblems)
        } else {
            Ok(s)
        },
    }
}

/// The fields of pieces.
fn collect_fields(pieces: &Vec<Vec<char>>) -> (r: Vec<Vec<char>>)
    ensures
        piece_views(r@) == fields(piece_views(pieces@)),
{
    let ghost all = piece_views(pieces@);
    let mut out: Vec<Vec<char>> = Vec::new();
    let mut i: usize = 0;
    assert(all.subrange(0, 0) =~= Seq::empty());
    assert(piece_views(out@) =~= Seq::empty());
    while i < pieces.len()
        invariant
            i <= pieces@.len(),
            all == piece_views(pieces@),
            piece_views(out@) == fields(all.subrange(0, i as int)),
        decreases pieces@.len() - i,
    {
        assert(all.subrange(0, i + 1).drop_last() =~= all.subrange(0, i as int));
        let t: &[char] = trim(pieces[i].as_slice());
        if t.len() > 0 {
            let ghost before = out@;
            let mut own: Vec<char> = Vec::new();
            let mut j: usize = 0;
            while j < t.len()
                invariant
                    j <= t@.len(),
                    own@ == t@.subrange(0, j as int),
                decreases t@.len() - j,
            {
                own.push(t[j]);
                assert(own@ =~= t@.subrange(0, j + 1));
                j = j + 1;
            }
            assert(own@ =~= t@);
            out.push(own);
            assert(piece_views(out@) =~= piece_views(before).push(t@));
        }
        i = i + 1;
    }
    assert(all.subrange(0, all.len() as int) =~= all);
    out
}

/// One shape.
fn parse_shape(piece: &Vec<char>, place: usize) -> (r: Result<Option<Problem>, GroupError>)
    ensures
        r == shape_at(piece@, place),
{
    let t: &[char] = trim(piece.as_slice());
    if t.len() == 0 {
        return Ok(None);
    }
    let seps: [char; 3] = ['x', 'X', ','];
    assert(seps@ =~= size_separators());
    let pieces: Vec<Vec<char>> = split(t, &seps);
    let parts: Vec<Vec<char>> = collect_fields(&pieces);
    let ghost views = piece_views(parts@);
    if parts.len() != 3 {
        return Err(GroupError::ShapeParts { place, parts: parts.len() });
    }
    assert(views[0] == parts@[0]@ && views[1] == parts@[1]@ && views[2] == parts@[2]@);
    let m: usize = match parse_usize(parts[0].as_slice()) {
        Some(m) => m,
        None => {
            return Err(GroupError::BadM { place });
        },
    };
    let n: usize = match parse_usize(parts[1].as_slice()) {
        Some(n) => n,
        None => {
            return Err(GroupError::BadN { place });
        },
    };
    let k: usize = match parse_usize(parts[2].as_slice()) {
        Some(k) => k,
        None => {
            return Err(GroupError::BadK { place });
        },
    };
    Ok(Some(Problem { m, n, k }))
}

/// The products that a list of shapes names.
pub fn parse_shapes(spec: &str) -> (r: Result<Vec<Problem>, GroupError>)
    ensures
        match r {
            Ok(v) => problems_in(spec@) == Ok::<Seq<Problem>, GroupError>(v@),
            Err(e) => problems_in(spec@) == Err::<Seq<Problem>, GroupError>(e),
        },
{
    let text: Vec<char> = chars(spec);
    let seps: [char; 1] = [';'];
    assert(seps@ =~= seq![';']);
    let pieces: Vec<Vec<char>> = split(text.as_slice(), &seps);
    let ghost all = piece_views(pieces@);
    let mut out: Vec<Problem> = Vec::new();
    let mut i: usize = 0;
    assert(all.subrange(0, 0) =~= Seq::empty());
    while i < pieces.len()
        invariant
            i <= pieces@.len(),
            all == piece_views(pieces@),
            all == split_spec(spec@, seq![';']),
            shapes_of(all.subrange(0, i as int)) == Ok::<Seq<Problem>, GroupError>(out@),
        decreases pieces@.len() - i,
    {
        let ghost now = all.subrange(0, i + 1);
        assert(now.drop_last() =~= all.subrange(0, i as int));
        assert(now.last() == pieces@[i as int]@);
        match parse_shape(&pieces[i], i) {
            Ok(Some(p)) => {
                out.push(p);
            },
            Ok(None) => {},
            Err(e) => {
                proof {
                    lemma_shapes_error(all, i + 1);
                }
                return Err(e);
            },
        }
        i = i + 1;
    }
    assert(all.subrange(0, all.len() as int) =~= all);
    if out.len() == 0 {
        return Err(GroupError::NoProblems);
    }
    Ok(out)
}

/// What the benchmark is asked for.
#[derive(Clone, Copy, Debug)]
pub struct GroupArgs<'a> {
    pub m: usize,
    pub n: usize,
    pub k: usize,
    pub groups: usize,
    pub shapes: Option<&'a str>,
    pub heterogeneous: bool,
}

/// Products of different shapes, in turn.
pub open spec fn mixed_problem(i: int) -> Problem {
    Problem {
        m: if i % 2 == 0 {
            1024
        } else {
            2048
        },
        n: if i % 4 < 2 {
            1024
        } else {
            2048
        },
        k: 1024,
    }
}

/// The products of a benchmark: the listed ones, or mixed ones in turn, or the same one
/// over and over.
pub open spec fn problems_of(args: GroupArgs) -> Result<Seq<Problem>, GroupError> {
    match text_of(args.shapes) {
        Some(text) => problems_in(text),
        None => Ok(
            Seq::new(
                args.groups as nat,
                |i: int|
                    if args.heterogeneous {
                        mixed_problem(i)
                    } else {
                        Problem { m: args.m, n: args.n, k: args.k }
                    },
            ),
        ),
    }
}

/// The products of a benchmark.
pub fn problems_from_args(args: &GroupArgs) -> (r: Result<Vec<Problem>, GroupError>)
    ensures
        match r {
            Ok(v) => problems_of(*args) == Ok::<Seq<Problem>, GroupError>(v@),
            Err(e) => problems_of(*args) == Err::<Seq<Problem>, GroupError>(e),
        },
{
    match args.shapes {
        Some(spec) => parse_shapes(spec),
        None => {
            let mut out: Vec<Problem> = Vec::new();
            let ghost want = problems_of(*args)->Ok_0;
            let mut i: usize = 0;
            while i < args.groups
                invariant
                    i <= args.groups,
                    args.shapes is None,
                    want == problems_of(*args)->Ok_0,
                    out@ == want.subrange(0, i as int),
                decreases args.groups - i,
            {
                out.push(
                    if args.heterogeneous {
                        Problem {
                            m: if i % 2 == 0 {
                                1024
                            } else {
                                2048
                            },
                            n: if i % 4 < 2 {
                                1024
                            } else {
                                2048
                            },
                            k: 1024,
                        }
                    } else {
                        Problem { m: args.m, n: args.n, k: args.k }
                    },
                );
                assert(out@ =~= want.subrange(0, i + 1));
                i = i + 1;
            }
            assert(out@ =~= want);
            Ok(out)
        },
    }
}

/// The tile for most products.
pub open spec fn baseline_tile() -> TileConfig {
    TileConfig { bm: 128, bn: 128, bk: 128, num_ctas: 1, occupancy: 1 }
}

/// The tile for large products.
pub open spec fn large_tile() -> TileConfig {
    TileConfig { bm: 256, bn: 256, bk: 64, num_ctas: 2, occupancy: 1 }
}

/// The tile of a product: the named one, or by its size.
pub open spec fn tile_of(spec: Seq<char>, p: Problem) -> Result<TileConfig, GroupError> {
    let name = lower_all(trim_spec(spec));
    if name == "auto"@ {
        if p.m >= 2048 && p.n >= 2048 && p.k >= 512 {
            Ok(large_tile())
        } else {
            Ok(baseline_tile())
        }
    } else if name == "128x128x128"@ || name == "128,128,128"@ {
        Ok(baseline_tile())
    } else if name == "256x256x64"@ || name == "256,256,64"@ {
        Ok(large_tile())
    } else {
        Err(GroupError::UnknownTile)
    }
}

/// The tile of a product.
pub fn choose_tile_config(spec: &str, problem: Problem) -> (r: Result<TileConfig, GroupError>)
    ensures
        r == tile_of(spec@, problem),
{
    let text: Vec<char> = chars(spec);
    let name: Vec<char> = to_lower(trim(text.as_slice()));
    let n: &[char] = name.as_slice();
    let baseline = TileConfig { bm: 128, bn: 128, bk: 128, num_ctas: 1, occupancy: 1 };
    let large = TileConfig { bm: 256, bn: 256, bk: 64, num_ctas: 2, occupancy: 1 };
    if is_text(n, "auto") {
        if problem.m >= 2048 && problem.n >= 2048 && problem.k >= 512 {
            Ok(large)
        } else {
            Ok(baseline)
        }
    } else if is_text(n, "128x128x128") || is_text(n, "128,128,128") {
        Ok(baseline)
    } else if is_text(n, "256x256x64") || is_text(n, "256,256,64") {
        Ok(large)
    } else {
        Err(GroupError::UnknownTile)
    }
}

/// Whether the tile divides the product.
pub open spec fn divides(p: Problem, t: TileConfig) -> bool {
    p.m as int % t.bm as int == 0 && p.n as int % t.bn as int == 0 && p.k as int % t.bk as int == 0
}

/// Checks that the tile divides the product.
pub fn ensure_tile_divisible(problem: Problem, cfg: TileConfig) -> (r: Result<(), GroupError>)
    requires
        cfg.bm > 0 && cfg.bn > 0 && cfg.bk > 0,
    ensures
        r == (if divides(problem, cfg) {
            Ok::<(), GroupError>(())
        } else {
            Err(GroupError::NotDivisible { problem, tile: cfg })
        }),
{
    if problem.m % cfg.bm == 0 && problem.n % cfg.bn == 0 && problem.k % cfg.bk == 0 {
        Ok(())
    } else {
        Err(GroupError::NotDivisible { problem, tile: cfg })
    }
}

/// The products that run with one tile.
#[derive(Debug)]
pub struct GroupBucket {
    pub cfg: TileConfig,
    pub problems: Vec<Problem>,
}

/// The products that run with one tile.
#[verifier::ext_equal]
pub struct BucketModel {
    pub cfg: TileConfig,
    pub problems: Seq<Problem>,
}

impl View for GroupBucket {
    type V = BucketModel;

    open spec fn view(&self) -> BucketModel {
        BucketModel { cfg: self.cfg, problems: self.problems@ }
    }
}

/// The models of buckets.
pub open spec fn bucket_models(v: Seq<GroupBucket>) -> Seq<BucketModel> {
    v.map_values(|b: GroupBucket| b@)
}

/// The place of the first bucket of a tile.
pub open spec fn bucket_of(buckets: Seq<BucketModel>, cfg: TileConfig) -> Option<int>
    decreases buckets.len(),
{
    if buckets.len() == 0 {
        None
    } else {
        match bucket_of(buckets.drop_last(), cfg) {
            Some(i) => Some(i),
            None => if buckets.last().cfg == cfg {
                Some(buckets.len() - 1)
            } else {
                None
            },
        }
    }
}

/// The buckets with one more product.
pub open spec fn with_problem(buckets: Seq<BucketModel>, cfg: TileConfig, p: Problem) -> Seq<
    BucketModel,
> {
    match bucket_of(buckets, cfg) {
        Some(i) => buckets.update(
            i,
            BucketModel { cfg: buckets[i].cfg, problems: buckets[i].problems.push(p) },
        ),
        None => buckets.push(BucketModel { cfg, problems: seq![p] }),
    }
}

/// The buckets of products: each goes to the bucket of its tile.
pub open spec fn buckets_of(spec: Seq<char>, problems: Seq<Problem>) -> Result<
    Seq<BucketModel>,
    GroupError,
>
    decreases problems.len(),
{
    if problems.len() == 0 {
        Ok(Seq::empty())
    } else {
        match buckets_of(spec, problems.drop_last()) {
            Err(e) => Err(e),
            Ok(b) => match tile_of(spec, problems.last()) {
                Err(e) => Err(e),
                Ok(cfg) => if !divides(problems.last(), cfg) {
                    Err(GroupError::NotDivisible { problem: problems.last(), tile: cfg })
                } else {
                    Ok(with_problem(b, cfg, problems.last()))
                },
            },
        }
    }
}

proof fn lemma_buckets_error(spec: Seq<char>, problems: Seq<Problem>, k: int)
    requires
        0 <= k <= problems.len(),
        buckets_of(spec, problems.subrange(0, k)) is Err,
    ensures
        buckets_of(spec, problems) == buckets_of(spec, problems.subrange(0, k)),
    decreases problems.len() - k,
{
    if k < problems.len() {
        assert(problems.subrange(0, k + 1).drop_last() =~= problems.subrange(0, k));
        lemma_buckets_error(spec, problems, k + 1);
    } else {
        assert(problems.subrange(0, k) =~= problems);
    }
}

/// What `bucket_of` finds is the first bucket of the tile.
proof fn lemma_bucket_of(buckets: Seq<BucketModel>, cfg: TileConfig)
    ensures
        match bucket_of(buckets, cfg) {
            Some(i) => 0 <= i < buckets.len() && buckets[i].cfg == cfg && forall|k: int|
                0 <= k < i ==> (#[trigger] buckets[k]).cfg != cfg,
            None => forall|k: int| 0 <= k < buckets.len() ==> (#[trigger] buckets[k]).cfg != cfg,
        },
    decreases buckets.len(),
{
    if buckets.len() > 0 {
        let b = buckets.drop_last();
        lemma_bucket_of(b, cfg);
        assert(forall|k: int| 0 <= k < b.len() ==> b[k] == buckets[k]);
    }
}

/// All products of all buckets.
pub open spec fn all_in(buckets: Seq<BucketModel>) -> vstd::multiset::Multiset<Problem>
    decreases buckets.len(),
{
    if buckets.len() == 0 {
        vstd::multiset::Multiset::empty()
    } else {
        all_in(buckets.drop_last()).add(buckets.last().problems.to_multiset())
    }
}

proof fn lemma_all_in_update(buckets: Seq<BucketModel>, i: int, p: Problem)
    requires
        0 <= i < buckets.len(),
    ensures
        all_in(
            buckets.update(
                i,
                BucketModel { cfg: buckets[i].cfg, problems: buckets[i].problems.push(p) },
            ),
        ) == all_in(buckets).insert(p),
    decreases buckets.len(),
{
    let now = BucketModel { cfg: buckets[i].cfg, problems: buckets[i].problems.push(p) };
    let after = buckets.update(i, now);
    if i < buckets.len() - 1 {
        lemma_all_in_update(buckets.drop_last(), i, p);
        assert(after.drop_last() =~= buckets.drop_last().update(i, now));
        assert(after.last() == buckets.last());
        assert(all_in(after) =~= all_in(buckets).insert(p));
    } else {
        assert(after.drop_last() =~= buckets.drop_last());
        vstd::seq_lib::to_multiset_build(buckets[i].problems, p);
        assert(all_in(after) =~= all_in(buckets).insert(p));
    }
}

/// The buckets hold every product once, no two have the same tile, and the tile of a
/// bucket is that of each of its products and divides it.
pub proof fn law_buckets_partition(spec: Seq<char>, problems: Seq<Problem>)
    ensures
        buckets_of(spec, problems) matches Ok(b) ==> {
            &&& all_in(b) == problems.to_multiset()
            &&& forall|i: int, j: int|
                #![trigger b[i], b[j]]
                0 <= i < j < b.len() ==> b[i].cfg != b[j].cfg
            &&& forall|i: int, k: int|
                #![trigger b[i].problems[k]]
                0 <= i < b.len() && 0 <= k < b[i].problems.len() ==> tile_of(
                    spec,
                    b[i].problems[k],
                ) == Ok::<TileConfig, GroupError>(b[i].cfg) && divides(b[i].problems[k], b[i].cfg)
        },
    decreases problems.len(),
{
    if problems.len() == 0 {
        broadcast use vstd::seq_lib::group_to_multiset_ensures;

        assert(problems.to_multiset() =~= vstd::multiset::Multiset::empty());
    } else {
        law_buckets_partition(spec, problems.drop_last());
        match buckets_of(spec, problems) {
            Ok(b) => {
                let before = buckets_of(spec, problems.drop_last())->Ok_0;
                let p = problems.last();
                let cfg = tile_of(spec, p)->Ok_0;
                lemma_bucket_of(before, cfg);
                vstd::seq_lib::to_multiset_build(problems.drop_last(), p);
                assert(problems =~= problems.drop_last().push(p));
                match bucket_of(before, cfg) {
                    Some(i) => {
                        lemma_all_in_update(before, i, p);
                        assert forall|a: int, k: int|
                            #![trigger b[a].problems[k]]
                            0 <= a < b.len() && 0 <= k < b[a].problems.len() implies tile_of(
                            spec,
                            b[a].problems[k],
                        ) == Ok::<TileConfig, GroupError>(b[a].cfg) && divides(
                            b[a].problems[k],
                            b[a].cfg,
                        ) by {
                            if a != i {
                                assert(b[a].problems[k] == before[a].problems[k]);
                            } else if k < before[i].problems.len() {
                                assert(b[a].problems[k] == before[i].problems[k]);
                            }
                        }
                        assert forall|x: int, y: int|
                            #![trigger b[x], b[y]]
                            0 <= x < y < b.len() implies b[x].cfg != b[y].cfg by {
                            assert(before[x].cfg != before[y].cfg);
                        }
                    },
                    None => {
                        assert(b.drop_last() =~= before);
                        vstd::seq_lib::to_multiset_build(Seq::<Problem>::empty(), p);
                        assert(seq![p] =~= Seq::<Problem>::empty().push(p));
                        broadcast use vstd::seq_lib::group_to_multiset_ensures;

                        assert(Seq::<Problem>::empty().to_multiset()
                            =~= vstd::multiset::Multiset::empty());
                        assert(all_in(b) =~= all_in(before).insert(p));
                        assert forall|a: int, k: int|
                            #![trigger b[a].problems[k]]
                            0 <= a < b.len() && 0 <= k < b[a].problems.len() implies tile_of(
                            spec,
                            b[a].problems[k],
                        ) == Ok::<TileConfig, GroupError>(b[a].cfg) && divides(
                            b[a].problems[k],
                            b[a].cfg,
                        ) by {
                            if a < before.len() {
                                assert(b[a].problems[k] == before[a].problems[k]);
                            }
                        }
                        assert forall|x: int, y: int|
                            #![trigger b[x], b[y]]
                            0 <= x < y < b.len() implies b[x].cfg != b[y].cfg by {
                            if y < before.len() {
                                assert(before[x].cfg != before[y].cfg);
                            } else {
                                assert(b[x] == before[x]);
                            }
                        }
                    },
                }
            },
            Err(_) => {},
        }
    }
}

/// Where the bucket of a tile is.
fn find_bucket(buckets: &Vec<GroupBucket>, cfg: TileConfig) -> (r: Option<usize>)
    ensures
        bucket_of(bucket_models(buckets@), cfg) == (match r {
            Some(i) => Some(i as int),
            None => None,
        }),
{
    let ghost all = bucket_models(buckets@);
    let mut i: usize = 0;
    proof {
        lemma_bucket_of(all, cfg);
    }
    while i < buckets.len()
        invariant
            i <= buckets@.len(),
            all == bucket_models(buckets@),
            forall|k: int| 0 <= k < i ==> (#[trigger] all[k]).cfg != cfg,
        decreases buckets@.len() - i,
    {
        assert(all[i as int].cfg == buckets@[i as int].cfg);
        if buckets[i].cfg == cfg {
            proof {
                lemma_bucket_of(all, cfg);
            }
            return Some(i);
        }
        i = i + 1;
    }
    proof {
        lemma_bucket_of(all, cfg);
    }
    None
}

/// The buckets of products.
pub fn build_buckets(tile_config: &str, problems: &[Problem]) -> (r: Result<
    Vec<GroupBucket>,
    GroupError,
>)
    ensures
        match r {
            Ok(v) => buckets_of(tile_config@, problems@) == Ok::<Seq<BucketModel>, GroupError>(
                bucket_models(v@),
            ),
            Err(e) => buckets_of(tile_config@, problems@) == Err::<Seq<BucketModel>, GroupError>(e),
        },
{
    let ghost all = problems@;
    let ghost spec = tile_config@;
    let mut out: Vec<GroupBucket> = Vec::new();
    let mut i: usize = 0;
    assert(all.subrange(0, 0) =~= Seq::empty());
    assert(bucket_models(out@) =~= Seq::empty());
    while i < problems.len()
        invariant
            i <= problems@.len(),
            all == problems@,
            spec == tile_config@,
            buckets_of(spec, all.subrange(0, i as int)) == Ok::<Seq<BucketModel>, GroupError>(
                bucket_models(out@),
            ),
        decreases problems@.len() - i,
    {
        let problem: Problem = problems[i];
        let ghost now = all.subrange(0, i + 1);
        assert(now.drop_last() =~= all.subrange(0, i as int));
        let cfg: TileConfig = match choose_tile_config(tile_config, problem) {
            Ok(c) => c,
            Err(e) => {
                proof {
                    lemma_buckets_error(spec, all, i + 1);
                }
                return Err(e);
            },
        };
        match ensure_tile_divisible(problem, cfg) {
            Ok(_) => {},
            Err(e) => {
                proof {
                    lemma_buckets_error(spec, all, i + 1);
                }
                return Err(e);
            },
        }
        let ghost before = bucket_models(out@);
        match find_bucket(&out, cfg) {
            Some(at) => {
                proof {
                    lemma_bucket_of(before, cfg);
                }
                let mut bucket: GroupBucket = out.remove(at);
                bucket.problems.push(problem);
                out.insert(at, bucket);
                assert(bucket_models(out@) =~= with_problem(before, cfg, problem));
            },
            None => {
                let problems_here: Vec<Problem> = vec![problem];
                assert(problems_here@ =~= seq![problem]);
                out.push(GroupBucket { cfg, problems: problems_here });
                assert(bucket_models(out@) =~= with_problem(before, cfg, problem));
            },
        }
        i = i + 1;
    }
    assert(all.subrange(0, all.len() as int) =~= all);
    Ok(out)
}

/// Which matrix of a product.
#[derive(Clone, Copy, Debug, PartialEq, Eq, Structural)]
pub enum TensorRole {
    A,
    B,
    C,
}

/// Rows, columns and row stride of a matrix of a product.
pub open spec fn meta_of(p: Problem, role: TensorRole) -> (usize, usize, usize) {
    match role {
        TensorRole::A => (p.m, p.k, p.k),
        TensorRole::B => (p.k, p.n, p.n),
        TensorRole::C => (p.m, p.n, p.n),
    }
}

/// Entry `j` of the eight that describe a matrix to the device.
pub open spec fn meta_entry(p: Problem, role: TensorRole, j: int) -> i32 {
    let (rows, cols, stride) = meta_of(p, role);
    if j == 0 {
        rows as i32
    } else if j == 1 {
        cols as i32
    } else if j == 2 {
        stride as i32
    } else {
        0
    }
}

/// The descriptions of a matrix of each product, eight entries each.
pub open spec fn metas_of(problems: Seq<Problem>, role: TensorRole) -> Seq<i32> {
    Seq::new(8 * problems.len(), |i: int| meta_entry(problems[i / 8], role, i % 8))
}

/// The descriptions of a matrix of each product.
pub fn meta_rows(problems: &[Problem], role: TensorRole) -> (r: Vec<i32>)
    ensures
        r@ == metas_of(problems@, role),
{
    let ghost all = problems@;
    let mut rows: Vec<i32> = Vec::new();
    let mut i: usize = 0;
    while i < problems.len()
        invariant
            i <= problems@.len(),
            all == problems@,
            rows@ == metas_of(all.subrange(0, i as int), role),
        decreases problems@.len() - i,
    {
        let p: Problem = problems[i];
        let (rows_dim, cols_dim, stride0) = match role {
            TensorRole::A => (p.m, p.k, p.k),
            TensorRole::B => (p.k, p.n, p.n),
            TensorRole::C => (p.m, p.n, p.n),
        };
        let ghost before = rows@;
        rows.push(rows_dim as i32);
        rows.push(cols_dim as i32);
        rows.push(stride0 as i32);
        rows.push(0);
        rows.push(0);
        rows.push(0);
        rows.push(0);
        rows.push(0);
        let ghost now = all.subrange(0, i + 1);
        assert forall|j: int| 0 <= j < 8 * (i + 1) implies rows@[j] == metas_of(now, role)[j] by {
            if j < 8 * i {
                assert(rows@[j] == before[j]);
                assert(now[j / 8] == all.subrange(0, i as int)[j / 8]);
            } else {
                assert(j / 8 == i as int);
                assert(now[j / 8] == p);
            }
        }
        assert(rows@ =~= metas_of(now, role));
        i = i + 1;
    }
    assert(all.subrange(0, all.len() as int) =~= all);
    rows
}

/// Blocks of a launch on a device with this many multiprocessors.
pub open spec fn bucket_blocks(cfg: TileConfig, sms: usize) -> int {
    let n = (sms as int / cfg.num_ctas as int) * cfg.occupancy;
    if n >= 1 {
        n
    } else {
        1
    }
}

/// How a bucket runs: one launch over all its products.
pub open spec fn bucket_call(cfg: TileConfig, count: nat, sms: usize) -> CallModel {
    let blocks = bucket_blocks(cfg, sms) as usize;
    CallModel {
        ints: seq![count as usize],
        grid: Some(Grid { x: blocks, y: 1, z: 1 }),
        hint: Hint::Clusters { occupancy: cfg.occupancy, ctas: cfg.num_ctas, divisor: 16 },
        ..plain_call(
            Kernel::GroupGemm,
            Seq::empty(),
            seq![cfg.bm, cfg.bn, cfg.bk, blocks],
        )
    }
}

/// How a bucket runs.
pub fn launch_bucket(bucket: &GroupBucket, physical_sms: usize) -> (r: KernelCall)
    requires
        bucket.cfg.num_ctas > 0,
        (physical_sms as int / bucket.cfg.num_ctas as int) * bucket.cfg.occupancy <= usize::MAX,
    ensures
        r@ == bucket_call(bucket.cfg, bucket.problems@.len(), physical_sms),
{
    let cfg: TileConfig = bucket.cfg;
    let n: usize = physical_sms / cfg.num_ctas * cfg.occupancy;
    let blocks: usize = if n >= 1 {
        n
    } else {
        1
    };
    let mut call: KernelCall = new_call(
        Kernel::GroupGemm,
        Vec::new(),
        vec![cfg.bm, cfg.bn, cfg.bk, blocks],
    );
    call.ints = vec![bucket.problems.len()];
    call.grid = Some(Grid { x: blocks, y: 1, z: 1 });
    call.hint = Hint::Clusters { occupancy: cfg.occupancy, ctas: cfg.num_ctas, divisor: 16 };
    assert(call@ =~= bucket_call(bucket.cfg, bucket.problems@.len(), physical_sms));
    call
}

} // verus!
