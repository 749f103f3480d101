//! The benchmark of products with one weight matrix: which shapes run, and how.
use crate::text::{
    chars, is_text, lower_all, piece_views, split, split_spec, to_lower, trim, trim_spec,
};
use vstd::prelude::*;

verus! {

/// What is measured.
#[derive(Clone, Copy, Debug, PartialEq, Eq, Structural)]
pub enum BenchMode {
    /// A matrix times a vector.
    Gemv,
    /// A matrix times a matrix.
    Gemm,
}

/// Models whose shapes are known.
#[derive(Clone, Copy, Debug, PartialEq, Eq, Structural)]
pub enum ModelSize {
    B4,
    B32,
}

/// The products of a model.
#[derive(Clone, Copy, Debug, PartialEq, Eq, Structural)]
pub enum Projection {
    Qkv,
    O,
    GateUp,
    Down,
    LmHead,
    Q,
    K,
    V,
    GateOnly,
    UpOnly,
}

/// A product: `m` rows of `k` columns.
#[derive(Clone, Copy, Debug, PartialEq, Eq, Structural)]
pub struct BenchShape {
    pub projection: Projection,
    pub m: usize,
    pub k: usize,
}

/// Why the benchmark does not run.
#[derive(Clone, Copy, Debug, PartialEq, Eq, Structural)]
pub enum GemvError {
    UnknownMode,
    UnknownModel,
    /// There is no such shape. Shapes count from 0, empty ones too.
    UnknownShape { place: usize },
    NoShapes,
}

impl Projection {
    /// The name in the output.
    pub open spec fn text(self) -> Seq<char> {
        match self {
            Projection::Qkv => "qkv"@,
            Projection::O => "o_proj"@,
            Projection::GateUp => "gate_up"@,
            Projection::Down => "down"@,
            Projection::LmHead => "lm_head"@,
            Projection::Q => "q"@,
            Projection::K => "k"@,
            Projection::V => "v"@,
            Projection::GateOnly => "gate_only"@,
            Projection::UpOnly => "up_only"@,
        }
    }

    /// The name in the output.
    pub fn name(self) -> (r: &'static str)
        ensures
            r@ == self.text(),
    {
        match self {
            Projection::Qkv => "qkv",
            Projection::O => "o_proj",
            Projection::GateUp => "gate_up",
            Projection::Down => "down",
            Projection::LmHead => "lm_head",
            Projection::Q => "q",
            Projection::K => "k",
            Projection::V => "v",
            Projection::GateOnly => "gate_only",
            Projection::UpOnly => "up_only",
        }
    }
}

/// The mode that a text names.
pub open spec fn mode_of(text: Seq<char>) -> Result<BenchMode, GemvError> {
    let t = lower_all(trim_spec(text));
    if t == "gemv"@ {
        Ok(BenchMode::Gemv)
    } else if t == "gemm"@ {
        Ok(BenchMode::Gemm)
    } else {
        Err(GemvError::UnknownMode)
    }
}

/// The mode that a text names.
pub fn selected_mode(mode: &str) -> (r: Result<BenchMode, GemvError>)
    ensures
        r == mode_of(mode@),
{
    let text: Vec<char> = chars(mode);
    let t: Vec<char> = to_lower(trim(text.as_slice()));
    if is_text(t.as_slice(), "gemv") {
        Ok(BenchMode::Gemv)
    } else if is_text(t.as_slice(), "gemm") {
        Ok(BenchMode::Gemm)
    } else {
        Err(GemvError::UnknownMode)
    }
}

/// The model that a text names.
pub open spec fn model_of(text: Seq<char>) -> Option<ModelSize> {
    let t = lower_all(trim_spec(text));
    if t == "4b"@ || t == "qwen3_4b"@ || t == "qwen3-4b"@ {
        Some(ModelSize::B4)
    } else if t == "32b"@ || t == "qwen3_32b"@ || t == "qwen3-32b"@ {
        Some(ModelSize::B32)
    } else {
        None
    }
}

fn find_model(model_size: &str) -> (r: Option<ModelSize>)
    ensures
        r == model_of(model_size@),
{
    let text: Vec<char> = chars(model_size);
    let t: Vec<char> = to_lower(trim(text.as_slice()));
    let s: &[char] = t.as_slice();
    if is_text(s, "4b") || is_text(s, "qwen3_4b") || is_text(s, "qwen3-4b") {
        Some(ModelSize::B4)
    } else if is_text(s, "32b") || is_text(s, "qwen3_32b") || is_text(s, "qwen3-32b") {
        Some(ModelSize::B32)
    } else {
        None
    }
}

/// The shape of a product of a model.
pub open spec fn shape_of_model(size: ModelSize, projection: Projection) -> BenchShape {
    let (m, k) = (match (size, projection) {
        (ModelSize::B4, Projection::Qkv) => (6144usize, 2560usize),
        (ModelSize::B4, Projection::O) => (2560, 4096),
        (ModelSize::B4, Projection::GateUp) => (19456, 2560),
        (ModelSize::B4, Projection::Down) => (2560, 9728),
        (ModelSize::B4, Projection::LmHead) => (151936, 2560),
        (ModelSize::B32, Projection::Qkv) => (10240, 5120),
        (ModelSize::B32, Projection::O) => (5120, 8192),
        (ModelSize::B32, Projection::GateUp) => (51200, 5120),
        (ModelSize::B32, Projection::Down) => (5120, 25600),
        (ModelSize::B32, Projection::LmHead) => (151936, 5120),
        (_, Projection::Q) => (8192, 5120),
        (_, Projection::K) => (1024, 5120),
        (_, Projection::V) => (1024, 5120),
        (_, Projection::GateOnly) => (25600, 5120),
        (_, Projection::UpOnly) => (25600, 5120),
    });
    BenchShape { projection, m, k }
}

fn new_shape(size: ModelSize, projection: Projection) -> (r: BenchShape)
    ensures
        r == shape_of_model(size, projection),
{
    let (m, k): (usize, usize) = match (size, projection) {
        (ModelSize::B4, Projection::Qkv) => (6144, 2560),
        (ModelSize::B4, Projection::O) => (2560, 4096),
        (ModelSize::B4, Projection::GateUp) => (19456, 2560),
        (ModelSize::B4, Projection::Down) => (2560, 9728),
        (ModelSize::B4, Projection::LmHead) => (151936, 2560),
        (ModelSize::B32, Projection::Qkv) => (10240, 5120),
        (ModelSize::B32, Projection::O) => (5120, 8192),
        (ModelSize::B32, Projection::GateUp) => (51200, 5120),
        (ModelSize::B32, Projection::Down) => (5120, 25600),
        (ModelSize::B32, Projection::LmHead) => (151936, 5120),
        (_, Projection::Q) => (8192, 5120),
        (_, Projection::K) => (1024, 5120),
        (_, Projection::V) => (1024, 5120),
        (_, Projection::GateOnly) => (25600, 5120),
        (_, Projection::UpOnly) => (25600, 5120),
    };
    BenchShape { projection, m, k }
}

/// The product that a name stands for. Only the large model is measured in slices.
pub open spec fn projection_of(size: ModelSize, t: Seq<char>) -> Option<Projection> {
    if t == "qkv"@ || t == "q_proj"@ || t == "k_proj"@ || t == "v_proj"@ {
        Some(Projection::Qkv)
    } else if t == "o_proj"@ || t == "o"@ {
        Some(Projection::O)
    } else if t == "gate_up"@ || t == "gate"@ || t == "up"@ || t == "gate_proj"@ || t
        == "up_proj"@ {
        Some(Projection::GateUp)
    } else if t == "down"@ || t == "down_proj"@ {
        Some(Projection::Down)
    } else if t == "lm_head"@ || t == "lm"@ || t == "head"@ {
        Some(Projection::LmHead)
    } else if size is B4 {
        None
    } else if t == "q"@ || t == "q_only"@ {
        Some(Projection::Q)
    } else if t == "k"@ || t == "k_only"@ {
        Some(Projection::K)
    } else if t == "v"@ || t == "v_only"@ {
        Some(Projection::V)
    } else if t == "gate_only"@ {
        Some(Projection::GateOnly)
    } else if t == "up_only"@ {
        Some(Projection::UpOnly)
    } else {
        None
    }
}

fn find_projection(size: ModelSize, t: &[char]) -> (r: Option<Projection>)
    ensures
        r == projection_of(size, t@),
{
    if is_text(t, "qkv") || is_text(t, "q_proj") || is_text(t, "k_proj") || is_text(t, "v_proj") {
        return Some(Projection::Qkv);
    }
    if is_text(t, "o_proj") || is_text(t, "o") {
        return Some(Projection::O);
    }
    if is_text(t, "gate_up") || is_text(t, "gate") || is_text(t, "up") || is_text(t, "gate_proj")
        || is_text(t, "up_proj") {
        return Some(Projection::GateUp);
    }
    if is_text(t, "down") || is_text(t, "down_proj") {
        return Some(Projection::Down);
    }
    if is_text(t, "lm_head") || is_text(t, "lm") || is_text(t, "head") {
        return Some(Projection::LmHead);
    }
    if size == ModelSize::B4 {
        return None;
    }
    if is_text(t, "q") || is_text(t, "q_only") {
        Some(Projection::Q)
    } else if is_text(t, "k") || is_text(t, "k_only") {
        Some(Projection::K)
    } else if is_text(t, "v") || is_text(t, "v_only") {
        Some(Projection::V)
    } else if is_text(t, "gate_only") {
        Some(Projection::GateOnly)
    } else if is_text(t, "up_only") {
        Some(Projection::UpOnly)
    } else {
        None
    }
}

/// The products of a model.
pub open spec fn all_shapes(size: ModelSize) -> Seq<BenchShape> {
    seq![
        shape_of_model(size, Projection::Qkv),
        shape_of_model(size, Projection::O),
        shape_of_model(size, Projection::GateUp),
        shape_of_model(size, Projection::Down),
        shape_of_model(size, Projection::LmHead),
    ]
}

/// The products that the first pieces name, empty ones left out.
pub open spec fn named_shapes(size: ModelSize, pieces: Seq<Seq<char>>) -> Result<
    Seq<BenchShape>,
    GemvError,
>
    decreases pieces.len(),
{
    if pieces.len() == 0 {
        Ok(Seq::empty())
    } else {
        match named_shapes(size, pieces.drop_last()) {
            Err(e) => Err(e),
            Ok(s) => {
                let t = trim_spec(pieces.last());
                if t.len() == 0 {
                    Ok(s)
                } else {
                    match projection_of(size, t) {
                        Some(p) => Ok(s.push(shape_of_model(size, p))),
                        None => Err(
                            GemvError::UnknownShape { place: (pieces.len() - 1) as usize },
                        ),
                    }
                }
            },
        }
    }
}

proof fn lemma_named_error(size: ModelSize, pieces: Seq<Seq<char>>, k: int)
    requires
        0 <= k <= pieces.len(),
        named_shapes(size, pieces.subrange(0, k)) is Err,
    ensures
        named_shapes(size, pieces) == named_shapes(size, pieces.subrange(0, k)),
    decreases pieces.len() - k,
{
    if k < pieces.len() {
        assert(pieces.subrange(0, k + 1).drop_last() =~= pieces.subrange(0, k));
        lemma_named_error(size, pieces, k + 1);
    } else {
        assert(pieces.subrange(0, k) =~= pieces);
    }
}

/// The products that a list names: all of the model where it is empty or says so.
pub open spec fn shapes_in(model: Seq<char>, spec: Seq<char>) -> Result<
    Seq<BenchShape>,
    GemvError,
> {
    match model_of(model) {
        None => Err(GemvError::UnknownModel),
        Some(size) => {
            let t = trim_spec(spec);
            if t.len() == 0 || t == "all"@ {
                Ok(all_shapes(size))
            } else {
                match named_shapes(size, split_spec(t, seq![','])) {
                    Err(e) => Err(e),
                    Ok(s) => if s.len() == 0 {
                        Err(GemvError::NoShapes)
                    } else {
                        Ok(s)
                    },
                }
            }
        },
    }
}

/// The products that a list names.
pub fn selected_shapes(model_size: &str, spec: &str) -> (r: Result<Vec<BenchShape>, GemvError>)
    ensures
        match r {
            Ok(v) => shapes_in(model_size@, spec@) == Ok::<Seq<BenchShape>, GemvError>(v@),
            Err(e) => shapes_in(model_size@, spec@) == Err::<Seq<BenchShape>, GemvError>(e),
        },
{
    let size: ModelSize = match find_model(model_size) {
        Some(s) => s,
        None => {
            return Err(GemvError::UnknownModel);
        },
    };
    let text: Vec<char> = chars(spec);
    let t: &[char] = trim(text.as_slice());
    if t.len() == 0 || is_text(t, "all") {
        let v: Vec<BenchShape> = vec![
            new_shape(size, Projection::Qkv),
            new_shape(size, Projection::O),
            new_shape(size, Projection::GateUp),
            new_shape(size, Projection::Down),
            new_shape(size, Projection::LmHead),
        ];
        assert(v@ =~= all_shapes(size));
        return Ok(v);
    }
    let seps: [char; 1] = [','];
    assert(seps@ =~= seq![',']);
    let pieces: Vec<Vec<char>> = split(t, &seps);
    let ghost all = piece_views(pieces@);
    let mut out: Vec<BenchShape> = Vec::new();
    let mut i: usize = 0;
    assert(all.subrange(0, 0) =~= Seq::empty());
    while i < pieces.len()
        invariant
            i <= pieces@.len(),
            all == piece_views(pieces@),
            all == split_spec(trim_spec(spec@), seq![',']),
            Some(size) == model_of(model_size@),
            !(trim_spec(spec@).len() == 0 || trim_spec(spec@) == "all"@),
            named_shapes(size, all.subrange(0, i as int)) == Ok::<Seq<BenchShape>, GemvError>(
                out@,
            ),
        decreases pieces@.len() - i,
    {
        let ghost now = all.subrange(0, i + 1);
        assert(now.drop_last() =~= all.subrange(0, i as int));
        assert(now.last() == pieces@[i as int]@);
        let name: &[char] = trim(pieces[i].as_slice());
        if name.len() > 0 {
            match find_projection(size, name) {
                Some(p) => {
                    out.push(new_shape(size, p));
                },
                None => {
                    proof {
                        lemma_named_error(size, all, i + 1);
                    }
                    return Err(GemvError::UnknownShape { place: i });
                },
            }
        }
        i = i + 1;
    }
    assert(all.subrange(0, all.len() as int) =~= all);
    if out.len() == 0 {
        return Err(GemvError::NoShapes);
    }
    Ok(out)
}

/// Vectors that are multiplied at once.
pub open spec fn vectors_of(mode: BenchMode, n: usize) -> usize {
    if mode is Gemv {
        1
    } else {
        n
    }
}

/// Rows of the other factor: one where it is a vector.
pub fn rhs_rows(mode: BenchMode, n: usize) -> (r: usize)
    ensures
        r == vectors_of(mode, n),
{
    match mode {
        BenchMode::Gemv => 1,
        BenchMode::Gemm => n,
    }
}

/// Bytes of the weights, and of all that a product of `n` vectors moves, two per element.
pub open spec fn traffic_of(shape: BenchShape, n: usize) -> (int, int) {
    (shape.m * shape.k * 2, (shape.m * shape.k + n * shape.k + n * shape.m) * 2)
}

/// Bytes of the weight, and of everything that is read and written, two per element.
pub fn traffic_bytes(shape: BenchShape, n: usize) -> (r: (usize, usize))
    requires
        (shape.m * shape.k + n * shape.k + n * shape.m) * 2 <= usize::MAX,
    ensures
        (r.0 as int, r.1 as int) == traffic_of(shape, n),
{
    assert(shape.m * shape.k >= 0 && n * shape.k >= 0 && n * shape.m >= 0) by (nonlinear_arith)
        requires
            shape.m >= 0,
            shape.k >= 0,
            n >= 0,
    ;
    let w: usize = shape.m * shape.k;
    (w * 2, (w + n * shape.k + n * shape.m) * 2)
}

} // verus!
