//! Rules for products on the device's matrix library: which arithmetic and algorithm a
//! product uses, which sizes it takes, and what happens after a failure.
use crate::kernel::LaunchError;
use crate::text::{
    chars, has_prefix, is_digit, is_text, lower_all, parse_usize, parse_usize_spec, strip_prefix,
    to_lower, trim, trim_spec,
};
use vstd::prelude::*;
use vstd::slice::slice_subrange;

verus! {

/// How a product accumulates.
#[derive(Clone, Copy, Debug, PartialEq, Eq, Structural)]
pub enum ComputeType {
    /// In half precision.
    Half,
    /// In single precision, with half-precision factors.
    SingleFastHalf,
}

/// The algorithm of a product.
#[derive(Clone, Copy, Debug, PartialEq, Eq, Structural)]
pub enum GemmAlgo {
    Default,
    DefaultTensorOp,
    /// One of the numbered algorithms.
    TensorOp(u8),
}

/// How a product is computed.
#[derive(Clone, Copy, Debug, PartialEq, Eq, Structural)]
pub struct GemmDispatch {
    pub compute_type: ComputeType,
    pub algo: GemmAlgo,
}

/// A decimal number from 0 to 15, without leading zero.
pub open spec fn small_number(d: Seq<char>) -> Option<u8> {
    if d.len() == 1 && is_digit(d[0]) {
        Some((d[0] as int - '0' as int) as u8)
    } else if d.len() == 2 && d[0] == '1' && '0' <= d[1] <= '5' {
        Some((10 + (d[1] as int - '0' as int)) as u8)
    } else {
        None
    }
}

/// `algo` and `algo.._tensor_op` around a number are left out.
pub open spec fn algo_core(t: Seq<char>) -> Seq<char> {
    if has_prefix(t, "algo"@) {
        let rest = t.subrange("algo"@.len() as int, t.len() as int);
        let tail = "_tensor_op"@;
        if rest.len() >= tail.len() && rest.subrange(rest.len() - tail.len(), rest.len() as int)
            == tail {
            rest.subrange(0, rest.len() - tail.len())
        } else {
            rest
        }
    } else {
        t
    }
}

/// The algorithm that a text names; unknown names mean the default on tensor cores.
pub open spec fn algo_spec(raw: Seq<char>) -> GemmAlgo {
    let t = lower_all(trim_spec(raw));
    if t == "default"@ {
        GemmAlgo::Default
    } else if t == "default_tensor_op"@ || t == "tensor_op"@ {
        GemmAlgo::DefaultTensorOp
    } else {
        match small_number(algo_core(t)) {
            Some(n) => GemmAlgo::TensorOp(n),
            None => GemmAlgo::DefaultTensorOp,
        }
    }
}

fn read_small_number(d: &[char]) -> (r: Option<u8>)
    ensures
        r == small_number(d@),
{
    if d.len() == 1 && '0' <= d[0] && d[0] <= '9' {
        Some((d[0] as u32 - '0' as u32) as u8)
    } else if d.len() == 2 && d[0] == '1' && '0' <= d[1] && d[1] <= '5' {
        Some((10 + (d[1] as u32 - '0' as u32)) as u8)
    } else {
        None
    }
}

/// The algorithm that a text names.
pub fn parse_gemm_algo(raw: &str) -> (r: GemmAlgo)
    ensures
        r == algo_spec(raw@),
{
    let c: Vec<char> = chars(raw);
    let low: Vec<char> = to_lower(trim(c.as_slice()));
    let t: &[char] = low.as_slice();
    if is_text(t, "default") {
        return GemmAlgo::Default;
    }
    if is_text(t, "default_tensor_op") || is_text(t, "tensor_op") {
        return GemmAlgo::DefaultTensorOp;
    }
    let core: &[char] = match strip_prefix(t, "algo") {
        None => t,
        Some(rest) => {
            proof {
                reveal_strlit("_tensor_op");
            }
            if rest.len() >= 10 && is_text(
                slice_subrange(rest, rest.len() - 10, rest.len()),
                "_tensor_op",
            ) {
                slice_subrange(rest, 0, rest.len() - 10)
            } else {
                rest
            }
        },
    };
    match read_small_number(core) {
        Some(n) => GemmAlgo::TensorOp(n),
        None => GemmAlgo::DefaultTensorOp,
    }
}

/// The algorithm that a variable names, and the default on tensor cores where it is not
/// set.
pub fn selected_fast_algo(raw: Option<&str>) -> (r: GemmAlgo)
    ensures
        r == match raw {
            Some(s) => algo_spec(s@),
            None => GemmAlgo::DefaultTensorOp,
        },
{
    match raw {
        Some(s) => parse_gemm_algo(s),
        None => GemmAlgo::DefaultTensorOp,
    }
}

/// Whether a product may accumulate in half precision: as the variable says, and where it
/// is not set always, but on devices of capability 10.0 only for one large product.
pub open spec fn half_enabled(
    capability: Option<(i32, i32)>,
    m: usize,
    n: usize,
    k: usize,
    compute16: Option<Seq<char>>,
) -> bool {
    match compute16 {
        Some(s) => s != "0"@,
        None => if capability == Some((10i32, 0i32)) {
            n == 1 && m == 51200 && k == 5120
        } else {
            true
        },
    }
}

/// The most rows for which a product accumulates in half precision.
pub open spec fn half_limit(max_m: Option<Seq<char>>) -> usize {
    match max_m {
        Some(s) => match parse_usize_spec(s) {
            Some(v) => v,
            None => usize::MAX,
        },
        None => usize::MAX,
    }
}

/// How a product of `m` rows accumulates.
pub open spec fn compute_type_spec(
    capability: Option<(i32, i32)>,
    m: usize,
    n: usize,
    k: usize,
    compute16: Option<Seq<char>>,
    max_m: Option<Seq<char>>,
) -> ComputeType {
    if half_enabled(capability, m, n, k, compute16) && m <= half_limit(max_m) {
        ComputeType::Half
    } else {
        ComputeType::SingleFastHalf
    }
}

/// How a product of `m` rows accumulates.
pub fn selected_fast_compute_type(
    capability: Option<(i32, i32)>,
    m: usize,
    n: usize,
    k: usize,
    compute16: Option<&str>,
    max_m: Option<&str>,
) -> (r: ComputeType)
    ensures
        r == compute_type_spec(
            capability,
            m,
            n,
            k,
            crate::knobs::text_of(compute16),
            crate::knobs::text_of(max_m),
        ),
{
    let enabled: bool = match compute16 {
        Some(s) => {
            let c: Vec<char> = chars(s);
            !is_text(c.as_slice(), "0")
        },
        None => match capability {
            Some((major, minor)) => if major == 10 && minor == 0 {
                n == 1 && m == 51200 && k == 5120
            } else {
                true
            },
            None => true,
        },
    };
    if !enabled {
        return ComputeType::SingleFastHalf;
    }
    let limit: usize = match max_m {
        Some(s) => {
            let c: Vec<char> = chars(s);
            match parse_usize(c.as_slice()) {
                Some(v) => v,
                None => usize::MAX,
            }
        },
        None => usize::MAX,
    };
    if m <= limit {
        ComputeType::Half
    } else {
        ComputeType::SingleFastHalf
    }
}

/// How a product is computed.
pub fn selected_gemm_dispatch(
    capability: Option<(i32, i32)>,
    m: usize,
    n: usize,
    k: usize,
    compute16: Option<&str>,
    max_m: Option<&str>,
    algo: Option<&str>,
) -> (r: GemmDispatch)
    ensures
        r.compute_type == compute_type_spec(
            capability,
            m,
            n,
            k,
            crate::knobs::text_of(compute16),
            crate::knobs::text_of(max_m),
        ),
        r.algo == match algo {
            Some(s) => algo_spec(s@),
            None => GemmAlgo::DefaultTensorOp,
        },
{
    GemmDispatch {
        compute_type: selected_fast_compute_type(capability, m, n, k, compute16, max_m),
        algo: selected_fast_algo(algo),
    }
}

/// The largest signed 32-bit number.
pub const I32_MAX: usize = 0x7fff_ffff;

/// Sizes of a product: `m` rows of the matrix, `n` vectors, `k` columns.
#[derive(Clone, Copy, Debug, PartialEq, Eq, Structural)]
pub struct GemmDims {
    pub m: usize,
    pub n: usize,
    pub k: usize,
}

/// Whether the library takes a product of these sizes.
pub open spec fn gemm_dims_check(d: GemmDims) -> Result<GemmDims, LaunchError> {
    if d.m == 0 || d.n == 0 || d.k == 0 {
        Err(LaunchError::Empty)
    } else if d.m > I32_MAX || d.n > I32_MAX || d.k > I32_MAX {
        Err(LaunchError::TooLarge)
    } else {
        Ok(d)
    }
}

/// The sizes of a product, where the library takes it.
pub fn gemm_dims(m: usize, n: usize, k: usize) -> (r: Result<GemmDims, LaunchError>)
    ensures
        r == gemm_dims_check(GemmDims { m, n, k }),
{
    if m == 0 || n == 0 || k == 0 {
        return Err(LaunchError::Empty);
    }
    if m > I32_MAX || n > I32_MAX || k > I32_MAX {
        return Err(LaunchError::TooLarge);
    }
    Ok(GemmDims { m, n, k })
}

/// A stream of a device.
#[derive(Clone, Copy, Debug, PartialEq, Eq, Structural)]
pub struct StreamKey {
    pub device: usize,
    pub stream: usize,
}

/// Whether the last product on a stream went well. Once one has failed on a stream, no
/// further one is tried there.
#[derive(Clone, Copy, Debug, PartialEq, Eq, Structural)]
pub enum FastPath {
    Unknown,
    Tried { key: StreamKey, ok: bool },
}

impl FastPath {
    /// Whether a product may be tried on a stream.
    pub open spec fn admits_spec(self, key: StreamKey) -> bool {
        !(self == (FastPath::Tried { key, ok: false }))
    }

    /// Whether a product may be tried on a stream.
    pub fn admits(self, key: StreamKey) -> (r: bool)
        ensures
            r == self.admits_spec(key),
    {
        match self {
            FastPath::Unknown => true,
            FastPath::Tried { key: known, ok } => ok || known != key,
        }
    }

    /// What is known after a product on a stream.
    pub open spec fn noted(self, key: StreamKey, ok: bool) -> FastPath {
        FastPath::Tried { key, ok }
    }

    /// Notes how a product on a stream went.
    pub fn note(&mut self, key: StreamKey, ok: bool)
        ensures
            *final(self) == old(self).noted(key, ok),
    {
        *self = FastPath::Tried { key, ok };
    }
}

/// A product that failed bars further ones on its stream, and on no other.
pub proof fn law_failure_bars_stream(path: FastPath, key: StreamKey, other: StreamKey, ok: bool)
    ensures
        path.noted(key, ok).admits_spec(key) == ok,
        other != key ==> path.noted(key, ok).admits_spec(other),
        FastPath::Unknown.admits_spec(key),
{
}

} // verus!
