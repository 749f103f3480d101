//! Unpacking undoes packing, block by block.
use crate::dequant::{
    bit_pair, dequantize_spec, element, le16, le32, nibble, q4k_element, q5k_element, q6k_element,
    q8_0_element, scale_min_k4, signed, Element, GgmlType,
};
use vstd::prelude::*;

verus! {

/// Element types have the ids of the GGUF format, and blocks of the sizes of that format.
pub proof fn law_types_are_as_published()
    ensures
        GgmlType::F32.id() == 0 && GgmlType::F16.id() == 1 && GgmlType::BF16.id() == 30,
        GgmlType::Q4_0.id() == 2 && GgmlType::Q4_1.id() == 3,
        GgmlType::Q5_0.id() == 6 && GgmlType::Q5_1.id() == 7,
        GgmlType::Q8_0.id() == 8 && GgmlType::Q8_1.id() == 9,
        GgmlType::Q2K.id() == 10 && GgmlType::Q3K.id() == 11 && GgmlType::Q4K.id() == 12,
        GgmlType::Q5K.id() == 13 && GgmlType::Q6K.id() == 14 && GgmlType::Q8K.id() == 15,
        forall|t: GgmlType|
            #[trigger] t.block_elems() == (if t is F32 || t is F16 || t is BF16 {
                1nat
            } else if t is Q4_0 || t is Q4_1 || t is Q5_0 || t is Q5_1 || t is Q8_0 || t is Q8_1 {
                32
            } else {
                256
            }),
        // Half-precision scales, then the bits of all elements.
        GgmlType::F32.block_bytes() == 4,
        GgmlType::F16.block_bytes() == 2 && GgmlType::BF16.block_bytes() == 2,
        GgmlType::Q4_0.block_bytes() == 2 + 32 * 4 / 8,
        GgmlType::Q4_1.block_bytes() == 2 + 2 + 32 * 4 / 8,
        GgmlType::Q5_0.block_bytes() == 2 + 32 * 5 / 8,
        GgmlType::Q5_1.block_bytes() == 2 + 2 + 32 * 5 / 8,
        GgmlType::Q8_0.block_bytes() == 2 + 32,
        // Scales of sub-blocks beside.
        GgmlType::Q2K.block_bytes() == 2 + 2 + 16 + 256 * 2 / 8,
        GgmlType::Q3K.block_bytes() == 2 + 12 + 256 * 3 / 8,
        GgmlType::Q4K.block_bytes() == 2 + 2 + 12 + 256 * 4 / 8,
        GgmlType::Q5K.block_bytes() == 2 + 2 + 12 + 256 * 5 / 8,
        GgmlType::Q6K.block_bytes() == 2 + 16 + 256 * 6 / 8,
        forall|t: GgmlType| #[trigger]
            t.supported() == (t is F32 || t is F16 || t is Q8_0 || t is Q4K || t is Q5K || t
                is Q6K),
{
}

/// Blocks are unpacked independently: an element is the one that its block alone gives.
#[verifier::spinoff_prover]
#[verifier::rlimit(40)]
pub proof fn law_blocks_are_independent(
    dtype: GgmlType,
    data: Seq<u8>,
    count: usize,
    b: int,
    n: int,
)
    requires
        dequantize_spec(dtype, data, count) is Ok,
        0 <= b < count as int / dtype.block_elems() as int,
        0 <= n < dtype.block_elems(),
    ensures
        ({
            let size = dtype.block_bytes() as int;
            let len = dtype.block_elems();
            let block = data.subrange(size * b, size * (b + 1));
            &&& dequantize_spec(dtype, data, count)->Ok_0.len() == count
            &&& dequantize_spec(dtype, block, len as usize) matches Ok(alone) && alone.len() == len
                && alone[n] == dequantize_spec(dtype, data, count)->Ok_0[len * b + n]
        }),
{
    let size = dtype.block_bytes() as int;
    let len = dtype.block_elems() as int;
    let blocks = count as int / len;
    assert(size * (b + 1) <= blocks * size && size * b <= size * (b + 1) && size * (b + 1) - size
        * b == size && 0 <= size * b) by (nonlinear_arith)
        requires
            0 <= b < blocks,
            size >= 0,
    ;
    assert(len * b + n < count && 0 <= len * b) by (nonlinear_arith)
        requires
            0 <= b < blocks,
            blocks == count as int / len,
            0 <= n < len,
            len >= 1,
    ;
    lemma_element_in_block(dtype, data, b, n);
    let block = data.subrange(size * b, size * (b + 1));
    assert(len / len == 1 && len % len == 0) by (nonlinear_arith)
        requires
            len >= 1,
    ;
    assert(block.len() == size);
}

/// An element of supported data is that of its block.
#[verifier::spinoff_prover]
#[verifier::rlimit(40)]
proof fn lemma_element_in_block(dtype: GgmlType, data: Seq<u8>, b: int, n: int)
    requires
        dtype.supported(),
        0 <= b,
        0 <= n < dtype.block_elems(),
        dtype.block_bytes() * (b + 1) <= data.len(),
    ensures
        element(
            dtype,
            data.subrange(dtype.block_bytes() * b, dtype.block_bytes() * (b + 1)),
            n,
        ) == element(dtype, data, dtype.block_elems() * b + n),
{
    match dtype {
        GgmlType::F32 => {
            let block = data.subrange(4 * b, 4 * (b + 1));
            assert(le32(block, 0) == le32(data, 4 * b));
        },
        GgmlType::F16 => {
            let block = data.subrange(2 * b, 2 * (b + 1));
            assert(le16(block, 0) == le16(data, 2 * b));
        },
        GgmlType::Q8_0 => {
            lemma_q8_0_block(data, b, n);
        },
        GgmlType::Q4K => {
            lemma_q4k_block(data, b, n);
        },
        GgmlType::Q5K => {
            lemma_q5k_block(data, b, n);
        },
        GgmlType::Q6K => {
            lemma_q6k_block(data, b, n);
        },
        _ => {},
    }
}

proof fn lemma_q8_0_block(data: Seq<u8>, b: int, n: int)
    requires
        0 <= b,
        0 <= n < 32,
        34 * (b + 1) <= data.len(),
    ensures
        q8_0_element(data.subrange(34 * b, 34 * (b + 1)), n) == q8_0_element(data, 32 * b + n),
{
    assert((32 * b + n) / 32 == b && (32 * b + n) % 32 == n);
    assert(n / 32 == 0 && n % 32 == n);
}

proof fn lemma_q4k_block(data: Seq<u8>, b: int, n: int)
    requires
        0 <= b,
        0 <= n < 256,
        144 * (b + 1) <= data.len(),
    ensures
        q4k_element(data.subrange(144 * b, 144 * (b + 1)), n) == q4k_element(data, 256 * b + n),
{
    let block = data.subrange(144 * b, 144 * (b + 1));
    lemma_scales_of_block(data, block, 144 * b);
    assert((256 * b + n) / 256 == b && (256 * b + n) % 256 == n);
    assert(n / 256 == 0 && n % 256 == n);
    let at = 16 + n / 64 * 32 + n % 32;
    assert(0 <= at < 144);
    assert(block[at] == data[144 * b + at]);
}

proof fn lemma_q5k_block(data: Seq<u8>, b: int, n: int)
    requires
        0 <= b,
        0 <= n < 256,
        176 * (b + 1) <= data.len(),
    ensures
        q5k_element(data.subrange(176 * b, 176 * (b + 1)), n) == q5k_element(data, 256 * b + n),
{
    let block = data.subrange(176 * b, 176 * (b + 1));
    lemma_scales_of_block(data, block, 176 * b);
    assert((256 * b + n) / 256 == b && (256 * b + n) % 256 == n);
    assert(n / 256 == 0 && n % 256 == n);
    let at = 48 + n / 64 * 32 + n % 32;
    assert(0 <= at < 176);
    assert(block[at] == data[176 * b + at]);
    assert(block[16 + n % 32] == data[176 * b + 16 + n % 32]);
}

proof fn lemma_q6k_block(data: Seq<u8>, b: int, n: int)
    requires
        0 <= b,
        0 <= n < 256,
        210 * (b + 1) <= data.len(),
    ensures
        q6k_element(data.subrange(210 * b, 210 * (b + 1)), n) == q6k_element(data, 256 * b + n),
{
    let block = data.subrange(210 * b, 210 * (b + 1));
    assert((256 * b + n) / 256 == b && (256 * b + n) % 256 == n);
    assert(n / 256 == 0 && n % 256 == n);
    let half = n / 128;
    let run = n % 128 / 32;
    let l = n % 32;
    let low = 64 * half + 32 * (run % 2) + l;
    let top = 128 + 32 * half + l;
    let scale = 192 + 8 * half + l / 16 + 2 * run;
    assert(0 <= low < 128 && 128 <= top < 192 && 192 <= scale < 208);
    assert(block[low] == data[210 * b + low]);
    assert(block[top] == data[210 * b + top]);
    assert(block[scale] == data[210 * b + scale]);
}

proof fn lemma_scales_of_block(data: Seq<u8>, block: Seq<u8>, at: int)
    requires
        0 <= at,
        block.len() >= 16,
        at + block.len() <= data.len(),
        block == data.subrange(at, at + block.len()),
    ensures
        block.subrange(4, 16) == data.subrange(at + 4, at + 16),
{
    assert(block.subrange(4, 16) =~= data.subrange(at + 4, at + 16));
}

/// A number in two bytes, the low one first.
pub open spec fn holds16(data: Seq<u8>, at: int, x: u16) -> bool {
    data[at] == x % 256 && data[at + 1] == x / 256
}

/// A number in four bytes, the low ones first.
pub open spec fn holds32(data: Seq<u8>, at: int, x: u32) -> bool {
    holds16(data, at, (x % 0x1_0000) as u16) && holds16(data, at + 2, (x / 0x1_0000) as u16)
}

/// A byte that holds a number from -128 to 127.
pub open spec fn holds_signed(b: u8, x: i8) -> bool {
    b == (x as int) % 256
}

/// Numbers are read back out of their bytes.
pub proof fn law_bytes_are_read_back(data: Seq<u8>, at: int, x: u16, y: u32, b: u8, z: i8)
    ensures
        holds16(data, at, x) ==> le16(data, at) == x,
        holds32(data, at, y) ==> le32(data, at) == y,
        holds_signed(b, z) ==> signed(b) == z,
{
}

/// Half- and single-precision elements are read back in order.
pub proof fn law_floats_are_read_back(data: Seq<u8>, count: usize, i: int, x: u16, y: u32)
    requires
        0 <= i < count,
    ensures
        data.len() == 2 * count && holds16(data, 2 * i, x) ==> (dequantize_spec(
            GgmlType::F16,
            data,
            count,
        ) matches Ok(v) && v[i] == (Element::Half { bits: x })),
        data.len() == 4 * count && holds32(data, 4 * i, y) ==> (dequantize_spec(
            GgmlType::F32,
            data,
            count,
        ) matches Ok(v) && v[i] == (Element::Single { bits: y })),
{
    law_bytes_are_read_back(data, 2 * i, x, y, 0, 0);
    law_bytes_are_read_back(data, 4 * i, x, y, 0, 0);
}

/// A block of Q8_0: a scale, then one byte for each of 32 numbers.
pub open spec fn packs_q8_0(block: Seq<u8>, d: u16, q: Seq<i8>) -> bool {
    &&& block.len() == 34
    &&& holds16(block, 0, d)
    &&& forall|n: int| 0 <= n < 32 ==> holds_signed(block[2 + n], #[trigger] q[n])
}

/// A block of Q8_0 gives back the scale and the numbers that were packed into it.
pub proof fn law_q8_0_is_read_back(block: Seq<u8>, d: u16, q: Seq<i8>, n: int)
    requires
        packs_q8_0(block, d, q),
        0 <= n < 32,
    ensures
        q8_0_element(block, n) == (Element::Scaled { d, q: q[n] }),
{
    law_bytes_are_read_back(block, 0, d, 0, block[2 + n], q[n]);
}

/// Eight scales and eight minima of six bits in twelve bytes: the first four of each whole,
/// with two bits of a later one above; of the last four the other bits, in pairs.
pub open spec fn packs_scales(b: Seq<u8>, scales: Seq<u8>, mins: Seq<u8>) -> bool {
    &&& b.len() == 12
    &&& forall|j: int| 0 <= j < 8 ==> #[trigger] scales[j] < 64 && #[trigger] mins[j] < 64
    &&& forall|j: int|
        0 <= j < 4 ==> (#[trigger] b[j]) == scales[j] + 64 * (scales[j + 4] as int / 16)
    &&& forall|j: int|
        4 <= j < 8 ==> (#[trigger] b[j]) == mins[j - 4] + 64 * (mins[j] as int / 16)
    &&& forall|j: int|
        8 <= j < 12 ==> (#[trigger] b[j]) == scales[j - 4] as int % 16 + 16 * (mins[j - 4] as int
            % 16)
}

/// Scales and minima are read back.
pub proof fn law_scales_are_read_back(b: Seq<u8>, scales: Seq<u8>, mins: Seq<u8>, j: int)
    requires
        packs_scales(b, scales, mins),
        0 <= j < 8,
    ensures
        scale_min_k4(j, b) == (scales[j], mins[j]),
{
    let (s, m) = (scales[j], mins[j]);
    assert(s < 64 && m < 64);
    if j < 4 {
        let (s4, m4) = (scales[j + 4], mins[j + 4]);
        assert(s4 < 64 && m4 < 64);
        assert(b[j] == s + 64 * (s4 as int / 16));
        assert(b[j + 4] == m + 64 * (m4 as int / 16));
    } else {
        let (s0, m0) = (scales[j - 4], mins[j - 4]);
        assert(s0 < 64 && m0 < 64);
        assert(b[j - 4] == s0 + 64 * (s as int / 16));
        assert(b[j] == m0 + 64 * (m as int / 16));
        assert(b[j + 4] == s as int % 16 + 16 * (m as int % 16));
    }
}

/// A block of Q4_K: scale and minimum of the block, those of its eight sub-blocks, and four
/// bits for each of 256 numbers. Two sub-blocks share 32 bytes, the first in the low bits.
pub open spec fn packs_q4k(
    block: Seq<u8>,
    d: u16,
    min: u16,
    scales: Seq<u8>,
    mins: Seq<u8>,
    q: Seq<u8>,
) -> bool {
    &&& block.len() == 144
    &&& holds16(block, 0, d)
    &&& holds16(block, 2, min)
    &&& packs_scales(block.subrange(4, 16), scales, mins)
    &&& forall|n: int| 0 <= n < 256 ==> #[trigger] q[n] < 16
    &&& forall|j: int, l: int|
        #![trigger block[16 + 32 * j + l]]
        0 <= j < 4 && 0 <= l < 32 ==> block[16 + 32 * j + l] == q[64 * j + l] + 16 * q[64 * j + 32
            + l]
}

/// A block of Q4_K gives back the scales, the minima and the numbers that were packed into it.
#[verifier::spinoff_prover]
pub proof fn law_q4k_is_read_back(
    block: Seq<u8>,
    d: u16,
    min: u16,
    scales: Seq<u8>,
    mins: Seq<u8>,
    q: Seq<u8>,
    n: int,
)
    requires
        packs_q4k(block, d, min, scales, mins, q),
        0 <= n < 256,
    ensures
        q4k_element(block, n) == (Element::ScaledMin {
            d,
            scale: scales[n / 32],
            min,
            min_scale: mins[n / 32],
            q: q[n],
        }),
{
    law_bytes_are_read_back(block, 0, d, 0, 0, 0);
    law_bytes_are_read_back(block, 2, min, 0, 0, 0);
    law_scales_are_read_back(block.subrange(4, 16), scales, mins, n / 32);
    let j = n / 64;
    let l = n % 32;
    assert(block[16 + 32 * j + l] == q[64 * j + l] + 16 * q[64 * j + 32 + l]);
    assert(q[64 * j + l] < 16 && q[64 * j + 32 + l] < 16);
    assert(n == 64 * j + l || n == 64 * j + 32 + l);
}

/// Bit `s` of a byte.
pub open spec fn bit(b: u8, s: int) -> int {
    if s == 0 {
        b as int % 2
    } else if s == 1 {
        b as int / 2 % 2
    } else if s == 2 {
        b as int / 4 % 2
    } else if s == 3 {
        b as int / 8 % 2
    } else if s == 4 {
        b as int / 16 % 2
    } else if s == 5 {
        b as int / 32 % 2
    } else if s == 6 {
        b as int / 64 % 2
    } else {
        b as int / 128
    }
}

/// A block of Q5_K: as Q4_K, with the fifth bits of the numbers before the other four. Bit `s`
/// of byte `l` there is that of number `l` of sub-block `s`.
pub open spec fn packs_q5k(
    block: Seq<u8>,
    d: u16,
    min: u16,
    scales: Seq<u8>,
    mins: Seq<u8>,
    q: Seq<u8>,
) -> bool {
    &&& block.len() == 176
    &&& holds16(block, 0, d)
    &&& holds16(block, 2, min)
    &&& packs_scales(block.subrange(4, 16), scales, mins)
    &&& forall|n: int| 0 <= n < 256 ==> #[trigger] q[n] < 32
    &&& forall|s: int, l: int|
        #![trigger bit(block[16 + l], s)]
        0 <= s < 8 && 0 <= l < 32 ==> bit(block[16 + l], s) == q[32 * s + l] as int / 16
    &&& forall|j: int, l: int|
        #![trigger block[48 + 32 * j + l]]
        0 <= j < 4 && 0 <= l < 32 ==> block[48 + 32 * j + l] == q[64 * j + l] as int % 16 + 16 * (
        q[64 * j + 32 + l] as int % 16)
}

/// A block of Q5_K gives back the scales, the minima and the numbers that were packed into it.
#[verifier::spinoff_prover]
pub proof fn law_q5k_is_read_back(
    block: Seq<u8>,
    d: u16,
    min: u16,
    scales: Seq<u8>,
    mins: Seq<u8>,
    q: Seq<u8>,
    n: int,
)
    requires
        packs_q5k(block, d, min, scales, mins, q),
        0 <= n < 256,
    ensures
        q5k_element(block, n) == (Element::ScaledMin {
            d,
            scale: scales[n / 32],
            min,
            min_scale: mins[n / 32],
            q: q[n],
        }),
{
    law_bytes_are_read_back(block, 0, d, 0, 0, 0);
    law_bytes_are_read_back(block, 2, min, 0, 0, 0);
    law_scales_are_read_back(block.subrange(4, 16), scales, mins, n / 32);
    let j = n / 64;
    let l = n % 32;
    let s = n / 32;
    assert(block[48 + 32 * j + l] == q[64 * j + l] as int % 16 + 16 * (q[64 * j + 32 + l] as int
        % 16));
    assert(q[64 * j + l] < 32 && q[64 * j + 32 + l] < 32);
    assert(n == 64 * j + l || n == 64 * j + 32 + l);
    assert(n == 32 * s + l);
    assert(bit(block[16 + l], s) == q[32 * s + l] as int / 16);
    lemma_bit_of_pair(block[16 + l], j);
    let x = block[48 + 32 * j + l];
    assert(x as int % 16 == q[64 * j + l] as int % 16);
    assert(x as int / 16 == q[64 * j + 32 + l] as int % 16);
    if n % 64 >= 32 {
        assert(s == 2 * j + 1);
        assert(n == 64 * j + 32 + l);
    } else {
        assert(s == 2 * j);
        assert(n == 64 * j + l);
    }
    assert(q[n] == q[n] as int % 16 + 16 * (q[n] as int / 16));
}

proof fn lemma_bit_of_pair(b: u8, k: int)
    requires
        0 <= k < 4,
    ensures
        bit_pair(b, k) as int % 2 == bit(b, 2 * k),
        bit_pair(b, k) as int / 2 == bit(b, 2 * k + 1),
        bit_pair(b, k) < 4,
{
    if k == 0 {
    } else if k == 1 {
    } else if k == 2 {
    } else {
    }
}

/// A block of Q6_K: six bits for each of 256 numbers from -32 to 31, sixteen scales, and the
/// scale of the block. In each half, four runs of 32 numbers share their bytes: the low bits
/// of runs 0 and 2, those of runs 1 and 3, and the high bits of all four.
pub open spec fn packs_q6k(block: Seq<u8>, d: u16, scales: Seq<i8>, q: Seq<i8>) -> bool {
    &&& block.len() == 210
    &&& holds16(block, 208, d)
    &&& forall|k: int| 0 <= k < 16 ==> holds_signed(block[192 + k], #[trigger] scales[k])
    &&& forall|n: int| 0 <= n < 256 ==> -32 <= #[trigger] q[n] < 32
    &&& forall|h: int, l: int|
        #![trigger block[64 * h + l]]
        0 <= h < 2 && 0 <= l < 32 ==> block[64 * h + l] == (q[128 * h + l] + 32) % 16 + 16 * ((
        q[128 * h + 64 + l] + 32) % 16)
    &&& forall|h: int, l: int|
        #![trigger block[64 * h + 32 + l]]
        0 <= h < 2 && 0 <= l < 32 ==> block[64 * h + 32 + l] == (q[128 * h + 32 + l] + 32) % 16 + 16
            * ((q[128 * h + 96 + l] + 32) % 16)
    &&& forall|h: int, l: int|
        #![trigger block[128 + 32 * h + l]]
        0 <= h < 2 && 0 <= l < 32 ==> block[128 + 32 * h + l] == (q[128 * h + l] + 32) / 16 + 4 * ((
        q[128 * h + 32 + l] + 32) / 16) + 16 * ((q[128 * h + 64 + l] + 32) / 16) + 64 * ((q[128 * h
            + 96 + l] + 32) / 16)
}

#[verifier::spinoff_prover]
proof fn lemma_q6k_bits(
    block: Seq<u8>,
    d: u16,
    scales: Seq<i8>,
    q: Seq<i8>,
    h: int,
    run: int,
    l: int,
)
    requires
        packs_q6k(block, d, scales, q),
        0 <= h < 2,
        0 <= run < 4,
        0 <= l < 32,
    ensures
        nibble(block[64 * h + 32 * (run % 2) + l], run >= 2) == (q[128 * h + 32 * run + l] + 32)
            % 16,
        bit_pair(block[128 + 32 * h + l], run) == (q[128 * h + 32 * run + l] + 32) / 16,
        -32 <= q[128 * h + 32 * run + l] < 32,
{
    let q0 = q[128 * h + l] + 32;
    let q1 = q[128 * h + 32 + l] + 32;
    let q2 = q[128 * h + 64 + l] + 32;
    let q3 = q[128 * h + 96 + l] + 32;
    let b0 = block[64 * h + l];
    let b1 = block[64 * h + 32 + l];
    let b2 = block[128 + 32 * h + l];
    lemma_nibbles(b0, q0 % 16, q2 % 16);
    lemma_nibbles(b1, q1 % 16, q3 % 16);
    lemma_pairs(b2, q0 / 16, q1 / 16, q2 / 16, q3 / 16);
    if run == 0 {
        assert(128 * h + 32 * run + l == 128 * h + l);
    } else if run == 1 {
        assert(128 * h + 32 * run + l == 128 * h + 32 + l);
    } else if run == 2 {
        assert(128 * h + 32 * run + l == 128 * h + 64 + l);
    } else {
        assert(128 * h + 32 * run + l == 128 * h + 96 + l);
    }
}

/// A block of Q6_K gives back the scales and the numbers that were packed into it.
#[verifier::spinoff_prover]
pub proof fn law_q6k_is_read_back(block: Seq<u8>, d: u16, scales: Seq<i8>, q: Seq<i8>, n: int)
    requires
        packs_q6k(block, d, scales, q),
        0 <= n < 256,
    ensures
        q6k_element(block, n) == (Element::ScaledSigned { d, scale: scales[n / 16], q: q[n] }),
{
    let h = n / 128;
    let run = n % 128 / 32;
    let l = n % 32;
    let k = n / 16;
    assert(n == 128 * h + 32 * run + l);
    assert(8 * h + l / 16 + 2 * run == k);
    assert(holds_signed(block[192 + k], scales[k]));
    law_bytes_are_read_back(block, 208, d, 0, block[192 + k], scales[k]);
    lemma_q6k_bits(block, d, scales, q, h, run, l);
    let x = q[n] + 32;
    assert(x % 16 + 16 * (x / 16) == x);
    assert(n / 256 == 0 && n % 256 == n);
}

proof fn lemma_nibbles(b: u8, low: int, high: int)
    requires
        0 <= low < 16,
        0 <= high < 16,
        b == low + 16 * high,
    ensures
        nibble(b, false) == low,
        nibble(b, true) == high,
{
}

proof fn lemma_pairs(b: u8, x0: int, x1: int, x2: int, x3: int)
    requires
        0 <= x0 < 4,
        0 <= x1 < 4,
        0 <= x2 < 4,
        0 <= x3 < 4,
        b == x0 + 4 * x1 + 16 * x2 + 64 * x3,
    ensures
        bit_pair(b, 0) == x0,
        bit_pair(b, 1) == x1,
        bit_pair(b, 2) == x2,
        bit_pair(b, 3) == x3,
{
}

} // verus!
