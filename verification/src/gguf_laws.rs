//! A GGUF file gives back what was written into it.
use crate::dequant::{le16, le32, law_type_id_round_trip, signed};
use crate::gguf::{
    align_up, alignment_of, bind_all, le64, rd_content, rd_dims, rd_entries, rd_entry, rd_string,
    rd_tables, rd_tensor, rd_tensors, rd_u16, rd_u32, rd_u64, rd_value, rd_values, signed16,
    signed32, signed64, strip_zeros, ContentModel, GgufError, TensorModel, ValueModel, ValueType,
    Version,
};
use crate::names::lookup;
use vstd::prelude::*;
use vstd::utf8::{encode_utf8, encode_utf8_decode_utf8, encode_utf8_valid_utf8};

verus! {

/// Bytes stand at a place of a file.
pub open spec fn lies(b: Seq<u8>, pos: int, x: Seq<u8>) -> bool {
    0 <= pos && pos + x.len() <= b.len() && b.subrange(pos, pos + x.len()) == x
}

proof fn lemma_lies(b: Seq<u8>, pos: int, x: Seq<u8>, y: Seq<u8>)
    requires
        lies(b, pos, x + y),
    ensures
        lies(b, pos, x),
        lies(b, pos + x.len(), y),
{
    let all = b.subrange(pos, pos + (x + y).len());
    assert(b.subrange(pos, pos + x.len()) =~= all.subrange(0, x.len() as int));
    assert(all.subrange(0, x.len() as int) =~= x);
    assert(b.subrange(pos + x.len(), pos + x.len() + y.len()) =~= all.subrange(
        x.len() as int,
        (x + y).len() as int,
    ));
    assert(all.subrange(x.len() as int, (x + y).len() as int) =~= y);
}

proof fn lemma_byte(b: Seq<u8>, pos: int, x: Seq<u8>, i: int)
    requires
        lies(b, pos, x),
        0 <= i < x.len(),
    ensures
        b[pos + i] == x[i],
{
    assert(b.subrange(pos, pos + x.len())[i] == b[pos + i]);
}

/// A number in two bytes, the low one first.
pub open spec fn bytes16(x: u16) -> Seq<u8> {
    seq![(x % 256) as u8, (x / 256) as u8]
}

/// A number in four bytes, the low ones first.
pub open spec fn bytes32(x: u32) -> Seq<u8> {
    bytes16((x % 0x1_0000) as u16) + bytes16((x / 0x1_0000) as u16)
}

/// A number in eight bytes, the low ones first.
pub open spec fn bytes64(x: u64) -> Seq<u8> {
    bytes32((x % 0x1_0000_0000) as u32) + bytes32((x / 0x1_0000_0000) as u32)
}

proof fn lemma_read16(b: Seq<u8>, pos: int, x: u16)
    requires
        lies(b, pos, bytes16(x)),
    ensures
        le16(b, pos) == x,
        rd_u16(b, pos) == Ok::<(u16, int), GgufError>((x, pos + 2)),
{
    lemma_byte(b, pos, bytes16(x), 0);
    lemma_byte(b, pos, bytes16(x), 1);
}

proof fn lemma_read32(b: Seq<u8>, pos: int, x: u32)
    requires
        lies(b, pos, bytes32(x)),
    ensures
        le32(b, pos) == x,
        rd_u32(b, pos) == Ok::<(u32, int), GgufError>((x, pos + 4)),
{
    let low = (x % 0x1_0000) as u16;
    let high = (x / 0x1_0000) as u16;
    lemma_lies(b, pos, bytes16(low), bytes16(high));
    lemma_read16(b, pos, low);
    lemma_read16(b, pos + 2, high);
    assert(b[pos] + 256 * b[pos + 1] == low);
    assert(b[pos + 2] + 256 * b[pos + 3] == high);
}

proof fn lemma_read64(b: Seq<u8>, pos: int, x: u64)
    requires
        lies(b, pos, bytes64(x)),
    ensures
        le64(b, pos) == x,
        rd_u64(b, pos) == Ok::<(u64, int), GgufError>((x, pos + 8)),
{
    let low = (x % 0x1_0000_0000) as u32;
    let high = (x / 0x1_0000_0000) as u32;
    lemma_lies(b, pos, bytes32(low), bytes32(high));
    lemma_read32(b, pos, low);
    lemma_read32(b, pos + 4, high);
}

/// A text: how many bytes it has in UTF-8, then these bytes.
pub open spec fn bytes_of_text(s: Seq<char>) -> Seq<u8> {
    bytes64(encode_utf8(s).len() as u64) + encode_utf8(s)
}

/// A text that a file can hold: not too long, and without a zero at its end.
pub open spec fn plain_text(s: Seq<char>) -> bool {
    let x = encode_utf8(s);
    x.len() <= 0x4000_0000 && (x.len() > 0 ==> x.last() != 0)
}

proof fn lemma_read_text(b: Seq<u8>, pos: int, s: Seq<char>)
    requires
        lies(b, pos, bytes_of_text(s)),
        plain_text(s),
    ensures
        rd_string(b, pos) == Ok::<(Seq<char>, int), GgufError>(
            (s, pos + 8 + encode_utf8(s).len()),
        ),
{
    let x = encode_utf8(s);
    lemma_lies(b, pos, bytes64(x.len() as u64), x);
    lemma_read64(b, pos, x.len() as u64);
    assert(strip_zeros(x) == x);
    encode_utf8_valid_utf8(s);
    encode_utf8_decode_utf8(s);
}

/// The number of a value's type in the format.
pub open spec fn type_number(v: ValueModel) -> u32 {
    match v {
        ValueModel::U8(_) => 0,
        ValueModel::I8(_) => 1,
        ValueModel::U16(_) => 2,
        ValueModel::I16(_) => 3,
        ValueModel::U32(_) => 4,
        ValueModel::I32(_) => 5,
        ValueModel::F32(_) => 6,
        ValueModel::Bool(_) => 7,
        ValueModel::String(_) => 8,
        ValueModel::Array(_) => 9,
        ValueModel::U64(_) => 10,
        ValueModel::I64(_) => 11,
        ValueModel::F64(_) => 12,
    }
}

/// The bytes of a value that is no array: numbers low bytes first and negative ones in two's
/// complement, floating-point numbers by their bits, truth as 1.
pub open spec fn bytes_of_flat(v: ValueModel) -> Seq<u8> {
    match v {
        ValueModel::U8(x) => seq![x],
        ValueModel::I8(x) => seq![((x as int) % 256) as u8],
        ValueModel::U16(x) => bytes16(x),
        ValueModel::I16(x) => bytes16(((x as int) % 0x1_0000) as u16),
        ValueModel::U32(x) => bytes32(x),
        ValueModel::I32(x) => bytes32(((x as int) % 0x1_0000_0000) as u32),
        ValueModel::U64(x) => bytes64(x),
        ValueModel::I64(x) => bytes64(((x as int) % 0x1_0000_0000_0000_0000) as u64),
        ValueModel::F32(x) => bytes32(x),
        ValueModel::F64(x) => bytes64(x),
        ValueModel::Bool(x) => if x {
            seq![1u8]
        } else {
            seq![0u8]
        },
        ValueModel::String(s) => bytes_of_text(s),
        ValueModel::Array(_) => Seq::empty(),
    }
}

/// The bytes of values one after the other.
pub open spec fn bytes_of_all(s: Seq<ValueModel>) -> Seq<u8>
    decreases s.len(),
{
    if s.len() == 0 {
        Seq::empty()
    } else {
        bytes_of_all(s.drop_last()) + bytes_of_flat(s.last())
    }
}

/// A value that is no array and that a file can hold.
pub open spec fn is_flat(v: ValueModel) -> bool {
    !(v is Array) && (v matches ValueModel::String(s) ==> plain_text(s))
}

/// The bytes of a value: of an array the number of its elements' type, their count, and the
/// elements.
pub open spec fn bytes_of(v: ValueModel) -> Seq<u8> {
    match v {
        ValueModel::Array(s) => bytes32(type_number(s[0])) + bytes64(s.len() as u64) + bytes_of_all(
            s,
        ),
        _ => bytes_of_flat(v),
    }
}

/// A value that a file can hold, with room for `budget` elements of arrays: flat, or an array
/// of flat values of one type.
pub open spec fn is_plain(v: ValueModel, budget: nat) -> bool {
    match v {
        ValueModel::Array(s) => {
            &&& 1 <= s.len() <= budget
            &&& s.len() <= 0x4000_0000
            &&& forall|i: int|
                0 <= i < s.len() ==> is_flat(#[trigger] s[i]) && type_number(s[i]) == type_number(
                    s[0],
                )
        },
        _ => is_flat(v),
    }
}

/// Array elements that a value takes.
pub open spec fn taken(v: ValueModel) -> nat {
    match v {
        ValueModel::Array(s) => s.len(),
        _ => 0,
    }
}

proof fn lemma_types(v: ValueModel)
    ensures
        ValueType::of_id(type_number(v)) is Some,
{
}

proof fn lemma_complements(a: i8, b: i16, c: i32, d: i64)
    ensures
        signed(((a as int) % 256) as u8) == a,
        signed16(((b as int) % 0x1_0000) as u16) == b,
        signed32(((c as int) % 0x1_0000_0000) as u32) == c,
        signed64(((d as int) % 0x1_0000_0000_0000_0000) as u64) == d,
{
}

/// What reading a value at a place of a file gives, where it was written there.
spec fn reads_flat(b: Seq<u8>, pos: int, v: ValueModel, depth: nat, budget: nat) -> bool {
    &&& rd_value(b, pos, ValueType::of_id(type_number(v))->0, depth, budget) == Ok::<
        (ValueModel, int, nat),
        GgufError,
    >((v, pos + bytes_of_flat(v).len(), budget))
    &&& bytes_of_flat(v).len() >= (ValueType::of_id(type_number(v))->0).least_bytes()
}

proof fn lemma_read_byte(b: Seq<u8>, pos: int, v: ValueModel, depth: nat, budget: nat)
    requires
        lies(b, pos, bytes_of_flat(v)),
        v is U8 || v is I8 || v is Bool,
        depth <= 64,
    ensures
        reads_flat(b, pos, v, depth, budget),
{
    lemma_byte(b, pos, bytes_of_flat(v), 0);
    match v {
        ValueModel::I8(n) => {
            lemma_complements(n, 0, 0, 0);
        },
        _ => {},
    }
}

proof fn lemma_read_short(b: Seq<u8>, pos: int, v: ValueModel, depth: nat, budget: nat)
    requires
        lies(b, pos, bytes_of_flat(v)),
        v is U16 || v is I16,
        depth <= 64,
    ensures
        reads_flat(b, pos, v, depth, budget),
{
    match v {
        ValueModel::U16(n) => {
            lemma_read16(b, pos, n);
        },
        ValueModel::I16(n) => {
            lemma_complements(0, n, 0, 0);
            lemma_read16(b, pos, ((n as int) % 0x1_0000) as u16);
        },
        _ => {},
    }
}

proof fn lemma_read_word(b: Seq<u8>, pos: int, v: ValueModel, depth: nat, budget: nat)
    requires
        lies(b, pos, bytes_of_flat(v)),
        v is U32 || v is I32 || v is F32,
        depth <= 64,
    ensures
        reads_flat(b, pos, v, depth, budget),
{
    match v {
        ValueModel::U32(n) => {
            lemma_read32(b, pos, n);
        },
        ValueModel::I32(n) => {
            lemma_complements(0, 0, n, 0);
            lemma_read32(b, pos, ((n as int) % 0x1_0000_0000) as u32);
        },
        ValueModel::F32(n) => {
            lemma_read32(b, pos, n);
        },
        _ => {},
    }
}

proof fn lemma_read_long(b: Seq<u8>, pos: int, v: ValueModel, depth: nat, budget: nat)
    requires
        lies(b, pos, bytes_of_flat(v)),
        v is U64 || v is I64 || v is F64,
        depth <= 64,
    ensures
        reads_flat(b, pos, v, depth, budget),
{
    match v {
        ValueModel::U64(n) => {
            lemma_read64(b, pos, n);
        },
        ValueModel::I64(n) => {
            lemma_complements(0, 0, 0, n);
            lemma_read64(b, pos, ((n as int) % 0x1_0000_0000_0000_0000) as u64);
        },
        ValueModel::F64(n) => {
            lemma_read64(b, pos, n);
        },
        _ => {},
    }
}

proof fn lemma_read_flat(b: Seq<u8>, pos: int, v: ValueModel, depth: nat, budget: nat)
    requires
        lies(b, pos, bytes_of_flat(v)),
        is_flat(v),
        depth <= 64,
    ensures
        reads_flat(b, pos, v, depth, budget),
{
    match v {
        ValueModel::U8(_) | ValueModel::I8(_) | ValueModel::Bool(_) => {
            lemma_read_byte(b, pos, v, depth, budget);
        },
        ValueModel::U16(_) | ValueModel::I16(_) => {
            lemma_read_short(b, pos, v, depth, budget);
        },
        ValueModel::U32(_) | ValueModel::I32(_) | ValueModel::F32(_) => {
            lemma_read_word(b, pos, v, depth, budget);
        },
        ValueModel::U64(_) | ValueModel::I64(_) | ValueModel::F64(_) => {
            lemma_read_long(b, pos, v, depth, budget);
        },
        ValueModel::String(s) => {
            lemma_read_text(b, pos, s);
        },
        ValueModel::Array(_) => {},
    }
}

proof fn lemma_read_all(b: Seq<u8>, pos: int, s: Seq<ValueModel>, id: u32, depth: nat, budget: nat)
    requires
        lies(b, pos, bytes_of_all(s)),
        forall|i: int|
            0 <= i < s.len() ==> is_flat(#[trigger] s[i]) && type_number(s[i]) == id,
        depth <= 64,
        ValueType::of_id(id) is Some,
    ensures
        rd_values(b, pos, ValueType::of_id(id)->0, depth, budget, s.len()) == Ok::<
            (Seq<ValueModel>, int, nat),
            GgufError,
        >((s, pos + bytes_of_all(s).len(), budget)),
        bytes_of_all(s).len() >= s.len() * (ValueType::of_id(id)->0).least_bytes(),
    decreases s.len(),
{
    let least = (ValueType::of_id(id)->0).least_bytes();
    if s.len() > 0 {
        let front = s.drop_last();
        lemma_lies(b, pos, bytes_of_all(front), bytes_of_flat(s.last()));
        assert forall|i: int| 0 <= i < front.len() implies is_flat(#[trigger] front[i])
            && type_number(front[i]) == id by {
            assert(front[i] == s[i]);
        }
        assert(is_flat(s[s.len() - 1]));
        lemma_read_all(b, pos, front, id, depth, budget);
        lemma_read_flat(b, pos + bytes_of_all(front).len(), s.last(), depth, budget);
        assert(front.push(s.last()) =~= s);
        assert(s.len() * least == front.len() * least + least) by (nonlinear_arith)
            requires
                s.len() == front.len() + 1,
        ;
    } else {
        assert(s =~= Seq::empty());
        assert(s.len() * least == 0) by (nonlinear_arith)
            requires
                s.len() == 0,
        ;
    }
}

/// A value is read back as it was written.
pub proof fn law_values_are_read_back(b: Seq<u8>, pos: int, v: ValueModel, budget: nat)
    requires
        lies(b, pos, bytes_of(v)),
        is_plain(v, budget),
    ensures
        ValueType::of_id(type_number(v)) matches Some(ty) && rd_value(b, pos, ty, 0, budget) == Ok::<
            (ValueModel, int, nat),
            GgufError,
        >((v, pos + bytes_of(v).len(), (budget - taken(v)) as nat)),
{
    match v {
        ValueModel::Array(s) => {
            let id = type_number(s[0]);
            let n = s.len() as u64;
            lemma_types(s[0]);
            lemma_lies(b, pos, bytes32(id) + bytes64(n), bytes_of_all(s));
            lemma_lies(b, pos, bytes32(id), bytes64(n));
            lemma_read32(b, pos, id);
            lemma_read64(b, pos + 4, n);
            lemma_read_all(b, pos + 12, s, id, 1, (budget - s.len()) as nat);
        },
        _ => {
            lemma_read_flat(b, pos, v, 0, budget);
        },
    }
}

/// The bytes of a metadata entry: its key, the number of its value's type, its value.
pub open spec fn bytes_of_entry(e: (Seq<char>, ValueModel)) -> Seq<u8> {
    bytes_of_text(e.0) + bytes32(type_number(e.1)) + bytes_of(e.1)
}

/// A metadata entry is read back as it was written.
pub proof fn law_entries_are_read_back(
    b: Seq<u8>,
    pos: int,
    e: (Seq<char>, ValueModel),
    budget: nat,
)
    requires
        lies(b, pos, bytes_of_entry(e)),
        plain_text(e.0),
        is_plain(e.1, budget),
    ensures
        rd_entry(b, pos, budget) == Ok::<((Seq<char>, ValueModel), int, nat), GgufError>(
            (e, pos + bytes_of_entry(e).len(), (budget - taken(e.1)) as nat),
        ),
{
    let key = bytes_of_text(e.0);
    let ty = bytes32(type_number(e.1));
    lemma_types(e.1);
    lemma_lies(b, pos, key + ty, bytes_of(e.1));
    lemma_lies(b, pos, key, ty);
    lemma_read_text(b, pos, e.0);
    lemma_read32(b, pos + key.len(), type_number(e.1));
    law_values_are_read_back(b, pos + key.len() + 4, e.1, budget);
}

/// Dimensions as a file holds them, the innermost one first.
pub open spec fn bytes_of_dims(shape: Seq<usize>) -> Seq<u8>
    decreases shape.len(),
{
    if shape.len() == 0 {
        Seq::empty()
    } else {
        bytes_of_dims(shape.drop_first()) + bytes64(shape[0] as u64)
    }
}

proof fn lemma_read_dims(b: Seq<u8>, pos: int, shape: Seq<usize>)
    requires
        lies(b, pos, bytes_of_dims(shape)),
    ensures
        rd_dims(b, pos, shape.len()) == Ok::<(Seq<usize>, int), GgufError>(
            (shape.reverse(), pos + bytes_of_dims(shape).len()),
        ),
        bytes_of_dims(shape).len() == 8 * shape.len(),
    decreases shape.len(),
{
    if shape.len() > 0 {
        let rest = shape.drop_first();
        lemma_lies(b, pos, bytes_of_dims(rest), bytes64(shape[0] as u64));
        lemma_read_dims(b, pos, rest);
        lemma_read64(b, pos + bytes_of_dims(rest).len(), shape[0] as u64);
        assert(rest.reverse().push(shape[0]) =~= shape.reverse());
    } else {
        assert(shape.reverse() =~= Seq::empty());
    }
}

/// The bytes of a tensor's description: its name, how many dimensions it has, these from the
/// innermost out, the number of its element type, and where its data begins.
pub open spec fn bytes_of_tensor(t: TensorModel) -> Seq<u8> {
    bytes_of_text(t.name) + bytes32(t.shape.len() as u32) + bytes_of_dims(t.shape) + bytes32(
        t.dtype.id(),
    ) + bytes64(t.offset)
}

/// A tensor's description is read back as it was written.
pub proof fn law_tensors_are_read_back(b: Seq<u8>, pos: int, t: TensorModel)
    requires
        lies(b, pos, bytes_of_tensor(t)),
        plain_text(t.name),
        t.shape.len() <= 4,
    ensures
        rd_tensor(b, pos) == Ok::<(TensorModel, int), GgufError>(
            (t, pos + bytes_of_tensor(t).len()),
        ),
{
    let name = bytes_of_text(t.name);
    let rank = bytes32(t.shape.len() as u32);
    let dims = bytes_of_dims(t.shape);
    let ty = bytes32(t.dtype.id());
    lemma_lies(b, pos, name + rank + dims + ty, bytes64(t.offset));
    lemma_lies(b, pos, name + rank + dims, ty);
    lemma_lies(b, pos, name + rank, dims);
    lemma_lies(b, pos, name, rank);
    lemma_read_text(b, pos, t.name);
    let p = pos + name.len();
    lemma_read32(b, p, t.shape.len() as u32);
    lemma_read_dims(b, p + 4, t.shape);
    lemma_read32(b, p + 4 + dims.len(), t.dtype.id());
    lemma_read64(b, p + 4 + dims.len() + 4, t.offset);
    law_type_id_round_trip(t.dtype, t.dtype.id());
    assert(t.shape.reverse().reverse() =~= t.shape);
}

/// The bytes of metadata entries one after the other.
pub open spec fn bytes_of_entries(s: Seq<(Seq<char>, ValueModel)>) -> Seq<u8>
    decreases s.len(),
{
    if s.len() == 0 {
        Seq::empty()
    } else {
        bytes_of_entries(s.drop_last()) + bytes_of_entry(s.last())
    }
}

/// Array elements that the values of metadata entries take.
pub open spec fn taken_by(s: Seq<(Seq<char>, ValueModel)>) -> nat
    decreases s.len(),
{
    if s.len() == 0 {
        0
    } else {
        taken_by(s.drop_last()) + taken(s.last().1)
    }
}

/// Metadata entries that a file can hold.
pub open spec fn plain_entries(s: Seq<(Seq<char>, ValueModel)>) -> bool {
    forall|i: int|
        0 <= i < s.len() ==> plain_text((#[trigger] s[i]).0) && is_plain(s[i].1, taken(s[i].1))
}

proof fn lemma_read_entries(b: Seq<u8>, pos: int, s: Seq<(Seq<char>, ValueModel)>, budget: nat)
    requires
        lies(b, pos, bytes_of_entries(s)),
        plain_entries(s),
        taken_by(s) <= budget,
    ensures
        rd_entries(b, pos, budget, s.len()) == Ok::<
            (Seq<(Seq<char>, ValueModel)>, int, nat),
            GgufError,
        >((s, pos + bytes_of_entries(s).len(), (budget - taken_by(s)) as nat)),
    decreases s.len(),
{
    if s.len() > 0 {
        let front = s.drop_last();
        lemma_lies(b, pos, bytes_of_entries(front), bytes_of_entry(s.last()));
        assert forall|i: int| 0 <= i < front.len() implies plain_text((#[trigger] front[i]).0)
            && is_plain(front[i].1, taken(front[i].1)) by {
            assert(front[i] == s[i]);
        }
        let e = s[s.len() - 1];
        assert(plain_text(e.0) && is_plain(e.1, taken(e.1)));
        lemma_read_entries(b, pos, front, budget);
        law_entries_are_read_back(
            b,
            pos + bytes_of_entries(front).len(),
            e,
            (budget - taken_by(front)) as nat,
        );
        assert(front.push(s.last()) =~= s);
    } else {
        assert(s =~= Seq::empty());
    }
}

/// The bytes of tensor descriptions one after the other.
pub open spec fn bytes_of_tensors(s: Seq<TensorModel>) -> Seq<u8>
    decreases s.len(),
{
    if s.len() == 0 {
        Seq::empty()
    } else {
        bytes_of_tensors(s.drop_last()) + bytes_of_tensor(s.last())
    }
}

/// Tensors by their names.
pub open spec fn named(s: Seq<TensorModel>) -> Seq<(Seq<char>, TensorModel)> {
    s.map_values(|t: TensorModel| (t.name, t))
}

proof fn lemma_read_tensors(b: Seq<u8>, pos: int, s: Seq<TensorModel>)
    requires
        lies(b, pos, bytes_of_tensors(s)),
        forall|i: int|
            0 <= i < s.len() ==> plain_text((#[trigger] s[i]).name) && s[i].shape.len() <= 4,
    ensures
        rd_tensors(b, pos, s.len()) == Ok::<(Seq<(Seq<char>, TensorModel)>, int), GgufError>(
            (named(s), pos + bytes_of_tensors(s).len()),
        ),
    decreases s.len(),
{
    if s.len() > 0 {
        let front = s.drop_last();
        lemma_lies(b, pos, bytes_of_tensors(front), bytes_of_tensor(s.last()));
        assert forall|i: int| 0 <= i < front.len() implies plain_text((#[trigger] front[i]).name)
            && front[i].shape.len() <= 4 by {
            assert(front[i] == s[i]);
        }
        let t = s[s.len() - 1];
        assert(plain_text(t.name) && t.shape.len() <= 4);
        lemma_read_tensors(b, pos, front);
        law_tensors_are_read_back(b, pos + bytes_of_tensors(front).len(), t);
        assert(named(front).push((t.name, t)) =~= named(s));
    } else {
        assert(named(s) =~= Seq::empty());
    }
}

/// The head of a file: the letters GGUF, the version, how many tensors and metadata entries
/// there are, the entries, and the descriptions of the tensors.
pub open spec fn bytes_of_head(
    version: u32,
    entries: Seq<(Seq<char>, ValueModel)>,
    tensors: Seq<TensorModel>,
) -> Seq<u8> {
    seq![0x47u8, 0x47u8, 0x55u8, 0x46u8] + bytes32(version) + bytes64(tensors.len() as u64)
        + bytes64(entries.len() as u64) + bytes_of_entries(entries) + bytes_of_tensors(tensors)
}

/// A file gives back the metadata and the tensors that were written into its head, a later
/// entry of the same name in place of an earlier one. The data begins at the next multiple of
/// the alignment that the file asks for.
pub proof fn law_files_are_read_back(
    b: Seq<u8>,
    version: u32,
    entries: Seq<(Seq<char>, ValueModel)>,
    tensors: Seq<TensorModel>,
)
    requires
        lies(b, 0, bytes_of_head(version, entries, tensors)),
        b.len() <= usize::MAX,
        version == 2 || version == 3,
        entries.len() <= 0x4000_0000,
        tensors.len() <= 0x4000_0000,
        plain_entries(entries),
        taken_by(entries) <= 0x100_0000,
        forall|i: int|
            0 <= i < tensors.len() ==> plain_text((#[trigger] tensors[i]).name)
                && tensors[i].shape.len() <= 4,
        1 <= alignment_of(lookup(bind_all(entries), "general.alignment"@)) <= 0x1_0000_0000,
        b.len() <= 0x1000_0000_0000_0000,
        align_up(
            bytes_of_head(version, entries, tensors).len() as int,
            alignment_of(lookup(bind_all(entries), "general.alignment"@)) as int,
        ) <= b.len(),
    ensures
        rd_content(b) matches Ok(c) && {
            let a = alignment_of(lookup(bind_all(entries), "general.alignment"@)) as int;
            let end = bytes_of_head(version, entries, tensors).len();
            &&& c.version == (if version == 2 {
                Version::V2
            } else {
                Version::V3
            })
            &&& c.metadata == bind_all(entries)
            &&& c.tensor_infos == bind_all(named(tensors))
            &&& c.tensor_data_offset as int % a == 0
            &&& end <= c.tensor_data_offset < end + a
        },
{
    let es = bytes_of_entries(entries);
    lemma_read_counts(b, version, entries, tensors);
    lemma_read_entries(b, 24, entries, 0x100_0000);
    lemma_read_tensors(b, 24 + es.len() as int, tensors);
    let a = alignment_of(lookup(bind_all(entries), "general.alignment"@)) as int;
    let end = bytes_of_head(version, entries, tensors).len() as int;
    let up = align_up(end, a);
    assert(up % a == 0 && end <= up < end + a) by (nonlinear_arith)
        requires
            up == (end + a - 1) / a * a,
            a >= 1,
    ;
    let v = if version == 2 {
        Version::V2
    } else {
        Version::V3
    };
    assert(rd_content(b) == rd_tables(b, v, tensors.len() as u64, entries.len() as u64));
    assert(end == 24 + es.len() + bytes_of_tensors(tensors).len());
}

proof fn lemma_read_counts(
    b: Seq<u8>,
    version: u32,
    entries: Seq<(Seq<char>, ValueModel)>,
    tensors: Seq<TensorModel>,
)
    requires
        lies(b, 0, bytes_of_head(version, entries, tensors)),
        entries.len() <= 0x4000_0000,
        tensors.len() <= 0x4000_0000,
    ensures
        rd_u32(b, 0) == Ok::<(u32, int), GgufError>((0x4655_4747, 4)),
        rd_u32(b, 4) == Ok::<(u32, int), GgufError>((version, 8)),
        rd_u64(b, 8) == Ok::<(u64, int), GgufError>((tensors.len() as u64, 16)),
        rd_u64(b, 16) == Ok::<(u64, int), GgufError>((entries.len() as u64, 24)),
        lies(b, 24, bytes_of_entries(entries)),
        lies(b, 24 + bytes_of_entries(entries).len() as int, bytes_of_tensors(tensors)),
        bytes_of_head(version, entries, tensors).len() == 24 + bytes_of_entries(entries).len()
            + bytes_of_tensors(tensors).len(),
{
    let magic = seq![0x47u8, 0x47u8, 0x55u8, 0x46u8];
    let v = bytes32(version);
    let nt = bytes64(tensors.len() as u64);
    let ne = bytes64(entries.len() as u64);
    let es = bytes_of_entries(entries);
    let ts = bytes_of_tensors(tensors);
    lemma_lies(b, 0, magic + v + nt + ne + es, ts);
    lemma_lies(b, 0, magic + v + nt + ne, es);
    lemma_lies(b, 0, magic + v + nt, ne);
    lemma_lies(b, 0, magic + v, nt);
    lemma_lies(b, 0, magic, v);
    assert(magic =~= bytes32(0x4655_4747));
    lemma_read32(b, 0, 0x4655_4747);
    lemma_read32(b, 4, version);
    lemma_read64(b, 8, tensors.len() as u64);
    lemma_read64(b, 16, entries.len() as u64);
}

/// Data is aligned as the file asks for, by an unsigned number or one that is not negative; to
/// 32 bytes where it asks for nothing.
pub proof fn law_alignment(n: u32, m: u64, i: i32)
    ensures
        alignment_of(None) == 32,
        alignment_of(Some(ValueModel::U32(n))) == n,
        alignment_of(Some(ValueModel::U64(m))) == m,
        i >= 0 ==> alignment_of(Some(ValueModel::I32(i))) == i,
        i < 0 ==> alignment_of(Some(ValueModel::I32(i))) == 32,
{
}

proof fn lemma_magic(b: Seq<u8>)
    requires
        b.len() >= 4,
    ensures
        le32(b, 0) == 0x4655_4747 <==> b[0] == 0x47 && b[1] == 0x47 && b[2] == 0x55 && b[3] == 0x46,
{
    assert(0x4655_4747 == 0x4747 + 0x1_0000 * 0x4655);
}

proof fn lemma_version(b: Seq<u8>, version: u32)
    requires
        b.len() >= 8,
        lies(b, 4, bytes32(version)),
    ensures
        le32(b, 4) == version,
{
    let v = b.subrange(4, 8);
    assert(v[0] == b[4] && v[1] == b[5] && v[2] == b[6] && v[3] == b[7]);
}

/// A file that does not begin with `GGUF` is refused, as is every version but 2 and 3.
#[verifier::spinoff_prover]
pub proof fn law_other_files_are_refused(b: Seq<u8>, version: u32)
    requires
        b.len() >= 8,
        lies(b, 4, bytes32(version)),
    ensures
        !(b[0] == 0x47 && b[1] == 0x47 && b[2] == 0x55 && b[3] == 0x46) ==> (rd_content(
            b,
        ) matches Err(GgufError::Magic { .. })),
        b[0] == 0x47 && b[1] == 0x47 && b[2] == 0x55 && b[3] == 0x46 && version != 2 && version
            != 3 ==> rd_content(b) == Err::<ContentModel, GgufError>(
            GgufError::Version { version },
        ),
{
    lemma_magic(b);
    lemma_version(b, version);
    assert(rd_u32(b, 0) == Ok::<(u32, int), GgufError>((le32(b, 0), 4)));
    assert(rd_u32(b, 4) == Ok::<(u32, int), GgufError>((le32(b, 4), 8)));
}

/// A file that is too short for its head is refused.
#[verifier::spinoff_prover]
pub proof fn law_short_files_are_refused(b: Seq<u8>)
    requires
        b.len() < 24,
    ensures
        rd_content(b) is Err,
{
    if b.len() < 4 {
        assert(rd_u32(b, 0) is Err);
    } else if b.len() < 8 {
        assert(rd_u32(b, 4) is Err);
    } else {
        assert(rd_u64(b, 16) is Err);
    }
}

} // verus!
