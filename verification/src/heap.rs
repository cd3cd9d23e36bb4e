//! Heap storage: tuple values with fixed-width serialization, slotted heap
//! pages, and heap tables that scan and append tuples.
//!
//! A serialized tuple is a null bitmap of `ceil(n/8)` bytes (bit `i` set
//! means column `i` is NULL, least significant bit first) followed by one
//! fixed-width little-endian field per non-null column, in column order.
//! A `Varchar(m)` or `Blob(m)` field is a 4-byte length prefix, the payload
//! bytes, then zero padding up to `m` bytes.

use vstd::prelude::*;

use vstd::bytes::*;
use vstd::seq_lib::*;
use vstd::string::StringSliceAdditionalSpecFns;

use crate::table::Table;
use crate::types::{ColumnType, PageId, PAGE_SIZE};

verus! {

/// Heap result type.
pub type HeapResult<T> = Result<T, HeapError>;

/// Heap error types.
#[derive(Debug, Clone)]
pub enum HeapError {
    /// The page is not present.
    PageNotFound(PageId),
    /// The page has no room for the tuple.
    OutOfSpace,
    /// The slot index is out of range.
    InvalidSlot(usize),
    /// The value does not fit its column or the bytes are malformed.
    SerializationError(String),
    /// The slot is a tombstone.
    TupleNotFound(RowId),
    /// Any other failure.
    Other(String),
}

/// Row identifier: a page and a slot within it.
#[derive(Debug, Clone, Copy, PartialEq, Eq, Hash, Structural)]
pub struct RowId {
    /// Page holding the tuple.
    pub page_id: PageId,
    /// Slot index within the page.
    pub slot_idx: usize,
}

impl RowId {
    /// Creates a new row identifier.
    pub fn new(page_id: PageId, slot_idx: usize) -> (r: Self)
        ensures
            r.page_id == page_id,
            r.slot_idx == slot_idx,
    {
        Self { page_id, slot_idx }
    }
}

/// Mathematical model of a tuple value: strings and blobs are byte
/// sequences (a string stands for its UTF-8 encoding).
pub enum ValueModel {
    /// NULL.
    Null,
    /// 8-bit signed integer.
    Int8(i8),
    /// 16-bit signed integer.
    Int16(i16),
    /// 32-bit signed integer.
    Int32(i32),
    /// 64-bit signed integer.
    Int64(i64),
    /// 8-bit unsigned integer.
    UInt8(u8),
    /// 16-bit unsigned integer.
    UInt16(u16),
    /// 32-bit unsigned integer.
    UInt32(u32),
    /// 64-bit unsigned integer.
    UInt64(u64),
    /// Boolean.
    Boolean(bool),
    /// String payload as UTF-8 bytes.
    VarChar(Seq<u8>),
    /// Binary payload.
    Blob(Seq<u8>),
}

/// A tuple value. Floating-point values are not representable here; columns
/// of floating-point type can only hold NULL in the verified core.
#[derive(Debug, PartialEq)]
pub enum Value {
    /// NULL.
    Null,
    /// 8-bit signed integer.
    Int8(i8),
    /// 16-bit signed integer.
    Int16(i16),
    /// 32-bit signed integer.
    Int32(i32),
    /// 64-bit signed integer.
    Int64(i64),
    /// 8-bit unsigned integer.
    UInt8(u8),
    /// 16-bit unsigned integer.
    UInt16(u16),
    /// 32-bit unsigned integer.
    UInt32(u32),
    /// 64-bit unsigned integer.
    UInt64(u64),
    /// Boolean.
    Boolean(bool),
    /// Variable-length string.
    VarChar(String),
    /// Binary large object.
    Blob(Vec<u8>),
}

impl View for Value {
    type V = ValueModel;

    open spec fn view(&self) -> ValueModel {
        match self {
            Value::Null => ValueModel::Null,
            Value::Int8(x) => ValueModel::Int8(*x),
            Value::Int16(x) => ValueModel::Int16(*x),
            Value::Int32(x) => ValueModel::Int32(*x),
            Value::Int64(x) => ValueModel::Int64(*x),
            Value::UInt8(x) => ValueModel::UInt8(*x),
            Value::UInt16(x) => ValueModel::UInt16(*x),
            Value::UInt32(x) => ValueModel::UInt32(*x),
            Value::UInt64(x) => ValueModel::UInt64(*x),
            Value::Boolean(b) => ValueModel::Boolean(*b),
            Value::VarChar(s) => ValueModel::VarChar(vstd::utf8::encode_utf8(s@)),
            Value::Blob(b) => ValueModel::Blob(b@),
        }
    }
}

/// The values of a `Vec<Value>`, each under its model.
pub open spec fn values_view(vs: Seq<Value>) -> Seq<ValueModel> {
    vs.map_values(|v: Value| v@)
}

/// Raw little-endian bytes of one value, without any column padding.
/// NULL serializes to nothing.
pub open spec fn spec_raw_bytes(v: ValueModel) -> Seq<u8> {
    match v {
        ValueModel::Null => Seq::empty(),
        ValueModel::Int8(x) => seq![x as u8],
        ValueModel::Int16(x) => spec_u16_to_le_bytes(x as u16),
        ValueModel::Int32(x) => spec_u32_to_le_bytes(x as u32),
        ValueModel::Int64(x) => spec_u64_to_le_bytes(x as u64),
        ValueModel::UInt8(x) => seq![x],
        ValueModel::UInt16(x) => spec_u16_to_le_bytes(x),
        ValueModel::UInt32(x) => spec_u32_to_le_bytes(x),
        ValueModel::UInt64(x) => spec_u64_to_le_bytes(x),
        ValueModel::Boolean(b) => seq![if b { 1u8 } else { 0u8 }],
        ValueModel::VarChar(bytes) => bytes,
        ValueModel::Blob(bytes) => bytes,
    }
}

/// Whether a value can be stored in a column of the given type: its width
/// matches, and a string or blob payload fits the declared maximum.
pub open spec fn value_fits(v: ValueModel, t: ColumnType) -> bool {
    match v {
        ValueModel::Null => true,
        ValueModel::Int8(_) => t is Int8,
        ValueModel::Int16(_) => t is Int16,
        ValueModel::Int32(_) => t is Int32,
        ValueModel::Int64(_) => t is Int64,
        ValueModel::UInt8(_) => t is UInt8,
        ValueModel::UInt16(_) => t is UInt16,
        ValueModel::UInt32(_) => t is UInt32,
        ValueModel::UInt64(_) => t is UInt64,
        ValueModel::Boolean(_) => t is Bool,
        ValueModel::VarChar(bytes) => t matches ColumnType::Varchar(m) && bytes.len() <= m
            && vstd::utf8::valid_utf8(bytes),
        ValueModel::Blob(bytes) => t matches ColumnType::Blob(m) && bytes.len() <= m,
    }
}

/// A sequence of `n` zero bytes.
pub open spec fn zero_bytes(n: nat) -> Seq<u8> {
    Seq::new(n, |i: int| 0u8)
}

/// The fixed-width field written for a non-null value that fits column type
/// `t`: exactly `t.spec_size()` bytes.
pub open spec fn spec_field_bytes(v: ValueModel, t: ColumnType) -> Seq<u8> {
    match v {
        ValueModel::VarChar(bytes) => spec_u32_to_le_bytes(bytes.len() as u32) + bytes
            + zero_bytes((t.spec_size() - 4 - bytes.len()) as nat),
        ValueModel::Blob(bytes) => spec_u32_to_le_bytes(bytes.len() as u32) + bytes + zero_bytes(
            (t.spec_size() - 4 - bytes.len()) as nat,
        ),
        _ => spec_raw_bytes(v),
    }
}

/// A non-null fitting value's field is exactly as wide as its column.
pub proof fn lemma_field_bytes_len(v: ValueModel, t: ColumnType)
    requires
        value_fits(v, t),
        !(v is Null),
    ensures
        spec_field_bytes(v, t).len() == t.spec_size(),
{
    match v {
        ValueModel::Int16(x) => lemma_auto_spec_u16_to_from_le_bytes(),
        ValueModel::Int32(x) => lemma_auto_spec_u32_to_from_le_bytes(),
        ValueModel::Int64(x) => lemma_auto_spec_u64_to_from_le_bytes(),
        ValueModel::UInt16(x) => lemma_auto_spec_u16_to_from_le_bytes(),
        ValueModel::UInt32(x) => lemma_auto_spec_u32_to_from_le_bytes(),
        ValueModel::UInt64(x) => lemma_auto_spec_u64_to_from_le_bytes(),
        ValueModel::VarChar(bytes) => lemma_auto_spec_u32_to_from_le_bytes(),
        ValueModel::Blob(bytes) => lemma_auto_spec_u32_to_from_le_bytes(),
        _ => {},
    }
}

/// Parse of one fixed-width field of column type `t`. `None` when the bytes
/// are not a field of that type (wrong length, an oversized payload length
/// prefix, or a floating-point column, whose non-null values the verified
/// core does not represent).
pub open spec fn spec_parse_field(data: Seq<u8>, t: ColumnType) -> Option<ValueModel> {
    if data.len() != t.spec_size() {
        None
    } else {
        match t {
            ColumnType::Int8 => Some(ValueModel::Int8(data[0] as i8)),
            ColumnType::Int16 => Some(ValueModel::Int16(spec_u16_from_le_bytes(data) as i16)),
            ColumnType::Int32 => Some(ValueModel::Int32(spec_u32_from_le_bytes(data) as i32)),
            ColumnType::Int64 => Some(ValueModel::Int64(spec_u64_from_le_bytes(data) as i64)),
            ColumnType::UInt8 => Some(ValueModel::UInt8(data[0])),
            ColumnType::UInt16 => Some(ValueModel::UInt16(spec_u16_from_le_bytes(data))),
            ColumnType::UInt32 => Some(ValueModel::UInt32(spec_u32_from_le_bytes(data))),
            ColumnType::UInt64 => Some(ValueModel::UInt64(spec_u64_from_le_bytes(data))),
            ColumnType::Bool => Some(ValueModel::Boolean(data[0] != 0)),
            ColumnType::Float32 => None,
            ColumnType::Float64 => None,
            ColumnType::Varchar(m) => {
                let l = spec_u32_from_le_bytes(data.subrange(0, 4));
                if l <= m && vstd::utf8::valid_utf8(data.subrange(4, 4 + l as int)) {
                    Some(ValueModel::VarChar(data.subrange(4, 4 + l as int)))
                } else {
                    None
                }
            },
            ColumnType::Blob(m) => {
                let l = spec_u32_from_le_bytes(data.subrange(0, 4));
                if l <= m {
                    Some(ValueModel::Blob(data.subrange(4, 4 + l as int)))
                } else {
                    None
                }
            },
        }
    }
}

/// A fitting non-null value's field parses back to the value.
pub proof fn lemma_field_round_trip(v: ValueModel, t: ColumnType)
    requires
        value_fits(v, t),
        !(v is Null),
    ensures
        spec_parse_field(spec_field_bytes(v, t), t) == Some(v),
{
    lemma_field_bytes_len(v, t);
    lemma_auto_spec_u16_to_from_le_bytes();
    lemma_auto_spec_u32_to_from_le_bytes();
    lemma_auto_spec_u64_to_from_le_bytes();
    let data = spec_field_bytes(v, t);
    match v {
        ValueModel::Int8(x) => {
            assert(x as u8 as i8 == x) by (bit_vector);
        },
        ValueModel::Int16(x) => {
            assert(spec_u16_from_le_bytes(spec_u16_to_le_bytes(x as u16)) == x as u16);
            assert(x as u16 as i16 == x) by (bit_vector);
        },
        ValueModel::Int32(x) => {
            assert(x as u32 as i32 == x) by (bit_vector);
        },
        ValueModel::Int64(x) => {
            assert(x as u64 as i64 == x) by (bit_vector);
        },
        ValueModel::VarChar(bytes) => {
            let m = t->Varchar_0;
            assert(data.subrange(0, 4) =~= spec_u32_to_le_bytes(bytes.len() as u32));
            assert(data.subrange(4, 4 + bytes.len() as int) =~= bytes);
        },
        ValueModel::Blob(bytes) => {
            let m = t->Blob_0;
            assert(data.subrange(0, 4) =~= spec_u32_to_le_bytes(bytes.len() as u32));
            assert(data.subrange(4, 4 + bytes.len() as int) =~= bytes);
        },
        _ => {},
    }
}

/// Number of bytes in the null bitmap for `n` columns.
pub open spec fn bitmap_len(n: nat) -> nat {
    (n + 7) / 8
}

/// 1 when the value at position `i` exists and is NULL, else 0.
pub open spec fn spec_null_bit(vs: Seq<ValueModel>, i: int) -> u8 {
    if 0 <= i < vs.len() && vs[i] is Null {
        1
    } else {
        0
    }
}

/// Byte `j` of the null bitmap: bit `k` stands for value `8*j + k`.
pub open spec fn spec_bitmap_byte(vs: Seq<ValueModel>, j: int) -> u8 {
    spec_null_bit(vs, 8 * j) | (spec_null_bit(vs, 8 * j + 1) << 1u8) | (spec_null_bit(
        vs,
        8 * j + 2,
    ) << 2u8) | (spec_null_bit(vs, 8 * j + 3) << 3u8) | (spec_null_bit(vs, 8 * j + 4) << 4u8) | (
    spec_null_bit(vs, 8 * j + 5) << 5u8) | (spec_null_bit(vs, 8 * j + 6) << 6u8) | (spec_null_bit(
        vs,
        8 * j + 7,
    ) << 7u8)
}

/// The null bitmap of a tuple.
pub open spec fn spec_bitmap(vs: Seq<ValueModel>) -> Seq<u8> {
    Seq::new(bitmap_len(vs.len()), |j: int| spec_bitmap_byte(vs, j))
}

/// Whether bit `i` is set in the bitmap at the head of `data`.
pub open spec fn spec_data_null(data: Seq<u8>, i: int) -> bool {
    ((data[i / 8] >> ((i % 8) as u8)) & 1) == 1
}

/// Bit `k` of a byte assembled from eight 0-or-1 bits is bit `k`.
proof fn bits_byte_lemma(b0: u8, b1: u8, b2: u8, b3: u8, b4: u8, b5: u8, b6: u8, b7: u8, k: u8)
    requires
        b0 <= 1 && b1 <= 1 && b2 <= 1 && b3 <= 1,
        b4 <= 1 && b5 <= 1 && b6 <= 1 && b7 <= 1,
        k < 8,
    ensures
        k == 0 ==> (((b0 | (b1 << 1u8) | (b2 << 2u8) | (b3 << 3u8) | (b4 << 4u8) | (b5 << 5u8) | (b6 << 6u8) | (b7 << 7u8)) >> k) & 1) == b0,
        k == 1 ==> (((b0 | (b1 << 1u8) | (b2 << 2u8) | (b3 << 3u8) | (b4 << 4u8) | (b5 << 5u8) | (b6 << 6u8) | (b7 << 7u8)) >> k) & 1) == b1,
        k == 2 ==> (((b0 | (b1 << 1u8) | (b2 << 2u8) | (b3 << 3u8) | (b4 << 4u8) | (b5 << 5u8) | (b6 << 6u8) | (b7 << 7u8)) >> k) & 1) == b2,
        k == 3 ==> (((b0 | (b1 << 1u8) | (b2 << 2u8) | (b3 << 3u8) | (b4 << 4u8) | (b5 << 5u8) | (b6 << 6u8) | (b7 << 7u8)) >> k) & 1) == b3,
        k == 4 ==> (((b0 | (b1 << 1u8) | (b2 << 2u8) | (b3 << 3u8) | (b4 << 4u8) | (b5 << 5u8) | (b6 << 6u8) | (b7 << 7u8)) >> k) & 1) == b4,
        k == 5 ==> (((b0 | (b1 << 1u8) | (b2 << 2u8) | (b3 << 3u8) | (b4 << 4u8) | (b5 << 5u8) | (b6 << 6u8) | (b7 << 7u8)) >> k) & 1) == b5,
        k == 6 ==> (((b0 | (b1 << 1u8) | (b2 << 2u8) | (b3 << 3u8) | (b4 << 4u8) | (b5 << 5u8) | (b6 << 6u8) | (b7 << 7u8)) >> k) & 1) == b6,
        k == 7 ==> (((b0 | (b1 << 1u8) | (b2 << 2u8) | (b3 << 3u8) | (b4 << 4u8) | (b5 << 5u8) | (b6 << 6u8) | (b7 << 7u8)) >> k) & 1) == b7,
{
    assert(k < 8 && b0 <= 1 && b1 <= 1 && b2 <= 1 && b3 <= 1 && b4 <= 1 && b5 <= 1 && b6 <= 1 && b7 <= 1 ==> {
        let x = b0 | (b1 << 1u8) | (b2 << 2u8) | (b3 << 3u8) | (b4 << 4u8) | (b5 << 5u8) | (b6 << 6u8) | (b7 << 7u8);
        &&& (k == 0 ==> ((x >> k) & 1) == b0)
        &&& (k == 1 ==> ((x >> k) & 1) == b1)
        &&& (k == 2 ==> ((x >> k) & 1) == b2)
        &&& (k == 3 ==> ((x >> k) & 1) == b3)
        &&& (k == 4 ==> ((x >> k) & 1) == b4)
        &&& (k == 5 ==> ((x >> k) & 1) == b5)
        &&& (k == 6 ==> ((x >> k) & 1) == b6)
        &&& (k == 7 ==> ((x >> k) & 1) == b7)
    }) by (bit_vector);
}

/// Reading bit `i` of the bitmap tells whether value `i` is NULL.
pub proof fn lemma_bitmap_bit(vs: Seq<ValueModel>, i: int)
    requires
        0 <= i < vs.len(),
    ensures
        spec_data_null(spec_bitmap(vs), i) <==> vs[i] is Null,
{
    let j = i / 8;
    let k = (i % 8) as u8;
    let b0 = spec_null_bit(vs, 8 * j);
    let b1 = spec_null_bit(vs, 8 * j + 1);
    let b2 = spec_null_bit(vs, 8 * j + 2);
    let b3 = spec_null_bit(vs, 8 * j + 3);
    let b4 = spec_null_bit(vs, 8 * j + 4);
    let b5 = spec_null_bit(vs, 8 * j + 5);
    let b6 = spec_null_bit(vs, 8 * j + 6);
    let b7 = spec_null_bit(vs, 8 * j + 7);
    let x = spec_bitmap_byte(vs, j);
    assert(0 <= j < bitmap_len(vs.len()));
    assert(x == (b0 | (b1 << 1u8) | (b2 << 2u8) | (b3 << 3u8) | (b4 << 4u8) | (b5 << 5u8) | (b6
        << 6u8) | (b7 << 7u8)));
    assert(i == 8 * j + (k as int));
    assert(x >= 0);
    bits_byte_lemma(b0, b1, b2, b3, b4, b5, b6, b7, k);
}

/// Whether every value fits its column, positionally.
pub open spec fn tuple_fits(vs: Seq<ValueModel>, cols: Seq<ColumnType>) -> bool {
    &&& vs.len() == cols.len()
    &&& forall|i: int| 0 <= i < vs.len() ==> value_fits(#[trigger] vs[i], cols[i])
}

/// Whether the tuple can be laid out in this machine's address space: the
/// column count leaves room for the bitmap arithmetic and each non-null
/// field's width fits a `usize`.
pub open spec fn fields_fit_machine(vs: Seq<ValueModel>, cols: Seq<ColumnType>) -> bool {
    &&& cols.len() + 7 <= usize::MAX
    &&& forall|i: int|
        0 <= i < vs.len() && !(#[trigger] vs[i] is Null) ==> cols[i].spec_size() <= usize::MAX
}

/// The concatenated fields of the values from position `i` on; NULL values
/// contribute nothing.
pub open spec fn spec_fields_bytes(vs: Seq<ValueModel>, cols: Seq<ColumnType>, i: int) -> Seq<u8>
    decreases vs.len() - i,
{
    if i < 0 || i >= vs.len() || i >= cols.len() {
        Seq::empty()
    } else if vs[i] is Null {
        spec_fields_bytes(vs, cols, i + 1)
    } else {
        spec_field_bytes(vs[i], cols[i]) + spec_fields_bytes(vs, cols, i + 1)
    }
}

/// The serialized form of a tuple: null bitmap, then the non-null fields in
/// column order.
pub open spec fn spec_tuple_bytes(vs: Seq<ValueModel>, cols: Seq<ColumnType>) -> Seq<u8> {
    spec_bitmap(vs) + spec_fields_bytes(vs, cols, 0)
}

/// Parse of the fields of columns `i..` of `data`, with the next field at
/// byte offset `off`. Bytes after the last field are ignored.
pub open spec fn spec_parse_fields(
    data: Seq<u8>,
    cols: Seq<ColumnType>,
    i: int,
    off: int,
) -> Option<Seq<ValueModel>>
    decreases cols.len() - i,
{
    if i < 0 || i >= cols.len() {
        Some(Seq::empty())
    } else if spec_data_null(data, i) {
        match spec_parse_fields(data, cols, i + 1, off) {
            Some(rest) => Some(seq![ValueModel::Null] + rest),
            None => None,
        }
    } else {
        let sz = cols[i].spec_size() as int;
        if off + sz > data.len() {
            None
        } else {
            match spec_parse_field(data.subrange(off, off + sz), cols[i]) {
                Some(v) => match spec_parse_fields(data, cols, i + 1, off + sz) {
                    Some(rest) => Some(seq![v] + rest),
                    None => None,
                },
                None => None,
            }
        }
    }
}

/// Parse of a whole serialized tuple. The empty byte string parses to the
/// all-NULL tuple; otherwise the bitmap must be present and every non-null
/// field must parse.
pub open spec fn spec_parse_tuple(data: Seq<u8>, cols: Seq<ColumnType>) -> Option<
    Seq<ValueModel>,
> {
    if data.len() == 0 {
        Some(Seq::new(cols.len(), |i: int| ValueModel::Null))
    } else if data.len() < bitmap_len(cols.len()) {
        None
    } else {
        spec_parse_fields(data, cols, 0, bitmap_len(cols.len()) as int)
    }
}

/// Helper for the round trip: parsing the fields of a serialized tuple from
/// position `i` returns the remaining values.
proof fn lemma_parse_fields_round_trip(
    vs: Seq<ValueModel>,
    cols: Seq<ColumnType>,
    data: Seq<u8>,
    i: int,
    off: int,
)
    requires
        tuple_fits(vs, cols),
        0 <= i <= vs.len(),
        data.len() >= bitmap_len(vs.len()),
        forall|k: int| 0 <= k < vs.len() ==> (spec_data_null(data, k) <==> vs[k] is Null),
        0 <= off <= data.len(),
        off == data.len() - spec_fields_bytes(vs, cols, i).len(),
        data.subrange(off, data.len() as int) == spec_fields_bytes(vs, cols, i),
    ensures
        spec_parse_fields(data, cols, i, off) == Some(vs.skip(i)),
    decreases vs.len() - i,
{
    if i == vs.len() {
        assert(vs.skip(i) =~= Seq::<ValueModel>::empty());
    } else if vs[i] is Null {
        assert(spec_fields_bytes(vs, cols, i) == spec_fields_bytes(vs, cols, i + 1));
        lemma_parse_fields_round_trip(vs, cols, data, i + 1, off);
        assert(vs[i] == ValueModel::Null);
        assert(seq![ValueModel::Null] + vs.skip(i + 1) =~= vs.skip(i));
    } else {
        let f = spec_field_bytes(vs[i], cols[i]);
        let sz = cols[i].spec_size() as int;
        lemma_field_bytes_len(vs[i], cols[i]);
        assert(f.len() == sz);
        let rest = spec_fields_bytes(vs, cols, i + 1);
        assert(spec_fields_bytes(vs, cols, i) == f + rest);
        assert(off + sz <= data.len());
        assert(data.subrange(off, off + sz) =~= f) by {
            assert forall|k: int| 0 <= k < sz implies data.subrange(off, off + sz)[k] == f[k] by {
                assert(data.subrange(off, data.len() as int)[k] == f[k]);
            }
        }
        lemma_field_round_trip(vs[i], cols[i]);
        assert(data.subrange(off + sz, data.len() as int) =~= rest) by {
            assert forall|k: int| 0 <= k < rest.len() implies data.subrange(
                off + sz,
                data.len() as int,
            )[k] == rest[k] by {
                assert(data.subrange(off, data.len() as int)[k + sz] == (f + rest)[k + sz]);
            }
        }
        lemma_parse_fields_round_trip(vs, cols, data, i + 1, off + sz);
        assert(seq![vs[i]] + vs.skip(i + 1) =~= vs.skip(i));
    }
}

/// Round trip: deserializing a serialized tuple yields the tuple, for every
/// tuple whose values fit their columns.
pub proof fn lemma_tuple_round_trip(vs: Seq<ValueModel>, cols: Seq<ColumnType>)
    requires
        tuple_fits(vs, cols),
    ensures
        spec_parse_tuple(spec_tuple_bytes(vs, cols), cols) == Some(vs),
{
    let data = spec_tuple_bytes(vs, cols);
    let bm = spec_bitmap(vs);
    let n = vs.len();
    if n == 0 {
        assert(bitmap_len(0) == 0);
        assert(data.len() == spec_fields_bytes(vs, cols, 0).len());
        assert(spec_fields_bytes(vs, cols, 0).len() == 0);
        assert(spec_parse_tuple(data, cols) == Some(Seq::new(0, |i: int| ValueModel::Null)));
        assert(Seq::new(0, |i: int| ValueModel::Null) =~= vs);
    } else {
        assert(bm.len() == bitmap_len(n));
        assert(bitmap_len(n) >= 1);
        assert(data.len() >= bitmap_len(n));
        assert(data.len() != 0);
        assert forall|k: int| 0 <= k < n implies (spec_data_null(data, k) <==> vs[k] is Null) by {
            assert(0 <= k / 8 < bm.len());
            assert(data[k / 8] == bm[k / 8]);
            lemma_bitmap_bit(vs, k);
        }
        let off = bitmap_len(n) as int;
        assert(data.subrange(off, data.len() as int) =~= spec_fields_bytes(vs, cols, 0));
        lemma_parse_fields_round_trip(vs, cols, data, 0, off);
        assert(vs.skip(0) =~= vs);
    }
}

impl Clone for Value {
    /// A copy with the same model.
    fn clone(&self) -> (r: Self)
        ensures
            r@ == self@,
    {
        match self {
            Value::Null => Value::Null,
            Value::Int8(x) => Value::Int8(*x),
            Value::Int16(x) => Value::Int16(*x),
            Value::Int32(x) => Value::Int32(*x),
            Value::Int64(x) => Value::Int64(*x),
            Value::UInt8(x) => Value::UInt8(*x),
            Value::UInt16(x) => Value::UInt16(*x),
            Value::UInt32(x) => Value::UInt32(*x),
            Value::UInt64(x) => Value::UInt64(*x),
            Value::Boolean(b) => Value::Boolean(*b),
            Value::VarChar(s) => Value::VarChar(s.clone()),
            Value::Blob(b) => Value::Blob(vstd::slice::slice_to_vec(b.as_slice())),
        }
    }
}

/// Storage size in bytes of one field of type `t`, as a `u64` (every column
/// width fits one).
pub fn col_size_u64(t: &ColumnType) -> (r: u64)
    ensures
        r == t.spec_size(),
{
    match t {
        ColumnType::Int8 | ColumnType::UInt8 | ColumnType::Bool => 1,
        ColumnType::Int16 | ColumnType::UInt16 => 2,
        ColumnType::Int32 | ColumnType::UInt32 | ColumnType::Float32 => 4,
        ColumnType::Int64 | ColumnType::UInt64 | ColumnType::Float64 => 8,
        ColumnType::Varchar(max_len) => 4 + *max_len as u64,
        ColumnType::Blob(max_len) => 4 + *max_len as u64,
    }
}

impl Value {
    /// The length in bytes of this value's raw serialized form.
    pub fn serialized_size(&self) -> (r: usize)
        ensures
            r == spec_raw_bytes(self@).len(),
    {
        proof {
            lemma_auto_spec_u16_to_from_le_bytes();
            lemma_auto_spec_u32_to_from_le_bytes();
            lemma_auto_spec_u64_to_from_le_bytes();
        }
        match self {
            Value::Null => 0,
            Value::Int8(_) | Value::UInt8(_) | Value::Boolean(_) => 1,
            Value::Int16(_) | Value::UInt16(_) => 2,
            Value::Int32(_) | Value::UInt32(_) => 4,
            Value::Int64(_) | Value::UInt64(_) => 8,
            Value::VarChar(s) => crate::text::string_to_bytes(s.as_str()).len(),
            Value::Blob(b) => b.len(),
        }
    }

    /// The raw little-endian bytes of this value, with no padding. NULL
    /// serializes to nothing.
    pub fn serialize(&self) -> (r: Vec<u8>)
        ensures
            r@ == spec_raw_bytes(self@),
    {
        match self {
            Value::Null => Vec::new(),
            Value::Int8(x) => {
                let mut b: Vec<u8> = Vec::new();
                b.push(*x as u8);
                proof {
                    assert(b@ =~= spec_raw_bytes(self@));
                }
                b
            },
            Value::Int16(x) => u16_to_le_bytes(*x as u16),
            Value::Int32(x) => u32_to_le_bytes(*x as u32),
            Value::Int64(x) => u64_to_le_bytes(*x as u64),
            Value::UInt8(x) => {
                let mut b: Vec<u8> = Vec::new();
                b.push(*x);
                proof {
                    assert(b@ =~= spec_raw_bytes(self@));
                }
                b
            },
            Value::UInt16(x) => u16_to_le_bytes(*x),
            Value::UInt32(x) => u32_to_le_bytes(*x),
            Value::UInt64(x) => u64_to_le_bytes(*x),
            Value::Boolean(v) => {
                let mut b: Vec<u8> = Vec::new();
                b.push(if *v { 1 } else { 0 });
                proof {
                    assert(b@ =~= spec_raw_bytes(self@));
                }
                b
            },
            Value::VarChar(s) => crate::text::string_to_bytes(s.as_str()),
            Value::Blob(b) => vstd::slice::slice_to_vec(b.as_slice()),
        }
    }

    /// Parses one fixed-width field of column type `col_type`. An empty
    /// byte string is NULL; otherwise the bytes must be exactly one field
    /// of the column's width.
    pub fn deserialize(data: &[u8], col_type: &ColumnType) -> (r: HeapResult<Value>)
        ensures
            data@.len() == 0 ==> (r matches Ok(v) && v@ == ValueModel::Null),
            data@.len() != 0 ==> ((r is Ok) == (spec_parse_field(data@, *col_type) is Some)),
            data@.len() != 0 ==> (r matches Ok(v) ==> Some(v@) == spec_parse_field(
                data@,
                *col_type,
            )),
            r is Err ==> r matches Err(HeapError::SerializationError(_)),
    {
        if data.len() == 0 {
            return Ok(Value::Null);
        }
        match deserialize_field(data, col_type) {
            Some(v) => Ok(v),
            None => Err(HeapError::SerializationError("malformed field".to_owned())),
        }
    }
}

/// Parses one fixed-width field; `None` exactly when the field parse is
/// undefined on these bytes.
fn deserialize_field(data: &[u8], t: &ColumnType) -> (r: Option<Value>)
    ensures
        r is Some <==> spec_parse_field(data@, *t) is Some,
        r matches Some(v) ==> Some(v@) == spec_parse_field(data@, *t),
{
    let sz = col_size_u64(t);
    if data.len() as u64 != sz {
        return None;
    }
    match t {
        ColumnType::Int8 => Some(Value::Int8(data[0] as i8)),
        ColumnType::Int16 => Some(Value::Int16(u16_from_le_bytes(data) as i16)),
        ColumnType::Int32 => Some(Value::Int32(u32_from_le_bytes(data) as i32)),
        ColumnType::Int64 => Some(Value::Int64(u64_from_le_bytes(data) as i64)),
        ColumnType::UInt8 => Some(Value::UInt8(data[0])),
        ColumnType::UInt16 => Some(Value::UInt16(u16_from_le_bytes(data))),
        ColumnType::UInt32 => Some(Value::UInt32(u32_from_le_bytes(data))),
        ColumnType::UInt64 => Some(Value::UInt64(u64_from_le_bytes(data))),
        ColumnType::Bool => Some(Value::Boolean(data[0] != 0)),
        ColumnType::Float32 | ColumnType::Float64 => None,
        ColumnType::Varchar(m) => {
            let l = u32_from_le_bytes(vstd::slice::slice_subrange(data, 0, 4));
            if l > *m {
                return None;
            }
            let end = 4 + l as usize;
            let payload = vstd::slice::slice_to_vec(vstd::slice::slice_subrange(data, 4, end));
            match crate::text::string_from_utf8(payload) {
                Some(s) => Some(Value::VarChar(s)),
                None => None,
            }
        },
        ColumnType::Blob(m) => {
            let l = u32_from_le_bytes(vstd::slice::slice_subrange(data, 0, 4));
            if l > *m {
                return None;
            }
            let end = 4 + l as usize;
            let payload = vstd::slice::slice_to_vec(vstd::slice::slice_subrange(data, 4, end));
            Some(Value::Blob(payload))
        },
    }
}

/// Writes the fixed-width field of a non-null value for column type `t`;
/// `None` exactly when the value does not fit the column or the field is
/// wider than the address space.
fn serialize_field(v: &Value, t: &ColumnType) -> (r: Option<Vec<u8>>)
    requires
        !(v@ is Null),
    ensures
        r is Some <==> (value_fits(v@, *t) && t.spec_size() <= usize::MAX),
        r matches Some(b) ==> b@ == spec_field_bytes(v@, *t),
{
    match (v, t) {
        (Value::Int8(x), ColumnType::Int8) => {
            let mut b: Vec<u8> = Vec::new();
            b.push(*x as u8);
            proof {
                assert(b@ =~= spec_field_bytes(v@, *t));
            }
            Some(b)
        },
        (Value::Int16(x), ColumnType::Int16) => Some(u16_to_le_bytes(*x as u16)),
        (Value::Int32(x), ColumnType::Int32) => Some(u32_to_le_bytes(*x as u32)),
        (Value::Int64(x), ColumnType::Int64) => Some(u64_to_le_bytes(*x as u64)),
        (Value::UInt8(x), ColumnType::UInt8) => {
            let mut b: Vec<u8> = Vec::new();
            b.push(*x);
            proof {
                assert(b@ =~= spec_field_bytes(v@, *t));
            }
            Some(b)
        },
        (Value::UInt16(x), ColumnType::UInt16) => Some(u16_to_le_bytes(*x)),
        (Value::UInt32(x), ColumnType::UInt32) => Some(u32_to_le_bytes(*x)),
        (Value::UInt64(x), ColumnType::UInt64) => Some(u64_to_le_bytes(*x)),
        (Value::Boolean(x), ColumnType::Bool) => {
            let mut b: Vec<u8> = Vec::new();
            b.push(if *x { 1 } else { 0 });
            proof {
                assert(b@ =~= spec_field_bytes(v@, *t));
            }
            Some(b)
        },
        (Value::VarChar(s), ColumnType::Varchar(m)) => {
            let payload = crate::text::string_to_bytes(s.as_str());
            proof {
                vstd::utf8::encode_utf8_valid_utf8(s@);
            }
            serialize_var_field(payload, *m, Ghost(v@), Ghost(*t))
        },
        (Value::Blob(bytes), ColumnType::Blob(m)) => {
            let payload = vstd::slice::slice_to_vec(bytes.as_slice());
            serialize_var_field(payload, *m, Ghost(v@), Ghost(*t))
        },
        _ => None,
    }
}

/// Lays a variable-width payload out as a field of maximum payload width
/// `m`: length prefix, payload, zero padding.
fn serialize_var_field(
    payload: Vec<u8>,
    m: u32,
    Ghost(v): Ghost<ValueModel>,
    Ghost(t): Ghost<ColumnType>,
) -> (r: Option<Vec<u8>>)
    requires
        (v matches ValueModel::VarChar(b) && t matches ColumnType::Varchar(mm) && mm == m
            && b == payload@ && vstd::utf8::valid_utf8(b)) || (v matches ValueModel::Blob(b)
            && t matches ColumnType::Blob(mm) && mm == m && b == payload@),
    ensures
        r is Some <==> (value_fits(v, t) && t.spec_size() <= usize::MAX),
        r matches Some(b) ==> b@ == spec_field_bytes(v, t),
{
    if payload.len() as u64 > m as u64 {
        return None;
    }
    if 4 + m as u64 > usize::MAX as u64 {
        return None;
    }
    let target: usize = 4 + m as usize;
    let mut out = u32_to_le_bytes(payload.len() as u32);
    let ghost prefix = spec_u32_to_le_bytes(payload@.len() as u32) + payload@;
    let mut p = payload;
    out.append(&mut p);
    proof {
        lemma_auto_spec_u32_to_from_le_bytes();
        assert(out@ =~= prefix + zero_bytes((out@.len() - prefix.len()) as nat));
    }
    while out.len() < target
        invariant
            prefix.len() <= out@.len() <= target,
            out@ == prefix + zero_bytes((out@.len() - prefix.len()) as nat),
        decreases target - out@.len(),
    {
        out.push(0);
        proof {
            assert(out@ =~= prefix + zero_bytes((out@.len() - prefix.len()) as nat));
        }
    }
    proof {
        assert(out@.len() == target);
        assert((out@.len() - prefix.len()) as nat == (t.spec_size() - 4 - payload@.len()) as nat);
        assert(out@ =~= spec_field_bytes(v, t));
    }
    Some(out)
}

/// Prepends a parsed prefix onto an optional parse result.
pub open spec fn opt_prepend(prefix: Seq<ValueModel>, rest: Option<Seq<ValueModel>>) -> Option<
    Seq<ValueModel>,
> {
    match rest {
        Some(r) => Some(prefix + r),
        None => None,
    }
}

/// Mapping values to their models commutes with `push`.
pub proof fn lemma_values_view_push(s: Seq<Value>, v: Value)
    ensures
        values_view(s.push(v)) == values_view(s).push(v@),
{
    assert forall|k: int| 0 <= k < s.len() + 1 implies values_view(s.push(v))[k] == values_view(
        s,
    ).push(v@)[k] by {
        if k < s.len() {
            assert(s.push(v)[k] == s[k]);
        } else {
            assert(s.push(v)[k] == v);
        }
    }
    assert(values_view(s.push(v)) =~= values_view(s).push(v@));
}

/// In-memory representation of one row.
#[derive(Debug)]
pub struct Tuple {
    values: Vec<Value>,
}

impl Clone for Tuple {
    /// A copy whose values have the same models.
    fn clone(&self) -> (r: Self)
        ensures
            values_view(r@) == values_view(self@),
    {
        let mut values: Vec<Value> = Vec::new();
        let mut i: usize = 0;
        while i < self.values.len()
            invariant
                0 <= i <= self.values@.len(),
                values_view(values@) =~= values_view(self.values@).take(i as int),
            decreases self.values@.len() - i,
        {
            let ghost before = values@;
            let cv = self.values[i].clone();
            proof {
                lemma_values_view_push(before, cv);
            }
            values.push(cv);
            proof {
                assert(values_view(values@) =~= values_view(self.values@).take(i + 1));
            }
            i = i + 1;
        }
        proof {
            assert(values_view(self.values@).take(self.values@.len() as int) =~= values_view(
                self.values@,
            ));
        }
        Tuple { values }
    }
}

impl View for Tuple {
    type V = Seq<Value>;

    closed spec fn view(&self) -> Seq<Value> {
        self.values@
    }
}

/// The column types named by a column slice.
pub open spec fn cols_types(columns: Seq<crate::table::column::Column>) -> Seq<ColumnType> {
    crate::table::column::column_types(crate::table::column::columns_view(columns))
}

impl Tuple {
    /// Creates a tuple from its values.
    pub fn new(values: Vec<Value>) -> (r: Self)
        ensures
            r@ == values@,
    {
        Self { values }
    }

    /// The tuple's values in column order.
    pub fn values(&self) -> (r: &[Value])
        ensures
            r@ == self@,
    {
        self.values.as_slice()
    }

    /// The value at position `idx`, if any.
    pub fn get(&self, idx: usize) -> (r: Option<&Value>)
        ensures
            idx < self@.len() ==> (r matches Some(v) && *v == self@[idx as int]),
            idx >= self@.len() ==> r is None,
    {
        if idx < self.values.len() {
            Some(&self.values[idx])
        } else {
            None
        }
    }

    /// Serializes the tuple against the given columns: the null bitmap, then
    /// one fixed-width field per non-null value. Succeeds exactly when the
    /// value count matches the column count, every value fits its column,
    /// and the layout fits the machine's address space.
    pub fn serialize(&self, columns: &[crate::table::column::Column]) -> (r: HeapResult<Vec<u8>>)
        ensures
            r is Ok <==> (tuple_fits(values_view(self@), cols_types(columns@))
                && fields_fit_machine(values_view(self@), cols_types(columns@))),
            r matches Ok(b) ==> b@ == spec_tuple_bytes(values_view(self@), cols_types(columns@)),
            r is Err ==> r matches Err(HeapError::SerializationError(_)),
    {
        serialize_values(self.values.as_slice(), columns)
    }

    /// Parses a serialized tuple against the given columns. The result is
    /// exactly what the tuple parse defines: the empty byte string is the
    /// all-NULL tuple, anything else must start with the null bitmap and
    /// carry one well-formed field per non-null column.
    pub fn deserialize(data: &[u8], columns: &[crate::table::column::Column]) -> (r: HeapResult<
        Tuple,
    >)
        ensures
            (r is Ok) == (spec_parse_tuple(data@, cols_types(columns@)) is Some),
            r matches Ok(t) ==> Some(values_view(t@)) == spec_parse_tuple(
                data@,
                cols_types(columns@),
            ),
    {
        let ghost cts = cols_types(columns@);
        let n = columns.len();
        if data.len() == 0 {
            let mut values: Vec<Value> = Vec::new();
            let mut i: usize = 0;
            while i < n
                invariant
                    0 <= i <= n,
                    values_view(values@) =~= Seq::new(i as nat, |k: int| ValueModel::Null),
                decreases n - i,
            {
                let ghost before = values@;
                values.push(Value::Null);
                proof {
                    lemma_values_view_push(before, Value::Null);
                    assert(values_view(values@) =~= Seq::new(
                        (i + 1) as nat,
                        |k: int| ValueModel::Null,
                    ));
                }
                i = i + 1;
            }
            proof {
                assert(values_view(values@) =~= Seq::new(cts.len(), |k: int| ValueModel::Null));
            }
            return Ok(Tuple { values });
        }
        let bm_len = n / 8 + (if n % 8 != 0 { 1 } else { 0 });
        proof {
            assert(bm_len == bitmap_len(cts.len()));
        }
        if data.len() < bm_len {
            return Err(HeapError::SerializationError("missing null bitmap".to_owned()));
        }
        let mut values: Vec<Value> = Vec::new();
        let mut off: usize = bm_len;
        let mut i: usize = 0;
        proof {
            assert(values_view(values@) =~= Seq::<ValueModel>::empty());
        }
        while i < n
            invariant
                0 <= i <= n,
                n == columns@.len(),
                cts == cols_types(columns@),
                n == cts.len(),
                bm_len == bitmap_len(cts.len()),
                bm_len <= off <= data@.len(),
                data@.len() >= bm_len,
                spec_parse_fields(data@, cts, 0, bm_len as int) == opt_prepend(
                    values_view(values@),
                    spec_parse_fields(data@, cts, i as int, off as int),
                ),
            decreases n - i,
        {
            let bit = (data[i / 8] >> ((i % 8) as u8)) & 1;
            if bit == 1 {
                proof {
                    assert(spec_data_null(data@, i as int));
                }
                let ghost acc = values_view(values@);
                let ghost before = values@;
                values.push(Value::Null);
                proof {
                    lemma_values_view_push(before, Value::Null);
                    assert(values_view(values@) =~= acc.push(ValueModel::Null));
                    lemma_opt_prepend_step(
                        data@,
                        cts,
                        acc,
                        ValueModel::Null,
                        i as int,
                        off as int,
                        off as int,
                        bm_len as int,
                    );
                }
                i = i + 1;
            } else {
                proof {
                    assert(!spec_data_null(data@, i as int));
                }
                let ct = columns[i].column_type();
                proof {
                    assert(cts[i as int] == ct);
                }
                let sz64 = col_size_u64(&ct);
                if sz64 > (data.len() - off) as u64 {
                    proof {
                        assert(spec_parse_fields(data@, cts, i as int, off as int) is None);
                    }
                    return Err(HeapError::SerializationError("truncated field".to_owned()));
                }
                let sz = sz64 as usize;
                let field = vstd::slice::slice_subrange(data, off, off + sz);
                match deserialize_field(field, &ct) {
                    Some(v) => {
                        let ghost vm = v@;
                        let ghost gv = v;
                        let ghost acc = values_view(values@);
                        let ghost before = values@;
                        values.push(v);
                        proof {
                            lemma_values_view_push(before, gv);
                            assert(values_view(values@) =~= acc.push(vm));
                            lemma_opt_prepend_step(
                                data@,
                                cts,
                                acc,
                                vm,
                                i as int,
                                off as int,
                                off + sz,
                                bm_len as int,
                            );
                        }
                        off = off + sz;
                        i = i + 1;
                    },
                    None => {
                        proof {
                            assert(spec_parse_fields(data@, cts, i as int, off as int) is None);
                        }
                        return Err(
                            HeapError::SerializationError("malformed field".to_owned()),
                        );
                    },
                }
            }
        }
        proof {
            assert(spec_parse_fields(data@, cts, n as int, off as int) == Some(
                Seq::<ValueModel>::empty(),
            ));
            assert(values_view(values@) + Seq::<ValueModel>::empty() =~= values_view(values@));
        }
        Ok(Tuple { values })
    }
}

/// Serializes the tuple against the given columns: the null bitmap, then
/// one fixed-width field per non-null value. Succeeds exactly when the
/// value count matches the column count, every value fits its column,
/// and the layout fits the machine's address space.
pub fn serialize_values(values: &[Value], columns: &[crate::table::column::Column]) -> (r: HeapResult<Vec<u8>>)
    ensures
        r is Ok <==> (tuple_fits(values_view(values@), cols_types(columns@))
            && fields_fit_machine(values_view(values@), cols_types(columns@))),
        r matches Ok(b) ==> b@ == spec_tuple_bytes(values_view(values@), cols_types(columns@)),
        r is Err ==> r matches Err(HeapError::SerializationError(_)),
{
    let ghost vv = values_view(values@);
    let ghost cts = cols_types(columns@);
    let n = columns.len();
    if values.len() != n {
        return Err(HeapError::SerializationError("value count mismatch".to_owned()));
    }
    if n > usize::MAX - 7 {
        return Err(HeapError::SerializationError("too many columns".to_owned()));
    }
    let bm_len = n / 8 + (if n % 8 != 0 { 1 } else { 0 });
    proof {
        assert(bm_len == bitmap_len(vv.len()));
    }
    let mut out: Vec<u8> = Vec::new();
    let mut j: usize = 0;
    while j < bm_len
        invariant
            0 <= j <= bm_len,
            n == values@.len(),
            n <= usize::MAX - 7,
            bm_len == bitmap_len(vv.len()),
            vv == values_view(values@),
            out@ =~= spec_bitmap(vv).take(j as int),
        decreases bm_len - j,
    {
        proof {
            assert(8 * (j as int) + 7 <= 8 * (bm_len - 1) + 7);
            assert(8 * ((n + 7) / 8 - 1) + 7 <= n + 7) by (nonlinear_arith);
        }
        let base = 8 * j;
        let byte: u8 = null_bit_of_slice(values, base) | (null_bit_of_slice(values, base + 1)
            << 1u8) | (null_bit_of_slice(values, base + 2) << 2u8) | (null_bit_of_slice(values, base + 3) << 3u8) | (null_bit_of_slice(values, base + 4) << 4u8) | (null_bit_of_slice(values, base + 5) << 5u8) | (null_bit_of_slice(values, base + 6) << 6u8) | (null_bit_of_slice(values, base + 7) << 7u8);
        proof {
            assert(byte == spec_bitmap_byte(vv, j as int));
        }
        out.push(byte);
        proof {
            assert(out@ =~= spec_bitmap(vv).take(j + 1));
        }
        j = j + 1;
    }
    proof {
        assert(out@ =~= spec_bitmap(vv));
    }
    let mut i: usize = 0;
    while i < n
        invariant
            0 <= i <= n,
            n == values@.len(),
            vv == values_view(values@),
            cts == cols_types(columns@),
            n == cts.len(),
            columns@.len() == n,
            out@ + spec_fields_bytes(vv, cts, i as int) == spec_tuple_bytes(vv, cts),
            forall|k: int|
                0 <= k < i ==> value_fits(#[trigger] vv[k], cts[k]) && (!(vv[k] is Null)
                    ==> cts[k].spec_size() <= usize::MAX),
        decreases n - i,
    {
        let v = &values[i];
        proof {
            assert(vv[i as int] == values@[i as int]@);
        }
        match v {
            Value::Null => {
                proof {
                    assert(spec_fields_bytes(vv, cts, i as int) == spec_fields_bytes(
                        vv,
                        cts,
                        i + 1,
                    ));
                }
            },
            _ => {
                let ct = columns[i].column_type();
                proof {
                    assert(cts[i as int] == ct);
                }
                match serialize_field(v, &ct) {
                    Some(mut f) => {
                        proof {
                            assert(spec_fields_bytes(vv, cts, i as int) == spec_field_bytes(
                                vv[i as int],
                                cts[i as int],
                            ) + spec_fields_bytes(vv, cts, i + 1));
                            assert((out@ + f@) + spec_fields_bytes(vv, cts, i + 1) =~= out@
                                + spec_fields_bytes(vv, cts, i as int));
                        }
                        out.append(&mut f);
                    },
                    None => {
                        return Err(
                            HeapError::SerializationError(
                                "value does not fit its column".to_owned(),
                            ),
                        );
                    },
                }
            },
        }
        i = i + 1;
    }
    proof {
        assert(spec_fields_bytes(vv, cts, n as int) =~= Seq::<u8>::empty());
        assert(out@ =~= spec_tuple_bytes(vv, cts));
    }
    Ok(out)
}


/// 1 when position `i` of the slice exists and holds NULL, else 0.
fn null_bit_of_slice(values: &[Value], i: usize) -> (r: u8)
    ensures
        r == spec_null_bit(values_view(values@), i as int),
{
    if i < values.len() {
        match &values[i] {
            Value::Null => 1,
            _ => 0,
        }
    } else {
        0
    }
}

/// One parse step folded into the accumulated prefix: if position `i`
/// parses to `vm` and the rest follows at `off2`, the suffix parse at `i`
/// is `vm` followed by the suffix parse at `i + 1`.
proof fn lemma_opt_prepend_step(
    data: Seq<u8>,
    cts: Seq<ColumnType>,
    acc: Seq<ValueModel>,
    vm: ValueModel,
    i: int,
    off: int,
    off2: int,
    bm: int,
)
    requires
        0 <= i < cts.len(),
        spec_parse_fields(data, cts, 0, bm) == opt_prepend(
            acc,
            spec_parse_fields(data, cts, i, off),
        ),
        spec_data_null(data, i) ==> vm == ValueModel::Null && off2 == off,
        !spec_data_null(data, i) ==> {
            &&& off + cts[i].spec_size() == off2 <= data.len()
            &&& 0 <= off
            &&& spec_parse_field(data.subrange(off, off2), cts[i]) == Some(vm)
        },
    ensures
        spec_parse_fields(data, cts, 0, bm) == opt_prepend(
            acc.push(vm),
            spec_parse_fields(data, cts, i + 1, off2),
        ),
{
    match spec_parse_fields(data, cts, i + 1, off2) {
        Some(rest) => {
            assert(spec_parse_fields(data, cts, i, off) == Some(seq![vm] + rest));
            assert(acc + (seq![vm] + rest) =~= acc.push(vm) + rest);
        },
        None => {
            assert(spec_parse_fields(data, cts, i, off) is None);
        },
    }
}

/// 1 when position `i` exists and holds NULL, else 0.
fn null_bit_of(values: &Vec<Value>, i: usize) -> (r: u8)
    ensures
        r == spec_null_bit(values_view(values@), i as int),
{
    if i < values.len() {
        match &values[i] {
            Value::Null => 1,
            _ => 0,
        }
    } else {
        0
    }
}

/// The raw (unsigned) slot offset word of slot `i` in a page image.
pub open spec fn slot_raw(data: Seq<u8>, i: int) -> u32 {
    spec_u32_from_le_bytes(data.subrange(8 * i, 8 * i + 4))
}

/// The length word of slot `i` in a page image.
pub open spec fn slot_len(data: Seq<u8>, i: int) -> u32 {
    spec_u32_from_le_bytes(data.subrange(8 * i + 4, 8 * i + 8))
}

/// The byte position a slot's offset word points at: the word stores
/// `position - PAGE_SIZE` as a signed 32-bit value, so that an all-zero
/// page reads as empty.
pub open spec fn slot_actual(raw: u32) -> int {
    (raw as i32) + PAGE_SIZE
}

/// The first scan stop at or after slot `i`: the first slot whose length
/// word is zero or whose recorded bytes leave the page, or the slot-array
/// end.
pub open spec fn spec_scan_stop(data: Seq<u8>, i: int) -> int
    decreases 1024 - i,
{
    if i < 0 || i >= 1024 {
        1024
    } else if slot_len(data, i) == 0 || slot_actual(slot_raw(data, i)) < 8 * i + 8
        || slot_actual(slot_raw(data, i)) + slot_len(data, i) > PAGE_SIZE {
        i
    } else {
        spec_scan_stop(data, i + 1)
    }
}

/// The least tuple offset among the first `n` slots, and the page size for
/// none.
pub open spec fn spec_min_offset(data: Seq<u8>, n: int) -> int
    decreases n,
{
    if n <= 0 {
        PAGE_SIZE as int
    } else {
        let rest = spec_min_offset(data, n - 1);
        let a = slot_actual(slot_raw(data, n - 1));
        if a < rest {
            a
        } else {
            rest
        }
    }
}

/// Whether slot `i` is a tombstone: both words zero.
pub open spec fn slot_is_tombstone(data: Seq<u8>, i: int) -> bool {
    slot_raw(data, i) == 0 && slot_len(data, i) == 0
}

/// A heap page: an 8 KiB image in slotted layout. The slot array grows from
/// byte 0 upward, eight bytes per slot (offset word, then length word);
/// tuple bytes grow from the high end downward, `upper` marking the lowest
/// used byte.
#[derive(Debug, Clone)]
pub struct HeapPage {
    page_id: PageId,
    data: Vec<u8>,
    slot_count: usize,
    upper: usize,
}

impl HeapPage {
    /// The page identifier.
    pub closed spec fn spec_page_id(self) -> PageId {
        self.page_id
    }

    /// The raw page image.
    pub closed spec fn spec_data(self) -> Seq<u8> {
        self.data@
    }

    /// The number of slots.
    pub closed spec fn spec_slot_count(self) -> nat {
        self.slot_count as nat
    }

    /// The lowest byte used by tuple data.
    pub closed spec fn spec_upper(self) -> nat {
        self.upper as nat
    }

    /// Page invariant: the image is exactly one page, the slot array ends
    /// below `upper`, and every non-tombstone slot points into the tuple
    /// area.
    pub open spec fn wf(self) -> bool {
        &&& self.spec_data().len() == PAGE_SIZE
        &&& 8 * self.spec_slot_count() <= self.spec_upper() <= PAGE_SIZE
        &&& forall|i: int|
            0 <= i < self.spec_slot_count() ==> (slot_is_tombstone(self.spec_data(), i) || (
            self.spec_upper() <= slot_actual(#[trigger] slot_raw(self.spec_data(), i))
                && slot_actual(slot_raw(self.spec_data(), i)) + slot_len(self.spec_data(), i)
                <= PAGE_SIZE))
    }

    /// The stored tuples, one entry per slot: `None` for a tombstone, else
    /// the tuple's bytes.
    pub open spec fn spec_tuples(self) -> Seq<Option<Seq<u8>>> {
        Seq::new(
            self.spec_slot_count(),
            |i: int|
                if slot_is_tombstone(self.spec_data(), i) {
                    None
                } else {
                    Some(
                        self.spec_data().subrange(
                            slot_actual(slot_raw(self.spec_data(), i)),
                            slot_actual(slot_raw(self.spec_data(), i)) + slot_len(
                                self.spec_data(),
                                i,
                            ),
                        ),
                    )
                },
        )
    }

    /// Creates a fresh zeroed page.
    pub fn new(page_id: PageId) -> (r: Self)
        ensures
            r.wf(),
            r.spec_page_id() == page_id,
            r.spec_slot_count() == 0,
            r.spec_upper() == PAGE_SIZE,
            r.spec_data() == Seq::new(PAGE_SIZE as nat, |i: int| 0u8),
    {
        let data: Vec<u8> = vec![0u8; PAGE_SIZE];
        proof {
            assert(data@ =~= Seq::new(PAGE_SIZE as nat, |i: int| 0u8));
        }
        Self { page_id, data, slot_count: 0, upper: PAGE_SIZE }
    }

    /// The page identifier.
    pub fn page_id(&self) -> (r: PageId)
        ensures
            r == self.spec_page_id(),
    {
        self.page_id
    }

    /// The number of slots, tombstones included.
    pub fn slot_count(&self) -> (r: usize)
        ensures
            r == self.spec_slot_count(),
    {
        self.slot_count
    }

    /// Free bytes between the end of the slot array and the tuple area.
    pub fn available_space(&self) -> (r: usize)
        requires
            self.wf(),
        ensures
            r == self.spec_upper() - 8 * self.spec_slot_count(),
    {
        self.upper - self.slot_count * 8
    }

    /// Whether a tuple of `tuple_size` bytes fits, together with its slot.
    pub fn can_insert(&self, tuple_size: usize) -> (r: bool)
        requires
            self.wf(),
        ensures
            r == (tuple_size + 8 <= self.spec_upper() - 8 * self.spec_slot_count()),
    {
        let avail = self.available_space();
        avail >= 8 && tuple_size <= avail - 8
    }

    /// Appends a tuple: copies its bytes below the tuple area and writes the
    /// next slot. Returns the new slot's index; fails with `OutOfSpace`
    /// exactly when the tuple and its slot do not fit. An empty tuple
    /// stored at the very top of a fresh page gets the all-zero slot and is
    /// therefore indistinguishable from a tombstone.
    pub fn insert_tuple(&mut self, tuple_data: &[u8]) -> (r: HeapResult<usize>)
        requires
            old(self).wf(),
        ensures
            final(self).wf(),
            final(self).spec_page_id() == old(self).spec_page_id(),
            r is Ok <==> tuple_data@.len() + 8 <= old(self).spec_upper() - 8 * old(
                self,
            ).spec_slot_count(),
            r matches Ok(idx) ==> {
                &&& idx == old(self).spec_slot_count()
                &&& final(self).spec_slot_count() == old(self).spec_slot_count() + 1
                &&& final(self).spec_upper() == old(self).spec_upper() - tuple_data@.len()
                &&& final(self).spec_data().subrange(
                    final(self).spec_upper() as int,
                    old(self).spec_upper() as int,
                ) == tuple_data@
                &&& slot_actual(slot_raw(final(self).spec_data(), idx as int)) == final(self).spec_upper()
                &&& slot_len(final(self).spec_data(), idx as int) == tuple_data@.len()
                &&& final(self).spec_tuples() == old(self).spec_tuples().push(
                    if tuple_data@.len() == 0 && old(self).spec_upper() == PAGE_SIZE {
                        None
                    } else {
                        Some(tuple_data@)
                    },
                )
            },
            r is Err ==> *final(self) == *old(self) && r matches Err(HeapError::OutOfSpace),
    {
        if !self.can_insert(tuple_data.len()) {
            return Err(HeapError::OutOfSpace);
        }
        let ghost old_data = self.data@;
        let ghost old_sc = self.slot_count as int;
        let ghost old_upper = self.upper as int;
        let len = tuple_data.len();
        let slot_idx = self.slot_count;
        let new_upper = self.upper - len;
        crate::codec::write_bytes_at(&mut self.data, new_upper, tuple_data);
        let offset: i32 = new_upper as i32 - PAGE_SIZE as i32;
        let raw: u32 = offset as u32;
        let slot_off = slot_idx * 8;
        crate::codec::write_u32_at(&mut self.data, slot_off, raw);
        let ghost mid_data = self.data@;
        crate::codec::write_u32_at(&mut self.data, slot_off + 4, len as u32);
        self.upper = new_upper;
        self.slot_count = slot_idx + 1;
        proof {
            lemma_auto_spec_u32_to_from_le_bytes();
            assert(spec_u32_to_le_bytes(raw).len() == 4);
            assert(spec_u32_to_le_bytes(len as u32).len() == 4);
            let d = self.data@;
            // The new slot words read back as written.
            assert(d.subrange(8 * old_sc, 8 * old_sc + 4) =~= mid_data.subrange(
                8 * old_sc,
                8 * old_sc + 4,
            ));
            assert(slot_raw(d, old_sc) == raw);
            assert(d.subrange(8 * old_sc + 4, 8 * old_sc + 8) =~= spec_u32_to_le_bytes(
                len as u32,
            ));
            assert(slot_len(d, old_sc) == len as u32);
            assert(len as u32 == len) by (bit_vector)
                requires
                    len <= 8192,
            ;
            assert(d.subrange(new_upper as int, new_upper + len) =~= tuple_data@);
            assert(raw as i32 == offset) by (bit_vector)
                requires
                    raw == offset as u32,
            ;
            assert(slot_actual(raw) == new_upper as int);
            // Older slots and the old tuple area kept their bytes.
            assert forall|i: int| 0 <= i < old_sc implies slot_raw(d, i) == slot_raw(old_data, i)
                && slot_len(d, i) == slot_len(old_data, i) by {
                assert(8 * i + 8 <= 8 * old_sc);
                assert(d.subrange(8 * i, 8 * i + 4) =~= old_data.subrange(8 * i, 8 * i + 4));
                assert(d.subrange(8 * i + 4, 8 * i + 8) =~= old_data.subrange(
                    8 * i + 4,
                    8 * i + 8,
                ));
            }
            assert forall|k: int| old_upper <= k < PAGE_SIZE implies d[k] == old_data[k] by {}
            assert(final(self).wf());
            // The tuple table gained exactly the new entry.
            let entry: Option<Seq<u8>> = if tuple_data@.len() == 0 && old_upper == PAGE_SIZE {
                None
            } else {
                Some(tuple_data@)
            };
            assert forall|i: int| 0 <= i < old_sc implies final(self).spec_tuples()[i] == old(
                self,
            ).spec_tuples()[i] by {
                if !slot_is_tombstone(old_data, i) {
                    let a = slot_actual(slot_raw(old_data, i));
                    let l = slot_len(old_data, i) as int;
                    assert(old_upper <= a);
                    assert(d.subrange(a, a + l) =~= old_data.subrange(a, a + l));
                }
            }
            if entry is Some {
                assert(!slot_is_tombstone(d, old_sc)) by {
                    if len == 0 {
                        assert(new_upper < PAGE_SIZE);
                        assert(raw != 0) by (bit_vector)
                            requires
                                raw == offset as u32,
                                offset < 0,
                        ;
                    }
                }
                assert(d.subrange(new_upper as int, new_upper + len) =~= tuple_data@);
            } else {
                assert(raw == 0) by (bit_vector)
                    requires
                        raw == offset as u32,
                        offset == 0,
                ;
            }
            assert(final(self).spec_tuples() =~= old(self).spec_tuples().push(entry));
        }
        Ok(slot_idx)
    }

    /// Reads the bytes of the tuple in a slot. `InvalidSlot` past the slot
    /// array, `TupleNotFound` on a tombstone.
    pub fn get_tuple(&self, slot_idx: usize) -> (r: HeapResult<Vec<u8>>)
        requires
            self.wf(),
        ensures
            slot_idx >= self.spec_slot_count() ==> (r matches Err(HeapError::InvalidSlot(i))
                && i == slot_idx),
            slot_idx < self.spec_slot_count() ==> match self.spec_tuples()[slot_idx as int] {
                Some(bytes) => r matches Ok(b) && b@ == bytes,
                None => r matches Err(HeapError::TupleNotFound(rid)) && rid == (RowId {
                    page_id: self.spec_page_id(),
                    slot_idx: slot_idx,
                }),
            },
    {
        if slot_idx >= self.slot_count {
            return Err(HeapError::InvalidSlot(slot_idx));
        }
        let slot_off = slot_idx * 8;
        let raw = crate::codec::read_u32_at(self.data.as_slice(), slot_off);
        let len = crate::codec::read_u32_at(self.data.as_slice(), slot_off + 4);
        proof {
            assert(self.data@.subrange(8 * slot_idx, 8 * slot_idx + 4) == self.data@.subrange(
                slot_off as int,
                slot_off + 4,
            ));
            assert(raw == slot_raw(self.data@, slot_idx as int));
            assert(len == slot_len(self.data@, slot_idx as int));
        }
        if raw == 0 && len == 0 {
            return Err(HeapError::TupleNotFound(RowId::new(self.page_id, slot_idx)));
        }
        proof {
            assert(!slot_is_tombstone(self.data@, slot_idx as int));
            assert(self.spec_upper() <= slot_actual(raw));
            assert(slot_actual(raw) + len <= PAGE_SIZE);
        }
        let off_signed: i32 = raw as i32;
        let pos64: i64 = off_signed as i64 + PAGE_SIZE as i64;
        proof {
            assert(pos64 == slot_actual(raw));
            assert(0 <= pos64 <= PAGE_SIZE);
        }
        let actual: usize = pos64 as usize;
        let out = vstd::slice::slice_to_vec(
            vstd::slice::slice_subrange(self.data.as_slice(), actual, actual + len as usize),
        );
        Ok(out)
    }

    /// Tombstones a slot by zeroing its words; the tuple bytes stay behind.
    pub fn delete_tuple(&mut self, slot_idx: usize) -> (r: HeapResult<()>)
        requires
            old(self).wf(),
        ensures
            final(self).wf(),
            final(self).spec_page_id() == old(self).spec_page_id(),
            final(self).spec_slot_count() == old(self).spec_slot_count(),
            final(self).spec_upper() == old(self).spec_upper(),
            slot_idx >= old(self).spec_slot_count() ==> (r matches Err(HeapError::InvalidSlot(i))
                && i == slot_idx && *final(self) == *old(self)),
            slot_idx < old(self).spec_slot_count() ==> r is Ok && final(self).spec_tuples()
                == old(self).spec_tuples().update(slot_idx as int, None::<Seq<u8>>),
    {
        if slot_idx >= self.slot_count {
            return Err(HeapError::InvalidSlot(slot_idx));
        }
        let ghost old_data = self.data@;
        let slot_off = slot_idx * 8;
        crate::codec::write_u32_at(&mut self.data, slot_off, 0);
        crate::codec::write_u32_at(&mut self.data, slot_off + 4, 0);
        proof {
            lemma_auto_spec_u32_to_from_le_bytes();
            assert(spec_u32_to_le_bytes(0u32).len() == 4);
            let d = self.data@;
            let si = slot_idx as int;
            assert(d.subrange(8 * si, 8 * si + 4) =~= spec_u32_to_le_bytes(0));
            assert(d.subrange(8 * si + 4, 8 * si + 8) =~= spec_u32_to_le_bytes(0));
            assert(slot_is_tombstone(d, si));
            assert forall|i: int|
                0 <= i < self.spec_slot_count() && i != si implies slot_raw(d, i) == slot_raw(
                old_data,
                i,
            ) && slot_len(d, i) == slot_len(old_data, i) by {
                assert(d.subrange(8 * i, 8 * i + 4) =~= old_data.subrange(8 * i, 8 * i + 4));
                assert(d.subrange(8 * i + 4, 8 * i + 8) =~= old_data.subrange(
                    8 * i + 4,
                    8 * i + 8,
                ));
            }
            assert(final(self).wf());
            assert forall|i: int|
                0 <= i < self.spec_slot_count() && i != si implies final(self).spec_tuples()[i]
                == old(self).spec_tuples()[i] by {
                if !slot_is_tombstone(old_data, i) {
                    let a = slot_actual(slot_raw(old_data, i));
                    let l = slot_len(old_data, i) as int;
                    assert(d.subrange(a, a + l) =~= old_data.subrange(a, a + l));
                }
            }
            assert(final(self).spec_tuples() =~= old(self).spec_tuples().update(
                si,
                None::<Seq<u8>>,
            ));
        }
        Ok(())
    }

    /// The live tuples in slot order: each entry is a slot index and the
    /// tuple bytes stored there.
    pub fn iter_tuples(&self) -> (r: Vec<(usize, Vec<u8>)>)
        requires
            self.wf(),
        ensures
            forall|k: int|
                0 <= k < r@.len() ==> (#[trigger] r@[k]).0 < self.spec_slot_count()
                    && self.spec_tuples()[r@[k].0 as int] == Some(r@[k].1@),
            forall|k1: int, k2: int| 0 <= k1 < k2 < r@.len() ==> r@[k1].0 < r@[k2].0,
            forall|i: int|
                0 <= i < self.spec_slot_count() && (#[trigger] self.spec_tuples()[i]) is Some
                    ==> exists|k: int| 0 <= k < r@.len() && (#[trigger] r@[k].0) == i,
    {
        let mut r: Vec<(usize, Vec<u8>)> = Vec::new();
        let mut idx: usize = 0;
        while idx < self.slot_count
            invariant
                self.wf(),
                0 <= idx <= self.spec_slot_count(),
                forall|k: int|
                    0 <= k < r@.len() ==> (#[trigger] r@[k]).0 < idx
                        && self.spec_tuples()[r@[k].0 as int] == Some(r@[k].1@),
                forall|k1: int, k2: int| 0 <= k1 < k2 < r@.len() ==> r@[k1].0 < r@[k2].0,
                forall|i: int|
                    0 <= i < idx && (#[trigger] self.spec_tuples()[i]) is Some ==> exists|k: int|
                        0 <= k < r@.len() && (#[trigger] r@[k].0) == i,
            decreases self.spec_slot_count() - idx,
        {
            let ghost prev = r@;
            match self.get_tuple(idx) {
                Ok(bytes) => {
                    r.push((idx, bytes));
                    proof {
                        assert forall|i: int|
                            0 <= i < idx + 1 && (#[trigger] self.spec_tuples()[i]) is Some
                                implies exists|k: int|
                                0 <= k < r@.len() && (#[trigger] r@[k].0) == i by {
                            if i == idx as int {
                                assert((r@[r@.len() - 1]).0 == i);
                            } else {
                                let k = choose|k: int|
                                    0 <= k < prev.len() && (#[trigger] prev[k].0) == i;
                                assert(r@[k] == prev[k]);
                                assert((r@[k]).0 == i);
                            }
                        }
                    }
                },
                Err(_) => {},
            }
            idx = idx + 1;
        }
        r
    }

    /// The raw page image.
    pub fn as_bytes(&self) -> (r: &[u8])
        ensures
            r@ == self.spec_data(),
    {
        self.data.as_slice()
    }
}

/// Mathematical model of one heap page: its identity, the lowest used data
/// byte, and the stored tuples.
#[verifier::ext_equal]
pub struct PageModel {
    /// Page identifier.
    pub page_id: PageId,
    /// Lowest byte used by tuple data.
    pub upper: nat,
    /// One entry per slot: `None` for a tombstone.
    pub tuples: Seq<Option<Seq<u8>>>,
}

impl HeapPage {
    /// The model of this page.
    pub open spec fn model(self) -> PageModel {
        PageModel {
            page_id: self.spec_page_id(),
            upper: self.spec_upper(),
            tuples: self.spec_tuples(),
        }
    }
}

/// The models of a sequence of pages.
pub open spec fn page_models(pages: Seq<HeapPage>) -> Seq<PageModel> {
    pages.map_values(|p: HeapPage| p.model())
}

/// A fresh empty page model.
pub open spec fn fresh_page_model(page_id: PageId) -> PageModel {
    PageModel { page_id: page_id, upper: PAGE_SIZE as nat, tuples: Seq::empty() }
}

/// Whether a page has room for a tuple of `sz` bytes plus its slot.
pub open spec fn pm_room(p: PageModel, sz: nat) -> bool {
    sz + 8 <= p.upper - 8 * p.tuples.len()
}

/// The first page from position `i` on with room for `sz` bytes.
pub open spec fn first_room(ps: Seq<PageModel>, sz: nat, i: int) -> Option<int>
    decreases ps.len() - i,
{
    if i < 0 || i >= ps.len() {
        None
    } else if pm_room(ps[i], sz) {
        Some(i)
    } else {
        first_room(ps, sz, i + 1)
    }
}

/// The first page from position `i` on with the given identifier.
pub open spec fn find_page(ps: Seq<PageModel>, id: PageId, i: int) -> Option<int>
    decreases ps.len() - i,
{
    if i < 0 || i >= ps.len() {
        None
    } else if ps[i].page_id == id {
        Some(i)
    } else {
        find_page(ps, id, i + 1)
    }
}

/// Behind a failed page search no model carries the identifier.
pub proof fn lemma_find_page_none(ps: Seq<PageModel>, id: PageId, i: int, k: int)
    requires
        find_page(ps, id, i) is None,
        0 <= i <= k < ps.len(),
    ensures
        ps[k].page_id != id,
    decreases k - i,
{
    if i < k {
        lemma_find_page_none(ps, id, i + 1, k);
    }
}

/// A page model after appending a tuple of the given bytes. An empty tuple
/// at the very top of an untouched page gets the all-zero slot and is
/// recorded as a tombstone.
pub open spec fn pm_after_insert(p: PageModel, bytes: Seq<u8>) -> PageModel {
    PageModel {
        page_id: p.page_id,
        upper: (p.upper - bytes.len()) as nat,
        tuples: p.tuples.push(
            if bytes.len() == 0 && p.upper == PAGE_SIZE {
                None
            } else {
                Some(bytes)
            },
        ),
    }
}

/// The heap table's insert transition. `fits` says whether the values
/// serialize against the schema; `bytes` is the serialized tuple. The
/// insert goes to the first page with room; with no such page and no page
/// under `first` yet, a fresh page is created there, and the insert still
/// fails when even a fresh page cannot hold the tuple.
pub open spec fn insert_transition(
    pre: Seq<PageModel>,
    first: PageId,
    fits: bool,
    bytes: Seq<u8>,
    post: Seq<PageModel>,
    r: HeapResult<RowId>,
) -> bool {
    if !fits {
        &&& r matches Err(HeapError::SerializationError(_))
        &&& post == pre
    } else {
        match first_room(pre, bytes.len(), 0) {
            Some(p) => {
                &&& post == pre.update(p, pm_after_insert(pre[p], bytes))
                &&& r matches Ok(rid) && rid == (RowId {
                    page_id: pre[p].page_id,
                    slot_idx: pre[p].tuples.len() as usize,
                })
            },
            None => match find_page(pre, first, 0) {
                None => {
                    if bytes.len() + 8 <= PAGE_SIZE {
                        &&& post == pre.push(pm_after_insert(fresh_page_model(first), bytes))
                        &&& r matches Ok(rid) && rid == (RowId { page_id: first, slot_idx: 0 })
                    } else {
                        &&& post == pre.push(fresh_page_model(first))
                        &&& r matches Err(HeapError::Other(_))
                    }
                },
                Some(_) => {
                    &&& post == pre
                    &&& r matches Err(HeapError::Other(_))
                },
            },
        }
    }
}

/// The insert transition for given values and columns: fit and layout are
/// computed from them.
pub open spec fn insert_transition_for(
    pre: Seq<PageModel>,
    first: PageId,
    vv: Seq<ValueModel>,
    cols: Seq<ColumnType>,
    post: Seq<PageModel>,
    r: HeapResult<RowId>,
) -> bool {
    insert_transition(
        pre,
        first,
        tuple_fits(vv, cols) && fields_fit_machine(vv, cols),
        spec_tuple_bytes(vv, cols),
        post,
        r,
    )
}

/// The parsed tuples of one page's slots from position `i` on: tombstones
/// and tuples that fail to parse are skipped.
pub open spec fn spec_scan_page(
    ts: Seq<Option<Seq<u8>>>,
    cols: Seq<ColumnType>,
    i: int,
) -> Seq<Seq<ValueModel>>
    decreases ts.len() - i,
{
    if i < 0 || i >= ts.len() {
        Seq::empty()
    } else {
        let rest = spec_scan_page(ts, cols, i + 1);
        match ts[i] {
            Some(bytes) => match spec_parse_tuple(bytes, cols) {
                Some(vs) => seq![vs] + rest,
                None => rest,
            },
            None => rest,
        }
    }
}

/// The parsed tuples of all pages from position `p` on, page by page.
pub open spec fn spec_scan_pages(
    ps: Seq<PageModel>,
    cols: Seq<ColumnType>,
    p: int,
) -> Seq<Seq<ValueModel>>
    decreases ps.len() - p,
{
    if p < 0 || p >= ps.len() {
        Seq::empty()
    } else {
        spec_scan_page(ps[p].tuples, cols, 0) + spec_scan_pages(ps, cols, p + 1)
    }
}

/// The models of a sequence of tuples.
pub open spec fn tuples_views(ts: Seq<Tuple>) -> Seq<Seq<ValueModel>> {
    ts.map_values(|t: Tuple| values_view(t@))
}

/// A heap table: the table's schema and its in-memory pages.
pub struct HeapTable {
    table: Table,
    pages: Vec<HeapPage>,
    first_page_id: PageId,
}

impl HeapTable {
    /// The table whose rows this heap stores.
    pub closed spec fn spec_table(self) -> Table {
        self.table
    }

    /// The heap's pages in creation order.
    pub closed spec fn spec_pages(self) -> Seq<HeapPage> {
        self.pages@
    }

    /// The models of the heap's pages.
    pub open spec fn models(self) -> Seq<PageModel> {
        page_models(self.spec_pages())
    }

    /// The page identifier used when the heap allocates its first page.
    pub closed spec fn spec_first_page_id(self) -> PageId {
        self.first_page_id
    }

    /// The column types of the table's schema.
    pub open spec fn spec_cols(self) -> Seq<ColumnType> {
        cols_types(self.spec_table().columns@)
    }

    /// Heap invariant: every page is well formed and no two pages share an
    /// identifier.
    pub open spec fn wf(self) -> bool {
        &&& forall|p: int|
            0 <= p < self.spec_pages().len() ==> (#[trigger] self.spec_pages()[p]).wf()
        &&& forall|p: int, q: int|
            0 <= p < q < self.spec_pages().len() ==> (#[trigger] self.spec_pages()[
                p
            ]).spec_page_id() != (#[trigger] self.spec_pages()[q]).spec_page_id()
    }

    /// Creates an empty heap for a table.
    pub fn new(table: Table, first_page_id: PageId) -> (r: Self)
        ensures
            r.wf(),
            r.spec_table()@ == table@,
            r.models().len() == 0,
            r.spec_first_page_id() == first_page_id,
    {
        Self { table, pages: Vec::new(), first_page_id }
    }

    /// The table's metadata.
    pub fn table(&self) -> (r: &Table)
        ensures
            *r == self.spec_table(),
    {
        &self.table
    }

    /// The page identifier of the heap's first page.
    pub fn first_page_id(&self) -> (r: PageId)
        ensures
            r == self.spec_first_page_id(),
    {
        self.first_page_id
    }

    /// Inserts a row. The serialized tuple goes to the first page with
    /// room; when no page has room and the first page does not exist yet it
    /// is created. Returns the row's identifier.
    pub fn insert(&mut self, values: &[Value]) -> (r: HeapResult<RowId>)
        requires
            old(self).wf(),
        ensures
            final(self).wf(),
            final(self).spec_table() == old(self).spec_table(),
            final(self).spec_first_page_id() == old(self).spec_first_page_id(),
            insert_transition_for(
                old(self).models(),
                old(self).spec_first_page_id(),
                values_view(values@),
                old(self).spec_cols(),
                final(self).models(),
                r,
            ),
    {
        let tuple_data = match serialize_values(values, self.table.columns()) {
            Ok(b) => b,
            Err(e) => {
                return Err(e);
            },
        };
        let ghost bytes = tuple_data@;
        let ghost pre = self.models();
        let n = self.pages.len();
        let mut p: usize = 0;
        while p < n
            invariant
                0 <= p <= n,
                n == self.spec_pages().len(),
                self == old(self),
                old(self).wf(),
                pre == self.models(),
                bytes == tuple_data@,
                bytes == spec_tuple_bytes(values_view(values@), old(self).spec_cols()),
                tuple_fits(values_view(values@), old(self).spec_cols()),
                fields_fit_machine(values_view(values@), old(self).spec_cols()),
                first_room(pre, bytes.len(), 0) == first_room(pre, bytes.len(), p as int),
            decreases n - p,
        {
            proof {
                assert(pre[p as int] == self.spec_pages()[p as int].model());
            }
            if self.pages[p].can_insert(tuple_data.len()) {
                proof {
                    assert(pm_room(pre[p as int], bytes.len()));
                    assert(first_room(pre, bytes.len(), p as int) == Some(p as int));
                }
                let page_id = self.pages[p].page_id();
                let slot = match page_insert_at(&mut self.pages, p, tuple_data.as_slice()) {
                    Ok(s) => s,
                    Err(e) => {
                        return Err(e);
                    },
                };
                proof {
                    let post = self.models();
                    let target = pre.update(p as int, pm_after_insert(pre[p as int], bytes));
                    assert forall|i: int| 0 <= i < post.len() implies post[i] == target[i] by {
                        assert(post[i] == self.spec_pages()[i].model());
                        if i != p as int {
                            assert(self.spec_pages()[i] == old(self).spec_pages()[i]);
                        }
                    }
                    assert(post =~= target);
                }
                return Ok(RowId::new(page_id, slot));
            }
            proof {
                assert(!pm_room(pre[p as int], bytes.len()));
            }
            p = p + 1;
        }
        proof {
            assert(first_room(pre, bytes.len(), 0) is None);
        }
        // No page has room; create the first page if it does not exist.
        let mut q: usize = 0;
        while q < n
            invariant
                0 <= q <= n,
                n == self.spec_pages().len(),
                self == old(self),
                old(self).wf(),
                pre == self.models(),
                bytes == tuple_data@,
                bytes == spec_tuple_bytes(values_view(values@), old(self).spec_cols()),
                tuple_fits(values_view(values@), old(self).spec_cols()),
                fields_fit_machine(values_view(values@), old(self).spec_cols()),
                first_room(pre, bytes.len(), 0) is None,
                find_page(pre, self.spec_first_page_id(), 0) == find_page(
                    pre,
                    self.spec_first_page_id(),
                    q as int,
                ),
            decreases n - q,
        {
            proof {
                assert(pre[q as int] == self.spec_pages()[q as int].model());
            }
            if self.pages[q].page_id() == self.first_page_id {
                proof {
                    assert(find_page(pre, self.spec_first_page_id(), q as int) == Some(q as int));
                }
                return Err(HeapError::Other("Need to implement page allocation".to_owned()));
            }
            q = q + 1;
        }
        proof {
            assert(find_page(pre, self.spec_first_page_id(), 0) is None);
        }
        let mut page = HeapPage::new(self.first_page_id);
        proof {
            assert(page.model() =~= fresh_page_model(self.spec_first_page_id()));
        }
        if tuple_data.len() > PAGE_SIZE - 8 {
            let ghost pm = page.model();
            self.pages.push(page);
            proof {
                let post = self.models();
                let target = pre.push(fresh_page_model(old(self).spec_first_page_id()));
                assert forall|i: int| 0 <= i < post.len() implies post[i] == target[i] by {
                    assert(post[i] == self.spec_pages()[i].model());
                    if i < pre.len() {
                        assert(self.spec_pages()[i] == old(self).spec_pages()[i]);
                    } else {
                        assert(self.spec_pages()[i].model() == pm);
                    }
                }
                assert(post =~= target);
            assert forall|a: int, b: int|
                0 <= a < b < self.spec_pages().len() implies (#[trigger] self.spec_pages()[
            a]).spec_page_id() != (#[trigger] self.spec_pages()[b]).spec_page_id() by {
                if b < pre.len() {
                    assert(self.spec_pages()[a] == old(self).spec_pages()[a]);
                    assert(self.spec_pages()[b] == old(self).spec_pages()[b]);
                } else {
                    assert(self.spec_pages()[a] == old(self).spec_pages()[a]);
                    lemma_find_page_none(pre, old(self).spec_first_page_id(), 0, a);
                    assert(pre[a] == old(self).spec_pages()[a].model());
                    assert(self.spec_pages()[b].spec_page_id() == old(
                        self,
                    ).spec_first_page_id());
                }
            }
            }
            return Err(HeapError::Other("Need to implement page allocation".to_owned()));
        }
        let slot = match page.insert_tuple(tuple_data.as_slice()) {
            Ok(s) => s,
            Err(e) => {
                return Err(e);
            },
        };
        let page_id = page.page_id();
        let ghost pm = page.model();
        self.pages.push(page);
        proof {
            assert(pm =~= pm_after_insert(
                fresh_page_model(old(self).spec_first_page_id()),
                bytes,
            ));
            let post = self.models();
            let target = pre.push(
                pm_after_insert(fresh_page_model(old(self).spec_first_page_id()), bytes),
            );
            assert forall|i: int| 0 <= i < post.len() implies post[i] == target[i] by {
                assert(post[i] == self.spec_pages()[i].model());
                if i < pre.len() {
                    assert(self.spec_pages()[i] == old(self).spec_pages()[i]);
                } else {
                    assert(self.spec_pages()[i].model() == pm);
                }
            }
            assert(post =~= target);
        assert forall|a: int, b: int|
            0 <= a < b < self.spec_pages().len() implies (#[trigger] self.spec_pages()[
        a]).spec_page_id() != (#[trigger] self.spec_pages()[b]).spec_page_id() by {
            if b < pre.len() {
                assert(self.spec_pages()[a] == old(self).spec_pages()[a]);
                assert(self.spec_pages()[b] == old(self).spec_pages()[b]);
            } else {
                assert(self.spec_pages()[a] == old(self).spec_pages()[a]);
                lemma_find_page_none(pre, old(self).spec_first_page_id(), 0, a);
                assert(pre[a] == old(self).spec_pages()[a].model());
                assert(self.spec_pages()[b].spec_page_id() == old(
                    self,
                ).spec_first_page_id());
            }
        }
        }
        Ok(RowId::new(page_id, slot))
    }

    /// Reads and parses the row at `row_id`.
    pub fn get(&self, row_id: RowId) -> (r: HeapResult<Tuple>)
        requires
            self.wf(),
        ensures
            find_page(self.models(), row_id.page_id, 0) is None ==> (r matches Err(
                HeapError::PageNotFound(id),
            ) && id == row_id.page_id),
            find_page(self.models(), row_id.page_id, 0) matches Some(p) ==> {
                let tuples = self.models()[p].tuples;
                if row_id.slot_idx >= tuples.len() {
                    r matches Err(HeapError::InvalidSlot(i)) && i == row_id.slot_idx
                } else {
                    match tuples[row_id.slot_idx as int] {
                        Some(bytes) => match spec_parse_tuple(bytes, self.spec_cols()) {
                            Some(vs) => r matches Ok(t) && values_view(t@) == vs,
                            None => r is Err,
                        },
                        None => r matches Err(HeapError::TupleNotFound(_)),
                    }
                }
            },
    {
        let ghost ms = self.models();
        let n = self.pages.len();
        let mut p: usize = 0;
        while p < n
            invariant
                0 <= p <= n,
                n == self.spec_pages().len(),
                self.wf(),
                ms == self.models(),
                find_page(ms, row_id.page_id, 0) == find_page(ms, row_id.page_id, p as int),
            decreases n - p,
        {
            proof {
                assert(ms[p as int] == self.spec_pages()[p as int].model());
            }
            if self.pages[p].page_id() == row_id.page_id {
                proof {
                    assert(find_page(ms, row_id.page_id, p as int) == Some(p as int));
                }
                let data = match self.pages[p].get_tuple(row_id.slot_idx) {
                    Ok(d) => d,
                    Err(e) => {
                        return Err(e);
                    },
                };
                return Tuple::deserialize(data.as_slice(), self.table.columns());
            }
            p = p + 1;
        }
        proof {
            assert(find_page(ms, row_id.page_id, 0) is None);
        }
        Err(HeapError::PageNotFound(row_id.page_id))
    }

    /// Scans every page, returning all live tuples that parse against the
    /// schema, in page order and slot order.
    pub fn scan(&self) -> (r: HeapResult<Vec<Tuple>>)
        requires
            self.wf(),
        ensures
            r matches Ok(ts) && tuples_views(ts@) == spec_scan_pages(
                self.models(),
                self.spec_cols(),
                0,
            ),
    {
        let ghost ms = self.models();
        let ghost cols = self.spec_cols();
        let mut results: Vec<Tuple> = Vec::new();
        let n = self.pages.len();
        let mut p: usize = 0;
        proof {
            assert(tuples_views(results@) =~= Seq::<Seq<ValueModel>>::empty());
        }
        while p < n
            invariant
                0 <= p <= n,
                n == self.spec_pages().len(),
                self.wf(),
                ms == self.models(),
                cols == self.spec_cols(),
                tuples_views(results@) + spec_scan_pages(ms, cols, p as int) == spec_scan_pages(
                    ms,
                    cols,
                    0,
                ),
            decreases n - p,
        {
            let ghost ts = ms[p as int].tuples;
            let sc = self.pages[p].slot_count();
            let mut idx: usize = 0;
            while idx < sc
                invariant
                    0 <= idx <= sc,
                    0 <= p < n,
                    n == self.spec_pages().len(),
                    self.wf(),
                    ms == self.models(),
                    cols == self.spec_cols(),
                    ts == ms[p as int].tuples,
                    sc == ts.len(),
                    tuples_views(results@) + spec_scan_page(ts, cols, idx as int)
                        + spec_scan_pages(ms, cols, p + 1) == spec_scan_pages(ms, cols, 0),
                decreases sc - idx,
            {
                match self.pages[p].get_tuple(idx) {
                    Ok(data) => {
                        match Tuple::deserialize(data.as_slice(), self.table.columns()) {
                            Ok(tuple) => {
                                let ghost gt = tuple;
                                let ghost acc = tuples_views(results@);
                                results.push(tuple);
                                proof {
                                    assert(results@.drop_last() == results@.subrange(
                                        0,
                                        results@.len() - 1,
                                    ));
                                    assert(tuples_views(results@) =~= acc.push(
                                        values_view(gt@),
                                    ));
                                    assert(spec_scan_page(ts, cols, idx as int) == seq![
                                        values_view(gt@),
                                    ] + spec_scan_page(ts, cols, idx + 1));
                                    assert(acc.push(values_view(gt@)) + spec_scan_page(
                                        ts,
                                        cols,
                                        idx + 1,
                                    ) =~= acc + spec_scan_page(ts, cols, idx as int));
                                }
                            },
                            Err(_) => {
                                proof {
                                    assert(spec_scan_page(ts, cols, idx as int) == spec_scan_page(
                                        ts,
                                        cols,
                                        idx + 1,
                                    ));
                                }
                            },
                        }
                    },
                    Err(_) => {
                        proof {
                            assert(spec_scan_page(ts, cols, idx as int) == spec_scan_page(
                                ts,
                                cols,
                                idx + 1,
                            ));
                        }
                    },
                }
                idx = idx + 1;
            }
            proof {
                assert(spec_scan_page(ts, cols, sc as int) =~= Seq::<Seq<ValueModel>>::empty());
                assert(tuples_views(results@) + spec_scan_pages(ms, cols, p + 1)
                    == spec_scan_pages(ms, cols, 0));
            }
            p = p + 1;
        }
        proof {
            assert(spec_scan_pages(ms, cols, n as int) =~= Seq::<Seq<ValueModel>>::empty());
            assert(tuples_views(results@) + Seq::<Seq<ValueModel>>::empty() =~= tuples_views(
                results@,
            ));
        }
        Ok(results)
    }

    /// Tombstones the row at `row_id`, then appends the new values as a
    /// fresh row. The new row's identifier is not returned.
    pub fn update(&mut self, row_id: RowId, values: &[Value]) -> (r: HeapResult<()>)
        requires
            old(self).wf(),
        ensures
            final(self).wf(),
            final(self).spec_table() == old(self).spec_table(),
            find_page(old(self).models(), row_id.page_id, 0) is None ==> (r matches Err(
                HeapError::PageNotFound(_),
            ) && final(self).models() == old(self).models()),
            find_page(old(self).models(), row_id.page_id, 0) matches Some(p) ==> {
                let pre = old(self).models();
                if row_id.slot_idx >= pre[p].tuples.len() {
                    r matches Err(HeapError::InvalidSlot(_)) && final(self).models() == pre
                } else {
                    let mid = pre.update(
                        p,
                        (PageModel {
                            tuples: pre[p].tuples.update(row_id.slot_idx as int, None),
                            ..pre[p]
                        }),
                    );
                    exists|r2: HeapResult<RowId>|
                        {
                            &&& #[trigger] insert_transition_for(
                                mid,
                                old(self).spec_first_page_id(),
                                values_view(values@),
                                old(self).spec_cols(),
                                final(self).models(),
                                r2,
                            )
                            &&& (r is Ok <==> r2 is Ok)
                        }
                }
            },
    {
        let ghost pre = self.models();
        let n = self.pages.len();
        let mut p: usize = 0;
        let mut found: bool = false;
        let mut fidx: usize = 0;
        while p < n
            invariant
                0 <= p <= n,
                n == self.spec_pages().len(),
                self == old(self),
                old(self).wf(),
                pre == self.models(),
                !found ==> find_page(pre, row_id.page_id, 0) == find_page(
                    pre,
                    row_id.page_id,
                    p as int,
                ),
                found ==> p == n && fidx < n && find_page(pre, row_id.page_id, 0) == Some(
                    fidx as int,
                ),
            decreases n + 1 - p - (if found { 1int } else { 0int }),
        {
            proof {
                assert(pre[p as int] == self.spec_pages()[p as int].model());
            }
            if self.pages[p].page_id() == row_id.page_id {
                proof {
                    assert(find_page(pre, row_id.page_id, p as int) == Some(p as int));
                }
                found = true;
                fidx = p;
                p = n;
            } else {
                p = p + 1;
            }
        }
        if !found {
            proof {
                assert(find_page(pre, row_id.page_id, 0) is None);
            }
            return Err(HeapError::PageNotFound(row_id.page_id));
        }
        proof {
            assert(pre[fidx as int] == self.spec_pages()[fidx as int].model());
        }
        if row_id.slot_idx >= self.pages[fidx].slot_count() {
            return Err(HeapError::InvalidSlot(row_id.slot_idx));
        }
        let ghost mid = pre.update(
            fidx as int,
            (PageModel {
                tuples: pre[fidx as int].tuples.update(row_id.slot_idx as int, None),
                ..pre[fidx as int]
            }),
        );
        match page_delete_at(&mut self.pages, fidx, row_id.slot_idx) {
            Ok(()) => {},
            Err(e) => {
                return Err(e);
            },
        }
        proof {
            let post = self.models();
            assert forall|i: int| 0 <= i < post.len() implies post[i] == mid[i] by {
                assert(post[i] == self.spec_pages()[i].model());
                if i != fidx as int {
                    assert(self.spec_pages()[i] == old(self).spec_pages()[i]);
                } else {
                    assert(post[i] =~= mid[i]);
                }
            }
            assert(post =~= mid);
        }
        let r2 = self.insert(values);
        proof {
            assert(insert_transition_for(
                mid,
                old(self).spec_first_page_id(),
                values_view(values@),
                old(self).spec_cols(),
                self.models(),
                r2,
            ));
        }
        match r2 {
            Ok(rid) => Ok(()),
            Err(e) => Err(e),
        }
    }

    /// Tombstones the row at `row_id`.
    pub fn delete(&mut self, row_id: RowId) -> (r: HeapResult<()>)
        requires
            old(self).wf(),
        ensures
            final(self).wf(),
            final(self).spec_table() == old(self).spec_table(),
            final(self).spec_first_page_id() == old(self).spec_first_page_id(),
            find_page(old(self).models(), row_id.page_id, 0) is None ==> (r matches Err(
                HeapError::PageNotFound(_),
            ) && final(self).models() == old(self).models()),
            find_page(old(self).models(), row_id.page_id, 0) matches Some(p) ==> {
                let pre = old(self).models();
                if row_id.slot_idx >= pre[p].tuples.len() {
                    r matches Err(HeapError::InvalidSlot(_)) && final(self).models() == pre
                } else {
                    r is Ok && final(self).models() == pre.update(
                        p,
                        (PageModel {
                            tuples: pre[p].tuples.update(row_id.slot_idx as int, None),
                            ..pre[p]
                        }),
                    )
                }
            },
    {
        let ghost pre = self.models();
        let n = self.pages.len();
        let mut p: usize = 0;
        while p < n
            invariant
                0 <= p <= n,
                n == self.spec_pages().len(),
                self == old(self),
                old(self).wf(),
                pre == self.models(),
                find_page(pre, row_id.page_id, 0) == find_page(pre, row_id.page_id, p as int),
            decreases n - p,
        {
            proof {
                assert(pre[p as int] == self.spec_pages()[p as int].model());
            }
            if self.pages[p].page_id() == row_id.page_id {
                proof {
                    assert(find_page(pre, row_id.page_id, p as int) == Some(p as int));
                }
                if row_id.slot_idx >= self.pages[p].slot_count() {
                    return Err(HeapError::InvalidSlot(row_id.slot_idx));
                }
                let res = page_delete_at(&mut self.pages, p, row_id.slot_idx);
                proof {
                    let post = self.models();
                    let target = pre.update(
                        p as int,
                        (PageModel {
                            tuples: pre[p as int].tuples.update(row_id.slot_idx as int, None),
                            ..pre[p as int]
                        }),
                    );
                    assert forall|i: int| 0 <= i < post.len() implies post[i] == target[i] by {
                        assert(post[i] == self.spec_pages()[i].model());
                        if i != p as int {
                            assert(self.spec_pages()[i] == old(self).spec_pages()[i]);
                        } else {
                            assert(post[i] =~= target[i]);
                        }
                    }
                    assert(post =~= target);
                }
                return res;
            }
            p = p + 1;
        }
        proof {
            assert(find_page(pre, row_id.page_id, 0) is None);
        }
        Err(HeapError::PageNotFound(row_id.page_id))
    }
}

/// Inserts a tuple into the page at `p`, leaving the other pages unchanged.
fn page_insert_at(pages: &mut Vec<HeapPage>, p: usize, tuple_data: &[u8]) -> (r: HeapResult<
    usize,
>)
    requires
        p < old(pages)@.len(),
        forall|i: int| 0 <= i < old(pages)@.len() ==> (#[trigger] old(pages)@[i]).wf(),
        tuple_data@.len() + 8 <= old(pages)@[p as int].spec_upper() - 8 * old(
            pages,
        )@[p as int].spec_slot_count(),
    ensures
        final(pages)@.len() == old(pages)@.len(),
        forall|i: int| 0 <= i < final(pages)@.len() ==> (#[trigger] final(pages)@[i]).wf(),
        forall|i: int|
            0 <= i < final(pages)@.len() && i != p ==> final(pages)@[i] == old(pages)@[i],
        r matches Ok(idx) && idx == old(pages)@[p as int].spec_slot_count(),
        final(pages)@[p as int].model() == pm_after_insert(
            old(pages)@[p as int].model(),
            tuple_data@,
        ),
{
    let page = &mut pages[p];
    let r = page.insert_tuple(tuple_data);
    proof {
        assert(final(pages)@[p as int].model() =~= pm_after_insert(
            old(pages)@[p as int].model(),
            tuple_data@,
        ));
    }
    match r {
        Ok(idx) => Ok(idx),
        Err(e) => Err(e),
    }
}

/// Tombstones a slot of the page at `p`, leaving the other pages unchanged.
fn page_delete_at(pages: &mut Vec<HeapPage>, p: usize, slot_idx: usize) -> (r: HeapResult<()>)
    requires
        p < old(pages)@.len(),
        forall|i: int| 0 <= i < old(pages)@.len() ==> (#[trigger] old(pages)@[i]).wf(),
        slot_idx < old(pages)@[p as int].spec_slot_count(),
    ensures
        final(pages)@.len() == old(pages)@.len(),
        forall|i: int| 0 <= i < final(pages)@.len() ==> (#[trigger] final(pages)@[i]).wf(),
        forall|i: int|
            0 <= i < final(pages)@.len() && i != p ==> final(pages)@[i] == old(pages)@[i],
        r is Ok,
        final(pages)@[p as int].model() == (PageModel {
            tuples: old(pages)@[p as int].model().tuples.update(slot_idx as int, None),
            ..old(pages)@[p as int].model()
        }),
{
    let page = &mut pages[p];
    let r = page.delete_tuple(slot_idx);
    proof {
        assert(final(pages)@[p as int].model() =~= (PageModel {
            tuples: old(pages)@[p as int].model().tuples.update(slot_idx as int, None),
            ..old(pages)@[p as int].model()
        }));
    }
    r
}

impl HeapPage {
    /// Rebuilds a page from its 8 KiB image: slot entries are scanned from
    /// the front until one with length zero or with a position outside the
    /// page, reconstructing the slot count and the lowest used data byte.
    /// An image whose slot directory and data area overlap is treated as
    /// empty.
    pub fn from_bytes(page_id: PageId, data: &[u8]) -> (r: Self)
        requires
            data@.len() == PAGE_SIZE,
        ensures
            r.wf(),
            r.spec_page_id() == page_id,
            r.spec_data() == data@,
            ({
                let n = spec_scan_stop(data@, 0);
                let u = spec_min_offset(data@, n);
                if 8 * n <= u {
                    r.spec_slot_count() == n && r.spec_upper() == u
                } else {
                    r.spec_slot_count() == 0 && r.spec_upper() == PAGE_SIZE
                }
            }),
    {
        let image = vstd::slice::slice_to_vec(data);
        let mut upper: usize = PAGE_SIZE;
        let mut i: usize = 0;
        let mut stopped = false;
        while i < 1024 && !stopped
            invariant
                0 <= i <= 1024,
                image@ == data@,
                image@.len() == PAGE_SIZE,
                upper <= PAGE_SIZE,
                upper == spec_min_offset(data@, i as int),
                !stopped ==> spec_scan_stop(data@, i as int) == spec_scan_stop(data@, 0),
                stopped ==> spec_scan_stop(data@, 0) == i,
                forall|k: int|
                    0 <= k < i ==> !slot_is_tombstone(image@, k) && upper <= slot_actual(
                        #[trigger] slot_raw(image@, k),
                    ) && slot_actual(slot_raw(image@, k)) + slot_len(image@, k) <= PAGE_SIZE,
            decreases 1024 - i + (if stopped {
                0int
            } else {
                1int
            }),
        {
            let raw = crate::codec::read_u32_at(image.as_slice(), i * 8);
            let len = crate::codec::read_u32_at(image.as_slice(), i * 8 + 4);
            proof {
                assert(image@.subrange(8 * (i as int), 8 * (i as int) + 4) == image@.subrange(
                    (i * 8) as int,
                    (i * 8) as int + 4,
                ));
                assert(raw == slot_raw(image@, i as int));
                assert(len == slot_len(image@, i as int));
            }
            if len == 0 {
                stopped = true;
            } else {
                let off_signed: i32 = raw as i32;
                let pos64: i64 = off_signed as i64 + PAGE_SIZE as i64;
                if pos64 < (8 * i + 8) as i64 || pos64 + (len as i64) > PAGE_SIZE as i64 {
                    stopped = true;
                } else {
                    proof {
                        assert(pos64 == slot_actual(raw));
                        assert(!slot_is_tombstone(image@, i as int));
                    }
                    let actual = pos64 as usize;
                    if actual < upper {
                        upper = actual;
                    }
                    i = i + 1;
                }
            }
        }
        proof {
            if !stopped {
                assert(i == 1024);
                assert(spec_scan_stop(data@, 1024) == 1024);
            }
            assert(spec_scan_stop(data@, 0) == i);
        }
        let slot_count = i;
        if upper < slot_count * 8 {
            return Self { page_id, data: image, slot_count: 0, upper: PAGE_SIZE };
        }
        Self { page_id, data: image, slot_count, upper }
    }
}

} // verus!
