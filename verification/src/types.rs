//! Global type definitions: identifiers, fixed sizes, column types and the
//! engine-wide error type.

use vstd::prelude::*;

verus! {

/// Block identifier.
pub type BlockId = u64;

/// Invalid block identifier (all bits set).
pub const INVALID_BLOCK_ID: BlockId = 0xFFFF_FFFF_FFFF_FFFF;

/// Data block size (8 KiB).
pub const BLOCK_SIZE: usize = 8192;

/// Page size (same as block size).
pub const PAGE_SIZE: usize = 8192;

/// Segment size (64 MiB).
pub const SEGMENT_SIZE: usize = 64 * 1024 * 1024;

/// Index entry size.
pub const INDEX_ENTRY_SIZE: usize = 16;

/// Page identifier: the top 32 bits name a file group, the bottom 32 bits
/// the page index within that file.
pub type PageId = u64;

/// Segment identifier.
pub type SegmentId = u64;

/// Tablespace identifier.
pub type TablespaceId = u32;

/// Index identifier.
pub type IndexId = u32;

/// Byte offset within a file.
pub type Offset = u64;

/// Byte length.
pub type Length = u64;

/// Seconds since the epoch.
pub type Timestamp = u64;

/// Engine-wide error type.
#[derive(Debug)]
pub enum AistoreError {
    /// I/O operation error.
    IoError(String),
    /// Memory allocation error.
    AllocError,
    /// Index error.
    IndexError(String),
    /// Data format error.
    DataFormatError(String),
    /// Lock error.
    LockError(String),
    /// Not found.
    NotFound,
    /// Permission error.
    PermissionError,
    /// Other error.
    Other(String),
}

/// Engine-wide result type.
pub type AistoreResult<T> = Result<T, AistoreError>;

/// Data type of a table column.
///
/// Each variant names a distinct storage format and size.
#[derive(Debug, Clone, Copy, PartialEq, Eq, Structural)]
pub enum ColumnType {
    /// 8-bit signed integer.
    Int8,
    /// 16-bit signed integer.
    Int16,
    /// 32-bit signed integer.
    Int32,
    /// 64-bit signed integer.
    Int64,
    /// 8-bit unsigned integer.
    UInt8,
    /// 16-bit unsigned integer.
    UInt16,
    /// 32-bit unsigned integer.
    UInt32,
    /// 64-bit unsigned integer.
    UInt64,
    /// 32-bit floating point column tag (values of this type are handled
    /// outside the verified core).
    Float32,
    /// 64-bit floating point column tag (values of this type are handled
    /// outside the verified core).
    Float64,
    /// Variable-length string with maximum byte length.
    Varchar(u32),
    /// Binary large object with maximum byte length.
    Blob(u32),
    /// Boolean.
    Bool,
}

impl ColumnType {
    /// Storage size in bytes of one field of this type: a length prefix of
    /// 4 bytes plus the maximum length for variable-length types, the fixed
    /// machine width otherwise.
    pub open spec fn spec_size(self) -> nat {
        match self {
            ColumnType::Int8 | ColumnType::UInt8 | ColumnType::Bool => 1,
            ColumnType::Int16 | ColumnType::UInt16 => 2,
            ColumnType::Int32 | ColumnType::UInt32 | ColumnType::Float32 => 4,
            ColumnType::Int64 | ColumnType::UInt64 | ColumnType::Float64 => 8,
            ColumnType::Varchar(max_len) => 4 + max_len as nat,
            ColumnType::Blob(max_len) => 4 + max_len as nat,
        }
    }

    /// Returns the default storage size in bytes for this column type.
    ///
    /// For variable-length types (`Varchar`, `Blob`), this is the size of the
    /// 4-byte length prefix plus the maximum length.
    pub fn size(&self) -> (r: usize)
        requires
            self.spec_size() <= usize::MAX,
        ensures
            r == self.spec_size(),
    {
        match self {
            ColumnType::Int8 | ColumnType::UInt8 | ColumnType::Bool => 1,
            ColumnType::Int16 | ColumnType::UInt16 => 2,
            ColumnType::Int32 | ColumnType::UInt32 | ColumnType::Float32 => 4,
            ColumnType::Int64 | ColumnType::UInt64 | ColumnType::Float64 => 8,
            ColumnType::Varchar(max_len) => 4 + *max_len as usize,
            ColumnType::Blob(max_len) => 4 + *max_len as usize,
        }
    }

    /// Whether this is a variable-length type (`Varchar` or `Blob`).
    pub fn is_variable_length(&self) -> (r: bool)
        ensures
            r == (self is Varchar || self is Blob),
    {
        match self {
            ColumnType::Varchar(_) | ColumnType::Blob(_) => true,
            _ => false,
        }
    }

    /// Whether this is a numeric type (integer or floating point).
    pub fn is_numeric(&self) -> (r: bool)
        ensures
            r == !(self is Varchar || self is Blob || self is Bool),
    {
        match self {
            ColumnType::Int8
            | ColumnType::Int16
            | ColumnType::Int32
            | ColumnType::Int64
            | ColumnType::UInt8
            | ColumnType::UInt16
            | ColumnType::UInt32
            | ColumnType::UInt64
            | ColumnType::Float32
            | ColumnType::Float64 => true,
            _ => false,
        }
    }
}

/// The catalog code of a column type, as bytes: the variant name, a
/// parameterized type carrying its maximum length in parentheses.
pub open spec fn spec_type_code_bytes(t: ColumnType) -> Seq<u8> {
    match t {
        ColumnType::Int8 => seq![73u8, 110u8, 116u8, 56u8],
        ColumnType::Int16 => seq![73u8, 110u8, 116u8, 49u8, 54u8],
        ColumnType::Int32 => seq![73u8, 110u8, 116u8, 51u8, 50u8],
        ColumnType::Int64 => seq![73u8, 110u8, 116u8, 54u8, 52u8],
        ColumnType::UInt8 => seq![85u8, 73u8, 110u8, 116u8, 56u8],
        ColumnType::UInt16 => seq![85u8, 73u8, 110u8, 116u8, 49u8, 54u8],
        ColumnType::UInt32 => seq![85u8, 73u8, 110u8, 116u8, 51u8, 50u8],
        ColumnType::UInt64 => seq![85u8, 73u8, 110u8, 116u8, 54u8, 52u8],
        ColumnType::Float32 => seq![70u8, 108u8, 111u8, 97u8, 116u8, 51u8, 50u8],
        ColumnType::Float64 => seq![70u8, 108u8, 111u8, 97u8, 116u8, 54u8, 52u8],
        ColumnType::Bool => seq![66u8, 111u8, 111u8, 108u8],
        ColumnType::Varchar(m) => seq![86u8, 97u8, 114u8, 99u8, 104u8, 97u8, 114u8, 40u8] + crate::text::dec_digits(m as nat)
            + seq![41u8],
        ColumnType::Blob(m) => seq![66u8, 108u8, 111u8, 98u8, 40u8] + crate::text::dec_digits(m as nat)
            + seq![41u8],
    }
}

/// The display name of a column type, as bytes: the upper-case SQL name, a
/// parameterized type carrying its maximum length in parentheses.
pub open spec fn spec_type_display_bytes(t: ColumnType) -> Seq<u8> {
    match t {
        ColumnType::Int8 => seq![73u8, 78u8, 84u8, 56u8],
        ColumnType::Int16 => seq![73u8, 78u8, 84u8, 49u8, 54u8],
        ColumnType::Int32 => seq![73u8, 78u8, 84u8, 51u8, 50u8],
        ColumnType::Int64 => seq![73u8, 78u8, 84u8, 54u8, 52u8],
        ColumnType::UInt8 => seq![85u8, 73u8, 78u8, 84u8, 56u8],
        ColumnType::UInt16 => seq![85u8, 73u8, 78u8, 84u8, 49u8, 54u8],
        ColumnType::UInt32 => seq![85u8, 73u8, 78u8, 84u8, 51u8, 50u8],
        ColumnType::UInt64 => seq![85u8, 73u8, 78u8, 84u8, 54u8, 52u8],
        ColumnType::Float32 => seq![70u8, 76u8, 79u8, 65u8, 84u8, 51u8, 50u8],
        ColumnType::Float64 => seq![70u8, 76u8, 79u8, 65u8, 84u8, 54u8, 52u8],
        ColumnType::Bool => seq![66u8, 79u8, 79u8, 76u8],
        ColumnType::Varchar(m) => seq![86u8, 65u8, 82u8, 67u8, 72u8, 65u8, 82u8, 40u8] + crate::text::dec_digits(m as nat)
            + seq![41u8],
        ColumnType::Blob(m) => seq![66u8, 76u8, 79u8, 66u8, 40u8] + crate::text::dec_digits(m as nat)
            + seq![41u8],
    }
}

/// Writes the catalog code of a column type.
pub fn type_code_bytes(t: &ColumnType) -> (r: Vec<u8>)
    ensures
        r@ == spec_type_code_bytes(*t),
        forall|i: int| 0 <= i < r@.len() ==> r@[i] < 128,
{
    let mut out: Vec<u8> = Vec::new();
    match t {
        ColumnType::Int8 => {
            out.push(73);
            out.push(110);
            out.push(116);
            out.push(56);
        },
        ColumnType::Int16 => {
            out.push(73);
            out.push(110);
            out.push(116);
            out.push(49);
            out.push(54);
        },
        ColumnType::Int32 => {
            out.push(73);
            out.push(110);
            out.push(116);
            out.push(51);
            out.push(50);
        },
        ColumnType::Int64 => {
            out.push(73);
            out.push(110);
            out.push(116);
            out.push(54);
            out.push(52);
        },
        ColumnType::UInt8 => {
            out.push(85);
            out.push(73);
            out.push(110);
            out.push(116);
            out.push(56);
        },
        ColumnType::UInt16 => {
            out.push(85);
            out.push(73);
            out.push(110);
            out.push(116);
            out.push(49);
            out.push(54);
        },
        ColumnType::UInt32 => {
            out.push(85);
            out.push(73);
            out.push(110);
            out.push(116);
            out.push(51);
            out.push(50);
        },
        ColumnType::UInt64 => {
            out.push(85);
            out.push(73);
            out.push(110);
            out.push(116);
            out.push(54);
            out.push(52);
        },
        ColumnType::Float32 => {
            out.push(70);
            out.push(108);
            out.push(111);
            out.push(97);
            out.push(116);
            out.push(51);
            out.push(50);
        },
        ColumnType::Float64 => {
            out.push(70);
            out.push(108);
            out.push(111);
            out.push(97);
            out.push(116);
            out.push(54);
            out.push(52);
        },
        ColumnType::Bool => {
            out.push(66);
            out.push(111);
            out.push(111);
            out.push(108);
        },
        ColumnType::Varchar(m) => {
            out.push(86);
            out.push(97);
            out.push(114);
            out.push(99);
            out.push(104);
            out.push(97);
            out.push(114);
            out.push(40);
            let mut digits = crate::text::u64_to_dec(*m as u64);
            out.append(&mut digits);
            out.push(41);
        },
        ColumnType::Blob(m) => {
            out.push(66);
            out.push(108);
            out.push(111);
            out.push(98);
            out.push(40);
            let mut digits = crate::text::u64_to_dec(*m as u64);
            out.append(&mut digits);
            out.push(41);
        },
    }
    proof {
        assert(out@ =~= spec_type_code_bytes(*t));
        match *t {
            ColumnType::Varchar(m) => crate::text::lemma_dec_digits_ascii(m as nat),
            ColumnType::Blob(m) => crate::text::lemma_dec_digits_ascii(m as nat),
            _ => {},
        }
    }
    out
}

/// Writes the display name of a column type.
pub fn type_display_bytes(t: &ColumnType) -> (r: Vec<u8>)
    ensures
        r@ == spec_type_display_bytes(*t),
        forall|i: int| 0 <= i < r@.len() ==> r@[i] < 128,
{
    let mut out: Vec<u8> = Vec::new();
    match t {
        ColumnType::Int8 => {
            out.push(73);
            out.push(78);
            out.push(84);
            out.push(56);
        },
        ColumnType::Int16 => {
            out.push(73);
            out.push(78);
            out.push(84);
            out.push(49);
            out.push(54);
        },
        ColumnType::Int32 => {
            out.push(73);
            out.push(78);
            out.push(84);
            out.push(51);
            out.push(50);
        },
        ColumnType::Int64 => {
            out.push(73);
            out.push(78);
            out.push(84);
            out.push(54);
            out.push(52);
        },
        ColumnType::UInt8 => {
            out.push(85);
            out.push(73);
            out.push(78);
            out.push(84);
            out.push(56);
        },
        ColumnType::UInt16 => {
            out.push(85);
            out.push(73);
            out.push(78);
            out.push(84);
            out.push(49);
            out.push(54);
        },
        ColumnType::UInt32 => {
            out.push(85);
            out.push(73);
            out.push(78);
            out.push(84);
            out.push(51);
            out.push(50);
        },
        ColumnType::UInt64 => {
            out.push(85);
            out.push(73);
            out.push(78);
            out.push(84);
            out.push(54);
            out.push(52);
        },
        ColumnType::Float32 => {
            out.push(70);
            out.push(76);
            out.push(79);
            out.push(65);
            out.push(84);
            out.push(51);
            out.push(50);
        },
        ColumnType::Float64 => {
            out.push(70);
            out.push(76);
            out.push(79);
            out.push(65);
            out.push(84);
            out.push(54);
            out.push(52);
        },
        ColumnType::Bool => {
            out.push(66);
            out.push(79);
            out.push(79);
            out.push(76);
        },
        ColumnType::Varchar(m) => {
            out.push(86);
            out.push(65);
            out.push(82);
            out.push(67);
            out.push(72);
            out.push(65);
            out.push(82);
            out.push(40);
            let mut digits = crate::text::u64_to_dec(*m as u64);
            out.append(&mut digits);
            out.push(41);
        },
        ColumnType::Blob(m) => {
            out.push(66);
            out.push(76);
            out.push(79);
            out.push(66);
            out.push(40);
            let mut digits = crate::text::u64_to_dec(*m as u64);
            out.append(&mut digits);
            out.push(41);
        },
    }
    proof {
        assert(out@ =~= spec_type_display_bytes(*t));
        match *t {
            ColumnType::Varchar(m) => crate::text::lemma_dec_digits_ascii(m as nat),
            ColumnType::Blob(m) => crate::text::lemma_dec_digits_ascii(m as nat),
            _ => {},
        }
    }
    out
}

impl ColumnType {
    /// The display name of this type, upper case, as the SQL front end
    /// writes it.
    pub fn display_string(&self) -> (r: String)
        ensures
            vstd::utf8::encode_utf8(r@) == spec_type_display_bytes(*self),
    {
        let bytes = type_display_bytes(self);
        crate::text::bytes_to_string(bytes)
    }

    /// The catalog code of this type, as table files store it.
    pub fn code_string(&self) -> (r: String)
        ensures
            vstd::utf8::encode_utf8(r@) == spec_type_code_bytes(*self),
    {
        let bytes = type_code_bytes(self);
        crate::text::bytes_to_string(bytes)
    }
}

} // verus!
