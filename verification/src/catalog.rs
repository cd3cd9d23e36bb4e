//! Persistent catalog of tables: an in-memory index of table metadata and
//! one line-oriented text file per table under a system directory.
//!
//! A table file's first line is
//! `<id>|<name>|<segment>|<type>|<rows>|<columns>|<created>`, followed by one
//! `COLUMN|<name>|<type>|<nullable>|<ordinal>` line per column.

pub mod error;

use vstd::prelude::*;
use vstd::pervasive::arbitrary;

use crate::catalog::error::{CatalogError, CatalogResult};
use crate::table::column::{columns_view, Column, ColumnModel};
use crate::table::syscache::{has_table_id, has_table_name, tables_wf};
use crate::table::table::{spec_table_type_name, Table, TableModel, TableType};
use crate::table::TableBuilder;
use crate::text::{dec_digits, parse_u64, spec_parse_u64, str_eq, string_to_bytes};
use crate::types::{spec_type_code_bytes, type_code_bytes, ColumnType, SegmentId};
use crate::vfs::{MemFile, MemFs};
use vstd::utf8::{decode_utf8, encode_utf8, valid_utf8};

verus! {

/// The bytes of a table type's stored name.
pub open spec fn spec_type_name_bytes(t: TableType) -> Seq<u8> {
    encode_utf8(spec_table_type_name(t))
}

/// One column's catalog line:
/// `COLUMN|<name>|<type>|<nullable>|<ordinal>` and a newline.
pub open spec fn spec_column_line(c: ColumnModel) -> Seq<u8> {
    seq![67u8, 79u8, 76u8, 85u8, 77u8, 78u8, 124u8] + encode_utf8(c.name) + seq![124u8]
        + spec_type_code_bytes(c.column_type) + seq![124u8] + (if c.nullable {
        seq![116u8, 114u8, 117u8, 101u8]
    } else {
        seq![102u8, 97u8, 108u8, 115u8, 101u8]
    }) + seq![124u8] + dec_digits(c.ordinal as nat) + seq![10u8]
}

/// The column lines from position `i` on.
pub open spec fn spec_column_lines(cols: Seq<ColumnModel>, i: int) -> Seq<u8>
    decreases cols.len() - i,
{
    if i < 0 || i >= cols.len() {
        Seq::empty()
    } else {
        spec_column_line(cols[i]) + spec_column_lines(cols, i + 1)
    }
}

/// A table's catalog file: the header line, then the column lines.
pub open spec fn spec_table_file(t: TableModel) -> Seq<u8> {
    dec_digits(t.table_id as nat) + seq![124u8] + encode_utf8(t.table_name) + seq![124u8]
        + dec_digits(t.segment_id as nat) + seq![124u8] + spec_type_name_bytes(t.table_type)
        + seq![124u8] + dec_digits(t.row_count as nat) + seq![124u8] + dec_digits(
        t.column_count as nat,
    ) + seq![124u8] + dec_digits(t.created_at as nat) + seq![10u8] + spec_column_lines(
        t.columns,
        0,
    )
}

/// The catalog file name of a table: its name and the `.tbl` extension.
pub open spec fn spec_table_file_name(name: Seq<char>) -> Seq<u8> {
    encode_utf8(name) + seq![46u8, 116u8, 98u8, 108u8]
}

/// Whether a schema's column names are pairwise distinct.
pub open spec fn column_names_unique(cols: Seq<ColumnModel>) -> bool {
    forall|i: int, j: int|
        0 <= i < j < cols.len() ==> (#[trigger] cols[i]).name != (#[trigger] cols[j]).name
}

/// Writes a table's catalog file.
#[verifier::rlimit(60)]
#[verifier::spinoff_prover]
pub fn encode_table_file(t: &Table) -> (r: Vec<u8>)
    ensures
        r@ == spec_table_file(t@),
{
    let mut out = crate::text::u64_to_dec(t.table_id);
    out.push(124);
    let mut b = string_to_bytes(t.table_name.as_str());
    out.append(&mut b);
    out.push(124);
    let mut b = crate::text::u64_to_dec(t.segment_id);
    out.append(&mut b);
    out.push(124);
    let mut b = string_to_bytes(t.table_type.as_str());
    out.append(&mut b);
    out.push(124);
    let mut b = crate::text::u64_to_dec(t.row_count);
    out.append(&mut b);
    out.push(124);
    let mut b = crate::text::u64_to_dec(t.column_count as u64);
    out.append(&mut b);
    out.push(124);
    let mut b = crate::text::u64_to_dec(t.created_at);
    out.append(&mut b);
    out.push(10);
    proof {
        assert(out@ =~= spec_table_file(t@).subrange(
            0,
            spec_table_file(t@).len() - spec_column_lines(t@.columns, 0).len(),
        ));
    }
    let n = t.columns.len();
    let mut i: usize = 0;
    while i < n
        invariant
            0 <= i <= n,
            n == t.columns@.len(),
            out@ + spec_column_lines(t@.columns, i as int) == spec_table_file(t@),
        decreases n - i,
    {
        let col = &t.columns[i];
        let mut line: Vec<u8> = Vec::new();
        line.push(67);
        line.push(79);
        line.push(76);
        line.push(85);
        line.push(77);
        line.push(78);
        line.push(124);
        let mut b = string_to_bytes(col.name());
        line.append(&mut b);
        line.push(124);
        let ct = col.column_type();
        let mut b = type_code_bytes(&ct);
        line.append(&mut b);
        line.push(124);
        if col.is_nullable() {
            line.push(116);
            line.push(114);
            line.push(117);
            line.push(101);
        } else {
            line.push(102);
            line.push(97);
            line.push(108);
            line.push(115);
            line.push(101);
        }
        line.push(124);
        let mut b = crate::text::u64_to_dec(col.ordinal() as u64);
        line.append(&mut b);
        line.push(10);
        proof {
            assert(line@ =~= spec_column_line(t@.columns[i as int]));
            assert(spec_column_lines(t@.columns, i as int) == spec_column_line(
                t@.columns[i as int],
            ) + spec_column_lines(t@.columns, i + 1));
            assert((out@ + line@) + spec_column_lines(t@.columns, i + 1) =~= out@
                + spec_column_lines(t@.columns, i as int));
        }
        out.append(&mut line);
        i = i + 1;
    }
    proof {
        assert(spec_column_lines(t@.columns, n as int) =~= Seq::<u8>::empty());
        assert(out@ =~= spec_table_file(t@));
    }
    out
}

/// The pieces of a byte string cut at every occurrence of a delimiter. A
/// string without the delimiter is one piece; each delimiter ends a piece,
/// so a trailing delimiter yields a final empty piece.
pub open spec fn spec_split(data: Seq<u8>, d: u8) -> Seq<Seq<u8>>
    decreases data.len(),
{
    if data.len() == 0 {
        seq![Seq::<u8>::empty()]
    } else if data[0] == d {
        seq![Seq::<u8>::empty()] + spec_split(data.drop_first(), d)
    } else {
        let rest = spec_split(data.drop_first(), d);
        seq![seq![data[0]] + rest[0]] + rest.drop_first()
    }
}

/// The views of a sequence of byte vectors.
pub open spec fn views_of(s: Seq<Vec<u8>>) -> Seq<Seq<u8>> {
    Seq::new(s.len(), |k: int| s[k]@)
}

/// A split always has at least one piece.
pub proof fn lemma_split_len(data: Seq<u8>, d: u8)
    ensures
        spec_split(data, d).len() >= 1,
    decreases data.len(),
{
    if data.len() > 0 {
        lemma_split_len(data.drop_first(), d);
    }
}

/// A delimiter-free string splits into itself alone.
pub proof fn lemma_split_no_delim(p: Seq<u8>, d: u8)
    requires
        forall|j: int| 0 <= j < p.len() ==> p[j] != d,
    ensures
        spec_split(p, d) == seq![p],
    decreases p.len(),
{
    if p.len() == 0 {
        assert(p =~= Seq::<u8>::empty());
        assert(spec_split(p, d) =~= seq![p]);
    } else {
        lemma_split_no_delim(p.drop_first(), d);
        lemma_split_len(p.drop_first(), d);
        assert(seq![p[0]] + p.drop_first() =~= p);
        assert(spec_split(p, d) =~= seq![p]);
    }
}

/// Cutting off one delimiter-free piece and its delimiter splits the rest
/// independently.
pub proof fn lemma_split_piece(p: Seq<u8>, d: u8, rest: Seq<u8>)
    requires
        forall|j: int| 0 <= j < p.len() ==> p[j] != d,
    ensures
        spec_split(p + seq![d] + rest, d) == seq![p] + spec_split(rest, d),
    decreases p.len(),
{
    let whole = p + seq![d] + rest;
    if p.len() == 0 {
        assert(whole =~= seq![d] + rest);
        assert(whole[0] == d);
        assert(whole.drop_first() =~= rest);
        assert(p =~= Seq::<u8>::empty());
        assert(spec_split(whole, d) =~~= seq![p] + spec_split(rest, d));
    } else {
        lemma_split_piece(p.drop_first(), d, rest);
        lemma_split_len(rest, d);
        assert(p[0] != d);
        assert(whole[0] == p[0]);
        assert(whole.drop_first() =~= p.drop_first() + seq![d] + rest);
        let sub = seq![p.drop_first()] + spec_split(rest, d);
        assert(spec_split(whole.drop_first(), d) == sub);
        assert(spec_split(whole, d) == seq![seq![whole[0]] + sub[0]] + sub.drop_first());
        assert(seq![whole[0]] + sub[0] =~= p);
        assert(sub.drop_first() =~= spec_split(rest, d));
        assert(spec_split(whole, d) =~~= seq![p] + spec_split(rest, d));
    }
}

/// Whether a byte string holds neither a line break nor a field separator.
pub open spec fn bytes_clean(s: Seq<u8>) -> bool {
    forall|j: int| 0 <= j < s.len() ==> s[j] != 10u8 && s[j] != 124u8
}

/// A table model that the catalog file format represents faithfully: no
/// name holds a line break or a separator byte, and the stored column count
/// is the number of columns.
pub open spec fn table_model_clean(t: TableModel) -> bool {
    &&& bytes_clean(encode_utf8(t.table_name))
    &&& t.column_count == t.columns.len()
    &&& forall|i: int|
        0 <= i < t.columns.len() ==> bytes_clean(encode_utf8((#[trigger] t.columns[i]).name))
}

/// The nullability word of a column line.
pub open spec fn spec_bool_word(b: bool) -> Seq<u8> {
    if b {
        seq![116u8, 114u8, 117u8, 101u8]
    } else {
        seq![102u8, 97u8, 108u8, 115u8, 101u8]
    }
}

/// A table file's header line, without its newline.
pub open spec fn spec_header_line(t: TableModel) -> Seq<u8> {
    dec_digits(t.table_id as nat) + seq![124u8] + encode_utf8(t.table_name) + seq![124u8]
        + dec_digits(t.segment_id as nat) + seq![124u8] + spec_type_name_bytes(t.table_type)
        + seq![124u8] + dec_digits(t.row_count as nat) + seq![124u8] + dec_digits(
        t.column_count as nat,
    ) + seq![124u8] + dec_digits(t.created_at as nat)
}

/// A column's catalog line, without its newline.
pub open spec fn spec_column_body(c: ColumnModel) -> Seq<u8> {
    seq![67u8, 79u8, 76u8, 85u8, 77u8, 78u8] + seq![124u8] + encode_utf8(c.name) + seq![124u8]
        + spec_type_code_bytes(c.column_type) + seq![124u8] + spec_bool_word(c.nullable) + seq![
        124u8,
    ] + dec_digits(c.ordinal as nat)
}

/// Decimal digit strings hold neither delimiter.
proof fn lemma_dec_digits_clean(n: nat)
    ensures
        bytes_clean(dec_digits(n)),
{
    crate::text::lemma_dec_digits_are_digits(n);
}

/// Cleanliness is preserved by concatenation.
proof fn lemma_clean_concat(a: Seq<u8>, b: Seq<u8>)
    requires
        bytes_clean(a),
        bytes_clean(b),
    ensures
        bytes_clean(a + b),
{
    assert forall|j: int| 0 <= j < (a + b).len() implies (a + b)[j] != 10u8 && (a + b)[j]
        != 124u8 by {
        if j < a.len() {
            assert((a + b)[j] == a[j]);
        } else {
            assert((a + b)[j] == b[j - a.len()]);
        }
    }
}

/// Whether a byte string holds no line break.
pub open spec fn no_newline(s: Seq<u8>) -> bool {
    forall|j: int| 0 <= j < s.len() ==> s[j] != 10u8
}

/// Freedom from line breaks is preserved by concatenation.
proof fn lemma_no_newline_concat(a: Seq<u8>, b: Seq<u8>)
    requires
        no_newline(a),
        no_newline(b),
    ensures
        no_newline(a + b),
{
    assert forall|j: int| 0 <= j < (a + b).len() implies (a + b)[j] != 10u8 by {
        if j < a.len() {
            assert((a + b)[j] == a[j]);
        } else {
            assert((a + b)[j] == b[j - a.len()]);
        }
    }
}

/// The stored table type names, byte for byte; none holds a delimiter.
proof fn lemma_type_name_facts()
    ensures
        spec_type_name_bytes(TableType::User) == seq![85u8, 115u8, 101u8, 114u8],
        spec_type_name_bytes(TableType::System) == seq![83u8, 121u8, 115u8, 116u8, 101u8, 109u8],
        spec_type_name_bytes(TableType::Temporary) == seq![
            84u8,
            101u8,
            109u8,
            112u8,
            111u8,
            114u8,
            97u8,
            114u8,
            121u8,
        ],
        forall|ty: TableType| bytes_clean(#[trigger] spec_type_name_bytes(ty)),
{
    reveal_strlit("User");
    reveal_strlit("System");
    reveal_strlit("Temporary");
    assert(("User"@) =~= seq!['U', 's', 'e', 'r']);
    assert(("System"@) =~= seq!['S', 'y', 's', 't', 'e', 'm']);
    assert(("Temporary"@) =~= seq!['T', 'e', 'm', 'p', 'o', 'r', 'a', 'r', 'y']);
    vstd::utf8::is_ascii_chars_encode_utf8("User"@);
    vstd::utf8::is_ascii_chars_encode_utf8("System"@);
    vstd::utf8::is_ascii_chars_encode_utf8("Temporary"@);
    assert(encode_utf8("User"@) =~= seq![85u8, 115u8, 101u8, 114u8]);
    assert(encode_utf8("System"@) =~= seq![83u8, 121u8, 115u8, 116u8, 101u8, 109u8]);
    assert(encode_utf8("Temporary"@) =~= seq![
        84u8,
        101u8,
        109u8,
        112u8,
        111u8,
        114u8,
        97u8,
        114u8,
        121u8,
    ]);
    assert forall|ty: TableType| bytes_clean(#[trigger] spec_type_name_bytes(ty)) by {
        match ty {
            TableType::User => {},
            TableType::System => {},
            TableType::Temporary => {},
        }
    }
}

/// Column type codes hold no delimiter byte.
proof fn lemma_type_code_clean(ct: ColumnType)
    ensures
        bytes_clean(spec_type_code_bytes(ct)),
{
    match ct {
        ColumnType::Varchar(m) => {
            lemma_dec_digits_clean(m as nat);
            lemma_clean_concat(
                seq![86u8, 97u8, 114u8, 99u8, 104u8, 97u8, 114u8, 40u8],
                dec_digits(m as nat),
            );
            lemma_clean_concat(
                seq![86u8, 97u8, 114u8, 99u8, 104u8, 97u8, 114u8, 40u8] + dec_digits(m as nat),
                seq![41u8],
            );
        },
        ColumnType::Blob(m) => {
            lemma_dec_digits_clean(m as nat);
            lemma_clean_concat(seq![66u8, 108u8, 111u8, 98u8, 40u8], dec_digits(m as nat));
            lemma_clean_concat(
                seq![66u8, 108u8, 111u8, 98u8, 40u8] + dec_digits(m as nat),
                seq![41u8],
            );
        },
        _ => {},
    }
}

/// A clean table model's header line holds no newline and splits at the
/// separators into its seven fields.
#[verifier::rlimit(80)]
#[verifier::spinoff_prover]
proof fn lemma_header_line_split(t: TableModel)
    requires
        bytes_clean(encode_utf8(t.table_name)),
    ensures
        no_newline(spec_header_line(t)),
        spec_split(spec_header_line(t), 124u8) == seq![
            dec_digits(t.table_id as nat),
            encode_utf8(t.table_name),
            dec_digits(t.segment_id as nat),
            spec_type_name_bytes(t.table_type),
            dec_digits(t.row_count as nat),
            dec_digits(t.column_count as nat),
            dec_digits(t.created_at as nat),
        ],
{
    let p0 = dec_digits(t.table_id as nat);
    let p1 = encode_utf8(t.table_name);
    let p2 = dec_digits(t.segment_id as nat);
    let p3 = spec_type_name_bytes(t.table_type);
    let p4 = dec_digits(t.row_count as nat);
    let p5 = dec_digits(t.column_count as nat);
    let p6 = dec_digits(t.created_at as nat);
    lemma_dec_digits_clean(t.table_id as nat);
    lemma_dec_digits_clean(t.segment_id as nat);
    lemma_dec_digits_clean(t.row_count as nat);
    lemma_dec_digits_clean(t.column_count as nat);
    lemma_dec_digits_clean(t.created_at as nat);
    lemma_type_name_facts();
    let s6 = p6;
    let s5 = p5 + seq![124u8] + s6;
    let s4 = p4 + seq![124u8] + s5;
    let s3 = p3 + seq![124u8] + s4;
    let s2 = p2 + seq![124u8] + s3;
    let s1 = p1 + seq![124u8] + s2;
    let s0 = p0 + seq![124u8] + s1;
    assert(spec_header_line(t) =~= s0);
    lemma_split_no_delim(s6, 124u8);
    lemma_split_piece(p5, 124u8, s6);
    lemma_split_piece(p4, 124u8, s5);
    lemma_split_piece(p3, 124u8, s4);
    lemma_split_piece(p2, 124u8, s3);
    lemma_split_piece(p1, 124u8, s2);
    lemma_split_piece(p0, 124u8, s1);
    assert(spec_split(s0, 124u8) =~= seq![p0, p1, p2, p3, p4, p5, p6]);
    let sep: Seq<u8> = seq![124u8];
    lemma_no_newline_concat(p5, sep);
    lemma_no_newline_concat(p5 + sep, s6);
    assert(s5 =~= p5 + sep + s6);
    lemma_no_newline_concat(p4, sep);
    lemma_no_newline_concat(p4 + sep, s5);
    assert(s4 =~= p4 + sep + s5);
    lemma_no_newline_concat(p3, sep);
    lemma_no_newline_concat(p3 + sep, s4);
    assert(s3 =~= p3 + sep + s4);
    lemma_no_newline_concat(p2, sep);
    lemma_no_newline_concat(p2 + sep, s3);
    assert(s2 =~= p2 + sep + s3);
    lemma_no_newline_concat(p1, sep);
    lemma_no_newline_concat(p1 + sep, s2);
    assert(s1 =~= p1 + sep + s2);
    lemma_no_newline_concat(p0, sep);
    lemma_no_newline_concat(p0 + sep, s1);
    assert(s0 =~= p0 + sep + s1);
    assert(no_newline(spec_header_line(t)));
}

/// A clean column's line holds no newline and splits at the separators into
/// its five fields.
proof fn lemma_column_body_split(c: ColumnModel)
    requires
        bytes_clean(encode_utf8(c.name)),
    ensures
        no_newline(spec_column_body(c)),
        spec_split(spec_column_body(c), 124u8) == seq![
            seq![67u8, 79u8, 76u8, 85u8, 77u8, 78u8],
            encode_utf8(c.name),
            spec_type_code_bytes(c.column_type),
            spec_bool_word(c.nullable),
            dec_digits(c.ordinal as nat),
        ],
        spec_column_line(c) == spec_column_body(c) + seq![10u8],
{
    let p0 = seq![67u8, 79u8, 76u8, 85u8, 77u8, 78u8];
    let p1 = encode_utf8(c.name);
    let p2 = spec_type_code_bytes(c.column_type);
    let p3 = spec_bool_word(c.nullable);
    let p4 = dec_digits(c.ordinal as nat);
    lemma_type_code_clean(c.column_type);
    lemma_dec_digits_clean(c.ordinal as nat);
    let s4 = p4;
    let s3 = p3 + seq![124u8] + s4;
    let s2 = p2 + seq![124u8] + s3;
    let s1 = p1 + seq![124u8] + s2;
    let s0 = p0 + seq![124u8] + s1;
    assert(spec_column_body(c) =~= s0);
    lemma_split_no_delim(s4, 124u8);
    lemma_split_piece(p3, 124u8, s4);
    lemma_split_piece(p2, 124u8, s3);
    lemma_split_piece(p1, 124u8, s2);
    lemma_split_piece(p0, 124u8, s1);
    assert(spec_split(s0, 124u8) =~= seq![p0, p1, p2, p3, p4]);
    let sep: Seq<u8> = seq![124u8];
    lemma_no_newline_concat(p3, sep);
    lemma_no_newline_concat(p3 + sep, s4);
    assert(s3 =~= p3 + sep + s4);
    lemma_no_newline_concat(p2, sep);
    lemma_no_newline_concat(p2 + sep, s3);
    assert(s2 =~= p2 + sep + s3);
    lemma_no_newline_concat(p1, sep);
    lemma_no_newline_concat(p1 + sep, s2);
    assert(s1 =~= p1 + sep + s2);
    lemma_no_newline_concat(p0, sep);
    lemma_no_newline_concat(p0 + sep, s1);
    assert(s0 =~= p0 + sep + s1);
    assert(no_newline(spec_column_body(c)));
    assert(spec_column_line(c) =~= spec_column_body(c) + seq![10u8]);
}

/// The column lines of a clean schema split at newlines into one piece per
/// column and a final empty piece.
proof fn lemma_column_lines_split(cols: Seq<ColumnModel>, i: int)
    requires
        0 <= i <= cols.len(),
        forall|k: int| 0 <= k < cols.len() ==> bytes_clean(encode_utf8((#[trigger] cols[k]).name)),
    ensures
        spec_split(spec_column_lines(cols, i), 10u8).len() == cols.len() - i + 1,
        forall|k: int|
            0 <= k < cols.len() - i ==> #[trigger] spec_split(spec_column_lines(cols, i), 10u8)[k]
                == spec_column_body(cols[i + k]),
        spec_split(spec_column_lines(cols, i), 10u8)[cols.len() as int - i] == Seq::<u8>::empty(),
    decreases cols.len() - i,
{
    if i == cols.len() {
        assert(spec_column_lines(cols, i) =~= Seq::<u8>::empty());
    } else {
        lemma_column_lines_split(cols, i + 1);
        lemma_column_body_split(cols[i]);
        assert(spec_column_lines(cols, i) =~= spec_column_body(cols[i]) + seq![10u8]
            + spec_column_lines(cols, i + 1));
        lemma_split_piece(spec_column_body(cols[i]), 10u8, spec_column_lines(cols, i + 1));
        assert forall|k: int| 0 <= k < cols.len() - i implies #[trigger] spec_split(
            spec_column_lines(cols, i),
            10u8,
        )[k] == spec_column_body(cols[i + k]) by {
            if k > 0 {
                assert(spec_split(spec_column_lines(cols, i), 10u8)[k] == spec_split(
                    spec_column_lines(cols, i + 1),
                    10u8,
                )[k - 1]);
            }
        }
    }
}

/// A clean table model's file splits at newlines into the header line, one
/// line per column, and a final empty piece; the header and column lines
/// split at the separators into their fields.
proof fn lemma_table_file_split(t: TableModel)
    requires
        table_model_clean(t),
    ensures
        spec_split(spec_table_file(t), 10u8).len() == t.columns.len() + 2,
        spec_split(spec_table_file(t), 10u8)[0] == spec_header_line(t),
        forall|k: int|
            0 <= k < t.columns.len() ==> #[trigger] spec_split(spec_table_file(t), 10u8)[1 + k]
                == spec_column_body(t.columns[k]),
        spec_split(spec_table_file(t), 10u8)[t.columns.len() as int + 1] == Seq::<u8>::empty(),
{
    lemma_header_line_split(t);
    lemma_column_lines_split(t.columns, 0);
    assert(spec_table_file(t) =~= spec_header_line(t) + seq![10u8] + spec_column_lines(
        t.columns,
        0,
    ));
    lemma_split_piece(spec_header_line(t), 10u8, spec_column_lines(t.columns, 0));
    assert forall|k: int| 0 <= k < t.columns.len() implies #[trigger] spec_split(
        spec_table_file(t),
        10u8,
    )[1 + k] == spec_column_body(t.columns[k]) by {
        assert(spec_split(spec_table_file(t), 10u8)[1 + k] == spec_split(
            spec_column_lines(t.columns, 0),
            10u8,
        )[k]);
    }
}

/// Splits a byte string at a delimiter; the delimiter does not appear in
/// any piece, and the pieces joined by it give the input back.
fn split_bytes(data: &[u8], delim: u8) -> (r: Vec<Vec<u8>>)
    ensures
        r@.len() >= 1,
        views_of(r@) == spec_split(data@, delim),
{
    let mut out: Vec<Vec<u8>> = Vec::new();
    let mut cur: Vec<u8> = Vec::new();
    let n = data.len();
    let mut i: usize = 0;
    proof {
        lemma_split_len(data@, delim);
        assert(data@.skip(0) =~= data@);
        assert(views_of(out@) + seq![cur@ + spec_split(data@, delim)[0]] + spec_split(
            data@,
            delim,
        ).drop_first() =~= spec_split(data@, delim));
    }
    while i < n
        invariant
            0 <= i <= n,
            n == data@.len(),
            spec_split(data@.skip(i as int), delim).len() >= 1,
            views_of(out@) + seq![cur@ + spec_split(data@.skip(i as int), delim)[0]]
                + spec_split(data@.skip(i as int), delim).drop_first() == spec_split(
                data@,
                delim,
            ),
        decreases n - i,
    {
        let b = data[i];
        let ghost tail = data@.skip(i as int);
        let ghost tail2 = data@.skip(i as int + 1);
        proof {
            lemma_split_len(tail2, delim);
            assert(tail[0] == data@[i as int]);
            assert(tail.drop_first() =~= tail2);
        }
        if b == delim {
            proof {
                assert(spec_split(tail, delim) == seq![Seq::<u8>::empty()] + spec_split(
                    tail2,
                    delim,
                ));
                assert(views_of(out@.push(cur)) =~= views_of(out@) + seq![cur@]);
                assert(cur@ + spec_split(tail, delim)[0] =~= cur@);
                assert(spec_split(tail, delim).drop_first() =~= spec_split(tail2, delim));
                assert(views_of(out@.push(cur)) + seq![Seq::<u8>::empty() + spec_split(
                    tail2,
                    delim,
                )[0]] + spec_split(tail2, delim).drop_first() =~= views_of(out@) + seq![cur@
                    + spec_split(tail, delim)[0]] + spec_split(tail, delim).drop_first());
            }
            out.push(cur);
            cur = Vec::new();
            proof {
                assert(cur@ =~= Seq::<u8>::empty());
            }
        } else {
            proof {
                let rest = spec_split(tail2, delim);
                assert(spec_split(tail, delim) == seq![seq![tail[0]] + rest[0]]
                    + rest.drop_first());
                assert(cur@.push(b) + rest[0] =~= cur@ + (seq![tail[0]] + rest[0]));
                assert((seq![seq![tail[0]] + rest[0]] + rest.drop_first()).drop_first()
                    =~= rest.drop_first());
            }
            cur.push(b);
        }
        i = i + 1;
    }
    proof {
        assert(data@.skip(n as int) =~= Seq::<u8>::empty());
        assert(spec_split(Seq::<u8>::empty(), delim) == seq![Seq::<u8>::empty()]);
        assert(cur@ + Seq::<u8>::empty() =~= cur@);
        assert(views_of(out@.push(cur)) =~= views_of(out@) + seq![cur@]);
        assert(seq![Seq::<u8>::empty()].drop_first() =~= Seq::<Seq<u8>>::empty());
        assert(views_of(out@.push(cur)) =~= spec_split(data@, delim));
    }
    out.push(cur);
    out
}

/// Parses a column type from its catalog code; the inverse of the writer
/// for every code it produces. Unknown codes are `ParseError`s.
fn parse_column_type(code: &[u8]) -> (r: CatalogResult<ColumnType>)
    ensures
        forall|t: ColumnType|
            code@ == spec_type_code_bytes(t) ==> (r matches Ok(t2) && t2 == t),
        r is Err ==> r matches Err(CatalogError::ParseError(_)),
{
    proof {
        lemma_type_codes_short();
    }
    if is_word_int8(code) {
        return Ok(ColumnType::Int8);
    }
    if is_word_int16(code) {
        return Ok(ColumnType::Int16);
    }
    if is_word_int32(code) {
        return Ok(ColumnType::Int32);
    }
    if is_word_int64(code) {
        return Ok(ColumnType::Int64);
    }
    if is_word_uint8(code) {
        return Ok(ColumnType::UInt8);
    }
    if is_word_uint16(code) {
        return Ok(ColumnType::UInt16);
    }
    if is_word_uint32(code) {
        return Ok(ColumnType::UInt32);
    }
    if is_word_uint64(code) {
        return Ok(ColumnType::UInt64);
    }
    if is_word_float32(code) {
        return Ok(ColumnType::Float32);
    }
    if is_word_float64(code) {
        return Ok(ColumnType::Float64);
    }
    if is_word_bool_code(code) {
        return Ok(ColumnType::Bool);
    }
    // A parameterized code: the base name, `(`, digits, `)`.
    let n = code.len();
    let mut open_at: usize = 0;
    let mut seen_open = false;
    let mut i: usize = 0;
    while i < n
        invariant
            0 <= i <= n,
            n == code@.len(),
            seen_open ==> open_at < i && code@[open_at as int] == 40 && forall|k: int|
                0 <= k < open_at ==> code@[k] != 40,
            !seen_open ==> forall|k: int| 0 <= k < i ==> code@[k] != 40,
        decreases n - i,
    {
        if code[i] == 40 && !seen_open {
            seen_open = true;
            open_at = i;
        }
        i = i + 1;
    }
    if !seen_open || n == 0 || code[n - 1] != 41 {
        return Err(CatalogError::ParseError("unknown column type".to_owned()));
    }
    if open_at + 1 > n - 1 {
        return Err(CatalogError::ParseError("unknown column type".to_owned()));
    }
    proof {
        lemma_param_code_parse(code@, open_at as int);
        assert forall|m: u32|
            code@ == spec_type_code_bytes(ColumnType::Varchar(m)) implies spec_parse_u64(
            code@.subrange(open_at + 1, n - 1),
        ) == Some(m as u64) by {
            crate::text::lemma_dec_digits_are_digits(m as nat);
            crate::text::lemma_dec_round_trip(m as nat);
        }
        assert forall|m: u32|
            code@ == spec_type_code_bytes(ColumnType::Blob(m)) implies spec_parse_u64(
            code@.subrange(open_at + 1, n - 1),
        ) == Some(m as u64) by {
            crate::text::lemma_dec_digits_are_digits(m as nat);
            crate::text::lemma_dec_round_trip(m as nat);
        }
    }
    let digits = vstd::slice::slice_subrange(code, open_at + 1, n - 1);
    let m64 = match parse_u64(digits) {
        Some(v) => v,
        None => {
            return Err(CatalogError::ParseError("bad type size".to_owned()));
        },
    };
    if m64 > 0xFFFF_FFFF {
        return Err(CatalogError::ParseError("bad type size".to_owned()));
    }
    let base = vstd::slice::slice_subrange(code, 0, open_at);
    proof {
        let mm = m64;
        assert(mm <= 0xFFFF_FFFF ==> (mm as u32) as u64 == mm) by (bit_vector);
    }
    if is_word_varchar(base) {
        Ok(ColumnType::Varchar(m64 as u32))
    } else if is_word_blob(base) {
        Ok(ColumnType::Blob(m64 as u32))
    } else {
        Err(CatalogError::ParseError("unknown column type".to_owned()))
    }
}

/// Every fixed type code is at most seven bytes, and each is matched only
/// by its own word; a parameterized code is at least ten bytes and its
/// first parenthesis sits right after the base name.
proof fn lemma_type_codes_short()
    ensures
        forall|t: ColumnType|
            (#[trigger] spec_type_code_bytes(t)).len() >= 10 ==> (t is Varchar || t is Blob),
        forall|m: u32|
            (#[trigger] spec_type_code_bytes(ColumnType::Varchar(m))).len() >= 10
                && spec_type_code_bytes(ColumnType::Varchar(m))[7] == 40,
        forall|m: u32|
            (#[trigger] spec_type_code_bytes(ColumnType::Blob(m))).len() >= 6
                && spec_type_code_bytes(ColumnType::Blob(m))[4] == 40,
{
    assert forall|m: u32|
        (#[trigger] spec_type_code_bytes(ColumnType::Varchar(m))).len() >= 10
            && spec_type_code_bytes(ColumnType::Varchar(m))[7] == 40 by {
        crate::text::lemma_dec_digits_are_digits(m as nat);
    }
    assert forall|m: u32|
        (#[trigger] spec_type_code_bytes(ColumnType::Blob(m))).len() >= 6
            && spec_type_code_bytes(ColumnType::Blob(m))[4] == 40 by {
        crate::text::lemma_dec_digits_are_digits(m as nat);
    }
}

/// For a code equal to a writer-produced parameterized code whose first
/// parenthesis is at `open_at`, the base, the digits and the closing
/// parenthesis decompose as the writer laid them out.
proof fn lemma_param_code_parse(code: Seq<u8>, open_at: int)
    requires
        0 <= open_at < code.len(),
        code[open_at] == 40,
        forall|k: int| 0 <= k < open_at ==> code[k] != 40,
    ensures
        forall|m: u32|
            code == spec_type_code_bytes(ColumnType::Varchar(m)) ==> open_at == 7 && code.last()
                == 41 && code.subrange(open_at + 1, code.len() - 1) == crate::text::dec_digits(
                m as nat,
            ) && code.subrange(0, open_at) =~= seq![
                86u8,
                97u8,
                114u8,
                99u8,
                104u8,
                97u8,
                114u8,
            ],
        forall|m: u32|
            code == spec_type_code_bytes(ColumnType::Blob(m)) ==> open_at == 4 && code.last()
                == 41 && code.subrange(open_at + 1, code.len() - 1) == crate::text::dec_digits(
                m as nat,
            ) && code.subrange(0, open_at) =~= seq![66u8, 108u8, 111u8, 98u8],
{
    assert forall|m: u32| code == spec_type_code_bytes(ColumnType::Varchar(m)) implies open_at
        == 7 && code.last() == 41 && code.subrange(open_at + 1, code.len() - 1)
        == crate::text::dec_digits(m as nat) && code.subrange(0, open_at) =~= seq![
        86u8,
        97u8,
        114u8,
        99u8,
        104u8,
        97u8,
        114u8,
    ] by {
        crate::text::lemma_dec_digits_are_digits(m as nat);
        let d = crate::text::dec_digits(m as nat);
        assert(code[7] == 40);
        assert(open_at == 7) by {
            if open_at < 7 {
                assert(code[open_at] != 40);
            }
        }
        assert(code.subrange(8, code.len() - 1) =~= d);
    }
    assert forall|m: u32| code == spec_type_code_bytes(ColumnType::Blob(m)) implies open_at == 4
        && code.last() == 41 && code.subrange(open_at + 1, code.len() - 1)
        == crate::text::dec_digits(m as nat) && code.subrange(0, open_at) =~= seq![
        66u8,
        108u8,
        111u8,
        98u8,
    ] by {
        crate::text::lemma_dec_digits_are_digits(m as nat);
        let d = crate::text::dec_digits(m as nat);
        assert(code[4] == 40);
        assert(open_at == 4) by {
            if open_at < 4 {
                assert(code[open_at] != 40);
            }
        }
        assert(code.subrange(5, code.len() - 1) =~= d);
    }
}

/// Whether the bytes spell out the stored word.
fn is_word_int8(code: &[u8]) -> (r: bool)
    ensures
        r == (code@ =~= seq![73u8, 110u8, 116u8, 56u8]),
{
    let r = code.len() == 4 && code[0] == 73 && code[1] == 110 && code[2] == 116 && code[3] == 56;
    proof {
        if code@.len() == 4 {
            assert(r == (code@ =~= seq![73u8, 110u8, 116u8, 56u8]));
        }
    }
    r
}

/// Whether the bytes spell out the stored word.
fn is_word_int16(code: &[u8]) -> (r: bool)
    ensures
        r == (code@ =~= seq![73u8, 110u8, 116u8, 49u8, 54u8]),
{
    let r = code.len() == 5 && code[0] == 73 && code[1] == 110 && code[2] == 116 && code[3] == 49 && code[4] == 54;
    proof {
        if code@.len() == 5 {
            assert(r == (code@ =~= seq![73u8, 110u8, 116u8, 49u8, 54u8]));
        }
    }
    r
}

/// Whether the bytes spell out the stored word.
fn is_word_int32(code: &[u8]) -> (r: bool)
    ensures
        r == (code@ =~= seq![73u8, 110u8, 116u8, 51u8, 50u8]),
{
    let r = code.len() == 5 && code[0] == 73 && code[1] == 110 && code[2] == 116 && code[3] == 51 && code[4] == 50;
    proof {
        if code@.len() == 5 {
            assert(r == (code@ =~= seq![73u8, 110u8, 116u8, 51u8, 50u8]));
        }
    }
    r
}

/// Whether the bytes spell out the stored word.
fn is_word_int64(code: &[u8]) -> (r: bool)
    ensures
        r == (code@ =~= seq![73u8, 110u8, 116u8, 54u8, 52u8]),
{
    let r = code.len() == 5 && code[0] == 73 && code[1] == 110 && code[2] == 116 && code[3] == 54 && code[4] == 52;
    proof {
        if code@.len() == 5 {
            assert(r == (code@ =~= seq![73u8, 110u8, 116u8, 54u8, 52u8]));
        }
    }
    r
}

/// Whether the bytes spell out the stored word.
fn is_word_uint8(code: &[u8]) -> (r: bool)
    ensures
        r == (code@ =~= seq![85u8, 73u8, 110u8, 116u8, 56u8]),
{
    let r = code.len() == 5 && code[0] == 85 && code[1] == 73 && code[2] == 110 && code[3] == 116 && code[4] == 56;
    proof {
        if code@.len() == 5 {
            assert(r == (code@ =~= seq![85u8, 73u8, 110u8, 116u8, 56u8]));
        }
    }
    r
}

/// Whether the bytes spell out the stored word.
fn is_word_uint16(code: &[u8]) -> (r: bool)
    ensures
        r == (code@ =~= seq![85u8, 73u8, 110u8, 116u8, 49u8, 54u8]),
{
    let r = code.len() == 6 && code[0] == 85 && code[1] == 73 && code[2] == 110 && code[3] == 116 && code[4] == 49 && code[5] == 54;
    proof {
        if code@.len() == 6 {
            assert(r == (code@ =~= seq![85u8, 73u8, 110u8, 116u8, 49u8, 54u8]));
        }
    }
    r
}

/// Whether the bytes spell out the stored word.
fn is_word_uint32(code: &[u8]) -> (r: bool)
    ensures
        r == (code@ =~= seq![85u8, 73u8, 110u8, 116u8, 51u8, 50u8]),
{
    let r = code.len() == 6 && code[0] == 85 && code[1] == 73 && code[2] == 110 && code[3] == 116 && code[4] == 51 && code[5] == 50;
    proof {
        if code@.len() == 6 {
            assert(r == (code@ =~= seq![85u8, 73u8, 110u8, 116u8, 51u8, 50u8]));
        }
    }
    r
}

/// Whether the bytes spell out the stored word.
fn is_word_uint64(code: &[u8]) -> (r: bool)
    ensures
        r == (code@ =~= seq![85u8, 73u8, 110u8, 116u8, 54u8, 52u8]),
{
    let r = code.len() == 6 && code[0] == 85 && code[1] == 73 && code[2] == 110 && code[3] == 116 && code[4] == 54 && code[5] == 52;
    proof {
        if code@.len() == 6 {
            assert(r == (code@ =~= seq![85u8, 73u8, 110u8, 116u8, 54u8, 52u8]));
        }
    }
    r
}

/// Whether the bytes spell out the stored word.
fn is_word_float32(code: &[u8]) -> (r: bool)
    ensures
        r == (code@ =~= seq![70u8, 108u8, 111u8, 97u8, 116u8, 51u8, 50u8]),
{
    let r = code.len() == 7 && code[0] == 70 && code[1] == 108 && code[2] == 111 && code[3] == 97 && code[4] == 116 && code[5] == 51 && code[6] == 50;
    proof {
        if code@.len() == 7 {
            assert(r == (code@ =~= seq![70u8, 108u8, 111u8, 97u8, 116u8, 51u8, 50u8]));
        }
    }
    r
}

/// Whether the bytes spell out the stored word.
fn is_word_float64(code: &[u8]) -> (r: bool)
    ensures
        r == (code@ =~= seq![70u8, 108u8, 111u8, 97u8, 116u8, 54u8, 52u8]),
{
    let r = code.len() == 7 && code[0] == 70 && code[1] == 108 && code[2] == 111 && code[3] == 97 && code[4] == 116 && code[5] == 54 && code[6] == 52;
    proof {
        if code@.len() == 7 {
            assert(r == (code@ =~= seq![70u8, 108u8, 111u8, 97u8, 116u8, 54u8, 52u8]));
        }
    }
    r
}

/// Whether the bytes spell out the stored word.
fn is_word_bool_code(code: &[u8]) -> (r: bool)
    ensures
        r == (code@ =~= seq![66u8, 111u8, 111u8, 108u8]),
{
    let r = code.len() == 4 && code[0] == 66 && code[1] == 111 && code[2] == 111 && code[3] == 108;
    proof {
        if code@.len() == 4 {
            assert(r == (code@ =~= seq![66u8, 111u8, 111u8, 108u8]));
        }
    }
    r
}

/// Whether the bytes spell out the stored word.
fn is_word_varchar(code: &[u8]) -> (r: bool)
    ensures
        r == (code@ =~= seq![86u8, 97u8, 114u8, 99u8, 104u8, 97u8, 114u8]),
{
    let r = code.len() == 7 && code[0] == 86 && code[1] == 97 && code[2] == 114 && code[3] == 99 && code[4] == 104 && code[5] == 97 && code[6] == 114;
    proof {
        if code@.len() == 7 {
            assert(r == (code@ =~= seq![86u8, 97u8, 114u8, 99u8, 104u8, 97u8, 114u8]));
        }
    }
    r
}

/// Whether the bytes spell out the stored word.
fn is_word_blob(code: &[u8]) -> (r: bool)
    ensures
        r == (code@ =~= seq![66u8, 108u8, 111u8, 98u8]),
{
    let r = code.len() == 4 && code[0] == 66 && code[1] == 108 && code[2] == 111 && code[3] == 98;
    proof {
        if code@.len() == 4 {
            assert(r == (code@ =~= seq![66u8, 108u8, 111u8, 98u8]));
        }
    }
    r
}

/// Whether the bytes spell out the stored word.
fn is_word_system(code: &[u8]) -> (r: bool)
    ensures
        r == (code@ =~= seq![83u8, 121u8, 115u8, 116u8, 101u8, 109u8]),
{
    let r = code.len() == 6 && code[0] == 83 && code[1] == 121 && code[2] == 115 && code[3] == 116 && code[4] == 101 && code[5] == 109;
    proof {
        if code@.len() == 6 {
            assert(r == (code@ =~= seq![83u8, 121u8, 115u8, 116u8, 101u8, 109u8]));
        }
    }
    r
}

/// Whether the bytes spell out the stored word.
fn is_word_temporary(code: &[u8]) -> (r: bool)
    ensures
        r == (code@ =~= seq![84u8, 101u8, 109u8, 112u8, 111u8, 114u8, 97u8, 114u8, 121u8]),
{
    let r = code.len() == 9 && code[0] == 84 && code[1] == 101 && code[2] == 109 && code[3] == 112 && code[4] == 111 && code[5] == 114 && code[6] == 97 && code[7] == 114 && code[8] == 121;
    proof {
        if code@.len() == 9 {
            assert(r == (code@ =~= seq![84u8, 101u8, 109u8, 112u8, 111u8, 114u8, 97u8, 114u8, 121u8]));
        }
    }
    r
}

/// Whether the bytes spell out the stored word.
fn is_word_column(code: &[u8]) -> (r: bool)
    ensures
        r == (code@ =~= seq![67u8, 79u8, 76u8, 85u8, 77u8, 78u8]),
{
    let r = code.len() == 6 && code[0] == 67 && code[1] == 79 && code[2] == 76 && code[3] == 85 && code[4] == 77 && code[5] == 78;
    proof {
        if code@.len() == 6 {
            assert(r == (code@ =~= seq![67u8, 79u8, 76u8, 85u8, 77u8, 78u8]));
        }
    }
    r
}

/// Whether the bytes spell out the stored word.
fn is_word_true_word(code: &[u8]) -> (r: bool)
    ensures
        r == (code@ =~= seq![116u8, 114u8, 117u8, 101u8]),
{
    let r = code.len() == 4 && code[0] == 116 && code[1] == 114 && code[2] == 117 && code[3] == 101;
    proof {
        if code@.len() == 4 {
            assert(r == (code@ =~= seq![116u8, 114u8, 117u8, 101u8]));
        }
    }
    r
}

/// Whether a catalog file's header line has seven fields whose numeric
/// fields parse as numbers and whose name field is valid UTF-8.
#[verifier::opaque]
pub open spec fn catalog_header_ok(data: Seq<u8>) -> bool {
    let hdr = spec_split(spec_split(data, 10u8)[0], 124u8);
    &&& hdr.len() == 7
    &&& spec_parse_u64(hdr[0]) is Some
    &&& valid_utf8(hdr[1])
    &&& spec_parse_u64(hdr[2]) is Some
    &&& spec_parse_u64(hdr[4]) is Some
    &&& spec_parse_u64(hdr[5]) is Some
    &&& spec_parse_u64(hdr[6]) is Some
}

/// Whether a file is the encoding of a clean table model whose identifier
/// leaves room for the allocation counter.
pub open spec fn file_is_clean_table(data: Seq<u8>) -> bool {
    exists|t: TableModel|
        data == #[trigger] spec_table_file(t) && table_model_clean(t) && t.table_id < u64::MAX
}

/// Whether no two clean table files collide on a name or an identifier.
pub open spec fn files_tables_distinct(files: Seq<MemFile>) -> bool {
    forall|j: int, k: int, t: TableModel, u: TableModel|
        #![trigger files[j].data@, spec_table_file(t), files[k].data@, spec_table_file(u)]
        0 <= j < k < files.len() && files[j].data@ == spec_table_file(t) && table_model_clean(t)
            && files[k].data@ == spec_table_file(u) && table_model_clean(u) ==> t.table_name
            != u.table_name && t.table_id != u.table_id
}

/// The identifier the counter reaches after registering a run of tables:
/// one past the largest registered identifier, and 1 for none.
pub open spec fn spec_next_id(ts: Seq<Table>) -> int
    decreases ts.len(),
{
    if ts.len() == 0 {
        1
    } else {
        let rest = spec_next_id(ts.drop_last());
        if ts.last().table_id + 1 > rest {
            ts.last().table_id + 1
        } else {
            rest
        }
    }
}

/// The counter after one more registration takes the larger of the old
/// counter and one past the new identifier.
proof fn lemma_next_id_push(ts: Seq<Table>, t: Table)
    ensures
        spec_next_id(ts.push(t)) == (if t.table_id + 1 > spec_next_id(ts) {
            t.table_id + 1
        } else {
            spec_next_id(ts)
        }),
{
    assert(ts.push(t).drop_last() =~= ts);
    assert(ts.push(t).last() == t);
}

/// Formatting a number and parsing the digits returns the number.
proof fn lemma_parse_dec(v: u64)
    ensures
        spec_parse_u64(dec_digits(v as nat)) == Some(v),
{
    crate::text::lemma_dec_digits_are_digits(v as nat);
    crate::text::lemma_dec_round_trip(v as nat);
}

/// Everything a reader of a clean model's file finds: the line and field
/// decomposition, and that every numeric field and name reads back.
proof fn lemma_parse_pieces(t: TableModel, data: Seq<u8>)
    requires
        data == spec_table_file(t),
        table_model_clean(t),
    ensures
        spec_split(data, 10u8).len() == t.columns.len() + 2,
        spec_split(spec_split(data, 10u8)[0], 124u8) == seq![
            dec_digits(t.table_id as nat),
            encode_utf8(t.table_name),
            dec_digits(t.segment_id as nat),
            spec_type_name_bytes(t.table_type),
            dec_digits(t.row_count as nat),
            dec_digits(t.column_count as nat),
            dec_digits(t.created_at as nat),
        ],
        forall|k: int|
            0 <= k < t.columns.len() ==> spec_split(#[trigger] spec_split(data, 10u8)[1 + k], 124u8)
                == seq![
                seq![67u8, 79u8, 76u8, 85u8, 77u8, 78u8],
                encode_utf8(t.columns[k].name),
                spec_type_code_bytes(t.columns[k].column_type),
                spec_bool_word(t.columns[k].nullable),
                dec_digits(t.columns[k].ordinal as nat),
            ],
        spec_split(data, 10u8)[t.columns.len() as int + 1] == Seq::<u8>::empty(),
        spec_parse_u64(dec_digits(t.table_id as nat)) == Some(t.table_id),
        spec_parse_u64(dec_digits(t.segment_id as nat)) == Some(t.segment_id),
        spec_parse_u64(dec_digits(t.row_count as nat)) == Some(t.row_count),
        spec_parse_u64(dec_digits(t.column_count as nat)) == Some(t.column_count as u64),
        spec_parse_u64(dec_digits(t.created_at as nat)) == Some(t.created_at),
        valid_utf8(encode_utf8(t.table_name)),
        decode_utf8(encode_utf8(t.table_name)) == t.table_name,
        spec_type_name_bytes(TableType::User) == seq![85u8, 115u8, 101u8, 114u8],
        spec_type_name_bytes(TableType::System) == seq![83u8, 121u8, 115u8, 116u8, 101u8, 109u8],
        spec_type_name_bytes(TableType::Temporary) == seq![
            84u8,
            101u8,
            109u8,
            112u8,
            111u8,
            114u8,
            97u8,
            114u8,
            121u8,
        ],
        forall|k: int|
            0 <= k < t.columns.len() ==> valid_utf8(
                encode_utf8((#[trigger] t.columns[k]).name),
            ) && decode_utf8(encode_utf8(t.columns[k].name)) == t.columns[k].name
                && spec_parse_u64(dec_digits(t.columns[k].ordinal as nat)) == Some(
                t.columns[k].ordinal as u64,
            ),
{
    lemma_table_file_split(t);
    lemma_header_line_split(t);
    assert forall|k: int| 0 <= k < t.columns.len() implies spec_split(
        #[trigger] spec_split(data, 10u8)[1 + k],
        124u8,
    ) == seq![
        seq![67u8, 79u8, 76u8, 85u8, 77u8, 78u8],
        encode_utf8(t.columns[k].name),
        spec_type_code_bytes(t.columns[k].column_type),
        spec_bool_word(t.columns[k].nullable),
        dec_digits(t.columns[k].ordinal as nat),
    ] by {
        lemma_column_body_split(t.columns[k]);
    }
    lemma_parse_dec(t.table_id);
    lemma_parse_dec(t.segment_id);
    lemma_parse_dec(t.row_count);
    lemma_parse_dec(t.column_count as u64);
    lemma_parse_dec(t.created_at);
    vstd::utf8::encode_utf8_valid_utf8(t.table_name);
    vstd::utf8::encode_utf8_decode_utf8(t.table_name);
    lemma_type_name_facts();
    assert forall|k: int| 0 <= k < t.columns.len() implies valid_utf8(
        encode_utf8((#[trigger] t.columns[k]).name),
    ) && decode_utf8(encode_utf8(t.columns[k].name)) == t.columns[k].name && spec_parse_u64(
        dec_digits(t.columns[k].ordinal as nat),
    ) == Some(t.columns[k].ordinal as u64) by {
        vstd::utf8::encode_utf8_valid_utf8(t.columns[k].name);
        vstd::utf8::encode_utf8_decode_utf8(t.columns[k].name);
        lemma_parse_dec(t.columns[k].ordinal as u64);
    }
}

/// Parses a table's catalog file: the inverse of the writer on every file
/// written from a clean model. A malformed field is a `ParseError`.
#[verifier::rlimit(100)]
#[verifier::spinoff_prover]
fn parse_table_file(data: &[u8]) -> (r: CatalogResult<Table>)
    ensures
        r matches Ok(t) ==> t.columns@.len() <= u32::MAX && t.column_count == t.columns@.len(),
        r is Ok ==> catalog_header_ok(data@),
        r is Err ==> r matches Err(CatalogError::ParseError(_)),
        forall|t: TableModel|
            data@ == #[trigger] spec_table_file(t) && table_model_clean(t) ==> (r matches Ok(tb)
                && tb@ == t),
{
    let lines = split_bytes(data, 10);
    let header = &lines[0];
    let parts = split_bytes(header.as_slice(), 124);
    let ghost enc = exists|t: TableModel|
        data@ == #[trigger] spec_table_file(t) && table_model_clean(t);
    let ghost wt: TableModel = if enc {
        choose|t: TableModel| data@ == #[trigger] spec_table_file(t) && table_model_clean(t)
    } else {
        arbitrary()
    };
    proof {
        assert(header@ == views_of(lines@)[0]);
        assert(forall|k: int|
            0 <= k < parts@.len() ==> #[trigger] views_of(parts@)[k] == parts@[k]@);
        if enc {
            lemma_parse_pieces(wt, data@);
            assert(views_of(parts@) == spec_split(spec_split(data@, 10u8)[0], 124u8));
            assert(views_of(parts@).len() == parts@.len());
            assert(parts@.len() == 7);
        }
    }
    if parts.len() != 7 {
        return Err(CatalogError::ParseError("bad table header".to_owned()));
    }
    let table_id = match parse_u64(parts[0].as_slice()) {
        Some(v) => v,
        None => {
            proof {
                if enc {
                    lemma_parse_pieces(wt, data@);
                }
            }
            return Err(CatalogError::ParseError("bad table id".to_owned()));
        },
    };
    let name_bytes = vstd::slice::slice_to_vec(parts[1].as_slice());
    let table_name = match crate::text::string_from_utf8(name_bytes) {
        Some(s) => s,
        None => {
            proof {
                if enc {
                    lemma_parse_pieces(wt, data@);
                }
            }
            return Err(CatalogError::ParseError("bad table name".to_owned()));
        },
    };
    let segment_id = match parse_u64(parts[2].as_slice()) {
        Some(v) => v,
        None => {
            proof {
                if enc {
                    lemma_parse_pieces(wt, data@);
                }
            }
            return Err(CatalogError::ParseError("bad segment id".to_owned()));
        },
    };
    let table_type = if is_word_system(parts[3].as_slice()) {
        TableType::System
    } else if is_word_temporary(parts[3].as_slice()) {
        TableType::Temporary
    } else {
        TableType::User
    };
    let row_count = match parse_u64(parts[4].as_slice()) {
        Some(v) => v,
        None => {
            proof {
                if enc {
                    lemma_parse_pieces(wt, data@);
                }
            }
            return Err(CatalogError::ParseError("bad row count".to_owned()));
        },
    };
    // The declared column count is validated for shape but the column lines
    // themselves are authoritative.
    match parse_u64(parts[5].as_slice()) {
        Some(_) => {},
        None => {
            proof {
                if enc {
                    lemma_parse_pieces(wt, data@);
                }
            }
            return Err(CatalogError::ParseError("bad column count".to_owned()));
        },
    };
    let created_at = match parse_u64(parts[6].as_slice()) {
        Some(v) => v,
        None => {
            proof {
                if enc {
                    lemma_parse_pieces(wt, data@);
                }
            }
            return Err(CatalogError::ParseError("bad creation time".to_owned()));
        },
    };
    proof {
        assert(header@ == spec_split(data@, 10u8)[0]);
        assert(views_of(parts@) == spec_split(header@, 124u8));
        assert(catalog_header_ok(data@)) by {
            reveal(catalog_header_ok);
        }
    }
    let mut columns: Vec<Column> = Vec::new();
    let nlines = lines.len();
    let mut li: usize = 1;
    while li < nlines
        invariant
            1 <= li <= nlines,
            nlines == lines@.len(),
            columns@.len() < li,
            views_of(lines@) == spec_split(data@, 10u8),
            catalog_header_ok(data@),
            enc ==> data@ == spec_table_file(wt) && table_model_clean(wt),
            forall|t: TableModel|
                data@ == #[trigger] spec_table_file(t) && table_model_clean(t) ==> enc,
            forall|t: TableModel|
                data@ == #[trigger] spec_table_file(t) && table_model_clean(t) ==> {
                    &&& columns@.len() == (if li as int - 1 <= t.columns.len() {
                        li as int - 1
                    } else {
                        t.columns.len() as int
                    })
                    &&& forall|k: int|
                        0 <= k < columns@.len() ==> (#[trigger] columns@[k])@ == t.columns[k]
                },
        decreases nlines - li,
    {
        let ghost pre_cols = columns@;
        let line = &lines[li];
        let cparts = split_bytes(line.as_slice(), 124);
        proof {
            assert(line@ == views_of(lines@)[li as int]);
            assert(forall|k: int|
                0 <= k < cparts@.len() ==> #[trigger] views_of(cparts@)[k] == cparts@[k]@);
        }
        if cparts.len() == 5 && is_word_column(cparts[0].as_slice()) {
            proof {
                assert forall|t: TableModel|
                    data@ == #[trigger] spec_table_file(t) && table_model_clean(t) implies li
                    as int - 1 < t.columns.len() by {
                    if li as int - 1 >= t.columns.len() {
                        lemma_parse_pieces(t, data@);
                        assert(line@ == spec_split(data@, 10u8)[t.columns.len() as int + 1]);
                        assert(line@ =~= Seq::<u8>::empty());
                        assert(spec_split(Seq::<u8>::empty(), 124u8) =~= seq![
                            Seq::<u8>::empty(),
                        ]);
                        assert(views_of(cparts@).len() == 1);
                    }
                }
            }
            let cname_bytes = vstd::slice::slice_to_vec(cparts[1].as_slice());
            let cname = match crate::text::string_from_utf8(cname_bytes) {
                Some(s) => s,
                None => {
                    proof {
                        if enc {
                            lemma_parse_pieces(wt, data@);
                            assert(li as int - 1 < wt.columns.len());
                            assert(line@ == spec_split(data@, 10u8)[1 + (li as int - 1)]);
                            assert(views_of(cparts@) == spec_split(
                                spec_split(data@, 10u8)[1 + (li as int - 1)],
                                124u8,
                            ));
                            assert(cparts@[1]@ == encode_utf8(
                                wt.columns[li as int - 1].name,
                            ));
                            assert(cparts@[2]@ == spec_type_code_bytes(
                                wt.columns[li as int - 1].column_type,
                            ));
                            assert(cparts@[4]@ == dec_digits(
                                wt.columns[li as int - 1].ordinal as nat,
                            ));
                        }
                    }
                    return Err(CatalogError::ParseError("bad column name".to_owned()));
                },
            };
            let ctype = match parse_column_type(cparts[2].as_slice()) {
                Ok(t) => t,
                Err(e) => {
                    proof {
                        if enc {
                            lemma_parse_pieces(wt, data@);
                            assert(li as int - 1 < wt.columns.len());
                            assert(line@ == spec_split(data@, 10u8)[1 + (li as int - 1)]);
                            assert(views_of(cparts@) == spec_split(
                                spec_split(data@, 10u8)[1 + (li as int - 1)],
                                124u8,
                            ));
                            assert(cparts@[1]@ == encode_utf8(
                                wt.columns[li as int - 1].name,
                            ));
                            assert(cparts@[2]@ == spec_type_code_bytes(
                                wt.columns[li as int - 1].column_type,
                            ));
                            assert(cparts@[4]@ == dec_digits(
                                wt.columns[li as int - 1].ordinal as nat,
                            ));
                        }
                    }
                    return Err(e);
                },
            };
            let nullable = is_word_true_word(cparts[3].as_slice());
            let ordinal64 = match parse_u64(cparts[4].as_slice()) {
                Some(v) => v,
                None => {
                    proof {
                        if enc {
                            lemma_parse_pieces(wt, data@);
                            assert(li as int - 1 < wt.columns.len());
                            assert(line@ == spec_split(data@, 10u8)[1 + (li as int - 1)]);
                            assert(views_of(cparts@) == spec_split(
                                spec_split(data@, 10u8)[1 + (li as int - 1)],
                                124u8,
                            ));
                            assert(cparts@[1]@ == encode_utf8(
                                wt.columns[li as int - 1].name,
                            ));
                            assert(cparts@[2]@ == spec_type_code_bytes(
                                wt.columns[li as int - 1].column_type,
                            ));
                            assert(cparts@[4]@ == dec_digits(
                                wt.columns[li as int - 1].ordinal as nat,
                            ));
                        }
                    }
                    return Err(CatalogError::ParseError("bad ordinal".to_owned()));
                },
            };
            if ordinal64 > u32::MAX as u64 {
                proof {
                    if enc {
                        lemma_parse_pieces(wt, data@);
                        assert(li as int - 1 < wt.columns.len());
                        assert(line@ == spec_split(data@, 10u8)[1 + (li as int - 1)]);
                        assert(views_of(cparts@) == spec_split(
                            spec_split(data@, 10u8)[1 + (li as int - 1)],
                            124u8,
                        ));
                        assert(cparts@[4]@ == dec_digits(
                            wt.columns[li as int - 1].ordinal as nat,
                        ));
                    }
                }
                return Err(CatalogError::ParseError("bad ordinal".to_owned()));
            }
            columns.push(Column::new(cname, ctype, nullable, ordinal64 as u32));
            proof {
                assert forall|t: TableModel|
                    data@ == #[trigger] spec_table_file(t) && table_model_clean(t) implies {
                    &&& columns@.len() == (if li as int <= t.columns.len() {
                        li as int
                    } else {
                        t.columns.len() as int
                    })
                    &&& forall|k: int|
                        0 <= k < columns@.len() ==> (#[trigger] columns@[k])@ == t.columns[k]
                } by {
                    lemma_parse_pieces(t, data@);
                    vstd::utf8::encode_utf8_decode_utf8(cname@);
                    let ci = li as int - 1;
                    assert(line@ == spec_split(data@, 10u8)[1 + ci]);
                    assert(views_of(cparts@) == spec_split(
                        spec_split(data@, 10u8)[1 + ci],
                        124u8,
                    ));
                    assert(encode_utf8(cname@) == encode_utf8(t.columns[ci].name));
                    assert(cname@ == t.columns[ci].name);
                    assert(ctype == t.columns[ci].column_type);
                    assert(nullable == t.columns[ci].nullable);
                    assert(ordinal64 == t.columns[ci].ordinal as u64);
                    assert(columns@[ci]@ == t.columns[ci]);
                    assert forall|k: int| 0 <= k < columns@.len() implies (
                    #[trigger] columns@[k])@ == t.columns[k] by {
                        if k < ci {
                            assert(columns@[k] == pre_cols[k]);
                        }
                    }
                }
            }
        } else {
            proof {
                assert forall|t: TableModel|
                    data@ == #[trigger] spec_table_file(t) && table_model_clean(t) implies li
                    as int - 1 >= t.columns.len() by {
                    if li as int - 1 < t.columns.len() {
                        lemma_parse_pieces(t, data@);
                        assert(line@ == spec_split(data@, 10u8)[1 + (li as int - 1)]);
                        assert(views_of(cparts@) == spec_split(
                            spec_split(data@, 10u8)[1 + (li as int - 1)],
                            124u8,
                        ));
                        assert(views_of(cparts@).len() == cparts@.len());
                        assert(cparts@.len() == 5);
                        assert(cparts@[0]@ == seq![67u8, 79u8, 76u8, 85u8, 77u8, 78u8]);
                    }
                }
            }
        }
        li = li + 1;
    }
    if columns.len() > 0xFFFF_FFFFusize {
        proof {
            if enc {
                lemma_parse_pieces(wt, data@);
            }
        }
        return Err(CatalogError::ParseError("too many columns".to_owned()));
    }
    let ghost cols_v = columns@;
    let mut table = Table::with_type(table_id, table_name, segment_id, table_type);
    table.set_columns(columns);
    table.row_count = row_count;
    table.created_at = created_at;
    proof {
        assert forall|t: TableModel|
            data@ == #[trigger] spec_table_file(t) && table_model_clean(t) implies table@ == t by {
            lemma_parse_pieces(t, data@);
            assert(table_id == t.table_id);
            vstd::utf8::encode_utf8_decode_utf8(table@.table_name);
            assert(encode_utf8(table@.table_name) == encode_utf8(t.table_name));
            assert(table@.table_name == t.table_name);
            assert(segment_id == t.segment_id);
            assert(table_type == t.table_type);
            assert(row_count == t.row_count);
            assert(created_at == t.created_at);
            assert(cols_v.len() == t.columns.len());
            assert(columns_view(cols_v) =~= t.columns);
            assert(table@.column_count == t.column_count);
        }
    }
    Ok(table)
}

/// Persistent table catalog: the in-memory table index and the system
/// directory of table files it is persisted in.
pub struct Catalog {
    data_dir: String,
    tables: Vec<Table>,
    system: MemFs,
    next_table_id: u64,
}

impl Catalog {
    /// The registered tables, in registration order.
    pub closed spec fn spec_tables(self) -> Seq<Table> {
        self.tables@
    }

    /// The system directory holding one file per table.
    pub closed spec fn spec_system(self) -> MemFs {
        self.system
    }

    /// The next identifier `create_table` will assign.
    pub closed spec fn spec_next_table_id(self) -> u64 {
        self.next_table_id
    }

    /// Catalog invariant: table names and identifiers are unique, every
    /// identifier is below the allocation counter, and the file store is
    /// well formed.
    pub open spec fn wf(self) -> bool {
        &&& tables_wf(self.spec_tables())
        &&& forall|i: int|
            0 <= i < self.spec_tables().len() ==> (#[trigger] self.spec_tables()[i]).table_id
                < self.spec_next_table_id()
        &&& self.spec_system().wf()
    }

    /// Creates an empty catalog for a data directory.
    pub fn new(data_dir: &str) -> (r: CatalogResult<Catalog>)
        ensures
            r matches Ok(c) ==> {
                &&& c.wf()
                &&& c.spec_tables().len() == 0
                &&& c.spec_next_table_id() == 1
            },
    {
        Ok(Catalog {
            data_dir: data_dir.to_owned(),
            tables: Vec::new(),
            system: MemFs::new(),
            next_table_id: 1,
        })
    }

    /// Loads a catalog from a system directory: every file is parsed and
    /// registered, and the identifier counter is set past the largest
    /// registered identifier. A file that does not parse aborts the load
    /// with its error.
    pub fn load(system: MemFs) -> (r: CatalogResult<Catalog>)
        requires
            system.wf(),
        ensures
            r matches Ok(c) ==> {
                &&& c.wf()
                &&& c.spec_system() == system
                &&& c.spec_tables().len() <= system.spec_files().len()
                &&& c.spec_next_table_id() == spec_next_id(c.spec_tables())
                &&& forall|j: int|
                    0 <= j < system.spec_files().len() ==> catalog_header_ok(
                        (#[trigger] system.spec_files()[j]).data@,
                    )
                &&& forall|j: int, t: TableModel|
                    0 <= j < system.spec_files().len() && (#[trigger] system.spec_files()[
                        j
                    ]).data@ == #[trigger] spec_table_file(t) && table_model_clean(t) ==> exists|k: int|
                        0 <= k < c.spec_tables().len() && (#[trigger] c.spec_tables()[k])@ == t
            },
            r is Err ==> (r matches Err(CatalogError::ParseError(_)) || r matches Err(
                CatalogError::TableAlreadyExists(_),
            )),
            (forall|j: int|
                0 <= j < system.spec_files().len() ==> file_is_clean_table(
                    (#[trigger] system.spec_files()[j]).data@,
                )) && files_tables_distinct(system.spec_files()) ==> r is Ok,
            (forall|j: int|
                0 <= j < system.spec_files().len() ==> (file_is_clean_table(
                    (#[trigger] system.spec_files()[j]).data@,
                ) || !catalog_header_ok(system.spec_files()[j].data@))) && files_tables_distinct(
                system.spec_files(),
            ) && (exists|j: int|
                0 <= j < system.spec_files().len() && !catalog_header_ok(
                    (#[trigger] system.spec_files()[j]).data@,
                )) ==> r matches Err(CatalogError::ParseError(_)),
    {
        let mut catalog = Catalog {
            data_dir: ".".to_owned(),
            tables: Vec::new(),
            system: MemFs::new(),
            next_table_id: 1,
        };
        let n = system.file_count();
        let mut i: usize = 0;
        while i < n
            invariant
                0 <= i <= n,
                system.wf(),
                n == system.spec_files().len(),
                catalog.wf(),
                catalog.spec_tables().len() <= i,
                catalog.spec_next_table_id() == spec_next_id(catalog.spec_tables()),
                forall|j: int|
                    0 <= j < i ==> catalog_header_ok((#[trigger] system.spec_files()[j]).data@),
                files_tables_distinct(system.spec_files()) && (forall|j: int|
                    0 <= j < i ==> file_is_clean_table(
                        (#[trigger] system.spec_files()[j]).data@,
                    )) ==> {
                    &&& catalog.spec_tables().len() == i
                    &&& forall|k: int|
                        0 <= k < i ==> ((#[trigger] system.spec_files()[k]).data@
                            == spec_table_file(catalog.spec_tables()[k]@) && table_model_clean(
                            catalog.spec_tables()[k]@,
                        ))
                },
                forall|j: int, t: TableModel|
                    0 <= j < i && (#[trigger] system.spec_files()[j]).data@
                        == #[trigger] spec_table_file(t) && table_model_clean(t) ==> exists|k: int|
                        0 <= k < catalog.spec_tables().len() && (
                        #[trigger] catalog.spec_tables()[k])@ == t,
            decreases n - i,
        {
            let ghost pre_tables = catalog.spec_tables();
            let ghost pre_next = catalog.spec_next_table_id();
            let data = system.file_data_at(i);
            let ghost distinct = files_tables_distinct(system.spec_files());
            let ghost prefix_clean = forall|j: int|
                0 <= j <= i ==> file_is_clean_table((#[trigger] system.spec_files()[j]).data@);
            match parse_table_file(data.as_slice()) {
                Ok(table) => {
                    let ghost tb_v = table@;
                    proof {
                        if distinct && prefix_clean {
                            let wt = choose|t: TableModel|
                                data@ == #[trigger] spec_table_file(t) && table_model_clean(t)
                                    && t.table_id < u64::MAX;
                            assert(tb_v == wt);
                            assert(tb_v.table_id < u64::MAX);
                            assert(pre_tables.len() == i);
                            assert forall|k: int|
                                0 <= k < pre_tables.len() implies (#[trigger] pre_tables[
                                k
                            ]).table_name@ != table.table_name@ && pre_tables[k].table_id
                                != table.table_id by {
                                assert(system.spec_files()[k].data@ == spec_table_file(
                                    pre_tables[k]@,
                                ));
                                assert(data@ == spec_table_file(tb_v));
                                assert(pre_tables[k]@.table_name != tb_v.table_name
                                    && pre_tables[k]@.table_id != tb_v.table_id);
                            }
                            assert(!has_table_name(pre_tables, table.table_name@));
                            assert(!has_table_id(pre_tables, table.table_id));
                        }
                    }
                    match catalog.add_to_cache(table) {
                        Ok(()) => {},
                        Err(e) => {
                            proof {
                                if distinct && prefix_clean {
                                    assert(false);
                                }
                            }
                            return Err(e);
                        },
                    }
                    proof {
                        lemma_next_id_push(pre_tables, catalog.spec_tables().last());
                        assert(catalog.spec_tables() =~= pre_tables.push(
                            catalog.spec_tables().last(),
                        ));
                    }
                    proof {
                        assert forall|j: int, t: TableModel|
                            0 <= j < i + 1 && (#[trigger] system.spec_files()[j]).data@
                                == #[trigger] spec_table_file(t) && table_model_clean(t) implies exists|
                            k: int,
                        |
                            0 <= k < catalog.spec_tables().len() && (
                            #[trigger] catalog.spec_tables()[k])@ == t by {
                            if j == i {
                                assert(tb_v == t);
                                assert(catalog.spec_tables()[pre_tables.len() as int]@ == t);
                            } else {
                                let k = choose|k: int|
                                    0 <= k < pre_tables.len() && (#[trigger] pre_tables[k])@
                                        == t;
                                assert(catalog.spec_tables()[k]@ == t);
                            }
                        }
                    }
                },
                Err(e) => {
                    proof {
                        if prefix_clean {
                            let wt = choose|t: TableModel|
                                data@ == #[trigger] spec_table_file(t) && table_model_clean(t)
                                    && t.table_id < u64::MAX;
                            assert(data@ == spec_table_file(wt));
                            assert(false);
                        }
                    }
                    return Err(e);
                },
            }
            i = i + 1;
        }
        catalog.system = system;
        Ok(catalog)
    }

    /// Reloads this catalog from its own persisted files, as a process
    /// restart would.
    pub fn reload(&self) -> (r: CatalogResult<Catalog>)
        requires
            self.wf(),
        ensures
            r matches Ok(c) ==> {
                &&& c.wf()
                &&& c.spec_next_table_id() == spec_next_id(c.spec_tables())
                &&& forall|j: int, t: TableModel|
                    0 <= j < self.spec_system().spec_files().len() && (
                    #[trigger] self.spec_system().spec_files()[j]).data@
                        == #[trigger] spec_table_file(t) && table_model_clean(t) ==> exists|k: int|
                        0 <= k < c.spec_tables().len() && (#[trigger] c.spec_tables()[k])@ == t
            },
            r is Err ==> (r matches Err(CatalogError::ParseError(_)) || r matches Err(
                CatalogError::TableAlreadyExists(_),
            )),
            (forall|j: int|
                0 <= j < self.spec_system().spec_files().len() ==> file_is_clean_table(
                    (#[trigger] self.spec_system().spec_files()[j]).data@,
                )) && files_tables_distinct(self.spec_system().spec_files()) ==> r is Ok,
    {
        let copy = self.system.clone_fs();
        proof {
            assert forall|i: int, j: int| 0 <= i < j < copy.spec_files().len() implies (
            #[trigger] copy.spec_files()[i]).name@ != (#[trigger] copy.spec_files()[j]).name@ by {
                assert(self.spec_system().spec_files()[i].name@ != self.spec_system().spec_files()[
                    j
                ].name@);
            }
        }
        proof {
            if (forall|j: int|
                0 <= j < self.spec_system().spec_files().len() ==> file_is_clean_table(
                    (#[trigger] self.spec_system().spec_files()[j]).data@,
                )) && files_tables_distinct(self.spec_system().spec_files()) {
                assert forall|j: int|
                    0 <= j < copy.spec_files().len() implies file_is_clean_table(
                    (#[trigger] copy.spec_files()[j]).data@,
                ) by {
                    assert(copy.spec_files()[j].data@ == self.spec_system().spec_files()[
                        j
                    ].data@);
                }
                assert forall|j: int, k: int, t: TableModel, u: TableModel|
                    #![trigger copy.spec_files()[j].data@, spec_table_file(t), copy.spec_files()[k].data@, spec_table_file(u)]
                    0 <= j < k < copy.spec_files().len() && copy.spec_files()[j].data@
                        == spec_table_file(t) && table_model_clean(t) && copy.spec_files()[
                        k
                    ].data@ == spec_table_file(u) && table_model_clean(u) implies t.table_name
                    != u.table_name && t.table_id != u.table_id by {
                    assert(self.spec_system().spec_files()[j].data@ == spec_table_file(t));
                    assert(self.spec_system().spec_files()[k].data@ == spec_table_file(u));
                }
                assert(files_tables_distinct(copy.spec_files()));
            }
        }
        let r = Catalog::load(copy);
        proof {
            if r is Ok {
                let c = r->Ok_0;
                assert forall|j: int, t: TableModel|
                    0 <= j < self.spec_system().spec_files().len() && (
                    #[trigger] self.spec_system().spec_files()[j]).data@
                        == #[trigger] spec_table_file(t) && table_model_clean(t) implies exists|k: int|
                    0 <= k < c.spec_tables().len() && (#[trigger] c.spec_tables()[k])@ == t by {
                    assert(copy.spec_files()[j].data@ == spec_table_file(t));
                }
            }
        }
        r
    }

    /// Registers a table in the index, without persisting it. Fails with
    /// `TableAlreadyExists` exactly when the name or identifier is taken.
    /// The identifier counter moves past the new identifier.
    fn add_to_cache(&mut self, table: Table) -> (r: CatalogResult<()>)
        requires
            old(self).wf(),
        ensures
            final(self).wf(),
            final(self).spec_system() == old(self).spec_system(),
            r is Ok <==> (!has_table_name(old(self).spec_tables(), table.table_name@)
                && !has_table_id(old(self).spec_tables(), table.table_id) && table.table_id
                < u64::MAX),
            r is Ok ==> final(self).spec_tables() == old(self).spec_tables().push(table),
            r is Ok ==> final(self).spec_next_table_id() == (if table.table_id >= old(
                self,
            ).spec_next_table_id() {
                table.table_id + 1
            } else {
                old(self).spec_next_table_id() as int
            }),
            r is Err ==> (final(self).spec_tables() == old(self).spec_tables() && final(self).spec_next_table_id() == old(self).spec_next_table_id() && r matches Err(
                CatalogError::TableAlreadyExists(_),
            )),
    {
        let n = self.tables.len();
        let mut i: usize = 0;
        while i < n
            invariant
                0 <= i <= n,
                n == self.spec_tables().len(),
                *self == *old(self),
                old(self).wf(),
                forall|k: int|
                    0 <= k < i ==> (#[trigger] self.spec_tables()[k]).table_name@
                        != table.table_name@ && self.spec_tables()[k].table_id != table.table_id,
            decreases n - i,
        {
            if str_eq(self.tables[i].table_name(), table.table_name()) || self.tables[
                i
            ].table_id() == table.table_id() {
                return Err(CatalogError::TableAlreadyExists(table.table_name));
            }
            i = i + 1;
        }
        if table.table_id() >= self.next_table_id {
            if table.table_id() == u64::MAX {
                return Err(CatalogError::TableAlreadyExists(table.table_name));
            }
            self.next_table_id = table.table_id() + 1;
        }
        self.tables.push(table);
        Ok(())
    }

    /// Creates a table: checks the name is fresh, assigns the next
    /// identifier, checks the column names are distinct, builds the table
    /// with ordinals in input order, persists its file, and registers it.
    pub fn create_table(&mut self, table_name: &str, segment_id: SegmentId, columns: Vec<Column>)
        -> (r: CatalogResult<Table>)
        requires
            old(self).wf(),
            old(self).spec_next_table_id() < u64::MAX,
            columns@.len() <= u32::MAX,
        ensures
            final(self).wf(),
            r is Ok <==> (!has_table_name(old(self).spec_tables(), table_name@)
                && column_names_unique(crate::table::column::columns_view(columns@))
                && table_name@.len() > 0 && segment_id != 0),
            has_table_name(old(self).spec_tables(), table_name@) ==> (r matches Err(
                CatalogError::TableAlreadyExists(_),
            ) && *final(self) == *old(self)),
            !has_table_name(old(self).spec_tables(), table_name@) && !column_names_unique(
                crate::table::column::columns_view(columns@),
            ) ==> (r matches Err(CatalogError::ColumnAlreadyExists(_)) && final(self).spec_tables() == old(self).spec_tables() && final(self).spec_system() == old(
                self,
            ).spec_system() && final(self).spec_next_table_id() == old(self).spec_next_table_id()
                + 1),
            !has_table_name(old(self).spec_tables(), table_name@) && column_names_unique(
                crate::table::column::columns_view(columns@),
            ) && (table_name@.len() == 0 || segment_id == 0) ==> (r matches Err(
                CatalogError::InvalidArgument(_),
            )
                && final(self).spec_tables() == old(self).spec_tables() && final(self).spec_system() == old(self).spec_system() && final(self).spec_next_table_id() == old(
                self,
            ).spec_next_table_id() + 1),
            r matches Ok(t) ==> {
                &&& t.table_id == old(self).spec_next_table_id()
                &&& t.table_name@ == table_name@
                &&& t.segment_id == segment_id
                &&& t.table_type == TableType::User
                &&& t.row_count == 0
                &&& t.column_count == columns@.len()
                &&& t.spec_columns().len() == columns@.len()
                &&& forall|i: int|
                    0 <= i < columns@.len() ==> t.spec_columns()[i] == (ColumnModel {
                        ordinal: i as u32,
                        ..(#[trigger] columns@[i])@
                    })
                &&& final(self).spec_tables().len() == old(self).spec_tables().len() + 1
                &&& final(self).spec_tables().last()@ == t@
                &&& forall|k: int|
                    0 <= k < old(self).spec_tables().len() ==> final(self).spec_tables()[k]
                        == old(self).spec_tables()[k]
                &&& final(self).spec_next_table_id() == old(self).spec_next_table_id() + 1
                &&& final(self).spec_system().spec_has_file(spec_table_file_name(table_name@))
                &&& final(self).spec_system().spec_file_data(spec_table_file_name(table_name@))
                    == spec_table_file(t@)
            },
    {
        let ghost pre = *self;
        let n = self.tables.len();
        let mut i: usize = 0;
        while i < n
            invariant
                0 <= i <= n,
                n == self.spec_tables().len(),
                *self == *old(self),
                old(self).wf(),
                forall|k: int|
                    0 <= k < i ==> (#[trigger] self.spec_tables()[k]).table_name@ != table_name@,
            decreases n - i,
        {
            if str_eq(self.tables[i].table_name(), table_name) {
                return Err(CatalogError::TableAlreadyExists(table_name.to_owned()));
            }
            i = i + 1;
        }
        proof {
            assert(!has_table_name(self.spec_tables(), table_name@));
        }
        let table_id = self.next_table_id;
        self.next_table_id = self.next_table_id + 1;
        // Column names must be pairwise distinct.
        let ncols = columns.len();
        let mut a: usize = 0;
        while a < ncols
            invariant
                0 <= a <= ncols,
                ncols == columns@.len(),
                self.wf(),
                !has_table_name(old(self).spec_tables(), table_name@),
                self.spec_tables() == old(self).spec_tables(),
                self.spec_system() == old(self).spec_system(),
                self.spec_next_table_id() == old(self).spec_next_table_id() + 1,
                forall|x: int, y: int|
                    0 <= x < y < columns@.len() && x < a ==> (#[trigger] columns@[x])@.name != (
                    #[trigger] columns@[y])@.name,
            decreases ncols - a,
        {
            let mut b = a + 1;
            while b < ncols
                invariant
                    a < ncols,
                    a + 1 <= b <= ncols,
                    ncols == columns@.len(),
                    self.wf(),
                    !has_table_name(old(self).spec_tables(), table_name@),
                    self.spec_tables() == old(self).spec_tables(),
                    self.spec_system() == old(self).spec_system(),
                    self.spec_next_table_id() == old(self).spec_next_table_id() + 1,
                    forall|y: int|
                        a < y < b ==> (#[trigger] columns@[y])@.name != columns@[a as int]@.name,
                decreases ncols - b,
            {
                if str_eq(columns[a].name(), columns[b].name()) {
                    proof {
                        let cv = crate::table::column::columns_view(columns@);
                        assert(cv[a as int].name == cv[b as int].name);
                        assert(!column_names_unique(cv));
                    }
                    return Err(
                        CatalogError::ColumnAlreadyExists(columns[b].name().to_owned()),
                    );
                }
                b = b + 1;
            }
            a = a + 1;
        }
        proof {
            assert(column_names_unique(crate::table::column::columns_view(columns@)));
        }
        // Build the table, assigning ordinals in input order.
        let builder = TableBuilder::new(table_id, table_name.to_owned()).segment_id(
            segment_id,
        ).table_type(TableType::User).columns(columns);
        let table = match builder.try_build() {
            Ok(t) => t,
            Err(e) => {
                return Err(CatalogError::InvalidArgument(e));
            },
        };
        // Persist before registering.
        self.persist_table(&table);
        let out = table.clone();
        proof {
            assert(self.spec_tables() == old(self).spec_tables());
            assert(!has_table_name(self.spec_tables(), table.table_name@));
            assert forall|k: int| 0 <= k < self.spec_tables().len() implies (
            #[trigger] self.spec_tables()[k]).table_id != table.table_id by {
                assert(self.spec_tables()[k].table_id < old(self).spec_next_table_id());
            }
            assert(!has_table_id(self.spec_tables(), table.table_id));
        }
        match self.add_to_cache(table) {
            Ok(()) => {},
            Err(e) => {
                proof {
                    assert(false);
                }
                return Err(e);
            },
        }
        Ok(out)
    }

    /// Writes a table's catalog file into the system directory; the
    /// in-memory store cannot refuse the write.
    fn persist_table(&mut self, table: &Table)
        requires
            old(self).wf(),
        ensures
            final(self).wf(),
            final(self).spec_tables() == old(self).spec_tables(),
            final(self).spec_next_table_id() == old(self).spec_next_table_id(),
            final(self).spec_system().spec_has_file(spec_table_file_name(table.table_name@)),
            final(self).spec_system().spec_file_data(spec_table_file_name(table.table_name@))
                == spec_table_file(table@),
    {
        let mut path = string_to_bytes(table.table_name());
        path.push(46);
        path.push(116);
        path.push(98);
        path.push(108);
        proof {
            assert(path@ =~= spec_table_file_name(table.table_name@));
        }
        let content = encode_table_file(table);
        let content_len = content.len();
        proof {
            assert(content@.len() == content_len);
        }
        match self.system.create_file(path.as_slice()) {
            Ok(()) => {},
            Err(_) => {},
        }
        match self.system.pwrite(path.as_slice(), content.as_slice(), 0) {
            Ok(_) => {
                proof {
                    assert(self.spec_system().spec_file_data(
                        spec_table_file_name(table.table_name@),
                    ) =~= spec_table_file(table@));
                }
            },
            Err(_) => {
                proof {
                    assert(false);
                }
            },
        }
    }

    /// Looks a table up by name; a copy of the stored table.
    pub fn get_table(&self, table_name: &str) -> (r: CatalogResult<Table>)
        ensures
            r is Ok <==> has_table_name(self.spec_tables(), table_name@),
            r matches Ok(t) ==> t@.table_name == table_name@ && exists|i: int|
                0 <= i < self.spec_tables().len() && (#[trigger] self.spec_tables()[i])@ == t@,
            r matches Err(e) ==> e matches CatalogError::TableNotFound(_),
    {
        let n = self.tables.len();
        let mut i: usize = 0;
        while i < n
            invariant
                0 <= i <= n,
                n == self.spec_tables().len(),
                forall|k: int|
                    0 <= k < i ==> (#[trigger] self.spec_tables()[k]).table_name@ != table_name@,
            decreases n - i,
        {
            if str_eq(self.tables[i].table_name(), table_name) {
                return Ok(self.tables[i].clone());
            }
            i = i + 1;
        }
        Err(CatalogError::TableNotFound(table_name.to_owned()))
    }

    /// Looks a table up by identifier; a copy of the stored table.
    pub fn get_table_by_id(&self, table_id: u64) -> (r: CatalogResult<Table>)
        ensures
            r is Ok <==> has_table_id(self.spec_tables(), table_id),
            r matches Ok(t) ==> t@.table_id == table_id && exists|i: int|
                0 <= i < self.spec_tables().len() && (#[trigger] self.spec_tables()[i])@ == t@,
            r matches Err(e) ==> e matches CatalogError::TableNotFound(_),
    {
        let n = self.tables.len();
        let mut i: usize = 0;
        while i < n
            invariant
                0 <= i <= n,
                n == self.spec_tables().len(),
                forall|k: int| 0 <= k < i ==> (#[trigger] self.spec_tables()[k]).table_id != table_id,
            decreases n - i,
        {
            if self.tables[i].table_id() == table_id {
                return Ok(self.tables[i].clone());
            }
            i = i + 1;
        }
        Err(CatalogError::TableNotFound("table id not in catalog".to_owned()))
    }

    /// Copies of all registered tables, in registration order.
    pub fn list_tables(&self) -> (r: Vec<Table>)
        ensures
            r@.len() == self.spec_tables().len(),
            forall|i: int|
                0 <= i < r@.len() ==> (#[trigger] r@[i])@ == self.spec_tables()[i]@,
    {
        let mut out: Vec<Table> = Vec::new();
        let n = self.tables.len();
        let mut i: usize = 0;
        while i < n
            invariant
                0 <= i <= n,
                n == self.spec_tables().len(),
                out@.len() == i,
                forall|k: int| 0 <= k < i ==> (#[trigger] out@[k])@ == self.spec_tables()[k]@,
            decreases n - i,
        {
            out.push(self.tables[i].clone());
            i = i + 1;
        }
        out
    }

    /// Drops a table: removes it from the index and removes its file.
    /// `TableNotFound` exactly when no table has the name.
    pub fn drop_table(&mut self, table_name: &str) -> (r: CatalogResult<()>)
        requires
            old(self).wf(),
        ensures
            final(self).wf(),
            r is Ok <==> has_table_name(old(self).spec_tables(), table_name@),
            r is Ok ==> !has_table_name(final(self).spec_tables(), table_name@) && !final(self).spec_system().spec_has_file(spec_table_file_name(table_name@)),
            r is Err ==> (*final(self) == *old(self) && r matches Err(
                CatalogError::TableNotFound(_),
            )),
    {
        let n = self.tables.len();
        let mut i: usize = 0;
        while i < n
            invariant
                0 <= i <= n,
                n == self.spec_tables().len(),
                *self == *old(self),
                old(self).wf(),
                forall|k: int|
                    0 <= k < i ==> (#[trigger] self.spec_tables()[k]).table_name@ != table_name@,
            decreases n - i,
        {
            if str_eq(self.tables[i].table_name(), table_name) {
                self.tables.remove(i);
                proof {
                    lemma_tables_remove(old(self).spec_tables(), i as int);
                }
                let mut path = string_to_bytes(table_name);
                path.push(46);
                path.push(116);
                path.push(98);
                path.push(108);
                proof {
                    assert(path@ =~= spec_table_file_name(table_name@));
                }
                let _ = self.system.remove_file(path.as_slice());
                return Ok(());
            }
            i = i + 1;
        }
        proof {
            assert(!has_table_name(self.spec_tables(), table_name@));
        }
        Err(CatalogError::TableNotFound(table_name.to_owned()))
    }

    /// Whether a table with the name is registered.
    pub fn table_exists(&self, table_name: &str) -> (r: bool)
        ensures
            r == has_table_name(self.spec_tables(), table_name@),
    {
        match self.get_table(table_name) {
            Ok(_) => true,
            Err(_) => false,
        }
    }

    /// The identifier the next created table will get.
    pub fn peek_next_table_id(&self) -> (r: u64)
        ensures
            r == self.spec_next_table_id(),
    {
        self.next_table_id
    }

    /// The persisted system directory.
    pub fn system_files(&self) -> (r: &MemFs)
        ensures
            *r == self.spec_system(),
    {
        &self.system
    }
}

/// Removing a table keeps the index well formed and drops its name.
proof fn lemma_tables_remove(ts: Seq<Table>, i: int)
    requires
        tables_wf(ts),
        0 <= i < ts.len(),
    ensures
        tables_wf(ts.remove(i)),
        !has_table_name(ts.remove(i), ts[i].table_name@),
{
    let post = ts.remove(i);
    assert forall|a: int, b: int| 0 <= a < b < post.len() implies (#[trigger] post[a]).table_name@
        != (#[trigger] post[b]).table_name@ && post[a].table_id != post[b].table_id by {
        let pa = if a < i {
            a
        } else {
            a + 1
        };
        let pb = if b < i {
            b
        } else {
            b + 1
        };
        assert(post[a] == ts[pa]);
        assert(post[b] == ts[pb]);
    }
    assert forall|k: int| 0 <= k < post.len() implies (#[trigger] post[k]).table_name@
        != ts[i].table_name@ by {
        let pk = if k < i {
            k
        } else {
            k + 1
        };
        assert(post[k] == ts[pk]);
    }
}

/// Every table in the catalog is the one its identifier finds: two tables
/// with one identifier are one table, so a lookup by a listed table's
/// identifier carries that table's name.
pub proof fn lemma_table_id_determines_name(ts: Seq<Table>, i: int, j: int)
    requires
        tables_wf(ts),
        0 <= i < ts.len(),
        0 <= j < ts.len(),
        ts[i].table_id == ts[j].table_id,
    ensures
        i == j,
        ts[i].table_name@ == ts[j].table_name@,
{
    if i < j || j < i {
    }
}

} // verus!
