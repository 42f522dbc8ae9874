//! The table-valued-parameter encoder: a schema-qualified table type plus
//! its row data, serialized into the wire block
//! `0xF3 · db-name · schema-name · type-name · column-metadata · 0x00 ·
//! (0x01 · row-cells)* · 0x00`, together with a parser for that grammar
//! and the round-trip proof tying the two.

use crate::buf::{buf_bytes, buf_put_u16_le, buf_put_u32_le, buf_put_u8, u16_le_bytes, u32_le_bytes};
use crate::error::Error;
use crate::value::{
    encode_type_info, encode_value_self, encode_value_with, encode_utf16_units, is_compatible,
    spec_cell_bytes, spec_cell_bytes_self, spec_compatible, spec_fixed_type_byte,
    spec_type_info_bytes, spec_var_type_byte, utf16_units, ColumnData, FixedLenType,
    MetaDataColumn, TypeInfo, VarLenContext, VarLenType,
};
use bytes::BytesMut;
use vstd::prelude::*;
use vstd::seq_lib::*;
use vstd::string::StrSliceExecFns;
use vstd::string::StringExecFns;

verus! {

/// The marker byte announcing a table-valued parameter.
pub open spec fn spec_tvp_type_byte() -> u8 {
    0xF3
}

/// A table-valued parameter ready for encoding: the split type name, the
/// column metadata when the server supplied it, and the row data.
#[derive(Debug)]
pub struct TypeInfoTvp {
    pub schema_name: String,
    pub db_type_name: String,
    pub columns: Option<Vec<MetaDataColumn>>,
    pub data: Vec<Vec<ColumnData>>,
}

/// Splits a qualified type name on the first `.` into schema and type;
/// with no dot the schema is empty and the whole name is the type.
pub open spec fn spec_split_type_name(s: Seq<char>) -> (Seq<char>, Seq<char>) {
    match s.index_of_first('.') {
        Some(i) => (s.subrange(0, i), s.subrange(i + 1, s.len() as int)),
        None => (Seq::empty(), s),
    }
}

/// The single metadata rewrite the encoder performs: a fixed 4-byte
/// integer column is re-declared as the nullable variable-length integer,
/// the only integer form legal inside this block.
pub open spec fn spec_normalize_type(ti: TypeInfo) -> TypeInfo {
    if ti == TypeInfo::FixedLen(FixedLenType::Int4) {
        TypeInfo::VarLenSized(VarLenContext { ty: VarLenType::Intn, len: 4 })
    } else {
        ti
    }
}

/// `spec_normalize_type` applied to a column descriptor.
pub open spec fn spec_normalize_column(c: MetaDataColumn) -> MetaDataColumn {
    MetaDataColumn {
        base: crate::value::BaseMetaDataColumn {
            flags: c.base.flags,
            ty: spec_normalize_type(c.base.ty),
        },
        col_name: c.col_name,
    }
}

/// A normalized column never carries the fixed 4-byte integer encoding:
/// the declared fixed form is always rewritten to the variable-length
/// nullable integer, and every other type passes through unchanged.
pub proof fn lemma_fixed_int_normalized(c: MetaDataColumn)
    ensures
        spec_normalize_column(c).base.ty != TypeInfo::FixedLen(FixedLenType::Int4),
        c.base.ty == TypeInfo::FixedLen(FixedLenType::Int4) ==> spec_normalize_column(c).base.ty
            == TypeInfo::VarLenSized(VarLenContext { ty: VarLenType::Intn, len: 4 }),
        c.base.ty != TypeInfo::FixedLen(FixedLenType::Int4) ==> spec_normalize_column(c).base.ty
            == c.base.ty,
{
}

impl TypeInfoTvp {
    /// The rows as a sequence of cell sequences.
    pub open spec fn rows_view(self) -> Seq<Seq<ColumnData>> {
        self.data@.map_values(|r: Vec<ColumnData>| r@)
    }

    /// The column metadata as a sequence, when present.
    pub open spec fn cols_view(self) -> Option<Seq<MetaDataColumn>> {
        match self.columns {
            Some(cs) => Some(cs@),
            None => None,
        }
    }

    /// Builds the parameter from a qualified type name and its rows,
    /// splitting the name on the first `.`; no column metadata yet.
    pub fn new(qualified_name: &str, rows: Vec<Vec<ColumnData>>) -> (r: TypeInfoTvp)
        ensures
            r.schema_name@ == spec_split_type_name(qualified_name@).0,
            r.db_type_name@ == spec_split_type_name(qualified_name@).1,
            r.columns is None,
            r.data == rows,
    {
        let n = qualified_name.unicode_len();
        let mut i: usize = 0;
        let mut dot_idx: Option<usize> = None;
        while i < n
            invariant
                i <= n,
                n == qualified_name@.len(),
                match dot_idx {
                    None => forall|j: int| 0 <= j < i ==> qualified_name@[j] != '.',
                    Some(d) => d < i && qualified_name@[d as int] == '.' && forall|j: int|
                        0 <= j < d ==> qualified_name@[j] != '.',
                },
            decreases n - i,
        {
            if dot_idx.is_none() {
                let c = qualified_name.get_char(i);
                if c == '.' {
                    dot_idx = Some(i);
                }
            }
            i += 1;
        }
        proof {
            qualified_name@.index_of_first_ensures('.');
        }
        match dot_idx {
            Some(d) => {
                let schema = qualified_name.substring_char(0, d).to_owned();
                let ty = qualified_name.substring_char(d + 1, n).to_owned();
                TypeInfoTvp { schema_name: schema, db_type_name: ty, columns: None, data: rows }
            },
            None => {
                TypeInfoTvp {
                    schema_name: String::new(),
                    db_type_name: qualified_name.to_owned(),
                    columns: None,
                    data: rows,
                }
            },
        }
    }

    /// Attaches server-supplied column metadata, rewriting each fixed
    /// 4-byte integer column to the variable-length nullable integer.
    pub fn with_metadata(self, metadata: Vec<MetaDataColumn>) -> (r: TypeInfoTvp)
        ensures
            r.schema_name == self.schema_name,
            r.db_type_name == self.db_type_name,
            r.data == self.data,
            r.columns matches Some(cs) && cs@ == metadata@.map_values(
                |c: MetaDataColumn| spec_normalize_column(c),
            ),
    {
        let mut out: Vec<MetaDataColumn> = Vec::new();
        let mut i: usize = 0;
        while i < metadata.len()
            invariant
                i <= metadata.len(),
                out@.len() == i,
                forall|k: int| 0 <= k < i ==> out@[k] == spec_normalize_column(metadata@[k]),
            decreases metadata.len() - i,
        {
            let c = &metadata[i];
            let ty = match c.base.ty {
                TypeInfo::FixedLen(FixedLenType::Int4) => TypeInfo::VarLenSized(
                    VarLenContext::new(VarLenType::Intn, 4),
                ),
                other => other,
            };
            out.push(
                MetaDataColumn {
                    base: crate::value::BaseMetaDataColumn { flags: c.base.flags, ty },
                    col_name: c.col_name.clone(),
                },
            );
            i += 1;
        }
        proof {
            assert(out@ =~= metadata@.map_values(|c: MetaDataColumn| spec_normalize_column(c)));
        }
        TypeInfoTvp {
            schema_name: self.schema_name,
            db_type_name: self.db_type_name,
            columns: Some(out),
            data: self.data,
        }
    }
}

/// The little-endian bytes of a sequence of 16-bit units, in order.
pub open spec fn spec_units_le_bytes(units: Seq<u16>) -> Seq<u8>
    decreases units.len(),
{
    if units.len() == 0 {
        Seq::empty()
    } else {
        u16_le_bytes(units[0]) + spec_units_le_bytes(units.drop_first())
    }
}

/// A length-prefixed UTF-16 string: one byte of code-unit count, then the
/// little-endian units. Meaningful only for at most 255 units.
pub open spec fn spec_b_varchar_bytes(units: Seq<u16>) -> Seq<u8> {
    seq![units.len() as u8] + spec_units_le_bytes(units)
}

/// One column of the metadata block: four reserved zero bytes, the flags,
/// the type descriptor, and an empty column name.
pub open spec fn spec_column_bytes(c: MetaDataColumn) -> Seq<u8> {
    u32_le_bytes(0) + u16_le_bytes(c.base.flags) + spec_type_info_bytes(c.base.ty) + seq![0u8]
}

/// The columns of the metadata block, in order.
pub open spec fn spec_columns_bytes(cs: Seq<MetaDataColumn>) -> Seq<u8>
    decreases cs.len(),
{
    if cs.len() == 0 {
        Seq::empty()
    } else {
        spec_column_bytes(cs[0]) + spec_columns_bytes(cs.drop_first())
    }
}

/// The whole column-metadata block: the 16-bit null sentinel when no
/// metadata was supplied, else the 16-bit column count and the columns.
pub open spec fn spec_colmeta_block_bytes(cols: Option<Seq<MetaDataColumn>>) -> Seq<u8> {
    match cols {
        None => u16_le_bytes(0xFFFF),
        Some(cs) => u16_le_bytes(cs.len() as u16) + spec_columns_bytes(cs),
    }
}

/// The cells of one row under declared column types, in order.
pub open spec fn spec_cells_bytes_with(row: Seq<ColumnData>, tys: Seq<TypeInfo>) -> Seq<u8>
    decreases row.len(),
{
    if row.len() == 0 {
        Seq::empty()
    } else {
        spec_cell_bytes(tys[0], row[0]) + spec_cells_bytes_with(row.drop_first(), tys.drop_first())
    }
}

/// The cells of one self-describing row, in order.
pub open spec fn spec_cells_bytes_self(row: Seq<ColumnData>) -> Seq<u8>
    decreases row.len(),
{
    if row.len() == 0 {
        Seq::empty()
    } else {
        spec_cell_bytes_self(row[0]) + spec_cells_bytes_self(row.drop_first())
    }
}

/// One row: the row token, then its cells, typed by the column metadata
/// when present and self-describing otherwise.
pub open spec fn spec_row_bytes(row: Seq<ColumnData>, cols: Option<Seq<MetaDataColumn>>) -> Seq<
    u8,
> {
    seq![1u8] + match cols {
        Some(cs) => spec_cells_bytes_with(row, cs.map_values(|c: MetaDataColumn| c.base.ty)),
        None => spec_cells_bytes_self(row),
    }
}

/// All rows, in order.
pub open spec fn spec_rows_bytes(
    rows: Seq<Seq<ColumnData>>,
    cols: Option<Seq<MetaDataColumn>>,
) -> Seq<u8>
    decreases rows.len(),
{
    if rows.len() == 0 {
        Seq::empty()
    } else {
        spec_row_bytes(rows[0], cols) + spec_rows_bytes(rows.drop_first(), cols)
    }
}

/// Appending a unit appends its two bytes.
proof fn lemma_units_le_bytes_push(units: Seq<u16>, x: u16)
    ensures
        spec_units_le_bytes(units.push(x)) == spec_units_le_bytes(units) + u16_le_bytes(x),
    decreases units.len(),
{
    if units.len() == 0 {
        assert(units.push(x).drop_first() =~= Seq::<u16>::empty());
        assert(spec_units_le_bytes(units.push(x).drop_first()) =~= Seq::<u8>::empty());
        assert(spec_units_le_bytes(units) =~= Seq::<u8>::empty());
        assert(spec_units_le_bytes(units.push(x)) =~= spec_units_le_bytes(units) + u16_le_bytes(
            x,
        ));
    } else {
        lemma_units_le_bytes_push(units.drop_first(), x);
        assert(units.push(x)[0] == units[0]);
        assert(units.push(x).drop_first() =~= units.drop_first().push(x));
        assert(spec_units_le_bytes(units.push(x)) =~= spec_units_le_bytes(units) + u16_le_bytes(
            x,
        ));
    }
}

/// The unit bytes are two per unit.
proof fn lemma_units_le_bytes_len(units: Seq<u16>)
    ensures
        spec_units_le_bytes(units).len() == 2 * units.len(),
    decreases units.len(),
{
    if units.len() > 0 {
        lemma_units_le_bytes_len(units.drop_first());
    }
}

/// Appending a column appends its bytes.
proof fn lemma_columns_bytes_push(cs: Seq<MetaDataColumn>, c: MetaDataColumn)
    ensures
        spec_columns_bytes(cs.push(c)) == spec_columns_bytes(cs) + spec_column_bytes(c),
    decreases cs.len(),
{
    if cs.len() == 0 {
        assert(cs.push(c).drop_first() =~= Seq::<MetaDataColumn>::empty());
        assert(spec_columns_bytes(cs.push(c).drop_first()) =~= Seq::<u8>::empty());
        assert(spec_columns_bytes(cs) =~= Seq::<u8>::empty());
        assert(spec_columns_bytes(cs.push(c)) =~= spec_columns_bytes(cs) + spec_column_bytes(c));
    } else {
        lemma_columns_bytes_push(cs.drop_first(), c);
        assert(cs.push(c)[0] == cs[0]);
        assert(cs.push(c).drop_first() =~= cs.drop_first().push(c));
        assert(spec_columns_bytes(cs.push(c)) =~= spec_columns_bytes(cs) + spec_column_bytes(c));
    }
}

/// Appending a cell and its type appends the cell's bytes.
proof fn lemma_cells_with_push(row: Seq<ColumnData>, tys: Seq<TypeInfo>, c: ColumnData, t: TypeInfo)
    requires
        row.len() == tys.len(),
    ensures
        spec_cells_bytes_with(row.push(c), tys.push(t)) == spec_cells_bytes_with(row, tys)
            + spec_cell_bytes(t, c),
    decreases row.len(),
{
    if row.len() == 0 {
        assert(row.push(c).drop_first() =~= Seq::<ColumnData>::empty());
        assert(spec_cells_bytes_with(row.push(c).drop_first(), tys.push(t).drop_first())
            =~= Seq::<u8>::empty());
        assert(spec_cells_bytes_with(row, tys) =~= Seq::<u8>::empty());
        assert(spec_cells_bytes_with(row.push(c), tys.push(t)) =~= spec_cells_bytes_with(row, tys)
            + spec_cell_bytes(t, c));
    } else {
        lemma_cells_with_push(row.drop_first(), tys.drop_first(), c, t);
        assert(row.push(c)[0] == row[0]);
        assert(tys.push(t)[0] == tys[0]);
        assert(row.push(c).drop_first() =~= row.drop_first().push(c));
        assert(tys.push(t).drop_first() =~= tys.drop_first().push(t));
        assert(spec_cells_bytes_with(row.push(c), tys.push(t)) =~= spec_cells_bytes_with(row, tys)
            + spec_cell_bytes(t, c));
    }
}

/// Appending a cell appends its self-describing bytes.
proof fn lemma_cells_self_push(row: Seq<ColumnData>, c: ColumnData)
    ensures
        spec_cells_bytes_self(row.push(c)) == spec_cells_bytes_self(row) + spec_cell_bytes_self(c),
    decreases row.len(),
{
    if row.len() == 0 {
        assert(row.push(c).drop_first() =~= Seq::<ColumnData>::empty());
        assert(spec_cells_bytes_self(row.push(c).drop_first()) =~= Seq::<u8>::empty());
        assert(spec_cells_bytes_self(row) =~= Seq::<u8>::empty());
        assert(spec_cells_bytes_self(row.push(c)) =~= spec_cells_bytes_self(row)
            + spec_cell_bytes_self(c));
    } else {
        lemma_cells_self_push(row.drop_first(), c);
        assert(row.push(c)[0] == row[0]);
        assert(row.push(c).drop_first() =~= row.drop_first().push(c));
        assert(spec_cells_bytes_self(row.push(c)) =~= spec_cells_bytes_self(row)
            + spec_cell_bytes_self(c));
    }
}

/// Appending a row appends its bytes.
proof fn lemma_rows_bytes_push(
    rows: Seq<Seq<ColumnData>>,
    cols: Option<Seq<MetaDataColumn>>,
    row: Seq<ColumnData>,
)
    ensures
        spec_rows_bytes(rows.push(row), cols) == spec_rows_bytes(rows, cols) + spec_row_bytes(
            row,
            cols,
        ),
    decreases rows.len(),
{
    if rows.len() == 0 {
        assert(rows.push(row).drop_first() =~= Seq::<Seq<ColumnData>>::empty());
        assert(spec_rows_bytes(rows.push(row).drop_first(), cols) =~= Seq::<u8>::empty());
        assert(spec_rows_bytes(rows, cols) =~= Seq::<u8>::empty());
        assert(spec_rows_bytes(rows.push(row), cols) =~= spec_rows_bytes(rows, cols)
            + spec_row_bytes(row, cols));
    } else {
        lemma_rows_bytes_push(rows.drop_first(), cols, row);
        assert(rows.push(row)[0] == rows[0]);
        assert(rows.push(row).drop_first() =~= rows.drop_first().push(row));
        assert(spec_rows_bytes(rows.push(row), cols) =~= spec_rows_bytes(rows, cols)
            + spec_row_bytes(row, cols));
    }
}

/// Writes a length-prefixed UTF-16 string: the unit count, then each unit
/// little-endian.
fn put_b_varchar(units: &Vec<u16>, dst: &mut BytesMut)
    requires
        units@.len() <= 255,
        buf_bytes(*old(dst)).len() + spec_b_varchar_bytes(units@).len() <= usize::MAX,
    ensures
        buf_bytes(*final(dst)) == buf_bytes(*old(dst)) + spec_b_varchar_bytes(units@),
{
    proof {
        lemma_units_le_bytes_len(units@);
    }
    let count: u8 = units.len() as u8;
    buf_put_u8(dst, count);
    let mut i: usize = 0;
    while i < units.len()
        invariant
            i <= units@.len(),
            units@.len() <= 255,
            buf_bytes(*dst) == buf_bytes(*old(dst)) + seq![units@.len() as u8]
                + spec_units_le_bytes(units@.take(i as int)),
            buf_bytes(*old(dst)).len() + spec_b_varchar_bytes(units@).len() <= usize::MAX,
            spec_units_le_bytes(units@).len() == 2 * units@.len(),
        decreases units@.len() - i,
    {
        proof {
            lemma_units_le_bytes_len(units@.take(i as int));
        }
        buf_put_u16_le(dst, units[i]);
        proof {
            lemma_units_le_bytes_push(units@.take(i as int), units@[i as int]);
            assert(units@.take(i + 1 as int) =~= units@.take(i as int).push(units@[i as int]));
            assert(buf_bytes(*dst) =~= buf_bytes(*old(dst)) + seq![units@.len() as u8]
                + spec_units_le_bytes(units@.take(i + 1 as int)));
        }
        i += 1;
    }
    proof {
        assert(units@.take(units@.len() as int) =~= units@);
        assert(buf_bytes(*dst) =~= buf_bytes(*old(dst)) + spec_b_varchar_bytes(units@));
    }
}

/// Writes the column-metadata block for supplied columns: the 16-bit
/// count, then each column's reserved bytes, flags, type descriptor and
/// empty name.
fn write_columns(cols: &Vec<MetaDataColumn>, dst: &mut BytesMut)
    requires
        cols@.len() <= 0xFFFE,
        buf_bytes(*old(dst)).len() + spec_colmeta_block_bytes(Some(cols@)).len() <= usize::MAX,
    ensures
        buf_bytes(*final(dst)) == buf_bytes(*old(dst)) + spec_colmeta_block_bytes(Some(cols@)),
{
    buf_put_u16_le(dst, cols.len() as u16);
    proof {
        assert(cols@.take(0) =~= Seq::<MetaDataColumn>::empty());
        assert(spec_columns_bytes(cols@.take(0)) =~= Seq::<u8>::empty());
        assert(cols@.skip(0) =~= cols@);
        assert(buf_bytes(*dst) =~= buf_bytes(*old(dst)) + u16_le_bytes(cols@.len() as u16)
            + spec_columns_bytes(cols@.take(0)));
    }
    let mut i: usize = 0;
    while i < cols.len()
        invariant
            i <= cols@.len(),
            cols@.len() <= 0xFFFE,
            buf_bytes(*dst) == buf_bytes(*old(dst)) + u16_le_bytes(cols@.len() as u16)
                + spec_columns_bytes(cols@.take(i as int)),
            spec_columns_bytes(cols@) == spec_columns_bytes(cols@.take(i as int))
                + spec_columns_bytes(cols@.skip(i as int)),
            buf_bytes(*old(dst)).len() + spec_colmeta_block_bytes(Some(cols@)).len() <= usize::MAX,
        decreases cols@.len() - i,
    {
        proof {
            assert(cols@.skip(i as int)[0] == cols@[i as int]);
            assert(spec_columns_bytes(cols@.skip(i as int)) == spec_column_bytes(cols@[i as int])
                + spec_columns_bytes(cols@.skip(i as int).drop_first()));
        }
        let c = &cols[i];
        buf_put_u32_le(dst, 0);
        buf_put_u16_le(dst, c.base.flags);
        encode_type_info(&c.base.ty, dst);
        buf_put_u8(dst, 0);
        proof {
            lemma_columns_bytes_push(cols@.take(i as int), cols@[i as int]);
            assert(cols@.take(i + 1 as int) =~= cols@.take(i as int).push(cols@[i as int]));
            assert(cols@.skip(i as int).drop_first() =~= cols@.skip(i + 1 as int));
            assert(buf_bytes(*dst) =~= buf_bytes(*old(dst)) + u16_le_bytes(cols@.len() as u16)
                + spec_columns_bytes(cols@.take(i + 1 as int)));
        }
        i += 1;
    }
    proof {
        assert(cols@.take(cols@.len() as int) =~= cols@);
        assert(buf_bytes(*dst) =~= buf_bytes(*old(dst)) + spec_colmeta_block_bytes(Some(cols@)));
    }
}

/// Writes one row under declared column types: the row token, then each
/// cell under its column's type.
fn write_row_with(row: &Vec<ColumnData>, cols: &Vec<MetaDataColumn>, dst: &mut BytesMut)
    requires
        row@.len() == cols@.len(),
        forall|j: int|
            0 <= j < row@.len() ==> spec_compatible(cols@[j].base.ty, #[trigger] row@[j]),
        buf_bytes(*old(dst)).len() + spec_row_bytes(row@, Some(cols@)).len() <= usize::MAX,
    ensures
        buf_bytes(*final(dst)) == buf_bytes(*old(dst)) + spec_row_bytes(row@, Some(cols@)),
{
    let ghost tys = cols@.map_values(|c: MetaDataColumn| c.base.ty);
    buf_put_u8(dst, 1);
    proof {
        assert(row@.take(0) =~= Seq::<ColumnData>::empty());
        assert(tys.take(0) =~= Seq::<TypeInfo>::empty());
        assert(spec_cells_bytes_with(row@.take(0), tys.take(0)) =~= Seq::<u8>::empty());
        assert(row@.skip(0) =~= row@);
        assert(tys.skip(0) =~= tys);
        assert(buf_bytes(*dst) =~= buf_bytes(*old(dst)) + seq![1u8] + spec_cells_bytes_with(
            row@.take(0),
            tys.take(0),
        ));
    }
    let mut j: usize = 0;
    while j < row.len()
        invariant
            j <= row@.len(),
            row@.len() == cols@.len(),
            tys == cols@.map_values(|c: MetaDataColumn| c.base.ty),
            forall|k: int|
                0 <= k < row@.len() ==> spec_compatible(cols@[k].base.ty, #[trigger] row@[k]),
            buf_bytes(*dst) == buf_bytes(*old(dst)) + seq![1u8] + spec_cells_bytes_with(
                row@.take(j as int),
                tys.take(j as int),
            ),
            spec_cells_bytes_with(row@, tys) == spec_cells_bytes_with(
                row@.take(j as int),
                tys.take(j as int),
            ) + spec_cells_bytes_with(row@.skip(j as int), tys.skip(j as int)),
            buf_bytes(*old(dst)).len() + spec_row_bytes(row@, Some(cols@)).len() <= usize::MAX,
        decreases row@.len() - j,
    {
        proof {
            assert(row@.skip(j as int)[0] == row@[j as int]);
            assert(tys.skip(j as int)[0] == tys[j as int]);
            assert(tys[j as int] == cols@[j as int].base.ty);
            assert(spec_cells_bytes_with(row@.skip(j as int), tys.skip(j as int))
                == spec_cell_bytes(tys[j as int], row@[j as int]) + spec_cells_bytes_with(
                row@.skip(j as int).drop_first(),
                tys.skip(j as int).drop_first(),
            ));
        }
        let res = encode_value_with(&row[j], &cols[j].base.ty, dst);
        match res {
            Ok(()) => {},
            Err(e) => {
                proof {
                    assert(false);
                }
            },
        }
        proof {
            lemma_cells_with_push(row@.take(j as int), tys.take(j as int), row@[j as int],
                tys[j as int]);
            assert(row@.take(j + 1 as int) =~= row@.take(j as int).push(row@[j as int]));
            assert(tys.take(j + 1 as int) =~= tys.take(j as int).push(tys[j as int]));
            assert(row@.skip(j as int).drop_first() =~= row@.skip(j + 1 as int));
            assert(tys.skip(j as int).drop_first() =~= tys.skip(j + 1 as int));
            assert(buf_bytes(*dst) =~= buf_bytes(*old(dst)) + seq![1u8] + spec_cells_bytes_with(
                row@.take(j + 1 as int),
                tys.take(j + 1 as int),
            ));
        }
        j += 1;
    }
    proof {
        assert(row@.take(row@.len() as int) =~= row@);
        assert(tys.take(tys.len() as int) =~= tys);
        assert(buf_bytes(*dst) =~= buf_bytes(*old(dst)) + spec_row_bytes(row@, Some(cols@)));
    }
}

/// Writes one self-describing row: the row token, then each cell with its
/// own inline type descriptor.
fn write_row_self(row: &Vec<ColumnData>, dst: &mut BytesMut)
    requires
        buf_bytes(*old(dst)).len() + spec_row_bytes(row@, None).len() <= usize::MAX,
    ensures
        buf_bytes(*final(dst)) == buf_bytes(*old(dst)) + spec_row_bytes(row@, None),
{
    buf_put_u8(dst, 1);
    proof {
        assert(row@.take(0) =~= Seq::<ColumnData>::empty());
        assert(spec_cells_bytes_self(row@.take(0)) =~= Seq::<u8>::empty());
        assert(row@.skip(0) =~= row@);
        assert(buf_bytes(*dst) =~= buf_bytes(*old(dst)) + seq![1u8] + spec_cells_bytes_self(
            row@.take(0),
        ));
    }
    let mut j: usize = 0;
    while j < row.len()
        invariant
            j <= row@.len(),
            buf_bytes(*dst) == buf_bytes(*old(dst)) + seq![1u8] + spec_cells_bytes_self(
                row@.take(j as int),
            ),
            spec_cells_bytes_self(row@) == spec_cells_bytes_self(row@.take(j as int))
                + spec_cells_bytes_self(row@.skip(j as int)),
            buf_bytes(*old(dst)).len() + spec_row_bytes(row@, None).len() <= usize::MAX,
        decreases row@.len() - j,
    {
        proof {
            assert(row@.skip(j as int)[0] == row@[j as int]);
            assert(spec_cells_bytes_self(row@.skip(j as int)) == spec_cell_bytes_self(
                row@[j as int],
            ) + spec_cells_bytes_self(row@.skip(j as int).drop_first()));
        }
        encode_value_self(&row[j], dst);
        proof {
            lemma_cells_self_push(row@.take(j as int), row@[j as int]);
            assert(row@.take(j + 1 as int) =~= row@.take(j as int).push(row@[j as int]));
            assert(row@.skip(j as int).drop_first() =~= row@.skip(j + 1 as int));
            assert(buf_bytes(*dst) =~= buf_bytes(*old(dst)) + seq![1u8] + spec_cells_bytes_self(
                row@.take(j + 1 as int),
            ));
        }
        j += 1;
    }
    proof {
        assert(row@.take(row@.len() as int) =~= row@);
        assert(buf_bytes(*dst) =~= buf_bytes(*old(dst)) + spec_row_bytes(row@, None));
    }
}

impl TypeInfoTvp {
    /// The names fit the length-prefixed form, the column count fits its
    /// 16-bit field, and under supplied metadata every row has one value
    /// per column, each compatible with the column's declared type.
    pub open spec fn wf(self) -> bool {
        &&& utf16_units(self.schema_name@).len() <= 255
        &&& utf16_units(self.db_type_name@).len() <= 255
        &&& match self.cols_view() {
            Some(cs) => {
                &&& cs.len() <= 0xFFFE
                &&& forall|r: int|
                    0 <= r < self.rows_view().len() ==> (#[trigger] self.rows_view()[r]).len()
                        == cs.len()
                &&& forall|r: int, j: int|
                    0 <= r < self.rows_view().len() && 0 <= j < cs.len() ==> spec_compatible(
                        cs[j].base.ty,
                        #[trigger] self.rows_view()[r][j],
                    )
            },
            None => true,
        }
    }

    /// The whole wire block this parameter encodes to.
    pub open spec fn spec_bytes(self) -> Seq<u8> {
        seq![spec_tvp_type_byte()] + spec_b_varchar_bytes(Seq::empty())
            + spec_b_varchar_bytes(utf16_units(self.schema_name@)) + spec_b_varchar_bytes(
            utf16_units(self.db_type_name@),
        ) + spec_colmeta_block_bytes(self.cols_view()) + seq![0u8] + spec_rows_bytes(
            self.rows_view(),
            self.cols_view(),
        ) + seq![0u8]
    }

    /// Encodes the parameter into the buffer: exactly `spec_bytes` is
    /// appended when the parameter is well formed, and nothing is written
    /// otherwise — an over-long name, an over-wide column count, a row of
    /// the wrong arity or an incompatible cell is reported before any byte
    /// of this block reaches the buffer.
    pub fn encode(self, dst: &mut BytesMut) -> (r: Result<(), Error>)
        requires
            self.wf() ==> buf_bytes(*old(dst)).len() + self.spec_bytes().len() <= usize::MAX,
        ensures
            self.wf() ==> r is Ok && buf_bytes(*final(dst)) == buf_bytes(*old(dst))
                + self.spec_bytes(),
            !self.wf() ==> r is Err && r->Err_0 is Encoding && buf_bytes(*final(dst)) == buf_bytes(
                *old(dst),
            ),
    {
        let schema_units = encode_utf16_units(self.schema_name.as_str());
        let type_units = encode_utf16_units(self.db_type_name.as_str());
        if schema_units.len() > 255 {
            return Err(
                Error::Encoding(String::from_str("schema name exceeds 255 UTF-16 code units")),
            );
        }
        if type_units.len() > 255 {
            return Err(
                Error::Encoding(String::from_str("type name exceeds 255 UTF-16 code units")),
            );
        }
        match &self.columns {
            Some(cols) => {
                if cols.len() > 0xFFFE {
                    return Err(
                        Error::Encoding(String::from_str("too many columns for the 16-bit count")),
                    );
                }
                let mut r: usize = 0;
                while r < self.data.len()
                    invariant
                        r <= self.data@.len(),
                        self.columns matches Some(cs) && cs == *cols,
                        cols@.len() <= 0xFFFE,
                        forall|k: int|
                            0 <= k < r ==> (#[trigger] self.rows_view()[k]).len() == cols@.len(),
                        forall|k: int, j: int|
                            0 <= k < r && 0 <= j < cols@.len() ==> spec_compatible(
                                cols@[j].base.ty,
                                #[trigger] self.rows_view()[k][j],
                            ),
                    decreases self.data@.len() - r,
                {
                    let row = &self.data[r];
                    if row.len() != cols.len() {
                        proof {
                            assert(self.rows_view()[r as int] == row@);
                            assert(!self.wf());
                        }
                        return Err(
                            Error::Encoding(
                                String::from_str("row arity differs from the declared columns"),
                            ),
                        );
                    }
                    let mut j: usize = 0;
                    while j < row.len()
                        invariant
                            j <= row@.len(),
                            self.columns matches Some(cs) && cs == *cols,
                            row@.len() == cols@.len(),
                            row@ == self.rows_view()[r as int],
                            0 <= r < self.rows_view().len(),
                            forall|m: int|
                                0 <= m < j ==> spec_compatible(
                                    cols@[m].base.ty,
                                    #[trigger] row@[m],
                                ),
                        decreases row@.len() - j,
                    {
                        if !is_compatible(&cols[j].base.ty, &row[j]) {
                            proof {
                                assert(!self.wf());
                            }
                            return Err(
                                Error::Encoding(
                                    String::from_str(
                                        "value incompatible with declared column type",
                                    ),
                                ),
                            );
                        }
                        j += 1;
                    }
                    r += 1;
                }
            },
            None => {},
        }
        proof {
            assert(self.wf());
        }
        buf_put_u8(dst, 0xF3);
        let empty_units: Vec<u16> = Vec::new();
        proof {
            assert(empty_units@ =~= Seq::<u16>::empty());
        }
        put_b_varchar(&empty_units, dst);
        put_b_varchar(&schema_units, dst);
        put_b_varchar(&type_units, dst);
        match &self.columns {
            Some(cols) => write_columns(cols, dst),
            None => buf_put_u16_le(dst, 0xFFFF),
        }
        buf_put_u8(dst, 0);
        let ghost written_head = buf_bytes(*dst);
        proof {
            assert(self.rows_view().take(0) =~= Seq::<Seq<ColumnData>>::empty());
            assert(spec_rows_bytes(self.rows_view().take(0), self.cols_view())
                =~= Seq::<u8>::empty());
            assert(self.rows_view().skip(0) =~= self.rows_view());
            assert(buf_bytes(*dst) =~= written_head + spec_rows_bytes(
                self.rows_view().take(0),
                self.cols_view(),
            ));
        }
        let mut r: usize = 0;
        while r < self.data.len()
            invariant
                r <= self.data@.len(),
                self.wf(),
                buf_bytes(*old(dst)).len() + self.spec_bytes().len() <= usize::MAX,
                written_head == buf_bytes(*old(dst)) + seq![spec_tvp_type_byte()]
                    + spec_b_varchar_bytes(Seq::empty()) + spec_b_varchar_bytes(
                    utf16_units(self.schema_name@),
                ) + spec_b_varchar_bytes(utf16_units(self.db_type_name@))
                    + spec_colmeta_block_bytes(self.cols_view()) + seq![0u8],
                buf_bytes(*dst) == written_head + spec_rows_bytes(
                    self.rows_view().take(r as int),
                    self.cols_view(),
                ),
                spec_rows_bytes(self.rows_view(), self.cols_view()) == spec_rows_bytes(
                    self.rows_view().take(r as int),
                    self.cols_view(),
                ) + spec_rows_bytes(self.rows_view().skip(r as int), self.cols_view()),
            decreases self.data@.len() - r,
        {
            proof {
                assert(self.rows_view().skip(r as int)[0] == self.rows_view()[r as int]);
                assert(spec_rows_bytes(self.rows_view().skip(r as int), self.cols_view())
                    == spec_row_bytes(self.rows_view()[r as int], self.cols_view())
                    + spec_rows_bytes(
                    self.rows_view().skip(r as int).drop_first(),
                    self.cols_view(),
                ));
                assert(self.rows_view()[r as int] == self.data@[r as int]@);
            }
            match &self.columns {
                Some(cols) => {
                    proof {
                        assert(forall|j: int|
                            0 <= j < self.data@[r as int]@.len() ==> spec_compatible(
                                cols@[j].base.ty,
                                #[trigger] self.rows_view()[r as int][j],
                            ));
                    }
                    write_row_with(&self.data[r], cols, dst);
                },
                None => {
                    write_row_self(&self.data[r], dst);
                },
            }
            proof {
                lemma_rows_bytes_push(
                    self.rows_view().take(r as int),
                    self.cols_view(),
                    self.rows_view()[r as int],
                );
                assert(self.rows_view().take(r + 1 as int) =~= self.rows_view().take(
                    r as int,
                ).push(self.rows_view()[r as int]));
                assert(self.rows_view().skip(r as int).drop_first() =~= self.rows_view().skip(
                    r + 1 as int,
                ));
                assert(buf_bytes(*dst) =~= written_head + spec_rows_bytes(
                    self.rows_view().take(r + 1 as int),
                    self.cols_view(),
                ));
            }
            r += 1;
        }
        proof {
            assert(self.rows_view().take(self.rows_view().len() as int) =~= self.rows_view());
        }
        buf_put_u8(dst, 0);
        proof {
            assert(buf_bytes(*dst) =~= buf_bytes(*old(dst)) + self.spec_bytes());
        }
        Ok(())
    }
}

/// A 16-bit integer from its little-endian byte pair.
pub open spec fn spec_u16_from_pair(lo: u8, hi: u8) -> u16 {
    (lo as u16) | ((hi as u16) << 8)
}

/// A 32-bit integer from its little-endian bytes.
pub open spec fn spec_u32_from_le4(b0: u8, b1: u8, b2: u8, b3: u8) -> u32 {
    (b0 as u32) | ((b1 as u32) << 8) | ((b2 as u32) << 16) | ((b3 as u32) << 24)
}

/// A 64-bit integer from its little-endian bytes.
pub open spec fn spec_u64_from_le8(
    b0: u8,
    b1: u8,
    b2: u8,
    b3: u8,
    b4: u8,
    b5: u8,
    b6: u8,
    b7: u8,
) -> u64 {
    (b0 as u64) | ((b1 as u64) << 8) | ((b2 as u64) << 16) | ((b3 as u64) << 24) | ((b4
        as u64) << 32) | ((b5 as u64) << 40) | ((b6 as u64) << 48) | ((b7 as u64) << 56)
}

/// One column parsed back from the metadata block: its flags, declared
/// type and name units.
pub open spec fn spec_parsed_column(flags: u16, ty: TypeInfo, name_units: Seq<u16>) -> (
    u16,
    TypeInfo,
    Seq<u16>,
) {
    (flags, ty, name_units)
}

/// Parses a length-prefixed UTF-16 string at `pos`: the unit-count byte,
/// then that many little-endian pairs.
pub open spec fn spec_parse_b_varchar(s: Seq<u8>, pos: int) -> Option<(Seq<u16>, int)> {
    if 0 <= pos < s.len() {
        let n = s[pos] as int;
        if pos + 1 + 2 * n <= s.len() {
            Some(
                (
                    Seq::new(
                        n as nat,
                        |k: int| spec_u16_from_pair(s[pos + 1 + 2 * k], s[pos + 2 + 2 * k]),
                    ),
                    pos + 1 + 2 * n,
                ),
            )
        } else {
            None
        }
    } else {
        None
    }
}

/// Parses a type descriptor at `pos`: a fixed-length type byte alone, or
/// a variable-length type byte with its width.
pub open spec fn spec_parse_type_info(s: Seq<u8>, pos: int) -> Option<(TypeInfo, int)> {
    if 0 <= pos < s.len() {
        let b = s[pos];
        if b == 0x32 {
            Some((TypeInfo::FixedLen(FixedLenType::Bit), pos + 1))
        } else if b == 0x30 {
            Some((TypeInfo::FixedLen(FixedLenType::Int1), pos + 1))
        } else if b == 0x34 {
            Some((TypeInfo::FixedLen(FixedLenType::Int2), pos + 1))
        } else if b == 0x38 {
            Some((TypeInfo::FixedLen(FixedLenType::Int4), pos + 1))
        } else if b == 0x7F {
            Some((TypeInfo::FixedLen(FixedLenType::Int8), pos + 1))
        } else if b == 0x26 && pos + 1 < s.len() {
            Some(
                (
                    TypeInfo::VarLenSized(VarLenContext { ty: VarLenType::Intn, len: s[pos + 1] }),
                    pos + 2,
                ),
            )
        } else if b == 0x68 && pos + 1 < s.len() {
            Some(
                (
                    TypeInfo::VarLenSized(VarLenContext { ty: VarLenType::Bitn, len: s[pos + 1] }),
                    pos + 2,
                ),
            )
        } else {
            None
        }
    } else {
        None
    }
}

/// Parses one cell at `pos` under a declared type: the raw payload for a
/// fixed-length type, a length-prefixed payload for a variable-length one.
pub open spec fn spec_parse_cell_with(ti: TypeInfo, s: Seq<u8>, pos: int) -> Option<
    (ColumnData, int),
> {
    match ti {
        TypeInfo::FixedLen(t) => match t {
            FixedLenType::Int4 => if 0 <= pos && pos + 4 <= s.len() {
                Some(
                    (
                        ColumnData::I32(
                            Some(
                                spec_u32_from_le4(s[pos], s[pos + 1], s[pos + 2], s[pos + 3])
                                    as i32,
                            ),
                        ),
                        pos + 4,
                    ),
                )
            } else {
                None
            },
            FixedLenType::Int8 => if 0 <= pos && pos + 8 <= s.len() {
                Some(
                    (
                        ColumnData::I64(
                            Some(
                                spec_u64_from_le8(
                                    s[pos],
                                    s[pos + 1],
                                    s[pos + 2],
                                    s[pos + 3],
                                    s[pos + 4],
                                    s[pos + 5],
                                    s[pos + 6],
                                    s[pos + 7],
                                ) as i64,
                            ),
                        ),
                        pos + 8,
                    ),
                )
            } else {
                None
            },
            FixedLenType::Bit => if 0 <= pos && pos + 1 <= s.len() {
                Some((ColumnData::Bit(Some(s[pos] != 0)), pos + 1))
            } else {
                None
            },
            _ => None,
        },
        TypeInfo::VarLenSized(ctx) => if 0 <= pos < s.len() {
            let n = s[pos];
            match ctx.ty {
                VarLenType::Intn => if ctx.len == 4 {
                    if n == 0 {
                        Some((ColumnData::I32(None), pos + 1))
                    } else if n == 4 && pos + 5 <= s.len() {
                        Some(
                            (
                                ColumnData::I32(
                                    Some(
                                        spec_u32_from_le4(
                                            s[pos + 1],
                                            s[pos + 2],
                                            s[pos + 3],
                                            s[pos + 4],
                                        ) as i32,
                                    ),
                                ),
                                pos + 5,
                            ),
                        )
                    } else {
                        None
                    }
                } else if ctx.len == 8 {
                    if n == 0 {
                        Some((ColumnData::I64(None), pos + 1))
                    } else if n == 8 && pos + 9 <= s.len() {
                        Some(
                            (
                                ColumnData::I64(
                                    Some(
                                        spec_u64_from_le8(
                                            s[pos + 1],
                                            s[pos + 2],
                                            s[pos + 3],
                                            s[pos + 4],
                                            s[pos + 5],
                                            s[pos + 6],
                                            s[pos + 7],
                                            s[pos + 8],
                                        ) as i64,
                                    ),
                                ),
                                pos + 9,
                            ),
                        )
                    } else {
                        None
                    }
                } else {
                    None
                },
                VarLenType::Bitn => if ctx.len == 1 {
                    if n == 0 {
                        Some((ColumnData::Bit(None), pos + 1))
                    } else if n == 1 && pos + 2 <= s.len() {
                        Some((ColumnData::Bit(Some(s[pos + 1] != 0)), pos + 2))
                    } else {
                        None
                    }
                } else {
                    None
                },
            }
        } else {
            None
        },
    }
}

/// Parses one self-describing cell: its inline type descriptor, then the
/// value under that type.
pub open spec fn spec_parse_cell_self(s: Seq<u8>, pos: int) -> Option<(ColumnData, int)> {
    match spec_parse_type_info(s, pos) {
        Some((ti, p2)) => spec_parse_cell_with(ti, s, p2),
        None => None,
    }
}

/// Parses exactly one cell per declared type, in order.
pub open spec fn spec_parse_cells_with(s: Seq<u8>, pos: int, tys: Seq<TypeInfo>) -> Option<
    (Seq<ColumnData>, int),
>
    decreases tys.len(),
{
    if tys.len() == 0 {
        Some((Seq::empty(), pos))
    } else {
        match spec_parse_cell_with(tys[0], s, pos) {
            Some((c, p2)) => match spec_parse_cells_with(s, p2, tys.drop_first()) {
                Some((rest, p3)) => Some((seq![c] + rest, p3)),
                None => None,
            },
            None => None,
        }
    }
}

/// Parses self-describing cells until the next row or end token; `fuel`
/// bounds the recursion.
pub open spec fn spec_parse_cells_self(s: Seq<u8>, pos: int, fuel: nat) -> Option<
    (Seq<ColumnData>, int),
>
    decreases fuel,
{
    if fuel == 0 {
        None
    } else if 0 <= pos < s.len() && (s[pos] == 0 || s[pos] == 1) {
        Some((Seq::empty(), pos))
    } else {
        match spec_parse_cell_self(s, pos) {
            Some((c, p2)) => match spec_parse_cells_self(s, p2, (fuel - 1) as nat) {
                Some((rest, p3)) => Some((seq![c] + rest, p3)),
                None => None,
            },
            None => None,
        }
    }
}

/// Parses `n` columns of the metadata block, in order: four reserved
/// bytes, the flags, the type descriptor, the name.
pub open spec fn spec_parse_columns(s: Seq<u8>, pos: int, n: nat) -> Option<
    (Seq<(u16, TypeInfo, Seq<u16>)>, int),
>
    decreases n,
{
    if n == 0 {
        Some((Seq::empty(), pos))
    } else if 0 <= pos && pos + 6 <= s.len() {
        let flags = spec_u16_from_pair(s[pos + 4], s[pos + 5]);
        match spec_parse_type_info(s, pos + 6) {
            Some((ti, p2)) => match spec_parse_b_varchar(s, p2) {
                Some((name_units, p3)) => match spec_parse_columns(s, p3, (n - 1) as nat) {
                    Some((rest, p4)) => Some(
                        (seq![spec_parsed_column(flags, ti, name_units)] + rest, p4),
                    ),
                    None => None,
                },
                None => None,
            },
            None => None,
        }
    } else {
        None
    }
}

/// Parses rows until the end token, which it consumes; each row is the
/// row token then its cells, typed by the declared columns when present
/// and self-describing otherwise. `fuel` bounds the recursion.
pub open spec fn spec_parse_rows(
    s: Seq<u8>,
    pos: int,
    tys: Option<Seq<TypeInfo>>,
    fuel: nat,
) -> Option<(Seq<Seq<ColumnData>>, int)>
    decreases fuel,
{
    if fuel == 0 {
        None
    } else if 0 <= pos < s.len() && s[pos] == 0 {
        Some((Seq::empty(), pos + 1))
    } else if 0 <= pos < s.len() && s[pos] == 1 {
        let row_result = match tys {
            Some(ts) => spec_parse_cells_with(s, pos + 1, ts),
            None => spec_parse_cells_self(s, pos + 1, (s.len() + 1) as nat),
        };
        match row_result {
            Some((row, p2)) => match spec_parse_rows(s, p2, tys, (fuel - 1) as nat) {
                Some((rest, p3)) => Some((seq![row] + rest, p3)),
                None => None,
            },
            None => None,
        }
    } else {
        None
    }
}

/// What parsing a whole table-valued-parameter block yields: the three
/// name-unit sequences (database, schema, type), the parsed columns when
/// metadata was present, and the rows.
pub open spec fn spec_parse_tvp(s: Seq<u8>) -> Option<
    (Seq<u16>, Seq<u16>, Seq<u16>, Option<Seq<(u16, TypeInfo, Seq<u16>)>>, Seq<Seq<ColumnData>>),
> {
    if s.len() > 0 && s[0] == spec_tvp_type_byte() {
        match spec_parse_b_varchar(s, 1) {
            Some((db_units, p1)) => match spec_parse_b_varchar(s, p1) {
                Some((schema_units, p2)) => match spec_parse_b_varchar(s, p2) {
                    Some((ty_units, p3)) => if p3 + 2 <= s.len() {
                        let cnt = spec_u16_from_pair(s[p3], s[p3 + 1]);
                        let cols_result = if cnt == 0xFFFF {
                            Some((None, p3 + 2))
                        } else {
                            match spec_parse_columns(s, p3 + 2, cnt as nat) {
                                Some((cols, p4)) => Some((Some(cols), p4)),
                                None => None,
                            }
                        };
                        match cols_result {
                            Some((cols, p4)) => if p4 < s.len() && s[p4] == 0 {
                                let tys = match cols {
                                    Some(cs) => Some(
                                        cs.map_values(|c: (u16, TypeInfo, Seq<u16>)| c.1),
                                    ),
                                    None => None,
                                };
                                match spec_parse_rows(s, p4 + 1, tys, (s.len() + 1) as nat) {
                                    Some((rows, p5)) => if p5 == s.len() {
                                        Some((db_units, schema_units, ty_units, cols, rows))
                                    } else {
                                        None
                                    },
                                    None => None,
                                }
                            } else {
                                None
                            },
                            None => None,
                        }
                    } else {
                        None
                    },
                    None => None,
                },
                None => None,
            },
            None => None,
        }
    } else {
        None
    }
}

proof fn lemma_u16_pair_roundtrip(x: u16)
    ensures
        spec_u16_from_pair((x & 0xff) as u8, ((x >> 8) & 0xff) as u8) == x,
{
    assert((((x & 0xff) as u8) as u16) | ((((x >> 8) & 0xff) as u8) as u16) << 8 == x)
        by (bit_vector);
}

proof fn lemma_u32_le4_roundtrip(x: u32)
    ensures
        spec_u32_from_le4(
            (x & 0xff) as u8,
            ((x >> 8) & 0xff) as u8,
            ((x >> 16) & 0xff) as u8,
            ((x >> 24) & 0xff) as u8,
        ) == x,
{
    assert((((x & 0xff) as u8) as u32) | ((((x >> 8) & 0xff) as u8) as u32) << 8 | ((((x >> 16)
        & 0xff) as u8) as u32) << 16 | ((((x >> 24) & 0xff) as u8) as u32) << 24 == x)
        by (bit_vector);
}

proof fn lemma_u64_le8_roundtrip(x: u64)
    ensures
        spec_u64_from_le8(
            (x & 0xff) as u8,
            ((x >> 8) & 0xff) as u8,
            ((x >> 16) & 0xff) as u8,
            ((x >> 24) & 0xff) as u8,
            ((x >> 32) & 0xff) as u8,
            ((x >> 40) & 0xff) as u8,
            ((x >> 48) & 0xff) as u8,
            ((x >> 56) & 0xff) as u8,
        ) == x,
{
    assert((((x & 0xff) as u8) as u64) | ((((x >> 8) & 0xff) as u8) as u64) << 8 | ((((x >> 16)
        & 0xff) as u8) as u64) << 16 | ((((x >> 24) & 0xff) as u8) as u64) << 24 | ((((x >> 32)
        & 0xff) as u8) as u64) << 32 | ((((x >> 40) & 0xff) as u8) as u64) << 40 | ((((x >> 48)
        & 0xff) as u8) as u64) << 48 | ((((x >> 56) & 0xff) as u8) as u64) << 56 == x)
        by (bit_vector);
}

proof fn lemma_i32_cast_roundtrip(v: i32)
    ensures
        ((v as u32) as i32) == v,
{
    assert(((v as u32) as i32) == v) by (bit_vector);
}

proof fn lemma_i64_cast_roundtrip(v: i64)
    ensures
        ((v as u64) as i64) == v,
{
    assert(((v as u64) as i64) == v) by (bit_vector);
}

/// The bytes of unit `k` sit at offsets `2k` and `2k + 1`.
proof fn lemma_units_le_bytes_index(units: Seq<u16>, k: int)
    requires
        0 <= k < units.len(),
    ensures
        spec_units_le_bytes(units)[2 * k] == (units[k] & 0xff) as u8,
        spec_units_le_bytes(units)[2 * k + 1] == ((units[k] >> 8) & 0xff) as u8,
    decreases k,
{
    lemma_units_le_bytes_len(units);
    lemma_units_le_bytes_len(units.drop_first());
    if k == 0 {
    } else {
        lemma_units_le_bytes_index(units.drop_first(), k - 1);
    }
}

/// Parsing at the start of an encoded length-prefixed string recovers its
/// units and stops right after them.
proof fn lemma_parse_b_varchar_inv(prefix: Seq<u8>, units: Seq<u16>, suffix: Seq<u8>)
    requires
        units.len() <= 255,
    ensures
        spec_parse_b_varchar(
            prefix + spec_b_varchar_bytes(units) + suffix,
            prefix.len() as int,
        ) == Some((units, (prefix.len() + 1 + 2 * units.len()) as int)),
{
    let s = prefix + spec_b_varchar_bytes(units) + suffix;
    let pos = prefix.len() as int;
    lemma_units_le_bytes_len(units);
    assert(s[pos] == units.len() as u8);
    assert(s[pos] as int == units.len());
    let n = s[pos] as int;
    assert(pos + 1 + 2 * n <= s.len());
    let parsed = Seq::new(
        n as nat,
        |k: int| spec_u16_from_pair(s[pos + 1 + 2 * k], s[pos + 2 + 2 * k]),
    );
    assert forall|k: int| 0 <= k < n implies parsed[k] == units[k] by {
        lemma_units_le_bytes_index(units, k);
        assert(s[pos + 1 + 2 * k] == spec_units_le_bytes(units)[2 * k]);
        assert(s[pos + 2 + 2 * k] == spec_units_le_bytes(units)[2 * k + 1]);
        lemma_u16_pair_roundtrip(units[k]);
    }
    assert(parsed =~= units);
}

/// Parsing at the start of an encoded type descriptor recovers it.
proof fn lemma_parse_type_info_inv(prefix: Seq<u8>, ti: TypeInfo, suffix: Seq<u8>)
    ensures
        spec_parse_type_info(prefix + spec_type_info_bytes(ti) + suffix, prefix.len() as int)
            == Some((ti, (prefix.len() + spec_type_info_bytes(ti).len()) as int)),
{
    let s = prefix + spec_type_info_bytes(ti) + suffix;
    let pos = prefix.len() as int;
    match ti {
        TypeInfo::FixedLen(t) => {
            assert(s[pos] == spec_fixed_type_byte(t));
        },
        TypeInfo::VarLenSized(c) => {
            assert(s[pos] == spec_var_type_byte(c.ty));
            assert(s[pos + 1] == c.len);
        },
    }
}

/// Parsing at the start of an encoded cell under its declared type
/// recovers the value and stops right after it.
proof fn lemma_parse_cell_with_inv(prefix: Seq<u8>, ti: TypeInfo, c: ColumnData, suffix: Seq<u8>)
    requires
        spec_compatible(ti, c),
    ensures
        spec_parse_cell_with(ti, prefix + spec_cell_bytes(ti, c) + suffix, prefix.len() as int)
            == Some((c, (prefix.len() + spec_cell_bytes(ti, c).len()) as int)),
{
    let s = prefix + spec_cell_bytes(ti, c) + suffix;
    let pos = prefix.len() as int;
    match (ti, c) {
        (TypeInfo::FixedLen(FixedLenType::Int4), ColumnData::I32(Some(v))) => {
            lemma_u32_le4_roundtrip(v as u32);
            lemma_i32_cast_roundtrip(v);
            assert(s[pos] == (v as u32 & 0xff) as u8);
            assert(s[pos + 1] == ((v as u32 >> 8) & 0xff) as u8);
            assert(s[pos + 2] == ((v as u32 >> 16) & 0xff) as u8);
            assert(s[pos + 3] == ((v as u32 >> 24) & 0xff) as u8);
        },
        (TypeInfo::FixedLen(FixedLenType::Int8), ColumnData::I64(Some(v))) => {
            lemma_u64_le8_roundtrip(v as u64);
            lemma_i64_cast_roundtrip(v);
            assert(s[pos] == (v as u64 & 0xff) as u8);
            assert(s[pos + 1] == ((v as u64 >> 8) & 0xff) as u8);
            assert(s[pos + 2] == ((v as u64 >> 16) & 0xff) as u8);
            assert(s[pos + 3] == ((v as u64 >> 24) & 0xff) as u8);
            assert(s[pos + 4] == ((v as u64 >> 32) & 0xff) as u8);
            assert(s[pos + 5] == ((v as u64 >> 40) & 0xff) as u8);
            assert(s[pos + 6] == ((v as u64 >> 48) & 0xff) as u8);
            assert(s[pos + 7] == ((v as u64 >> 56) & 0xff) as u8);
        },
        (TypeInfo::FixedLen(FixedLenType::Bit), ColumnData::Bit(Some(b))) => {
            assert(s[pos] == (if b { 1u8 } else { 0u8 }));
        },
        (TypeInfo::VarLenSized(ctx), ColumnData::I32(ov)) => {
            match ov {
                Some(v) => {
                    lemma_u32_le4_roundtrip(v as u32);
                    lemma_i32_cast_roundtrip(v);
                    assert(s[pos] == 4u8);
                    assert(s[pos + 1] == (v as u32 & 0xff) as u8);
                    assert(s[pos + 2] == ((v as u32 >> 8) & 0xff) as u8);
                    assert(s[pos + 3] == ((v as u32 >> 16) & 0xff) as u8);
                    assert(s[pos + 4] == ((v as u32 >> 24) & 0xff) as u8);
                },
                None => {
                    assert(s[pos] == 0u8);
                },
            }
        },
        (TypeInfo::VarLenSized(ctx), ColumnData::I64(ov)) => {
            match ov {
                Some(v) => {
                    lemma_u64_le8_roundtrip(v as u64);
                    lemma_i64_cast_roundtrip(v);
                    assert(s[pos] == 8u8);
                    assert(s[pos + 1] == (v as u64 & 0xff) as u8);
                    assert(s[pos + 2] == ((v as u64 >> 8) & 0xff) as u8);
                    assert(s[pos + 3] == ((v as u64 >> 16) & 0xff) as u8);
                    assert(s[pos + 4] == ((v as u64 >> 24) & 0xff) as u8);
                    assert(s[pos + 5] == ((v as u64 >> 32) & 0xff) as u8);
                    assert(s[pos + 6] == ((v as u64 >> 40) & 0xff) as u8);
                    assert(s[pos + 7] == ((v as u64 >> 48) & 0xff) as u8);
                    assert(s[pos + 8] == ((v as u64 >> 56) & 0xff) as u8);
                },
                None => {
                    assert(s[pos] == 0u8);
                },
            }
        },
        (TypeInfo::VarLenSized(ctx), ColumnData::Bit(ov)) => {
            match ov {
                Some(b) => {
                    assert(s[pos] == 1u8);
                    assert(s[pos + 1] == (if b { 1u8 } else { 0u8 }));
                },
                None => {
                    assert(s[pos] == 0u8);
                },
            }
        },
        _ => {},
    }
}

/// Parsing at the start of an encoded self-describing cell recovers the
/// value and stops right after it.
proof fn lemma_parse_cell_self_inv(prefix: Seq<u8>, c: ColumnData, suffix: Seq<u8>)
    ensures
        spec_parse_cell_self(prefix + spec_cell_bytes_self(c) + suffix, prefix.len() as int)
            == Some((c, (prefix.len() + spec_cell_bytes_self(c).len()) as int)),
{
    let nt = c.spec_natural_type();
    let tib = spec_type_info_bytes(nt);
    let cb = spec_cell_bytes(nt, c);
    let s = prefix + spec_cell_bytes_self(c) + suffix;
    assert(s =~= prefix + tib + (cb + suffix));
    lemma_parse_type_info_inv(prefix, nt, cb + suffix);
    assert(spec_compatible(nt, c));
    assert(s =~= (prefix + tib) + cb + suffix);
    lemma_parse_cell_with_inv(prefix + tib, nt, c, suffix);
}

/// Parsing at the start of an encoded row body under declared types
/// recovers all its cells in order.
proof fn lemma_parse_cells_with_inv(
    prefix: Seq<u8>,
    row: Seq<ColumnData>,
    tys: Seq<TypeInfo>,
    suffix: Seq<u8>,
)
    requires
        row.len() == tys.len(),
        forall|j: int| 0 <= j < row.len() ==> spec_compatible(tys[j], #[trigger] row[j]),
    ensures
        spec_parse_cells_with(
            prefix + spec_cells_bytes_with(row, tys) + suffix,
            prefix.len() as int,
            tys,
        ) == Some((row, (prefix.len() + spec_cells_bytes_with(row, tys).len()) as int)),
    decreases row.len(),
{
    let s = prefix + spec_cells_bytes_with(row, tys) + suffix;
    if row.len() == 0 {
        assert(spec_cells_bytes_with(row, tys) =~= Seq::<u8>::empty());
        assert(s =~= prefix + suffix);
        assert(row =~= Seq::<ColumnData>::empty());
    } else {
        let cb = spec_cell_bytes(tys[0], row[0]);
        let restb = spec_cells_bytes_with(row.drop_first(), tys.drop_first());
        assert(s =~= prefix + cb + (restb + suffix));
        lemma_parse_cell_with_inv(prefix, tys[0], row[0], restb + suffix);
        assert(s =~= (prefix + cb) + restb + suffix);
        lemma_parse_cells_with_inv(prefix + cb, row.drop_first(), tys.drop_first(), suffix);
        assert(seq![row[0]] + row.drop_first() =~= row);
    }
}

/// A self-describing row body is at least one byte per cell.
proof fn lemma_cells_self_len_ge(row: Seq<ColumnData>)
    ensures
        spec_cells_bytes_self(row).len() >= row.len(),
    decreases row.len(),
{
    if row.len() > 0 {
        lemma_cells_self_len_ge(row.drop_first());
    }
}

/// Parsing self-describing cells at the start of an encoded row body,
/// followed by a row or end token, recovers all the cells in order.
proof fn lemma_parse_cells_self_inv(
    prefix: Seq<u8>,
    row: Seq<ColumnData>,
    suffix: Seq<u8>,
    fuel: nat,
)
    requires
        suffix.len() > 0,
        suffix[0] == 0 || suffix[0] == 1,
        fuel >= row.len() + 1,
    ensures
        spec_parse_cells_self(
            prefix + spec_cells_bytes_self(row) + suffix,
            prefix.len() as int,
            fuel,
        ) == Some((row, (prefix.len() + spec_cells_bytes_self(row).len()) as int)),
    decreases row.len(),
{
    let s = prefix + spec_cells_bytes_self(row) + suffix;
    let pos = prefix.len() as int;
    if row.len() == 0 {
        assert(spec_cells_bytes_self(row) =~= Seq::<u8>::empty());
        assert(s =~= prefix + suffix);
        assert(s[pos] == suffix[0]);
        assert(row =~= Seq::<ColumnData>::empty());
    } else {
        let cb = spec_cell_bytes_self(row[0]);
        let restb = spec_cells_bytes_self(row.drop_first());
        assert(s =~= prefix + cb + (restb + suffix));
        assert(cb[0] == spec_var_type_byte(row[0].spec_natural_type()->VarLenSized_0.ty));
        assert(s[pos] == cb[0]);
        assert(s[pos] != 0 && s[pos] != 1);
        lemma_parse_cell_self_inv(prefix, row[0], restb + suffix);
        assert(s =~= (prefix + cb) + restb + suffix);
        lemma_parse_cells_self_inv(prefix + cb, row.drop_first(), suffix, (fuel - 1) as nat);
        assert(seq![row[0]] + row.drop_first() =~= row);
    }
}

/// The declared types of an optional column sequence.
pub open spec fn spec_tys_of(cols: Option<Seq<MetaDataColumn>>) -> Option<Seq<TypeInfo>> {
    match cols {
        Some(cs) => Some(cs.map_values(|c: MetaDataColumn| c.base.ty)),
        None => None,
    }
}

/// Parsing at the start of an encoded column-metadata body recovers each
/// column's flags and type, with an empty name.
proof fn lemma_parse_columns_inv(prefix: Seq<u8>, cols: Seq<MetaDataColumn>, suffix: Seq<u8>)
    ensures
        spec_parse_columns(
            prefix + spec_columns_bytes(cols) + suffix,
            prefix.len() as int,
            cols.len() as nat,
        ) == Some(
            (
                cols.map_values(
                    |c: MetaDataColumn| spec_parsed_column(c.base.flags, c.base.ty, Seq::empty()),
                ),
                (prefix.len() + spec_columns_bytes(cols).len()) as int,
            ),
        ),
    decreases cols.len(),
{
    let s = prefix + spec_columns_bytes(cols) + suffix;
    let pos = prefix.len() as int;
    let mapped = cols.map_values(
        |c: MetaDataColumn| spec_parsed_column(c.base.flags, c.base.ty, Seq::empty()),
    );
    if cols.len() == 0 {
        assert(spec_columns_bytes(cols) =~= Seq::<u8>::empty());
        assert(s =~= prefix + suffix);
        assert(mapped =~= Seq::<(u16, TypeInfo, Seq<u16>)>::empty());
    } else {
        let c0 = cols[0];
        let head6 = u32_le_bytes(0) + u16_le_bytes(c0.base.flags);
        let tib = spec_type_info_bytes(c0.base.ty);
        let nameb = spec_b_varchar_bytes(Seq::<u16>::empty());
        let restb = spec_columns_bytes(cols.drop_first());
        assert(spec_column_bytes(c0) =~= head6 + tib + nameb);
        assert(s =~= prefix + (head6 + tib + nameb) + restb + suffix);
        assert(s[pos + 4] == (c0.base.flags & 0xff) as u8);
        assert(s[pos + 5] == ((c0.base.flags >> 8) & 0xff) as u8);
        lemma_u16_pair_roundtrip(c0.base.flags);
        assert(s =~= (prefix + head6) + tib + (nameb + restb + suffix));
        lemma_parse_type_info_inv(prefix + head6, c0.base.ty, nameb + restb + suffix);
        assert(s =~= (prefix + head6 + tib) + nameb + (restb + suffix));
        lemma_parse_b_varchar_inv(prefix + head6 + tib, Seq::<u16>::empty(), restb + suffix);
        assert(s =~= (prefix + spec_column_bytes(c0)) + restb + suffix);
        lemma_parse_columns_inv(prefix + spec_column_bytes(c0), cols.drop_first(), suffix);
        let rest_mapped = cols.drop_first().map_values(
            |c: MetaDataColumn| spec_parsed_column(c.base.flags, c.base.ty, Seq::empty()),
        );
        assert(seq![spec_parsed_column(c0.base.flags, c0.base.ty, Seq::<u16>::empty())]
            + rest_mapped =~= mapped);
    }
}

/// The rows section is at least one byte per row.
proof fn lemma_rows_bytes_len_ge(rows: Seq<Seq<ColumnData>>, cols: Option<Seq<MetaDataColumn>>)
    ensures
        spec_rows_bytes(rows, cols).len() >= rows.len(),
    decreases rows.len(),
{
    if rows.len() > 0 {
        lemma_rows_bytes_len_ge(rows.drop_first(), cols);
    }
}

/// Parsing at the start of an encoded rows section, closed by its end
/// token, recovers the rows in order and consumes the end token.
#[verifier::rlimit(100)]
#[verifier::spinoff_prover]
proof fn lemma_parse_rows_inv(
    prefix: Seq<u8>,
    rows: Seq<Seq<ColumnData>>,
    cols: Option<Seq<MetaDataColumn>>,
    suffix: Seq<u8>,
    fuel: nat,
)
    requires
        fuel >= rows.len() + 1,
        match cols {
            Some(cs) => forall|r: int|
                0 <= r < rows.len() ==> (#[trigger] rows[r]).len() == cs.len() && forall|j: int|
                    0 <= j < cs.len() ==> spec_compatible(cs[j].base.ty, #[trigger] rows[r][j]),
            None => true,
        },
    ensures
        spec_parse_rows(
            prefix + spec_rows_bytes(rows, cols) + seq![0u8] + suffix,
            prefix.len() as int,
            spec_tys_of(cols),
            fuel,
        ) == Some((rows, (prefix.len() + spec_rows_bytes(rows, cols).len() + 1) as int)),
    decreases rows.len(),
{
    let s = prefix + spec_rows_bytes(rows, cols) + seq![0u8] + suffix;
    let pos = prefix.len() as int;
    if rows.len() == 0 {
        assert(spec_rows_bytes(rows, cols) =~= Seq::<u8>::empty());
        assert(s =~= prefix + seq![0u8] + suffix);
        assert(s[pos] == 0u8);
        assert(rows =~= Seq::<Seq<ColumnData>>::empty());
    } else {
        let row0 = rows[0];
        let rb = spec_row_bytes(row0, cols);
        let restb = spec_rows_bytes(rows.drop_first(), cols);
        assert(s =~= prefix + rb + restb + seq![0u8] + suffix);
        assert(s[pos] == 1u8);
        let after_row = restb + seq![0u8] + suffix;
        match cols {
            Some(cs) => {
                let ts = cs.map_values(|c: MetaDataColumn| c.base.ty);
                let cellsb = spec_cells_bytes_with(row0, ts);
                assert(rb =~= seq![1u8] + cellsb);
                assert(s =~= (prefix + seq![1u8]) + cellsb + after_row);
                assert(forall|j: int|
                    0 <= j < row0.len() ==> spec_compatible(ts[j], #[trigger] row0[j]));
                lemma_parse_cells_with_inv(prefix + seq![1u8], row0, ts, after_row);
            },
            None => {
                let cellsb = spec_cells_bytes_self(row0);
                assert(rb =~= seq![1u8] + cellsb);
                assert(s =~= (prefix + seq![1u8]) + cellsb + after_row);
                if rows.len() == 1 {
                    assert(restb =~= Seq::<u8>::empty());
                    assert(after_row =~= seq![0u8] + suffix);
                    assert(after_row[0] == 0u8);
                } else {
                    assert(rows.drop_first().len() > 0);
                    assert(restb[0] == 1u8);
                    assert(after_row[0] == 1u8);
                }
                lemma_cells_self_len_ge(row0);
                assert(row0.len() + 1 <= s.len() + 1);
                lemma_parse_cells_self_inv(
                    prefix + seq![1u8],
                    row0,
                    after_row,
                    (s.len() + 1) as nat,
                );
            },
        }
        assert(s =~= (prefix + rb) + restb + seq![0u8] + suffix);
        lemma_parse_rows_inv(prefix + rb, rows.drop_first(), cols, suffix, (fuel - 1) as nat);
        assert(seq![row0] + rows.drop_first() =~= rows);
    }
}

/// The round trip of the table-valued-parameter block: parsing the exact
/// bytes a well-formed parameter encodes to yields back the same database,
/// schema and type names (as UTF-16 units), the same column count, flags
/// and declared types, and the same row values.
#[verifier::rlimit(100)]
pub proof fn lemma_tvp_round_trip(t: TypeInfoTvp)
    requires
        t.wf(),
    ensures
        spec_parse_tvp(t.spec_bytes()) matches Some(p) && {
            &&& p.0 == Seq::<u16>::empty()
            &&& p.1 == utf16_units(t.schema_name@)
            &&& p.2 == utf16_units(t.db_type_name@)
            &&& match t.cols_view() {
                Some(cs) => p.3 matches Some(pc) && pc.len() == cs.len() && forall|k: int|
                    0 <= k < cs.len() ==> (#[trigger] pc[k]).0 == cs[k].base.flags && pc[k].1
                        == cs[k].base.ty && pc[k].2 == Seq::<u16>::empty(),
                None => p.3 is None,
            }
            &&& p.4 == t.rows_view()
        },
{
    let s = t.spec_bytes();
    let h0 = seq![spec_tvp_type_byte()];
    let dbb = spec_b_varchar_bytes(Seq::<u16>::empty());
    let su = utf16_units(t.schema_name@);
    let tu = utf16_units(t.db_type_name@);
    let schb = spec_b_varchar_bytes(su);
    let tyb = spec_b_varchar_bytes(tu);
    let colb = spec_colmeta_block_bytes(t.cols_view());
    let rwb = spec_rows_bytes(t.rows_view(), t.cols_view());
    lemma_units_le_bytes_len(Seq::<u16>::empty());
    lemma_units_le_bytes_len(su);
    lemma_units_le_bytes_len(tu);
    assert(s =~= h0 + dbb + schb + tyb + colb + seq![0u8] + rwb + seq![0u8]);
    assert(s[0] == spec_tvp_type_byte());
    assert(dbb =~= spec_b_varchar_bytes(Seq::<u16>::empty()));
    assert(s =~= h0 + dbb + (schb + tyb + colb + seq![0u8] + rwb + seq![0u8]));
    lemma_parse_b_varchar_inv(h0, Seq::<u16>::empty(), schb + tyb + colb + seq![0u8] + rwb
        + seq![0u8]);
    let p1 = 2int;
    assert(s =~= (h0 + dbb) + schb + (tyb + colb + seq![0u8] + rwb + seq![0u8]));
    lemma_parse_b_varchar_inv(h0 + dbb, su, tyb + colb + seq![0u8] + rwb + seq![0u8]);
    let p2 = p1 + 1 + 2 * su.len();
    assert(s =~= (h0 + dbb + schb) + tyb + (colb + seq![0u8] + rwb + seq![0u8]));
    lemma_parse_b_varchar_inv(h0 + dbb + schb, tu, colb + seq![0u8] + rwb + seq![0u8]);
    let p3 = p2 + 1 + 2 * tu.len();
    let head = h0 + dbb + schb + tyb;
    assert(head.len() == p3);
    lemma_rows_bytes_len_ge(t.rows_view(), t.cols_view());
    match t.cols_view() {
        None => {
            assert(colb =~= u16_le_bytes(0xFFFF));
            assert(s[p3] == (0xFFFFu16 & 0xff) as u8);
            assert(s[p3 + 1] == ((0xFFFFu16 >> 8) & 0xff) as u8);
            lemma_u16_pair_roundtrip(0xFFFF);
            let p4 = p3 + 2;
            assert(s[p4] == 0u8);
            assert(s =~= (head + colb + seq![0u8]) + rwb + seq![0u8] + Seq::<u8>::empty());
            lemma_parse_rows_inv(
                head + colb + seq![0u8],
                t.rows_view(),
                t.cols_view(),
                Seq::<u8>::empty(),
                (s.len() + 1) as nat,
            );
            assert(spec_tys_of(t.cols_view()) is None);
            let p5 = (head + colb + seq![0u8]).len() + rwb.len() + 1;
            assert(p5 == s.len());
        },
        Some(cs) => {
            let cnt = cs.len() as u16;
            assert(colb =~= u16_le_bytes(cnt) + spec_columns_bytes(cs));
            assert(s[p3] == (cnt & 0xff) as u8);
            assert(s[p3 + 1] == ((cnt >> 8) & 0xff) as u8);
            lemma_u16_pair_roundtrip(cnt);
            assert(cs.len() <= 0xFFFE);
            assert(cnt != 0xFFFF);
            assert(cnt as nat == cs.len());
            assert(s =~= (head + u16_le_bytes(cnt)) + spec_columns_bytes(cs) + (seq![0u8] + rwb
                + seq![0u8]));
            lemma_parse_columns_inv(head + u16_le_bytes(cnt), cs, seq![0u8] + rwb + seq![0u8]);
            let p4 = (head + u16_le_bytes(cnt)).len() + spec_columns_bytes(cs).len();
            assert(s[p4 as int] == 0u8);
            let parsed_cols = cs.map_values(
                |c: MetaDataColumn| spec_parsed_column(c.base.flags, c.base.ty, Seq::empty()),
            );
            assert(parsed_cols.map_values(|c: (u16, TypeInfo, Seq<u16>)| c.1) =~= cs.map_values(
                |c: MetaDataColumn| c.base.ty,
            ));
            assert(s =~= (head + colb + seq![0u8]) + rwb + seq![0u8] + Seq::<u8>::empty());
            lemma_parse_rows_inv(
                head + colb + seq![0u8],
                t.rows_view(),
                t.cols_view(),
                Seq::<u8>::empty(),
                (s.len() + 1) as nat,
            );
            let p5 = (head + colb + seq![0u8]).len() + rwb.len() + 1;
            assert(p5 == s.len());
        },
    }
}

/// One column read back from the metadata block.
#[derive(Debug, Clone, PartialEq)]
pub struct ParsedColumn {
    pub flags: u16,
    pub ty: TypeInfo,
    pub name_units: Vec<u16>,
}

impl ParsedColumn {
    /// The column as the parsed triple.
    pub open spec fn as_triple(self) -> (u16, TypeInfo, Seq<u16>) {
        (self.flags, self.ty, self.name_units@)
    }
}

/// A whole table-valued-parameter block read back from its bytes.
#[derive(Debug)]
pub struct ParsedTvp {
    pub db_name_units: Vec<u16>,
    pub schema_units: Vec<u16>,
    pub type_units: Vec<u16>,
    pub columns: Option<Vec<ParsedColumn>>,
    pub rows: Vec<Vec<ColumnData>>,
}

impl ParsedTvp {
    /// The parsed columns as triples, when metadata was present.
    pub open spec fn cols_view(self) -> Option<Seq<(u16, TypeInfo, Seq<u16>)>> {
        match self.columns {
            Some(cs) => Some(cs@.map_values(|c: ParsedColumn| c.as_triple())),
            None => None,
        }
    }

    /// The parsed rows as a sequence of cell sequences.
    pub open spec fn rows_view(self) -> Seq<Seq<ColumnData>> {
        self.rows@.map_values(|r: Vec<ColumnData>| r@)
    }
}

/// The error reported for bytes that do not follow the block's grammar.
fn malformed_block_error() -> (r: Error)
    ensures
        r is Protocol,
{
    Error::Protocol(String::from_str("malformed table parameter block"))
}

/// Reads a length-prefixed UTF-16 string.
fn parse_b_varchar_at(s: &[u8], pos: usize) -> (r: Result<(Vec<u16>, usize), Error>)
    requires
        pos <= s@.len(),
    ensures
        match r {
            Ok((units, p)) => spec_parse_b_varchar(s@, pos as int) == Some((units@, p as int))
                && p <= s@.len(),
            Err(e) => spec_parse_b_varchar(s@, pos as int) is None && e is Protocol,
        },
{
    if pos >= s.len() {
        return Err(malformed_block_error());
    }
    let n: usize = s[pos] as usize;
    if (s.len() - pos - 1) / 2 < n {
        return Err(malformed_block_error());
    }
    let mut units: Vec<u16> = Vec::new();
    let mut k: usize = 0;
    let ghost expected = Seq::new(
        n as nat,
        |j: int| spec_u16_from_pair(s@[pos + 1 + 2 * j], s@[pos + 2 + 2 * j]),
    );
    while k < n
        invariant
            k <= n,
            n == s@[pos as int] as int,
            pos + 1 + 2 * n <= s@.len(),
            s@.len() <= usize::MAX,
            expected == Seq::new(
                n as nat,
                |j: int| spec_u16_from_pair(s@[pos + 1 + 2 * j], s@[pos + 2 + 2 * j]),
            ),
            units@.len() == k,
            forall|j: int| 0 <= j < k ==> units@[j] == expected[j],
        decreases n - k,
    {
        let lo = s[pos + 1 + 2 * k];
        let hi = s[pos + 2 + 2 * k];
        let u: u16 = (lo as u16) | ((hi as u16) << 8);
        units.push(u);
        k += 1;
    }
    proof {
        assert(units@ =~= expected);
    }
    Ok((units, pos + 1 + 2 * n))
}

/// Reads a type descriptor.
fn parse_type_info_at(s: &[u8], pos: usize) -> (r: Result<(TypeInfo, usize), Error>)
    requires
        pos <= s@.len(),
    ensures
        match r {
            Ok((ti, p)) => spec_parse_type_info(s@, pos as int) == Some((ti, p as int)) && p
                <= s@.len(),
            Err(e) => spec_parse_type_info(s@, pos as int) is None && e is Protocol,
        },
{
    if pos >= s.len() {
        return Err(malformed_block_error());
    }
    let b = s[pos];
    if b == 0x32 {
        Ok((TypeInfo::FixedLen(FixedLenType::Bit), pos + 1))
    } else if b == 0x30 {
        Ok((TypeInfo::FixedLen(FixedLenType::Int1), pos + 1))
    } else if b == 0x34 {
        Ok((TypeInfo::FixedLen(FixedLenType::Int2), pos + 1))
    } else if b == 0x38 {
        Ok((TypeInfo::FixedLen(FixedLenType::Int4), pos + 1))
    } else if b == 0x7F {
        Ok((TypeInfo::FixedLen(FixedLenType::Int8), pos + 1))
    } else if b == 0x26 && s.len() - pos >= 2 {
        Ok((TypeInfo::VarLenSized(VarLenContext::new(VarLenType::Intn, s[pos + 1])), pos + 2))
    } else if b == 0x68 && s.len() - pos >= 2 {
        Ok((TypeInfo::VarLenSized(VarLenContext::new(VarLenType::Bitn, s[pos + 1])), pos + 2))
    } else {
        Err(malformed_block_error())
    }
}

/// Reads the four little-endian bytes at `pos` as a 32-bit integer.
fn read_u32_le_at(s: &[u8], pos: usize) -> (r: u32)
    requires
        pos + 4 <= s@.len(),
    ensures
        r == spec_u32_from_le4(s@[pos as int], s@[pos + 1], s@[pos + 2], s@[pos + 3]),
{
    (s[pos] as u32) | ((s[pos + 1] as u32) << 8) | ((s[pos + 2] as u32) << 16) | ((s[pos + 3]
        as u32) << 24)
}

/// Reads the eight little-endian bytes at `pos` as a 64-bit integer.
fn read_u64_le_at(s: &[u8], pos: usize) -> (r: u64)
    requires
        pos + 8 <= s@.len(),
    ensures
        r == spec_u64_from_le8(
            s@[pos as int],
            s@[pos + 1],
            s@[pos + 2],
            s@[pos + 3],
            s@[pos + 4],
            s@[pos + 5],
            s@[pos + 6],
            s@[pos + 7],
        ),
{
    (s[pos] as u64) | ((s[pos + 1] as u64) << 8) | ((s[pos + 2] as u64) << 16) | ((s[pos + 3]
        as u64) << 24) | ((s[pos + 4] as u64) << 32) | ((s[pos + 5] as u64) << 40) | ((s[pos + 6]
        as u64) << 48) | ((s[pos + 7] as u64) << 56)
}

/// Reads one cell under a declared type.
fn parse_cell_with_at(ti: &TypeInfo, s: &[u8], pos: usize) -> (r: Result<
    (ColumnData, usize),
    Error,
>)
    requires
        pos <= s@.len(),
    ensures
        match r {
            Ok((c, p)) => spec_parse_cell_with(*ti, s@, pos as int) == Some((c, p as int)) && p
                <= s@.len(),
            Err(e) => spec_parse_cell_with(*ti, s@, pos as int) is None && e is Protocol,
        },
{
    match ti {
        TypeInfo::FixedLen(t) => match t {
            FixedLenType::Int4 => {
                if s.len() - pos < 4 {
                    return Err(malformed_block_error());
                }
                let v = read_u32_le_at(s, pos);
                Ok((ColumnData::I32(Some(v as i32)), pos + 4))
            },
            FixedLenType::Int8 => {
                if s.len() - pos < 8 {
                    return Err(malformed_block_error());
                }
                let v = read_u64_le_at(s, pos);
                Ok((ColumnData::I64(Some(v as i64)), pos + 8))
            },
            FixedLenType::Bit => {
                if s.len() - pos < 1 {
                    return Err(malformed_block_error());
                }
                Ok((ColumnData::Bit(Some(s[pos] != 0)), pos + 1))
            },
            _ => Err(malformed_block_error()),
        },
        TypeInfo::VarLenSized(ctx) => {
            if pos >= s.len() {
                return Err(malformed_block_error());
            }
            let n = s[pos];
            match ctx.ty {
                VarLenType::Intn => {
                    if ctx.len == 4 {
                        if n == 0 {
                            Ok((ColumnData::I32(None), pos + 1))
                        } else if n == 4 && s.len() - pos >= 5 {
                            let v = read_u32_le_at(s, pos + 1);
                            Ok((ColumnData::I32(Some(v as i32)), pos + 5))
                        } else {
                            Err(malformed_block_error())
                        }
                    } else if ctx.len == 8 {
                        if n == 0 {
                            Ok((ColumnData::I64(None), pos + 1))
                        } else if n == 8 && s.len() - pos >= 9 {
                            let v = read_u64_le_at(s, pos + 1);
                            Ok((ColumnData::I64(Some(v as i64)), pos + 9))
                        } else {
                            Err(malformed_block_error())
                        }
                    } else {
                        Err(malformed_block_error())
                    }
                },
                VarLenType::Bitn => {
                    if ctx.len == 1 {
                        if n == 0 {
                            Ok((ColumnData::Bit(None), pos + 1))
                        } else if n == 1 && s.len() - pos >= 2 {
                            Ok((ColumnData::Bit(Some(s[pos + 1] != 0)), pos + 2))
                        } else {
                            Err(malformed_block_error())
                        }
                    } else {
                        Err(malformed_block_error())
                    }
                },
            }
        },
    }
}

/// Reads one self-describing cell.
fn parse_cell_self_at(s: &[u8], pos: usize) -> (r: Result<(ColumnData, usize), Error>)
    requires
        pos <= s@.len(),
    ensures
        match r {
            Ok((c, p)) => spec_parse_cell_self(s@, pos as int) == Some((c, p as int)) && p
                <= s@.len(),
            Err(e) => spec_parse_cell_self(s@, pos as int) is None && e is Protocol,
        },
{
    match parse_type_info_at(s, pos) {
        Ok((ti, p2)) => parse_cell_with_at(&ti, s, p2),
        Err(e) => Err(e),
    }
}

/// Reads one cell per declared type from index `j` on.
fn parse_cells_with_at(s: &[u8], pos: usize, tys: &Vec<TypeInfo>, j: usize) -> (r: Result<
    (Vec<ColumnData>, usize),
    Error,
>)
    requires
        pos <= s@.len(),
        j <= tys@.len(),
    ensures
        match r {
            Ok((row, p)) => spec_parse_cells_with(s@, pos as int, tys@.skip(j as int)) == Some(
                (row@, p as int),
            ) && p <= s@.len(),
            Err(e) => spec_parse_cells_with(s@, pos as int, tys@.skip(j as int)) is None && e
                is Protocol,
        },
    decreases tys@.len() - j,
{
    if j == tys.len() {
        proof {
            assert(tys@.skip(j as int) =~= Seq::<TypeInfo>::empty());
        }
        return Ok((Vec::new(), pos));
    }
    proof {
        assert(tys@.skip(j as int)[0] == tys@[j as int]);
        assert(tys@.skip(j as int).drop_first() =~= tys@.skip(j + 1 as int));
    }
    match parse_cell_with_at(&tys[j], s, pos) {
        Ok((c, p2)) => match parse_cells_with_at(s, p2, tys, j + 1) {
            Ok((mut rest, p3)) => {
                rest.insert(0, c);
                proof {
                    assert(rest@ =~= seq![c] + rest@.drop_first());
                }
                Ok((rest, p3))
            },
            Err(e) => Err(e),
        },
        Err(e) => Err(e),
    }
}

/// Reads self-describing cells until the next row or end token; `fuel`
/// bounds the recursion exactly as in the grammar.
fn parse_cells_self_at(s: &[u8], pos: usize, fuel: usize) -> (r: Result<
    (Vec<ColumnData>, usize),
    Error,
>)
    requires
        pos <= s@.len(),
    ensures
        match r {
            Ok((row, p)) => spec_parse_cells_self(s@, pos as int, fuel as nat) == Some(
                (row@, p as int),
            ) && p <= s@.len(),
            Err(e) => spec_parse_cells_self(s@, pos as int, fuel as nat) is None && e
                is Protocol,
        },
    decreases fuel,
{
    if fuel == 0 {
        return Err(malformed_block_error());
    }
    if pos < s.len() && (s[pos] == 0 || s[pos] == 1) {
        return Ok((Vec::new(), pos));
    }
    match parse_cell_self_at(s, pos) {
        Ok((c, p2)) => match parse_cells_self_at(s, p2, fuel - 1) {
            Ok((mut rest, p3)) => {
                rest.insert(0, c);
                proof {
                    assert(rest@ =~= seq![c] + rest@.drop_first());
                }
                Ok((rest, p3))
            },
            Err(e) => Err(e),
        },
        Err(e) => Err(e),
    }
}

/// Reads `n` columns of the metadata block.
fn parse_columns_at(s: &[u8], pos: usize, n: usize) -> (r: Result<
    (Vec<ParsedColumn>, usize),
    Error,
>)
    requires
        pos <= s@.len(),
    ensures
        match r {
            Ok((cols, p)) => spec_parse_columns(s@, pos as int, n as nat) == Some(
                (cols@.map_values(|c: ParsedColumn| c.as_triple()), p as int),
            ) && p <= s@.len(),
            Err(e) => spec_parse_columns(s@, pos as int, n as nat) is None && e is Protocol,
        },
    decreases n,
{
    if n == 0 {
        proof {
            assert(Seq::<ParsedColumn>::empty().map_values(|c: ParsedColumn| c.as_triple())
                =~= Seq::<(u16, TypeInfo, Seq<u16>)>::empty());
        }
        return Ok((Vec::new(), pos));
    }
    if s.len() - pos < 6 {
        return Err(malformed_block_error());
    }
    let flags: u16 = (s[pos + 4] as u16) | ((s[pos + 5] as u16) << 8);
    match parse_type_info_at(s, pos + 6) {
        Ok((ti, p2)) => match parse_b_varchar_at(s, p2) {
            Ok((name_units, p3)) => match parse_columns_at(s, p3, n - 1) {
                Ok((mut rest, p4)) => {
                    let ghost rest_snapshot = rest@;
                    rest.insert(0, ParsedColumn { flags, ty: ti, name_units });
                    proof {
                        let f = |c: ParsedColumn| c.as_triple();
                        assert(rest@.map_values(f) =~= seq![
                            spec_parsed_column(flags, ti, rest@[0].name_units@),
                        ] + rest_snapshot.map_values(f));
                    }
                    Ok((rest, p4))
                },
                Err(e) => Err(e),
            },
            Err(e) => Err(e),
        },
        Err(e) => Err(e),
    }
}

/// Reads rows until the end token, which it consumes; `fuel` bounds the
/// recursion exactly as in the grammar.
fn parse_rows_at(s: &[u8], pos: usize, tys: &Option<Vec<TypeInfo>>, fuel: usize) -> (r: Result<
    (Vec<Vec<ColumnData>>, usize),
    Error,
>)
    requires
        pos <= s@.len(),
        s@.len() < usize::MAX,
    ensures
        match r {
            Ok((rows, p)) => spec_parse_rows(
                s@,
                pos as int,
                match *tys {
                    Some(ts) => Some(ts@),
                    None => None,
                },
                fuel as nat,
            ) == Some((rows@.map_values(|w: Vec<ColumnData>| w@), p as int)) && p <= s@.len(),
            Err(e) => spec_parse_rows(
                s@,
                pos as int,
                match *tys {
                    Some(ts) => Some(ts@),
                    None => None,
                },
                fuel as nat,
            ) is None && e is Protocol,
        },
    decreases fuel,
{
    if fuel == 0 {
        return Err(malformed_block_error());
    }
    if pos < s.len() && s[pos] == 0 {
        proof {
            assert(Seq::<Vec<ColumnData>>::empty().map_values(|w: Vec<ColumnData>| w@)
                =~= Seq::<Seq<ColumnData>>::empty());
        }
        return Ok((Vec::new(), pos + 1));
    }
    if pos < s.len() && s[pos] == 1 {
        let row_result = match tys {
            Some(ts) => {
                proof {
                    assert(ts@.skip(0) =~= ts@);
                }
                parse_cells_with_at(s, pos + 1, ts, 0)
            },
            None => parse_cells_self_at(s, pos + 1, s.len() + 1),
        };
        match row_result {
            Ok((row, p2)) => match parse_rows_at(s, p2, tys, fuel - 1) {
                Ok((mut rest, p3)) => {
                    let ghost rest_snapshot = rest@;
                    let ghost row_view = row@;
                    rest.insert(0, row);
                    proof {
                        let f = |w: Vec<ColumnData>| w@;
                        assert(rest@.map_values(f) =~= seq![row_view] + rest_snapshot.map_values(
                            f,
                        ));
                    }
                    Ok((rest, p3))
                },
                Err(e) => Err(e),
            },
            Err(e) => Err(e),
        }
    } else {
        Err(malformed_block_error())
    }
}

/// Parses a whole table-valued-parameter block, implementing the grammar
/// exactly: it succeeds, consuming every byte, precisely on the byte
/// sequences the grammar admits, and yields their parse.
pub fn parse_tvp(s: &[u8]) -> (r: Result<ParsedTvp, Error>)
    requires
        s@.len() < usize::MAX,
    ensures
        match r {
            Ok(p) => spec_parse_tvp(s@) == Some(
                (p.db_name_units@, p.schema_units@, p.type_units@, p.cols_view(), p.rows_view()),
            ),
            Err(e) => spec_parse_tvp(s@) is None && e is Protocol,
        },
{
    if s.len() == 0 || s[0] != 0xF3 {
        return Err(malformed_block_error());
    }
    let (db_name_units, p1) = match parse_b_varchar_at(s, 1) {
        Ok(v) => v,
        Err(e) => {
            return Err(e);
        },
    };
    let (schema_units, p2) = match parse_b_varchar_at(s, p1) {
        Ok(v) => v,
        Err(e) => {
            return Err(e);
        },
    };
    let (type_units, p3) = match parse_b_varchar_at(s, p2) {
        Ok(v) => v,
        Err(e) => {
            return Err(e);
        },
    };
    if s.len() - p3 < 2 {
        return Err(malformed_block_error());
    }
    let cnt: u16 = (s[p3] as u16) | ((s[p3 + 1] as u16) << 8);
    let (columns, p4): (Option<Vec<ParsedColumn>>, usize) = if cnt == 0xFFFF {
        (None, p3 + 2)
    } else {
        match parse_columns_at(s, p3 + 2, cnt as usize) {
            Ok((cols, p)) => (Some(cols), p),
            Err(e) => {
                return Err(e);
            },
        }
    };
    if p4 >= s.len() || s[p4] != 0 {
        return Err(malformed_block_error());
    }
    let tys: Option<Vec<TypeInfo>> = match &columns {
        Some(cols) => {
            let mut ts: Vec<TypeInfo> = Vec::new();
            let mut k: usize = 0;
            while k < cols.len()
                invariant
                    k <= cols@.len(),
                    ts@.len() == k,
                    forall|m: int| 0 <= m < k ==> ts@[m] == cols@[m].ty,
                decreases cols@.len() - k,
            {
                ts.push(cols[k].ty);
                k += 1;
            }
            Some(ts)
        },
        None => None,
    };
    proof {
        match (&columns, &tys) {
            (Some(cols), Some(ts)) => {
                assert(ts@ =~= cols@.map_values(|c: ParsedColumn| c.as_triple()).map_values(
                    |c: (u16, TypeInfo, Seq<u16>)| c.1,
                ));
            },
            _ => {},
        }
    }
    match parse_rows_at(s, p4 + 1, &tys, s.len() + 1) {
        Ok((rows, p5)) => {
            if p5 == s.len() {
                let result = ParsedTvp { db_name_units, schema_units, type_units, columns, rows };
                Ok(result)
            } else {
                Err(malformed_block_error())
            }
        },
        Err(e) => Err(e),
    }
}

} // verus!
