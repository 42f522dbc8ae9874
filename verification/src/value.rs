//! Scalar column values and their wire codec: type descriptors, the bytes
//! a value contributes to a request, and the conversions between Rust
//! values and column values.

use crate::buf::{buf_bytes, buf_put_u32_le, buf_put_u64_le, buf_put_u8, u32_le_bytes, u64_le_bytes};
use crate::error::Error;
use bytes::BytesMut;
use vstd::prelude::*;

verus! {

broadcast use vstd::utf8::char_is_scalar;

/// Fixed-length scalar wire types: the value's width is implied by the
/// type byte alone.
#[derive(Debug, Clone, Copy, PartialEq, Eq, Structural)]
pub enum FixedLenType {
    Bit,
    Int1,
    Int2,
    Int4,
    Int8,
}

/// Variable-length scalar wire types: each value carries a length prefix,
/// and a zero length encodes the SQL null.
#[derive(Debug, Clone, Copy, PartialEq, Eq, Structural)]
pub enum VarLenType {
    Intn,
    Bitn,
}

/// A variable-length type together with its declared maximum width.
#[derive(Debug, Clone, Copy, PartialEq, Eq, Structural)]
pub struct VarLenContext {
    pub ty: VarLenType,
    pub len: u8,
}

impl VarLenContext {
    pub fn new(ty: VarLenType, len: u8) -> (r: Self)
        ensures
            r == (VarLenContext { ty, len }),
    {
        VarLenContext { ty, len }
    }
}

/// A column's declared wire type.
#[derive(Debug, Clone, Copy, PartialEq, Eq, Structural)]
pub enum TypeInfo {
    FixedLen(FixedLenType),
    VarLenSized(VarLenContext),
}

/// The wire byte announcing a fixed-length type.
pub open spec fn spec_fixed_type_byte(t: FixedLenType) -> u8 {
    match t {
        FixedLenType::Bit => 0x32,
        FixedLenType::Int1 => 0x30,
        FixedLenType::Int2 => 0x34,
        FixedLenType::Int4 => 0x38,
        FixedLenType::Int8 => 0x7F,
    }
}

/// The wire byte announcing a variable-length type.
pub open spec fn spec_var_type_byte(t: VarLenType) -> u8 {
    match t {
        VarLenType::Intn => 0x26,
        VarLenType::Bitn => 0x68,
    }
}

/// The bytes of a type descriptor: the type byte, plus the declared width
/// for a variable-length type.
pub open spec fn spec_type_info_bytes(ti: TypeInfo) -> Seq<u8> {
    match ti {
        TypeInfo::FixedLen(t) => seq![spec_fixed_type_byte(t)],
        TypeInfo::VarLenSized(c) => seq![spec_var_type_byte(c.ty), c.len],
    }
}

/// Writes a type descriptor into the buffer.
pub fn encode_type_info(ti: &TypeInfo, dst: &mut BytesMut)
    requires
        buf_bytes(*old(dst)).len() + spec_type_info_bytes(*ti).len() <= usize::MAX,
    ensures
        buf_bytes(*final(dst)) == buf_bytes(*old(dst)) + spec_type_info_bytes(*ti),
{
    match ti {
        TypeInfo::FixedLen(t) => {
            let b: u8 = match t {
                FixedLenType::Bit => 0x32,
                FixedLenType::Int1 => 0x30,
                FixedLenType::Int2 => 0x34,
                FixedLenType::Int4 => 0x38,
                FixedLenType::Int8 => 0x7F,
            };
            buf_put_u8(dst, b);
            assert(buf_bytes(*dst) =~= buf_bytes(*old(dst)) + spec_type_info_bytes(*ti));
        },
        TypeInfo::VarLenSized(c) => {
            let b: u8 = match c.ty {
                VarLenType::Intn => 0x26,
                VarLenType::Bitn => 0x68,
            };
            buf_put_u8(dst, b);
            buf_put_u8(dst, c.len);
            assert(buf_bytes(*dst) =~= buf_bytes(*old(dst)) + spec_type_info_bytes(*ti));
        },
    }
}

/// One scalar column value, as carried through the request and response
/// pipeline; `None` payloads are the SQL null.
#[derive(Debug, Clone, Copy, PartialEq, Eq)]
pub enum ColumnData {
    I32(Option<i32>),
    I64(Option<i64>),
    Bit(Option<bool>),
}

impl ColumnData {
    /// The self-describing type of the value: nullable, variable-length.
    pub open spec fn spec_natural_type(self) -> TypeInfo {
        match self {
            ColumnData::I32(_) => TypeInfo::VarLenSized(
                VarLenContext { ty: VarLenType::Intn, len: 4 },
            ),
            ColumnData::I64(_) => TypeInfo::VarLenSized(
                VarLenContext { ty: VarLenType::Intn, len: 8 },
            ),
            ColumnData::Bit(_) => TypeInfo::VarLenSized(
                VarLenContext { ty: VarLenType::Bitn, len: 1 },
            ),
        }
    }

    pub fn natural_type(&self) -> (r: TypeInfo)
        ensures
            r == self.spec_natural_type(),
    {
        match self {
            ColumnData::I32(_) => TypeInfo::VarLenSized(VarLenContext::new(VarLenType::Intn, 4)),
            ColumnData::I64(_) => TypeInfo::VarLenSized(VarLenContext::new(VarLenType::Intn, 8)),
            ColumnData::Bit(_) => TypeInfo::VarLenSized(VarLenContext::new(VarLenType::Bitn, 1)),
        }
    }
}

/// Whether a value may be encoded under the given declared type. A
/// fixed-length type admits no null.
pub open spec fn spec_compatible(ti: TypeInfo, c: ColumnData) -> bool {
    match (ti, c) {
        (TypeInfo::FixedLen(FixedLenType::Int4), ColumnData::I32(v)) => v is Some,
        (TypeInfo::FixedLen(FixedLenType::Int8), ColumnData::I64(v)) => v is Some,
        (TypeInfo::FixedLen(FixedLenType::Bit), ColumnData::Bit(v)) => v is Some,
        (TypeInfo::VarLenSized(ctx), ColumnData::I32(_)) => ctx.ty == VarLenType::Intn
            && ctx.len == 4,
        (TypeInfo::VarLenSized(ctx), ColumnData::I64(_)) => ctx.ty == VarLenType::Intn
            && ctx.len == 8,
        (TypeInfo::VarLenSized(ctx), ColumnData::Bit(_)) => ctx.ty == VarLenType::Bitn
            && ctx.len == 1,
        _ => false,
    }
}

/// Decides `spec_compatible`.
pub fn is_compatible(ti: &TypeInfo, c: &ColumnData) -> (r: bool)
    ensures
        r == spec_compatible(*ti, *c),
{
    match ti {
        TypeInfo::FixedLen(t) => match (t, c) {
            (FixedLenType::Int4, ColumnData::I32(v)) => v.is_some(),
            (FixedLenType::Int8, ColumnData::I64(v)) => v.is_some(),
            (FixedLenType::Bit, ColumnData::Bit(v)) => v.is_some(),
            _ => false,
        },
        TypeInfo::VarLenSized(ctx) => match c {
            ColumnData::I32(_) => ctx.ty == VarLenType::Intn && ctx.len == 4,
            ColumnData::I64(_) => ctx.ty == VarLenType::Intn && ctx.len == 8,
            ColumnData::Bit(_) => ctx.ty == VarLenType::Bitn && ctx.len == 1,
        },
    }
}

/// The wire bytes of one cell under a declared type: the raw payload for a
/// fixed-length type, a length-prefixed payload (zero length for null) for
/// a variable-length one. Meaningful only when `spec_compatible` holds.
pub open spec fn spec_cell_bytes(ti: TypeInfo, c: ColumnData) -> Seq<u8> {
    match ti {
        TypeInfo::FixedLen(_) => match c {
            ColumnData::I32(Some(v)) => u32_le_bytes(v as u32),
            ColumnData::I64(Some(v)) => u64_le_bytes(v as u64),
            ColumnData::Bit(Some(b)) => seq![if b { 1u8 } else { 0u8 }],
            _ => Seq::empty(),
        },
        TypeInfo::VarLenSized(_) => match c {
            ColumnData::I32(Some(v)) => seq![4u8] + u32_le_bytes(v as u32),
            ColumnData::I64(Some(v)) => seq![8u8] + u64_le_bytes(v as u64),
            ColumnData::Bit(Some(b)) => seq![1u8, if b { 1u8 } else { 0u8 }],
            ColumnData::I32(None) | ColumnData::I64(None) | ColumnData::Bit(None) => seq![0u8],
        },
    }
}

/// The wire bytes of one self-describing cell: its natural type
/// descriptor, then the value under that type.
pub open spec fn spec_cell_bytes_self(c: ColumnData) -> Seq<u8> {
    spec_type_info_bytes(c.spec_natural_type()) + spec_cell_bytes(c.spec_natural_type(), c)
}

/// Writes one cell under the given declared type; fails, writing nothing,
/// when the value is incompatible with that type.
pub fn encode_value_with(c: &ColumnData, ti: &TypeInfo, dst: &mut BytesMut) -> (r: Result<
    (),
    Error,
>)
    requires
        spec_compatible(*ti, *c) ==> buf_bytes(*old(dst)).len() + spec_cell_bytes(*ti, *c).len()
            <= usize::MAX,
    ensures
        spec_compatible(*ti, *c) ==> r is Ok && buf_bytes(*final(dst)) == buf_bytes(*old(dst))
            + spec_cell_bytes(*ti, *c),
        !spec_compatible(*ti, *c) ==> r is Err && r->Err_0 is Encoding && buf_bytes(*final(dst))
            == buf_bytes(*old(dst)),
{
    match ti {
        TypeInfo::FixedLen(t) => match (t, c) {
            (FixedLenType::Int4, ColumnData::I32(Some(v))) => {
                buf_put_u32_le(dst, *v as u32);
                Ok(())
            },
            (FixedLenType::Int8, ColumnData::I64(Some(v))) => {
                buf_put_u64_le(dst, *v as u64);
                Ok(())
            },
            (FixedLenType::Bit, ColumnData::Bit(Some(b))) => {
                buf_put_u8(dst, if *b { 1 } else { 0 });
                assert(buf_bytes(*dst) =~= buf_bytes(*old(dst)) + spec_cell_bytes(*ti, *c));
                Ok(())
            },
            _ => Err(incompatible_value_error()),
        },
        TypeInfo::VarLenSized(ctx) => match c {
            ColumnData::I32(ov) => {
                if ctx.ty == VarLenType::Intn && ctx.len == 4 {
                    match ov {
                        Some(v) => {
                            buf_put_u8(dst, 4);
                            buf_put_u32_le(dst, *v as u32);
                        },
                        None => {
                            buf_put_u8(dst, 0);
                            assert(buf_bytes(*dst) =~= buf_bytes(*old(dst)) + spec_cell_bytes(
                                *ti,
                                *c,
                            ));
                        },
                    }
                    Ok(())
                } else {
                    Err(incompatible_value_error())
                }
            },
            ColumnData::I64(ov) => {
                if ctx.ty == VarLenType::Intn && ctx.len == 8 {
                    match ov {
                        Some(v) => {
                            buf_put_u8(dst, 8);
                            buf_put_u64_le(dst, *v as u64);
                        },
                        None => {
                            buf_put_u8(dst, 0);
                            assert(buf_bytes(*dst) =~= buf_bytes(*old(dst)) + spec_cell_bytes(
                                *ti,
                                *c,
                            ));
                        },
                    }
                    Ok(())
                } else {
                    Err(incompatible_value_error())
                }
            },
            ColumnData::Bit(ov) => {
                if ctx.ty == VarLenType::Bitn && ctx.len == 1 {
                    match ov {
                        Some(b) => {
                            buf_put_u8(dst, 1);
                            buf_put_u8(dst, if *b { 1 } else { 0 });
                            assert(buf_bytes(*dst) =~= buf_bytes(*old(dst)) + spec_cell_bytes(
                                *ti,
                                *c,
                            ));
                        },
                        None => {
                            buf_put_u8(dst, 0);
                            assert(buf_bytes(*dst) =~= buf_bytes(*old(dst)) + spec_cell_bytes(
                                *ti,
                                *c,
                            ));
                        },
                    }
                    Ok(())
                } else {
                    Err(incompatible_value_error())
                }
            },
        },
    }
}

/// The error reported when a value does not fit its declared column type.
fn incompatible_value_error() -> (r: Error)
    ensures
        r is Encoding,
{
    Error::Encoding(String::from_str("value incompatible with declared column type"))
}

/// Writes one self-describing cell: its natural type descriptor, then the
/// value. Never fails: every value is compatible with its natural type.
pub fn encode_value_self(c: &ColumnData, dst: &mut BytesMut)
    requires
        buf_bytes(*old(dst)).len() + spec_cell_bytes_self(*c).len() <= usize::MAX,
    ensures
        buf_bytes(*final(dst)) == buf_bytes(*old(dst)) + spec_cell_bytes_self(*c),
{
    let ti = c.natural_type();
    encode_type_info(&ti, dst);
    let r = encode_value_with(c, &ti, dst);
    assert(buf_bytes(*dst) =~= buf_bytes(*old(dst)) + spec_cell_bytes_self(*c));
}

/// The UTF-16 code units of one character: the scalar itself below
/// `0x10000`, a surrogate pair above.
pub open spec fn utf16_char(c: char) -> Seq<u16> {
    let v = c as u32;
    if v < 0x10000 {
        seq![v as u16]
    } else {
        let r = (v - 0x10000) as u32;
        seq![((r / 0x400) + 0xD800) as u16, ((r % 0x400) + 0xDC00) as u16]
    }
}

/// The UTF-16 code units of a character sequence, in order.
pub open spec fn utf16_units(s: Seq<char>) -> Seq<u16>
    decreases s.len(),
{
    if s.len() == 0 {
        Seq::empty()
    } else {
        utf16_char(s[0]) + utf16_units(s.subrange(1, s.len() as int))
    }
}

/// Appending one character appends its code units.
pub proof fn lemma_utf16_units_push(s: Seq<char>, c: char)
    ensures
        utf16_units(s.push(c)) == utf16_units(s) + utf16_char(c),
    decreases s.len(),
{
    if s.len() == 0 {
        assert(s.push(c)[0] == c);
        assert(s.push(c).subrange(1, 1) =~= Seq::<char>::empty());
        assert(utf16_units(s.push(c).subrange(1, 1)) =~= Seq::<u16>::empty());
        assert(utf16_units(s) =~= Seq::<u16>::empty());
        assert(utf16_units(s.push(c)) =~= utf16_units(s) + utf16_char(c));
    } else {
        lemma_utf16_units_push(s.subrange(1, s.len() as int), c);
        assert(s.push(c)[0] == s[0]);
        assert(s.push(c).subrange(1, s.push(c).len() as int) =~= s.subrange(
            1,
            s.len() as int,
        ).push(c));
        assert(utf16_units(s.push(c)) =~= utf16_units(s) + utf16_char(c));
    }
}

/// The UTF-16 code units of a string, computed character by character.
pub fn encode_utf16_units(s: &str) -> (r: Vec<u16>)
    ensures
        r@ == utf16_units(s@),
{
    let n = s.unicode_len();
    let mut out: Vec<u16> = Vec::new();
    let mut i: usize = 0;
    while i < n
        invariant
            i <= n,
            n == s@.len(),
            out@ == utf16_units(s@.subrange(0, i as int)),
        decreases n - i,
    {
        let c = s.get_char(i);
        let v: u32 = c as u32;
        if v < 0x10000 {
            out.push(v as u16);
        } else {
            let rest: u32 = v - 0x10000;
            out.push((rest / 0x400 + 0xD800) as u16);
            out.push((rest % 0x400 + 0xDC00) as u16);
        }
        proof {
            lemma_utf16_units_push(s@.subrange(0, i as int), s@[i as int]);
            assert(s@.subrange(0, i + 1 as int) =~= s@.subrange(0, i as int).push(s@[i as int]));
        }
        i += 1;
    }
    proof {
        assert(s@.subrange(0, n as int) =~= s@);
    }
    out
}

/// A column descriptor as the server announces it: its flags and declared
/// type.
#[derive(Debug, Clone, PartialEq)]
pub struct BaseMetaDataColumn {
    pub flags: u16,
    pub ty: TypeInfo,
}

/// A named column descriptor.
#[derive(Debug, Clone, PartialEq)]
pub struct MetaDataColumn {
    pub base: BaseMetaDataColumn,
    pub col_name: String,
}

/// A Rust value that can be bound as a column value.
pub trait IntoSql: Sized {
    /// The column value the binding produces.
    spec fn spec_into_sql(self) -> ColumnData;

    fn into_sql(self) -> (r: ColumnData)
        ensures
            r == self.spec_into_sql(),
    ;
}

impl IntoSql for i32 {
    open spec fn spec_into_sql(self) -> ColumnData {
        ColumnData::I32(Some(self))
    }

    fn into_sql(self) -> (r: ColumnData) {
        ColumnData::I32(Some(self))
    }
}

impl IntoSql for i64 {
    open spec fn spec_into_sql(self) -> ColumnData {
        ColumnData::I64(Some(self))
    }

    fn into_sql(self) -> (r: ColumnData) {
        ColumnData::I64(Some(self))
    }
}

impl IntoSql for bool {
    open spec fn spec_into_sql(self) -> ColumnData {
        ColumnData::Bit(Some(self))
    }

    fn into_sql(self) -> (r: ColumnData) {
        ColumnData::Bit(Some(self))
    }
}

impl IntoSql for Option<i32> {
    open spec fn spec_into_sql(self) -> ColumnData {
        ColumnData::I32(self)
    }

    fn into_sql(self) -> (r: ColumnData) {
        ColumnData::I32(self)
    }
}

impl IntoSql for Option<i64> {
    open spec fn spec_into_sql(self) -> ColumnData {
        ColumnData::I64(self)
    }

    fn into_sql(self) -> (r: ColumnData) {
        ColumnData::I64(self)
    }
}

impl IntoSql for Option<bool> {
    open spec fn spec_into_sql(self) -> ColumnData {
        ColumnData::Bit(self)
    }

    fn into_sql(self) -> (r: ColumnData) {
        ColumnData::Bit(self)
    }
}

/// A Rust value that can be read back from a column value; `None` is the
/// SQL null.
pub trait FromSql: Sized {
    /// Whether the column value carries this type.
    spec fn spec_convertible(data: ColumnData) -> bool;

    /// The carried value, when convertible.
    spec fn spec_converted(data: ColumnData) -> Option<Self>;

    fn from_sql(data: &ColumnData) -> (r: Result<Option<Self>, Error>)
        ensures
            Self::spec_convertible(*data) ==> r == Ok::<Option<Self>, Error>(
                Self::spec_converted(*data),
            ),
            !Self::spec_convertible(*data) ==> r is Err && r->Err_0 is Conversion,
    ;
}

impl FromSql for i32 {
    open spec fn spec_convertible(data: ColumnData) -> bool {
        data is I32
    }

    open spec fn spec_converted(data: ColumnData) -> Option<i32> {
        match data {
            ColumnData::I32(v) => v,
            _ => None,
        }
    }

    fn from_sql(data: &ColumnData) -> (r: Result<Option<i32>, Error>) {
        match data {
            ColumnData::I32(v) => Ok(*v),
            _ => Err(Error::Conversion(String::from_str("not a 4-byte integer value"))),
        }
    }
}

impl FromSql for i64 {
    open spec fn spec_convertible(data: ColumnData) -> bool {
        data is I64
    }

    open spec fn spec_converted(data: ColumnData) -> Option<i64> {
        match data {
            ColumnData::I64(v) => v,
            _ => None,
        }
    }

    fn from_sql(data: &ColumnData) -> (r: Result<Option<i64>, Error>) {
        match data {
            ColumnData::I64(v) => Ok(*v),
            _ => Err(Error::Conversion(String::from_str("not an 8-byte integer value"))),
        }
    }
}

impl FromSql for bool {
    open spec fn spec_convertible(data: ColumnData) -> bool {
        data is Bit
    }

    open spec fn spec_converted(data: ColumnData) -> Option<bool> {
        match data {
            ColumnData::Bit(v) => v,
            _ => None,
        }
    }

    fn from_sql(data: &ColumnData) -> (r: Result<Option<bool>, Error>) {
        match data {
            ColumnData::Bit(v) => Ok(*v),
            _ => Err(Error::Conversion(String::from_str("not a bit value"))),
        }
    }
}

} // verus!
