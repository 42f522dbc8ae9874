use bytes::BytesMut;
use tds_command::value::{
    BaseMetaDataColumn, ColumnData, FixedLenType, MetaDataColumn, TypeInfo, VarLenContext,
    VarLenType,
};
use tds_command::Error;
use tds_command::TypeInfoTvp;
use tds_command::type_info_tvp::parse_tvp;

fn utf16(s: &str) -> Vec<u16> {
    s.encode_utf16().collect()
}

fn int4_col(name: &str) -> MetaDataColumn {
    MetaDataColumn {
        base: BaseMetaDataColumn { flags: 9, ty: TypeInfo::FixedLen(FixedLenType::Int4) },
        col_name: name.to_string(),
    }
}

fn intn8_col(name: &str) -> MetaDataColumn {
    MetaDataColumn {
        base: BaseMetaDataColumn {
            flags: 0,
            ty: TypeInfo::VarLenSized(VarLenContext::new(VarLenType::Intn, 8)),
        },
        col_name: name.to_string(),
    }
}

#[test]
fn idempotent_empty_tvp() {
    let tvp = TypeInfoTvp::new("MyType", Vec::new());
    let mut buf = BytesMut::new();
    tvp.encode(&mut buf).unwrap();
    let mut expected: Vec<u8> = vec![0xF3, 0x00, 0x00, 0x06];
    for u in utf16("MyType") {
        expected.extend_from_slice(&u.to_le_bytes());
    }
    expected.extend_from_slice(&[0xFF, 0xFF, 0x00, 0x00]);
    assert_eq!(buf[..].to_vec(), expected);
}

#[test]
fn name_splitting_with_dot() {
    let tvp = TypeInfoTvp::new("dbo.MyType", Vec::new());
    assert_eq!(tvp.schema_name, "dbo");
    assert_eq!(tvp.db_type_name, "MyType");
}

#[test]
fn name_splitting_without_dot() {
    let tvp = TypeInfoTvp::new("MyType", Vec::new());
    assert_eq!(tvp.schema_name, "");
    assert_eq!(tvp.db_type_name, "MyType");
}

#[test]
fn name_splitting_splits_on_first_dot() {
    let tvp = TypeInfoTvp::new("a.b.c", Vec::new());
    assert_eq!(tvp.schema_name, "a");
    assert_eq!(tvp.db_type_name, "b.c");
}

#[test]
fn tvp_round_trip_with_metadata() {
    let rows = vec![
        vec![ColumnData::I32(Some(-7)), ColumnData::I64(Some(1 << 40))],
        vec![ColumnData::I32(Some(2_000_000_000)), ColumnData::I64(None)],
    ];
    let tvp = TypeInfoTvp::new("dbo.MyType", rows.clone())
        .with_metadata(vec![int4_col("a"), intn8_col("b")]);
    let mut buf = BytesMut::new();
    tvp.encode(&mut buf).unwrap();
    let parsed = parse_tvp(&buf[..]).unwrap();
    assert_eq!(parsed.db_name_units, Vec::<u16>::new());
    assert_eq!(parsed.schema_units, utf16("dbo"));
    assert_eq!(parsed.type_units, utf16("MyType"));
    let cols = parsed.columns.unwrap();
    assert_eq!(cols.len(), 2);
    assert_eq!(cols[0].flags, 9);
    assert_eq!(parsed.rows, rows);
}

#[test]
fn tvp_round_trip_self_describing() {
    let rows = vec![vec![
        ColumnData::I32(None),
        ColumnData::Bit(Some(true)),
        ColumnData::I64(Some(-1)),
    ]];
    let tvp = TypeInfoTvp::new("dbo.MyType", rows.clone());
    let mut buf = BytesMut::new();
    tvp.encode(&mut buf).unwrap();
    let parsed = parse_tvp(&buf[..]).unwrap();
    assert_eq!(parsed.schema_units, utf16("dbo"));
    assert_eq!(parsed.type_units, utf16("MyType"));
    assert!(parsed.columns.is_none());
    assert_eq!(parsed.rows, rows);
}

#[test]
fn tvp_round_trip_zero_rows() {
    let tvp = TypeInfoTvp::new("dbo.T", Vec::new()).with_metadata(vec![int4_col("a")]);
    let mut buf = BytesMut::new();
    tvp.encode(&mut buf).unwrap();
    let parsed = parse_tvp(&buf[..]).unwrap();
    assert_eq!(parsed.schema_units, utf16("dbo"));
    assert_eq!(parsed.type_units, utf16("T"));
    assert_eq!(parsed.columns.unwrap().len(), 1);
    assert_eq!(parsed.rows, Vec::<Vec<ColumnData>>::new());
}

#[test]
fn fixed_int_normalized_in_metadata() {
    let tvp = TypeInfoTvp::new("dbo.T", Vec::new()).with_metadata(vec![int4_col("a")]);
    let cols = tvp.columns.as_ref().unwrap();
    assert_eq!(
        cols[0].base.ty,
        TypeInfo::VarLenSized(VarLenContext { ty: VarLenType::Intn, len: 4 })
    );
}

#[test]
fn fixed_int_normalized_on_the_wire() {
    let rows = vec![vec![ColumnData::I32(Some(5))]];
    let tvp = TypeInfoTvp::new("T", rows).with_metadata(vec![int4_col("a")]);
    let mut buf = BytesMut::new();
    tvp.encode(&mut buf).unwrap();
    let bytes = buf[..].to_vec();
    // The column block holds the variable-length integer descriptor, and
    // the fixed 4-byte integer descriptor appears nowhere.
    assert!(bytes.windows(2).any(|w| w == [0x26, 4]));
    assert!(!bytes.contains(&0x38));
    // The parsed column agrees.
    let parsed = parse_tvp(&bytes).unwrap();
    assert_eq!(
        parsed.columns.unwrap()[0].ty,
        TypeInfo::VarLenSized(VarLenContext { ty: VarLenType::Intn, len: 4 })
    );
}

#[test]
fn non_bmp_name_round_trips_as_surrogate_pairs() {
    let name = format!("dbo.Ty{}pe", '\u{1F600}');
    let tvp = TypeInfoTvp::new(&name, Vec::new());
    let mut buf = BytesMut::new();
    tvp.encode(&mut buf).unwrap();
    let parsed = parse_tvp(&buf[..]).unwrap();
    assert_eq!(parsed.schema_units, utf16("dbo"));
    assert_eq!(parsed.type_units, utf16(&format!("Ty{}pe", '\u{1F600}')));
    // The supplementary character occupies two code units.
    assert_eq!(parsed.type_units.len(), 6);
}

#[test]
fn name_of_exactly_255_units_is_accepted() {
    let long: String = "y".repeat(255);
    let tvp = TypeInfoTvp::new(&format!("dbo.{}", long), Vec::new());
    let mut buf = BytesMut::new();
    tvp.encode(&mut buf).unwrap();
    let parsed = parse_tvp(&buf[..]).unwrap();
    assert_eq!(parsed.type_units.len(), 255);
}

#[test]
fn over_long_name_is_an_encoding_error() {
    let long: String = "x".repeat(256);
    let tvp = TypeInfoTvp::new(&format!("dbo.{}", long), Vec::new());
    let mut buf = BytesMut::new();
    let err = tvp.encode(&mut buf).unwrap_err();
    assert!(matches!(err, Error::Encoding(_)));
    assert!(buf.is_empty());
}

#[test]
fn wrong_row_arity_is_an_encoding_error() {
    let rows = vec![vec![ColumnData::I32(Some(1)), ColumnData::I32(Some(2))]];
    let tvp = TypeInfoTvp::new("T", rows).with_metadata(vec![int4_col("a")]);
    let mut buf = BytesMut::new();
    let err = tvp.encode(&mut buf).unwrap_err();
    assert!(matches!(err, Error::Encoding(_)));
    assert!(buf.is_empty());
}

#[test]
fn incompatible_value_is_an_encoding_error() {
    let rows = vec![vec![ColumnData::Bit(Some(true))]];
    let tvp = TypeInfoTvp::new("T", rows).with_metadata(vec![int4_col("a")]);
    let mut buf = BytesMut::new();
    let err = tvp.encode(&mut buf).unwrap_err();
    assert!(matches!(err, Error::Encoding(_)));
    assert!(buf.is_empty());
}

#[test]
fn malformed_block_is_a_protocol_error() {
    assert!(matches!(parse_tvp(&[]), Err(Error::Protocol(_))));
    assert!(matches!(parse_tvp(&[0x12, 0x34]), Err(Error::Protocol(_))));
    // A well-formed block truncated before its end token.
    let tvp = TypeInfoTvp::new("T", vec![vec![ColumnData::I32(Some(1))]]);
    let mut buf = BytesMut::new();
    tvp.encode(&mut buf).unwrap();
    let bytes = buf[..].to_vec();
    assert!(matches!(parse_tvp(&bytes[..bytes.len() - 1]), Err(Error::Protocol(_))));
    // Trailing bytes after a well-formed block are rejected too.
    let mut padded = bytes.clone();
    padded.push(0);
    assert!(matches!(parse_tvp(&padded), Err(Error::Protocol(_))));
}
