use tds_command::command::{
    build_rpc_params, metadata_query_sql, CommandParamData, RpcValue, BY_REF_VALUE,
};
use tds_command::value::{
    BaseMetaDataColumn, ColumnData, FixedLenType, MetaDataColumn, TypeInfo, VarLenContext,
    VarLenType,
};
use tds_command::{Command, SqlTableDataRow, TableValue, TableValueRow};

struct Point {
    x: i32,
    y: i64,
}

impl TableValueRow for Point {
    fn bind_fields(&self, data_row: &mut SqlTableDataRow) {
        data_row.add_field(self.x);
        data_row.add_field(self.y);
    }

    fn get_db_type() -> &'static str {
        "dbo.PointType"
    }
}

#[test]
fn add_field_appends_in_order() {
    let mut row = SqlTableDataRow::new();
    row.add_field(42i32);
    row.add_field(true);
    row.add_field(None::<i64>);
    assert_eq!(
        row.col_data,
        vec![
            ColumnData::I32(Some(42)),
            ColumnData::Bit(Some(true)),
            ColumnData::I64(None),
        ]
    );
}

#[test]
fn table_value_rows_bind_in_declared_order() {
    let rows = vec![Point { x: 1, y: 2 }, Point { x: 3, y: 4 }];
    let table = rows.into_sql();
    assert_eq!(table.db_type, "dbo.PointType");
    assert_eq!(table.rows.len(), 2);
    assert_eq!(
        table.rows[0].col_data,
        vec![ColumnData::I32(Some(1)), ColumnData::I64(Some(2))]
    );
    assert_eq!(
        table.rows[1].col_data,
        vec![ColumnData::I32(Some(3)), ColumnData::I64(Some(4))]
    );
}

#[test]
fn command_binds_parameters_in_order() {
    let mut cmd = Command::new("dbo.MyProc".to_string());
    cmd.bind_param("in1".to_string(), 5i32);
    cmd.bind_out_param("out1".to_string(), 0i32);
    cmd.bind_table("tbl".to_string(), vec![Point { x: 1, y: 2 }]);
    assert_eq!(cmd.name, "dbo.MyProc");
    assert_eq!(cmd.params.len(), 3);
    assert_eq!(cmd.params[0].name, "in1");
    assert!(!cmd.params[0].out);
    assert_eq!(cmd.params[1].name, "out1");
    assert!(cmd.params[1].out);
    assert_eq!(cmd.params[2].name, "tbl");
    assert!(matches!(cmd.params[2].data, CommandParamData::Table(_)));
}

#[test]
fn metadata_query_shape() {
    assert_eq!(
        metadata_query_sql("dbo.PointType"),
        "DECLARE @P AS dbo.PointType;SELECT TOP 0 * FROM @P"
    );
}

#[test]
fn build_rpc_params_maps_each_parameter() {
    let mut cmd = Command::new("dbo.MyProc".to_string());
    cmd.bind_param("in1".to_string(), 5i32);
    cmd.bind_out_param("out1".to_string(), 0i32);
    cmd.bind_table("tbl".to_string(), vec![Point { x: 1, y: 2 }]);
    let metadata = vec![Some(vec![
        MetaDataColumn {
            base: BaseMetaDataColumn { flags: 0, ty: TypeInfo::FixedLen(FixedLenType::Int4) },
            col_name: "x".to_string(),
        },
        MetaDataColumn {
            base: BaseMetaDataColumn { flags: 0, ty: TypeInfo::FixedLen(FixedLenType::Int8) },
            col_name: "y".to_string(),
        },
    ])];
    let rpc = build_rpc_params(cmd.params, metadata);
    assert_eq!(rpc.len(), 3);
    assert_eq!(rpc[0].name, "in1");
    assert_eq!(rpc[0].flags, 0);
    assert!(matches!(rpc[0].value, RpcValue::Scalar(ColumnData::I32(Some(5)))));
    assert_eq!(rpc[1].name, "out1");
    assert_eq!(rpc[1].flags, BY_REF_VALUE);
    match &rpc[2].value {
        RpcValue::Table(tvp) => {
            assert_eq!(tvp.schema_name, "dbo");
            assert_eq!(tvp.db_type_name, "PointType");
            let cols = tvp.columns.as_ref().unwrap();
            // The fixed 4-byte integer was normalized; the 8-byte one kept.
            assert_eq!(
                cols[0].base.ty,
                TypeInfo::VarLenSized(VarLenContext { ty: VarLenType::Intn, len: 4 })
            );
            assert_eq!(cols[1].base.ty, TypeInfo::FixedLen(FixedLenType::Int8));
            assert_eq!(tvp.data.len(), 1);
        },
        _ => panic!("expected a table value"),
    }
}

#[test]
fn build_rpc_params_without_metadata_keeps_self_describing_table() {
    let mut cmd = Command::new("p".to_string());
    cmd.bind_table("tbl".to_string(), vec![Point { x: 1, y: 2 }]);
    let rpc = build_rpc_params(cmd.params, vec![None]);
    match &rpc[0].value {
        RpcValue::Table(tvp) => assert!(tvp.columns.is_none()),
        _ => panic!("expected a table value"),
    }
}
