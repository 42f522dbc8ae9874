use tds_command::command_stream::ColumnType;
use tds_command::token::{ReceivedToken, TokenColMetaData, TokenDone, TokenReturnValue};
use tds_command::value::{BaseMetaDataColumn, ColumnData, FixedLenType, MetaDataColumn, TypeInfo};
use tds_command::{CommandItem, CommandStream, Error};

fn meta(names: &[&str]) -> TokenColMetaData {
    TokenColMetaData {
        columns: names
            .iter()
            .map(|n| MetaDataColumn {
                base: BaseMetaDataColumn {
                    flags: 0,
                    ty: TypeInfo::FixedLen(FixedLenType::Int4),
                },
                col_name: n.to_string(),
            })
            .collect(),
    }
}

fn row(v: i32) -> ReceivedToken {
    ReceivedToken::Row(vec![ColumnData::I32(Some(v))])
}

#[test]
fn token_ordering_groups_rows_by_result_set() {
    let tokens = vec![
        ReceivedToken::NewResultset(meta(&["a"])),
        row(1),
        row(2),
        ReceivedToken::NewResultset(meta(&["b"])),
        row(3),
        ReceivedToken::Done(TokenDone::new(0, 0)),
    ];
    let result = CommandStream::new().into_command_result(tokens).unwrap();
    assert_eq!(result.query_results.len(), 2);
    assert_eq!(result.query_results[0].len(), 2);
    assert_eq!(result.query_results[1].len(), 1);
    assert_eq!(result.query_results[0][0].result_index, 0);
    assert_eq!(result.query_results[0][1].result_index, 0);
    assert_eq!(result.query_results[1][0].result_index, 1);
    assert_eq!(result.query_results[0][0].data, vec![ColumnData::I32(Some(1))]);
    assert_eq!(result.query_results[0][1].data, vec![ColumnData::I32(Some(2))]);
    assert_eq!(result.query_results[1][0].data, vec![ColumnData::I32(Some(3))]);
    // The final done token contributed no rows-affected entry.
    assert_eq!(result.rows_affected(), &[] as &[u64]);
}

#[test]
fn final_done_contributes_no_entry() {
    let tokens = vec![
        ReceivedToken::NewResultset(meta(&["a"])),
        ReceivedToken::DoneInProc(TokenDone::new(1, 7)),
        ReceivedToken::Done(TokenDone::new(1, 5)),
        ReceivedToken::DoneProc(TokenDone::new(0, 0)),
    ];
    let result = CommandStream::new().into_command_result(tokens).unwrap();
    assert_eq!(result.rows_affected(), &[7u64, 5u64]);
}

#[test]
fn non_final_done_contributes_its_count() {
    let tokens = vec![ReceivedToken::Done(TokenDone::new(1, 5))];
    let result = CommandStream::new().into_command_result(tokens).unwrap();
    assert_eq!(result.rows_affected(), &[5u64]);
}

#[test]
fn out_of_order_row_is_a_protocol_error() {
    let tokens = vec![row(1)];
    let err = CommandStream::new().into_command_result(tokens).unwrap_err();
    assert!(matches!(err, Error::Protocol(_)));
}

#[test]
fn out_of_order_row_from_next_item() {
    let mut stream = CommandStream::new();
    let err = stream.next_item(row(1)).unwrap_err();
    assert!(matches!(err, Error::Protocol(_)));
}

#[test]
fn next_item_classifies_tokens() {
    let mut stream = CommandStream::new();
    let item = stream.next_item(ReceivedToken::NewResultset(meta(&["a", "b"]))).unwrap().unwrap();
    let md = item.as_metadata().unwrap();
    assert_eq!(md.result_index, 0);
    assert_eq!(md.columns.len(), 2);
    assert_eq!(md.columns[0].name, "a");
    assert_eq!(md.columns[0].column_type, ColumnType::Int4);

    let item = stream.next_item(row(9)).unwrap().unwrap();
    let rw = item.into_row().unwrap();
    assert_eq!(rw.result_index, 0);
    assert_eq!(rw.data, vec![ColumnData::I32(Some(9))]);

    let item = stream.next_item(ReceivedToken::ReturnStatus(3)).unwrap().unwrap();
    assert!(matches!(item, CommandItem::ReturnStatus(3)));

    let rv = TokenReturnValue {
        param_name: "out1".to_string(),
        param_ordinal: 1,
        value: ColumnData::I32(Some(42)),
    };
    let item = stream.next_item(ReceivedToken::ReturnValue(rv)).unwrap().unwrap();
    match item {
        CommandItem::ReturnValue(crv) => {
            assert_eq!(crv.name, "out1");
            assert_eq!(crv.ord, 1);
            assert_eq!(crv.data, ColumnData::I32(Some(42)));
        },
        _ => panic!("expected a return value item"),
    }

    // Informational tokens and the final done token yield nothing.
    assert!(stream.next_item(ReceivedToken::Info("hi".to_string())).unwrap().is_none());
    assert!(stream.next_item(ReceivedToken::Done(TokenDone::new(0, 0))).unwrap().is_none());
}

#[test]
fn second_metadata_bumps_the_index() {
    let mut stream = CommandStream::new();
    let first = stream
        .next_item(ReceivedToken::NewResultset(meta(&["a"])))
        .unwrap()
        .unwrap()
        .into_metadata()
        .unwrap();
    assert_eq!(first.result_index, 0);
    let second = stream
        .next_item(ReceivedToken::NewResultset(meta(&["b"])))
        .unwrap()
        .unwrap()
        .into_metadata()
        .unwrap();
    assert_eq!(second.result_index, 1);
}

#[test]
fn into_rows_keeps_rows_only_in_order() {
    let tokens = vec![
        ReceivedToken::NewResultset(meta(&["a"])),
        row(1),
        ReceivedToken::ReturnStatus(0),
        ReceivedToken::NewResultset(meta(&["b"])),
        row(2),
        ReceivedToken::Done(TokenDone::new(0, 0)),
    ];
    let rows = CommandStream::new().into_rows(tokens).unwrap();
    assert_eq!(rows.len(), 2);
    assert_eq!(rows[0].data, vec![ColumnData::I32(Some(1))]);
    assert_eq!(rows[0].result_index, 0);
    assert_eq!(rows[1].data, vec![ColumnData::I32(Some(2))]);
    assert_eq!(rows[1].result_index, 1);
}

#[test]
fn item_accessors_reject_the_wrong_variant() {
    let item = CommandItem::RowsAffected(4);
    assert!(item.as_metadata().is_none());
    assert!(item.as_row().is_none());
    assert!(item.clone().into_metadata().is_none());
    assert!(item.into_row().is_none());
}
