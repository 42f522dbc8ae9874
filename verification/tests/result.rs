use tds_command::token::{ReceivedToken, TokenDone, TokenReturnValue};
use tds_command::value::ColumnData;
use tds_command::{CommandResult, Error, ExecuteResult};

fn rv(name: &str, value: ColumnData) -> ReceivedToken {
    ReceivedToken::ReturnValue(TokenReturnValue {
        param_name: name.to_string(),
        param_ordinal: 0,
        value,
    })
}

#[test]
fn execute_result_collects_counts() {
    let tokens = vec![
        ReceivedToken::Done(TokenDone::new(1, 2)),
        ReceivedToken::DoneInProc(TokenDone::new(1, 3)),
        ReceivedToken::DoneProc(TokenDone::new(0, 0)),
    ];
    let result = ExecuteResult::new(tokens);
    assert_eq!(result.rows_affected(), &[2u64, 3u64]);
    assert_eq!(result.total(), 5);
}

#[test]
fn execute_result_of_nothing_is_empty() {
    let result = ExecuteResult::new(Vec::new());
    assert_eq!(result.rows_affected(), &[] as &[u64]);
    assert_eq!(result.total(), 0);
}

#[test]
fn return_value_lookup() {
    let tokens = vec![
        rv("out1", ColumnData::I32(Some(42))),
        ReceivedToken::DoneProc(TokenDone::new(0, 0)),
    ];
    let result = CommandResult::new(tokens).unwrap();
    assert_eq!(result.return_values_len(), 1);
    let v: Option<i32> = result.try_return_value("out1").unwrap();
    assert_eq!(v, Some(42));
    let missing: Result<Option<i32>, Error> = result.try_return_value("missing");
    assert!(matches!(missing, Err(Error::Conversion(_))));
}

#[test]
fn return_value_of_the_wrong_type_is_a_conversion_error() {
    let tokens = vec![rv("out1", ColumnData::I32(Some(42)))];
    let result = CommandResult::new(tokens).unwrap();
    let wrong: Result<Option<bool>, Error> = result.try_return_value("out1");
    assert!(matches!(wrong, Err(Error::Conversion(_))));
}

#[test]
fn null_return_value_reads_back_as_none() {
    let tokens = vec![rv("out1", ColumnData::I64(None))];
    let result = CommandResult::new(tokens).unwrap();
    let v: Option<i64> = result.try_return_value("out1").unwrap();
    assert_eq!(v, None);
}

#[test]
fn first_matching_return_value_wins() {
    let tokens = vec![
        rv("out1", ColumnData::I32(Some(1))),
        rv("out1", ColumnData::I32(Some(2))),
    ];
    let result = CommandResult::new(tokens).unwrap();
    let v: Option<i32> = result.try_return_value("out1").unwrap();
    assert_eq!(v, Some(1));
}

#[test]
fn last_return_status_wins() {
    let tokens = vec![
        ReceivedToken::ReturnStatus(1),
        ReceivedToken::ReturnStatus(7),
        ReceivedToken::DoneProc(TokenDone::new(0, 0)),
    ];
    let result = CommandResult::new(tokens).unwrap();
    assert_eq!(result.return_code(), 7);
}

#[test]
fn return_code_defaults_to_zero() {
    let result = CommandResult::new(Vec::new()).unwrap();
    assert_eq!(result.return_code(), 0);
    assert_eq!(result.return_values_len(), 0);
    assert_eq!(result.rows_affected(), &[] as &[u64]);
}
