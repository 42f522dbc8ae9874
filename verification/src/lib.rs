//! Request/response engine of a client for the TDS tabular-data wire
//! protocol: it builds remote-procedure-call requests (with scalar and
//! table-valued parameters) and folds the server's token-oriented
//! response stream into structured results.
//!
//! The crate is organised leaves first: scalar values and their wire
//! codec (`value`), the byte buffer the encoder writes into (`buf`), the
//! table-valued-parameter encoder and its grammar (`type_info_tvp`),
//! response tokens (`token`), the token-to-item state machine
//! (`command_stream`), the command builder (`command`) and the terminal
//! result aggregates (`result`).

pub mod buf;
pub mod command;
pub mod command_stream;
pub mod error;
pub mod result;
pub mod token;
pub mod type_info_tvp;
pub mod value;

pub use command::{Command, SqlTableData, SqlTableDataRow, TableValue, TableValueRow};
pub use command_stream::{CommandItem, CommandReturnValue, CommandStream, ResultMetadata, Row};
pub use error::Error;
pub use result::{CommandResult, ExecuteResult};
pub use type_info_tvp::TypeInfoTvp;
pub use value::{ColumnData, FromSql, IntoSql};
