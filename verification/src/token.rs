//! The protocol tokens a response stream decodes to, as the pipeline
//! consumes them.

use crate::value::{ColumnData, MetaDataColumn};
use vstd::prelude::*;

verus! {

/// A done token: its status flags and the rows-affected count it carries.
/// A status with no flags set marks the synthetic token that closes the
/// whole batch rather than one statement.
#[derive(Debug, Clone, PartialEq)]
pub struct TokenDone {
    pub status: u16,
    pub done_rows: u64,
}

impl TokenDone {
    pub fn new(status: u16, done_rows: u64) -> (r: Self)
        ensures
            r == (TokenDone { status, done_rows }),
    {
        TokenDone { status, done_rows }
    }

    /// Whether this token closes the whole batch.
    pub open spec fn spec_is_final(self) -> bool {
        self.status == 0
    }

    pub fn is_final(&self) -> (r: bool)
        ensures
            r == self.spec_is_final(),
    {
        self.status == 0
    }

    /// The rows-affected count the token carries.
    pub fn rows(&self) -> (r: u64)
        ensures
            r == self.done_rows,
    {
        self.done_rows
    }
}

/// A return-value token: one OUTPUT parameter's name, ordinal and value.
#[derive(Debug, Clone, PartialEq)]
pub struct TokenReturnValue {
    pub param_name: String,
    pub param_ordinal: u16,
    pub value: ColumnData,
}

/// A column-metadata token: the column descriptors of a fresh result set.
#[derive(Debug, Clone, PartialEq)]
pub struct TokenColMetaData {
    pub columns: Vec<MetaDataColumn>,
}

/// One decoded protocol token, in the order the server sent it.
#[derive(Debug, Clone, PartialEq)]
pub enum ReceivedToken {
    /// Column metadata announcing a fresh result set.
    NewResultset(TokenColMetaData),
    /// One row of raw column values, decoded against the most recent
    /// metadata.
    Row(Vec<ColumnData>),
    /// The numeric status of the most recently completed procedure call.
    ReturnStatus(u32),
    /// The post-call value of one OUTPUT parameter.
    ReturnValue(TokenReturnValue),
    /// A done token closing a procedure call.
    DoneProc(TokenDone),
    /// A done token closing a statement inside a procedure.
    DoneInProc(TokenDone),
    /// A done token closing a plain statement.
    Done(TokenDone),
    /// An informational message; recognized and skipped by consumers.
    Info(String),
}

} // verus!
