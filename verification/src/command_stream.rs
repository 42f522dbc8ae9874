//! The token-to-item state machine: classifies decoded protocol tokens
//! into command items, tracking the current column set and result-set
//! index, and folds a full token sequence into a materialized result.

use crate::error::Error;
use crate::result::CommandResult;
use crate::token::{ReceivedToken, TokenColMetaData};
use crate::value::{ColumnData, TypeInfo};
use vstd::prelude::*;
use vstd::string::StringExecFns;

verus! {

/// The kind of a column, as announced to consumers of result metadata.
#[derive(Debug, Clone, Copy, PartialEq, Eq, Structural)]
pub enum ColumnType {
    Bit,
    Int1,
    Int2,
    Int4,
    Int8,
    Intn,
    Bitn,
}

/// The announced kind of a column of the given declared type.
pub open spec fn spec_column_type_of(ti: TypeInfo) -> ColumnType {
    match ti {
        TypeInfo::FixedLen(t) => match t {
            crate::value::FixedLenType::Bit => ColumnType::Bit,
            crate::value::FixedLenType::Int1 => ColumnType::Int1,
            crate::value::FixedLenType::Int2 => ColumnType::Int2,
            crate::value::FixedLenType::Int4 => ColumnType::Int4,
            crate::value::FixedLenType::Int8 => ColumnType::Int8,
        },
        TypeInfo::VarLenSized(c) => match c.ty {
            crate::value::VarLenType::Intn => ColumnType::Intn,
            crate::value::VarLenType::Bitn => ColumnType::Bitn,
        },
    }
}

/// Decides `spec_column_type_of`.
pub fn column_type_of(ti: &TypeInfo) -> (r: ColumnType)
    ensures
        r == spec_column_type_of(*ti),
{
    match ti {
        TypeInfo::FixedLen(t) => match t {
            crate::value::FixedLenType::Bit => ColumnType::Bit,
            crate::value::FixedLenType::Int1 => ColumnType::Int1,
            crate::value::FixedLenType::Int2 => ColumnType::Int2,
            crate::value::FixedLenType::Int4 => ColumnType::Int4,
            crate::value::FixedLenType::Int8 => ColumnType::Int8,
        },
        TypeInfo::VarLenSized(c) => match c.ty {
            crate::value::VarLenType::Intn => ColumnType::Intn,
            crate::value::VarLenType::Bitn => ColumnType::Bitn,
        },
    }
}

/// One column as exposed to consumers: its name and kind.
#[derive(Debug, Clone, PartialEq)]
pub struct Column {
    pub name: String,
    pub column_type: ColumnType,
}

/// The metadata of one result set: its columns and its index in the
/// response.
#[derive(Debug, Clone, PartialEq)]
pub struct ResultMetadata {
    pub columns: Vec<Column>,
    pub result_index: usize,
}

/// One row of data, tagged with the index of the result set it belongs
/// to.
#[derive(Debug, Clone, PartialEq)]
pub struct Row {
    pub data: Vec<ColumnData>,
    pub result_index: usize,
}

/// The post-call value of one OUTPUT parameter, as collected into a
/// result.
#[derive(Debug, Clone, PartialEq)]
pub struct CommandReturnValue {
    pub name: String,
    pub ord: u16,
    pub data: ColumnData,
}

/// Resulting data from a command.
#[derive(Debug, Clone, PartialEq)]
pub enum CommandItem {
    /// A single row of data.
    Row(Row),
    /// Information of the upcoming row data.
    Metadata(ResultMetadata),
    /// Return status from the server.
    ReturnStatus(u32),
    /// Return value, matching OUT parameter(s).
    ReturnValue(CommandReturnValue),
    /// Rows affected, for one of the statements run in the server.
    RowsAffected(u64),
}

impl CommandItem {
    /// Wraps columns and a result-set index as a metadata item.
    pub fn metadata(columns: Vec<Column>, result_index: usize) -> (r: Self)
        ensures
            r == CommandItem::Metadata(ResultMetadata { columns, result_index }),
    {
        CommandItem::Metadata(ResultMetadata { columns, result_index })
    }

    /// A reference to the metadata, if the item is of the correct variant.
    pub fn as_metadata(&self) -> (r: Option<&ResultMetadata>)
        ensures
            r is Some <==> self is Metadata,
            r matches Some(m) ==> *m == self->Metadata_0,
    {
        match self {
            CommandItem::Metadata(m) => Some(m),
            _ => None,
        }
    }

    /// A reference to the row, if the item is of the correct variant.
    pub fn as_row(&self) -> (r: Option<&Row>)
        ensures
            r is Some <==> self is Row,
            r matches Some(w) ==> *w == self->Row_0,
    {
        match self {
            CommandItem::Row(w) => Some(w),
            _ => None,
        }
    }

    /// The metadata, if the item is of the correct variant.
    pub fn into_metadata(self) -> (r: Option<ResultMetadata>)
        ensures
            r is Some <==> self is Metadata,
            r matches Some(m) ==> m == self->Metadata_0,
    {
        match self {
            CommandItem::Metadata(m) => Some(m),
            _ => None,
        }
    }

    /// The row, if the item is of the correct variant.
    pub fn into_row(self) -> (r: Option<Row>)
        ensures
            r is Some <==> self is Row,
            r matches Some(w) ==> w == self->Row_0,
    {
        match self {
            CommandItem::Row(w) => Some(w),
            _ => None,
        }
    }
}

/// The columns a metadata token announces, as consumers see them.
pub open spec fn spec_columns_of(meta: TokenColMetaData) -> Seq<Column> {
    meta.columns@.map_values(
        |m: crate::value::MetaDataColumn| Column {
            name: m.col_name,
            column_type: spec_column_type_of(m.base.ty),
        },
    )
}

/// The result-set index after one more metadata token: zero for the
/// first, one more for each later one.
pub open spec fn spec_next_index(idx: Option<usize>) -> usize {
    match idx {
        None => 0,
        Some(i) => (i + 1) as usize,
    }
}

/// The token-to-item state machine: the current column set and the
/// current result-set index, absent until the first metadata token.
#[derive(Debug)]
pub struct CommandStream {
    pub columns: Option<Vec<Column>>,
    pub result_set_index: Option<usize>,
}

impl CommandStream {
    /// A fresh stream: no metadata observed yet.
    pub fn new() -> (r: Self)
        ensures
            r.columns is None,
            r.result_set_index is None,
    {
        CommandStream { columns: None, result_set_index: None }
    }

    /// Classifies one token: a metadata token announces a fresh result
    /// set and bumps the index; a row is tagged with the current index
    /// and is a protocol error when no metadata was observed yet; status,
    /// return-value and non-final done tokens map to their items; the
    /// final done token and informational tokens yield nothing.
    pub fn next_item(&mut self, token: ReceivedToken) -> (r: Result<Option<CommandItem>, Error>)
        requires
            old(self).result_set_index matches Some(i) ==> i < usize::MAX,
        ensures
            match token {
                ReceivedToken::NewResultset(meta) => {
                    &&& r matches Ok(Some(item))
                    &&& item matches CommandItem::Metadata(m) && m.columns@ == spec_columns_of(
                        meta,
                    ) && m.result_index == spec_next_index(old(self).result_set_index)
                    &&& final(self).columns matches Some(cs) && cs@ == spec_columns_of(meta)
                    &&& final(self).result_set_index == Some(
                        spec_next_index(old(self).result_set_index),
                    )
                },
                ReceivedToken::Row(d) => match old(self).result_set_index {
                    None => r matches Err(e) && e is Protocol && *final(self) == *old(self),
                    Some(ix) => r == Ok::<Option<CommandItem>, Error>(
                        Some(CommandItem::Row(Row { data: d, result_index: ix })),
                    ) && *final(self) == *old(self),
                },
                ReceivedToken::ReturnStatus(st) => r == Ok::<Option<CommandItem>, Error>(
                    Some(CommandItem::ReturnStatus(st)),
                ) && *final(self) == *old(self),
                ReceivedToken::ReturnValue(rv) => r == Ok::<Option<CommandItem>, Error>(
                    Some(
                        CommandItem::ReturnValue(
                            CommandReturnValue {
                                name: rv.param_name,
                                ord: rv.param_ordinal,
                                data: rv.value,
                            },
                        ),
                    ),
                ) && *final(self) == *old(self),
                ReceivedToken::DoneProc(d) => (if d.spec_is_final() {
                    r == Ok::<Option<CommandItem>, Error>(None)
                } else {
                    r == Ok::<Option<CommandItem>, Error>(
                        Some(CommandItem::RowsAffected(d.done_rows)),
                    )
                }) && *final(self) == *old(self),
                ReceivedToken::Done(d) => (if d.spec_is_final() {
                    r == Ok::<Option<CommandItem>, Error>(None)
                } else {
                    r == Ok::<Option<CommandItem>, Error>(
                        Some(CommandItem::RowsAffected(d.done_rows)),
                    )
                }) && *final(self) == *old(self),
                ReceivedToken::DoneInProc(d) => r == Ok::<Option<CommandItem>, Error>(
                    Some(CommandItem::RowsAffected(d.done_rows)),
                ) && *final(self) == *old(self),
                ReceivedToken::Info(_) => r == Ok::<Option<CommandItem>, Error>(None)
                    && *final(self) == *old(self),
            },
    {
        match token {
            ReceivedToken::NewResultset(meta) => {
                let mut cols: Vec<Column> = Vec::new();
                let mut cols_state: Vec<Column> = Vec::new();
                let mut k: usize = 0;
                while k < meta.columns.len()
                    invariant
                        k <= meta.columns@.len(),
                        cols@.len() == k,
                        cols_state@.len() == k,
                        forall|m: int| 0 <= m < k ==> cols@[m] == spec_columns_of(meta)[m],
                        forall|m: int| 0 <= m < k ==> cols_state@[m] == spec_columns_of(meta)[m],
                    decreases meta.columns@.len() - k,
                {
                    let c = &meta.columns[k];
                    cols.push(
                        Column {
                            name: c.col_name.clone(),
                            column_type: column_type_of(&c.base.ty),
                        },
                    );
                    cols_state.push(
                        Column {
                            name: c.col_name.clone(),
                            column_type: column_type_of(&c.base.ty),
                        },
                    );
                    k += 1;
                }
                proof {
                    assert(cols@ =~= spec_columns_of(meta));
                    assert(cols_state@ =~= spec_columns_of(meta));
                }
                let next_index: usize = match self.result_set_index {
                    None => 0,
                    Some(i) => i + 1,
                };
                self.columns = Some(cols_state);
                self.result_set_index = Some(next_index);
                Ok(Some(CommandItem::metadata(cols, next_index)))
            },
            ReceivedToken::Row(d) => match self.result_set_index {
                None => Err(
                    Error::Protocol(String::from_str("row token before any column metadata")),
                ),
                Some(ix) => Ok(Some(CommandItem::Row(Row { data: d, result_index: ix }))),
            },
            ReceivedToken::ReturnStatus(st) => Ok(Some(CommandItem::ReturnStatus(st))),
            ReceivedToken::ReturnValue(rv) => Ok(
                Some(
                    CommandItem::ReturnValue(
                        CommandReturnValue {
                            name: rv.param_name,
                            ord: rv.param_ordinal,
                            data: rv.value,
                        },
                    ),
                ),
            ),
            ReceivedToken::DoneProc(d) => {
                if d.is_final() {
                    Ok(None)
                } else {
                    Ok(Some(CommandItem::RowsAffected(d.done_rows)))
                }
            },
            ReceivedToken::Done(d) => {
                if d.is_final() {
                    Ok(None)
                } else {
                    Ok(Some(CommandItem::RowsAffected(d.done_rows)))
                }
            },
            ReceivedToken::DoneInProc(d) => Ok(Some(CommandItem::RowsAffected(d.done_rows))),
            ReceivedToken::Info(_) => Ok(None),
        }
    }
}

/// The rows-affected counts a token sequence contributes, appended to
/// `acc`: one entry per non-final done token, none for the final one.
pub open spec fn spec_rows_affected_from(tokens: Seq<ReceivedToken>, acc: Seq<u64>) -> Seq<u64>
    decreases tokens.len(),
{
    if tokens.len() == 0 {
        acc
    } else {
        let rest = tokens.drop_first();
        match tokens[0] {
            ReceivedToken::DoneProc(d) => if d.spec_is_final() {
                spec_rows_affected_from(rest, acc)
            } else {
                spec_rows_affected_from(rest, acc.push(d.done_rows))
            },
            ReceivedToken::Done(d) => if d.spec_is_final() {
                spec_rows_affected_from(rest, acc)
            } else {
                spec_rows_affected_from(rest, acc.push(d.done_rows))
            },
            ReceivedToken::DoneInProc(d) => spec_rows_affected_from(rest, acc.push(d.done_rows)),
            _ => spec_rows_affected_from(rest, acc),
        }
    }
}

/// The rows-affected counts of a token sequence, in order.
pub open spec fn spec_rows_affected(tokens: Seq<ReceivedToken>) -> Seq<u64> {
    spec_rows_affected_from(tokens, Seq::empty())
}

/// The return code after a token sequence, starting from `cur`: the last
/// status token observed wins.
pub open spec fn spec_return_code_from(tokens: Seq<ReceivedToken>, cur: u32) -> u32
    decreases tokens.len(),
{
    if tokens.len() == 0 {
        cur
    } else {
        match tokens[0] {
            ReceivedToken::ReturnStatus(st) => spec_return_code_from(tokens.drop_first(), st),
            _ => spec_return_code_from(tokens.drop_first(), cur),
        }
    }
}

/// The return code of a token sequence; zero when no status was sent.
pub open spec fn spec_return_code(tokens: Seq<ReceivedToken>) -> u32 {
    spec_return_code_from(tokens, 0)
}

/// The return values a token sequence contributes, appended to `acc`.
pub open spec fn spec_return_values_from(
    tokens: Seq<ReceivedToken>,
    acc: Seq<CommandReturnValue>,
) -> Seq<CommandReturnValue>
    decreases tokens.len(),
{
    if tokens.len() == 0 {
        acc
    } else {
        match tokens[0] {
            ReceivedToken::ReturnValue(rv) => spec_return_values_from(
                tokens.drop_first(),
                acc.push(
                    CommandReturnValue {
                        name: rv.param_name,
                        ord: rv.param_ordinal,
                        data: rv.value,
                    },
                ),
            ),
            _ => spec_return_values_from(tokens.drop_first(), acc),
        }
    }
}

/// The return values of a token sequence, in order.
pub open spec fn spec_return_values(tokens: Seq<ReceivedToken>) -> Seq<CommandReturnValue> {
    spec_return_values_from(tokens, Seq::empty())
}

/// Whether a row token arrives while no metadata has been observed;
/// `has_meta` says whether one was observed before the sequence.
pub open spec fn spec_out_of_order_from(tokens: Seq<ReceivedToken>, has_meta: bool) -> bool
    decreases tokens.len(),
{
    if tokens.len() == 0 {
        false
    } else {
        match tokens[0] {
            ReceivedToken::Row(_) => !has_meta || spec_out_of_order_from(
                tokens.drop_first(),
                has_meta,
            ),
            ReceivedToken::NewResultset(_) => spec_out_of_order_from(tokens.drop_first(), true),
            _ => spec_out_of_order_from(tokens.drop_first(), has_meta),
        }
    }
}

/// Whether the sequence delivers a row before any metadata.
pub open spec fn spec_out_of_order(tokens: Seq<ReceivedToken>) -> bool {
    spec_out_of_order_from(tokens, false)
}

/// The result-set index after one more metadata token, over mathematical
/// integers.
pub open spec fn spec_next_index_int(idx: Option<int>) -> int {
    match idx {
        None => 0,
        Some(i) => i + 1,
    }
}

/// The per-result-set row groups of a token sequence: consecutive rows
/// between metadata boundaries form one group; `idx` is the current
/// result-set index, `cur` the group being collected, `acc` the closed
/// groups.
pub open spec fn spec_groups_from(
    tokens: Seq<ReceivedToken>,
    idx: Option<int>,
    cur: Option<Seq<Row>>,
    acc: Seq<Seq<Row>>,
) -> Seq<Seq<Row>>
    decreases tokens.len(),
{
    if tokens.len() == 0 {
        match cur {
            Some(g) => acc.push(g),
            None => acc,
        }
    } else {
        let rest = tokens.drop_first();
        match tokens[0] {
            ReceivedToken::NewResultset(_) => {
                let nidx = Some(spec_next_index_int(idx));
                match cur {
                    None => spec_groups_from(rest, nidx, Some(Seq::empty()), acc),
                    Some(g) => spec_groups_from(rest, nidx, None, acc.push(g)),
                }
            },
            ReceivedToken::Row(d) => match idx {
                None => spec_groups_from(rest, idx, cur, acc),
                Some(ix) => {
                    let rw = Row { data: d, result_index: ix as usize };
                    match cur {
                        None => spec_groups_from(rest, idx, Some(seq![rw]), acc),
                        Some(g) => spec_groups_from(rest, idx, Some(g.push(rw)), acc),
                    }
                },
            },
            _ => spec_groups_from(rest, idx, cur, acc),
        }
    }
}

/// The per-result-set row groups of a token sequence.
pub open spec fn spec_groups(tokens: Seq<ReceivedToken>) -> Seq<Seq<Row>> {
    spec_groups_from(tokens, None, None, Seq::empty())
}

/// The rows of a token sequence in delivery order, each tagged with its
/// result-set index, appended to `acc`.
pub open spec fn spec_all_rows_from(
    tokens: Seq<ReceivedToken>,
    idx: Option<int>,
    acc: Seq<Row>,
) -> Seq<Row>
    decreases tokens.len(),
{
    if tokens.len() == 0 {
        acc
    } else {
        let rest = tokens.drop_first();
        match tokens[0] {
            ReceivedToken::NewResultset(_) => spec_all_rows_from(
                rest,
                Some(spec_next_index_int(idx)),
                acc,
            ),
            ReceivedToken::Row(d) => match idx {
                None => spec_all_rows_from(rest, idx, acc),
                Some(ix) => spec_all_rows_from(
                    rest,
                    idx,
                    acc.push(Row { data: d, result_index: ix as usize }),
                ),
            },
            _ => spec_all_rows_from(rest, idx, acc),
        }
    }
}

/// The rows of a token sequence in delivery order.
pub open spec fn spec_all_rows(tokens: Seq<ReceivedToken>) -> Seq<Row> {
    spec_all_rows_from(tokens, None, Seq::empty())
}

impl CommandStream {
    /// The current result-set index, over mathematical integers.
    pub open spec fn idx_view(self) -> Option<int> {
        match self.result_set_index {
            Some(ix) => Some(ix as int),
            None => None,
        }
    }

    /// Collects all results from the command's tokens into memory in the
    /// order of querying: consecutive rows are grouped per result set,
    /// and status, return values and affected-row counts are collected
    /// alongside. Fails exactly when a row arrives before any metadata.
    #[verifier::loop_isolation(false)]
    pub fn into_command_result(self, tokens: Vec<ReceivedToken>) -> (r: Result<
        CommandResult,
        Error,
    >)
        requires
            self.columns is None,
            self.result_set_index is None,
        ensures
            match r {
                Ok(c) => !spec_out_of_order(tokens@) && c.rows_affected@ == spec_rows_affected(
                    tokens@,
                ) && c.return_code == spec_return_code(tokens@) && c.return_values@
                    == spec_return_values(tokens@) && c.query_results@.map_values(
                    |g: Vec<Row>| g@,
                ) == spec_groups(tokens@),
                Err(e) => spec_out_of_order(tokens@) && e is Protocol,
            },
    {
        let ghost orig = tokens@;
        let mut this = self;
        let mut toks = tokens;
        let mut results: Vec<Vec<Row>> = Vec::new();
        let mut result: Option<Vec<Row>> = None;
        let mut return_status: u32 = 0;
        let mut return_values: Vec<CommandReturnValue> = Vec::new();
        let mut rows_affected: Vec<u64> = Vec::new();
        let n0 = toks.len();
        proof {
            assert(orig.skip(0) =~= orig);
            assert(orig.len() == n0);
            assert(results@.map_values(|g: Vec<Row>| g@) =~= Seq::<Seq<Row>>::empty());
        }
        while toks.len() > 0
            invariant
                orig.len() <= usize::MAX,
                toks@.len() <= orig.len(),
                this.result_set_index matches Some(ix) ==> ix + toks@.len() < orig.len() + 1,
                spec_rows_affected_from(orig, Seq::empty()) == spec_rows_affected_from(
                    toks@,
                    rows_affected@,
                ),
                spec_return_code_from(orig, 0) == spec_return_code_from(toks@, return_status),
                spec_return_values_from(orig, Seq::empty()) == spec_return_values_from(
                    toks@,
                    return_values@,
                ),
                spec_groups_from(orig, None, None, Seq::empty()) == spec_groups_from(
                    toks@,
                    this.idx_view(),
                    match result {
                        Some(g) => Some(g@),
                        None => None,
                    },
                    results@.map_values(|g: Vec<Row>| g@),
                ),
                spec_out_of_order_from(orig, false) == spec_out_of_order_from(
                    toks@,
                    this.result_set_index is Some,
                ),
            decreases toks@.len(),
        {
            let ghost before = toks@;
            proof {
                assert(before.remove(0) =~= before.drop_first());
            }
            let tk = toks.remove(0);
            let item_res = this.next_item(tk);
            match item_res {
                Err(e) => {
                    proof {
                        assert(before[0] is Row);
                        assert(this.result_set_index is None);
                        assert(spec_out_of_order_from(before, false));
                    }
                    return Err(e);
                },
                Ok(None) => {},
                Ok(Some(item)) => {
                    match item {
                        CommandItem::Row(rw) => {
                            result = match result {
                                None => {
                                    let ghost rv = rw;
                                    let grp = vec![rw];
                                    proof {
                                        assert(grp@ =~= seq![rv]);
                                    }
                                    Some(grp)
                                },
                                Some(mut g) => {
                                    g.push(rw);
                                    Some(g)
                                },
                            };
                        },
                        CommandItem::Metadata(_) => {
                            result = match result {
                                None => Some(Vec::new()),
                                Some(g) => {
                                    let ghost prev = results@;
                                    let ghost gv = g@;
                                    results.push(g);
                                    proof {
                                        assert(results@.map_values(|x: Vec<Row>| x@)
                                            =~= prev.map_values(|x: Vec<Row>| x@).push(gv));
                                    }
                                    None
                                },
                            };
                        },
                        CommandItem::ReturnStatus(st) => {
                            return_status = st;
                        },
                        CommandItem::ReturnValue(rv) => {
                            return_values.push(rv);
                        },
                        CommandItem::RowsAffected(n) => {
                            rows_affected.push(n);
                        },
                    }
                },
            }
        }
        if let Some(g) = result {
            let ghost prev = results@;
            let ghost gv = g@;
            results.push(g);
            proof {
                assert(results@.map_values(|x: Vec<Row>| x@) =~= prev.map_values(
                    |x: Vec<Row>| x@,
                ).push(gv));
            }
        }
        proof {
            assert(spec_rows_affected_from(toks@, rows_affected@) == rows_affected@);
            assert(spec_return_code_from(toks@, return_status) == return_status);
            assert(spec_return_values_from(toks@, return_values@) == return_values@);
        }
        Ok(
            CommandResult {
                rows_affected,
                return_code: return_status,
                return_values,
                query_results: results,
            },
        )
    }

    /// The rows of the command's tokens in delivery order, each tagged
    /// with its result-set index; everything that is not a row is
    /// discarded. Fails exactly when a row arrives before any metadata.
    #[verifier::loop_isolation(false)]
    pub fn into_rows(self, tokens: Vec<ReceivedToken>) -> (r: Result<Vec<Row>, Error>)
        requires
            self.columns is None,
            self.result_set_index is None,
        ensures
            match r {
                Ok(rows) => !spec_out_of_order(tokens@) && rows@ == spec_all_rows(tokens@),
                Err(e) => spec_out_of_order(tokens@) && e is Protocol,
            },
    {
        let ghost orig = tokens@;
        let mut this = self;
        let mut toks = tokens;
        let mut out: Vec<Row> = Vec::new();
        let n0 = toks.len();
        proof {
            assert(orig.skip(0) =~= orig);
            assert(orig.len() == n0);
        }
        while toks.len() > 0
            invariant
                orig.len() <= usize::MAX,
                toks@.len() <= orig.len(),
                this.result_set_index matches Some(ix) ==> ix + toks@.len() < orig.len() + 1,
                spec_all_rows_from(orig, None, Seq::empty()) == spec_all_rows_from(
                    toks@,
                    this.idx_view(),
                    out@,
                ),
                spec_out_of_order_from(orig, false) == spec_out_of_order_from(
                    toks@,
                    this.result_set_index is Some,
                ),
            decreases toks@.len(),
        {
            let ghost before = toks@;
            proof {
                assert(before.remove(0) =~= before.drop_first());
            }
            let tk = toks.remove(0);
            match this.next_item(tk) {
                Err(e) => {
                    proof {
                        assert(before[0] is Row);
                        assert(this.result_set_index is None);
                        assert(spec_out_of_order_from(before, false));
                    }
                    return Err(e);
                },
                Ok(None) => {},
                Ok(Some(item)) => {
                    match item.into_row() {
                        Some(rw) => {
                            out.push(rw);
                        },
                        None => {},
                    }
                },
            }
        }
        Ok(out)
    }
}

proof fn lemma_ra_from_push_done(s: Seq<ReceivedToken>, d: crate::token::TokenDone, acc: Seq<u64>)
    ensures
        d.spec_is_final() ==> spec_rows_affected_from(s.push(ReceivedToken::Done(d)), acc)
            == spec_rows_affected_from(s, acc),
        d.spec_is_final() ==> spec_rows_affected_from(s.push(ReceivedToken::DoneProc(d)), acc)
            == spec_rows_affected_from(s, acc),
        !d.spec_is_final() ==> spec_rows_affected_from(s.push(ReceivedToken::Done(d)), acc)
            == spec_rows_affected_from(s, acc).push(d.done_rows),
        !d.spec_is_final() ==> spec_rows_affected_from(s.push(ReceivedToken::DoneProc(d)), acc)
            == spec_rows_affected_from(s, acc).push(d.done_rows),
    decreases s.len(),
{
    if s.len() == 0 {
        assert(s.push(ReceivedToken::Done(d)).drop_first() =~= Seq::<ReceivedToken>::empty());
        assert(s.push(ReceivedToken::DoneProc(d)).drop_first() =~= Seq::<ReceivedToken>::empty());
        assert(spec_rows_affected_from(Seq::<ReceivedToken>::empty(), acc) == acc);
        assert(spec_rows_affected_from(Seq::<ReceivedToken>::empty(), acc.push(d.done_rows))
            == acc.push(d.done_rows));
    } else {
        assert(s.push(ReceivedToken::Done(d))[0] == s[0]);
        assert(s.push(ReceivedToken::DoneProc(d))[0] == s[0]);
        assert(s.push(ReceivedToken::Done(d)).drop_first() =~= s.drop_first().push(
            ReceivedToken::Done(d),
        ));
        assert(s.push(ReceivedToken::DoneProc(d)).drop_first() =~= s.drop_first().push(
            ReceivedToken::DoneProc(d),
        ));
        match s[0] {
            ReceivedToken::DoneProc(h) => {
                if h.spec_is_final() {
                    lemma_ra_from_push_done(s.drop_first(), d, acc);
                } else {
                    lemma_ra_from_push_done(s.drop_first(), d, acc.push(h.done_rows));
                }
            },
            ReceivedToken::Done(h) => {
                if h.spec_is_final() {
                    lemma_ra_from_push_done(s.drop_first(), d, acc);
                } else {
                    lemma_ra_from_push_done(s.drop_first(), d, acc.push(h.done_rows));
                }
            },
            ReceivedToken::DoneInProc(h) => {
                lemma_ra_from_push_done(s.drop_first(), d, acc.push(h.done_rows));
            },
            _ => {
                lemma_ra_from_push_done(s.drop_first(), d, acc);
            },
        }
    }
}

/// The final-done law: however a token sequence ends, a done token marked
/// final contributes no rows-affected entry, and a non-final one
/// contributes exactly its count, whether it closes a procedure or a
/// plain statement.
pub proof fn lemma_final_done_excluded(tokens: Seq<ReceivedToken>, d: crate::token::TokenDone)
    ensures
        d.spec_is_final() ==> spec_rows_affected(tokens.push(ReceivedToken::Done(d)))
            == spec_rows_affected(tokens),
        d.spec_is_final() ==> spec_rows_affected(tokens.push(ReceivedToken::DoneProc(d)))
            == spec_rows_affected(tokens),
        !d.spec_is_final() ==> spec_rows_affected(tokens.push(ReceivedToken::Done(d)))
            == spec_rows_affected(tokens).push(d.done_rows),
        !d.spec_is_final() ==> spec_rows_affected(tokens.push(ReceivedToken::DoneProc(d)))
            == spec_rows_affected(tokens).push(d.done_rows),
{
    lemma_ra_from_push_done(tokens, d, Seq::empty());
}

/// The ordering law: in a response of two result sets, the rows before
/// the second metadata token belong to result set zero and the rows after
/// it to result set one, materialization groups them accordingly, and the
/// closing final done token adds no rows-affected entry.
pub proof fn lemma_token_ordering(
    m1: TokenColMetaData,
    m2: TokenColMetaData,
    r1: Vec<ColumnData>,
    r2: Vec<ColumnData>,
    r3: Vec<ColumnData>,
    d: crate::token::TokenDone,
)
    requires
        d.spec_is_final(),
    ensures
        ({
            let tokens = seq![
                ReceivedToken::NewResultset(m1),
                ReceivedToken::Row(r1),
                ReceivedToken::Row(r2),
                ReceivedToken::NewResultset(m2),
                ReceivedToken::Row(r3),
                ReceivedToken::Done(d),
            ];
            &&& spec_groups(tokens) == seq![
                seq![
                    Row { data: r1, result_index: 0 },
                    Row { data: r2, result_index: 0 },
                ],
                seq![Row { data: r3, result_index: 1 }],
            ]
            &&& spec_rows_affected(tokens) == Seq::<u64>::empty()
            &&& !spec_out_of_order(tokens)
        }),
{
    let tokens = seq![
        ReceivedToken::NewResultset(m1),
        ReceivedToken::Row(r1),
        ReceivedToken::Row(r2),
        ReceivedToken::NewResultset(m2),
        ReceivedToken::Row(r3),
        ReceivedToken::Done(d),
    ];
    let t1 = tokens.drop_first();
    let t2 = t1.drop_first();
    let t3 = t2.drop_first();
    let t4 = t3.drop_first();
    let t5 = t4.drop_first();
    let t6 = t5.drop_first();
    assert(t6.len() == 0);
    let w1 = Row { data: r1, result_index: 0 };
    let w2 = Row { data: r2, result_index: 0 };
    let w3 = Row { data: r3, result_index: 1 };
    assert(spec_groups_from(tokens, None, None, Seq::empty()) == spec_groups_from(
        t1,
        Some(0),
        Some(Seq::empty()),
        Seq::empty(),
    ));
    assert(spec_groups_from(t1, Some(0), Some(Seq::empty()), Seq::empty()) == spec_groups_from(
        t2,
        Some(0),
        Some(Seq::<Row>::empty().push(w1)),
        Seq::empty(),
    ));
    assert(spec_groups_from(t2, Some(0), Some(Seq::<Row>::empty().push(w1)), Seq::empty())
        == spec_groups_from(
        t3,
        Some(0),
        Some(Seq::<Row>::empty().push(w1).push(w2)),
        Seq::empty(),
    ));
    assert(spec_groups_from(t3, Some(0), Some(Seq::<Row>::empty().push(w1).push(w2)), Seq::empty())
        == spec_groups_from(
        t4,
        Some(1),
        None,
        Seq::<Seq<Row>>::empty().push(Seq::<Row>::empty().push(w1).push(w2)),
    ));
    let acc1 = Seq::<Seq<Row>>::empty().push(Seq::<Row>::empty().push(w1).push(w2));
    assert(spec_groups_from(t4, Some(1), None, acc1) == spec_groups_from(
        t5,
        Some(1),
        Some(seq![w3]),
        acc1,
    ));
    assert(spec_groups_from(t5, Some(1), Some(seq![w3]), acc1) == spec_groups_from(
        t6,
        Some(1),
        Some(seq![w3]),
        acc1,
    ));
    assert(spec_groups_from(t6, Some(1), Some(seq![w3]), acc1) == acc1.push(seq![w3]));
    assert(spec_groups(tokens) =~~= seq![
        seq![w1, w2],
        seq![w3],
    ]);
    assert(spec_rows_affected_from(tokens, Seq::empty()) == spec_rows_affected_from(
        t1,
        Seq::empty(),
    ));
    assert(spec_rows_affected_from(t1, Seq::empty()) == spec_rows_affected_from(t2, Seq::empty()));
    assert(spec_rows_affected_from(t2, Seq::empty()) == spec_rows_affected_from(t3, Seq::empty()));
    assert(spec_rows_affected_from(t3, Seq::empty()) == spec_rows_affected_from(t4, Seq::empty()));
    assert(spec_rows_affected_from(t4, Seq::empty()) == spec_rows_affected_from(t5, Seq::empty()));
    assert(spec_rows_affected_from(t5, Seq::empty()) == spec_rows_affected_from(t6, Seq::empty()));
    assert(spec_rows_affected_from(t6, Seq::empty()) =~= Seq::<u64>::empty());
    assert(spec_out_of_order_from(tokens, false) == spec_out_of_order_from(t1, true));
    assert(spec_out_of_order_from(t1, true) == spec_out_of_order_from(t2, true));
    assert(spec_out_of_order_from(t2, true) == spec_out_of_order_from(t3, true));
    assert(spec_out_of_order_from(t3, true) == spec_out_of_order_from(t4, true));
    assert(spec_out_of_order_from(t4, true) == spec_out_of_order_from(t5, true));
    assert(spec_out_of_order_from(t5, true) == spec_out_of_order_from(t6, true));
    assert(!spec_out_of_order_from(t6, true));
}

} // verus!
