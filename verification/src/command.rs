//! The command builder: a stored-procedure name with its ordered
//! parameter list, and the transformation into wire-ready RPC parameters,
//! with the metadata query each table parameter needs.

use crate::type_info_tvp::{spec_normalize_column, spec_split_type_name, TypeInfoTvp};
use crate::value::{ColumnData, IntoSql, MetaDataColumn};
use vstd::prelude::*;
use vstd::string::StringExecFns;

verus! {

/// The parameter-status bit marking an output (by-reference) parameter.
pub const BY_REF_VALUE: u8 = 1;

/// One row of a table-valued parameter under construction.
#[derive(Debug, Clone, PartialEq)]
pub struct SqlTableDataRow {
    pub col_data: Vec<ColumnData>,
}

impl SqlTableDataRow {
    pub fn new() -> (r: SqlTableDataRow)
        ensures
            r.col_data@ == Seq::<ColumnData>::empty(),
    {
        SqlTableDataRow { col_data: Vec::new() }
    }

    /// Adds a field value to the row, in declared order.
    pub fn add_field<T: IntoSql>(&mut self, data: T)
        ensures
            final(self).col_data@ == old(self).col_data@.push(data.spec_into_sql()),
    {
        let v = data.into_sql();
        self.col_data.push(v);
    }
}

/// The rows of a table-valued parameter, with the qualified name of their
/// server-side table type.
#[derive(Debug, Clone, PartialEq)]
pub struct SqlTableData {
    pub rows: Vec<SqlTableDataRow>,
    pub db_type: String,
}

/// A type that can bind one row of a table-valued parameter: it appends
/// its fields in declared order and names the server-side table type.
pub trait TableValueRow {
    /// The fields the binding appends, in order; an implementation
    /// overrides this to state what it binds.
    open spec fn spec_fields(&self) -> Seq<ColumnData> {
        Seq::empty()
    }

    /// The qualified name of the server-side table type; an
    /// implementation overrides this to name its type.
    open spec fn spec_db_type() -> Seq<char> {
        Seq::empty()
    }

    fn bind_fields(&self, data_row: &mut SqlTableDataRow)
        ensures
            final(data_row).col_data@ == old(data_row).col_data@ + self.spec_fields(),
    ;

    fn get_db_type() -> (r: &'static str)
        ensures
            r@ == Self::spec_db_type(),
    ;
}

/// A collection of rows that can back a table-valued parameter.
pub trait TableValue: Sized {
    /// The bound rows and the qualified table-type name.
    spec fn spec_table(self) -> (Seq<Seq<ColumnData>>, Seq<char>);

    fn into_sql(self) -> (r: SqlTableData)
        ensures
            r.rows@.map_values(|w: SqlTableDataRow| w.col_data@) == self.spec_table().0,
            r.db_type@ == self.spec_table().1,
    ;
}

impl<R: TableValueRow> TableValue for Vec<R> {
    open spec fn spec_table(self) -> (Seq<Seq<ColumnData>>, Seq<char>) {
        (self@.map_values(|x: R| x.spec_fields()), R::spec_db_type())
    }

    fn into_sql(self) -> (r: SqlTableData) {
        let mut data: Vec<SqlTableDataRow> = Vec::new();
        let mut i: usize = 0;
        while i < self.len()
            invariant
                i <= self@.len(),
                data@.len() == i,
                forall|k: int|
                    0 <= k < i ==> (#[trigger] data@[k]).col_data@ == self@[k].spec_fields(),
            decreases self@.len() - i,
        {
            let mut data_row = SqlTableDataRow::new();
            self[i].bind_fields(&mut data_row);
            data.push(data_row);
            i += 1;
        }
        proof {
            assert(data@.map_values(|w: SqlTableDataRow| w.col_data@) =~= self@.map_values(
                |x: R| x.spec_fields(),
            ));
        }
        SqlTableData { rows: data, db_type: String::from_str(R::get_db_type()) }
    }
}

/// The payload of one bound parameter: a scalar value or a table.
#[derive(Debug, Clone, PartialEq)]
pub enum CommandParamData {
    Scalar(ColumnData),
    Table(SqlTableData),
}

/// One bound parameter: its name, direction and payload.
#[derive(Debug, Clone, PartialEq)]
pub struct CommandParam {
    pub name: String,
    pub out: bool,
    pub data: CommandParamData,
}

/// A stored-procedure invocation under construction: the procedure name
/// and the ordered parameter list.
#[derive(Debug)]
pub struct Command {
    pub name: String,
    pub params: Vec<CommandParam>,
}

impl Command {
    /// A new command for the named procedure, with no parameters yet.
    pub fn new(proc_name: String) -> (r: Self)
        ensures
            r.name == proc_name,
            r.params@ == Seq::<CommandParam>::empty(),
    {
        Self { name: proc_name, params: Vec::new() }
    }

    /// Binds a scalar input parameter.
    pub fn bind_param<T: IntoSql>(&mut self, name: String, data: T)
        ensures
            final(self).name == old(self).name,
            final(self).params@ == old(self).params@.push(
                CommandParam {
                    name,
                    out: false,
                    data: CommandParamData::Scalar(data.spec_into_sql()),
                },
            ),
    {
        let v = data.into_sql();
        self.params.push(CommandParam { name, out: false, data: CommandParamData::Scalar(v) });
    }

    /// Binds a scalar output parameter: its post-call value comes back as
    /// a return value.
    pub fn bind_out_param<T: IntoSql>(&mut self, name: String, data: T)
        ensures
            final(self).name == old(self).name,
            final(self).params@ == old(self).params@.push(
                CommandParam {
                    name,
                    out: true,
                    data: CommandParamData::Scalar(data.spec_into_sql()),
                },
            ),
    {
        let v = data.into_sql();
        self.params.push(CommandParam { name, out: true, data: CommandParamData::Scalar(v) });
    }

    /// Binds a table-valued input parameter.
    pub fn bind_table<T: TableValue>(&mut self, name: String, data: T)
        ensures
            final(self).name == old(self).name,
            final(self).params@.len() == old(self).params@.len() + 1,
            final(self).params@.take(old(self).params@.len() as int) == old(self).params@,
            final(self).params@.last().name == name,
            final(self).params@.last().out == false,
            final(self).params@.last().data matches CommandParamData::Table(t)
                && t.rows@.map_values(|w: SqlTableDataRow| w.col_data@) == data.spec_table().0
                && t.db_type@ == data.spec_table().1,
    {
        let table = data.into_sql();
        self.params.push(CommandParam { name, out: false, data: CommandParamData::Table(table) });
        proof {
            assert(self.params@.take(old(self).params@.len() as int) =~= old(self).params@);
        }
    }
}

/// The lightweight query that resolves a table type's column metadata at
/// zero data cost: it declares a variable of the type and selects no rows
/// from it.
pub fn metadata_query_sql(db_type: &str) -> (r: String)
    ensures
        r@ == "DECLARE @P AS "@ + db_type@ + ";SELECT TOP 0 * FROM @P"@,
{
    let mut s = String::from_str("DECLARE @P AS ");
    s.append(db_type);
    s.append(";SELECT TOP 0 * FROM @P");
    s
}

/// A wire-ready RPC value: a scalar, or an encoded table parameter.
#[derive(Debug)]
pub enum RpcValue {
    Scalar(ColumnData),
    Table(TypeInfoTvp),
}

/// One wire-ready RPC parameter: its name, status flags and value.
#[derive(Debug)]
pub struct RpcParam {
    pub name: String,
    pub flags: u8,
    pub value: RpcValue,
}

/// How many table-valued parameters a parameter list holds.
pub open spec fn spec_table_count(params: Seq<CommandParam>) -> int
    decreases params.len(),
{
    if params.len() == 0 {
        0
    } else {
        (if params[0].data is Table {
            1int
        } else {
            0int
        }) + spec_table_count(params.drop_first())
    }
}

proof fn lemma_table_count_nonneg(params: Seq<CommandParam>)
    ensures
        spec_table_count(params) >= 0,
    decreases params.len(),
{
    if params.len() > 0 {
        lemma_table_count_nonneg(params.drop_first());
    }
}

proof fn lemma_table_count_push(params: Seq<CommandParam>, p: CommandParam)
    ensures
        spec_table_count(params.push(p)) == spec_table_count(params) + (if p.data is Table {
            1int
        } else {
            0int
        }),
    decreases params.len(),
{
    if params.len() == 0 {
        assert(params.push(p).drop_first() =~= Seq::<CommandParam>::empty());
        assert(spec_table_count(params.push(p).drop_first()) == 0);
    } else {
        lemma_table_count_push(params.drop_first(), p);
        assert(params.push(p)[0] == params[0]);
        assert(params.push(p).drop_first() =~= params.drop_first().push(p));
    }
}

/// Whether one wire parameter faithfully carries one bound parameter,
/// given the metadata fetched for it (table parameters only): the name is
/// kept, the output direction becomes the by-reference flag, a scalar
/// passes through, and a table becomes its parameter block with the
/// qualified name split and the metadata (when any) normalized.
pub open spec fn spec_rpc_param_ok(
    p: CommandParam,
    rp: RpcParam,
    md: Option<Seq<MetaDataColumn>>,
) -> bool {
    &&& rp.name == p.name
    &&& rp.flags == (if p.out {
        BY_REF_VALUE
    } else {
        0u8
    })
    &&& match p.data {
        CommandParamData::Scalar(c) => rp.value == RpcValue::Scalar(c),
        CommandParamData::Table(t) => rp.value matches RpcValue::Table(tvp) && {
            &&& tvp.schema_name@ == spec_split_type_name(t.db_type@).0
            &&& tvp.db_type_name@ == spec_split_type_name(t.db_type@).1
            &&& tvp.rows_view() == t.rows@.map_values(|w: SqlTableDataRow| w.col_data@)
            &&& match md {
                None => tvp.columns is None,
                Some(m) => tvp.cols_view() matches Some(cs) && cs == m.map_values(
                    |c: MetaDataColumn| spec_normalize_column(c),
                ),
            }
        },
    }
}

/// Transforms the ordered parameter list into wire-ready RPC parameters,
/// consuming one fetched metadata answer per table parameter, in order.
#[verifier::loop_isolation(false)]
pub fn build_rpc_params(
    cmd_params: Vec<CommandParam>,
    tvp_metadata: Vec<Option<Vec<MetaDataColumn>>>,
) -> (r: Vec<RpcParam>)
    requires
        tvp_metadata@.len() == spec_table_count(cmd_params@),
    ensures
        r@.len() == cmd_params@.len(),
        forall|i: int|
            0 <= i < cmd_params@.len() ==> spec_rpc_param_ok(
                cmd_params@[i],
                #[trigger] r@[i],
                match tvp_metadata@[spec_table_count(cmd_params@.take(i))] {
                    Some(m) => Some(m@),
                    None => None,
                },
            ),
{
    let ghost orig_p = cmd_params@;
    let ghost orig_md = tvp_metadata@;
    let mut ps = cmd_params;
    let mut mds = tvp_metadata;
    let mut out: Vec<RpcParam> = Vec::new();
    let mut i: usize = 0;
    let total = ps.len();
    proof {
        assert(total == orig_p.len());
        assert(orig_p.skip(0) =~= orig_p);
        assert(orig_md.skip(0) =~= orig_md);
        assert(orig_p.take(0) =~= Seq::<CommandParam>::empty());
    }
    while ps.len() > 0
        invariant
            i + ps@.len() == orig_p.len(),
            ps@ == orig_p.skip(i as int),
            out@.len() == i,
            mds@ == orig_md.skip(spec_table_count(orig_p.take(i as int))),
            0 <= spec_table_count(orig_p.take(i as int)) <= orig_md.len(),
            spec_table_count(orig_p) == spec_table_count(orig_p.take(i as int))
                + spec_table_count(orig_p.skip(i as int)),
            forall|k: int|
                0 <= k < i ==> spec_rpc_param_ok(
                    orig_p[k],
                    #[trigger] out@[k],
                    match orig_md[spec_table_count(orig_p.take(k))] {
                        Some(m) => Some(m@),
                        None => None,
                    },
                ),
        decreases ps@.len(),
    {
        proof {
            assert(orig_p.skip(i as int)[0] == orig_p[i as int]);
            assert(orig_p.skip(i as int).drop_first() =~= orig_p.skip(i + 1 as int));
            assert(spec_table_count(orig_p.skip(i as int)) == (if orig_p[i as int].data
                is Table {
                1int
            } else {
                0int
            }) + spec_table_count(orig_p.skip(i + 1 as int)));
            lemma_table_count_nonneg(orig_p.skip(i + 1 as int));
            lemma_table_count_push(orig_p.take(i as int), orig_p[i as int]);
            assert(orig_p.take(i + 1 as int) =~= orig_p.take(i as int).push(orig_p[i as int]));
            assert(ps@.remove(0) =~= ps@.drop_first());
        }
        let p = ps.remove(0);
        let rpc_val: RpcValue = match p.data {
            CommandParamData::Scalar(col) => RpcValue::Scalar(col),
            CommandParamData::Table(t) => {
                let SqlTableData { rows: trows, db_type } = t;
                let ghost trows_view = trows@;
                let mut trows = trows;
                let mut rows_vec: Vec<Vec<ColumnData>> = Vec::new();
                while trows.len() > 0
                    invariant
                        rows_vec@.len() + trows@.len() == trows_view.len(),
                        trows@ == trows_view.skip(rows_vec@.len() as int),
                        forall|k: int|
                            0 <= k < rows_vec@.len() ==> (#[trigger] rows_vec@[k])@
                                == trows_view[k].col_data@,
                    decreases trows@.len(),
                {
                    proof {
                        let n = rows_vec@.len() as int;
                        assert(trows_view.skip(n)[0] == trows_view[n]);
                        assert(trows_view.skip(n).drop_first() =~= trows_view.skip(n + 1));
                        assert(trows@.remove(0) =~= trows@.drop_first());
                    }
                    let row = trows.remove(0);
                    rows_vec.push(row.col_data);
                }
                proof {
                    assert(rows_vec@.map_values(|v: Vec<ColumnData>| v@) =~= trows_view.map_values(
                        |w: SqlTableDataRow| w.col_data@,
                    ));
                }
                let tvp = TypeInfoTvp::new(db_type.as_str(), rows_vec);
                proof {
                    assert(mds@.remove(0) =~= mds@.drop_first());
                }
                let md = mds.remove(0);
                match md {
                    Some(m) => RpcValue::Table(tvp.with_metadata(m)),
                    None => RpcValue::Table(tvp),
                }
            },
        };
        out.push(
            RpcParam {
                name: p.name,
                flags: if p.out {
                    BY_REF_VALUE
                } else {
                    0
                },
                value: rpc_val,
            },
        );
        i += 1;
    }
    proof {
        assert(orig_p.skip(orig_p.len() as int) =~= Seq::<CommandParam>::empty());
        assert(orig_p.take(orig_p.len() as int) =~= orig_p);
    }
    out
}

} // verus!
