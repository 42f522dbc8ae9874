//! Terminal aggregates: the results of draining a token sequence to
//! completion, for plain execution and for procedure calls.

use crate::command_stream::{
    spec_groups, spec_out_of_order, spec_return_code, spec_return_values, spec_rows_affected,
    CommandReturnValue, CommandStream, Row,
};
use crate::error::Error;
use crate::token::ReceivedToken;
use crate::value::FromSql;
use vstd::prelude::*;
use vstd::string::StrSliceExecFns;
use vstd::string::StringExecFns;

verus! {

/// The sum of a sequence of counts.
pub open spec fn spec_sum(s: Seq<u64>) -> int
    decreases s.len(),
{
    if s.len() == 0 {
        0
    } else {
        s[0] + spec_sum(s.drop_first())
    }
}

/// A sum of counts is never negative.
proof fn lemma_sum_nonneg(s: Seq<u64>)
    ensures
        spec_sum(s) >= 0,
    decreases s.len(),
{
    if s.len() > 0 {
        lemma_sum_nonneg(s.drop_first());
    }
}

/// A result from a query execution, listing the number of affected rows
/// per statement, in the order of querying.
#[derive(Debug, Clone, PartialEq)]
pub struct ExecuteResult {
    pub rows_affected: Vec<u64>,
}

impl ExecuteResult {
    /// Drains a token sequence, collecting one affected-row count per
    /// non-final done token; the final done token contributes none.
    pub fn new(tokens: Vec<ReceivedToken>) -> (r: Self)
        ensures
            r.rows_affected@ == spec_rows_affected(tokens@),
    {
        let ghost orig = tokens@;
        let mut tokens = tokens;
        let mut ra: Vec<u64> = Vec::new();
        while tokens.len() > 0
            invariant
                crate::command_stream::spec_rows_affected_from(orig, Seq::empty())
                    == crate::command_stream::spec_rows_affected_from(tokens@, ra@),
            decreases tokens@.len(),
        {
            let ghost before = tokens@;
            proof {
                assert(before.remove(0) =~= before.drop_first());
            }
            let tk = tokens.remove(0);
            match tk {
                ReceivedToken::DoneProc(d) => {
                    if !d.is_final() {
                        ra.push(d.done_rows);
                    }
                },
                ReceivedToken::Done(d) => {
                    if !d.is_final() {
                        ra.push(d.done_rows);
                    }
                },
                ReceivedToken::DoneInProc(d) => {
                    ra.push(d.done_rows);
                },
                _ => {},
            }
        }
        ExecuteResult { rows_affected: ra }
    }

    /// A slice of numbers of rows affected, in the same order as the
    /// given queries.
    pub fn rows_affected(&self) -> (r: &[u64])
        ensures
            r@ == self.rows_affected@,
    {
        self.rows_affected.as_slice()
    }

    /// Aggregates all resulting row counts into a sum.
    pub fn total(self) -> (r: u64)
        requires
            spec_sum(self.rows_affected@) <= u64::MAX,
        ensures
            r == spec_sum(self.rows_affected@),
    {
        let s = &self.rows_affected;
        let mut acc: u64 = 0;
        let mut i: usize = 0;
        proof {
            assert(s@.skip(0) =~= s@);
        }
        while i < s.len()
            invariant
                i <= s@.len(),
                spec_sum(s@) <= u64::MAX,
                acc + spec_sum(s@.skip(i as int)) == spec_sum(s@),
            decreases s@.len() - i,
        {
            proof {
                assert(s@.skip(i as int)[0] == s@[i as int]);
                assert(s@.skip(i as int).drop_first() =~= s@.skip(i + 1 as int));
                lemma_sum_nonneg(s@.skip(i + 1 as int));
            }
            acc = acc + s[i];
            i += 1;
        }
        proof {
            assert(s@.skip(s@.len() as int) =~= Seq::<u64>::empty());
        }
        acc
    }
}

/// The index of the first collected return value carrying the name.
pub open spec fn spec_find_rv(rvs: Seq<CommandReturnValue>, name: Seq<char>) -> Option<int>
    decreases rvs.len(),
{
    if rvs.len() == 0 {
        None
    } else if rvs[0].name@ == name {
        Some(0)
    } else {
        match spec_find_rv(rvs.drop_first(), name) {
            Some(i) => Some(i + 1),
            None => None,
        }
    }
}

proof fn lemma_find_rv_at(rvs: Seq<CommandReturnValue>, name: Seq<char>, i: int)
    requires
        0 <= i < rvs.len(),
        rvs[i].name@ == name,
        forall|k: int| 0 <= k < i ==> (#[trigger] rvs[k]).name@ != name,
    ensures
        spec_find_rv(rvs, name) == Some(i),
    decreases i,
{
    if i > 0 {
        lemma_find_rv_at(rvs.drop_first(), name, i - 1);
    }
}

proof fn lemma_find_rv_none(rvs: Seq<CommandReturnValue>, name: Seq<char>)
    requires
        forall|k: int| 0 <= k < rvs.len() ==> (#[trigger] rvs[k]).name@ != name,
    ensures
        spec_find_rv(rvs, name) is None,
    decreases rvs.len(),
{
    if rvs.len() > 0 {
        lemma_find_rv_none(rvs.drop_first(), name);
    }
}

/// The materialized result of a stored-procedure call: per-result-set row
/// groups, per-statement affected-row counts, the return code and the
/// collected return values.
#[derive(Debug, Clone, PartialEq)]
pub struct CommandResult {
    pub rows_affected: Vec<u64>,
    pub return_code: u32,
    pub return_values: Vec<CommandReturnValue>,
    pub query_results: Vec<Vec<Row>>,
}

impl CommandResult {
    /// Drains a token sequence to completion through the command stream,
    /// failing exactly when a row arrives before any metadata.
    pub fn new(tokens: Vec<ReceivedToken>) -> (r: Result<Self, Error>)
        ensures
            match r {
                Ok(c) => !spec_out_of_order(tokens@) && c.rows_affected@ == spec_rows_affected(
                    tokens@,
                ) && c.return_code == spec_return_code(tokens@) && c.return_values@
                    == spec_return_values(tokens@) && c.query_results@.map_values(
                    |g: Vec<Row>| g@,
                ) == spec_groups(tokens@),
                Err(e) => spec_out_of_order(tokens@) && e is Protocol,
            },
    {
        CommandStream::new().into_command_result(tokens)
    }

    /// A slice of numbers of rows affected, in the same order as the
    /// given queries.
    pub fn rows_affected(&self) -> (r: &[u64])
        ensures
            r@ == self.rows_affected@,
    {
        self.rows_affected.as_slice()
    }

    /// The return code of the procedure.
    pub fn return_code(&self) -> (r: u32)
        ensures
            r == self.return_code,
    {
        self.return_code
    }

    /// How many return values were collected.
    pub fn return_values_len(&self) -> (r: usize)
        ensures
            r == self.return_values@.len(),
    {
        self.return_values.len()
    }

    /// Looks up a return value by name (first match) and converts it;
    /// fails with a conversion error when the name is absent or the value
    /// does not carry the requested type.
    pub fn try_return_value<T: FromSql>(&self, name: &str) -> (r: Result<Option<T>, Error>)
        ensures
            match spec_find_rv(self.return_values@, name@) {
                None => r is Err && r->Err_0 is Conversion,
                Some(i) => {
                    &&& T::spec_convertible(self.return_values@[i].data) ==> r == Ok::<
                        Option<T>,
                        Error,
                    >(T::spec_converted(self.return_values@[i].data))
                    &&& !T::spec_convertible(self.return_values@[i].data) ==> r is Err
                        && r->Err_0 is Conversion
                },
            },
    {
        let name_owned: String = name.to_owned();
        let mut i: usize = 0;
        while i < self.return_values.len()
            invariant
                i <= self.return_values@.len(),
                name_owned@ == name@,
                forall|k: int|
                    0 <= k < i ==> (#[trigger] self.return_values@[k]).name@ != name@,
            decreases self.return_values@.len() - i,
        {
            if self.return_values[i].name == name_owned {
                proof {
                    lemma_find_rv_at(self.return_values@, name@, i as int);
                }
                return T::from_sql(&self.return_values[i].data);
            }
            i += 1;
        }
        proof {
            lemma_find_rv_none(self.return_values@, name@);
        }
        Err(Error::Conversion(String::from_str("could not find return value ").concat(name)))
    }
}

} // verus!
