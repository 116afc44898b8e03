//! Results of executors that produce column batches.

use vstd::prelude::*;
use crate::encoding::Datum;

verus! {

/// A batch of rows held column by column.
#[derive(Clone, Debug, PartialEq, Eq)]
pub struct DataChunk {
    pub columns: Vec<Vec<Datum>>,
}

pub open spec fn chunk_view(c: DataChunk) -> Seq<Seq<Datum>> {
    c.columns@.map_values(|col: Vec<Datum>| col@)
}

fn copy_column(c: &Vec<Datum>) -> (r: Vec<Datum>)
    ensures
        r@ == c@,
{
    let mut r: Vec<Datum> = Vec::new();
    let mut i: usize = 0;
    while i < c.len()
        invariant
            i <= c@.len(),
            r@ == c@.take(i as int),
        decreases c@.len() - i,
    {
        r.push(c[i]);
        i = i + 1;
        assert(r@ =~= c@.take(i as int));
    }
    assert(c@.take(i as int) =~= c@);
    r
}

impl DataChunk {
    /// A separate chunk with the same columns.
    pub fn duplicate(&self) -> (r: DataChunk)
        ensures
            chunk_view(r) == chunk_view(*self),
    {
        let mut columns: Vec<Vec<Datum>> = Vec::new();
        let mut i: usize = 0;
        while i < self.columns.len()
            invariant
                i <= self.columns@.len(),
                columns@.len() == i,
                columns@.map_values(|col: Vec<Datum>| col@) == chunk_view(*self).take(i as int),
            decreases self.columns@.len() - i,
        {
            let c = copy_column(&self.columns[i]);
            let ghost before = columns@;
            columns.push(c);
            assert(columns@ == before.push(c));
            i = i + 1;
            assert(columns@.map_values(|col: Vec<Datum>| col@) =~= chunk_view(*self).take(i as int));
        }
        assert(chunk_view(*self).take(i as int) =~= chunk_view(*self));
        DataChunk { columns }
    }
}

/// Errors of executors.
#[derive(Clone, Copy, Debug, PartialEq, Eq)]
pub enum ExecutorError {
    /// A batch was asked of a result that is `Done`.
    ResultIsDone,
}

/// What one step of an executor produced.
pub enum ExecutorResult {
    Batch(DataChunk),
    Done,
}

impl ExecutorResult {
    /// The batch of a `Batch` result; `ResultIsDone` for `Done`.
    pub fn batch_or(&self) -> (r: Result<DataChunk, ExecutorError>)
        ensures
            match *self {
                ExecutorResult::Batch(c) => r matches Ok(d) && chunk_view(d) == chunk_view(c),
                ExecutorResult::Done => r == Err::<DataChunk, ExecutorError>(ExecutorError::ResultIsDone),
            },
    {
        match self {
            ExecutorResult::Batch(chunk) => Ok(chunk.duplicate()),
            ExecutorResult::Done => Err(ExecutorError::ResultIsDone),
        }
    }
}

/// A plan-node executor, implemented by the users of this library.
pub trait Executor {
    fn init(&mut self) -> Result<(), ExecutorError>;

    fn execute(&mut self) -> Result<ExecutorResult, ExecutorError>;

    fn clean(&mut self) -> Result<(), ExecutorError>;
}

} // verus!
