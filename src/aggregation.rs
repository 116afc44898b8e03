//! Streaming aggregate accumulators over nullable 64-bit columns.

use vstd::prelude::*;
use crate::encoding::Datum;

verus! {

/// Change applied by one row of a batch.
#[derive(Clone, Copy, Debug, PartialEq, Eq)]
pub enum Op {
    Insert,
    Delete,
    UpdateDelete,
    UpdateInsert,
}

/// Kinds of aggregates.
#[derive(Clone, Copy, Debug, PartialEq, Eq)]
pub enum AggKind {
    Count,
    Sum,
    Min,
    Max,
}

/// Describes one aggregate call over a single argument column.
#[derive(Clone, Copy, Debug, PartialEq, Eq)]
pub struct AggCall {
    pub kind: AggKind,
}

/// Errors of applying rows to an accumulator.
#[derive(Clone, Copy, Debug, PartialEq, Eq)]
pub enum AggError {
    /// The result left the range of `i64`.
    Overflow,
    /// A minimum or maximum was asked to retract a value.
    RetractionUnsupported,
}

/// The accumulator of one aggregate.
#[derive(Clone, Copy, Debug, PartialEq, Eq)]
pub enum AggState {
    Count(i64),
    Sum(Datum),
    Min(Datum),
    Max(Datum),
}

pub open spec fn is_insert(op: Op) -> bool {
    op == Op::Insert || op == Op::UpdateInsert
}

/// The accumulator built from a persisted output (`None` when nothing was
/// persisted).
pub open spec fn initial_state(kind: AggKind, data: Option<Datum>) -> AggState {
    match kind {
        AggKind::Count => AggState::Count(
            match data {
                Some(Some(c)) => c,
                _ => 0,
            },
        ),
        AggKind::Sum => AggState::Sum(match data { Some(d) => d, None => None }),
        AggKind::Min => AggState::Min(match data { Some(d) => d, None => None }),
        AggKind::Max => AggState::Max(match data { Some(d) => d, None => None }),
    }
}

/// The output of an accumulator.
pub open spec fn output_of(s: AggState) -> Datum {
    match s {
        AggState::Count(c) => Some(c),
        AggState::Sum(d) => d,
        AggState::Min(d) => d,
        AggState::Max(d) => d,
    }
}

pub open spec fn in_i64(x: int) -> bool {
    i64::MIN <= x <= i64::MAX
}

/// One visible non-null value applied to an accumulator; `Err` where the
/// result overflows or a minimum or maximum would retract.
pub open spec fn step(s: AggState, op: Op, v: i64) -> Result<AggState, AggError> {
    let delta: int = if is_insert(op) { v as int } else { -(v as int) };
    match s {
        AggState::Count(c) => {
            let n: int = if is_insert(op) { c + 1 } else { c - 1 };
            if in_i64(n) { Ok(AggState::Count(n as i64)) } else { Err(AggError::Overflow) }
        },
        AggState::Sum(d) => {
            let n: int = match d { Some(x) => x + delta, None => delta };
            if in_i64(n) { Ok(AggState::Sum(Some(n as i64))) } else { Err(AggError::Overflow) }
        },
        AggState::Min(d) => {
            if !is_insert(op) {
                Err(AggError::RetractionUnsupported)
            } else {
                Ok(AggState::Min(Some(match d { Some(x) => if v < x { v } else { x }, None => v })))
            }
        },
        AggState::Max(d) => {
            if !is_insert(op) {
                Err(AggError::RetractionUnsupported)
            } else {
                Ok(AggState::Max(Some(match d { Some(x) => if v > x { v } else { x }, None => v })))
            }
        },
    }
}

/// Whether row `i` is visible.
pub open spec fn row_visible(vis: Option<Seq<bool>>, i: int) -> bool {
    match vis {
        Some(b) => b[i],
        None => true,
    }
}

/// The argument of row `i`: the row's value in the first column, or, for an
/// aggregate without an argument column (`count(*)`), a non-null zero so
/// that every row counts.
pub open spec fn row_arg(data: Seq<Seq<Datum>>, i: int) -> Datum {
    if data.len() == 0 { Some(0) } else { data[0][i] }
}

/// The accumulator after the first `n` rows, or the first error.
pub open spec fn apply_rows(
    s: AggState,
    ops: Seq<Op>,
    vis: Option<Seq<bool>>,
    data: Seq<Seq<Datum>>,
    n: nat,
) -> Result<AggState, AggError>
    decreases n,
{
    if n == 0 {
        Ok(s)
    } else {
        match apply_rows(s, ops, vis, data, (n - 1) as nat) {
            Ok(p) => {
                let i = n - 1;
                if row_visible(vis, i) && row_arg(data, i) is Some {
                    step(p, ops[i], row_arg(data, i)->Some_0)
                } else {
                    Ok(p)
                }
            },
            Err(e) => Err(e),
        }
    }
}

/// Whether operations, visibility and every column have one length.
pub open spec fn batch_consistent(ops: Seq<Op>, vis: Option<Seq<bool>>, data: Seq<Seq<Datum>>) -> bool {
    &&& vis matches Some(b) ==> b.len() == ops.len()
    &&& forall|j: int| 0 <= j < data.len() ==> (#[trigger] data[j]).len() == ops.len()
}

pub open spec fn vis_view(vis: Option<&Vec<bool>>) -> Option<Seq<bool>> {
    match vis {
        Some(b) => Some(b@),
        None => None,
    }
}

pub open spec fn columns_view(data: Seq<Vec<Datum>>) -> Seq<Seq<Datum>> {
    data.map_values(|c: Vec<Datum>| c@)
}

/// Whether operations, visibility and every column of a batch have one
/// length.
pub fn verify_batch(ops: &[Op], visibility: Option<&Vec<bool>>, data: &[Vec<Datum>]) -> (r: bool)
    ensures
        r == batch_consistent(ops@, vis_view(visibility), columns_view(data@)),
{
    if let Some(b) = visibility {
        if b.len() != ops.len() {
            return false;
        }
    }
    let mut j: usize = 0;
    while j < data.len()
        invariant
            j <= data@.len(),
            forall|k: int| 0 <= k < j ==> (#[trigger] data@[k]).len() == ops@.len(),
        decreases data@.len() - j,
    {
        if data[j].len() != ops.len() {
            assert(columns_view(data@)[j as int].len() != ops@.len());
            return false;
        }
        j = j + 1;
    }
    assert forall|k: int| 0 <= k < columns_view(data@).len() implies
        (#[trigger] columns_view(data@)[k]).len() == ops@.len() by {
        assert(columns_view(data@)[k] == data@[k]@);
    }
    true
}

impl AggState {
    /// The accumulator for `kind` rebuilt from a persisted output.
    pub fn create(kind: AggKind, data: Option<Datum>) -> (r: AggState)
        ensures
            r == initial_state(kind, data),
    {
        match kind {
            AggKind::Count => AggState::Count(
                match data {
                    Some(Some(c)) => c,
                    _ => 0,
                },
            ),
            AggKind::Sum => AggState::Sum(match data { Some(d) => d, None => None }),
            AggKind::Min => AggState::Min(match data { Some(d) => d, None => None }),
            AggKind::Max => AggState::Max(match data { Some(d) => d, None => None }),
        }
    }

    pub fn get_output(&self) -> (r: Datum)
        ensures
            r == output_of(*self),
    {
        match *self {
            AggState::Count(c) => Some(c),
            AggState::Sum(d) => d,
            AggState::Min(d) => d,
            AggState::Max(d) => d,
        }
    }

    /// Applies one visible non-null value.
    pub fn apply_value(&self, op: Op, v: i64) -> (r: Result<AggState, AggError>)
        ensures
            r == step(*self, op, v),
    {
        let ins = matches!(op, Op::Insert | Op::UpdateInsert);
        match *self {
            AggState::Count(c) => {
                if ins {
                    if c == i64::MAX { Err(AggError::Overflow) } else { Ok(AggState::Count(c + 1)) }
                } else {
                    if c == i64::MIN { Err(AggError::Overflow) } else { Ok(AggState::Count(c - 1)) }
                }
            },
            AggState::Sum(d) => {
                let base: i64 = match d { Some(x) => x, None => 0 };
                let n = if ins { base.checked_add(v) } else { base.checked_sub(v) };
                match n {
                    Some(n) => Ok(AggState::Sum(Some(n))),
                    None => Err(AggError::Overflow),
                }
            },
            AggState::Min(d) => {
                if !ins {
                    Err(AggError::RetractionUnsupported)
                } else {
                    Ok(AggState::Min(Some(match d { Some(x) => if v < x { v } else { x }, None => v })))
                }
            },
            AggState::Max(d) => {
                if !ins {
                    Err(AggError::RetractionUnsupported)
                } else {
                    Ok(AggState::Max(Some(match d { Some(x) => if v > x { v } else { x }, None => v })))
                }
            },
        }
    }

    /// Applies the rows of a batch in order over the argument column
    /// `data[0]` (every row, where there is no column), skipping invisible
    /// rows and nulls; on error the receiver is unchanged.
    pub fn apply_batch(
        &mut self,
        ops: &[Op],
        visibility: Option<&Vec<bool>>,
        data: &[Vec<Datum>],
    ) -> (r: Result<(), AggError>)
        requires
            batch_consistent(ops@, vis_view(visibility), columns_view(data@)),
        ensures
            match apply_rows(*old(self), ops@, vis_view(visibility), columns_view(data@), ops@.len()) {
                Ok(s) => r is Ok && *final(self) == s,
                Err(e) => r == Err::<(), AggError>(e) && *final(self) == *old(self),
            },
    {
        let ghost cols = columns_view(data@);
        let mut s = *self;
        let mut i: usize = 0;
        while i < ops.len()
            invariant
                i <= ops@.len(),
                cols == columns_view(data@),
                batch_consistent(ops@, vis_view(visibility), cols),
                visibility matches Some(b) ==> b@.len() == ops@.len(),
                apply_rows(*self, ops@, vis_view(visibility), cols, i as nat) == Ok::<AggState, AggError>(s),
            decreases ops@.len() - i,
        {
            let visible = match visibility {
                Some(b) => b[i],
                None => true,
            };
            let arg: Datum = if data.len() > 0 {
                assert(cols[0] == data@[0]@);
                assert(cols[0].len() == ops@.len());
                data[0][i]
            } else {
                Some(0)
            };
            assert(arg == row_arg(cols, i as int));
            if visible {
                if let Some(v) = arg {
                    match s.apply_value(ops[i], v) {
                        Ok(n) => { s = n; },
                        Err(e) => {
                            proof { lemma_apply_rows_err(*self, ops@, vis_view(visibility), cols, (i + 1) as nat, ops@.len()); }
                            return Err(e);
                        },
                    }
                }
            }
            i = i + 1;
        }
        *self = s;
        Ok(())
    }
}

/// An error stays an error over more rows.
proof fn lemma_apply_rows_err(s: AggState, ops: Seq<Op>, vis: Option<Seq<bool>>, data: Seq<Seq<Datum>>, m: nat, n: nat)
    requires
        m <= n,
        apply_rows(s, ops, vis, data, m) is Err,
    ensures
        apply_rows(s, ops, vis, data, n) == apply_rows(s, ops, vis, data, m),
    decreases n - m,
{
    if m < n {
        lemma_apply_rows_err(s, ops, vis, data, m, (n - 1) as nat);
    }
}

} // verus!
