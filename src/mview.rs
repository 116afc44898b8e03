//! Materialized-view state: a memtable of pending row writes per primary key,
//! drained on flush into one batch of per-cell writes for the store to
//! ingest atomically.

use vstd::prelude::*;
use crate::bytes::{append_bytes, copy_bytes};
use crate::encoding::{datum_bytes, index_bytes, serialize_cell_idx, serialize_datum, Datum};
use crate::store::{item_view, BatchItem};

verus! {

/// A row of datums.
#[derive(Clone, Debug, PartialEq, Eq)]
pub struct Row(pub Vec<Datum>);

/// The columns of a view.
#[derive(Clone, Copy, Debug, PartialEq, Eq)]
pub struct Schema {
    columns: usize,
}

impl Schema {
    pub closed spec fn width(&self) -> nat {
        self.columns as nat
    }

    pub fn new(columns: usize) -> (r: Schema)
        ensures
            r.width() == columns,
    {
        Schema { columns }
    }

    pub fn len(&self) -> (r: usize)
        ensures
            r == self.width(),
    {
        self.columns
    }
}

pub type Pending = (Seq<Datum>, Option<Seq<Datum>>);

/// Position of key `k` in `s`, or -1 where no pair has it.
pub open spec fn key_index<K, V>(s: Seq<(K, V)>, k: K) -> int
    decreases s.len(),
{
    if s.len() == 0 {
        -1
    } else if s.last().0 == k {
        s.len() - 1
    } else {
        key_index(s.drop_last(), k)
    }
}

/// The memtable after a write of `pk`: an earlier pending write of the key is
/// replaced in place, a new key goes last.
pub open spec fn memtable_write(m: Seq<Pending>, pk: Seq<Datum>, row: Option<Seq<Datum>>) -> Seq<Pending> {
    let i = key_index(m, pk);
    if i >= 0 { m.update(i, (pk, row)) } else { m.push((pk, row)) }
}

/// Encoding of a primary key: the encodings of its datums, in order.
pub open spec fn pk_bytes(pk: Seq<Datum>) -> Seq<u8>
    decreases pk.len(),
{
    if pk.len() == 0 {
        Seq::empty()
    } else {
        pk_bytes(pk.drop_last()) + datum_bytes(pk.last())
    }
}

/// The writes of the first `c` cells of one pending row: key = prefix, then
/// the encoded primary key, then the encoded column index; value = the
/// encoded cell, or a deletion where the row is deleted.
pub open spec fn row_cells(prefix: Seq<u8>, pkb: Seq<u8>, row: Option<Seq<Datum>>, c: nat) -> Seq<(Seq<u8>, Option<Seq<u8>>)>
    decreases c,
{
    if c == 0 {
        Seq::empty()
    } else {
        let j = (c - 1) as int;
        row_cells(prefix, pkb, row, (c - 1) as nat).push((
            prefix + pkb + index_bytes(j as i32),
            match row {
                Some(r) => Some(datum_bytes(r[j])),
                None => None,
            },
        ))
    }
}

/// The writes of a flush of memtable `m`, row after row.
pub open spec fn memtable_batch(prefix: Seq<u8>, m: Seq<Pending>, width: nat) -> Seq<(Seq<u8>, Option<Seq<u8>>)>
    decreases m.len(),
{
    if m.len() == 0 {
        Seq::empty()
    } else {
        memtable_batch(prefix, m.drop_last(), width)
            + row_cells(prefix, pk_bytes(m.last().0), m.last().1, width)
    }
}

pub open spec fn row_view(r: Row) -> Seq<Datum> {
    r.0@
}

pub open spec fn opt_row(v: Option<Row>) -> Option<Seq<Datum>> {
    match v {
        Some(r) => Some(r.0@),
        None => None,
    }
}

pub open spec fn pending_view(m: Seq<(Row, Option<Row>)>) -> Seq<Pending> {
    m.map_values(|e: (Row, Option<Row>)| (e.0.0@, opt_row(e.1)))
}

/// Buffers recent row writes of a view; `flush` writes them to the store.
pub struct ManagedMViewState {
    prefix: Vec<u8>,
    schema: Schema,
    pk_columns: Vec<usize>,
    memtable: Vec<(Row, Option<Row>)>,
}

impl ManagedMViewState {
    pub closed spec fn prefix_view(&self) -> Seq<u8> {
        self.prefix@
    }

    pub closed spec fn width(&self) -> nat {
        self.schema.width()
    }

    pub closed spec fn pk_len(&self) -> nat {
        self.pk_columns@.len()
    }

    pub closed spec fn memtable_view(&self) -> Seq<Pending> {
        pending_view(self.memtable@)
    }

    /// Pending rows are as wide as the schema, keys as long as the primary
    /// key, and column indices fit in `i32`.
    pub closed spec fn wf(&self) -> bool {
        &&& self.schema.width() <= i32::MAX
        &&& forall|i: int| 0 <= i < self.memtable@.len() ==>
            (#[trigger] self.memtable@[i]).0.0@.len() == self.pk_columns@.len()
            && (self.memtable@[i].1 matches Some(r) ==> r.0@.len() == self.schema.width())
    }

    pub fn new(prefix: Vec<u8>, schema: Schema, pk_columns: Vec<usize>) -> (r: Self)
        requires
            schema.width() <= i32::MAX,
        ensures
            r.wf(),
            r.prefix_view() == prefix@,
            r.width() == schema.width(),
            r.pk_len() == pk_columns@.len(),
            r.memtable_view() == Seq::<Pending>::empty(),
    {
        let r = ManagedMViewState { prefix, schema, pk_columns, memtable: Vec::new() };
        assert(r.memtable_view() =~= Seq::<Pending>::empty());
        r
    }

    fn write(&mut self, pk: Row, value: Option<Row>)
        requires
            old(self).wf(),
            pk.0@.len() == old(self).pk_len(),
            value matches Some(r) ==> r.0@.len() == old(self).width(),
        ensures
            final(self).wf(),
            final(self).memtable_view() == memtable_write(
                old(self).memtable_view(),
                pk.0@,
                opt_row(value),
            ),
            final(self).prefix_view() == old(self).prefix_view(),
            final(self).width() == old(self).width(),
            final(self).pk_len() == old(self).pk_len(),
    {
        let ghost m = self.memtable_view();
        let ghost e = (pk.0@, opt_row(value));
        let ghost item = (pk, value);
        let mut i: usize = self.memtable.len();
        assert(m.take(i as int) =~= m);
        while i > 0
            invariant
                i <= self.memtable@.len(),
                *self == *old(self),
                old(self).wf(),
                pk.0@.len() == old(self).pk_len(),
                value matches Some(r) ==> r.0@.len() == old(self).width(),
                m == self.memtable_view(),
                e == (pk.0@, opt_row(value)),
                item == (pk, value),
                key_index(m, pk.0@) == key_index(m.take(i as int), pk.0@),
            decreases i,
        {
            assert(m.take(i as int).drop_last() =~= m.take(i - 1));
            if row_eq(&self.memtable[i - 1].0, &pk) {
                assert(m[i - 1].0 == pk.0@);
                let ghost old_mt = self.memtable@;
                self.memtable.set(i - 1, (pk, value));
                assert(self.memtable@ == old_mt.update(i - 1, (pk, value)));
                assert(self.memtable_view() =~= m.update(i - 1, e));
                assert forall|j: int| 0 <= j < self.memtable@.len() implies
                    (#[trigger] self.memtable@[j]).0.0@.len() == self.pk_columns@.len()
                    && (self.memtable@[j].1 matches Some(r) ==> r.0@.len() == self.schema.width()) by {
                    if j != i - 1 {
                        assert(self.memtable@[j] == old_mt[j]);
                    } else {
                        assert(self.memtable@[j] == item);
                        assert(self.pk_columns == old(self).pk_columns);
                        assert(self.schema == old(self).schema);
                    }
                }
                return;
            }
            i = i - 1;
        }
        assert(m.take(0) =~= Seq::<Pending>::empty());
        self.memtable.push((pk, value));
        assert(self.memtable_view() =~= m.push(e));
    }

    /// Records `value` as the pending row of `pk`, replacing any earlier
    /// pending write of `pk`.
    pub fn put(&mut self, pk: Row, value: Row)
        requires
            old(self).wf(),
            pk.0@.len() == old(self).pk_len(),
            value.0@.len() == old(self).width(),
        ensures
            final(self).wf(),
            final(self).memtable_view() == memtable_write(old(self).memtable_view(), pk.0@, Some(value.0@)),
            final(self).prefix_view() == old(self).prefix_view(),
            final(self).width() == old(self).width(),
            final(self).pk_len() == old(self).pk_len(),
    {
        self.write(pk, Some(value));
    }

    /// Records the deletion of `pk`, replacing any earlier pending write of
    /// `pk`.
    pub fn delete(&mut self, pk: Row)
        requires
            old(self).wf(),
            pk.0@.len() == old(self).pk_len(),
        ensures
            final(self).wf(),
            final(self).memtable_view() == memtable_write(old(self).memtable_view(), pk.0@, None),
            final(self).prefix_view() == old(self).prefix_view(),
            final(self).width() == old(self).width(),
            final(self).pk_len() == old(self).pk_len(),
    {
        self.write(pk, None);
    }

    /// Drains the memtable into one batch of per-cell writes, for the store
    /// to ingest atomically. Where that ingest fails the drained writes are
    /// not kept here: the caller re-derives them upstream.
    pub fn flush(&mut self) -> (r: Vec<BatchItem>)
        requires
            old(self).wf(),
        ensures
            final(self).wf(),
            final(self).memtable_view() == Seq::<Pending>::empty(),
            r@.map_values(|b: BatchItem| item_view(b))
                == memtable_batch(old(self).prefix_view(), old(self).memtable_view(), old(self).width()),
            final(self).prefix_view() == old(self).prefix_view(),
            final(self).width() == old(self).width(),
            final(self).pk_len() == old(self).pk_len(),
    {
        let ghost m = self.memtable_view();
        let ghost p = self.prefix@;
        let width = self.schema.len();
        let mut batch: Vec<BatchItem> = Vec::new();
        let mut i: usize = 0;
        while i < self.memtable.len()
            invariant
                self.wf(),
                m == self.memtable_view(),
                p == self.prefix@,
                width == self.width(),
                i <= self.memtable@.len(),
                batch@.map_values(|b: BatchItem| item_view(b)) == memtable_batch(p, m.take(i as int), width as nat),
            decreases self.memtable@.len() - i,
        {
            let pk_buf = serialize_pk(&self.memtable[i].0);
            let ghost before = batch@.map_values(|b: BatchItem| item_view(b));
            let ghost row = m[i as int].1;
            assert(m[i as int].0 == self.memtable@[i as int].0.0@);
            assert(row == opt_row(self.memtable@[i as int].1));
            let mut c: usize = 0;
            while c < width
                invariant
                    self.wf(),
                    m == self.memtable_view(),
                    p == self.prefix@,
                    width == self.width(),
                    i < self.memtable@.len(),
                    c <= width,
                    pk_buf@ == pk_bytes(m[i as int].0),
                    row == m[i as int].1,
                    row == opt_row(self.memtable@[i as int].1),
                    batch@.map_values(|b: BatchItem| item_view(b))
                        == before + row_cells(p, pk_bytes(m[i as int].0), row, c as nat),
                decreases width - c,
            {
                let mut key = copy_bytes(self.prefix.as_slice());
                append_bytes(&mut key, pk_buf.as_slice());
                let idx = serialize_cell_idx(c as i32);
                append_bytes(&mut key, idx.as_slice());
                let value = match &self.memtable[i].1 {
                    Some(cells) => {
                        assert(self.memtable@[i as int].1 matches Some(r) && r.0@.len() == width);
                        Some(serialize_datum(cells.0[c]))
                    },
                    None => None,
                };
                let ghost bv = batch@.map_values(|b: BatchItem| item_view(b));
                batch.push((key, value));
                assert(batch@.map_values(|b: BatchItem| item_view(b)) =~= bv.push(item_view((key, value))));
                c = c + 1;
                assert(before + row_cells(p, pk_bytes(m[i as int].0), row, c as nat)
                    =~= (before + row_cells(p, pk_bytes(m[i as int].0), row, (c - 1) as nat)).push(item_view((key, value))));
            }
            i = i + 1;
            assert(m.take(i as int).drop_last() =~= m.take(i - 1));
        }
        assert(m.take(i as int) =~= m);
        self.memtable = Vec::new();
        assert(self.memtable_view() =~= Seq::<Pending>::empty());
        batch
    }
}

fn row_eq(a: &Row, b: &Row) -> (r: bool)
    ensures
        r == (a.0@ == b.0@),
{
    if a.0.len() != b.0.len() {
        return false;
    }
    let mut i: usize = 0;
    while i < a.0.len()
        invariant
            a.0@.len() == b.0@.len(),
            i <= a.0@.len(),
            a.0@.subrange(0, i as int) == b.0@.subrange(0, i as int),
        decreases a.0@.len() - i,
    {
        let same = match (a.0[i], b.0[i]) {
            (Some(x), Some(y)) => x == y,
            (None, None) => true,
            _ => false,
        };
        if !same {
            assert(a.0@[i as int] != b.0@[i as int]);
            return false;
        }
        i = i + 1;
        assert(a.0@.subrange(0, i as int) =~= a.0@.subrange(0, i - 1).push(a.0@[i - 1]));
        assert(b.0@.subrange(0, i as int) =~= b.0@.subrange(0, i - 1).push(b.0@[i - 1]));
    }
    assert(a.0@ =~= a.0@.subrange(0, i as int));
    assert(b.0@ =~= b.0@.subrange(0, i as int));
    true
}

/// The encoding of a primary key.
pub fn serialize_pk(pk: &Row) -> (r: Vec<u8>)
    ensures
        r@ == pk_bytes(pk.0@),
{
    let mut r: Vec<u8> = Vec::new();
    let mut i: usize = 0;
    while i < pk.0.len()
        invariant
            i <= pk.0@.len(),
            r@ == pk_bytes(pk.0@.take(i as int)),
        decreases pk.0@.len() - i,
    {
        let d = serialize_datum(pk.0[i]);
        append_bytes(&mut r, d.as_slice());
        i = i + 1;
        assert(pk.0@.take(i as int).drop_last() =~= pk.0@.take(i - 1));
    }
    assert(pk.0@.take(i as int) =~= pk.0@);
    r
}

proof fn lemma_key_index<K, V>(s: Seq<(K, V)>, k: K)
    ensures
        -1 <= key_index(s, k) < s.len(),
        key_index(s, k) >= 0 ==> s[key_index(s, k)].0 == k,
    decreases s.len(),
{
    if s.len() > 0 {
        lemma_key_index(s.drop_last(), k);
    }
}

proof fn lemma_key_index_after_update<K, V>(s: Seq<(K, V)>, k: K, v: V)
    requires
        key_index(s, k) >= 0,
    ensures
        key_index(s.update(key_index(s, k), (k, v)), k) == key_index(s, k),
    decreases s.len(),
{
    lemma_key_index(s, k);
    let i = key_index(s, k);
    let t = s.update(i, (k, v));
    if s.last().0 != k {
        lemma_key_index(s.drop_last(), k);
        lemma_key_index_after_update(s.drop_last(), k, v);
        assert(t.drop_last() =~= s.drop_last().update(i, (k, v)));
        assert(t.last() == s.last());
    }
}

/// A put of a key followed by its deletion, before a flush, leaves the
/// memtable exactly as the deletion alone would: one pending deletion of the
/// key, no pending row.
pub proof fn lemma_put_then_delete(m: Seq<Pending>, pk: Seq<Datum>, row: Seq<Datum>)
    ensures
        memtable_write(memtable_write(m, pk, Some(row)), pk, None) == memtable_write(m, pk, None),
{
    lemma_key_index(m, pk);
    let i = key_index(m, pk);
    if i >= 0 {
        lemma_key_index_after_update(m, pk, Some(row));
        assert(m.update(i, (pk, Some(row))).update(i, (pk, None)) =~= m.update(i, (pk, None)));
    } else {
        let t = m.push((pk, Some(row)));
        assert(key_index(t, pk) == m.len());
        assert(t.update(m.len() as int, (pk, None)) =~= m.push((pk, None)));
    }
}

/// The flushed writes of a deleted row are one deletion per cell.
pub proof fn lemma_deleted_row_cells(prefix: Seq<u8>, pkb: Seq<u8>, c: nat)
    ensures
        row_cells(prefix, pkb, None, c).len() == c,
        forall|j: int| 0 <= j < c ==> (#[trigger] row_cells(prefix, pkb, None, c)[j]).1 is None,
    decreases c,
{
    if c > 0 {
        lemma_deleted_row_cells(prefix, pkb, (c - 1) as nat);
        let prev = row_cells(prefix, pkb, None, (c - 1) as nat);
        assert forall|j: int| 0 <= j < c implies (#[trigger] row_cells(prefix, pkb, None, c)[j]).1 is None by {
            if j < c - 1 {
                assert(row_cells(prefix, pkb, None, c)[j] == prev[j]);
            }
        }
    }
}

/// Number of writes of a batch that store a value (not deletions).
pub open spec fn live_cells(b: Seq<(Seq<u8>, Option<Seq<u8>>)>) -> nat
    decreases b.len(),
{
    if b.len() == 0 {
        0
    } else {
        live_cells(b.drop_last()) + if b.last().1 is Some { 1nat } else { 0nat }
    }
}

/// Number of pending rows of a memtable that are puts (not deletions).
pub open spec fn live_rows(m: Seq<Pending>) -> nat
    decreases m.len(),
{
    if m.len() == 0 {
        0
    } else {
        live_rows(m.drop_last()) + if m.last().1 is Some { 1nat } else { 0nat }
    }
}

proof fn lemma_live_cells_concat(a: Seq<(Seq<u8>, Option<Seq<u8>>)>, b: Seq<(Seq<u8>, Option<Seq<u8>>)>)
    ensures
        live_cells(a + b) == live_cells(a) + live_cells(b),
    decreases b.len(),
{
    if b.len() > 0 {
        lemma_live_cells_concat(a, b.drop_last());
        assert((a + b).drop_last() =~= a + b.drop_last());
        assert((a + b).last() == b.last());
    } else {
        assert(a + b =~= a);
    }
}

proof fn lemma_row_cells_counts(prefix: Seq<u8>, pkb: Seq<u8>, row: Option<Seq<Datum>>, c: nat)
    ensures
        row_cells(prefix, pkb, row, c).len() == c,
        live_cells(row_cells(prefix, pkb, row, c)) == if row is Some { c } else { 0 },
    decreases c,
{
    if c > 0 {
        lemma_row_cells_counts(prefix, pkb, row, (c - 1) as nat);
        let r = row_cells(prefix, pkb, row, c);
        assert(r.drop_last() =~= row_cells(prefix, pkb, row, (c - 1) as nat));
    }
}

/// A flush of `m` pending rows over `width` columns writes `m * width`
/// cells, of which `width` per pending put store a value and the rest,
/// `width` per pending deletion, are deletions.
pub proof fn lemma_flush_cell_counts(prefix: Seq<u8>, m: Seq<Pending>, width: nat)
    ensures
        memtable_batch(prefix, m, width).len() == m.len() * width,
        live_cells(memtable_batch(prefix, m, width)) == live_rows(m) * width,
    decreases m.len(),
{
    if m.len() > 0 {
        let rest = m.drop_last();
        lemma_flush_cell_counts(prefix, rest, width);
        let cells = row_cells(prefix, pk_bytes(m.last().0), m.last().1, width);
        lemma_row_cells_counts(prefix, pk_bytes(m.last().0), m.last().1, width);
        lemma_live_cells_concat(memtable_batch(prefix, rest, width), cells);
        assert(m.len() * width == rest.len() * width + width) by (nonlinear_arith)
            requires m.len() == rest.len() + 1;
        if m.last().1 is Some {
            assert(live_rows(m) * width == live_rows(rest) * width + width) by (nonlinear_arith)
                requires live_rows(m) == live_rows(rest) + 1;
        }
    }
}

} // verus!
