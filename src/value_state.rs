//! A single-value aggregation state mirrored in a keyspace: rebuilt from the
//! persisted output, marked dirty by updates, written out on flush.

use vstd::prelude::*;
use crate::aggregation::{
    apply_rows, batch_consistent, columns_view, initial_state, output_of, vis_view, AggCall,
    AggError, AggState, Op,
};
use crate::bytes::copy_bytes;
use crate::encoding::{datum_bytes, datum_of_bytes, deserialize_datum, serialize_datum, Datum};
use crate::keyspace::Keyspace;
use crate::store::{apply_batch, index_of, item_view, lookup, apply_write, BatchItem, Entry, lemma_index_of};

verus! {

/// Errors of building a managed state.
#[derive(Clone, Copy, Debug, PartialEq, Eq)]
pub enum StateError {
    /// The persisted bytes encode no value.
    Decode,
}

/// The output that persisted bytes `raw` rebuild, or `None` where they encode
/// no value.
pub open spec fn persisted_output(raw: Option<Seq<u8>>) -> Option<Option<Datum>> {
    match raw {
        None => Some(None),
        Some(b) => match datum_of_bytes(b) {
            Some(d) => Some(Some(d)),
            None => None,
        },
    }
}

pub struct ManagedValueState {
    state: AggState,
    keyspace: Keyspace,
    is_dirty: bool,
}

impl ManagedValueState {
    pub closed spec fn state(&self) -> AggState {
        self.state
    }

    pub closed spec fn dirty(&self) -> bool {
        self.is_dirty
    }

    pub closed spec fn prefix(&self) -> Seq<u8> {
        self.keyspace.prefix_view()
    }

    /// Rebuilds the state of `agg_call` from `raw`, what the store holds
    /// under the keyspace taken as a single key (`keyspace.key()`): a fresh
    /// accumulator where nothing is persisted, `Decode` where the bytes
    /// encode no value.
    pub fn new(agg_call: AggCall, keyspace: Keyspace, raw: Option<Vec<u8>>) -> (r: Result<Self, StateError>)
        ensures
            match persisted_output(match raw { Some(b) => Some(b@), None => None }) {
                Some(data) => r matches Ok(m) && m.state() == initial_state(agg_call.kind, data)
                    && !m.dirty() && m.prefix() == keyspace.prefix_view(),
                None => r == Err::<Self, StateError>(StateError::Decode),
            },
    {
        let data = match raw {
            Some(raw) => match deserialize_datum(raw.as_slice()) {
                Some(d) => Some(d),
                None => { return Err(StateError::Decode); },
            },
            None => None,
        };
        Ok(ManagedValueState { state: AggState::create(agg_call.kind, data), keyspace, is_dirty: false })
    }

    /// Applies a batch to the accumulator and marks the state dirty, also
    /// when it fails; on error the accumulator is unchanged. No I/O.
    pub fn apply_batch(
        &mut self,
        ops: &[Op],
        visibility: Option<&Vec<bool>>,
        data: &[Vec<Datum>],
    ) -> (r: Result<(), AggError>)
        requires
            batch_consistent(ops@, vis_view(visibility), columns_view(data@)),
        ensures
            final(self).dirty(),
            final(self).prefix() == old(self).prefix(),
            match apply_rows(old(self).state(), ops@, vis_view(visibility), columns_view(data@), ops@.len()) {
                Ok(s) => r is Ok && final(self).state() == s,
                Err(e) => r == Err::<(), AggError>(e) && final(self).state() == old(self).state(),
            },
    {
        self.is_dirty = true;
        self.state.apply_batch(ops, visibility, data)
    }

    /// The current output of the aggregate.
    pub fn get_output(&self) -> (r: Datum)
        ensures
            r == output_of(self.state()),
    {
        self.state.get_output()
    }

    /// Whether the state changed since it was built or last flushed.
    pub fn is_dirty(&self) -> (r: bool)
        ensures
            r == self.dirty(),
    {
        self.is_dirty
    }

    /// Appends the write of the encoded output under the keyspace's key to
    /// `write_batch` and clears the dirty flag.
    pub fn flush(&mut self, write_batch: &mut Vec<BatchItem>)
        ensures
            !final(self).dirty(),
            final(self).state() == old(self).state(),
            final(self).prefix() == old(self).prefix(),
            final(write_batch)@.len() == old(write_batch)@.len() + 1,
            final(write_batch)@.take(old(write_batch)@.len() as int) == old(write_batch)@,
            item_view(final(write_batch)@.last()) == (old(self).prefix(), Some(datum_bytes(output_of(old(self).state())))),
    {
        let v = self.state.get_output();
        let key = copy_bytes(self.keyspace.key());
        let value = serialize_datum(v);
        write_batch.push((key, Some(value)));
        assert(final(write_batch)@.take(old(write_batch)@.len() as int) =~= old(write_batch)@);
        self.is_dirty = false;
    }
}

proof fn lemma_index_after_update(s: Seq<Entry>, k: Seq<u8>, v: Seq<u8>)
    requires
        index_of(s, k) >= 0,
    ensures
        index_of(s.update(index_of(s, k), (k, v)), k) == index_of(s, k),
    decreases s.len(),
{
    lemma_index_of(s, k);
    let i = index_of(s, k);
    let t = s.update(i, (k, v));
    if s.last().0 != k {
        assert(index_of(s.drop_last(), k) == i);
        lemma_index_of(s.drop_last(), k);
        lemma_index_after_update(s.drop_last(), k, v);
        assert(t.drop_last() =~= s.drop_last().update(i, (k, v)));
        assert(t.last() == s.last());
    }
}

/// A key that was just written holds the written value.
pub proof fn lemma_lookup_after_put(s: Seq<Entry>, k: Seq<u8>, v: Seq<u8>)
    ensures
        lookup(apply_write(s, k, Some(v)), k) == Some(v),
{
    lemma_index_of(s, k);
    if index_of(s, k) >= 0 {
        lemma_index_after_update(s, k, v);
    } else {
        assert(s.push((k, v)).last() == (k, v));
    }
}

/// Persisting a flushed output and rebuilding the state from the same key
/// gives back the same output.
pub proof fn lemma_flush_roundtrip(call: AggCall, s: AggState, store: Seq<Entry>, prefix: Seq<u8>)
    requires
        match s {
            AggState::Count(_) => call.kind == crate::aggregation::AggKind::Count,
            AggState::Sum(_) => call.kind == crate::aggregation::AggKind::Sum,
            AggState::Min(_) => call.kind == crate::aggregation::AggKind::Min,
            AggState::Max(_) => call.kind == crate::aggregation::AggKind::Max,
        },
    ensures
        ({
            let after = apply_batch(store, seq![(prefix, Some(datum_bytes(output_of(s))))]);
            persisted_output(lookup(after, prefix)) matches Some(data)
                && output_of(initial_state(call.kind, data)) == output_of(s)
        }),
{
    let b = seq![(prefix, Some(datum_bytes(output_of(s))))];
    assert(b.drop_last() =~= Seq::<(Seq<u8>, Option<Seq<u8>>)>::empty());
    assert(apply_batch(store, b.drop_last()) == store);
    assert(apply_batch(store, b) == apply_write(store, prefix, Some(datum_bytes(output_of(s)))));
    lemma_lookup_after_put(store, prefix, datum_bytes(output_of(s)));
    crate::encoding::lemma_datum_roundtrip(output_of(s));
}

} // verus!
