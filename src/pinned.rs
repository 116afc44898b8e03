//! The pinned-snapshot registry: per execution context, the epochs that its
//! readers still need, staged into metadata transactions.

use vstd::prelude::*;
use crate::bytes::{append_bytes, copy_bytes};
use vstd::string::StringSliceAdditionalSpecFns;

verus! {

/// Column family of pinned-snapshot records in the metadata store.
pub const HUMMOCK_CONTEXT_PINNED_SNAPSHOT_CF_NAME: &'static str = "cf/hummock_context_pinned_snapshot";

/// Protobuf field number of `HummockContextRefId.id` and of
/// `HummockContextPinnedSnapshot.context_id`.
pub const CONTEXT_ID_TAG: u32 = 1;

/// Protobuf field number of `HummockContextPinnedSnapshot.snapshot_id`.
pub const SNAPSHOT_ID_TAG: u32 = 2;

/// The protobuf encoding of a `uint32` field with the given field number.
pub uninterp spec fn pb_uint32_field(tag: u32, v: u32) -> Seq<u8>;

/// The protobuf encoding of a packed `repeated uint64` field with the given
/// field number.
pub uninterp spec fn pb_packed_uint64_field(tag: u32, vs: Seq<u64>) -> Seq<u8>;

/// Relies on `prost::encoding::uint32::encode`: appends the field key and
/// the varint of `v`, a function of `tag` and `v` alone. Its `encode_key`
/// asserts (in debug builds) that the tag is a valid field number.
#[verifier::external_body]
fn pb_put_uint32(tag: u32, v: u32, buf: &mut Vec<u8>)
    requires
        1 <= tag <= 536870911,
    ensures
        final(buf)@ == old(buf)@ + pb_uint32_field(tag, v),
{
    prost::encoding::uint32::encode(tag, &v, buf)
}

/// Relies on `prost::encoding::uint64::encode_packed`: appends the field key,
/// the length and the varints of `vs`, a function of `tag` and `vs` alone;
/// nothing at all when `vs` is empty.
#[verifier::external_body]
fn pb_put_packed_uint64(tag: u32, vs: &[u64], buf: &mut Vec<u8>)
    requires
        1 <= tag <= 536870911,
    ensures
        final(buf)@ == old(buf)@ + pb_packed_uint64_field(tag, vs@),
        vs@.len() == 0 ==> final(buf)@ == old(buf)@,
{
    prost::encoding::uint64::encode_packed(tag, vs, buf)
}

/// Identifies an execution context.
#[derive(Clone, Copy, Debug, PartialEq, Eq)]
pub struct HummockContextRefId {
    pub id: u32,
}

/// The epochs pinned by one execution context.
#[derive(Clone, Debug, PartialEq, Eq)]
pub struct HummockContextPinnedSnapshot {
    pub context_id: u32,
    pub snapshot_id: Vec<u64>,
}

/// A write staged in a metadata transaction.
#[derive(Clone, Debug, PartialEq, Eq)]
pub enum Operation {
    Put(Vec<u8>, Vec<u8>),
    Delete(Vec<u8>),
}

pub enum OpView {
    Put(Seq<u8>, Seq<u8>),
    Delete(Seq<u8>),
}

pub open spec fn op_view(o: Operation) -> OpView {
    match o {
        Operation::Put(k, v) => OpView::Put(k@, v@),
        Operation::Delete(k) => OpView::Delete(k@),
    }
}

/// Operations staged for one atomic commit against the metadata store.
pub struct Transaction {
    operations: Vec<Operation>,
}

impl Transaction {
    pub closed spec fn view(&self) -> Seq<OpView> {
        self.operations@.map_values(|o: Operation| op_view(o))
    }

    pub fn new() -> (r: Self)
        ensures
            r.view() == Seq::<OpView>::empty(),
    {
        let r = Transaction { operations: Vec::new() };
        assert(r.view() =~= Seq::<OpView>::empty());
        r
    }

    /// Stages `ops` after the operations already staged.
    pub fn add_operations(&mut self, ops: Vec<Operation>)
        ensures
            final(self).view() == old(self).view() + ops@.map_values(|o: Operation| op_view(o)),
    {
        let ghost added = ops@.map_values(|o: Operation| op_view(o));
        let total = ops.len();
        let mut ops = ops;
        let mut rest: Vec<Operation> = Vec::new();
        while ops.len() > 0
            invariant
                ops@.len() + rest@.len() == added.len(),
                forall|j: int| 0 <= j < ops@.len() ==> op_view(#[trigger] ops@[j]) == added[j],
                forall|j: int| 0 <= j < rest@.len() ==> op_view(#[trigger] rest@[j]) == added[added.len() - 1 - j],
            decreases ops@.len(),
        {
            let o = ops.pop().unwrap();
            rest.push(o);
        }
        let ghost base = self.view();
        let mut done: usize = 0;
        while rest.len() > 0
            invariant
                added.len() == total,
                done + rest@.len() == added.len(),
                forall|j: int| 0 <= j < rest@.len() ==> op_view(#[trigger] rest@[j]) == added[added.len() - 1 - j],
                self.view() == base + added.take(done as int),
            decreases rest@.len(),
        {
            let ghost r0 = rest@;
            let o = rest.pop().unwrap();
            assert(op_view(o) == added[done as int]) by {
                assert(o == r0[r0.len() - 1]);
            }
            let ghost before = self.operations@;
            self.operations.push(o);
            assert(self.operations@ == before.push(o));
            assert(added.take(done + 1) =~= added.take(done as int).push(added[done as int]));
            assert(self.view() =~= before.map_values(|o: Operation| op_view(o)).push(op_view(o)));
            assert(self.view() =~= base + added.take(done + 1));
            done = done + 1;
        }
        assert(added.take(done as int) =~= added);
    }

    /// The staged operations.
    pub fn operations(&self) -> (r: &Vec<Operation>)
        ensures
            r@.map_values(|o: Operation| op_view(o)) == self.view(),
    {
        &self.operations
    }
}

/// Whether `e` occurs in `s` at no position before `i`.
pub open spec fn absent_before(s: Seq<u64>, e: u64, i: int) -> bool {
    forall|j: int| 0 <= j < i ==> s[j] != e
}

/// The pinned epochs after pinning `e`: unchanged where `e` is present, else
/// `e` appended.
pub open spec fn pinned_after_pin(s: Seq<u64>, e: u64) -> Seq<u64> {
    if s.contains(e) { s } else { s.push(e) }
}

/// The pinned epochs after unpinning `e`: its first occurrence removed, or
/// unchanged where `e` is absent.
pub open spec fn pinned_after_unpin(s: Seq<u64>, e: u64) -> Seq<u64> {
    if s.contains(e) {
        let i = choose|i: int| 0 <= i < s.len() && s[i] == e && absent_before(s, e, i);
        s.remove(i)
    } else {
        s
    }
}

/// The key of a context's record: the column family name, `/`, then the
/// encoded context reference.
pub open spec fn record_key(context_id: u32) -> Seq<u8> {
    HUMMOCK_CONTEXT_PINNED_SNAPSHOT_CF_NAME.spec_bytes() + seq![47u8] + ref_id_bytes(context_id)
}

/// Encoding of a context reference: field `id`, left out when zero.
pub open spec fn ref_id_bytes(id: u32) -> Seq<u8> {
    if id == 0 { Seq::empty() } else { pb_uint32_field(CONTEXT_ID_TAG, id) }
}

/// Encoding of a record: `context_id` (left out when zero), then the packed
/// `snapshot_id` list.
pub open spec fn record_bytes(context_id: u32, ids: Seq<u64>) -> Seq<u8> {
    ref_id_bytes(context_id) + pb_packed_uint64_field(SNAPSHOT_ID_TAG, ids)
}

/// Position of the first `e` in `s`, if any.
fn position(s: &Vec<u64>, e: u64) -> (r: Option<usize>)
    ensures
        r matches Some(i) ==> i < s@.len() && s@[i as int] == e && absent_before(s@, e, i as int),
        r is None ==> !s@.contains(e),
{
    let mut i: usize = 0;
    while i < s.len()
        invariant
            i <= s@.len(),
            absent_before(s@, e, i as int),
        decreases s@.len() - i,
    {
        if s[i] == e {
            return Some(i);
        }
        i = i + 1;
    }
    None
}

fn encode_ref_id(id: u32, buf: &mut Vec<u8>)
    ensures
        final(buf)@ == old(buf)@ + ref_id_bytes(id),
{
    if id != 0 {
        pb_put_uint32(CONTEXT_ID_TAG, id, buf);
    } else {
        assert(old(buf)@ + ref_id_bytes(id) =~= old(buf)@);
    }
}

impl HummockContextRefId {
    /// The protobuf encoding of the reference.
    pub fn encode_to_vec(&self) -> (r: Vec<u8>)
        ensures
            r@ == ref_id_bytes(self.id),
    {
        let mut buf: Vec<u8> = Vec::new();
        encode_ref_id(self.id, &mut buf);
        assert(buf@ =~= ref_id_bytes(self.id));
        buf
    }
}

impl HummockContextPinnedSnapshot {
    pub fn cf_name() -> (r: &'static str)
        ensures
            r == HUMMOCK_CONTEXT_PINNED_SNAPSHOT_CF_NAME,
    {
        HUMMOCK_CONTEXT_PINNED_SNAPSHOT_CF_NAME
    }

    /// The reference of the record's context.
    pub fn key(&self) -> (r: HummockContextRefId)
        ensures
            r.id == self.context_id,
    {
        HummockContextRefId { id: self.context_id }
    }

    /// The protobuf encoding of the record.
    pub fn encode_to_vec(&self) -> (r: Vec<u8>)
        ensures
            r@ == record_bytes(self.context_id, self.snapshot_id@),
    {
        let mut buf: Vec<u8> = Vec::new();
        encode_ref_id(self.context_id, &mut buf);
        pb_put_packed_uint64(SNAPSHOT_ID_TAG, self.snapshot_id.as_slice(), &mut buf);
        assert(buf@ =~= record_bytes(self.context_id, self.snapshot_id@));
        buf
    }

    /// The record's key in the metadata store.
    pub fn store_key(&self) -> (r: Vec<u8>)
        ensures
            r@ == record_key(self.context_id),
    {
        let mut k = copy_bytes(HUMMOCK_CONTEXT_PINNED_SNAPSHOT_CF_NAME.as_bytes());
        k.push(47u8);
        let id = self.key().encode_to_vec();
        append_bytes(&mut k, id.as_slice());
        assert(k@ =~= record_key(self.context_id));
        k
    }

    /// Pins `epoch`; pinning an epoch already pinned changes nothing.
    pub fn pin_snapshot(&mut self, epoch: u64)
        ensures
            final(self).context_id == old(self).context_id,
            final(self).snapshot_id@ == pinned_after_pin(old(self).snapshot_id@, epoch),
    {
        if position(&self.snapshot_id, epoch).is_none() {
            self.snapshot_id.push(epoch);
        }
    }

    /// Unpins one occurrence of `epoch`; unpinning an epoch not pinned changes
    /// nothing.
    pub fn unpin_snapshot(&mut self, epoch: u64)
        ensures
            final(self).context_id == old(self).context_id,
            final(self).snapshot_id@ == pinned_after_unpin(old(self).snapshot_id@, epoch),
    {
        match position(&self.snapshot_id, epoch) {
            Some(pos) => {
                let ghost s = self.snapshot_id@;
                proof {
                    let c = choose|i: int| 0 <= i < s.len() && s[i] == epoch && absent_before(s, epoch, i);
                    if c < pos { assert(s[c] != epoch); }
                    if pos < c { assert(s[pos as int] != epoch); }
                }
                self.snapshot_id.remove(pos);
            },
            None => {},
        }
    }

    /// Stages an upsert of the record.
    pub fn upsert(&self, trx: &mut Transaction)
        ensures
            final(trx).view() == old(trx).view().push(
                OpView::Put(record_key(self.context_id), record_bytes(self.context_id, self.snapshot_id@)),
            ),
    {
        let mut ops: Vec<Operation> = Vec::new();
        ops.push(Operation::Put(self.store_key(), self.encode_to_vec()));
        trx.add_operations(ops);
        assert(final(trx).view() =~= old(trx).view().push(
            OpView::Put(record_key(self.context_id), record_bytes(self.context_id, self.snapshot_id@))));
    }

    /// Stages a deletion of the record.
    pub fn delete(&self, trx: &mut Transaction)
        ensures
            final(trx).view() == old(trx).view().push(OpView::Delete(record_key(self.context_id))),
    {
        let mut ops: Vec<Operation> = Vec::new();
        ops.push(Operation::Delete(self.store_key()));
        trx.add_operations(ops);
        assert(final(trx).view() =~= old(trx).view().push(OpView::Delete(record_key(self.context_id))));
    }

    /// Stages the record's new state: a deletion when no epoch is pinned, an
    /// upsert of the whole record otherwise.
    pub fn update(&self, trx: &mut Transaction)
        ensures
            final(trx).view() == old(trx).view().push(
                if self.snapshot_id@.len() == 0 {
                    OpView::Delete(record_key(self.context_id))
                } else {
                    OpView::Put(record_key(self.context_id), record_bytes(self.context_id, self.snapshot_id@))
                },
            ),
    {
        if self.snapshot_id.len() == 0 {
            self.delete(trx);
        } else {
            self.upsert(trx);
        }
    }
}

/// How many times `e` occurs in `s`.
pub open spec fn occurrences(s: Seq<u64>, e: u64) -> nat
    decreases s.len(),
{
    if s.len() == 0 {
        0
    } else {
        occurrences(s.drop_last(), e) + if s.last() == e { 1nat } else { 0nat }
    }
}

proof fn lemma_occurrences_absent(s: Seq<u64>, e: u64)
    requires
        !s.contains(e),
    ensures
        occurrences(s, e) == 0,
    decreases s.len(),
{
    if s.len() > 0 {
        assert(!s.drop_last().contains(e)) by {
            if s.drop_last().contains(e) {
                let j = choose|j: int| 0 <= j < s.drop_last().len() && s.drop_last()[j] == e;
                assert(s[j] == e);
            }
        }
        lemma_occurrences_absent(s.drop_last(), e);
        assert(s[s.len() - 1] != e);
    }
}

/// Pinning is idempotent: pinning an absent epoch twice leaves it pinned
/// once, unpinning an absent epoch changes nothing, and
/// unpinning the only pinned epoch leaves a record that `update` deletes.
pub proof fn lemma_pin_unpin(s: Seq<u64>, e: u64)
    ensures
        pinned_after_pin(pinned_after_pin(s, e), e) == pinned_after_pin(s, e),
        !s.contains(e) ==> pinned_after_unpin(s, e) == s,
        s == seq![e] ==> pinned_after_unpin(s, e).len() == 0,
        !s.contains(e) ==> occurrences(pinned_after_pin(pinned_after_pin(s, e), e), e) == 1,
{
    if !s.contains(e) {
        assert(s.push(e).contains(e)) by { assert(s.push(e)[s.len() as int] == e); }
        lemma_occurrences_absent(s, e);
        assert(s.push(e).drop_last() =~= s);
    }
    if s == seq![e] {
        assert(s[0] == e);
        assert(s.contains(e));
    }
}

} // verus!
