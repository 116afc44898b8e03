//! Keyspaces: byte prefixes over a shared store, built from typed segments.

use vstd::prelude::*;
use vstd::string::StringSliceAdditionalSpecFns;
use crate::bytes::{append_bytes, copy_bytes, suffix_from};
use crate::store::{lookup, pairs_view, scan_result, with_prefix, Entry, MemoryStateStore};

verus! {

/// Big-endian bytes of a 16-bit value.
pub open spec fn be16(n: u16) -> Seq<u8> {
    seq![(n / 256) as u8, (n % 256) as u8]
}

/// Big-endian bytes of a 32-bit value.
pub open spec fn be32(n: u32) -> Seq<u8> {
    seq![(n / 16777216) as u8, ((n / 65536) % 256) as u8, ((n / 256) % 256) as u8, (n % 256) as u8]
}

/// ASCII decimal digits of `n`, without leading zeros.
pub open spec fn decimal(n: nat) -> Seq<u8>
    decreases n,
{
    if n < 10 {
        seq![(48 + n) as u8]
    } else {
        decimal(n / 10).push((48 + n % 10) as u8)
    }
}

/// The ASCII decimal digits of `n`.
pub fn decimal_bytes(n: u32) -> (r: Vec<u8>)
    ensures
        r@ == decimal(n as nat),
    decreases n,
{
    if n < 10 {
        let mut r: Vec<u8> = Vec::new();
        r.push((48 + n) as u8);
        assert(r@ =~= decimal(n as nat));
        r
    } else {
        let mut r = decimal_bytes(n / 10);
        r.push((48 + n % 10) as u8);
        r
    }
}

pub fn u16_be_bytes(n: u16) -> (r: Vec<u8>)
    ensures
        r@ == be16(n),
{
    let mut r: Vec<u8> = Vec::new();
    r.push((n / 256) as u8);
    r.push((n % 256) as u8);
    assert(r@ =~= be16(n));
    r
}

pub fn u32_be_bytes(n: u32) -> (r: Vec<u8>)
    ensures
        r@ == be32(n),
{
    let mut r: Vec<u8> = Vec::new();
    r.push((n / 16777216) as u8);
    r.push(((n / 65536) % 256) as u8);
    r.push(((n / 256) % 256) as u8);
    r.push((n % 256) as u8);
    assert(r@ =~= be32(n));
    r
}

/// A unit part of a [`Keyspace`].
#[derive(Clone, Debug)]
pub enum Segment {
    /// Encoded as its bytes.
    FixedLength(Vec<u8>),
    /// Encoded as a big-endian 16-bit length, then its bytes.
    VariantLength(Vec<u8>),
}

/// Errors of key encoding.
#[derive(Clone, Copy, Debug, PartialEq, Eq)]
pub enum KeyspaceError {
    /// A variable-length segment longer than a 16-bit length can state.
    SegmentTooLong,
}

/// Whether the segment can be encoded.
pub open spec fn segment_encodable(s: Segment) -> bool {
    match s {
        Segment::FixedLength(_) => true,
        Segment::VariantLength(b) => b@.len() <= u16::MAX,
    }
}

/// The encoding of an encodable segment.
pub open spec fn segment_bytes(s: Segment) -> Seq<u8> {
    match s {
        Segment::FixedLength(b) => b@,
        Segment::VariantLength(b) => be16(b@.len() as u16) + b@,
    }
}

impl Segment {
    pub fn u16(id: u16) -> (r: Self)
        ensures
            r == Segment::FixedLength(r->FixedLength_0),
            r->FixedLength_0@ == be16(id),
    {
        Segment::FixedLength(u16_be_bytes(id))
    }

    pub fn u32(id: u32) -> (r: Self)
        ensures
            r == Segment::FixedLength(r->FixedLength_0),
            r->FixedLength_0@ == be32(id),
    {
        Segment::FixedLength(u32_be_bytes(id))
    }

    /// Appends the encoding of this segment to `buf`; a variable-length
    /// segment longer than `u16::MAX` bytes is refused and `buf` kept.
    pub fn encode(&self, buf: &mut Vec<u8>) -> (r: Result<(), KeyspaceError>)
        ensures
            r is Ok <==> segment_encodable(*self),
            r is Ok ==> final(buf)@ == old(buf)@ + segment_bytes(*self),
            r is Err ==> final(buf)@ == old(buf)@,
    {
        match self {
            Segment::FixedLength(fixed) => {
                append_bytes(buf, fixed.as_slice());
                Ok(())
            },
            Segment::VariantLength(variant) => {
                if variant.len() > 65535 {
                    return Err(KeyspaceError::SegmentTooLong);
                }
                let len = u16_be_bytes(variant.len() as u16);
                append_bytes(buf, len.as_slice());
                append_bytes(buf, variant.as_slice());
                assert(final(buf)@ =~= old(buf)@ + segment_bytes(*self));
                Ok(())
            },
        }
    }
}

/// Namespaces of root keyspaces.
#[derive(Clone, Copy, Debug, PartialEq, Eq)]
pub enum Namespace {
    Executor,
    Table,
}

/// Text of a table id's debug string before the number.
pub const TABLE_ID_DEBUG_OPEN: &'static str = "TableId { table_id: ";

/// Text of a table id's debug string after the number.
pub const TABLE_ID_DEBUG_CLOSE: &'static str = " }";

/// The debug string of a table id, `TableId { table_id: <id> }`, as bytes.
pub open spec fn table_id_debug(id: u32) -> Seq<u8> {
    TABLE_ID_DEBUG_OPEN.spec_bytes() + decimal(id as nat) + TABLE_ID_DEBUG_CLOSE.spec_bytes()
}

/// Identifies a table.
#[derive(Clone, Copy, Debug, PartialEq, Eq, Hash)]
pub struct TableId {
    pub table_id: u32,
}

/// The one-byte tag of a namespace: `e` for executors, `t` for tables.
pub open spec fn namespace_tag(ns: Namespace) -> u8 {
    match ns {
        Namespace::Executor => 101u8,
        Namespace::Table => 116u8,
    }
}

/// The prefix of the root keyspace of `id` in namespace `ns`: the tag, then
/// the big-endian id for executors, or the length-prefixed debug string of
/// the id for tables.
pub open spec fn root_prefix(ns: Namespace, id: u32) -> Seq<u8> {
    match ns {
        Namespace::Executor => seq![namespace_tag(ns)] + be32(id),
        Namespace::Table => {
            let d = table_id_debug(id);
            seq![namespace_tag(ns)] + be16(d.len() as u16) + d
        },
    }
}

impl TableId {
    /// The debug string of the id, as bytes.
    pub fn debug_bytes(&self) -> (r: Vec<u8>)
        ensures
            r@ == table_id_debug(self.table_id),
    {
        let mut r = copy_bytes(TABLE_ID_DEBUG_OPEN.as_bytes());
        let digits = decimal_bytes(self.table_id);
        append_bytes(&mut r, digits.as_slice());
        append_bytes(&mut r, TABLE_ID_DEBUG_CLOSE.as_bytes());
        r
    }
}

proof fn lemma_table_id_debug_len(id: u32)
    ensures
        table_id_debug(id).len() == 22 + decimal(id as nat).len(),
        table_id_debug(id).len() <= 32,
{
    reveal_strlit("TableId { table_id: ");
    reveal_strlit(" }");
    assert(vstd::string::is_ascii(TABLE_ID_DEBUG_OPEN));
    assert(vstd::string::is_ascii(TABLE_ID_DEBUG_CLOSE));
    vstd::string::is_ascii_spec_bytes(TABLE_ID_DEBUG_OPEN);
    vstd::string::is_ascii_spec_bytes(TABLE_ID_DEBUG_CLOSE);
    lemma_decimal_len_u32(id);
}

/// A byte-prefix namespace over a store: its prefix is the encoding of its
/// segments. A keyspace holds no store; reads take the store they go to, so
/// every keyspace over one store sees every write to it.
#[derive(Clone, Debug)]
pub struct Keyspace {
    /// Encoded representation of all segments.
    prefix: Vec<u8>,
}

impl Keyspace {
    pub closed spec fn prefix_view(&self) -> Seq<u8> {
        self.prefix@
    }

    /// A keyspace with the given raw prefix.
    pub fn new(prefix: Vec<u8>) -> (r: Self)
        ensures
            r.prefix_view() == prefix@,
    {
        Keyspace { prefix }
    }

    /// The root keyspace of an executor: `e`, then the big-endian id.
    pub fn executor_root(id: u32) -> (r: Self)
        ensures
            r.prefix_view() == root_prefix(Namespace::Executor, id),
    {
        let mut root = Keyspace { prefix: Vec::with_capacity(5) };
        let mut tag: Vec<u8> = Vec::new();
        tag.push(101u8);
        let _tagged = root.push(Segment::FixedLength(tag));
        let _identified = root.push(Segment::u32(id));
        assert(root.prefix@ =~= root_prefix(Namespace::Executor, id));
        root
    }

    /// The root keyspace of a table: `t`, then the debug string of the id
    /// as a variable-length segment.
    pub fn table_root(id: &TableId) -> (r: Self)
        ensures
            r.prefix_view() == root_prefix(Namespace::Table, id.table_id),
    {
        let mut root = Keyspace { prefix: Vec::new() };
        let mut tag: Vec<u8> = Vec::new();
        tag.push(116u8);
        let _tagged = root.push(Segment::FixedLength(tag));
        let debug = id.debug_bytes();
        proof { lemma_table_id_debug_len(id.table_id); }
        let _identified = root.push(Segment::VariantLength(debug));
        assert(root.prefix@ =~= root_prefix(Namespace::Table, id.table_id));
        root
    }

    /// Appends the encoding of `segment` to the prefix; an unencodable
    /// segment is refused and the prefix kept.
    pub fn push(&mut self, segment: Segment) -> (r: Result<(), KeyspaceError>)
        ensures
            r is Ok <==> segment_encodable(segment),
            r is Ok ==> final(self).prefix_view() == old(self).prefix_view() + segment_bytes(segment),
            r is Err ==> final(self).prefix_view() == old(self).prefix_view(),
    {
        segment.encode(&mut self.prefix)
    }

    /// The keyspace taken as a single key.
    pub fn key(&self) -> (r: &[u8])
        ensures
            r@ == self.prefix_view(),
    {
        self.prefix.as_slice()
    }

    /// The value stored in `store` under the keyspace taken as a single key.
    pub fn value(&self, store: &MemoryStateStore) -> (r: Option<Vec<u8>>)
        ensures
            match r {
                Some(v) => lookup(store.view(), self.prefix_view()) == Some(v@),
                None => lookup(store.view(), self.prefix_view()) is None,
            },
    {
        store.get(self.prefix.as_slice())
    }

    /// The prefix followed by `key`.
    pub fn prefixed_key(&self, key: &[u8]) -> (r: Vec<u8>)
        ensures
            r@ == self.prefix_view() + key@,
    {
        let mut r = copy_bytes(self.prefix.as_slice());
        append_bytes(&mut r, key);
        r
    }

    /// The value stored in `store` under the prefixed `key`.
    pub fn get(&self, store: &MemoryStateStore, key: &[u8]) -> (r: Option<Vec<u8>>)
        ensures
            match r {
                Some(v) => lookup(store.view(), self.prefix_view() + key@) == Some(v@),
                None => lookup(store.view(), self.prefix_view() + key@) is None,
            },
    {
        let k = self.prefixed_key(key);
        store.get(k.as_slice())
    }

    /// The first `limit` entries of `store` under the prefix (all when
    /// `None`).
    pub fn scan(&self, store: &MemoryStateStore, limit: Option<usize>) -> (r: Vec<(Vec<u8>, Vec<u8>)>)
        ensures
            pairs_view(r@) == scan_result(store.view(), self.prefix_view(), limit),
    {
        store.scan(self.prefix.as_slice(), limit)
    }

    /// The pairs of a scan of this keyspace with the prefix taken off each
    /// key; values and order are kept.
    pub fn scan_strip_prefix(&self, pairs: Vec<(Vec<u8>, Vec<u8>)>) -> (r: Vec<(Vec<u8>, Vec<u8>)>)
        requires
            forall|j: int| 0 <= j < pairs@.len() ==> (#[trigger] pairs@[j]).0@.len() >= self.prefix_view().len(),
        ensures
            pairs_view(r@) == strip_keys(pairs_view(pairs@), self.prefix_view().len()),
    {
        let ghost sv = pairs_view(pairs@);
        let n = self.prefix.len();
        let mut r: Vec<(Vec<u8>, Vec<u8>)> = Vec::new();
        let mut i: usize = 0;
        while i < pairs.len()
            invariant
                sv == pairs_view(pairs@),
                n == self.prefix_view().len(),
                forall|j: int| 0 <= j < pairs@.len() ==> (#[trigger] pairs@[j]).0@.len() >= n,
                i <= pairs@.len(),
                pairs_view(r@) == strip_keys(sv.take(i as int), n as nat),
            decreases pairs@.len() - i,
        {
            assert(sv[i as int] == (pairs@[i as int].0@, pairs@[i as int].1@));
            let k = suffix_from(pairs[i].0.as_slice(), n);
            let v = copy_bytes(pairs[i].1.as_slice());
            r.push((k, v));
            i = i + 1;
            assert(sv.take(i as int).drop_last() =~= sv.take(i - 1));
            assert(pairs_view(r@) =~= strip_keys(sv.take(i as int), n as nat));
        }
        assert(sv.take(i as int) =~= sv);
        r
    }

    /// Every entry of `store` under the prefix.
    pub fn iter(&self, store: &MemoryStateStore) -> (r: Vec<(Vec<u8>, Vec<u8>)>)
        ensures
            pairs_view(r@) == with_prefix(store.view(), self.prefix_view()),
    {
        store.iter(self.key())
    }

    /// A sub-keyspace: this prefix followed by the encoding of `segment`;
    /// the receiver is left as it was.
    pub fn with_segment(&self, segment: Segment) -> (r: Result<Keyspace, KeyspaceError>)
        ensures
            r is Ok <==> segment_encodable(segment),
            r matches Ok(k) ==> k.prefix_view() == self.prefix_view() + segment_bytes(segment),
    {
        let mut k = Keyspace { prefix: copy_bytes(self.prefix.as_slice()) };
        match k.push(segment) {
            Ok(()) => Ok(k),
            Err(e) => Err(e),
        }
    }
}

/// Every key of a scan of `store` under `p` has `p` as a prefix, so the
/// scanned pairs can be stripped.
pub proof fn lemma_scan_keys_have_prefix(s: Seq<Entry>, p: Seq<u8>, limit: Option<usize>)
    ensures
        forall|j: int| 0 <= j < scan_result(s, p, limit).len() ==>
            crate::bytes::has_prefix(#[trigger] scan_result(s, p, limit)[j].0, p),
{
    lemma_with_prefix_keys(s, p);
    let all = with_prefix(s, p);
    assert forall|j: int| 0 <= j < scan_result(s, p, limit).len() implies
        crate::bytes::has_prefix(#[trigger] scan_result(s, p, limit)[j].0, p) by {
        assert(scan_result(s, p, limit)[j] == all[j]);
    }
}

/// Entries with the first `n` bytes of each key removed.
pub open spec fn strip_keys(s: Seq<Entry>, n: nat) -> Seq<Entry>
    decreases s.len(),
{
    if s.len() == 0 {
        s
    } else {
        strip_keys(s.drop_last(), n).push((s.last().0.subrange(n as int, s.last().0.len() as int), s.last().1))
    }
}

proof fn lemma_with_prefix_keys(s: Seq<Entry>, p: Seq<u8>)
    ensures
        forall|j: int| 0 <= j < with_prefix(s, p).len() ==>
            crate::bytes::has_prefix(#[trigger] with_prefix(s, p)[j].0, p),
    decreases s.len(),
{
    if s.len() > 0 {
        lemma_with_prefix_keys(s.drop_last(), p);
        let w = with_prefix(s.drop_last(), p);
        if crate::bytes::has_prefix(s.last().0, p) {
            assert forall|j: int| 0 <= j < w.len() + 1 implies
                crate::bytes::has_prefix(#[trigger] w.push(s.last())[j].0, p) by {
                if j < w.len() {
                    assert(w.push(s.last())[j] == w[j]);
                }
            }
        }
    }
}

proof fn lemma_decimal_len(n: nat, k: nat)
    requires
        n < pow10(k),
        k >= 1,
    ensures
        decimal(n).len() <= k,
        decimal(n).len() >= 1,
    decreases n,
{
    if n >= 10 {
        assert(k >= 2) by {
            if k == 1 { assert(pow10(1) == 10) by { reveal_with_fuel(pow10, 2); } }
        }
        assert(n / 10 < pow10((k - 1) as nat)) by (nonlinear_arith)
            requires n < pow10(k), pow10(k) == 10 * pow10((k - 1) as nat);
        lemma_decimal_len(n / 10, (k - 1) as nat);
    }
}

pub open spec fn pow10(k: nat) -> nat
    decreases k,
{
    if k == 0 { 1 } else { 10 * pow10((k - 1) as nat) }
}

proof fn lemma_decimal_len_u32(n: u32)
    ensures
        1 <= decimal(n as nat).len() <= 10,
{
    reveal_with_fuel(pow10, 11);
    lemma_decimal_len(n as nat, 10);
}

proof fn lemma_decimal_nonempty(n: nat)
    ensures
        decimal(n).len() >= 1,
    decreases n,
{
    if n >= 10 {
        lemma_decimal_nonempty(n / 10);
    }
}

/// Distinct numbers have distinct decimal digits.
proof fn lemma_decimal_injective(a: nat, b: nat)
    requires
        decimal(a) == decimal(b),
    ensures
        a == b,
    decreases a,
{
    if a < 10 && b >= 10 {
        lemma_decimal_nonempty(b / 10);
        assert(decimal(b).len() >= 2);
    } else if a >= 10 && b < 10 {
        lemma_decimal_nonempty(a / 10);
        assert(decimal(a).len() >= 2);
    } else if a >= 10 && b >= 10 {
        assert(decimal(a).drop_last() =~= decimal(a / 10));
        assert(decimal(b).drop_last() =~= decimal(b / 10));
        lemma_decimal_injective(a / 10, b / 10);
        assert(decimal(a).last() == decimal(b).last());
        assert(decimal(a).last() == (48 + a % 10) as u8);
        assert(decimal(b).last() == (48 + b % 10) as u8);
        assert(0 <= a % 10 < 10 && 0 <= b % 10 < 10);
        assert(a % 10 == b % 10);
        assert(a == 10 * (a / 10) + a % 10) by (nonlinear_arith);
        assert(b == 10 * (b / 10) + b % 10) by (nonlinear_arith);
    } else {
        assert(decimal(a)[0] == decimal(b)[0]);
        assert(decimal(a)[0] == (48 + a) as u8);
        assert(decimal(b)[0] == (48 + b) as u8);
    }
}

proof fn lemma_be32_injective(a: u32, b: u32)
    requires
        be32(a) == be32(b),
    ensures
        a == b,
{
    assert(be32(a)[0] == be32(b)[0] && be32(a)[1] == be32(b)[1]);
    assert(be32(a)[2] == be32(b)[2] && be32(a)[3] == be32(b)[3]);
    assert(a == (a / 16777216) * 16777216 + ((a / 65536) % 256) * 65536 + ((a / 256) % 256) * 256 + a % 256) by (nonlinear_arith);
    assert(b == (b / 16777216) * 16777216 + ((b / 65536) % 256) * 65536 + ((b / 256) % 256) * 256 + b % 256) by (nonlinear_arith);
}

/// Root keyspaces of distinct (namespace, id) pairs have distinct prefixes:
/// executor and table keyspaces never collide, nor do two ids of one
/// namespace.
pub proof fn lemma_root_prefix_injective(ns1: Namespace, id1: u32, ns2: Namespace, id2: u32)
    requires
        ns1 != ns2 || id1 != id2,
    ensures
        root_prefix(ns1, id1) != root_prefix(ns2, id2),
{
    if root_prefix(ns1, id1) == root_prefix(ns2, id2) {
        assert(root_prefix(ns1, id1)[0] == namespace_tag(ns1));
        assert(root_prefix(ns2, id2)[0] == namespace_tag(ns2));
        if ns1 == ns2 {
            match ns1 {
                Namespace::Executor => {
                    assert(be32(id1) =~= root_prefix(ns1, id1).subrange(1, 5));
                    assert(be32(id2) =~= root_prefix(ns2, id2).subrange(1, 5));
                    lemma_be32_injective(id1, id2);
                },
                Namespace::Table => {
                    let t1 = table_id_debug(id1);
                    let t2 = table_id_debug(id2);
                    let d1 = decimal(id1 as nat);
                    let d2 = decimal(id2 as nat);
                    lemma_table_id_debug_len(id1);
                    lemma_table_id_debug_len(id2);
                    assert(t1 =~= root_prefix(ns1, id1).subrange(3, root_prefix(ns1, id1).len() as int));
                    assert(t2 =~= root_prefix(ns2, id2).subrange(3, root_prefix(ns2, id2).len() as int));
                    assert(d1.len() == d2.len());
                    let o = TABLE_ID_DEBUG_OPEN.spec_bytes().len() as int;
                    assert(d1 =~= t1.subrange(o, o + d1.len()));
                    assert(d2 =~= t2.subrange(o, o + d2.len()));
                    lemma_decimal_injective(id1 as nat, id2 as nat);
                },
            }
        }
    }
}

/// Stripping the prefix after a scan gives, entry for entry, the scanned
/// keys with the prefix length removed and the scanned values.
pub proof fn lemma_strip_keys(s: Seq<Entry>, n: nat)
    ensures
        strip_keys(s, n).len() == s.len(),
        forall|j: int| 0 <= j < s.len() ==> (#[trigger] strip_keys(s, n)[j]).0
            == s[j].0.subrange(n as int, s[j].0.len() as int) && strip_keys(s, n)[j].1 == s[j].1,
    decreases s.len(),
{
    if s.len() > 0 {
        lemma_strip_keys(s.drop_last(), n);
        assert forall|j: int| 0 <= j < s.len() - 1 implies s.drop_last()[j] == s[j] by {}
    }
}

} // verus!
