//! An in-memory state store engine: point get, prefix scan, atomic batch
//! ingest and prefix iteration over byte keys. Keyspaces and managed states
//! hold no store; their callers read from and write to whichever engine
//! backs them, this one included.

use vstd::prelude::*;
use crate::bytes::{bytes_eq, copy_bytes, has_prefix, starts_with};

verus! {

pub type Entry = (Seq<u8>, Seq<u8>);

/// A write of a batch: `None` deletes the key.
pub type BatchItem = (Vec<u8>, Option<Vec<u8>>);

/// Position of key `k` in `s`, or -1 where no entry has it.
pub open spec fn index_of(s: Seq<Entry>, k: Seq<u8>) -> int
    decreases s.len(),
{
    if s.len() == 0 {
        -1
    } else if s.last().0 == k {
        s.len() - 1
    } else {
        index_of(s.drop_last(), k)
    }
}

/// The value stored under `k`.
pub open spec fn lookup(s: Seq<Entry>, k: Seq<u8>) -> Option<Seq<u8>> {
    let i = index_of(s, k);
    if i >= 0 { Some(s[i].1) } else { None }
}

/// Entries after one write: an existing key keeps its place, a new key goes
/// last, a deletion removes the key.
pub open spec fn apply_write(s: Seq<Entry>, k: Seq<u8>, v: Option<Seq<u8>>) -> Seq<Entry> {
    let i = index_of(s, k);
    match v {
        Some(v) => if i >= 0 { s.update(i, (k, v)) } else { s.push((k, v)) },
        None => if i >= 0 { s.remove(i) } else { s },
    }
}

/// The view of a batch item.
pub open spec fn item_view(b: BatchItem) -> (Seq<u8>, Option<Seq<u8>>) {
    (b.0@, match b.1 { Some(v) => Some(v@), None => None })
}

/// Entries after the writes of `batch`, in order.
pub open spec fn apply_batch(s: Seq<Entry>, batch: Seq<(Seq<u8>, Option<Seq<u8>>)>) -> Seq<Entry>
    decreases batch.len(),
{
    if batch.len() == 0 {
        s
    } else {
        apply_write(apply_batch(s, batch.drop_last()), batch.last().0, batch.last().1)
    }
}

/// The entries whose key starts with `p`, in store order.
pub open spec fn with_prefix(s: Seq<Entry>, p: Seq<u8>) -> Seq<Entry>
    decreases s.len(),
{
    if s.len() == 0 {
        s
    } else if has_prefix(s.last().0, p) {
        with_prefix(s.drop_last(), p).push(s.last())
    } else {
        with_prefix(s.drop_last(), p)
    }
}

/// What a scan returns: the first `limit` entries under `p`.
pub open spec fn scan_result(s: Seq<Entry>, p: Seq<u8>, limit: Option<usize>) -> Seq<Entry> {
    let all = with_prefix(s, p);
    match limit {
        Some(n) => if n < all.len() { all.take(n as int) } else { all },
        None => all,
    }
}

pub open spec fn keys_unique(s: Seq<Entry>) -> bool {
    forall|i: int, j: int| 0 <= i < j < s.len() ==> s[i].0 != s[j].0
}

pub open spec fn pairs_view(v: Seq<(Vec<u8>, Vec<u8>)>) -> Seq<Entry> {
    v.map_values(|e: (Vec<u8>, Vec<u8>)| (e.0@, e.1@))
}

pub proof fn lemma_index_of(s: Seq<Entry>, k: Seq<u8>)
    ensures
        -1 <= index_of(s, k) < s.len(),
        index_of(s, k) >= 0 ==> s[index_of(s, k)].0 == k,
        index_of(s, k) < 0 ==> forall|i: int| 0 <= i < s.len() ==> s[i].0 != k,
    decreases s.len(),
{
    if s.len() > 0 {
        lemma_index_of(s.drop_last(), k);
        if index_of(s, k) < 0 {
            assert forall|i: int| 0 <= i < s.len() implies #[trigger] s[i].0 != k by {
                if i < s.len() - 1 {
                    assert(s.drop_last()[i] == s[i]);
                }
            }
        }
    }
}

/// The in-memory engine: entries with distinct keys, in order of first write.
#[derive(Clone)]
pub struct MemoryStateStore {
    entries: Vec<(Vec<u8>, Vec<u8>)>,
}

impl MemoryStateStore {
    pub closed spec fn view(&self) -> Seq<Entry> {
        pairs_view(self.entries@)
    }

    pub closed spec fn wf(&self) -> bool {
        keys_unique(self.view())
    }

    pub fn new() -> (r: Self)
        ensures
            r.wf(),
            r.view() == Seq::<Entry>::empty(),
    {
        let r = MemoryStateStore { entries: Vec::new() };
        assert(r.view() =~= Seq::<Entry>::empty());
        r
    }

    /// Number of stored keys.
    pub fn len(&self) -> (r: usize)
        ensures
            r == self.view().len(),
    {
        self.entries.len()
    }

    fn find(&self, key: &[u8]) -> (r: Option<usize>)
        ensures
            r matches Some(i) ==> i == index_of(self.view(), key@),
            r is None ==> index_of(self.view(), key@) == -1,
    {
        let mut i: usize = self.entries.len();
        assert(self.view().take(i as int) =~= self.view());
        while i > 0
            invariant
                i <= self.entries@.len(),
                index_of(self.view(), key@) == index_of(self.view().take(i as int), key@),
            decreases i,
        {
            let ghost t = self.view().take(i as int);
            assert(t.drop_last() =~= self.view().take(i - 1));
            if bytes_eq(self.entries[i - 1].0.as_slice(), key) {
                return Some(i - 1);
            }
            i = i - 1;
        }
        assert(self.view().take(0) =~= Seq::<Entry>::empty());
        None
    }

    /// The value stored under `key`.
    pub fn get(&self, key: &[u8]) -> (r: Option<Vec<u8>>)
        ensures
            match r {
                Some(v) => lookup(self.view(), key@) == Some(v@),
                None => lookup(self.view(), key@) is None,
            },
    {
        proof { lemma_index_of(self.view(), key@); }
        match self.find(key) {
            Some(i) => Some(copy_bytes(self.entries[i].1.as_slice())),
            None => None,
        }
    }

    /// The first `limit` entries whose key starts with `prefix`, all of them
    /// when `limit` is `None`.
    pub fn scan(&self, prefix: &[u8], limit: Option<usize>) -> (r: Vec<(Vec<u8>, Vec<u8>)>)
        ensures
            pairs_view(r@) == scan_result(self.view(), prefix@, limit),
    {
        let mut r: Vec<(Vec<u8>, Vec<u8>)> = Vec::new();
        let mut i: usize = 0;
        let n = self.entries.len();
        while i < n && !limit_reached(limit, r.len())
            invariant
                n == self.entries@.len(),
                i <= n,
                pairs_view(r@) == with_prefix(self.view().take(i as int), prefix@),
                limit matches Some(m) ==> r@.len() <= m,
            decreases n - i,
        {
            let ghost t = self.view().take(i + 1);
            assert(t.drop_last() =~= self.view().take(i as int));
            if starts_with(self.entries[i].0.as_slice(), prefix) {
                let k = copy_bytes(self.entries[i].0.as_slice());
                let v = copy_bytes(self.entries[i].1.as_slice());
                r.push((k, v));
                assert(pairs_view(r@) =~= with_prefix(t, prefix@));
            }
            i = i + 1;
        }
        proof {
            lemma_with_prefix_take(self.view(), prefix@, i as int);
            assert(self.view().take(n as int) =~= self.view());
            let all = with_prefix(self.view(), prefix@);
            assert(all.take(all.len() as int) =~= all);
        }
        r
    }

    /// Every entry whose key starts with `prefix`.
    pub fn iter(&self, prefix: &[u8]) -> (r: Vec<(Vec<u8>, Vec<u8>)>)
        ensures
            pairs_view(r@) == with_prefix(self.view(), prefix@),
    {
        self.scan(prefix, None)
    }

    fn write(&mut self, key: Vec<u8>, value: Option<Vec<u8>>)
        requires
            old(self).wf(),
        ensures
            final(self).wf(),
            final(self).view() == apply_write(old(self).view(), key@, item_view((key, value)).1),
    {
        proof { lemma_index_of(self.view(), key@); }
        let found = self.find(key.as_slice());
        let ghost s = self.view();
        match (found, value) {
            (Some(i), Some(v)) => {
                self.entries.set(i, (key, v));
                assert(self.view() =~= s.update(i as int, (key@, v@)));
            }
            (None, Some(v)) => {
                self.entries.push((key, v));
                assert(self.view() =~= s.push((key@, v@)));
            }
            (Some(i), None) => {
                self.entries.remove(i);
                assert(self.view() =~= s.remove(i as int));
            }
            (None, None) => {}
        }
    }

    /// Applies every write of `batch` in order, all at once.
    pub fn ingest_batch(&mut self, batch: Vec<BatchItem>)
        requires
            old(self).wf(),
        ensures
            final(self).wf(),
            final(self).view() == apply_batch(old(self).view(), batch@.map_values(|b: BatchItem| item_view(b))),
    {
        let ghost bv = batch@.map_values(|b: BatchItem| item_view(b));
        let ghost s0 = self.view();
        let total = batch.len();
        let mut batch = batch;
        let mut rest: Vec<BatchItem> = Vec::new();
        // Writes are applied from the front: move them into `rest` reversed.
        while batch.len() > 0
            invariant
                batch@.len() + rest@.len() == bv.len(),
                forall|j: int| 0 <= j < batch@.len() ==> item_view(#[trigger] batch@[j]) == bv[j],
                forall|j: int| 0 <= j < rest@.len() ==>
                    item_view(#[trigger] rest@[j]) == bv[bv.len() - 1 - j],
            decreases batch@.len(),
        {
            let b = batch.pop().unwrap();
            rest.push(b);
        }
        let mut done: usize = 0;
        while rest.len() > 0
            invariant
                bv.len() == total,
                self.wf(),
                done + rest@.len() == bv.len(),
                forall|j: int| 0 <= j < rest@.len() ==>
                    item_view(#[trigger] rest@[j]) == bv[bv.len() - 1 - j],
                self.view() == apply_batch(s0, bv.take(done as int)),
            decreases rest@.len(),
        {
            let (k, v) = rest.pop().unwrap();
            assert(item_view((k, v)) == bv[done as int]);
            self.write(k, v);
            assert(bv.take(done + 1).drop_last() =~= bv.take(done as int));
            done = done + 1;
        }
        assert(bv.take(done as int) =~= bv);
    }
}

fn limit_reached(limit: Option<usize>, k: usize) -> (r: bool)
    ensures
        r == (limit matches Some(m) && k >= m),
{
    match limit {
        Some(m) => k >= m,
        None => false,
    }
}

proof fn lemma_with_prefix_take(s: Seq<Entry>, p: Seq<u8>, i: int)
    requires
        0 <= i <= s.len(),
    ensures
        with_prefix(s.take(i), p).len() <= with_prefix(s, p).len(),
        with_prefix(s.take(i), p) == with_prefix(s, p).take(with_prefix(s.take(i), p).len() as int),
    decreases s.len() - i,
{
    if i < s.len() {
        lemma_with_prefix_take(s, p, i + 1);
        assert(s.take(i + 1).drop_last() =~= s.take(i));
    } else {
        assert(s.take(i) =~= s);
        assert(with_prefix(s, p).take(with_prefix(s, p).len() as int) =~= with_prefix(s, p));
    }
}

} // verus!
