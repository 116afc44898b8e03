use epoch_state::aggregation::{verify_batch, AggCall, AggError, AggKind, AggState, Op};
use epoch_state::encoding::{deserialize_datum, serialize_cell_idx, serialize_datum};
use epoch_state::epoch::{Epoch, MemEpochGenerator};
use epoch_state::keyspace::Namespace;
use epoch_state::executor::{DataChunk, ExecutorError, ExecutorResult};
use epoch_state::keyspace::{Keyspace, KeyspaceError, Segment, TableId};
use epoch_state::mview::{ManagedMViewState, Row, Schema};
use epoch_state::pinned::{
    HummockContextPinnedSnapshot, HummockContextRefId, Operation, Transaction,
};
use epoch_state::store::MemoryStateStore;
use epoch_state::value_state::{ManagedValueState, StateError};

#[test]
fn test_epoch_generator() {
    let mut generator = MemEpochGenerator::new().unwrap();
    let mut pre = generator.generate().unwrap();
    loop {
        let epoch = generator.generate().unwrap();
        assert!(epoch > pre);
        if epoch.physical_time() > pre.physical_time() {
            break;
        }
        pre = epoch;
    }
}

#[test]
fn epoch_next_within_one_millisecond_adds_one() {
    let e = Epoch::from_physical(1000);
    assert_eq!(e.into_inner(), 1000 << 16);
    assert_eq!(e.physical_time(), 1000);
    let n = e.next_at(1000);
    assert_eq!(n.into_inner(), (1000 << 16) + 1);
    let m = n.next_at(1001);
    assert_eq!(m.into_inner(), 1001 << 16);
    assert!(m > n && n > e);
    // a clock behind the epoch's millisecond still moves the epoch forward
    let back = m.next_at(3);
    assert_eq!(back.into_inner(), (1001 << 16) + 1);
    assert_eq!(Epoch::from(7u64).into_inner(), 7);
    let now = Epoch::init().unwrap();
    assert!(now.next().unwrap() > now);
}

fn int_row(values: &[i64]) -> Row {
    Row(values.iter().map(|v| Some(*v)).collect())
}

#[test]
fn test_mview_state() {
    let mut state_store = MemoryStateStore::new();
    let schema = Schema::new(2);
    let pk_columns = vec![0];
    let prefix = b"test-prefix-42".to_vec();
    let mut state = ManagedMViewState::new(prefix.clone(), schema, pk_columns);

    state.put(int_row(&[1]), int_row(&[1, 11]));
    state.put(int_row(&[2]), int_row(&[2, 22]));
    state.put(int_row(&[3]), int_row(&[3, 33]));
    state.delete(int_row(&[2]));

    state_store.ingest_batch(state.flush());
    let data = state_store.scan(&prefix[..], None);
    // cell-based storage has 4 cells
    assert_eq!(data.len(), 4);

    state.delete(int_row(&[3]));
    state_store.ingest_batch(state.flush());
    let data = state_store.scan(&prefix[..], None);
    assert_eq!(data.len(), 2);
}

#[test]
fn mview_put_then_delete_writes_only_deletions() {
    let mut store = MemoryStateStore::new();
    store.ingest_batch(vec![(b"p-other".to_vec(), Some(vec![9]))]);
    let mut state = ManagedMViewState::new(b"p".to_vec(), Schema::new(3), vec![0]);
    state.put(int_row(&[7]), int_row(&[7, 70, 700]));
    state.delete(int_row(&[7]));
    let batch = state.flush();
    assert_eq!(batch.len(), 3);
    assert!(batch.iter().all(|(_, v)| v.is_none()));
    store.ingest_batch(batch);
    // nothing of the row reached the store; the unrelated key stays
    let data = store.scan(b"p", None);
    assert_eq!(data, vec![(b"p-other".to_vec(), vec![9])]);
}

#[test]
fn mview_cell_keys_and_values() {
    let mut store = MemoryStateStore::new();
    let mut state = ManagedMViewState::new(b"v".to_vec(), Schema::new(2), vec![0]);
    state.put(Row(vec![Some(5)]), Row(vec![Some(5), None]));
    store.ingest_batch(state.flush());
    let data = store.scan(b"v", None);
    let pk = serialize_datum(Some(5));
    let mut k0 = b"v".to_vec();
    k0.extend_from_slice(&pk);
    k0.extend_from_slice(&[0x80, 0, 0, 0]);
    let mut k1 = b"v".to_vec();
    k1.extend_from_slice(&pk);
    k1.extend_from_slice(&[0x80, 0, 0, 1]);
    assert_eq!(data, vec![(k0, serialize_datum(Some(5))), (k1, vec![0])]);
}

fn create_test_count_state() -> AggCall {
    AggCall { kind: AggKind::Count }
}

#[test]
fn test_managed_value_state() {
    let mut store = MemoryStateStore::new();
    let keyspace = Keyspace::new(b"233333".to_vec());
    let raw = keyspace.value(&store);
    let mut managed_state = ManagedValueState::new(create_test_count_state(), keyspace, raw).unwrap();
    assert!(!managed_state.is_dirty());

    // apply a batch and get the output
    let ops = [Op::Insert, Op::Insert, Op::Insert, Op::Insert];
    let column = vec![Some(0), Some(1), Some(2), None];
    managed_state.apply_batch(&ops, None, &[column]).unwrap();
    assert!(managed_state.is_dirty());
    assert_eq!(managed_state.get_output(), Some(3));

    // flush to write batch and write to state store
    let mut write_batch = vec![];
    managed_state.flush(&mut write_batch);
    assert!(!managed_state.is_dirty());
    store.ingest_batch(write_batch);

    // reload the state and check the output
    let keyspace = Keyspace::new(b"233333".to_vec());
    let raw = keyspace.value(&store);
    let managed_state = ManagedValueState::new(create_test_count_state(), keyspace, raw).unwrap();
    assert_eq!(managed_state.get_output(), Some(3));
}

#[test]
fn value_state_rejects_undecodable_bytes() {
    let mut store = MemoryStateStore::new();
    store.ingest_batch(vec![(b"k".to_vec(), Some(vec![7, 1, 2]))]);
    let keyspace = Keyspace::new(b"k".to_vec());
    let raw = keyspace.value(&store);
    let r = ManagedValueState::new(create_test_count_state(), keyspace, raw);
    assert!(matches!(r, Err(StateError::Decode)));
}

#[test]
fn aggregates_sum_min_max_and_visibility() {
    let ops = [Op::Insert, Op::Insert, Op::Delete, Op::Insert];
    let col = vec![Some(5), Some(-3), Some(2), Some(10)];
    let vis = vec![true, true, true, false];
    let mut sum = AggState::create(AggKind::Sum, None);
    sum.apply_batch(&ops, Some(&vis), &[col.clone()]).unwrap();
    assert_eq!(sum.get_output(), Some(0));

    let mut min = AggState::create(AggKind::Min, None);
    min.apply_batch(&[Op::Insert, Op::Insert], None, &[vec![Some(4), Some(-6)]]).unwrap();
    assert_eq!(min.get_output(), Some(-6));
    let mut max = AggState::create(AggKind::Max, Some(Some(9)));
    max.apply_batch(&[Op::UpdateInsert], None, &[vec![Some(4)]]).unwrap();
    assert_eq!(max.get_output(), Some(9));

    let mut count_star = AggState::create(AggKind::Count, None);
    count_star.apply_batch(&[Op::Insert, Op::Insert, Op::Delete], Some(&vec![true, true, false]), &[]).unwrap();
    assert_eq!(count_star.get_output(), Some(2));
    let mut two_columns = AggState::create(AggKind::Sum, None);
    two_columns.apply_batch(&[Op::Insert], None, &[vec![Some(8)], vec![Some(100)]]).unwrap();
    assert_eq!(two_columns.get_output(), Some(8));

    let r = max.apply_batch(&[Op::Delete], None, &[vec![Some(4)]]);
    assert_eq!(r, Err(AggError::RetractionUnsupported));
    assert_eq!(max.get_output(), Some(9));

    let mut big = AggState::create(AggKind::Sum, Some(Some(i64::MAX)));
    assert_eq!(big.apply_batch(&[Op::Insert], None, &[vec![Some(1)]]), Err(AggError::Overflow));
    assert_eq!(big.get_output(), Some(i64::MAX));
}

#[test]
fn verify_batch_checks_lengths() {
    let ops = [Op::Insert, Op::Delete];
    assert!(verify_batch(&ops, None, &[vec![Some(1), None]]));
    assert!(verify_batch(&ops, Some(&vec![true, false]), &[vec![Some(1), None]]));
    assert!(!verify_batch(&ops, Some(&vec![true]), &[vec![Some(1), None]]));
    assert!(!verify_batch(&ops, None, &[vec![Some(1)]]));
}

#[test]
fn datum_encoding_is_memcomparable() {
    assert_eq!(serialize_datum(None), vec![0]);
    assert_eq!(serialize_datum(Some(3)), vec![1, 0x80, 0, 0, 0, 0, 0, 0, 3]);
    assert_eq!(serialize_datum(Some(-1)), vec![1, 0x7f, 0xff, 0xff, 0xff, 0xff, 0xff, 0xff, 0xff]);
    assert_eq!(serialize_cell_idx(1), vec![0x80, 0, 0, 1]);
    assert!(serialize_datum(Some(-1)) < serialize_datum(Some(3)));
    assert_eq!(deserialize_datum(&serialize_datum(Some(-42))), Some(Some(-42)));
    assert_eq!(deserialize_datum(&[0]), Some(None));
    assert_eq!(deserialize_datum(&[2]), None);
    assert_eq!(deserialize_datum(&[1, 0]), None);
    assert_eq!(deserialize_datum(&[]), None);
}

#[test]
fn keyspace_roots_and_segments() {
    let e = Keyspace::executor_root(0x01020304);
    assert_eq!(e.key(), &[b'e', 1, 2, 3, 4]);
    let id = TableId { table_id: 42 };
    let t = Keyspace::table_root(&id);
    let debug = format!("{:?}", id).into_bytes();
    assert_eq!(debug, b"TableId { table_id: 42 }".to_vec());
    let mut expected = vec![b't', 0, debug.len() as u8];
    expected.extend_from_slice(&debug);
    assert_eq!(t.key(), &expected[..]);
    assert_eq!(t.key().len(), 27);
    assert_eq!(id.debug_bytes(), debug);
    assert_ne!(Keyspace::executor_root(1).key(), Keyspace::executor_root(2).key());
    let _ = Namespace::Table;

    let sub = e.with_segment(Segment::u16(0x0a0b)).unwrap();
    assert_eq!(sub.key(), &[b'e', 1, 2, 3, 4, 0x0a, 0x0b]);
    assert_eq!(e.key(), &[b'e', 1, 2, 3, 4]);
    let v = e.with_segment(Segment::VariantLength(vec![7, 8])).unwrap();
    assert_eq!(v.key(), &[b'e', 1, 2, 3, 4, 0, 2, 7, 8]);
    assert_eq!(e.prefixed_key(&[9]), vec![b'e', 1, 2, 3, 4, 9]);

    let mut k = Keyspace::new(vec![1]);
    assert_eq!(k.push(Segment::VariantLength(vec![0; 70000])), Err(KeyspaceError::SegmentTooLong));
    assert_eq!(k.key(), &[1]);
    assert_eq!(k.push(Segment::u32(5)), Ok(()));
    assert_eq!(k.key(), &[1, 0, 0, 0, 5]);
}

#[test]
fn keyspace_reads_and_strips_prefix() {
    let mut store = MemoryStateStore::new();
    store.ingest_batch(vec![
        (b"ab1".to_vec(), Some(b"x".to_vec())),
        (b"b".to_vec(), Some(b"y".to_vec())),
        (b"ab2".to_vec(), Some(b"z".to_vec())),
        (b"ab".to_vec(), Some(b"w".to_vec())),
    ]);
    let ks = Keyspace::new(b"ab".to_vec());
    assert_eq!(ks.value(&store), Some(b"w".to_vec()));
    assert_eq!(ks.get(&store, b"2"), Some(b"z".to_vec()));
    assert_eq!(ks.get(&store, b"3"), None);
    let all = ks.scan(&store, None);
    assert_eq!(all.len(), 3);
    let two = ks.scan(&store, Some(2));
    assert_eq!(two, vec![(b"ab1".to_vec(), b"x".to_vec()), (b"ab2".to_vec(), b"z".to_vec())]);
    let stripped = ks.scan_strip_prefix(two);
    assert_eq!(stripped, vec![(b"1".to_vec(), b"x".to_vec()), (b"2".to_vec(), b"z".to_vec())]);
    assert_eq!(ks.iter(&store), all);
    // a sub-keyspace reads the same store and sees later writes
    let sub = ks.with_segment(Segment::FixedLength(b"3".to_vec())).unwrap();
    assert_eq!(sub.value(&store), None);
    store.ingest_batch(vec![(b"ab3".to_vec(), Some(b"v".to_vec()))]);
    assert_eq!(sub.value(&store), Some(b"v".to_vec()));
    assert_eq!(store.len(), 5);
}

#[test]
fn store_batches_overwrite_and_delete() {
    let mut store = MemoryStateStore::new();
    store.ingest_batch(vec![(vec![1], Some(vec![10])), (vec![2], Some(vec![20])), (vec![1], Some(vec![11]))]);
    assert_eq!(store.get(&[1]), Some(vec![11]));
    assert_eq!(store.len(), 2);
    store.ingest_batch(vec![(vec![1], None), (vec![3], None)]);
    assert_eq!(store.get(&[1]), None);
    assert_eq!(store.len(), 1);
}

#[test]
fn pin_and_unpin_snapshots() {
    let mut record = HummockContextPinnedSnapshot { context_id: 5, snapshot_id: vec![] };
    record.pin_snapshot(7);
    record.pin_snapshot(7);
    assert_eq!(record.snapshot_id, vec![7]);
    record.unpin_snapshot(8);
    assert_eq!(record.snapshot_id, vec![7]);

    let mut trx = Transaction::new();
    record.update(&mut trx);
    let mut key = b"cf/hummock_context_pinned_snapshot/".to_vec();
    key.extend_from_slice(&[8, 5]);
    assert_eq!(trx.operations(), &vec![Operation::Put(key.clone(), vec![8, 5, 18, 1, 7])]);

    record.unpin_snapshot(7);
    assert!(record.snapshot_id.is_empty());
    record.update(&mut trx);
    assert_eq!(trx.operations()[1], Operation::Delete(key));
}

#[test]
fn context_ref_encoding() {
    assert_eq!(HummockContextRefId { id: 5 }.encode_to_vec(), vec![8, 5]);
    assert_eq!(HummockContextRefId { id: 0 }.encode_to_vec(), Vec::<u8>::new());
    assert_eq!(HummockContextRefId { id: 300 }.encode_to_vec(), vec![8, 0xac, 0x02]);
    let r = HummockContextPinnedSnapshot { context_id: 1, snapshot_id: vec![1, 300] };
    assert_eq!(r.encode_to_vec(), vec![8, 1, 18, 3, 1, 0xac, 0x02]);
}

#[test]
fn executor_result_batch_or() {
    let chunk = DataChunk { columns: vec![vec![Some(1), None]] };
    let r = ExecutorResult::Batch(chunk.clone());
    assert_eq!(r.batch_or(), Ok(chunk));
    assert_eq!(ExecutorResult::Done.batch_or(), Err(ExecutorError::ResultIsDone));
}
