use launch_indexer::tables::LastSyncBlock;
use launch_indexer::record::{LaunchRecord, RecordStore, AMOUNT_SCALE};
use launch_indexer::sync::{
    commit_window, get_last_sync_block, plan_windows, SyncCursor, SyncState, Window,
    DIRECT_SYNC_STEP, QUEUE_SYNC_STEP,
};

fn rec(tx: &str, idx: u64, amount: u64) -> LaunchRecord {
    LaunchRecord::new("Addr1".to_string(), amount, 10, tx.to_string(), idx, 1700000000)
}

#[test]
fn same_record_twice_leaves_one_row() {
    let mut store = RecordStore::new();
    let r = rec("sig1", 0, 5);
    store.insert_batch(&vec![r.clone()]);
    store.insert_batch(&vec![r.clone()]);
    assert_eq!(store.len(), 1);
    assert!(store.contains_key(&"sig1".to_string(), 0));
}

#[test]
fn duplicate_inside_one_batch_is_collapsed() {
    let mut store = RecordStore::new();
    store.insert_batch(&vec![rec("sig1", 0, 5), rec("sig1", 0, 7), rec("sig1", 1, 9)]);
    assert_eq!(store.len(), 2);
    assert_eq!(store.get(0).launch_amount, 5);
    assert_eq!(store.get(1).log_index, 1);
}

#[test]
fn same_hash_other_index_is_a_new_row() {
    let mut store = RecordStore::new();
    store.insert_batch(&vec![rec("sig1", 0, 5)]);
    store.insert_batch(&vec![rec("sig1", 1, 5), rec("sig2", 0, 5)]);
    assert_eq!(store.len(), 3);
    assert!(!store.contains_key(&"sig2".to_string(), 1));
}

#[test]
fn repeated_batch_changes_nothing() {
    let mut store = RecordStore::new();
    let batch = vec![rec("a", 0, 1), rec("b", 0, 2), rec("a", 1, 3)];
    store.insert_batch(&batch);
    store.insert_batch(&batch);
    assert_eq!(store.len(), 3);
}

#[test]
fn empty_batch_is_a_no_op() {
    let mut store = RecordStore::new();
    store.insert_batch(&vec![]);
    assert_eq!(store.len(), 0);
    store.insert_batch(&vec![rec("a", 0, 1)]);
    store.insert_batch(&vec![]);
    assert_eq!(store.len(), 1);
    assert_eq!(store.get(0).launch_tx_hash, "a");
}

#[test]
fn amount_scale_is_ten_to_the_eighth() {
    assert_eq!(AMOUNT_SCALE, 100_000_000);
}

fn pairs(ws: &[Window]) -> Vec<(u64, u64)> {
    ws.iter().map(|w| (w.start, w.end)).collect()
}

#[test]
fn windows_from_99_to_250_step_100() {
    let ws = plan_windows(99, 250, 100);
    assert_eq!(pairs(&ws), vec![(100, 200), (201, 250)]);
}

#[test]
fn windows_visit_each_block_once_in_order() {
    for (last, tip, step) in [(0u64, 1000u64, 100u64), (5, 6, 0), (7, 7, 3), (10, 3, 4), (0, 17, 4)] {
        let ws = plan_windows(last, tip, step);
        let mut seen = vec![];
        for w in &ws {
            assert!(w.start <= w.end);
            for b in w.start..=w.end {
                seen.push(b);
            }
        }
        let want: Vec<u64> = if last < tip { (last + 1..=tip).collect() } else { vec![] };
        assert_eq!(seen, want);
    }
}

#[test]
fn windows_near_the_top_of_the_range() {
    let ws = plan_windows(u64::MAX - 3, u64::MAX, 1000);
    assert_eq!(pairs(&ws), vec![(u64::MAX - 2, u64::MAX)]);
}

#[test]
fn no_window_when_synced_to_tip() {
    let c = SyncCursor::new(250, 250, DIRECT_SYNC_STEP);
    assert!(c.next_window().is_none());
    assert_eq!(QUEUE_SYNC_STEP, 1000);
}

#[test]
fn sync_state_ends_at_tip_after_two_persists() {
    let mut store = RecordStore::new();
    let mut state = SyncState::new();
    let last = state.get_last_synced(99);
    assert_eq!(last, 99);
    let mut cursor = SyncCursor::new(last, 250, 100);
    let mut processed = vec![];
    while let Some(w) = cursor.next_window() {
        processed.push((w.start, w.end));
        let batch = vec![rec(&format!("tx{}", w.start), 0, w.end)];
        commit_window(&mut store, &mut state, &mut cursor, w, &batch);
    }
    assert_eq!(processed, vec![(100, 200), (201, 250)]);
    assert_eq!(state.get_last_synced(0), 250);
    assert_eq!(store.len(), 2);
}

#[test]
fn failed_second_persist_keeps_state_and_retries() {
    let mut store = RecordStore::new();
    let mut state = SyncState::new();
    let mut cursor = SyncCursor::new(state.get_last_synced(99), 250, 100);
    let first = cursor.next_window().unwrap();
    commit_window(&mut store, &mut state, &mut cursor, first, &vec![rec("t1", 0, 1)]);
    // the second window fails to persist: nothing is committed
    let second = cursor.next_window().unwrap();
    assert_eq!((second.start, second.end), (201, 250));
    assert_eq!(state.get_last_synced(0), 200);
    // the next run starts again from the stored state
    let retry = SyncCursor::new(state.get_last_synced(99), 250, 100);
    let w = retry.next_window().unwrap();
    assert_eq!((w.start, w.end), (201, 250));
}

#[test]
fn last_sync_block_row_is_read() {
    assert_eq!(get_last_sync_block(&vec![], 42), Some(42));
    assert_eq!(get_last_sync_block(&vec![LastSyncBlock { block_number: 7 }], 42), Some(7));
    assert_eq!(get_last_sync_block(&vec![LastSyncBlock { block_number: -1 }], 42), None);
}

#[test]
fn sync_state_upserts() {
    let mut state = SyncState::new();
    assert_eq!(state.get_last_synced(3), 3);
    state.set_last_synced(10);
    state.set_last_synced(12);
    assert_eq!(state.get_last_synced(3), 12);
}
