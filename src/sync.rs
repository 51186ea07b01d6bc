//! Block-range windowing for the fetch loop, and the sync-state value that
//! records how far ingestion has committed.
use vstd::prelude::*;
use crate::record::{LaunchRecord, RecordStore, insert_all};
use crate::tables::LastSyncBlock;

verus! {

/// Window size of the direct-extraction fetch loop.
pub const DIRECT_SYNC_STEP: u64 = 100;

/// Window size of the queueing fetch loop.
pub const QUEUE_SYNC_STEP: u64 = 1000;

/// An inclusive range of block numbers `[start, end]`.
#[derive(Clone, Copy, Debug, PartialEq, Eq, Structural)]
pub struct Window {
    pub start: u64,
    pub end: u64,
}

impl Window {
    pub open spec fn pair(self) -> (int, int) {
        (self.start as int, self.end as int)
    }
}

/// End of the window that starts at `start`: `start + step`, cut at `tip`.
pub open spec fn window_end(start: int, tip: int, step: nat) -> int {
    if start + step <= tip {
        start + step
    } else {
        tip
    }
}

/// The windows walked after block `last` has been synced, up to `tip`: each
/// starts right after the end of the one before.
pub open spec fn windows(last: int, tip: int, step: nat) -> Seq<(int, int)>
    decreases tip - last,
{
    if last < tip {
        let e = window_end(last + 1, tip, step);
        seq![(last + 1, e)] + windows(e, tip, step)
    } else {
        Seq::empty()
    }
}

/// The block numbers `a, a + 1, ..., b - 1`.
pub open spec fn block_range(a: int, b: int) -> Seq<int> {
    if a < b {
        Seq::new((b - a) as nat, |i: int| a + i)
    } else {
        Seq::empty()
    }
}

/// Every block number of every window, window after window.
pub open spec fn visited(ws: Seq<(int, int)>) -> Seq<int>
    decreases ws.len(),
{
    if ws.len() == 0 {
        Seq::empty()
    } else {
        block_range(ws[0].0, ws[0].1 + 1) + visited(ws.drop_first())
    }
}

proof fn lemma_block_range_concat(a: int, b: int, c: int)
    requires
        a <= b <= c,
    ensures
        block_range(a, b) + block_range(b, c) == block_range(a, c),
{
    assert(block_range(a, b) + block_range(b, c) =~= block_range(a, c));
}

/// Walking the windows from `last` visits every block of `[last + 1, tip]`
/// exactly once and in increasing order, and every window is non-empty.
pub proof fn lemma_windows_cover(last: int, tip: int, step: nat)
    ensures
        visited(windows(last, tip, step)) == block_range(last + 1, tip + 1),
        forall|i: int|
            0 <= i < windows(last, tip, step).len() ==> #[trigger] windows(last, tip, step)[i].0
                <= windows(last, tip, step)[i].1,
    decreases tip - last,
{
    let ws = windows(last, tip, step);
    if last < tip {
        let e = window_end(last + 1, tip, step);
        lemma_windows_cover(e, tip, step);
        assert(ws.drop_first() =~= windows(e, tip, step));
        assert(ws[0] == (last + 1, e));
        lemma_block_range_concat(last + 1, e + 1, tip + 1);
        assert forall|i: int| 0 <= i < ws.len() implies #[trigger] ws[i].0 <= ws[i].1 by {
            if i > 0 {
                assert(ws[i] == windows(e, tip, step)[i - 1]);
            }
        }
    } else {
        assert(block_range(last + 1, tip + 1) =~= Seq::<int>::empty());
    }
}

/// Walks the block range after the last synced block up to the chain tip,
/// one window at a time.
pub struct SyncCursor {
    last_synced: u64,
    tip: u64,
    step: u64,
}

impl SyncCursor {
    /// The windows still to be walked.
    pub closed spec fn remaining(&self) -> Seq<(int, int)> {
        windows(self.last_synced as int, self.tip as int, self.step as nat)
    }

    pub closed spec fn synced(&self) -> u64 {
        self.last_synced
    }

    pub closed spec fn tip(&self) -> u64 {
        self.tip
    }

    pub fn new(last_synced: u64, tip: u64, step: u64) -> (r: SyncCursor)
        ensures
            r.remaining() == windows(last_synced as int, tip as int, step as nat),
            r.synced() == last_synced,
            r.tip() == tip,
    {
        SyncCursor { last_synced, tip, step }
    }

    /// The last block whose window has been committed.
    pub fn last_synced(&self) -> (r: u64)
        ensures
            r == self.synced(),
    {
        self.last_synced
    }

    /// The next window to fetch, or `None` once the tip has been reached.
    pub fn next_window(&self) -> (r: Option<Window>)
        ensures
            r is None <==> self.remaining().len() == 0,
            r is None <==> self.synced() >= self.tip(),
            r is Some ==> r->0.pair() == self.remaining()[0],
    {
        if self.last_synced >= self.tip {
            return None;
        }
        let start = self.last_synced + 1;
        let end = if self.step <= self.tip - start {
            start + self.step
        } else {
            self.tip
        };
        Some(Window { start, end })
    }

    /// Records that `w`, the next window, has been persisted.
    pub fn commit(&mut self, w: Window)
        requires
            old(self).remaining().len() > 0,
            w.pair() == old(self).remaining()[0],
        ensures
            final(self).synced() == w.end,
            old(self).synced() < w.end <= old(self).tip(),
            final(self).tip() == old(self).tip(),
            final(self).remaining() == old(self).remaining().drop_first(),
    {
        let ghost ws = self.remaining();
        proof {
            lemma_windows_cover(self.last_synced as int, self.tip as int, self.step as nat);
            assert(ws[0].0 <= ws[0].1);
        }
        self.last_synced = w.end;
        assert(ws.drop_first() =~= self.remaining());
    }
}

/// All the windows from `last_synced` up to `tip`, in order.
pub fn plan_windows(last_synced: u64, tip: u64, step: u64) -> (r: Vec<Window>)
    ensures
        r@.map_values(|w: Window| w.pair()) == windows(last_synced as int, tip as int, step as nat),
{
    let mut cursor = SyncCursor::new(last_synced, tip, step);
    let mut out: Vec<Window> = Vec::new();
    loop
        invariant
            cursor.tip() == tip,
            out@.map_values(|w: Window| w.pair()) + cursor.remaining() == windows(
                last_synced as int,
                tip as int,
                step as nat,
            ),
        ensures
            out@.map_values(|w: Window| w.pair()) == windows(
                last_synced as int,
                tip as int,
                step as nat,
            ),
        decreases cursor.tip() - cursor.synced(),
    {
        match cursor.next_window() {
            None => {
                assert(out@.map_values(|w: Window| w.pair()) + cursor.remaining()
                    =~= out@.map_values(|w: Window| w.pair()));
                break;
            },
            Some(w) => {
                let ghost before = out@.map_values(|x: Window| x.pair());
                let ghost rem = cursor.remaining();
                proof {
                    lemma_windows_cover(cursor.synced() as int, tip as int, step as nat);
                    assert(rem[0].0 <= rem[0].1);
                }
                cursor.commit(w);
                out.push(w);
                assert(out@.map_values(|x: Window| x.pair()) =~= before.push(w.pair()));
                assert(before.push(w.pair()) + cursor.remaining() =~= before + rem);
            },
        }
    }
    out
}


/// The sync-state value: the highest block fully processed and committed,
/// absent before the first commit.
pub struct SyncState {
    last: Option<u64>,
}

impl SyncState {
    pub closed spec fn stored(&self) -> Option<u64> {
        self.last
    }

    pub fn new() -> (r: SyncState)
        ensures
            r.stored() is None,
    {
        SyncState { last: None }
    }

    /// The stored block, or `default_start` when nothing is stored yet.
    pub fn get_last_synced(&self, default_start: u64) -> (r: u64)
        ensures
            r == self.stored().unwrap_or(default_start),
    {
        match self.last {
            Some(b) => b,
            None => default_start,
        }
    }

    /// Stores `block`, whether or not a value was stored before.
    pub fn set_last_synced(&mut self, block: u64)
        ensures
            final(self).stored() == Some(block),
    {
        self.last = Some(block);
    }
}

/// Reads the sync-state rows: `start_block` when there is none, else the
/// first row's number, or `None` when that number is negative.
pub fn get_last_sync_block(rows: &Vec<LastSyncBlock>, start_block: u64) -> (r: Option<u64>)
    ensures
        rows@.len() == 0 ==> r == Some(start_block),
        rows@.len() > 0 ==> if rows@[0].block_number >= 0 {
            r == Some(rows@[0].block_number as u64)
        } else {
            r is None
        },
{
    if rows.len() == 0 {
        return Some(start_block);
    }
    let n = rows[0].block_number;
    if n >= 0 {
        Some(n as u64)
    } else {
        None
    }
}

/// Commits the next window: its records are persisted first, and only then
/// is the sync state advanced to the window's end.
pub fn commit_window(
    store: &mut RecordStore,
    state: &mut SyncState,
    cursor: &mut SyncCursor,
    w: Window,
    batch: &Vec<LaunchRecord>,
)
    requires
        old(store).wf(),
        old(cursor).remaining().len() > 0,
        w.pair() == old(cursor).remaining()[0],
    ensures
        final(store).wf(),
        final(store)@ == insert_all(old(store)@, batch@.map_values(|r: LaunchRecord| r@)),
        final(state).stored() == Some(w.end),
        final(cursor).synced() == w.end,
        old(cursor).synced() < w.end,
        final(cursor).tip() == old(cursor).tip(),
        final(cursor).remaining() == old(cursor).remaining().drop_first(),
{
    store.insert_batch(batch);
    state.set_last_synced(w.end);
    cursor.commit(w);
}

} // verus!
