//! Launch records and the deduplicating record store.
use vstd::prelude::*;

verus! {

/// Raw amounts are divided by this factor to give display units.
pub const AMOUNT_SCALE: u64 = 100000000;

/// One detected launch (mint) event.
///
/// `launch_amount` is the raw integer amount; the display value is
/// `launch_amount / AMOUNT_SCALE`, exact.
#[derive(Clone, Debug)]
pub struct LaunchRecord {
    pub address: String,
    pub launch_amount: u64,
    pub launch_block: u64,
    pub launch_tx_hash: String,
    pub log_index: u64,
    pub launch_time: i64,
}

/// The mathematical value of a launch record.
pub struct RecordModel {
    pub address: Seq<char>,
    pub amount: u64,
    pub block: u64,
    pub tx_hash: Seq<char>,
    pub log_index: u64,
    pub time: i64,
}

impl RecordModel {
    /// The pair that identifies an event across the whole ledger.
    pub open spec fn key(self) -> (Seq<char>, u64) {
        (self.tx_hash, self.log_index)
    }
}

impl View for LaunchRecord {
    type V = RecordModel;

    open spec fn view(&self) -> RecordModel {
        RecordModel {
            address: self.address@,
            amount: self.launch_amount,
            block: self.launch_block,
            tx_hash: self.launch_tx_hash@,
            log_index: self.log_index,
            time: self.launch_time,
        }
    }
}

impl LaunchRecord {
    pub fn new(
        address: String,
        launch_amount: u64,
        launch_block: u64,
        launch_tx_hash: String,
        log_index: u64,
        launch_time: i64,
    ) -> (r: LaunchRecord)
        ensures
            r@ == (RecordModel {
                address: address@,
                amount: launch_amount,
                block: launch_block,
                tx_hash: launch_tx_hash@,
                log_index,
                time: launch_time,
            }),
    {
        LaunchRecord { address, launch_amount, launch_block, launch_tx_hash, log_index, launch_time }
    }

    /// A copy with the same value.
    pub fn duplicate(&self) -> (r: LaunchRecord)
        ensures
            r@ == self@,
    {
        LaunchRecord {
            address: self.address.clone(),
            launch_amount: self.launch_amount,
            launch_block: self.launch_block,
            launch_tx_hash: self.launch_tx_hash.clone(),
            log_index: self.log_index,
            launch_time: self.launch_time,
        }
    }
}

/// The payload of a launch-program instruction.
#[derive(Clone, Copy, Debug, PartialEq, Eq, Structural)]
pub struct Mint {
    pub amount: u64,
    pub bump: u8,
}

/// Whether some row of `rows` carries `key`.
pub open spec fn has_key(rows: Seq<RecordModel>, key: (Seq<char>, u64)) -> bool {
    exists|i: int| 0 <= i < rows.len() && (#[trigger] rows[i]).key() == key
}

/// Number of rows of `rows` that carry `key`.
pub open spec fn count_key(rows: Seq<RecordModel>, key: (Seq<char>, u64)) -> nat
    decreases rows.len(),
{
    if rows.len() == 0 {
        0
    } else {
        count_key(rows.drop_last(), key) + if rows.last().key() == key {
            1nat
        } else {
            0nat
        }
    }
}

/// No two rows share a key.
pub open spec fn keys_unique(rows: Seq<RecordModel>) -> bool {
    forall|i: int, j: int|
        0 <= i < j < rows.len() ==> (#[trigger] rows[i]).key() != (#[trigger] rows[j]).key()
}

/// The rows after inserting `batch` in order, each record skipped when its
/// key is already present.
pub open spec fn insert_all(rows: Seq<RecordModel>, batch: Seq<RecordModel>) -> Seq<RecordModel>
    decreases batch.len(),
{
    if batch.len() == 0 {
        rows
    } else {
        let before = insert_all(rows, batch.drop_last());
        if has_key(before, batch.last().key()) {
            before
        } else {
            before.push(batch.last())
        }
    }
}

proof fn lemma_insert_all_grows(rows: Seq<RecordModel>, batch: Seq<RecordModel>)
    ensures
        insert_all(rows, batch).len() >= rows.len(),
        forall|i: int| 0 <= i < rows.len() ==> insert_all(rows, batch)[i] == rows[i],
        forall|i: int|
            0 <= i < batch.len() ==> has_key(insert_all(rows, batch), (#[trigger] batch[i]).key()),
    decreases batch.len(),
{
    if batch.len() > 0 {
        let p = batch.drop_last();
        lemma_insert_all_grows(rows, p);
        let before = insert_all(rows, p);
        let after = insert_all(rows, batch);
        assert forall|i: int| 0 <= i < batch.len() implies has_key(after, (#[trigger] batch[i]).key()) by {
            if i < batch.len() - 1 {
                assert(batch[i] == p[i]);
                let w = choose|w: int| 0 <= w < before.len() && (#[trigger] before[w]).key() == p[i].key();
                assert(after[w] == before[w]);
            } else if !has_key(before, batch.last().key()) {
                assert(after[before.len() as int] == batch.last());
            }
        }
    }
}

proof fn lemma_insert_all_present(rows: Seq<RecordModel>, batch: Seq<RecordModel>)
    requires
        forall|i: int| 0 <= i < batch.len() ==> has_key(rows, (#[trigger] batch[i]).key()),
    ensures
        insert_all(rows, batch) == rows,
    decreases batch.len(),
{
    if batch.len() > 0 {
        let p = batch.drop_last();
        assert forall|i: int| 0 <= i < p.len() implies has_key(rows, (#[trigger] p[i]).key()) by {
            assert(p[i] == batch[i]);
        }
        lemma_insert_all_present(rows, p);
        assert(has_key(rows, batch[batch.len() - 1].key()));
    }
}

proof fn lemma_insert_all_unique(rows: Seq<RecordModel>, batch: Seq<RecordModel>)
    requires
        keys_unique(rows),
    ensures
        keys_unique(insert_all(rows, batch)),
    decreases batch.len(),
{
    if batch.len() > 0 {
        let p = batch.drop_last();
        lemma_insert_all_unique(rows, p);
        let before = insert_all(rows, p);
        if !has_key(before, batch.last().key()) {
            let after = before.push(batch.last());
            assert forall|i: int, j: int| 0 <= i < j < after.len() implies (#[trigger] after[i]).key()
                != (#[trigger] after[j]).key() by {
                if j == before.len() {
                    assert(after[i] == before[i]);
                }
            }
        }
    }
}

proof fn lemma_count_key_unique(rows: Seq<RecordModel>, key: (Seq<char>, u64))
    requires
        keys_unique(rows),
    ensures
        count_key(rows, key) == if has_key(rows, key) {
            1nat
        } else {
            0nat
        },
    decreases rows.len(),
{
    if rows.len() > 0 {
        let p = rows.drop_last();
        assert forall|i: int, j: int| 0 <= i < j < p.len() implies (#[trigger] p[i]).key() != (
        #[trigger] p[j]).key() by {
            assert(p[i] == rows[i] && p[j] == rows[j]);
        }
        lemma_count_key_unique(p, key);
        if has_key(p, key) {
            let w = choose|w: int| 0 <= w < p.len() && (#[trigger] p[w]).key() == key;
            assert(rows[w] == p[w]);
            assert(rows.last().key() != key);
        } else if has_key(rows, key) {
            let w = choose|w: int| 0 <= w < rows.len() && (#[trigger] rows[w]).key() == key;
            if w < p.len() {
                assert(p[w] == rows[w]);
            }
        } else {
            assert(rows[rows.len() - 1].key() != key);
        }
    }
}

/// Inserting an empty batch leaves the rows as they were.
pub proof fn lemma_empty_batch_is_noop(rows: Seq<RecordModel>)
    ensures
        insert_all(rows, Seq::empty()) == rows,
{
}

/// Inserting a batch a second time changes nothing: whatever was inserted
/// once is already there.
pub proof fn lemma_insert_idempotent(rows: Seq<RecordModel>, batch: Seq<RecordModel>)
    ensures
        insert_all(insert_all(rows, batch), batch) == insert_all(rows, batch),
{
    lemma_insert_all_grows(rows, batch);
    lemma_insert_all_present(insert_all(rows, batch), batch);
}

/// Inserting the same record twice into a store with unique keys leaves
/// exactly one row with its transaction hash and log index.
pub proof fn lemma_same_record_twice(rows: Seq<RecordModel>, r: RecordModel)
    requires
        keys_unique(rows),
    ensures
        insert_all(insert_all(rows, seq![r]), seq![r]) == insert_all(rows, seq![r]),
        count_key(insert_all(insert_all(rows, seq![r]), seq![r]), r.key()) == 1,
{
    let once = insert_all(rows, seq![r]);
    lemma_insert_idempotent(rows, seq![r]);
    lemma_insert_all_grows(rows, seq![r]);
    assert(seq![r][0] == r);
    lemma_insert_all_unique(rows, seq![r]);
    lemma_count_key_unique(once, r.key());
}

/// Append-only store of launch records, unique on `(tx_hash, log_index)`.
pub struct RecordStore {
    rows: Vec<LaunchRecord>,
}

impl View for RecordStore {
    type V = Seq<RecordModel>;

    closed spec fn view(&self) -> Seq<RecordModel> {
        self.rows@.map_values(|r: LaunchRecord| r@)
    }
}

impl RecordStore {
    pub open spec fn wf(&self) -> bool {
        keys_unique(self@)
    }

    pub fn new() -> (r: RecordStore)
        ensures
            r@ == Seq::<RecordModel>::empty(),
            r.wf(),
    {
        RecordStore { rows: Vec::new() }
    }

    pub fn len(&self) -> (r: usize)
        ensures
            r == self@.len(),
    {
        self.rows.len()
    }

    /// The stored row at position `i`, in insertion order.
    pub fn get(&self, i: usize) -> (r: &LaunchRecord)
        requires
            i < self@.len(),
        ensures
            r@ == self@[i as int],
    {
        &self.rows[i]
    }

    /// Whether a row with this transaction hash and log index is stored.
    pub fn contains_key(&self, tx_hash: &String, log_index: u64) -> (r: bool)
        ensures
            r == has_key(self@, (tx_hash@, log_index)),
    {
        let mut i: usize = 0;
        while i < self.rows.len()
            invariant
                i <= self@.len(),
                forall|k: int| 0 <= k < i ==> (#[trigger] self@[k]).key() != (tx_hash@, log_index),
            decreases self@.len() - i,
        {
            let row = &self.rows[i];
            if row.log_index == log_index && row.launch_tx_hash == *tx_hash {
                assert(self@[i as int].key() == (tx_hash@, log_index));
                return true;
            }
            i = i + 1;
        }
        false
    }

    /// Inserts the records of `batch` in order; a record whose key is already
    /// stored (or came earlier in the batch) is skipped. An empty batch
    /// changes nothing.
    pub fn insert_batch(&mut self, batch: &Vec<LaunchRecord>)
        requires
            old(self).wf(),
        ensures
            final(self).wf(),
            final(self)@ == insert_all(old(self)@, batch@.map_values(|r: LaunchRecord| r@)),
    {
        let ghost b = batch@.map_values(|r: LaunchRecord| r@);
        let mut i: usize = 0;
        while i < batch.len()
            invariant
                i <= batch@.len(),
                b == batch@.map_values(|r: LaunchRecord| r@),
                self.wf(),
                self@ == insert_all(old(self)@, b.subrange(0, i as int)),
            decreases batch@.len() - i,
        {
            let rec = &batch[i];
            let present = self.contains_key(&rec.launch_tx_hash, rec.log_index);
            assert(b.subrange(0, i + 1).drop_last() =~= b.subrange(0, i as int));
            if !present {
                let ghost before = self@;
                self.rows.push(rec.duplicate());
                assert(self@ =~= before.push(rec@));
            }
            i = i + 1;
        }
        assert(b.subrange(0, i as int) =~= b);
    }
}

} // verus!
