//! The two extraction strategies behind one interface, so that a driving
//! loop can use either.
use vstd::prelude::*;
use crate::chain::BlockTransaction;
use crate::logs::{extract_transaction_logs, tx_log_records, LogError};
use crate::record::{LaunchRecord, RecordModel};
use crate::transfer::{extract_transfer_records, tx_transfer_records};

verus! {

/// Extracts launch events from one decoded transaction.
pub trait EventExtractor {
    /// The records (or the error) that `tx` yields at this block and time.
    spec fn expected(&self, tx: BlockTransaction, block: u64, time: i64) -> Result<
        Seq<RecordModel>,
        LogError,
    >;

    fn extract(&self, tx: &BlockTransaction, block: u64, time: i64) -> (r: Result<
        Vec<LaunchRecord>,
        LogError,
    >)
        ensures
            match r {
                Ok(v) => self.expected(*tx, block, time) == Ok::<Seq<RecordModel>, LogError>(
                    v@.map_values(|x: LaunchRecord| x@),
                ),
                Err(e) => self.expected(*tx, block, time) == Err::<Seq<RecordModel>, LogError>(
                    e,
                ),
            },
    ;
}

/// Reads events from the launch program's log lines.
pub struct LogExtractor {
    pub program: String,
}

impl EventExtractor for LogExtractor {
    open spec fn expected(&self, tx: BlockTransaction, block: u64, time: i64) -> Result<
        Seq<RecordModel>,
        LogError,
    > {
        tx_log_records(tx, self.program@, block, time)
    }

    fn extract(&self, tx: &BlockTransaction, block: u64, time: i64) -> (r: Result<
        Vec<LaunchRecord>,
        LogError,
    >) {
        extract_transaction_logs(tx, self.program.as_str(), block, time)
    }
}

/// Reads events from launch instructions and the system transfers they make
/// to the receiver.
pub struct InstructionExtractor {
    pub program: String,
    pub receiver: String,
}

impl EventExtractor for InstructionExtractor {
    open spec fn expected(&self, tx: BlockTransaction, block: u64, time: i64) -> Result<
        Seq<RecordModel>,
        LogError,
    > {
        Ok(tx_transfer_records(tx, self.program@, self.receiver@, block, time))
    }

    fn extract(&self, tx: &BlockTransaction, block: u64, time: i64) -> (r: Result<
        Vec<LaunchRecord>,
        LogError,
    >) {
        Ok(extract_transfer_records(tx, self.program.as_str(), self.receiver.as_str(), block, time))
    }
}

} // verus!
