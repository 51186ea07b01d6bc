//! The ordered hand-off of fetched blocks from the fetch loop to the log
//! processing loop.
use vstd::prelude::*;
use std::collections::VecDeque;
use crate::chain::QueuedBlock;
use crate::logs::{process_block, LogScan, block_log_records, malformed_txs};
use crate::record::LaunchRecord;

verus! {

/// Fetched blocks in arrival order, oldest first.
pub struct BlockQueue {
    blocks: VecDeque<QueuedBlock>,
}

impl View for BlockQueue {
    type V = Seq<QueuedBlock>;

    closed spec fn view(&self) -> Seq<QueuedBlock> {
        self.blocks@
    }
}

impl BlockQueue {
    pub fn new() -> (r: BlockQueue)
        ensures
            r@ == Seq::<QueuedBlock>::empty(),
    {
        BlockQueue { blocks: VecDeque::new() }
    }

    pub fn len(&self) -> (r: usize)
        ensures
            r == self@.len(),
    {
        self.blocks.len()
    }

    pub fn is_empty(&self) -> (r: bool)
        ensures
            r == (self@.len() == 0),
    {
        self.blocks.len() == 0
    }

    /// Appends a block behind all waiting ones.
    pub fn push_back(&mut self, b: QueuedBlock)
        ensures
            final(self)@ == old(self)@.push(b),
    {
        self.blocks.push_back(b);
    }

    /// Removes and returns the oldest block.
    pub fn pop_front(&mut self) -> (r: Option<QueuedBlock>)
        ensures
            old(self)@.len() == 0 ==> r is None && final(self)@ == old(self)@,
            old(self)@.len() > 0 ==> r == Some(old(self)@[0]) && final(self)@ == old(self)@.drop_first(),
    {
        self.blocks.pop_front()
    }
}

/// One tick of the log processing loop: takes the oldest queued block and
/// scans its logs, or returns `None` (the loop then idles) when the queue is
/// empty.
pub fn process_next(queue: &mut BlockQueue, program: &str) -> (r: Option<LogScan>)
    ensures
        old(queue)@.len() == 0 ==> r is None && final(queue)@ == old(queue)@,
        old(queue)@.len() > 0 ==> {
            &&& final(queue)@ == old(queue)@.drop_first()
            &&& r is Some
            &&& match old(queue)@[0].transactions {
                Some(txs) => {
                    &&& r->0.records@.map_values(|x: LaunchRecord| x@) == block_log_records(
                        txs@,
                        program@,
                        old(queue)@[0].block_height.unwrap_or(0),
                        old(queue)@[0].block_time.unwrap_or(0),
                    )
                    &&& r->0.malformed@.map_values(|i: usize| i as int) == malformed_txs(
                        txs@,
                        program@,
                        old(queue)@[0].block_height.unwrap_or(0),
                        old(queue)@[0].block_time.unwrap_or(0),
                    )
                },
                None => r->0.records@.len() == 0 && r->0.malformed@.len() == 0,
            }
        },
{
    match queue.pop_front() {
        Some(b) => Some(process_block(&b, program)),
        None => None,
    }
}

} // verus!
