//! The parts of fetched blocks and transactions that extraction reads.
use vstd::prelude::*;

verus! {

/// A top-level instruction of a transaction message.
#[derive(Clone, Debug)]
pub struct CompiledInstruction {
    /// Index of the invoked program in the transaction's account keys.
    pub program_id_index: u8,
    /// Indices of the referenced accounts in the account keys.
    pub accounts: Vec<u8>,
    pub data: Vec<u8>,
}

/// An instruction invoked by another one, as the node reports it.
#[derive(Clone, Debug)]
pub enum InnerInstruction {
    /// A compiled instruction; `data` is base58 text.
    Compiled { program_id_index: u8, accounts: Vec<u8>, data: String },
    /// An instruction the node reported in parsed form.
    Parsed,
}

/// The inner instructions that one top-level instruction invoked.
#[derive(Clone, Debug)]
pub struct InnerInstructions {
    pub index: u8,
    pub instructions: Vec<InnerInstruction>,
}

/// Execution metadata of a transaction.
#[derive(Clone, Debug)]
pub struct TransactionMeta {
    /// The transaction reported an execution error.
    pub failed: bool,
    pub log_messages: Option<Vec<String>>,
    pub inner_instructions: Option<Vec<InnerInstructions>>,
}

/// A transaction whose message could be decoded.
#[derive(Clone, Debug)]
pub struct DecodedTransaction {
    /// Signatures as base58 text; the first one identifies the transaction.
    pub signatures: Vec<String>,
    /// The message's static account keys as base58 text.
    pub account_keys: Vec<String>,
    pub instructions: Vec<CompiledInstruction>,
}

/// A transaction of a block, with what could be decoded of it.
#[derive(Clone, Debug)]
pub struct BlockTransaction {
    pub transaction: Option<DecodedTransaction>,
    pub meta: Option<TransactionMeta>,
}

/// A fetched block waiting for log-based processing.
#[derive(Clone, Debug)]
pub struct QueuedBlock {
    pub slot: u64,
    pub block_height: Option<u64>,
    pub block_time: Option<i64>,
    pub transactions: Option<Vec<BlockTransaction>>,
}

/// The text of each of a sequence of strings.
pub open spec fn texts(v: Seq<String>) -> Seq<Seq<char>> {
    v.map_values(|s: String| s@)
}

} // verus!
