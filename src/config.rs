//! Process configuration.
use vstd::prelude::*;

verus! {

/// Settings read at startup.
#[derive(Clone, Debug)]
pub struct Config {
    pub port: u16,
    pub workers: u16,
    pub token_address: String,
    pub token_decimal: u32,
    pub database_url: String,
    pub db_pool_size: u16,
    pub remote_web3_url: String,
    /// Block to start from when no sync state is stored yet.
    pub sync_start_block: u64,
    /// Whether the queueing fetch loop runs.
    pub claim_start: bool,
    /// Account that launch transfers are paid to.
    pub receiver_address: String,
    /// Account of the launch program.
    pub launch_program_id: String,
    pub launch_max_amount: u64,
}

} // verus!
