//! Rows of the relational store that the library reads or builds.
use vstd::prelude::*;

verus! {

/// The single row of the sync-state table.
#[derive(Clone, Copy, Debug, PartialEq, Eq, Structural)]
pub struct LastSyncBlock {
    pub block_number: i64,
}

/// A registered account.
#[derive(Clone, Debug)]
pub struct Account {
    pub address: String,
    pub invite_code: String,
    pub inviter: Option<String>,
    pub create_time: i64,
    pub point: i64,
}

/// A points update for an account.
#[derive(Clone, Debug)]
pub struct UserPoint {
    pub address: String,
    pub point: i64,
}

/// An address and the amount it may claim, as decimal text.
#[derive(Clone, Debug)]
pub struct AccountEligible {
    pub address: String,
    pub claimable_amount: String,
}

} // verus!
