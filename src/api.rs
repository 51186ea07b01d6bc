//! Requests and responses of the HTTP interface.
use vstd::prelude::*;
use std::collections::HashMap;

verus! {

#[derive(Clone, Debug)]
pub struct NewAccountReq {
    pub address: String,
    pub referred_by: Option<String>,
}

#[derive(Clone, Debug)]
pub struct BindAccountReq {
    pub address: String,
    pub sol_address: String,
    pub inviter_code: Option<String>,
}

#[derive(Clone, Debug)]
pub struct BindAccountRsp {
    pub invite_code: Option<String>,
}

#[derive(Clone, Debug)]
pub struct MintRecordsRsp {
    pub page_count: usize,
    pub mint_records: Vec<MintRecordsInfo>,
}

#[derive(Clone, Debug)]
pub struct MintRecordsInfo {
    pub address: String,
    pub amount: String,
    pub time: i64,
}

#[derive(Clone, Debug)]
pub struct AccountInvitee {
    pub invitee: String,
    pub mint_amount: String,
    pub rebate: String,
}

#[derive(Clone, Debug)]
pub struct AccountInviteesRsp {
    pub page_count: usize,
    pub invitees: Vec<AccountInvitee>,
}

#[derive(Clone, Debug)]
pub struct EligibleResult {
    pub count: u32,
    pub gas: HashMap<String, String>,
}

#[derive(Clone, Debug)]
pub struct OrbiterEligibleResp {
    pub code: u32,
    pub msg: String,
    pub result: EligibleResult,
}

#[derive(Clone, Debug)]
pub struct EligibleResp {
    pub claimable_amount: String,
}

} // verus!
