//! Decisions of binding a claim address to a chain account.
use vstd::prelude::*;
use crate::invite::{generate_invite_code, is_valid_invite_code, valid_invite_code};
use crate::tables::Account;

verus! {

/// Points credited to an inviter, and to a new account that names one.
pub const INVITE_POINTS: i64 = 1000;

/// What an optional invite code in a bind request asks for.
#[derive(Clone, Debug)]
pub enum InviterCode {
    /// No code, or an empty one.
    NotGiven,
    /// A code that is not six digits or upper-case letters.
    Malformed,
    /// A well-formed code, to be looked up.
    Lookup(String),
}

/// Sorts the invite code of a bind request.
pub fn check_inviter_code(code: &Option<String>) -> (r: InviterCode)
    ensures
        match code {
            None => r is NotGiven,
            Some(c) => if c@.len() == 0 {
                r is NotGiven
            } else if valid_invite_code(c@) {
                r matches InviterCode::Lookup(l) && l@ == c@
            } else {
                r is Malformed
            },
        },
{
    match code {
        None => InviterCode::NotGiven,
        Some(c) => {
            if c.as_str().unicode_len() == 0 {
                InviterCode::NotGiven
            } else if is_valid_invite_code(c.as_str()) {
                InviterCode::Lookup(c.clone())
            } else {
                InviterCode::Malformed
            }
        },
    }
}

/// The writes that binding a chain account entails.
#[derive(Clone, Debug)]
pub struct BindPlan {
    /// The account to create, when the chain account is new.
    pub new_account: Option<Account>,
    /// The inviter to credit, when a new account names one.
    pub inviter: Option<String>,
    /// The invite code to report back.
    pub invite_code: String,
}

/// Plans the binding of chain account `sol_address`. An account already
/// registered keeps its invite code and nothing is written for it. A new
/// account gets an invite code drawn from `key_bytes`, its inviter, and the
/// invite points when it has an inviter, who is then credited too.
pub fn plan_binding(
    sol_address: &String,
    key_bytes: [u8; 32],
    existing: &Option<Account>,
    inviter: &Option<Account>,
    now: i64,
) -> (r: BindPlan)
    ensures
        match existing {
            Some(a) => {
                &&& r.new_account is None
                &&& r.inviter is None
                &&& r.invite_code@ == a.invite_code@
            },
            None => {
                &&& r.new_account is Some
                &&& r.new_account->0.address@ == sol_address@
                &&& r.new_account->0.invite_code@ == r.invite_code@
                &&& valid_invite_code(r.invite_code@)
                &&& r.new_account->0.create_time == now
                &&& match inviter {
                    Some(i) => {
                        &&& r.inviter matches Some(n) && n@ == i.address@
                        &&& r.new_account->0.inviter matches Some(n) && n@ == i.address@
                        &&& r.new_account->0.point == INVITE_POINTS
                    },
                    None => {
                        &&& r.inviter is None
                        &&& r.new_account->0.inviter is None
                        &&& r.new_account->0.point == 0
                    },
                }
            },
        },
{
    match existing {
        Some(a) => BindPlan { new_account: None, inviter: None, invite_code: a.invite_code.clone() },
        None => {
            let invite_code = generate_invite_code(key_bytes);
            let (inv, point) = match inviter {
                Some(i) => (Some(i.address.clone()), INVITE_POINTS),
                None => (None, 0),
            };
            let account = Account {
                address: sol_address.clone(),
                invite_code: invite_code.clone(),
                inviter: match &inv {
                    Some(n) => Some(n.clone()),
                    None => None,
                },
                create_time: now,
                point,
            };
            BindPlan { new_account: Some(account), inviter: inv, invite_code }
        },
    }
}

} // verus!
