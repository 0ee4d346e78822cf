use vstd::prelude::*;

use crate::common::{copy_coins, BankSend, Coin};

verus! {

/// The errors of the escrow.
#[derive(Debug, Clone, PartialEq, Eq)]
pub enum ContractError {
    Unauthorized,
    Expired { end_height: Option<u64>, end_time: Option<u64> },
    NotExpired,
}

impl ContractError {
    /// The message the contract reports for the error.
    pub fn message(&self) -> (r: &'static str)
        ensures
            r@ == match *self {
                ContractError::Unauthorized => "unauthorized"@,
                ContractError::Expired { .. } => "escrow expired"@,
                ContractError::NotExpired => "escrow not expired"@,
            },
    {
        match self {
            ContractError::Unauthorized => "unauthorized",
            ContractError::Expired { .. } => "escrow expired",
            ContractError::NotExpired => "escrow not expired",
        }
    }
}

/// The escrow: who may release the funds, who receives them, who funded them, and the last
/// block height and time (seconds) at which the escrow is valid.
#[derive(Debug, Clone, PartialEq, Eq)]
pub struct State {
    pub arbiter: String,
    pub recipient: String,
    pub source: String,
    pub end_height: Option<u64>,
    pub end_time: Option<u64>,
}

/// The message that opens an escrow.
#[derive(Debug, Clone, PartialEq, Eq)]
pub struct InitMsg {
    pub arbiter: String,
    pub recipient: String,
    pub end_height: Option<u64>,
    pub end_time: Option<u64>,
}

/// The messages the escrow handles.
#[derive(Debug, Clone, PartialEq, Eq)]
pub enum HandleMsg {
    /// Releases the given coins to the recipient, or the whole balance when none are given.
    Approve { quantity: Option<Vec<Coin>> },
    /// Returns the whole balance to the source once the escrow has expired.
    Refund,
}

/// The answer to the arbiter query.
#[derive(Debug, Clone, PartialEq, Eq)]
pub struct ArbiterResponse {
    pub arbiter: String,
}

/// A release of funds: the action that caused it and the transfer it asks for.
#[derive(Debug, Clone, PartialEq, Eq)]
pub struct Release {
    pub action: String,
    pub send: BankSend,
}

/// The escrow has expired at the given block height and time: a bound that is set has been
/// passed.
pub open spec fn spec_expired(s: State, height: u64, time: u64) -> bool {
    ||| (s.end_height matches Some(h) && height > h)
    ||| (s.end_time matches Some(t) && time > t)
}

impl State {
    /// Whether the escrow has expired at the given block height and time (seconds).
    pub fn is_expired(&self, height: u64, time: u64) -> (r: bool)
        ensures
            r == spec_expired(*self, height, time),
    {
        let by_height = match self.end_height {
            Some(h) => height > h,
            None => false,
        };
        let by_time = match self.end_time {
            Some(t) => time > t,
            None => false,
        };
        by_height || by_time
    }
}

/// Opens an escrow funded by `sender`; one that has already expired is refused.
pub fn init(sender: &String, height: u64, time: u64, msg: InitMsg) -> (r: Result<State, ContractError>)
    ensures
        ({
            let s = State {
                arbiter: msg.arbiter,
                recipient: msg.recipient,
                source: *sender,
                end_height: msg.end_height,
                end_time: msg.end_time,
            };
            &&& spec_expired(s, height, time) ==> r == Err::<State, ContractError>(
                ContractError::Expired { end_height: msg.end_height, end_time: msg.end_time },
            )
            &&& !spec_expired(s, height, time) ==> r == Ok::<State, ContractError>(s)
        }),
{
    let state = State {
        arbiter: msg.arbiter,
        recipient: msg.recipient,
        source: sender.clone(),
        end_height: msg.end_height,
        end_time: msg.end_time,
    };
    if state.is_expired(height, time) {
        return Err(ContractError::Expired { end_height: msg.end_height, end_time: msg.end_time });
    }
    Ok(state)
}

/// A release of `amount` to `to_address` for the given action.
pub fn send_tokens(to_address: String, amount: Vec<Coin>, action: &str) -> (r: Release)
    ensures
        r.action@ == action@,
        r.send == (BankSend { to_address, amount }),
{
    Release { action: action.to_owned(), send: BankSend { to_address, amount } }
}

/// What approving a release by `sender` at block `height` and time `time` gives, the escrow
/// holding `balance`: the result `r`.
pub open spec fn approve_outcome(
    state: &State,
    height: u64,
    time: u64,
    sender: &String,
    quantity: Option<Vec<Coin>>,
    balance: &Vec<Coin>,
    r: Result<Release, ContractError>,
) -> bool {
    &&& (sender@ != state.arbiter@ ==> r == Err::<Release, ContractError>(
            ContractError::Unauthorized,
        ))
    &&& (sender@ == state.arbiter@ && spec_expired(*state, height, time) ==> r == Err::<
            Release,
            ContractError,
        >(ContractError::Expired { end_height: state.end_height, end_time: state.end_time }))
    &&& (sender@ == state.arbiter@ && !spec_expired(*state, height, time) ==> r is Ok
            && r->Ok_0.action@ == "approve"@ && r->Ok_0.send.to_address == state.recipient
            && r->Ok_0.send.amount@ == (match quantity {
            Some(q) => q@,
            None => balance@,
        }))
}

/// Releases funds to the recipient: the given quantity, or the whole `balance` of the escrow
/// when no quantity is given. Only the arbiter may, and only before the escrow expires.
pub fn try_approve(
    state: &State,
    height: u64,
    time: u64,
    sender: &String,
    quantity: Option<Vec<Coin>>,
    balance: &Vec<Coin>,
) -> (r: Result<Release, ContractError>)
    ensures
        approve_outcome(state, height, time, sender, quantity, balance, r),
{
    if *sender != state.arbiter {
        return Err(ContractError::Unauthorized);
    }
    if state.is_expired(height, time) {
        return Err(ContractError::Expired { end_height: state.end_height, end_time: state.end_time });
    }
    let amount = match quantity {
        Some(q) => q,
        None => copy_coins(balance),
    };
    let r = send_tokens(state.recipient.clone(), amount, "approve");
    Ok(r)
}

/// What asking for a refund at block `height` and time `time` gives, the escrow holding
/// `balance`: the result `r`.
pub open spec fn refund_outcome(
    state: &State,
    height: u64,
    time: u64,
    balance: &Vec<Coin>,
    r: Result<     Release,     ContractError, >,
) -> bool {
    &&& (!spec_expired(*state, height, time) ==> r == Err::<Release, ContractError>(
            ContractError::NotExpired,
        ))
    &&& (spec_expired(*state, height, time) ==> r is Ok && r->Ok_0.action@ == "refund"@
            && r->Ok_0.send.to_address == state.source && r->Ok_0.send.amount@ == balance@)
}

/// Returns the whole `balance` of the escrow to its source; anyone may, once it has expired.
pub fn try_refund(state: &State, height: u64, time: u64, balance: &Vec<Coin>) -> (r: Result<
    Release,
    ContractError,
>)
    ensures
        refund_outcome(state, height, time, balance, r),
{
    if !state.is_expired(height, time) {
        return Err(ContractError::NotExpired);
    }
    let r = send_tokens(state.source.clone(), copy_coins(balance), "refund");
    Ok(r)
}

/// Handles a message of the escrow sent by `sender`; `balance` is what the escrow holds.
pub fn handle(
    state: &State,
    height: u64,
    time: u64,
    sender: &String,
    balance: &Vec<Coin>,
    msg: HandleMsg,
) -> (r: Result<Release, ContractError>)
    ensures
        match msg {
            HandleMsg::Approve { quantity } => approve_outcome(
                state,
                height,
                time,
                sender,
                quantity,
                balance,
                r,
            ),
            HandleMsg::Refund => refund_outcome(state, height, time, balance, r),
        },
{
    match msg {
        HandleMsg::Approve { quantity } => try_approve(state, height, time, sender, quantity, balance),
        HandleMsg::Refund => try_refund(state, height, time, balance),
    }
}

/// The arbiter of the escrow.
pub fn query_arbiter(state: &State) -> (r: ArbiterResponse)
    ensures
        r.arbiter == state.arbiter,
{
    ArbiterResponse { arbiter: state.arbiter.clone() }
}

/// At no block can both a release to the recipient and a refund to the source succeed: the
/// arbiter can release only before the escrow expires, and a refund is only possible after.
pub proof fn lemma_approve_and_refund_exclusive(
    state: &State,
    height: u64,
    time: u64,
    sender: &String,
    quantity: Option<Vec<Coin>>,
    balance: &Vec<Coin>,
    approved: Result<Release, ContractError>,
    refunded: Result<Release, ContractError>,
)
    requires
        approve_outcome(state, height, time, sender, quantity, balance, approved),
        refund_outcome(state, height, time, balance, refunded),
    ensures
        !(approved is Ok && refunded is Ok),
{
}

} // verus!
