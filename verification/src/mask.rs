use vstd::prelude::*;

use crate::common::{attr, attr_is, Attribute};

verus! {

/// The errors of the proxy.
#[derive(Debug, Clone, PartialEq, Eq)]
pub enum ContractError {
    Unauthorized,
    NoReflectMsg,
}

impl ContractError {
    /// The message the contract reports for the error.
    pub fn message(&self) -> (r: &'static str)
        ensures
            r@ == match *self {
                ContractError::Unauthorized => "Unauthorized"@,
                ContractError::NoReflectMsg => "Must reflect at least one message"@,
            },
    {
        match self {
            ContractError::Unauthorized => "Unauthorized",
            ContractError::NoReflectMsg => "Must reflect at least one message",
        }
    }
}

/// The proxy's owner, the only account whose messages it sends on.
#[derive(Debug, Clone, PartialEq, Eq)]
pub struct State {
    pub owner: String,
}

/// The messages the proxy handles, over the type `M` of the messages it sends on.
#[derive(Debug, Clone, PartialEq, Eq)]
pub enum HandleMsg<M> {
    ReflectMsg { msgs: Vec<M> },
    ChangeOwner { owner: String },
}

/// The answer to the owner query.
#[derive(Debug, Clone, PartialEq, Eq)]
pub struct OwnerResponse {
    pub owner: String,
}

/// What a handled message produced: the messages to send on, or the new owner, with the
/// attributes reported.
#[derive(Debug, Clone, PartialEq, Eq)]
pub enum HandleOutcome<M> {
    Reflected { msgs: Vec<M>, attributes: Vec<Attribute> },
    OwnerChanged { owner: String, attributes: Vec<Attribute> },
}

/// The outcome of reflecting `msgs`: the messages, unchanged and in order, reported with the
/// attribute `action` = `reflect`.
pub open spec fn reflected<M>(o: HandleOutcome<M>, msgs: Seq<M>) -> bool {
    &&& o matches HandleOutcome::Reflected { msgs: m, attributes: a }
    &&& m@ == msgs
    &&& a@.len() == 1
    &&& attr_is(a@[0], "action"@, "reflect"@)
}

/// The attributes of a change of owner: `action` = `change_owner` and `owner` = the new owner.
pub open spec fn owner_change_attrs(a: Seq<Attribute>, owner: Seq<char>) -> bool {
    &&& a.len() == 2
    &&& attr_is(a[0], "action"@, "change_owner"@)
    &&& attr_is(a[1], "owner"@, owner)
}

/// Opens the proxy, owned by its creator.
pub fn init(sender: &String) -> (s: State)
    ensures
        s.owner == *sender,
{
    State { owner: sender.clone() }
}

/// Sends the owner's messages on, unchanged and in order; at least one is needed.
pub fn try_reflect<M>(state: &State, sender: &String, msgs: Vec<M>) -> (r: Result<
    HandleOutcome<M>,
    ContractError,
>)
    ensures
        sender@ != state.owner@ ==> r == Err::<HandleOutcome<M>, ContractError>(
            ContractError::Unauthorized,
        ),
        sender@ == state.owner@ && msgs@.len() == 0 ==> r == Err::<HandleOutcome<M>, ContractError>(
            ContractError::NoReflectMsg,
        ),
        sender@ == state.owner@ && msgs@.len() > 0 ==> r is Ok && reflected(r->Ok_0, msgs@),
{
    if *sender != state.owner {
        return Err(ContractError::Unauthorized);
    }
    if msgs.len() == 0 {
        return Err(ContractError::NoReflectMsg);
    }
    let mut attributes: Vec<Attribute> = Vec::new();
    attributes.push(attr("action", "reflect"));
    Ok(HandleOutcome::Reflected { msgs, attributes })
}

/// Hands the proxy to a new owner; only the owner may. Returns the attributes reported.
pub fn try_change_owner(state: &mut State, sender: &String, owner: String) -> (r: Result<
    Vec<Attribute>,
    ContractError,
>)
    ensures
        old(state).owner@ != sender@ ==> r == Err::<Vec<Attribute>, ContractError>(
            ContractError::Unauthorized,
        ) && *final(state) == *old(state),
        old(state).owner@ == sender@ ==> r is Ok && owner_change_attrs(r->Ok_0@, owner@)
            && final(state).owner == owner,
{
    if *sender != state.owner {
        return Err(ContractError::Unauthorized);
    }
    let mut attributes: Vec<Attribute> = Vec::new();
    attributes.push(attr("action", "change_owner"));
    attributes.push(Attribute { key: "owner".to_owned(), value: owner.clone() });
    state.owner = owner;
    Ok(attributes)
}

/// Handles a message of the proxy sent by `sender`.
pub fn handle<M>(state: &mut State, sender: &String, msg: HandleMsg<M>) -> (r: Result<
    HandleOutcome<M>,
    ContractError,
>)
    ensures
        old(state).owner@ != sender@ ==> r == Err::<HandleOutcome<M>, ContractError>(
            ContractError::Unauthorized,
        ) && *final(state) == *old(state),
        old(state).owner@ == sender@ ==> match msg {
            HandleMsg::ReflectMsg { msgs } => *final(state) == *old(state) && (if msgs@.len() == 0 {
                r == Err::<HandleOutcome<M>, ContractError>(ContractError::NoReflectMsg)
            } else {
                r is Ok && reflected(r->Ok_0, msgs@)
            }),
            HandleMsg::ChangeOwner { owner } => final(state).owner == owner && r is Ok && (r->Ok_0 matches HandleOutcome::OwnerChanged { owner: o, attributes: a } && o == owner
                && owner_change_attrs(a@, owner@)),
        },
{
    match msg {
        HandleMsg::ReflectMsg { msgs } => try_reflect(state, sender, msgs),
        HandleMsg::ChangeOwner { owner } => {
            let shown = owner.clone();
            match try_change_owner(state, sender, owner) {
                Ok(attributes) => Ok(HandleOutcome::OwnerChanged { owner: shown, attributes }),
                Err(e) => Err(e),
            }
        },
    }
}

/// The owner of the proxy.
pub fn query_owner(state: &State) -> (r: OwnerResponse)
    ensures
        r.owner == state.owner,
{
    OwnerResponse { owner: state.owner.clone() }
}

} // verus!
