use vstd::prelude::*;

pub use crate::common::{attr, attr_is, Attribute};
use crate::common::{coins_eq, coins_view, copy_coins, BankSend, Coin};

verus! {

/// The errors of the option contract.
#[derive(Debug, Clone, PartialEq, Eq)]
pub enum ContractError {
    /// No option is stored.
    NotFound,
    /// An address does not pass the chain's validation.
    InvalidAddress,
    Unauthorized,
    OptionExpired { expired: u64 },
    CounterOfferMismatch { offer: Vec<Coin>, counter_offer: Vec<Coin> },
    OptionNotExpired { expires: u64 },
    FundsSentWithBurn,
}

impl ContractError {
    /// The message the contract reports for the error.
    pub fn message(&self) -> (r: &'static str)
        ensures
            r@ == match *self {
                ContractError::NotFound => "option not found"@,
                ContractError::InvalidAddress => "invalid address"@,
                ContractError::Unauthorized => "Unauthorized"@,
                ContractError::OptionExpired { .. } => "option expired"@,
                ContractError::CounterOfferMismatch { .. } => "must send exact counter offer"@,
                ContractError::OptionNotExpired { .. } => "option not yet expired"@,
                ContractError::FundsSentWithBurn => "don't send funds with burn"@,
            },
    {
        match self {
            ContractError::NotFound => "option not found",
            ContractError::InvalidAddress => "invalid address",
            ContractError::Unauthorized => "Unauthorized",
            ContractError::OptionExpired { .. } => "option expired",
            ContractError::CounterOfferMismatch { .. } => "must send exact counter offer",
            ContractError::OptionNotExpired { .. } => "option not yet expired",
            ContractError::FundsSentWithBurn => "don't send funds with burn",
        }
    }
}

/// An option: the creator locked `collateral`, which the owner may buy for `counter_offer`
/// before the block height `expires`.
#[derive(Debug, Clone, PartialEq, Eq)]
pub struct State {
    pub creator: String,
    pub owner: String,
    pub collateral: Vec<Coin>,
    pub counter_offer: Vec<Coin>,
    pub expires: u64,
}

/// The message that writes an option.
#[derive(Debug, Clone, PartialEq, Eq)]
pub struct InstantiateMsg {
    pub counter_offer: Vec<Coin>,
    pub expires: u64,
}

/// The messages the option contract handles.
#[derive(Debug, Clone, PartialEq, Eq)]
pub enum ExecuteMsg {
    Transfer { recipient: String },
    Execute,
    Burn,
}

/// What a handled message produced: the transfers it asks for and the attributes it reports.
#[derive(Debug, Clone, PartialEq, Eq)]
pub struct Response {
    pub messages: Vec<BankSend>,
    pub attributes: Vec<Attribute>,
}

/// Writes an option: the sender locks the coins sent as collateral. An option that has
/// already expired is refused.
pub fn instantiate(height: u64, sender: &String, funds: Vec<Coin>, msg: InstantiateMsg) -> (r:
    Result<State, ContractError>)
    ensures
        msg.expires <= height ==> r == Err::<State, ContractError>(
            ContractError::OptionExpired { expired: msg.expires },
        ),
        msg.expires > height ==> r == Ok::<State, ContractError>(
            State {
                creator: *sender,
                owner: *sender,
                collateral: funds,
                counter_offer: msg.counter_offer,
                expires: msg.expires,
            },
        ),
{
    if msg.expires <= height {
        return Err(ContractError::OptionExpired { expired: msg.expires });
    }
    Ok(
        State {
            creator: sender.clone(),
            owner: sender.clone(),
            collateral: funds,
            counter_offer: msg.counter_offer,
            expires: msg.expires,
        },
    )
}

/// What handing the stored option `c0` to `recipient` on behalf of `sender` does: the option
/// becomes `c1` and the result is `r`.
pub open spec fn transfer_outcome(
    c0: Option<State>,
    c1: Option<State>,
    sender: Seq<char>,
    recipient: String,
    recipient_valid: bool,
    r: Result<Response, ContractError>,
) -> bool {
    &&& c0 is None ==> r == Err::<Response, ContractError>(ContractError::NotFound)
    &&& c0 is Some && c0->0.owner@ != sender ==> r == Err::<Response, ContractError>(
        ContractError::Unauthorized,
    )
    &&& c0 is Some && c0->0.owner@ == sender && !recipient_valid ==> r == Err::<
        Response,
        ContractError,
    >(ContractError::InvalidAddress)
    &&& c0 is Some && c0->0.owner@ == sender && recipient_valid ==> r is Ok
    &&& r is Err ==> c1 == c0
    &&& r is Ok ==> {
        &&& c1 == Some(State { owner: recipient, ..c0->0 })
        &&& r->Ok_0.messages@.len() == 0
        &&& r->Ok_0.attributes@.len() == 2
        &&& attr_is(r->Ok_0.attributes@[0], "action"@, "transfer"@)
        &&& attr_is(r->Ok_0.attributes@[1], "owner"@, recipient@)
    }
}

/// What exercising the stored option `c0` by `sender`, who pays `funds` at block `height`,
/// does: the option becomes `c1` and the result is `r`.
pub open spec fn exercise_outcome(
    c0: Option<State>,
    c1: Option<State>,
    height: u64,
    sender: Seq<char>,
    funds: Vec<Coin>,
    r: Result<Response, ContractError>,
) -> bool {
    &&& c0 is None ==> r == Err::<Response, ContractError>(ContractError::NotFound)
    &&& r is Err ==> c1 == c0
    &&& c0 matches Some(s) ==> {
        &&& s.owner@ != sender ==> r == Err::<Response, ContractError>(ContractError::Unauthorized)
        &&& s.owner@ == sender && height >= s.expires ==> r == Err::<Response, ContractError>(
            ContractError::OptionExpired { expired: s.expires },
        )
        &&& s.owner@ == sender && height < s.expires && coins_view(funds@) != coins_view(
            s.counter_offer@,
        ) ==> (r matches Err(ContractError::CounterOfferMismatch { offer, counter_offer })
            && offer == funds && counter_offer@ == s.counter_offer@)
        &&& s.owner@ == sender && height < s.expires && coins_view(funds@) == coins_view(
            s.counter_offer@,
        ) ==> {
            &&& r is Ok
            &&& c1 is None
            &&& r->Ok_0.messages@ == seq![
                BankSend { to_address: s.creator, amount: s.counter_offer },
                BankSend { to_address: s.owner, amount: s.collateral },
            ]
            &&& r->Ok_0.attributes@.len() == 1
            &&& attr_is(r->Ok_0.attributes@[0], "action"@, "execute"@)
        }
    }
}

/// What burning the stored option `c0` at block `height`, with `funds` sent, does: the option
/// becomes `c1` and the result is `r`.
pub open spec fn burn_outcome(
    c0: Option<State>,
    c1: Option<State>,
    height: u64,
    funds: Seq<Coin>,
    r: Result<Response, ContractError>,
) -> bool {
    &&& c0 is None ==> r == Err::<Response, ContractError>(ContractError::NotFound)
    &&& r is Err ==> c1 == c0
    &&& c0 matches Some(s) ==> {
        &&& height < s.expires ==> r == Err::<Response, ContractError>(
            ContractError::OptionNotExpired { expires: s.expires },
        )
        &&& height >= s.expires && funds.len() > 0 ==> r == Err::<Response, ContractError>(
            ContractError::FundsSentWithBurn,
        )
        &&& height >= s.expires && funds.len() == 0 ==> {
            &&& r is Ok
            &&& c1 is None
            &&& r->Ok_0.messages@ == seq![BankSend { to_address: s.creator, amount: s.collateral }]
            &&& r->Ok_0.attributes@.len() == 1
            &&& attr_is(r->Ok_0.attributes@[0], "action"@, "burn"@)
        }
    }
}

/// Hands the option to `recipient`; only its owner may, and the address must be valid.
pub fn execute_transfer(
    config: &mut Option<State>,
    sender: &String,
    recipient: String,
    recipient_valid: bool,
) -> (r: Result<Response, ContractError>)
    ensures
        transfer_outcome(*old(config), *final(config), sender@, recipient, recipient_valid, r),
{
    let state = match config {
        Some(s) => s,
        None => {
            return Err(ContractError::NotFound);
        },
    };
    if *sender != state.owner {
        return Err(ContractError::Unauthorized);
    }
    if !recipient_valid {
        return Err(ContractError::InvalidAddress);
    }
    let shown = attr("owner", recipient.as_str());
    state.owner = recipient;
    let mut attributes: Vec<Attribute> = Vec::new();
    attributes.push(attr("action", "transfer"));
    attributes.push(shown);
    Ok(Response { messages: Vec::new(), attributes })
}

/// Exercises the option: the owner pays exactly the counter offer before expiry; the counter
/// offer goes to the creator, the collateral to the owner, and the option is deleted.
pub fn execute_execute(config: &mut Option<State>, height: u64, sender: &String, funds: Vec<Coin>) -> (r:
    Result<Response, ContractError>)
    ensures
        exercise_outcome(*old(config), *final(config), height, sender@, funds, r),
{
    let state = match config {
        Some(s) => s,
        None => {
            return Err(ContractError::NotFound);
        },
    };
    if *sender != state.owner {
        return Err(ContractError::Unauthorized);
    }
    if height >= state.expires {
        return Err(ContractError::OptionExpired { expired: state.expires });
    }
    if !coins_eq(&funds, &state.counter_offer) {
        return Err(
            ContractError::CounterOfferMismatch {
                offer: funds,
                counter_offer: copy_coins(&state.counter_offer),
            },
        );
    }
    let s = match config.take() {
        Some(s) => s,
        None => {
            return Err(ContractError::NotFound);
        },
    };
    let mut messages: Vec<BankSend> = Vec::new();
    messages.push(BankSend { to_address: s.creator, amount: s.counter_offer });
    messages.push(BankSend { to_address: s.owner, amount: s.collateral });
    let mut attributes: Vec<Attribute> = Vec::new();
    attributes.push(attr("action", "execute"));
    proof {
        let s0 = old(config)->0;
        assert(messages@ =~= seq![
            BankSend { to_address: s0.creator, amount: s0.counter_offer },
            BankSend { to_address: s0.owner, amount: s0.collateral },
        ]);
    }
    Ok(Response { messages, attributes })
}

/// Burns an expired option: its collateral goes back to the creator and it is deleted. No
/// funds may be sent with it.
pub fn execute_burn(config: &mut Option<State>, height: u64, funds: &Vec<Coin>) -> (r: Result<
    Response,
    ContractError,
>)
    ensures
        burn_outcome(*old(config), *final(config), height, funds@, r),
{
    let state = match config {
        Some(s) => s,
        None => {
            return Err(ContractError::NotFound);
        },
    };
    if height < state.expires {
        return Err(ContractError::OptionNotExpired { expires: state.expires });
    }
    if funds.len() > 0 {
        return Err(ContractError::FundsSentWithBurn);
    }
    let s = match config.take() {
        Some(s) => s,
        None => {
            return Err(ContractError::NotFound);
        },
    };
    let mut messages: Vec<BankSend> = Vec::new();
    messages.push(BankSend { to_address: s.creator, amount: s.collateral });
    let mut attributes: Vec<Attribute> = Vec::new();
    attributes.push(attr("action", "burn"));
    proof {
        let s0 = old(config)->0;
        assert(messages@ =~= seq![BankSend { to_address: s0.creator, amount: s0.collateral }]);
    }
    Ok(Response { messages, attributes })
}

/// Handles a message of the option contract sent by `sender` with `funds`.
pub fn execute(
    config: &mut Option<State>,
    height: u64,
    sender: &String,
    funds: Vec<Coin>,
    recipient_valid: bool,
    msg: ExecuteMsg,
) -> (r: Result<Response, ContractError>)
    ensures
        match msg {
            ExecuteMsg::Transfer { recipient } => transfer_outcome(
                *old(config),
                *final(config),
                sender@,
                recipient,
                recipient_valid,
                r,
            ),
            ExecuteMsg::Execute => exercise_outcome(*old(config), *final(config), height, sender@, funds, r),
            ExecuteMsg::Burn => burn_outcome(*old(config), *final(config), height, funds@, r),
        },
{
    match msg {
        ExecuteMsg::Transfer { recipient } => execute_transfer(config, sender, recipient, recipient_valid),
        ExecuteMsg::Execute => execute_execute(config, height, sender, funds),
        ExecuteMsg::Burn => execute_burn(config, height, &funds),
    }
}

/// The stored option.
pub fn query_config(config: &Option<State>) -> (r: Result<State, ContractError>)
    ensures
        config is None ==> r == Err::<State, ContractError>(ContractError::NotFound),
        config matches Some(s) ==> r is Ok && r->Ok_0.creator == s.creator && r->Ok_0.owner
            == s.owner && r->Ok_0.collateral@ == s.collateral@ && r->Ok_0.counter_offer@
            == s.counter_offer@ && r->Ok_0.expires == s.expires,
{
    match config {
        Some(s) => Ok(
            State {
                creator: s.creator.clone(),
                owner: s.owner.clone(),
                collateral: copy_coins(&s.collateral),
                counter_offer: copy_coins(&s.counter_offer),
                expires: s.expires,
            },
        ),
        None => Err(ContractError::NotFound),
    }
}

/// An option cannot be both exercised and burned at the same block height: exercising needs a
/// height before its expiry, burning one at or after it.
pub proof fn lemma_exercise_and_burn_exclusive(
    config: Option<State>,
    after_exercise: Option<State>,
    after_burn: Option<State>,
    height: u64,
    sender: Seq<char>,
    paid: Vec<Coin>,
    sent_with_burn: Seq<Coin>,
    exercised: Result<Response, ContractError>,
    burned: Result<Response, ContractError>,
)
    requires
        exercise_outcome(config, after_exercise, height, sender, paid, exercised),
        burn_outcome(config, after_burn, height, sent_with_burn, burned),
    ensures
        !(exercised is Ok && burned is Ok),
{
}

/// Exercising pays out exactly what the option holds: the counter offer to the creator and the
/// collateral to the owner, and the option is gone.
pub proof fn lemma_exercise_pays_out(
    config: Option<State>,
    after: Option<State>,
    height: u64,
    sender: Seq<char>,
    paid: Vec<Coin>,
    r: Result<Response, ContractError>,
)
    requires
        exercise_outcome(config, after, height, sender, paid, r),
        r is Ok,
    ensures
        config is Some,
        after is None,
        coins_view(paid@) == coins_view(config->0.counter_offer@),
        r->Ok_0.messages@.len() == 2,
        r->Ok_0.messages@[0].amount == config->0.counter_offer,
        r->Ok_0.messages@[1].amount == config->0.collateral,
{
}

} // verus!
