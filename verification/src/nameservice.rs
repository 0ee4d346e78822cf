use vstd::prelude::*;

use crate::erc20::{decimal_digits, digits_value, parse_u128, parses_as_u128, text_bytes};
use crate::strmap::StrMap;
use crate::common::utf8_len;
use vstd::string::StrSliceExecFns;

verus! {

/// The shortest name, in bytes.
pub const MIN_NAME_LENGTH: u64 = 3;

/// The longest name, in bytes.
pub const MAX_NAME_LENGTH: u64 = 64;

/// The errors of the name service.
#[derive(Debug, Clone, PartialEq, Eq)]
pub enum ContractError {
    /// An amount is not a decimal number that fits 128 bits.
    ParseError,
    Unauthorized,
    InsufficientFundsSend,
    NameNotExists { name: String },
    NameTaken { name: String },
    NameTooShort { length: u64, min_length: u64 },
    NameTooLong { length: u64, max_length: u64 },
    InvalidCharacter { c: char },
}

impl ContractError {
    /// The message the contract reports for the error.
    pub fn message(&self) -> (r: &'static str)
        ensures
            r@ == match *self {
                ContractError::ParseError => "Error while parsing string to u128"@,
                ContractError::Unauthorized => "Unauthorized"@,
                ContractError::InsufficientFundsSend => "Insufficient funds sent"@,
                ContractError::NameNotExists { .. } => "Name does not exist"@,
                ContractError::NameTaken { .. } => "Name is already taken"@,
                ContractError::NameTooShort { .. } => "Name too short"@,
                ContractError::NameTooLong { .. } => "Name too long"@,
                ContractError::InvalidCharacter { .. } => "Invalid character"@,
            },
    {
        match self {
            ContractError::ParseError => "Error while parsing string to u128",
            ContractError::Unauthorized => "Unauthorized",
            ContractError::InsufficientFundsSend => "Insufficient funds sent",
            ContractError::NameNotExists { .. } => "Name does not exist",
            ContractError::NameTaken { .. } => "Name is already taken",
            ContractError::NameTooShort { .. } => "Name too short",
            ContractError::NameTooLong { .. } => "Name too long",
            ContractError::InvalidCharacter { .. } => "Invalid character",
        }
    }
}

/// An amount of a token, the amount in decimal text.
#[derive(Debug, Clone, PartialEq, Eq)]
pub struct Coin {
    pub denom: String,
    pub amount: String,
}

/// The service's name and the prices of registering and transferring a name.
#[derive(Debug, Clone, PartialEq, Eq)]
pub struct Config {
    pub name: String,
    pub purchase_price: Option<Coin>,
    pub transfer_price: Option<Coin>,
}

/// The owner of a registered name.
#[derive(Debug, Clone, PartialEq, Eq)]
pub struct NameRecord {
    pub owner: String,
}

impl View for NameRecord {
    type V = Seq<char>;

    open spec fn view(&self) -> Seq<char> {
        self.owner@
    }
}

/// The address a name resolves to, if it is registered.
#[derive(Debug, Clone, PartialEq, Eq)]
pub struct ResolveRecordResponse {
    pub address: Option<String>,
}

/// The stored state of the name service.
pub struct Contract {
    pub config: Config,
    pub resolver: StrMap<NameRecord>,
}

/// The message that opens the service.
#[derive(Debug, Clone, PartialEq, Eq)]
pub struct InitMsg {
    pub name: String,
    pub purchase_price: Option<Coin>,
    pub transfer_price: Option<Coin>,
}

/// The messages the service handles.
#[derive(Debug, Clone, PartialEq, Eq)]
pub enum HandleMsg {
    Register { name: String },
    Transfer { name: String, to: String },
}

/// The queries the service answers.
#[derive(Debug, Clone, PartialEq, Eq)]
pub enum QueryMsg {
    ResolveRecord { name: String },
    Config,
}

/// Makes a coin.
pub fn coin(amount: &str, denom: &str) -> (r: Coin)
    ensures
        r.amount@ == amount@,
        r.denom@ == denom@,
{
    Coin { amount: amount.to_owned(), denom: denom.to_owned() }
}

/// The amount of a coin, zero when its text does not parse.
pub open spec fn amount_or_zero(c: Coin) -> nat {
    if parses_as_u128(text_bytes(c.amount@)) {
        digits_value(decimal_digits(text_bytes(c.amount@)))
    } else {
        0
    }
}

/// The amount a required coin asks for.
pub open spec fn required_amount(c: Coin) -> nat {
    digits_value(decimal_digits(text_bytes(c.amount@)))
}

/// The sent coins cover the required coin: some coin of its denomination has at least its
/// amount, or nothing was sent and nothing is required.
pub open spec fn sent_sufficient(sent: Option<Vec<Coin>>, required: Coin) -> bool {
    match sent {
        Some(coins) => exists|i: int|
            0 <= i < coins@.len() && (#[trigger] coins@[i]).denom@ == required.denom@ && amount_or_zero(
                coins@[i],
            ) >= required_amount(required),
        None => required_amount(required) == 0,
    }
}

/// Checks that the sent coins cover the required coin.
pub fn assert_sent_sufficient_coin(sent: &Option<Vec<Coin>>, required: Coin) -> (r: Result<
    (),
    ContractError,
>)
    ensures
        !parses_as_u128(text_bytes(required.amount@)) ==> r == Err::<(), ContractError>(
            ContractError::ParseError,
        ),
        parses_as_u128(text_bytes(required.amount@)) && sent_sufficient(*sent, required) ==> r
            == Ok::<(), ContractError>(()),
        parses_as_u128(text_bytes(required.amount@)) && !sent_sufficient(*sent, required) ==> r
            == Err::<(), ContractError>(ContractError::InsufficientFundsSend),
{
    let needed = match parse_u128(required.amount.as_str()) {
        Ok(a) => a,
        Err(_) => {
            return Err(ContractError::ParseError);
        },
    };
    match sent {
        Some(coins) => {
            let mut i: usize = 0;
            while i < coins.len()
                invariant
                    i <= coins@.len(),
                    *sent == Some(*coins),
                    parses_as_u128(text_bytes(required.amount@)),
                    needed == required_amount(required),
                    forall|j: int|
                        0 <= j < i ==> !((#[trigger] coins@[j]).denom@ == required.denom@
                            && amount_or_zero(coins@[j]) >= required_amount(required)),
                decreases coins@.len() - i,
            {
                let amount = match parse_u128(coins[i].amount.as_str()) {
                    Ok(a) => a,
                    Err(_) => 0,
                };
                assert(amount == amount_or_zero(coins@[i as int]));
                if coins[i].denom == required.denom && amount >= needed {
                    assert(coins@[i as int].denom@ == required.denom@);
                    let ghost cs = sent->0;
                    assert(cs@[i as int].denom@ == required.denom@ && amount_or_zero(cs@[i as int])
                        >= required_amount(required));
                    assert(sent_sufficient(*sent, required));
                    return Ok(());
                }
                i = i + 1;
            }
        },
        None => {
            if needed == 0 {
                return Ok(());
            }
        },
    }
    Err(ContractError::InsufficientFundsSend)
}

/// The character is not allowed in a name: names use lower-case ASCII letters, digits, and
/// `.`, `-` and `_`.
pub open spec fn spec_invalid_char(c: char) -> bool {
    !(('0' <= c && c <= '9') || ('a' <= c && c <= 'z') || (c == '.' || c == '-' || c == '_'))
}

/// Whether the character is not allowed in a name.
pub fn invalid_char(c: char) -> (r: bool)
    ensures
        r == spec_invalid_char(c),
{
    let is_valid = (c >= '0' && c <= '9') || (c >= 'a' && c <= 'z') || (c == '.' || c == '-' || c
        == '_');
    !is_valid
}

/// The position of the first character not allowed in a name, if any.
pub open spec fn first_invalid(s: Seq<char>, i: int) -> bool {
    &&& 0 <= i < s.len()
    &&& spec_invalid_char(s[i])
    &&& forall|j: int| 0 <= j < i ==> !spec_invalid_char(#[trigger] s[j])
}

/// The result of checking a name: too short or too long (in bytes), the first character that
/// is not allowed, or success.
pub open spec fn name_check(name: Seq<char>) -> Result<(), ContractError> {
    let n = utf8_len(name);
    if n < MIN_NAME_LENGTH {
        Err(ContractError::NameTooShort { length: n as u64, min_length: MIN_NAME_LENGTH })
    } else if n > MAX_NAME_LENGTH {
        Err(ContractError::NameTooLong { length: n as u64, max_length: MAX_NAME_LENGTH })
    } else if exists|i: int| first_invalid(name, i) {
        Err(ContractError::InvalidCharacter { c: name[choose|i: int| first_invalid(name, i)] })
    } else {
        Ok(())
    }
}

/// Checks a name: 3 to 64 bytes, of lower-case ASCII letters, digits, `.`, `-` and `_`.
pub fn validate_name(name: &str) -> (r: Result<(), ContractError>)
    ensures
        r == name_check(name@),
        r is Ok ==> MIN_NAME_LENGTH <= utf8_len(name@) <= MAX_NAME_LENGTH && (forall|j: int|
            0 <= j < name@.len() ==> !spec_invalid_char(#[trigger] name@[j])),
        utf8_len(name@) < MIN_NAME_LENGTH ==> r == Err::<(), ContractError>(
            ContractError::NameTooShort { length: utf8_len(name@) as u64, min_length: MIN_NAME_LENGTH },
        ),
        utf8_len(name@) > MAX_NAME_LENGTH ==> r == Err::<(), ContractError>(
            ContractError::NameTooLong { length: utf8_len(name@) as u64, max_length: MAX_NAME_LENGTH },
        ),
        MIN_NAME_LENGTH <= utf8_len(name@) <= MAX_NAME_LENGTH ==> {
            &&& (forall|j: int| 0 <= j < name@.len() ==> !spec_invalid_char(#[trigger] name@[j]))
                ==> r == Ok::<(), ContractError>(())
            &&& forall|i: int| first_invalid(name@, i) ==> r == Err::<(), ContractError>(
                ContractError::InvalidCharacter { c: name@[i] },
            )
        },
{
    let length = name.as_bytes().len() as u64;
    if length < MIN_NAME_LENGTH {
        Err(ContractError::NameTooShort { length, min_length: MIN_NAME_LENGTH })
    } else if length > MAX_NAME_LENGTH {
        Err(ContractError::NameTooLong { length, max_length: MAX_NAME_LENGTH })
    } else {
        let n = name.unicode_len();
        let mut i: usize = 0;
        while i < n
            invariant
                i <= n,
                n == name@.len(),
                MIN_NAME_LENGTH <= utf8_len(name@) <= MAX_NAME_LENGTH,
                forall|j: int| 0 <= j < i ==> !spec_invalid_char(#[trigger] name@[j]),
            decreases n - i,
        {
            let c = name.get_char(i);
            if invalid_char(c) {
                proof {
                    assert forall|k: int| first_invalid(name@, k) implies k == i by {
                        if k < i {
                            assert(!spec_invalid_char(name@[k]));
                        }
                        if k > i {
                            assert(!spec_invalid_char(name@[i as int]));
                        }
                    }
                    assert(first_invalid(name@, i as int));
                }
                return Err(ContractError::InvalidCharacter { c });
            }
            i = i + 1;
        }
        proof {
            assert forall|k: int| !first_invalid(name@, k) by {
                if 0 <= k < name@.len() {
                    assert(!spec_invalid_char(name@[k]));
                }
            }
        }
        Ok(())
    }
}

/// Opens the service with its name and prices.
pub fn init(msg: InitMsg) -> (c: Contract)
    ensures
        c.config == (Config {
            name: msg.name,
            purchase_price: msg.purchase_price,
            transfer_price: msg.transfer_price,
        }),
        c.resolver.wf(),
        c.resolver@ == Map::<Seq<char>, Seq<char>>::empty(),
{
    Contract {
        config: Config {
            name: msg.name,
            purchase_price: msg.purchase_price,
            transfer_price: msg.transfer_price,
        },
        resolver: StrMap::new(),
    }
}

/// The payment check of an optional price: it passes when there is no price.
pub open spec fn price_check(sent: Option<Vec<Coin>>, price: Option<Coin>) -> Result<(), ContractError> {
    match price {
        None => Ok(()),
        Some(p) => if !parses_as_u128(text_bytes(p.amount@)) {
            Err(ContractError::ParseError)
        } else if sent_sufficient(sent, p) {
            Ok(())
        } else {
            Err(ContractError::InsufficientFundsSend)
        },
    }
}

fn check_price(sent: &Option<Vec<Coin>>, price: &Option<Coin>) -> (r: Result<(), ContractError>)
    ensures
        r == price_check(*sent, *price),
{
    match price {
        Some(p) => {
            let c = Coin { denom: p.denom.clone(), amount: p.amount.clone() };
            assert(c == *p);
            assert_sent_sufficient_coin(sent, c)
        },
        None => Ok(()),
    }
}

/// What registering `name` for `sender`, who sent `sent`, does to the service `c0`, giving
/// `c1` and the result `r`.
pub open spec fn register_outcome(
    c0: Contract,
    c1: Contract,
    sender: Seq<char>,
    sent: Option<Vec<Coin>>,
    name: String,
    r: Result<(), ContractError>,
) -> bool {
    let price = price_check(sent, c0.config.purchase_price);
    &&& c1.resolver.wf()
    &&& c1.config == c0.config
    &&& r is Err ==> c1.resolver@ == c0.resolver@
    &&& name_check(name@) is Err ==> r == name_check(name@)
    &&& name_check(name@) is Ok && price is Err ==> r == price
    &&& name_check(name@) is Ok && price is Ok && c0.resolver@.contains_key(name@) ==> r == Err::<
        (),
        ContractError,
    >(ContractError::NameTaken { name })
    &&& name_check(name@) is Ok && price is Ok && !c0.resolver@.contains_key(name@) ==> r == Ok::<
        (),
        ContractError,
    >(()) && c1.resolver@ == c0.resolver@.insert(name@, sender)
}

/// Registers a name for the sender, who must pay the purchase price; a taken name is refused.
pub fn try_register(c: &mut Contract, sender: &String, sent: &Option<Vec<Coin>>, name: String) -> (r:
    Result<(), ContractError>)
    requires
        old(c).resolver.wf(),
    ensures
        register_outcome(*old(c), *final(c), sender@, *sent, name, r),
{
    if let Err(e) = validate_name(name.as_str()) {
        return Err(e);
    }
    if let Err(e) = check_price(sent, &c.config.purchase_price) {
        return Err(e);
    }
    if c.resolver.contains_key(&name) {
        return Err(ContractError::NameTaken { name });
    }
    c.resolver.insert(name, NameRecord { owner: sender.clone() });
    Ok(())
}

/// What transferring `name` to `to` on behalf of `sender`, who sent `sent`, does to the service
/// `c0`, giving `c1` and the result `r`.
pub open spec fn transfer_outcome(
    c0: Contract,
    c1: Contract,
    sender: Seq<char>,
    sent: Option<Vec<Coin>>,
    name: String,
    to: String,
    r: Result<(), ContractError>,
) -> bool {
    let price = price_check(sent, c0.config.transfer_price);
    &&& c1.resolver.wf()
    &&& c1.config == c0.config
    &&& r is Err ==> c1.resolver@ == c0.resolver@
    &&& price is Err ==> r == price
    &&& price is Ok && !c0.resolver@.contains_key(name@) ==> r == Err::<(), ContractError>(
        ContractError::NameNotExists { name },
    )
    &&& price is Ok && c0.resolver@.contains_key(name@) && c0.resolver@[name@] != sender ==> r
        == Err::<(), ContractError>(ContractError::Unauthorized)
    &&& price is Ok && c0.resolver@.contains_key(name@) && c0.resolver@[name@] == sender ==> r
        == Ok::<(), ContractError>(()) && c1.resolver@ == c0.resolver@.insert(name@, to@)
}

/// Transfers a name to a new owner; only its owner may, paying the transfer price.
pub fn try_transfer(
    c: &mut Contract,
    sender: &String,
    sent: &Option<Vec<Coin>>,
    name: String,
    to: String,
) -> (r: Result<(), ContractError>)
    requires
        old(c).resolver.wf(),
    ensures
        transfer_outcome(*old(c), *final(c), sender@, *sent, name, to, r),
{
    if let Err(e) = check_price(sent, &c.config.transfer_price) {
        return Err(e);
    }
    let is_owner = match c.resolver.get(&name) {
        Some(record) => record.owner == *sender,
        None => {
            return Err(ContractError::NameNotExists { name });
        },
    };
    if !is_owner {
        return Err(ContractError::Unauthorized);
    }
    c.resolver.insert(name, NameRecord { owner: to });
    Ok(())
}

/// Handles a message of the service sent by `sender` with the given coins.
pub fn handle(c: &mut Contract, sender: &String, sent: &Option<Vec<Coin>>, msg: HandleMsg) -> (r:
    Result<(), ContractError>)
    requires
        old(c).resolver.wf(),
    ensures
        match msg {
            HandleMsg::Register { name } => register_outcome(*old(c), *final(c), sender@, *sent, name, r),
            HandleMsg::Transfer { name, to } => transfer_outcome(
                *old(c),
                *final(c),
                sender@,
                *sent,
                name,
                to,
                r,
            ),
        },
{
    match msg {
        HandleMsg::Register { name } => try_register(c, sender, sent, name),
        HandleMsg::Transfer { name, to } => try_transfer(c, sender, sent, name, to),
    }
}

/// The address a name resolves to, if it is registered.
pub fn query_resolver(c: &Contract, name: &String) -> (r: ResolveRecordResponse)
    requires
        c.resolver.wf(),
    ensures
        c.resolver@.contains_key(name@) ==> r.address is Some && r.address->0@ == c.resolver@[name@],
        !c.resolver@.contains_key(name@) ==> r.address is None,
{
    match c.resolver.get(name) {
        Some(record) => ResolveRecordResponse { address: Some(record.owner.clone()) },
        None => ResolveRecordResponse { address: None },
    }
}

/// A name that was registered resolves to the account that registered it, and every other
/// name resolves as it did before.
pub proof fn lemma_register_then_resolve(
    c0: Contract,
    c1: Contract,
    sender: Seq<char>,
    sent: Option<Vec<Coin>>,
    name: String,
    r: Result<(), ContractError>,
)
    requires
        register_outcome(c0, c1, sender, sent, name, r),
        r is Ok,
    ensures
        c1.resolver@.contains_key(name@),
        c1.resolver@[name@] == sender,
        forall|other: Seq<char>|
            other != name@ ==> (#[trigger] c1.resolver@.contains_key(other)
                == c0.resolver@.contains_key(other)),
        forall|other: Seq<char>|
            other != name@ && c0.resolver@.contains_key(other) ==> #[trigger] c1.resolver@[other]
                == c0.resolver@[other],
{
}

/// Only a name's owner can transfer it: after a successful transfer the name resolves to the
/// new owner, and the sender was its owner before.
pub proof fn lemma_transfer_needs_owner(
    c0: Contract,
    c1: Contract,
    sender: Seq<char>,
    sent: Option<Vec<Coin>>,
    name: String,
    to: String,
    r: Result<(), ContractError>,
)
    requires
        transfer_outcome(c0, c1, sender, sent, name, to, r),
        r is Ok,
    ensures
        c0.resolver@.contains_key(name@),
        c0.resolver@[name@] == sender,
        c1.resolver@[name@] == to@,
{
}

/// A character that names may use: a lower-case ASCII letter, a digit, `.`, `-` or `_`.
pub open spec fn name_char_allowed(c: char) -> bool {
    ('a' <= c && c <= 'z') || ('0' <= c && c <= '9') || c == '.' || c == '-' || c == '_'
}

/// A name of 3 to 64 bytes is accepted exactly when every one of its characters is a
/// lower-case ASCII letter, a digit, `.`, `-` or `_`; otherwise the first other character is
/// reported, and it is indeed none of those.
pub proof fn lemma_name_characters(name: Seq<char>)
    requires
        MIN_NAME_LENGTH <= utf8_len(name) <= MAX_NAME_LENGTH,
    ensures
        (forall|j: int| 0 <= j < name.len() ==> name_char_allowed(#[trigger] name[j]))
            <==> name_check(name) == Ok::<(), ContractError>(()),
        name_check(name) matches Err(ContractError::InvalidCharacter { c }) ==> !name_char_allowed(c)
            && name.contains(c),
{
    if forall|j: int| 0 <= j < name.len() ==> name_char_allowed(#[trigger] name[j]) {
        assert forall|i: int| !first_invalid(name, i) by {
            if 0 <= i < name.len() {
                assert(name_char_allowed(name[i]));
            }
        }
    } else {
        let j = choose|j: int| 0 <= j < name.len() && !name_char_allowed(#[trigger] name[j]);
        lemma_first_invalid_exists(name, j);
    }
    if exists|i: int| first_invalid(name, i) {
        let i = choose|i: int| first_invalid(name, i);
        assert(name[i] == name[i]);
    }
}

proof fn lemma_first_invalid_exists(name: Seq<char>, j: int)
    requires
        0 <= j < name.len(),
        spec_invalid_char(name[j]),
    ensures
        exists|i: int| first_invalid(name, i),
    decreases j,
{
    if forall|k: int| 0 <= k < j ==> !spec_invalid_char(#[trigger] name[k]) {
        assert(first_invalid(name, j));
    } else {
        let k = choose|k: int| 0 <= k < j && spec_invalid_char(#[trigger] name[k]);
        lemma_first_invalid_exists(name, k);
    }
}

} // verus!
