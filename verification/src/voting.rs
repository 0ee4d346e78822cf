use vstd::prelude::*;

use crate::common::{utf8_len, BankSend, BlockInfo, Coin};
use crate::strmap::StrMap;
use vstd::string::StrSliceExecFns;

verus! {

/// The denomination of the default voting token.
pub const VOTING_TOKEN: &'static str = "voting_token";

/// How many blocks a poll runs when it is created without an end height.
pub const DEFAULT_END_HEIGHT_BLOCKS: u64 = 100_800;

/// The least amount that staking must send.
pub const MIN_STAKE_AMOUNT: u128 = 1;

/// The shortest poll description, in bytes.
pub const MIN_DESC_LENGTH: u64 = 3;

/// The longest poll description, in bytes.
pub const MAX_DESC_LENGTH: u64 = 64;

/// The errors of the voting contract.
#[derive(Debug, Clone, PartialEq, Eq)]
pub enum ContractError {
    /// A stored item that the call needs is absent.
    NotFound,
    InsufficientFunds,
    ExcessiveWithdraw { max_amount: u128 },
    DescriptionTooShort { min_desc_length: u64 },
    DescriptionTooLong { max_desc_length: u64 },
    PollNoStake,
    PollNotExist,
    PollCannotEndInPast,
    PollNotCreator { creator: String, sender: String },
    PollNotInProgress,
    PoolVotingPeriodNotStarted { start_height: u64 },
    PollVotingPeriodNotExpired { expire_height: u64 },
    PollSenderVoted,
    PollInsufficientStake,
    PollQuorumPercentageMismatch { quorum_percentage: u8 },
}

impl ContractError {
    /// The message the contract reports for the error.
    pub fn message(&self) -> (r: &'static str)
        ensures
            r@ == match *self {
                ContractError::NotFound => "cw_voting::state::Poll not found"@,
                ContractError::InsufficientFunds => "Insufficient funds sent"@,
                ContractError::ExcessiveWithdraw { .. } => "User is trying to withdraw too many tokens."@,
                ContractError::DescriptionTooShort { .. } => "Description too short"@,
                ContractError::DescriptionTooLong { .. } => "Description too long"@,
                ContractError::PollNoStake => "Nothing staked"@,
                ContractError::PollNotExist => "Poll does not exist"@,
                ContractError::PollCannotEndInPast => "Poll cannot end in the past"@,
                ContractError::PollNotCreator { .. } => "User is not the creator of the poll."@,
                ContractError::PollNotInProgress => "Poll is not in progress"@,
                ContractError::PoolVotingPeriodNotStarted { .. } => "Voting period has not started."@,
                ContractError::PollVotingPeriodNotExpired { .. } => "Voting period has not expired."@,
                ContractError::PollSenderVoted => "User has already voted."@,
                ContractError::PollInsufficientStake => "User does not have enough staked tokens."@,
                ContractError::PollQuorumPercentageMismatch { .. } => "quorum_percentage must be 0 to 100"@,
            },
    {
        match self {
            ContractError::NotFound => "cw_voting::state::Poll not found",
            ContractError::InsufficientFunds => "Insufficient funds sent",
            ContractError::ExcessiveWithdraw { .. } => "User is trying to withdraw too many tokens.",
            ContractError::DescriptionTooShort { .. } => "Description too short",
            ContractError::DescriptionTooLong { .. } => "Description too long",
            ContractError::PollNoStake => "Nothing staked",
            ContractError::PollNotExist => "Poll does not exist",
            ContractError::PollCannotEndInPast => "Poll cannot end in the past",
            ContractError::PollNotCreator { .. } => "User is not the creator of the poll.",
            ContractError::PollNotInProgress => "Poll is not in progress",
            ContractError::PoolVotingPeriodNotStarted { .. } => "Voting period has not started.",
            ContractError::PollVotingPeriodNotExpired { .. } => "Voting period has not expired.",
            ContractError::PollSenderVoted => "User has already voted.",
            ContractError::PollInsufficientStake => "User does not have enough staked tokens.",
            ContractError::PollQuorumPercentageMismatch { .. } => "quorum_percentage must be 0 to 100",
        }
    }
}

/// The contract's configuration and totals.
#[derive(Debug, Clone, PartialEq, Eq)]
pub struct State {
    pub denom: String,
    pub owner: String,
    pub poll_count: u64,
    pub staked_tokens: u128,
}

/// Where a poll stands.
#[derive(Debug, Clone, Copy, PartialEq, Eq, Structural)]
pub enum PollStatus {
    InProgress,
    Passed,
    Rejected,
}

/// One cast vote: the choice and the weight of stake behind it.
#[derive(Debug, Clone, PartialEq, Eq)]
pub struct Voter {
    pub vote: String,
    pub weight: u128,
}

/// A poll.
#[derive(Debug, Clone, PartialEq, Eq)]
pub struct Poll {
    pub creator: String,
    pub status: PollStatus,
    pub quorum_percentage: Option<u8>,
    pub yes_votes: u128,
    pub no_votes: u128,
    pub voters: Vec<String>,
    pub voter_info: Vec<Voter>,
    pub end_height: u64,
    pub start_height: Option<u64>,
    pub description: String,
}

/// A voter's stake: the balance, the weight locked in each poll voted on, and the polls.
#[derive(Debug, Clone, PartialEq, Eq, Default)]
pub struct TokenManager {
    pub token_balance: u128,
    pub locked_tokens: Vec<(u64, u128)>,
    pub participated_polls: Vec<u64>,
}

/// A voter's stake as plain values.
pub struct TokenManagerView {
    pub token_balance: u128,
    pub locked_tokens: Seq<(u64, u128)>,
    pub participated_polls: Seq<u64>,
}

impl View for TokenManager {
    type V = TokenManagerView;

    open spec fn view(&self) -> TokenManagerView {
        TokenManagerView {
            token_balance: self.token_balance,
            locked_tokens: self.locked_tokens@,
            participated_polls: self.participated_polls@,
        }
    }
}

/// The stake of an address without an account.
pub open spec fn empty_stake() -> TokenManagerView {
    TokenManagerView { token_balance: 0, locked_tokens: Seq::empty(), participated_polls: Seq::empty() }
}

/// The whole stored state of the voting contract.
pub struct Contract {
    pub state: State,
    /// The polls; the poll with id `k` is at position `k - 1`.
    pub polls: Vec<Poll>,
    /// The stake of each address.
    pub bank: StrMap<TokenManager>,
}

/// A poll as the poll query reports it.
#[derive(Debug, Clone, PartialEq, Eq)]
pub struct PollResponse {
    pub creator: String,
    pub status: PollStatus,
    pub quorum_percentage: Option<u8>,
    pub end_height: Option<u64>,
    pub start_height: Option<u64>,
    pub description: String,
}

/// The response to a poll's creation.
#[derive(Debug, Clone, Copy, PartialEq, Eq)]
pub struct CreatePollResponse {
    pub poll_id: u64,
}

/// The number of polls.
#[derive(Debug, Clone, Copy, PartialEq, Eq)]
pub struct PollCountResponse {
    pub poll_count: u64,
}

/// A voter's staked balance.
#[derive(Debug, Clone, Copy, PartialEq, Eq)]
pub struct TokenStakeResponse {
    pub token_balance: u128,
}

/// The stake an address has, an empty one if it has none.
pub open spec fn stake_of(c: Contract, addr: Seq<char>) -> TokenManagerView {
    if c.bank@.contains_key(addr) {
        c.bank@[addr]
    } else {
        empty_stake()
    }
}

/// The sum of the staked balances of the accounts listed in `keys`.
pub open spec fn balance_sum(keys: Seq<Seq<char>>, bank: Map<Seq<char>, TokenManagerView>) -> int
    decreases keys.len(),
{
    if keys.len() == 0 {
        0
    } else {
        balance_sum(keys.drop_last(), bank) + bank[keys.last()].token_balance
    }
}

/// The sum of the staked balances of all accounts.
pub open spec fn total_balance(bank: StrMap<TokenManager>) -> int {
    balance_sum(bank.key_order(), bank@)
}

proof fn lemma_balance_sum_frame(
    keys: Seq<Seq<char>>,
    b1: Map<Seq<char>, TokenManagerView>,
    b2: Map<Seq<char>, TokenManagerView>,
)
    requires
        forall|i: int| 0 <= i < keys.len() ==> b1[#[trigger] keys[i]].token_balance == b2[keys[i]].token_balance,
    ensures
        balance_sum(keys, b1) == balance_sum(keys, b2),
    decreases keys.len(),
{
    if keys.len() > 0 {
        let t = keys.drop_last();
        assert forall|i: int| 0 <= i < t.len() implies b1[#[trigger] t[i]].token_balance
            == b2[t[i]].token_balance by {
            assert(t[i] == keys[i]);
        }
        lemma_balance_sum_frame(t, b1, b2);
        assert(keys.last() == keys[keys.len() - 1]);
    }
}

proof fn lemma_balance_sum_update(
    keys: Seq<Seq<char>>,
    b: Map<Seq<char>, TokenManagerView>,
    a: Seq<char>,
    tm: TokenManagerView,
)
    requires
        keys.no_duplicates(),
        keys.contains(a),
    ensures
        balance_sum(keys, b.insert(a, tm)) == balance_sum(keys, b) - b[a].token_balance
            + tm.token_balance,
    decreases keys.len(),
{
    let t = keys.drop_last();
    let b2 = b.insert(a, tm);
    let n = keys.len() - 1;
    assert(keys.last() == keys[n]);
    if keys[n] == a {
        assert forall|i: int| 0 <= i < t.len() implies b[#[trigger] t[i]].token_balance
            == b2[t[i]].token_balance by {
            assert(t[i] == keys[i]);
        }
        lemma_balance_sum_frame(t, b, b2);
    } else {
        let i = choose|i: int| 0 <= i < keys.len() && keys[i] == a;
        assert(t[i] == a);
        assert(t.no_duplicates()) by {
            assert forall|x: int, y: int| 0 <= x < t.len() && 0 <= y < t.len() && x != y implies t[x]
                != t[y] by {
                assert(t[x] == keys[x] && t[y] == keys[y]);
            }
        }
        lemma_balance_sum_update(t, b, a, tm);
    }
}

proof fn lemma_balance_sum_push(
    keys: Seq<Seq<char>>,
    b: Map<Seq<char>, TokenManagerView>,
    a: Seq<char>,
    tm: TokenManagerView,
)
    requires
        !keys.contains(a),
    ensures
        balance_sum(keys.push(a), b.insert(a, tm)) == balance_sum(keys, b) + tm.token_balance,
{
    let b2 = b.insert(a, tm);
    assert(keys.push(a).drop_last() =~= keys);
    assert forall|i: int| 0 <= i < keys.len() implies b[#[trigger] keys[i]].token_balance
        == b2[keys[i]].token_balance by {
        if keys[i] == a {
            assert(keys.contains(a));
        }
    }
    lemma_balance_sum_frame(keys, b, b2);
}

proof fn lemma_balance_le_sum(keys: Seq<Seq<char>>, b: Map<Seq<char>, TokenManagerView>, a: Seq<char>)
    requires
        keys.contains(a),
    ensures
        b[a].token_balance <= balance_sum(keys, b),
    decreases keys.len(),
{
    let t = keys.drop_last();
    let n = keys.len() - 1;
    assert(keys.last() == keys[n]);
    if keys[n] != a {
        let i = choose|i: int| 0 <= i < keys.len() && keys[i] == a;
        assert(t[i] == a);
        lemma_balance_le_sum(t, b, a);
    } else {
        lemma_balance_sum_nonneg(t, b);
    }
}

proof fn lemma_balance_sum_nonneg(keys: Seq<Seq<char>>, b: Map<Seq<char>, TokenManagerView>)
    ensures
        balance_sum(keys, b) >= 0,
    decreases keys.len(),
{
    if keys.len() > 0 {
        lemma_balance_sum_nonneg(keys.drop_last(), b);
    }
}

/// The staked total of a contract is the sum of its accounts' staked balances, so no account
/// holds more than the total. Every handler keeps this: it is part of `wf`, which each
/// handler's outcome states of the contract it leaves.
pub proof fn lemma_staked_total_is_sum_of_balances(c: Contract)
    requires
        c.wf(),
    ensures
        c.state.staked_tokens == total_balance(c.bank),
        forall|a: Seq<char>| #[trigger] c.bank@.contains_key(a) ==> c.bank@[a].token_balance
            <= c.state.staked_tokens,
{
    assert forall|a: Seq<char>| #[trigger] c.bank@.contains_key(a) implies c.bank@[a].token_balance
        <= c.state.staked_tokens by {
        c.bank.lemma_key_order();
        lemma_balance_le_sum(c.bank.key_order(), c.bank@, a);
    }
}

/// Storing `tm` under `a` moves the total balance by the change of that account's balance.
proof fn lemma_total_after_insert(
    b0: StrMap<TokenManager>,
    b1: StrMap<TokenManager>,
    a: Seq<char>,
    tm: TokenManagerView,
)
    requires
        b0.wf(),
        b1@ == b0@.insert(a, tm),
        b0@.contains_key(a) ==> b1.key_order() == b0.key_order(),
        !b0@.contains_key(a) ==> b1.key_order() == b0.key_order().push(a),
    ensures
        total_balance(b1) == total_balance(b0) - (if b0@.contains_key(a) {
            b0@[a].token_balance as int
        } else {
            0
        }) + tm.token_balance,
{
    b0.lemma_key_order();
    if b0@.contains_key(a) {
        lemma_balance_sum_update(b0.key_order(), b0@, a, tm);
    } else {
        lemma_balance_sum_push(b0.key_order(), b0@, a, tm);
    }
}

/// Each lock on an account's stake is for a poll that is still in progress and that the account
/// voted in, and weighs no more than the account's balance.
pub open spec fn locks_in_progress(c: Contract) -> bool {
    forall|a: Seq<char>, i: int|
        #![trigger c.bank@[a].locked_tokens[i]]
        c.bank@.contains_key(a) && 0 <= i < c.bank@[a].locked_tokens.len() ==> {
            let pid = c.bank@[a].locked_tokens[i].0;
            &&& 1 <= pid <= c.polls@.len()
            &&& c.polls@[pid - 1].status == PollStatus::InProgress
            &&& has_voted(c.polls@[pid - 1], a)
            &&& c.bank@[a].locked_tokens[i].1 <= c.bank@[a].token_balance
        }
}

impl Contract {
    /// The contract's invariant: one poll per id handed out, every voter of a poll has an
    /// account, the staked total is the sum of the accounts' balances, and stake is locked only
    /// by polls in progress.
    pub open spec fn wf(&self) -> bool {
        &&& self.bank.wf()
        &&& self.state.staked_tokens == total_balance(self.bank)
        &&& locks_in_progress(*self)
        &&& self.polls@.len() == self.state.poll_count
        &&& forall|p: int, j: int|
            0 <= p < self.polls@.len() && 0 <= j < self.polls@[p].voters@.len()
                ==> self.bank@.contains_key(#[trigger] self.polls@[p].voters@[j]@)
    }
}

/// Opens the contract with the given staking denomination; the sender becomes the owner.
pub fn init(sender: String, denom: String) -> (c: Contract)
    ensures
        c.wf(),
        c.state == (State { denom, owner: sender, poll_count: 0, staked_tokens: 0 }),
        c.polls@.len() == 0,
        c.bank@ == Map::<Seq<char>, TokenManagerView>::empty(),
{
    Contract {
        state: State { denom, owner: sender, poll_count: 0, staked_tokens: 0 },
        polls: Vec::new(),
        bank: StrMap::new(),
    }
}

/// Some coin of the required denomination covers the required amount.
pub open spec fn sends_enough(sent: Seq<Coin>, denom: Seq<char>, amount: u128) -> bool {
    exists|i: int| 0 <= i < sent.len() && (#[trigger] sent[i]).denom@ == denom && sent[i].amount >= amount
}

/// The first coin of the denomination among the sent coins.
pub open spec fn first_of_denom(sent: Seq<Coin>, denom: Seq<char>, i: int) -> bool {
    &&& 0 <= i < sent.len()
    &&& sent[i].denom@ == denom
    &&& forall|j: int| 0 <= j < i ==> (#[trigger] sent[j]).denom@ != denom
}

/// Checks that the sent coins cover the required coin, if one is required and it is not zero.
pub fn validate_sent_sufficient_coin(sent: &Vec<Coin>, required: Option<Coin>) -> (r: Result<
    (),
    ContractError,
>)
    ensures
        (r is Ok) == (match required {
            Some(c) => c.amount == 0 || sends_enough(sent@, c.denom@, c.amount),
            None => true,
        }),
        r is Err ==> r == Err::<(), ContractError>(ContractError::InsufficientFunds),
{
    match &required {
        Some(req) => {
            assert(required == Some(*req));
            if req.amount > 0 {
                let mut i: usize = 0;
                while i < sent.len()
                    invariant
                        i <= sent@.len(),
                        required == Some(*req),
                        forall|j: int|
                            0 <= j < i ==> !((#[trigger] sent@[j]).denom@ == req.denom@
                                && sent@[j].amount >= req.amount),
                    decreases sent@.len() - i,
                {
                    if sent[i].denom == req.denom && sent[i].amount >= req.amount {
                        assert(sent@[i as int].denom@ == req.denom@);
                        assert(sends_enough(sent@, req.denom@, req.amount));
                        return Ok(());
                    }
                    i = i + 1;
                }
                Err(ContractError::InsufficientFunds)
            } else {
                Ok(())
            }
        },
        None => Ok(()),
    }
}

fn find_denom(sent: &Vec<Coin>, denom: &String) -> (r: Option<usize>)
    ensures
        match r {
            Some(i) => first_of_denom(sent@, denom@, i as int),
            None => forall|j: int| 0 <= j < sent@.len() ==> (#[trigger] sent@[j]).denom@ != denom@,
        },
{
    let mut i: usize = 0;
    while i < sent.len()
        invariant
            i <= sent@.len(),
            forall|j: int| 0 <= j < i ==> (#[trigger] sent@[j]).denom@ != denom@,
        decreases sent@.len() - i,
    {
        if sent[i].denom == *denom {
            return Some(i);
        }
        i = i + 1;
    }
    None
}

fn copy_locks(v: &Vec<(u64, u128)>) -> (r: Vec<(u64, u128)>)
    ensures
        r@ == v@,
{
    let mut out: Vec<(u64, u128)> = Vec::new();
    let mut i: usize = 0;
    while i < v.len()
        invariant
            i <= v@.len(),
            out@ == v@.subrange(0, i as int),
        decreases v@.len() - i,
    {
        out.push(v[i]);
        i = i + 1;
        assert(out@ =~= v@.subrange(0, i as int));
    }
    assert(v@.subrange(0, v@.len() as int) =~= v@);
    out
}

fn copy_ids(v: &Vec<u64>) -> (r: Vec<u64>)
    ensures
        r@ == v@,
{
    let mut out: Vec<u64> = Vec::new();
    let mut i: usize = 0;
    while i < v.len()
        invariant
            i <= v@.len(),
            out@ == v@.subrange(0, i as int),
        decreases v@.len() - i,
    {
        out.push(v[i]);
        i = i + 1;
        assert(out@ =~= v@.subrange(0, i as int));
    }
    assert(v@.subrange(0, v@.len() as int) =~= v@);
    out
}

fn copy_manager(t: &TokenManager) -> (r: TokenManager)
    ensures
        r@ == t@,
{
    TokenManager {
        token_balance: t.token_balance,
        locked_tokens: copy_locks(&t.locked_tokens),
        participated_polls: copy_ids(&t.participated_polls),
    }
}

fn load_manager(bank: &StrMap<TokenManager>, addr: &String) -> (r: TokenManager)
    requires
        bank.wf(),
    ensures
        bank@.contains_key(addr@) ==> r@ == bank@[addr@],
        !bank@.contains_key(addr@) ==> r@ == empty_stake(),
{
    match bank.get(addr) {
        Some(t) => copy_manager(t),
        None => {
            let t = TokenManager {
                token_balance: 0,
                locked_tokens: Vec::new(),
                participated_polls: Vec::new(),
            };
            assert(t@.locked_tokens =~= Seq::<(u64, u128)>::empty());
            assert(t@.participated_polls =~= Seq::<u64>::empty());
            t
        },
    }
}

proof fn lemma_insert_keeps_voters(c1: Contract, c2: Contract, addr: Seq<char>, tm: TokenManagerView)
    requires
        c1.wf(),
        c2.bank.wf(),
        c2.bank@ == c1.bank@.insert(addr, tm),
        c2.polls@ == c1.polls@,
        c2.state.poll_count == c1.state.poll_count,
        c2.state.staked_tokens == total_balance(c2.bank),
        tm.locked_tokens == stake_of(c1, addr).locked_tokens,
        forall|i: int| 0 <= i < tm.locked_tokens.len() ==> (#[trigger] tm.locked_tokens[i]).1
            <= tm.token_balance,
    ensures
        c2.wf(),
{
    assert forall|p: int, j: int|
        0 <= p < c2.polls@.len() && 0 <= j < c2.polls@[p].voters@.len() implies c2.bank@.contains_key(
        #[trigger] c2.polls@[p].voters@[j]@,
    ) by {
        assert(c1.bank@.contains_key(c1.polls@[p].voters@[j]@));
    }
    assert forall|a: Seq<char>, i: int|
        #![trigger c2.bank@[a].locked_tokens[i]]
        c2.bank@.contains_key(a) && 0 <= i < c2.bank@[a].locked_tokens.len() implies {
            let pid = c2.bank@[a].locked_tokens[i].0;
            &&& 1 <= pid <= c2.polls@.len()
            &&& c2.polls@[pid - 1].status == PollStatus::InProgress
            &&& has_voted(c2.polls@[pid - 1], a)
            &&& c2.bank@[a].locked_tokens[i].1 <= c2.bank@[a].token_balance
        } by {
        assert(c1.bank@.contains_key(a));
        assert(c2.bank@[a].locked_tokens[i] == c1.bank@[a].locked_tokens[i]);
    }
}

/// A vote's new lock keeps every lock on a poll in progress that its holder voted in.
proof fn lemma_vote_keeps_locks(
    c0: Contract,
    c1: Contract,
    sender: String,
    k: int,
    lock: (u64, u128),
    tm: TokenManagerView,
)
    requires
        locks_in_progress(c0),
        0 <= k < c0.polls@.len(),
        lock.0 == k + 1,
        c0.polls@[k].status == PollStatus::InProgress,
        c1.bank@ == c0.bank@.insert(sender@, tm),
        tm.locked_tokens == stake_of(c0, sender@).locked_tokens.push(lock),
        tm.token_balance == stake_of(c0, sender@).token_balance,
        lock.1 <= tm.token_balance,
        c1.polls@.len() == c0.polls@.len(),
        forall|j: int| 0 <= j < c0.polls@.len() && j != k ==> #[trigger] c1.polls@[j] == c0.polls@[j],
        c1.polls@[k].status == c0.polls@[k].status,
        c1.polls@[k].voters@ == c0.polls@[k].voters@.push(sender),
    ensures
        locks_in_progress(c1),
{
    assert forall|a: Seq<char>, i: int|
        #![trigger c1.bank@[a].locked_tokens[i]]
        c1.bank@.contains_key(a) && 0 <= i < c1.bank@[a].locked_tokens.len() implies {
            let pid = c1.bank@[a].locked_tokens[i].0;
            &&& 1 <= pid <= c1.polls@.len()
            &&& c1.polls@[pid - 1].status == PollStatus::InProgress
            &&& has_voted(c1.polls@[pid - 1], a)
            &&& c1.bank@[a].locked_tokens[i].1 <= c1.bank@[a].token_balance
        } by {
        let locks = c1.bank@[a].locked_tokens;
        if a == sender@ && i == locks.len() - 1 {
            let vs = c1.polls@[k].voters@;
            assert(vs[vs.len() - 1]@ == a);
        } else {
            assert(c0.bank@.contains_key(a));
            assert(locks[i] == c0.bank@[a].locked_tokens[i]);
            let pid = locks[i].0;
            let p0 = c0.polls@[pid - 1];
            let j = choose|j: int| 0 <= j < p0.voters@.len() && (#[trigger] p0.voters@[j])@ == a;
            if pid - 1 == k {
                assert(c1.polls@[k].voters@[j] == p0.voters@[j]);
            } else {
                assert(c1.polls@[pid - 1] == p0);
            }
        }
    }
}

/// What is left of the locks after removing a poll's comes from the locks and is not for that
/// poll.
proof fn lemma_unlocked_entries(locks: Seq<(u64, u128)>, poll_id: u64, i: int)
    requires
        0 <= i < unlocked(locks, poll_id).len(),
    ensures
        unlocked(locks, poll_id)[i].0 != poll_id,
        exists|j: int| 0 <= j < locks.len() && locks[j] == unlocked(locks, poll_id)[i],
    decreases locks.len(),
{
    let t = locks.drop_last();
    let rest = unlocked(t, poll_id);
    if locks.last().0 == poll_id || i < rest.len() {
        lemma_unlocked_entries(t, poll_id, i);
        let j = choose|j: int| 0 <= j < t.len() && t[j] == rest[i];
        assert(locks[j] == t[j]);
    } else {
        assert(locks[locks.len() - 1] == unlocked(locks, poll_id)[i]);
    }
}

/// Ending a poll and unlocking its voters keeps every remaining lock on a poll in progress that
/// its holder voted in.
proof fn lemma_end_keeps_locks(c0: Contract, c1: Contract, k: int, poll_id: u64)
    requires
        locks_in_progress(c0),
        0 <= k < c0.polls@.len(),
        poll_id == k + 1,
        c1.bank@ == bank_after_unlock(c0.bank@, c0.polls@[k].voters@, poll_id),
        c1.polls@.len() == c0.polls@.len(),
        forall|j: int| 0 <= j < c0.polls@.len() && j != k ==> #[trigger] c1.polls@[j] == c0.polls@[j],
    ensures
        locks_in_progress(c1),
{
    let voters = c0.polls@[k].voters@;
    assert forall|a: Seq<char>, i: int|
        #![trigger c1.bank@[a].locked_tokens[i]]
        c1.bank@.contains_key(a) && 0 <= i < c1.bank@[a].locked_tokens.len() implies {
            let pid = c1.bank@[a].locked_tokens[i].0;
            &&& 1 <= pid <= c1.polls@.len()
            &&& c1.polls@[pid - 1].status == PollStatus::InProgress
            &&& has_voted(c1.polls@[pid - 1], a)
            &&& c1.bank@[a].locked_tokens[i].1 <= c1.bank@[a].token_balance
        } by {
        let locks0 = c0.bank@[a].locked_tokens;
        let lock = c1.bank@[a].locked_tokens[i];
        if exists|j: int| 0 <= j < voters.len() && (#[trigger] voters[j])@ == a {
            lemma_unlocked_entries(locks0, poll_id, i);
            let j0 = choose|j: int| 0 <= j < locks0.len() && locks0[j] == lock;
            assert(c0.bank@[a].locked_tokens[j0] == lock);
            assert(c1.polls@[lock.0 - 1] == c0.polls@[lock.0 - 1]);
        } else {
            assert(c0.bank@[a].locked_tokens[i] == lock);
            if lock.0 - 1 == k {
                assert(has_voted(c0.polls@[k], a));
            }
            assert(c1.polls@[lock.0 - 1] == c0.polls@[lock.0 - 1]);
        }
    }
}

/// What staking the coins `sent` by `sender` does: the contract `c0` becomes `c1` and the
/// result is `r`.
pub open spec fn stake_outcome(
    c0: Contract,
    c1: Contract,
    sender: &String,
    sent: &Vec<Coin>,
    r: Result<     (),     ContractError, >,
) -> bool {
    &&& (c1.wf())
    &&& (r is Err <==> !sends_enough(sent@, c0.state.denom@, MIN_STAKE_AMOUNT))
    &&& (r is Err ==> r == Err::<(), ContractError>(ContractError::InsufficientFunds) && c1
            == c0)
    &&& (r is Ok ==> exists|i: int|
            first_of_denom(sent@, c0.state.denom@, i) && {
                let amount = sent@[i].amount;
                let before = stake_of(c0, sender@);
                &&& c1.state == State {
                    staked_tokens: (c0.state.staked_tokens + amount) as u128,
                    ..c0.state
                }
                &&& c1.polls == c0.polls
                &&& c1.bank@ == c0.bank@.insert(
                    sender@,
                    TokenManagerView {
                        token_balance: (before.token_balance + amount) as u128,
                        ..before
                    },
                )
            })
}

/// Stakes the sent coins of the voting denomination: the first such coin is added to the
/// sender's balance and to the contract's total.
pub fn stake_voting_tokens(c: &mut Contract, sender: &String, sent: &Vec<Coin>) -> (r: Result<
    (),
    ContractError,
>)
    requires
        old(c).wf(),
        forall|i: int|
            first_of_denom(sent@, old(c).state.denom@, i) ==> stake_of(*old(c), sender@).token_balance
                + #[trigger] sent@[i].amount <= u128::MAX && old(c).state.staked_tokens
                + sent@[i].amount <= u128::MAX,
    ensures
        stake_outcome(*old(c), *final(c), sender, sent, r),
{
    let req = Coin { denom: c.state.denom.clone(), amount: MIN_STAKE_AMOUNT };
    validate_sent_sufficient_coin(sent, Some(req))?;
    let idx = match find_denom(sent, &c.state.denom) {
        Some(i) => i,
        None => {
            proof {
                let i = choose|i: int|
                    0 <= i < sent@.len() && (#[trigger] sent@[i]).denom@ == c.state.denom@
                        && sent@[i].amount >= MIN_STAKE_AMOUNT;
                assert(sent@[i].denom@ != c.state.denom@);
            }
            return Err(ContractError::InsufficientFunds);
        },
    };
    let amount = sent[idx].amount;
    let mut tm = load_manager(&c.bank, sender);
    assert(first_of_denom(sent@, c.state.denom@, idx as int));
    tm.token_balance = tm.token_balance + amount;
    c.state.staked_tokens = c.state.staked_tokens + amount;
    let ghost c1 = *old(c);
    let ghost tmv = tm@;
    c.bank.insert(sender.clone(), tm);
    proof {
        lemma_total_after_insert(c1.bank, c.bank, sender@, tmv);
        lemma_insert_keeps_voters(c1, *c, sender@, tmv);
    }
    Ok(())
}

/// The largest amount locked in any poll, zero if none.
pub open spec fn max_locked(locks: Seq<(u64, u128)>) -> u128
    decreases locks.len(),
{
    if locks.len() == 0 {
        0
    } else {
        let rest = max_locked(locks.drop_last());
        if locks.last().1 > rest {
            locks.last().1
        } else {
            rest
        }
    }
}

proof fn lemma_max_locked(locks: Seq<(u64, u128)>)
    ensures
        forall|i: int| 0 <= i < locks.len() ==> (#[trigger] locks[i]).1 <= max_locked(locks),
        locks.len() > 0 ==> exists|i: int| 0 <= i < locks.len() && (#[trigger] locks[i]).1 == max_locked(locks),
    decreases locks.len(),
{
    if locks.len() > 0 {
        let t = locks.drop_last();
        lemma_max_locked(t);
        assert forall|i: int| 0 <= i < locks.len() implies (#[trigger] locks[i]).1 <= max_locked(
            locks,
        ) by {
            if i < locks.len() - 1 {
                assert(locks[i] == t[i]);
            }
        }
        if locks.last().1 <= max_locked(t) && t.len() > 0 {
            let i = choose|i: int| 0 <= i < t.len() && (#[trigger] t[i]).1 == max_locked(t);
            assert(locks[i] == t[i]);
        }
    }
}

/// Finds the largest amount locked in the polls the voter took part in.
pub fn locked_amount(tm: &TokenManager) -> (r: u128)
    ensures
        r == max_locked(tm.locked_tokens@),
{
    let mut best: u128 = 0;
    let mut i: usize = 0;
    while i < tm.locked_tokens.len()
        invariant
            i <= tm.locked_tokens@.len(),
            best == max_locked(tm.locked_tokens@.take(i as int)),
        decreases tm.locked_tokens@.len() - i,
    {
        proof {
            assert(tm.locked_tokens@.take(i + 1).drop_last() =~= tm.locked_tokens@.take(i as int));
        }
        if tm.locked_tokens[i].1 > best {
            best = tm.locked_tokens[i].1;
        }
        i = i + 1;
    }
    proof {
        assert(tm.locked_tokens@.take(tm.locked_tokens@.len() as int) =~= tm.locked_tokens@);
    }
    best
}

/// What withdrawing `amount` (all that is not locked when none is given) by `sender` does: the
/// contract `c0` becomes `c1` and the result is `r`.
pub open spec fn withdraw_outcome(
    c0: Contract,
    c1: Contract,
    sender: &String,
    amount: Option<u128>,
    r: Result<BankSend, ContractError>,
) -> bool {
    &&& (c1.wf())
    &&& (r is Err ==> c1 == c0)
    &&& (!c0.bank@.contains_key(sender@) ==> r == Err::<BankSend, ContractError>(
            ContractError::PollNoStake,
        ))
    &&& (c0.bank@.contains_key(sender@) ==> {
            let tm = c0.bank@[sender@];
            let locked = max_locked(tm.locked_tokens);
            let w = match amount {
                Some(a) => a,
                None => tm.token_balance,
            };
            &&& locked + w > tm.token_balance ==> r == Err::<BankSend, ContractError>(
                ContractError::ExcessiveWithdraw { max_amount: (tm.token_balance - locked) as u128 },
            )
            &&& locked + w <= tm.token_balance ==> {
                &&& r is Ok
                &&& r->Ok_0.to_address == *sender
                &&& r->Ok_0.amount@.len() == 1
                &&& r->Ok_0.amount@[0].amount == w
                &&& r->Ok_0.amount@[0].denom == c0.state.denom
                &&& c1.state == State {
                    staked_tokens: (c0.state.staked_tokens - w) as u128,
                    ..c0.state
                }
                &&& c1.polls == c0.polls
                &&& c1.bank@ == c0.bank@.insert(
                    sender@,
                    TokenManagerView { token_balance: (tm.token_balance - w) as u128, ..tm },
                )
                &&& c1.bank@[sender@].token_balance >= locked
            }
        })
}

/// Withdraws the given amount, or the whole balance, of the sender's stake; what stays locked
/// in polls the sender voted in cannot be withdrawn. Returns the transfer to the sender.
pub fn withdraw_voting_tokens(c: &mut Contract, sender: &String, amount: Option<u128>) -> (r:
    Result<BankSend, ContractError>)
    requires
        old(c).wf(),
        old(c).bank@.contains_key(sender@) ==> max_locked(old(c).bank@[sender@].locked_tokens)
            + match amount {
            Some(a) => a,
            None => old(c).bank@[sender@].token_balance,
        } <= u128::MAX,
    ensures
        withdraw_outcome(*old(c), *final(c), sender, amount, r),
{
    if !c.bank.contains_key(sender) {
        return Err(ContractError::PollNoStake);
    }
    let mut tm = load_manager(&c.bank, sender);
    let largest_staked = locked_amount(&tm);
    let withdraw_amount = match amount {
        Some(a) => a,
        None => tm.token_balance,
    };
    proof {
        lemma_locked_within_balance(*old(c), sender@);
        lemma_staked_total_is_sum_of_balances(*old(c));
    }
    if largest_staked + withdraw_amount > tm.token_balance {
        return Err(ContractError::ExcessiveWithdraw { max_amount: tm.token_balance - largest_staked });
    }
    proof {
        lemma_max_locked(tm@.locked_tokens);
    }
    tm.token_balance = tm.token_balance - withdraw_amount;
    c.state.staked_tokens = c.state.staked_tokens - withdraw_amount;
    let ghost c1 = *old(c);
    let ghost tmv = tm@;
    c.bank.insert(sender.clone(), tm);
    proof {
        lemma_total_after_insert(c1.bank, c.bank, sender@, tmv);
        lemma_insert_keeps_voters(c1, *c, sender@, tmv);
    }
    let mut coins: Vec<Coin> = Vec::new();
    coins.push(Coin { denom: c.state.denom.clone(), amount: withdraw_amount });
    Ok(BankSend { to_address: sender.clone(), amount: coins })
}

/// Staking keeps the staked total equal to the sum of the balances: a stake adds the same
/// amount to the sender's balance and to the total, and a refused stake changes neither.
pub proof fn lemma_stake_keeps_staked_total(
    c0: Contract,
    c1: Contract,
    sender: String,
    sent: Vec<Coin>,
    r: Result<(), ContractError>,
)
    requires
        c0.wf(),
        forall|i: int|
            first_of_denom(sent@, c0.state.denom@, i) ==> stake_of(c0, sender@).token_balance
                + #[trigger] sent@[i].amount <= u128::MAX && c0.state.staked_tokens
                + sent@[i].amount <= u128::MAX,
        stake_outcome(c0, c1, &sender, &sent, r),
    ensures
        c0.state.staked_tokens == total_balance(c0.bank),
        c1.state.staked_tokens == total_balance(c1.bank),
        c1.state.staked_tokens - c0.state.staked_tokens == stake_of(c1, sender@).token_balance
            - stake_of(c0, sender@).token_balance,
{
    if r is Ok {
        let i = choose|i: int|
            first_of_denom(sent@, c0.state.denom@, i) && {
                let amount = sent@[i].amount;
                let before = stake_of(c0, sender@);
                &&& c1.state == State {
                    staked_tokens: (c0.state.staked_tokens + amount) as u128,
                    ..c0.state
                }
                &&& c1.polls == c0.polls
                &&& c1.bank@ == c0.bank@.insert(
                    sender@,
                    TokenManagerView {
                        token_balance: (before.token_balance + amount) as u128,
                        ..before
                    },
                )
            };
        assert(first_of_denom(sent@, c0.state.denom@, i));
    }
}

/// No account's stake is locked beyond its balance: the largest weight it has locked in a poll
/// in progress is at most its balance.
pub proof fn lemma_locked_within_balance(c: Contract, a: Seq<char>)
    requires
        c.wf(),
        c.bank@.contains_key(a),
    ensures
        max_locked(c.bank@[a].locked_tokens) <= c.bank@[a].token_balance,
{
    let locks = c.bank@[a].locked_tokens;
    lemma_max_locked(locks);
    if locks.len() > 0 {
        let i = choose|i: int| 0 <= i < locks.len() && (#[trigger] locks[i]).1 == max_locked(locks);
        assert(c.bank@[a].locked_tokens[i] == locks[i]);
    }
}

/// A voter cannot withdraw stake that a poll in progress holds: after a successful withdrawal
/// the voter's balance still covers the weight of each of its locks, and each lock is for a poll
/// in progress that the voter voted in.
pub proof fn lemma_withdraw_keeps_locked_weight(
    c0: Contract,
    c1: Contract,
    voter: String,
    amount: Option<u128>,
    r: Result<BankSend, ContractError>,
    i: int,
)
    requires
        c0.wf(),
        c0.bank@.contains_key(voter@),
        0 <= i < c0.bank@[voter@].locked_tokens.len(),
        withdraw_outcome(c0, c1, &voter, amount, r),
    ensures
        ({
            let pid = c0.bank@[voter@].locked_tokens[i].0;
            &&& 1 <= pid <= c0.polls@.len()
            &&& c0.polls@[pid - 1].status == PollStatus::InProgress
            &&& has_voted(c0.polls@[pid - 1], voter@)
        }),
        r is Ok ==> c1.bank@[voter@].token_balance >= c0.bank@[voter@].locked_tokens[i].1,
{
    lemma_max_locked(c0.bank@[voter@].locked_tokens);
    assert(c0.bank@[voter@].locked_tokens[i].1 <= max_locked(c0.bank@[voter@].locked_tokens));
}

/// Once every poll a voter took part in has ended, none of its stake is locked: withdrawing
/// without an amount succeeds and hands back the voter's whole balance.
pub proof fn lemma_withdraw_all_after_polls_end(
    c0: Contract,
    c1: Contract,
    voter: String,
    r: Result<BankSend, ContractError>,
)
    requires
        c0.wf(),
        c0.bank@.contains_key(voter@),
        forall|k: int|
            0 <= k < c0.polls@.len() && has_voted(#[trigger] c0.polls@[k], voter@)
                ==> c0.polls@[k].status != PollStatus::InProgress,
        withdraw_outcome(c0, c1, &voter, None, r),
    ensures
        r is Ok,
        r->Ok_0.amount@[0].amount == c0.bank@[voter@].token_balance,
        c1.bank@[voter@].token_balance == 0,
{
    let locks = c0.bank@[voter@].locked_tokens;
    if locks.len() > 0 {
        assert(c0.bank@[voter@].locked_tokens[0] == locks[0]);
        let pid = locks[0].0;
        assert(has_voted(c0.polls@[pid - 1], voter@));
        assert(false);
    }
    assert(max_locked(locks) == 0);
    lemma_staked_total_is_sum_of_balances(c0);
}

/// Rejects a description shorter than 3 or longer than 64 bytes.
pub fn validate_description(description: &String) -> (r: Result<(), ContractError>)
    ensures
        utf8_len(description@) < MIN_DESC_LENGTH ==> r == Err::<(), ContractError>(
            ContractError::DescriptionTooShort { min_desc_length: MIN_DESC_LENGTH },
        ),
        utf8_len(description@) > MAX_DESC_LENGTH ==> r == Err::<(), ContractError>(
            ContractError::DescriptionTooLong { max_desc_length: MAX_DESC_LENGTH },
        ),
        MIN_DESC_LENGTH <= utf8_len(description@) <= MAX_DESC_LENGTH ==> r == Ok::<
            (),
            ContractError,
        >(()),
{
    let len = description.as_str().as_bytes().len();
    if (len as u64) < MIN_DESC_LENGTH {
        Err(ContractError::DescriptionTooShort { min_desc_length: MIN_DESC_LENGTH })
    } else if (len as u64) > MAX_DESC_LENGTH {
        Err(ContractError::DescriptionTooLong { max_desc_length: MAX_DESC_LENGTH })
    } else {
        Ok(())
    }
}

/// Rejects a quorum percentage above 100.
pub fn validate_quorum_percentage(quorum_percentage: Option<u8>) -> (r: Result<(), ContractError>)
    ensures
        match quorum_percentage {
            Some(qp) => if qp > 100 {
                r == Err::<(), ContractError>(
                    ContractError::PollQuorumPercentageMismatch { quorum_percentage: qp },
                )
            } else {
                r == Ok::<(), ContractError>(())
            },
            None => r == Ok::<(), ContractError>(()),
        },
{
    match quorum_percentage {
        Some(qp) => {
            if qp > 100 {
                return Err(ContractError::PollQuorumPercentageMismatch { quorum_percentage: qp });
            }
            Ok(())
        },
        None => Ok(()),
    }
}

/// Rejects an end height that is not after the current block.
pub fn validate_end_height(end_height: Option<u64>, block: &BlockInfo) -> (r: Result<
    (),
    ContractError,
>)
    ensures
        match end_height {
            Some(e) => if block.height >= e {
                r == Err::<(), ContractError>(ContractError::PollCannotEndInPast)
            } else {
                r == Ok::<(), ContractError>(())
            },
            None => r == Ok::<(), ContractError>(()),
        },
{
    match end_height {
        Some(e) => {
            if block.height >= e {
                Err(ContractError::PollCannotEndInPast)
            } else {
                Ok(())
            }
        },
        None => Ok(()),
    }
}

/// What creating a poll at `block` on behalf of `sender` does: the contract `c0` becomes `c1`
/// and the result is `r`.
pub open spec fn create_poll_outcome(
    c0: Contract,
    c1: Contract,
    block: &BlockInfo,
    sender: &String,
    quorum_percentage: Option<u8>,
    description: String,
    start_height: Option<u64>,
    end_height: Option<u64>,
    r: Result<u64, ContractError>,
) -> bool {
    &&& (c1.wf())
    &&& (r is Err ==> c1 == c0)
    &&& ((quorum_percentage matches Some(qp) && qp > 100) ==> r == Err::<u64, ContractError>(
            ContractError::PollQuorumPercentageMismatch { quorum_percentage: quorum_percentage->0 },
        ))
    &&& (!(quorum_percentage matches Some(qp) && qp > 100) ==> {
            &&& (end_height matches Some(e) && block.height >= e) ==> r == Err::<u64, ContractError>(
                ContractError::PollCannotEndInPast,
            )
            &&& !(end_height matches Some(e) && block.height >= e) ==> {
                &&& utf8_len(description@) < MIN_DESC_LENGTH ==> r == Err::<u64, ContractError>(
                    ContractError::DescriptionTooShort { min_desc_length: MIN_DESC_LENGTH },
                )
                &&& utf8_len(description@) > MAX_DESC_LENGTH ==> r == Err::<u64, ContractError>(
                    ContractError::DescriptionTooLong { max_desc_length: MAX_DESC_LENGTH },
                )
                &&& MIN_DESC_LENGTH <= utf8_len(description@) <= MAX_DESC_LENGTH ==> {
                    let id = (c0.state.poll_count + 1) as u64;
                    let p = c1.polls@.last();
                    &&& r == Ok::<u64, ContractError>(id)
                    &&& c1.state == State { poll_count: id, ..c0.state }
                    &&& c1.bank@ == c0.bank@
                    &&& c1.polls@.len() == c0.polls@.len() + 1
                    &&& c1.polls@.drop_last() == c0.polls@
                    &&& p.creator == *sender
                    &&& p.status == PollStatus::InProgress
                    &&& p.quorum_percentage == quorum_percentage
                    &&& p.yes_votes == 0
                    &&& p.no_votes == 0
                    &&& p.voters@.len() == 0
                    &&& p.voter_info@.len() == 0
                    &&& p.end_height == match end_height {
                        Some(e) => e,
                        None => (block.height + DEFAULT_END_HEIGHT_BLOCKS) as u64,
                    }
                    &&& p.start_height == start_height
                    &&& p.description == description
                }
            }
        })
}

/// Creates a poll with the next id. Without an end height the poll ends
/// `DEFAULT_END_HEIGHT_BLOCKS` after the current block.
pub fn create_poll(
    c: &mut Contract,
    block: &BlockInfo,
    sender: &String,
    quorum_percentage: Option<u8>,
    description: String,
    start_height: Option<u64>,
    end_height: Option<u64>,
) -> (r: Result<u64, ContractError>)
    requires
        old(c).wf(),
        old(c).state.poll_count < u64::MAX,
        end_height is None ==> block.height + DEFAULT_END_HEIGHT_BLOCKS <= u64::MAX,
    ensures
        create_poll_outcome(*old(c), *final(c), block, sender, quorum_percentage, description, start_height, end_height, r),
{
    validate_quorum_percentage(quorum_percentage)?;
    validate_end_height(end_height, block)?;
    validate_description(&description)?;
    let poll_id = c.state.poll_count + 1;
    let end = match end_height {
        Some(e) => e,
        None => block.height + DEFAULT_END_HEIGHT_BLOCKS,
    };
    let new_poll = Poll {
        creator: sender.clone(),
        status: PollStatus::InProgress,
        quorum_percentage,
        yes_votes: 0,
        no_votes: 0,
        voters: Vec::new(),
        voter_info: Vec::new(),
        end_height: end,
        start_height,
        description,
    };
    let ghost old_polls = c.polls@;
    c.polls.push(new_poll);
    c.state.poll_count = poll_id;
    proof {
        assert(c.polls@.drop_last() =~= old_polls);
        assert forall|p: int, j: int|
            0 <= p < c.polls@.len() && 0 <= j < c.polls@[p].voters@.len() implies c.bank@.contains_key(
            #[trigger] c.polls@[p].voters@[j]@,
        ) by {
            assert(p < old_polls.len());
            assert(c.polls@[p] == old_polls[p]);
        }
    }
    Ok(poll_id)
}

/// The address has cast a vote in the poll.
pub open spec fn has_voted(p: Poll, voter: Seq<char>) -> bool {
    exists|j: int| 0 <= j < p.voters@.len() && (#[trigger] p.voters@[j])@ == voter
}

fn has_voted_exec(voter: &String, p: &Poll) -> (r: bool)
    ensures
        r == has_voted(*p, voter@),
{
    let mut i: usize = 0;
    while i < p.voters.len()
        invariant
            i <= p.voters@.len(),
            forall|j: int| 0 <= j < i ==> (#[trigger] p.voters@[j])@ != voter@,
        decreases p.voters@.len() - i,
    {
        if p.voters[i] == *voter {
            return true;
        }
        i = i + 1;
    }
    false
}

/// What casting `vote` with `weight` on poll `poll_id` by `sender` does: the contract `c0`
/// becomes `c1` and the result is `r`.
pub open spec fn cast_vote_outcome(
    c0: Contract,
    c1: Contract,
    sender: &String,
    poll_id: u64,
    vote: String,
    weight: u128,
    r: Result<(), ContractError>,
) -> bool {
    &&& (c1.wf())
    &&& (r is Err ==> c1 == c0)
    &&& (poll_id == 0 || c0.state.poll_count > poll_id ==> r == Err::<(), ContractError>(
            ContractError::PollNotExist,
        ))
    &&& (!(poll_id == 0 || c0.state.poll_count > poll_id) ==> {
            let k = poll_id - 1;
            let p = c0.polls@[k];
            let tm = stake_of(c0, sender@);
            &&& poll_id > c0.polls@.len() ==> r == Err::<(), ContractError>(
                ContractError::NotFound,
            )
            &&& poll_id <= c0.polls@.len() ==> {
                &&& p.status != PollStatus::InProgress ==> r == Err::<(), ContractError>(
                    ContractError::PollNotInProgress,
                )
                &&& p.status == PollStatus::InProgress && has_voted(p, sender@) ==> r == Err::<
                    (),
                    ContractError,
                >(ContractError::PollSenderVoted)
                &&& p.status == PollStatus::InProgress && !has_voted(p, sender@) && tm.token_balance
                    < weight ==> r == Err::<(), ContractError>(ContractError::PollInsufficientStake)
                &&& p.status == PollStatus::InProgress && !has_voted(p, sender@) && tm.token_balance
                    >= weight ==> {
                    let q = c1.polls@[k];
                    &&& r is Ok
                    &&& c1.state == c0.state
                    &&& c1.bank@ == c0.bank@.insert(
                        sender@,
                        TokenManagerView {
                            token_balance: tm.token_balance,
                            locked_tokens: tm.locked_tokens.push((poll_id, weight)),
                            participated_polls: tm.participated_polls.push(poll_id),
                        },
                    )
                    &&& c1.polls@.len() == c0.polls@.len()
                    &&& forall|j: int|
                        0 <= j < c0.polls@.len() && j != k ==> #[trigger] c1.polls@[j]
                            == c0.polls@[j]
                    &&& q == Poll { voters: q.voters, voter_info: q.voter_info, ..p }
                    &&& q.voters@ == p.voters@.push(*sender)
                    &&& q.voter_info@ == p.voter_info@.push(Voter { vote, weight })
                }
            }
        })
}

/// Casts a vote with the given weight of the sender's stake; the weight stays locked until the
/// poll ends.
pub fn cast_vote(c: &mut Contract, sender: &String, poll_id: u64, vote: String, weight: u128) -> (r:
    Result<(), ContractError>)
    requires
        old(c).wf(),
    ensures
        cast_vote_outcome(*old(c), *final(c), sender, poll_id, vote, weight, r),
{
    if poll_id == 0 || c.state.poll_count > poll_id {
        return Err(ContractError::PollNotExist);
    }
    if poll_id as usize > c.polls.len() || poll_id > c.polls.len() as u64 {
        return Err(ContractError::NotFound);
    }
    let idx: usize = (poll_id - 1) as usize;
    if c.polls[idx].status != PollStatus::InProgress {
        return Err(ContractError::PollNotInProgress);
    }
    if has_voted_exec(sender, &c.polls[idx]) {
        return Err(ContractError::PollSenderVoted);
    }
    let mut tm = load_manager(&c.bank, sender);
    if tm.token_balance < weight {
        return Err(ContractError::PollInsufficientStake);
    }
    tm.participated_polls.push(poll_id);
    tm.locked_tokens.push((poll_id, weight));
    let ghost c0 = *old(c);
    let ghost tmv = tm@;
    c.bank.insert(sender.clone(), tm);
    proof {
        lemma_total_after_insert(c0.bank, c.bank, sender@, tmv);
    }
    let ghost c1 = *c;
    let mut p = c.polls.remove(idx);
    p.voters.push(sender.clone());
    p.voter_info.push(Voter { vote, weight });
    c.polls.insert(idx, p);
    proof {
        assert forall|q: int, j: int|
            0 <= q < c.polls@.len() && 0 <= j < c.polls@[q].voters@.len() implies c.bank@.contains_key(
            #[trigger] c.polls@[q].voters@[j]@,
        ) by {
            if q != idx {
                assert(c.polls@[q] == c1.polls@[q]);
                assert(c0.bank@.contains_key(c0.polls@[q].voters@[j]@));
            } else if j < c1.polls@[q].voters@.len() {
                assert(c.polls@[q].voters@[j] == c1.polls@[q].voters@[j]);
                assert(c0.bank@.contains_key(c0.polls@[q].voters@[j]@));
            }
        }
        assert forall|j: int| 0 <= j < old(c).polls@.len() && j != idx implies #[trigger] c.polls@[j]
            == old(c).polls@[j] by {
            assert(c.polls@[j] == c1.polls@[j]);
        }
        lemma_vote_keeps_locks(c0, *c, *sender, idx as int, (poll_id, weight), tmv);
    }
    Ok(())
}

/// The characters of the vote that counts in favour.
pub open spec fn yes_chars() -> Seq<char> {
    seq!['y', 'e', 's']
}

/// The total weight of the votes in favour.
pub open spec fn yes_weight(infos: Seq<Voter>) -> int
    decreases infos.len(),
{
    if infos.len() == 0 {
        0
    } else {
        yes_weight(infos.drop_last()) + if infos.last().vote@ == yes_chars() {
            infos.last().weight as int
        } else {
            0
        }
    }
}

/// The total weight of all other votes.
pub open spec fn no_weight(infos: Seq<Voter>) -> int
    decreases infos.len(),
{
    if infos.len() == 0 {
        0
    } else {
        no_weight(infos.drop_last()) + if infos.last().vote@ == yes_chars() {
            0
        } else {
            infos.last().weight as int
        }
    }
}

proof fn lemma_weights_prefix(infos: Seq<Voter>, i: int)
    requires
        0 <= i <= infos.len(),
    ensures
        0 <= yes_weight(infos.take(i)) <= yes_weight(infos),
        0 <= no_weight(infos.take(i)) <= no_weight(infos),
    decreases infos.len(),
{
    if infos.len() > 0 {
        if i == infos.len() {
            assert(infos.take(i) =~= infos);
            lemma_weights_prefix(infos.drop_last(), i - 1);
            assert(infos.drop_last().take(i - 1) =~= infos.drop_last());
        } else {
            lemma_weights_prefix(infos.drop_last(), i);
            assert(infos.drop_last().take(i) =~= infos.take(i));
        }
    } else {
        assert(infos.take(i) =~= infos);
    }
}

fn is_yes(s: &String) -> (r: bool)
    ensures
        r == (s@ == yes_chars()),
{
    let st = s.as_str();
    if st.unicode_len() != 3 {
        return false;
    }
    let r = st.get_char(0) == 'y' && st.get_char(1) == 'e' && st.get_char(2) == 's';
    proof {
        if r {
            assert(s@ =~= yes_chars());
        }
    }
    r
}

fn tally(infos: &Vec<Voter>) -> (r: (u128, u128))
    requires
        yes_weight(infos@) + no_weight(infos@) <= u128::MAX,
    ensures
        r.0 == yes_weight(infos@),
        r.1 == no_weight(infos@),
{
    let mut yes: u128 = 0;
    let mut no: u128 = 0;
    let mut i: usize = 0;
    proof {
        lemma_weights_prefix(infos@, infos@.len() as int);
    }
    while i < infos.len()
        invariant
            i <= infos@.len(),
            yes_weight(infos@) + no_weight(infos@) <= u128::MAX,
            yes_weight(infos@) >= 0,
            no_weight(infos@) >= 0,
            yes == yes_weight(infos@.take(i as int)),
            no == no_weight(infos@.take(i as int)),
        decreases infos@.len() - i,
    {
        proof {
            assert(infos@.take(i + 1).drop_last() =~= infos@.take(i as int));
            lemma_weights_prefix(infos@, i + 1);
        }
        if is_yes(&infos[i].vote) {
            yes = yes + infos[i].weight;
        } else {
            no = no + infos[i].weight;
        }
        i = i + 1;
    }
    proof {
        assert(infos@.take(infos@.len() as int) =~= infos@);
    }
    (yes, no)
}

/// Why a poll was rejected.
#[derive(Debug, Clone, Copy, PartialEq, Eq, Structural)]
pub enum RejectedReason {
    /// The poll passed.
    NotRejected,
    QuorumNotReached,
    ThresholdNotReached,
}

impl RejectedReason {
    /// The reason as the contract reports it.
    pub fn as_str(&self) -> (r: &'static str)
        ensures
            r@ == match *self {
                RejectedReason::NotRejected => ""@,
                RejectedReason::QuorumNotReached => "Quorum not reached"@,
                RejectedReason::ThresholdNotReached => "Threshold not reached"@,
            },
    {
        match self {
            RejectedReason::NotRejected => "",
            RejectedReason::QuorumNotReached => "Quorum not reached",
            RejectedReason::ThresholdNotReached => "Threshold not reached",
        }
    }
}

/// The result of ending a poll.
#[derive(Debug, Clone, Copy, PartialEq, Eq)]
pub struct EndPollOutcome {
    pub poll_id: u64,
    pub passed: bool,
    pub rejected_reason: RejectedReason,
}

/// The tallied weight reaches a quorum of `qp` percent: at least `qp` percent of the staked
/// weight took part in the vote.
pub open spec fn quorum_reached(tallied: int, staked: int, qp: u8) -> bool {
    tallied * 100 >= qp * staked
}

proof fn lemma_quorum_compare(t: int, s: int, q: int, k: int, rem: int, extra: int, e: int)
    requires
        q > 0,
        s >= 0,
        t == q * k + rem,
        100 * rem == q * extra + e,
        0 <= e < q,
    ensures
        (t * 100 >= q * s) <==> (s <= 100 * k + extra),
{
    let f = 100 * k + extra;
    assert(t * 100 == q * f + e) by (nonlinear_arith)
        requires
            t == q * k + rem,
            100 * rem == q * extra + e,
            f == 100 * k + extra,
    ;
    if s <= f {
        assert(q * s <= q * f) by (nonlinear_arith)
            requires
                q > 0,
                s <= f,
        ;
    } else {
        assert(q * s >= q * f + q) by (nonlinear_arith)
            requires
                q > 0,
                s >= f + 1,
        ;
    }
}

/// Whether the tallied weight reaches a quorum of `qp` percent of the staked weight, compared
/// exactly without leaving 128 bits.
fn reaches_quorum(tallied: u128, staked: u128, qp: u8) -> (r: bool)
    ensures
        r == quorum_reached(tallied as int, staked as int, qp),
{
    if qp == 0 {
        return true;
    }
    let q: u128 = qp as u128;
    let k: u128 = tallied / q;
    let rem: u128 = tallied % q;
    proof {
        vstd::arithmetic::div_mod::lemma_fundamental_div_mod(tallied as int, q as int);
        vstd::arithmetic::div_mod::lemma_mod_pos_bound(tallied as int, q as int);
    }
    let scaled: u128 = rem * 100;
    let extra: u128 = scaled / q;
    proof {
        vstd::arithmetic::div_mod::lemma_fundamental_div_mod(scaled as int, q as int);
        vstd::arithmetic::div_mod::lemma_mod_pos_bound(scaled as int, q as int);
        lemma_quorum_compare(
            tallied as int,
            staked as int,
            q as int,
            k as int,
            rem as int,
            extra as int,
            (scaled % q) as int,
        );
    }
    match k.checked_mul(100) {
        None => true,
        Some(x) => match x.checked_add(extra) {
            None => true,
            Some(f) => staked <= f,
        },
    }
}

/// The outcome of tallying a poll, for the given total staked weight; `None` when the poll has
/// votes but nothing is staked.
pub open spec fn tally_outcome(p: Poll, staked: u128) -> Option<(bool, RejectedReason)> {
    let yes = yes_weight(p.voter_info@);
    let t = yes + no_weight(p.voter_info@);
    if t > 0 {
        if staked == 0 {
            None
        } else if p.quorum_percentage matches Some(qp) && !quorum_reached(t, staked as int, qp) {
            Some((false, RejectedReason::QuorumNotReached))
        } else if yes > t / 2 {
            Some((true, RejectedReason::NotRejected))
        } else {
            Some((false, RejectedReason::ThresholdNotReached))
        }
    } else {
        Some((false, RejectedReason::QuorumNotReached))
    }
}

/// A poll passes exactly when it has votes, something is staked, the quorum (if any) is
/// reached, and more weight voted yes than voted anything else.
pub proof fn lemma_poll_passes_iff_majority(p: Poll, staked: u128)
    ensures
        ({
            let yes = yes_weight(p.voter_info@);
            let no = no_weight(p.voter_info@);
            tally_outcome(p, staked) == Some((true, RejectedReason::NotRejected)) <==> {
                &&& yes + no > 0
                &&& staked > 0
                &&& !(p.quorum_percentage matches Some(qp) && !quorum_reached(yes + no, staked as int, qp))
                &&& yes > no
            }
        }),
{
    let infos = p.voter_info@;
    lemma_weights_prefix(infos, infos.len() as int);
    assert(infos.take(infos.len() as int) =~= infos);
    let yes = yes_weight(infos);
    let no = no_weight(infos);
    assert(yes > (yes + no) / 2 <==> yes > no) by (nonlinear_arith)
        requires
            yes >= 0,
            no >= 0,
    ;
}

/// The locked amounts without those of the given poll.
pub open spec fn unlocked(locks: Seq<(u64, u128)>, poll_id: u64) -> Seq<(u64, u128)>
    decreases locks.len(),
{
    if locks.len() == 0 {
        Seq::empty()
    } else {
        let rest = unlocked(locks.drop_last(), poll_id);
        if locks.last().0 == poll_id {
            rest
        } else {
            rest.push(locks.last())
        }
    }
}

/// The voters' stakes with the poll's locks removed.
pub open spec fn bank_after_unlock(
    bank: Map<Seq<char>, TokenManagerView>,
    voters: Seq<String>,
    poll_id: u64,
) -> Map<Seq<char>, TokenManagerView> {
    Map::new(
        |a: Seq<char>| bank.contains_key(a),
        |a: Seq<char>|
            if exists|j: int| 0 <= j < voters.len() && (#[trigger] voters[j])@ == a {
                TokenManagerView { locked_tokens: unlocked(bank[a].locked_tokens, poll_id), ..bank[a] }
            } else {
                bank[a]
            },
    )
}

proof fn lemma_unlocked_idem(locks: Seq<(u64, u128)>, poll_id: u64)
    ensures
        unlocked(unlocked(locks, poll_id), poll_id) == unlocked(locks, poll_id),
    decreases locks.len(),
{
    if locks.len() > 0 {
        lemma_unlocked_idem(locks.drop_last(), poll_id);
        let rest = unlocked(locks.drop_last(), poll_id);
        if locks.last().0 != poll_id {
            assert(rest.push(locks.last()).drop_last() =~= rest);
        }
    }
}

fn unlock_locks(locks: &Vec<(u64, u128)>, poll_id: u64) -> (r: Vec<(u64, u128)>)
    ensures
        r@ == unlocked(locks@, poll_id),
{
    let mut out: Vec<(u64, u128)> = Vec::new();
    let mut i: usize = 0;
    while i < locks.len()
        invariant
            i <= locks@.len(),
            out@ == unlocked(locks@.take(i as int), poll_id),
        decreases locks@.len() - i,
    {
        proof {
            assert(locks@.take(i + 1).drop_last() =~= locks@.take(i as int));
        }
        if locks[i].0 != poll_id {
            out.push(locks[i]);
        }
        i = i + 1;
    }
    proof {
        assert(locks@.take(locks@.len() as int) =~= locks@);
    }
    out
}

/// Removes the poll's lock from the voter's stake.
fn unlock_tokens(bank: &mut StrMap<TokenManager>, voter: &String, poll_id: u64)
    requires
        old(bank).wf(),
        old(bank)@.contains_key(voter@),
    ensures
        final(bank).wf(),
        final(bank)@ == old(bank)@.insert(
            voter@,
            TokenManagerView {
                locked_tokens: unlocked(old(bank)@[voter@].locked_tokens, poll_id),
                ..old(bank)@[voter@]
            },
        ),
        final(bank).key_order() == old(bank).key_order(),
{
    let mut tm = load_manager(bank, voter);
    let locks = unlock_locks(&tm.locked_tokens, poll_id);
    tm.locked_tokens = locks;
    bank.insert(voter.clone(), tm);
}

proof fn lemma_unlocked_keeps(locks: Seq<(u64, u128)>, poll_id: u64, l: (u64, u128))
    requires
        locks.contains(l),
        l.0 != poll_id,
    ensures
        unlocked(locks, poll_id).contains(l),
    decreases locks.len(),
{
    let t = locks.drop_last();
    let rest = unlocked(t, poll_id);
    if locks.last() == l {
        assert(unlocked(locks, poll_id) == rest.push(l));
        assert(rest.push(l)[rest.len() as int] == l);
    } else {
        let i = choose|i: int| 0 <= i < locks.len() && locks[i] == l;
        assert(t[i] == l);
        lemma_unlocked_keeps(t, poll_id, l);
        let j = choose|j: int| 0 <= j < rest.len() && rest[j] == l;
        if locks.last().0 != poll_id {
            assert(rest.push(locks.last())[j] == l);
        }
    }
}

/// Ending a poll unlocks that poll alone: every lock an account holds on another poll is still
/// held afterwards, balances stay as they are, and no account is left with a lock on the ended
/// poll.
pub proof fn lemma_end_poll_unlocks_only_that_poll(
    c0: Contract,
    c1: Contract,
    block: BlockInfo,
    sender: String,
    poll_id: u64,
    staked_weight: u128,
    r: Result<EndPollOutcome, ContractError>,
    a: Seq<char>,
    l: (u64, u128),
)
    requires
        c0.wf(),
        end_poll_outcome(c0, c1, &block, &sender, poll_id, staked_weight, r),
        c0.bank@.contains_key(a),
    ensures
        c1.bank@.contains_key(a),
        c1.bank@[a].token_balance == c0.bank@[a].token_balance,
        c0.bank@[a].locked_tokens.contains(l) && l.0 != poll_id ==> c1.bank@[a].locked_tokens.contains(l),
        r is Ok ==> forall|i: int|
            0 <= i < c1.bank@[a].locked_tokens.len() ==> (#[trigger] c1.bank@[a].locked_tokens[i]).0
                != poll_id,
{
    if r is Ok {
        let k = poll_id - 1;
        let voters = c0.polls@[k].voters@;
        let locks0 = c0.bank@[a].locked_tokens;
        if exists|j: int| 0 <= j < voters.len() && (#[trigger] voters[j])@ == a {
            if locks0.contains(l) && l.0 != poll_id {
                lemma_unlocked_keeps(locks0, poll_id, l);
            }
        }
        assert forall|i: int| 0 <= i < c1.bank@[a].locked_tokens.len() implies (
        #[trigger] c1.bank@[a].locked_tokens[i]).0 != poll_id by {
            let pid = c1.bank@[a].locked_tokens[i].0;
            assert(c1.polls@[pid - 1].status == PollStatus::InProgress);
            if pid == poll_id {
                assert(c1.polls@[k].status != PollStatus::InProgress);
            }
        }
    }
}

/// The poll may be ended by `sender` at `block`: the sender created it, it is in progress, and
/// its voting period has started and is over.
pub open spec fn poll_can_end(p: Poll, block: BlockInfo, sender: Seq<char>) -> bool {
    &&& p.creator@ == sender
    &&& p.status == PollStatus::InProgress
    &&& !(p.start_height matches Some(s) && s > block.height)
    &&& p.end_height <= block.height
}

/// Tallying stays within `u128`: when the poll exists and may be ended, its votes add up to a
/// `u128`.
pub open spec fn end_poll_in_range(c: Contract, block: BlockInfo, sender: Seq<char>, poll_id: u64) -> bool {
    1 <= poll_id <= c.polls@.len() && poll_can_end(c.polls@[poll_id - 1], block, sender) ==> {
        let p = c.polls@[poll_id - 1];
        yes_weight(p.voter_info@) + no_weight(p.voter_info@) <= u128::MAX
    }
}

/// What ending poll `poll_id` at `block` on behalf of `sender`, with `staked_weight` held by the
/// contract, does: the contract `c0` becomes `c1` and the result is `r`.
pub open spec fn end_poll_outcome(
    c0: Contract,
    c1: Contract,
    block: &BlockInfo,
    sender: &String,
    poll_id: u64,
    staked_weight: u128,
    r: Result<EndPollOutcome, ContractError>,
) -> bool {
    &&& (c1.wf())
    &&& (r is Err ==> c1 == c0)
    &&& (!(1 <= poll_id <= c0.polls@.len()) ==> r == Err::<EndPollOutcome, ContractError>(
            ContractError::NotFound,
        ))
    &&& (1 <= poll_id <= c0.polls@.len() ==> {
            let k = poll_id - 1;
            let p = c0.polls@[k];
            let checks_pass = poll_can_end(p, *block, sender@);
            &&& p.creator@ != sender@ ==> r == Err::<EndPollOutcome, ContractError>(
                ContractError::PollNotCreator { creator: p.creator, sender: *sender },
            )
            &&& p.creator@ == sender@ && p.status != PollStatus::InProgress ==> r == Err::<
                EndPollOutcome,
                ContractError,
            >(ContractError::PollNotInProgress)
            &&& p.creator@ == sender@ && p.status == PollStatus::InProgress && (p.start_height matches Some(
                s,
            ) && s > block.height) ==> r == Err::<EndPollOutcome, ContractError>(
                ContractError::PoolVotingPeriodNotStarted { start_height: p.start_height->0 },
            )
            &&& p.creator@ == sender@ && p.status == PollStatus::InProgress && !(
            p.start_height matches Some(s) && s > block.height) && p.end_height > block.height
                ==> r == Err::<EndPollOutcome, ContractError>(
                ContractError::PollVotingPeriodNotExpired { expire_height: p.end_height },
            )
            &&& checks_pass && tally_outcome(p, staked_weight) is None ==> r == Err::<
                EndPollOutcome,
                ContractError,
            >(ContractError::PollNoStake)
            &&& checks_pass && tally_outcome(p, staked_weight) is Some ==> {
                let (passed, reason) = tally_outcome(p, staked_weight)->0;
                &&& r == Ok::<EndPollOutcome, ContractError>(
                    EndPollOutcome { poll_id, passed, rejected_reason: reason },
                )
                &&& c1.state == c0.state
                &&& c1.polls@ == c0.polls@.update(
                    k,
                    Poll {
                        status: if passed {
                            PollStatus::Passed
                        } else {
                            PollStatus::Rejected
                        },
                        ..p
                    },
                )
                &&& c1.bank@ == bank_after_unlock(c0.bank@, p.voters@, poll_id)
            }
        })
}

/// Ends a poll: tallies its votes against the staked weight the contract holds, marks it passed
/// or rejected, and unlocks its voters' stakes. Only the poll's creator may end it, and only
/// once its voting period is over. `staked_weight` is the contract's balance of the staking
/// denomination.
pub fn end_poll(
    c: &mut Contract,
    block: &BlockInfo,
    sender: &String,
    poll_id: u64,
    staked_weight: u128,
) -> (r: Result<EndPollOutcome, ContractError>)
    requires
        old(c).wf(),
        end_poll_in_range(*old(c), *block, sender@, poll_id),
    ensures
        end_poll_outcome(*old(c), *final(c), block, sender, poll_id, staked_weight, r),
{
    if poll_id < 1 || poll_id as usize > c.polls.len() || poll_id > c.polls.len() as u64 {
        return Err(ContractError::NotFound);
    }
    let idx: usize = (poll_id - 1) as usize;
    if c.polls[idx].creator != *sender {
        return Err(
            ContractError::PollNotCreator { creator: c.polls[idx].creator.clone(), sender: sender.clone() },
        );
    }
    if c.polls[idx].status != PollStatus::InProgress {
        return Err(ContractError::PollNotInProgress);
    }
    if let Some(start_height) = c.polls[idx].start_height {
        if start_height > block.height {
            return Err(ContractError::PoolVotingPeriodNotStarted { start_height });
        }
    }
    if c.polls[idx].end_height > block.height {
        return Err(ContractError::PollVotingPeriodNotExpired { expire_height: c.polls[idx].end_height });
    }
    let (yes, no) = tally(&c.polls[idx].voter_info);
    let tallied_weight = yes + no;
    let mut rejected_reason = RejectedReason::NotRejected;
    let mut passed = false;
    if tallied_weight > 0 {
        if staked_weight == 0 {
            return Err(ContractError::PollNoStake);
        }
        let below_quorum = match c.polls[idx].quorum_percentage {
            Some(qp) => !reaches_quorum(tallied_weight, staked_weight, qp),
            None => false,
        };
        if below_quorum {
            rejected_reason = RejectedReason::QuorumNotReached;
        } else if yes > tallied_weight / 2 {
            passed = true;
        } else {
            rejected_reason = RejectedReason::ThresholdNotReached;
        }
    } else {
        rejected_reason = RejectedReason::QuorumNotReached;
    }
    let ghost c0 = *c;
    let mut p = c.polls.remove(idx);
    p.status = if passed {
        PollStatus::Passed
    } else {
        PollStatus::Rejected
    };
    c.polls.insert(idx, p);
    assert(c.polls@ =~= c0.polls@.update(idx as int, c.polls@[idx as int]));
    let ghost voters = c.polls@[idx as int].voters@;
    let ghost bank0 = c.bank@;
    let mut j: usize = 0;
    while j < c.polls[idx].voters.len()
        invariant
            idx < c.polls@.len(),
            c.polls@ == c0.polls@.update(idx as int, c.polls@[idx as int]),
            c.polls@[idx as int].voters@ == voters,
            c.polls@[idx as int] == (Poll { status: c.polls@[idx as int].status, ..c0.polls@[idx as int] }),
            c.polls@[idx as int].status == (if passed {
                PollStatus::Passed
            } else {
                PollStatus::Rejected
            }),
            c0 == *old(c),
            c0.wf(),
            c.state == c0.state,
            c0.bank@ == bank0,
            c.bank.wf(),
            j <= voters.len(),
            c.bank@ == bank_after_unlock(bank0, voters.take(j as int), poll_id),
            c.bank.key_order() == c0.bank.key_order(),
            forall|v: int| 0 <= v < voters.len() ==> bank0.contains_key(#[trigger] voters[v]@),
        decreases voters.len() - j,
    {
        let ghost before = c.bank@;
        let voter = &c.polls[idx].voters[j];
        assert(bank0.contains_key(voters[j as int]@));
        unlock_tokens(&mut c.bank, voter, poll_id);
        proof {
            let a0 = voters[j as int]@;
            let vs = voters.take(j + 1);
            assert forall|a: Seq<char>|
                #![trigger c.bank@.contains_key(a)]
                c.bank@.contains_key(a) == bank_after_unlock(bank0, vs, poll_id).contains_key(a)
                && (c.bank@.contains_key(a) ==> c.bank@[a] == bank_after_unlock(bank0, vs, poll_id)[a]) by {
                if a == a0 {
                    assert(vs[j as int]@ == a0);
                    if exists|v: int| 0 <= v < j && (#[trigger] voters.take(j as int)[v])@ == a {
                        let v = choose|v: int| 0 <= v < j && (#[trigger] voters.take(j as int)[v])@ == a;
                        lemma_unlocked_idem(bank0[a].locked_tokens, poll_id);
                    }
                } else {
                    if exists|v: int| 0 <= v < vs.len() && (#[trigger] vs[v])@ == a {
                        let v = choose|v: int| 0 <= v < vs.len() && (#[trigger] vs[v])@ == a;
                        assert(v < j);
                        assert(voters.take(j as int)[v]@ == a);
                    }
                    if exists|v: int| 0 <= v < j && (#[trigger] voters.take(j as int)[v])@ == a {
                        let v = choose|v: int| 0 <= v < j && (#[trigger] voters.take(j as int)[v])@ == a;
                        assert(vs[v]@ == a);
                    }
                }
            }
            assert(c.bank@ =~= bank_after_unlock(bank0, vs, poll_id));
        }
        j = j + 1;
    }
    proof {
        assert(voters.take(voters.len() as int) =~= voters);
        assert(c.bank@.dom() =~= bank0.dom());
        assert forall|q: int, v: int|
            0 <= q < c.polls@.len() && 0 <= v < c.polls@[q].voters@.len() implies c.bank@.contains_key(
            #[trigger] c.polls@[q].voters@[v]@,
        ) by {
            assert(c0.bank@.contains_key(c0.polls@[q].voters@[v]@));
        }
        assert(c.bank.wf());
        assert(c.polls@.len() == c.state.poll_count);
        assert forall|i: int| 0 <= i < c.bank.key_order().len() implies c.bank@[
            #[trigger] c.bank.key_order()[i]].token_balance == bank0[c.bank.key_order()[i]].token_balance by {
            c0.bank.lemma_key_order();
            assert(c0.bank.key_order().contains(c0.bank.key_order()[i]));
        }
        lemma_balance_sum_frame(c.bank.key_order(), c.bank@, bank0);
        assert(tally_outcome(old(c).polls@[idx as int], staked_weight) == Some((passed, rejected_reason)));
        assert forall|q: int| 0 <= q < c0.polls@.len() && q != idx implies #[trigger] c.polls@[q]
            == c0.polls@[q] by {
            assert(c.polls@[q] == c0.polls@.update(idx as int, c.polls@[idx as int])[q]);
        }
        lemma_end_keeps_locks(c0, *c, idx as int, poll_id);
    }
    Ok(EndPollOutcome { poll_id, passed, rejected_reason })
}

/// The poll with the given id.
pub fn query_poll(c: &Contract, poll_id: u64) -> (r: Result<PollResponse, ContractError>)
    requires
        c.wf(),
    ensures
        !(1 <= poll_id <= c.polls@.len()) ==> r == Err::<PollResponse, ContractError>(
            ContractError::PollNotExist,
        ),
        1 <= poll_id <= c.polls@.len() ==> {
            let p = c.polls@[poll_id - 1];
            r == Ok::<PollResponse, ContractError>(
                PollResponse {
                    creator: p.creator,
                    status: p.status,
                    quorum_percentage: p.quorum_percentage,
                    end_height: Some(p.end_height),
                    start_height: p.start_height,
                    description: p.description,
                },
            )
        },
{
    if poll_id < 1 || poll_id as usize > c.polls.len() || poll_id > c.polls.len() as u64 {
        return Err(ContractError::PollNotExist);
    }
    let p = &c.polls[(poll_id - 1) as usize];
    Ok(
        PollResponse {
            creator: p.creator.clone(),
            status: p.status,
            quorum_percentage: p.quorum_percentage,
            end_height: Some(p.end_height),
            start_height: p.start_height,
            description: p.description.clone(),
        },
    )
}

/// The staked balance of an address, zero if it has no account.
pub fn token_balance(c: &Contract, address: &String) -> (r: TokenStakeResponse)
    requires
        c.wf(),
    ensures
        r.token_balance == stake_of(*c, address@).token_balance,
{
    match c.bank.get(address) {
        Some(tm) => TokenStakeResponse { token_balance: tm.token_balance },
        None => TokenStakeResponse { token_balance: 0 },
    }
}

/// The contract's configuration and totals.
pub fn query_config(c: &Contract) -> (r: State)
    ensures
        r == c.state,
{
    State {
        denom: c.state.denom.clone(),
        owner: c.state.owner.clone(),
        poll_count: c.state.poll_count,
        staked_tokens: c.state.staked_tokens,
    }
}

/// The messages the voting contract handles.
#[derive(Debug, Clone, PartialEq, Eq)]
pub enum HandleMsg {
    CastVote { poll_id: u64, vote: String, weight: u128 },
    StakeVotingTokens,
    WithdrawVotingTokens { amount: Option<u128> },
    CreatePoll {
        quorum_percentage: Option<u8>,
        description: String,
        start_height: Option<u64>,
        end_height: Option<u64>,
    },
    EndPoll { poll_id: u64 },
}

/// What a handled message did.
#[derive(Debug, Clone, PartialEq, Eq)]
pub enum HandleOutcome {
    Voted { poll_id: u64, weight: u128, voter: String },
    Staked,
    Withdrawn { send: BankSend },
    PollCreated {
        creator: String,
        poll_id: u64,
        quorum_percentage: Option<u8>,
        end_height: u64,
        start_height: Option<u64>,
    },
    PollEnded(EndPollOutcome),
}

/// The inputs on which handling the message stays within the machine's integers.
pub open spec fn handle_in_range(
    c: Contract,
    block: BlockInfo,
    sender: Seq<char>,
    sent: Seq<Coin>,
    msg: HandleMsg,
    staked_weight: u128,
) -> bool {
    match msg {
        HandleMsg::StakeVotingTokens => forall|i: int|
            first_of_denom(sent, c.state.denom@, i) ==> stake_of(c, sender).token_balance
                + #[trigger] sent[i].amount <= u128::MAX && c.state.staked_tokens + sent[i].amount
                <= u128::MAX,
        HandleMsg::WithdrawVotingTokens { amount } => c.bank@.contains_key(sender) ==> max_locked(
            c.bank@[sender].locked_tokens,
        ) + match amount {
            Some(a) => a,
            None => c.bank@[sender].token_balance,
        } <= u128::MAX,
        HandleMsg::CreatePoll { description, end_height, .. } => {
            &&& c.state.poll_count < u64::MAX
            &&& end_height is None ==> block.height + DEFAULT_END_HEIGHT_BLOCKS <= u64::MAX
        },
        HandleMsg::EndPoll { poll_id } => end_poll_in_range(c, block, sender, poll_id),
        HandleMsg::CastVote { .. } => true,
    }
}

fn tally_fits(infos: &Vec<Voter>) -> (r: Option<u128>)
    ensures
        match r {
            Some(t) => t == yes_weight(infos@) + no_weight(infos@),
            None => yes_weight(infos@) + no_weight(infos@) > u128::MAX,
        },
{
    let mut sum: u128 = 0;
    let mut i: usize = 0;
    proof {
        lemma_weights_prefix(infos@, infos@.len() as int);
        assert(infos@.take(infos@.len() as int) =~= infos@);
    }
    while i < infos.len()
        invariant
            i <= infos@.len(),
            sum == yes_weight(infos@.take(i as int)) + no_weight(infos@.take(i as int)),
        decreases infos@.len() - i,
    {
        proof {
            assert(infos@.take(i + 1).drop_last() =~= infos@.take(i as int));
            lemma_weights_prefix(infos@, i + 1);
            assert(infos@.take(infos@.len() as int) =~= infos@);
        }
        let w = infos[i].weight;
        if sum > u128::MAX - w {
            return None;
        }
        sum = sum + w;
        i = i + 1;
    }
    proof {
        assert(infos@.take(infos@.len() as int) =~= infos@);
    }
    Some(sum)
}

/// Whether handling the message stays within the machine's integers, so that `handle` may be
/// called with it.
pub fn handle_fits(
    c: &Contract,
    block: &BlockInfo,
    sender: &String,
    sent: &Vec<Coin>,
    msg: &HandleMsg,
    staked_weight: u128,
) -> (r: bool)
    requires
        c.wf(),
    ensures
        r == handle_in_range(*c, *block, sender@, sent@, *msg, staked_weight),
{
    match msg {
        HandleMsg::StakeVotingTokens => {
            let mut i: usize = 0;
            while i < sent.len()
                invariant
                    i <= sent@.len(),
                    c.wf(),
                    *msg is StakeVotingTokens,
                    forall|j: int| 0 <= j < i ==> (#[trigger] sent@[j]).denom@ != c.state.denom@,
                decreases sent@.len() - i,
            {
                if sent[i].denom == c.state.denom {
                    let balance = match c.bank.get(sender) {
                        Some(tm) => tm.token_balance,
                        None => 0,
                    };
                    let a = sent[i].amount;
                    let fits = balance <= u128::MAX - a && c.state.staked_tokens <= u128::MAX - a;
                    proof {
                        assert(first_of_denom(sent@, c.state.denom@, i as int));
                        assert forall|k: int| first_of_denom(sent@, c.state.denom@, k) implies k
                            == i by {
                            if k < i {
                                assert(sent@[k].denom@ != c.state.denom@);
                            }
                            if k > i {
                                assert(sent@[i as int].denom@ != c.state.denom@);
                            }
                        }
                    }
                    return fits;
                }
                i = i + 1;
            }
            true
        },
        HandleMsg::WithdrawVotingTokens { amount } => match c.bank.get(sender) {
            Some(tm) => {
                let locked = locked_amount(tm);
                let a = match amount {
                    Some(a) => *a,
                    None => tm.token_balance,
                };
                locked <= u128::MAX - a
            },
            None => true,
        },
        HandleMsg::CreatePoll { end_height, .. } => {
            c.state.poll_count < u64::MAX && match end_height {
                Some(_) => true,
                None => block.height <= u64::MAX - DEFAULT_END_HEIGHT_BLOCKS,
            }
        },
        HandleMsg::EndPoll { poll_id } => {
            if *poll_id < 1 || *poll_id > c.polls.len() as u64 {
                return true;
            }
            let p = &c.polls[(*poll_id - 1) as usize];
            let started = match p.start_height {
                Some(s) => s <= block.height,
                None => true,
            };
            if p.creator != *sender || p.status != PollStatus::InProgress || !started
                || p.end_height > block.height {
                return true;
            }
            tally_fits(&p.voter_info).is_some()
        },
        HandleMsg::CastVote { .. } => true,
    }
}

/// Handles a message of the voting contract. `staked_weight` is the contract's balance of the
/// staking denomination, which ending a poll compares the tally with.
pub fn handle(
    c: &mut Contract,
    block: &BlockInfo,
    sender: &String,
    sent: &Vec<Coin>,
    msg: HandleMsg,
    staked_weight: u128,
) -> (r: Result<HandleOutcome, ContractError>)
    requires
        old(c).wf(),
        handle_in_range(*old(c), *block, sender@, sent@, msg, staked_weight),
    ensures
        match msg {
            HandleMsg::CastVote { poll_id, vote, weight } => {
                &&& cast_vote_outcome(
                    *old(c),
                    *final(c),
                    sender,
                    poll_id,
                    vote,
                    weight,
                    match r {
                        Ok(_) => Ok(()),
                        Err(e) => Err(e),
                    },
                )
                &&& r is Ok ==> r == Ok::<HandleOutcome, ContractError>(
                    HandleOutcome::Voted { poll_id, weight, voter: *sender },
                )
            },
            HandleMsg::StakeVotingTokens => {
                &&& stake_outcome(
                    *old(c),
                    *final(c),
                    sender,
                    sent,
                    match r {
                        Ok(_) => Ok(()),
                        Err(e) => Err(e),
                    },
                )
                &&& r is Ok ==> r == Ok::<HandleOutcome, ContractError>(HandleOutcome::Staked)
            },
            HandleMsg::WithdrawVotingTokens { amount } => {
                &&& r is Ok ==> r->Ok_0 is Withdrawn
                &&& withdraw_outcome(
                    *old(c),
                    *final(c),
                    sender,
                    amount,
                    match r {
                        Ok(HandleOutcome::Withdrawn { send }) => Ok(send),
                        Ok(_) => Err(ContractError::NotFound),
                        Err(e) => Err(e),
                    },
                )
            },
            HandleMsg::CreatePoll { quorum_percentage, description, start_height, end_height } => {
                &&& create_poll_outcome(
                    *old(c),
                    *final(c),
                    block,
                    sender,
                    quorum_percentage,
                    description,
                    start_height,
                    end_height,
                    match r {
                        Ok(HandleOutcome::PollCreated { poll_id, .. }) => Ok(poll_id),
                        Ok(_) => Err(ContractError::NotFound),
                        Err(e) => Err(e),
                    },
                )
                &&& r is Ok ==> (r->Ok_0 matches HandleOutcome::PollCreated {
                    creator: cr,
                    quorum_percentage: q,
                    end_height: e,
                    start_height: st,
                    ..
                } && cr == *sender && q == quorum_percentage && e == final(c).polls@.last().end_height
                    && st == start_height)
            },
            HandleMsg::EndPoll { poll_id } => {
                &&& r is Ok ==> r->Ok_0 is PollEnded
                &&& end_poll_outcome(
                    *old(c),
                    *final(c),
                    block,
                    sender,
                    poll_id,
                    staked_weight,
                    match r {
                        Ok(HandleOutcome::PollEnded(o)) => Ok(o),
                        Ok(_) => Err(ContractError::NotFound),
                        Err(e) => Err(e),
                    },
                )
            },
        },
{
    match msg {
        HandleMsg::StakeVotingTokens => {
            stake_voting_tokens(c, sender, sent)?;
            Ok(HandleOutcome::Staked)
        },
        HandleMsg::WithdrawVotingTokens { amount } => {
            let send = withdraw_voting_tokens(c, sender, amount)?;
            Ok(HandleOutcome::Withdrawn { send })
        },
        HandleMsg::CastVote { poll_id, vote, weight } => {
            cast_vote(c, sender, poll_id, vote, weight)?;
            Ok(HandleOutcome::Voted { poll_id, weight, voter: sender.clone() })
        },
        HandleMsg::EndPoll { poll_id } => {
            let o = end_poll(c, block, sender, poll_id, staked_weight)?;
            Ok(HandleOutcome::PollEnded(o))
        },
        HandleMsg::CreatePoll { quorum_percentage, description, start_height, end_height } => {
            let poll_id = create_poll(
                c,
                block,
                sender,
                quorum_percentage,
                description,
                start_height,
                end_height,
            )?;
            let end = c.polls[c.polls.len() - 1].end_height;
            Ok(
                HandleOutcome::PollCreated {
                    creator: sender.clone(),
                    poll_id,
                    quorum_percentage,
                    end_height: end,
                    start_height,
                },
            )
        },
    }
}

} // verus!
