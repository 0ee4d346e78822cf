use vstd::prelude::*;

use crate::common::{
    coin_view, coins_view, contains_str, contains_string, copy_coin, spec_is_expired, BankSend,
    BlockInfo, Coin, Expiration,
};
use crate::quadratic::error::ContractError;
use crate::quadratic::matching::{
    calculate_clr, checked_match, clr_in_range, constrained_grant, grant_amounts,
    lemma_matched_nonneg, lemma_seq_sum_prefix, lemma_seq_sum_step, match_total, quadratic_match,
    quadratic_matches, seq_sum, votes_of, CalculatedGrant, QuadraticFundingAlgorithm, RawGrant,
};
use crate::storage::bytes_to_vec;

verus! {

/// The message that opens a funding round.
#[derive(Debug, Clone, PartialEq, Eq)]
pub struct InitMsg {
    pub admin: String,
    pub leftover_addr: String,
    pub create_proposal_whitelist: Option<Vec<String>>,
    pub vote_proposal_whitelist: Option<Vec<String>>,
    pub voting_period: Expiration,
    pub proposal_period: Expiration,
    pub budget_denom: String,
    pub algorithm: QuadraticFundingAlgorithm,
}

impl InitMsg {
    /// Rejects a round whose proposal or voting period is already over.
    pub fn validate(&self, block: &BlockInfo) -> (r: Result<(), ContractError>)
        ensures
            spec_is_expired(self.proposal_period, *block) ==> r == Err::<(), ContractError>(
                ContractError::ProposalPeriodExpired,
            ),
            !spec_is_expired(self.proposal_period, *block) && spec_is_expired(
                self.voting_period,
                *block,
            ) ==> r == Err::<(), ContractError>(ContractError::VotingPeriodExpired),
            !spec_is_expired(self.proposal_period, *block) && !spec_is_expired(
                self.voting_period,
                *block,
            ) ==> r == Ok::<(), ContractError>(()),
    {
        if self.proposal_period.is_expired(block) {
            return Err(ContractError::ProposalPeriodExpired);
        }
        if self.voting_period.is_expired(block) {
            return Err(ContractError::VotingPeriodExpired);
        }
        Ok(())
    }
}

/// The round's configuration.
#[derive(Debug, Clone, PartialEq, Eq)]
pub struct Config {
    pub admin: String,
    pub leftover_addr: String,
    pub create_proposal_whitelist: Option<Vec<String>>,
    pub vote_proposal_whitelist: Option<Vec<String>>,
    pub voting_period: Expiration,
    pub proposal_period: Expiration,
    pub budget: Coin,
    pub algorithm: QuadraticFundingAlgorithm,
}

/// A proposal and the funds its votes sent.
#[derive(Debug, Clone, PartialEq, Eq, Default)]
pub struct Proposal {
    pub id: u64,
    pub title: String,
    pub description: String,
    pub metadata: Option<Vec<u8>>,
    pub fund_address: String,
    pub collected_funds: u128,
}

/// A vote: the funds one address sent to one proposal.
#[derive(Debug, Clone, PartialEq, Eq)]
pub struct Vote {
    pub proposal_id: u64,
    pub voter: String,
    pub fund: Coin,
}

/// The stored state of a round: its configuration, the last proposal id, the proposals in
/// ascending id order, and the votes.
#[derive(Debug, Clone, PartialEq, Eq)]
pub struct State {
    pub config: Config,
    pub proposal_seq: u64,
    pub proposals: Vec<Proposal>,
    pub votes: Vec<Vote>,
}

/// The response to a query of all proposals.
#[derive(Debug, Clone, PartialEq, Eq)]
pub struct AllProposalsResponse {
    pub proposals: Vec<Proposal>,
}

/// The messages a round handles.
#[derive(Debug, Clone, PartialEq, Eq)]
pub enum ExecuteMsg {
    CreateProposal {
        title: String,
        description: String,
        metadata: Option<Vec<u8>>,
        fund_address: String,
    },
    VoteProposal { proposal_id: u64 },
    TriggerDistribution,
}

/// What a handled message did.
#[derive(Debug, Clone, PartialEq, Eq)]
pub enum ExecuteOutcome {
    /// A proposal with this id and title was created.
    ProposalCreated { proposal_id: u64, title: String },
    /// A vote was counted; the proposal has now collected this much.
    Voted { proposal_id: u64, voter: String, collected_funds: u128 },
    /// The pool was distributed by these transfers.
    Distributed { sends: Vec<BankSend> },
}

impl State {
    /// Proposal ids ascend and none exceeds the last id handed out.
    pub open spec fn wf(&self) -> bool {
        &&& forall|i: int, j: int|
            0 <= i < j < self.proposals@.len() ==> self.proposals@[i].id < self.proposals@[j].id
        &&& forall|i: int|
            0 <= i < self.proposals@.len() ==> 1 <= #[trigger] self.proposals@[i].id
                <= self.proposal_seq
    }
}

/// The index of the first proposal with the given id, if any.
pub open spec fn has_proposal(ps: Seq<Proposal>, id: u64) -> bool {
    exists|i: int| 0 <= i < ps.len() && (#[trigger] ps[i]).id == id
}

/// The first index of a proposal with the given id.
pub open spec fn proposal_index(ps: Seq<Proposal>, id: u64) -> int {
    choose|i: int|
        0 <= i < ps.len() && (#[trigger] ps[i]).id == id && forall|j: int|
            0 <= j < i ==> (#[trigger] ps[j]).id != id
}

/// The given address has voted on the given proposal.
pub open spec fn has_voted(votes: Seq<Vote>, id: u64, voter: Seq<char>) -> bool {
    exists|i: int| 0 <= i < votes.len() && (#[trigger] votes[i]).proposal_id == id && votes[i].voter@ == voter
}

/// The amounts of the votes on the given proposal, in voting order.
pub open spec fn votes_for(votes: Seq<Vote>, id: u64) -> Seq<u128>
    decreases votes.len(),
{
    if votes.len() == 0 {
        Seq::empty()
    } else {
        let rest = votes_for(votes.drop_last(), id);
        if votes.last().proposal_id == id {
            rest.push(votes.last().fund.amount)
        } else {
            rest
        }
    }
}

/// The votes of every proposal, in proposal order.
pub open spec fn round_votes(s: State) -> Seq<Seq<u128>> {
    s.proposals@.map_values(|p: Proposal| votes_for(s.votes@, p.id))
}

/// The match a proposal receives from the pool.
pub open spec fn proposal_grant(s: State, i: int) -> int {
    constrained_grant(
        quadratic_match(round_votes(s)[i]),
        s.config.budget.amount as int,
        match_total(round_votes(s)),
    )
}

/// The funds collected by each proposal.
pub open spec fn collected_amounts(ps: Seq<Proposal>) -> Seq<int> {
    ps.map_values(|p: Proposal| p.collected_funds as int)
}

/// The distribution of the state's pool stays within `u128` and divides by a non-zero total.
pub open spec fn distribution_in_range(s: State) -> bool {
    &&& clr_in_range(round_votes(s), s.config.budget.amount)
    &&& forall|i: int|
        0 <= i < s.proposals@.len() ==> #[trigger] proposal_grant(s, i)
            + s.proposals@[i].collected_funds <= u128::MAX
}

/// The amount of each transfer, when each carries exactly one coin.
pub open spec fn send_amounts(sends: Seq<BankSend>) -> Seq<int> {
    sends.map_values(|b: BankSend| b.amount@[0].amount as int)
}

/// The coin the sent funds must consist of: exactly one coin, of the budget's denomination.
pub fn extract_budget_coin(sent_funds: &Vec<Coin>, denom: &String) -> (r: Result<Coin, ContractError>)
    ensures
        sent_funds@.len() != 1 ==> r == Err::<Coin, ContractError>(ContractError::WrongCoinSent),
        sent_funds@.len() == 1 && sent_funds@[0].denom@ != denom@ ==> (r matches Err(
            ContractError::WrongFundCoin { expected, got },
        ) && expected@ == denom@ && got@ == sent_funds@[0].denom@),
        sent_funds@.len() == 1 && sent_funds@[0].denom@ == denom@ ==> r == Ok::<
            Coin,
            ContractError,
        >(sent_funds@[0]),
{
    if sent_funds.len() != 1 {
        return Err(ContractError::WrongCoinSent);
    }
    if sent_funds[0].denom != *denom {
        return Err(
            ContractError::WrongFundCoin {
                expected: denom.clone(),
                got: sent_funds[0].denom.clone(),
            },
        );
    }
    Ok(copy_coin(&sent_funds[0]))
}

/// Opens a round. The pool is the single coin sent, which must be of the budget denomination;
/// `addresses_valid` says whether the chain accepts every whitelisted address.
pub fn init(block: &BlockInfo, funds: &Vec<Coin>, msg: InitMsg, addresses_valid: bool) -> (r:
    Result<State, ContractError>)
    ensures
        spec_is_expired(msg.proposal_period, *block) ==> r == Err::<State, ContractError>(
            ContractError::ProposalPeriodExpired,
        ),
        !spec_is_expired(msg.proposal_period, *block) && spec_is_expired(
            msg.voting_period,
            *block,
        ) ==> r == Err::<State, ContractError>(ContractError::VotingPeriodExpired),
        !spec_is_expired(msg.proposal_period, *block) && !spec_is_expired(msg.voting_period, *block)
            ==> {
            &&& funds@.len() != 1 ==> r == Err::<State, ContractError>(ContractError::WrongCoinSent)
            &&& funds@.len() == 1 && funds@[0].denom@ != msg.budget_denom@ ==> (r matches Err(
                ContractError::WrongFundCoin { expected, got },
            ) && expected@ == msg.budget_denom@ && got@ == funds@[0].denom@)
            &&& funds@.len() == 1 && funds@[0].denom@ == msg.budget_denom@ && !addresses_valid
                ==> r == Err::<State, ContractError>(ContractError::InvalidAddress)
            &&& funds@.len() == 1 && funds@[0].denom@ == msg.budget_denom@ && addresses_valid
                ==> r == Ok::<State, ContractError>(
                State {
                    config: Config {
                        admin: msg.admin,
                        leftover_addr: msg.leftover_addr,
                        create_proposal_whitelist: msg.create_proposal_whitelist,
                        vote_proposal_whitelist: msg.vote_proposal_whitelist,
                        voting_period: msg.voting_period,
                        proposal_period: msg.proposal_period,
                        budget: funds@[0],
                        algorithm: msg.algorithm,
                    },
                    proposal_seq: 0,
                    proposals: r->Ok_0.proposals,
                    votes: r->Ok_0.votes,
                },
            ) && r->Ok_0.proposals@.len() == 0 && r->Ok_0.votes@.len() == 0
        },
        r is Ok ==> r->Ok_0.wf(),
{
    msg.validate(block)?;
    let budget = extract_budget_coin(funds, &msg.budget_denom)?;
    if !addresses_valid {
        return Err(ContractError::InvalidAddress);
    }
    let cfg = Config {
        admin: msg.admin,
        leftover_addr: msg.leftover_addr,
        create_proposal_whitelist: msg.create_proposal_whitelist,
        vote_proposal_whitelist: msg.vote_proposal_whitelist,
        voting_period: msg.voting_period,
        proposal_period: msg.proposal_period,
        budget,
        algorithm: msg.algorithm,
    };
    Ok(State { config: cfg, proposal_seq: 0, proposals: Vec::new(), votes: Vec::new() })
}

/// Whether the whitelist admits the address: without a whitelist, or with an empty one, anyone
/// may propose or vote.
pub open spec fn whitelisted(wl: Option<Vec<String>>, addr: Seq<char>) -> bool {
    match wl {
        Some(v) => v@.len() == 0 || contains_str(v@, addr),
        None => true,
    }
}

fn check_whitelist(wl: &Option<Vec<String>>, addr: &String) -> (r: bool)
    ensures
        r == whitelisted(*wl, addr@),
{
    match wl {
        Some(v) => v.len() == 0 || contains_string(v, addr),
        None => true,
    }
}

/// What creating a proposal at `block` on behalf of `sender` does: the round `state0` becomes
/// `state1` and the result is `r`.
pub open spec fn create_proposal_outcome(
    state0: State,
    state1: State,
    block: &BlockInfo,
    sender: &String,
    title: String,
    description: String,
    metadata: Option<Vec<u8>>,
    fund_address: String,
    fund_address_valid: bool,
    r: Result<u64, ContractError>,
) -> bool {
    &&& (state1.wf())
    &&& (!whitelisted(state0.config.create_proposal_whitelist, sender@) ==> r == Err::<
            u64,
            ContractError,
        >(ContractError::Unauthorized))
    &&& (whitelisted(state0.config.create_proposal_whitelist, sender@) && spec_is_expired(
            state0.config.proposal_period,
            *block,
        ) ==> r == Err::<u64, ContractError>(ContractError::ProposalPeriodExpired))
    &&& (whitelisted(state0.config.create_proposal_whitelist, sender@) && !spec_is_expired(
            state0.config.proposal_period,
            *block,
        ) && !fund_address_valid ==> r == Err::<u64, ContractError>(ContractError::InvalidAddress))
    &&& (whitelisted(state0.config.create_proposal_whitelist, sender@) && !spec_is_expired(
            state0.config.proposal_period,
            *block,
        ) && fund_address_valid ==> {
            &&& r == Ok::<u64, ContractError>((state0.proposal_seq + 1) as u64)
            &&& state1.config == state0.config
            &&& state1.votes == state0.votes
            &&& state1.proposal_seq == state0.proposal_seq + 1
            &&& state1.proposals@ == state0.proposals@.push(
                Proposal {
                    id: (state0.proposal_seq + 1) as u64,
                    title,
                    description,
                    metadata,
                    fund_address,
                    collected_funds: 0,
                },
            )
        })
    &&& (r is Err ==> state1 == state0)
}

/// Creates a proposal with the next id. `fund_address_valid` says whether the chain accepts
/// the fund address.
pub fn execute_create_proposal(
    state: &mut State,
    block: &BlockInfo,
    sender: &String,
    title: String,
    description: String,
    metadata: Option<Vec<u8>>,
    fund_address: String,
    fund_address_valid: bool,
) -> (r: Result<u64, ContractError>)
    requires
        old(state).wf(),
        create_in_range(*old(state), *block, sender@, fund_address_valid),
    ensures
        create_proposal_outcome(*old(state), *final(state), block, sender, title, description, metadata, fund_address, fund_address_valid, r),
{
    if !check_whitelist(&state.config.create_proposal_whitelist, sender) {
        return Err(ContractError::Unauthorized);
    }
    if state.config.proposal_period.is_expired(block) {
        return Err(ContractError::ProposalPeriodExpired);
    }
    if !fund_address_valid {
        return Err(ContractError::InvalidAddress);
    }
    let id = state.proposal_seq + 1;
    state.proposal_seq = id;
    let p = Proposal { id, title, description, metadata, fund_address, collected_funds: 0 };
    state.proposals.push(p);
    Ok(id)
}

fn find_proposal(ps: &Vec<Proposal>, id: u64) -> (r: Option<usize>)
    ensures
        match r {
            Some(i) => i < ps@.len() && ps@[i as int].id == id && forall|j: int|
                0 <= j < i ==> (#[trigger] ps@[j]).id != id,
            None => !has_proposal(ps@, id),
        },
{
    let mut i: usize = 0;
    while i < ps.len()
        invariant
            i <= ps@.len(),
            forall|j: int| 0 <= j < i ==> (#[trigger] ps@[j]).id != id,
        decreases ps@.len() - i,
    {
        if ps[i].id == id {
            return Some(i);
        }
        i = i + 1;
    }
    None
}

fn find_vote(votes: &Vec<Vote>, id: u64, voter: &String) -> (r: bool)
    ensures
        r == has_voted(votes@, id, voter@),
{
    let mut i: usize = 0;
    while i < votes.len()
        invariant
            i <= votes@.len(),
            forall|j: int|
                0 <= j < i ==> !((#[trigger] votes@[j]).proposal_id == id && votes@[j].voter@
                    == voter@),
        decreases votes@.len() - i,
    {
        if votes[i].proposal_id == id && votes[i].voter == *voter {
            return true;
        }
        i = i + 1;
    }
    false
}

proof fn lemma_proposal_index(ps: Seq<Proposal>, id: u64, i: int)
    requires
        0 <= i < ps.len(),
        ps[i].id == id,
        forall|j: int| 0 <= j < i ==> (#[trigger] ps[j]).id != id,
    ensures
        has_proposal(ps, id),
        proposal_index(ps, id) == i,
{
    let k = proposal_index(ps, id);
    assert(0 <= k < ps.len() && ps[k].id == id && forall|j: int|
        0 <= j < k ==> (#[trigger] ps[j]).id != id);
    if k < i {
        assert(ps[k].id != id);
    }
    if i < k {
        assert(ps[i].id != id);
    }
}

/// What voting on `proposal_id` with the coins `funds` at `block` by `sender` does: the round
/// `state0` becomes `state1` and the result is `r`.
pub open spec fn vote_outcome(
    state0: State,
    state1: State,
    block: &BlockInfo,
    sender: &String,
    funds: &Vec<Coin>,
    proposal_id: u64,
    r: Result<u128, ContractError>,
) -> bool {
    &&& (!whitelisted(state0.config.vote_proposal_whitelist, sender@) ==> r == Err::<
            u128,
            ContractError,
        >(ContractError::Unauthorized))
    &&& (whitelisted(state0.config.vote_proposal_whitelist, sender@) && spec_is_expired(
            state0.config.voting_period,
            *block,
        ) ==> r == Err::<u128, ContractError>(ContractError::VotingPeriodExpired))
    &&& (whitelisted(state0.config.vote_proposal_whitelist, sender@) && !spec_is_expired(
            state0.config.voting_period,
            *block,
        ) ==> {
            &&& funds@.len() != 1 ==> r == Err::<u128, ContractError>(ContractError::WrongCoinSent)
            &&& funds@.len() == 1 && funds@[0].denom@ != state0.config.budget.denom@
                ==> (r matches Err(ContractError::WrongFundCoin { expected, got }) && expected@
                == state0.config.budget.denom@ && got@ == funds@[0].denom@)
            &&& funds@.len() == 1 && funds@[0].denom@ == state0.config.budget.denom@ ==> {
                &&& !has_proposal(state0.proposals@, proposal_id) ==> r == Err::<
                    u128,
                    ContractError,
                >(ContractError::ProposalNotFound)
                &&& has_proposal(state0.proposals@, proposal_id) && has_voted(
                    state0.votes@,
                    proposal_id,
                    sender@,
                ) ==> r == Err::<u128, ContractError>(ContractError::AddressAlreadyVotedProject)
                &&& has_proposal(state0.proposals@, proposal_id) && !has_voted(
                    state0.votes@,
                    proposal_id,
                    sender@,
                ) ==> {
                    let k = proposal_index(state0.proposals@, proposal_id);
                    let p = state0.proposals@[k];
                    let collected = (p.collected_funds + funds@[0].amount) as u128;
                    &&& r == Ok::<u128, ContractError>(collected)
                    &&& state1.config == state0.config
                    &&& state1.proposal_seq == state0.proposal_seq
                    &&& state1.proposals@ == state0.proposals@.update(
                        k,
                        Proposal { collected_funds: collected, ..p },
                    )
                    &&& state1.votes@ == state0.votes@.push(
                        Vote { proposal_id, voter: *sender, fund: funds@[0] },
                    )
                }
            }
        })
    &&& (r is Err ==> state1 == state0)
    &&& (state0.wf() ==> state1.wf())
}

/// Counting a vote stays within `u128`: when the sender may vote, the voting period is open,
/// one coin of the budget denomination is sent and the proposal exists, the proposal's
/// collected funds can take the coin.
pub open spec fn vote_in_range(s: State, block: BlockInfo, sender: Seq<char>, funds: Seq<Coin>, proposal_id: u64) -> bool {
    whitelisted(s.config.vote_proposal_whitelist, sender) && !spec_is_expired(
        s.config.voting_period,
        block,
    ) && funds.len() == 1 && funds[0].denom@ == s.config.budget.denom@ && has_proposal(
        s.proposals@,
        proposal_id,
    ) ==> s.proposals@[proposal_index(s.proposals@, proposal_id)].collected_funds
        + funds[0].amount <= u128::MAX
}

/// Creating a proposal stays within `u64`: when the sender may propose, the proposal period is
/// open and the fund address is valid, there is a next id.
pub open spec fn create_in_range(s: State, block: BlockInfo, sender: Seq<char>, fund_address_valid: bool) -> bool {
    whitelisted(s.config.create_proposal_whitelist, sender) && !spec_is_expired(
        s.config.proposal_period,
        block,
    ) && fund_address_valid ==> s.proposal_seq < u64::MAX
}

/// Distributing the pool stays within `u128`: when the admin triggers it after the voting
/// period, the distribution of the pool fits.
pub open spec fn trigger_in_range(s: State, block: BlockInfo, sender: Seq<char>) -> bool {
    sender == s.config.admin@ && spec_is_expired(s.config.voting_period, block)
        ==> distribution_in_range(s)
}

/// A voter may vote once on each proposal: a vote that passes the whitelist, period, coin and
/// proposal checks is refused as a repeat exactly when a stored vote has both that proposal and
/// that voter, and votes on other proposals never stand in its way.
pub proof fn lemma_one_vote_per_proposal(
    state0: State,
    state1: State,
    block: BlockInfo,
    sender: String,
    funds: Vec<Coin>,
    proposal_id: u64,
    r: Result<u128, ContractError>,
)
    requires
        vote_outcome(state0, state1, &block, &sender, &funds, proposal_id, r),
        whitelisted(state0.config.vote_proposal_whitelist, sender@),
        !spec_is_expired(state0.config.voting_period, block),
        funds@.len() == 1,
        funds@[0].denom@ == state0.config.budget.denom@,
        has_proposal(state0.proposals@, proposal_id),
    ensures
        (r == Err::<u128, ContractError>(ContractError::AddressAlreadyVotedProject)) <==> exists|i: int|
            0 <= i < state0.votes@.len() && state0.votes@[i].proposal_id == proposal_id
                && state0.votes@[i].voter@ == sender@,
        (forall|i: int|
            0 <= i < state0.votes@.len() && state0.votes@[i].proposal_id == proposal_id
                ==> state0.votes@[i].voter@ != sender@) ==> r is Ok,
{
    if exists|i: int|
        0 <= i < state0.votes@.len() && state0.votes@[i].proposal_id == proposal_id
            && state0.votes@[i].voter@ == sender@ {
        let i = choose|i: int|
            0 <= i < state0.votes@.len() && state0.votes@[i].proposal_id == proposal_id
                && state0.votes@[i].voter@ == sender@;
        assert(has_voted(state0.votes@, proposal_id, sender@));
    } else {
        assert(!has_voted(state0.votes@, proposal_id, sender@));
    }
}

/// Counts the single coin sent as a vote on the proposal.
pub fn execute_vote_proposal(
    state: &mut State,
    block: &BlockInfo,
    sender: &String,
    funds: &Vec<Coin>,
    proposal_id: u64,
) -> (r: Result<u128, ContractError>)
    requires
        vote_in_range(*old(state), *block, sender@, funds@, proposal_id),
    ensures
        vote_outcome(*old(state), *final(state), block, sender, funds, proposal_id, r),
{
    if !check_whitelist(&state.config.vote_proposal_whitelist, sender) {
        return Err(ContractError::Unauthorized);
    }
    if state.config.voting_period.is_expired(block) {
        return Err(ContractError::VotingPeriodExpired);
    }
    let fund = extract_budget_coin(funds, &state.config.budget.denom)?;
    let idx = match find_proposal(&state.proposals, proposal_id) {
        Some(i) => i,
        None => {
            return Err(ContractError::ProposalNotFound);
        },
    };
    proof {
        lemma_proposal_index(state.proposals@, proposal_id, idx as int);
    }
    let collected: u128 = state.proposals[idx].collected_funds + fund.amount;
    if find_vote(&state.votes, proposal_id, sender) {
        return Err(ContractError::AddressAlreadyVotedProject);
    }
    let ghost old_ps = state.proposals@;
    let mut p = state.proposals.remove(idx);
    p.collected_funds = collected;
    state.proposals.insert(idx, p);
    state.votes.push(Vote { proposal_id, voter: sender.clone(), fund });
    proof {
        assert(state.proposals@ =~= old_ps.update(
            idx as int,
            Proposal { collected_funds: collected, ..old_ps[idx as int] },
        ));
    }
    Ok(collected)
}

/// Optional bytes as plain values.
pub open spec fn metadata_view(m: Option<Vec<u8>>) -> Option<Seq<u8>> {
    match m {
        Some(v) => Some(v@),
        None => None,
    }
}

/// Two proposals hold the same values.
pub open spec fn same_proposal(a: Proposal, b: Proposal) -> bool {
    &&& a.id == b.id
    &&& a.title == b.title
    &&& a.description == b.description
    &&& metadata_view(a.metadata) == metadata_view(b.metadata)
    &&& a.fund_address == b.fund_address
    &&& a.collected_funds == b.collected_funds
}

fn copy_metadata(m: &Option<Vec<u8>>) -> (r: Option<Vec<u8>>)
    ensures
        metadata_view(r) == metadata_view(*m),
{
    match m {
        Some(v) => Some(bytes_to_vec(v.as_slice())),
        None => None,
    }
}

fn copy_proposal(p: &Proposal) -> (r: Proposal)
    ensures
        same_proposal(r, *p),
{
    Proposal {
        id: p.id,
        title: p.title.clone(),
        description: p.description.clone(),
        metadata: copy_metadata(&p.metadata),
        fund_address: p.fund_address.clone(),
        collected_funds: p.collected_funds,
    }
}

fn collect_votes(votes: &Vec<Vote>, id: u64) -> (r: Vec<u128>)
    ensures
        r@ == votes_for(votes@, id),
{
    let mut out: Vec<u128> = Vec::new();
    let mut i: usize = 0;
    while i < votes.len()
        invariant
            i <= votes@.len(),
            out@ == votes_for(votes@.take(i as int), id),
        decreases votes@.len() - i,
    {
        proof {
            assert(votes@.take(i + 1).drop_last() =~= votes@.take(i as int));
        }
        if votes[i].proposal_id == id {
            out.push(votes[i].fund.amount);
        }
        i = i + 1;
    }
    proof {
        assert(votes@.take(votes@.len() as int) =~= votes@);
    }
    out
}

proof fn lemma_sum_pairwise(a: Seq<int>, b: Seq<int>, c: Seq<int>)
    requires
        a.len() == b.len(),
        c.len() == a.len(),
        forall|i: int| 0 <= i < a.len() ==> c[i] == a[i] + b[i],
    ensures
        seq_sum(c) == seq_sum(a) + seq_sum(b),
    decreases a.len(),
{
    if a.len() > 0 {
        lemma_sum_pairwise(a.drop_last(), b.drop_last(), c.drop_last());
    }
}

/// What triggering the distribution of the round `state` at `block` by `sender` gives: the
/// result `r`.
pub open spec fn distribution_outcome(
    state: &State,
    block: &BlockInfo,
    sender: &String,
    r: Result<Vec<BankSend>, ContractError>,
) -> bool {
    &&& (sender@ != state.config.admin@ ==> r == Err::<Vec<BankSend>, ContractError>(
            ContractError::Unauthorized,
        ))
    &&& (sender@ == state.config.admin@ && !spec_is_expired(state.config.voting_period, *block)
            ==> r == Err::<Vec<BankSend>, ContractError>(ContractError::VotingPeriodNotExpired))
    &&& (sender@ == state.config.admin@ && spec_is_expired(state.config.voting_period, *block) ==> {
            let sends = r->Ok_0@;
            let n = state.proposals@.len();
            &&& r is Ok
            &&& sends.len() == n + 1
            &&& forall|i: int|
                0 <= i < n ==> {
                    &&& (#[trigger] sends[i]).to_address == state.proposals@[i].fund_address
                    &&& coins_view(sends[i].amount@) == seq![
                        (
                            state.config.budget.denom@,
                            (proposal_grant(*state, i) + state.proposals@[i].collected_funds) as u128,
                        ),
                    ]
                }
            &&& sends[n as int].to_address == state.config.leftover_addr
            &&& sends[n as int].amount@.len() == 1
            &&& sends[n as int].amount@[0].denom@ == state.config.budget.denom@
            &&& seq_sum(send_amounts(sends)) == state.config.budget.amount + seq_sum(
                collected_amounts(state.proposals@),
            )
        })
}

/// Distributes the pool: every proposal receives its constrained match plus the funds its votes
/// sent, and the leftover of the pool goes to the leftover address. Only the admin may trigger
/// it, and only after the voting period. The state is not changed.
pub fn execute_trigger_distribution(state: &State, block: &BlockInfo, sender: &String) -> (r:
    Result<Vec<BankSend>, ContractError>)
    requires
        trigger_in_range(*state, *block, sender@),
    ensures
        distribution_outcome(state, block, sender, r),
{
    if *sender != state.config.admin {
        return Err(ContractError::Unauthorized);
    }
    if !state.config.voting_period.is_expired(block) {
        return Err(ContractError::VotingPeriodNotExpired);
    }
    let mut grants: Vec<RawGrant> = Vec::new();
    let mut i: usize = 0;
    while i < state.proposals.len()
        invariant
            i <= state.proposals@.len(),
            grants@.len() == i,
            forall|k: int|
                0 <= k < i ==> {
                    &&& (#[trigger] grants@[k]).addr == state.proposals@[k].fund_address
                    &&& grants@[k].funds@ == votes_for(state.votes@, state.proposals@[k].id)
                    &&& grants@[k].collected_vote_funds == state.proposals@[k].collected_funds
                },
        decreases state.proposals@.len() - i,
    {
        let p = &state.proposals[i];
        let funds = collect_votes(&state.votes, p.id);
        grants.push(
            RawGrant {
                addr: p.fund_address.clone(),
                funds,
                collected_vote_funds: p.collected_funds,
            },
        );
        i = i + 1;
    }
    proof {
        assert(votes_of(grants@) =~= round_votes(*state));
    }
    let ghost g0 = grants@;
    let budget = state.config.budget.amount;
    let res = calculate_clr(grants, Some(budget));
    let (distr, leftover) = match res {
        Ok(x) => x,
        Err(e) => {
            return Err(e);
        },
    };
    let mut sends: Vec<BankSend> = Vec::new();
    let mut j: usize = 0;
    while j < distr.len()
        invariant
            j <= distr@.len(),
            distr@.len() == g0.len(),
            g0.len() == state.proposals@.len(),
            distribution_in_range(*state),
            votes_of(g0) == round_votes(*state),
            sends@.len() == j,
            forall|k: int|
                0 <= k < g0.len() ==> {
                    &&& (#[trigger] distr@[k]).addr == g0[k].addr
                    &&& distr@[k].grant == constrained_grant(
                        quadratic_match(g0[k].funds@),
                        budget as int,
                        match_total(votes_of(g0)),
                    )
                    &&& distr@[k].collected_vote_funds == g0[k].collected_vote_funds
                },
            forall|k: int|
                0 <= k < g0.len() ==> {
                    &&& (#[trigger] g0[k]).addr == state.proposals@[k].fund_address
                    &&& g0[k].funds@ == votes_for(state.votes@, state.proposals@[k].id)
                    &&& g0[k].collected_vote_funds == state.proposals@[k].collected_funds
                },
            budget == state.config.budget.amount,
            forall|k: int|
                0 <= k < j ==> {
                    &&& (#[trigger] sends@[k]).to_address == state.proposals@[k].fund_address
                    &&& coins_view(sends@[k].amount@) == seq![
                        (
                            state.config.budget.denom@,
                            (proposal_grant(*state, k) + state.proposals@[k].collected_funds) as u128,
                        ),
                    ]
                },
        decreases distr@.len() - j,
    {
        let f = &distr[j];
        proof {
            assert(round_votes(*state)[j as int] == g0[j as int].funds@);
            assert(proposal_grant(*state, j as int) + state.proposals@[j as int].collected_funds
                <= u128::MAX);
        }
        let amount: u128 = f.grant + f.collected_vote_funds;
        let c = Coin { denom: state.config.budget.denom.clone(), amount };
        let mut coins: Vec<Coin> = Vec::new();
        coins.push(c);
        proof {
            assert(coins_view(coins@) =~= seq![(state.config.budget.denom@, amount)]);
        }
        sends.push(BankSend { to_address: f.addr.clone(), amount: coins });
        j = j + 1;
    }
    let lc = Coin { denom: state.config.budget.denom.clone(), amount: leftover };
    let mut lcoins: Vec<Coin> = Vec::new();
    lcoins.push(lc);
    let ghost body = sends@;
    sends.push(BankSend { to_address: state.config.leftover_addr.clone(), amount: lcoins });
    proof {
        let n = state.proposals@.len();
        let grants_seq = grant_amounts(distr@);
        let coll = collected_amounts(state.proposals@);
        let body_amounts = send_amounts(body);
        assert forall|k: int| 0 <= k < n implies #[trigger] body_amounts[k] == grants_seq[k]
            + coll[k] by {
            assert(coins_view(body[k].amount@)[0] == coin_view(body[k].amount@[0]));
        }
        lemma_sum_pairwise(grants_seq, coll, body_amounts);
        assert(send_amounts(sends@).drop_last() =~= body_amounts);
    }
    Ok(sends)
}

/// Whether distributing the round's pool stays within `u128`, so that the distribution may be
/// triggered.
pub fn distribution_fits(state: &State) -> (r: bool)
    ensures
        r == distribution_in_range(*state),
{
    let budget = state.config.budget.amount;
    let n = state.proposals.len();
    let ghost fs = round_votes(*state);
    let ghost qs = quadratic_matches(fs);
    proof {
        lemma_matched_nonneg(fs);
    }
    let mut matches: Vec<u128> = Vec::new();
    let mut total: u128 = 0;
    let mut i: usize = 0;
    while i < n
        invariant
            i <= n,
            n == state.proposals@.len(),
            fs == round_votes(*state),
            qs == quadratic_matches(fs),
            all_nonneg_matches(qs),
            budget == state.config.budget.amount,
            matches@.len() == i,
            forall|k: int|
                0 <= k < i ==> {
                    &&& #[trigger] matches@[k] == quadratic_match(fs[k])
                    &&& quadratic_match(fs[k]) * budget <= u128::MAX
                },
            total == seq_sum(qs.take(i as int)),
        decreases n - i,
    {
        let votes = collect_votes(&state.votes, state.proposals[i].id);
        assert(votes@ == fs[i as int]);
        let m = match checked_match(&votes) {
            Some(m) => m,
            None => {
                return false;
            },
        };
        if m.checked_mul(budget).is_none() {
            return false;
        }
        proof {
            lemma_seq_sum_step(qs, i as int);
        }
        if total > u128::MAX - m {
            proof {
                lemma_seq_sum_prefix(qs, i + 1);
            }
            return false;
        }
        total = total + m;
        matches.push(m);
        i = i + 1;
    }
    proof {
        assert(qs.take(n as int) =~= qs);
    }
    if n > 0 && total == 0 {
        return false;
    }
    let mut j: usize = 0;
    while j < n
        invariant
            j <= n,
            n == state.proposals@.len(),
            fs == round_votes(*state),
            budget == state.config.budget.amount,
            matches@.len() == n,
            total == match_total(fs),
            n > 0 ==> total > 0,
            forall|k: int|
                0 <= k < n ==> {
                    &&& #[trigger] matches@[k] == quadratic_match(fs[k])
                    &&& quadratic_match(fs[k]) * budget <= u128::MAX
                },
            forall|k: int|
                0 <= k < j ==> #[trigger] proposal_grant(*state, k)
                    + state.proposals@[k].collected_funds <= u128::MAX,
        decreases n - j,
    {
        let grant = matches[j] * budget / total;
        assert(grant == proposal_grant(*state, j as int));
        if grant > u128::MAX - state.proposals[j].collected_funds {
            return false;
        }
        j = j + 1;
    }
    proof {
        assert forall|k: int| 0 <= k < fs.len() implies #[trigger] quadratic_match(fs[k])
            <= u128::MAX && quadratic_match(fs[k]) * budget <= u128::MAX by {
            assert(matches@[k] == quadratic_match(fs[k]));
        }
    }
    true
}

/// All unconstrained matches are non-negative.
spec fn all_nonneg_matches(qs: Seq<int>) -> bool {
    forall|i: int| 0 <= i < qs.len() ==> qs[i] >= 0
}

/// The inputs on which handling the message stays within the machine's integers.
pub open spec fn execute_in_range(
    s: State,
    block: BlockInfo,
    sender: Seq<char>,
    funds: Seq<Coin>,
    msg: ExecuteMsg,
    fund_address_valid: bool,
) -> bool {
    match msg {
        ExecuteMsg::CreateProposal { .. } => create_in_range(s, block, sender, fund_address_valid),
        ExecuteMsg::VoteProposal { proposal_id } => vote_in_range(s, block, sender, funds, proposal_id),
        ExecuteMsg::TriggerDistribution => trigger_in_range(s, block, sender),
    }
}

/// Whether handling the message stays within the machine's integers, so that `execute` may be
/// called with it.
pub fn execute_fits(
    state: &State,
    block: &BlockInfo,
    sender: &String,
    funds: &Vec<Coin>,
    msg: &ExecuteMsg,
    fund_address_valid: bool,
) -> (r: bool)
    ensures
        r == execute_in_range(*state, *block, sender@, funds@, *msg, fund_address_valid),
{
    match msg {
        ExecuteMsg::CreateProposal { .. } => !check_whitelist(
            &state.config.create_proposal_whitelist,
            sender,
        ) || state.config.proposal_period.is_expired(block) || !fund_address_valid
            || state.proposal_seq < u64::MAX,
        ExecuteMsg::VoteProposal { proposal_id } => {
            if !check_whitelist(&state.config.vote_proposal_whitelist, sender)
                || state.config.voting_period.is_expired(block) || funds.len() != 1
                || funds[0].denom != state.config.budget.denom {
                return true;
            }
            match find_proposal(&state.proposals, *proposal_id) {
                Some(k) => {
                    proof {
                        lemma_proposal_index(state.proposals@, *proposal_id, k as int);
                    }
                    state.proposals[k].collected_funds <= u128::MAX - funds[0].amount
                },
                None => true,
            }
        },
        ExecuteMsg::TriggerDistribution => *sender != state.config.admin
            || !state.config.voting_period.is_expired(block) || distribution_fits(state),
    }
}

/// Handles a message of the round.
pub fn execute(
    state: &mut State,
    block: &BlockInfo,
    sender: &String,
    funds: &Vec<Coin>,
    msg: ExecuteMsg,
    fund_address_valid: bool,
) -> (r: Result<ExecuteOutcome, ContractError>)
    requires
        old(state).wf(),
        execute_in_range(*old(state), *block, sender@, funds@, msg, fund_address_valid),
    ensures
        final(state).wf(),
        match msg {
            ExecuteMsg::CreateProposal { title, description, metadata, fund_address } => {
                &&& create_proposal_outcome(
                    *old(state),
                    *final(state),
                    block,
                    sender,
                    title,
                    description,
                    metadata,
                    fund_address,
                    fund_address_valid,
                    match r {
                        Ok(ExecuteOutcome::ProposalCreated { proposal_id, .. }) => Ok(proposal_id),
                        Ok(_) => Err(ContractError::NotFound),
                        Err(e) => Err(e),
                    },
                )
                &&& r is Ok ==> (r->Ok_0 matches ExecuteOutcome::ProposalCreated { title: t, .. }
                    && t@ == title@)
            },
            ExecuteMsg::VoteProposal { proposal_id } => {
                &&& vote_outcome(
                    *old(state),
                    *final(state),
                    block,
                    sender,
                    funds,
                    proposal_id,
                    match r {
                        Ok(ExecuteOutcome::Voted { collected_funds, .. }) => Ok(collected_funds),
                        Ok(_) => Err(ContractError::NotFound),
                        Err(e) => Err(e),
                    },
                )
                &&& r is Ok ==> (r->Ok_0 matches ExecuteOutcome::Voted { proposal_id: p, voter, .. }
                    && p == proposal_id && voter@ == sender@)
            },
            ExecuteMsg::TriggerDistribution => {
                &&& *final(state) == *old(state)
                &&& distribution_outcome(
                    old(state),
                    block,
                    sender,
                    match r {
                        Ok(ExecuteOutcome::Distributed { sends }) => Ok(sends),
                        Ok(_) => Err(ContractError::NotFound),
                        Err(e) => Err(e),
                    },
                )
            },
        },
{
    match msg {
        ExecuteMsg::CreateProposal { title, description, metadata, fund_address } => {
            let t = title.clone();
            let id = execute_create_proposal(
                state,
                block,
                sender,
                title,
                description,
                metadata,
                fund_address,
                fund_address_valid,
            )?;
            Ok(ExecuteOutcome::ProposalCreated { proposal_id: id, title: t })
        },
        ExecuteMsg::VoteProposal { proposal_id } => {
            let collected = execute_vote_proposal(state, block, sender, funds, proposal_id)?;
            Ok(
                ExecuteOutcome::Voted {
                    proposal_id,
                    voter: sender.clone(),
                    collected_funds: collected,
                },
            )
        },
        ExecuteMsg::TriggerDistribution => {
            let sends = execute_trigger_distribution(state, block, sender)?;
            Ok(ExecuteOutcome::Distributed { sends })
        },
    }
}

/// The proposal with the given id.
pub fn query_proposal_id(state: &State, id: u64) -> (r: Result<Proposal, ContractError>)
    ensures
        !has_proposal(state.proposals@, id) ==> r == Err::<Proposal, ContractError>(
            ContractError::NotFound,
        ),
        has_proposal(state.proposals@, id) ==> r is Ok && same_proposal(
            r->Ok_0,
            state.proposals@[proposal_index(state.proposals@, id)],
        ),
{
    match find_proposal(&state.proposals, id) {
        Some(i) => {
            proof {
                lemma_proposal_index(state.proposals@, id, i as int);
            }
            Ok(copy_proposal(&state.proposals[i]))
        },
        None => Err(ContractError::NotFound),
    }
}

/// All proposals, in ascending id order.
pub fn query_all_proposals(state: &State) -> (r: AllProposalsResponse)
    ensures
        r.proposals@.len() == state.proposals@.len(),
        forall|i: int|
            0 <= i < state.proposals@.len() ==> same_proposal(
                #[trigger] r.proposals@[i],
                state.proposals@[i],
            ),
{
    let mut out: Vec<Proposal> = Vec::new();
    let mut i: usize = 0;
    while i < state.proposals.len()
        invariant
            i <= state.proposals@.len(),
            out@.len() == i,
            forall|k: int| 0 <= k < i ==> same_proposal(#[trigger] out@[k], state.proposals@[k]),
        decreases state.proposals@.len() - i,
    {
        out.push(copy_proposal(&state.proposals[i]));
        i = i + 1;
    }
    AllProposalsResponse { proposals: out }
}

} // verus!
