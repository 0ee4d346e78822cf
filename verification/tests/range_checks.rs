use cw_examples::common::{BlockInfo, Coin, Expiration};
use cw_examples::erc20;
use cw_examples::prefixed::PrefixedStorage;
use cw_examples::storage::MemoryStorage;
use cw_examples::quadratic::contract as qf;
use cw_examples::quadratic::error::ContractError;
use cw_examples::quadratic::matching::{checked_match, QuadraticFundingAlgorithm};
use cw_examples::staking;
use cw_examples::voting;

fn block(height: u64) -> BlockInfo {
    BlockInfo { height, time: 0 }
}

#[test]
fn token_init_and_transfers_check_for_overflow() {
    let row = |a: &str, amount: &str| erc20::InitialBalance {
        address: a.as_bytes().to_vec(),
        amount: amount.to_string(),
    };
    let max = u128::MAX.to_string();
    let too_much = erc20::InitMsg {
        name: "Cash Token".to_string(),
        symbol: "CASH".to_string(),
        decimals: 9,
        initial_balances: vec![row("a", &max), row("b", "1")],
    };
    assert!(!erc20::init_fits(&too_much));
    // an amount that does not parse counts as nothing
    let unparsable = erc20::InitMsg {
        initial_balances: vec![row("a", &max), row("b", "x")],
        ..too_much
    };
    assert!(erc20::init_fits(&unparsable));

    // balances written directly: the recipient already holds u128::MAX
    let mut store = MemoryStorage::new();
    let balances = PrefixedStorage::new(b"balances");
    balances.set(&mut store, b"a", &erc20::u128_to_be_bytes(5));
    balances.set(&mut store, b"b", &erc20::u128_to_be_bytes(u128::MAX));
    let token = erc20::Erc20 {
        constants: erc20::Constants {
            name: "Cash Token".to_string(),
            symbol: "CASH".to_string(),
            decimals: 9,
        },
        store,
    };
    let to_b = |amount: &str| erc20::HandleMsg::Transfer {
        recipient: b"b".to_vec(),
        amount: amount.to_string(),
    };
    // the recipient's balance would pass u128::MAX
    assert!(!erc20::handle_fits(&token, b"a", &to_b("1")));
    // a transfer the sender cannot cover fails without touching the recipient's balance
    assert!(erc20::handle_fits(&token, b"a", &to_b("6")));
    assert!(erc20::handle_fits(&token, b"a", &to_b("0")));
    // an address used as an allowance prefix must fit one length byte
    let long = vec![1u8; 256];
    let approve = erc20::HandleMsg::Approve { spender: b"s".to_vec(), amount: "1".to_string() };
    assert!(!erc20::handle_fits(&token, &long, &approve));
    assert!(erc20::handle_fits(&token, b"a", &approve));
}

#[test]
fn voting_checks_for_overflow() {
    let mut c = voting::init("creator".to_string(), "vote".to_string());
    let stake = vec![Coin { denom: "vote".to_string(), amount: u128::MAX }];
    let sender = "voter".to_string();
    assert!(voting::handle_fits(&c, &block(1), &sender, &stake, &voting::HandleMsg::StakeVotingTokens, 0));
    voting::handle(&mut c, &block(1), &sender, &stake, voting::HandleMsg::StakeVotingTokens, 0)
        .unwrap();
    let one = vec![Coin { denom: "vote".to_string(), amount: 1 }];
    assert!(!voting::handle_fits(&c, &block(1), &sender, &one, &voting::HandleMsg::StakeVotingTokens, 0));
    // coins of another denomination are not staked
    let other = vec![Coin { denom: "other".to_string(), amount: 1 }];
    assert!(voting::handle_fits(&c, &block(1), &sender, &other, &voting::HandleMsg::StakeVotingTokens, 0));

    let create = voting::HandleMsg::CreatePoll {
        quorum_percentage: None,
        description: "test".to_string(),
        start_height: None,
        end_height: None,
    };
    assert!(!voting::handle_fits(&c, &block(u64::MAX - 1), &sender, &vec![], &create, 0));
    assert!(voting::handle_fits(&c, &block(1), &sender, &vec![], &create, 0));

    // the quorum is compared exactly, whatever the tally and the staked weight
    voting::handle(&mut c, &block(1), &sender, &vec![], create, 0).unwrap();
    let vote = voting::HandleMsg::CastVote { poll_id: 1, vote: "yes".to_string(), weight: u128::MAX };
    voting::handle(&mut c, &block(1), &sender, &vec![], vote, 0).unwrap();
    let end = voting::HandleMsg::EndPoll { poll_id: 1 };
    assert!(voting::handle_fits(&c, &block(200_000), &sender, &vec![], &end, 1));
    assert!(voting::handle_fits(&c, &block(200_000), &sender, &vec![], &end, u128::MAX));
    let outcome = voting::handle(&mut c, &block(200_000), &sender, &vec![], end, 1).unwrap();
    assert_eq!(
        outcome,
        voting::HandleOutcome::PollEnded(voting::EndPollOutcome {
            poll_id: 1,
            passed: true,
            rejected_reason: voting::RejectedReason::NotRejected,
        })
    );
}

#[test]
fn staking_checks_for_overflow() {
    let msg = staking::InstantiateMsg {
        admin: None,
        end_height: None,
        end_time: None,
        nft_721_contract_addr_whitelist: vec!["nft".to_string()],
    };
    let mut c = staking::instantiate(&block(1), "admin".to_string(), msg).unwrap();
    let pool = staking::ExecuteMsg::CreateCollectionPool(staking::CreateCollectionPoolMsg {
        collection_id: "c".to_string(),
        reward_per_block: u128::MAX,
        expired_after: None,
    });
    staking::execute(&mut c, &block(1), &"admin".to_string(), pool).unwrap();
    let deposit = |token: &str| staking::ExecuteMsg::ReceiveNft {
        staker: "alice".to_string(),
        token_id: token.to_string(),
        deposit: Some(staking::DepositeMsg { collection_id: "c".to_string(), withdraw_rewards: false }),
    };
    let nft = "nft".to_string();
    assert!(staking::execute_fits(&c, &block(10), &nft, &deposit("t1")));
    staking::execute(&mut c, &block(10), &nft, deposit("t1")).unwrap();
    // one block of reward is u128::MAX; two would overflow
    assert!(staking::execute_fits(&c, &block(11), &nft, &deposit("t2")) == false);
    assert!(!staking::execute_fits(&c, &block(12), &nft, &deposit("t2")));
    let expiring = staking::ExecuteMsg::CreateCollectionPool(staking::CreateCollectionPoolMsg {
        collection_id: "d".to_string(),
        reward_per_block: 1,
        expired_after: Some(u64::MAX),
    });
    assert!(!staking::execute_fits(&c, &block(1), &"admin".to_string(), &expiring));
    // a sender who is not the admin is refused before the expiry is computed
    assert!(staking::execute_fits(&c, &block(1), &"mallory".to_string(), &expiring));
    assert_eq!(
        staking::execute(&mut c, &block(1), &"mallory".to_string(), expiring),
        Err(staking::ContractError::Unauthorized { sender: "mallory".to_string() })
    );
}

#[test]
fn quadratic_matches_and_distribution_check_for_overflow() {
    assert_eq!(checked_match(&vec![4, 9]), Some(25));
    assert_eq!(checked_match(&vec![]), Some(0));
    assert_eq!(checked_match(&vec![u128::MAX]), Some(u64::MAX as u128 * u64::MAX as u128));
    assert_eq!(checked_match(&vec![u128::MAX, u128::MAX]), None);

    let config = |budget: u128| qf::Config {
        admin: "admin".to_string(),
        leftover_addr: "left".to_string(),
        create_proposal_whitelist: None,
        vote_proposal_whitelist: None,
        voting_period: Expiration::Never,
        proposal_period: Expiration::Never,
        budget: Coin { denom: "u".to_string(), amount: budget },
        algorithm: QuadraticFundingAlgorithm::CapitalConstrainedLiberalRadicalism {
            parameter: String::new(),
        },
    };
    let proposal = qf::Proposal { id: 1, collected_funds: 4, ..Default::default() };
    let vote = qf::Vote {
        proposal_id: 1,
        voter: "v".to_string(),
        fund: Coin { denom: "u".to_string(), amount: 4 },
    };
    let state = |budget: u128| qf::State {
        config: config(budget),
        proposal_seq: 1,
        proposals: vec![proposal.clone()],
        votes: vec![vote.clone()],
    };
    assert!(qf::distribution_fits(&state(100)));
    // match 4 times the budget overflows
    assert!(!qf::distribution_fits(&state(u128::MAX)));
    // a proposal without votes makes the total match zero
    let no_votes = qf::State { votes: vec![], ..state(100) };
    assert!(!qf::distribution_fits(&no_votes));
    // an empty round can always be distributed
    let empty = qf::State { proposals: vec![], votes: vec![], ..state(100) };
    assert!(qf::distribution_fits(&empty));

    let funds = vec![Coin { denom: "u".to_string(), amount: u128::MAX }];
    let voter = "voter".to_string();
    let vote_msg = qf::ExecuteMsg::VoteProposal { proposal_id: 1 };
    assert!(!qf::execute_fits(&state(100), &block(1), &voter, &funds, &vote_msg, true));
    let small = vec![Coin { denom: "u".to_string(), amount: 1 }];
    assert!(qf::execute_fits(&state(100), &block(1), &voter, &small, &vote_msg, true));
    // a vote the round refuses anyway, here for the wrong denomination, needs no bound
    let other = vec![Coin { denom: "x".to_string(), amount: u128::MAX }];
    assert!(qf::execute_fits(&state(100), &block(1), &voter, &other, &vote_msg, true));

    // only the admin's trigger after the voting period must fit
    let trigger = qf::ExecuteMsg::TriggerDistribution;
    let mut expired = qf::State { votes: vec![], ..state(100) };
    expired.config.voting_period = Expiration::AtHeight(1);
    let admin = "admin".to_string();
    assert!(!qf::execute_fits(&expired, &block(5), &admin, &vec![], &trigger, true));
    assert!(qf::execute_fits(&expired, &block(5), &voter, &vec![], &trigger, true));
    assert!(qf::execute_fits(&no_votes, &block(5), &admin, &vec![], &trigger, true));
    let mut early = expired.clone();
    assert_eq!(
        qf::execute(&mut early, &block(5), &voter, &vec![], trigger.clone(), true),
        Err(ContractError::Unauthorized)
    );
    let mut open = no_votes.clone();
    assert_eq!(
        qf::execute(&mut open, &block(5), &admin, &vec![], trigger, true),
        Err(ContractError::VotingPeriodNotExpired)
    );
}
