use cw_examples::common::{BankSend, BlockInfo, Coin};
use cw_examples::voting::{
    handle, init, query_config, query_poll, token_balance, Contract, ContractError,
    EndPollOutcome, HandleMsg, HandleOutcome, PollStatus, RejectedReason, State,
    DEFAULT_END_HEIGHT_BLOCKS, VOTING_TOKEN,
};

const DEFAULT_END_HEIGHT: u64 = 100800u64;
const TEST_CREATOR: &str = "creator";
const TEST_VOTER: &str = "voter1";
const TEST_VOTER_2: &str = "voter2";
const MOCK_HEIGHT: u64 = 12_345;

fn coins(amount: u128, denom: &str) -> Vec<Coin> {
    vec![Coin { denom: denom.to_string(), amount }]
}

fn block(height: u64) -> BlockInfo {
    BlockInfo { height, time: 10_000 }
}

fn mock_init() -> Contract {
    init(TEST_CREATOR.to_string(), VOTING_TOKEN.to_string())
}

fn send(
    c: &mut Contract,
    height: u64,
    sender: &str,
    sent: &[Coin],
    msg: HandleMsg,
    staked_weight: u128,
) -> Result<HandleOutcome, ContractError> {
    handle(c, &block(height), &sender.to_string(), &sent.to_vec(), msg, staked_weight)
}

fn create_poll_msg(
    quorum_percentage: u8,
    description: &str,
    start_height: Option<u64>,
    end_height: Option<u64>,
) -> HandleMsg {
    HandleMsg::CreatePoll {
        quorum_percentage: Some(quorum_percentage),
        description: description.to_string(),
        start_height,
        end_height,
    }
}

fn expected_state(poll_count: u64, staked_tokens: u128) -> State {
    State {
        denom: VOTING_TOKEN.to_string(),
        owner: TEST_CREATOR.to_string(),
        poll_count,
        staked_tokens,
    }
}

fn assert_create_poll_result(
    poll_id: u64,
    quorum: u8,
    end_height: u64,
    start_height: u64,
    creator: &str,
    outcome: HandleOutcome,
    c: &Contract,
) {
    let start = if start_height == 0 { None } else { Some(start_height) };
    assert_eq!(
        outcome,
        HandleOutcome::PollCreated {
            creator: creator.to_string(),
            poll_id,
            quorum_percentage: Some(quorum),
            end_height,
            start_height: start,
        }
    );
    assert_eq!(query_config(c), expected_state(1, 0));
}

fn assert_stake_tokens_result(
    staked_tokens: u128,
    poll_count: Option<u64>,
    outcome: HandleOutcome,
    c: &Contract,
) {
    assert_eq!(outcome, HandleOutcome::Staked);
    assert_eq!(query_config(c), expected_state(poll_count.unwrap_or_default(), staked_tokens));
}

fn assert_cast_vote_success(voter: &str, weight: u128, poll_id: u64, outcome: HandleOutcome) {
    assert_eq!(outcome, HandleOutcome::Voted { poll_id, weight, voter: voter.to_string() });
}

fn assert_ended(outcome: HandleOutcome, passed: bool, reason: RejectedReason, text: &str) {
    assert_eq!(
        outcome,
        HandleOutcome::PollEnded(EndPollOutcome { poll_id: 1, passed, rejected_reason: reason })
    );
    assert_eq!(reason.as_str(), text);
}

fn error(r: Result<HandleOutcome, ContractError>) -> ContractError {
    match r {
        Ok(_) => panic!("Must return error"),
        Err(e) => e,
    }
}

#[test]
fn tests_proper_initialization() {
    let c = mock_init();
    assert_eq!(query_config(&c), expected_state(0, 0));
}

#[test]
fn poll_not_found() {
    let c = mock_init();
    match query_poll(&c, 1) {
        Err(e) => assert_eq!(e.message(), "Poll does not exist"),
        Ok(_) => panic!("Must return error"),
    }
}

#[test]
fn fails_create_poll_invalid_quorum_percentage() {
    let mut c = mock_init();
    let msg = create_poll_msg(101, "test", None, None);
    let e = error(send(&mut c, MOCK_HEIGHT, "voter", &coins(11, VOTING_TOKEN), msg, 0));
    assert_eq!(e, ContractError::PollQuorumPercentageMismatch { quorum_percentage: 101 });
    assert_eq!(e.message(), "quorum_percentage must be 0 to 100");
}

#[test]
fn fails_create_poll_invalid_description() {
    let mut c = mock_init();
    let msg = create_poll_msg(30, "a", None, None);
    let e = error(send(&mut c, MOCK_HEIGHT, TEST_VOTER, &coins(11, VOTING_TOKEN), msg, 0));
    assert_eq!(e.message(), "Description too short");

    let msg = create_poll_msg(
        100,
        "01234567890123456789012345678901234567890123456789012345678901234",
        None,
        None,
    );
    let e = error(send(&mut c, MOCK_HEIGHT, TEST_VOTER, &coins(11, VOTING_TOKEN), msg, 0));
    assert_eq!(e.message(), "Description too long");
}

fn happy_days_create_poll_scenario(quorum: u8) -> Contract {
    let mut c = mock_init();
    let msg = create_poll_msg(quorum, "test", None, None);
    let outcome = send(&mut c, 0, TEST_CREATOR, &coins(2, VOTING_TOKEN), msg, 0).unwrap();
    assert_create_poll_result(1, quorum, DEFAULT_END_HEIGHT, 0, TEST_CREATOR, outcome, &c);
    c
}

#[test]
fn tests_happy_days_create_poll() {
    happy_days_create_poll_scenario(30);
}

#[test]
fn integration_happy_days_create_poll() {
    let c = happy_days_create_poll_scenario(30);
    let p = query_poll(&c, 1).unwrap();
    assert_eq!(p.status, PollStatus::InProgress);
    assert_eq!(p.end_height, Some(DEFAULT_END_HEIGHT_BLOCKS));
    assert_eq!(p.description, "test");
}

#[test]
fn tests_create_poll_no_quorum() {
    happy_days_create_poll_scenario(0);
}

#[test]
fn integration_create_poll_no_quorum() {
    let c = happy_days_create_poll_scenario(0);
    assert_eq!(query_poll(&c, 1).unwrap().quorum_percentage, Some(0));
}

#[test]
fn fails_end_poll_before_end_height() {
    let mut c = mock_init();
    let msg = create_poll_msg(0, "test", None, Some(10001));
    let outcome = send(&mut c, 0, TEST_CREATOR, &coins(2, VOTING_TOKEN), msg, 0).unwrap();
    assert_create_poll_result(1, 0, 10001, 0, TEST_CREATOR, outcome, &c);

    assert_eq!(query_poll(&c, 1).unwrap().end_height, Some(10001));

    let e = error(send(&mut c, 0, TEST_CREATOR, &[], HandleMsg::EndPoll { poll_id: 1 }, 0));
    assert_eq!(e.message(), "Voting period has not expired.");
}

fn happy_days_end_poll_scenario() -> (Contract, HandleOutcome) {
    const POLL_END_HEIGHT: u64 = 1000;
    let stake_amount = 1000;
    let mut c = mock_init();

    let msg = create_poll_msg(0, "test", None, Some(POLL_END_HEIGHT + 1));
    let outcome =
        send(&mut c, POLL_END_HEIGHT, TEST_CREATOR, &coins(2, VOTING_TOKEN), msg, 0).unwrap();
    assert_create_poll_result(1, 0, POLL_END_HEIGHT + 1, 0, TEST_CREATOR, outcome, &c);

    let stake = coins(stake_amount, VOTING_TOKEN);
    let outcome =
        send(&mut c, MOCK_HEIGHT, TEST_VOTER, &stake, HandleMsg::StakeVotingTokens, 0).unwrap();
    assert_stake_tokens_result(stake_amount, Some(1), outcome, &c);

    let msg = HandleMsg::CastVote { poll_id: 1, vote: "yes".to_string(), weight: stake_amount };
    let outcome = send(&mut c, MOCK_HEIGHT, TEST_VOTER, &stake, msg, 0).unwrap();
    assert_cast_vote_success(TEST_VOTER, 1000, 1, outcome);

    let msg = HandleMsg::EndPoll { poll_id: 1 };
    let outcome = send(&mut c, POLL_END_HEIGHT + 1, TEST_CREATOR, &[], msg, 1000).unwrap();
    (c, outcome)
}

#[test]
fn tests_happy_days_end_poll() {
    let (_, outcome) = happy_days_end_poll_scenario();
    assert_ended(outcome, true, RejectedReason::NotRejected, "");
}

#[test]
fn integration_happy_days_end_poll() {
    let (c, outcome) = happy_days_end_poll_scenario();
    assert_ended(outcome, true, RejectedReason::NotRejected, "");
    assert_eq!(query_poll(&c, 1).unwrap().status, PollStatus::Passed);
    // the voter's tokens are no longer locked: all of them can be withdrawn
    let mut c = c;
    let msg = HandleMsg::WithdrawVotingTokens { amount: None };
    let outcome = send(&mut c, MOCK_HEIGHT, TEST_VOTER, &[], msg, 0).unwrap();
    assert_eq!(
        outcome,
        HandleOutcome::Withdrawn {
            send: BankSend { to_address: TEST_VOTER.to_string(), amount: coins(1000, VOTING_TOKEN) },
        }
    );
}

fn end_poll_zero_quorum_scenario() -> (Contract, HandleOutcome) {
    let mut c = mock_init();
    let msg = create_poll_msg(0, "test", None, Some(1001));
    let outcome = send(&mut c, 1000, TEST_CREATOR, &coins(2, VOTING_TOKEN), msg, 0).unwrap();
    assert_create_poll_result(1, 0, 1001, 0, TEST_CREATOR, outcome, &c);
    let msg = HandleMsg::EndPoll { poll_id: 1 };
    let outcome = send(&mut c, 1002, TEST_CREATOR, &[], msg, 1000).unwrap();
    (c, outcome)
}

#[test]
fn tests_end_poll_zero_quorum() {
    let (_, outcome) = end_poll_zero_quorum_scenario();
    assert_ended(outcome, false, RejectedReason::QuorumNotReached, "Quorum not reached");
}

#[test]
fn integration_end_poll_zero_quorum() {
    let (c, outcome) = end_poll_zero_quorum_scenario();
    assert_ended(outcome, false, RejectedReason::QuorumNotReached, "Quorum not reached");
    assert_eq!(query_poll(&c, 1).unwrap().status, PollStatus::Rejected);
}

fn end_poll_quorum_rejected_scenario() -> (Contract, HandleOutcome) {
    let mut c = mock_init();
    let msg = create_poll_msg(30, "test", None, Some(MOCK_HEIGHT + 1));
    let outcome = send(&mut c, MOCK_HEIGHT, TEST_CREATOR, &coins(2, VOTING_TOKEN), msg, 0).unwrap();
    assert_create_poll_result(1, 30, 12346, 0, TEST_CREATOR, outcome, &c);

    let stake = coins(100, VOTING_TOKEN);
    let outcome =
        send(&mut c, MOCK_HEIGHT, TEST_VOTER, &stake, HandleMsg::StakeVotingTokens, 0).unwrap();
    assert_stake_tokens_result(100, Some(1), outcome, &c);

    let msg = HandleMsg::CastVote { poll_id: 1, vote: "yes".to_string(), weight: 10 };
    let outcome = send(&mut c, MOCK_HEIGHT, TEST_VOTER, &stake, msg, 0).unwrap();
    assert_cast_vote_success(TEST_VOTER, 10, 1, outcome);

    let msg = HandleMsg::EndPoll { poll_id: 1 };
    let outcome = send(&mut c, MOCK_HEIGHT + 2, TEST_CREATOR, &[], msg, 100).unwrap();
    (c, outcome)
}

#[test]
fn tests_end_poll_quorum_rejected() {
    let (_, outcome) = end_poll_quorum_rejected_scenario();
    assert_ended(outcome, false, RejectedReason::QuorumNotReached, "Quorum not reached");
}

#[test]
fn integration_end_poll_quorum_rejected() {
    let (c, outcome) = end_poll_quorum_rejected_scenario();
    assert_ended(outcome, false, RejectedReason::QuorumNotReached, "Quorum not reached");
    assert_eq!(query_poll(&c, 1).unwrap().status, PollStatus::Rejected);
}

fn end_poll_nay_rejected_scenario() -> (Contract, HandleOutcome) {
    let voter1_stake = 100;
    let voter2_stake = 1000;
    let mut c = mock_init();
    let msg = create_poll_msg(10, "test", None, Some(MOCK_HEIGHT + 1));
    let outcome = send(&mut c, MOCK_HEIGHT, TEST_CREATOR, &coins(2, VOTING_TOKEN), msg, 0).unwrap();
    assert_create_poll_result(1, 10, 12346, 0, TEST_CREATOR, outcome, &c);

    let outcome = send(
        &mut c,
        MOCK_HEIGHT,
        TEST_VOTER,
        &coins(voter1_stake, VOTING_TOKEN),
        HandleMsg::StakeVotingTokens,
        0,
    )
    .unwrap();
    assert_stake_tokens_result(voter1_stake, Some(1), outcome, &c);

    let outcome = send(
        &mut c,
        MOCK_HEIGHT,
        TEST_VOTER_2,
        &coins(voter2_stake, VOTING_TOKEN),
        HandleMsg::StakeVotingTokens,
        0,
    )
    .unwrap();
    assert_stake_tokens_result(voter1_stake + voter2_stake, Some(1), outcome, &c);

    let msg = HandleMsg::CastVote { poll_id: 1, vote: "no".to_string(), weight: voter2_stake };
    let outcome = send(&mut c, MOCK_HEIGHT, TEST_VOTER_2, &[], msg, 0).unwrap();
    assert_cast_vote_success(TEST_VOTER_2, voter2_stake, 1, outcome);

    let msg = HandleMsg::EndPoll { poll_id: 1 };
    let outcome = send(&mut c, MOCK_HEIGHT + 2, TEST_CREATOR, &[], msg, voter1_stake).unwrap();
    (c, outcome)
}

#[test]
fn tests_end_poll_nay_rejected() {
    let (_, outcome) = end_poll_nay_rejected_scenario();
    assert_ended(outcome, false, RejectedReason::ThresholdNotReached, "Threshold not reached");
}

#[test]
fn integration_end_poll_nay_rejected() {
    let (c, outcome) = end_poll_nay_rejected_scenario();
    assert_ended(outcome, false, RejectedReason::ThresholdNotReached, "Threshold not reached");
    assert_eq!(query_poll(&c, 1).unwrap().status, PollStatus::Rejected);
}

#[test]
fn fails_end_poll_before_start_height() {
    let mut c = mock_init();
    let msg = create_poll_msg(30, "test", Some(1001), None);
    let outcome = send(&mut c, 0, TEST_CREATOR, &coins(2, VOTING_TOKEN), msg, 0).unwrap();
    assert_create_poll_result(1, 30, DEFAULT_END_HEIGHT, 1001, TEST_CREATOR, outcome, &c);
    let e = error(send(&mut c, 0, TEST_CREATOR, &[], HandleMsg::EndPoll { poll_id: 1 }, 0));
    assert_eq!(e.message(), "Voting period has not started.");
}

#[test]
fn end_poll_only_by_creator_and_once() {
    let (mut c, _) = happy_days_end_poll_scenario();
    let msg = HandleMsg::EndPoll { poll_id: 1 };
    let e = error(send(&mut c, 2000, TEST_VOTER, &[], msg.clone(), 1000));
    assert_eq!(e.message(), "User is not the creator of the poll.");
    let e = error(send(&mut c, 2000, TEST_CREATOR, &[], msg, 1000));
    assert_eq!(e, ContractError::PollNotInProgress);
}

#[test]
fn fails_cast_vote_not_enough_staked() {
    let mut c = happy_days_create_poll_scenario(0);
    let msg = HandleMsg::CastVote { poll_id: 1, vote: "yes".to_string(), weight: 1 };
    let e = error(send(&mut c, MOCK_HEIGHT, TEST_VOTER, &coins(11, VOTING_TOKEN), msg, 0));
    assert_eq!(e.message(), "User does not have enough staked tokens.");
}

fn happy_days_cast_vote_scenario() -> Contract {
    let mut c = happy_days_create_poll_scenario(30);
    let stake = coins(11, VOTING_TOKEN);
    let outcome =
        send(&mut c, MOCK_HEIGHT, TEST_VOTER, &stake, HandleMsg::StakeVotingTokens, 0).unwrap();
    assert_stake_tokens_result(11, Some(1), outcome, &c);

    let msg = HandleMsg::CastVote { poll_id: 1, vote: "yes".to_string(), weight: 10 };
    let outcome = send(&mut c, MOCK_HEIGHT, TEST_VOTER, &stake, msg, 0).unwrap();
    assert_cast_vote_success(TEST_VOTER, 10, 1, outcome);
    c
}

#[test]
fn tests_happy_days_cast_vote() {
    happy_days_cast_vote_scenario();
}

#[test]
fn integration_happy_days_cast_vote() {
    let mut c = happy_days_cast_vote_scenario();
    // the vote locks 10 of the 11 staked tokens
    let msg = HandleMsg::WithdrawVotingTokens { amount: Some(2) };
    let e = error(send(&mut c, MOCK_HEIGHT, TEST_VOTER, &[], msg, 0));
    assert_eq!(e.message(), "User is trying to withdraw too many tokens.");
    assert_eq!(token_balance(&c, &TEST_VOTER.to_string()).token_balance, 11);
}

fn happy_days_withdraw_scenario() -> Contract {
    let mut c = mock_init();
    let stake = coins(11, VOTING_TOKEN);
    let outcome =
        send(&mut c, MOCK_HEIGHT, TEST_VOTER, &stake, HandleMsg::StakeVotingTokens, 0).unwrap();
    assert_stake_tokens_result(11, None, outcome, &c);
    assert_eq!(query_config(&c), expected_state(0, 11));

    let msg = HandleMsg::WithdrawVotingTokens { amount: Some(11) };
    let outcome = send(&mut c, MOCK_HEIGHT, TEST_VOTER, &stake, msg, 0).unwrap();
    assert_eq!(
        outcome,
        HandleOutcome::Withdrawn {
            send: BankSend { to_address: TEST_VOTER.to_string(), amount: coins(11, VOTING_TOKEN) },
        }
    );
    assert_eq!(query_config(&c), expected_state(0, 0));
    c
}

#[test]
fn tests_happy_days_withdraw_voting_tokens() {
    happy_days_withdraw_scenario();
}

#[test]
fn integration_happy_days_withdraw_voting_tokens() {
    let c = happy_days_withdraw_scenario();
    assert_eq!(token_balance(&c, &TEST_VOTER.to_string()).token_balance, 0);
}

#[test]
fn fails_withdraw_voting_tokens_no_stake() {
    let mut c = mock_init();
    let msg = HandleMsg::WithdrawVotingTokens { amount: Some(11) };
    let e = error(send(&mut c, MOCK_HEIGHT, TEST_VOTER, &coins(11, VOTING_TOKEN), msg, 0));
    assert_eq!(e.message(), "Nothing staked");
}

#[test]
fn fails_withdraw_too_many_tokens() {
    let mut c = mock_init();
    let outcome = send(
        &mut c,
        MOCK_HEIGHT,
        TEST_VOTER,
        &coins(10, VOTING_TOKEN),
        HandleMsg::StakeVotingTokens,
        0,
    )
    .unwrap();
    assert_stake_tokens_result(10, None, outcome, &c);

    let msg = HandleMsg::WithdrawVotingTokens { amount: Some(11) };
    let e = error(send(&mut c, MOCK_HEIGHT, TEST_VOTER, &[], msg, 0));
    assert_eq!(e, ContractError::ExcessiveWithdraw { max_amount: 10 });
    assert_eq!(e.message(), "User is trying to withdraw too many tokens.");
}

#[test]
fn fails_cast_vote_twice() {
    let mut c = happy_days_create_poll_scenario(30);
    let stake = coins(11, VOTING_TOKEN);
    let outcome =
        send(&mut c, MOCK_HEIGHT, TEST_VOTER, &stake, HandleMsg::StakeVotingTokens, 0).unwrap();
    assert_stake_tokens_result(11, Some(1), outcome, &c);

    let msg = HandleMsg::CastVote { poll_id: 1, vote: "yes".to_string(), weight: 1 };
    let outcome = send(&mut c, MOCK_HEIGHT, TEST_VOTER, &stake, msg.clone(), 0).unwrap();
    assert_cast_vote_success(TEST_VOTER, 1, 1, outcome);

    let e = error(send(&mut c, MOCK_HEIGHT, TEST_VOTER, &stake, msg, 0));
    assert_eq!(e.message(), "User has already voted.");
}

#[test]
fn fails_cast_vote_without_poll() {
    let mut c = mock_init();
    let msg = HandleMsg::CastVote { poll_id: 0, vote: "yes".to_string(), weight: 1 };
    let e = error(send(&mut c, MOCK_HEIGHT, TEST_VOTER, &coins(11, VOTING_TOKEN), msg, 0));
    assert_eq!(e.message(), "Poll does not exist");
}

fn happy_days_stake_scenario() -> Contract {
    let mut c = mock_init();
    let outcome = send(
        &mut c,
        MOCK_HEIGHT,
        TEST_VOTER,
        &coins(11, VOTING_TOKEN),
        HandleMsg::StakeVotingTokens,
        0,
    )
    .unwrap();
    assert_stake_tokens_result(11, None, outcome, &c);
    c
}

#[test]
fn tests_happy_days_stake_voting_tokens() {
    happy_days_stake_scenario();
}

#[test]
fn integration_happy_days_stake_voting_tokens() {
    let c = happy_days_stake_scenario();
    assert_eq!(token_balance(&c, &TEST_VOTER.to_string()).token_balance, 11);
}

#[test]
fn fails_insufficient_funds() {
    let mut c = init(TEST_VOTER.to_string(), VOTING_TOKEN.to_string());
    let msg = HandleMsg::StakeVotingTokens;
    let e = error(send(&mut c, MOCK_HEIGHT, TEST_VOTER, &coins(0, VOTING_TOKEN), msg, 0));
    assert_eq!(e.message(), "Insufficient funds sent");
}

#[test]
fn fails_staking_wrong_token() {
    let mut c = init(TEST_VOTER.to_string(), VOTING_TOKEN.to_string());
    let msg = HandleMsg::StakeVotingTokens;
    let e = error(send(&mut c, MOCK_HEIGHT, TEST_VOTER, &coins(11, "play money"), msg, 0));
    assert_eq!(e.message(), "Insufficient funds sent");
}

#[test]
fn staked_total_is_sum_of_balances() {
    let mut c = mock_init();
    send(&mut c, MOCK_HEIGHT, TEST_VOTER, &coins(11, VOTING_TOKEN), HandleMsg::StakeVotingTokens, 0)
        .unwrap();
    send(&mut c, MOCK_HEIGHT, TEST_VOTER_2, &coins(30, VOTING_TOKEN), HandleMsg::StakeVotingTokens, 0)
        .unwrap();
    send(&mut c, MOCK_HEIGHT, TEST_VOTER, &coins(4, VOTING_TOKEN), HandleMsg::StakeVotingTokens, 0)
        .unwrap();
    let msg = HandleMsg::WithdrawVotingTokens { amount: Some(5) };
    send(&mut c, MOCK_HEIGHT, TEST_VOTER_2, &[], msg, 0).unwrap();
    let b1 = token_balance(&c, &TEST_VOTER.to_string()).token_balance;
    let b2 = token_balance(&c, &TEST_VOTER_2.to_string()).token_balance;
    assert_eq!(b1, 15);
    assert_eq!(b2, 25);
    assert_eq!(query_config(&c).staked_tokens, b1 + b2);
}

#[test]
fn stake_stays_locked_until_poll_ends() {
    let mut c = mock_init();
    let msg = create_poll_msg(0, "test", None, Some(1001));
    send(&mut c, 1000, TEST_CREATOR, &[], msg, 0).unwrap();
    send(&mut c, 1000, TEST_VOTER, &coins(10, VOTING_TOKEN), HandleMsg::StakeVotingTokens, 0)
        .unwrap();
    let msg = HandleMsg::CastVote { poll_id: 1, vote: "yes".to_string(), weight: 6 };
    send(&mut c, 1000, TEST_VOTER, &[], msg, 0).unwrap();

    let msg = HandleMsg::WithdrawVotingTokens { amount: Some(5) };
    let e = error(send(&mut c, 1000, TEST_VOTER, &[], msg, 0));
    assert_eq!(e, ContractError::ExcessiveWithdraw { max_amount: 4 });
    let msg = HandleMsg::WithdrawVotingTokens { amount: Some(4) };
    send(&mut c, 1000, TEST_VOTER, &[], msg, 0).unwrap();
    assert_eq!(token_balance(&c, &TEST_VOTER.to_string()).token_balance, 6);

    let msg = HandleMsg::EndPoll { poll_id: 1 };
    send(&mut c, 1001, TEST_CREATOR, &[], msg, 6).unwrap();
    let msg = HandleMsg::WithdrawVotingTokens { amount: None };
    let outcome = send(&mut c, 1001, TEST_VOTER, &[], msg, 0).unwrap();
    assert_eq!(
        outcome,
        HandleOutcome::Withdrawn {
            send: BankSend { to_address: TEST_VOTER.to_string(), amount: coins(6, VOTING_TOKEN) },
        }
    );
    assert_eq!(token_balance(&c, &TEST_VOTER.to_string()).token_balance, 0);
    assert_eq!(query_config(&c).staked_tokens, 0);
}

#[test]
fn quorum_counts_the_share_of_staked_weight() {
    let mut c = mock_init();
    let msg = create_poll_msg(30, "test", None, Some(1001));
    send(&mut c, 1000, TEST_CREATOR, &[], msg, 0).unwrap();
    send(&mut c, 1000, TEST_VOTER, &coins(50, VOTING_TOKEN), HandleMsg::StakeVotingTokens, 0)
        .unwrap();
    let msg = HandleMsg::CastVote { poll_id: 1, vote: "yes".to_string(), weight: 50 };
    send(&mut c, 1000, TEST_VOTER, &[], msg, 0).unwrap();
    // 50 of 100 staked took part: more than the 30 percent quorum
    let outcome = send(&mut c, 1001, TEST_CREATOR, &[], HandleMsg::EndPoll { poll_id: 1 }, 100)
        .unwrap();
    assert_ended(outcome, true, RejectedReason::NotRejected, "");

    let mut c = mock_init();
    let msg = create_poll_msg(30, "test", None, Some(1001));
    send(&mut c, 1000, TEST_CREATOR, &[], msg, 0).unwrap();
    send(&mut c, 1000, TEST_VOTER, &coins(29, VOTING_TOKEN), HandleMsg::StakeVotingTokens, 0)
        .unwrap();
    let msg = HandleMsg::CastVote { poll_id: 1, vote: "yes".to_string(), weight: 29 };
    send(&mut c, 1000, TEST_VOTER, &[], msg, 0).unwrap();
    // 29 of 100 staked is below the 30 percent quorum
    let outcome = send(&mut c, 1001, TEST_CREATOR, &[], HandleMsg::EndPoll { poll_id: 1 }, 100)
        .unwrap();
    assert_ended(outcome, false, RejectedReason::QuorumNotReached, "Quorum not reached");
}

#[test]
fn missing_poll_is_not_found() {
    let mut c = mock_init();
    let e = error(send(&mut c, 1000, TEST_CREATOR, &[], HandleMsg::EndPoll { poll_id: 1 }, 0));
    assert_eq!(e, ContractError::NotFound);
    assert_eq!(e.message(), "cw_voting::state::Poll not found");
}
