use cw_examples::common::{BankSend, Coin};
use cw_examples::escrow::{
    handle, init, query_arbiter, ContractError, HandleMsg, InitMsg, Release, State,
};

fn coins(amount: u128, denom: &str) -> Vec<Coin> {
    vec![Coin { denom: denom.to_string(), amount }]
}

fn init_msg_expire_by_height(height: u64) -> InitMsg {
    InitMsg {
        arbiter: "verifies".to_string(),
        recipient: "benefits".to_string(),
        end_height: Some(height),
        end_time: None,
    }
}

fn release(action: &str, to: &str, amount: Vec<Coin>) -> Release {
    Release {
        action: action.to_string(),
        send: BankSend { to_address: to.to_string(), amount },
    }
}

fn cannot_initialize_expired_scenario() {
    let res = init(&"creator".to_string(), 1001, 0, init_msg_expire_by_height(1000));
    match res.unwrap_err() {
        ContractError::Expired { .. } => {},
        e => panic!("unexpected error: {:?}", e),
    }
}

#[test]
fn contract_cannot_initialize_expired() {
    cannot_initialize_expired_scenario();
}

#[test]
fn integration_cannot_initialize_expired() {
    cannot_initialize_expired_scenario();
    // by time as well
    let msg = InitMsg {
        arbiter: "verifies".to_string(),
        recipient: "benefits".to_string(),
        end_height: None,
        end_time: Some(100),
    };
    let e = init(&"creator".to_string(), 876, 101, msg).unwrap_err();
    assert_eq!(e, ContractError::Expired { end_height: None, end_time: Some(100) });
    assert_eq!(e.message(), "escrow expired");
}

#[test]
fn init_and_query() {
    let msg = InitMsg {
        arbiter: "arbiters".to_string(),
        recipient: "receives".to_string(),
        end_height: None,
        end_time: None,
    };
    let state = init(&"creates".to_string(), 876, 0, msg).unwrap();
    assert_eq!(query_arbiter(&state).arbiter, "arbiters");
}

fn handle_approve_scenario() {
    let init_amount = coins(1000, "earth");
    let state = init(&"creator".to_string(), 876, 0, init_msg_expire_by_height(1000)).unwrap();

    // beneficiary cannot release it
    let msg = HandleMsg::Approve { quantity: None };
    let res = handle(&state, 900, 0, &"beneficiary".to_string(), &init_amount, msg.clone());
    match res.unwrap_err() {
        ContractError::Unauthorized => {},
        e => panic!("unexpected error: {:?}", e),
    }

    // verifier cannot release it when expired
    let res = handle(&state, 1100, 0, &"verifies".to_string(), &init_amount, msg.clone());
    match res.unwrap_err() {
        ContractError::Expired { .. } => {},
        e => panic!("unexpected error: {:?}", e),
    }

    // complete release by verifier, before expiration
    let res = handle(&state, 999, 0, &"verifies".to_string(), &init_amount, msg).unwrap();
    assert_eq!(res, release("approve", "benefits", coins(1000, "earth")));

    // partial release by verifier, before expiration
    let partial_msg = HandleMsg::Approve { quantity: Some(coins(500, "earth")) };
    let res = handle(&state, 999, 0, &"verifies".to_string(), &init_amount, partial_msg).unwrap();
    assert_eq!(res, release("approve", "benefits", coins(500, "earth")));
}

#[test]
fn contract_handle_approve() {
    handle_approve_scenario();
}

#[test]
fn integration_handle_approve() {
    handle_approve_scenario();
}

fn handle_refund_scenario() {
    let init_amount = coins(1000, "earth");
    let state = init(&"creator".to_string(), 876, 0, init_msg_expire_by_height(1000)).unwrap();
    let anybody = "anybody".to_string();

    // cannot release when unexpired (height < end_height)
    let res = handle(&state, 800, 0, &anybody, &init_amount, HandleMsg::Refund);
    assert_eq!(res, Err(ContractError::NotExpired));

    // cannot release when unexpired (height == end_height)
    let res = handle(&state, 1000, 0, &anybody, &init_amount, HandleMsg::Refund);
    match res.unwrap_err() {
        ContractError::NotExpired => {},
        e => panic!("unexpected error: {:?}", e),
    }

    // anyone can release after expiration
    let res = handle(&state, 1001, 0, &anybody, &init_amount, HandleMsg::Refund).unwrap();
    assert_eq!(res, release("refund", "creator", coins(1000, "earth")));
}

#[test]
fn contract_handle_refund() {
    handle_refund_scenario();
}

#[test]
fn integration_handle_refund() {
    handle_refund_scenario();
}

#[test]
fn expiry_is_strictly_after_the_bounds() {
    let state = State {
        arbiter: "a".to_string(),
        recipient: "r".to_string(),
        source: "s".to_string(),
        end_height: Some(10),
        end_time: Some(50),
    };
    assert!(!state.is_expired(10, 50));
    assert!(state.is_expired(11, 50));
    assert!(state.is_expired(10, 51));
    let open = State { end_height: None, end_time: None, ..state };
    assert!(!open.is_expired(u64::MAX, u64::MAX));
}
