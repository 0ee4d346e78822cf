use cw_examples::common::{Attribute, BankSend, Coin};
use cw_examples::mask::{
    handle, init, query_owner, try_change_owner, ContractError, HandleMsg, HandleOutcome,
};

fn attribute(key: &str, value: &str) -> Attribute {
    Attribute { key: key.to_string(), value: value.to_string() }
}

fn payment(to: &str) -> BankSend {
    BankSend {
        to_address: to.to_string(),
        amount: vec![Coin { denom: "token".to_string(), amount: 1 }],
    }
}

#[test]
fn reflect() {
    let mut state = init(&"creator".to_string());
    let payload = vec![payment("friend")];
    let msg = HandleMsg::ReflectMsg { msgs: payload.clone() };
    let res = handle(&mut state, &"creator".to_string(), msg).unwrap();
    assert_eq!(
        res,
        HandleOutcome::Reflected { msgs: payload, attributes: vec![attribute("action", "reflect")] }
    );
}

#[test]
fn reflect_requires_owner() {
    let mut state = init(&"creator".to_string());
    let msg = HandleMsg::ReflectMsg { msgs: vec![payment("friend")] };
    match handle(&mut state, &"someone".to_string(), msg) {
        Err(ContractError::Unauthorized) => {},
        _ => panic!("Must return unauthorized error"),
    }
}

#[test]
fn reflect_reject_empty_msgs() {
    let mut state = init(&"creator".to_string());
    let msg: HandleMsg<BankSend> = HandleMsg::ReflectMsg { msgs: vec![] };
    match handle(&mut state, &"creator".to_string(), msg) {
        Err(ContractError::NoReflectMsg) => {},
        _ => panic!("Must return contract error"),
    }
}

#[test]
fn reflect_multiple_messages() {
    let mut state = init(&"creator".to_string());
    let payload = vec![payment("friend1"), payment("friend2")];
    let msg = HandleMsg::ReflectMsg { msgs: payload.clone() };
    let res = handle(&mut state, &"creator".to_string(), msg).unwrap();
    assert_eq!(
        res,
        HandleOutcome::Reflected { msgs: payload, attributes: vec![attribute("action", "reflect")] }
    );
}

#[test]
fn transfer_requires_owner() {
    let mut state = init(&"creator".to_string());
    let msg: HandleMsg<BankSend> = HandleMsg::ChangeOwner { owner: "friend".to_string() };
    match handle(&mut state, &"random".to_string(), msg) {
        Err(ContractError::Unauthorized) => {},
        _ => panic!("Must return unauthorized error"),
    }
    assert_eq!(query_owner(&state).owner, "creator");
}

#[test]
fn old_owner_loses_control() {
    let mut state = init(&"creator".to_string());
    try_change_owner(&mut state, &"creator".to_string(), "friend".to_string()).unwrap();
    let msg = HandleMsg::ReflectMsg { msgs: vec![payment("x")] };
    assert_eq!(handle(&mut state, &"creator".to_string(), msg), Err(ContractError::Unauthorized));
    let msg = HandleMsg::ReflectMsg { msgs: vec![payment("x")] };
    assert!(handle(&mut state, &"friend".to_string(), msg).is_ok());
}

#[test]
fn change_owner_reports_the_new_owner() {
    let mut state = init(&"creator".to_string());
    let msg: HandleMsg<BankSend> = HandleMsg::ChangeOwner { owner: "friend".to_string() };
    let res = handle(&mut state, &"creator".to_string(), msg).unwrap();
    assert_eq!(
        res,
        HandleOutcome::OwnerChanged {
            owner: "friend".to_string(),
            attributes: vec![attribute("action", "change_owner"), attribute("owner", "friend")],
        }
    );
    assert_eq!(query_owner(&state).owner, "friend");
}
