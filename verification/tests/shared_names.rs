// Scenarios that several contracts' test suites share a name for.

use cw_examples::common::Coin;
use cw_examples::erc20;
use cw_examples::escrow;
use cw_examples::mask;
use cw_examples::nameservice;
use cw_examples::simple_option;
use cw_examples::voting;

fn coins(amount: u128, denom: &str) -> Vec<Coin> {
    vec![Coin { denom: denom.to_string(), amount }]
}

fn escrow_proper_initialization() {
    let msg = escrow::InitMsg {
        arbiter: "verifies".to_string(),
        recipient: "benefits".to_string(),
        end_height: Some(1000),
        end_time: None,
    };
    let state = escrow::init(&"creator".to_string(), 876, 0, msg).unwrap();
    assert_eq!(
        state,
        escrow::State {
            arbiter: "verifies".to_string(),
            recipient: "benefits".to_string(),
            source: "creator".to_string(),
            end_height: Some(1000),
            end_time: None,
        }
    );
}

#[test]
fn contract_proper_initialization() {
    escrow_proper_initialization();

    // the proxy is owned by its creator
    let state = mask::init(&"creator".to_string());
    assert_eq!(mask::query_owner(&state).owner, "creator");

    // the option locks what its creator sent
    let msg = simple_option::InstantiateMsg { counter_offer: coins(40, "ETH"), expires: 100_000 };
    let config = Some(
        simple_option::instantiate(12_345, &"creator".to_string(), coins(1, "BTC"), msg).unwrap(),
    );
    let res = simple_option::query_config(&config).unwrap();
    assert_eq!(100_000, res.expires);
    assert_eq!("creator", res.owner.as_str());
    assert_eq!("creator", res.creator.as_str());
    assert_eq!(coins(1, "BTC"), res.collateral);
    assert_eq!(coins(40, "ETH"), res.counter_offer);
}

#[test]
fn contract_transfer() {
    // the proxy's owner hands it on
    let mut state = mask::init(&"creator".to_string());
    let msg: mask::HandleMsg<Coin> = mask::HandleMsg::ChangeOwner { owner: "friend".to_string() };
    let res = mask::handle(&mut state, &"creator".to_string(), msg).unwrap();
    match res {
        mask::HandleOutcome::OwnerChanged { owner, attributes } => {
            assert_eq!(owner, "friend");
            assert_eq!(attributes.len(), 2);
            assert_eq!(attributes[1].value, "friend");
        },
        _ => panic!("expected the owner to change"),
    }
    assert_eq!(mask::query_owner(&state).owner, "friend");

    // the option's owner hands it on; nobody else can
    let msg = simple_option::InstantiateMsg { counter_offer: coins(40, "ETH"), expires: 100_000 };
    let mut config = Some(
        simple_option::instantiate(12_345, &"creator".to_string(), coins(1, "BTC"), msg).unwrap(),
    );
    let err = simple_option::execute_transfer(
        &mut config,
        &"anyone".to_string(),
        "anyone".to_string(),
        true,
    )
    .unwrap_err();
    assert_eq!(err, simple_option::ContractError::Unauthorized);

    let res = simple_option::execute_transfer(
        &mut config,
        &"creator".to_string(),
        "someone".to_string(),
        true,
    )
    .unwrap();
    assert_eq!(res.attributes.len(), 2);
    assert_eq!(res.attributes[0].key, "action");
    assert_eq!(res.attributes[0].value, "transfer");
    assert_eq!(res.attributes[1].key, "owner");
    assert_eq!(res.attributes[1].value, "someone");

    let res = simple_option::query_config(&config).unwrap();
    assert_eq!("someone", res.owner.as_str());
    assert_eq!("creator", res.creator.as_str());
}

#[test]
fn integration_proper_initialization() {
    let c = voting::init("creator".to_string(), voting::VOTING_TOKEN.to_string());
    assert_eq!(
        voting::query_config(&c),
        voting::State {
            denom: voting::VOTING_TOKEN.to_string(),
            owner: "creator".to_string(),
            poll_count: 0,
            staked_tokens: 0,
        }
    );

    escrow_proper_initialization();
}

#[test]
fn integration_transfer_works() {
    // a token transfer moves the amount between the two balances
    let mut token = erc20::init(erc20::InitMsg {
        name: "Ash token".to_string(),
        symbol: "ASH".to_string(),
        decimals: 5,
        initial_balances: vec![
            erc20::InitialBalance { address: b"addr0000".to_vec(), amount: "11".to_string() },
            erc20::InitialBalance { address: b"addr1111".to_vec(), amount: "22".to_string() },
        ],
    })
    .unwrap();
    let msg =
        erc20::HandleMsg::Transfer { recipient: b"addr1111".to_vec(), amount: "1".to_string() };
    let outcome = erc20::handle(&mut token, b"addr0000", msg).unwrap();
    assert_eq!(outcome.log(), "transfer successful");
    assert_eq!(erc20::read_balance(&token.store, b"addr0000").unwrap(), 10);
    assert_eq!(erc20::read_balance(&token.store, b"addr1111").unwrap(), 23);

    // a name's owner hands it on
    let mut c = nameservice::init(nameservice::InitMsg {
        name: "cheap".to_string(),
        purchase_price: None,
        transfer_price: None,
    });
    let alice_key = "alice_key".to_string();
    let msg = nameservice::HandleMsg::Register { name: "alice".to_string() };
    nameservice::handle(&mut c, &alice_key, &None, msg).unwrap();
    let msg =
        nameservice::HandleMsg::Transfer { name: "alice".to_string(), to: "bob_key".to_string() };
    nameservice::handle(&mut c, &alice_key, &None, msg).unwrap();
    assert_eq!(
        nameservice::query_resolver(&c, &"alice".to_string()).address,
        Some("bob_key".to_string())
    );
}
