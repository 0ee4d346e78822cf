use cw_examples::common::{BankSend, Coin};
use cw_examples::simple_option::{
    execute_burn, execute_execute, execute_transfer, instantiate, query_config, ContractError,
    InstantiateMsg,
};

const MOCK_HEIGHT: u64 = 12_345;

fn coins(amount: u128, denom: &str) -> Vec<Coin> {
    vec![Coin { denom: denom.to_string(), amount }]
}

fn written_option() -> Option<cw_examples::simple_option::State> {
    let msg = InstantiateMsg { counter_offer: coins(40, "ETH"), expires: 100_000 };
    Some(instantiate(MOCK_HEIGHT, &"creator".to_string(), coins(1, "BTC"), msg).unwrap())
}

#[test]
fn contract_execute() {
    let counter_offer = coins(40, "ETH");
    let collateral = coins(1, "BTC");
    let mut config = written_option();

    // set new owner
    execute_transfer(&mut config, &"creator".to_string(), "owner".to_string(), true).unwrap();

    // random cannot execute
    let err =
        execute_execute(&mut config, MOCK_HEIGHT, &"creator".to_string(), counter_offer.clone())
            .unwrap_err();
    assert_eq!(err, ContractError::Unauthorized);

    // expired cannot execute
    let err = execute_execute(&mut config, 200_000, &"owner".to_string(), counter_offer.clone())
        .unwrap_err();
    assert_eq!(err, ContractError::OptionExpired { expired: 100_000 });
    assert_eq!(err.message(), "option expired");

    // bad counter_offer cannot execute
    let err = execute_execute(&mut config, MOCK_HEIGHT, &"owner".to_string(), coins(39, "ETH"))
        .unwrap_err();
    assert_eq!(
        err,
        ContractError::CounterOfferMismatch {
            offer: coins(39, "ETH"),
            counter_offer: counter_offer.clone(),
        }
    );
    assert!(err.message().contains("counter offer"));

    // proper execution
    let res = execute_execute(&mut config, MOCK_HEIGHT, &"owner".to_string(), counter_offer.clone())
        .unwrap();
    assert_eq!(res.messages.len(), 2);
    assert_eq!(
        res.messages[0],
        BankSend { to_address: "creator".to_string(), amount: counter_offer }
    );
    assert_eq!(res.messages[1], BankSend { to_address: "owner".to_string(), amount: collateral });
    assert_eq!(res.attributes[0].key, "action");
    assert_eq!(res.attributes[0].value, "execute");

    // check deleted
    assert_eq!(query_config(&config), Err(ContractError::NotFound));
}

#[test]
fn contract_burn() {
    let counter_offer = coins(40, "ETH");
    let collateral = coins(1, "BTC");
    let mut config = written_option();

    // set new owner
    execute_transfer(&mut config, &"creator".to_string(), "owner".to_string(), true).unwrap();

    // non-expired cannot execute
    let err = execute_burn(&mut config, MOCK_HEIGHT, &vec![]).unwrap_err();
    assert_eq!(err, ContractError::OptionNotExpired { expires: 100_000 });
    assert_eq!(err.message(), "option not yet expired");

    // with funds cannot execute
    let err = execute_burn(&mut config, 200_000, &counter_offer).unwrap_err();
    assert_eq!(err, ContractError::FundsSentWithBurn);
    assert_eq!(err.message(), "don't send funds with burn");

    // expired returns funds
    let res = execute_burn(&mut config, 200_000, &vec![]).unwrap();
    assert_eq!(res.messages.len(), 1);
    assert_eq!(res.messages[0], BankSend { to_address: "creator".to_string(), amount: collateral });
    assert_eq!(res.attributes[0].value, "burn");

    // check deleted
    assert_eq!(query_config(&config), Err(ContractError::NotFound));
}

#[test]
fn cannot_write_an_expired_option() {
    let msg = InstantiateMsg { counter_offer: coins(40, "ETH"), expires: MOCK_HEIGHT };
    let err = instantiate(MOCK_HEIGHT, &"creator".to_string(), vec![], msg).unwrap_err();
    assert_eq!(err, ContractError::OptionExpired { expired: MOCK_HEIGHT });
}

#[test]
fn transfer_needs_a_valid_address_and_a_stored_option() {
    let mut config = written_option();
    let err = execute_transfer(&mut config, &"creator".to_string(), "bad".to_string(), false)
        .unwrap_err();
    assert_eq!(err, ContractError::InvalidAddress);
    assert_eq!(query_config(&config).unwrap().owner, "creator");

    let mut none = None;
    let err =
        execute_transfer(&mut none, &"creator".to_string(), "x".to_string(), true).unwrap_err();
    assert_eq!(err, ContractError::NotFound);
}
