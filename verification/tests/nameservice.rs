use cw_examples::nameservice::{
    assert_sent_sufficient_coin, coin, handle, init, query_resolver, validate_name, Coin, Config,
    Contract, ContractError, HandleMsg, InitMsg,
};

fn coin_vec(amount: &str, denom: &str) -> Option<Vec<Coin>> {
    Some(vec![coin(amount, denom)])
}

fn sent(coins: &[Coin]) -> Option<Vec<Coin>> {
    if coins.is_empty() {
        None
    } else {
        Some(coins.to_vec())
    }
}

fn assert_name_owner(c: &Contract, name: &str, owner: &str) {
    let value = query_resolver(c, &name.to_string());
    assert_eq!(value.address, Some(owner.to_string()));
}

fn mock_init_with_fees(purchase_price: Coin, transfer_price: Coin) -> Contract {
    init(InitMsg {
        name: "costly".to_string(),
        purchase_price: Some(purchase_price),
        transfer_price: Some(transfer_price),
    })
}

fn mock_init_no_fees() -> Contract {
    init(InitMsg { name: "cheap".to_string(), purchase_price: None, transfer_price: None })
}

fn mock_alice_registers_name(c: &mut Contract, funds: &[Coin]) {
    let msg = HandleMsg::Register { name: "alice".to_string() };
    handle(c, &"alice_key".to_string(), &sent(funds), msg)
        .expect("contract successfully handles Register message");
}

fn transfer_to_bob(c: &mut Contract, sender: &str, funds: &[Coin]) -> Result<(), ContractError> {
    let msg = HandleMsg::Transfer { name: "alice".to_string(), to: "bob_key".to_string() };
    handle(c, &sender.to_string(), &sent(funds), msg)
}

#[test]
fn assert_sent_sufficient_coin_works() {
    assert_eq!(assert_sent_sufficient_coin(&None, coin("0", "token")), Ok(()));

    let e = assert_sent_sufficient_coin(&None, coin("5", "token")).unwrap_err();
    assert_eq!(e.message(), "Insufficient funds sent");

    let e = assert_sent_sufficient_coin(&coin_vec("10", "smokin"), coin("5", "token")).unwrap_err();
    assert_eq!(e.message(), "Insufficient funds sent");

    assert_eq!(assert_sent_sufficient_coin(&coin_vec("10", "token"), coin("5", "token")), Ok(()));

    let sent_coins = Some(vec![coin("2", "smokin"), coin("5", "token"), coin("1", "earth")]);
    assert_eq!(assert_sent_sufficient_coin(&sent_coins, coin("5", "token")), Ok(()));
}

#[test]
fn assert_sent_sufficient_coin_handles_parse_failure() {
    let e = assert_sent_sufficient_coin(&None, coin("ff", "token")).unwrap_err();
    assert_eq!(e, ContractError::ParseError);
    assert_eq!(e.message(), "Error while parsing string to u128");

    let sent_coins = Some(vec![coin("abcd", "smokin"), coin("5", "token")]);
    assert_eq!(assert_sent_sufficient_coin(&sent_coins, coin("5", "token")), Ok(()));

    let sent_coins = Some(vec![coin("abcd", "smokin"), coin("efg", "token")]);
    let e = assert_sent_sufficient_coin(&sent_coins, coin("5", "token")).unwrap_err();
    assert_eq!(e.message(), "Insufficient funds sent");
}

fn proper_init_no_fees_scenario() {
    let c = mock_init_no_fees();
    assert_eq!(
        c.config,
        Config { name: "cheap".to_string(), purchase_price: None, transfer_price: None }
    );
}

fn proper_init_with_fees_scenario() {
    let c = mock_init_with_fees(coin("2", "token"), coin("2", "token"));
    assert_eq!(
        c.config,
        Config {
            name: "costly".to_string(),
            purchase_price: Some(coin("2", "token")),
            transfer_price: Some(coin("2", "token")),
        }
    );
}

#[test]
fn tests_proper_init_no_fees() {
    proper_init_no_fees_scenario();
}

#[test]
fn integration_proper_init_no_fees() {
    proper_init_no_fees_scenario();
}

#[test]
fn proper_instantiate_no_fees() {
    proper_init_no_fees_scenario();
}

#[test]
fn tests_proper_init_with_fees() {
    proper_init_with_fees_scenario();
}

#[test]
fn integration_proper_init_with_fees() {
    proper_init_with_fees_scenario();
}

#[test]
fn proper_instantiate_with_prices() {
    proper_init_with_fees_scenario();
}

fn register_and_query_scenario() {
    let mut c = mock_init_no_fees();
    mock_alice_registers_name(&mut c, &[]);
    assert_name_owner(&c, "alice", "alice_key");
}

#[test]
fn tests_register_available_name_and_query_works() {
    register_and_query_scenario();
}

#[test]
fn integration_register_available_name_and_query_works() {
    register_and_query_scenario();
}

fn register_with_fees_scenario() {
    let mut c = mock_init_with_fees(coin("2", "token"), coin("2", "token"));
    mock_alice_registers_name(&mut c, &[coin("2", "token")]);

    // anyone can register an available name with more fees than needed
    let msg = HandleMsg::Register { name: "bob".to_string() };
    handle(&mut c, &"bob_key".to_string(), &coin_vec("5", "token"), msg)
        .expect("contract successfully handles Register message");

    assert_name_owner(&c, "alice", "alice_key");
    assert_name_owner(&c, "bob", "bob_key");
}

#[test]
fn tests_register_available_name_and_query_works_with_fees() {
    register_with_fees_scenario();
}

#[test]
fn integration_register_available_name_and_query_works_with_fees() {
    register_with_fees_scenario();
}

#[test]
fn register_available_name_and_query_works_with_prices() {
    register_with_fees_scenario();
}

fn already_taken_scenario() {
    let mut c = mock_init_no_fees();
    mock_alice_registers_name(&mut c, &[]);

    // bob can't register the same name
    let msg = HandleMsg::Register { name: "alice".to_string() };
    let e = handle(&mut c, &"bob_key".to_string(), &coin_vec("2", "token"), msg.clone())
        .unwrap_err();
    assert_eq!(e, ContractError::NameTaken { name: "alice".to_string() });
    assert_eq!(e.message(), "Name is already taken");

    // alice can't register the same name again
    let e = handle(&mut c, &"alice_key".to_string(), &coin_vec("2", "token"), msg).unwrap_err();
    assert_eq!(e.message(), "Name is already taken");
    assert_name_owner(&c, "alice", "alice_key");
}

#[test]
fn tests_fails_on_register_already_taken_name() {
    already_taken_scenario();
}

#[test]
fn integration_fails_on_register_already_taken_name() {
    already_taken_scenario();
}

fn insufficient_fees_scenario(funds: &[Coin]) {
    let mut c = mock_init_with_fees(coin("2", "token"), coin("2", "token"));
    let msg = HandleMsg::Register { name: "alice".to_string() };
    let e = handle(&mut c, &"alice_key".to_string(), &sent(funds), msg).unwrap_err();
    assert_eq!(e, ContractError::InsufficientFundsSend);
    assert_eq!(e.message(), "Insufficient funds sent");
    assert_eq!(query_resolver(&c, &"alice".to_string()).address, None);
}

#[test]
fn tests_fails_on_register_insufficient_fees() {
    insufficient_fees_scenario(&[]);
}

#[test]
fn integration_fails_on_register_insufficient_fees() {
    insufficient_fees_scenario(&[]);
}

#[test]
fn tests_fails_on_register_wrong_fee_denom() {
    insufficient_fees_scenario(&[coin("2", "earth")]);
}

#[test]
fn integration_fails_on_register_wrong_fee_denom() {
    insufficient_fees_scenario(&[coin("2", "earth")]);
}

fn transfer_works_scenario() {
    let mut c = mock_init_no_fees();
    mock_alice_registers_name(&mut c, &[]);
    transfer_to_bob(&mut c, "alice_key", &[]).expect("contract successfully handles Transfer");
    assert_name_owner(&c, "alice", "bob_key");
}

#[test]
fn tests_transfer_works() {
    transfer_works_scenario();
}

fn transfer_with_fees_scenario() {
    let mut c = mock_init_with_fees(coin("2", "token"), coin("2", "token"));
    mock_alice_registers_name(&mut c, &[coin("2", "token")]);
    transfer_to_bob(&mut c, "alice_key", &[coin("1", "earth"), coin("2", "token")])
        .expect("contract successfully handles Transfer");
    assert_name_owner(&c, "alice", "bob_key");
}

#[test]
fn tests_transfer_works_with_fees() {
    transfer_with_fees_scenario();
}

#[test]
fn integration_transfer_works_with_fees() {
    transfer_with_fees_scenario();
}

fn transfer_from_nonowner_scenario() {
    let mut c = mock_init_no_fees();
    mock_alice_registers_name(&mut c, &[]);
    let e = transfer_to_bob(&mut c, "frank_key", &[coin("2", "token")]).unwrap_err();
    assert_eq!(e, ContractError::Unauthorized);
    assert_eq!(e.message(), "Unauthorized");
    assert_name_owner(&c, "alice", "alice_key");
}

#[test]
fn tests_fails_on_transfer_from_nonowner() {
    transfer_from_nonowner_scenario();
}

#[test]
fn integration_fails_on_transfer_from_nonowner() {
    transfer_from_nonowner_scenario();
}

fn transfer_insufficient_fees_scenario() {
    let mut c = mock_init_with_fees(coin("2", "token"), coin("5", "token"));
    mock_alice_registers_name(&mut c, &[coin("2", "token")]);
    let e = transfer_to_bob(&mut c, "alice_key", &[coin("1", "earth"), coin("2", "token")])
        .unwrap_err();
    assert_eq!(e.message(), "Insufficient funds sent");
    assert_name_owner(&c, "alice", "alice_key");
}

#[test]
fn tests_fails_on_transfer_insufficient_fees() {
    transfer_insufficient_fees_scenario();
}

#[test]
fn integration_fails_on_transfer_insufficient_fees() {
    transfer_insufficient_fees_scenario();
}

#[test]
fn integration_returns_empty_on_query_unregistered_name() {
    let c = mock_init_no_fees();
    assert_eq!(query_resolver(&c, &"alice".to_string()).address, None);
}

#[test]
fn query_of_unregistered_name_answers_no_address_rather_than_an_error() {
    // the resolver answers an unregistered name with an empty address, not a not-found error
    let c = mock_init_no_fees();
    let res = query_resolver(&c, &"alice".to_string());
    assert!(res.address.is_none());
    let other = query_resolver(&c, &"bob".to_string());
    assert_eq!(other.address, None);
}

#[test]
fn transfer_of_unknown_name_fails() {
    let mut c = mock_init_no_fees();
    let e = transfer_to_bob(&mut c, "alice_key", &[]).unwrap_err();
    assert_eq!(e, ContractError::NameNotExists { name: "alice".to_string() });
}

#[test]
fn names_are_validated() {
    assert_eq!(
        validate_name("ab"),
        Err(ContractError::NameTooShort { length: 2, min_length: 3 })
    );
    let long = "a".repeat(65);
    assert_eq!(
        validate_name(&long),
        Err(ContractError::NameTooLong { length: 65, max_length: 64 })
    );
    assert_eq!(validate_name("Alice"), Err(ContractError::InvalidCharacter { c: 'A' }));
    assert_eq!(validate_name("al ice!"), Err(ContractError::InvalidCharacter { c: ' ' }));
    assert_eq!(validate_name("a.b-c_9"), Ok(()));
    // length is counted in bytes
    assert_eq!(
        validate_name("é"),
        Err(ContractError::NameTooShort { length: 2, min_length: 3 })
    );
    assert_eq!(validate_name("abé"), Err(ContractError::InvalidCharacter { c: 'é' }));

    let mut c = mock_init_no_fees();
    let msg = HandleMsg::Register { name: "UPPER".to_string() };
    let e = handle(&mut c, &"alice_key".to_string(), &None, msg).unwrap_err();
    assert_eq!(e, ContractError::InvalidCharacter { c: 'U' });
}
