use cw_examples::erc20::{
    bytes_to_u128, handle, init, parse_u128, query, read_allowance, read_balance, u128_to_be_bytes,
    ContractError, Erc20, HandleMsg, HandleOutcome, InitMsg, InitialBalance, QueryMsg,
    QueryResponse,
};
use cw_examples::prefixed::PrefixedStorage;

fn addr(s: &str) -> Vec<u8> {
    s.as_bytes().to_vec()
}

fn balance_row(address: &str, amount: &str) -> InitialBalance {
    InitialBalance { address: addr(address), amount: amount.to_string() }
}

fn get_balance(token: &Erc20, address: &str) -> u128 {
    read_balance(&token.store, address.as_bytes()).unwrap()
}

fn get_allowance(token: &Erc20, owner: &str, spender: &str) -> u128 {
    read_allowance(&token.store, owner.as_bytes(), spender.as_bytes()).unwrap()
}

fn get_total_supply(token: &Erc20) -> u128 {
    let config = PrefixedStorage::new(b"config");
    let data = config.get(&token.store, b"total_supply").expect("no total supply stored");
    bytes_to_u128(&data).unwrap()
}

fn cash_token(initial_balances: Vec<InitialBalance>) -> InitMsg {
    InitMsg {
        name: "Cash Token".to_string(),
        symbol: "CASH".to_string(),
        decimals: 9,
        initial_balances,
    }
}

fn make_init_msg() -> InitMsg {
    cash_token(vec![
        balance_row("addr0000", "11"),
        balance_row("addr1111", "22"),
        balance_row("addrbbbb", "33"),
    ])
}

fn make_spender() -> Vec<u8> {
    addr("dadadadadadadada")
}

fn init_err(msg: InitMsg) -> ContractError {
    match init(msg) {
        Ok(_) => panic!("expected error"),
        Err(e) => e,
    }
}

#[test]
fn tests_works() {
    let token = init(cash_token(vec![balance_row("addr0000", "11223344")])).unwrap();
    assert_eq!(token.constants.name, "Cash Token");
    assert_eq!(token.constants.symbol, "CASH");
    assert_eq!(token.constants.decimals, 9);
    assert_eq!(get_balance(&token, "addr0000"), 11223344);
    assert_eq!(get_total_supply(&token), 11223344);

    transfer_from_scenario();
}

#[test]
fn works_with_empty_balance() {
    let token = init(cash_token(vec![])).unwrap();
    assert_eq!(get_total_supply(&token), 0);
}

#[test]
fn works_with_multiple_balances() {
    let token = init(make_init_msg()).unwrap();
    assert_eq!(get_balance(&token, "addr0000"), 11);
    assert_eq!(get_balance(&token, "addr1111"), 22);
    assert_eq!(get_balance(&token, "addrbbbb"), 33);
    assert_eq!(get_total_supply(&token), 66);
}

#[test]
fn works_with_balance_larger_than_53_bit() {
    let token = init(cash_token(vec![balance_row("addr0000", "9007199254740993")])).unwrap();
    assert_eq!(token.constants.name, "Cash Token");
    assert_eq!(token.constants.symbol, "CASH");
    assert_eq!(token.constants.decimals, 9);
    assert_eq!(get_balance(&token, "addr0000"), 9007199254740993);
    assert_eq!(get_total_supply(&token), 9007199254740993);
}

#[test]
fn works_with_balance_larger_than_64_bit() {
    let token =
        init(cash_token(vec![balance_row("addr0000", "100000000000000000000000000")])).unwrap();
    assert_eq!(token.constants.name, "Cash Token");
    assert_eq!(token.constants.symbol, "CASH");
    assert_eq!(token.constants.decimals, 9);
    assert_eq!(get_balance(&token, "addr0000"), 100000000000000000000000000);
    assert_eq!(get_total_supply(&token), 100000000000000000000000000);
}

#[test]
fn fails_for_balance_larger_than_max_u128() {
    // 2**128 = 340282366920938463463374607431768211456
    let e = init_err(cash_token(vec![balance_row(
        "addr0000",
        "340282366920938463463374607431768211456",
    )]));
    assert_eq!(e, ContractError::ParseError);
    assert_eq!(e.message(), "Error while parsing decimal string to u128");
}

#[test]
fn fails_for_large_decimals() {
    let mut msg = cash_token(vec![]);
    msg.decimals = 42;
    let e = init_err(msg);
    assert_eq!(e, ContractError::DecimalsExceeded);
    assert_eq!(e.message(), "Decimals must not exceed 18");
}

#[test]
fn fails_for_name_too_short() {
    let mut msg = cash_token(vec![]);
    msg.name = "CC".to_string();
    let e = init_err(msg);
    assert_eq!(e.message(), "Name is not in the expected format (3-30 UTF-8 bytes)");
}

#[test]
fn fails_for_name_too_long() {
    let mut msg = cash_token(vec![]);
    msg.name = "Cash coin. Cash coin. Cash coin. Cash coin.".to_string();
    let e = init_err(msg);
    assert_eq!(e.message(), "Name is not in the expected format (3-30 UTF-8 bytes)");
}

#[test]
fn fails_for_symbol_too_short() {
    let mut msg = cash_token(vec![]);
    msg.name = "De De".to_string();
    msg.symbol = "DD".to_string();
    let e = init_err(msg);
    assert_eq!(e.message(), "Ticker symbol is not in expected format [A-Z]{3,6}");
}

#[test]
fn fails_for_symbol_too_long() {
    let mut msg = cash_token(vec![]);
    msg.name = "Super Coin".to_string();
    msg.symbol = "SUPERCOIN".to_string();
    let e = init_err(msg);
    assert_eq!(e.message(), "Ticker symbol is not in expected format [A-Z]{3,6}");
}

#[test]
fn fails_for_symbol_lowercase() {
    let mut msg = cash_token(vec![]);
    msg.symbol = "CaSH".to_string();
    let e = init_err(msg);
    assert_eq!(e, ContractError::TickerWrongSymbolFormat);
    assert_eq!(e.message(), "Ticker symbol is not in expected format [A-Z]{3,6}");
}

fn assert_initial_state(token: &Erc20) {
    assert_eq!(get_balance(token, "addr0000"), 11);
    assert_eq!(get_balance(token, "addr1111"), 22);
    assert_eq!(get_balance(token, "addrbbbb"), 33);
    assert_eq!(get_total_supply(token), 66);
}

#[test]
fn can_send_to_existing_recipient() {
    let mut token = init(make_init_msg()).unwrap();
    assert_initial_state(&token);

    let msg = HandleMsg::Transfer { recipient: addr("addr1111"), amount: "1".to_string() };
    let outcome = handle(&mut token, b"addr0000", msg).unwrap();
    assert_eq!(outcome, HandleOutcome::Transferred);
    assert_eq!(outcome.log(), "transfer successful");

    assert_eq!(get_balance(&token, "addr0000"), 10);
    assert_eq!(get_balance(&token, "addr1111"), 23);
    assert_eq!(get_balance(&token, "addrbbbb"), 33);
    assert_eq!(get_total_supply(&token), 66);
}

#[test]
fn can_send_to_non_existent_recipient() {
    let mut token = init(make_init_msg()).unwrap();
    assert_initial_state(&token);

    let msg = HandleMsg::Transfer { recipient: addr("addr2323"), amount: "1".to_string() };
    let outcome = handle(&mut token, b"addr0000", msg).unwrap();
    assert_eq!(outcome.log(), "transfer successful");

    assert_eq!(get_balance(&token, "addr0000"), 10);
    assert_eq!(get_balance(&token, "addr1111"), 22);
    assert_eq!(get_balance(&token, "addr2323"), 1);
    assert_eq!(get_balance(&token, "addrbbbb"), 33);
    assert_eq!(get_total_supply(&token), 66);
}

#[test]
fn can_send_zero_amount() {
    let mut token = init(make_init_msg()).unwrap();
    assert_initial_state(&token);

    let msg = HandleMsg::Transfer { recipient: addr("addr1111"), amount: "0".to_string() };
    let outcome = handle(&mut token, b"addr0000", msg).unwrap();
    assert_eq!(outcome.log(), "transfer successful");

    assert_initial_state(&token);
}

#[test]
fn fails_on_insufficient_balance() {
    let mut token = init(make_init_msg()).unwrap();
    assert_initial_state(&token);

    let msg = HandleMsg::Transfer { recipient: addr("addr1111"), amount: "12".to_string() };
    match handle(&mut token, b"addr0000", msg) {
        Ok(_) => panic!("expected error"),
        Err(e) => {
            assert_eq!(e, ContractError::InsufficientFunds { balance: 11, required: 12 });
            assert_eq!(e.message(), "Insufficient funds");
        },
    }

    assert_initial_state(&token);
}

#[test]
fn has_zero_allowance_by_default() {
    let token = init(make_init_msg()).unwrap();
    // Existing owner
    assert_eq!(get_allowance(&token, "addr0000", "dadadadadadadada"), 0);
    // Non-existing owner
    assert_eq!(get_allowance(&token, "addr4567", "dadadadadadadada"), 0);
}

#[test]
fn can_set_allowance() {
    let mut token = init(make_init_msg()).unwrap();
    assert_eq!(get_allowance(&token, "addr7654", "dadadadadadadada"), 0);

    // First approval
    let msg = HandleMsg::Approve { spender: make_spender(), amount: "334422".to_string() };
    let outcome = handle(&mut token, b"addr7654", msg).unwrap();
    assert_eq!(outcome, HandleOutcome::Approved);
    assert_eq!(outcome.log(), "approve successful");
    assert_eq!(get_allowance(&token, "addr7654", "dadadadadadadada"), 334422);

    // Updated approval
    let msg = HandleMsg::Approve { spender: make_spender(), amount: "777888".to_string() };
    let outcome = handle(&mut token, b"addr7654", msg).unwrap();
    assert_eq!(outcome.log(), "approve successful");
    assert_eq!(get_allowance(&token, "addr7654", "dadadadadadadada"), 777888);
}

fn transfer_from_scenario() {
    let mut token = init(make_init_msg()).unwrap();

    let msg = HandleMsg::Approve { spender: make_spender(), amount: "4".to_string() };
    let outcome = handle(&mut token, b"addr0000", msg).unwrap();
    assert_eq!(outcome.log(), "approve successful");
    assert_eq!(get_balance(&token, "addr0000"), 11);
    assert_eq!(get_allowance(&token, "addr0000", "dadadadadadadada"), 4);

    let msg = HandleMsg::TransferFrom {
        owner: addr("addr0000"),
        recipient: addr("addr1212"),
        amount: "3".to_string(),
    };
    let outcome = handle(&mut token, &make_spender(), msg).unwrap();
    assert_eq!(outcome, HandleOutcome::TransferredFrom);
    assert_eq!(outcome.log(), "transfer from successful");

    assert_eq!(get_balance(&token, "addr0000"), 8);
    assert_eq!(get_balance(&token, "addr1212"), 3);
    assert_eq!(get_allowance(&token, "addr0000", "dadadadadadadada"), 1);
}

#[test]
fn fails_when_allowance_too_low() {
    let mut token = init(make_init_msg()).unwrap();

    let msg = HandleMsg::Approve { spender: make_spender(), amount: "2".to_string() };
    let outcome = handle(&mut token, b"addr0000", msg).unwrap();
    assert_eq!(outcome.log(), "approve successful");
    assert_eq!(get_balance(&token, "addr0000"), 11);
    assert_eq!(get_allowance(&token, "addr0000", "dadadadadadadada"), 2);

    let msg = HandleMsg::TransferFrom {
        owner: addr("addr0000"),
        recipient: addr("addr1212"),
        amount: "3".to_string(),
    };
    match handle(&mut token, &make_spender(), msg) {
        Ok(_) => panic!("expected error"),
        Err(e) => {
            assert_eq!(e, ContractError::InsufficientAllowance { allowance: 2, required: 3 });
            assert_eq!(e.message(), "Insufficient allowance");
        },
    }
    assert_eq!(get_balance(&token, "addr0000"), 11);
    assert_eq!(get_allowance(&token, "addr0000", "dadadadadadadada"), 2);
}

#[test]
fn fails_when_allowance_is_set_but_balance_too_low() {
    let mut token = init(make_init_msg()).unwrap();

    let msg = HandleMsg::Approve { spender: make_spender(), amount: "20".to_string() };
    let outcome = handle(&mut token, b"addr0000", msg).unwrap();
    assert_eq!(outcome.log(), "approve successful");
    assert_eq!(get_balance(&token, "addr0000"), 11);
    assert_eq!(get_allowance(&token, "addr0000", "dadadadadadadada"), 20);

    let msg = HandleMsg::TransferFrom {
        owner: addr("addr0000"),
        recipient: addr("addr1212"),
        amount: "15".to_string(),
    };
    match handle(&mut token, &make_spender(), msg) {
        Ok(_) => panic!("expected error"),
        Err(e) => assert_eq!(e, ContractError::InsufficientFunds { balance: 11, required: 15 }),
    }
    assert_eq!(get_balance(&token, "addr0000"), 11);
    assert_eq!(get_allowance(&token, "addr0000", "dadadadadadadada"), 20);
}

fn query_init_msg() -> InitMsg {
    cash_token(vec![
        balance_row("addr1111", "11"),
        balance_row("addr4321", "22"),
        balance_row("addr5432", "33"),
    ])
}

fn queried_balance(token: &Erc20, address: &str) -> String {
    match query(token, &QueryMsg::Balance { address: addr(address) }) {
        QueryResponse::Balance(b) => b.balance,
        QueryResponse::Allowance(_) => panic!("unexpected answer"),
    }
}

#[test]
fn tests_can_query_balance_of_existing_address() {
    let token = init(query_init_msg()).unwrap();
    assert_eq!(queried_balance(&token, "addr1111"), "11");
}

#[test]
fn can_query_balance_of_nonexisting_address() {
    let token = init(query_init_msg()).unwrap();
    // only three addresses hold balances
    assert_eq!(queried_balance(&token, "addr6543"), "0");
}

#[test]
fn integration_can_query_balance_of_existing_address() {
    let token = init(query_init_msg()).unwrap();
    assert_eq!(queried_balance(&token, "addr4321"), "22");
}

#[test]
fn init_works() {
    let token = init(InitMsg {
        name: "Ash token".to_string(),
        symbol: "ASH".to_string(),
        decimals: 5,
        initial_balances: vec![
            balance_row("addr0000", "11"),
            balance_row("addr1111", "22"),
            balance_row("addrbbbb", "33"),
        ],
    })
    .unwrap();
    assert_eq!(token.constants.name, "Ash token");
    assert_eq!(token.constants.symbol, "ASH");
    assert_eq!(token.constants.decimals, 5);
    assert_eq!(get_balance(&token, "addr0000"), 11);
    assert_eq!(get_balance(&token, "addr1111"), 22);
    assert_eq!(get_total_supply(&token), 66);
}

#[test]
fn approve_works() {
    let mut token = init(make_init_msg()).unwrap();
    let msg = HandleMsg::Approve { spender: make_spender(), amount: "42".to_string() };
    let outcome = handle(&mut token, b"addr0000", msg).unwrap();
    assert_eq!(outcome.log(), "approve successful");
    assert_eq!(get_allowance(&token, "addr0000", "dadadadadadadada"), 42);
    match query(
        &token,
        &QueryMsg::Allowance { owner: addr("addr0000"), spender: make_spender() },
    ) {
        QueryResponse::Allowance(a) => assert_eq!(a.allowance, "42"),
        QueryResponse::Balance(_) => panic!("unexpected answer"),
    }
}

#[test]
fn transfer_from_works() {
    let mut token = init(make_init_msg()).unwrap();
    let msg = HandleMsg::Approve { spender: make_spender(), amount: "35".to_string() };
    handle(&mut token, b"addrbbbb", msg).unwrap();
    let msg = HandleMsg::TransferFrom {
        owner: addr("addrbbbb"),
        recipient: addr("addr0000"),
        amount: "33".to_string(),
    };
    let outcome = handle(&mut token, &make_spender(), msg).unwrap();
    assert_eq!(outcome.log(), "transfer from successful");
    assert_eq!(get_balance(&token, "addrbbbb"), 0);
    assert_eq!(get_balance(&token, "addr0000"), 44);
    assert_eq!(get_allowance(&token, "addrbbbb", "dadadadadadadada"), 2);
    assert_eq!(get_total_supply(&token), 66);
}

#[test]
fn parse_u128_follows_std() {
    assert_eq!(parse_u128("0"), Ok(0));
    assert_eq!(parse_u128("+17"), Ok(17));
    assert_eq!(parse_u128("340282366920938463463374607431768211455"), Ok(u128::MAX));
    assert_eq!(parse_u128(""), Err(ContractError::ParseError));
    assert_eq!(parse_u128("+"), Err(ContractError::ParseError));
    assert_eq!(parse_u128("-1"), Err(ContractError::ParseError));
    assert_eq!(parse_u128("ff"), Err(ContractError::ParseError));
}

#[test]
fn u128_bytes_round_trip() {
    let bytes = u128_to_be_bytes(0x0102030405060708090a0b0c0d0e0f10);
    assert_eq!(bytes, (1u8..=16).collect::<Vec<u8>>());
    assert_eq!(bytes_to_u128(&bytes), Ok(0x0102030405060708090a0b0c0d0e0f10));
}

fn balances_total(token: &Erc20, holders: &[&str]) -> u128 {
    holders.iter().map(|h| get_balance(token, h)).sum()
}

#[test]
fn handling_messages_conserves_tokens() {
    let holders = ["addr0000", "addr1111", "addrbbbb", "addr1212", "dadadadadadadada"];
    let mut token = init(make_init_msg()).unwrap();
    assert_eq!(balances_total(&token, &holders), 66);
    assert_eq!(get_total_supply(&token), 66);

    let msgs = vec![
        (addr("addr0000"), HandleMsg::Transfer { recipient: addr("addr1212"), amount: "5".to_string() }),
        (addr("addr1111"), HandleMsg::Transfer { recipient: addr("addr1111"), amount: "7".to_string() }),
        (addr("addrbbbb"), HandleMsg::Approve { spender: make_spender(), amount: "20".to_string() }),
        (
            make_spender(),
            HandleMsg::TransferFrom {
                owner: addr("addrbbbb"),
                recipient: addr("addr0000"),
                amount: "12".to_string(),
            },
        ),
        (addr("addr1212"), HandleMsg::Transfer { recipient: addr("addr0000"), amount: "9".to_string() }),
    ];
    for (sender, msg) in msgs {
        let _ = handle(&mut token, &sender, msg);
        assert_eq!(balances_total(&token, &holders), 66);
        assert_eq!(get_total_supply(&token), 66);
    }
    assert_eq!(get_balance(&token, "addr0000"), 18);
    assert_eq!(get_balance(&token, "addr1111"), 22);
    assert_eq!(get_balance(&token, "addrbbbb"), 21);
    assert_eq!(get_balance(&token, "addr1212"), 5);
}

#[test]
fn duplicate_initial_addresses_keep_the_last_amount_but_count_both() {
    let token = init(cash_token(vec![balance_row("addr0000", "10"), balance_row("addr0000", "4")]))
        .unwrap();
    assert_eq!(get_balance(&token, "addr0000"), 4);
    assert_eq!(get_total_supply(&token), 14);
}

#[test]
fn data_of_other_lengths_is_corrupted() {
    assert_eq!(bytes_to_u128(&[0u8; 15]), Err(ContractError::CorruptedDataFound));
    assert_eq!(bytes_to_u128(&[0u8; 17]), Err(ContractError::CorruptedDataFound));
    assert_eq!(bytes_to_u128(&[]), Err(ContractError::CorruptedDataFound));
    assert_eq!(
        ContractError::CorruptedDataFound.message(),
        "Corrupted data found. 16 byte expected."
    );
    let mut token = init(make_init_msg()).unwrap();
    PrefixedStorage::new(b"balances").set(&mut token.store, b"addr0000", &[1u8; 15]);
    assert_eq!(read_balance(&token.store, b"addr0000"), Err(ContractError::CorruptedDataFound));
}
