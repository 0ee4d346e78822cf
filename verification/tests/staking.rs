use cw_examples::common::BlockInfo;
use cw_examples::staking::{
    execute, instantiate, Contract, ContractError, CreateCollectionPoolMsg, DepositeMsg,
    ExecuteMsg, InstantiateMsg, NftTransfer, UpdateContractInfoMsg,
};

fn block(height: u64) -> BlockInfo {
    BlockInfo { height, time: 1_000_000 }
}

fn setup() -> Contract {
    let msg = InstantiateMsg {
        admin: None,
        end_height: None,
        end_time: None,
        nft_721_contract_addr_whitelist: vec!["nft".to_string()],
    };
    let mut c = instantiate(&block(100), "creator".to_string(), msg).unwrap();
    let pool = ExecuteMsg::CreateCollectionPool(CreateCollectionPoolMsg {
        collection_id: "c1".to_string(),
        reward_per_block: 10,
        expired_after: None,
    });
    execute(&mut c, &block(100), &"creator".to_string(), pool).unwrap();
    c
}

fn deposit(c: &mut Contract, height: u64, token_id: &str) -> Result<Vec<NftTransfer>, ContractError> {
    let msg = ExecuteMsg::ReceiveNft {
        staker: "alice".to_string(),
        token_id: token_id.to_string(),
        deposit: Some(DepositeMsg { collection_id: "c1".to_string(), withdraw_rewards: false }),
    };
    execute(c, &block(height), &"nft".to_string(), msg)
}

#[test]
fn instantiate_defaults_admin_to_sender_and_refuses_expired() {
    let c = setup();
    assert_eq!(c.info.admin, Some("creator".to_string()));
    assert_eq!(c.info.source, "creator");

    let msg = InstantiateMsg {
        admin: Some("boss".to_string()),
        end_height: Some(50),
        end_time: None,
        nft_721_contract_addr_whitelist: vec![],
    };
    match instantiate(&block(100), "creator".to_string(), msg) {
        Err(e) => assert_eq!(e, ContractError::Expired { end_height: Some(50), end_time: None }),
        Ok(_) => panic!("expected error"),
    }
}

#[test]
fn only_admin_manages_pools_and_info() {
    let mut c = setup();
    let pool = ExecuteMsg::CreateCollectionPool(CreateCollectionPoolMsg {
        collection_id: "c2".to_string(),
        reward_per_block: 10,
        expired_after: None,
    });
    assert_eq!(
        execute(&mut c, &block(100), &"mallory".to_string(), pool).unwrap_err(),
        ContractError::Unauthorized { sender: "mallory".to_string() }
    );
    let dup = ExecuteMsg::CreateCollectionPool(CreateCollectionPoolMsg {
        collection_id: "c1".to_string(),
        reward_per_block: 10,
        expired_after: None,
    });
    assert_eq!(
        execute(&mut c, &block(100), &"creator".to_string(), dup).unwrap_err(),
        ContractError::CollectionExists
    );
    let zero = ExecuteMsg::CreateCollectionPool(CreateCollectionPoolMsg {
        collection_id: "c3".to_string(),
        reward_per_block: 0,
        expired_after: None,
    });
    assert_eq!(
        execute(&mut c, &block(100), &"creator".to_string(), zero).unwrap_err(),
        ContractError::InvalidRewardPerBlock
    );
    let update = ExecuteMsg::UpdateContractInfo(UpdateContractInfoMsg {
        admin: Some("boss".to_string()),
        nft_721_contract_addr_whitelist: None,
    });
    execute(&mut c, &block(100), &"creator".to_string(), update).unwrap();
    assert_eq!(c.info.admin, Some("boss".to_string()));
}

#[test]
fn deposits_must_come_from_whitelisted_contracts() {
    let mut c = setup();
    let msg = ExecuteMsg::ReceiveNft {
        staker: "alice".to_string(),
        token_id: "t1".to_string(),
        deposit: Some(DepositeMsg { collection_id: "c1".to_string(), withdraw_rewards: false }),
    };
    assert_eq!(
        execute(&mut c, &block(100), &"other".to_string(), msg).unwrap_err(),
        ContractError::Unauthorized { sender: "other".to_string() }
    );
}

#[test]
fn stake_accrue_and_withdraw() {
    let mut c = setup();
    assert_eq!(deposit(&mut c, 100, "t1"), Ok(vec![]));
    let staker = c.stakers.get(&"alice".to_string()).unwrap();
    assert_eq!(staker.total_staked, 1);
    assert_eq!(staker.staked_tokens.len(), 1);

    // withdrawing a token that was not staked is refused
    let bad = ExecuteMsg::Withdraw {
        collection_id: "c1".to_string(),
        withdraw_rewards: true,
        withdraw_nft_ids: vec!["t9".to_string()],
    };
    assert_eq!(
        execute(&mut c, &block(110), &"alice".to_string(), bad).unwrap_err(),
        ContractError::InvalidWithdraw
    );

    // ten blocks of 10 reward each, all for the single staked NFT
    let msg = ExecuteMsg::Withdraw {
        collection_id: "c1".to_string(),
        withdraw_rewards: true,
        withdraw_nft_ids: vec!["t1".to_string()],
    };
    let transfers = execute(&mut c, &block(110), &"alice".to_string(), msg).unwrap();
    assert_eq!(
        transfers,
        vec![NftTransfer {
            contract_addr: "nft".to_string(),
            recipient: "alice".to_string(),
            token_id: "t1".to_string(),
        }]
    );
    let staker = c.stakers.get(&"alice".to_string()).unwrap();
    assert_eq!(staker.total_staked, 0);
    assert_eq!(staker.total_earned, 100);
    assert_eq!(staker.pending, 0);
    assert_eq!(staker.staked_tokens.len(), 0);
    let pool = c.pools.get(&"c1".to_string()).unwrap();
    assert_eq!(pool.total_nfts, 0);
    assert_eq!(pool.acc_per_share, 100);
    assert_eq!(pool.last_reward_block, 110);
}

#[test]
fn staked_count_follows_tokens() {
    let mut c = setup();
    for (h, t) in [(100, "t1"), (101, "t2"), (102, "t3")] {
        deposit(&mut c, h, t).unwrap();
        let staker = c.stakers.get(&"alice".to_string()).unwrap();
        assert_eq!(staker.total_staked as usize, staker.staked_tokens.len());
    }
    let msg = ExecuteMsg::Withdraw {
        collection_id: "c1".to_string(),
        withdraw_rewards: false,
        withdraw_nft_ids: vec!["t3".to_string(), "t1".to_string()],
    };
    let transfers = execute(&mut c, &block(103), &"alice".to_string(), msg).unwrap();
    assert_eq!(transfers.len(), 2);
    let staker = c.stakers.get(&"alice".to_string()).unwrap();
    assert_eq!(staker.total_staked, 1);
    assert_eq!(staker.staked_tokens.len(), 1);
    assert_eq!(staker.staked_tokens[0].token_id, "t2");
    assert_eq!(c.pools.get(&"c1".to_string()).unwrap().total_nfts, 1);
}
