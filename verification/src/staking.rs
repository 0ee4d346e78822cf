use vstd::prelude::*;

use crate::common::{contains_str, contains_string, BlockInfo};
use crate::strmap::StrMap;

verus! {

/// The errors of the NFT staking contract.
#[derive(Debug, Clone, PartialEq, Eq)]
pub enum ContractError {
    /// A stored item that the call needs is absent.
    NotFound,
    /// The message carried with a received NFT is not a deposit message.
    InvalidDepositMsg,
    /// A collection pool with this id exists already.
    CollectionExists,
    /// There is no collection pool with this id to update.
    InvalidUpdate,
    /// Some requested NFT is not staked by the sender.
    InvalidWithdraw,
    Unauthorized { sender: String },
    Expired { end_height: Option<u64>, end_time: Option<u64> },
    NotExpired,
    InvalidRewardPerBlock,
    InvalidCollection,
    ExpiredCollection,
}

/// The contract's configuration.
#[derive(Debug, Clone, PartialEq, Eq)]
pub struct ContractInfo {
    pub source: String,
    pub end_height: Option<u64>,
    /// Seconds since the epoch.
    pub end_time: Option<u64>,
    pub admin: Option<String>,
    pub nft_721_contract_addr_whitelist: Vec<String>,
}

/// The contract is expired in the given block: past its end height, or past its end time.
pub open spec fn info_expired(info: ContractInfo, block: BlockInfo) -> bool {
    ||| (info.end_height matches Some(h) && block.height > h)
    ||| (info.end_time matches Some(t) && block.time > t * 1000)
}

/// The expiry check stays within `u64`.
pub open spec fn expiry_in_range(info: ContractInfo, block: BlockInfo) -> bool {
    !(info.end_height matches Some(h) && block.height > h) ==> (info.end_time matches Some(t) ==> t
        * 1000 <= u64::MAX)
}

impl ContractInfo {
    /// Whether the contract is expired in the given block.
    pub fn is_expired(&self, block: &BlockInfo) -> (r: bool)
        requires
            expiry_in_range(*self, *block),
        ensures
            r == info_expired(*self, *block),
    {
        if let Some(end_height) = self.end_height {
            if block.height > end_height {
                return true;
            }
        }
        if let Some(end_time) = self.end_time {
            if block.time > end_time * 1000 {
                return true;
            }
        }
        false
    }
}

/// A collection's reward pool.
#[derive(Debug, Clone, PartialEq, Eq)]
pub struct CollectionPoolInfo {
    pub collection_id: String,
    pub reward_per_block: u128,
    pub total_nfts: u128,
    pub acc_per_share: u128,
    pub last_reward_block: u64,
    pub expired_block: Option<u64>,
}

impl View for CollectionPoolInfo {
    type V = CollectionPoolInfo;

    open spec fn view(&self) -> CollectionPoolInfo {
        *self
    }
}

/// An NFT held by the contract for a staker.
#[derive(Debug, Clone, PartialEq, Eq)]
pub struct CollectionStakedTokenInfo {
    pub token_id: String,
    pub contract_addr: String,
}

/// A staker's account.
#[derive(Debug, Clone, PartialEq, Eq)]
pub struct StakerInfo {
    pub total_staked: u128,
    pub reward_debt: u128,
    pub pending: u128,
    pub total_earned: u128,
    pub staked_tokens: Vec<CollectionStakedTokenInfo>,
}

/// A staker's account as plain values.
pub struct StakerInfoView {
    pub total_staked: u128,
    pub reward_debt: u128,
    pub pending: u128,
    pub total_earned: u128,
    pub staked_tokens: Seq<CollectionStakedTokenInfo>,
}

impl View for StakerInfo {
    type V = StakerInfoView;

    open spec fn view(&self) -> StakerInfoView {
        StakerInfoView {
            total_staked: self.total_staked,
            reward_debt: self.reward_debt,
            pending: self.pending,
            total_earned: self.total_earned,
            staked_tokens: self.staked_tokens@,
        }
    }
}

/// The stored state of the staking contract.
pub struct Contract {
    pub info: ContractInfo,
    pub pools: StrMap<CollectionPoolInfo>,
    pub stakers: StrMap<StakerInfo>,
}

impl Contract {
    /// The contract's invariant: it has an admin, its maps are well formed, and each staker's
    /// staked count is the number of NFTs held for it.
    pub open spec fn wf(&self) -> bool {
        &&& self.info.admin is Some
        &&& self.pools.wf()
        &&& self.stakers.wf()
        &&& forall|a: Seq<char>| #[trigger] self.stakers@.contains_key(a)
            ==> self.stakers@[a].total_staked == self.stakers@[a].staked_tokens.len()
    }
}

/// Every staker's staked count is the number of NFTs the contract holds for it: receiving an NFT
/// adds one to both, a withdrawal takes the same number from both. Every handler keeps this: it
/// is part of `wf`, which each handler's outcome states of the contract it leaves.
pub proof fn lemma_staked_count_is_token_count(c: Contract, staker: Seq<char>)
    requires
        c.wf(),
        c.stakers@.contains_key(staker),
    ensures
        c.stakers@[staker].total_staked == c.stakers@[staker].staked_tokens.len(),
{
}

/// The message that opens the contract.
#[derive(Debug, Clone, PartialEq, Eq)]
pub struct InstantiateMsg {
    pub admin: Option<String>,
    pub end_height: Option<u64>,
    pub end_time: Option<u64>,
    pub nft_721_contract_addr_whitelist: Vec<String>,
}

/// Changes the admin and adds NFT contracts to the whitelist.
#[derive(Debug, Clone, PartialEq, Eq)]
pub struct UpdateContractInfoMsg {
    pub admin: Option<String>,
    pub nft_721_contract_addr_whitelist: Option<Vec<String>>,
}

/// Opens a reward pool for a collection.
#[derive(Debug, Clone, PartialEq, Eq)]
pub struct CreateCollectionPoolMsg {
    pub collection_id: String,
    pub reward_per_block: u128,
    pub expired_after: Option<u64>,
}

/// Changes a collection pool's reward per block.
#[derive(Debug, Clone, PartialEq, Eq)]
pub struct UpdateCollectionPoolMsg {
    pub collection_id: String,
    pub reward_per_block: Option<u128>,
}

/// The message that comes with a received NFT.
#[derive(Debug, Clone, PartialEq, Eq)]
pub struct DepositeMsg {
    pub collection_id: String,
    pub withdraw_rewards: bool,
}

/// An NFT the contract sends back.
#[derive(Debug, Clone, PartialEq, Eq)]
pub struct NftTransfer {
    pub contract_addr: String,
    pub recipient: String,
    pub token_id: String,
}

/// Opens the contract; the admin is the given one or else the sender. An already expired
/// contract is refused.
pub fn instantiate(block: &BlockInfo, sender: String, msg: InstantiateMsg) -> (r: Result<
    Contract,
    ContractError,
>)
    requires
        expiry_in_range(
            ContractInfo {
                source: sender,
                end_height: msg.end_height,
                end_time: msg.end_time,
                admin: None,
                nft_721_contract_addr_whitelist: msg.nft_721_contract_addr_whitelist,
            },
            *block,
        ),
    ensures
        ({
            let info = ContractInfo {
                source: sender,
                end_height: msg.end_height,
                end_time: msg.end_time,
                admin: Some(
                    match msg.admin {
                        Some(a) => a,
                        None => sender,
                    },
                ),
                nft_721_contract_addr_whitelist: msg.nft_721_contract_addr_whitelist,
            };
            &&& info_expired(info, *block) ==> r == Err::<Contract, ContractError>(
                ContractError::Expired { end_height: msg.end_height, end_time: msg.end_time },
            )
            &&& !info_expired(info, *block) ==> {
                &&& r is Ok
                &&& r->Ok_0.wf()
                &&& r->Ok_0.info == info
                &&& r->Ok_0.pools@ == Map::<Seq<char>, CollectionPoolInfo>::empty()
                &&& r->Ok_0.stakers@ == Map::<Seq<char>, StakerInfoView>::empty()
            }
        }),
{
    let admin = match msg.admin {
        Some(a) => a,
        None => sender.clone(),
    };
    let info = ContractInfo {
        source: sender,
        end_height: msg.end_height,
        end_time: msg.end_time,
        admin: Some(admin),
        nft_721_contract_addr_whitelist: msg.nft_721_contract_addr_whitelist,
    };
    if info.is_expired(block) {
        return Err(ContractError::Expired { end_height: msg.end_height, end_time: msg.end_time });
    }
    Ok(Contract { info, pools: StrMap::new(), stakers: StrMap::new() })
}

/// The sender is the contract's admin.
pub open spec fn is_admin(c: Contract, sender: Seq<char>) -> bool {
    c.info.admin->0@ == sender
}

/// Refuses a sender that is not the admin.
pub fn check_admin_permission(c: &Contract, sender: &String) -> (r: Result<(), ContractError>)
    requires
        c.wf(),
    ensures
        is_admin(*c, sender@) ==> r == Ok::<(), ContractError>(()),
        !is_admin(*c, sender@) ==> r == Err::<(), ContractError>(
            ContractError::Unauthorized { sender: *sender },
        ),
{
    match &c.info.admin {
        Some(admin) => {
            if *admin != *sender {
                Err(ContractError::Unauthorized { sender: sender.clone() })
            } else {
                Ok(())
            }
        },
        None => Err(ContractError::Unauthorized { sender: sender.clone() }),
    }
}

/// The whitelist with each new address appended unless it is present already.
pub open spec fn merge_whitelist(old: Seq<String>, new: Seq<String>) -> Seq<String>
    decreases new.len(),
{
    if new.len() == 0 {
        old
    } else {
        let merged = merge_whitelist(old, new.drop_last());
        if contains_str(merged, new.last()@) {
            merged
        } else {
            merged.push(new.last())
        }
    }
}

/// What updating the contract info on behalf of `sender` does: the contract `c0` becomes `c1`
/// and the result is `r`.
pub open spec fn update_info_outcome(
    c0: Contract,
    c1: Contract,
    sender: &String,
    msg: UpdateContractInfoMsg,
    r: Result<(), ContractError>,
) -> bool {
    &&& (c1.wf())
    &&& (!is_admin(c0, sender@) ==> r == Err::<(), ContractError>(
            ContractError::Unauthorized { sender: *sender },
        ) && c1 == c0)
    &&& (is_admin(c0, sender@) ==> {
            &&& r is Ok
            &&& c1.pools == c0.pools
            &&& c1.stakers == c0.stakers
            &&& c1.info.source == c0.info.source
            &&& c1.info.end_height == c0.info.end_height
            &&& c1.info.end_time == c0.info.end_time
            &&& c1.info.admin == match msg.admin {
                Some(a) => Some(a),
                None => c0.info.admin,
            }
            &&& c1.info.nft_721_contract_addr_whitelist@ == match msg.nft_721_contract_addr_whitelist {
                Some(v) => merge_whitelist(c0.info.nft_721_contract_addr_whitelist@, v@),
                None => c0.info.nft_721_contract_addr_whitelist@,
            }
        })
}

/// Changes the admin, if one is given, and appends to the whitelist those given addresses
/// that it does not hold yet. Only the admin may do so.
pub fn try_update_contract_info(c: &mut Contract, sender: &String, msg: UpdateContractInfoMsg) -> (r:
    Result<(), ContractError>)
    requires
        old(c).wf(),
    ensures
        update_info_outcome(*old(c), *final(c), sender, msg, r),
{
    check_admin_permission(c, sender)?;
    if let Some(admin) = msg.admin {
        c.info.admin = Some(admin);
    }
    if let Some(whitelist) = msg.nft_721_contract_addr_whitelist {
        let mut i: usize = 0;
        let ghost start = c.info.nft_721_contract_addr_whitelist@;
        while i < whitelist.len()
            invariant
                i <= whitelist@.len(),
                c.info.nft_721_contract_addr_whitelist@ == merge_whitelist(
                    start,
                    whitelist@.take(i as int),
                ),
                c.info.admin is Some,
                c.pools == old(c).pools,
                c.stakers == old(c).stakers,
                c.info.source == old(c).info.source,
                c.info.end_height == old(c).info.end_height,
                c.info.end_time == old(c).info.end_time,
                c.info.admin == match msg.admin {
                    Some(a) => Some(a),
                    None => old(c).info.admin,
                },
            decreases whitelist@.len() - i,
        {
            proof {
                assert(whitelist@.take(i + 1).drop_last() =~= whitelist@.take(i as int));
            }
            let addr = &whitelist[i];
            if !contains_string(&c.info.nft_721_contract_addr_whitelist, addr) {
                c.info.nft_721_contract_addr_whitelist.push(addr.clone());
            }
            i = i + 1;
        }
        proof {
            assert(whitelist@.take(whitelist@.len() as int) =~= whitelist@);
        }
    }
    Ok(())
}

/// What creating a collection pool at `block` on behalf of `sender` does: the contract `c0`
/// becomes `c1` and the result is `r`.
pub open spec fn create_pool_outcome(
    c0: Contract,
    c1: Contract,
    block: &BlockInfo,
    sender: &String,
    msg: CreateCollectionPoolMsg,
    r: Result<(), ContractError>,
) -> bool {
    &&& (c1.wf())
    &&& (r is Err ==> c1 == c0)
    &&& (!is_admin(c0, sender@) ==> r == Err::<(), ContractError>(
            ContractError::Unauthorized { sender: *sender },
        ))
    &&& (is_admin(c0, sender@) && msg.reward_per_block == 0 ==> r == Err::<(), ContractError>(
            ContractError::InvalidRewardPerBlock,
        ))
    &&& (is_admin(c0, sender@) && msg.reward_per_block > 0 && c0.pools@.contains_key(
            msg.collection_id@,
        ) ==> r == Err::<(), ContractError>(ContractError::CollectionExists))
    &&& (is_admin(c0, sender@) && msg.reward_per_block > 0 && !c0.pools@.contains_key(
            msg.collection_id@,
        ) ==> {
            &&& r is Ok
            &&& c1.info == c0.info
            &&& c1.stakers == c0.stakers
            &&& c1.pools@ =~= c0.pools@.insert(
                msg.collection_id@,
                CollectionPoolInfo {
                    collection_id: msg.collection_id,
                    reward_per_block: msg.reward_per_block,
                    total_nfts: 0,
                    acc_per_share: 0,
                    last_reward_block: 0,
                    expired_block: match msg.expired_after {
                        Some(e) => Some((block.height + e) as u64),
                        None => None,
                    },
                },
            )
        })
}

/// Creating a pool stays within `u64`: when the admin creates a new pool with a positive
/// reward, its expiry height fits.
pub open spec fn create_pool_in_range(c: Contract, block: BlockInfo, sender: Seq<char>, msg: CreateCollectionPoolMsg) -> bool {
    is_admin(c, sender) && msg.reward_per_block > 0 && !c.pools@.contains_key(msg.collection_id@)
        ==> (msg.expired_after matches Some(e) ==> block.height + e <= u64::MAX)
}

/// Opens a reward pool for a collection, optionally expiring a number of blocks from now.
/// Only the admin may do so; the reward per block must be positive.
pub fn try_create_collection_pool_info(
    c: &mut Contract,
    block: &BlockInfo,
    sender: &String,
    msg: CreateCollectionPoolMsg,
) -> (r: Result<(), ContractError>)
    requires
        old(c).wf(),
        create_pool_in_range(*old(c), *block, sender@, msg),
    ensures
        create_pool_outcome(*old(c), *final(c), block, sender, msg, r),
{
    check_admin_permission(c, sender)?;
    if msg.reward_per_block == 0 {
        return Err(ContractError::InvalidRewardPerBlock);
    }
    if c.pools.contains_key(&msg.collection_id) {
        return Err(ContractError::CollectionExists);
    }
    let expired_block = match msg.expired_after {
        Some(e) => Some(block.height + e),
        None => None,
    };
    let pool = CollectionPoolInfo {
        collection_id: msg.collection_id.clone(),
        reward_per_block: msg.reward_per_block,
        total_nfts: 0,
        acc_per_share: 0,
        last_reward_block: 0,
        expired_block,
    };
    c.pools.insert(msg.collection_id, pool);
    Ok(())
}

/// What updating a collection pool on behalf of `sender` does: the contract `c0` becomes `c1`
/// and the result is `r`.
pub open spec fn update_pool_outcome(
    c0: Contract,
    c1: Contract,
    sender: &String,
    msg: UpdateCollectionPoolMsg,
    r: Result<(), ContractError>,
) -> bool {
    &&& (c1.wf())
    &&& (r is Err ==> c1 == c0)
    &&& (!is_admin(c0, sender@) ==> r == Err::<(), ContractError>(
            ContractError::Unauthorized { sender: *sender },
        ))
    &&& (is_admin(c0, sender@) && !c0.pools@.contains_key(msg.collection_id@) ==> r == Err::<
            (),
            ContractError,
        >(ContractError::InvalidUpdate))
    &&& (is_admin(c0, sender@) && c0.pools@.contains_key(msg.collection_id@) ==> {
            let p = c0.pools@[msg.collection_id@];
            &&& msg.reward_per_block == Some(0u128) ==> r == Err::<(), ContractError>(
                ContractError::InvalidRewardPerBlock,
            )
            &&& msg.reward_per_block != Some(0u128) ==> {
                &&& r is Ok
                &&& c1.info == c0.info
                &&& c1.stakers == c0.stakers
                &&& c1.pools@ =~= c0.pools@.insert(
                    msg.collection_id@,
                    CollectionPoolInfo {
                        reward_per_block: match msg.reward_per_block {
                            Some(rpb) => rpb,
                            None => p.reward_per_block,
                        },
                        ..p
                    },
                )
            }
        })
}

/// Changes a collection pool's reward per block, if one is given; it must be positive. Only
/// the admin may do so.
pub fn try_update_collection_pool_info(
    c: &mut Contract,
    sender: &String,
    msg: UpdateCollectionPoolMsg,
) -> (r: Result<(), ContractError>)
    requires
        old(c).wf(),
    ensures
        update_pool_outcome(*old(c), *final(c), sender, msg, r),
{
    check_admin_permission(c, sender)?;
    let (collection_id, reward, total, acc, last, exp) = match c.pools.get(&msg.collection_id) {
        Some(p) => (
            p.collection_id.clone(),
            p.reward_per_block,
            p.total_nfts,
            p.acc_per_share,
            p.last_reward_block,
            p.expired_block,
        ),
        None => {
            return Err(ContractError::InvalidUpdate);
        },
    };
    let new_reward = match msg.reward_per_block {
        Some(rpb) => {
            if rpb == 0 {
                return Err(ContractError::InvalidRewardPerBlock);
            }
            rpb
        },
        None => reward,
    };
    let pool = CollectionPoolInfo {
        collection_id,
        reward_per_block: new_reward,
        total_nfts: total,
        acc_per_share: acc,
        last_reward_block: last,
        expired_block: exp,
    };
    c.pools.insert(msg.collection_id, pool);
    Ok(())
}

/// The collection pool has reached its expiry block.
pub open spec fn pool_expired(p: CollectionPoolInfo, block: BlockInfo) -> bool {
    p.expired_block matches Some(b) && block.height >= b
}

/// Refuses a collection pool that has reached its expiry block.
pub fn check_collection_is_expired(block: &BlockInfo, pool: &CollectionPoolInfo) -> (r: Result<
    bool,
    ContractError,
>)
    ensures
        pool_expired(*pool, *block) ==> r == Err::<bool, ContractError>(
            ContractError::ExpiredCollection,
        ),
        !pool_expired(*pool, *block) ==> r == Ok::<bool, ContractError>(true),
{
    match pool.expired_block {
        Some(expired_block) => {
            if block.height >= expired_block {
                return Err(ContractError::ExpiredCollection);
            }
            Ok(true)
        },
        None => Ok(true),
    }
}

/// The pool after accruing rewards up to the given block: nothing changes when the pool was
/// already updated at or after this block; an empty pool only moves its last reward block; else
/// the reward since the last update, shared by the staked NFTs, is added to the reward per
/// share.
pub open spec fn accrued_pool(p: CollectionPoolInfo, height: u64) -> CollectionPoolInfo {
    if p.last_reward_block > 0 && height <= p.last_reward_block {
        p
    } else if p.total_nfts == 0 {
        CollectionPoolInfo { last_reward_block: height, ..p }
    } else {
        let reward = p.reward_per_block * (height - p.last_reward_block);
        CollectionPoolInfo {
            acc_per_share: (p.acc_per_share + reward / (p.total_nfts as int)) as u128,
            last_reward_block: height,
            ..p
        }
    }
}

/// Accruing rewards stays within `u128`.
pub open spec fn accrual_in_range(p: CollectionPoolInfo, height: u64) -> bool {
    !(p.last_reward_block > 0 && height <= p.last_reward_block) && p.total_nfts != 0 ==> {
        let reward = p.reward_per_block * (height - p.last_reward_block);
        &&& reward <= u128::MAX
        &&& p.acc_per_share + reward / (p.total_nfts as int) <= u128::MAX
    }
}

fn update_collection_pool(c: &mut Contract, block: &BlockInfo, collection_id: &String) -> (r:
    CollectionPoolInfo)
    requires
        old(c).wf(),
        old(c).pools@.contains_key(collection_id@),
        accrual_in_range(old(c).pools@[collection_id@], block.height),
    ensures
        final(c).wf(),
        r == accrued_pool(old(c).pools@[collection_id@], block.height),
        final(c).info == old(c).info,
        final(c).stakers == old(c).stakers,
        final(c).pools@ == old(c).pools@.insert(collection_id@, r),
{
    let p = match c.pools.get(collection_id) {
        Some(p) => CollectionPoolInfo {
            collection_id: p.collection_id.clone(),
            reward_per_block: p.reward_per_block,
            total_nfts: p.total_nfts,
            acc_per_share: p.acc_per_share,
            last_reward_block: p.last_reward_block,
            expired_block: p.expired_block,
        },
        None => {
            proof {
                assert(false);
            }
            return CollectionPoolInfo {
                collection_id: collection_id.clone(),
                reward_per_block: 0,
                total_nfts: 0,
                acc_per_share: 0,
                last_reward_block: 0,
                expired_block: None,
            };
        },
    };
    if p.last_reward_block > 0 && block.height <= p.last_reward_block {
        proof {
            assert(old(c).pools@.insert(collection_id@, p) =~= old(c).pools@);
        }
        return p;
    }
    let updated = if p.total_nfts == 0 {
        CollectionPoolInfo { last_reward_block: block.height, ..p }
    } else {
        let multiplier: u64 = block.height - p.last_reward_block;
        let reward: u128 = p.reward_per_block * (multiplier as u128);
        CollectionPoolInfo {
            acc_per_share: p.acc_per_share + reward / p.total_nfts,
            last_reward_block: block.height,
            ..p
        }
    };
    let saved = CollectionPoolInfo {
        collection_id: updated.collection_id.clone(),
        reward_per_block: updated.reward_per_block,
        total_nfts: updated.total_nfts,
        acc_per_share: updated.acc_per_share,
        last_reward_block: updated.last_reward_block,
        expired_block: updated.expired_block,
    };
    c.pools.insert(collection_id.clone(), saved);
    updated
}

/// The account of an address that has never staked.
pub open spec fn empty_staker() -> StakerInfoView {
    StakerInfoView { total_staked: 0, reward_debt: 0, pending: 0, total_earned: 0, staked_tokens: Seq::empty() }
}

/// The account of an address, an empty one if it has none.
pub open spec fn staker_of(c: Contract, addr: Seq<char>) -> StakerInfoView {
    if c.stakers@.contains_key(addr) {
        c.stakers@[addr]
    } else {
        empty_staker()
    }
}

/// The reward owed to a staker at the given reward per share, before what is already pending.
pub open spec fn owed(s: StakerInfoView, acc: u128) -> int {
    s.total_staked * acc - s.reward_debt
}

/// Settles what a staker is owed before a deposit: when the staker has NFTs staked and is owed
/// something (together with what is pending), it is either paid into the earned total or kept as
/// pending.
pub open spec fn settle_on_deposit(s: StakerInfoView, acc: u128, withdraw_rewards: bool) -> StakerInfoView {
    if s.total_staked > 0 {
        let pending = owed(s, acc) + s.pending;
        if pending > 0 {
            if withdraw_rewards {
                StakerInfoView { total_earned: (s.total_earned + pending) as u128, pending: 0, ..s }
            } else {
                StakerInfoView { pending: pending as u128, ..s }
            }
        } else {
            s
        }
    } else {
        s
    }
}

/// Settles what a staker is owed before a withdrawal: what is owed is either paid into the earned
/// total or becomes the pending amount.
pub open spec fn settle_on_withdraw(s: StakerInfoView, acc: u128, withdraw_rewards: bool) -> StakerInfoView {
    let pending = owed(s, acc);
    if pending > 0 {
        if withdraw_rewards {
            StakerInfoView { total_earned: (s.total_earned + pending) as u128, pending: 0, ..s }
        } else {
            StakerInfoView { pending: pending as u128, ..s }
        }
    } else {
        s
    }
}

/// A received NFT can be staked: the sender is a whitelisted NFT contract, the message is a
/// deposit to an existing pool, and the pool is not expired.
pub open spec fn deposit_accepted(c: Contract, block: BlockInfo, sender: Seq<char>, deposit: Option<DepositeMsg>) -> bool {
    &&& contains_str(c.info.nft_721_contract_addr_whitelist@, sender)
    &&& deposit is Some
    &&& c.pools@.contains_key(deposit->0.collection_id@)
    &&& !pool_expired(c.pools@[deposit->0.collection_id@], block)
}

/// Staking the received NFT stays within `u128`.
pub open spec fn deposit_in_range(c: Contract, block: BlockInfo, sender: Seq<char>, staker: Seq<char>, deposit: Option<DepositeMsg>) -> bool {
    deposit_accepted(c, block, sender, deposit) ==> {
        let d = deposit->0;
        let p = c.pools@[d.collection_id@];
        let p1 = accrued_pool(p, block.height);
        let s = staker_of(c, staker);
        let s1 = settle_on_deposit(s, p1.acc_per_share, d.withdraw_rewards);
        &&& accrual_in_range(p, block.height)
        &&& s.total_staked > 0 ==> {
            &&& s.total_staked * p1.acc_per_share <= u128::MAX
            &&& owed(s, p1.acc_per_share) >= 0
            &&& owed(s, p1.acc_per_share) + s.pending <= u128::MAX
            &&& d.withdraw_rewards ==> s.total_earned + owed(s, p1.acc_per_share) + s.pending <= u128::MAX
        }
        &&& p1.total_nfts < u128::MAX
        &&& s1.total_staked < u128::MAX
        &&& (s1.total_staked + 1) * p1.acc_per_share <= u128::MAX
    }
}

fn copy_tokens(v: &Vec<CollectionStakedTokenInfo>) -> (r: Vec<CollectionStakedTokenInfo>)
    ensures
        r@ == v@,
{
    let mut out: Vec<CollectionStakedTokenInfo> = Vec::new();
    let mut i: usize = 0;
    while i < v.len()
        invariant
            i <= v@.len(),
            out@ == v@.subrange(0, i as int),
        decreases v@.len() - i,
    {
        out.push(
            CollectionStakedTokenInfo {
                token_id: v[i].token_id.clone(),
                contract_addr: v[i].contract_addr.clone(),
            },
        );
        i = i + 1;
        assert(out@ =~= v@.subrange(0, i as int));
    }
    assert(v@.subrange(0, v@.len() as int) =~= v@);
    out
}

fn load_staker(stakers: &StrMap<StakerInfo>, addr: &String) -> (r: Option<StakerInfo>)
    requires
        stakers.wf(),
    ensures
        match r {
            Some(s) => stakers@.contains_key(addr@) && s@ == stakers@[addr@],
            None => !stakers@.contains_key(addr@),
        },
{
    match stakers.get(addr) {
        Some(s) => Some(
            StakerInfo {
                total_staked: s.total_staked,
                reward_debt: s.reward_debt,
                pending: s.pending,
                total_earned: s.total_earned,
                staked_tokens: copy_tokens(&s.staked_tokens),
            },
        ),
        None => None,
    }
}

/// What receiving the NFT `token_id` for `staker` from the NFT contract `sender` at `block`
/// does: the contract `c0` becomes `c1` and the result is `r`.
pub open spec fn receive_outcome(
    c0: Contract,
    c1: Contract,
    block: &BlockInfo,
    sender: &String,
    staker: String,
    token_id: String,
    deposit: Option<DepositeMsg>,
    r: Result<(), ContractError>,
) -> bool {
    &&& (c1.wf())
    &&& (r is Err ==> c1 == c0)
    &&& (!contains_str(c0.info.nft_721_contract_addr_whitelist@, sender@) ==> r == Err::<
            (),
            ContractError,
        >(ContractError::Unauthorized { sender: *sender }))
    &&& (contains_str(c0.info.nft_721_contract_addr_whitelist@, sender@) && deposit is None ==> r
            == Err::<(), ContractError>(ContractError::InvalidDepositMsg))
    &&& (contains_str(c0.info.nft_721_contract_addr_whitelist@, sender@) && deposit is Some
            && !c0.pools@.contains_key(deposit->0.collection_id@) ==> r == Err::<
            (),
            ContractError,
        >(ContractError::InvalidCollection))
    &&& (contains_str(c0.info.nft_721_contract_addr_whitelist@, sender@) && deposit is Some
            && c0.pools@.contains_key(deposit->0.collection_id@) && pool_expired(
            c0.pools@[deposit->0.collection_id@],
            *block,
        ) ==> r == Err::<(), ContractError>(ContractError::ExpiredCollection))
    &&& (deposit_accepted(c0, *block, sender@, deposit) ==> {
            let d = deposit->0;
            let p1 = accrued_pool(c0.pools@[d.collection_id@], block.height);
            let s1 = settle_on_deposit(staker_of(c0, staker@), p1.acc_per_share, d.withdraw_rewards);
            let staked = (s1.total_staked + 1) as u128;
            &&& r is Ok
            &&& c1.info == c0.info
            &&& c1.pools@ =~= c0.pools@.insert(
                d.collection_id@,
                CollectionPoolInfo { total_nfts: (p1.total_nfts + 1) as u128, ..p1 },
            )
            &&& c1.stakers@ =~= c0.stakers@.insert(
                staker@,
                StakerInfoView {
                    total_staked: staked,
                    reward_debt: (staked * p1.acc_per_share) as u128,
                    staked_tokens: s1.staked_tokens.push(
                        CollectionStakedTokenInfo { token_id, contract_addr: *sender },
                    ),
                    ..s1
                },
            )
        })
}

/// Stakes an NFT that a whitelisted NFT contract sent on behalf of `staker`: rewards of the pool
/// are accrued, what the staker is owed is settled, and the NFT is added to the staker's account
/// and to the pool. `deposit` is the message that came with the NFT, if it is a deposit message.
pub fn try_receive_721(
    c: &mut Contract,
    block: &BlockInfo,
    sender: &String,
    staker: String,
    token_id: String,
    deposit: Option<DepositeMsg>,
) -> (r: Result<(), ContractError>)
    requires
        old(c).wf(),
        deposit_in_range(*old(c), *block, sender@, staker@, deposit),
    ensures
        receive_outcome(*old(c), *final(c), block, sender, staker, token_id, deposit, r),
{
    if !contains_string(&c.info.nft_721_contract_addr_whitelist, sender) {
        return Err(ContractError::Unauthorized { sender: sender.clone() });
    }
    let d = match deposit {
        Some(d) => d,
        None => {
            return Err(ContractError::InvalidDepositMsg);
        },
    };
    match c.pools.get(&d.collection_id) {
        Some(p) => {
            check_collection_is_expired(block, p)?;
        },
        None => {
            return Err(ContractError::InvalidCollection);
        },
    }
    let p1 = update_collection_pool(c, block, &d.collection_id);
    let acc = p1.acc_per_share;
    let mut s = match load_staker(&c.stakers, &staker) {
        Some(s) => s,
        None => {
            let s = StakerInfo {
                total_staked: 0,
                reward_debt: 0,
                pending: 0,
                total_earned: 0,
                staked_tokens: Vec::new(),
            };
            assert(s@.staked_tokens =~= Seq::<CollectionStakedTokenInfo>::empty());
            s
        },
    };
    if s.total_staked > 0 {
        let earned: u128 = s.total_staked * acc;
        let pending: u128 = earned - s.reward_debt + s.pending;
        if pending > 0 {
            if d.withdraw_rewards {
                s.total_earned = s.total_earned + pending;
                s.pending = 0;
            } else {
                s.pending = pending;
            }
        }
    }
    let pool = CollectionPoolInfo { total_nfts: p1.total_nfts + 1, ..p1 };
    c.pools.insert(d.collection_id, pool);
    s.total_staked = s.total_staked + 1;
    s.reward_debt = s.total_staked * acc;
    s.staked_tokens.push(CollectionStakedTokenInfo { token_id, contract_addr: sender.clone() });
    c.stakers.insert(staker, s);
    Ok(())
}

/// The staked NFTs whose ids are among the given ones.
pub open spec fn withdrawn_tokens(tokens: Seq<CollectionStakedTokenInfo>, ids: Seq<String>) -> Seq<CollectionStakedTokenInfo>
    decreases tokens.len(),
{
    if tokens.len() == 0 {
        Seq::empty()
    } else {
        let rest = withdrawn_tokens(tokens.drop_last(), ids);
        if contains_str(ids, tokens.last().token_id@) {
            rest.push(tokens.last())
        } else {
            rest
        }
    }
}

/// The staked NFTs whose ids are not among the given ones.
pub open spec fn kept_tokens(tokens: Seq<CollectionStakedTokenInfo>, ids: Seq<String>) -> Seq<CollectionStakedTokenInfo>
    decreases tokens.len(),
{
    if tokens.len() == 0 {
        Seq::empty()
    } else {
        let rest = kept_tokens(tokens.drop_last(), ids);
        if contains_str(ids, tokens.last().token_id@) {
            rest
        } else {
            rest.push(tokens.last())
        }
    }
}

/// A withdrawal splits a staker's tokens: each token is either withdrawn (its id was asked for)
/// or kept (it was not), and none is lost or added.
pub proof fn lemma_withdraw_splits_tokens(tokens: Seq<CollectionStakedTokenInfo>, ids: Seq<String>)
    ensures
        withdrawn_tokens(tokens, ids).len() + kept_tokens(tokens, ids).len() == tokens.len(),
        forall|t: CollectionStakedTokenInfo|
            #[trigger] tokens.contains(t) ==> (withdrawn_tokens(tokens, ids).contains(t)
                || kept_tokens(tokens, ids).contains(t)),
        forall|t: CollectionStakedTokenInfo|
            #[trigger] withdrawn_tokens(tokens, ids).contains(t) ==> tokens.contains(t) && contains_str(
                ids,
                t.token_id@,
            ),
        forall|t: CollectionStakedTokenInfo|
            #[trigger] kept_tokens(tokens, ids).contains(t) ==> tokens.contains(t) && !contains_str(
                ids,
                t.token_id@,
            ),
    decreases tokens.len(),
{
    if tokens.len() > 0 {
        let init = tokens.drop_last();
        let last = tokens.last();
        lemma_withdraw_splits_tokens(init, ids);
        let w = withdrawn_tokens(tokens, ids);
        let k = kept_tokens(tokens, ids);
        assert forall|t: CollectionStakedTokenInfo| #[trigger] tokens.contains(t) implies (
        w.contains(t) || k.contains(t)) by {
            let i = choose|i: int| 0 <= i < tokens.len() && tokens[i] == t;
            if i < tokens.len() - 1 {
                assert(init[i] == t);
                assert(init.contains(t));
                if withdrawn_tokens(init, ids).contains(t) {
                    let j = choose|j: int|
                        0 <= j < withdrawn_tokens(init, ids).len() && withdrawn_tokens(init, ids)[j]
                            == t;
                    assert(w[j] == t);
                } else {
                    let j = choose|j: int|
                        0 <= j < kept_tokens(init, ids).len() && kept_tokens(init, ids)[j] == t;
                    assert(k[j] == t);
                }
            } else {
                if contains_str(ids, last.token_id@) {
                    assert(w[w.len() - 1] == t);
                } else {
                    assert(k[k.len() - 1] == t);
                }
            }
        }
        assert forall|t: CollectionStakedTokenInfo| #[trigger] w.contains(t) implies tokens.contains(
            t,
        ) && contains_str(ids, t.token_id@) by {
            let j = choose|j: int| 0 <= j < w.len() && w[j] == t;
            if j < withdrawn_tokens(init, ids).len() {
                assert(withdrawn_tokens(init, ids)[j] == t);
                assert(withdrawn_tokens(init, ids).contains(t));
                let i = choose|i: int| 0 <= i < init.len() && init[i] == t;
                assert(tokens[i] == t);
            } else {
                assert(tokens[tokens.len() - 1] == t);
            }
        }
        assert forall|t: CollectionStakedTokenInfo| #[trigger] k.contains(t) implies tokens.contains(
            t,
        ) && !contains_str(ids, t.token_id@) by {
            let j = choose|j: int| 0 <= j < k.len() && k[j] == t;
            if j < kept_tokens(init, ids).len() {
                assert(kept_tokens(init, ids)[j] == t);
                assert(kept_tokens(init, ids).contains(t));
                let i = choose|i: int| 0 <= i < init.len() && init[i] == t;
                assert(tokens[i] == t);
            } else {
                assert(tokens[tokens.len() - 1] == t);
            }
        }
    }
}

/// A withdrawal neither loses nor duplicates an NFT: the withdrawn and the kept tokens together
/// are the staked tokens, counted with multiplicity.
pub proof fn lemma_withdraw_permutes_tokens(tokens: Seq<CollectionStakedTokenInfo>, ids: Seq<String>)
    ensures
        withdrawn_tokens(tokens, ids).to_multiset().add(kept_tokens(tokens, ids).to_multiset())
            =~= tokens.to_multiset(),
    decreases tokens.len(),
{
    broadcast use vstd::seq_lib::group_to_multiset_ensures, vstd::multiset::group_multiset_axioms;

    if tokens.len() == 0 {
        assert(withdrawn_tokens(tokens, ids) =~= Seq::<CollectionStakedTokenInfo>::empty());
        assert(kept_tokens(tokens, ids) =~= Seq::<CollectionStakedTokenInfo>::empty());
        assert(tokens =~= Seq::<CollectionStakedTokenInfo>::empty());
    } else {
        let init = tokens.drop_last();
        let last = tokens.last();
        lemma_withdraw_permutes_tokens(init, ids);
        assert(tokens =~= init.push(last));
    }
}

/// Withdrawing stays within `u128`, for a staker with an account and an existing pool.
pub open spec fn withdraw_in_range(c: Contract, block: BlockInfo, sender: Seq<char>, collection_id: Seq<char>, withdraw_rewards: bool, ids: Seq<String>) -> bool {
    c.stakers@.contains_key(sender) ==> {
        let p = c.pools@[collection_id];
        let p1 = accrued_pool(p, block.height);
        let s = c.stakers@[sender];
        let s1 = settle_on_withdraw(s, p1.acc_per_share, withdraw_rewards);
        let n = withdrawn_tokens(s.staked_tokens, ids).len();
        &&& c.pools@.contains_key(collection_id)
        &&& accrual_in_range(p, block.height)
        &&& s.total_staked * p1.acc_per_share <= u128::MAX
        &&& owed(s, p1.acc_per_share) >= 0
        &&& withdraw_rewards ==> s.total_earned + owed(s, p1.acc_per_share) <= u128::MAX
        &&& n == ids.len() ==> {
            &&& (s1.total_staked - n) * p1.acc_per_share <= u128::MAX
            &&& p1.total_nfts >= n
        }
    }
}

/// What withdrawing the NFTs `withdraw_nft_ids` of `sender` from a collection pool at `block`
/// does: the contract `c0` becomes `c1` and the result is `r`.
pub open spec fn withdraw_outcome(
    c0: Contract,
    c1: Contract,
    block: &BlockInfo,
    sender: &String,
    collection_id: String,
    withdraw_rewards: bool,
    withdraw_nft_ids: Vec<String>,
    r: Result<Vec<NftTransfer>, ContractError>,
) -> bool {
    &&& (c1.wf())
    &&& (r is Err ==> c1 == c0)
    &&& (!c0.stakers@.contains_key(sender@) ==> r == Err::<Vec<NftTransfer>, ContractError>(
            ContractError::NotFound,
        ))
    &&& (c0.stakers@.contains_key(sender@) ==> {
            let s = c0.stakers@[sender@];
            let out = withdrawn_tokens(s.staked_tokens, withdraw_nft_ids@);
            let n = out.len();
            &&& n != withdraw_nft_ids@.len() ==> r == Err::<Vec<NftTransfer>, ContractError>(
                ContractError::InvalidWithdraw,
            )
            &&& n == withdraw_nft_ids@.len() ==> {
                let p1 = accrued_pool(c0.pools@[collection_id@], block.height);
                let s1 = settle_on_withdraw(s, p1.acc_per_share, withdraw_rewards);
                let staked = (s1.total_staked - n) as u128;
                &&& r is Ok
                &&& r->Ok_0@.len() == n
                &&& forall|i: int|
                    0 <= i < n ==> (#[trigger] r->Ok_0@[i]) == (NftTransfer {
                        contract_addr: out[i].contract_addr,
                        recipient: *sender,
                        token_id: out[i].token_id,
                    })
                &&& c1.info == c0.info
                &&& c1.pools@ =~= c0.pools@.insert(
                    collection_id@,
                    CollectionPoolInfo { total_nfts: (p1.total_nfts - n) as u128, ..p1 },
                )
                &&& c1.stakers@ =~= c0.stakers@.insert(
                    sender@,
                    StakerInfoView {
                        total_staked: staked,
                        reward_debt: (staked * p1.acc_per_share) as u128,
                        staked_tokens: kept_tokens(s.staked_tokens, withdraw_nft_ids@),
                        ..s1
                    },
                )
            }
        })
}

/// Receiving an NFT first accrues the pool's rewards: a pool already updated at or after the
/// block keeps its reward per share; otherwise the reward of the blocks since its last update,
/// `reward_per_block` each, is divided among its staked NFTs and added to the reward per share,
/// and the pool is marked updated at the block. The pool then counts one more NFT.
pub proof fn lemma_receive_accrues_pool(
    c0: Contract,
    c1: Contract,
    block: BlockInfo,
    sender: String,
    staker: String,
    token_id: String,
    deposit: Option<DepositeMsg>,
    r: Result<(), ContractError>,
)
    requires
        c0.wf(),
        deposit_in_range(c0, block, sender@, staker@, deposit),
        receive_outcome(c0, c1, &block, &sender, staker, token_id, deposit, r),
        r is Ok,
    ensures
        deposit is Some,
        c0.pools@.contains_key(deposit->0.collection_id@),
        c1.pools@.contains_key(deposit->0.collection_id@),
        ({
            let p = c0.pools@[deposit->0.collection_id@];
            let q = c1.pools@[deposit->0.collection_id@];
            let h = block.height;
            &&& q.total_nfts == p.total_nfts + 1
            &&& q.reward_per_block == p.reward_per_block
            &&& p.last_reward_block > 0 && h <= p.last_reward_block ==> q.acc_per_share
                == p.acc_per_share && q.last_reward_block == p.last_reward_block
            &&& !(p.last_reward_block > 0 && h <= p.last_reward_block) && p.total_nfts == 0
                ==> q.acc_per_share == p.acc_per_share && q.last_reward_block == h
            &&& !(p.last_reward_block > 0 && h <= p.last_reward_block) && p.total_nfts > 0
                ==> q.acc_per_share == p.acc_per_share + (p.reward_per_block * (h
                - p.last_reward_block)) / (p.total_nfts as int) && q.last_reward_block == h
        }),
{
}

/// Receiving an NFT settles what the staker is owed without losing any of it: for a staker who
/// already had NFTs staked, what it is owed at the pool's new reward per share (its staked count
/// times that, less its reward debt) is added to its pending and earned rewards together; it
/// goes to the earned total when `withdraw_rewards` is set and stays pending otherwise. The
/// staker then has one more NFT staked and a reward debt of its staked count times the reward
/// per share.
pub proof fn lemma_receive_settles_rewards(
    c0: Contract,
    c1: Contract,
    block: BlockInfo,
    sender: String,
    staker: String,
    token_id: String,
    deposit: Option<DepositeMsg>,
    r: Result<(), ContractError>,
)
    requires
        c0.wf(),
        deposit_in_range(c0, block, sender@, staker@, deposit),
        receive_outcome(c0, c1, &block, &sender, staker, token_id, deposit, r),
        r is Ok,
        c0.stakers@.contains_key(staker@),
        c0.stakers@[staker@].total_staked > 0,
    ensures
        deposit is Some,
        c1.stakers@.contains_key(staker@),
        c1.pools@.contains_key(deposit->0.collection_id@),
        ({
            let s0 = c0.stakers@[staker@];
            let s1 = c1.stakers@[staker@];
            let acc = c1.pools@[deposit->0.collection_id@].acc_per_share;
            &&& s1.pending + s1.total_earned == s0.pending + s0.total_earned + (s0.total_staked
                * acc - s0.reward_debt)
            &&& deposit->0.withdraw_rewards ==> s1.pending == 0
            &&& !deposit->0.withdraw_rewards ==> s1.total_earned == s0.total_earned
            &&& s1.total_staked == s0.total_staked + 1
            &&& s1.reward_debt == s1.total_staked * acc
        }),
{
}

/// Withdrawing first accrues the pool's rewards, as receiving does: a pool already updated at or
/// after the block keeps its reward per share; otherwise the reward of the blocks since its last
/// update is divided among its staked NFTs and added to the reward per share, and the pool is
/// marked updated at the block. The pool then counts the withdrawn NFTs fewer.
pub proof fn lemma_withdraw_accrues_pool(
    c0: Contract,
    c1: Contract,
    block: BlockInfo,
    sender: String,
    collection_id: String,
    withdraw_rewards: bool,
    withdraw_nft_ids: Vec<String>,
    r: Result<Vec<NftTransfer>, ContractError>,
)
    requires
        c0.wf(),
        withdraw_in_range(c0, block, sender@, collection_id@, withdraw_rewards, withdraw_nft_ids@),
        withdraw_outcome(c0, c1, &block, &sender, collection_id, withdraw_rewards, withdraw_nft_ids, r),
        r is Ok,
    ensures
        c0.pools@.contains_key(collection_id@),
        c1.pools@.contains_key(collection_id@),
        ({
            let p = c0.pools@[collection_id@];
            let q = c1.pools@[collection_id@];
            let h = block.height;
            &&& q.total_nfts == p.total_nfts - r->Ok_0@.len()
            &&& q.reward_per_block == p.reward_per_block
            &&& p.last_reward_block > 0 && h <= p.last_reward_block ==> q.acc_per_share
                == p.acc_per_share && q.last_reward_block == p.last_reward_block
            &&& !(p.last_reward_block > 0 && h <= p.last_reward_block) && p.total_nfts == 0
                ==> q.acc_per_share == p.acc_per_share && q.last_reward_block == h
            &&& !(p.last_reward_block > 0 && h <= p.last_reward_block) && p.total_nfts > 0
                ==> q.acc_per_share == p.acc_per_share + (p.reward_per_block * (h
                - p.last_reward_block)) / (p.total_nfts as int) && q.last_reward_block == h
        }),
{
}

/// Withdrawing settles what the staker is owed at the pool's new reward per share (its staked
/// count times that, less its reward debt): when something is owed it is added to the earned
/// total if `withdraw_rewards` is set, and otherwise becomes the pending reward; when nothing is
/// owed both stay as they were. The staker keeps the NFTs it did not withdraw, and its reward
/// debt becomes its new staked count times the reward per share.
pub proof fn lemma_withdraw_settles_rewards(
    c0: Contract,
    c1: Contract,
    block: BlockInfo,
    sender: String,
    collection_id: String,
    withdraw_rewards: bool,
    withdraw_nft_ids: Vec<String>,
    r: Result<Vec<NftTransfer>, ContractError>,
)
    requires
        c0.wf(),
        withdraw_in_range(c0, block, sender@, collection_id@, withdraw_rewards, withdraw_nft_ids@),
        withdraw_outcome(c0, c1, &block, &sender, collection_id, withdraw_rewards, withdraw_nft_ids, r),
        r is Ok,
    ensures
        c0.stakers@.contains_key(sender@),
        c1.stakers@.contains_key(sender@),
        c1.pools@.contains_key(collection_id@),
        ({
            let s0 = c0.stakers@[sender@];
            let s1 = c1.stakers@[sender@];
            let acc = c1.pools@[collection_id@].acc_per_share;
            let owed = s0.total_staked * acc - s0.reward_debt;
            &&& owed > 0 && withdraw_rewards ==> s1.total_earned == s0.total_earned + owed
                && s1.pending == 0
            &&& owed > 0 && !withdraw_rewards ==> s1.total_earned == s0.total_earned && s1.pending
                == owed
            &&& owed <= 0 ==> s1.total_earned == s0.total_earned && s1.pending == s0.pending
            &&& s1.total_staked == s0.total_staked - r->Ok_0@.len()
            &&& s1.reward_debt == s1.total_staked * acc
            &&& s1.staked_tokens == kept_tokens(s0.staked_tokens, withdraw_nft_ids@)
        }),
{
    lemma_withdraw_splits_tokens(c0.stakers@[sender@].staked_tokens, withdraw_nft_ids@);
}

/// Withdraws the given staked NFTs of the sender from a collection pool: rewards are accrued,
/// what the sender is owed is settled, and the NFTs are sent back to the sender. Every requested
/// NFT must be staked by the sender.
pub fn try_withdraw(
    c: &mut Contract,
    block: &BlockInfo,
    sender: &String,
    collection_id: String,
    withdraw_rewards: bool,
    withdraw_nft_ids: Vec<String>,
) -> (r: Result<Vec<NftTransfer>, ContractError>)
    requires
        old(c).wf(),
        withdraw_in_range(*old(c), *block, sender@, collection_id@, withdraw_rewards, withdraw_nft_ids@),
    ensures
        withdraw_outcome(*old(c), *final(c), block, sender, collection_id, withdraw_rewards, withdraw_nft_ids, r),
{
    let mut s = match load_staker(&c.stakers, sender) {
        Some(s) => s,
        None => {
            return Err(ContractError::NotFound);
        },
    };
    let ghost s0 = s@;
    let ghost tokens = s@.staked_tokens;
    let mut withdraw_nfts: Vec<CollectionStakedTokenInfo> = Vec::new();
    let mut left_nfts: Vec<CollectionStakedTokenInfo> = Vec::new();
    let mut i: usize = 0;
    while i < s.staked_tokens.len()
        invariant
            i <= tokens.len(),
            s@.staked_tokens == tokens,
            withdraw_nfts@ == withdrawn_tokens(tokens.take(i as int), withdraw_nft_ids@),
            left_nfts@ == kept_tokens(tokens.take(i as int), withdraw_nft_ids@),
        decreases tokens.len() - i,
    {
        proof {
            assert(tokens.take(i + 1).drop_last() =~= tokens.take(i as int));
        }
        let t = CollectionStakedTokenInfo {
            token_id: s.staked_tokens[i].token_id.clone(),
            contract_addr: s.staked_tokens[i].contract_addr.clone(),
        };
        if contains_string(&withdraw_nft_ids, &s.staked_tokens[i].token_id) {
            withdraw_nfts.push(t);
        } else {
            left_nfts.push(t);
        }
        i = i + 1;
    }
    proof {
        assert(tokens.take(tokens.len() as int) =~= tokens);
    }
    if withdraw_nfts.len() != withdraw_nft_ids.len() {
        return Err(ContractError::InvalidWithdraw);
    }
    let p1 = update_collection_pool(c, block, &collection_id);
    let acc = p1.acc_per_share;
    let earned: u128 = s.total_staked * acc;
    let current_pending: u128 = earned - s.reward_debt;
    if current_pending > 0 {
        if withdraw_rewards {
            s.total_earned = s.total_earned + current_pending;
            s.pending = 0;
        } else {
            s.pending = current_pending;
        }
    }
    let n = withdraw_nfts.len();
    let mut transfers: Vec<NftTransfer> = Vec::new();
    let mut j: usize = 0;
    while j < n
        invariant
            j <= n,
            n == withdraw_nfts@.len(),
            transfers@.len() == j,
            forall|k: int|
                0 <= k < j ==> (#[trigger] transfers@[k]) == (NftTransfer {
                    contract_addr: withdraw_nfts@[k].contract_addr,
                    recipient: *sender,
                    token_id: withdraw_nfts@[k].token_id,
                }),
        decreases n - j,
    {
        transfers.push(
            NftTransfer {
                contract_addr: withdraw_nfts[j].contract_addr.clone(),
                recipient: sender.clone(),
                token_id: withdraw_nfts[j].token_id.clone(),
            },
        );
        j = j + 1;
    }
    let count = n as u128;
    proof {
        lemma_withdraw_splits_tokens(tokens, withdraw_nft_ids@);
    }
    s.total_staked = s.total_staked - count;
    s.reward_debt = s.total_staked * acc;
    s.staked_tokens = left_nfts;
    c.stakers.insert(sender.clone(), s);
    let pool = CollectionPoolInfo { total_nfts: p1.total_nfts - count, ..p1 };
    c.pools.insert(collection_id, pool);
    proof {
        lemma_withdraw_splits_tokens(tokens, withdraw_nft_ids@);
        assert forall|a: Seq<char>| #[trigger] c.stakers@.contains_key(a) implies c.stakers@[a].total_staked
            == c.stakers@[a].staked_tokens.len() by {
            if a != sender@ {
                assert(old(c).stakers@.contains_key(a));
            }
        }
    }
    Ok(transfers)
}

/// The messages the staking contract handles.
pub enum ExecuteMsg {
    UpdateContractInfo(UpdateContractInfoMsg),
    CreateCollectionPool(CreateCollectionPoolMsg),
    UpdateCollectionPool(UpdateCollectionPoolMsg),
    /// An NFT received from `sender`'s contract on behalf of the staker, with the deposit message
    /// it carried if it is one.
    ReceiveNft { staker: String, token_id: String, deposit: Option<DepositeMsg> },
    Withdraw { collection_id: String, withdraw_rewards: bool, withdraw_nft_ids: Vec<String> },
}

/// The inputs on which handling the message stays within the machine's integers.
pub open spec fn execute_in_range(c: Contract, block: BlockInfo, sender: Seq<char>, msg: ExecuteMsg) -> bool {
    match msg {
        ExecuteMsg::CreateCollectionPool(m) => create_pool_in_range(c, block, sender, m),
        ExecuteMsg::ReceiveNft { staker, deposit, .. } => deposit_in_range(c, block, sender, staker@, deposit),
        ExecuteMsg::Withdraw { collection_id, withdraw_rewards, withdraw_nft_ids } => withdraw_in_range(
            c,
            block,
            sender,
            collection_id@,
            withdraw_rewards,
            withdraw_nft_ids@,
        ),
        _ => true,
    }
}

fn accrued_acc(p: &CollectionPoolInfo, height: u64) -> (r: Option<u128>)
    ensures
        r is Some <==> accrual_in_range(*p, height),
        r is Some ==> r->0 == accrued_pool(*p, height).acc_per_share,
{
    if p.last_reward_block > 0 && height <= p.last_reward_block {
        return Some(p.acc_per_share);
    }
    if p.total_nfts == 0 {
        return Some(p.acc_per_share);
    }
    let blocks: u64 = height - p.last_reward_block;
    let reward = match p.reward_per_block.checked_mul(blocks as u128) {
        Some(reward) => reward,
        None => {
            return None;
        },
    };
    let increase = reward / p.total_nfts;
    if p.acc_per_share > u128::MAX - increase {
        return None;
    }
    Some(p.acc_per_share + increase)
}

fn staker_view_of(stakers: &StrMap<StakerInfo>, addr: &String) -> (r: (u128, u128, u128, u128))
    requires
        stakers.wf(),
    ensures
        ({
            let s = if stakers@.contains_key(addr@) {
                stakers@[addr@]
            } else {
                empty_staker()
            };
            r == (s.total_staked, s.reward_debt, s.pending, s.total_earned)
        }),
{
    match stakers.get(addr) {
        Some(s) => (s.total_staked, s.reward_debt, s.pending, s.total_earned),
        None => (0, 0, 0, 0),
    }
}

fn deposit_fits(c: &Contract, block: &BlockInfo, sender: &String, staker: &String, deposit: &Option<DepositeMsg>) -> (r: bool)
    requires
        c.wf(),
    ensures
        r == deposit_in_range(*c, *block, sender@, staker@, *deposit),
{
    if !contains_string(&c.info.nft_721_contract_addr_whitelist, sender) {
        return true;
    }
    let d = match deposit {
        Some(d) => d,
        None => {
            return true;
        },
    };
    let p = match c.pools.get(&d.collection_id) {
        Some(p) => p,
        None => {
            return true;
        },
    };
    if let Ok(_) = check_collection_is_expired(block, p) {
    } else {
        return true;
    }
    let acc = match accrued_acc(p, block.height) {
        Some(acc) => acc,
        None => {
            return false;
        },
    };
    let (staked, debt, pending, earned) = staker_view_of(&c.stakers, staker);
    if staked > 0 {
        let prod = match staked.checked_mul(acc) {
            Some(x) => x,
            None => {
                return false;
            },
        };
        if prod < debt {
            return false;
        }
        let owed = prod - debt;
        if owed > u128::MAX - pending {
            return false;
        }
        if d.withdraw_rewards && earned > u128::MAX - (owed + pending) {
            return false;
        }
    }
    if p.total_nfts == u128::MAX || staked == u128::MAX {
        return false;
    }
    (staked + 1).checked_mul(acc).is_some()
}

fn count_withdrawn(tokens: &Vec<CollectionStakedTokenInfo>, ids: &Vec<String>) -> (r: usize)
    ensures
        r == withdrawn_tokens(tokens@, ids@).len(),
{
    let mut n: usize = 0;
    let mut i: usize = 0;
    while i < tokens.len()
        invariant
            i <= tokens@.len(),
            n == withdrawn_tokens(tokens@.take(i as int), ids@).len(),
            n <= i,
        decreases tokens@.len() - i,
    {
        proof {
            assert(tokens@.take(i + 1).drop_last() =~= tokens@.take(i as int));
        }
        if contains_string(ids, &tokens[i].token_id) {
            n = n + 1;
        }
        i = i + 1;
    }
    proof {
        assert(tokens@.take(tokens@.len() as int) =~= tokens@);
    }
    n
}

fn withdraw_fits(
    c: &Contract,
    block: &BlockInfo,
    sender: &String,
    collection_id: &String,
    withdraw_rewards: bool,
    ids: &Vec<String>,
) -> (r: bool)
    requires
        c.wf(),
    ensures
        r == withdraw_in_range(*c, *block, sender@, collection_id@, withdraw_rewards, ids@),
{
    let s = match c.stakers.get(sender) {
        Some(s) => s,
        None => {
            return true;
        },
    };
    let p = match c.pools.get(collection_id) {
        Some(p) => p,
        None => {
            return false;
        },
    };
    let acc = match accrued_acc(p, block.height) {
        Some(acc) => acc,
        None => {
            return false;
        },
    };
    let prod = match s.total_staked.checked_mul(acc) {
        Some(x) => x,
        None => {
            return false;
        },
    };
    if prod < s.reward_debt {
        return false;
    }
    let owed = prod - s.reward_debt;
    if withdraw_rewards && s.total_earned > u128::MAX - owed {
        return false;
    }
    let n = count_withdrawn(&s.staked_tokens, ids);
    if n != ids.len() {
        return true;
    }
    let n128 = n as u128;
    proof {
        lemma_withdraw_splits_tokens(s@.staked_tokens, ids@);
    }
    if p.total_nfts < n128 {
        return false;
    }
    (s.total_staked - n128).checked_mul(acc).is_some()
}

/// Whether handling the message stays within the machine's integers, so that `execute` may be
/// called with it.
pub fn execute_fits(c: &Contract, block: &BlockInfo, sender: &String, msg: &ExecuteMsg) -> (r: bool)
    requires
        c.wf(),
    ensures
        r == execute_in_range(*c, *block, sender@, *msg),
{
    match msg {
        ExecuteMsg::CreateCollectionPool(m) => {
            if check_admin_permission(c, sender).is_err() || m.reward_per_block == 0
                || c.pools.contains_key(&m.collection_id) {
                return true;
            }
            match m.expired_after {
                Some(e) => block.height <= u64::MAX - e,
                None => true,
            }
        },
        ExecuteMsg::ReceiveNft { staker, deposit, .. } => deposit_fits(c, block, sender, staker, deposit),
        ExecuteMsg::Withdraw { collection_id, withdraw_rewards, withdraw_nft_ids } => withdraw_fits(
            c,
            block,
            sender,
            collection_id,
            *withdraw_rewards,
            withdraw_nft_ids,
        ),
        _ => true,
    }
}

/// Handles a message of the staking contract; returns the NFTs to send back.
pub fn execute(c: &mut Contract, block: &BlockInfo, sender: &String, msg: ExecuteMsg) -> (r: Result<
    Vec<NftTransfer>,
    ContractError,
>)
    requires
        old(c).wf(),
        execute_in_range(*old(c), *block, sender@, msg),
    ensures
        !(msg is Withdraw) ==> (r is Ok ==> r->Ok_0@.len() == 0),
        match msg {
            ExecuteMsg::UpdateContractInfo(m) => update_info_outcome(
                *old(c),
                *final(c),
                sender,
                m,
                match r {
                    Ok(_) => Ok(()),
                    Err(e) => Err(e),
                },
            ),
            ExecuteMsg::CreateCollectionPool(m) => create_pool_outcome(
                *old(c),
                *final(c),
                block,
                sender,
                m,
                match r {
                    Ok(_) => Ok(()),
                    Err(e) => Err(e),
                },
            ),
            ExecuteMsg::UpdateCollectionPool(m) => update_pool_outcome(
                *old(c),
                *final(c),
                sender,
                m,
                match r {
                    Ok(_) => Ok(()),
                    Err(e) => Err(e),
                },
            ),
            ExecuteMsg::ReceiveNft { staker, token_id, deposit } => receive_outcome(
                *old(c),
                *final(c),
                block,
                sender,
                staker,
                token_id,
                deposit,
                match r {
                    Ok(_) => Ok(()),
                    Err(e) => Err(e),
                },
            ),
            ExecuteMsg::Withdraw { collection_id, withdraw_rewards, withdraw_nft_ids } => withdraw_outcome(
                *old(c),
                *final(c),
                block,
                sender,
                collection_id,
                withdraw_rewards,
                withdraw_nft_ids,
                r,
            ),
        },
{
    match msg {
        ExecuteMsg::UpdateContractInfo(m) => {
            try_update_contract_info(c, sender, m)?;
            Ok(Vec::new())
        },
        ExecuteMsg::CreateCollectionPool(m) => {
            try_create_collection_pool_info(c, block, sender, m)?;
            Ok(Vec::new())
        },
        ExecuteMsg::UpdateCollectionPool(m) => {
            try_update_collection_pool_info(c, sender, m)?;
            Ok(Vec::new())
        },
        ExecuteMsg::ReceiveNft { staker, token_id, deposit } => {
            try_receive_721(c, block, sender, staker, token_id, deposit)?;
            Ok(Vec::new())
        },
        ExecuteMsg::Withdraw { collection_id, withdraw_rewards, withdraw_nft_ids } => {
            try_withdraw(c, block, sender, collection_id, withdraw_rewards, withdraw_nft_ids)
        },
    }
}

} // verus!
