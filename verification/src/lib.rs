use vstd::prelude::*;

pub mod common;
pub mod erc20;
pub mod mask;
pub mod escrow;
pub mod nameservice;
pub mod pot;
pub mod prefixed;
pub mod quadratic;
pub mod simple_option;
pub mod staking;
pub mod storage;
pub mod strmap;
pub mod voting;

verus! {

/// The constant two.
pub fn two() -> (r: i32)
    ensures
        r == 2,
{
    2
}

} // verus!
