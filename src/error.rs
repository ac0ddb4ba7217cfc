use vstd::prelude::*;

verus! {

/// Every way an operation of the registry can be rejected. A rejected
/// operation leaves the registry as it was.
#[derive(Debug, Clone, Copy, PartialEq, Eq, Structural)]
pub enum ContractError {
    /// The caller does not hold the referenced asset.
    Unauthorized {},
    /// The reward table given at instantiation is empty.
    EmptyRewardsPerToken {},
    /// An asset class is listed twice in the reward table, or an asset is
    /// deposited while it is already tracked.
    DuplicatedAsset {},
    /// A reward rate of zero, or a claim that would pay nothing.
    ZeroReward {},
    /// The asset class has no reward rate.
    InvalidToken {},
    /// A withdrawal was already requested for the asset.
    AssetAlreadyUnstaked {},
    /// Finalizing a withdrawal that was never requested.
    AssetNotUnkstaked {},
    /// The unbonding period of the asset has not elapsed yet.
    AssetOnUnbondingPeriod {},
    /// The unbonding period is shorter than `min` seconds.
    InvalidUnbondingPeriod { min: u64 },
    /// The payout window is shorter than `min` seconds.
    InvalidPayoutWindow { min: u64 },
    /// A configuration update that changes nothing.
    DuplicatedConfig {},
    /// No record is tracked for the referenced asset.
    AssetNotFound {},
    /// The time given lies before the asset's accrual checkpoint.
    InvalidTime {},
    /// An amount or a time does not fit its integer type.
    Overflow {},
}

} // verus!
