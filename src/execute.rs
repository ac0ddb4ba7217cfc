use vstd::prelude::*;

use crate::error::ContractError;
use crate::state::{
    lemma_asset_index, lemma_with_record_wf, process_pending_rewards, AssetDetail,
    AssetDetailView, ConfigView, Record, Registry, RegistryView, MIN_UNBONDING_PERIOD,
};

verus! {

/// Deposit: a new record for an asset of a class that has a rate, staked
/// by `staker` at `now` with nothing accrued yet.
pub open spec fn deposit_step(
    v: RegistryView,
    nft_address: Seq<char>,
    staker: Seq<char>,
    token_id: Seq<char>,
    now: u64,
) -> (RegistryView, Result<(), ContractError>) {
    if !v.has_rate(nft_address) {
        (v, Err(ContractError::InvalidToken {}))
    } else if v.has_asset(nft_address, token_id) {
        (v, Err(ContractError::DuplicatedAsset {}))
    } else {
        (
            v.with_record(
                Record {
                    staker,
                    asset: AssetDetailView {
                        nft_address,
                        token_id,
                        unbonding_period: v.config.unbonding_period,
                        pending_rewards: 0,
                        updated_at: now,
                        unstaked_at: None,
                    },
                },
            ),
            Ok(()),
        )
    }
}

/// After a deposit the asset is tracked by exactly the new record: held by
/// `staker`, staked, nothing accrued, checkpoint at `now`.
pub proof fn lemma_deposit_record(
    v: RegistryView,
    nft_address: Seq<char>,
    staker: Seq<char>,
    token_id: Seq<char>,
    now: u64,
)
    requires
        v.wf(),
        deposit_step(v, nft_address, staker, token_id, now).1 is Ok,
    ensures
        ({
            let w = deposit_step(v, nft_address, staker, token_id, now).0;
            &&& w.has_asset(nft_address, token_id)
            &&& w.asset_index(nft_address, token_id) == v.records.len()
            &&& w.records[w.asset_index(nft_address, token_id)] == (Record {
                staker,
                asset: AssetDetailView {
                    nft_address,
                    token_id,
                    unbonding_period: v.config.unbonding_period,
                    pending_rewards: 0,
                    updated_at: now,
                    unstaked_at: None,
                },
            })
        }),
{
    let w = deposit_step(v, nft_address, staker, token_id, now).0;
    lemma_with_record_wf(v, w.records.last());
    lemma_asset_index(w, v.records.len() as int);
}

/// The asset exists and `sender` is the staker holding it; else the error.
pub open spec fn holder_check(v: RegistryView, sender: Seq<char>, nft_address: Seq<char>, token_id: Seq<char>) -> Option<
    ContractError,
> {
    if !v.has_asset(nft_address, token_id) {
        Some(ContractError::AssetNotFound {})
    } else if v.records[v.asset_index(nft_address, token_id)].staker != sender {
        Some(ContractError::Unauthorized {})
    } else {
        None
    }
}

/// ClaimReward: only the holder of a staked asset may claim its reward.
pub open spec fn claim_reward_step(
    v: RegistryView,
    sender: Seq<char>,
    nft_address: Seq<char>,
    token_id: Seq<char>,
    now: u64,
) -> (RegistryView, Result<u128, ContractError>) {
    match holder_check(v, sender, nft_address, token_id) {
        Some(e) => (v, Err(e)),
        None => v.process_step(nft_address, token_id, now),
    }
}

/// RequestWithdrawal: accrual is settled up to `now` one last time and the
/// balance frozen; the asset is unstaking from `now` on.
pub open spec fn unstake_step(
    v: RegistryView,
    sender: Seq<char>,
    nft_address: Seq<char>,
    token_id: Seq<char>,
    now: u64,
) -> (RegistryView, Result<(), ContractError>) {
    match holder_check(v, sender, nft_address, token_id) {
        Some(e) => (v, Err(e)),
        None => {
            let i = v.asset_index(nft_address, token_id);
            let asset = v.records[i].asset;
            if asset.unstaked_at is Some {
                (v, Err(ContractError::AssetAlreadyUnstaked {}))
            } else {
                match v.settle(asset, now) {
                    Err(e) => (v, Err(e)),
                    Ok((balance, checkpoint)) => (
                        v.with_accrual(i, balance, checkpoint, Some(now)),
                        Ok(()),
                    ),
                }
            }
        },
    }
}

/// The instant from which an unstaking asset may be withdrawn.
pub open spec fn claimable_at(asset: AssetDetailView) -> int {
    asset.unstaked_at->Some_0 + asset.unbonding_period
}

/// FinalizeWithdrawal: once the unbonding period has elapsed the record is
/// deleted and its frozen balance is returned for payment.
pub open spec fn claim_asset_step(
    v: RegistryView,
    sender: Seq<char>,
    nft_address: Seq<char>,
    token_id: Seq<char>,
    now: u64,
) -> (RegistryView, Result<u128, ContractError>) {
    match holder_check(v, sender, nft_address, token_id) {
        Some(e) => (v, Err(e)),
        None => {
            let i = v.asset_index(nft_address, token_id);
            let asset = v.records[i].asset;
            if asset.unstaked_at is None {
                (v, Err(ContractError::AssetNotUnkstaked {}))
            } else if now < claimable_at(asset) {
                (v, Err(ContractError::AssetOnUnbondingPeriod {}))
            } else {
                (v.without_record(i), Ok(asset.pending_rewards))
            }
        },
    }
}

/// The key under which an asset is tracked.
pub fn asset_id(nft_address: String, token_id: String) -> (r: (String, String))
    ensures
        r.0@ == nft_address@,
        r.1@ == token_id@,
{
    (nft_address, token_id)
}

/// Deposits the asset `token_id` of class `nft_address` for `staker` at `now`.
pub fn receive_cw721(
    registry: &mut Registry,
    nft_address: String,
    staker: String,
    token_id: String,
    now: u64,
) -> (r: Result<(), ContractError>)
    requires
        old(registry)@.wf(),
    ensures
        (final(registry)@, r) == deposit_step(old(registry)@, nft_address@, staker@, token_id@, now),
        final(registry)@.wf(),
{
    if registry.find_rate(&nft_address).is_none() {
        return Err(ContractError::InvalidToken {});
    }
    if registry.find_asset(&nft_address, &token_id).is_some() {
        return Err(ContractError::DuplicatedAsset {});
    }
    let unbonding_period = registry.config().unbonding_period;
    let detail = AssetDetail {
        nft_address,
        token_id,
        unbonding_period,
        pending_rewards: 0,
        updated_at: now,
        unstaked_at: None,
    };
    registry.add_record(staker, detail);
    Ok(())
}

/// Index of the asset's record when `sender` holds it.
fn holder_index(registry: &Registry, sender: &String, nft_address: &String, token_id: &String) -> (r:
    Result<usize, ContractError>)
    requires
        registry@.wf(),
    ensures
        r is Err <==> holder_check(registry@, sender@, nft_address@, token_id@) is Some,
        r matches Err(e) ==> holder_check(registry@, sender@, nft_address@, token_id@) == Some(e),
        r matches Ok(i) ==> i == registry@.asset_index(nft_address@, token_id@)
            && i < registry@.records.len(),
{
    let i = match registry.find_asset(nft_address, token_id) {
        Some(i) => i,
        None => return Err(ContractError::AssetNotFound {}),
    };
    if *registry.staker_at(i) != *sender {
        return Err(ContractError::Unauthorized {});
    }
    Ok(i)
}

/// Pays `sender` the reward accrued so far on a staked asset they hold.
pub fn claim_reward(
    registry: &mut Registry,
    sender: &String,
    nft_address: String,
    token_id: String,
    now: u64,
) -> (r: Result<u128, ContractError>)
    requires
        old(registry)@.wf(),
    ensures
        (final(registry)@, r) == claim_reward_step(old(registry)@, sender@, nft_address@, token_id@, now),
        final(registry)@.wf(),
{
    holder_index(registry, sender, &nft_address, &token_id)?;
    process_pending_rewards(registry, nft_address, token_id, now)
}

/// Starts the withdrawal of an asset that `sender` holds.
pub fn unstake(
    registry: &mut Registry,
    sender: &String,
    nft_address: String,
    token_id: String,
    now: u64,
) -> (r: Result<(), ContractError>)
    requires
        old(registry)@.wf(),
    ensures
        (final(registry)@, r) == unstake_step(old(registry)@, sender@, nft_address@, token_id@, now),
        final(registry)@.wf(),
{
    let i = holder_index(registry, sender, &nft_address, &token_id)?;
    let asset = registry.asset_at(i);
    if asset.unstaked_at.is_some() {
        return Err(ContractError::AssetAlreadyUnstaked {});
    }
    proof {
        assert(registry@.has_rate(registry@.records[i as int].asset.nft_address));
    }
    let (balance, checkpoint) = registry.settle(asset, now)?;
    registry.set_accrual(i, balance, checkpoint, Some(now));
    Ok(())
}

/// Completes the withdrawal of an asset that `sender` holds: the record is
/// deleted and its frozen reward returned. The asset itself goes back to
/// `sender`.
pub fn claim_asset(
    registry: &mut Registry,
    sender: &String,
    nft_address: String,
    token_id: String,
    now: u64,
) -> (r: Result<u128, ContractError>)
    requires
        old(registry)@.wf(),
    ensures
        (final(registry)@, r) == claim_asset_step(old(registry)@, sender@, nft_address@, token_id@, now),
        final(registry)@.wf(),
{
    let i = holder_index(registry, sender, &nft_address, &token_id)?;
    let asset = registry.asset_at(i);
    let unstaked_at = match asset.unstaked_at {
        Some(t) => t,
        None => return Err(ContractError::AssetNotUnkstaked {}),
    };
    let pending = asset.pending_rewards;
    match unstaked_at.checked_add(asset.unbonding_period) {
        Some(claimable) => {
            if now < claimable {
                return Err(ContractError::AssetOnUnbondingPeriod {});
            }
        },
        None => return Err(ContractError::AssetOnUnbondingPeriod {}),
    }
    registry.remove_record(i);
    Ok(pending)
}

/// Configuration update: the unbonding period given in seconds must reach
/// the minimum, fit in milliseconds and differ from the current one.
pub open spec fn update_config_step(v: RegistryView, unbonding_period: u64) -> (
    RegistryView,
    Result<(), ContractError>,
) {
    if unbonding_period < MIN_UNBONDING_PERIOD {
        (v, Err(ContractError::InvalidUnbondingPeriod { min: MIN_UNBONDING_PERIOD }))
    } else if unbonding_period * 1000 > u64::MAX {
        (v, Err(ContractError::Overflow {}))
    } else if unbonding_period * 1000 == v.config.unbonding_period {
        (v, Err(ContractError::DuplicatedConfig {}))
    } else {
        (
            RegistryView {
                config: ConfigView { unbonding_period: (unbonding_period * 1000) as u64, ..v.config },
                ..v
            },
            Ok(()),
        )
    }
}

/// Replaces the unbonding period, in seconds, given to future deposits.
/// Assets already staked keep the period they were deposited with.
pub fn update_config(registry: &mut Registry, unbonding_period: u64) -> (r: Result<(), ContractError>)
    requires
        old(registry)@.wf(),
    ensures
        (final(registry)@, r) == update_config_step(old(registry)@, unbonding_period),
        final(registry)@.wf(),
{
    if unbonding_period < MIN_UNBONDING_PERIOD {
        return Err(ContractError::InvalidUnbondingPeriod { min: MIN_UNBONDING_PERIOD });
    }
    let millis = match unbonding_period.checked_mul(1000) {
        Some(m) => m,
        None => return Err(ContractError::Overflow {}),
    };
    if millis == registry.config().unbonding_period {
        return Err(ContractError::DuplicatedConfig {});
    }
    registry.set_unbonding_period(millis);
    Ok(())
}

} // verus!
