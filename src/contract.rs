use vstd::prelude::*;

use crate::error::ContractError;
use crate::execute::{
    claim_asset, claim_asset_step, claim_reward, claim_reward_step, deposit_step, receive_cw721,
    unstake, unstake_step, update_config, update_config_step,
};
use crate::msg::{
    seconds_or, ExecuteMsg, InstantiateMsg, QueryMsg, QueryResponse, Transfer,
    TransferView,
};
use crate::query::{
    pending_total, query_asset_detail, query_config, query_rewards_per_token, query_staker_detail,
    query_stakers, lists_stakers, string_view,
};
use crate::state::{
    key_view, lists_rates, rate_view, staker_assets, Config, ConfigView, Registry, RegistryView, MIN_PAYOUT_WINDOW,
    MIN_UNBONDING_PERIOD,
};

verus! {

/// The registry that `msg` sets up, or why it is refused.
pub open spec fn instantiate_outcome(msg: InstantiateMsg) -> Result<RegistryView, ContractError> {
    match msg.validity() {
        Err(e) => Err(e),
        Ok(_) => {
            let unbonding_period = seconds_or(msg.unbonding_period, MIN_UNBONDING_PERIOD) * 1000;
            let payout_window = seconds_or(msg.payout_window, MIN_PAYOUT_WINDOW) * 1000;
            if unbonding_period > u64::MAX || payout_window > u64::MAX {
                Err(ContractError::Overflow {})
            } else {
                Ok(
                    RegistryView {
                        config: ConfigView {
                            denom: msg.denom@,
                            unbonding_period: unbonding_period as u64,
                            payout_window: payout_window as u64,
                        },
                        rates: msg.rates(),
                        records: Seq::empty(),
                    },
                )
            }
        },
    }
}

/// A new registry with no staked asset, from validated parameters.
pub fn instantiate(msg: InstantiateMsg) -> (r: Result<Registry, ContractError>)
    ensures
        r is Ok <==> instantiate_outcome(msg) is Ok,
        r matches Err(e) ==> instantiate_outcome(msg) == Err::<RegistryView, ContractError>(e),
        r matches Ok(registry) ==> instantiate_outcome(msg) == Ok::<RegistryView, ContractError>(registry@)
            && registry@.wf(),
{
    msg.validate()?;
    let unbonding_period = match msg.unbonding_period {
        Some(v) => v,
        None => MIN_UNBONDING_PERIOD,
    };
    let payout_window = match msg.payout_window {
        Some(v) => v,
        None => MIN_PAYOUT_WINDOW,
    };
    let unbonding_period = match unbonding_period.checked_mul(1000) {
        Some(v) => v,
        None => return Err(ContractError::Overflow {}),
    };
    let payout_window = match payout_window.checked_mul(1000) {
        Some(v) => v,
        None => return Err(ContractError::Overflow {}),
    };
    let config = Config { denom: msg.denom, unbonding_period, payout_window };
    let registry = Registry::new(config, msg.rewards_per_token);
    Ok(registry)
}

pub open spec fn reward_payment(v: RegistryView, recipient: Seq<char>, amount: u128) -> TransferView {
    TransferView::Coins { recipient, amount, denom: v.config.denom }
}

/// What an operation does to the registry and the transfers it owes.
/// `sender` is the caller; only the owner may update the configuration.
pub open spec fn execute_step(
    v: RegistryView,
    sender: Seq<char>,
    sender_is_owner: bool,
    msg: ExecuteMsg,
    now: u64,
) -> (RegistryView, Result<Seq<TransferView>, ContractError>) {
    match msg {
        ExecuteMsg::ReceiveNft { sender: staker, token_id } => {
            let (w, r) = deposit_step(v, sender, staker@, token_id@, now);
            match r {
                Ok(_) => (w, Ok(Seq::empty())),
                Err(e) => (w, Err(e)),
            }
        },
        ExecuteMsg::ClaimReward { nft_address, token_id } => {
            let (w, r) = claim_reward_step(v, sender, nft_address@, token_id@, now);
            match r {
                Ok(amount) => (w, Ok(seq![reward_payment(v, sender, amount)])),
                Err(e) => (w, Err(e)),
            }
        },
        ExecuteMsg::Unstake { nft_address, token_id } => {
            let (w, r) = unstake_step(v, sender, nft_address@, token_id@, now);
            match r {
                Ok(_) => (w, Ok(Seq::empty())),
                Err(e) => (w, Err(e)),
            }
        },
        ExecuteMsg::ClaimAsset { nft_address, token_id } => {
            let (w, r) = claim_asset_step(v, sender, nft_address@, token_id@, now);
            match r {
                Ok(amount) => {
                    let back = TransferView::Nft {
                        contract: nft_address@,
                        recipient: sender,
                        token_id: token_id@,
                    };
                    if amount == 0 {
                        (w, Ok(seq![back]))
                    } else {
                        (w, Ok(seq![back, reward_payment(v, sender, amount)]))
                    }
                },
                Err(e) => (w, Err(e)),
            }
        },
        ExecuteMsg::UpdateConfig { unbonding_period } => if !sender_is_owner {
            (v, Err(ContractError::Unauthorized {}))
        } else {
            let (w, r) = update_config_step(v, unbonding_period);
            match r {
                Ok(_) => (w, Ok(Seq::empty())),
                Err(e) => (w, Err(e)),
            }
        },
    }
}

pub open spec fn transfer_view(t: Transfer) -> TransferView {
    t@
}

/// Runs one operation for `sender` at `now` and returns the transfers owed.
pub fn handle_execute(
    registry: &mut Registry,
    sender: String,
    sender_is_owner: bool,
    msg: ExecuteMsg,
    now: u64,
) -> (r: Result<Vec<Transfer>, ContractError>)
    requires
        old(registry)@.wf(),
    ensures
        final(registry)@ == execute_step(old(registry)@, sender@, sender_is_owner, msg, now).0,
        final(registry)@.wf(),
        r is Ok <==> execute_step(old(registry)@, sender@, sender_is_owner, msg, now).1 is Ok,
        r matches Err(e) ==> execute_step(old(registry)@, sender@, sender_is_owner, msg, now).1
            == Err::<Seq<TransferView>, ContractError>(e),
        r matches Ok(ts) ==> execute_step(old(registry)@, sender@, sender_is_owner, msg, now).1
            == Ok::<Seq<TransferView>, ContractError>(ts@.map_values(|t: Transfer| transfer_view(t))),
{
    let mut transfers: Vec<Transfer> = Vec::new();
    match msg {
        ExecuteMsg::ReceiveNft { sender: staker, token_id } => {
            receive_cw721(registry, sender, staker, token_id, now)?;
        },
        ExecuteMsg::ClaimReward { nft_address, token_id } => {
            let denom = registry.config().denom.clone();
            let amount = claim_reward(registry, &sender, nft_address, token_id, now)?;
            transfers.push(Transfer::Coins { recipient: sender, amount, denom });
        },
        ExecuteMsg::Unstake { nft_address, token_id } => {
            unstake(registry, &sender, nft_address, token_id, now)?;
        },
        ExecuteMsg::ClaimAsset { nft_address, token_id } => {
            let denom = registry.config().denom.clone();
            let contract = nft_address.clone();
            let token = token_id.clone();
            let amount = claim_asset(registry, &sender, nft_address, token_id, now)?;
            transfers.push(Transfer::Nft { contract, recipient: sender.clone(), token_id: token });
            if amount != 0 {
                transfers.push(Transfer::Coins { recipient: sender, amount, denom });
            }
        },
        ExecuteMsg::UpdateConfig { unbonding_period } => {
            if !sender_is_owner {
                return Err(ContractError::Unauthorized {});
            }
            update_config(registry, unbonding_period)?;
        },
    }
    proof {
        let ts = transfers@.map_values(|t: Transfer| transfer_view(t));
        let step = execute_step(old(registry)@, sender@, sender_is_owner, msg, now);
        if let Ok(seq_view) = step.1 {
            assert(ts =~= seq_view);
        }
    }
    Ok(transfers)
}

/// Whether `r` is the answer to the query `msg` on `v` at `now`.
pub open spec fn answers(v: RegistryView, msg: QueryMsg, now: u64, r: Result<QueryResponse, ContractError>) -> bool {
    match msg {
        QueryMsg::Config {} => match r {
            Ok(QueryResponse::Config(c)) => c.denom@ == v.config.denom && c.unbonding_period
                == v.config.unbonding_period && c.payout_window == v.config.payout_window,
            _ => false,
        },
        QueryMsg::RewardsPerToken {} => match r {
            Ok(QueryResponse::RewardsPerToken(t)) => lists_rates(
                v.rates,
                t.rewards_per_token@.map_values(|p: (String, u128)| rate_view(p)),
            ),
            _ => false,
        },
        QueryMsg::Stakers {} => match r {
            Ok(QueryResponse::Stakers(s)) => lists_stakers(
                v.records,
                s.stakers@.map_values(|s: String| string_view(s)),
            ),
            _ => false,
        },
        QueryMsg::StakerDetail { staker } => match r {
            Ok(QueryResponse::StakerDetail(d)) => pending_total(v, v.records, staker@, now) == Ok::<
                u128,
                ContractError,
            >(d.pending_rewards) && d.assets@.map_values(|p: (String, String)| key_view(p))
                == staker_assets(v.records, staker@),
            Err(e) => pending_total(v, v.records, staker@, now) == Err::<u128, ContractError>(e),
            _ => false,
        },
        QueryMsg::AssetDetail { nft_address, token_id } => match r {
            Ok(QueryResponse::AssetDetail(d)) => v.asset_detail_at(nft_address@, token_id@, now)
                == Ok::<crate::state::AssetDetailView, ContractError>(d.asset_detail@),
            Err(e) => v.asset_detail_at(nft_address@, token_id@, now) == Err::<
                crate::state::AssetDetailView,
                ContractError,
            >(e),
            _ => false,
        },
    }
}

/// Answers a read-only request as of `now`; the registry is not changed.
pub fn query(registry: &Registry, msg: QueryMsg, now: u64) -> (r: Result<QueryResponse, ContractError>)
    requires
        registry@.wf(),
    ensures
        answers(registry@, msg, now, r),
{
    match msg {
        QueryMsg::Config {} => Ok(QueryResponse::Config(query_config(registry))),
        QueryMsg::RewardsPerToken {} => Ok(QueryResponse::RewardsPerToken(query_rewards_per_token(registry))),
        QueryMsg::Stakers {} => Ok(QueryResponse::Stakers(query_stakers(registry))),
        QueryMsg::StakerDetail { staker } => match query_staker_detail(registry, staker, now) {
            Ok(d) => Ok(QueryResponse::StakerDetail(d)),
            Err(e) => Err(e),
        },
        QueryMsg::AssetDetail { nft_address, token_id } => match query_asset_detail(
            registry,
            nft_address,
            token_id,
            now,
        ) {
            Ok(d) => Ok(QueryResponse::AssetDetail(d)),
            Err(e) => Err(e),
        },
    }
}

} // verus!
