use vstd::prelude::*;

use crate::error::ContractError;
use crate::msg::{
    AssetDetailResponse, ConfigResponse, RewardsPerTokenResponse, StakerDetailResponse,
    StakersResponse,
};
use crate::order::{ascending, lemma_insert_ascending, lemma_text_order, text_less, text_lt};
use crate::state::{
    lists_rates, calculate_pending_rewards, get_asset_detail, get_rewards_per_token,
    get_staker_detail, key_view, rate_view, staker_assets, Record, Registry, RegistryView,
};

verus! {

/// Sum of the rewards owed to `staker` as of `now` over `records`, or the
/// first error met; `Overflow` when the sum leaves `u128`.
pub open spec fn pending_total(v: RegistryView, records: Seq<Record>, staker: Seq<char>, now: u64) -> Result<
    u128,
    ContractError,
>
    decreases records.len(),
{
    if records.len() == 0 {
        Ok(0)
    } else {
        match pending_total(v, records.drop_last(), staker, now) {
            Err(e) => Err(e),
            Ok(sum) => {
                let last = records.last();
                if last.staker != staker {
                    Ok(sum)
                } else {
                    match v.pending_of(last.asset, now) {
                        Err(e) => Err(e),
                        Ok(p) => if sum + p > u128::MAX {
                            Err(ContractError::Overflow {})
                        } else {
                            Ok((sum + p) as u128)
                        },
                    }
                }
            },
        }
    }
}

/// `listed` holds every staker who holds an asset, once each, in ascending
/// order.
pub open spec fn lists_stakers(records: Seq<Record>, listed: Seq<Seq<char>>) -> bool {
    &&& ascending(listed)
    &&& forall|s: Seq<char>|
        listed.contains(s) <==> exists|i: int| 0 <= i < records.len() && (#[trigger] records[i]).staker == s
}

pub open spec fn string_view(s: String) -> Seq<char> {
    s@
}

pub open spec fn text_views(s: Seq<String>) -> Seq<Seq<char>> {
    s.map_values(|s: String| string_view(s))
}

pub fn query_config(registry: &Registry) -> (r: ConfigResponse)
    ensures
        r.denom@ == registry@.config.denom,
        r.unbonding_period == registry@.config.unbonding_period,
        r.payout_window == registry@.config.payout_window,
{
    let config = registry.config();
    ConfigResponse {
        denom: config.denom.clone(),
        unbonding_period: config.unbonding_period,
        payout_window: config.payout_window,
    }
}

/// The reward table, in ascending order of asset class.
pub fn query_rewards_per_token(registry: &Registry) -> (r: RewardsPerTokenResponse)
    requires
        registry@.wf(),
    ensures
        lists_rates(registry@.rates, r.rewards_per_token@.map_values(|p: (String, u128)| rate_view(p))),
{
    RewardsPerTokenResponse { rewards_per_token: get_rewards_per_token(registry) }
}

/// Everyone who holds a staked asset, in ascending order.
pub fn query_stakers(registry: &Registry) -> (r: StakersResponse)
    ensures
        lists_stakers(registry@.records, r.stakers@.map_values(|s: String| string_view(s))),
{
    let ghost records = registry@.records;
    let mut stakers: Vec<String> = Vec::new();
    let mut i: usize = 0;
    while i < registry.len()
        invariant
            records == registry@.records,
            i <= records.len(),
            ascending(text_views(stakers@)),
            forall|s: Seq<char>|
                #[trigger] text_views(stakers@).contains(s) <==> exists|k: int|
                    0 <= k < i && (#[trigger] records[k]).staker == s,
        decreases records.len() - i,
    {
        let ghost sv = text_views(stakers@);
        let staker = registry.staker_at(i);
        let mut j: usize = 0;
        while j < stakers.len() && text_lt(&stakers[j], staker)
            invariant
                j <= stakers@.len(),
                sv == text_views(stakers@),
                forall|k: int| 0 <= k < j ==> text_less(#[trigger] sv[k], staker@),
                records == registry@.records,
                i < records.len(),
                staker@ == records[i as int].staker,
                ascending(sv),
                forall|x: Seq<char>|
                    #[trigger] sv.contains(x) <==> exists|k: int|
                        0 <= k < i && (#[trigger] records[k]).staker == x,
            decreases stakers@.len() - j,
        {
            j = j + 1;
        }
        let ghost s = staker@;
        if j < stakers.len() && stakers[j] == *staker {
            proof {
                assert(sv[j as int] == s);
                assert forall|x: Seq<char>| sv.contains(x) <==> exists|k: int|
                    0 <= k < i + 1 && (#[trigger] records[k]).staker == x by {
                    if x == s {
                        assert(records[i as int].staker == x);
                    }
                    if exists|k: int| 0 <= k < i + 1 && (#[trigger] records[k]).staker == x {
                        let k = choose|k: int| 0 <= k < i + 1 && (#[trigger] records[k]).staker == x;
                        if k < i {
                            assert(exists|k: int| 0 <= k < i && (#[trigger] records[k]).staker == x);
                        }
                    }
                }
            }
        } else {
            proof {
                assert forall|k: int| j <= k < sv.len() implies text_less(s, #[trigger] sv[k]) by {
                    lemma_text_order(sv[j as int], s, s);
                    lemma_text_order(s, sv[j as int], sv[k]);
                }
                lemma_insert_ascending(sv, j as int, s);
            }
            stakers.insert(j, staker.clone());
            proof {
                let nv = text_views(stakers@);
                assert(nv =~= sv.insert(j as int, s));
                assert forall|x: Seq<char>| nv.contains(x) <==> exists|k: int|
                    0 <= k < i + 1 && (#[trigger] records[k]).staker == x by {
                    if nv.contains(x) {
                        let k = choose|k: int| 0 <= k < nv.len() && nv[k] == x;
                        if k < j {
                            assert(sv[k] == x && sv.contains(x));
                        } else if k == j {
                            assert(records[i as int].staker == x);
                        } else {
                            assert(sv[k - 1] == x && sv.contains(x));
                        }
                    }
                    if exists|m: int| 0 <= m < i + 1 && (#[trigger] records[m]).staker == x {
                        let m = choose|m: int| 0 <= m < i + 1 && (#[trigger] records[m]).staker == x;
                        if m < i {
                            assert(exists|k: int| 0 <= k < i && (#[trigger] records[k]).staker == x);
                            assert(sv.contains(x));
                            let k = choose|k: int| 0 <= k < sv.len() && sv[k] == x;
                            if k < j {
                                assert(nv[k] == x);
                            } else {
                                assert(nv[k + 1] == x);
                            }
                        } else {
                            assert(nv[j as int] == x);
                        }
                    }
                }
            }
        }
        i = i + 1;
    }
    StakersResponse { stakers }
}

/// The assets `staker` holds and the total reward owed on them as of `now`.
pub fn query_staker_detail(registry: &Registry, staker: String, now: u64) -> (r: Result<
    StakerDetailResponse,
    ContractError,
>)
    requires
        registry@.wf(),
    ensures
        r is Ok <==> pending_total(registry@, registry@.records, staker@, now) is Ok,
        r matches Err(e) ==> pending_total(registry@, registry@.records, staker@, now) == Err::<
            u128,
            ContractError,
        >(e),
        r matches Ok(resp) ==> pending_total(registry@, registry@.records, staker@, now) == Ok::<
            u128,
            ContractError,
        >(resp.pending_rewards) && resp.assets@.map_values(|p: (String, String)| key_view(p))
            == staker_assets(registry@.records, staker@),
{
    let ghost v = registry@;
    let mut total: u128 = 0;
    let mut i: usize = 0;
    while i < registry.len()
        invariant
            v == registry@,
            v.wf(),
            i <= v.records.len(),
            pending_total(v, v.records.subrange(0, i as int), staker@, now) == Ok::<u128, ContractError>(total),
        decreases v.records.len() - i,
    {
        proof {
            assert(v.records.subrange(0, i + 1).drop_last() =~= v.records.subrange(0, i as int));
        }
        if *registry.staker_at(i) == staker {
            let asset = registry.asset_at(i);
            let pending = match calculate_pending_rewards(registry, asset, now) {
                Ok(p) => p,
                Err(e) => {
                    proof {
                        lemma_pending_total_err(v, v.records, i as int, staker@, now, e);
                    }
                    return Err(e);
                },
            };
            total = match total.checked_add(pending) {
                Some(t) => t,
                None => {
                    proof {
                        lemma_pending_total_err(v, v.records, i as int, staker@, now, ContractError::Overflow {});
                    }
                    return Err(ContractError::Overflow {});
                },
            };
        }
        i = i + 1;
    }
    assert(v.records.subrange(0, v.records.len() as int) =~= v.records);
    let detail = get_staker_detail(registry, &staker);
    Ok(StakerDetailResponse { assets: detail.assets, pending_rewards: total })
}

/// An error met at some prefix of the records is the error of the whole.
proof fn lemma_pending_total_err(
    v: RegistryView,
    records: Seq<Record>,
    n: int,
    staker: Seq<char>,
    now: u64,
    e: ContractError,
)
    requires
        0 <= n < records.len(),
        pending_total(v, records.subrange(0, n + 1), staker, now) == Err::<u128, ContractError>(e),
    ensures
        pending_total(v, records, staker, now) == Err::<u128, ContractError>(e),
    decreases records.len() - n,
{
    if n + 1 < records.len() {
        assert(records.subrange(0, n + 2).drop_last() =~= records.subrange(0, n + 1));
        lemma_pending_total_err(v, records, n + 1, staker, now, e);
    } else {
        assert(records.subrange(0, n + 1) =~= records);
    }
}

/// The record of an asset with its pending reward as of `now`.
pub fn query_asset_detail(registry: &Registry, nft_address: String, token_id: String, now: u64) -> (r:
    Result<AssetDetailResponse, ContractError>)
    requires
        registry@.wf(),
    ensures
        match r {
            Ok(resp) => registry@.asset_detail_at(nft_address@, token_id@, now) == Ok::<
                crate::state::AssetDetailView,
                ContractError,
            >(resp.asset_detail@),
            Err(e) => registry@.asset_detail_at(nft_address@, token_id@, now) == Err::<
                crate::state::AssetDetailView,
                ContractError,
            >(e),
        },
{
    let asset_detail = get_asset_detail(registry, nft_address, token_id, now);
    match asset_detail {
        Ok(asset_detail) => Ok(AssetDetailResponse { asset_detail }),
        Err(e) => Err(e),
    }
}

} // verus!
