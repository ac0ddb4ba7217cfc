//! Properties of the registry that relate several operations or hold over
//! every sequence of calls, stated over the specifications of `accrual`,
//! `state` and `execute` and proved from them.

use vstd::prelude::*;

use crate::accrual::{accrued_balance, advanced_checkpoint, lemma_windows_fit, whole_windows};
use crate::error::ContractError;
use crate::execute::{
    holder_check, claim_asset_step, claim_reward_step, deposit_step, lemma_deposit_record, unstake_step,
};
use crate::state::{
    staker_assets, Record,
    lemma_asset_index, lemma_same_rates, lemma_with_accrual_wf, lemma_with_record_wf, lemma_without_record_wf,
    AssetDetailView, RegistryView,
};

verus! {

/// Balance and checkpoint after accruing at each instant of `times` in turn,
/// starting from `balance` settled up to `checkpoint`.
pub open spec fn replay(checkpoint: int, balance: int, times: Seq<int>, window: int, rate: int) -> (int, int)
    decreases times.len(),
{
    if times.len() == 0 {
        (balance, checkpoint)
    } else {
        let (b, c) = replay(checkpoint, balance, times.drop_last(), window, rate);
        (accrued_balance(c, times.last(), window, rate, b), advanced_checkpoint(c, times.last(), window))
    }
}

/// Accrual is exact over any sequence of calls: however many intermediate
/// accruals are made at non-decreasing instants after a deposit at
/// `deposit_time`, the balance is `rate` times the number of whole windows
/// from the deposit to the last instant, and the checkpoint is the last
/// window boundary reached.
pub proof fn lemma_windowing_exact(deposit_time: int, times: Seq<int>, window: int, rate: int)
    requires
        window > 0,
        times.len() > 0,
        deposit_time <= times[0],
        forall|i: int, j: int| 0 <= i <= j < times.len() ==> times[i] <= times[j],
    ensures
        replay(deposit_time, 0, times, window, rate).0 == rate * whole_windows(
            deposit_time,
            times.last(),
            window,
        ),
        replay(deposit_time, 0, times, window, rate).1 == advanced_checkpoint(
            deposit_time,
            times.last(),
            window,
        ),
    decreases times.len(),
{
    let last = times.last();
    let q = whole_windows(deposit_time, last, window);
    if times.len() == 1 {
        assert(replay(deposit_time, 0, times.drop_last(), window, rate) == (0int, deposit_time));
        assert(0 + q * rate == rate * q) by (nonlinear_arith);
    } else {
        let prefix = times.drop_last();
        lemma_windowing_exact(deposit_time, prefix, window, rate);
        assert(prefix[0] == times[0]);
        let p = whole_windows(deposit_time, prefix.last(), window);
        let c = deposit_time + p * window;
        assert(prefix.last() <= last);
        lemma_windows_compose(deposit_time, prefix.last(), last, window);
        assert(rate * p + ((last - c) / window) * rate == rate * q) by (nonlinear_arith)
            requires
                p + (last - c) / window == q,
        ;
        assert(c + ((last - c) / window) * window == deposit_time + q * window) by (nonlinear_arith)
            requires
                p + (last - c) / window == q,
                c == deposit_time + p * window,
        ;
    }
}

/// Windows counted up to an intermediate boundary plus those counted from
/// it are the windows of the whole interval.
proof fn lemma_windows_compose(start: int, middle: int, end: int, window: int)
    requires
        window > 0,
        start <= middle <= end,
    ensures
        whole_windows(start, middle, window) + (end - (start + whole_windows(start, middle, window)
            * window)) / window == whole_windows(start, end, window),
{
    let p = (middle - start) / window;
    vstd::arithmetic::div_mod::lemma_div_pos_is_pos(middle - start, window);
    vstd::arithmetic::div_mod::lemma_fundamental_div_mod(middle - start, window);
    vstd::arithmetic::div_mod::lemma_mod_bound(middle - start, window);
    vstd::arithmetic::mul::lemma_mul_is_commutative(p, window);
    let rest = end - (start + p * window);
    assert(rest >= 0);
    vstd::arithmetic::div_mod::lemma_fundamental_div_mod(rest, window);
    vstd::arithmetic::div_mod::lemma_mod_bound(rest, window);
    vstd::arithmetic::mul::lemma_mul_is_distributive_add(window, p, rest / window);
    vstd::arithmetic::div_mod::lemma_div_multiples_vanish_fancy(p + rest / window, rest % window, window);
    assert(window * (p + rest / window) + rest % window == end - start);
}

/// The live balance of a freshly deposited asset, read at any instant `t`
/// from the deposit on, is its class's rate times the whole windows elapsed.
pub proof fn law_deposit_accrual(
    v: RegistryView,
    nft_address: Seq<char>,
    staker: Seq<char>,
    token_id: Seq<char>,
    deposit_time: u64,
    t: u64,
)
    requires
        v.wf(),
        deposit_step(v, nft_address, staker, token_id, deposit_time).1 is Ok,
        deposit_time <= t,
        v.rate_of(nft_address) * whole_windows(deposit_time as int, t as int, v.config.payout_window as int)
            <= u128::MAX,
    ensures
        deposit_step(v, nft_address, staker, token_id, deposit_time).0.asset_detail_at(
            nft_address,
            token_id,
            t,
        ) is Ok,
        deposit_step(v, nft_address, staker, token_id, deposit_time).0.asset_detail_at(
            nft_address,
            token_id,
            t,
        )->Ok_0.pending_rewards == v.rate_of(nft_address) * whole_windows(
            deposit_time as int,
            t as int,
            v.config.payout_window as int,
        ),
{
    lemma_deposit_record(v, nft_address, staker, token_id, deposit_time);
    let w = deposit_step(v, nft_address, staker, token_id, deposit_time).0;
    lemma_same_rates(v, w, nft_address);
    let q = whole_windows(deposit_time as int, t as int, v.config.payout_window as int);
    assert(0 + q * v.rate_of(nft_address) == v.rate_of(nft_address) * q) by (nonlinear_arith);
}

/// Claiming loses no remainder: what a claim at `t1` pays plus what a read
/// at any later `t2` shows equals what accrual from the stored checkpoint
/// straight to `t2` gives, as if the claim had never been made.
pub proof fn law_claim_keeps_remainder(
    v: RegistryView,
    sender: Seq<char>,
    nft_address: Seq<char>,
    token_id: Seq<char>,
    t1: u64,
    t2: u64,
)
    requires
        v.wf(),
        claim_reward_step(v, sender, nft_address, token_id, t1).1 is Ok,
        t1 <= t2,
        accrued_balance(
            v.records[v.asset_index(nft_address, token_id)].asset.updated_at as int,
            t2 as int,
            v.config.payout_window as int,
            v.rate_of(nft_address) as int,
            v.records[v.asset_index(nft_address, token_id)].asset.pending_rewards as int,
        ) <= u128::MAX,
    ensures
        claim_reward_step(v, sender, nft_address, token_id, t1).0.asset_detail_at(nft_address, token_id, t2) is Ok,
        claim_reward_step(v, sender, nft_address, token_id, t1).1->Ok_0
            + claim_reward_step(v, sender, nft_address, token_id, t1).0.asset_detail_at(
            nft_address,
            token_id,
            t2,
        )->Ok_0.pending_rewards == accrued_balance(
            v.records[v.asset_index(nft_address, token_id)].asset.updated_at as int,
            t2 as int,
            v.config.payout_window as int,
            v.rate_of(nft_address) as int,
            v.records[v.asset_index(nft_address, token_id)].asset.pending_rewards as int,
        ),
{
    let i = v.asset_index(nft_address, token_id);
    let asset = v.records[i].asset;
    let window = v.config.payout_window as int;
    let rate = v.rate_of(nft_address) as int;
    let c = asset.updated_at as int;
    let (paid, checkpoint) = v.settle(asset, t1)->Ok_0;
    lemma_with_accrual_wf(v, i, 0, checkpoint, None);
    let w = v.with_accrual(i, 0, checkpoint, None);
    lemma_asset_index(w, i);
    lemma_same_rates(v, w, nft_address);
    let q1 = whole_windows(c, t1 as int, window);
    lemma_windows_fit(t1 as int - c, window);
    assert(checkpoint as int == c + q1 * window);
    let rest = whole_windows(checkpoint as int, t2 as int, window);
    lemma_windows_compose(c, t1 as int, t2 as int, window);
    let q2 = whole_windows(c, t2 as int, window);
    assert(q1 * rate + rest * rate == q2 * rate) by (nonlinear_arith)
        requires
            q1 + rest == q2,
    ;
}

/// Reading an asset moves nothing: what a read returns is the stored record
/// with only the pending reward recomputed, so its checkpoint is the stored
/// one, and the same read at the same instant gives the same answer.
pub proof fn law_idempotent_reads(v: RegistryView, nft_address: Seq<char>, token_id: Seq<char>, now: u64)
    requires
        v.wf(),
    ensures
        v.asset_detail_at(nft_address, token_id, now) matches Ok(d) ==> d == (AssetDetailView {
            pending_rewards: d.pending_rewards,
            ..v.records[v.asset_index(nft_address, token_id)].asset
        }),
        v.asset_detail_at(nft_address, token_id, now) matches Ok(d) ==> d.updated_at
            == v.records[v.asset_index(nft_address, token_id)].asset.updated_at,
{
}

/// After a successful withdrawal request at `t`, a read of the asset at any
/// later instant succeeds and reports the balance a read at `t` reported.
pub proof fn law_freeze_on_unstake(
    v: RegistryView,
    sender: Seq<char>,
    nft_address: Seq<char>,
    token_id: Seq<char>,
    t: u64,
    later: u64,
)
    requires
        v.wf(),
        unstake_step(v, sender, nft_address, token_id, t).1 is Ok,
    ensures
        v.asset_detail_at(nft_address, token_id, t) is Ok,
        unstake_step(v, sender, nft_address, token_id, t).0.asset_detail_at(nft_address, token_id, later) is Ok,
        unstake_step(v, sender, nft_address, token_id, t).0.asset_detail_at(
            nft_address,
            token_id,
            later,
        )->Ok_0.pending_rewards == v.asset_detail_at(nft_address, token_id, t)->Ok_0.pending_rewards,
{
    let i = v.asset_index(nft_address, token_id);
    let asset = v.records[i].asset;
    let (balance, checkpoint) = v.settle(asset, t)->Ok_0;
    lemma_with_accrual_wf(v, i, balance, checkpoint, Some(t));
    let w = v.with_accrual(i, balance, checkpoint, Some(t));
    lemma_asset_index(w, i);
}

/// A withdrawal requested at `t` cannot be finalized before `t` plus the
/// unbonding period recorded for the asset, and can be from then on.
pub proof fn law_withdrawal_delay(
    v: RegistryView,
    sender: Seq<char>,
    nft_address: Seq<char>,
    token_id: Seq<char>,
    t: u64,
    now: u64,
)
    requires
        v.wf(),
        unstake_step(v, sender, nft_address, token_id, t).1 is Ok,
    ensures
        now < t + v.records[v.asset_index(nft_address, token_id)].asset.unbonding_period ==> claim_asset_step(
            unstake_step(v, sender, nft_address, token_id, t).0,
            sender,
            nft_address,
            token_id,
            now,
        ).1 == Err::<u128, ContractError>(ContractError::AssetOnUnbondingPeriod {}),
        now >= t + v.records[v.asset_index(nft_address, token_id)].asset.unbonding_period ==> claim_asset_step(
            unstake_step(v, sender, nft_address, token_id, t).0,
            sender,
            nft_address,
            token_id,
            now,
        ).1 is Ok,
{
    let i = v.asset_index(nft_address, token_id);
    let asset = v.records[i].asset;
    let (balance, checkpoint) = v.settle(asset, t)->Ok_0;
    lemma_with_accrual_wf(v, i, balance, checkpoint, Some(t));
    let w = v.with_accrual(i, balance, checkpoint, Some(t));
    lemma_asset_index(w, i);
}

/// Once a withdrawal is finalized the asset's record is gone: claiming,
/// unstaking, finalizing again or reading it all fail with `AssetNotFound`,
/// whoever asks and whenever.
pub proof fn law_no_double_withdraw(
    v: RegistryView,
    sender: Seq<char>,
    nft_address: Seq<char>,
    token_id: Seq<char>,
    now: u64,
    caller: Seq<char>,
    later: u64,
)
    requires
        v.wf(),
        claim_asset_step(v, sender, nft_address, token_id, now).1 is Ok,
    ensures
        !claim_asset_step(v, sender, nft_address, token_id, now).0.has_asset(nft_address, token_id),
        claim_reward_step(claim_asset_step(v, sender, nft_address, token_id, now).0, caller, nft_address, token_id, later).1
            == Err::<u128, ContractError>(ContractError::AssetNotFound {}),
        unstake_step(claim_asset_step(v, sender, nft_address, token_id, now).0, caller, nft_address, token_id, later).1
            == Err::<(), ContractError>(ContractError::AssetNotFound {}),
        claim_asset_step(claim_asset_step(v, sender, nft_address, token_id, now).0, caller, nft_address, token_id, later).1
            == Err::<u128, ContractError>(ContractError::AssetNotFound {}),
        claim_asset_step(v, sender, nft_address, token_id, now).0.asset_detail_at(nft_address, token_id, later)
            == Err::<AssetDetailView, ContractError>(ContractError::AssetNotFound {}),
{
    let i = v.asset_index(nft_address, token_id);
    lemma_without_record_wf(v, i);
}

/// An asset is listed for `staker` exactly when some record of that staker
/// holds it.
proof fn lemma_staker_assets_contains(
    records: Seq<Record>,
    staker: Seq<char>,
    key: (Seq<char>, Seq<char>),
)
    ensures
        staker_assets(records, staker).contains(key) <==> exists|i: int|
            0 <= i < records.len() && (#[trigger] records[i]).staker == staker
                && records[i].asset.is_asset(key.0, key.1),
    decreases records.len(),
{
    if records.len() > 0 {
        let prefix = records.drop_last();
        lemma_staker_assets_contains(prefix, staker, key);
        let held = staker_assets(prefix, staker);
        let last = records.last();
        if last.staker == staker {
            let k = (last.asset.nft_address, last.asset.token_id);
            assert(held.push(k)[held.len() as int] == k);
            if held.push(k).contains(key) && key != k {
                let j = choose|j: int| 0 <= j < held.push(k).len() && held.push(k)[j] == key;
                assert(held[j] == key);
            }
            if held.contains(key) {
                let j = choose|j: int| 0 <= j < held.len() && held[j] == key;
                assert(held.push(k)[j] == key);
            }
        }
        if exists|i: int|
            0 <= i < records.len() && (#[trigger] records[i]).staker == staker
                && records[i].asset.is_asset(key.0, key.1) {
            let i = choose|i: int|
                0 <= i < records.len() && (#[trigger] records[i]).staker == staker
                    && records[i].asset.is_asset(key.0, key.1);
            if i < records.len() - 1 {
                assert(prefix[i] == records[i]);
            }
        }
        if exists|i: int|
            0 <= i < prefix.len() && (#[trigger] prefix[i]).staker == staker
                && prefix[i].asset.is_asset(key.0, key.1) {
            let i = choose|i: int|
                0 <= i < prefix.len() && (#[trigger] prefix[i]).staker == staker
                    && prefix[i].asset.is_asset(key.0, key.1);
            assert(records[i] == prefix[i]);
        }
    }
}

/// The staker index agrees with the ledger: an asset is listed for a staker
/// exactly when it is tracked and that staker holds it, so no asset is
/// listed for two stakers.
pub proof fn law_index_matches_ledger(
    v: RegistryView,
    staker: Seq<char>,
    other: Seq<char>,
    nft_address: Seq<char>,
    token_id: Seq<char>,
)
    requires
        v.wf(),
    ensures
        staker_assets(v.records, staker).contains((nft_address, token_id)) <==> v.has_asset(
            nft_address,
            token_id,
        ) && v.records[v.asset_index(nft_address, token_id)].staker == staker,
        staker != other ==> !(staker_assets(v.records, staker).contains((nft_address, token_id))
            && staker_assets(v.records, other).contains((nft_address, token_id))),
{
    let key = (nft_address, token_id);
    lemma_staker_assets_contains(v.records, staker, key);
    lemma_staker_assets_contains(v.records, other, key);
    if v.has_asset(nft_address, token_id) {
        let k = v.asset_index(nft_address, token_id);
        lemma_asset_index(v, k);
        assert forall|i: int|
            0 <= i < v.records.len() && (#[trigger] v.records[i]).asset.is_asset(nft_address, token_id)
            implies i == k by {
            lemma_asset_index(v, i);
        }
    }
}

/// State and total paid out after `sender` claims the reward of an asset at
/// each instant of `times` in turn; a refused claim pays nothing and changes
/// nothing.
pub open spec fn claims_replay(
    v: RegistryView,
    sender: Seq<char>,
    nft_address: Seq<char>,
    token_id: Seq<char>,
    times: Seq<u64>,
) -> (RegistryView, int)
    decreases times.len(),
{
    if times.len() == 0 {
        (v, 0)
    } else {
        let (w, paid) = claims_replay(v, sender, nft_address, token_id, times.drop_last());
        let (next, r) = claim_reward_step(w, sender, nft_address, token_id, times.last());
        match r {
            Ok(amount) => (next, paid + amount),
            Err(_) => (next, paid),
        }
    }
}

/// What holds of the deposited asset after any prefix of claims: it is
/// still the record at `i`, staked by `staker`, its checkpoint lies on a
/// window boundary counted from the deposit, and what was paid plus what is
/// pending is the rate times the windows up to that checkpoint.
#[verifier::rlimit(40)]
proof fn lemma_claims_invariant(
    w0: RegistryView,
    i: int,
    staker: Seq<char>,
    nft_address: Seq<char>,
    token_id: Seq<char>,
    t0: u64,
    times: Seq<u64>,
)
    requires
        w0.wf(),
        0 <= i < w0.records.len(),
        w0.records[i] == (Record {
            staker,
            asset: AssetDetailView {
                nft_address,
                token_id,
                unbonding_period: w0.records[i].asset.unbonding_period,
                pending_rewards: 0,
                updated_at: t0,
                unstaked_at: None,
            },
        }),
        forall|k: int| 0 <= k < times.len() ==> t0 <= #[trigger] times[k],
        forall|a: int, b: int| 0 <= a <= b < times.len() ==> times[a] <= times[b],
    ensures
        ({
            let (w, paid) = claims_replay(w0, staker, nft_address, token_id, times);
            let rec = w.records[i];
            let window = w0.config.payout_window as int;
            let c = rec.asset.updated_at as int;
            &&& w.wf()
            &&& w.config == w0.config
            &&& w.rates == w0.rates
            &&& w.records.len() == w0.records.len()
            &&& rec.staker == staker
            &&& rec.asset.is_asset(nft_address, token_id)
            &&& rec.asset.unstaked_at is None
            &&& t0 <= c
            &&& (times.len() > 0 ==> c <= times.last())
            &&& c == t0 + whole_windows(t0 as int, c, window) * window
            &&& paid >= 0
            &&& paid + rec.asset.pending_rewards == w0.rate_of(nft_address) * whole_windows(
                t0 as int,
                c,
                window,
            )
        }),
    decreases times.len(),
{
    let window = w0.config.payout_window as int;
    let rate = w0.rate_of(nft_address) as int;
    if times.len() == 0 {
        assert(whole_windows(t0 as int, t0 as int, window) == 0);
        assert(rate * 0 == 0) by (nonlinear_arith);
    } else {
        let prefix = times.drop_last();
        lemma_claims_invariant(w0, i, staker, nft_address, token_id, t0, prefix);
        if prefix.len() > 0 {
            assert(prefix.last() == times[prefix.len() - 1]);
        }
        let (w, paid) = claims_replay(w0, staker, nft_address, token_id, prefix);
        let tn = times.last();
        lemma_asset_index(w, i);
        let asset = w.records[i].asset;
        let c = asset.updated_at as int;
        let m = whole_windows(t0 as int, c, window);
        assert(c <= tn) by {
            if prefix.len() > 0 {
                assert(times[prefix.len() - 1] <= times[times.len() - 1]);
            }
        }
        assert(holder_check(w, staker, nft_address, token_id) is None);
        lemma_same_rates(w0, w, nft_address);
        match w.settle(asset, tn) {
            Err(_) => {},
            Ok((balance, checkpoint)) => {
                if balance != 0 {
                    assert(claims_replay(w0, staker, nft_address, token_id, times) == (
                        w.with_accrual(i, 0, checkpoint, None),
                        paid + balance,
                    ));
                    lemma_with_accrual_wf(w, i, 0, checkpoint, None);
                    let q = whole_windows(c, tn as int, window);
                    lemma_windows_fit(tn as int - c, window);
                    assert(checkpoint as int == c + q * window);
                    assert(checkpoint as int - t0 == (m + q) * window) by (nonlinear_arith)
                        requires
                            c == t0 + m * window,
                            checkpoint as int == c + q * window,
                    ;
                    vstd::arithmetic::div_mod::lemma_div_by_multiple(m + q, window);
                    assert(whole_windows(t0 as int, checkpoint as int, window) == m + q);
                    assert(paid + balance == rate * (m + q)) by (nonlinear_arith)
                        requires
                            paid + asset.pending_rewards == rate * m,
                            balance == asset.pending_rewards + q * rate,
                    ;
                }
            },
        }
    }
    let (w, paid) = claims_replay(w0, staker, nft_address, token_id, times);
    let rec = w.records[i];
    let c = rec.asset.updated_at as int;
    assert(w.wf());
    assert(w.config == w0.config);
    assert(w.rates == w0.rates);
    assert(w.records.len() == w0.records.len());
    assert(rec.staker == staker);
    assert(rec.asset.is_asset(nft_address, token_id));
    assert(rec.asset.unstaked_at is None);
    assert(t0 <= c);
    assert(times.len() > 0 ==> c <= times.last());
    assert(c == t0 + whole_windows(t0 as int, c, window) * window);
    assert(paid >= 0);
    assert(paid + rec.asset.pending_rewards == w0.rate_of(nft_address) * whole_windows(t0 as int, c, window));
}
/// Accrual is exact over any sequence of claims: after a deposit at `t0`
/// and claims at non-decreasing instants up to `t`, what the claims paid
/// plus what a read at `t` shows pending is the rate times the whole
/// windows from `t0` to `t`, however many claims were made and whenever.
pub proof fn law_claims_exact(
    v: RegistryView,
    nft_address: Seq<char>,
    staker: Seq<char>,
    token_id: Seq<char>,
    t0: u64,
    times: Seq<u64>,
    t: u64,
)
    requires
        v.wf(),
        deposit_step(v, nft_address, staker, token_id, t0).1 is Ok,
        t0 <= t,
        forall|k: int| 0 <= k < times.len() ==> t0 <= #[trigger] times[k] <= t,
        forall|a: int, b: int| 0 <= a <= b < times.len() ==> times[a] <= times[b],
        v.rate_of(nft_address) * whole_windows(t0 as int, t as int, v.config.payout_window as int)
            <= u128::MAX,
    ensures
        ({
            let (w, paid) = claims_replay(
                deposit_step(v, nft_address, staker, token_id, t0).0,
                staker,
                nft_address,
                token_id,
                times,
            );
            &&& w.asset_detail_at(nft_address, token_id, t) is Ok
            &&& paid + w.asset_detail_at(nft_address, token_id, t)->Ok_0.pending_rewards
                == v.rate_of(nft_address) * whole_windows(
                t0 as int,
                t as int,
                v.config.payout_window as int,
            )
        }),
{
    lemma_deposit_record(v, nft_address, staker, token_id, t0);
    let w0 = deposit_step(v, nft_address, staker, token_id, t0).0;
    let i = v.records.len() as int;
    lemma_with_record_wf(v, w0.records.last());
    lemma_same_rates(v, w0, nft_address);
    lemma_claims_invariant(w0, i, staker, nft_address, token_id, t0, times);
    let (w, paid) = claims_replay(w0, staker, nft_address, token_id, times);
    lemma_asset_index(w, i);
    let window = v.config.payout_window as int;
    let rate = v.rate_of(nft_address) as int;
    let asset = w.records[i].asset;
    let c = asset.updated_at as int;
    let m = whole_windows(t0 as int, c, window);
    let q = whole_windows(c, t as int, window);
    if times.len() > 0 {
        assert(times.last() <= t);
    }
    lemma_windows_compose(t0 as int, c, t as int, window);
    assert(m + q == whole_windows(t0 as int, t as int, window));
    vstd::arithmetic::div_mod::lemma_div_pos_is_pos(t as int - c, window);
    assert(paid + asset.pending_rewards + q * rate == rate * (m + q)) by (nonlinear_arith)
        requires
            paid + asset.pending_rewards == rate * m,
    ;
    assert(asset.pending_rewards + q * rate <= rate * (m + q)) by (nonlinear_arith)
        requires
            paid + asset.pending_rewards == rate * m,
            paid >= 0,
    ;
}

/// A withdrawal request at `t`, after a deposit at `t0` and any claims in
/// between, succeeds and freezes exactly what the claims left unpaid of the
/// rate times the whole windows from `t0` to `t`.
pub proof fn law_claims_then_unstake_exact(
    v: RegistryView,
    nft_address: Seq<char>,
    staker: Seq<char>,
    token_id: Seq<char>,
    t0: u64,
    times: Seq<u64>,
    t: u64,
)
    requires
        v.wf(),
        deposit_step(v, nft_address, staker, token_id, t0).1 is Ok,
        t0 <= t,
        forall|k: int| 0 <= k < times.len() ==> t0 <= #[trigger] times[k] <= t,
        forall|a: int, b: int| 0 <= a <= b < times.len() ==> times[a] <= times[b],
        v.rate_of(nft_address) * whole_windows(t0 as int, t as int, v.config.payout_window as int)
            <= u128::MAX,
    ensures
        ({
            let (w, paid) = claims_replay(
                deposit_step(v, nft_address, staker, token_id, t0).0,
                staker,
                nft_address,
                token_id,
                times,
            );
            let (after, r) = unstake_step(w, staker, nft_address, token_id, t);
            &&& r is Ok
            &&& after.has_asset(nft_address, token_id)
            &&& paid + after.records[after.asset_index(nft_address, token_id)].asset.pending_rewards
                == v.rate_of(nft_address) * whole_windows(
                t0 as int,
                t as int,
                v.config.payout_window as int,
            )
        }),
{
    law_claims_exact(v, nft_address, staker, token_id, t0, times, t);
    let w0 = deposit_step(v, nft_address, staker, token_id, t0).0;
    let i = v.records.len() as int;
    lemma_deposit_record(v, nft_address, staker, token_id, t0);
    lemma_with_record_wf(v, w0.records.last());
    lemma_claims_invariant(w0, i, staker, nft_address, token_id, t0, times);
    let (w, paid) = claims_replay(w0, staker, nft_address, token_id, times);
    lemma_asset_index(w, i);
    let asset = w.records[i].asset;
    let (balance, checkpoint) = w.settle(asset, t)->Ok_0;
    lemma_with_accrual_wf(w, i, balance, checkpoint, Some(t));
    lemma_asset_index(w.with_accrual(i, balance, checkpoint, Some(t)), i);
}

/// Splitting a claim changes nothing: claiming at `t1` and again at `t2`
/// pays in total what one claim at `t2` pays, and leaves the registry in
/// the same state, same checkpoint included. A second claim that finds
/// nothing new counts as paying 0.
pub proof fn law_split_claim(
    v: RegistryView,
    sender: Seq<char>,
    nft_address: Seq<char>,
    token_id: Seq<char>,
    t1: u64,
    t2: u64,
)
    requires
        v.wf(),
        claim_reward_step(v, sender, nft_address, token_id, t1).1 is Ok,
        t1 <= t2,
        accrued_balance(
            v.records[v.asset_index(nft_address, token_id)].asset.updated_at as int,
            t2 as int,
            v.config.payout_window as int,
            v.rate_of(nft_address) as int,
            v.records[v.asset_index(nft_address, token_id)].asset.pending_rewards as int,
        ) <= u128::MAX,
    ensures
        ({
            let (w1, r1) = claim_reward_step(v, sender, nft_address, token_id, t1);
            let (w2, r2) = claim_reward_step(w1, sender, nft_address, token_id, t2);
            let (w3, r3) = claim_reward_step(v, sender, nft_address, token_id, t2);
            &&& r3 is Ok
            &&& r1->Ok_0 + (if r2 is Ok { r2->Ok_0 as int } else { 0 }) == r3->Ok_0
            &&& w2 == w3
        }),
{
    let i = v.asset_index(nft_address, token_id);
    let asset = v.records[i].asset;
    let window = v.config.payout_window as int;
    let rate = v.rate_of(nft_address) as int;
    let c = asset.updated_at as int;
    let (_, cp1) = v.settle(asset, t1)->Ok_0;
    lemma_with_accrual_wf(v, i, 0, cp1, None);
    let w1 = v.with_accrual(i, 0, cp1, None);
    lemma_asset_index(w1, i);
    lemma_same_rates(v, w1, nft_address);
    let q1 = whole_windows(c, t1 as int, window);
    lemma_windows_fit(t1 as int - c, window);
    assert(cp1 as int == c + q1 * window);
    let rest = whole_windows(cp1 as int, t2 as int, window);
    lemma_windows_compose(c, t1 as int, t2 as int, window);
    let q2 = whole_windows(c, t2 as int, window);
    lemma_windows_fit(t2 as int - cp1 as int, window);
    lemma_windows_fit(t2 as int - c, window);
    assert(c + q2 * window == cp1 as int + rest * window) by (nonlinear_arith)
        requires
            q1 + rest == q2,
            cp1 as int == c + q1 * window,
    ;
    assert(asset.pending_rewards + q1 * rate + rest * rate == asset.pending_rewards + q2 * rate)
        by (nonlinear_arith)
        requires
            q1 + rest == q2,
    ;
    assert(0 <= rest * rate) by (nonlinear_arith)
        requires
            rest >= 0,
            rate >= 0,
    ;
    assert(q1 * rate <= q2 * rate) by (nonlinear_arith)
        requires
            q1 + rest == q2,
            rest >= 0,
            rate >= 0,
    ;
    let cp2 = (c + q2 * window) as u64;
    assert(w1.with_accrual(i, 0, cp2, None).records =~= v.with_accrual(i, 0, cp2, None).records);
    assert(w1.with_accrual(i, 0, cp2, None) == v.with_accrual(i, 0, cp2, None));
    assert(holder_check(w1, sender, nft_address, token_id) is None);
    assert(w1.settle(w1.records[i].asset, t2) == Ok::<(u128, u64), ContractError>(
        ((rest * rate) as u128, cp2),
    ));
    assert(v.settle(asset, t2) == Ok::<(u128, u64), ContractError>(
        ((asset.pending_rewards + q2 * rate) as u128, cp2),
    ));
    lemma_asset_index(v, i);
    assert(v.has_rate(nft_address));
    let k = choose|k: int| 0 <= k < v.rates.len() && (#[trigger] v.rates[k]).0 == nft_address;
    assert(v.rates[k].1 > 0);
    assert(rate > 0);
    if rest == 0 {
        assert(v.with_accrual(i, 0, cp2, None).records =~= w1.records);
        assert(v.with_accrual(i, 0, cp2, None) == w1);
    } else {
        assert(rest * rate > 0) by (nonlinear_arith)
            requires
                rest > 0,
                rate > 0,
        ;
    }
}

/// `list` with every entry equal to `key` taken out, the rest in order.
pub open spec fn without_key(list: Seq<(Seq<char>, Seq<char>)>, key: (Seq<char>, Seq<char>)) -> Seq<
    (Seq<char>, Seq<char>),
>
    decreases list.len(),
{
    if list.len() == 0 {
        list
    } else {
        let kept = without_key(list.drop_last(), key);
        if list.last() == key {
            kept
        } else {
            kept.push(list.last())
        }
    }
}

proof fn lemma_without_absent(list: Seq<(Seq<char>, Seq<char>)>, key: (Seq<char>, Seq<char>))
    requires
        !list.contains(key),
    ensures
        without_key(list, key) == list,
    decreases list.len(),
{
    if list.len() > 0 {
        let prefix = list.drop_last();
        if prefix.contains(key) {
            let j = choose|j: int| 0 <= j < prefix.len() && prefix[j] == key;
            assert(list[j] == key);
        }
        lemma_without_absent(prefix, key);
        assert(list.last() != key);
        assert(prefix.push(list.last()) =~= list);
    }
}

pub open spec fn keys_unique(records: Seq<Record>) -> bool {
    forall|a: int, b: int|
        0 <= a < b < records.len() ==> !(#[trigger] records[a]).asset.is_asset(
            (#[trigger] records[b]).asset.nft_address,
            records[b].asset.token_id,
        )
}

proof fn lemma_staker_assets_remove(records: Seq<Record>, i: int, staker: Seq<char>)
    requires
        0 <= i < records.len(),
        keys_unique(records),
    ensures
        staker_assets(records.remove(i), staker) == without_key(
            staker_assets(records, staker),
            (records[i].asset.nft_address, records[i].asset.token_id),
        ),
    decreases records.len(),
{
    let key = (records[i].asset.nft_address, records[i].asset.token_id);
    let prefix = records.drop_last();
    let last = records.last();
    let n = records.len() - 1;
    if staker_assets(prefix, staker).contains(key) {
        lemma_staker_assets_contains(prefix, staker, key);
        let j = choose|j: int|
            0 <= j < prefix.len() && (#[trigger] prefix[j]).staker == staker
                && prefix[j].asset.is_asset(key.0, key.1);
        assert(records[j] == prefix[j]);
        if i == n {
            assert(!records[j].asset.is_asset(records[i].asset.nft_address, records[i].asset.token_id));
        } else if j < i {
            assert(!records[j].asset.is_asset(records[i].asset.nft_address, records[i].asset.token_id));
        } else if j > i {
            assert(!records[i].asset.is_asset(records[j].asset.nft_address, records[j].asset.token_id));
        }
    }
    let held = staker_assets(prefix, staker);
    let lk = (last.asset.nft_address, last.asset.token_id);
    assert(held.push(lk).drop_last() =~= held);
    assert(held.push(lk).last() == lk);
    if i == n {
        assert(records.remove(i) =~= prefix);
        lemma_without_absent(held, key);
    } else {
        let shorter = records.remove(i);
        assert(shorter.drop_last() =~= prefix.remove(i));
        assert(shorter.len() > 0);
        assert(shorter.last() == last);
        assert(prefix[i] == records[i]);
        assert(!records[i].asset.is_asset(last.asset.nft_address, last.asset.token_id));
        assert(lk != key);
        lemma_staker_assets_remove(prefix, i, staker);
        assert(staker_assets(shorter, staker) == if last.staker == staker {
            staker_assets(prefix.remove(i), staker).push(lk)
        } else {
            staker_assets(prefix.remove(i), staker)
        });
    }
}

/// Finalizing a withdrawal takes exactly that asset out of its staker's
/// list, keeping the others in order; every other staker's list stays as
/// it was.
pub proof fn law_withdraw_updates_index(
    v: RegistryView,
    sender: Seq<char>,
    nft_address: Seq<char>,
    token_id: Seq<char>,
    now: u64,
    staker: Seq<char>,
)
    requires
        v.wf(),
        claim_asset_step(v, sender, nft_address, token_id, now).1 is Ok,
    ensures
        staker_assets(claim_asset_step(v, sender, nft_address, token_id, now).0.records, staker)
            == without_key(staker_assets(v.records, staker), (nft_address, token_id)),
        staker != sender ==> staker_assets(
            claim_asset_step(v, sender, nft_address, token_id, now).0.records,
            staker,
        ) == staker_assets(v.records, staker),
{
    let i = v.asset_index(nft_address, token_id);
    lemma_staker_assets_remove(v.records, i, staker);
    if staker != sender {
        law_index_matches_ledger(v, staker, sender, nft_address, token_id);
        lemma_without_absent(staker_assets(v.records, staker), (nft_address, token_id));
    }
}

/// No asset is listed twice for one staker.
pub proof fn law_index_has_no_duplicates(v: RegistryView, staker: Seq<char>)
    requires
        v.wf(),
    ensures
        forall|a: int, b: int|
            0 <= a < b < staker_assets(v.records, staker).len() ==> staker_assets(v.records, staker)[a]
                != staker_assets(v.records, staker)[b],
{
    lemma_no_duplicates(v.records, staker);
}

proof fn lemma_no_duplicates(records: Seq<Record>, staker: Seq<char>)
    requires
        keys_unique(records),
    ensures
        forall|a: int, b: int|
            0 <= a < b < staker_assets(records, staker).len() ==> staker_assets(records, staker)[a]
                != staker_assets(records, staker)[b],
    decreases records.len(),
{
    if records.len() > 0 {
        let prefix = records.drop_last();
        let last = records.last();
        lemma_no_duplicates(prefix, staker);
        let key = (last.asset.nft_address, last.asset.token_id);
        lemma_staker_assets_contains(prefix, staker, key);
        if staker_assets(prefix, staker).contains(key) {
            let j = choose|j: int|
                0 <= j < prefix.len() && (#[trigger] prefix[j]).staker == staker
                    && prefix[j].asset.is_asset(key.0, key.1);
            assert(records[j] == prefix[j]);
            assert(!records[j].asset.is_asset(last.asset.nft_address, last.asset.token_id));
        }
        let held = staker_assets(prefix, staker);
        if last.staker == staker {
            assert forall|a: int, b: int| 0 <= a < b < held.push(key).len() implies held.push(key)[a]
                != held.push(key)[b] by {
                if b == held.len() {
                    assert(held.push(key)[a] == held[a]);
                    if held[a] == key {
                        assert(held.contains(key));
                    }
                }
            }
        }
    }
}

} // verus!
