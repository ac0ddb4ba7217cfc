use vstd::prelude::*;

use crate::accrual::{accrue, accrued_balance, advanced_checkpoint};
use crate::error::ContractError;
use crate::order::{ascending_keys, lemma_insert_ascending_keys, lemma_text_order, text_less, text_lt};

verus! {

/// Shortest unbonding period accepted, in seconds.
pub const MIN_UNBONDING_PERIOD: u64 = 10;

/// Shortest payout window accepted, in seconds.
pub const MIN_PAYOUT_WINDOW: u64 = 10;

/// Configuration of one registry. Durations are milliseconds.
#[derive(Debug, PartialEq, Eq)]
pub struct Config {
    pub denom: String,
    pub unbonding_period: u64,
    pub payout_window: u64,
}

pub struct ConfigView {
    pub denom: Seq<char>,
    pub unbonding_period: u64,
    pub payout_window: u64,
}

impl View for Config {
    type V = ConfigView;

    open spec fn view(&self) -> ConfigView {
        ConfigView {
            denom: self.denom@,
            unbonding_period: self.unbonding_period,
            payout_window: self.payout_window,
        }
    }
}

/// The assets a staker holds, as `(nft_address, token_id)` pairs.
#[derive(Debug, PartialEq, Eq)]
pub struct StakerDetail {
    pub assets: Vec<(String, String)>,
}

/// The ledger entry of one staked asset. Times are milliseconds.
#[derive(Debug, Clone, PartialEq, Eq)]
pub struct AssetDetail {
    pub nft_address: String,
    pub token_id: String,
    /// Unbonding period in force when the asset was deposited.
    pub unbonding_period: u64,
    /// Reward accrued up to `updated_at` and not paid yet.
    pub pending_rewards: u128,
    /// Accrual checkpoint: the instant up to which `pending_rewards` is settled.
    pub updated_at: u64,
    /// When the withdrawal was requested; present iff the asset is unstaking.
    pub unstaked_at: Option<u64>,
}

pub struct AssetDetailView {
    pub nft_address: Seq<char>,
    pub token_id: Seq<char>,
    pub unbonding_period: u64,
    pub pending_rewards: u128,
    pub updated_at: u64,
    pub unstaked_at: Option<u64>,
}

impl View for AssetDetail {
    type V = AssetDetailView;

    open spec fn view(&self) -> AssetDetailView {
        AssetDetailView {
            nft_address: self.nft_address@,
            token_id: self.token_id@,
            unbonding_period: self.unbonding_period,
            pending_rewards: self.pending_rewards,
            updated_at: self.updated_at,
            unstaked_at: self.unstaked_at,
        }
    }
}

impl AssetDetailView {
    pub open spec fn is_asset(self, nft_address: Seq<char>, token_id: Seq<char>) -> bool {
        self.nft_address == nft_address && self.token_id == token_id
    }
}

/// A tracked asset together with the staker who deposited it.
#[derive(Debug, PartialEq, Eq)]
pub struct StakedAsset {
    pub staker: String,
    pub detail: AssetDetail,
}

pub struct Record {
    pub staker: Seq<char>,
    pub asset: AssetDetailView,
}

impl View for StakedAsset {
    type V = Record;

    open spec fn view(&self) -> Record {
        Record { staker: self.staker@, asset: self.detail@ }
    }
}

/// Abstract state of a registry: its configuration, its reward table as
/// `(asset class, reward per window)` pairs, and one record per tracked asset.
pub struct RegistryView {
    pub config: ConfigView,
    pub rates: Seq<(Seq<char>, u128)>,
    pub records: Seq<Record>,
}

impl RegistryView {
    pub open spec fn has_rate(self, class: Seq<char>) -> bool {
        exists|i: int| 0 <= i < self.rates.len() && (#[trigger] self.rates[i]).0 == class
    }

    pub open spec fn rate_of(self, class: Seq<char>) -> u128 {
        self.rates[choose|i: int| 0 <= i < self.rates.len() && (#[trigger] self.rates[i]).0 == class].1
    }

    pub open spec fn has_asset(self, nft_address: Seq<char>, token_id: Seq<char>) -> bool {
        exists|i: int|
            0 <= i < self.records.len() && (#[trigger] self.records[i]).asset.is_asset(
                nft_address,
                token_id,
            )
    }

    pub open spec fn asset_index(self, nft_address: Seq<char>, token_id: Seq<char>) -> int {
        choose|i: int|
            0 <= i < self.records.len() && (#[trigger] self.records[i]).asset.is_asset(
                nft_address,
                token_id,
            )
    }

    /// Reward table: non-empty, one positive rate per asset class.
    pub open spec fn rates_wf(rates: Seq<(Seq<char>, u128)>) -> bool {
        &&& rates.len() > 0
        &&& forall|i: int| 0 <= i < rates.len() ==> (#[trigger] rates[i]).1 > 0
        &&& forall|i: int, j: int|
            0 <= i < j < rates.len() ==> (#[trigger] rates[i]).0 != (#[trigger] rates[j]).0
    }

    pub open spec fn config_wf(config: ConfigView) -> bool {
        &&& config.unbonding_period >= MIN_UNBONDING_PERIOD * 1000
        &&& config.payout_window >= MIN_PAYOUT_WINDOW * 1000
    }

    /// At most one record per asset, and each record's class has a rate.
    pub open spec fn records_wf(self) -> bool {
        &&& forall|i: int, j: int|
            0 <= i < j < self.records.len() ==> !(#[trigger] self.records[i]).asset.is_asset(
                (#[trigger] self.records[j]).asset.nft_address,
                self.records[j].asset.token_id,
            )
        &&& forall|i: int|
            0 <= i < self.records.len() ==> self.has_rate((#[trigger] self.records[i]).asset.nft_address)
    }

    /// The registry with the accrual state of record `i` replaced.
    pub open spec fn with_accrual(
        self,
        i: int,
        pending_rewards: u128,
        updated_at: u64,
        unstaked_at: Option<u64>,
    ) -> RegistryView {
        let rec = self.records[i];
        RegistryView {
            records: self.records.update(
                i,
                Record {
                    staker: rec.staker,
                    asset: AssetDetailView {
                        pending_rewards,
                        updated_at,
                        unstaked_at,
                        ..rec.asset
                    },
                },
            ),
            ..self
        }
    }

    pub open spec fn without_record(self, i: int) -> RegistryView {
        RegistryView { records: self.records.remove(i), ..self }
    }

    pub open spec fn with_record(self, rec: Record) -> RegistryView {
        RegistryView { records: self.records.push(rec), ..self }
    }

    /// Accrual of `asset` brought up to `now`: the new balance and checkpoint.
    pub open spec fn settle(self, asset: AssetDetailView, now: u64) -> Result<(u128, u64), ContractError> {
        if now < asset.updated_at {
            Err(ContractError::InvalidTime {})
        } else {
            let balance = accrued_balance(
                asset.updated_at as int,
                now as int,
                self.config.payout_window as int,
                self.rate_of(asset.nft_address) as int,
                asset.pending_rewards as int,
            );
            if balance > u128::MAX {
                Err(ContractError::Overflow {})
            } else {
                Ok(
                    (
                        balance as u128,
                        advanced_checkpoint(
                            asset.updated_at as int,
                            now as int,
                            self.config.payout_window as int,
                        ) as u64,
                    ),
                )
            }
        }
    }

    /// Reward owed for `asset` as of `now`: frozen once a withdrawal was
    /// requested, accrued up to `now` otherwise; `InvalidToken` for a staked
    /// asset whose class has no rate.
    pub open spec fn pending_of(self, asset: AssetDetailView, now: u64) -> Result<u128, ContractError> {
        if asset.unstaked_at is Some {
            Ok(asset.pending_rewards)
        } else if !self.has_rate(asset.nft_address) {
            Err(ContractError::InvalidToken {})
        } else {
            match self.settle(asset, now) {
                Ok((balance, _)) => Ok(balance),
                Err(e) => Err(e),
            }
        }
    }

    /// What a read of an asset returns as of `now`: its record with the
    /// pending reward recomputed, the checkpoint left as stored.
    pub open spec fn asset_detail_at(self, nft_address: Seq<char>, token_id: Seq<char>, now: u64) -> Result<
        AssetDetailView,
        ContractError,
    > {
        if !self.has_asset(nft_address, token_id) {
            Err(ContractError::AssetNotFound {})
        } else {
            let asset = self.records[self.asset_index(nft_address, token_id)].asset;
            match self.pending_of(asset, now) {
                Ok(pending) => Ok(AssetDetailView { pending_rewards: pending, ..asset }),
                Err(e) => Err(e),
            }
        }
    }

    /// Paying out the reward of a staked asset: the balance is reset and the
    /// checkpoint moved to the last window boundary. Nothing changes on error.
    pub open spec fn process_step(self, nft_address: Seq<char>, token_id: Seq<char>, now: u64) -> (
        RegistryView,
        Result<u128, ContractError>,
    ) {
        if !self.has_asset(nft_address, token_id) {
            (self, Err(ContractError::AssetNotFound {}))
        } else {
            let i = self.asset_index(nft_address, token_id);
            let asset = self.records[i].asset;
            if asset.unstaked_at is Some {
                (self, Err(ContractError::AssetAlreadyUnstaked {}))
            } else {
                match self.settle(asset, now) {
                    Err(e) => (self, Err(e)),
                    Ok((balance, checkpoint)) => if balance == 0 {
                        (self, Err(ContractError::ZeroReward {}))
                    } else {
                        (self.with_accrual(i, 0, checkpoint, None), Ok(balance))
                    },
                }
            }
        }
    }

    pub open spec fn wf(self) -> bool {
        &&& Self::config_wf(self.config)
        &&& Self::rates_wf(self.rates)
        &&& self.records_wf()
    }
}

/// The registry: configuration, reward table and asset ledger. Which staker
/// holds which assets is read off the ledger, so the two never disagree.
#[derive(Debug)]
pub struct Registry {
    config: Config,
    rewards_per_token: Vec<(String, u128)>,
    assets: Vec<StakedAsset>,
}

pub open spec fn rate_view(p: (String, u128)) -> (Seq<char>, u128) {
    (p.0@, p.1)
}

impl View for Registry {
    type V = RegistryView;

    closed spec fn view(&self) -> RegistryView {
        RegistryView {
            config: self.config@,
            rates: self.rewards_per_token@.map_values(|p: (String, u128)| rate_view(p)),
            records: self.assets@.map_values(|a: StakedAsset| a@),
        }
    }
}

pub open spec fn detail_result_view(r: Result<AssetDetail, ContractError>) -> Result<AssetDetailView, ContractError> {
    match r {
        Ok(d) => Ok(d@),
        Err(e) => Err(e),
    }
}

pub open spec fn key_view(p: (String, String)) -> (Seq<char>, Seq<char>) {
    (p.0@, p.1@)
}

/// The assets held by `staker`, in the order they were deposited.
pub open spec fn staker_assets(records: Seq<Record>, staker: Seq<char>) -> Seq<(Seq<char>, Seq<char>)>
    decreases records.len(),
{
    if records.len() == 0 {
        Seq::empty()
    } else {
        let held = staker_assets(records.drop_last(), staker);
        let last = records.last();
        if last.staker == staker {
            held.push((last.asset.nft_address, last.asset.token_id))
        } else {
            held
        }
    }
}

/// Adding a record for an untracked asset of a class with a rate keeps the
/// registry well formed.
pub proof fn lemma_with_record_wf(v: RegistryView, rec: Record)
    requires
        v.wf(),
        !v.has_asset(rec.asset.nft_address, rec.asset.token_id),
        v.has_rate(rec.asset.nft_address),
    ensures
        v.with_record(rec).wf(),
{
    let w = v.with_record(rec);
    assert forall|a: int, b: int| 0 <= a < b < w.records.len() implies !(#[trigger] w.records[a]).asset.is_asset(
        (#[trigger] w.records[b]).asset.nft_address,
        w.records[b].asset.token_id,
    ) by {
        if b == v.records.len() {
            assert(w.records[a] == v.records[a]);
            if v.records[a].asset.is_asset(rec.asset.nft_address, rec.asset.token_id) {
                assert(v.has_asset(rec.asset.nft_address, rec.asset.token_id));
            }
        } else {
            assert(w.records[a] == v.records[a]);
            assert(w.records[b] == v.records[b]);
        }
    }
    assert forall|a: int| 0 <= a < w.records.len() implies w.has_rate((#[trigger] w.records[a]).asset.nft_address) by {
        if a < v.records.len() {
            assert(w.records[a] == v.records[a]);
            assert(v.has_rate(v.records[a].asset.nft_address));
        }
        lemma_same_rates(v, w, w.records[a].asset.nft_address);
    }
}

/// Rates are looked up in the table alone.
pub proof fn lemma_same_rates(v: RegistryView, w: RegistryView, class: Seq<char>)
    requires
        v.rates == w.rates,
        v.has_rate(class),
    ensures
        w.has_rate(class),
        w.rate_of(class) == v.rate_of(class),
{
    let k = choose|k: int| 0 <= k < v.rates.len() && (#[trigger] v.rates[k]).0 == class;
    assert(w.rates[k] == v.rates[k]);
}

/// Changing the accrual state of a record keeps the registry well formed.
pub proof fn lemma_with_accrual_wf(
    v: RegistryView,
    i: int,
    pending_rewards: u128,
    updated_at: u64,
    unstaked_at: Option<u64>,
)
    requires
        v.wf(),
        0 <= i < v.records.len(),
    ensures
        v.with_accrual(i, pending_rewards, updated_at, unstaked_at).wf(),
        v.with_accrual(i, pending_rewards, updated_at, unstaked_at).records.len() == v.records.len(),
        v.with_accrual(i, pending_rewards, updated_at, unstaked_at).records[i].asset.is_asset(
            v.records[i].asset.nft_address,
            v.records[i].asset.token_id,
        ),
{
    let w = v.with_accrual(i, pending_rewards, updated_at, unstaked_at);
    assert forall|a: int, b: int| 0 <= a < b < w.records.len() implies !(#[trigger] w.records[a]).asset.is_asset(
        (#[trigger] w.records[b]).asset.nft_address,
        w.records[b].asset.token_id,
    ) by {
        assert(v.records[a].asset.nft_address == w.records[a].asset.nft_address);
        assert(v.records[b].asset.token_id == w.records[b].asset.token_id);
        assert(!v.records[a].asset.is_asset(v.records[b].asset.nft_address, v.records[b].asset.token_id));
    }
    assert forall|a: int| 0 <= a < w.records.len() implies w.has_rate((#[trigger] w.records[a]).asset.nft_address) by {
        assert(v.has_rate(v.records[a].asset.nft_address));
        lemma_same_rates(v, w, w.records[a].asset.nft_address);
    }
}

/// Deleting a record keeps the registry well formed, and the asset it held
/// is no longer tracked.
pub proof fn lemma_without_record_wf(v: RegistryView, i: int)
    requires
        v.wf(),
        0 <= i < v.records.len(),
    ensures
        v.without_record(i).wf(),
        !v.without_record(i).has_asset(v.records[i].asset.nft_address, v.records[i].asset.token_id),
{
    let w = v.without_record(i);
    v.records.remove_ensures(i);
    assert forall|a: int, b: int| 0 <= a < b < w.records.len() implies !(#[trigger] w.records[a]).asset.is_asset(
        (#[trigger] w.records[b]).asset.nft_address,
        w.records[b].asset.token_id,
    ) by {
        let a0 = if a < i { a } else { a + 1 };
        let b0 = if b < i { b } else { b + 1 };
        assert(w.records[a] == v.records[a0]);
        assert(w.records[b] == v.records[b0]);
        assert(!v.records[a0].asset.is_asset(v.records[b0].asset.nft_address, v.records[b0].asset.token_id));
    }
    assert forall|a: int| 0 <= a < w.records.len() implies w.has_rate((#[trigger] w.records[a]).asset.nft_address) by {
        let a0 = if a < i { a } else { a + 1 };
        assert(w.records[a] == v.records[a0]);
        assert(v.has_rate(v.records[a0].asset.nft_address));
        lemma_same_rates(v, w, w.records[a].asset.nft_address);
    }
    let gone = v.records[i].asset;
    if w.has_asset(gone.nft_address, gone.token_id) {
        let a = choose|a: int| 0 <= a < w.records.len() && (#[trigger] w.records[a]).asset.is_asset(
            gone.nft_address,
            gone.token_id,
        );
        let a0 = if a < i { a } else { a + 1 };
        assert(w.records[a] == v.records[a0]);
        if a0 < i {
            assert(!v.records[a0].asset.is_asset(v.records[i].asset.nft_address, v.records[i].asset.token_id));
        } else {
            assert(!v.records[i].asset.is_asset(v.records[a0].asset.nft_address, v.records[a0].asset.token_id));
        }
    }
}

/// The record at `i` exists only once: any index holding the same asset is `i`.
pub proof fn lemma_asset_index(v: RegistryView, i: int)
    requires
        v.records_wf(),
        0 <= i < v.records.len(),
    ensures
        v.has_asset(v.records[i].asset.nft_address, v.records[i].asset.token_id),
        v.asset_index(v.records[i].asset.nft_address, v.records[i].asset.token_id) == i,
{
    let a = v.records[i].asset;
    assert(v.records[i].asset.is_asset(a.nft_address, a.token_id));
    let k = v.asset_index(a.nft_address, a.token_id);
    if k < i {
        assert(!v.records[k].asset.is_asset(v.records[i].asset.nft_address, v.records[i].asset.token_id));
    } else if k > i {
        assert(!v.records[i].asset.is_asset(v.records[k].asset.nft_address, v.records[k].asset.token_id));
    }
}

impl Registry {
    /// A registry with no tracked asset.
    pub(crate) fn new(config: Config, rewards_per_token: Vec<(String, u128)>) -> (r: Registry)
        requires
            RegistryView::config_wf(config@),
            RegistryView::rates_wf(rewards_per_token@.map_values(|p: (String, u128)| rate_view(p))),
        ensures
            r@.config == config@,
            r@.rates == rewards_per_token@.map_values(|p: (String, u128)| rate_view(p)),
            r@.records == Seq::<Record>::empty(),
            r@.wf(),
    {
        let r = Registry { config, rewards_per_token, assets: Vec::new() };
        assert(r@.records =~= Seq::<Record>::empty());
        r
    }

    pub fn config(&self) -> (r: &Config)
        ensures
            r@ == self@.config,
    {
        &self.config
    }

    pub fn rewards_per_token(&self) -> (r: &Vec<(String, u128)>)
        ensures
            r@.map_values(|p: (String, u128)| rate_view(p)) == self@.rates,
    {
        &self.rewards_per_token
    }

    /// Number of tracked assets.
    pub fn len(&self) -> (r: usize)
        ensures
            r == self@.records.len(),
    {
        self.assets.len()
    }

    pub fn staker_at(&self, i: usize) -> (r: &String)
        requires
            i < self@.records.len(),
        ensures
            r@ == self@.records[i as int].staker,
    {
        &self.assets[i].staker
    }

    pub fn asset_at(&self, i: usize) -> (r: &AssetDetail)
        requires
            i < self@.records.len(),
        ensures
            r@ == self@.records[i as int].asset,
    {
        &self.assets[i].detail
    }

    /// The reward per window of an asset class, if it has one.
    pub fn find_rate(&self, class: &String) -> (r: Option<u128>)
        requires
            self@.wf(),
        ensures
            r is Some <==> self@.has_rate(class@),
            r matches Some(rate) ==> rate == self@.rate_of(class@),
    {
        let ghost v = self@;
        let mut i: usize = 0;
        while i < self.rewards_per_token.len()
            invariant
                v == self@,
                v.wf(),
                i <= v.rates.len(),
                forall|k: int| 0 <= k < i ==> (#[trigger] v.rates[k]).0 != class@,
            decreases v.rates.len() - i,
        {
            if self.rewards_per_token[i].0 == *class {
                proof {
                    assert(v.rates[i as int].0 == class@);
                    let c = choose|k: int| 0 <= k < v.rates.len() && (#[trigger] v.rates[k]).0 == class@;
                    if c != i as int {
                        if c < i as int {
                            assert(v.rates[c].0 != class@);
                        } else {
                            assert(v.rates[i as int].0 != v.rates[c].0);
                        }
                    }
                }
                return Some(self.rewards_per_token[i].1);
            }
            i = i + 1;
        }
        None
    }

    /// Replaces the accrual state of the record at `i`.
    pub(crate) fn set_accrual(
        &mut self,
        i: usize,
        pending_rewards: u128,
        updated_at: u64,
        unstaked_at: Option<u64>,
    )
        requires
            old(self)@.wf(),
            i < old(self)@.records.len(),
        ensures
            final(self)@ == old(self)@.with_accrual(i as int, pending_rewards, updated_at, unstaked_at),
            final(self)@.wf(),
    {
        let ghost v = self@;
        self.assets[i].detail.pending_rewards = pending_rewards;
        self.assets[i].detail.updated_at = updated_at;
        self.assets[i].detail.unstaked_at = unstaked_at;
        proof {
            lemma_with_accrual_wf(v, i as int, pending_rewards, updated_at, unstaked_at);
        }
        assert(self@.records =~= v.with_accrual(i as int, pending_rewards, updated_at, unstaked_at).records);
        assert(self@.rates =~= v.rates);
    }

    /// Stops tracking the record at `i`.
    pub(crate) fn remove_record(&mut self, i: usize)
        requires
            old(self)@.wf(),
            i < old(self)@.records.len(),
        ensures
            final(self)@ == old(self)@.without_record(i as int),
            final(self)@.wf(),
    {
        let ghost v = self@;
        self.assets.remove(i);
        proof {
            lemma_without_record_wf(v, i as int);
            v.records.remove_ensures(i as int);
        }
        assert(self@.records =~= v.without_record(i as int).records);
        assert(self@.rates =~= v.rates);
    }

    /// Starts tracking an asset that is not tracked yet.
    pub(crate) fn add_record(&mut self, staker: String, detail: AssetDetail)
        requires
            old(self)@.wf(),
            !old(self)@.has_asset(detail.nft_address@, detail.token_id@),
            old(self)@.has_rate(detail.nft_address@),
        ensures
            final(self)@ == old(self)@.with_record(Record { staker: staker@, asset: detail@ }),
            final(self)@.wf(),
    {
        let ghost v = self@;
        let ghost rec = Record { staker: staker@, asset: detail@ };
        self.assets.push(StakedAsset { staker, detail });
        proof {
            lemma_with_record_wf(v, rec);
        }
        assert(self@.records =~= v.with_record(rec).records);
        assert(self@.rates =~= v.rates);
    }

    /// Replaces the unbonding period applied to future deposits.
    pub(crate) fn set_unbonding_period(&mut self, unbonding_period: u64)
        requires
            old(self)@.wf(),
            unbonding_period >= MIN_UNBONDING_PERIOD * 1000,
        ensures
            final(self)@ == (RegistryView {
                config: ConfigView { unbonding_period, ..old(self)@.config },
                ..old(self)@
            }),
            final(self)@.wf(),
    {
        let ghost v = self@;
        self.config.unbonding_period = unbonding_period;
        assert forall|a: int| 0 <= a < self@.records.len() implies self@.has_rate(
            (#[trigger] self@.records[a]).asset.nft_address,
        ) by {
            assert(v.has_rate(v.records[a].asset.nft_address));
            lemma_same_rates(v, self@, self@.records[a].asset.nft_address);
        }
    }

    /// Accrual of `asset` brought up to `now`, as a new balance and checkpoint.
    pub fn settle(&self, asset: &AssetDetail, now: u64) -> (r: Result<(u128, u64), ContractError>)
        requires
            self@.wf(),
            self@.has_rate(asset.nft_address@),
        ensures
            r == self@.settle(asset@, now),
    {
        if now < asset.updated_at {
            return Err(ContractError::InvalidTime {});
        }
        let rate = match self.find_rate(&asset.nft_address) {
            Some(rate) => rate,
            None => return Err(ContractError::InvalidToken {}),
        };
        accrue(asset.updated_at, now, self.config.payout_window, rate, asset.pending_rewards)
    }

    /// Index of the record of an asset, if it is tracked.
    pub fn find_asset(&self, nft_address: &String, token_id: &String) -> (r: Option<usize>)
        requires
            self@.wf(),
        ensures
            r is Some <==> self@.has_asset(nft_address@, token_id@),
            r matches Some(i) ==> i == self@.asset_index(nft_address@, token_id@)
                && i < self@.records.len(),
    {
        let ghost v = self@;
        let mut i: usize = 0;
        while i < self.assets.len()
            invariant
                v == self@,
                v.wf(),
                i <= v.records.len(),
                forall|k: int| 0 <= k < i ==> !(#[trigger] v.records[k]).asset.is_asset(nft_address@, token_id@),
            decreases v.records.len() - i,
        {
            if self.assets[i].detail.nft_address == *nft_address && self.assets[i].detail.token_id == *token_id {
                proof {
                    lemma_asset_index(v, i as int);
                }
                return Some(i);
            }
            i = i + 1;
        }
        None
    }
}

/// Reward owed for `asset` as of `now`, without changing anything.
pub fn calculate_pending_rewards(registry: &Registry, asset: &AssetDetail, now: u64) -> (r: Result<
    u128,
    ContractError,
>)
    requires
        registry@.wf(),
    ensures
        r == registry@.pending_of(asset@, now),
        asset.unstaked_at is Some ==> r == Ok::<u128, ContractError>(asset.pending_rewards),
{
    if asset.unstaked_at.is_some() {
        return Ok(asset.pending_rewards);
    }
    if registry.find_rate(&asset.nft_address).is_none() {
        return Err(ContractError::InvalidToken {});
    }
    match registry.settle(asset, now) {
        Ok((balance, _)) => Ok(balance),
        Err(e) => Err(e),
    }
}

/// The record of an asset with its pending reward as of `now`. The stored
/// checkpoint is not moved: reading has no effect.
pub fn get_asset_detail(registry: &Registry, nft_address: String, token_id: String, now: u64) -> (r:
    Result<AssetDetail, ContractError>)
    requires
        registry@.wf(),
    ensures
        detail_result_view(r) == registry@.asset_detail_at(nft_address@, token_id@, now),
{
    let i = match registry.find_asset(&nft_address, &token_id) {
        Some(i) => i,
        None => return Err(ContractError::AssetNotFound {}),
    };
    let asset = registry.asset_at(i);
    let pending = calculate_pending_rewards(registry, asset, now)?;
    Ok(AssetDetail {
        nft_address: asset.nft_address.clone(),
        token_id: asset.token_id.clone(),
        unbonding_period: asset.unbonding_period,
        pending_rewards: pending,
        updated_at: asset.updated_at,
        unstaked_at: asset.unstaked_at,
    })
}

/// Pays out the reward of a staked asset as of `now`: returns the amount,
/// resets the balance and moves the checkpoint to the last window boundary,
/// so the unfinished window keeps counting. A claim of nothing is refused.
pub fn process_pending_rewards(registry: &mut Registry, nft_address: String, token_id: String, now: u64) -> (r: Result<
    u128,
    ContractError,
>)
    requires
        old(registry)@.wf(),
    ensures
        (final(registry)@, r) == old(registry)@.process_step(nft_address@, token_id@, now),
        final(registry)@.wf(),
{
    let i = match registry.find_asset(&nft_address, &token_id) {
        Some(i) => i,
        None => return Err(ContractError::AssetNotFound {}),
    };
    let asset = registry.asset_at(i);
    if asset.unstaked_at.is_some() {
        return Err(ContractError::AssetAlreadyUnstaked {});
    }
    proof {
        assert(registry@.has_rate(registry@.records[i as int].asset.nft_address));
    }
    let (balance, checkpoint) = registry.settle(asset, now)?;
    if balance == 0 {
        return Err(ContractError::ZeroReward {});
    }
    registry.set_accrual(i, 0, checkpoint, None);
    Ok(balance)
}

/// The assets `staker` holds, read off the ledger in deposit order; empty
/// for a staker who holds nothing.
pub fn get_staker_detail(registry: &Registry, staker: &String) -> (r: StakerDetail)
    ensures
        r.assets@.map_values(|p: (String, String)| key_view(p)) == staker_assets(registry@.records, staker@),
{
    let ghost records = registry@.records;
    let mut assets: Vec<(String, String)> = Vec::new();
    let mut i: usize = 0;
    while i < registry.len()
        invariant
            records == registry@.records,
            i <= records.len(),
            assets@.map_values(|p: (String, String)| key_view(p)) == staker_assets(records.subrange(0, i as int), staker@),
        decreases records.len() - i,
    {
        let ghost before = assets@;
        proof {
            assert(records.subrange(0, i + 1).drop_last() =~= records.subrange(0, i as int));
        }
        if *registry.staker_at(i) == *staker {
            let asset = registry.asset_at(i);
            assets.push((asset.nft_address.clone(), asset.token_id.clone()));
            assert(assets@.map_values(|p: (String, String)| key_view(p)) =~= before.map_values(
                |p: (String, String)| key_view(p),
            ).push((records[i as int].asset.nft_address, records[i as int].asset.token_id)));
        }
        i = i + 1;
    }
    assert(records.subrange(0, records.len() as int) =~= records);
    StakerDetail { assets }
}

/// `listed` is the reward table sorted strictly ascending by asset class.
pub open spec fn lists_rates(rates: Seq<(Seq<char>, u128)>, listed: Seq<(Seq<char>, u128)>) -> bool {
    &&& ascending_keys(listed)
    &&& listed.len() == rates.len()
    &&& forall|p: (Seq<char>, u128)| listed.contains(p) <==> rates.contains(p)
}

/// The reward table as `(asset class, reward per window)` pairs, in
/// ascending order of asset class.
pub fn get_rewards_per_token(registry: &Registry) -> (r: Vec<(String, u128)>)
    requires
        registry@.wf(),
    ensures
        lists_rates(registry@.rates, r@.map_values(|p: (String, u128)| rate_view(p))),
{
    let table = registry.rewards_per_token();
    let ghost rates = registry@.rates;
    let mut out: Vec<(String, u128)> = Vec::new();
    let mut i: usize = 0;
    while i < table.len()
        invariant
            rates == table@.map_values(|p: (String, u128)| rate_view(p)),
            RegistryView::rates_wf(rates),
            i <= rates.len(),
            out@.len() == i,
            ascending_keys(out@.map_values(|p: (String, u128)| rate_view(p))),
            forall|p: (Seq<char>, u128)|
                out@.map_values(|p: (String, u128)| rate_view(p)).contains(p) <==> rates.subrange(
                    0,
                    i as int,
                ).contains(p),
        decreases rates.len() - i,
    {
        let ghost ov = out@.map_values(|p: (String, u128)| rate_view(p));
        let ghost e = rates[i as int];
        let key = &table[i].0;
        let mut j: usize = 0;
        while j < out.len() && !text_lt(key, &out[j].0)
            invariant
                j <= out@.len(),
                key@ == e.0,
                ov == out@.map_values(|p: (String, u128)| rate_view(p)),
                forall|k: int| 0 <= k < j ==> !text_less(e.0, (#[trigger] ov[k]).0),
                rates == table@.map_values(|p: (String, u128)| rate_view(p)),
                RegistryView::rates_wf(rates),
                i < rates.len(),
                e == rates[i as int],
                out@.len() == i,
                ascending_keys(ov),
                forall|p: (Seq<char>, u128)| ov.contains(p) <==> rates.subrange(0, i as int).contains(p),
            decreases out@.len() - j,
        {
            j = j + 1;
        }
        proof {
            assert forall|k: int| 0 <= k < ov.len() implies (#[trigger] ov[k]).0 != e.0 by {
                assert(ov.contains(ov[k]));
                let m = choose|m: int| 0 <= m < i && rates.subrange(0, i as int)[m] == ov[k];
                assert(rates[m] == ov[k]);
            }
            assert forall|k: int| 0 <= k < j implies text_less((#[trigger] ov[k]).0, e.0) by {
                lemma_text_order(ov[k].0, e.0, e.0);
            }
            assert forall|k: int| j <= k < ov.len() implies text_less(e.0, (#[trigger] ov[k]).0) by {
                lemma_text_order(e.0, ov[j as int].0, ov[k].0);
            }
            lemma_insert_ascending_keys(ov, j as int, e);
        }
        let class = table[i].0.clone();
        out.insert(j, (class, table[i].1));
        proof {
            let nv = out@.map_values(|p: (String, u128)| rate_view(p));
            assert(nv =~= ov.insert(j as int, e));
            let pre = rates.subrange(0, i as int);
            let post = rates.subrange(0, i + 1);
            assert(post =~= pre.push(e));
            assert forall|p: (Seq<char>, u128)| nv.contains(p) <==> post.contains(p) by {
                if nv.contains(p) {
                    let k = choose|k: int| 0 <= k < nv.len() && nv[k] == p;
                    if k < j {
                        assert(ov[k] == p && ov.contains(p));
                        let m = choose|m: int| 0 <= m < pre.len() && pre[m] == p;
                        assert(post[m] == p);
                    } else if k == j {
                        assert(post[i as int] == p);
                    } else {
                        assert(ov[k - 1] == p && ov.contains(p));
                        let m = choose|m: int| 0 <= m < pre.len() && pre[m] == p;
                        assert(post[m] == p);
                    }
                }
                if post.contains(p) {
                    let m = choose|m: int| 0 <= m < post.len() && post[m] == p;
                    if m < i {
                        assert(pre[m] == p && pre.contains(p));
                        let k = choose|k: int| 0 <= k < ov.len() && ov[k] == p;
                        if k < j {
                            assert(nv[k] == p);
                        } else {
                            assert(nv[k + 1] == p);
                        }
                    } else {
                        assert(nv[j as int] == p);
                    }
                }
            }
        }
        i = i + 1;
    }
    assert(rates.subrange(0, rates.len() as int) =~= rates);
    out
}

/// Whether `table` is a valid reward table: non-empty, no class twice and
/// no zero rate.
fn check_rates(table: &Vec<(String, u128)>) -> (r: bool)
    ensures
        r == RegistryView::rates_wf(table@.map_values(|p: (String, u128)| rate_view(p))),
{
    let ghost rates = table@.map_values(|p: (String, u128)| rate_view(p));
    if table.len() == 0 {
        return false;
    }
    let mut i: usize = 0;
    while i < table.len()
        invariant
            rates == table@.map_values(|p: (String, u128)| rate_view(p)),
            i <= rates.len(),
            rates.len() > 0,
            forall|a: int, b: int| 0 <= a < b < i ==> (#[trigger] rates[a]).0 != (#[trigger] rates[b]).0,
            forall|a: int| 0 <= a < i ==> (#[trigger] rates[a]).1 > 0,
        decreases rates.len() - i,
    {
        if table[i].1 == 0 {
            assert(rates[i as int].1 == 0);
            return false;
        }
        let mut j: usize = 0;
        while j < i
            invariant
                j <= i < rates.len(),
                rates == table@.map_values(|p: (String, u128)| rate_view(p)),
                forall|k: int| 0 <= k < j ==> (#[trigger] rates[k]).0 != rates[i as int].0,
            decreases i - j,
        {
            if table[j].0 == table[i].0 {
                assert(rates[j as int].0 == rates[i as int].0);
                return false;
            }
            j = j + 1;
        }
        i = i + 1;
    }
    true
}

pub open spec fn staked_view(a: StakedAsset) -> Record {
    a@
}

impl Registry {
    /// Rebuilds a registry from its parts, as stored by a host between calls.
    /// Parts that do not form a well-formed registry are refused.
    pub fn restore(config: Config, rewards_per_token: Vec<(String, u128)>, assets: Vec<StakedAsset>) -> (r:
        Option<Registry>)
        ensures
            r is Some <==> (RegistryView {
                config: config@,
                rates: rewards_per_token@.map_values(|p: (String, u128)| rate_view(p)),
                records: assets@.map_values(|a: StakedAsset| staked_view(a)),
            }).wf(),
            r matches Some(registry) ==> registry@ == (RegistryView {
                config: config@,
                rates: rewards_per_token@.map_values(|p: (String, u128)| rate_view(p)),
                records: assets@.map_values(|a: StakedAsset| staked_view(a)),
            }),
    {
        let ghost target = RegistryView {
            config: config@,
            rates: rewards_per_token@.map_values(|p: (String, u128)| rate_view(p)),
            records: assets@.map_values(|a: StakedAsset| staked_view(a)),
        };
        if config.unbonding_period < MIN_UNBONDING_PERIOD * 1000 || config.payout_window < MIN_PAYOUT_WINDOW * 1000 {
            return None;
        }
        if !check_rates(&rewards_per_token) {
            return None;
        }
        let mut registry = Registry::new(config, rewards_per_token);
        let count = assets.len();
        let mut rest = assets;
        let ghost n = count as nat;
        assert(n == target.records.len());
        let mut i: usize = 0;
        while rest.len() > 0
            invariant
                registry@.wf(),
                registry@.config == target.config,
                registry@.rates == target.rates,
                n == count,
                n == target.records.len(),
                target == (RegistryView {
                    config: config@,
                    rates: rewards_per_token@.map_values(|p: (String, u128)| rate_view(p)),
                    records: assets@.map_values(|a: StakedAsset| staked_view(a)),
                }),
                i <= n,
                rest@.len() == n - i,
                registry@.records == target.records.subrange(0, i as int),
                forall|k: int| 0 <= k < rest@.len() ==> #[trigger] staked_view(rest@[k]) == target.records[i + k],
            decreases rest@.len(),
        {
            let next = rest.remove(0);
            assert(staked_view(next) == target.records[i as int]);
            if registry.find_rate(&next.detail.nft_address).is_none() {
                assert(!target.has_rate(target.records[i as int].asset.nft_address)) by {
                    if target.has_rate(target.records[i as int].asset.nft_address) {
                        lemma_same_rates(target, registry@, target.records[i as int].asset.nft_address);
                    }
                }
                assert(!target.records_wf());
                return None;
            }
            if let Some(k) = registry.find_asset(&next.detail.nft_address, &next.detail.token_id) {
                proof {
                    let k = k as int;
                    assert(registry@.records[k] == target.records[k]);
                    assert(target.records[k].asset.is_asset(
                        target.records[i as int].asset.nft_address,
                        target.records[i as int].asset.token_id,
                    ));
                    assert(!target.records_wf());
                }
                return None;
            }
            registry.add_record(next.staker, next.detail);
            i = i + 1;
            assert(registry@.records =~= target.records.subrange(0, i as int));
        }
        assert(target.records.subrange(0, n as int) =~= target.records);
        Some(registry)
    }
}

} // verus!
