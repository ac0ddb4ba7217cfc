use vstd::prelude::*;

use crate::error::ContractError;
use crate::state::{rate_view, AssetDetail, MIN_PAYOUT_WINDOW, MIN_UNBONDING_PERIOD};

verus! {

/// Parameters of a new registry. Durations are seconds.
#[derive(Debug, PartialEq, Eq)]
pub struct InstantiateMsg {
    /// Denomination the rewards are paid in.
    pub denom: String,
    /// `(asset class, reward per payout window)` pairs.
    pub rewards_per_token: Vec<(String, u128)>,
    /// Unbonding period; the minimum when absent.
    pub unbonding_period: Option<u64>,
    /// Payout window; the minimum when absent.
    pub payout_window: Option<u64>,
}

/// First fault of a reward table read front to back: an asset class listed
/// a second time, or a zero rate.
pub open spec fn table_error(rates: Seq<(Seq<char>, u128)>) -> Option<ContractError>
    decreases rates.len(),
{
    if rates.len() == 0 {
        None
    } else {
        match table_error(rates.drop_last()) {
            Some(e) => Some(e),
            None => {
                let last = rates.last();
                if exists|k: int| 0 <= k < rates.len() - 1 && (#[trigger] rates[k]).0 == last.0 {
                    Some(ContractError::DuplicatedAsset {})
                } else if last.1 == 0 {
                    Some(ContractError::ZeroReward {})
                } else {
                    None
                }
            },
        }
    }
}

/// A duration given in seconds, the minimum when absent.
pub open spec fn seconds_or(value: Option<u64>, min: u64) -> u64 {
    match value {
        Some(v) => v,
        None => min,
    }
}

impl InstantiateMsg {
    pub open spec fn rates(&self) -> Seq<(Seq<char>, u128)> {
        self.rewards_per_token@.map_values(|p: (String, u128)| rate_view(p))
    }

    /// Whether the parameters are acceptable, and the first fault if not.
    pub open spec fn validity(&self) -> Result<(), ContractError> {
        match table_error(self.rates()) {
            Some(e) => Err(e),
            None => if self.rates().len() == 0 {
                Err(ContractError::EmptyRewardsPerToken {})
            } else if seconds_or(self.unbonding_period, MIN_UNBONDING_PERIOD) < MIN_UNBONDING_PERIOD {
                Err(ContractError::InvalidUnbondingPeriod { min: MIN_UNBONDING_PERIOD })
            } else if seconds_or(self.payout_window, MIN_PAYOUT_WINDOW) < MIN_PAYOUT_WINDOW {
                Err(ContractError::InvalidPayoutWindow { min: MIN_PAYOUT_WINDOW })
            } else {
                Ok(())
            },
        }
    }

    /// Checks the reward table (no class twice, no zero rate, not empty) and
    /// that both durations reach their minimum.
    pub fn validate(&self) -> (r: Result<(), ContractError>)
        ensures
            r == self.validity(),
            r is Ok ==> forall|i: int, j: int|
                0 <= i < j < self.rates().len() ==> (#[trigger] self.rates()[i]).0 != (
                #[trigger] self.rates()[j]).0,
            r is Ok ==> forall|i: int| 0 <= i < self.rates().len() ==> (#[trigger] self.rates()[i]).1 > 0,
    {
        let table = &self.rewards_per_token;
        let ghost rates = self.rates();
        let mut i: usize = 0;
        while i < table.len()
            invariant
                rates == self.rates(),
                table == &self.rewards_per_token,
                i <= rates.len(),
                table_error(rates.subrange(0, i as int)) is None,
                forall|a: int, b: int| 0 <= a < b < i ==> (#[trigger] rates[a]).0 != (#[trigger] rates[b]).0,
                forall|a: int| 0 <= a < i ==> (#[trigger] rates[a]).1 > 0,
            decreases rates.len() - i,
        {
            let ghost prefix = rates.subrange(0, i + 1);
            proof {
                assert(prefix.drop_last() =~= rates.subrange(0, i as int));
            }
            let mut j: usize = 0;
            while j < i
                invariant
                    j <= i < rates.len(),
                    rates == self.rates(),
                    table == &self.rewards_per_token,
                    forall|k: int| 0 <= k < j ==> (#[trigger] rates[k]).0 != rates[i as int].0,
                    prefix == rates.subrange(0, i + 1),
                    prefix.drop_last() == rates.subrange(0, i as int),
                    table_error(rates.subrange(0, i as int)) is None,
                decreases i - j,
            {
                if table[j].0 == table[i].0 {
                    proof {
                        assert(prefix[j as int].0 == prefix.last().0);
                        lemma_table_error_extends(rates, i as int, ContractError::DuplicatedAsset {});
                    }
                    return Err(ContractError::DuplicatedAsset {});
                }
                j = j + 1;
            }
            proof {
                assert forall|k: int| 0 <= k < prefix.len() - 1 implies (#[trigger] prefix[k]).0 != prefix.last().0 by {
                    assert(prefix[k] == rates[k]);
                }
            }
            if table[i].1 == 0 {
                proof {
                    lemma_table_error_extends(rates, i as int, ContractError::ZeroReward {});
                }
                return Err(ContractError::ZeroReward {});
            }
            i = i + 1;
        }
        proof {
            assert(rates.subrange(0, rates.len() as int) =~= rates);
        }
        if table.len() == 0 {
            return Err(ContractError::EmptyRewardsPerToken {});
        }
        let unbonding_period = match self.unbonding_period {
            Some(v) => v,
            None => MIN_UNBONDING_PERIOD,
        };
        if unbonding_period < MIN_UNBONDING_PERIOD {
            return Err(ContractError::InvalidUnbondingPeriod { min: MIN_UNBONDING_PERIOD });
        }
        let payout_window = match self.payout_window {
            Some(v) => v,
            None => MIN_PAYOUT_WINDOW,
        };
        if payout_window < MIN_PAYOUT_WINDOW {
            return Err(ContractError::InvalidPayoutWindow { min: MIN_PAYOUT_WINDOW });
        }
        Ok(())
    }
}

/// A fault found in a prefix of the table is the fault of the whole table.
proof fn lemma_table_error_extends(rates: Seq<(Seq<char>, u128)>, n: int, e: ContractError)
    requires
        0 <= n < rates.len(),
        table_error(rates.subrange(0, n + 1)) == Some(e),
    ensures
        table_error(rates) == Some(e),
    decreases rates.len() - n,
{
    if n + 1 < rates.len() {
        assert(rates.subrange(0, n + 2).drop_last() =~= rates.subrange(0, n + 1));
        lemma_table_error_extends(rates, n + 1, e);
    } else {
        assert(rates.subrange(0, n + 1) =~= rates);
    }
}

/// Operations that change the registry. `ReceiveNft` is a deposit: the
/// caller is the asset class (the NFT contract) and `sender` the staker.
#[derive(Debug, PartialEq, Eq)]
pub enum ExecuteMsg {
    ReceiveNft { sender: String, token_id: String },
    ClaimReward { nft_address: String, token_id: String },
    ClaimAsset { nft_address: String, token_id: String },
    Unstake { nft_address: String, token_id: String },
    UpdateConfig { unbonding_period: u64 },
}

/// Read-only requests.
#[derive(Debug, PartialEq, Eq)]
pub enum QueryMsg {
    Config {},
    RewardsPerToken {},
    Stakers {},
    StakerDetail { staker: String },
    AssetDetail { nft_address: String, token_id: String },
}

/// A transfer the registry owes: reward coins, or an asset handed back.
#[derive(Debug, PartialEq, Eq)]
pub enum Transfer {
    Coins { recipient: String, amount: u128, denom: String },
    Nft { contract: String, recipient: String, token_id: String },
}

pub enum TransferView {
    Coins { recipient: Seq<char>, amount: u128, denom: Seq<char> },
    Nft { contract: Seq<char>, recipient: Seq<char>, token_id: Seq<char> },
}

impl View for Transfer {
    type V = TransferView;

    open spec fn view(&self) -> TransferView {
        match self {
            Transfer::Coins { recipient, amount, denom } => TransferView::Coins {
                recipient: recipient@,
                amount: *amount,
                denom: denom@,
            },
            Transfer::Nft { contract, recipient, token_id } => TransferView::Nft {
                contract: contract@,
                recipient: recipient@,
                token_id: token_id@,
            },
        }
    }
}

/// Configuration as reported; durations are milliseconds.
#[derive(Debug, PartialEq, Eq)]
pub struct ConfigResponse {
    pub denom: String,
    pub unbonding_period: u64,
    pub payout_window: u64,
}

#[derive(Debug, PartialEq, Eq)]
pub struct RewardsPerTokenResponse {
    pub rewards_per_token: Vec<(String, u128)>,
}

#[derive(Debug, PartialEq, Eq)]
pub struct StakersResponse {
    pub stakers: Vec<String>,
}

#[derive(Debug, PartialEq, Eq)]
pub struct StakerDetailResponse {
    pub assets: Vec<(String, String)>,
    pub pending_rewards: u128,
}

#[derive(Debug, PartialEq, Eq)]
pub struct AssetDetailResponse {
    pub asset_detail: AssetDetail,
}

/// The answer to a [`QueryMsg`], one variant per request.
#[derive(Debug, PartialEq, Eq)]
pub enum QueryResponse {
    Config(ConfigResponse),
    RewardsPerToken(RewardsPerTokenResponse),
    Stakers(StakersResponse),
    StakerDetail(StakerDetailResponse),
    AssetDetail(AssetDetailResponse),
}

} // verus!
