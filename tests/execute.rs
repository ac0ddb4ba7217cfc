use nft_staking::contract::{handle_execute, instantiate};
use nft_staking::execute::{claim_asset, claim_reward, receive_cw721, unstake};
use nft_staking::msg::{ExecuteMsg, InstantiateMsg, Transfer};
use nft_staking::query::{query_asset_detail, query_config, query_staker_detail};
use nft_staking::state::Registry;
use nft_staking::ContractError;

const STAKER: &str = "STAKER";
const MOCK_CONTRACT_ADDR: &str = "cosmos2contract";
/// Block time of the usual mock environment, in milliseconds.
const START: u64 = 1_571_797_419_879;

fn inst() -> Registry {
    let rewards_per_token = vec![(MOCK_CONTRACT_ADDR.to_string(), 1u128)];
    let msg = InstantiateMsg {
        denom: "earth".to_string(),
        rewards_per_token,
        unbonding_period: Some(100u64),
        payout_window: None,
    };
    instantiate(msg).unwrap()
}

fn stake(registry: &mut Registry, staker: &str, token_id: &str, now: u64) {
    receive_cw721(
        registry,
        MOCK_CONTRACT_ADDR.to_string(),
        staker.to_string(),
        token_id.to_string(),
        now,
    )
    .unwrap();
}

#[test]
fn test_stake() {
    let token_id = "1".to_string();
    let mut registry = inst();
    let now = START;

    let res = receive_cw721(
        &mut registry,
        MOCK_CONTRACT_ADDR.to_string(),
        STAKER.to_string(),
        token_id.clone(),
        now,
    );
    assert!(res.is_ok());

    let res = query_staker_detail(&registry, STAKER.to_string(), now).unwrap();
    assert_eq!(res.pending_rewards, 0);
    assert_eq!(
        res.assets,
        vec![(MOCK_CONTRACT_ADDR.to_string(), token_id.clone())]
    );

    let config = query_config(&registry);
    let res = query_asset_detail(&registry, MOCK_CONTRACT_ADDR.to_string(), token_id.clone(), now)
        .unwrap();
    assert_eq!(res.asset_detail.pending_rewards, 0u128);
    assert_eq!(res.asset_detail.unbonding_period, config.unbonding_period);
    assert_eq!(res.asset_detail.unstaked_at, None);
    assert_eq!(res.asset_detail.updated_at, now);
}

#[test]
fn test_stake_invalid_token() {
    let mut registry = inst();
    let err = receive_cw721(
        &mut registry,
        "INVALID_CONTRACT".to_string(),
        STAKER.to_string(),
        "1".to_string(),
        START,
    )
    .unwrap_err();
    assert_eq!(err, ContractError::InvalidToken {});
}

#[test]
fn test_claim_reward() {
    let mut registry = inst();
    let config = query_config(&registry);
    let token_id = "1".to_string();
    stake(&mut registry, STAKER, &token_id, START);

    let window_cnt = 100_000u64 / config.payout_window;
    let updated_at = START + window_cnt * config.payout_window;
    let now = START + 100_000;

    let res = handle_execute(
        &mut registry,
        STAKER.to_string(),
        false,
        ExecuteMsg::ClaimReward {
            nft_address: MOCK_CONTRACT_ADDR.to_string(),
            token_id: token_id.clone(),
        },
        now,
    )
    .unwrap();
    assert_eq!(
        res,
        vec![Transfer::Coins {
            recipient: STAKER.to_string(),
            amount: window_cnt as u128 * 1u128,
            denom: "earth".to_string(),
        }]
    );

    let res = query_asset_detail(&registry, MOCK_CONTRACT_ADDR.to_string(), token_id, now).unwrap();
    assert_eq!(res.asset_detail.pending_rewards, 0);
    assert_eq!(res.asset_detail.updated_at, updated_at);
}

#[test]
fn test_claim_reward_unauthorized() {
    let mut registry = inst();
    stake(&mut registry, STAKER, "1", START);
    stake(&mut registry, "other", "2", START);

    let err = claim_reward(
        &mut registry,
        &STAKER.to_string(),
        MOCK_CONTRACT_ADDR.to_string(),
        "2".to_string(),
        START,
    )
    .unwrap_err();
    assert_eq!(err, ContractError::Unauthorized {});
}

#[test]
fn test_claim_reward_zero_reward() {
    let mut registry = inst();
    stake(&mut registry, STAKER, "1", START);

    let err = claim_reward(
        &mut registry,
        &STAKER.to_string(),
        MOCK_CONTRACT_ADDR.to_string(),
        "1".to_string(),
        START,
    )
    .unwrap_err();
    assert_eq!(err, ContractError::ZeroReward {});
}

#[test]
fn test_unstake() {
    let mut registry = inst();
    let config = query_config(&registry);
    let token_id = "1".to_string();
    stake(&mut registry, STAKER, &token_id, START);

    let window_cnt = 100_000u64 / config.payout_window;
    let updated_at = START + window_cnt * config.payout_window;
    let now = START + 100_000;

    let res = unstake(
        &mut registry,
        &STAKER.to_string(),
        MOCK_CONTRACT_ADDR.to_string(),
        token_id.clone(),
        now,
    );
    assert!(res.is_ok());

    let res = query_asset_detail(&registry, MOCK_CONTRACT_ADDR.to_string(), token_id, now).unwrap();
    assert_eq!(res.asset_detail.pending_rewards, window_cnt as u128 * 1u128);
    assert_eq!(res.asset_detail.updated_at, updated_at);
    assert_eq!(res.asset_detail.unstaked_at.unwrap(), updated_at);
}

#[test]
fn test_unstake_unauthorized() {
    let mut registry = inst();
    stake(&mut registry, STAKER, "1", START);
    stake(&mut registry, "other", "2", START);

    let err = unstake(
        &mut registry,
        &STAKER.to_string(),
        MOCK_CONTRACT_ADDR.to_string(),
        "2".to_string(),
        START,
    )
    .unwrap_err();
    assert_eq!(err, ContractError::Unauthorized {});
}

#[test]
fn test_unstake_unstaked_token() {
    let mut registry = inst();
    stake(&mut registry, STAKER, "1", START);
    let sender = STAKER.to_string();

    let now = START + 100_000;
    unstake(&mut registry, &sender, MOCK_CONTRACT_ADDR.to_string(), "1".to_string(), now).unwrap();

    let now = now + 100_000;
    let err = unstake(&mut registry, &sender, MOCK_CONTRACT_ADDR.to_string(), "1".to_string(), now)
        .unwrap_err();
    assert_eq!(err, ContractError::AssetAlreadyUnstaked {})
}

#[test]
fn test_claim_asset() {
    let mut registry = inst();
    stake(&mut registry, STAKER, "1", START);
    let sender = STAKER.to_string();

    let now = START + 100_000;
    unstake(&mut registry, &sender, MOCK_CONTRACT_ADDR.to_string(), "1".to_string(), now).unwrap();

    let config = query_config(&registry);
    let now = now + (config.unbonding_period / 1000 + 1) * 1000;
    let res = claim_asset(&mut registry, &sender, MOCK_CONTRACT_ADDR.to_string(), "1".to_string(), now);
    assert!(res.is_ok());
}

#[test]
fn test_claim_asset_not_unstaked() {
    let mut registry = inst();
    stake(&mut registry, STAKER, "1", START);

    let err = claim_asset(
        &mut registry,
        &STAKER.to_string(),
        MOCK_CONTRACT_ADDR.to_string(),
        "1".to_string(),
        START,
    )
    .unwrap_err();
    assert_eq!(err, ContractError::AssetNotUnkstaked {});
}

#[test]
fn test_claim_unbonding_asset() {
    let mut registry = inst();
    stake(&mut registry, STAKER, "1", START);
    let sender = STAKER.to_string();

    let now = START + 100_000;
    unstake(&mut registry, &sender, MOCK_CONTRACT_ADDR.to_string(), "1".to_string(), now).unwrap();

    let config = query_config(&registry);
    let now = now + (config.unbonding_period / 1000 - 1) * 1000;
    let err = claim_asset(&mut registry, &sender, MOCK_CONTRACT_ADDR.to_string(), "1".to_string(), now)
        .unwrap_err();
    assert_eq!(err, ContractError::AssetOnUnbondingPeriod {});
}

#[test]
fn test_claim_asset_unauthorized() {
    let mut registry = inst();
    stake(&mut registry, STAKER, "1", START);
    stake(&mut registry, "other", "2", START);

    let now = START + 100_000;
    unstake(
        &mut registry,
        &STAKER.to_string(),
        MOCK_CONTRACT_ADDR.to_string(),
        "1".to_string(),
        now,
    )
    .unwrap();

    let config = query_config(&registry);
    let now = now + (config.unbonding_period / 1000 + 1) * 1000;
    let err = claim_asset(
        &mut registry,
        &"other".to_string(),
        MOCK_CONTRACT_ADDR.to_string(),
        "1".to_string(),
        now,
    )
    .unwrap_err();
    assert_eq!(err, ContractError::Unauthorized {});
}
