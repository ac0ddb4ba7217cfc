use nft_staking::state::{AssetDetail, Config, Registry, StakedAsset};

fn config() -> Config {
    Config {
        denom: "uandr".to_string(),
        unbonding_period: 10_000,
        payout_window: 10_000,
    }
}

fn staked(staker: &str, nft: &str, token: &str) -> StakedAsset {
    StakedAsset {
        staker: staker.to_string(),
        detail: AssetDetail {
            nft_address: nft.to_string(),
            token_id: token.to_string(),
            unbonding_period: 10_000,
            pending_rewards: 7,
            updated_at: 3_000,
            unstaked_at: Some(4_000),
        },
    }
}

fn table() -> Vec<(String, u128)> {
    vec![("nft".to_string(), 5u128)]
}

#[test]
fn restore_rebuilds_parts() {
    let registry = Registry::restore(config(), table(), vec![staked("a", "nft", "1"), staked("b", "nft", "2")])
        .unwrap();
    assert_eq!(registry.len(), 2);
    assert_eq!(registry.staker_at(1), "b");
    assert_eq!(registry.asset_at(0).token_id, "1");
    assert_eq!(registry.asset_at(0).pending_rewards, 7);
    assert_eq!(registry.asset_at(0).unstaked_at, Some(4_000));
    assert_eq!(registry.config().payout_window, 10_000);
    assert_eq!(registry.rewards_per_token(), &table());
}

#[test]
fn restore_refuses_inconsistent_parts() {
    let dup = vec![staked("a", "nft", "1"), staked("b", "nft", "1")];
    assert!(Registry::restore(config(), table(), dup).is_none());
    let unknown_class = vec![staked("a", "other", "1")];
    assert!(Registry::restore(config(), table(), unknown_class).is_none());
    let mut short = config();
    short.payout_window = 9_999;
    assert!(Registry::restore(short, table(), vec![]).is_none());
    assert!(Registry::restore(config(), vec![], vec![]).is_none());
    let zero = vec![("nft".to_string(), 0u128)];
    assert!(Registry::restore(config(), zero, vec![]).is_none());
}
