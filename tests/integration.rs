use nft_staking::contract::{handle_execute, instantiate, query};
use nft_staking::msg::{ExecuteMsg, InstantiateMsg, QueryMsg, QueryResponse, Transfer};

const CW721_ADDR: &str = "andr1cw721";
const MOCK_USER: &str = "andr1user";
const START: u64 = 1_571_797_419_879;

fn asset_query() -> QueryMsg {
    QueryMsg::AssetDetail {
        nft_address: CW721_ADDR.to_string(),
        token_id: "1".to_string(),
    }
}

fn staker_query() -> QueryMsg {
    QueryMsg::StakerDetail {
        staker: MOCK_USER.to_string(),
    }
}

#[test]
fn test_nft_staking() {
    let msg = InstantiateMsg {
        denom: "uandr".to_string(),
        rewards_per_token: vec![(CW721_ADDR.to_string(), 10u128)],
        unbonding_period: Some(10u64),
        payout_window: Some(10u64),
    };
    let mut registry = instantiate(msg).unwrap();
    let mut now = START;

    // Stake token 1
    let transfers = handle_execute(
        &mut registry,
        CW721_ADDR.to_string(),
        false,
        ExecuteMsg::ReceiveNft {
            sender: MOCK_USER.to_string(),
            token_id: "1".to_string(),
        },
        now,
    )
    .unwrap();
    assert!(transfers.is_empty());

    // Check asset detail
    match query(&registry, asset_query(), now).unwrap() {
        QueryResponse::AssetDetail(res) => {
            assert_eq!(res.asset_detail.nft_address, CW721_ADDR.to_string());
            assert_eq!(res.asset_detail.token_id, "1".to_string());
            assert_eq!(res.asset_detail.unbonding_period, 10_000u64);
            assert_eq!(res.asset_detail.updated_at, now);
        }
        other => panic!("unexpected answer {:?}", other),
    }

    // Wait for 10 seconds
    now += 10_000;
    match query(&registry, asset_query(), now).unwrap() {
        QueryResponse::AssetDetail(res) => assert_eq!(res.asset_detail.pending_rewards, 10),
        other => panic!("unexpected answer {:?}", other),
    }
    match query(&registry, staker_query(), now).unwrap() {
        QueryResponse::StakerDetail(res) => assert_eq!(res.pending_rewards, 10),
        other => panic!("unexpected answer {:?}", other),
    }

    // Claim Reward
    let transfers = handle_execute(
        &mut registry,
        MOCK_USER.to_string(),
        false,
        ExecuteMsg::ClaimReward {
            nft_address: CW721_ADDR.to_string(),
            token_id: "1".to_string(),
        },
        now,
    )
    .unwrap();
    assert_eq!(
        transfers,
        vec![Transfer::Coins {
            recipient: MOCK_USER.to_string(),
            amount: 10,
            denom: "uandr".to_string(),
        }]
    );

    // Unstake
    handle_execute(
        &mut registry,
        MOCK_USER.to_string(),
        false,
        ExecuteMsg::Unstake {
            nft_address: CW721_ADDR.to_string(),
            token_id: "1".to_string(),
        },
        now,
    )
    .unwrap();

    // Wait for unbonding period
    now += 11_000;

    // pending_rewards should be zero for unstaked tokens
    match query(&registry, asset_query(), now).unwrap() {
        QueryResponse::AssetDetail(res) => {
            assert_eq!(res.asset_detail.pending_rewards, 0);
            assert!(res.asset_detail.unstaked_at.is_some());
        }
        other => panic!("unexpected answer {:?}", other),
    }

    // claim asset
    let transfers = handle_execute(
        &mut registry,
        MOCK_USER.to_string(),
        false,
        ExecuteMsg::ClaimAsset {
            nft_address: CW721_ADDR.to_string(),
            token_id: "1".to_string(),
        },
        now,
    )
    .unwrap();
    assert_eq!(
        transfers,
        vec![Transfer::Nft {
            contract: CW721_ADDR.to_string(),
            recipient: MOCK_USER.to_string(),
            token_id: "1".to_string(),
        }]
    );

    // mock_user has no staked asset now
    match query(&registry, staker_query(), now).unwrap() {
        QueryResponse::StakerDetail(res) => {
            assert!(res.assets.is_empty());
            assert_eq!(res.pending_rewards, 0);
        }
        other => panic!("unexpected answer {:?}", other),
    }
}
