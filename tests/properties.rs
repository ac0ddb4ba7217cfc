use nft_staking::accrual::accrue;
use nft_staking::contract::{handle_execute, instantiate};
use nft_staking::execute::{asset_id, claim_asset, claim_reward, receive_cw721, unstake, update_config};
use nft_staking::msg::{ExecuteMsg, InstantiateMsg, Transfer};
use nft_staking::query::{query_asset_detail, query_rewards_per_token, query_staker_detail, query_stakers};
use nft_staking::state::{calculate_pending_rewards, get_asset_detail, get_staker_detail, AssetDetail, Registry};
use nft_staking::ContractError;

const NFT: &str = "nft";
const ALICE: &str = "alice";
const BOB: &str = "bob";

/// rate 10 per 10 s window, 10 s unbonding.
fn registry() -> Registry {
    instantiate(InstantiateMsg {
        denom: "uandr".to_string(),
        rewards_per_token: vec![(NFT.to_string(), 10u128), ("other_nft".to_string(), 3u128)],
        unbonding_period: Some(10),
        payout_window: Some(10),
    })
    .unwrap()
}

fn deposit(r: &mut Registry, staker: &str, token: &str, now: u64) -> Result<(), ContractError> {
    receive_cw721(r, NFT.to_string(), staker.to_string(), token.to_string(), now)
}

fn pending(r: &Registry, token: &str, now: u64) -> u128 {
    get_asset_detail(r, NFT.to_string(), token.to_string(), now)
        .unwrap()
        .pending_rewards
}

#[test]
fn accrue_counts_whole_windows_only() {
    assert_eq!(accrue(0, 9_999, 10_000, 10, 0), Ok((0, 0)));
    assert_eq!(accrue(0, 10_000, 10_000, 10, 0), Ok((10, 10_000)));
    assert_eq!(accrue(5, 35_004, 10_000, 7, 1), Ok((22, 30_005)));
}

#[test]
fn accrue_is_exact_over_a_sequence_of_calls() {
    let (b1, c1) = accrue(0, 7_000, 10_000, 10, 0).unwrap();
    let (b2, c2) = accrue(c1, 15_000, 10_000, 10, b1).unwrap();
    let (b3, c3) = accrue(c2, 15_000, 10_000, 10, b2).unwrap();
    let (b4, c4) = accrue(c3, 29_999, 10_000, 10, b3).unwrap();
    assert_eq!((b4, c4), (20, 20_000));
    let (b, c) = accrue(0, 29_999, 10_000, 10, 0).unwrap();
    assert_eq!((b, c), (b4, c4));
}

#[test]
fn accrue_reports_overflow() {
    assert_eq!(accrue(0, 20_000, 10_000, u128::MAX, 0), Err(ContractError::Overflow {}));
    assert_eq!(accrue(0, 10_000, 10_000, 1, u128::MAX), Err(ContractError::Overflow {}));
    assert_eq!(accrue(0, 10_000, 10_000, u128::MAX, 0), Ok((u128::MAX, 10_000)));
}

#[test]
fn repeated_reads_are_identical_and_move_nothing() {
    let mut r = registry();
    deposit(&mut r, ALICE, "1", 1_000).unwrap();
    let first = get_asset_detail(&r, NFT.to_string(), "1".to_string(), 26_000).unwrap();
    let second = get_asset_detail(&r, NFT.to_string(), "1".to_string(), 26_000).unwrap();
    assert_eq!(first, second);
    assert_eq!(first.pending_rewards, 20);
    assert_eq!(first.updated_at, 1_000);
    // a claim after the reads still sees the full balance and keeps the remainder
    let paid = claim_reward(&mut r, &ALICE.to_string(), NFT.to_string(), "1".to_string(), 26_000).unwrap();
    assert_eq!(paid, 20);
    let after = get_asset_detail(&r, NFT.to_string(), "1".to_string(), 26_000).unwrap();
    assert_eq!(after.updated_at, 21_000);
    assert_eq!(pending(&r, "1", 31_000), 10);
}

#[test]
fn balance_is_frozen_after_unstake() {
    let mut r = registry();
    deposit(&mut r, ALICE, "1", 0).unwrap();
    let at_request = pending(&r, "1", 25_000);
    unstake(&mut r, &ALICE.to_string(), NFT.to_string(), "1".to_string(), 25_000).unwrap();
    assert_eq!(at_request, 20);
    assert_eq!(pending(&r, "1", 25_000), 20);
    assert_eq!(pending(&r, "1", 100_000), 20);
    assert_eq!(pending(&r, "1", u64::MAX), 20);
    let err = claim_reward(&mut r, &ALICE.to_string(), NFT.to_string(), "1".to_string(), 100_000);
    assert_eq!(err, Err(ContractError::AssetAlreadyUnstaked {}));
}

#[test]
fn finalize_respects_unbonding_boundary() {
    let mut r = registry();
    deposit(&mut r, ALICE, "1", 0).unwrap();
    unstake(&mut r, &ALICE.to_string(), NFT.to_string(), "1".to_string(), 5_000).unwrap();
    let alice = ALICE.to_string();
    let early = claim_asset(&mut r, &alice, NFT.to_string(), "1".to_string(), 14_999);
    assert_eq!(early, Err(ContractError::AssetOnUnbondingPeriod {}));
    let on_time = claim_asset(&mut r, &alice, NFT.to_string(), "1".to_string(), 15_000);
    assert_eq!(on_time, Ok(0));
}

#[test]
fn finalized_asset_is_gone() {
    let mut r = registry();
    deposit(&mut r, ALICE, "1", 0).unwrap();
    let alice = ALICE.to_string();
    unstake(&mut r, &alice, NFT.to_string(), "1".to_string(), 10_000).unwrap();
    assert_eq!(claim_asset(&mut r, &alice, NFT.to_string(), "1".to_string(), 20_000), Ok(10));
    let gone = Err(ContractError::AssetNotFound {});
    assert_eq!(claim_asset(&mut r, &alice, NFT.to_string(), "1".to_string(), 30_000), gone);
    assert_eq!(claim_reward(&mut r, &alice, NFT.to_string(), "1".to_string(), 30_000), gone);
    assert_eq!(unstake(&mut r, &alice, NFT.to_string(), "1".to_string(), 30_000), Err(ContractError::AssetNotFound {}));
    assert_eq!(
        query_asset_detail(&r, NFT.to_string(), "1".to_string(), 30_000).map(|d| d.asset_detail),
        Err(ContractError::AssetNotFound {})
    );
    assert!(get_staker_detail(&r, &alice).assets.is_empty());
    // the asset may be staked again afterwards
    assert_eq!(deposit(&mut r, BOB, "1", 30_000), Ok(()));
}

#[test]
fn scenario_deposit_unstake_finalize() {
    let mut r = registry();
    deposit(&mut r, ALICE, "1", 0).unwrap();
    assert_eq!(pending(&r, "1", 10_000), 10);
    let alice = ALICE.to_string();
    unstake(&mut r, &alice, NFT.to_string(), "1".to_string(), 10_000).unwrap();
    let d = get_asset_detail(&r, NFT.to_string(), "1".to_string(), 10_000).unwrap();
    assert_eq!(d.pending_rewards, 10);
    assert_eq!(d.unstaked_at, Some(10_000));
    let msg = |now: u64, r: &mut Registry| {
        handle_execute(
            r,
            ALICE.to_string(),
            false,
            ExecuteMsg::ClaimAsset { nft_address: NFT.to_string(), token_id: "1".to_string() },
            now,
        )
    };
    assert_eq!(msg(19_000, &mut r), Err(ContractError::AssetOnUnbondingPeriod {}));
    let transfers = msg(20_000, &mut r).unwrap();
    assert_eq!(
        transfers,
        vec![
            Transfer::Nft {
                contract: NFT.to_string(),
                recipient: ALICE.to_string(),
                token_id: "1".to_string(),
            },
            Transfer::Coins { recipient: ALICE.to_string(), amount: 10, denom: "uandr".to_string() },
        ]
    );
    assert_eq!(
        get_asset_detail(&r, NFT.to_string(), "1".to_string(), 20_000),
        Err(ContractError::AssetNotFound {})
    );
}

#[test]
fn scenario_double_claim() {
    let mut r = registry();
    deposit(&mut r, ALICE, "1", 0).unwrap();
    let alice = ALICE.to_string();
    assert_eq!(claim_reward(&mut r, &alice, NFT.to_string(), "1".to_string(), 35_000), Ok(30));
    assert_eq!(pending(&r, "1", 35_000), 0);
    assert_eq!(
        claim_reward(&mut r, &alice, NFT.to_string(), "1".to_string(), 35_000),
        Err(ContractError::ZeroReward {})
    );
}

#[test]
fn deposit_errors() {
    let mut r = registry();
    deposit(&mut r, ALICE, "1", 0).unwrap();
    assert_eq!(deposit(&mut r, BOB, "1", 5), Err(ContractError::DuplicatedAsset {}));
    let unknown = receive_cw721(&mut r, "nope".to_string(), BOB.to_string(), "1".to_string(), 5);
    assert_eq!(unknown, Err(ContractError::InvalidToken {}));
}

#[test]
fn time_before_checkpoint_is_refused() {
    let mut r = registry();
    deposit(&mut r, ALICE, "1", 50_000).unwrap();
    assert_eq!(
        get_asset_detail(&r, NFT.to_string(), "1".to_string(), 40_000),
        Err(ContractError::InvalidTime {})
    );
    assert_eq!(
        unstake(&mut r, &ALICE.to_string(), NFT.to_string(), "1".to_string(), 40_000),
        Err(ContractError::InvalidTime {})
    );
}

#[test]
fn staker_detail_sums_live_and_frozen_rewards() {
    let mut r = registry();
    deposit(&mut r, ALICE, "1", 0).unwrap();
    deposit(&mut r, BOB, "2", 0).unwrap();
    receive_cw721(&mut r, "other_nft".to_string(), ALICE.to_string(), "9".to_string(), 0).unwrap();
    unstake(&mut r, &ALICE.to_string(), NFT.to_string(), "1".to_string(), 10_000).unwrap();
    let d = query_staker_detail(&r, ALICE.to_string(), 40_000).unwrap();
    assert_eq!(d.pending_rewards, 10 + 4 * 3);
    assert_eq!(
        d.assets,
        vec![
            (NFT.to_string(), "1".to_string()),
            ("other_nft".to_string(), "9".to_string())
        ]
    );
    let nobody = query_staker_detail(&r, "carol".to_string(), 40_000).unwrap();
    assert!(nobody.assets.is_empty());
    assert_eq!(nobody.pending_rewards, 0);
    assert_eq!(query_stakers(&r).stakers, vec![ALICE.to_string(), BOB.to_string()]);
}

#[test]
fn config_update_applies_to_new_deposits_only() {
    let mut r = registry();
    deposit(&mut r, ALICE, "1", 0).unwrap();
    assert_eq!(update_config(&mut r, 10), Err(ContractError::DuplicatedConfig {}));
    assert_eq!(update_config(&mut r, 9), Err(ContractError::InvalidUnbondingPeriod { min: 10 }));
    assert_eq!(update_config(&mut r, 30), Ok(()));
    deposit(&mut r, BOB, "2", 0).unwrap();
    assert_eq!(pending_period(&r, "1"), 10_000);
    assert_eq!(pending_period(&r, "2"), 30_000);
    let not_owner = handle_execute(
        &mut r,
        ALICE.to_string(),
        false,
        ExecuteMsg::UpdateConfig { unbonding_period: 50 },
        0,
    );
    assert_eq!(not_owner, Err(ContractError::Unauthorized {}));
}

fn pending_period(r: &Registry, token: &str) -> u64 {
    get_asset_detail(r, NFT.to_string(), token.to_string(), 0)
        .unwrap()
        .unbonding_period
}

#[test]
fn asset_id_pairs_class_and_token() {
    assert_eq!(asset_id("a".to_string(), "7".to_string()), ("a".to_string(), "7".to_string()));
}

#[test]
fn stakers_are_listed_in_ascending_order() {
    let mut r = registry();
    deposit(&mut r, "b", "1", 0).unwrap();
    deposit(&mut r, "a", "2", 0).unwrap();
    deposit(&mut r, "c", "3", 0).unwrap();
    deposit(&mut r, "b", "4", 0).unwrap();
    assert_eq!(
        query_stakers(&r).stakers,
        vec!["a".to_string(), "b".to_string(), "c".to_string()]
    );
}

#[test]
fn reward_table_is_listed_in_ascending_order() {
    let r = instantiate(InstantiateMsg {
        denom: "uandr".to_string(),
        rewards_per_token: vec![
            ("b".to_string(), 1u128),
            ("a".to_string(), 1u128),
            ("ab".to_string(), 2u128),
            ("B".to_string(), 3u128),
        ],
        unbonding_period: None,
        payout_window: None,
    })
    .unwrap();
    assert_eq!(
        query_rewards_per_token(&r).rewards_per_token,
        vec![
            ("B".to_string(), 3u128),
            ("a".to_string(), 1u128),
            ("ab".to_string(), 2u128),
            ("b".to_string(), 1u128),
        ]
    );
}

#[test]
fn many_claims_pay_exactly_the_whole_windows() {
    let mut r = registry();
    deposit(&mut r, ALICE, "1", 3_000).unwrap();
    let alice = ALICE.to_string();
    let mut paid = 0u128;
    for now in [9_000u64, 14_000, 14_000, 27_500, 33_000, 33_001] {
        if let Ok(p) = claim_reward(&mut r, &alice, NFT.to_string(), "1".to_string(), now) {
            paid += p;
        }
    }
    // from 3 s to 58 s: five whole windows of 10 s at rate 10
    assert_eq!(paid + pending(&r, "1", 58_000), 50);
    unstake(&mut r, &alice, NFT.to_string(), "1".to_string(), 58_000).unwrap();
    assert_eq!(paid + pending(&r, "1", 90_000), 50);
}

#[test]
fn split_claim_matches_single_claim() {
    let mut split = registry();
    let mut single = registry();
    deposit(&mut split, ALICE, "1", 0).unwrap();
    deposit(&mut single, ALICE, "1", 0).unwrap();
    let alice = ALICE.to_string();
    let c1 = claim_reward(&mut split, &alice, NFT.to_string(), "1".to_string(), 15_000).unwrap();
    let c2 = claim_reward(&mut split, &alice, NFT.to_string(), "1".to_string(), 42_000).unwrap();
    let all = claim_reward(&mut single, &alice, NFT.to_string(), "1".to_string(), 42_000).unwrap();
    assert_eq!(c1 + c2, all);
    assert_eq!(all, 40);
    assert_eq!(
        get_asset_detail(&split, NFT.to_string(), "1".to_string(), 42_000),
        get_asset_detail(&single, NFT.to_string(), "1".to_string(), 42_000)
    );
}

#[test]
fn withdrawal_removes_only_that_asset_from_the_index() {
    let mut r = registry();
    deposit(&mut r, ALICE, "1", 0).unwrap();
    deposit(&mut r, BOB, "2", 0).unwrap();
    deposit(&mut r, ALICE, "3", 0).unwrap();
    deposit(&mut r, ALICE, "4", 0).unwrap();
    let alice = ALICE.to_string();
    unstake(&mut r, &alice, NFT.to_string(), "3".to_string(), 0).unwrap();
    claim_asset(&mut r, &alice, NFT.to_string(), "3".to_string(), 10_000).unwrap();
    assert_eq!(
        get_staker_detail(&r, &alice).assets,
        vec![(NFT.to_string(), "1".to_string()), (NFT.to_string(), "4".to_string())]
    );
    assert_eq!(
        get_staker_detail(&r, &BOB.to_string()).assets,
        vec![(NFT.to_string(), "2".to_string())]
    );
}

#[test]
fn frozen_balance_needs_no_rate() {
    let r = registry();
    let mut asset = AssetDetail {
        nft_address: "unlisted".to_string(),
        token_id: "1".to_string(),
        unbonding_period: 10_000,
        pending_rewards: 12,
        updated_at: 0,
        unstaked_at: Some(5_000),
    };
    assert_eq!(calculate_pending_rewards(&r, &asset, 1_000_000), Ok(12));
    asset.unstaked_at = None;
    assert_eq!(
        calculate_pending_rewards(&r, &asset, 1_000_000),
        Err(ContractError::InvalidToken {})
    );
}
