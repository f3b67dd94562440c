use zerosum::fixed::{percent, RATIO_ONE};
use zerosum::house::{
    execute_add_game, execute_add_round, execute_claim, execute_collect, execute_create_pool,
    execute_deposit, execute_remove_game, execute_settle, execute_update, execute_withdraw,
    instantiate, query_claimable, query_deposit_info, query_pool, query_round_info, HouseState,
};
use zerosum::ContractError;

const GOV: &str = "gov";
const TOKEN: &str = "token";
const DISTRIBUTOR: &str = "distributor";
const COLLECTOR: &str = "collector";

fn mock_house() -> HouseState {
    let mut s = instantiate(
        GOV.to_string(),
        TOKEN.to_string(),
        "terraswap".to_string(),
        COLLECTOR.to_string(),
        "referral".to_string(),
        DISTRIBUTOR.to_string(),
        "reward".to_string(),
        percent(1),
    );
    execute_create_pool(
        &mut s,
        &GOV.to_string(),
        "betting".to_string(),
        "BET".to_string(),
        None,
        None,
    )
    .unwrap();
    s
}

fn settle_round(s: &mut HouseState, key: &str, round: u64, amount: u128) {
    execute_add_round(
        s,
        &TOKEN.to_string(),
        &key.to_string(),
        round,
        &DISTRIBUTOR.to_string(),
        amount,
    )
    .unwrap();
}

#[test]
fn end_to_end_scenario() {
    // start_height 4, period 10: three stakers deposit 100 each before
    // round 0, the pool is settled at round 10 with 300 (ratio one),
    // and a claim at round 12 pays 100 and parks the cursor at 11
    let mut s = mock_house();
    for staker in ["a", "b", "c"] {
        execute_deposit(&mut s, &staker.to_string(), &"betting".to_string(), 100, 3).unwrap();
    }
    assert_eq!(query_pool(&s, &"betting".to_string()).unwrap().1, 300);

    settle_round(&mut s, "betting", 10, 300);
    let info = query_round_info(&s, &"betting".to_string(), 10).unwrap();
    assert_eq!(info.reward_ratio, RATIO_ONE);

    // round 12 begins at height 124
    let d = query_deposit_info(&s, &"a".to_string(), &"betting".to_string()).unwrap();
    assert_eq!(d.amount, 100);
    assert_eq!(d.last_claim_round, None);
    assert_eq!(query_claimable(&s, &"a".to_string(), &"betting".to_string(), 124), 100);

    let msgs = execute_claim(&mut s, &"a".to_string(), &"betting".to_string(), 124).unwrap();
    assert_eq!(msgs.len(), 1);
    assert_eq!(msgs[0].recipient, "a");
    assert_eq!(msgs[0].amount, 100);

    let d = query_deposit_info(&s, &"a".to_string(), &"betting".to_string()).unwrap();
    assert_eq!(d.last_claim_round, Some(11));

    // nothing more to settle at the same height
    assert_eq!(query_claimable(&s, &"a".to_string(), &"betting".to_string(), 124), 0);
    let msgs = execute_claim(&mut s, &"a".to_string(), &"betting".to_string(), 124).unwrap();
    assert!(msgs.is_empty());
}

#[test]
fn round_conservation() {
    // stakes 3 and 5, settled with 7: the stored ratio is 7/8 and the
    // truncated payouts 2 and 4 stay below the settled amount
    let mut s = mock_house();
    execute_deposit(&mut s, &"a".to_string(), &"betting".to_string(), 3, 3).unwrap();
    execute_deposit(&mut s, &"b".to_string(), &"betting".to_string(), 5, 3).unwrap();
    settle_round(&mut s, "betting", 10, 7);

    let info = query_round_info(&s, &"betting".to_string(), 10).unwrap();
    assert_eq!(info.reward_ratio, 7 * RATIO_ONE / 8);

    let pay_a = query_claimable(&s, &"a".to_string(), &"betting".to_string(), 124);
    let pay_b = query_claimable(&s, &"b".to_string(), &"betting".to_string(), 124);
    assert_eq!(pay_a, 2);
    assert_eq!(pay_b, 4);
    assert!(pay_a + pay_b <= 7);
}

#[test]
fn replay_rejection() {
    // settling the same round twice fails and the stored ratio stays
    let mut s = mock_house();
    execute_deposit(&mut s, &"a".to_string(), &"betting".to_string(), 100, 3).unwrap();
    settle_round(&mut s, "betting", 10, 300);
    let res = execute_add_round(
        &mut s,
        &TOKEN.to_string(),
        &"betting".to_string(),
        10,
        &DISTRIBUTOR.to_string(),
        999,
    );
    assert_eq!(res, Err(ContractError::AlreadyExist));
    let info = query_round_info(&s, &"betting".to_string(), 10).unwrap();
    assert_eq!(info.reward_ratio, 3 * RATIO_ONE);
}

#[test]
fn settle_with_empty_pool_goes_to_the_sink() {
    let mut s = mock_house();
    let msgs = execute_add_round(
        &mut s,
        &TOKEN.to_string(),
        &"betting".to_string(),
        10,
        &DISTRIBUTOR.to_string(),
        500,
    )
    .unwrap();
    assert_eq!(msgs.len(), 1);
    assert_eq!(msgs[0].recipient, COLLECTOR);
    assert_eq!(msgs[0].amount, 500);
    assert!(query_round_info(&s, &"betting".to_string(), 10).is_none());
}

#[test]
fn deposit_settles_before_growing() {
    // an existing account settles at its old principal before the new
    // deposit is added
    let mut s = mock_house();
    execute_deposit(&mut s, &"a".to_string(), &"betting".to_string(), 100, 3).unwrap();
    settle_round(&mut s, "betting", 10, 50);
    // ratio one half; the second deposit at round 12 settles 50 at the
    // old principal of 100
    let msgs = execute_deposit(&mut s, &"a".to_string(), &"betting".to_string(), 1000, 124)
        .unwrap();
    assert_eq!(msgs.len(), 1);
    assert_eq!(msgs[0].amount, 50);
    let d = query_deposit_info(&s, &"a".to_string(), &"betting".to_string()).unwrap();
    assert_eq!(d.amount, 1100);
    assert_eq!(d.last_claim_round, Some(11));
    assert_eq!(query_pool(&s, &"betting".to_string()).unwrap().1, 1100);
}

#[test]
fn withdraw_pays_principal_and_reward() {
    let mut s = mock_house();
    execute_deposit(&mut s, &"a".to_string(), &"betting".to_string(), 100, 3).unwrap();
    execute_deposit(&mut s, &"b".to_string(), &"betting".to_string(), 300, 3).unwrap();
    settle_round(&mut s, "betting", 10, 400);

    let (msgs, principal) =
        execute_withdraw(&mut s, &"a".to_string(), &"betting".to_string(), 124).unwrap();
    assert_eq!(principal, 100);
    assert_eq!(msgs.len(), 1);
    assert_eq!(msgs[0].amount, 100);

    // the account is gone and the pool shrank
    assert!(query_deposit_info(&s, &"a".to_string(), &"betting".to_string()).is_none());
    assert_eq!(query_pool(&s, &"betting".to_string()).unwrap().1, 300);

    let res = execute_withdraw(&mut s, &"a".to_string(), &"betting".to_string(), 124);
    assert_eq!(res.err(), Some(ContractError::NotExist));
}

#[test]
fn deposit_into_missing_pool_is_an_error() {
    let mut s = mock_house();
    let res = execute_deposit(&mut s, &"a".to_string(), &"missing".to_string(), 100, 3);
    assert_eq!(res.err(), Some(ContractError::NotExist));
}

#[test]
fn claim_before_rounds_start_is_rejected() {
    let mut s = mock_house();
    execute_deposit(&mut s, &"a".to_string(), &"betting".to_string(), 100, 3).unwrap();
    let res = execute_claim(&mut s, &"a".to_string(), &"betting".to_string(), 3);
    assert_eq!(res.err(), Some(ContractError::RoundNotActive));
}

#[test]
fn game_settlement_caps_the_payout() {
    let mut s = mock_house();
    execute_add_game(
        &mut s,
        &GOV.to_string(),
        "dice".to_string(),
        "a dice game".to_string(),
        "https".to_string(),
        "game1".to_string(),
        "creator".to_string(),
    )
    .unwrap();

    // max output rate one percent of a pool balance of 10000 caps the
    // payout at 100
    let (msgs, share) = execute_settle(
        &s,
        &"game1".to_string(),
        &"player".to_string(),
        40,
        250,
        &"betting".to_string(),
        10000,
        124,
    )
    .unwrap();
    assert_eq!(msgs.len(), 1);
    assert_eq!(msgs[0].recipient, "player");
    assert_eq!(msgs[0].amount, 100);
    assert_eq!(share, Some(("player".to_string(), 40)));

    // a payout below the cap goes through unchanged
    let (msgs, _) = execute_settle(
        &s,
        &"game1".to_string(),
        &"player".to_string(),
        40,
        70,
        &"betting".to_string(),
        10000,
        124,
    )
    .unwrap();
    assert_eq!(msgs[0].amount, 70);

    // an unregistered game may not settle
    let res = execute_settle(
        &s,
        &"rogue".to_string(),
        &"player".to_string(),
        40,
        70,
        &"betting".to_string(),
        10000,
        124,
    );
    assert_eq!(res.err(), Some(ContractError::Unauthorized));

    // before round 0 no share is reported
    let (_, share) = execute_settle(
        &s,
        &"game1".to_string(),
        &"player".to_string(),
        40,
        0,
        &"betting".to_string(),
        10000,
        3,
    )
    .unwrap();
    assert_eq!(share, None);

    execute_remove_game(&mut s, &GOV.to_string(), &"game1".to_string()).unwrap();
    let res = execute_settle(
        &s,
        &"game1".to_string(),
        &"player".to_string(),
        40,
        70,
        &"betting".to_string(),
        10000,
        124,
    );
    assert_eq!(res.err(), Some(ContractError::Unauthorized));
}

#[test]
fn collect_sweeps_large_surpluses() {
    let mut s = mock_house();
    execute_deposit(&mut s, &"a".to_string(), &"betting".to_string(), 500, 3).unwrap();
    // surplus of 2_000_000 over the stake: swept; small surplus: kept
    let balances = vec![("betting".to_string(), 2_000_500u128)];
    let msgs = execute_collect(&s, &balances);
    assert_eq!(msgs.len(), 1);
    assert_eq!(msgs[0].recipient, COLLECTOR);
    assert_eq!(msgs[0].amount, 2_000_000);

    let balances = vec![("betting".to_string(), 500u128 + 999_999)];
    assert!(execute_collect(&s, &balances).is_empty());
}

#[test]
fn update_house_config() {
    let mut s = mock_house();
    let res = execute_update(
        &mut s,
        &"anyone".to_string(),
        None,
        None,
        None,
        None,
        None,
        None,
        None,
        Some(percent(2)),
    );
    assert_eq!(res, Err(ContractError::Unauthorized));
    execute_update(
        &mut s,
        &GOV.to_string(),
        None,
        None,
        None,
        None,
        None,
        None,
        None,
        Some(percent(2)),
    )
    .unwrap();
    assert_eq!(s.state.max_output_rate, percent(2));
}
