use zerosum::fixed::{percent, RATIO_ONE};
use zerosum::referral::{
    execute_add_following, execute_add_round, execute_add_share, execute_claim,
    execute_claim_referral, execute_register_referral, execute_update_state, distribute,
    instantiate, query_followers, query_last_claim_round, query_referral, query_referral_reward,
    query_referrals, query_reward, query_reward_share, query_reward_shares, query_round,
    query_rounds, ReferralState, Referral,
};
use zerosum::ContractError;

const CREATOR: &str = "creator";
const ZEROSUM_TOKEN: &str = "zerosum_token";
const HOUSE: &str = "house";
const DISTRIBUTOR: &str = "distributor";
const COLLECTOR: &str = "collector";

fn mock_instantiate() -> ReferralState {
    instantiate(
        CREATOR.to_string(),
        ZEROSUM_TOKEN.to_string(),
        HOUSE.to_string(),
        DISTRIBUTOR.to_string(),
        100000,
        vec![
            percent(75),
            percent(5),
            percent(8),
            percent(5),
            percent(3),
            percent(2),
            percent(1),
        ],
        COLLECTOR.to_string(),
        "reward".to_string(),
    )
}

fn mock_register_referral(s: &mut ReferralState, address: &str) {
    execute_register_referral(
        s,
        &ZEROSUM_TOKEN.to_string(),
        None,
        Some("상위".to_string()),
        Some("상위 레퍼럴".to_string()),
        address.to_string(),
        10000000,
    )
    .unwrap();
}

fn mock_following(s: &mut ReferralState, me: &str, target: &str) {
    execute_add_following(s, &me.to_string(), &target.to_string()).unwrap();
}

fn mock_add_share(s: &mut ReferralState, height: u64, target: &str, amount: u128) {
    execute_add_share(s, &HOUSE.to_string(), &target.to_string(), amount, height).unwrap();
}

fn mock_add_round(s: &mut ReferralState, round: u64, amount: u128) {
    execute_add_round(s, &ZEROSUM_TOKEN.to_string(), round, &DISTRIBUTOR.to_string(), amount)
        .unwrap();
}

#[test]
fn tests_proper_initialization() {
    let s = mock_instantiate();
    assert_eq!(s.state.gov_contract, CREATOR);
    assert_eq!(s.state.zerosum_token, ZEROSUM_TOKEN);
    assert_eq!(s.state.house_coutract, HOUSE);
    assert_eq!(s.state.distributor_contract, "distributor");
    assert_eq!(s.state.register_referrer_fee, 100000);
    assert_eq!(
        s.state.referral_ratio,
        vec![
            percent(75),
            percent(5),
            percent(8),
            percent(5),
            percent(3),
            percent(2),
            percent(1)
        ]
    );
    assert_eq!(s.state.collector_contract, "collector");
    assert_eq!(s.state.reward_contract, "reward");
}

#[test]
fn update_state() {
    let mut s = mock_instantiate();

    execute_update_state(
        &mut s,
        &CREATOR.to_string(),
        Some("gov_new".to_string()),
        Some("zerosum_new".to_string()),
        Some("house_new".to_string()),
        Some("distributor_new".to_string()),
        Some(999999),
        Some(vec![percent(75), percent(5), percent(8)]),
        Some("collector_new".to_string()),
        None,
    )
    .unwrap();

    assert_eq!(s.state.gov_contract, "gov_new");
    assert_eq!(s.state.zerosum_token, "zerosum_new");
    assert_eq!(s.state.house_coutract, "house_new");
    assert_eq!(s.state.distributor_contract, "distributor_new");
    assert_eq!(s.state.register_referrer_fee, 999999);
    assert_eq!(s.state.referral_ratio, vec![percent(75), percent(5), percent(8)]);
    assert_eq!(s.state.collector_contract, "collector_new");
    assert_eq!(s.state.reward_contract, "reward");

    // the old governance address lost its rights
    let res = execute_update_state(
        &mut s,
        &CREATOR.to_string(),
        None,
        None,
        None,
        None,
        Some(777777),
        Some(vec![percent(60), percent(30)]),
        None,
        None,
    );
    match res {
        Ok(_) => panic!("must be unauth error"),
        Err(_) => {}
    }

    execute_update_state(
        &mut s,
        &"gov_new".to_string(),
        None,
        None,
        None,
        None,
        Some(777777),
        Some(vec![percent(60), percent(30)]),
        None,
        None,
    )
    .unwrap();

    assert_eq!(s.state.gov_contract, "gov_new");
    assert_eq!(s.state.register_referrer_fee, 777777);
    assert_eq!(s.state.referral_ratio, vec![percent(60), percent(30)]);
}

#[test]
fn register_referral() {
    let mut s = mock_instantiate();

    // the caller is not the token contract
    let res = execute_register_referral(
        &mut s,
        &CREATOR.to_string(),
        None,
        Some("상위".to_string()),
        Some("상위 레퍼럴".to_string()),
        CREATOR.to_string(),
        1000,
    );
    match res {
        Ok(_) => panic!("must be error"),
        Err(_) => {}
    }

    // the fee payment is too small
    let res = execute_register_referral(
        &mut s,
        &ZEROSUM_TOKEN.to_string(),
        None,
        Some("상위".to_string()),
        Some("상위 레퍼럴".to_string()),
        CREATOR.to_string(),
        100,
    );
    match res {
        Ok(_) => panic!("must be error"),
        Err(_) => {}
    }

    // a proper registration
    execute_register_referral(
        &mut s,
        &ZEROSUM_TOKEN.to_string(),
        None,
        Some("상위".to_string()),
        Some("상위 레퍼럴".to_string()),
        CREATOR.to_string(),
        10000000,
    )
    .unwrap();

    let referral = query_referral(&s, &CREATOR.to_string()).unwrap();
    assert_eq!(
        *referral,
        Referral { name: "상위".to_string(), description: "상위 레퍼럴".to_string() }
    );

    // registering the same address twice fails
    let res = execute_register_referral(
        &mut s,
        &ZEROSUM_TOKEN.to_string(),
        None,
        None,
        None,
        CREATOR.to_string(),
        10000000,
    );
    assert_eq!(res, Err(ContractError::AlreadyExist));
}

#[test]
fn add_following() {
    let mut s = mock_instantiate();

    // following an unregistered identity fails
    let res = execute_add_following(&mut s, &CREATOR.to_string(), &"user1".to_string());
    assert_eq!(res, Err(ContractError::NotReferral));

    mock_register_referral(&mut s, CREATOR);
    mock_register_referral(&mut s, "USER1");

    // following oneself fails
    let res = execute_add_following(&mut s, &CREATOR.to_string(), &CREATOR.to_string());
    assert_eq!(res, Err(ContractError::Unauthorized));

    // a proper follow
    execute_add_following(&mut s, &CREATOR.to_string(), &"USER1".to_string()).unwrap();

    // a second outgoing edge fails
    mock_register_referral(&mut s, "USER2");
    let res = execute_add_following(&mut s, &CREATOR.to_string(), &"USER2".to_string());
    assert_eq!(res, Err(ContractError::AlreadyExist));

    // a mutual follow would close a cycle
    let res = execute_add_following(&mut s, &"USER1".to_string(), &CREATOR.to_string());
    assert_eq!(res, Err(ContractError::Unauthorized));

    // a longer chain, and an edge that stays acyclic
    mock_register_referral(&mut s, "USER3");
    mock_register_referral(&mut s, "USER4");
    mock_register_referral(&mut s, "USER5");
    mock_register_referral(&mut s, "USER6");
    mock_register_referral(&mut s, "USER7");
    mock_following(&mut s, "USER1", "USER2");
    mock_following(&mut s, "USER2", "USER3");
    mock_following(&mut s, "USER3", "USER4");
    mock_following(&mut s, "USER4", "USER5");
    mock_following(&mut s, "USER6", "USER7");

    // USER5 following the chain's bottom would close the cycle
    let res = execute_add_following(&mut s, &"USER5".to_string(), &"USER1".to_string());
    assert_eq!(res, Err(ContractError::Unauthorized));
    let res = execute_add_following(&mut s, &"USER5".to_string(), &CREATOR.to_string());
    assert_eq!(res, Err(ContractError::Unauthorized));

    // USER7 is not on USER1's upline chain, so this edge is fine
    execute_add_following(&mut s, &"USER7".to_string(), &"USER1".to_string()).unwrap();
}

#[test]
fn add_share() {
    let mut s = mock_instantiate();

    // only the house may report shares
    let res =
        execute_add_share(&mut s, &CREATOR.to_string(), &CREATOR.to_string(), 10000, 12345);
    match res {
        Ok(_) => panic!("must be error"),
        Err(_) => {}
    }

    // height 12345 sits in round 1234
    mock_add_share(&mut s, 12345, CREATOR, 10000);
    assert_eq!(query_reward_share(&s, 1234, &CREATOR.to_string()), (10000, 10000));

    mock_add_share(&mut s, 12_345, "USER4", 458123);
    mock_add_share(&mut s, 12_345, "USER5", 458123);
    assert_eq!(query_reward_share(&s, 1234, &CREATOR.to_string()), (926246, 10000));
    assert_eq!(query_reward_share(&s, 1234, &"USER4".to_string()), (926246, 458123));
}

#[test]
fn add_round() {
    let mut s = mock_instantiate();

    // only the distributor, through the token contract, settles rounds
    let res = execute_add_round(
        &mut s,
        &CREATOR.to_string(),
        20,
        &CREATOR.to_string(),
        1000,
    );
    match res {
        Ok(_) => panic!("must be error"),
        Err(_) => {}
    }

    // a round nobody bet in routes the whole amount to the collector
    let msgs = execute_add_round(
        &mut s,
        &ZEROSUM_TOKEN.to_string(),
        30,
        &DISTRIBUTOR.to_string(),
        100000,
    )
    .unwrap();
    assert_eq!(msgs.len(), 1);
    assert_eq!(msgs[0].recipient, COLLECTOR);
    assert_eq!(msgs[0].amount, 100000);
    assert!(query_round(&s, 30).is_none());

    // height 194 sits in round 19; three equal shares
    mock_add_share(&mut s, 194, CREATOR, 100000);
    mock_add_share(&mut s, 194, "USER1", 100000);
    mock_add_share(&mut s, 194, "USER2", 100000);

    let msgs = execute_add_round(
        &mut s,
        &ZEROSUM_TOKEN.to_string(),
        19,
        &DISTRIBUTOR.to_string(),
        3000000,
    )
    .unwrap();
    assert_eq!(msgs.len(), 1);
    assert_eq!(msgs[0].recipient, "reward");
    assert_eq!(msgs[0].amount, 3000000);

    // ratio 3000000 / 300000 = 10 = 1000 percent
    let info = query_round(&s, 19).unwrap();
    assert_eq!(info.reward_ratio, percent(1000));

    // settling the same round twice fails and leaves the ratio unchanged
    let res = execute_add_round(
        &mut s,
        &ZEROSUM_TOKEN.to_string(),
        19,
        &DISTRIBUTOR.to_string(),
        999,
    );
    assert_eq!(res, Err(ContractError::AlreadyExist));
    let info = query_round(&s, 19).unwrap();
    assert_eq!(info.reward_ratio, percent(1000));
}

#[test]
fn claim() {
    let mut s = mock_instantiate();

    for user in [
        "USER1", "USER10", "USER11", "USER12", "USER2", "USER3", "USER4", "USER5", "USER6",
        "USER7",
    ] {
        mock_register_referral(&mut s, user);
    }
    mock_following(&mut s, "USER10", "USER1");
    mock_following(&mut s, "USER11", "USER1");
    mock_following(&mut s, "USER12", "USER1");
    mock_following(&mut s, "USER1", "USER2");
    mock_following(&mut s, "USER2", "USER3");
    mock_following(&mut s, "USER3", "USER4");
    mock_following(&mut s, "USER4", "USER5");
    mock_following(&mut s, "USER5", "USER6");

    // height 194 sits in round 19; one million in total shares
    mock_add_share(&mut s, 194, "USER10", 200_000);
    mock_add_share(&mut s, 194, "USER11", 100_000);
    mock_add_share(&mut s, 194, "USER12", 100_000);
    mock_add_share(&mut s, 194, "USER1", 100_000);
    mock_add_share(&mut s, 194, "USER2", 100_000);
    mock_add_share(&mut s, 194, "USER3", 100_000);
    mock_add_share(&mut s, 194, "USER4", 100_000);
    mock_add_share(&mut s, 194, "USER5", 100_000);
    mock_add_share(&mut s, 194, "USER6", 100_000);

    mock_add_round(&mut s, 19, 1_000_000);

    // USER1 settles 100_000 at ratio 1: 75% comes straight back, the
    // upline chain gets its slots
    let msgs = execute_claim(&mut s, &"USER1".to_string(), 30_000, None).unwrap();
    assert_eq!(msgs[0].recipient, "USER1");
    assert_eq!(msgs[0].amount, 75_000);
    // unconsumed slot 6 is swept to the collector
    assert_eq!(msgs[1].recipient, COLLECTOR);
    assert_eq!(msgs[1].amount, 2_000);

    let reward_of = |s: &ReferralState, who: &str| -> u128 {
        query_referral_reward(s, &who.to_string()).map(|r| r.claimable_reward).unwrap_or(0)
    };
    assert_eq!(reward_of(&s, "USER2"), 5_000);
    assert_eq!(reward_of(&s, "USER3"), 8_000);
    assert_eq!(reward_of(&s, "USER4"), 5_000);
    assert_eq!(reward_of(&s, "USER5"), 3_000);
    assert_eq!(reward_of(&s, "USER6"), 2_000);
    assert_eq!(reward_of(&s, "USER1"), 0);

    // USER10's preview: 200_000 settled, 75% of it claimable directly
    assert_eq!(query_reward(&s, &"USER10".to_string(), 30_000).unwrap(), 150_000);

    execute_claim(&mut s, &"USER10".to_string(), 30_000, None).unwrap();

    // a second claim with nothing new settles nothing
    assert_eq!(query_reward(&s, &"USER10".to_string(), 30_000).unwrap(), 0);
    assert_eq!(query_last_claim_round(&s, &"USER10".to_string()), Some(2998));

    execute_claim(&mut s, &"USER11".to_string(), 30_000, None).unwrap();
    execute_claim(&mut s, &"USER12".to_string(), 30_000, None).unwrap();
    execute_claim(&mut s, &"USER2".to_string(), 30_000, None).unwrap();

    // the followers of USER1 arrived in order
    let followers: Vec<&str> = s
        .followers
        .iter()
        .filter(|(t, _)| t == "USER1")
        .map(|(_, f)| f.as_str())
        .collect();
    assert_eq!(followers, vec!["USER10", "USER11", "USER12"]);

    // USER1 was credited by its three downlines
    assert_eq!(reward_of(&s, "USER1"), 10_000 + 5_000 + 5_000);
    // USER2 collected from USER1, USER10, USER11 and USER12
    assert_eq!(reward_of(&s, "USER2"), 5_000 + 16_000 + 8_000 + 8_000);

    // claiming the commission zeroes it
    let (msgs, paid) = execute_claim_referral(&mut s, &"USER1".to_string()).unwrap();
    assert_eq!(paid, 20_000);
    assert_eq!(msgs[0].recipient, "USER1");
    assert_eq!(msgs[0].amount, 20_000);
    assert_eq!(reward_of(&s, "USER1"), 0);
    // the cumulative total stays
    assert_eq!(
        query_referral_reward(&s, &"USER1".to_string()).unwrap().total_reward,
        20_000
    );
}

#[test]
fn cascade_residual_without_upline() {
    // ratio vector [0.80, 0.20], claimant with no upline, reward 1000:
    // 800 direct, 200 swept, no commission entry created
    let mut s = instantiate(
        CREATOR.to_string(),
        ZEROSUM_TOKEN.to_string(),
        HOUSE.to_string(),
        DISTRIBUTOR.to_string(),
        0,
        vec![percent(80), percent(20)],
        COLLECTOR.to_string(),
        "reward".to_string(),
    );
    let msgs = distribute(&mut s, &"A".to_string(), 1000);
    assert_eq!(msgs.len(), 2);
    assert_eq!(msgs[0].recipient, "A");
    assert_eq!(msgs[0].amount, 800);
    assert_eq!(msgs[1].recipient, COLLECTOR);
    assert_eq!(msgs[1].amount, 200);
    assert!(query_referral_reward(&s, &"A".to_string()).is_none());
    assert_eq!(s.rewards.entries.len(), 0);
}

#[test]
fn two_level_cascade_scenario() {
    // staker A, the only staker of its subject, follows B; settling
    // 1000 against 1000 gives ratio one; A's claim pays A 800 and
    // credits B 200, which B then claims
    let mut s = instantiate(
        CREATOR.to_string(),
        ZEROSUM_TOKEN.to_string(),
        HOUSE.to_string(),
        DISTRIBUTOR.to_string(),
        0,
        vec![percent(80), percent(20)],
        COLLECTOR.to_string(),
        "reward".to_string(),
    );
    execute_register_referral(
        &mut s,
        &ZEROSUM_TOKEN.to_string(),
        None,
        None,
        None,
        "B".to_string(),
        0,
    )
    .unwrap();
    execute_add_following(&mut s, &"A".to_string(), &"B".to_string()).unwrap();

    // height 54 sits in round 5
    mock_add_share(&mut s, 54, "A", 1000);
    mock_add_round(&mut s, 5, 1000);
    let info = query_round(&s, 5).unwrap();
    assert_eq!(info.reward_ratio, RATIO_ONE);

    // A claims at round 6 (height 64)
    let msgs = execute_claim(&mut s, &"A".to_string(), 64, None).unwrap();
    assert_eq!(msgs.len(), 1);
    assert_eq!(msgs[0].recipient, "A");
    assert_eq!(msgs[0].amount, 800);
    let b = query_referral_reward(&s, &"B".to_string()).unwrap();
    assert_eq!(b.claimable_reward, 200);
    assert_eq!(b.total_reward, 200);

    let (msgs, paid) = execute_claim_referral(&mut s, &"B".to_string()).unwrap();
    assert_eq!(paid, 200);
    assert_eq!(msgs[0].recipient, "B");
    assert_eq!(msgs[0].amount, 200);
    assert_eq!(
        query_referral_reward(&s, &"B".to_string()).unwrap().claimable_reward,
        0
    );
}

#[test]
fn claim_is_idempotent() {
    // a second claim with no intervening deposit or settlement pays
    // nothing at all
    let mut s = mock_instantiate();
    mock_add_share(&mut s, 194, "A", 500);
    mock_add_round(&mut s, 19, 500);

    let msgs = execute_claim(&mut s, &"A".to_string(), 300, None).unwrap();
    assert!(!msgs.is_empty());
    let msgs = execute_claim(&mut s, &"A".to_string(), 300, None).unwrap();
    assert!(msgs.is_empty());
}

#[test]
fn claim_before_rounds_start_is_an_error() {
    let mut s = mock_instantiate();
    let res = execute_claim(&mut s, &"A".to_string(), 3, None);
    assert_eq!(res, Err(ContractError::RoundNotActive));
}

#[test]
fn claim_referral_without_credit_is_an_error() {
    let mut s = mock_instantiate();
    let res = execute_claim_referral(&mut s, &"nobody".to_string());
    assert_eq!(res, Err(ContractError::NotEnough));
}

#[test]
fn cycle_rejection() {
    // register A, B, C; A follows B, B follows C; C following A would
    // close the cycle
    let mut s = mock_instantiate();
    for user in ["A", "B", "C"] {
        mock_register_referral(&mut s, user);
    }
    execute_add_following(&mut s, &"A".to_string(), &"B".to_string()).unwrap();
    execute_add_following(&mut s, &"B".to_string(), &"C".to_string()).unwrap();
    let res = execute_add_following(&mut s, &"C".to_string(), &"A".to_string());
    assert_eq!(res, Err(ContractError::Unauthorized));
}

#[test]
fn truncating_settlement() {
    // a ratio below one truncates each round's payout toward zero
    let mut s = mock_instantiate();
    // two shares, 3 and 5, settled with 7: ratio 7/8
    mock_add_share(&mut s, 194, "A", 3);
    mock_add_share(&mut s, 194, "B", 5);
    mock_add_round(&mut s, 19, 7);
    let info = query_round(&s, 19).unwrap();
    assert_eq!(info.reward_ratio, 7 * RATIO_ONE / 8);

    // floor(3 * 7/8) = 2, floor(5 * 7/8) = 4, together 6 <= 7
    let msgs = execute_claim(&mut s, &"A".to_string(), 300, None).unwrap();
    assert_eq!(msgs[0].amount, 1); // 75% of 2, floored
    let msgs_b = execute_claim(&mut s, &"B".to_string(), 300, None).unwrap();
    assert_eq!(msgs_b[0].amount, 3); // 75% of 4, floored
}

#[test]
fn paginated_round_listing() {
    let mut s = mock_instantiate();
    for round in [5u64, 7, 9] {
        mock_add_share(&mut s, 4 + 10 * round, "A", 100);
        mock_add_round(&mut s, round, 100);
    }
    let all = query_rounds(&s, None, None);
    assert_eq!(
        all,
        vec![(5, RATIO_ONE), (7, RATIO_ONE), (9, RATIO_ONE)]
    );
    assert_eq!(query_rounds(&s, Some(5), None), vec![(7, RATIO_ONE), (9, RATIO_ONE)]);
    assert_eq!(query_rounds(&s, None, Some(1)), vec![(5, RATIO_ONE)]);
    assert_eq!(query_rounds(&s, Some(9), None), vec![]);
}

#[test]
fn follower_listing_with_amounts() {
    let mut s = mock_instantiate();
    for user in ["T", "F1", "F2"] {
        mock_register_referral(&mut s, user);
    }
    execute_add_following(&mut s, &"F1".to_string(), &"T".to_string()).unwrap();
    execute_add_following(&mut s, &"F2".to_string(), &"T".to_string()).unwrap();

    // F1 settles 100 at ratio one; its claim credits T with slot 1
    mock_add_share(&mut s, 194, "F1", 100);
    mock_add_round(&mut s, 19, 100);
    execute_claim(&mut s, &"F1".to_string(), 300, None).unwrap();

    let listed = query_followers(&s, &"T".to_string(), &"T".to_string());
    assert_eq!(listed.len(), 2);
    assert_eq!(listed[0], ("F1".to_string(), 5));
    assert_eq!(listed[1], ("F2".to_string(), 0));
}

#[test]
fn paginated_referral_listing_and_share_table() {
    let mut s = mock_instantiate();
    for user in ["A", "B", "C"] {
        mock_register_referral(&mut s, user);
    }
    let page = query_referrals(&s, None, None);
    assert_eq!(page.len(), 3);
    assert_eq!(page[0].0, "A");
    assert_eq!(page[2].0, "C");
    let page = query_referrals(&s, Some(1), Some(1));
    assert_eq!(page.len(), 1);
    assert_eq!(page[0].0, "B");
    assert!(query_referrals(&s, Some(3), None).is_empty());

    mock_add_share(&mut s, 194, "A", 30);
    mock_add_share(&mut s, 194, "B", 70);
    let (total, shares) = query_reward_shares(&s, 19);
    assert_eq!(total, 100);
    assert_eq!(shares, vec![("A".to_string(), 30), ("B".to_string(), 70)]);
    let (total, shares) = query_reward_shares(&s, 20);
    assert_eq!(total, 0);
    assert!(shares.is_empty());
}
