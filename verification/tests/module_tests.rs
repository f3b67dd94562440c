use zerosum::collector;
use zerosum::collector::{ActionType, CollectorMsg};
use zerosum::distributor;
use zerosum::distributor::{DistributeIntent, DistributionDetail};
use zerosum::fixed::{percent, RATIO_ONE};
use zerosum::querier::token_to_ust;
use zerosum::reward;
use zerosum::round::{get_period, get_round, get_round_period};
use zerosum::vesting;
use zerosum::vesting::Vesting;
use zerosum::ContractError;

#[test]
fn rounds_follow_the_block_height() {
    assert_eq!(get_round(0), None);
    assert_eq!(get_round(3), None);
    assert_eq!(get_round(4), Some(0));
    assert_eq!(get_round(13), Some(0));
    assert_eq!(get_round(14), Some(1));
    assert_eq!(get_round(12345), Some(1234));
}

#[test]
fn minting_bands_cover_four_years() {
    assert!(get_period(3).is_none());
    // round 0 lies before the first band
    assert!(get_period(4).is_none());
    // round 1 starts the first band
    let p = get_period(14).unwrap();
    assert_eq!(p.id, 1);
    assert_eq!(p.total_distribute_amount, 400_000_000);
    assert_eq!(p.distribute_amount_per_round, 400_000_000 / 365);
    // round 365 is still band 1, round 366 is band 2
    assert_eq!(get_round_period(365).unwrap().id, 1);
    assert_eq!(get_round_period(366).unwrap().id, 2);
    assert_eq!(get_round_period(1460).unwrap().id, 4);
    assert!(get_round_period(1461).is_none());
}

#[test]
fn fixed_point_ratios_truncate() {
    assert_eq!(percent(75), 750_000_000_000_000_000);
    assert_eq!(percent(100), RATIO_ONE);
    // 100 tokens at a pool spot price of 200/50 are worth 400
    assert_eq!(token_to_ust(100, 50, 200), 400);
    // truncation happens in the ratio itself: 1/3 of 100 is 33
    assert_eq!(token_to_ust(100, 3, 1), 33);
}

#[test]
fn distributor_mints_during_a_band() {
    let mut s = distributor::instantiate(
        "gov".to_string(),
        "token".to_string(),
        "trigger".to_string(),
        0,
        vec![DistributionDetail {
            description: "the house".to_string(),
            key: Some("betting".to_string()),
            address: "house".to_string(),
            ratio: percent(50),
        }],
    );
    let per_round = 400_000_000u128 / 365;
    let msgs = distributor::execute_distribute(&mut s, &"trigger".to_string(), 10, 0).unwrap();
    assert_eq!(msgs.len(), 3);
    let direct = per_round * 8 / 10;
    match &msgs[0] {
        DistributeIntent::Mint { amount } => assert_eq!(*amount, direct),
        _ => panic!("expected a mint intent"),
    }
    match &msgs[1] {
        DistributeIntent::VestingShare { amount, round } => {
            assert_eq!(*amount, per_round * 2 / 10);
            assert_eq!(*round, 10);
        },
        _ => panic!("expected a vesting intent"),
    }
    match &msgs[2] {
        DistributeIntent::Send { key, address, amount, round } => {
            assert_eq!(key.as_deref(), Some("betting"));
            assert_eq!(address, "house");
            assert_eq!(*amount, direct / 2);
            assert_eq!(*round, 10);
        },
        _ => panic!("expected a send intent"),
    }
    assert_eq!(s.last_round, 10);

    // replaying the round fails
    let res = distributor::execute_distribute(&mut s, &"trigger".to_string(), 10, 0);
    assert_eq!(res.err(), Some(ContractError::AlreadyExist));

    // an unauthorized trigger fails
    let res = distributor::execute_distribute(&mut s, &"anyone".to_string(), 11, 0);
    assert_eq!(res.err(), Some(ContractError::Unauthorized));
}

#[test]
fn distributor_falls_back_to_its_balance() {
    let mut s = distributor::instantiate(
        "gov".to_string(),
        "token".to_string(),
        "trigger".to_string(),
        0,
        vec![DistributionDetail {
            description: "the house".to_string(),
            key: None,
            address: "house".to_string(),
            ratio: percent(100),
        }],
    );
    // round 2000 lies past all bands: distribute the held balance
    let msgs = distributor::execute_distribute(&mut s, &"gov".to_string(), 2000, 777).unwrap();
    assert_eq!(msgs.len(), 1);
    match &msgs[0] {
        DistributeIntent::Send { amount, .. } => assert_eq!(*amount, 777),
        _ => panic!("expected a send intent"),
    }
}

#[test]
fn vesting_splits_a_round() {
    let mut s = vesting::instantiate(
        "owner".to_string(),
        "token".to_string(),
        "distributor".to_string(),
        vec![
            Vesting {
                address: "a".to_string(),
                description: "first".to_string(),
                share: percent(50),
                unlock_round: 0,
            },
            Vesting {
                address: "b".to_string(),
                description: "second".to_string(),
                share: percent(25),
                unlock_round: 0,
            },
        ],
    );
    // only the token contract may hand a round in
    let res = vesting::execute_add_round(&mut s, &"anyone".to_string(), 1000);
    assert_eq!(res, Err(ContractError::Unauthorized));

    vesting::execute_add_round(&mut s, &"token".to_string(), 1000).unwrap();
    assert_eq!(s.rest_reward, 250);

    let (msgs, paid) = vesting::execute_claim(&mut s, &"a".to_string()).unwrap();
    assert_eq!(paid, 500);
    assert_eq!(msgs[0].amount, 500);
    let (_, paid) = vesting::execute_claim(&mut s, &"a".to_string()).unwrap();
    assert_eq!(paid, 0);

    // the leftover pot pays out only what it holds
    let res = vesting::execute_send(&mut s, &"owner".to_string(), 300, "x".to_string());
    assert!(res.is_err());
    let msgs = vesting::execute_send(&mut s, &"owner".to_string(), 250, "x".to_string()).unwrap();
    assert_eq!(msgs[0].recipient, "x");
    assert_eq!(msgs[0].amount, 250);
    assert_eq!(s.rest_reward, 0);

    // an address that was never vested may not claim
    let res = vesting::execute_claim(&mut s, &"nobody".to_string());
    assert!(res.is_err());
}

#[test]
fn collector_burns_during_a_band_and_distributes_after() {
    let mut s = collector::instantiate(
        "gov".to_string(),
        "token".to_string(),
        "trigger".to_string(),
        "distributor".to_string(),
    );
    // height 104 sits in round 10, inside band 1: burn
    let (action, msgs) =
        collector::execute_action(&mut s, &"trigger".to_string(), 5000, 104, 7).unwrap();
    assert_eq!(action, Some(ActionType::Burn));
    assert!(msgs.is_empty());
    assert_eq!(s.state.total_burn_amount, 5000);

    // height 20000 sits in round 1999, past all bands: hand the balance
    // back to the distributor
    let (action, msgs) =
        collector::execute_action(&mut s, &"gov".to_string(), 300, 20000, 8).unwrap();
    assert_eq!(action, Some(ActionType::Distribute));
    assert_eq!(msgs.len(), 1);
    assert_eq!(msgs[0].recipient, "distributor");
    assert_eq!(msgs[0].amount, 300);
    assert_eq!(s.state.total_distribute_amount, 300);

    // a zero balance does nothing
    let (action, msgs) =
        collector::execute_action(&mut s, &"gov".to_string(), 0, 20000, 9).unwrap();
    assert_eq!(action, None);
    assert!(msgs.is_empty());
    assert_eq!(s.actions.len(), 2);

    collector::execute_add_harvest_contract(&mut s, &"gov".to_string(), "farm1".to_string())
        .unwrap();
    collector::execute_add_harvest_contract(&mut s, &"gov".to_string(), "farm2".to_string())
        .unwrap();
    let msgs = collector::execute_collect(&s);
    assert_eq!(msgs.len(), 2);
    assert_eq!(msgs[0].0, "farm1");
    assert_eq!(msgs[0].1, CollectorMsg::Collect);
    assert_eq!(msgs[1].0, "farm2");
}

#[test]
fn collector_profit_registry() {
    let mut s = collector::instantiate(
        "gov".to_string(),
        "token".to_string(),
        "trigger".to_string(),
        "distributor".to_string(),
    );
    collector::execute_add_profit(
        &mut s,
        &"gov".to_string(),
        "uusd".to_string(),
        Some("swap1".to_string()),
    )
    .unwrap();
    let res = collector::execute_add_profit(&mut s, &"gov".to_string(), "uusd".to_string(), None);
    assert_eq!(res, Err(ContractError::AlreadyExist));
    collector::execute_update_profit(
        &mut s,
        &"gov".to_string(),
        &"uusd".to_string(),
        "swap2".to_string(),
    )
    .unwrap();
    let res = collector::execute_update_profit(
        &mut s,
        &"gov".to_string(),
        &"ukrw".to_string(),
        "swap2".to_string(),
    );
    assert_eq!(res, Err(ContractError::NotExist));
}

#[test]
fn contract_proper_initialization() {
    let mut s = reward::instantiate("creator".to_string(), "token".to_string());
    assert_eq!(reward::query_spenders(&s).len(), 0);

    reward::execute_add_spender(&mut s, &"creator".to_string(), "creator".to_string()).unwrap();
    assert_eq!(reward::query_spenders(&s), vec!["creator".to_string()]);

    // an address that is no spender may not direct a payout
    let res = reward::execute_spend(
        &s,
        &"terra1dcegyrekltswvyy0xy69ydgxn9x8x32zdtapd8".to_string(),
        "test".to_string(),
        100,
    );
    assert_eq!(res.err(), Some(ContractError::Unauthorized));

    let msgs =
        reward::execute_spend(&s, &"creator".to_string(), "test".to_string(), 100).unwrap();
    assert_eq!(msgs[0].recipient, "test");
    assert_eq!(msgs[0].amount, 100);

    reward::execute_remove_spender(&mut s, &"creator".to_string(), &"creator".to_string())
        .unwrap();
    let res = reward::execute_spend(&s, &"creator".to_string(), "test".to_string(), 100);
    assert!(res.is_err());
}

#[test]
fn paginated_distribution_history() {
    let mut s = distributor::instantiate(
        "gov".to_string(),
        "token".to_string(),
        "trigger".to_string(),
        0,
        vec![],
    );
    distributor::execute_distribute(&mut s, &"gov".to_string(), 2000, 11).unwrap();
    distributor::execute_distribute(&mut s, &"gov".to_string(), 2001, 22).unwrap();
    distributor::execute_distribute(&mut s, &"gov".to_string(), 2002, 33).unwrap();

    let page = distributor::query_distribute_histories(&s, None, None);
    assert_eq!(page.len(), 3);
    assert_eq!(page[0].round, 2000);
    assert_eq!(page[0].distribute_amount, 11);
    assert!(page[0].distributions.is_empty());

    let page = distributor::query_distribute_histories(&s, Some(2001), Some(1));
    assert_eq!(page.len(), 1);
    assert_eq!(page[0].round, 2001);
    assert_eq!(page[0].distribute_amount, 22);
}
