use cw20_betting::contract::{execute_announce, execute_bet, instantiate};
use cw20_betting::error::ContractError;
use cw20_betting::msg::InstantiateMsg;
use cw20_betting::state::{read_bet, save_bet, BetRegistry};
use cw20_betting::types::{BlockInfo, Coin, Expiration, Scheduled};

fn default_msg() -> InstantiateMsg {
    InstantiateMsg {
        cw20_token_address: "address_token".to_string(),
        bet_start_block: Scheduled::AtHeight(10000),
        bet_end_block: Expiration::AtHeight(20000),
        burn_block: Expiration::AtHeight(30000),
        community_pool_address: "community_address".to_string(),
        bet_base_price: 100000u128,
    }
}

fn betting_block() -> BlockInfo {
    BlockInfo { height: 12345, time: 0 }
}

fn settle_block() -> BlockInfo {
    BlockInfo { height: 30000, time: 0 }
}

fn coins(amount: u128, denom: &str) -> Vec<Coin> {
    vec![Coin { denom: denom.to_string(), amount }]
}

#[test]
fn announce_rejected_before_burn_window() {
    let registry = BetRegistry::new();
    let state = instantiate(default_msg(), 12345);
    let res = execute_announce(&state, &registry, &BlockInfo { height: 29999, time: 0 }, 7u128);
    assert_eq!(res.unwrap_err(), ContractError::BurnBlock);
}

#[test]
fn announce_no_winners_pays_community_pool() {
    let mut registry = BetRegistry::new();
    let mut state = instantiate(default_msg(), 12345);
    execute_bet(
        &mut state,
        &mut registry,
        &betting_block(),
        "bettor".to_string(),
        &coins(100000, "ujunox"),
        120000000000u128,
    )
    .unwrap();

    // nobody guessed the resolved supply: the whole jackpot goes back
    let msgs = execute_announce(&state, &registry, &settle_block(), 999u128).unwrap();
    assert_eq!(msgs.len(), 1);
    assert_eq!(msgs[0].to_address, "community_address".to_string());
    assert_eq!(msgs[0].denom, "ujunox".to_string());
    assert_eq!(msgs[0].amount, state.total_jackpot);
}

#[test]
fn announce_two_winners_split_evenly() {
    let mut registry = BetRegistry::new();
    let mut state = instantiate(default_msg(), 12345);
    for bettor in ["bettor", "another_bettor"] {
        execute_bet(
            &mut state,
            &mut registry,
            &betting_block(),
            bettor.to_string(),
            &coins(100000, "ujunox"),
            120000000000u128,
        )
        .unwrap();
    }
    assert_eq!(state.total_jackpot, 160000u128);

    let msgs = execute_announce(&state, &registry, &settle_block(), 120000000000u128).unwrap();
    assert_eq!(msgs.len(), 2);
    assert_eq!(msgs[0].to_address, "bettor".to_string());
    assert_eq!(msgs[1].to_address, "another_bettor".to_string());
    // each winner gets total_jackpot * 50 / 100
    assert_eq!(msgs[0].amount, 80000u128);
    assert_eq!(msgs[1].amount, 80000u128);
}

#[test]
fn announce_three_winners_leaves_dust() {
    let mut registry = BetRegistry::new();
    let mut state = instantiate(default_msg(), 12345);
    for bettor in ["a", "b", "c"] {
        execute_bet(
            &mut state,
            &mut registry,
            &betting_block(),
            bettor.to_string(),
            &coins(125000, "ujunox"),
            42u128,
        )
        .unwrap();
    }
    assert_eq!(state.total_jackpot, 300000u128);

    // the per-winner ratio truncates to 33, so 1 percent stays in custody
    let msgs = execute_announce(&state, &registry, &settle_block(), 42u128).unwrap();
    assert_eq!(msgs.len(), 3);
    for msg in &msgs {
        assert_eq!(msg.amount, 99000u128);
    }
    let distributed: u128 = msgs.iter().map(|m| m.amount).sum();
    assert_eq!(distributed, state.total_jackpot * 99 / 100);
    assert!(distributed <= state.total_jackpot);
}

#[test]
fn duplicate_guess_pays_twice() {
    let mut registry = BetRegistry::new();
    let mut state = instantiate(default_msg(), 12345);
    for _ in 0..2 {
        execute_bet(
            &mut state,
            &mut registry,
            &betting_block(),
            "repeat".to_string(),
            &coins(100000, "ujunox"),
            42u128,
        )
        .unwrap();
    }

    let bettors = read_bet(&registry, 42u128).unwrap();
    assert_eq!(bettors, vec!["repeat".to_string(), "repeat".to_string()]);

    let msgs = execute_announce(&state, &registry, &settle_block(), 42u128).unwrap();
    assert_eq!(msgs.len(), 2);
    assert_eq!(msgs[0].to_address, "repeat".to_string());
    assert_eq!(msgs[1].to_address, "repeat".to_string());
    assert_eq!(msgs[0].amount, msgs[1].amount);
}

#[test]
fn read_bet_absent_key_fails() {
    let mut registry = BetRegistry::new();
    save_bet(&mut registry, 42u128, "bettor".to_string());
    assert_eq!(read_bet(&registry, 42u128).unwrap(), vec!["bettor".to_string()]);
    assert_eq!(read_bet(&registry, 43u128).unwrap_err(), ContractError::StorageFailure);
}
