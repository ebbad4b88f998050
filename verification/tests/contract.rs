use cw20_betting::contract::{
    execute_bet, instantiate, query_address_bet, query_bet_price, query_jackpot, query_total_bets,
};
use cw20_betting::error::ContractError;
use cw20_betting::msg::InstantiateMsg;
use cw20_betting::state::BetRegistry;
use cw20_betting::types::{BlockInfo, Coin, Expiration, Scheduled};

fn default_msg() -> InstantiateMsg {
    InstantiateMsg {
        cw20_token_address: "address_token".to_string(),
        bet_start_block: Scheduled::AtHeight(10000),
        bet_end_block: Expiration::AtHeight(20000),
        burn_block: Expiration::AtHeight(30000),
        community_pool_address: "community_address".to_string(),
        bet_base_price: 100000u128,
    }
}

fn mock_block() -> BlockInfo {
    BlockInfo { height: 12345, time: 1571797419879305533 }
}

fn coins(amount: u128, denom: &str) -> Vec<Coin> {
    vec![Coin { denom: denom.to_string(), amount }]
}

#[test]
fn proper_initialization() {
    let msg = default_msg();

    let state = instantiate(msg, mock_block().height);
    assert_eq!(0, state.total_bets);
    assert_eq!(0, state.total_jackpot);
    assert_eq!(state.cw20_token_address, "address_token".to_string());
    assert_eq!(state.community_pool_address, "community_address".to_string());
    assert_eq!(state.bet_base_price, 100000u128);
    assert_eq!(state.bet_init_block, 12345);
}

#[test]
fn query_bet_price_and_bet() {
    let mut registry = BetRegistry::new();
    let msg = default_msg();
    let mut state = instantiate(msg, mock_block().height);

    // query price
    let price = query_bet_price(&state, &mock_block()).unwrap().bet_price;
    let res = execute_bet(
        &mut state,
        &mut registry,
        &mock_block(),
        "bettor".to_string(),
        &coins(price, "ujunox"),
        120000000000u128,
    );
    assert!(res.is_ok());

    // query user bets, total jackpot, total bets
    let address_bet = query_address_bet(&registry, "bettor".to_string()).unwrap();
    assert_eq!(address_bet.bet, vec![120000000000u128]);

    let jackpot = query_jackpot(&state);
    assert_ne!(jackpot.jackpot, 0u128);

    let total = query_total_bets(&state);
    assert_eq!(total.total_bets, 1u128);

    // another bettor
    let res = execute_bet(
        &mut state,
        &mut registry,
        &mock_block(),
        "another_bettor".to_string(),
        &coins(price, "ujunox"),
        120000000000u128,
    );
    assert!(res.is_ok());

    let total = query_total_bets(&state);
    assert_eq!(total.total_bets, 2u128);

    let jackpot = query_jackpot(&state);
    assert_ne!(jackpot.jackpot, 0u128);

    // same bettor
    let res = execute_bet(
        &mut state,
        &mut registry,
        &mock_block(),
        "another_bettor".to_string(),
        &coins(price, "ujunox"),
        121000000000u128,
    );
    assert!(res.is_ok());

    // query their bets
    let address_bet = query_address_bet(&registry, "another_bettor".to_string()).unwrap();
    assert_eq!(address_bet.bet, vec![120000000000u128, 121000000000u128]);
}

#[test]
fn quote_base_price_until_forty_bets() {
    let mut registry = BetRegistry::new();
    let mut state = instantiate(default_msg(), mock_block().height);

    // at the initialization height with no bets the quote is the base price
    let price = query_bet_price(&state, &mock_block()).unwrap().bet_price;
    assert_eq!(price, 100000u128);

    // one accepted bet does not move the price: 1 / 40 truncates to zero
    execute_bet(
        &mut state,
        &mut registry,
        &mock_block(),
        "bettor".to_string(),
        &coins(price, "ujunox"),
        7u128,
    )
    .unwrap();
    let price = query_bet_price(&state, &mock_block()).unwrap().bet_price;
    assert_eq!(price, 100000u128);
}

#[test]
fn quote_non_decreasing_in_height_and_bets() {
    let mut state = instantiate(default_msg(), 12345);

    // one unit per elapsed block
    let at_init = query_bet_price(&state, &BlockInfo { height: 12345, time: 0 }).unwrap();
    let later = query_bet_price(&state, &BlockInfo { height: 12355, time: 0 }).unwrap();
    assert_eq!(at_init.bet_price, 100000u128);
    assert_eq!(later.bet_price, 100010u128);
    assert!(at_init.bet_price <= later.bet_price);

    // one unit per forty accepted bets
    state.total_bets = 39;
    assert_eq!(
        query_bet_price(&state, &BlockInfo { height: 12345, time: 0 }).unwrap().bet_price,
        100000u128
    );
    state.total_bets = 40;
    assert_eq!(
        query_bet_price(&state, &BlockInfo { height: 12345, time: 0 }).unwrap().bet_price,
        100001u128
    );
}

#[test]
fn bet_splits_payment_exactly() {
    let mut registry = BetRegistry::new();
    let mut state = instantiate(default_msg(), mock_block().height);

    // 100001 * 80 / 100 truncates to 80000; the community share absorbs the dust
    let msg = execute_bet(
        &mut state,
        &mut registry,
        &mock_block(),
        "bettor".to_string(),
        &coins(100001, "ujunox"),
        7u128,
    )
    .unwrap();
    assert_eq!(state.total_bets, 1u128);
    assert_eq!(state.total_jackpot, 80000u128);
    assert_eq!(msg.amount, 20001u128);
    assert_eq!(msg.amount + state.total_jackpot, 100001u128);
    assert_eq!(msg.to_address, "community_address".to_string());
    assert_eq!(msg.denom, "ujunox".to_string());
}

#[test]
fn bet_at_exact_price_accepted_one_below_rejected() {
    let mut registry = BetRegistry::new();
    let mut state = instantiate(default_msg(), mock_block().height);
    let price = query_bet_price(&state, &mock_block()).unwrap().bet_price;

    let res = execute_bet(
        &mut state,
        &mut registry,
        &mock_block(),
        "poor".to_string(),
        &coins(price - 1, "ujunox"),
        7u128,
    );
    assert_eq!(res.unwrap_err(), ContractError::NoFunds);
    assert_eq!(state.total_bets, 0u128);
    assert_eq!(state.total_jackpot, 0u128);

    let res = execute_bet(
        &mut state,
        &mut registry,
        &mock_block(),
        "exact".to_string(),
        &coins(price, "ujunox"),
        7u128,
    );
    assert!(res.is_ok());
    assert_eq!(state.total_bets, 1u128);
}

#[test]
fn bet_rejected_outside_window() {
    let mut registry = BetRegistry::new();
    let mut state = instantiate(default_msg(), 5000);

    // before the start window triggers
    let res = execute_bet(
        &mut state,
        &mut registry,
        &BlockInfo { height: 9999, time: 0 },
        "early".to_string(),
        &coins(200000, "ujunox"),
        7u128,
    );
    assert_eq!(res.unwrap_err(), ContractError::UnallowedTime);

    // once the end window expires
    let res = execute_bet(
        &mut state,
        &mut registry,
        &BlockInfo { height: 20000, time: 0 },
        "late".to_string(),
        &coins(200000, "ujunox"),
        7u128,
    );
    assert_eq!(res.unwrap_err(), ContractError::UnallowedTime);
    assert_eq!(state.total_bets, 0u128);
}

#[test]
fn bet_rejected_without_proper_funds() {
    let mut registry = BetRegistry::new();
    let mut state = instantiate(default_msg(), mock_block().height);

    // nothing attached
    let res = execute_bet(
        &mut state,
        &mut registry,
        &mock_block(),
        "bettor".to_string(),
        &Vec::new(),
        7u128,
    );
    assert_eq!(res.unwrap_err(), ContractError::NoFunds);

    // wrong denomination
    let res = execute_bet(
        &mut state,
        &mut registry,
        &mock_block(),
        "bettor".to_string(),
        &coins(200000, "earth"),
        7u128,
    );
    assert_eq!(res.unwrap_err(), ContractError::NoFunds);
    assert_eq!(state.total_bets, 0u128);
}

#[test]
fn bet_rejected_on_price_overflow() {
    let mut registry = BetRegistry::new();
    let mut msg = default_msg();
    msg.bet_base_price = u128::MAX;
    let mut state = instantiate(msg, 12000);

    // the window is open but elapsed blocks push the price past 128 bits
    let res = execute_bet(
        &mut state,
        &mut registry,
        &mock_block(),
        "bettor".to_string(),
        &coins(u128::MAX, "ujunox"),
        7u128,
    );
    assert_eq!(res.unwrap_err(), ContractError::ArithmeticOverflow);
    assert_eq!(state.total_bets, 0u128);
}

#[test]
fn bet_rejected_before_init_height() {
    let mut registry = BetRegistry::new();
    let mut msg = default_msg();
    msg.bet_start_block = Scheduled::AtHeight(10);
    let mut state = instantiate(msg, 12345);

    // the window is open, but the block is older than the pool's origin
    let res = execute_bet(
        &mut state,
        &mut registry,
        &BlockInfo { height: 100, time: 0 },
        "bettor".to_string(),
        &coins(200000, "ujunox"),
        7u128,
    );
    assert_eq!(res.unwrap_err(), ContractError::ArithmeticOverflow);
    assert_eq!(state.total_bets, 0u128);
}

#[test]
fn address_bet_unknown_bettor_fails() {
    let registry = BetRegistry::new();
    let res = query_address_bet(&registry, "nobody".to_string());
    assert_eq!(res.unwrap_err(), ContractError::StorageFailure);
}

#[test]
fn window_predicates() {
    let early = BlockInfo { height: 9999, time: 99 };
    let late = BlockInfo { height: 10000, time: 100 };

    assert!(!Scheduled::AtHeight(10000).is_triggered(&early));
    assert!(Scheduled::AtHeight(10000).is_triggered(&late));
    assert!(!Scheduled::AtTime(100).is_triggered(&early));
    assert!(Scheduled::AtTime(100).is_triggered(&late));

    assert!(!Expiration::AtHeight(10000).is_expired(&early));
    assert!(Expiration::AtHeight(10000).is_expired(&late));
    assert!(!Expiration::AtTime(100).is_expired(&early));
    assert!(Expiration::AtTime(100).is_expired(&late));
    assert!(!Expiration::Never.is_expired(&late));
}
