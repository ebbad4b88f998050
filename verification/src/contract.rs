use vstd::prelude::*;

use vstd::arithmetic::div_mod::{
    lemma_div_is_ordered, lemma_div_multiples_vanish, lemma_div_multiples_vanish_fancy,
    lemma_fundamental_div_mod, lemma_mod_bound, lemma_mul_hoist_inequality,
    lemma_multiply_divide_le,
};
use vstd::arithmetic::mul::lemma_mul_inequality;

use crate::error::ContractError;
use crate::msg::{
    AddressBetResponse, BetPriceResponse, InstantiateMsg, JackpotResponse, TotalBetsResponse,
};
use crate::state::{
    names_of, read_address_bet, records_bet, save_address_bet, save_bet, winners_for, BetRegistry,
    State,
};
use crate::types::{BlockInfo, Coin, TransferMsg};

verus! {

/// The native denomination every payment and payout uses.
pub open spec fn native_denom() -> Seq<char> {
    "ujunox"@
}

/// The entry price quoted at `current_height`: one unit per elapsed block
/// since initialization, plus one per forty accepted bets, on top of the
/// configured base price.
pub open spec fn quote_spec(state: State, current_height: u64) -> int {
    (current_height - state.bet_init_block) + (state.total_bets as int) / 40
        + state.bet_base_price
}

/// Whether the price is defined (the pool's origin height has been reached)
/// and representable in 128 bits.
pub open spec fn quote_ok(state: State, current_height: u64) -> bool {
    current_height >= state.bet_init_block && quote_spec(state, current_height) <= u128::MAX
}

/// Computes the current entry price, or reports the arithmetic failure.
pub fn quote(state: &State, current_height: u64) -> (price: Result<u128, ContractError>)
    ensures
        quote_ok(*state, current_height) ==> price == Ok::<u128, ContractError>(
            quote_spec(*state, current_height) as u128,
        ),
        !quote_ok(*state, current_height) ==> price == Err::<u128, ContractError>(
            ContractError::ArithmeticOverflow,
        ),
{
    if current_height < state.bet_init_block {
        return Err(ContractError::ArithmeticOverflow);
    }
    let elapsed: u64 = current_height - state.bet_init_block;
    let step: u128 = state.total_bets / 40;
    let partial: u128 = match (elapsed as u128).checked_add(step) {
        Some(v) => v,
        None => {
            return Err(ContractError::ArithmeticOverflow);
        },
    };
    match partial.checked_add(state.bet_base_price) {
        Some(price) => Ok(price),
        None => Err(ContractError::ArithmeticOverflow),
    }
}

/// The entry price never goes down: with the same pricing parameters, a
/// later block and a bet count at least as large quote at least as much.
pub proof fn lemma_quote_monotonic(s1: State, s2: State, h1: u64, h2: u64)
    requires
        s1.bet_init_block == s2.bet_init_block,
        s1.bet_base_price == s2.bet_base_price,
        s1.total_bets <= s2.total_bets,
        h1 <= h2,
        s1.bet_init_block <= h1,
    ensures
        quote_spec(s1, h1) <= quote_spec(s2, h2),
{
    lemma_div_is_ordered(s1.total_bets as int, s2.total_bets as int, 40);
}

/// Whether the pool accepts bets in `block`: the start window has triggered
/// and the end window has not yet expired.
pub open spec fn betting_open(state: State, block: BlockInfo) -> bool {
    state.bet_start_block.spec_is_triggered(block) && !state.bet_end_block.spec_is_expired(block)
}

/// Whether an attached payment covers `price`: there is a first coin, it is
/// in the native denomination, and its amount reaches the price.
pub open spec fn funds_sufficient(funds: Seq<Coin>, price: u128) -> bool {
    funds.len() > 0 && funds[0].denom@ == native_denom() && funds[0].amount >= price
}

/// The jackpot share of a payment: 80 percent, rounded down.
pub open spec fn jackpot_share(amount: u128) -> int {
    (amount * 80) / 100
}

/// Whether the accounting steps of a placement stay within 128 bits.
pub open spec fn bet_arith_ok(state: State, amount: u128) -> bool {
    &&& amount * 80 <= u128::MAX
    &&& state.total_bets + 1 <= u128::MAX
    &&& state.total_jackpot + jackpot_share(amount) <= u128::MAX
}

/// The effect of an accepted bet paying `amount`: both totals advance, the
/// placement is recorded in both indexes, the configuration is untouched,
/// and the declared transfer moves exactly the non-jackpot share of the
/// payment to the community pool, so no value is created or destroyed.
pub open spec fn bet_accepted(
    s0: State,
    s1: State,
    r0: BetRegistry,
    r1: BetRegistry,
    bettor: Seq<char>,
    guess: u128,
    amount: u128,
    msg: TransferMsg,
) -> bool {
    &&& s1.same_config(s0)
    &&& s1.total_bets == s0.total_bets + 1
    &&& s1.total_jackpot == s0.total_jackpot + jackpot_share(amount)
    &&& records_bet(r0, r1, guess, bettor)
    &&& msg.to_address == s0.community_pool_address
    &&& msg.denom@ == native_denom()
    &&& msg.amount == amount - jackpot_share(amount)
    &&& msg.amount + jackpot_share(amount) == amount
}

/// Places a bet: `sender` stakes `choosed_number`, paying with the first
/// attached coin. On success the payment is split 80/20 between the jackpot
/// (kept in custody) and the community pool (the returned transfer), and
/// the placement is recorded. Any failure leaves the pool untouched.
pub fn execute_bet(
    state: &mut State,
    registry: &mut BetRegistry,
    block: &BlockInfo,
    sender: String,
    funds: &Vec<Coin>,
    choosed_number: u128,
) -> (r: Result<TransferMsg, ContractError>)
    requires
        old(registry).wf(),
    ensures
        final(registry).wf(),
        ({
            let s0 = *old(state);
            if !betting_open(s0, *block) {
                &&& r == Err::<TransferMsg, ContractError>(ContractError::UnallowedTime)
                &&& *final(state) == s0
                &&& *final(registry) == *old(registry)
            } else if !quote_ok(s0, block.height) {
                &&& r == Err::<TransferMsg, ContractError>(ContractError::ArithmeticOverflow)
                &&& *final(state) == s0
                &&& *final(registry) == *old(registry)
            } else if !funds_sufficient(funds@, quote_spec(s0, block.height) as u128) {
                &&& r == Err::<TransferMsg, ContractError>(ContractError::NoFunds)
                &&& *final(state) == s0
                &&& *final(registry) == *old(registry)
            } else if !bet_arith_ok(s0, funds@[0].amount) {
                &&& r == Err::<TransferMsg, ContractError>(ContractError::ArithmeticOverflow)
                &&& *final(state) == s0
                &&& *final(registry) == *old(registry)
            } else {
                &&& r matches Ok(msg) && bet_accepted(
                    s0,
                    *final(state),
                    *old(registry),
                    *final(registry),
                    sender@,
                    choosed_number,
                    funds@[0].amount,
                    msg,
                )
            }
        }),
{
    if !state.bet_start_block.is_triggered(block) || state.bet_end_block.is_expired(block) {
        return Err(ContractError::UnallowedTime);
    }
    let price: u128 = match quote(state, block.height) {
        Ok(p) => p,
        Err(e) => {
            return Err(e);
        },
    };
    if funds.len() == 0 {
        return Err(ContractError::NoFunds);
    }
    let expected: String = "ujunox".to_owned();
    if !(funds[0].denom == expected) || funds[0].amount < price {
        return Err(ContractError::NoFunds);
    }
    let amount = funds[0].amount;
    let scaled: u128 = match amount.checked_mul(80) {
        Some(v) => v,
        None => {
            return Err(ContractError::ArithmeticOverflow);
        },
    };
    let jackpot_amount: u128 = scaled / 100;
    let new_total_bets: u128 = match state.total_bets.checked_add(1) {
        Some(v) => v,
        None => {
            return Err(ContractError::ArithmeticOverflow);
        },
    };
    let new_total_jackpot: u128 = match state.total_jackpot.checked_add(jackpot_amount) {
        Some(v) => v,
        None => {
            return Err(ContractError::ArithmeticOverflow);
        },
    };
    proof {
        lemma_mul_inequality(80, 100, amount as int);
        lemma_div_is_ordered(amount as int * 80, amount as int * 100, 100);
        lemma_div_multiples_vanish(amount as int, 100);
        assert(amount as int * 100 == 100 * (amount as int));
        assert(jackpot_amount <= amount);
    }
    let community_amount: u128 = amount - jackpot_amount;
    save_bet(registry, choosed_number, sender.clone());
    save_address_bet(registry, sender, choosed_number);
    state.total_bets = new_total_bets;
    state.total_jackpot = new_total_jackpot;
    let to_address = state.community_pool_address.clone();
    Ok(TransferMsg { to_address, denom: "ujunox".to_owned(), amount: community_amount })
}

/// Total amount declared by a list of transfers.
pub open spec fn sum_amounts(msgs: Seq<TransferMsg>) -> int
    decreases msgs.len(),
{
    if msgs.len() == 0 {
        0
    } else {
        msgs[0].amount + sum_amounts(msgs.skip(1))
    }
}

proof fn lemma_sum_amounts_push(msgs: Seq<TransferMsg>, m: TransferMsg)
    ensures
        sum_amounts(msgs.push(m)) == sum_amounts(msgs) + m.amount,
    decreases msgs.len(),
{
    if msgs.len() == 0 {
        assert(msgs.push(m).skip(1) =~= Seq::<TransferMsg>::empty());
        assert(msgs.push(m)[0] == m);
        assert(sum_amounts(Seq::<TransferMsg>::empty()) == 0);
        assert(sum_amounts(msgs.push(m)) == m.amount + sum_amounts(msgs.push(m).skip(1)));
    } else {
        assert(msgs.push(m).skip(1) =~= msgs.skip(1).push(m));
        assert(msgs.push(m)[0] == msgs[0]);
        lemma_sum_amounts_push(msgs.skip(1), m);
        assert(sum_amounts(msgs) == msgs[0].amount + sum_amounts(msgs.skip(1)));
        assert(sum_amounts(msgs.push(m)) == msgs[0].amount + sum_amounts(msgs.skip(1).push(m)));
    }
}

/// floor(amount * num / 100), computed without the intermediate product
/// overflowing 128 bits. The result never exceeds `amount` while
/// `num <= 100`.
fn multiply_ratio_per_cent(amount: u128, num: u64) -> (scaled: u128)
    requires
        num <= 100,
    ensures
        scaled == amount * num / 100,
        scaled <= amount,
{
    let quot: u128 = amount / 100;
    let rem: u128 = amount % 100;
    proof {
        let a: int = amount as int;
        let nm: int = num as int;
        lemma_fundamental_div_mod(a, 100);
        lemma_mod_bound(a, 100);
        let q: int = a / 100;
        let r: int = a % 100;
        let big: int = r * nm;
        assert(0 <= big <= 9900) by (nonlinear_arith)
            requires
                big == r * nm,
                0 <= r < 100,
                0 <= nm <= 100,
        ;
        lemma_fundamental_div_mod(big, 100);
        lemma_mod_bound(big, 100);
        let s: int = big / 100;
        let t: int = big % 100;
        assert(a * nm == 100 * (q * nm + s) + t) by (nonlinear_arith)
            requires
                a == 100 * q + r,
                big == r * nm,
                big == 100 * s + t,
        ;
        lemma_div_multiples_vanish_fancy(q * nm + s, t, 100);
        assert(a * nm / 100 == q * nm + s);
        // the pieces stay within bounds: q * nm <= q * 100 <= a and s <= r
        lemma_mul_inequality(nm, 100, q);
        assert(q * 100 <= a);
        assert(big <= r * 100) by (nonlinear_arith)
            requires
                big == r * nm,
                0 <= r,
                nm <= 100,
        ;
        lemma_multiply_divide_le(big, 100, r);
        assert(nm * q == q * nm);
        assert(q * nm + s <= a);
    }
    let high: u128 = quot * (num as u128);
    let low: u128 = rem * (num as u128) / 100;
    high + low
}

/// A settlement payout of `n * (jackpot * (100 / n) / 100)` in total never
/// exceeds the jackpot.
proof fn lemma_payout_total_bound(jackpot: u128, n: int)
    requires
        1 <= n,
    ensures
        n * ((jackpot * (100int / n)) / 100) <= jackpot,
{
    let ratio: int = 100int / n;
    lemma_fundamental_div_mod(100, n);
    lemma_mod_bound(100, n);
    assert(n * ratio <= 100);
    let x: int = jackpot * ratio;
    assert(x >= 0) by (nonlinear_arith)
        requires
            x == jackpot * ratio,
            jackpot >= 0,
            ratio >= 0,
    ;
    lemma_mul_hoist_inequality(n, x, 100);
    assert(n * (x / 100) <= (n * x) / 100);
    assert(n * x <= 100 * jackpot) by (nonlinear_arith)
        requires
            n * ratio <= 100,
            x == jackpot * ratio,
            jackpot >= 0,
            n >= 1,
            ratio >= 0,
    ;
    lemma_div_is_ordered(n * x, 100 * jackpot, 100);
    lemma_div_multiples_vanish(jackpot as int, 100);
}

/// Settles the pool against the oracle value `total_supply`. Before the
/// burn window expires nothing happens. With no bet on the winning key the
/// whole jackpot is declared toward the community pool; the division by the
/// winner count is only reached when at least one winner exists. Otherwise
/// every bettor recorded under the winning key, in arrival order and with
/// duplicates kept, is declared a transfer of
/// `total_jackpot * (100 / count) / 100`; truncation dust stays in custody.
pub fn execute_announce(
    state: &State,
    registry: &BetRegistry,
    block: &BlockInfo,
    total_supply: u128,
) -> (r: Result<Vec<TransferMsg>, ContractError>)
    ensures
        ({
            let winners = registry.bettors_of(total_supply);
            if !state.burn_block.spec_is_expired(*block) {
                r == Err::<Vec<TransferMsg>, ContractError>(ContractError::BurnBlock)
            } else if winners.len() == 0 {
                r matches Ok(msgs) && {
                    &&& msgs@.len() == 1
                    &&& msgs@[0].to_address == state.community_pool_address
                    &&& msgs@[0].denom@ == native_denom()
                    &&& msgs@[0].amount == state.total_jackpot
                }
            } else {
                r matches Ok(msgs) && {
                    let per = state.total_jackpot * (100 as int / winners.len() as int) / 100;
                    &&& msgs@.len() == winners.len()
                    &&& forall|k: int|
                        0 <= k < msgs@.len() ==> (#[trigger] msgs@[k]).to_address@ == winners[k]
                    &&& forall|k: int|
                        0 <= k < msgs@.len() ==> (#[trigger] msgs@[k]).denom@ == native_denom()
                    &&& forall|k: int| 0 <= k < msgs@.len() ==> (#[trigger] msgs@[k]).amount == per
                }
            }
        }),
        r matches Ok(msgs) ==> sum_amounts(msgs@) <= state.total_jackpot,
{
    if !state.burn_block.is_expired(block) {
        return Err(ContractError::BurnBlock);
    }
    let winners: Vec<String> = winners_for(registry, total_supply);
    if winners.len() == 0 {
        let mut resp: Vec<TransferMsg> = Vec::new();
        resp.push(
            TransferMsg {
                to_address: state.community_pool_address.clone(),
                denom: "ujunox".to_owned(),
                amount: state.total_jackpot,
            },
        );
        proof {
            lemma_sum_amounts_push(Seq::<TransferMsg>::empty(), resp@[0]);
        }
        return Ok(resp);
    }
    let winners_length: u64 = winners.len() as u64;
    let ratio_per_winner: u64 = 100 / winners_length;
    let per: u128 = multiply_ratio_per_cent(state.total_jackpot, ratio_per_winner);
    let mut resp: Vec<TransferMsg> = Vec::new();
    let mut i: usize = 0;
    while i < winners.len()
        invariant
            i <= winners.len(),
            resp@.len() == i,
            forall|k: int| 0 <= k < i ==> (#[trigger] resp@[k]).to_address@ == winners@[k]@,
            forall|k: int| 0 <= k < i ==> (#[trigger] resp@[k]).denom@ == native_denom(),
            forall|k: int| 0 <= k < i ==> (#[trigger] resp@[k]).amount == per,
            sum_amounts(resp@) == i * per,
        decreases winners.len() - i,
    {
        let ghost resp0 = resp@;
        let to_address = winners[i].clone();
        resp.push(TransferMsg { to_address, denom: "ujunox".to_owned(), amount: per });
        proof {
            lemma_sum_amounts_push(resp0, resp@[i as int]);
            assert((i + 1) * per == i * per + per) by (nonlinear_arith);
        }
        i += 1;
    }
    proof {
        lemma_payout_total_bound(state.total_jackpot, winners.len() as int);
        assert forall|k: int| 0 <= k < resp@.len() implies (#[trigger] resp@[k]).to_address@
            == registry.bettors_of(total_supply)[k] by {
            assert(names_of(winners@)[k] == winners@[k]@);
        }
    }
    Ok(resp)
}

/// Builds the initial pool state from the initialization input and the
/// height of the block the pool is created in. Both totals start at zero.
pub fn instantiate(msg: InstantiateMsg, bet_init_block: u64) -> (state: State)
    ensures
        state.total_bets == 0,
        state.total_jackpot == 0,
        state.cw20_token_address == msg.cw20_token_address,
        state.community_pool_address == msg.community_pool_address,
        state.bet_start_block == msg.bet_start_block,
        state.bet_end_block == msg.bet_end_block,
        state.burn_block == msg.burn_block,
        state.bet_base_price == msg.bet_base_price,
        state.bet_init_block == bet_init_block,
{
    State {
        total_bets: 0,
        total_jackpot: 0,
        cw20_token_address: msg.cw20_token_address,
        community_pool_address: msg.community_pool_address,
        bet_start_block: msg.bet_start_block,
        bet_end_block: msg.bet_end_block,
        burn_block: msg.burn_block,
        bet_base_price: msg.bet_base_price,
        bet_init_block,
    }
}

pub fn query_total_bets(state: &State) -> (resp: TotalBetsResponse)
    ensures
        resp.total_bets == state.total_bets,
{
    TotalBetsResponse { total_bets: state.total_bets }
}

pub fn query_jackpot(state: &State) -> (resp: JackpotResponse)
    ensures
        resp.jackpot == state.total_jackpot,
{
    JackpotResponse { jackpot: state.total_jackpot }
}

/// The price a bet placed in `block` would have to pay.
pub fn query_bet_price(state: &State, block: &BlockInfo) -> (resp: Result<
    BetPriceResponse,
    ContractError,
>)
    ensures
        quote_ok(*state, block.height) ==> (resp matches Ok(p) && p.bet_price == quote_spec(
            *state,
            block.height,
        )),
        !quote_ok(*state, block.height) ==> resp == Err::<BetPriceResponse, ContractError>(
            ContractError::ArithmeticOverflow,
        ),
{
    match quote(state, block.height) {
        Ok(p) => Ok(BetPriceResponse { bet_price: p }),
        Err(e) => Err(e),
    }
}

/// The guesses the bettor named `address` has placed, in placement order; a
/// bettor with no recorded bet reads as a store failure.
pub fn query_address_bet(registry: &BetRegistry, address: String) -> (resp: Result<
    AddressBetResponse,
    ContractError,
>)
    ensures
        match resp {
            Ok(a) => registry.has_address(address@) && a.bet@ == registry.bets_of(address@),
            Err(e) => !registry.has_address(address@) && e == ContractError::StorageFailure,
        },
{
    match read_address_bet(registry, address) {
        Ok(bets) => Ok(AddressBetResponse { bet: bets }),
        Err(e) => Err(e),
    }
}

/// A bettor's history lists their guesses in placement order: a bettor with
/// no recorded history who places `g1` and then `g2` reads back exactly
/// `[g1, g2]`.
pub proof fn lemma_history_order(
    r0: BetRegistry,
    r1: BetRegistry,
    r2: BetRegistry,
    bettor: Seq<char>,
    g1: u128,
    g2: u128,
)
    requires
        r0.bets_of(bettor) == Seq::<u128>::empty(),
        records_bet(r0, r1, g1, bettor),
        records_bet(r1, r2, g2, bettor),
    ensures
        r2.bets_of(bettor) == seq![g1, g2],
{
    assert(r2.bets_of(bettor) =~= seq![g1, g2]);
}

} // verus!
