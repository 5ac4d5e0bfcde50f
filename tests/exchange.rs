use patraswap::events::{
    AddLiquidity, DotPurchase, Event, NewExchange, RemoveLiquidity, TokenPurchase, Transfer,
};
use patraswap::exchange::{CallContext, PatraExchange, Settlement};
use patraswap::{AccountId, ExchangeError};

fn account(n: u8) -> AccountId {
    AccountId { bytes: [n; 32] }
}

fn ctx(caller: u8, transferred: u128, native_balance: u128, token_reserve: u128) -> CallContext {
    CallContext { caller: account(caller), transferred, native_balance, token_reserve }
}

fn seeded() -> PatraExchange {
    let mut pool = PatraExchange::new(account(9), account(8)).0;
    pool.add_liquidity(&ctx(1, 1_000_000, 1_000_000, 0), 500_000).unwrap();
    pool
}

#[test]
fn seed_then_swap_scenario() {
    let mut pool = PatraExchange::new(account(9), account(8)).0;
    let (minted, outcome) = pool.add_liquidity(&ctx(1, 1_000_000, 1_000_000, 0), 500_000).unwrap();
    assert_eq!(minted, 1_000_000);
    assert_eq!(pool.total_supply(), 1_000_000);
    assert_eq!(pool.balance_of(&account(1)), 1_000_000);
    assert_eq!(outcome.settlement, Settlement { native_out: 0, token_out: 0, token_in: 500_000 });
    assert_eq!(
        outcome.events,
        vec![
            Event::AddLiquidity(AddLiquidity {
                sender: account(1),
                dot_amount: 1_000_000,
                token_amount: 500_000
            }),
            Event::Transfer(Transfer { from: AccountId::zero(), to: account(1), value: 1_000_000 }),
        ]
    );
    let (out, outcome) = pool.dot_to_token_swap_input(&ctx(2, 100_000, 1_100_000, 500_000)).unwrap();
    assert_eq!(out, 45_454);
    assert_eq!(outcome.settlement, Settlement { native_out: 0, token_out: 45_454, token_in: 0 });
    assert_eq!(
        outcome.events,
        vec![Event::TokenPurchase(TokenPurchase {
            buyer: account(2),
            dot_sold: 100_000,
            tokens_bought: 45_454
        })]
    );
}

#[test]
fn seed_below_minimum_is_rejected() {
    let mut pool = PatraExchange::new(account(9), account(8)).0;
    assert_eq!(
        pool.add_liquidity(&ctx(1, 9_999, 9_999, 0), 5).unwrap_err(),
        ExchangeError::BelowMinimumLiquidity
    );
    assert_eq!(pool.total_supply(), 0);
}

#[test]
fn zero_deposit_is_below_minimum() {
    let mut pool = PatraExchange::new(account(9), account(8)).0;
    assert_eq!(pool.add_liquidity(&ctx(1, 0, 0, 0), 5).unwrap_err(), ExchangeError::BelowMinimumLiquidity);
    assert_eq!(pool.add_liquidity(&ctx(1, 0, 0, 0), 0).unwrap_err(), ExchangeError::BelowMinimumLiquidity);
    assert_eq!(pool.total_supply(), 0);
}

#[test]
fn seeded_deposit_with_zero_bound_exceeds_it() {
    let mut pool = seeded();
    assert_eq!(
        pool.add_liquidity(&ctx(2, 100_000, 1_100_000, 500_000), 0).unwrap_err(),
        ExchangeError::SlippageExceeded
    );
    // the tokens required do not even fit in a balance
    assert_eq!(
        pool.add_liquidity(&ctx(2, 2_000_000, 3_000_000, u128::MAX), u128::MAX).unwrap_err(),
        ExchangeError::SlippageExceeded
    );
    assert_eq!(pool.total_supply(), 1_000_000);
}

#[test]
fn new_pool_announces_itself() {
    let (pool, event) = PatraExchange::new(account(9), account(8));
    assert_eq!(event, NewExchange { token: account(9), exchange: account(8) });
    assert_eq!(pool.token_account(), account(9));
    assert_eq!(pool.total_supply(), 0);
    assert_eq!(pool.balance_of(&account(1)), 0);
    assert_eq!(pool.name(), "Patraswap");
    assert_eq!(pool.symbol(), "PAT");
    assert_eq!(pool.decimals(), 18);
}

#[test]
fn exact_output_with_nothing_attached_exceeds_bound() {
    let pool = seeded();
    assert_eq!(
        pool.dot_to_token_swap_output(&ctx(2, 0, 1_000_000, 500_000), 1000).unwrap_err(),
        ExchangeError::SlippageExceeded
    );
}

#[test]
fn exact_output_price_too_large_exceeds_bound() {
    let pool = seeded();
    assert_eq!(
        pool.token_to_dot_swap_output(&ctx(2, 0, 2, u128::MAX), 1, u128::MAX).unwrap_err(),
        ExchangeError::SlippageExceeded
    );
}

#[test]
fn restoring_a_kept_pool() {
    let mut pool = seeded();
    let kept = pool.clone();
    pool.remove_liquidity(&ctx(1, 0, 1_000_000, 500_000), 300_000).unwrap();
    assert_eq!(pool.total_supply(), 700_000);
    // a transfer of the settlement failed: the host puts the kept pool back
    pool = kept;
    assert_eq!(pool.total_supply(), 1_000_000);
    assert_eq!(pool.balance_of(&account(1)), 1_000_000);
}

#[test]
fn seeded_deposit_mints_proportionally() {
    let mut pool = seeded();
    // reserves (1_000_000, 500_000); deposit 100_000 native.
    let (minted, outcome) =
        pool.add_liquidity(&ctx(2, 100_000, 1_100_000, 500_000), 60_000).unwrap();
    assert_eq!(minted, 100_000);
    assert_eq!(outcome.settlement.token_in, 50_001);
    assert_eq!(pool.total_supply(), 1_100_000);
    assert_eq!(pool.balance_of(&account(2)), 100_000);
    assert_eq!(pool.balance_of(&account(1)), 1_000_000);
}

#[test]
fn seeded_deposit_respects_token_bound() {
    let mut pool = seeded();
    assert_eq!(
        pool.add_liquidity(&ctx(2, 100_000, 1_100_000, 500_000), 50_000).unwrap_err(),
        ExchangeError::SlippageExceeded
    );
    assert_eq!(pool.total_supply(), 1_000_000);
    assert_eq!(pool.balance_of(&account(2)), 0);
}

#[test]
fn seeded_deposit_into_drained_pool_is_rejected() {
    let mut pool = seeded();
    assert_eq!(
        pool.add_liquidity(&ctx(2, 100, 100, 500_000), 60_000).unwrap_err(),
        ExchangeError::InvalidReserve
    );
    assert_eq!(
        pool.add_liquidity(&ctx(2, 100, 50, 500_000), 60_000).unwrap_err(),
        ExchangeError::ArithmeticUnderflow
    );
}

#[test]
fn remove_more_than_held_fails() {
    let mut pool = seeded();
    assert_eq!(
        pool.remove_liquidity(&ctx(1, 0, 1_000_000, 500_000), 1_000_001).unwrap_err(),
        ExchangeError::InsufficientBalance
    );
    assert_eq!(pool.total_supply(), 1_000_000);
    assert_eq!(
        pool.remove_liquidity(&ctx(3, 0, 1_000_000, 500_000), 1).unwrap_err(),
        ExchangeError::InsufficientBalance
    );
    assert_eq!(pool.total_supply(), 1_000_000);
}

#[test]
fn remove_zero_or_from_empty_fails() {
    let mut pool = seeded();
    assert_eq!(
        pool.remove_liquidity(&ctx(1, 0, 1_000_000, 500_000), 0).unwrap_err(),
        ExchangeError::NoLiquidity
    );
    let mut empty = PatraExchange::new(account(9), account(8)).0;
    assert_eq!(empty.remove_liquidity(&ctx(1, 0, 0, 0), 0).unwrap_err(), ExchangeError::NoLiquidity);
    assert_eq!(empty.remove_liquidity(&ctx(1, 0, 0, 0), 5).unwrap_err(), ExchangeError::NoLiquidity);
}

#[test]
fn remove_pays_proportionally() {
    let mut pool = seeded();
    let ((native, tokens), outcome) =
        pool.remove_liquidity(&ctx(1, 0, 1_000_000, 500_000), 300_000).unwrap();
    assert_eq!((native, tokens), (300_000, 150_000));
    assert_eq!(outcome.settlement, Settlement { native_out: 300_000, token_out: 150_000, token_in: 0 });
    assert_eq!(
        outcome.events,
        vec![
            Event::RemoveLiquidity(RemoveLiquidity {
                sender: account(1),
                dot_amount: 300_000,
                token_amount: 150_000
            }),
            Event::Transfer(Transfer { from: account(1), to: AccountId::zero(), value: 300_000 }),
        ]
    );
    assert_eq!(pool.total_supply(), 700_000);
    assert_eq!(pool.balance_of(&account(1)), 700_000);
}

#[test]
fn add_then_remove_returns_no_more_than_deposited() {
    let mut pool = seeded();
    // reserves (1_000_000, 500_000) before; deposit 33_333 native.
    let (minted, outcome) =
        pool.add_liquidity(&ctx(2, 33_333, 1_033_333, 500_000), 1_000_000).unwrap();
    let token_in = outcome.settlement.token_in;
    let ((native, tokens), _) =
        pool.remove_liquidity(&ctx(2, 0, 1_033_333, 500_000 + token_in), minted).unwrap();
    assert!(native <= 33_333);
    assert!(tokens <= token_in);
    assert_eq!(pool.balance_of(&account(2)), 0);
    assert_eq!(pool.total_supply(), 1_000_000);
}

#[test]
fn exact_output_refunds_rest() {
    let pool = seeded();
    // cost of 1000 tokens from (1_000_000, 500_000): 1_000_000*1000/499_000 + 1 = 2005
    let (paid, outcome) = pool.dot_to_token_swap_output(&ctx(2, 3000, 1_003_000, 500_000), 1000).unwrap();
    assert_eq!(paid, 2005);
    assert_eq!(outcome.settlement, Settlement { native_out: 995, token_out: 1000, token_in: 0 });
    assert_eq!(
        outcome.events,
        vec![Event::TokenPurchase(TokenPurchase { buyer: account(2), dot_sold: 2005, tokens_bought: 1000 })]
    );
}

#[test]
fn exact_output_beyond_attached_fails() {
    let pool = seeded();
    assert_eq!(
        pool.dot_to_token_swap_output(&ctx(2, 2004, 1_002_004, 500_000), 1000).unwrap_err(),
        ExchangeError::SlippageExceeded
    );
    assert_eq!(
        pool.dot_to_token_swap_output(&ctx(2, 2004, 1_002_004, 500_000), 500_000).unwrap_err(),
        ExchangeError::InsufficientReserve
    );
}

#[test]
fn token_to_dot_swaps() {
    let pool = seeded();
    let (got, outcome) = pool.token_to_dot_swap_input(&ctx(2, 0, 1_000_000, 500_000), 50_000).unwrap();
    // 50_000 * 1_000_000 / 550_000 = 90_909
    assert_eq!(got, 90_909);
    assert_eq!(outcome.settlement, Settlement { native_out: 90_909, token_out: 0, token_in: 50_000 });
    assert_eq!(
        outcome.events,
        vec![Event::DotPurchase(DotPurchase { buyer: account(2), tokens_sold: 50_000, dot_bought: 90_909 })]
    );
    // 500_000 * 1000 / 999_000 + 1 = 501
    let (paid, outcome) =
        pool.token_to_dot_swap_output(&ctx(2, 0, 1_000_000, 500_000), 1000, 600).unwrap();
    assert_eq!(paid, 501);
    assert_eq!(outcome.settlement, Settlement { native_out: 1000, token_out: 0, token_in: 501 });
    assert_eq!(
        pool.token_to_dot_swap_output(&ctx(2, 0, 1_000_000, 500_000), 1000, 500).unwrap_err(),
        ExchangeError::SlippageExceeded
    );
}

#[test]
fn zero_swaps_are_rejected() {
    let pool = seeded();
    assert_eq!(pool.dot_to_token_swap_input(&ctx(2, 0, 1_000_000, 500_000)).unwrap_err(), ExchangeError::InvalidAmount);
    assert_eq!(pool.token_to_dot_swap_input(&ctx(2, 0, 1_000_000, 500_000), 0).unwrap_err(), ExchangeError::InvalidAmount);
    assert_eq!(pool.token_to_dot_swap_output(&ctx(2, 0, 1_000_000, 500_000), 0, 9).unwrap_err(), ExchangeError::InvalidAmount);
    assert_eq!(pool.dot_to_token_swap_output(&ctx(2, 5, 1_000_005, 500_000), 0).unwrap_err(), ExchangeError::InvalidAmount);
}

#[test]
fn swap_on_empty_pool_fails() {
    let pool = PatraExchange::new(account(9), account(8)).0;
    assert_eq!(pool.dot_to_token_swap_input(&ctx(2, 10, 10, 0)).unwrap_err(), ExchangeError::InvalidReserve);
}

#[test]
fn token_to_token_is_not_implemented() {
    let pool = seeded();
    assert_eq!(pool.token_to_token_swap_input(1, 1, 1, account(5)), Err(ExchangeError::NotImplemented));
    assert_eq!(pool.token_to_token_swap_output(1, 1, 1, account(5)), Err(ExchangeError::NotImplemented));
}

#[test]
fn price_queries() {
    let pool = seeded();
    let c = ctx(2, 0, 1_000_000, 500_000);
    assert_eq!(pool.get_dot_to_token_input_price(&c, 100_000), Ok(45_454));
    assert_eq!(pool.get_token_to_dot_input_price(&c, 50_000), Ok(90_909));
    assert_eq!(pool.get_dot_to_token_output_price(&c, 1000), Ok(2005));
    assert_eq!(pool.get_token_to_dot_output_price(&c, 1000), Ok(501));
    assert_eq!(pool.get_dot_to_token_input_price(&c, 0), Err(ExchangeError::InvalidAmount));
}
