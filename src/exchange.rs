//! One constant-product pool between the native asset and one token, with
//! its share ledger. The host reports the pool's balances and the caller for
//! each call; each operation answers with what must be settled (transfers)
//! and what must be announced (events), or with why it was rejected, in which
//! case nothing changes.
use vstd::prelude::*;
use crate::events::{
    AddLiquidity,
    DotPurchase,
    Event,
    NewExchange,
    RemoveLiquidity,
    TokenPurchase,
    Transfer,
};
use crate::ledger::ShareLedger;
use crate::pricing::{
    as_int_result,
    get_input_price,
    get_output_price,
    input_price_result,
    lemma_div_bounds,
    mul_div,
    output_price_result,
};
use crate::types::{zero_bytes, AccountId, Balance, ExchangeError};

verus! {

/// The smallest native deposit that may seed an empty pool.
pub const MIN_LIQUIDITY: Balance = 10000;

/// The decimals of the pool's shares.
pub const SHARE_DECIMALS: u128 = 18;

/// What the host reports at the start of a call.
#[derive(Clone, Copy, Debug, PartialEq, Eq)]
pub struct CallContext {
    /// Who calls.
    pub caller: AccountId,
    /// Native currency attached to the call.
    pub transferred: Balance,
    /// The pool's own native balance, the attached currency included.
    pub native_balance: Balance,
    /// The token ledger's balance of the pool's account.
    pub token_reserve: Balance,
}

/// The transfers that carry out an accepted operation.
#[derive(Clone, Copy, Debug, PartialEq, Eq)]
pub struct Settlement {
    /// Native currency the pool sends to the caller.
    pub native_out: Balance,
    /// Tokens the pool sends to the caller (token `transfer`).
    pub token_out: Balance,
    /// Tokens the pool pulls from the caller (token `transfer_from`).
    pub token_in: Balance,
}

/// What an accepted operation settles and announces.
#[derive(Debug, PartialEq, Eq)]
pub struct Outcome {
    pub settlement: Settlement,
    pub events: Vec<Event>,
}

/// Lifts a pricing result through a slippage bound: a price above the
/// bound, or too large to fit, exceeds it.
pub open spec fn bounded(r: Result<int, ExchangeError>, bound: int) -> Result<int, ExchangeError> {
    match r {
        Ok(p) => if p > bound {
            Err(ExchangeError::SlippageExceeded)
        } else {
            Ok(p)
        },
        Err(ExchangeError::ArithmeticOverflow) => Err(ExchangeError::SlippageExceeded),
        Err(e) => Err(e),
    }
}

/// Tokens bought with all the attached native currency.
pub open spec fn dot_to_token_input_result(c: CallContext) -> Result<int, ExchangeError> {
    if c.transferred == 0 {
        Err(ExchangeError::InvalidAmount)
    } else if c.native_balance < c.transferred {
        Err(ExchangeError::ArithmeticUnderflow)
    } else {
        input_price_result(
            c.transferred as int,
            c.native_balance - c.transferred,
            c.token_reserve as int,
        )
    }
}

/// Native currency paid for exactly `tokens_bought`, at most the attached amount.
pub open spec fn dot_to_token_output_result(c: CallContext, tokens_bought: int) -> Result<
    int,
    ExchangeError,
> {
    if tokens_bought == 0 {
        Err(ExchangeError::InvalidAmount)
    } else if c.native_balance < c.transferred {
        Err(ExchangeError::ArithmeticUnderflow)
    } else {
        bounded(
            output_price_result(
                tokens_bought,
                c.native_balance - c.transferred,
                c.token_reserve as int,
            ),
            c.transferred as int,
        )
    }
}

/// Native currency bought with exactly `tokens_sold`.
pub open spec fn token_to_dot_input_result(c: CallContext, tokens_sold: int) -> Result<
    int,
    ExchangeError,
> {
    if tokens_sold == 0 {
        Err(ExchangeError::InvalidAmount)
    } else {
        input_price_result(tokens_sold, c.token_reserve as int, c.native_balance as int)
    }
}

/// Tokens paid for exactly `dot_bought`, at most `max_tokens`.
pub open spec fn token_to_dot_output_result(
    c: CallContext,
    dot_bought: int,
    max_tokens: int,
) -> Result<int, ExchangeError> {
    if dot_bought == 0 {
        Err(ExchangeError::InvalidAmount)
    } else {
        bounded(
            output_price_result(dot_bought, c.token_reserve as int, c.native_balance as int),
            max_tokens,
        )
    }
}

/// `(shares minted, tokens pulled)` for a deposit of `value` native currency
/// into a pool with `total` shares. `native_balance` includes `value`.
pub open spec fn add_liquidity_result(
    total: int,
    value: int,
    native_balance: int,
    token_reserve: int,
    max_tokens: int,
) -> Result<(int, int), ExchangeError> {
    if total > 0 {
        let native_reserve = native_balance - value;
        if native_balance < value {
            Err(ExchangeError::ArithmeticUnderflow)
        } else if native_reserve == 0 {
            Err(ExchangeError::InvalidReserve)
        } else if (value * token_reserve) / native_reserve + 1 > max_tokens {
            Err(ExchangeError::SlippageExceeded)
        } else if (value * total) / native_reserve > u128::MAX || total + (value * total)
            / native_reserve > u128::MAX {
            Err(ExchangeError::ArithmeticOverflow)
        } else {
            Ok(((value * total) / native_reserve, (value * token_reserve) / native_reserve + 1))
        }
    } else if value < MIN_LIQUIDITY {
        Err(ExchangeError::BelowMinimumLiquidity)
    } else {
        Ok((value, max_tokens))
    }
}

/// `(native, tokens)` paid out for burning `share` of the caller's `held`
/// shares out of `total`.
pub open spec fn remove_liquidity_result(
    total: int,
    held: int,
    share: int,
    native_balance: int,
    token_reserve: int,
) -> Result<(int, int), ExchangeError> {
    if share == 0 || total == 0 {
        Err(ExchangeError::NoLiquidity)
    } else if share > held {
        Err(ExchangeError::InsufficientBalance)
    } else {
        Ok(((share * native_balance) / total, (share * token_reserve) / total))
    }
}

/// `e` announces `value` shares minted to `to`.
pub open spec fn is_mint(e: Event, to: AccountId, value: Balance) -> bool {
    match e {
        Event::Transfer(t) => t.from@ == zero_bytes() && t.to == to && t.value == value,
        _ => false,
    }
}

/// `e` announces `value` shares of `from` burned.
pub open spec fn is_burn(e: Event, from: AccountId, value: Balance) -> bool {
    match e {
        Event::Transfer(t) => t.to@ == zero_bytes() && t.from == from && t.value == value,
        _ => false,
    }
}

/// A part of the shares never claims more than the whole reserve.
proof fn lemma_part_le_whole(share: int, total: int, reserve: int)
    requires
        0 <= share <= total,
        total > 0,
        reserve >= 0,
    ensures
        (share * reserve) / total <= reserve,
{
    assert(share * reserve >= 0 && share * reserve <= total * reserve) by (nonlinear_arith)
        requires
            0 <= share <= total,
            reserve >= 0,
    ;
    lemma_div_bounds(share * reserve, total);
    assert((share * reserve) / total <= reserve) by (nonlinear_arith)
        requires
            total * ((share * reserve) / total) <= share * reserve,
            share * reserve <= total * reserve,
            total > 0,
    ;
}

fn one_event(e: Event) -> (r: Vec<Event>)
    ensures
        r@ == seq![e],
{
    let mut v = Vec::new();
    v.push(e);
    assert(v@ =~= seq![e]);
    v
}

fn two_events(e: Event, f: Event) -> (r: Vec<Event>)
    ensures
        r@ == seq![e, f],
{
    let mut v = Vec::new();
    v.push(e);
    v.push(f);
    assert(v@ =~= seq![e, f]);
    v
}

/// A pool trading the native asset against the token at `token_account`.
/// A host keeps a clone while it carries out an operation's settlement, and
/// puts it back when a transfer fails.
#[derive(Clone)]
pub struct PatraExchange {
    name: String,
    symbol: String,
    decimals: u128,
    ledger: ShareLedger,
    token_account: AccountId,
}

impl PatraExchange {
    /// The pool's invariant: its ledger is consistent.
    pub closed spec fn wf(&self) -> bool {
        self.ledger.wf()
    }

    /// The shares that `holder` has.
    pub closed spec fn shares(&self, holder: Seq<u8>) -> nat {
        self.ledger.balance(holder)
    }

    /// The total of all shares.
    pub closed spec fn supply(&self) -> nat {
        self.ledger.total()
    }

    /// The token this pool trades.
    pub closed spec fn token(&self) -> AccountId {
        self.token_account
    }

    /// The pool's display name, symbol and share decimals.
    pub closed spec fn labels(&self) -> (Seq<char>, Seq<char>, u128) {
        (self.name@, self.symbol@, self.decimals)
    }

    /// No holder has more shares than the total; so a pool without shares
    /// has no holder.
    pub proof fn lemma_shares_le_supply(&self, holder: Seq<u8>)
        requires
            self.wf(),
        ensures
            self.shares(holder) <= self.supply(),
    {
        self.ledger.lemma_balance_le_total(holder);
    }

    /// An empty pool at `own_account` for the token at `token_account`, with
    /// the event that announces it.
    pub fn new(token_account: AccountId, own_account: AccountId) -> (r: (PatraExchange, NewExchange))
        ensures
            r.0.wf(),
            r.0.supply() == 0,
            forall|h: Seq<u8>| r.0.shares(h) == 0,
            r.0.token() == token_account,
            r.0.labels() == ("Patraswap"@, "PAT"@, SHARE_DECIMALS),
            r.1 == (NewExchange { token: token_account, exchange: own_account }),
    {
        let pool = PatraExchange {
            name: "Patraswap".to_owned(),
            symbol: "PAT".to_owned(),
            decimals: SHARE_DECIMALS,
            ledger: ShareLedger::new(),
            token_account,
        };
        (pool, NewExchange { token: token_account, exchange: own_account })
    }

    /// Sells all the attached native currency for tokens; returns the tokens bought.
    pub fn dot_to_token_swap_input(&self, ctx: &CallContext) -> (r: Result<
        (Balance, Outcome),
        ExchangeError,
    >)
        ensures
            match r {
                Ok((v, o)) => {
                    &&& dot_to_token_input_result(*ctx) == Ok::<int, ExchangeError>(v as int)
                    &&& o.settlement == (Settlement { native_out: 0, token_out: v, token_in: 0 })
                    &&& o.events@ == seq![
                        Event::TokenPurchase(
                            (TokenPurchase {
                                buyer: ctx.caller,
                                dot_sold: ctx.transferred,
                                tokens_bought: v,
                            }),
                        ),
                    ]
                },
                Err(e) => dot_to_token_input_result(*ctx) == Err::<int, ExchangeError>(e),
            },
    {
        let dot_sold = ctx.transferred;
        if dot_sold == 0 {
            return Err(ExchangeError::InvalidAmount);
        }
        if ctx.native_balance < dot_sold {
            return Err(ExchangeError::ArithmeticUnderflow);
        }
        let p = get_input_price(dot_sold, ctx.native_balance - dot_sold, ctx.token_reserve);
        let tokens_bought = match p {
            Ok(v) => v,
            Err(e) => return Err(e),
        };
        let event = Event::TokenPurchase(
            TokenPurchase { buyer: ctx.caller, dot_sold, tokens_bought },
        );
        let settlement = Settlement { native_out: 0, token_out: tokens_bought, token_in: 0 };
        Ok((tokens_bought, Outcome { settlement, events: one_event(event) }))
    }
    /// Buys exactly `tokens_bought` with the attached native currency, which
    /// bounds the price; the rest is refunded. Returns the native currency paid.
    pub fn dot_to_token_swap_output(&self, ctx: &CallContext, tokens_bought: Balance) -> (r:
        Result<(Balance, Outcome), ExchangeError>)
        ensures
            match r {
                Ok((v, o)) => {
                    &&& dot_to_token_output_result(*ctx, tokens_bought as int) == Ok::<
                        int,
                        ExchangeError,
                    >(v as int)
                    &&& o.settlement == (Settlement {
                        native_out: (ctx.transferred - v) as Balance,
                        token_out: tokens_bought,
                        token_in: 0,
                    })
                    &&& o.events@ == seq![
                        Event::TokenPurchase(
                            (TokenPurchase { buyer: ctx.caller, dot_sold: v, tokens_bought }),
                        ),
                    ]
                },
                Err(e) => dot_to_token_output_result(*ctx, tokens_bought as int) == Err::<
                    int,
                    ExchangeError,
                >(e),
            },
    {
        let max_dot = ctx.transferred;
        if tokens_bought == 0 {
            return Err(ExchangeError::InvalidAmount);
        }
        if ctx.native_balance < max_dot {
            return Err(ExchangeError::ArithmeticUnderflow);
        }
        let p = get_output_price(tokens_bought, ctx.native_balance - max_dot, ctx.token_reserve);
        let dot_sold = match p {
            Ok(v) => v,
            Err(ExchangeError::ArithmeticOverflow) => return Err(ExchangeError::SlippageExceeded),
            Err(e) => return Err(e),
        };
        if dot_sold > max_dot {
            return Err(ExchangeError::SlippageExceeded);
        }
        let event = Event::TokenPurchase(TokenPurchase { buyer: ctx.caller, dot_sold, tokens_bought });
        let settlement = Settlement {
            native_out: max_dot - dot_sold,
            token_out: tokens_bought,
            token_in: 0,
        };
        Ok((dot_sold, Outcome { settlement, events: one_event(event) }))
    }

    /// Sells exactly `tokens_sold` for native currency; returns the native
    /// currency bought.
    pub fn token_to_dot_swap_input(&self, ctx: &CallContext, tokens_sold: Balance) -> (r: Result<
        (Balance, Outcome),
        ExchangeError,
    >)
        ensures
            match r {
                Ok((v, o)) => {
                    &&& token_to_dot_input_result(*ctx, tokens_sold as int) == Ok::<
                        int,
                        ExchangeError,
                    >(v as int)
                    &&& o.settlement == (Settlement {
                        native_out: v,
                        token_out: 0,
                        token_in: tokens_sold,
                    })
                    &&& o.events@ == seq![
                        Event::DotPurchase(
                            (DotPurchase { buyer: ctx.caller, tokens_sold, dot_bought: v }),
                        ),
                    ]
                },
                Err(e) => token_to_dot_input_result(*ctx, tokens_sold as int) == Err::<
                    int,
                    ExchangeError,
                >(e),
            },
    {
        if tokens_sold == 0 {
            return Err(ExchangeError::InvalidAmount);
        }
        let p = get_input_price(tokens_sold, ctx.token_reserve, ctx.native_balance);
        let dot_bought = match p {
            Ok(v) => v,
            Err(e) => return Err(e),
        };
        let event = Event::DotPurchase(DotPurchase { buyer: ctx.caller, tokens_sold, dot_bought });
        let settlement = Settlement { native_out: dot_bought, token_out: 0, token_in: tokens_sold };
        Ok((dot_bought, Outcome { settlement, events: one_event(event) }))
    }

    /// Buys exactly `dot_bought` native currency for at most `max_tokens`
    /// tokens; returns the tokens paid.
    pub fn token_to_dot_swap_output(
        &self,
        ctx: &CallContext,
        dot_bought: Balance,
        max_tokens: Balance,
    ) -> (r: Result<(Balance, Outcome), ExchangeError>)
        ensures
            match r {
                Ok((v, o)) => {
                    &&& token_to_dot_output_result(
                        *ctx,
                        dot_bought as int,
                        max_tokens as int,
                    ) == Ok::<int, ExchangeError>(v as int)
                    &&& o.settlement == (Settlement {
                        native_out: dot_bought,
                        token_out: 0,
                        token_in: v,
                    })
                    &&& o.events@ == seq![
                        Event::DotPurchase(
                            (DotPurchase { buyer: ctx.caller, tokens_sold: v, dot_bought }),
                        ),
                    ]
                },
                Err(e) => token_to_dot_output_result(
                    *ctx,
                    dot_bought as int,
                    max_tokens as int,
                ) == Err::<int, ExchangeError>(e),
            },
    {
        if dot_bought == 0 {
            return Err(ExchangeError::InvalidAmount);
        }
        let p = get_output_price(dot_bought, ctx.token_reserve, ctx.native_balance);
        let tokens_sold = match p {
            Ok(v) => v,
            Err(ExchangeError::ArithmeticOverflow) => return Err(ExchangeError::SlippageExceeded),
            Err(e) => return Err(e),
        };
        if tokens_sold > max_tokens {
            return Err(ExchangeError::SlippageExceeded);
        }
        let event = Event::DotPurchase(DotPurchase { buyer: ctx.caller, tokens_sold, dot_bought });
        let settlement = Settlement { native_out: dot_bought, token_out: 0, token_in: tokens_sold };
        Ok((tokens_sold, Outcome { settlement, events: one_event(event) }))
    }

    /// Token-to-token trades need routing through a second pool, which does
    /// not exist: always rejected.
    pub fn token_to_token_swap_input(
        &self,
        _tokens_sold: Balance,
        _min_tokens_bought: Balance,
        _min_dot_bought: Balance,
        _token_addr: AccountId,
    ) -> (r: Result<Balance, ExchangeError>)
        ensures
            r == Err::<Balance, ExchangeError>(ExchangeError::NotImplemented),
    {
        Err(ExchangeError::NotImplemented)
    }

    /// Token-to-token trades need routing through a second pool, which does
    /// not exist: always rejected.
    pub fn token_to_token_swap_output(
        &self,
        _tokens_bought: Balance,
        _max_tokens_sold: Balance,
        _max_dot_sold: Balance,
        _token_addr: AccountId,
    ) -> (r: Result<Balance, ExchangeError>)
        ensures
            r == Err::<Balance, ExchangeError>(ExchangeError::NotImplemented),
    {
        Err(ExchangeError::NotImplemented)
    }

    /// The native currency that selling exactly `tokens_sold` would bring.
    pub fn get_token_to_dot_input_price(&self, ctx: &CallContext, tokens_sold: Balance) -> (r:
        Result<Balance, ExchangeError>)
        ensures
            as_int_result(r) == (if tokens_sold == 0 {
                Err(ExchangeError::InvalidAmount)
            } else {
                input_price_result(
                    tokens_sold as int,
                    ctx.token_reserve as int,
                    ctx.native_balance as int,
                )
            }),
    {
        if tokens_sold == 0 {
            return Err(ExchangeError::InvalidAmount);
        }
        get_input_price(tokens_sold, ctx.token_reserve, ctx.native_balance)
    }

    /// The tokens that selling exactly `dot_sold` native currency would bring.
    pub fn get_dot_to_token_input_price(&self, ctx: &CallContext, dot_sold: Balance) -> (r: Result<
        Balance,
        ExchangeError,
    >)
        ensures
            as_int_result(r) == (if dot_sold == 0 {
                Err(ExchangeError::InvalidAmount)
            } else {
                input_price_result(
                    dot_sold as int,
                    ctx.native_balance as int,
                    ctx.token_reserve as int,
                )
            }),
    {
        if dot_sold == 0 {
            return Err(ExchangeError::InvalidAmount);
        }
        get_input_price(dot_sold, ctx.native_balance, ctx.token_reserve)
    }

    /// The native currency that buying exactly `tokens_bought` would cost.
    pub fn get_dot_to_token_output_price(&self, ctx: &CallContext, tokens_bought: Balance) -> (r:
        Result<Balance, ExchangeError>)
        ensures
            as_int_result(r) == (if tokens_bought == 0 {
                Err(ExchangeError::InvalidAmount)
            } else {
                output_price_result(
                    tokens_bought as int,
                    ctx.native_balance as int,
                    ctx.token_reserve as int,
                )
            }),
    {
        if tokens_bought == 0 {
            return Err(ExchangeError::InvalidAmount);
        }
        get_output_price(tokens_bought, ctx.native_balance, ctx.token_reserve)
    }

    /// The tokens that buying exactly `dot_bought` native currency would cost.
    pub fn get_token_to_dot_output_price(&self, ctx: &CallContext, dot_bought: Balance) -> (r:
        Result<Balance, ExchangeError>)
        ensures
            as_int_result(r) == (if dot_bought == 0 {
                Err(ExchangeError::InvalidAmount)
            } else {
                output_price_result(
                    dot_bought as int,
                    ctx.token_reserve as int,
                    ctx.native_balance as int,
                )
            }),
    {
        if dot_bought == 0 {
            return Err(ExchangeError::InvalidAmount);
        }
        get_output_price(dot_bought, ctx.token_reserve, ctx.native_balance)
    }
    /// Deposits the attached native currency and tokens for shares; returns
    /// the shares minted. An empty pool is seeded at the caller's ratio with
    /// exactly `max_tokens` tokens; otherwise the tokens needed at the
    /// current ratio are rounded up and may not exceed `max_tokens`.
    pub fn add_liquidity(&mut self, ctx: &CallContext, max_tokens: Balance) -> (r: Result<
        (Balance, Outcome),
        ExchangeError,
    >)
        requires
            old(self).wf(),
        ensures
            final(self).wf(),
            final(self).token() == old(self).token(),
            final(self).labels() == old(self).labels(),
            match r {
                Ok((minted, o)) => {
                    &&& add_liquidity_result(
                        old(self).supply() as int,
                        ctx.transferred as int,
                        ctx.native_balance as int,
                        ctx.token_reserve as int,
                        max_tokens as int,
                    ) == Ok::<(int, int), ExchangeError>((minted as int, o.settlement.token_in as int))
                    &&& o.settlement.native_out == 0
                    &&& o.settlement.token_out == 0
                    &&& o.events@.len() == 2
                    &&& o.events@[0] == Event::AddLiquidity(
                        (AddLiquidity {
                            sender: ctx.caller,
                            dot_amount: ctx.transferred,
                            token_amount: o.settlement.token_in,
                        }),
                    )
                    &&& is_mint(o.events@[1], ctx.caller, minted)
                    &&& final(self).supply() == old(self).supply() + minted
                    &&& final(self).shares(ctx.caller@) == old(self).shares(ctx.caller@) + minted
                    &&& forall|h: Seq<u8>|
                        h != ctx.caller@ ==> #[trigger] final(self).shares(h) == old(self).shares(h)
                },
                Err(e) => {
                    &&& add_liquidity_result(
                        old(self).supply() as int,
                        ctx.transferred as int,
                        ctx.native_balance as int,
                        ctx.token_reserve as int,
                        max_tokens as int,
                    ) == Err::<(int, int), ExchangeError>(e)
                    &&& *final(self) == *old(self)
                },
            },
    {
        let value = ctx.transferred;
        let total = self.ledger.total_supply();
        let minted: Balance;
        let token_amount: Balance;
        if total > 0 {
            if ctx.native_balance < value {
                return Err(ExchangeError::ArithmeticUnderflow);
            }
            let native_reserve = ctx.native_balance - value;
            if native_reserve == 0 {
                return Err(ExchangeError::InvalidReserve);
            }
            let token_share = match mul_div(value, ctx.token_reserve, native_reserve) {
                Some(v) => v,
                None => return Err(ExchangeError::SlippageExceeded),
            };
            if token_share >= max_tokens {
                return Err(ExchangeError::SlippageExceeded);
            }
            token_amount = token_share + 1;
            minted = match mul_div(value, total, native_reserve) {
                Some(v) => v,
                None => return Err(ExchangeError::ArithmeticOverflow),
            };
        } else {
            if value < MIN_LIQUIDITY {
                return Err(ExchangeError::BelowMinimumLiquidity);
            }
            minted = value;
            token_amount = max_tokens;
        }
        match self.ledger.mint(&ctx.caller, minted) {
            Ok(()) => {},
            Err(e) => return Err(e),
        }
        let added = Event::AddLiquidity(
            AddLiquidity { sender: ctx.caller, dot_amount: value, token_amount },
        );
        let transfer = Event::Transfer(
            Transfer { from: AccountId::zero(), to: ctx.caller, value: minted },
        );
        let settlement = Settlement { native_out: 0, token_out: 0, token_in: token_amount };
        Ok((minted, Outcome { settlement, events: two_events(added, transfer) }))
    }

    /// Burns `lp_amount` of the caller's shares for the same fraction of both
    /// reserves, rounded down; returns `(native, tokens)` paid out.
    pub fn remove_liquidity(&mut self, ctx: &CallContext, lp_amount: Balance) -> (r: Result<
        ((Balance, Balance), Outcome),
        ExchangeError,
    >)
        requires
            old(self).wf(),
        ensures
            final(self).wf(),
            final(self).token() == old(self).token(),
            final(self).labels() == old(self).labels(),
            lp_amount > old(self).shares(ctx.caller@) ==> {
                &&& r is Err
                &&& final(self).supply() == old(self).supply()
                &&& old(self).supply() > 0 ==> r matches Err(ExchangeError::InsufficientBalance)
            },
            match r {
                Ok(((native, tokens), o)) => {
                    &&& remove_liquidity_result(
                        old(self).supply() as int,
                        old(self).shares(ctx.caller@) as int,
                        lp_amount as int,
                        ctx.native_balance as int,
                        ctx.token_reserve as int,
                    ) == Ok::<(int, int), ExchangeError>((native as int, tokens as int))
                    &&& o.settlement == (Settlement {
                        native_out: native,
                        token_out: tokens,
                        token_in: 0,
                    })
                    &&& o.events@.len() == 2
                    &&& o.events@[0] == Event::RemoveLiquidity(
                        (RemoveLiquidity {
                            sender: ctx.caller,
                            dot_amount: native,
                            token_amount: tokens,
                        }),
                    )
                    &&& is_burn(o.events@[1], ctx.caller, lp_amount)
                    &&& final(self).supply() == old(self).supply() - lp_amount
                    &&& final(self).shares(ctx.caller@) == old(self).shares(ctx.caller@)
                        - lp_amount
                    &&& forall|h: Seq<u8>|
                        h != ctx.caller@ ==> #[trigger] final(self).shares(h) == old(self).shares(h)
                },
                Err(e) => {
                    &&& remove_liquidity_result(
                        old(self).supply() as int,
                        old(self).shares(ctx.caller@) as int,
                        lp_amount as int,
                        ctx.native_balance as int,
                        ctx.token_reserve as int,
                    ) == Err::<(int, int), ExchangeError>(e)
                    &&& *final(self) == *old(self)
                },
            },
    {
        let held = self.ledger.balance_of(&ctx.caller);
        proof {
            self.ledger.lemma_balance_le_total(ctx.caller@);
        }
        let total = self.ledger.total_supply();
        if lp_amount == 0 || total == 0 {
            return Err(ExchangeError::NoLiquidity);
        }
        if lp_amount > held {
            return Err(ExchangeError::InsufficientBalance);
        }
        proof {
            lemma_part_le_whole(lp_amount as int, total as int, ctx.native_balance as int);
            lemma_part_le_whole(lp_amount as int, total as int, ctx.token_reserve as int);
        }
        let native = match mul_div(lp_amount, ctx.native_balance, total) {
            Some(v) => v,
            None => return Err(ExchangeError::ArithmeticOverflow),
        };
        let tokens = match mul_div(lp_amount, ctx.token_reserve, total) {
            Some(v) => v,
            None => return Err(ExchangeError::ArithmeticOverflow),
        };
        match self.ledger.burn(&ctx.caller, lp_amount) {
            Ok(()) => {},
            Err(e) => return Err(e),
        }
        let removed = Event::RemoveLiquidity(
            RemoveLiquidity { sender: ctx.caller, dot_amount: native, token_amount: tokens },
        );
        let transfer = Event::Transfer(
            Transfer { from: ctx.caller, to: AccountId::zero(), value: lp_amount },
        );
        let settlement = Settlement { native_out: native, token_out: tokens, token_in: 0 };
        Ok(((native, tokens), Outcome { settlement, events: two_events(removed, transfer) }))
    }

    /// The display name of the shares.
    pub fn name(&self) -> (r: &str)
        ensures
            r@ == self.labels().0,
    {
        self.name.as_str()
    }

    /// The symbol of the shares.
    pub fn symbol(&self) -> (r: &str)
        ensures
            r@ == self.labels().1,
    {
        self.symbol.as_str()
    }

    /// The decimals of the shares.
    pub fn decimals(&self) -> (r: u128)
        ensures
            r == self.labels().2,
    {
        self.decimals
    }

    /// The token this pool trades.
    pub fn token_account(&self) -> (r: AccountId)
        ensures
            r == self.token(),
    {
        self.token_account
    }

    /// The total of all shares.
    pub fn total_supply(&self) -> (r: Balance)
        requires
            self.wf(),
        ensures
            r as nat == self.supply(),
    {
        self.ledger.total_supply()
    }

    /// The shares that `owner` has (0 for one never seen).
    pub fn balance_of(&self, owner: &AccountId) -> (r: Balance)
        requires
            self.wf(),
        ensures
            r as nat == self.shares(owner@),
    {
        self.ledger.balance_of(owner)
    }
}

/// Depositing and then withdrawing all the shares just minted never returns
/// more native currency or tokens than were deposited. `held` is what the
/// depositor had before. It is stated for a seeded pool, and for an empty one
/// that holds no reserves yet: an empty pool that still holds currency or
/// tokens hands them to its first depositor.
pub proof fn lemma_add_then_remove_favours_pool(
    total: int,
    held: int,
    value: int,
    native_balance: int,
    token_reserve: int,
    max_tokens: int,
)
    requires
        0 <= held <= total,
        0 <= value,
        0 <= native_balance,
        0 <= token_reserve,
        0 <= max_tokens,
        add_liquidity_result(total, value, native_balance, token_reserve, max_tokens) is Ok,
        total == 0 ==> native_balance == value && token_reserve == 0,
    ensures
        ({
            let (minted, token_amount) = add_liquidity_result(
                total,
                value,
                native_balance,
                token_reserve,
                max_tokens,
            )->Ok_0;
            match remove_liquidity_result(
                total + minted,
                held + minted,
                minted,
                native_balance,
                token_reserve + token_amount,
            ) {
                Ok((native, tokens)) => native <= value && tokens <= token_amount,
                Err(_) => true,
            }
        }),
{
    let (minted, token_amount) = add_liquidity_result(
        total,
        value,
        native_balance,
        token_reserve,
        max_tokens,
    )->Ok_0;
    if total > 0 {
        let r = native_balance - value;
        let m = minted;
        let ta = token_amount;
        let t = token_reserve;
        assert(m == (value * total) / r && ta == (value * t) / r + 1);
        assert(value * total >= 0 && value * t >= 0) by (nonlinear_arith)
            requires
                value >= 0,
                total >= 0,
                t >= 0,
        ;
        lemma_div_bounds(value * total, r);
        lemma_div_bounds(value * t, r);
        let s = total + m;
        assert(s > 0);
        let nn = m * native_balance;
        let tn = m * (t + ta);
        assert(nn >= 0 && tn >= 0) by (nonlinear_arith)
            requires
                nn == m * native_balance,
                tn == m * (t + ta),
                m >= 0,
                native_balance >= 0,
                t >= 0,
                ta >= 0,
        ;
        lemma_div_bounds(nn, s);
        lemma_div_bounds(tn, s);
        assert(nn <= value * s) by (nonlinear_arith)
            requires
                r * m <= value * total,
                nn == m * native_balance,
                native_balance == r + value,
                s == total + m,
        ;
        assert(nn / s <= value) by (nonlinear_arith)
            requires
                s * (nn / s) <= nn,
                nn <= value * s,
                s > 0,
        ;
        assert(m * t * r <= value * total * t) by (nonlinear_arith)
            requires
                r * m <= value * total,
                t >= 0,
        ;
        assert(value * t * total < r * ta * total) by (nonlinear_arith)
            requires
                value * t < r * ((value * t) / r) + r,
                ta == (value * t) / r + 1,
                total > 0,
        ;
        assert(m * t < ta * total) by (nonlinear_arith)
            requires
                m * t * r <= value * total * t,
                value * t * total < r * ta * total,
                r > 0,
        ;
        assert(tn <= ta * s) by (nonlinear_arith)
            requires
                m * t < ta * total,
                tn == m * (t + ta),
                s == total + m,
        ;
        assert(tn / s <= ta) by (nonlinear_arith)
            requires
                s * (tn / s) <= tn,
                tn <= ta * s,
                s > 0,
        ;
    } else {
        assert(minted == value && token_amount == max_tokens);
        lemma_div_bounds(value * value, value);
        lemma_div_bounds(value * max_tokens, value);
        assert((value * value) / value <= value) by (nonlinear_arith)
            requires
                value * ((value * value) / value) <= value * value,
                value > 0,
        ;
        assert((value * max_tokens) / value <= max_tokens) by (nonlinear_arith)
            requires
                value * ((value * max_tokens) / value) <= value * max_tokens,
                value > 0,
        ;
    }
}

} // verus!
