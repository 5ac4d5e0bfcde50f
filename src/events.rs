//! What the pool and the registry announce to observers.
use vstd::prelude::*;
use crate::types::{AccountId, Balance};

verus! {

/// Native currency was sold for tokens.
#[derive(Clone, Copy, Debug, PartialEq, Eq)]
pub struct TokenPurchase {
    pub buyer: AccountId,
    pub dot_sold: Balance,
    pub tokens_bought: Balance,
}

/// Tokens were sold for native currency.
#[derive(Clone, Copy, Debug, PartialEq, Eq)]
pub struct DotPurchase {
    pub buyer: AccountId,
    pub tokens_sold: Balance,
    pub dot_bought: Balance,
}

/// Native currency and tokens were deposited for shares.
#[derive(Clone, Copy, Debug, PartialEq, Eq)]
pub struct AddLiquidity {
    pub sender: AccountId,
    pub dot_amount: Balance,
    pub token_amount: Balance,
}

/// Shares were burned for native currency and tokens.
#[derive(Clone, Copy, Debug, PartialEq, Eq)]
pub struct RemoveLiquidity {
    pub sender: AccountId,
    pub dot_amount: Balance,
    pub token_amount: Balance,
}

/// Shares moved; a mint comes from the zero identity, a burn goes to it.
#[derive(Clone, Copy, Debug, PartialEq, Eq)]
pub struct Transfer {
    pub from: AccountId,
    pub to: AccountId,
    pub value: Balance,
}

/// A pool was created for a token.
#[derive(Clone, Copy, Debug, PartialEq, Eq)]
pub struct NewExchange {
    pub token: AccountId,
    pub exchange: AccountId,
}

/// Any notification of a pool.
#[derive(Clone, Copy, Debug, PartialEq, Eq)]
pub enum Event {
    TokenPurchase(TokenPurchase),
    DotPurchase(DotPurchase),
    AddLiquidity(AddLiquidity),
    RemoveLiquidity(RemoveLiquidity),
    Transfer(Transfer),
}

} // verus!
