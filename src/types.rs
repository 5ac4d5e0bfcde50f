use vstd::prelude::*;

verus! {

/// The bytes of the all-zero sentinel identity.
pub open spec fn zero_bytes() -> Seq<u8> {
    Seq::new(32, |i: int| 0u8)
}

/// A 32-byte account identity; the all-zero identity is the "none" sentinel.
#[derive(Clone, Copy, Debug, Eq)]
pub struct AccountId {
    pub bytes: [u8; 32],
}

impl AccountId {
    pub open spec fn view(&self) -> Seq<u8> {
        self.bytes@
    }

    /// The all-zero sentinel identity.
    pub fn zero() -> (r: AccountId)
        ensures
            r@ == zero_bytes(),
    {
        let r = AccountId { bytes: [0u8; 32] };
        assert(r@ =~= zero_bytes());
        r
    }

    /// Whether this is the all-zero sentinel.
    pub fn is_zero(&self) -> (r: bool)
        ensures
            r == (self@ == zero_bytes()),
    {
        all_zero(&self.bytes)
    }
}

fn all_zero(bytes: &[u8; 32]) -> (r: bool)
    ensures
        r == (bytes@ == zero_bytes()),
{
    let mut i: usize = 0;
    while i < 32
        invariant
            0 <= i <= 32,
            bytes@.len() == 32,
            forall|j: int| 0 <= j < i ==> #[trigger] bytes@[j] == 0u8,
        decreases 32 - i,
    {
        if bytes[i] != 0 {
            assert(zero_bytes()[i as int] == 0u8);
            return false;
        }
        i = i + 1;
    }
    assert(bytes@ =~= zero_bytes());
    true
}

/// The 32-byte identity of deployable code; all zero means "not set".
#[derive(Clone, Copy, Debug, PartialEq, Eq)]
pub struct CodeHash {
    pub bytes: [u8; 32],
}

impl CodeHash {
    pub open spec fn view(&self) -> Seq<u8> {
        self.bytes@
    }

    /// The all-zero "not set" hash.
    pub fn zero() -> (r: CodeHash)
        ensures
            r@ == zero_bytes(),
    {
        let r = CodeHash { bytes: [0u8; 32] };
        assert(r@ =~= zero_bytes());
        r
    }

    /// Whether this is the all-zero "not set" hash.
    pub fn is_zero(&self) -> (r: bool)
        ensures
            r == (self@ == zero_bytes()),
    {
        all_zero(&self.bytes)
    }
}

impl PartialEq for AccountId {
    fn eq(&self, o: &AccountId) -> (r: bool) {
        let mut i: usize = 0;
        while i < 32
            invariant
                0 <= i <= 32,
                self@.len() == 32,
                o@.len() == 32,
                forall|j: int| 0 <= j < i ==> #[trigger] self@[j] == o@[j],
            decreases 32 - i,
        {
            if self.bytes[i] != o.bytes[i] {
                return false;
            }
            i = i + 1;
        }
        assert(self@ =~= o@);
        true
    }
}

impl vstd::std_specs::cmp::PartialEqSpecImpl for AccountId {
    open spec fn obeys_eq_spec() -> bool {
        true
    }

    open spec fn eq_spec(&self, o: &AccountId) -> bool {
        self@ == o@
    }
}

/// An amount of the native asset, of the traded token or of shares, in
/// smallest units.
pub type Balance = u128;

/// Why an exchange operation was rejected.
#[derive(Clone, Copy, Debug, PartialEq, Eq, Structural)]
pub enum ExchangeError {
    /// A reserve that a price is computed against is empty.
    InvalidReserve,
    /// The output reserve cannot cover the requested amount.
    InsufficientReserve,
    /// The price is beyond the caller's bound.
    SlippageExceeded,
    /// A first deposit below the seed threshold.
    BelowMinimumLiquidity,
    /// Fewer shares held than asked to burn.
    InsufficientBalance,
    /// Nothing to withdraw from: no shares, or zero shares asked for.
    NoLiquidity,
    /// Token-to-token routing does not exist.
    NotImplemented,
    /// An amount that must be positive was zero.
    InvalidAmount,
    /// A transfer by the token ledger or the host failed; the host reports
    /// it after restoring the pool it kept.
    ExternalCallFailed,
    /// A value does not fit in a balance.
    ArithmeticOverflow,
    /// A balance would go below zero.
    ArithmeticUnderflow,
}

} // verus!
