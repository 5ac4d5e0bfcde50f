//! The registry: one pool per token, created from one deployment template
//! that can be set once.
use vstd::prelude::*;
use crate::events::NewExchange;
use crate::types::{zero_bytes, AccountId, Balance, CodeHash};

verus! {

/// Why a registry operation was rejected.
#[derive(Clone, Copy, Debug, PartialEq, Eq, Structural)]
pub enum FactoryError {
    /// The template was set before.
    TemplateAlreadySet,
    /// The zero hash cannot be a template.
    InvalidTemplate,
    /// No template to create pools from.
    TemplateNotSet,
    /// The zero identity cannot be a token.
    InvalidToken,
    /// The token has a pool already.
    PoolAlreadyExists,
    /// Deployment gave no fresh pool identity.
    DeploymentFailed,
}

/// What the host must instantiate for a new pool.
#[derive(Clone, Copy, Debug, PartialEq, Eq)]
pub struct Deployment {
    /// The code to instantiate.
    pub template: CodeHash,
    /// The token the new pool trades: its constructor argument.
    pub token: AccountId,
    /// Native currency handed to the new pool.
    pub endowment: Balance,
    /// The uniqueness salt.
    pub salt: [u8; 4],
}

/// The registry as values: the template, and `(token, pool)` pairs in order
/// of creation; the pair at index `n - 1` has numeric id `n`.
pub struct FactoryView {
    pub template: Seq<u8>,
    pub pairs: Seq<(Seq<u8>, Seq<u8>)>,
}

/// `token` has a pool.
pub open spec fn has_token(v: FactoryView, token: Seq<u8>) -> bool {
    exists|i: int| 0 <= i < v.pairs.len() && #[trigger] v.pairs[i].0 == token
}

/// `pool` is some token's pool.
pub open spec fn has_pool(v: FactoryView, pool: Seq<u8>) -> bool {
    exists|i: int| 0 <= i < v.pairs.len() && #[trigger] v.pairs[i].1 == pool
}

/// Tokens and pools are never zero, and each appears in one pair only: the
/// pairs are a bijection between tokens and pools.
pub open spec fn view_wf(v: FactoryView) -> bool {
    &&& forall|i: int|
        0 <= i < v.pairs.len() ==> #[trigger] v.pairs[i].0 != zero_bytes() && v.pairs[i].1
            != zero_bytes()
    &&& forall|i: int, j: int|
        0 <= i < j < v.pairs.len() ==> #[trigger] v.pairs[i].0 != #[trigger] v.pairs[j].0
    &&& forall|i: int, j: int|
        0 <= i < j < v.pairs.len() ==> #[trigger] v.pairs[i].1 != #[trigger] v.pairs[j].1
}

/// The pool of `token`, or the zero identity.
pub open spec fn exchange_of(v: FactoryView, token: Seq<u8>) -> Seq<u8> {
    if has_token(v, token) {
        v.pairs[choose|i: int| 0 <= i < v.pairs.len() && #[trigger] v.pairs[i].0 == token].1
    } else {
        zero_bytes()
    }
}

/// The token of `pool`, or the zero identity.
pub open spec fn token_of(v: FactoryView, pool: Seq<u8>) -> Seq<u8> {
    if has_pool(v, pool) {
        v.pairs[choose|i: int| 0 <= i < v.pairs.len() && #[trigger] v.pairs[i].1 == pool].0
    } else {
        zero_bytes()
    }
}

/// The token with numeric id `id`, or the zero identity.
pub open spec fn token_with_id(v: FactoryView, id: int) -> Seq<u8> {
    if 1 <= id <= v.pairs.len() {
        v.pairs[id - 1].0
    } else {
        zero_bytes()
    }
}

/// Whether a pool may be created for `token`.
pub open spec fn prepare_result(v: FactoryView, token: Seq<u8>) -> Result<(), FactoryError> {
    if v.template == zero_bytes() {
        Err(FactoryError::TemplateNotSet)
    } else if token == zero_bytes() {
        Err(FactoryError::InvalidToken)
    } else if has_token(v, token) {
        Err(FactoryError::PoolAlreadyExists)
    } else {
        Ok(())
    }
}

/// Whether the freshly deployed `pool` may be registered for `token`.
pub open spec fn create_result(v: FactoryView, token: Seq<u8>, pool: Seq<u8>) -> Result<
    (),
    FactoryError,
> {
    match prepare_result(v, token) {
        Err(e) => Err(e),
        Ok(()) => if pool == zero_bytes() || has_pool(v, pool) {
            Err(FactoryError::DeploymentFailed)
        } else {
            Ok(())
        },
    }
}

/// The registry after `pool` is registered for `token`.
pub open spec fn registered(v: FactoryView, token: Seq<u8>, pool: Seq<u8>) -> FactoryView {
    FactoryView { template: v.template, pairs: v.pairs.push((token, pool)) }
}

/// The outcome of setting the template to `template`.
pub open spec fn initialize_result(v: FactoryView, template: Seq<u8>) -> Result<(), FactoryError> {
    if v.template != zero_bytes() {
        Err(FactoryError::TemplateAlreadySet)
    } else if template == zero_bytes() {
        Err(FactoryError::InvalidTemplate)
    } else {
        Ok(())
    }
}

/// The registry of pools.
pub struct PatraFactory {
    exchange_template: CodeHash,
    registry: Vec<(AccountId, AccountId)>,
}

impl View for PatraFactory {
    type V = FactoryView;

    closed spec fn view(&self) -> FactoryView {
        FactoryView {
            template: self.exchange_template@,
            pairs: Seq::new(
                self.registry@.len(),
                |i: int| (self.registry@[i].0@, self.registry@[i].1@),
            ),
        }
    }
}

/// The operations of a pool registry.
pub trait Factory: Sized + View<V = FactoryView> {
    /// A registry with no template and no pools.
    fn new() -> (r: Self)
        ensures
            view_wf(r@),
            r@.template == zero_bytes(),
            r@.pairs.len() == 0,
    ;

    /// Sets the template once, from unset to a non-zero hash.
    fn initialize_factory(&mut self, template: CodeHash) -> (r: Result<(), FactoryError>)
        requires
            view_wf(old(self)@),
        ensures
            view_wf(final(self)@),
            r == initialize_result(old(self)@, template@),
            r is Ok ==> final(self)@ == (FactoryView {
                template: template@,
                pairs: old(self)@.pairs,
            }),
            r is Err ==> final(self)@ == old(self)@,
    ;

    /// Registers `exchange`, just deployed from the template, as the pool of
    /// `token`, under the next numeric id; returns it with the creation event.
    fn create_exchange(&mut self, token: AccountId, exchange: AccountId) -> (r: Result<
        (AccountId, NewExchange),
        FactoryError,
    >)
        requires
            view_wf(old(self)@),
        ensures
            view_wf(final(self)@),
            match r {
                Ok((pool, event)) => {
                    &&& create_result(old(self)@, token@, exchange@) is Ok
                    &&& pool == exchange
                    &&& event == (NewExchange { token, exchange })
                    &&& final(self)@ == registered(old(self)@, token@, exchange@)
                },
                Err(e) => {
                    &&& create_result(old(self)@, token@, exchange@) == Err::<(), FactoryError>(e)
                    &&& final(self)@ == old(self)@
                },
            },
    ;

    /// The pool of `token`, or the zero identity.
    fn get_exchange(&self, token: AccountId) -> (r: AccountId)
        requires
            view_wf(self@),
        ensures
            r@ == exchange_of(self@, token@),
    ;

    /// The token of the pool `exchange`, or the zero identity.
    fn get_token(&self, exchange: AccountId) -> (r: AccountId)
        requires
            view_wf(self@),
        ensures
            r@ == token_of(self@, exchange@),
    ;

    /// The token with numeric id `token_id` (ids count from 1 in order of
    /// creation), or the zero identity.
    fn get_token_with_id(&self, token_id: u128) -> (r: AccountId)
        ensures
            r@ == token_with_id(self@, token_id as int),
    ;
}

impl PatraFactory {
    fn find_token(&self, token: &AccountId) -> (r: Option<usize>)
        ensures
            match r {
                Some(i) => i < self@.pairs.len() && self@.pairs[i as int].0 == token@,
                None => !has_token(self@, token@),
            },
    {
        let mut i: usize = 0;
        while i < self.registry.len()
            invariant
                0 <= i <= self.registry@.len(),
                forall|j: int| 0 <= j < i ==> #[trigger] self.registry@[j].0@ != token@,
            decreases self.registry@.len() - i,
        {
            if self.registry[i].0 == *token {
                return Some(i);
            }
            i = i + 1;
        }
        assert forall|j: int| 0 <= j < self@.pairs.len() implies #[trigger] self@.pairs[j].0
            != token@ by {
            assert(self.registry@[j].0@ != token@);
        }
        None
    }

    fn find_pool(&self, pool: &AccountId) -> (r: Option<usize>)
        ensures
            match r {
                Some(i) => i < self@.pairs.len() && self@.pairs[i as int].1 == pool@,
                None => !has_pool(self@, pool@),
            },
    {
        let mut i: usize = 0;
        while i < self.registry.len()
            invariant
                0 <= i <= self.registry@.len(),
                forall|j: int| 0 <= j < i ==> #[trigger] self.registry@[j].1@ != pool@,
            decreases self.registry@.len() - i,
        {
            if self.registry[i].1 == *pool {
                return Some(i);
            }
            i = i + 1;
        }
        assert forall|j: int| 0 <= j < self@.pairs.len() implies #[trigger] self@.pairs[j].1
            != pool@ by {
            assert(self.registry@[j].1@ != pool@);
        }
        None
    }

    /// Checks that a pool may be created for `token` and says what to
    /// deploy: the template, with a tenth of the registry's native balance
    /// `factory_balance` as endowment.
    pub fn prepare_exchange(&self, token: AccountId, factory_balance: Balance) -> (r: Result<
        Deployment,
        FactoryError,
    >)
        ensures
            match r {
                Ok(d) => {
                    &&& prepare_result(self@, token@) is Ok
                    &&& d.template@ == self@.template
                    &&& d.token == token
                    &&& d.endowment == factory_balance / 10
                    &&& d.salt@ == seq![0u8, 0u8, 0u8, 0u8]
                },
                Err(e) => prepare_result(self@, token@) == Err::<(), FactoryError>(e),
            },
    {
        if self.exchange_template.is_zero() {
            return Err(FactoryError::TemplateNotSet);
        }
        if token.is_zero() {
            return Err(FactoryError::InvalidToken);
        }
        if self.find_token(&token).is_some() {
            return Err(FactoryError::PoolAlreadyExists);
        }
        let salt = [0u8; 4];
        assert(salt@ =~= seq![0u8, 0u8, 0u8, 0u8]);
        Ok(Deployment {
            template: self.exchange_template,
            token,
            endowment: factory_balance / 10,
            salt,
        })
    }

    /// The number of tokens with a pool.
    pub fn token_count(&self) -> (r: u128)
        ensures
            r == self@.pairs.len(),
    {
        self.registry.len() as u128
    }
}

impl Factory for PatraFactory {
    /// A registry with no template and no pools.
    fn new() -> (r: PatraFactory)
    {
        PatraFactory { exchange_template: CodeHash::zero(), registry: Vec::new() }
    }

    /// Sets the template once, from unset to a non-zero hash.
    fn initialize_factory(&mut self, template: CodeHash) -> (r: Result<(), FactoryError>)
    {
        if !self.exchange_template.is_zero() {
            return Err(FactoryError::TemplateAlreadySet);
        }
        if template.is_zero() {
            return Err(FactoryError::InvalidTemplate);
        }
        self.exchange_template = template;
        Ok(())
    }

    /// Registers `exchange`, just deployed from the template, as the pool of
    /// `token`, under the next numeric id; returns it with the creation event.
    fn create_exchange(&mut self, token: AccountId, exchange: AccountId) -> (r: Result<
        (AccountId, NewExchange),
        FactoryError,
    >)
    {
        if self.exchange_template.is_zero() {
            return Err(FactoryError::TemplateNotSet);
        }
        if token.is_zero() {
            return Err(FactoryError::InvalidToken);
        }
        if self.find_token(&token).is_some() {
            return Err(FactoryError::PoolAlreadyExists);
        }
        if exchange.is_zero() || self.find_pool(&exchange).is_some() {
            return Err(FactoryError::DeploymentFailed);
        }
        self.registry.push((token, exchange));
        proof {
            let v = self@;
            let o = old(self)@;
            assert(v.pairs =~= o.pairs.push((token@, exchange@))) by {
                assert forall|i: int| 0 <= i < o.pairs.len() implies v.pairs[i] == o.pairs[i] by {
                    assert(self.registry@[i] == old(self).registry@[i]);
                }
            }
            assert forall|i: int, j: int| 0 <= i < j < v.pairs.len() implies #[trigger] v.pairs[i].0
                != #[trigger] v.pairs[j].0 by {
                if j == o.pairs.len() {
                    assert(o.pairs[i].0 != token@);
                }
            }
            assert forall|i: int, j: int| 0 <= i < j < v.pairs.len() implies #[trigger] v.pairs[i].1
                != #[trigger] v.pairs[j].1 by {
                if j == o.pairs.len() {
                    assert(o.pairs[i].1 != exchange@);
                }
            }
        }
        Ok((exchange, NewExchange { token, exchange }))
    }

    /// The pool of `token`, or the zero identity.
    fn get_exchange(&self, token: AccountId) -> (r: AccountId)
    {
        match self.find_token(&token) {
            Some(i) => {
                proof {
                    let v = self@;
                    let j = choose|j: int| 0 <= j < v.pairs.len() && #[trigger] v.pairs[j].0 == token@;
                    assert(v.pairs[i as int].0 == token@);
                    if j != i {
                        if j < i {
                            assert(v.pairs[j].0 != v.pairs[i as int].0);
                        } else {
                            assert(v.pairs[i as int].0 != v.pairs[j].0);
                        }
                    }
                }
                self.registry[i].1
            },
            None => AccountId::zero(),
        }
    }

    /// The token of the pool `exchange`, or the zero identity.
    fn get_token(&self, exchange: AccountId) -> (r: AccountId)
    {
        match self.find_pool(&exchange) {
            Some(i) => {
                proof {
                    let v = self@;
                    let j = choose|j: int| 0 <= j < v.pairs.len() && #[trigger] v.pairs[j].1 == exchange@;
                    assert(v.pairs[i as int].1 == exchange@);
                    if j != i {
                        if j < i {
                            assert(v.pairs[j].1 != v.pairs[i as int].1);
                        } else {
                            assert(v.pairs[i as int].1 != v.pairs[j].1);
                        }
                    }
                }
                self.registry[i].0
            },
            None => AccountId::zero(),
        }
    }

    /// The token with numeric id `token_id` (ids count from 1 in order of
    /// creation), or the zero identity.
    fn get_token_with_id(&self, token_id: u128) -> (r: AccountId)
    {
        if token_id >= 1 && token_id <= self.registry.len() as u128 {
            self.registry[(token_id - 1) as usize].0
        } else {
            AccountId::zero()
        }
    }
}

/// Once a pool is registered for a token, no second one can be: both the
/// check and the registration then fail with `PoolAlreadyExists`.
pub proof fn lemma_registration_is_once(
    v: FactoryView,
    token: Seq<u8>,
    pool: Seq<u8>,
    other_pool: Seq<u8>,
)
    requires
        create_result(v, token, pool) is Ok,
    ensures
        prepare_result(registered(v, token, pool), token) == Err::<(), FactoryError>(
            FactoryError::PoolAlreadyExists,
        ),
        create_result(registered(v, token, pool), token, other_pool) == Err::<(), FactoryError>(
            FactoryError::PoolAlreadyExists,
        ),
{
    let w = registered(v, token, pool);
    assert(w.pairs[v.pairs.len() as int].0 == token);
}

/// Without a template every creation fails with `TemplateNotSet`.
pub proof fn lemma_no_template_no_pool(v: FactoryView, token: Seq<u8>, pool: Seq<u8>)
    requires
        v.template == zero_bytes(),
    ensures
        prepare_result(v, token) == Err::<(), FactoryError>(FactoryError::TemplateNotSet),
        create_result(v, token, pool) == Err::<(), FactoryError>(FactoryError::TemplateNotSet),
{
}

} // verus!
