use patraswap::events::NewExchange;
use patraswap::factory::{Factory, FactoryError, PatraFactory};
use patraswap::types::CodeHash;
use patraswap::AccountId;

fn account(n: u8) -> AccountId {
    AccountId { bytes: [n; 32] }
}

fn template() -> CodeHash {
    CodeHash { bytes: [7; 32] }
}

#[test]
fn create_without_template_fails() {
    let mut f = PatraFactory::new();
    assert_eq!(f.prepare_exchange(account(1), 100).unwrap_err(), FactoryError::TemplateNotSet);
    assert_eq!(f.create_exchange(account(1), account(2)).unwrap_err(), FactoryError::TemplateNotSet);
    assert_eq!(f.get_exchange(account(1)), AccountId::zero());
}

#[test]
fn template_is_set_once() {
    let mut f = PatraFactory::new();
    assert_eq!(f.initialize_factory(CodeHash::zero()), Err(FactoryError::InvalidTemplate));
    assert_eq!(f.initialize_factory(template()), Ok(()));
    assert_eq!(f.initialize_factory(CodeHash { bytes: [8; 32] }), Err(FactoryError::TemplateAlreadySet));
}

#[test]
fn create_registers_both_ways() {
    let mut f = PatraFactory::new();
    f.initialize_factory(template()).unwrap();
    let d = f.prepare_exchange(account(1), 1000).unwrap();
    assert_eq!(d.template, template());
    assert_eq!(d.token, account(1));
    assert_eq!(d.endowment, 100);
    assert_eq!(d.salt, [0, 0, 0, 0]);
    let (pool, event) = f.create_exchange(account(1), account(2)).unwrap();
    assert_eq!(pool, account(2));
    assert_eq!(event, NewExchange { token: account(1), exchange: account(2) });
    assert_eq!(f.get_exchange(account(1)), account(2));
    assert_eq!(f.get_token(account(2)), account(1));
    assert_eq!(f.get_token_with_id(1), account(1));
    assert_eq!(f.get_token_with_id(0), AccountId::zero());
    assert_eq!(f.get_token_with_id(2), AccountId::zero());
    assert_eq!(f.get_exchange(account(3)), AccountId::zero());
    assert_eq!(f.get_token(account(3)), AccountId::zero());
    assert_eq!(f.token_count(), 1);
}

#[test]
fn second_registration_fails() {
    let mut f = PatraFactory::new();
    f.initialize_factory(template()).unwrap();
    f.create_exchange(account(1), account(2)).unwrap();
    assert_eq!(f.prepare_exchange(account(1), 1000).unwrap_err(), FactoryError::PoolAlreadyExists);
    assert_eq!(f.create_exchange(account(1), account(4)).unwrap_err(), FactoryError::PoolAlreadyExists);
    assert_eq!(f.get_exchange(account(1)), account(2));
    assert_eq!(f.token_count(), 1);
}

#[test]
fn zero_token_and_reused_pool_fail() {
    let mut f = PatraFactory::new();
    f.initialize_factory(template()).unwrap();
    assert_eq!(f.create_exchange(AccountId::zero(), account(2)).unwrap_err(), FactoryError::InvalidToken);
    f.create_exchange(account(1), account(2)).unwrap();
    assert_eq!(f.create_exchange(account(3), account(2)).unwrap_err(), FactoryError::DeploymentFailed);
    assert_eq!(f.create_exchange(account(3), AccountId::zero()).unwrap_err(), FactoryError::DeploymentFailed);
    f.create_exchange(account(3), account(4)).unwrap();
    assert_eq!(f.get_token_with_id(2), account(3));
}
