use raumfi_factory::auth::{Action, Authorization, Invocation};
use raumfi_factory::factory::RaumFiFactory;

const FACTORY_ADDRESS: u64 = 1000;
const PAIR_CODE: u64 = 77;

fn setter_auth(identity: u64, action: Action) -> Authorization {
    Authorization {
        identity,
        invocation: Invocation { target: FACTORY_ADDRESS, action },
    }
}

struct RaumFiFactoryTest {
    alice: u64,
    bob: u64,
    factory: RaumFiFactory,
    token_0: u64,
    token_1: u64,
    pair: u64,
}

impl RaumFiFactoryTest {
    fn new() -> Self {
        let alice: u64 = 1;
        let bob: u64 = 2;
        let mut token_0: u64 = 20;
        let mut token_1: u64 = 21;
        if token_1 < token_0 {
            std::mem::swap(&mut token_0, &mut token_1);
        } else if token_1 == token_0 {
            panic!("token contract ids are equal");
        }

        let mut factory = RaumFiFactory::new(FACTORY_ADDRESS);
        factory.initialize(alice, PAIR_CODE).unwrap();
        factory.create_pair(token_0, token_1).unwrap();
        let pair = factory.get_pair(token_0, token_1).unwrap();

        RaumFiFactoryTest {
            alice,
            bob,
            factory,
            token_0,
            token_1,
            pair,
        }
    }
}

#[test]
pub fn create_and_register_factory_contract() {
    let _factory_test = RaumFiFactoryTest::new();
}

#[test]
pub fn token_client_ne() {
    let factory_test = RaumFiFactoryTest::new();
    assert_ne!(factory_test.token_0, factory_test.token_1);
}

#[test]
pub fn setter_is_alice() {
    let factory_test = RaumFiFactoryTest::new();
    assert_eq!(factory_test.factory.fee_to_setter(), factory_test.alice);
}

#[test]
pub fn fees_are_not_enabled() {
    let factory_test = RaumFiFactoryTest::new();
    assert_eq!(factory_test.factory.fees_enabled(), false);
}

#[test]
pub fn set_fee_to_setter_bob() {
    let mut factory_test = RaumFiFactoryTest::new();
    let bob = factory_test.bob;
    let auth = setter_auth(factory_test.alice, Action::SetFeeToSetter(bob));
    factory_test.factory.set_fee_to_setter(bob, &auth).unwrap();
    let setter = factory_test.factory.fee_to_setter();
    assert_eq!(setter, bob);
}

#[test]
pub fn authorize_bob() {
    let mut factory_test = RaumFiFactoryTest::new();
    let alice = factory_test.alice;
    let bob = factory_test.bob;
    let auth = setter_auth(alice, Action::SetFeeToSetter(bob));
    factory_test.factory.set_fee_to_setter(bob, &auth).unwrap();
    let expected = Authorization {
        identity: alice,
        invocation: Invocation {
            target: FACTORY_ADDRESS,
            action: Action::SetFeeToSetter(bob),
        },
    };
    assert_eq!(auth, expected);
}

#[test]
pub fn set_fees_enabled() {
    let mut factory_test = RaumFiFactoryTest::new();
    let auth = setter_auth(factory_test.alice, Action::SetFeesEnabled(true));
    factory_test.factory.set_fees_enabled(true, &auth).unwrap();
    assert_eq!(factory_test.factory.fees_enabled(), true);
}

#[test]
pub fn set_fee_to_factory_address() {
    let mut factory_test = RaumFiFactoryTest::new();
    let enable = setter_auth(factory_test.alice, Action::SetFeesEnabled(true));
    factory_test.factory.set_fees_enabled(true, &enable).unwrap();
    let assign = setter_auth(factory_test.alice, Action::SetFeeTo(FACTORY_ADDRESS));
    factory_test.factory.set_fee_to(FACTORY_ADDRESS, &assign).unwrap();
    assert_eq!(factory_test.factory.fee_to(), Some(FACTORY_ADDRESS));
}

#[test]
pub fn add_pair() {
    let mut factory_test = RaumFiFactoryTest::new();
    let token_a: u64 = 30;
    let token_b: u64 = 31;
    factory_test.factory.create_pair(token_a, token_b).unwrap();
    assert_eq!(factory_test.factory.pair_exists(token_a, token_b), true);
    assert_eq!(factory_test.factory.pair_exists(token_b, token_a), true);
}

#[test]
pub fn compare_pair_address() {
    let factory_test = RaumFiFactoryTest::new();
    let token_0 = factory_test.token_0;
    let token_1 = factory_test.token_1;
    let pair_address = factory_test.factory.get_pair(token_0, token_1).unwrap();
    assert_eq!(pair_address, factory_test.pair);
}

#[test]
#[should_panic]
pub fn pair_is_unique_and_unequivocal() {
    let mut factory_test = RaumFiFactoryTest::new();
    let token_a: u64 = 30;
    let token_b: u64 = 31;
    factory_test.factory.create_pair(token_a, token_b).unwrap();
    factory_test.factory.create_pair(token_a, token_b).unwrap();
}

#[test]
pub fn authorized_invocation() {
    let mut factory_test = RaumFiFactoryTest::new();
    let alice = factory_test.alice;
    let bob = factory_test.bob;

    // alice is not equal to bob
    assert_ne!(alice, bob);
    // alice is fee_to_setter
    assert_eq!(alice, factory_test.factory.fee_to_setter());

    let auth = setter_auth(alice, Action::SetFeeToSetter(bob));
    factory_test.factory.set_fee_to_setter(bob, &auth).unwrap();

    // setter is bob
    assert_eq!(bob, factory_test.factory.fee_to_setter());
}

#[test]
#[should_panic]
pub fn non_authorized_invocation() {
    let mut factory_test = RaumFiFactoryTest::new();
    let alice = factory_test.alice;
    let bob = factory_test.bob;

    // alice is not equal to bob
    assert_ne!(alice, bob);
    // alice is fee_to_setter
    assert_eq!(alice, factory_test.factory.fee_to_setter());

    let auth = setter_auth(bob, Action::SetFeeToSetter(bob));
    factory_test.factory.set_fee_to_setter(bob, &auth).unwrap();

    // setter is bob
    assert_eq!(bob, factory_test.factory.fee_to_setter());
}
