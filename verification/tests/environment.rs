use irrigation::environment::{AsAny, Environment, Fault, Service, ServiceKit};
use irrigation::slot::{Access, Mode};
use std::any::Any;

type Payload = Box<dyn Any + Send + Sync>;

struct Dependency {}

impl AsAny<Payload> for Dependency {
    fn erase(self) -> Payload {
        Box::new(self)
    }

    fn recover(erased: &Payload) -> Option<&Self> {
        erased.downcast_ref::<Self>()
    }

    fn recover_mut(erased: &mut Payload) -> Option<&mut Self> {
        erased.downcast_mut::<Self>()
    }
}

impl Service<Payload> for Dependency {
    type Back = u32;

    fn start(_env_owned: u32, _env: &mut Environment<Payload>) -> Dependency {
        Dependency {}
    }

    fn name() -> &'static str {
        "Dependency"
    }
}

struct TestService {
    kit: ServiceKit<u32>,
    field: i32,
}

impl AsAny<Payload> for TestService {
    fn erase(self) -> Payload {
        Box::new(self)
    }

    fn recover(erased: &Payload) -> Option<&Self> {
        erased.downcast_ref::<Self>()
    }

    fn recover_mut(erased: &mut Payload) -> Option<&mut Self> {
        erased.downcast_mut::<Self>()
    }
}

impl Service<Payload> for TestService {
    type Back = u32;

    fn start(env_owned: u32, env: &mut Environment<Payload>) -> TestService {
        TestService {
            kit: ServiceKit::with_env(env_owned, env)
                .with_dep::<Dependency>()
                .new(),
            field: 0,
        }
    }

    fn name() -> &'static str {
        "TestService"
    }
}

/// A service that nothing registers.
struct Stranger {}

impl AsAny<Payload> for Stranger {
    fn erase(self) -> Payload {
        Box::new(self)
    }

    fn recover(erased: &Payload) -> Option<&Self> {
        erased.downcast_ref::<Self>()
    }

    fn recover_mut(erased: &mut Payload) -> Option<&mut Self> {
        erased.downcast_mut::<Self>()
    }
}

impl Service<Payload> for Stranger {
    type Back = u32;

    fn start(_env_owned: u32, _env: &mut Environment<Payload>) -> Stranger {
        Stranger {}
    }

    fn name() -> &'static str {
        "Stranger"
    }
}

fn create_environment() -> Environment<Payload> {
    let mut env: Environment<Payload> = Environment::new();
    env.register::<TestService>(7);
    env.finish_bootstrap();
    env
}

fn assert_send_and_sync<T: Send + Sync>() {}

/// Test the services keep their fields
#[test]
fn still_has_fields() {
    let mut e = create_environment();

    assert_eq!(e.access_fault_for::<TestService>(Mode::Shared), None);
    assert_eq!(e.get::<TestService>().field, 0);
}

#[test]
fn allows_multiple_const_borrows() {
    let mut e = create_environment();

    assert_eq!(e.access_fault_for::<TestService>(Mode::Shared), None);
    let _b0 = e.get::<TestService>();
    assert_eq!(e.access_fault_for::<TestService>(Mode::Shared), None);
    let _b1 = e.get::<TestService>();
    assert_eq!(e.access("TestService"), Some(Access::Shared(2)));
}

#[test]
fn implements_send_and_sync() {
    assert_send_and_sync::<Environment<Payload>>();
    assert!(!Environment::<Payload>::new().is_sealed());
}

#[test]
fn new_environment_is_open_and_empty() {
    let env: Environment<Payload> = Environment::new();
    assert!(!env.is_sealed());
    assert!(!env.contains("TestService"));
    assert_eq!(env.access("TestService"), None);
    assert_eq!(env.seal_fault(), None);
    assert_eq!(env.register_fault(), None);
}

#[test]
fn access_before_seal_is_a_fault_whether_registered_or_not() {
    let mut env: Environment<Payload> = Environment::new();
    env.register::<Dependency>(1);
    assert!(env.contains("Dependency"));
    assert!(!env.contains("Stranger"));
    for mode in [Mode::Shared, Mode::Exclusive] {
        assert_eq!(env.access_fault("Dependency", mode), Some(Fault::BootstrapIncomplete));
        assert_eq!(env.access_fault("Stranger", mode), Some(Fault::BootstrapIncomplete));
        assert_eq!(env.access_fault_for::<Dependency>(mode), Some(Fault::BootstrapIncomplete));
        assert_eq!(env.access_fault_for::<Stranger>(mode), Some(Fault::BootstrapIncomplete));
    }
}

#[test]
fn later_registration_replaces_the_earlier() {
    let mut env: Environment<Payload> = Environment::new();
    env.install("Counter", Box::new(1u32));
    env.install("Other", Box::new(10u32));
    env.install("Counter", Box::new(2u32));
    assert_eq!(env.register_fault(), None);
    env.finish_bootstrap();
    assert_eq!(env.access_fault("Counter", Mode::Shared), None);
    assert_eq!(env.acquire_shared("Counter").downcast_ref::<u32>(), Some(&2u32));
    assert_eq!(env.access_fault("Other", Mode::Shared), None);
    assert_eq!(env.acquire_shared("Other").downcast_ref::<u32>(), Some(&10u32));
}

#[test]
fn registering_a_type_twice_keeps_one_fresh_slot() {
    let mut env: Environment<Payload> = Environment::new();
    env.register::<Dependency>(1);
    env.register::<Dependency>(2);
    assert!(env.contains("Dependency"));
    assert_eq!(env.access("Dependency"), Some(Access::Free));
    env.finish_bootstrap();
    assert_eq!(env.access_fault_for::<Dependency>(Mode::Exclusive), None);
}

#[test]
fn registration_after_seal_is_a_fault() {
    let mut env: Environment<Payload> = Environment::new();
    env.register::<Dependency>(1);
    assert_eq!(env.register_fault(), None);
    env.finish_bootstrap();
    assert_eq!(env.register_fault(), Some(Fault::SealedRegistry));
}

#[test]
fn second_seal_is_a_fault() {
    let mut env: Environment<Payload> = Environment::new();
    assert_eq!(env.seal_fault(), None);
    env.finish_bootstrap();
    assert!(env.is_sealed());
    assert_eq!(env.seal_fault(), Some(Fault::AlreadySealed));
}

#[test]
fn unknown_service_is_a_fault() {
    let env = create_environment();
    assert_eq!(env.access_fault("Stranger", Mode::Shared), Some(Fault::UnknownService));
    assert_eq!(env.access_fault_for::<Stranger>(Mode::Exclusive), Some(Fault::UnknownService));
}

#[test]
fn instance_of_another_type_is_a_fault() {
    let mut env: Environment<Payload> = Environment::new();
    env.install("Dependency", Box::new(5u32));
    env.finish_bootstrap();
    assert_eq!(env.access_fault("Dependency", Mode::Shared), None);
    assert_eq!(env.access_fault_for::<Dependency>(Mode::Shared), Some(Fault::IdentityMismatch));
}

#[test]
fn shared_holders_coexist_and_rule_out_an_exclusive_one() {
    let mut env = create_environment();
    assert_eq!(env.access("Dependency"), Some(Access::Free));
    assert_eq!(env.access_fault_for::<Dependency>(Mode::Shared), None);
    env.get::<Dependency>();
    assert_eq!(env.access("Dependency"), Some(Access::Shared(1)));
    assert_eq!(env.access_fault_for::<Dependency>(Mode::Shared), None);
    env.get::<Dependency>();
    assert_eq!(env.access("Dependency"), Some(Access::Shared(2)));
    assert_eq!(env.access_fault_for::<Dependency>(Mode::Exclusive), Some(Fault::AccessConflict));
    // another service is not touched
    assert_eq!(env.access("TestService"), Some(Access::Free));
}

#[test]
fn exclusive_holder_rules_out_everyone() {
    let mut env = create_environment();
    assert_eq!(env.access_fault_for::<TestService>(Mode::Exclusive), None);
    env.get_mut::<TestService>().field = 3;
    assert_eq!(env.access("TestService"), Some(Access::Exclusive));
    assert_eq!(env.access_fault_for::<TestService>(Mode::Shared), Some(Fault::AccessConflict));
    assert_eq!(env.access_fault_for::<TestService>(Mode::Exclusive), Some(Fault::AccessConflict));
    assert_eq!(env.access_fault("TestService", Mode::Shared), Some(Fault::AccessConflict));
}

#[test]
fn released_service_can_be_acquired_again() {
    let mut env = create_environment();
    env.get::<Dependency>();
    env.get::<Dependency>();
    env.release("Dependency", Mode::Shared);
    assert_eq!(env.access("Dependency"), Some(Access::Shared(1)));
    assert_eq!(env.access_fault_for::<Dependency>(Mode::Exclusive), Some(Fault::AccessConflict));
    env.release("Dependency", Mode::Shared);
    assert_eq!(env.access("Dependency"), Some(Access::Free));
    assert_eq!(env.access_fault_for::<Dependency>(Mode::Exclusive), None);
    env.get_mut::<Dependency>();
    env.release("Dependency", Mode::Exclusive);
    assert_eq!(env.access("Dependency"), Some(Access::Free));
    assert_eq!(env.access_fault_for::<Dependency>(Mode::Shared), None);
    assert_eq!(env.access_fault_for::<Dependency>(Mode::Exclusive), None);
}

#[test]
fn dependency_is_registered_before_the_dependent_and_recorded() {
    let mut env: Environment<Payload> = Environment::new();
    env.register::<Dependency>(1);
    env.register::<TestService>(2);
    env.finish_bootstrap();
    assert_eq!(env.access_fault_for::<TestService>(Mode::Shared), None);
    let service = env.get::<TestService>();
    assert_eq!(service.kit.deps(), &["Dependency"][..]);
    assert_eq!(*service.kit.env(), 2);
    assert!(env.contains("Dependency"));
}

#[test]
fn kit_registers_a_missing_dependency() {
    let mut env: Environment<Payload> = Environment::new();
    assert!(!env.contains("Dependency"));
    env.register::<TestService>(2);
    assert!(env.contains("Dependency"));
    assert!(env.contains("TestService"));
}

#[test]
fn kit_leaves_a_registered_dependency_in_place() {
    let mut env: Environment<Payload> = Environment::new();
    env.install("Dependency", Box::new(5u32));
    let kit = ServiceKit::with_env(9u32, &mut env)
        .with_dep::<Dependency>()
        .with_dep::<Stranger>()
        .new();
    assert_eq!(kit.deps(), &["Dependency", "Stranger"][..]);
    assert_eq!(*kit.env(), 9);
    env.finish_bootstrap();
    assert_eq!(env.acquire_shared("Dependency").downcast_ref::<u32>(), Some(&5u32));
    assert_eq!(env.access_fault_for::<Stranger>(Mode::Shared), None);
}

#[test]
fn seal_keeps_what_was_registered() {
    let mut env: Environment<Payload> = Environment::new();
    env.register::<Dependency>(1);
    env.finish_bootstrap();
    // a further registration is a fault
    assert_eq!(env.register_fault(), Some(Fault::SealedRegistry));
    // and what was registered can still be had
    assert!(env.contains("Dependency"));
    assert_eq!(env.access_fault_for::<Dependency>(Mode::Shared), None);
    env.get::<Dependency>();
    assert_eq!(env.access("Dependency"), Some(Access::Shared(1)));
}

#[test]
fn shared_access_waits_for_the_exclusive_holder_to_release() {
    let mut env = create_environment();
    assert_eq!(env.access_fault_for::<Dependency>(Mode::Exclusive), None);
    env.get_mut::<Dependency>();
    assert_eq!(env.access_fault_for::<Dependency>(Mode::Shared), Some(Fault::AccessConflict));
    env.release("Dependency", Mode::Exclusive);
    assert_eq!(env.access_fault_for::<Dependency>(Mode::Shared), None);
    env.get::<Dependency>();
    assert_eq!(env.access("Dependency"), Some(Access::Shared(1)));
}

#[test]
fn exclusive_change_is_seen_by_later_holders() {
    let mut env = create_environment();
    env.get_mut::<TestService>().field = 41;
    env.release("TestService", Mode::Exclusive);
    let by_name = env.acquire_exclusive("TestService");
    by_name.downcast_mut::<TestService>().unwrap().field += 1;
    env.release("TestService", Mode::Exclusive);
    assert_eq!(env.get::<TestService>().field, 42);
}
