use jabba::error::creation_outcome;
use jabba::{BindingKey, Error, Infallible, LazyCell, Lifecycle, Registry, Resolution, Settled};

trait Counter {}
trait Gate {}

type Recipe = fn(&mut u64) -> Result<u64, String>;

fn counting(counter: &mut u64) -> Result<u64, String> {
    let value = *counter;
    *counter += 1;
    Ok(value)
}

fn fails_once(counter: &mut u64) -> Result<u64, String> {
    let value = *counter;
    *counter += 1;
    if value == 0 {
        Err("gate closed".to_string())
    } else {
        Ok(value)
    }
}

fn doubled(counter: &mut u64) -> Result<u64, String> {
    Ok(*counter * 2)
}

/// Serves one request the way the injector does: resolve, run the recipe if
/// told to, settle the outcome, and read a kept value back.
fn request(
    registry: &mut Registry<Recipe, u64>,
    key: &BindingKey,
    counter: &mut u64,
) -> Result<u64, Error<String>> {
    let (recipe, stamp) = match registry.resolve(key) {
        Resolution::NoBinding => return Err(Error::NoBinding),
        Resolution::Cached(v) => return Ok(*v),
        Resolution::Construct { recipe, stamp, .. } => (*recipe, stamp),
    };
    let outcome = recipe(counter);
    match registry.settle(key, stamp, outcome)? {
        Settled::Handed(v) => Ok(v),
        Settled::Kept => match registry.resolve(key) {
            Resolution::Cached(v) => Ok(*v),
            _ => panic!("a kept value must be cached"),
        },
    }
}

#[test]
fn unbound_key_gives_no_binding() {
    let mut registry: Registry<Recipe, u64> = Registry::new();
    let mut counter: u64 = 42;
    let key = BindingKey::of::<dyn Counter>();
    assert!(matches!(registry.resolve(&key), Resolution::NoBinding));
    assert_eq!(request(&mut registry, &key, &mut counter), Err(Error::NoBinding));
    registry.bind(BindingKey::of::<dyn Gate>(), Lifecycle::Transient, counting);
    assert_eq!(request(&mut registry, &key, &mut counter), Err(Error::NoBinding));
    assert_eq!(counter, 42);
}

#[test]
fn singleton_counter_constructs_once() {
    let mut registry: Registry<Recipe, u64> = Registry::new();
    let mut counter: u64 = 42;
    let key = BindingKey::of::<dyn Counter>();
    registry.bind(BindingKey::of::<dyn Counter>(), Lifecycle::Singleton, counting);
    assert_eq!(request(&mut registry, &key, &mut counter), Ok(42));
    assert_eq!(request(&mut registry, &key, &mut counter), Ok(42));
    assert_eq!(counter, 43);
}

#[test]
fn singleton_many_requests_share_one_value() {
    let mut registry: Registry<Recipe, u64> = Registry::new();
    let mut counter: u64 = 7;
    let key = BindingKey::of::<dyn Counter>();
    registry.bind(BindingKey::of::<dyn Counter>(), Lifecycle::Singleton, counting);
    for _ in 0..10 {
        assert_eq!(request(&mut registry, &key, &mut counter), Ok(7));
    }
    assert_eq!(counter, 8);
    assert!(matches!(registry.resolve(&key), Resolution::Cached(&7)));
}

#[test]
fn transient_counter_constructs_every_time() {
    let mut registry: Registry<Recipe, u64> = Registry::new();
    let mut counter: u64 = 42;
    let key = BindingKey::of::<dyn Counter>();
    registry.bind(BindingKey::of::<dyn Counter>(), Lifecycle::Transient, counting);
    assert_eq!(request(&mut registry, &key, &mut counter), Ok(42));
    assert_eq!(request(&mut registry, &key, &mut counter), Ok(43));
    assert_eq!(request(&mut registry, &key, &mut counter), Ok(44));
    assert_eq!(counter, 45);
}

#[test]
fn transient_success_is_handed_back() {
    let mut registry: Registry<Recipe, u64> = Registry::new();
    let key = BindingKey::of::<dyn Counter>();
    registry.bind(BindingKey::of::<dyn Counter>(), Lifecycle::Transient, counting);
    let outcome: Result<u64, String> = Ok(5);
    assert_eq!(registry.settle(&key, 0, outcome), Ok(Settled::Handed(5)));
    assert!(matches!(
        registry.resolve(&key),
        Resolution::Construct { lifecycle: Lifecycle::Transient, stamp: 0, .. }
    ));
}

#[test]
fn gate_failure_then_retry_succeeds() {
    let mut registry: Registry<Recipe, u64> = Registry::new();
    let mut counter: u64 = 0;
    let key = BindingKey::of::<dyn Gate>();
    registry.bind(BindingKey::of::<dyn Gate>(), Lifecycle::Singleton, fails_once);
    assert_eq!(
        request(&mut registry, &key, &mut counter),
        Err(Error::InstanceCreationFailed("gate closed".to_string()))
    );
    assert!(matches!(registry.resolve(&key), Resolution::Construct { .. }));
    assert_eq!(request(&mut registry, &key, &mut counter), Ok(1));
    assert_eq!(request(&mut registry, &key, &mut counter), Ok(1));
    assert_eq!(counter, 2);
}

#[test]
fn rebind_replaces_cached_singleton() {
    let mut registry: Registry<Recipe, u64> = Registry::new();
    let mut counter: u64 = 42;
    let key = BindingKey::of::<dyn Counter>();
    registry.bind(BindingKey::of::<dyn Counter>(), Lifecycle::Singleton, counting);
    assert_eq!(request(&mut registry, &key, &mut counter), Ok(42));
    registry.bind(BindingKey::of::<dyn Counter>(), Lifecycle::Singleton, doubled);
    match registry.resolve(&key) {
        Resolution::Construct { lifecycle, stamp, .. } => {
            assert_eq!(lifecycle, Lifecycle::Singleton);
            assert_eq!(stamp, 1);
        }
        _ => panic!("a fresh binding must construct"),
    }
    assert_eq!(request(&mut registry, &key, &mut counter), Ok(86));
    assert_eq!(request(&mut registry, &key, &mut counter), Ok(86));
}

#[test]
fn late_outcome_of_replaced_binding_is_not_kept() {
    let mut registry: Registry<Recipe, u64> = Registry::new();
    let key = BindingKey::of::<dyn Counter>();
    registry.bind(BindingKey::of::<dyn Counter>(), Lifecycle::Singleton, counting);
    registry.bind(BindingKey::of::<dyn Counter>(), Lifecycle::Singleton, doubled);
    let late: Result<u64, String> = Ok(99);
    assert_eq!(registry.settle(&key, 0, late), Ok(Settled::Handed(99)));
    assert!(matches!(registry.resolve(&key), Resolution::Construct { stamp: 1, .. }));
    let fresh: Result<u64, String> = Ok(3);
    assert_eq!(registry.settle(&key, 1, fresh), Ok(Settled::Kept));
    assert!(matches!(registry.resolve(&key), Resolution::Cached(&3)));
}

#[test]
fn failure_carries_the_recipe_error() {
    let outcome: Result<u64, String> = Err("boom".to_string());
    assert_eq!(
        creation_outcome(outcome),
        Err(Error::InstanceCreationFailed("boom".to_string()))
    );
    let fine: Result<u64, String> = Ok(4);
    assert_eq!(creation_outcome(fine), Ok(4));
    assert_eq!(Error::from(Infallible), Error::InstanceCreationFailed(Infallible));
}

#[test]
fn settle_failure_leaves_cell_empty() {
    let mut registry: Registry<Recipe, u64> = Registry::new();
    let key = BindingKey::of::<dyn Counter>();
    registry.bind(BindingKey::of::<dyn Counter>(), Lifecycle::Singleton, counting);
    let failed: Result<u64, String> = Err("no".to_string());
    assert_eq!(
        registry.settle(&key, 0, failed),
        Err(Error::InstanceCreationFailed("no".to_string()))
    );
    assert!(matches!(registry.resolve(&key), Resolution::Construct { stamp: 0, .. }));
}

#[test]
fn named_keys_are_separate_slots() {
    let mut registry: Registry<Recipe, u64> = Registry::new();
    let mut counter: u64 = 10;
    let plain = BindingKey::of::<dyn Counter>();
    let a = BindingKey::named::<dyn Counter>("a".to_string());
    let b = BindingKey::named::<dyn Counter>("b".to_string());
    assert!(plain.same(&BindingKey::of::<dyn Counter>()));
    assert!(!plain.same(&a));
    assert!(!a.same(&b));
    assert!(a.same(&BindingKey::named::<dyn Counter>("a".to_string())));
    assert!(!a.same(&BindingKey::named::<dyn Gate>("a".to_string())));
    assert!(!plain.same(&BindingKey::of::<dyn Gate>()));
    registry.bind(BindingKey::named::<dyn Counter>("a".to_string()), Lifecycle::Singleton, counting);
    assert_eq!(request(&mut registry, &plain, &mut counter), Err(Error::NoBinding));
    assert_eq!(request(&mut registry, &b, &mut counter), Err(Error::NoBinding));
    assert_eq!(request(&mut registry, &a, &mut counter), Ok(10));
    registry.bind(BindingKey::of::<dyn Counter>(), Lifecycle::Transient, doubled);
    assert_eq!(request(&mut registry, &plain, &mut counter), Ok(22));
    assert_eq!(request(&mut registry, &a, &mut counter), Ok(10));
}

#[test]
fn lazy_cell_keeps_first_value() {
    let mut cell: LazyCell<u64> = LazyCell::new();
    assert_eq!(cell.get(), None);
    assert!(cell.fill(1));
    assert!(!cell.fill(2));
    assert_eq!(cell.get(), Some(&1));
}

#[test]
fn awaits_only_an_empty_singleton_of_the_same_stamp() {
    let mut registry: Registry<Recipe, u64> = Registry::new();
    let key = BindingKey::of::<dyn Counter>();
    assert!(!registry.awaits(&key, 0));
    registry.bind(BindingKey::of::<dyn Counter>(), Lifecycle::Transient, counting);
    assert!(!registry.awaits(&key, 0));
    registry.bind(BindingKey::of::<dyn Counter>(), Lifecycle::Singleton, counting);
    assert!(registry.awaits(&key, 1));
    assert!(!registry.awaits(&key, 0));
    let outcome: Result<u64, String> = Ok(8);
    assert_eq!(registry.settle(&key, 1, outcome), Ok(Settled::Kept));
    assert!(!registry.awaits(&key, 1));
}

#[test]
fn keys_from_one_type_id_name_one_slot() {
    let mut registry: Registry<Recipe, u64> = Registry::new();
    let mut counter: u64 = 3;
    let id = std::any::TypeId::of::<u32>();
    let key = BindingKey::new(id, None);
    assert!(key.same(&BindingKey::of::<u32>()));
    assert!(!key.same(&BindingKey::new(id, Some("x".to_string()))));
    assert!(BindingKey::new(id, Some("x".to_string())).same(&BindingKey::named::<u32>("x".to_string())));
    registry.bind(BindingKey::new(id, None), Lifecycle::Transient, counting);
    assert_eq!(request(&mut registry, &BindingKey::of::<u32>(), &mut counter), Ok(3));
    assert_eq!(request(&mut registry, &BindingKey::of::<u64>(), &mut counter), Err(Error::NoBinding));
}
