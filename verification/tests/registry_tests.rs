use spawned_concurrency::gen_server_registry::{GenServerRegistry, GenServerRegistryError};
use spawned_concurrency::registry::{
    name_of, register, registered, unregister, unregister_pid, whereis, Registry, RegistryError,
};
use spawned_concurrency::pid::Pid;
use std::any::Any;

type Store = Registry<Box<dyn Any + Send + Sync>>;

fn lookup<T: Clone + 'static>(store: &Store, name: &str) -> Option<T> {
    whereis(store, name).and_then(|v| v.downcast_ref::<T>().cloned())
}

#[test]
fn register_and_whereis() {
    let mut store: Store = Registry::new();
    register(&mut store, "test_rw_1", Box::new(42u64)).unwrap();
    let val: Option<u64> = lookup(&store, "test_rw_1");
    assert_eq!(val, Some(42));
}

#[test]
fn whereis_wrong_type_returns_none() {
    let mut store: Store = Registry::new();
    register(&mut store, "test_wt_1", Box::new(42u64)).unwrap();
    let val: Option<String> = lookup(&store, "test_wt_1");
    assert_eq!(val, None);
}

#[test]
fn whereis_missing_returns_none() {
    let store: Store = Registry::new();
    let val: Option<u64> = lookup(&store, "nonexistent_key");
    assert_eq!(val, None);
}

#[test]
fn duplicate_register_fails() {
    let mut store: Store = Registry::new();
    register(&mut store, "test_dup_1", Box::new(1u32)).unwrap();
    let result = register(&mut store, "test_dup_1", Box::new(2u32));
    assert!(result.is_err());
}

#[test]
fn unregister_removes_entry() {
    let mut store: Store = Registry::new();
    register(&mut store, "test_unreg_1", Box::new("hello".to_string())).unwrap();
    unregister(&mut store, "test_unreg_1");
    let val: Option<String> = lookup(&store, "test_unreg_1");
    assert_eq!(val, None);
}

#[test]
fn registered_lists_names() {
    let mut store: Store = Registry::new();
    register(&mut store, "test_list_a", Box::new(1u32)).unwrap();
    register(&mut store, "test_list_b", Box::new(2u32)).unwrap();
    let names = registered(&store);
    assert!(names.contains(&"test_list_a".to_string()));
    assert!(names.contains(&"test_list_b".to_string()));
}

#[test]
fn registry_error_message() {
    let mut store: Registry<u8> = Registry::new();
    register(&mut store, "x", 1).unwrap();
    let err = register(&mut store, "x", 2).unwrap_err();
    assert_eq!(err, RegistryError::AlreadyRegistered("x".to_string()));
    assert_eq!(err.to_string(), "name 'x' is already registered");
    assert_eq!(whereis(&store, "x"), Some(&1));
}

#[test]
fn gen_server_registry_add_get_update() {
    let mut reg = GenServerRegistry::new();
    assert_eq!(reg.get_entry("basket"), Err(GenServerRegistryError::ServerNotFound));
    assert_eq!(reg.update_entry("basket", Pid { id: 1 }), Err(GenServerRegistryError::ServerNotFound));
    assert_eq!(reg.get_entry("basket"), Err(GenServerRegistryError::ServerNotFound));
    reg.add_entry("basket", Pid { id: 10 }).unwrap();
    assert_eq!(reg.add_entry("basket", Pid { id: 11 }), Err(GenServerRegistryError::AddressAlreadyTaken));
    assert_eq!(reg.get_entry("basket"), Ok(Pid { id: 10 }));
    reg.update_entry("basket", Pid { id: 12 }).unwrap();
    assert_eq!(reg.get_entry("basket"), Ok(Pid { id: 12 }));
    reg.add_entry("other", Pid { id: 5 }).unwrap();
    assert_eq!(reg.get_entry("other"), Ok(Pid { id: 5 }));
    assert_eq!(reg.get_entry("orange"), Err(GenServerRegistryError::ServerNotFound));
    let mut ids: Vec<u64> = reg.all_entries().iter().map(|p| p.id).collect();
    ids.sort();
    assert_eq!(ids, vec![5, 12]);
}

#[test]
fn gen_server_registry_same_server_at_two_addresses() {
    let mut reg = GenServerRegistry::new();
    assert!(reg.all_entries().is_empty());
    reg.add_entry("a", Pid { id: 7 }).unwrap();
    reg.add_entry("b", Pid { id: 7 }).unwrap();
    assert_eq!(reg.all_entries(), vec![Pid { id: 7 }, Pid { id: 7 }]);
}

#[test]
fn gen_server_registry_error_messages() {
    assert_eq!(
        GenServerRegistryError::AddressAlreadyTaken.to_string(),
        "A GenServer is already Registered at this Address"
    );
    assert_eq!(
        GenServerRegistryError::ServerNotFound.to_string(),
        "There is no GenServer associated with this Address"
    );
}

#[test]
fn test_gen_server_registry() {
    // Pids stand for the servers: banana holds 10, lettuce 20, the new banana 15.
    let banana_fruit_basket = Pid { id: 10 };
    let lettuce_vegetable_basket = Pid { id: 20 };
    let mut registry = GenServerRegistry::new();

    assert!(registry.add_entry("banana_fruit_basket", banana_fruit_basket).is_ok());
    assert!(registry.add_entry("lettuce_vegetable_basket", lettuce_vegetable_basket).is_ok());

    let retrieved_fruit_basket = registry.get_entry("banana_fruit_basket").unwrap();
    assert_eq!(retrieved_fruit_basket.id, 10);
    let retrieved_vegetable_basket = registry.get_entry("lettuce_vegetable_basket").unwrap();
    assert_eq!(retrieved_vegetable_basket.id, 20);

    let amount_collected: u64 = registry.all_entries().iter().map(|p| p.id).sum();
    assert_eq!(amount_collected, 10 + 20);

    let new_banana_fruit_basket = Pid { id: 15 };
    assert!(registry.add_entry("banana_fruit_basket", new_banana_fruit_basket).is_err());
    assert!(registry.update_entry("banana_fruit_basket", new_banana_fruit_basket).is_ok());
    let updated_fruit_basket = registry.get_entry("banana_fruit_basket").unwrap();
    assert_eq!(updated_fruit_basket.id, 15);

    assert!(registry.get_entry("orange_fruit_basket").is_err());
    let orange_fruit_basket = Pid { id: 5 };
    assert!(registry.update_entry("orange_fruit_basket", orange_fruit_basket).is_err());
}

#[test]
fn unregister_pid_drops_only_names_bound_to_it() {
    let mut names: Registry<(Option<Pid>, u32)> = Registry::new();
    let a = Pid { id: 1 };
    let b = Pid { id: 2 };
    register(&mut names, "a1", (Some(a), 10)).unwrap();
    register(&mut names, "b1", (Some(b), 20)).unwrap();
    register(&mut names, "a2", (Some(a), 30)).unwrap();
    register(&mut names, "plain", (None, 40)).unwrap();
    assert_eq!(name_of(&names, a), Some("a1".to_string()));
    unregister_pid(&mut names, a);
    assert_eq!(registered(&names), vec!["b1".to_string(), "plain".to_string()]);
    assert_eq!(name_of(&names, a), None);
    assert_eq!(name_of(&names, b), Some("b1".to_string()));
    assert_eq!(whereis(&names, "plain"), Some(&(None, 40)));
}
