//! The store registry: one handle per location, weak references only.

use mentat::entities::{AttributePlace, Entity, EntidOrIdent, EntityPlace, OpType, TempId,
    ValuePlace};
use mentat::errors::ErrorKind;
use mentat::stores::Stores;
use mentat::types::TypedValue;
use std::sync::Arc;

fn add(e: EntityPlace, a: &str, v: ValuePlace) -> Entity {
    Entity::AddOrRetract {
        op: OpType::Add,
        e,
        a: AttributePlace::Entid(EntidOrIdent::Ident(a.to_string())),
        v,
    }
}

fn tempid(name: &str) -> EntityPlace {
    EntityPlace::TempId(TempId::External(name.to_string()))
}

fn ident_value(name: &str) -> ValuePlace {
    ValuePlace::Entid(EntidOrIdent::Ident(name.to_string()))
}

#[test]
fn test_stores_open_new_store() {
    let mut stores = Stores::new();
    let store = stores.open_store("test.db").expect("Expected a store to be opened");
    assert_eq!(1, Arc::strong_count(store.conn()));
}

#[test]
fn test_stores_open_new_named_in_memory_store() {
    let name = "test_stores_open_new_named_in_memory_store";
    let mut stores = Stores::new();
    let store = stores.open_named_in_memory_store(name).expect("Expected a store to be opened");
    assert_eq!(1, Arc::strong_count(store.conn()));
}

#[test]
fn test_stores_open_existing_store() {
    let name = "test_stores_open_existing_store";
    let mut stores = Stores::new();
    {
        let store1 = stores.open_named_in_memory_store(name).expect(
            "Expected a store to be opened",
        );
        assert_eq!(1, Arc::strong_count(store1.conn()));
    }
    {
        let store2 = stores.open_named_in_memory_store(name).expect(
            "Expected a store to be opened",
        );
        assert_eq!(1, Arc::strong_count(store2.conn()));
    }
}

#[test]
fn test_stores_get_open_store() {
    let name = "test_stores_get_open_store";
    let mut stores = Stores::new();
    {
        let store = stores.open_named_in_memory_store(name).expect(
            "Expected a store to be opened",
        );
        assert_eq!(1, Arc::strong_count(store.conn()));
    }
    {
        let store_ref = stores.get_named_in_memory_store(name).expect(
            "Expected a store to be fetched",
        ).expect("store");
        assert_eq!(1, Arc::strong_count(store_ref.conn()));
    }
}

#[test]
fn test_stores_get_closed_store() {
    let mut stores = Stores::new();
    match stores.get_named_in_memory_store("test_stores_get_closed_store").expect(
        "Expected a store to be fetched",
    ) {
        None => (),
        Some(_) => panic!("Store is not open and so none should be returned"),
    }
}

#[test]
fn test_stores_connect_open_store() {
    let name = "test_stores_connect_open_store";
    let mut stores = Stores::new();
    {
        let store1 = stores.open_named_in_memory_store(name).expect(
            "Expected a store to be opened",
        );
        assert_eq!(1, Arc::strong_count(store1.conn()));
    }

    // The original store went out of scope, so connecting revives the
    // connection with a single reference.
    let store2 = stores.connect_named_in_memory_store(name).expect("expected a new store");
    assert_eq!(1, Arc::strong_count(store2.conn()));

    {
        // Fetching a reference to the store shares the connection.
        let store3 = stores.get_named_in_memory_store(name).expect(
            "Expected a store to be fetched",
        ).unwrap();
        assert_eq!(2, Arc::strong_count(store3.conn()));
    }

    {
        // Forking again, in its own scope, increases the refcount.
        let store4 = stores.connect_named_in_memory_store(name).expect("expected a new store");
        assert_eq!(2, Arc::strong_count(store4.conn()));
        assert_eq!(2, Arc::strong_count(store2.conn()));
    }

    // Now that scope is over, the original refcount is restored.
    assert_eq!(1, Arc::strong_count(store2.conn()));
}

#[test]
fn test_stores_connect_closed_store() {
    let name = "test_stores_connect_closed_store";
    let mut stores = Stores::new();
    let err = stores.connect_named_in_memory_store(name).err();
    match err.unwrap() {
        ErrorKind::StoreNotFound(message) => {
            assert_eq!(name, message);
        },
        x => panic!("expected Store Not Found error, got {:?}", x),
    }
}

#[test]
fn test_stores_close_store_with_one_reference() {
    let name = "test_stores_close_store_with_one_reference";
    let mut stores = Stores::new();
    let store = stores.open_named_in_memory_store(name).expect("Expected a store to be opened");
    assert_eq!(1, Arc::strong_count(store.conn()));

    assert!(stores.close_named_in_memory_store(name).is_ok());

    assert!(stores.get_named_in_memory_store(name).expect("expected an empty result").is_none())
}

#[test]
fn test_stores_close_store_with_multiple_references() {
    let name = "test_stores_close_store_with_multiple_references";
    let mut stores = Stores::new();

    let store1 = stores.open_named_in_memory_store(name).expect("Expected a store to be opened");
    assert_eq!(1, Arc::strong_count(store1.conn()));

    // Forking an open store leads to a ref count of 2 on the shared conn.
    let store2 = stores.connect_named_in_memory_store(name).expect("expected a connected store");
    assert_eq!(2, Arc::strong_count(store2.conn()));

    let err = stores.close_named_in_memory_store(name).err();
    match err.unwrap() {
        ErrorKind::StoreConnectionStillActive(message) => {
            assert_eq!(name, message);
        },
        x => panic!("expected StoreConnectionStillActive error, got {:?}", x),
    }
}

#[test]
fn test_stores_close_store_with_scoped_multiple_references() {
    let name = "test_stores_close_store_with_scoped_multiple_references";
    let mut stores = Stores::new();
    {
        let store1 = stores.open_named_in_memory_store(name).expect(
            "Expected a store to be opened",
        );
        assert_eq!(1, Arc::strong_count(store1.conn()));

        // Forking an open store leads to a ref count of 2 on the shared conn.
        let store2 = stores.connect_named_in_memory_store(name).expect("expected a new store");
        assert_eq!(2, Arc::strong_count(store2.conn()));

        let err = stores.close_named_in_memory_store(name).err();
        match err.unwrap() {
            ErrorKind::StoreConnectionStillActive(message) => {
                assert_eq!(name, message);
            },
            x => panic!("expected StoreConnectionStillActive error, got {:?}", x),
        }
    }

    // Outside of the scope, there is only one strong reference left, so the
    // connection can be closed.
    assert!(stores.close_named_in_memory_store(name).is_ok());
    assert!(stores.get_named_in_memory_store(name).expect("expected an empty result").is_none())
}

#[test]
fn test_stores_close_unopened_store() {
    let name = "test_stores_close_unopened_store";
    let mut stores = Stores::new();

    let err = stores.close_named_in_memory_store(name).err();
    match err.unwrap() {
        ErrorKind::StoreNotFound(message) => {
            assert_eq!(name, message);
        },
        x => panic!("expected StoreNotFound error, got {:?}", x),
    }
}

#[test]
fn test_stores_connect_perform_mutable_operations() {
    let path = "test.db";
    let mut stores = Stores::new();
    {
        let mut store1 = stores.open_store(path).expect("Expected a store to be opened");
        assert_eq!(1, Arc::strong_count(store1.conn()));
        let mut in_progress = store1.begin_transaction();
        let schema_tx = vec![
            add(tempid("bar"), ":db/ident", ValuePlace::Atom(TypedValue::Keyword(
                ":foo/bar".to_string(),
            ))),
            add(tempid("bar"), ":db/cardinality", ident_value(":db.cardinality/one")),
            add(tempid("bar"), ":db/index", ValuePlace::Atom(TypedValue::Boolean(true))),
            add(tempid("bar"), ":db/unique", ident_value(":db.unique/identity")),
            add(tempid("bar"), ":db/valueType", ident_value(":db.type/long")),
            add(tempid("baz"), ":db/ident", ValuePlace::Atom(TypedValue::Keyword(
                ":foo/baz".to_string(),
            ))),
            add(tempid("baz"), ":db/cardinality", ident_value(":db.cardinality/one")),
            add(tempid("baz"), ":db/valueType", ident_value(":db.type/boolean")),
            add(tempid("x"), ":db/ident", ValuePlace::Atom(TypedValue::Keyword(
                ":foo/x".to_string(),
            ))),
            add(tempid("x"), ":db/cardinality", ident_value(":db.cardinality/many")),
            add(tempid("x"), ":db/valueType", ident_value(":db.type/long")),
        ];
        in_progress.transact(schema_tx, 1000).expect("transact");
        in_progress.commit();
    }

    {
        // Forking an open store shares the connection, and write operations
        // performed through it are visible after the earlier commit.
        let mut store2 = stores.connect_store(path).expect("expected a new store");
        let mut in_progress = store2.begin_transaction();
        let data_tx = vec![
            add(tempid("e1"), ":foo/bar", ValuePlace::Atom(TypedValue::Long(15))),
            add(tempid("e1"), ":foo/baz", ValuePlace::Atom(TypedValue::Boolean(false))),
            add(tempid("e1"), ":foo/x", ValuePlace::Atom(TypedValue::Long(1))),
            add(tempid("e1"), ":foo/x", ValuePlace::Atom(TypedValue::Long(2))),
            add(tempid("e1"), ":foo/x", ValuePlace::Atom(TypedValue::Long(3))),
            add(tempid("e2"), ":foo/bar", ValuePlace::Atom(TypedValue::Long(99))),
            add(tempid("e2"), ":foo/baz", ValuePlace::Atom(TypedValue::Boolean(true))),
            add(tempid("e3"), ":foo/bar", ValuePlace::Atom(TypedValue::Long(-2))),
            add(tempid("e3"), ":foo/baz", ValuePlace::Atom(TypedValue::Boolean(true))),
        ];
        in_progress.transact(data_tx, 2000).expect("transact");
        in_progress.commit();
    }
}
