//! The in-memory store and the transaction, driven from outside.

use kuiper_runtime::error::CommandError;
use kuiper_runtime::in_memory_store::InMemoryStore;
use kuiper_runtime::store::{StoreOperation, Transaction, TransactionalKeyValueStore};

#[test]
fn put_get_overwrite_delete() {
    let mut store = InMemoryStore::new();
    assert_eq!(
        store.get("resource", "default/widgets/foo"),
        Err(CommandError::NotFound)
    );
    store
        .put("resource", "default/widgets/foo", b"one".to_vec())
        .unwrap();
    assert_eq!(
        store.get("resource", "default/widgets/foo").unwrap(),
        b"one".to_vec()
    );
    store
        .put("resource", "default/widgets/foo", b"two".to_vec())
        .unwrap();
    assert_eq!(
        store.get("resource", "default/widgets/foo").unwrap(),
        b"two".to_vec()
    );
    store.delete("resource", "default/widgets/foo").unwrap();
    assert_eq!(
        store.get("resource", "default/widgets/foo"),
        Err(CommandError::NotFound)
    );
    // deleting an absent key is not an error
    store.delete("resource", "default/widgets/foo").unwrap();
    // deleting from an absent container is not an error either
    store.delete("nowhere", "default/widgets/foo").unwrap();
}

#[test]
fn containers_create_rename_clear() {
    let mut store = InMemoryStore::new();
    assert_eq!(store.container_exists("a").unwrap(), false);
    store.new_container("a").unwrap();
    assert_eq!(store.container_exists("a").unwrap(), true);
    assert_eq!(store.new_container("a"), Err(CommandError::AlreadyExists));
    store.put("a", "k", b"v".to_vec()).unwrap();
    assert_eq!(
        store.rename_container("missing", "b"),
        Err(CommandError::NotFound)
    );
    store.new_container("b").unwrap();
    assert_eq!(
        store.rename_container("a", "b"),
        Err(CommandError::AlreadyExists)
    );
    store.delete_container("b").unwrap();
    store.rename_container("a", "b").unwrap();
    assert_eq!(store.container_exists("a").unwrap(), false);
    assert_eq!(store.get("b", "k").unwrap(), b"v".to_vec());
    let mut names = store.list_containers().unwrap();
    names.sort();
    assert_eq!(names, vec!["b".to_string()]);
    store.clear_container("b").unwrap();
    assert_eq!(store.container_exists("b").unwrap(), true);
    assert_eq!(store.get("b", "k"), Err(CommandError::NotFound));
    assert_eq!(store.delete_container("gone"), Err(CommandError::NotFound));
    assert_eq!(store.clear_container("gone"), Err(CommandError::NotFound));
}

#[test]
fn list_keys_prefix_filter() {
    let mut store = InMemoryStore::new();
    assert_eq!(
        store.list_keys("resource", None),
        Err(CommandError::NotFound)
    );
    store.put("resource", "n/p/a", b"1".to_vec()).unwrap();
    store.put("resource", "n/p/b", b"2".to_vec()).unwrap();
    store.put("resource", "n/q/c", b"3".to_vec()).unwrap();
    store.put("resource", "m/p/d", b"4".to_vec()).unwrap();
    let mut all = store.list_keys("resource", None).unwrap();
    all.sort();
    assert_eq!(all, vec!["m/p/d", "n/p/a", "n/p/b", "n/q/c"]);
    let mut np = store.list_keys("resource", Some("n/p")).unwrap();
    np.sort();
    assert_eq!(np, vec!["n/p/a", "n/p/b"]);
}

#[test]
fn transaction_commit_applies_batch() {
    let mut store = InMemoryStore::new();
    store.put("resource", "stale", b"old".to_vec()).unwrap();
    let mut tx = Transaction::new();
    tx.put(
        "resource".to_string(),
        "fresh".to_string(),
        b"new".to_vec(),
    );
    tx.delete("resource".to_string(), "stale".to_string());
    tx.commit(&mut store).unwrap();
    assert_eq!(store.get("resource", "fresh").unwrap(), b"new".to_vec());
    assert_eq!(store.get("resource", "stale"), Err(CommandError::NotFound));
}

#[test]
fn transaction_rollback_discards() {
    let mut store = InMemoryStore::new();
    let mut tx = Transaction::new();
    tx.put(
        "resource".to_string(),
        "ghostly".to_string(),
        b"x".to_vec(),
    );
    tx.rollback();
    assert_eq!(store.get("resource", "ghostly"), Err(CommandError::NotFound));
    // an empty commit is a no-op
    let tx2 = Transaction::new();
    tx2.commit(&mut store).unwrap();
}

#[test]
fn commit_transaction_runs_in_order() {
    let mut store = InMemoryStore::new();
    let ops = vec![
        StoreOperation::Put("c".to_string(), "k".to_string(), b"first".to_vec()),
        StoreOperation::Put("c".to_string(), "k".to_string(), b"second".to_vec()),
        StoreOperation::Delete("c".to_string(), "other".to_string()),
    ];
    store.commit_transaction(ops).unwrap();
    assert_eq!(store.get("c", "k").unwrap(), b"second".to_vec());
}
