//! The transactional key-value store abstraction: container-scoped byte
//! storage with a batched-commit primitive, stated over a two-level map
//! from container names to key/value maps.

use vstd::prelude::*;

use crate::error::CommandError;
use crate::text::is_prefix_of;

verus! {

/// One staged operation of a transaction.
pub enum StoreOperation {
    Put(String, String, Vec<u8>),
    Delete(String, String),
}

/// The abstract state of a store: container name, then key, then bytes.
pub type StoreContents = Map<Seq<char>, Map<Seq<char>, Seq<u8>>>;

/// The store after a put: the container is created if absent, and the key
/// overwritten if present.
pub open spec fn put_contents(
    c: StoreContents,
    container: Seq<char>,
    key: Seq<char>,
    value: Seq<u8>,
) -> StoreContents {
    let inner = if c.contains_key(container) {
        c[container]
    } else {
        Map::empty()
    };
    c.insert(container, inner.insert(key, value))
}

/// The store after a delete: removing an absent key, or from an absent
/// container, changes nothing.
pub open spec fn delete_contents(
    c: StoreContents,
    container: Seq<char>,
    key: Seq<char>,
) -> StoreContents {
    if c.contains_key(container) {
        c.insert(container, c[container].remove(key))
    } else {
        c
    }
}

/// The store after one staged operation.
pub open spec fn apply_op(c: StoreContents, op: StoreOperation) -> StoreContents {
    match op {
        StoreOperation::Put(container, key, value) => put_contents(c, container@, key@, value@),
        StoreOperation::Delete(container, key) => delete_contents(c, container@, key@),
    }
}

/// The store after a batch of staged operations, applied in order.
pub open spec fn apply_ops(c: StoreContents, ops: Seq<StoreOperation>) -> StoreContents
    decreases ops,
{
    if ops.len() == 0 {
        c
    } else {
        apply_ops(apply_op(c, ops.first()), ops.drop_first())
    }
}

/// Whether `key` passes an optional prefix filter.
pub open spec fn matches_prefix(key_prefix: Option<&str>, key: Seq<char>) -> bool {
    match key_prefix {
        None => true,
        Some(p) => is_prefix_of(p@, key),
    }
}

/// The views of a list of strings, in order.
pub open spec fn str_views(s: Seq<String>) -> Seq<Seq<char>> {
    s.map_values(|x: String| x@)
}

/// Container-scoped byte storage with a batched-commit primitive.
///
/// The contract is the interface: any backend that meets it can sit under
/// the resource commands. Reads never change the store; a commit applies
/// its whole batch in order.
pub trait TransactionalKeyValueStore: Sized {
    /// The abstract contents of the store.
    open spec fn contents(&self) -> StoreContents {
        Map::empty()
    }

    /// The keys of a container, optionally filtered to those starting with
    /// `key_prefix`; exactly the matching keys, each once, in some order.
    fn list_keys(&self, container: &str, key_prefix: Option<&str>) -> (r: Result<
        Vec<String>,
        CommandError,
    >)
        ensures
            r is Ok <==> self.contents().contains_key(container@),
            r is Err ==> r == Err::<Vec<String>, CommandError>(CommandError::NotFound),
            r is Ok ==> {
                let ks = str_views(r.unwrap()@);
                &&& forall|i: int, j: int| 0 <= i < j < ks.len() ==> ks[i] != ks[j]
                &&& forall|i: int|
                    0 <= i < ks.len() ==> self.contents()[container@].contains_key(#[trigger] ks[i])
                        && matches_prefix(key_prefix, ks[i])
                &&& forall|k: Seq<char>|
                    self.contents()[container@].contains_key(k) && matches_prefix(key_prefix, k)
                        ==> ks.contains(k)
            },
    ;

    /// The bytes at `key`, or `NotFound` if the container or key is absent.
    fn get(&self, container: &str, key: &str) -> (r: Result<Vec<u8>, CommandError>)
        ensures
            r is Ok <==> self.contents().contains_key(container@)
                && self.contents()[container@].contains_key(key@),
            r is Ok ==> r.unwrap()@ == self.contents()[container@][key@],
            r is Err ==> r == Err::<Vec<u8>, CommandError>(CommandError::NotFound),
    ;

    /// Stores `value` at `key`, creating the container as needed and
    /// overwriting any existing value; hands the value back.
    fn put(&mut self, container: &str, key: &str, value: Vec<u8>) -> (r: Result<
        Vec<u8>,
        CommandError,
    >)
        ensures
            r is Ok,
            r.unwrap()@ == value@,
            final(self).contents() == put_contents(old(self).contents(), container@, key@, value@),
    ;

    /// Removes `key`; removing an absent key is not an error.
    fn delete(&mut self, container: &str, key: &str) -> (r: Result<(), CommandError>)
        ensures
            r is Ok,
            final(self).contents() == delete_contents(old(self).contents(), container@, key@),
    ;

    /// Applies a batch of operations in order, with no other commit
    /// interleaved.
    fn commit_transaction(&mut self, ops: Vec<StoreOperation>) -> (r: Result<(), CommandError>)
        ensures
            r is Ok,
            final(self).contents() == apply_ops(old(self).contents(), ops@),
    ;

    /// Creates an empty container; `AlreadyExists` if it is present.
    fn new_container(&mut self, container: &str) -> (r: Result<(), CommandError>)
        ensures
            r is Ok <==> !old(self).contents().contains_key(container@),
            r is Err ==> r == Err::<(), CommandError>(CommandError::AlreadyExists) && final(self).contents() == old(self).contents(),
            r is Ok ==> final(self).contents() == old(self).contents().insert(
                container@,
                Map::empty(),
            ),
    ;

    /// Removes a container and everything in it; `NotFound` if absent.
    fn delete_container(&mut self, container: &str) -> (r: Result<(), CommandError>)
        ensures
            r is Ok <==> old(self).contents().contains_key(container@),
            r is Err ==> r == Err::<(), CommandError>(CommandError::NotFound) && final(self).contents() == old(self).contents(),
            r is Ok ==> final(self).contents() == old(self).contents().remove(container@),
    ;

    /// Whether a container exists.
    fn container_exists(&self, container: &str) -> (r: Result<bool, CommandError>)
        ensures
            r is Ok,
            r.unwrap() == self.contents().contains_key(container@),
    ;

    /// The names of all containers, each once, in some order.
    fn list_containers(&self) -> (r: Result<Vec<String>, CommandError>)
        ensures
            r is Ok,
            ({
                let ns = str_views(r.unwrap()@);
                &&& forall|i: int, j: int| 0 <= i < j < ns.len() ==> ns[i] != ns[j]
                &&& forall|i: int|
                    0 <= i < ns.len() ==> self.contents().contains_key(#[trigger] ns[i])
                &&& forall|k: Seq<char>| self.contents().contains_key(k) ==> ns.contains(k)
            }),
    ;

    /// Moves a container's contents to a new name. `NotFound` if the old
    /// name is absent, `AlreadyExists` if the new name is taken.
    fn rename_container(&mut self, old_name: &str, new_name: &str) -> (r: Result<
        (),
        CommandError,
    >)
        ensures
            r is Err ==> final(self).contents() == old(self).contents(),
            !old(self).contents().contains_key(old_name@) ==> r == Err::<(), CommandError>(
                CommandError::NotFound,
            ),
            old(self).contents().contains_key(old_name@) && old(self).contents().contains_key(
                new_name@,
            ) ==> r == Err::<(), CommandError>(CommandError::AlreadyExists),
            old(self).contents().contains_key(old_name@) && !old(self).contents().contains_key(
                new_name@,
            ) ==> r is Ok && final(self).contents() == old(self).contents().remove(
                old_name@,
            ).insert(new_name@, old(self).contents()[old_name@]),
    ;

    /// Empties a container, keeping it; `NotFound` if absent.
    fn clear_container(&mut self, container: &str) -> (r: Result<(), CommandError>)
        ensures
            r is Ok <==> old(self).contents().contains_key(container@),
            r is Err ==> r == Err::<(), CommandError>(CommandError::NotFound) && final(self).contents() == old(self).contents(),
            r is Ok ==> final(self).contents() == old(self).contents().insert(
                container@,
                Map::empty(),
            ),
    ;
}

/// A staging buffer over a store: put and delete operations accumulate
/// here and reach the store only through `commit`, as one batch; `rollback`
/// discards them. Both take the transaction by value, so every transaction
/// ends in exactly one of the two.
#[must_use]
pub struct Transaction {
    /// The staged operations, in the order they were added.
    pub staged_ops: Vec<StoreOperation>,
    /// Whether the batch has already been committed.
    pub committed: bool,
}

impl Transaction {
    /// An empty transaction.
    pub fn new() -> (t: Transaction)
        ensures
            t.staged_ops@ =~= Seq::<StoreOperation>::empty(),
            !t.committed,
    {
        Transaction { staged_ops: Vec::new(), committed: false }
    }

    /// Stages a put.
    pub fn put(&mut self, container: String, key: String, value: Vec<u8>)
        ensures
            final(self).staged_ops@ == old(self).staged_ops@.push(
                StoreOperation::Put(container, key, value),
            ),
            final(self).committed == old(self).committed,
    {
        self.staged_ops.push(StoreOperation::Put(container, key, value));
    }

    /// Stages a delete.
    pub fn delete(&mut self, container: String, key: String)
        ensures
            final(self).staged_ops@ == old(self).staged_ops@.push(
                StoreOperation::Delete(container, key),
            ),
            final(self).committed == old(self).committed,
    {
        self.staged_ops.push(StoreOperation::Delete(container, key));
    }

    /// Applies the staged operations to `store` as one batch. A transaction
    /// that was already committed, or holds nothing, changes nothing.
    pub fn commit<S: TransactionalKeyValueStore>(self, store: &mut S) -> (r: Result<
        (),
        CommandError,
    >)
        ensures
            r is Ok,
            self.committed || self.staged_ops@.len() == 0 ==> final(store).contents() == old(
                store,
            ).contents(),
            !self.committed && self.staged_ops@.len() > 0 ==> final(store).contents() == apply_ops(
                old(store).contents(),
                self.staged_ops@,
            ),
    {
        if self.committed || self.staged_ops.is_empty() {
            return Ok(());
        }
        store.commit_transaction(self.staged_ops)
    }

    /// Discards the staged operations; the store is never touched.
    pub fn rollback(self) {
    }
}

} // verus!
