//! An in-memory store backend: association lists of containers and of
//! keys, proved against the `TransactionalKeyValueStore` contract.

use vstd::prelude::*;

use crate::error::CommandError;
use crate::store::{
    apply_op, apply_ops, delete_contents, matches_prefix, put_contents, str_views, StoreContents,
    StoreOperation, TransactionalKeyValueStore,
};
use crate::assoc::{
    assoc_map, distinct_names, lemma_assoc_at, lemma_assoc_dom, lemma_assoc_push,
    lemma_assoc_remove, lemma_distinct_push,
};
use crate::text::{starts_with_str, str_eq_str};

verus! {

/// The key/value map of one container.
pub open spec fn kv_view(entries: Seq<(String, Vec<u8>)>) -> Map<Seq<char>, Seq<u8>> {
    assoc_map(entries, |v: Vec<u8>| v@)
}

/// The two-level map of a whole store.
pub open spec fn store_view(containers: Seq<(String, Vec<(String, Vec<u8>)>)>) -> StoreContents {
    assoc_map(containers, |c: Vec<(String, Vec<u8>)>| kv_view(c@))
}

/// Copies a byte string.
fn clone_bytes(v: &Vec<u8>) -> (r: Vec<u8>)
    ensures
        r@ == v@,
{
    let n = v.len();
    let mut out: Vec<u8> = Vec::new();
    let mut i: usize = 0;
    while i < n
        invariant
            i <= n == v@.len(),
            out@ =~= v@.subrange(0, i as int),
        decreases n - i,
    {
        out.push(v[i]);
        proof {
            assert(out@ =~= v@.subrange(0, i + 1 as int));
        }
        i += 1;
    }
    proof {
        assert(v@.subrange(0, n as int) =~= v@);
    }
    out
}

/// The position of the entry named `name`, if any.
fn find_pair_idx<V>(s: &Vec<(String, V)>, name: &str) -> (r: Option<usize>)
    ensures
        match r {
            Some(i) => i < s@.len() && s@[i as int].0@ == name@,
            None => forall|j: int| 0 <= j < s@.len() ==> (#[trigger] s@[j].0@) != name@,
        },
{
    let n = s.len();
    let mut i: usize = 0;
    while i < n
        invariant
            i <= n == s@.len(),
            forall|j: int| 0 <= j < i ==> (#[trigger] s@[j].0@) != name@,
        decreases n - i,
    {
        if str_eq_str(s[i].0.as_str(), name) {
            return Some(i);
        }
        i += 1;
    }
    None
}

/// A store backed by process memory: containers and keys are association
/// lists with distinct names.
pub struct InMemoryStore {
    containers: Vec<(String, Vec<(String, Vec<u8>)>)>,
}

impl InMemoryStore {
    #[verifier::type_invariant]
    spec fn wf(self) -> bool {
        &&& distinct_names(self.containers@)
        &&& forall|i: int|
            0 <= i < self.containers@.len() ==> distinct_names(#[trigger] self.containers@[i].1@)
    }

    /// An empty store.
    pub fn new() -> (s: Self)
        ensures
            s.contents() == Map::<Seq<char>, Map<Seq<char>, Seq<u8>>>::empty(),
    {
        InMemoryStore { containers: Vec::new() }
    }
}

impl TransactionalKeyValueStore for InMemoryStore {
    closed spec fn contents(&self) -> StoreContents {
        store_view(self.containers@)
    }

    fn list_keys(&self, container: &str, key_prefix: Option<&str>) -> (r: Result<
        Vec<String>,
        CommandError,
    >) {
        proof {
            use_type_invariant(&*self);
            lemma_assoc_dom(self.containers@, |c: Vec<(String, Vec<u8>)>| kv_view(c@), container@);
        }
        let ci = match find_pair_idx(&self.containers, container) {
            None => {
                return Err(CommandError::NotFound);
            },
            Some(ci) => ci,
        };
        proof {
            lemma_assoc_at(self.containers@, |c: Vec<(String, Vec<u8>)>| kv_view(c@), ci as int);
        }
        let entries = &self.containers[ci].1;
        let ghost es = entries@;
        let n = entries.len();
        let mut out: Vec<String> = Vec::new();
        let mut i: usize = 0;
        while i < n
            invariant
                i <= n == es.len(),
                entries@ == es,
                distinct_names(es),
                self.contents().contains_key(container@),
                self.contents()[container@] == kv_view(es),
                forall|a: int|
                    0 <= a < out@.len() ==> exists|j: int|
                        0 <= j < i && (#[trigger] out@[a]@) == es[j].0@ && matches_prefix(
                            key_prefix,
                            es[j].0@,
                        ),
                forall|j: int|
                    0 <= j < i && matches_prefix(key_prefix, (#[trigger] es[j].0@)) ==> str_views(
                        out@,
                    ).contains(es[j].0@),
                forall|a: int, b: int| 0 <= a < b < out@.len() ==> out@[a]@ != out@[b]@,
            decreases n - i,
        {
            let keep = match key_prefix {
                None => true,
                Some(p) => starts_with_str(entries[i].0.as_str(), p),
            };
            if keep {
                let ghost prev = out@;
                out.push(entries[i].0.clone());
                proof {
                    assert(out@ == prev.push(out@[prev.len() as int]));
                    assert(out@[prev.len() as int]@ == es[i as int].0@);
                    assert(forall|a: int| 0 <= a < prev.len() ==> out@[a] == prev[a]);
                    assert forall|a: int, b: int| 0 <= a < b < out@.len() implies out@[a]@
                        != out@[b]@ by {
                        if b == prev.len() as int {
                            let j = choose|j: int|
                                0 <= j < i && (#[trigger] prev[a]@) == es[j].0@ && matches_prefix(
                                    key_prefix,
                                    es[j].0@,
                                );
                            assert(es[j].0@ != es[i as int].0@);
                        }
                    }
                    assert forall|j: int|
                        0 <= j < i + 1 && matches_prefix(
                            key_prefix,
                            (#[trigger] es[j].0@),
                        ) implies str_views(out@).contains(es[j].0@) by {
                        if j < i {
                            assert(str_views(prev).contains(es[j].0@));
                            let a = choose|a: int|
                                0 <= a < prev.len() && str_views(prev)[a] == es[j].0@;
                            assert(str_views(out@)[a] == es[j].0@);
                        } else {
                            assert(str_views(out@)[prev.len() as int] == es[j].0@);
                        }
                    }
                }
            }
            i += 1;
        }
        proof {
            assert forall|a: int|
                0 <= a < str_views(out@).len() implies self.contents()[container@].contains_key(
                #[trigger] str_views(out@)[a],
            ) && matches_prefix(key_prefix, str_views(out@)[a]) by {
                let j = choose|j: int|
                    0 <= j < n && (#[trigger] out@[a]@) == es[j].0@ && matches_prefix(
                        key_prefix,
                        es[j].0@,
                    );
                lemma_assoc_at(es, |v: Vec<u8>| v@, j);
            }
            assert forall|k: Seq<char>|
                self.contents()[container@].contains_key(k) && matches_prefix(
                    key_prefix,
                    k,
                ) implies str_views(out@).contains(k) by {
                lemma_assoc_dom(es, |v: Vec<u8>| v@, k);
                let j = choose|j: int| 0 <= j < es.len() && (#[trigger] es[j].0@) == k;
            }
        }
        Ok(out)
    }

    fn get(&self, container: &str, key: &str) -> (r: Result<Vec<u8>, CommandError>) {
        proof {
            use_type_invariant(&*self);
            lemma_assoc_dom(self.containers@, |c: Vec<(String, Vec<u8>)>| kv_view(c@), container@);
        }
        let ci = match find_pair_idx(&self.containers, container) {
            None => {
                return Err(CommandError::NotFound);
            },
            Some(ci) => ci,
        };
        proof {
            lemma_assoc_at(self.containers@, |c: Vec<(String, Vec<u8>)>| kv_view(c@), ci as int);
            lemma_assoc_dom(self.containers@[ci as int].1@, |v: Vec<u8>| v@, key@);
        }
        let ki = match find_pair_idx(&self.containers[ci].1, key) {
            None => {
                return Err(CommandError::NotFound);
            },
            Some(ki) => ki,
        };
        proof {
            lemma_assoc_at(self.containers@[ci as int].1@, |v: Vec<u8>| v@, ki as int);
        }
        Ok(clone_bytes(&self.containers[ci].1[ki].1))
    }

    fn put(&mut self, container: &str, key: &str, value: Vec<u8>) -> (r: Result<
        Vec<u8>,
        CommandError,
    >) {
        proof {
            use_type_invariant(&*self);
        }
        let ghost prev = self.containers@;
        let mut cs: Vec<(String, Vec<(String, Vec<u8>)>)> = Vec::new();
        core::mem::swap(&mut cs, &mut self.containers);
        proof {
            lemma_assoc_dom(cs@, |c: Vec<(String, Vec<u8>)>| kv_view(c@), container@);
        }
        let stored = clone_bytes(&value);
        match find_pair_idx(&cs, container) {
            None => {
                let mut entries: Vec<(String, Vec<u8>)> = Vec::new();
                entries.push((key.to_owned(), stored));
                proof {
                    assert(entries@ =~= Seq::<(String, Vec<u8>)>::empty().push(entries@[0]));
                    lemma_assoc_push(
                        Seq::<(String, Vec<u8>)>::empty(),
                        |v: Vec<u8>| v@,
                        entries@[0],
                    );
                }
                let pair = (container.to_owned(), entries);
                proof {
                    lemma_assoc_push(prev, |c: Vec<(String, Vec<u8>)>| kv_view(c@), pair);
                    lemma_distinct_push(prev, pair);
                }
                cs.push(pair);
            },
            Some(ci) => {
                proof {
                    lemma_assoc_at(cs@, |c: Vec<(String, Vec<u8>)>| kv_view(c@), ci as int);
                    lemma_assoc_remove(cs@, |c: Vec<(String, Vec<u8>)>| kv_view(c@), ci as int);
                }
                let mut pair = cs.remove(ci);
                proof {
                    lemma_assoc_dom(pair.1@, |v: Vec<u8>| v@, key@);
                }
                match find_pair_idx(&pair.1, key) {
                    None => {
                        let ghost inner_prev = pair.1@;
                        let kp = (key.to_owned(), stored);
                        proof {
                            lemma_assoc_push(inner_prev, |v: Vec<u8>| v@, kp);
                            lemma_distinct_push(inner_prev, kp);
                        }
                        pair.1.push(kp);
                    },
                    Some(ki) => {
                        proof {
                            lemma_assoc_remove(pair.1@, |v: Vec<u8>| v@, ki as int);
                        }
                        let _replaced = pair.1.remove(ki);
                        let ghost inner_mid = pair.1@;
                        let kp = (key.to_owned(), stored);
                        proof {
                            lemma_assoc_push(inner_mid, |v: Vec<u8>| v@, kp);
                            lemma_assoc_dom(inner_mid, |v: Vec<u8>| v@, key@);
                            lemma_distinct_push(inner_mid, kp);
                        }
                        pair.1.push(kp);
                    },
                }
                let ghost mid = cs@;
                proof {
                    lemma_assoc_push(mid, |c: Vec<(String, Vec<u8>)>| kv_view(c@), pair);
                    lemma_assoc_dom(mid, |c: Vec<(String, Vec<u8>)>| kv_view(c@), container@);
                    assert forall|j: int| 0 <= j < mid.len() implies (#[trigger] mid[j].0@)
                        != pair.0@ by {
                        assert(mid =~= prev.remove(ci as int));
                    }
                    lemma_distinct_push(mid, pair);
                }
                cs.push(pair);
                proof {
                    assert(store_view(cs@) =~~= put_contents(
                        store_view(prev),
                        container@,
                        key@,
                        value@,
                    ));
                }
            },
        }
        core::mem::swap(&mut cs, &mut self.containers);
        Ok(value)
    }

    fn delete(&mut self, container: &str, key: &str) -> (r: Result<(), CommandError>) {
        proof {
            use_type_invariant(&*self);
        }
        let ghost prev = self.containers@;
        let mut cs: Vec<(String, Vec<(String, Vec<u8>)>)> = Vec::new();
        core::mem::swap(&mut cs, &mut self.containers);
        proof {
            lemma_assoc_dom(cs@, |c: Vec<(String, Vec<u8>)>| kv_view(c@), container@);
        }
        match find_pair_idx(&cs, container) {
            None => {},
            Some(ci) => {
                proof {
                    lemma_assoc_at(cs@, |c: Vec<(String, Vec<u8>)>| kv_view(c@), ci as int);
                    lemma_assoc_remove(cs@, |c: Vec<(String, Vec<u8>)>| kv_view(c@), ci as int);
                }
                let mut pair = cs.remove(ci);
                proof {
                    lemma_assoc_dom(pair.1@, |v: Vec<u8>| v@, key@);
                }
                match find_pair_idx(&pair.1, key) {
                    None => {},
                    Some(ki) => {
                        proof {
                            lemma_assoc_remove(pair.1@, |v: Vec<u8>| v@, ki as int);
                        }
                        let _removed = pair.1.remove(ki);
                    },
                }
                let ghost mid = cs@;
                proof {
                    lemma_assoc_push(mid, |c: Vec<(String, Vec<u8>)>| kv_view(c@), pair);
                    assert forall|j: int| 0 <= j < mid.len() implies (#[trigger] mid[j].0@)
                        != pair.0@ by {
                        assert(mid =~= prev.remove(ci as int));
                    }
                    lemma_distinct_push(mid, pair);
                }
                cs.push(pair);
                proof {
                    assert(store_view(cs@) =~~= delete_contents(store_view(prev), container@, key@));
                }
            },
        }
        core::mem::swap(&mut cs, &mut self.containers);
        Ok(())
    }

    fn commit_transaction(&mut self, ops: Vec<StoreOperation>) -> (r: Result<(), CommandError>) {
        let n = ops.len();
        let mut i: usize = 0;
        while i < n
            invariant
                i <= n == ops@.len(),
                self.contents() == apply_ops(old(self).contents(), ops@.subrange(0, i as int)),
            decreases n - i,
        {
            let ghost sofar = self.contents();
            match &ops[i] {
                StoreOperation::Put(container, key, value) => {
                    let copied = clone_bytes(value);
                    let _ = self.put(container.as_str(), key.as_str(), copied);
                    proof {
                        assert(self.contents() == apply_op(sofar, ops@[i as int]));
                    }
                },
                StoreOperation::Delete(container, key) => {
                    let _ = self.delete(container.as_str(), key.as_str());
                    proof {
                        assert(self.contents() == apply_op(sofar, ops@[i as int]));
                    }
                },
            }
            proof {
                lemma_apply_ops_snoc(
                    old(self).contents(),
                    ops@.subrange(0, i as int),
                    ops@[i as int],
                );
                assert(ops@.subrange(0, i + 1 as int) =~= ops@.subrange(0, i as int).push(
                    ops@[i as int],
                ));
            }
            i += 1;
        }
        proof {
            assert(ops@.subrange(0, n as int) =~= ops@);
        }
        Ok(())
    }

    fn new_container(&mut self, container: &str) -> (r: Result<(), CommandError>) {
        proof {
            use_type_invariant(&*self);
        }
        let ghost prev = self.containers@;
        let mut cs: Vec<(String, Vec<(String, Vec<u8>)>)> = Vec::new();
        core::mem::swap(&mut cs, &mut self.containers);
        proof {
            lemma_assoc_dom(cs@, |c: Vec<(String, Vec<u8>)>| kv_view(c@), container@);
        }
        let r = match find_pair_idx(&cs, container) {
            Some(_) => Err(CommandError::AlreadyExists),
            None => {
                let pair = (container.to_owned(), Vec::<(String, Vec<u8>)>::new());
                proof {
                    lemma_assoc_push(prev, |c: Vec<(String, Vec<u8>)>| kv_view(c@), pair);
                    lemma_distinct_push(prev, pair);
                }
                cs.push(pair);
                Ok(())
            },
        };
        core::mem::swap(&mut cs, &mut self.containers);
        r
    }

    fn delete_container(&mut self, container: &str) -> (r: Result<(), CommandError>) {
        proof {
            use_type_invariant(&*self);
        }
        let ghost prev = self.containers@;
        let mut cs: Vec<(String, Vec<(String, Vec<u8>)>)> = Vec::new();
        core::mem::swap(&mut cs, &mut self.containers);
        proof {
            lemma_assoc_dom(cs@, |c: Vec<(String, Vec<u8>)>| kv_view(c@), container@);
        }
        let r = match find_pair_idx(&cs, container) {
            None => Err(CommandError::NotFound),
            Some(ci) => {
                proof {
                    lemma_assoc_remove(cs@, |c: Vec<(String, Vec<u8>)>| kv_view(c@), ci as int);
                }
                let _removed = cs.remove(ci);
                Ok(())
            },
        };
        core::mem::swap(&mut cs, &mut self.containers);
        r
    }

    fn container_exists(&self, container: &str) -> (r: Result<bool, CommandError>) {
        proof {
            use_type_invariant(&*self);
            lemma_assoc_dom(self.containers@, |c: Vec<(String, Vec<u8>)>| kv_view(c@), container@);
        }
        match find_pair_idx(&self.containers, container) {
            Some(_) => Ok(true),
            None => Ok(false),
        }
    }

    fn list_containers(&self) -> (r: Result<Vec<String>, CommandError>) {
        proof {
            use_type_invariant(&*self);
        }
        let cs = &self.containers;
        let n = cs.len();
        let mut out: Vec<String> = Vec::new();
        let mut i: usize = 0;
        while i < n
            invariant
                i <= n == cs@.len(),
                cs@ == self.containers@,
                distinct_names(cs@),
                out@.len() == i,
                forall|a: int| 0 <= a < i ==> (#[trigger] out@[a]@) == cs@[a].0@,
            decreases n - i,
        {
            out.push(cs[i].0.clone());
            i += 1;
        }
        proof {
            assert forall|a: int|
                0 <= a < str_views(out@).len() implies self.contents().contains_key(
                #[trigger] str_views(out@)[a],
            ) by {
                lemma_assoc_at(cs@, |c: Vec<(String, Vec<u8>)>| kv_view(c@), a);
            }
            assert forall|k: Seq<char>| self.contents().contains_key(k) implies str_views(
                out@,
            ).contains(k) by {
                lemma_assoc_dom(cs@, |c: Vec<(String, Vec<u8>)>| kv_view(c@), k);
                let j = choose|j: int| 0 <= j < cs@.len() && (#[trigger] cs@[j].0@) == k;
                assert(str_views(out@)[j] == k);
            }
        }
        Ok(out)
    }

    fn rename_container(&mut self, old_name: &str, new_name: &str) -> (r: Result<
        (),
        CommandError,
    >) {
        proof {
            use_type_invariant(&*self);
        }
        let ghost prev = self.containers@;
        let mut cs: Vec<(String, Vec<(String, Vec<u8>)>)> = Vec::new();
        core::mem::swap(&mut cs, &mut self.containers);
        proof {
            lemma_assoc_dom(cs@, |c: Vec<(String, Vec<u8>)>| kv_view(c@), old_name@);
            lemma_assoc_dom(cs@, |c: Vec<(String, Vec<u8>)>| kv_view(c@), new_name@);
        }
        let r = match find_pair_idx(&cs, old_name) {
            None => Err(CommandError::NotFound),
            Some(ci) => {
                match find_pair_idx(&cs, new_name) {
                    Some(_) => Err(CommandError::AlreadyExists),
                    None => {
                        proof {
                            lemma_assoc_at(cs@, |c: Vec<(String, Vec<u8>)>| kv_view(c@), ci as int);
                            lemma_assoc_remove(
                                cs@,
                                |c: Vec<(String, Vec<u8>)>| kv_view(c@),
                                ci as int,
                            );
                        }
                        let pair = cs.remove(ci);
                        let renamed = (new_name.to_owned(), pair.1);
                        let ghost mid = cs@;
                        proof {
                            lemma_assoc_push(mid, |c: Vec<(String, Vec<u8>)>| kv_view(c@), renamed);
                            assert forall|j: int| 0 <= j < mid.len() implies (#[trigger] mid[j].0@)
                                != renamed.0@ by {
                                assert(mid =~= prev.remove(ci as int));
                            }
                            lemma_distinct_push(mid, renamed);
                        }
                        cs.push(renamed);
                        proof {
                            assert(store_view(cs@) =~~= store_view(prev).remove(old_name@).insert(
                                new_name@,
                                store_view(prev)[old_name@],
                            ));
                        }
                        Ok(())
                    },
                }
            },
        };
        core::mem::swap(&mut cs, &mut self.containers);
        r
    }

    fn clear_container(&mut self, container: &str) -> (r: Result<(), CommandError>) {
        proof {
            use_type_invariant(&*self);
        }
        let ghost prev = self.containers@;
        let mut cs: Vec<(String, Vec<(String, Vec<u8>)>)> = Vec::new();
        core::mem::swap(&mut cs, &mut self.containers);
        proof {
            lemma_assoc_dom(cs@, |c: Vec<(String, Vec<u8>)>| kv_view(c@), container@);
        }
        let r = match find_pair_idx(&cs, container) {
            None => Err(CommandError::NotFound),
            Some(ci) => {
                proof {
                    lemma_assoc_remove(cs@, |c: Vec<(String, Vec<u8>)>| kv_view(c@), ci as int);
                }
                let _removed = cs.remove(ci);
                let ghost mid = cs@;
                let pair = (container.to_owned(), Vec::<(String, Vec<u8>)>::new());
                proof {
                    lemma_assoc_push(mid, |c: Vec<(String, Vec<u8>)>| kv_view(c@), pair);
                    assert forall|j: int| 0 <= j < mid.len() implies (#[trigger] mid[j].0@)
                        != pair.0@ by {
                        assert(mid =~= prev.remove(ci as int));
                    }
                    lemma_distinct_push(mid, pair);
                }
                cs.push(pair);
                proof {
                    assert(store_view(cs@) =~~= store_view(prev).insert(
                        container@,
                        Map::<Seq<char>, Seq<u8>>::empty(),
                    ));
                }
                Ok(())
            },
        };
        core::mem::swap(&mut cs, &mut self.containers);
        r
    }
}

/// Applying a batch and then one more operation is applying the longer
/// batch.
proof fn lemma_apply_ops_snoc(c: StoreContents, ops: Seq<StoreOperation>, op: StoreOperation)
    ensures
        apply_ops(c, ops.push(op)) == apply_op(apply_ops(c, ops), op),
    decreases ops,
{
    if ops.len() == 0 {
        assert(ops.push(op).first() == op);
        assert(ops.push(op).drop_first() =~= Seq::<StoreOperation>::empty());
        assert(apply_ops(apply_op(c, op), Seq::<StoreOperation>::empty()) == apply_op(c, op));
    } else {
        assert(ops.push(op).first() == ops.first());
        assert(ops.push(op).drop_first() =~= ops.drop_first().push(op));
        lemma_apply_ops_snoc(apply_op(c, ops.first()), ops.drop_first(), op);
    }
}

} // verus!
