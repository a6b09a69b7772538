//! The reconcile pass: sweeps the resource container and retires
//! soft-deleted objects whose finalizer list is empty. Objects with
//! finalizers still pending are left in place, terminating, until ordinary
//! commands clear the finalizers.

use vstd::prelude::*;

use crate::command::CommandContext;
use crate::error::CommandError;
use crate::json::{decodable, decoded_of, decode_json, JsonValue};
use crate::resource::{deletion_ts, finalizers_empty, so_reclaimable, so_shape_check, so_shape_ok};
use crate::store::TransactionalKeyValueStore;

verus! {

/// Whether a stored value survives a reconcile pass: it does unless it
/// holds a well-shaped, terminating object with no finalizers left.
pub open spec fn keep_bytes(b: Seq<u8>) -> bool {
    !(decodable(b) && so_reclaimable(decoded_of(b)))
}

/// The resource container after a completed pass: the surviving keys,
/// values untouched.
pub open spec fn reconciled(m: Map<Seq<char>, Seq<u8>>) -> Map<Seq<char>, Seq<u8>> {
    Map::new(|k: Seq<char>| m.contains_key(k) && keep_bytes(m[k]), |k: Seq<char>| m[k])
}

/// Whether every stored value parses as a well-shaped object, so that a
/// pass can complete.
pub open spec fn all_parse(m: Map<Seq<char>, Seq<u8>>) -> bool {
    forall|k: Seq<char>|
        #[trigger] m.dom().contains(k) ==> decodable(m[k]) && so_shape_ok(decoded_of(m[k]))
}

/// Whether `d` is `c` with its resource container partially reconciled:
/// surviving values are untouched, and every key that must survive is
/// still there.
#[verifier::opaque]
pub open spec fn partial_reconcile(
    c: crate::store::StoreContents,
    m: Map<Seq<char>, Seq<u8>>,
    d: crate::store::StoreContents,
) -> bool {
    exists|n: Map<Seq<char>, Seq<u8>>|
        {
            &&& d == #[trigger] c.insert("resource"@, n)
            &&& forall|k: Seq<char>|
                #[trigger] n.dom().contains(k) ==> m.contains_key(k) && n[k] == m[k]
            &&& forall|k: Seq<char>|
                #[trigger] m.dom().contains(k) && decodable(m[k]) && keep_bytes(m[k])
                    ==> n.contains_key(k)
        }
}

/// One reconcile pass: ensures the resource container exists, loads every
/// object in it, skips those not terminating, hard-deletes terminating
/// objects with an empty finalizer list, and leaves the rest in place.
///
/// When every stored value parses as a well-shaped object the pass
/// completes: the container afterwards holds exactly the surviving keys.
/// A value that does not parse aborts the pass with `Internal`; keys
/// processed before the failure are already reconciled, the rest are
/// untouched, and a canonically-encoded value that must survive is never
/// removed.
pub fn reconcile_execute<S: TransactionalKeyValueStore>(
    _ctx: &CommandContext,
    store: &mut S,
) -> (r: Result<Option<JsonValue>, CommandError>)
    ensures
        ({
            let c = old(store).contents();
            let m = if c.contains_key("resource"@) {
                c["resource"@]
            } else {
                Map::<Seq<char>, Seq<u8>>::empty()
            };
            &&& all_parse(m) ==> r == Ok::<Option<JsonValue>, CommandError>(None) && final(store).contents() == c.insert("resource"@, reconciled(m))
            &&& r is Err ==> r == Err::<Option<JsonValue>, CommandError>(CommandError::Internal)
            &&& r is Ok ==> r == Ok::<Option<JsonValue>, CommandError>(None)
            &&& partial_reconcile(c, m, final(store).contents())
        }),
{
    let ghost c = old(store).contents();
    let exists_already = match store.container_exists("resource") {
        Ok(b) => b,
        Err(_) => false,
    };
    if !exists_already {
        let _made = store.new_container("resource");
    }
    let ghost m = if c.contains_key("resource"@) {
        c["resource"@]
    } else {
        Map::<Seq<char>, Seq<u8>>::empty()
    };
    proof {
        assert(store.contents() =~~= c.insert("resource"@, m));
    }
    let keys = match store.list_keys("resource", None) {
        Ok(keys) => keys,
        Err(_) => {
            proof {
                assert(false);
            }
            return Err(CommandError::Internal);
        },
    };
    let n = keys.len();
    proof {
        assert forall|a: int, b: int|
            0 <= a < b < n implies (keys@[a]@) != (keys@[b]@) by {
            assert(crate::store::str_views(keys@)[a] == keys@[a]@);
            assert(crate::store::str_views(keys@)[b] == keys@[b]@);
        }
        assert forall|a: int| 0 <= a < n implies m.contains_key(#[trigger] keys@[a]@) by {
            assert(crate::store::str_views(keys@)[a] == keys@[a]@);
        }
        assert forall|k: Seq<char>| m.contains_key(k) implies exists|a: int|
            0 <= a < n && (#[trigger] keys@[a]@) == k by {
            assert(crate::store::str_views(keys@).contains(k));
            let a = choose|a: int| 0 <= a < n && crate::store::str_views(keys@)[a] == k;
            assert(keys@[a]@ == k);
        }
    }
    let mut i: usize = 0;
    while i < n
        invariant
            c == old(store).contents(),
            m == (if c.contains_key("resource"@) {
                c["resource"@]
            } else {
                Map::<Seq<char>, Seq<u8>>::empty()
            }),
            i <= n == keys@.len(),
            forall|a: int, b: int| 0 <= a < b < n ==> (#[trigger] keys@[a]@) != (#[trigger] keys@[b]@),
            forall|a: int| 0 <= a < n ==> m.contains_key(#[trigger] keys@[a]@),
            forall|k: Seq<char>|
                m.contains_key(k) ==> exists|a: int| 0 <= a < n && (#[trigger] keys@[a]@) == k,
            store.contents().contains_key("resource"@),
            store.contents() =~~= c.insert("resource"@, store.contents()["resource"@]),
            ({
                let cur = store.contents()["resource"@];
                &&& forall|k: Seq<char>|
                    #[trigger] cur.dom().contains(k) ==> m.contains_key(k) && cur[k] == m[k]
                &&& forall|a: int|
                    0 <= a < i && decodable(m[(#[trigger] keys@[a]@)]) && keep_bytes(m[keys@[a]@])
                        ==> cur.contains_key(keys@[a]@)
                &&& forall|a: int|
                    0 <= a < i && all_parse(m) && !keep_bytes(m[(#[trigger] keys@[a]@)])
                        ==> !cur.contains_key(keys@[a]@)
                &&& forall|a: int| i <= a < n ==> cur.contains_key(#[trigger] keys@[a]@)
            }),
        decreases n - i,
    {
        let ghost cur = store.contents()["resource"@];
        let bytes = match store.get("resource", keys[i].as_str()) {
            Ok(b) => b,
            Err(_) => {
                proof {
                    assert(false);
                }
                return Err(CommandError::Internal);
            },
        };
        proof {
            assert(bytes@ == m[keys@[i as int]@]);
        }
        let value = match decode_json(bytes.as_slice()) {
            Some(v) => v,
            None => {
                proof {
                    assert(m.dom().contains(keys@[i as int]@));
                    assert(!all_parse(m));
                    lemma_exit_witness(c, m, store.contents(), keys@, i as int, n as int);
                }
                return Err(CommandError::Internal);
            },
        };
        if !so_shape_check(&value) {
            proof {
                assert(m.dom().contains(keys@[i as int]@));
                assert(!all_parse(m));
                lemma_exit_witness(c, m, store.contents(), keys@, i as int, n as int);
            }
            return Err(CommandError::Internal);
        }
        if deletion_ts(&value).is_none() {
            i += 1;
            continue;
        }
        if finalizers_empty(&value) {
            proof {
                if decodable(bytes@) {
                    assert(!keep_bytes(m[keys@[i as int]@]));
                }
            }
            let _removed = store.delete("resource", keys[i].as_str());
            proof {
                assert(store.contents() =~~= c.insert(
                    "resource"@,
                    store.contents()["resource"@],
                ));
            }
        } else {
            proof {
                if decodable(bytes@) {
                    assert(keep_bytes(m[keys@[i as int]@]));
                }
            }
        }
        i += 1;
    }
    proof {
        let cur = store.contents()["resource"@];
        lemma_exit_witness(c, m, store.contents(), keys@, n as int, n as int);
        if all_parse(m) {
            assert forall|k: Seq<char>| #[trigger]
                reconciled(m).contains_key(k) implies cur.contains_key(k) && cur[k] == reconciled(
                m,
            )[k] by {
                let a = choose|a: int| 0 <= a < n && (#[trigger] keys@[a]@) == k;
            }
            assert forall|k: Seq<char>| #[trigger]
                cur.contains_key(k) implies reconciled(m).contains_key(k) by {
                let a = choose|a: int| 0 <= a < n && (#[trigger] keys@[a]@) == k;
            }
            assert(cur =~= reconciled(m));
            assert(store.contents() =~~= c.insert("resource"@, reconciled(m)));
        }
    }
    Ok(None)
}

/// Exhibits the current container as a witness for the partial-progress
/// guarantee.
proof fn lemma_partial_pass(
    c: crate::store::StoreContents,
    m: Map<Seq<char>, Seq<u8>>,
    cur: Map<Seq<char>, Seq<u8>>,
    d: crate::store::StoreContents,
)
    requires
        d == c.insert("resource"@, cur),
        forall|k: Seq<char>|
            #[trigger] cur.dom().contains(k) ==> m.contains_key(k) && cur[k] == m[k],
        forall|k: Seq<char>|
            #[trigger] m.dom().contains(k) && decodable(m[k]) && keep_bytes(m[k])
                ==> cur.contains_key(k),
    ensures
        partial_reconcile(c, m, d),
{
    reveal(partial_reconcile);
    assert(d == c.insert("resource"@, cur));
    assert(partial_reconcile(c, m, d));
}

/// At any point of the sweep, the store is a partially-reconciled form of
/// its starting state.
proof fn lemma_exit_witness(
    c: crate::store::StoreContents,
    m: Map<Seq<char>, Seq<u8>>,
    d: crate::store::StoreContents,
    keys: Seq<String>,
    i: int,
    n: int,
)
    requires
        0 <= i <= n == keys.len(),
        d.contains_key("resource"@),
        d == c.insert("resource"@, d["resource"@]),
        forall|k: Seq<char>|
            m.contains_key(k) ==> exists|a: int| 0 <= a < n && (#[trigger] keys[a]@) == k,
        forall|k: Seq<char>|
            #[trigger] d["resource"@].dom().contains(k) ==> m.contains_key(k) && d["resource"@][k]
                == m[k],
        forall|a: int|
            0 <= a < i && decodable(m[(#[trigger] keys[a]@)]) && keep_bytes(m[keys[a]@])
                ==> d["resource"@].contains_key(keys[a]@),
        forall|a: int| i <= a < n ==> d["resource"@].contains_key(#[trigger] keys[a]@),
    ensures
        partial_reconcile(c, m, d),
{
    let cur = d["resource"@];
    assert forall|k: Seq<char>|
        #[trigger] m.dom().contains(k) && decodable(m[k]) && keep_bytes(m[k]) implies cur.contains_key(
        k,
    ) by {
        let a = choose|a: int| 0 <= a < n && (#[trigger] keys[a]@) == k;
        if a < i {
            assert(decodable(m[keys[a]@]) && keep_bytes(m[keys[a]@]));
        }
    }
    lemma_partial_pass(c, m, cur, d);
}

} // verus!
