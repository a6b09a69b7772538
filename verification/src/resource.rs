//! The resource model: the JSON-shaped object persisted in the store,
//! carrying identity (`apiVersion`, `kind`, `metadata.name`) and lifecycle
//! metadata (`deletionTimestamp`, `finalizers`).
//!
//! The shape predicate `so_shape_ok` says when a tree is such an object;
//! the accessors read the lifecycle fields; `with_deletion_timestamp`
//! stamps the soft-delete mark, leaving every other member verbatim.

use vstd::prelude::*;

use crate::json::{
    entries_depth, json_depth, json_view, lemma_entries_depth_ge, lemma_entries_depth_le,
    lemma_obj_value_first_match, lemma_obj_view_index, lemma_obj_view_len,
    lemma_wf_json_entries_iff, obj_get, obj_has_key, obj_value_of, obj_view, wf_json, JsonValue,
    JsonView,
};
use crate::text::str_eq_str;

verus! {

/// The member of an object named `name`, if the tree is an object and has
/// one.
pub open spec fn obj_field(v: JsonView, name: Seq<char>) -> Option<JsonView> {
    match v {
        JsonView::Obj(es) => if obj_has_key(es, name) {
            Some(obj_value_of(es, name))
        } else {
            None
        },
        _ => None,
    }
}

/// A string member's characters, if the member exists and is a string.
pub open spec fn field_str(v: JsonView, name: Seq<char>) -> Option<Seq<char>> {
    match obj_field(v, name) {
        Some(JsonView::Str(s)) => Some(s),
        _ => None,
    }
}

/// Whether an optional member, if present, is a string.
pub open spec fn opt_field_is_str(v: JsonView, name: Seq<char>) -> bool {
    match obj_field(v, name) {
        None => true,
        Some(f) => f is Str,
    }
}

/// Whether an optional member, if present, is an integer.
pub open spec fn opt_field_is_int(v: JsonView, name: Seq<char>) -> bool {
    match obj_field(v, name) {
        None => true,
        Some(f) => f is Int,
    }
}

/// A string-to-string map member: an object whose values are all strings.
pub open spec fn is_str_map(f: JsonView) -> bool {
    match f {
        JsonView::Obj(es) => forall|i: int| 0 <= i < es.len() ==> (#[trigger] es[i].1) is Str,
        _ => false,
    }
}

/// A list-of-strings member.
pub open spec fn is_str_arr(f: JsonView) -> bool {
    match f {
        JsonView::Arr(es) => forall|i: int| 0 <= i < es.len() ==> (#[trigger] es[i]) is Str,
        _ => false,
    }
}

/// Whether an optional member, if present, satisfies `is_str_map`.
pub open spec fn opt_field_is_str_map(v: JsonView, name: Seq<char>) -> bool {
    match obj_field(v, name) {
        None => true,
        Some(f) => is_str_map(f),
    }
}

/// Whether an optional member, if present, satisfies `is_str_arr`.
pub open spec fn opt_field_is_str_arr(v: JsonView, name: Seq<char>) -> bool {
    match obj_field(v, name) {
        None => true,
        Some(f) => is_str_arr(f),
    }
}

/// The shape of resource metadata: a required string `name`; optional
/// string `namespace`, `uid`, `resourceVersion`, `selfLink`; optional
/// integer `creationTimestamp`, `deletionTimestamp`; optional string maps
/// `labels`, `annotations`; an optional string list `finalizers`. Unknown
/// members ride along verbatim.
pub open spec fn metadata_shape_ok(m: JsonView) -> bool {
    &&& m is Obj
    &&& field_str(m, "name"@) is Some
    &&& opt_field_is_str(m, "namespace"@)
    &&& opt_field_is_str(m, "uid"@)
    &&& opt_field_is_int(m, "creationTimestamp"@)
    &&& opt_field_is_int(m, "deletionTimestamp"@)
    &&& opt_field_is_str(m, "resourceVersion"@)
    &&& opt_field_is_str(m, "selfLink"@)
    &&& opt_field_is_str_map(m, "labels"@)
    &&& opt_field_is_str_map(m, "annotations"@)
    &&& opt_field_is_str_arr(m, "finalizers"@)
}

/// The shape of a system object: required string `apiVersion` and `kind`,
/// required well-shaped `metadata`, optional string `status`. Unknown
/// top-level members ride along verbatim.
pub open spec fn so_shape_ok(v: JsonView) -> bool {
    &&& v is Obj
    &&& field_str(v, "apiVersion"@) is Some
    &&& field_str(v, "kind"@) is Some
    &&& match obj_field(v, "metadata"@) {
        Some(m) => metadata_shape_ok(m),
        None => false,
    }
    &&& opt_field_is_str(v, "status"@)
}

/// The deletion timestamp, if the object carries one.
pub open spec fn so_deletion_ts(v: JsonView) -> Option<int> {
    match obj_field(v, "metadata"@) {
        Some(m) => match obj_field(m, "deletionTimestamp"@) {
            Some(JsonView::Int(t)) => Some(t),
            _ => None,
        },
        None => None,
    }
}

/// An object is terminating once its deletion timestamp is set.
pub open spec fn so_terminating(v: JsonView) -> bool {
    so_deletion_ts(v) is Some
}

/// Whether the finalizer list is absent or empty: nothing blocks hard
/// removal.
pub open spec fn so_finalizers_empty(v: JsonView) -> bool {
    match obj_field(v, "metadata"@) {
        Some(m) => match obj_field(m, "finalizers"@) {
            Some(JsonView::Arr(fs)) => fs.len() == 0,
            _ => true,
        },
        None => true,
    }
}

/// A terminating, well-shaped object with no finalizers left: the
/// reconcile pass may remove its key.
pub open spec fn so_reclaimable(v: JsonView) -> bool {
    so_shape_ok(v) && so_terminating(v) && so_finalizers_empty(v)
}

/// An object's member list with the first member named `k` replaced by
/// `(k, val)`, or `(k, val)` appended if no member carries that name.
pub open spec fn obj_update(
    entries: Seq<(Seq<char>, JsonView)>,
    k: Seq<char>,
    val: JsonView,
) -> Seq<(Seq<char>, JsonView)>
    decreases entries,
{
    if entries.len() == 0 {
        seq![(k, val)]
    } else if entries.first().0 == k {
        seq![(k, val)] + entries.drop_first()
    } else {
        seq![entries.first()] + obj_update(entries.drop_first(), k, val)
    }
}


/// The known member names of the wire shape are pairwise distinct where
/// the proofs need it.
pub proof fn lemma_field_names_distinct()
    ensures
        "metadata"@ != "apiVersion"@,
        "metadata"@ != "kind"@,
        "metadata"@ != "status"@,
        "deletionTimestamp"@ != "name"@,
        "deletionTimestamp"@ != "namespace"@,
        "deletionTimestamp"@ != "uid"@,
        "deletionTimestamp"@ != "creationTimestamp"@,
        "deletionTimestamp"@ != "resourceVersion"@,
        "deletionTimestamp"@ != "selfLink"@,
        "deletionTimestamp"@ != "labels"@,
        "deletionTimestamp"@ != "annotations"@,
        "deletionTimestamp"@ != "finalizers"@,
{
    reveal_strlit("apiVersion");
    reveal_strlit("kind");
    reveal_strlit("metadata");
    reveal_strlit("status");
    reveal_strlit("name");
    reveal_strlit("namespace");
    reveal_strlit("uid");
    reveal_strlit("creationTimestamp");
    reveal_strlit("deletionTimestamp");
    reveal_strlit("resourceVersion");
    reveal_strlit("selfLink");
    reveal_strlit("labels");
    reveal_strlit("annotations");
    reveal_strlit("finalizers");
    assert("apiVersion"@.len() == 10);
    assert("kind"@.len() == 4);
    assert("metadata"@.len() == 8);
    assert("status"@.len() == 6);
    assert("name"@.len() == 4);
    assert("namespace"@.len() == 9);
    assert("uid"@.len() == 3);
    assert("creationTimestamp"@.len() == 17);
    assert("deletionTimestamp"@.len() == 17);
    assert("resourceVersion"@.len() == 15);
    assert("selfLink"@.len() == 8);
    assert("labels"@.len() == 6);
    assert("annotations"@.len() == 11);
    assert("finalizers"@.len() == 10);
    assert("creationTimestamp"@[0] == 'c');
    assert("deletionTimestamp"@[0] == 'd');
}

/// A key that no member carries has the default value.
pub proof fn lemma_obj_value_absent(entries: Seq<(Seq<char>, JsonView)>, k: Seq<char>)
    requires
        !obj_has_key(entries, k),
    ensures
        obj_value_of(entries, k) == JsonView::Null,
    decreases entries,
{
    if entries.len() > 0 {
        assert(entries[0] == entries.first());
        let sub = entries.drop_first();
        assert(!obj_has_key(sub, k)) by {
            if obj_has_key(sub, k) {
                let j = choose|j: int| 0 <= j < sub.len() && (#[trigger] sub[j].0) == k;
                assert(entries[j + 1].0 == k);
            }
        }
        lemma_obj_value_absent(sub, k);
    }
}

/// The position of the first member carrying a present key.
pub proof fn obj_first_idx(entries: Seq<(Seq<char>, JsonView)>, k: Seq<char>) -> (i: int)
    requires
        obj_has_key(entries, k),
    ensures
        0 <= i < entries.len(),
        entries[i].0 == k,
        forall|j: int| 0 <= j < i ==> (#[trigger] entries[j].0) != k,
    decreases entries,
{
    assert(entries.len() > 0);
    assert(entries[0] == entries.first());
    if entries.first().0 == k {
        0
    } else {
        let sub = entries.drop_first();
        assert(forall|j: int| 0 <= j < sub.len() ==> (#[trigger] sub[j]) == entries[j + 1]);
        assert(obj_has_key(sub, k)) by {
            let j = choose|j: int| 0 <= j < entries.len() && (#[trigger] entries[j].0) == k;
            assert(j > 0);
            assert(sub[j - 1].0 == k);
        }
        let i_sub = obj_first_idx(sub, k);
        assert forall|j: int| 0 <= j < i_sub + 1 implies (#[trigger] entries[j].0) != k by {
            if j > 0 {
                assert(sub[j - 1] == entries[j]);
            }
        }
        i_sub + 1
    }
}

/// The updated list keeps a member for every old name, plus `k`, and no
/// other; the member named `k` holds `val`, the rest are verbatim.
pub proof fn lemma_obj_update_props(
    entries: Seq<(Seq<char>, JsonView)>,
    k: Seq<char>,
    val: JsonView,
)
    ensures
        obj_has_key(obj_update(entries, k, val), k),
        obj_value_of(obj_update(entries, k, val), k) == val,
        forall|k2: Seq<char>|
            k2 != k ==> (obj_has_key(obj_update(entries, k, val), k2) == obj_has_key(entries, k2)),
        forall|k2: Seq<char>|
            k2 != k ==> (#[trigger] obj_value_of(obj_update(entries, k, val), k2))
                == obj_value_of(entries, k2),
{
    let upd = obj_update(entries, k, val);
    if obj_has_key(entries, k) {
        let i = obj_first_idx(entries, k);
        lemma_obj_update_at(entries, k, val, i);
        assert(upd =~= entries.update(i, (k, val)));
        lemma_obj_value_first_match(upd, k, i);
        assert forall|k2: Seq<char>|
            k2 != k implies (obj_has_key(upd, k2) == obj_has_key(entries, k2)) by {
            lemma_obj_keep_others(entries, upd, i, k, k2);
        }
        assert forall|k2: Seq<char>| k2 != k implies (#[trigger] obj_value_of(upd, k2))
            == obj_value_of(entries, k2) by {
            lemma_obj_keep_others(entries, upd, i, k, k2);
        }
    } else {
        lemma_obj_update_absent(entries, k, val);
        assert(upd =~= entries.push((k, val)));
        assert(upd[entries.len() as int] == (k, val));
        assert forall|j: int| 0 <= j < entries.len() implies (#[trigger] upd[j].0) != k by {
            assert(upd[j] == entries[j]);
            assert(entries[j].0 != k);
        }
        lemma_obj_value_first_match(upd, k, entries.len() as int);
        assert forall|k2: Seq<char>|
            k2 != k implies (obj_has_key(upd, k2) == obj_has_key(entries, k2)) by {
            lemma_obj_push_keep_others(entries, upd, k, val, k2);
        }
        assert forall|k2: Seq<char>| k2 != k implies (#[trigger] obj_value_of(upd, k2))
            == obj_value_of(entries, k2) by {
            lemma_obj_push_keep_others(entries, upd, k, val, k2);
        }
    }
}

/// Appending a member named `k` leaves every other name's membership and
/// value alone.
proof fn lemma_obj_push_keep_others(
    entries: Seq<(Seq<char>, JsonView)>,
    upd: Seq<(Seq<char>, JsonView)>,
    k: Seq<char>,
    val: JsonView,
    k2: Seq<char>,
)
    requires
        upd == entries.push((k, val)),
        k2 != k,
    ensures
        obj_has_key(upd, k2) == obj_has_key(entries, k2),
        obj_value_of(upd, k2) == obj_value_of(entries, k2),
{
    assert(forall|j: int| 0 <= j < entries.len() ==> (#[trigger] upd[j]) == entries[j]);
    assert(upd[entries.len() as int] == (k, val));
    if obj_has_key(entries, k2) {
        let j2 = obj_first_idx(entries, k2);
        lemma_obj_value_first_match(entries, k2, j2);
        lemma_obj_value_first_match(upd, k2, j2);
    } else {
        assert(!obj_has_key(upd, k2)) by {
            if obj_has_key(upd, k2) {
                let j = choose|j: int| 0 <= j < upd.len() && (#[trigger] upd[j].0) == k2;
                assert(j < entries.len());
                assert(entries[j].0 == k2);
            }
        }
        lemma_obj_value_absent(entries, k2);
        lemma_obj_value_absent(upd, k2);
    }
}

/// Two member lists that differ only at a position named `k` agree on
/// membership and value for every other name.
proof fn lemma_obj_keep_others(
    entries: Seq<(Seq<char>, JsonView)>,
    upd: Seq<(Seq<char>, JsonView)>,
    i: int,
    k: Seq<char>,
    k2: Seq<char>,
)
    requires
        0 <= i < entries.len(),
        upd.len() == entries.len(),
        entries[i].0 == k,
        upd[i].0 == k,
        forall|j: int| 0 <= j < entries.len() && j != i ==> (#[trigger] upd[j]) == entries[j],
        k2 != k,
    ensures
        obj_has_key(upd, k2) == obj_has_key(entries, k2),
        obj_value_of(upd, k2) == obj_value_of(entries, k2),
{
    if obj_has_key(entries, k2) {
        let j2 = obj_first_idx(entries, k2);
        assert(j2 != i);
        assert(upd[j2] == entries[j2]);
        lemma_obj_value_first_match(entries, k2, j2);
        assert forall|j: int| 0 <= j < j2 implies (#[trigger] upd[j].0) != k2 by {
            if j != i {
                assert(upd[j] == entries[j]);
            }
        }
        lemma_obj_value_first_match(upd, k2, j2);
    } else {
        assert(!obj_has_key(upd, k2)) by {
            if obj_has_key(upd, k2) {
                let j = choose|j: int| 0 <= j < upd.len() && (#[trigger] upd[j].0) == k2;
                assert(j != i);
                assert(entries[j].0 == k2);
            }
        }
        lemma_obj_value_absent(entries, k2);
        lemma_obj_value_absent(upd, k2);
    }
}


/// For one other name, the update changes nothing: membership and value
/// are as before.
pub proof fn lemma_obj_update_other(
    entries: Seq<(Seq<char>, JsonView)>,
    k: Seq<char>,
    val: JsonView,
    k2: Seq<char>,
)
    requires
        k2 != k,
    ensures
        obj_has_key(obj_update(entries, k, val), k2) == obj_has_key(entries, k2),
        obj_value_of(obj_update(entries, k, val), k2) == obj_value_of(entries, k2),
{
    let upd = obj_update(entries, k, val);
    if obj_has_key(entries, k) {
        let i = obj_first_idx(entries, k);
        lemma_obj_update_at(entries, k, val, i);
        assert(upd =~= entries.update(i, (k, val)));
        lemma_obj_keep_others(entries, upd, i, k, k2);
    } else {
        lemma_obj_update_absent(entries, k, val);
        assert(upd =~= entries.push((k, val)));
        lemma_obj_push_keep_others(entries, upd, k, val, k2);
    }
}

/// Updating one member of a well-formed object, with a well-formed value,
/// yields a well-formed object.
pub proof fn lemma_obj_update_wf(entries: Seq<(Seq<char>, JsonView)>, k: Seq<char>, val: JsonView)
    requires
        wf_json(JsonView::Obj(entries)),
        wf_json(val),
    ensures
        wf_json(JsonView::Obj(obj_update(entries, k, val))),
{
    let upd = obj_update(entries, k, val);
    lemma_wf_json_entries_iff(entries);
    lemma_wf_json_entries_iff(upd);
    assert(forall|i: int, j: int|
        0 <= i < j < entries.len() ==> (#[trigger] entries[i].0) != (#[trigger] entries[j].0));
    assert(forall|i: int| 0 <= i < entries.len() ==> wf_json(#[trigger] entries[i].1));
    if obj_has_key(entries, k) {
        let i = obj_first_idx(entries, k);
        lemma_obj_update_at(entries, k, val, i);
        assert(upd =~= entries.update(i, (k, val)));
        assert forall|a: int, b: int| 0 <= a < b < upd.len() implies (#[trigger] upd[a].0) != (
        #[trigger] upd[b].0) by {
            if a == i {
                assert(upd[a].0 == k);
                assert(entries[a].0 == k);
            } else {
                assert(upd[a] == entries[a]);
            }
            if b == i {
                assert(upd[b].0 == k);
                assert(entries[b].0 == k);
            } else {
                assert(upd[b] == entries[b]);
            }
            assert(entries[a].0 != entries[b].0);
        }
        assert forall|a: int| 0 <= a < upd.len() implies wf_json(#[trigger] upd[a].1) by {
            if a != i {
                assert(upd[a] == entries[a]);
                assert(wf_json(entries[a].1));
            } else {
                assert(upd[a].1 == val);
            }
        }
    } else {
        lemma_obj_update_absent(entries, k, val);
        assert(upd =~= entries.push((k, val)));
        assert forall|a: int, b: int| 0 <= a < b < upd.len() implies (#[trigger] upd[a].0) != (
        #[trigger] upd[b].0) by {
            if b == entries.len() as int {
                assert(upd[b].0 == k);
                assert(upd[a] == entries[a]);
                assert(entries[a].0 != k);
            } else {
                assert(upd[a] == entries[a]);
                assert(upd[b] == entries[b]);
                assert(entries[a].0 != entries[b].0);
            }
        }
        assert forall|a: int| 0 <= a < upd.len() implies wf_json(#[trigger] upd[a].1) by {
            if a < entries.len() {
                assert(upd[a] == entries[a]);
                assert(wf_json(entries[a].1));
            } else {
                assert(upd[a] == (k, val));
            }
        }
    }
}

/// Where the first member named `k` sits at `i`, the update is a pointwise
/// replacement at `i`.
pub proof fn lemma_obj_update_at(
    entries: Seq<(Seq<char>, JsonView)>,
    k: Seq<char>,
    val: JsonView,
    i: int,
)
    requires
        0 <= i < entries.len(),
        entries[i].0 == k,
        forall|j: int| 0 <= j < i ==> (#[trigger] entries[j].0) != k,
    ensures
        obj_update(entries, k, val) =~= entries.update(i, (k, val)),
    decreases i,
{
    if i == 0 {
        assert(obj_update(entries, k, val) == seq![(k, val)] + entries.drop_first());
    } else {
        let sub = entries.drop_first();
        assert(forall|j: int| 0 <= j < sub.len() ==> sub[j] == entries[j + 1]);
        lemma_obj_update_at(sub, k, val, i - 1);
        assert(obj_update(entries, k, val) == seq![entries.first()] + obj_update(sub, k, val));
        assert(sub.update(i - 1, (k, val)) =~= entries.update(i, (k, val)).drop_first());
    }
}

/// Where no member is named `k`, the update is an append.
pub proof fn lemma_obj_update_absent(
    entries: Seq<(Seq<char>, JsonView)>,
    k: Seq<char>,
    val: JsonView,
)
    requires
        !obj_has_key(entries, k),
    ensures
        obj_update(entries, k, val) =~= entries.push((k, val)),
    decreases entries,
{
    if entries.len() == 0 {
    } else {
        assert(entries.first().0 != k) by {
            assert(entries[0].0 == entries.first().0);
        }
        let sub = entries.drop_first();
        assert(!obj_has_key(sub, k)) by {
            if obj_has_key(sub, k) {
                let j = choose|j: int| 0 <= j < sub.len() && (#[trigger] sub[j].0) == k;
                assert(entries[j + 1].0 == k);
            }
        }
        lemma_obj_update_absent(sub, k, val);
        assert(obj_update(entries, k, val) == seq![entries.first()] + sub.push((k, val)));
        assert(seq![entries.first()] + sub.push((k, val)) =~= entries.push((k, val)));
    }
}

/// The position of the first member named `key`, if any.
fn find_member_idx(entries: &Vec<(String, JsonValue)>, key: &str) -> (r: Option<usize>)
    ensures
        match r {
            Some(i) => i < entries@.len() && entries@[i as int].0@ == key@ && (forall|j: int|
                0 <= j < i ==> (#[trigger] entries@[j].0@) != key@),
            None => forall|j: int| 0 <= j < entries@.len() ==> (#[trigger] entries@[j].0@) != key@,
        },
{
    let n = entries.len();
    let mut i: usize = 0;
    while i < n
        invariant
            i <= n == entries@.len(),
            forall|j: int| 0 <= j < i ==> (#[trigger] entries@[j].0@) != key@,
        decreases n - i,
    {
        if str_eq_str(entries[i].0.as_str(), key) {
            return Some(i);
        }
        i += 1;
    }
    None
}

/// Replaces the first member named `key`, or appends one.
pub fn obj_set(entries: Vec<(String, JsonValue)>, key: &str, val: JsonValue) -> (r: Vec<
    (String, JsonValue),
>)
    ensures
        obj_view(r@) == obj_update(obj_view(entries@), key@, json_view(val)),
{
    let ghost es = obj_view(entries@);
    proof {
        lemma_obj_view_len(entries@);
    }
    let mut entries = entries;
    match find_member_idx(&entries, key) {
        Some(i) => {
            proof {
                lemma_obj_view_index(entries@, i as int);
                assert forall|j: int| 0 <= j < i implies (#[trigger] es[j].0) != key@ by {
                    lemma_obj_view_index(entries@, j);
                }
                lemma_obj_update_at(es, key@, json_view(val), i as int);
            }
            let ghost prev = entries@;
            let _replaced = entries.remove(i);
            entries.insert(i, (key.to_owned(), val));
            proof {
                assert(entries@ =~= prev.update(i as int, entries@[i as int]));
                lemma_obj_view_len(entries@);
                assert forall|j: int| 0 <= j < entries@.len() implies obj_view(entries@)[j]
                    == es.update(i as int, (key@, json_view(val)))[j] by {
                    lemma_obj_view_index(entries@, j);
                    lemma_obj_view_index(prev, j);
                }
                assert(obj_view(entries@) =~= es.update(i as int, (key@, json_view(val))));
            }
            entries
        },
        None => {
            proof {
                assert forall|j: int| 0 <= j < es.len() implies (#[trigger] es[j].0) != key@ by {
                    lemma_obj_view_index(entries@, j);
                }
                assert(!obj_has_key(es, key@));
                lemma_obj_update_absent(es, key@, json_view(val));
            }
            let ghost prev = entries@;
            entries.push((key.to_owned(), val));
            proof {
                crate::json::lemma_obj_view_snoc(prev, entries@[prev.len() as int]);
                assert(entries@ =~= prev.push(entries@[prev.len() as int]));
                assert(obj_view(entries@) =~= es.push((key@, json_view(val))));
            }
            entries
        },
    }
}

/// Whether every value of a JSON object is a string.
fn str_map_check(x: &JsonValue) -> (r: bool)
    ensures
        r == is_str_map(json_view(*x)),
{
    match x {
        JsonValue::Obj(les) => {
            proof {
                lemma_obj_view_len(les@);
            }
            let n = les.len();
            let mut i: usize = 0;
            while i < n
                invariant
                    i <= n == les@.len(),
                    obj_view(les@).len() == n,
                    json_view(*x) == JsonView::Obj(obj_view(les@)),
                    forall|j: int| 0 <= j < i ==> (#[trigger] obj_view(les@)[j].1) is Str,
                decreases n - i,
            {
                proof {
                    lemma_obj_view_index(les@, i as int);
                    crate::json::lemma_json_view_variants(les@[i as int].1);
                }
                match &les[i].1 {
                    JsonValue::Str(_) => {},
                    _ => {
                        proof {
                            assert(!(obj_view(les@)[i as int].1 is Str));
                            assert(json_view(*x) == JsonView::Obj(obj_view(les@)));
                            assert(!is_str_map(JsonView::Obj(obj_view(les@))));
                        }
                        return false;
                    },
                }
                i += 1;
            }
            true
        },
        _ => false,
    }
}

/// Whether every element of a JSON array is a string.
fn str_arr_check(x: &JsonValue) -> (r: bool)
    ensures
        r == is_str_arr(json_view(*x)),
{
    match x {
        JsonValue::Arr(es) => {
            proof {
                crate::json::lemma_arr_view_len(es@);
            }
            let n = es.len();
            let mut i: usize = 0;
            while i < n
                invariant
                    i <= n == es@.len(),
                    crate::json::arr_view(es@).len() == n,
                    json_view(*x) == JsonView::Arr(crate::json::arr_view(es@)),
                    forall|j: int| 0 <= j < i ==> (#[trigger] crate::json::arr_view(es@)[j]) is Str,
                decreases n - i,
            {
                proof {
                    crate::json::lemma_arr_view_index(es@, i as int);
                    crate::json::lemma_json_view_variants(es@[i as int]);
                }
                match &es[i] {
                    JsonValue::Str(_) => {},
                    _ => {
                        proof {
                            assert(!(crate::json::arr_view(es@)[i as int] is Str));
                            assert(json_view(*x) == JsonView::Arr(crate::json::arr_view(es@)));
                            assert(!is_str_arr(JsonView::Arr(crate::json::arr_view(es@))));
                        }
                        return false;
                    },
                }
                i += 1;
            }
            true
        },
        _ => false,
    }
}

/// Whether an optional member, if present, is a string.
fn opt_str_field_check(entries: &Vec<(String, JsonValue)>, name: &str) -> (r: bool)
    ensures
        r == opt_field_is_str(JsonView::Obj(obj_view(entries@)), name@),
{
    match obj_get(entries, name) {
        None => true,
        Some(JsonValue::Str(_)) => true,
        Some(_) => false,
    }
}

/// Whether an optional member, if present, is an integer.
fn opt_int_field_check(entries: &Vec<(String, JsonValue)>, name: &str) -> (r: bool)
    ensures
        r == opt_field_is_int(JsonView::Obj(obj_view(entries@)), name@),
{
    match obj_get(entries, name) {
        None => true,
        Some(JsonValue::Int(_)) => true,
        Some(_) => false,
    }
}

/// Whether a tree has the shape of resource metadata.
fn metadata_shape_check(m: &JsonValue) -> (r: bool)
    ensures
        r == metadata_shape_ok(json_view(*m)),
{
    match m {
        JsonValue::Obj(mes) => {
            let name_ok = matches!(obj_get(mes, "name"), Some(JsonValue::Str(_)));
            if !name_ok {
                return false;
            }
            if !opt_str_field_check(mes, "namespace") {
                return false;
            }
            if !opt_str_field_check(mes, "uid") {
                return false;
            }
            if !opt_int_field_check(mes, "creationTimestamp") {
                return false;
            }
            if !opt_int_field_check(mes, "deletionTimestamp") {
                return false;
            }
            if !opt_str_field_check(mes, "resourceVersion") {
                return false;
            }
            if !opt_str_field_check(mes, "selfLink") {
                return false;
            }
            match obj_get(mes, "labels") {
                None => {},
                Some(l) => {
                    if !str_map_check(l) {
                        return false;
                    }
                },
            }
            match obj_get(mes, "annotations") {
                None => {},
                Some(a) => {
                    if !str_map_check(a) {
                        return false;
                    }
                },
            }
            match obj_get(mes, "finalizers") {
                None => {},
                Some(f) => {
                    if !str_arr_check(f) {
                        return false;
                    }
                },
            }
            true
        },
        _ => false,
    }
}

/// Whether a tree has the shape of a system object, exactly as
/// `so_shape_ok` says.
pub fn so_shape_check(v: &JsonValue) -> (r: bool)
    ensures
        r == so_shape_ok(json_view(*v)),
{
    match v {
        JsonValue::Obj(es) => {
            if !matches!(obj_get(es, "apiVersion"), Some(JsonValue::Str(_))) {
                return false;
            }
            if !matches!(obj_get(es, "kind"), Some(JsonValue::Str(_))) {
                return false;
            }
            let meta_ok = match obj_get(es, "metadata") {
                Some(m) => metadata_shape_check(m),
                None => false,
            };
            if !meta_ok {
                return false;
            }
            opt_str_field_check(es, "status")
        },
        _ => false,
    }
}

/// The deletion timestamp of a tree, exactly as `so_deletion_ts` says.
pub fn deletion_ts(v: &JsonValue) -> (r: Option<i64>)
    ensures
        match so_deletion_ts(json_view(*v)) {
            Some(t) => r is Some && r.unwrap() as int == t,
            None => r is None,
        },
{
    match v {
        JsonValue::Obj(es) => match obj_get(es, "metadata") {
            Some(JsonValue::Obj(mes)) => match obj_get(mes, "deletionTimestamp") {
                Some(JsonValue::Int(t)) => Some(*t),
                _ => None,
            },
            _ => None,
        },
        _ => None,
    }
}

/// Whether nothing blocks hard removal, exactly as `so_finalizers_empty`
/// says.
pub fn finalizers_empty(v: &JsonValue) -> (r: bool)
    ensures
        r == so_finalizers_empty(json_view(*v)),
{
    match v {
        JsonValue::Obj(es) => match obj_get(es, "metadata") {
            Some(JsonValue::Obj(mes)) => match obj_get(mes, "finalizers") {
                Some(JsonValue::Arr(fs)) => {
                    proof {
                        crate::json::lemma_arr_view_len(fs@);
                    }
                    fs.len() == 0
                },
                Some(_) => true,
                None => true,
            },
            _ => true,
        },
        _ => true,
    }
}

/// A string member of a tree, copied out; exactly `field_str`.
pub fn get_str_field(v: &JsonValue, name: &str) -> (r: Option<String>)
    ensures
        match field_str(json_view(*v), name@) {
            Some(s) => r is Some && r.unwrap()@ == s,
            None => r is None,
        },
{
    match v {
        JsonValue::Obj(es) => match obj_get(es, name) {
            Some(JsonValue::Str(s)) => Some(s.clone()),
            _ => None,
        },
        _ => None,
    }
}

/// The `namespace` of an object's metadata, if any.
pub open spec fn so_namespace(v: JsonView) -> Option<Seq<char>> {
    match obj_field(v, "metadata"@) {
        Some(m) => field_str(m, "namespace"@),
        None => None,
    }
}

/// The metadata `namespace` of a tree, copied out; exactly `so_namespace`.
pub fn get_namespace(v: &JsonValue) -> (r: Option<String>)
    ensures
        match so_namespace(json_view(*v)) {
            Some(s) => r is Some && r.unwrap()@ == s,
            None => r is None,
        },
{
    match v {
        JsonValue::Obj(es) => match obj_get(es, "metadata") {
            Some(m) => get_str_field(m, "namespace"),
            None => None,
        },
        _ => None,
    }
}

/// The object with its deletion timestamp stamped: the `metadata` member
/// is replaced by metadata holding `deletionTimestamp: now`, and every
/// other member, at both levels, stays verbatim.
pub open spec fn so_with_dt(v: JsonView, now: int) -> JsonView
    recommends
        so_shape_ok(v),
{
    match v {
        JsonView::Obj(es) => {
            let m = obj_value_of(es, "metadata"@);
            match m {
                JsonView::Obj(mes) => JsonView::Obj(
                    obj_update(
                        es,
                        "metadata"@,
                        JsonView::Obj(obj_update(mes, "deletionTimestamp"@, JsonView::Int(now))),
                    ),
                ),
                _ => v,
            }
        },
        _ => v,
    }
}

/// Stamping the deletion timestamp keeps the object well-formed and
/// well-shaped, sets `deletionTimestamp` to `now`, and leaves
/// `apiVersion`, `kind`, the metadata `namespace`, `name` and the
/// finalizer state as they were.
pub proof fn lemma_so_with_dt_props(v: JsonView, now: int)
    requires
        wf_json(v),
        so_shape_ok(v),
    ensures
        wf_json(so_with_dt(v, now)),
        so_shape_ok(so_with_dt(v, now)),
        so_deletion_ts(so_with_dt(v, now)) == Some(now),
        so_finalizers_empty(so_with_dt(v, now)) == so_finalizers_empty(v),
        field_str(so_with_dt(v, now), "apiVersion"@) == field_str(v, "apiVersion"@),
        field_str(so_with_dt(v, now), "kind"@) == field_str(v, "kind"@),
        so_namespace(so_with_dt(v, now)) == so_namespace(v),
{
    lemma_field_names_distinct();
    let es = v->Obj_0;
    let m = obj_value_of(es, "metadata"@);
    let mes = m->Obj_0;
    let new_m = JsonView::Obj(obj_update(mes, "deletionTimestamp"@, JsonView::Int(now)));
    let upd = obj_update(es, "metadata"@, new_m);
    assert(obj_has_key(es, "metadata"@));
    assert(m is Obj);
    lemma_obj_update_props(mes, "deletionTimestamp"@, JsonView::Int(now));
    lemma_obj_update_props(es, "metadata"@, new_m);
    assert(so_with_dt(v, now) == JsonView::Obj(upd));
    assert(obj_value_of(upd, "metadata"@) == new_m);
    assert(obj_has_key(upd, "metadata"@));
    // well-formedness at both levels
    lemma_wf_json_entries_iff(es);
    let im = obj_first_idx(es, "metadata"@);
    lemma_obj_value_first_match(es, "metadata"@, im);
    assert(es[im].1 == m);
    assert(wf_json(m));
    lemma_obj_update_wf(mes, "deletionTimestamp"@, JsonView::Int(now));
    assert(wf_json(new_m));
    lemma_obj_update_wf(es, "metadata"@, new_m);
    // the stamped timestamp
    assert(obj_field(JsonView::Obj(upd), "metadata"@) == Some(new_m));
    assert(obj_value_of(
        obj_update(mes, "deletionTimestamp"@, JsonView::Int(now)),
        "deletionTimestamp"@,
    ) == JsonView::Int(now));
    // the untouched members
    lemma_obj_update_other(es, "metadata"@, new_m, "apiVersion"@);
    lemma_obj_update_other(es, "metadata"@, new_m, "kind"@);
    lemma_obj_update_other(es, "metadata"@, new_m, "status"@);
    lemma_obj_update_other(mes, "deletionTimestamp"@, JsonView::Int(now), "name"@);
    lemma_obj_update_other(mes, "deletionTimestamp"@, JsonView::Int(now), "namespace"@);
    lemma_obj_update_other(mes, "deletionTimestamp"@, JsonView::Int(now), "uid"@);
    lemma_obj_update_other(mes, "deletionTimestamp"@, JsonView::Int(now), "creationTimestamp"@);
    lemma_obj_update_other(mes, "deletionTimestamp"@, JsonView::Int(now), "resourceVersion"@);
    lemma_obj_update_other(mes, "deletionTimestamp"@, JsonView::Int(now), "selfLink"@);
    lemma_obj_update_other(mes, "deletionTimestamp"@, JsonView::Int(now), "labels"@);
    lemma_obj_update_other(mes, "deletionTimestamp"@, JsonView::Int(now), "annotations"@);
    lemma_obj_update_other(mes, "deletionTimestamp"@, JsonView::Int(now), "finalizers"@);
    assert(obj_field(JsonView::Obj(upd), "apiVersion"@) == obj_field(v, "apiVersion"@));
    assert(obj_field(JsonView::Obj(upd), "kind"@) == obj_field(v, "kind"@));
    assert(obj_field(JsonView::Obj(upd), "status"@) == obj_field(v, "status"@));
    assert(obj_field(new_m, "name"@) == obj_field(m, "name"@));
    assert(obj_field(new_m, "namespace"@) == obj_field(m, "namespace"@));
    assert(obj_field(new_m, "uid"@) == obj_field(m, "uid"@));
    assert(obj_field(new_m, "creationTimestamp"@) == obj_field(m, "creationTimestamp"@));
    assert(obj_field(new_m, "resourceVersion"@) == obj_field(m, "resourceVersion"@));
    assert(obj_field(new_m, "selfLink"@) == obj_field(m, "selfLink"@));
    assert(obj_field(new_m, "labels"@) == obj_field(m, "labels"@));
    assert(obj_field(new_m, "annotations"@) == obj_field(m, "annotations"@));
    assert(obj_field(new_m, "finalizers"@) == obj_field(m, "finalizers"@));
}


/// Stamping the deletion timestamp nests no deeper than the object did:
/// the stamp is a scalar, dropped into metadata, which the shape already
/// holds as an object member.
pub proof fn lemma_so_with_dt_depth(v: JsonView, now: int)
    requires
        so_shape_ok(v),
    ensures
        json_depth(so_with_dt(v, now)) <= json_depth(v),
{
    let es = v->Obj_0;
    let m = obj_value_of(es, "metadata"@);
    let mes = m->Obj_0;
    let new_mes = obj_update(mes, "deletionTimestamp"@, JsonView::Int(now));
    let new_m = JsonView::Obj(new_mes);
    let upd = obj_update(es, "metadata"@, new_m);
    assert(obj_has_key(es, "metadata"@));
    assert(m is Obj);
    assert(so_with_dt(v, now) == JsonView::Obj(upd));
    // the stamped metadata nests no deeper than the old metadata
    lemma_entries_depth_ge(mes);
    if obj_has_key(mes, "deletionTimestamp"@) {
        let i = obj_first_idx(mes, "deletionTimestamp"@);
        lemma_obj_update_at(mes, "deletionTimestamp"@, JsonView::Int(now), i);
        assert(new_mes =~= mes.update(i, ("deletionTimestamp"@, JsonView::Int(now))));
        assert forall|j: int|
            0 <= j < new_mes.len() implies json_depth(#[trigger] new_mes[j].1) <= entries_depth(
            mes,
        ) by {
            if j != i {
                assert(new_mes[j] == mes[j]);
            }
        }
        lemma_entries_depth_le(new_mes, entries_depth(mes));
    } else {
        lemma_obj_update_absent(mes, "deletionTimestamp"@, JsonView::Int(now));
        assert(new_mes =~= mes.push(("deletionTimestamp"@, JsonView::Int(now))));
        assert forall|j: int|
            0 <= j < new_mes.len() implies json_depth(#[trigger] new_mes[j].1) <= entries_depth(
            mes,
        ) by {
            if j < mes.len() {
                assert(new_mes[j] == mes[j]);
            } else {
                assert(new_mes[j].1 == JsonView::Int(now));
            }
        }
        lemma_entries_depth_le(new_mes, entries_depth(mes));
    }
    assert(json_depth(new_m) <= json_depth(m));
    // the object with its metadata replaced nests no deeper either
    let im = obj_first_idx(es, "metadata"@);
    lemma_obj_value_first_match(es, "metadata"@, im);
    assert(es[im].1 == m);
    lemma_entries_depth_ge(es);
    assert(json_depth(m) <= entries_depth(es));
    lemma_obj_update_at(es, "metadata"@, new_m, im);
    assert(upd =~= es.update(im, ("metadata"@, new_m)));
    assert forall|j: int|
        0 <= j < upd.len() implies json_depth(#[trigger] upd[j].1) <= entries_depth(es) by {
        if j != im {
            assert(upd[j] == es[j]);
        }
    }
    lemma_entries_depth_le(upd, entries_depth(es));
}

/// Stamps `deletionTimestamp: now` into the object's metadata, leaving
/// every other member verbatim.
pub fn with_deletion_timestamp(v: JsonValue, now: i64) -> (r: JsonValue)
    requires
        wf_json(json_view(v)),
        so_shape_ok(json_view(v)),
    ensures
        json_view(r) == so_with_dt(json_view(v), now as int),
{
    let ghost vv = json_view(v);
    match v {
        JsonValue::Obj(es_vec) => {
            let mut es_vec = es_vec;
            let ghost es = obj_view(es_vec@);
            proof {
                lemma_obj_view_len(es_vec@);
            }
            match find_member_idx(&es_vec, "metadata") {
                Some(im) => {
                    proof {
                        lemma_obj_view_index(es_vec@, im as int);
                        assert forall|j: int| 0 <= j < im implies (#[trigger] es[j].0)
                            != "metadata"@ by {
                            lemma_obj_view_index(es_vec@, j);
                        }
                        lemma_obj_value_first_match(es, "metadata"@, im as int);
                        lemma_obj_update_at(
                            es,
                            "metadata"@,
                            so_with_dt(vv, now as int)->Obj_0[im as int].1,
                            im as int,
                        );
                    }
                    let ghost prev = es_vec@;
                    let pair = es_vec.remove(im);
                    match pair.1 {
                        JsonValue::Obj(mes_vec) => {
                            let new_meta = obj_set(mes_vec, "deletionTimestamp", JsonValue::Int(now));
                            let stamped = (pair.0, JsonValue::Obj(new_meta));
                            es_vec.insert(im, stamped);
                            proof {
                                assert(es_vec@ =~= prev.update(im as int, stamped));
                                lemma_obj_view_len(es_vec@);
                                let new_m = JsonView::Obj(
                                    obj_update(
                                        obj_view(mes_vec@),
                                        "deletionTimestamp"@,
                                        JsonView::Int(now as int),
                                    ),
                                );
                                lemma_obj_update_at(es, "metadata"@, new_m, im as int);
                                assert forall|j: int| 0 <= j < es_vec@.len() implies obj_view(
                                    es_vec@,
                                )[j] == obj_update(es, "metadata"@, new_m)[j] by {
                                    lemma_obj_view_index(es_vec@, j);
                                    lemma_obj_view_index(prev, j);
                                }
                                assert(obj_view(es_vec@) =~= obj_update(es, "metadata"@, new_m));
                                assert(obj_value_of(es, "metadata"@) == JsonView::Obj(
                                    obj_view(mes_vec@),
                                ));
                            }
                            JsonValue::Obj(es_vec)
                        },
                        _ => {
                            proof {
                                assert(obj_value_of(es, "metadata"@) is Obj);
                                assert(false);
                            }
                            JsonValue::Null
                        },
                    }
                },
                None => {
                    proof {
                        assert forall|j: int| 0 <= j < es.len() implies (#[trigger] es[j].0)
                            != "metadata"@ by {
                            lemma_obj_view_index(es_vec@, j);
                        }
                        assert(!obj_has_key(es, "metadata"@));
                        assert(false);
                    }
                    JsonValue::Null
                },
            }
        },
        _ => {
            proof {
                assert(false);
            }
            JsonValue::Null
        },
    }
}

} // verus!
