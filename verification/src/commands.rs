//! The internal-stage resource commands: get, set, delete and list against
//! the resource container of a store, plus the version command.
//!
//! Every command resolves `namespace` from context metadata and `resource`
//! from the parameters, lower-cases both, and works under the key
//! `<namespace>/<resource>`.

use vstd::prelude::*;

use crate::command::{meta_of, param_of, CommandContext};
use crate::error::CommandError;
use crate::json::{
    decodable, decoded_of, decode_json, encode_json_pretty, json_depth, json_depth_limit,
    json_view, pretty_json_of, spec_decode, wf_json, JsonValue, JsonView,
};
use crate::resource::{
    deletion_ts, so_shape_check, so_shape_ok, so_terminating, so_with_dt, with_deletion_timestamp,
};
use crate::store::{put_contents, TransactionalKeyValueStore};
use crate::text::{is_prefix_of, lower_of, lowercase, strip_chars};

verus! {

/// The store key for a resource: the lower-cased namespace, a slash, and
/// the lower-cased resource path.
pub open spec fn resource_key_view(ns: Seq<char>, res: Seq<char>) -> Seq<char> {
    lower_of(ns) + seq!['/'] + lower_of(res)
}

/// Builds the store key for a resource.
pub fn resource_key(namespace: &str, resource: Option<&str>) -> (r: String)
    ensures
        match resource {
            Some(s) => r@ == resource_key_view(namespace@, s@),
            None => r@ == resource_key_view(namespace@, ""@),
        },
{
    let mut k = lowercase(namespace);
    k.append("/");
    let low_res = match resource {
        Some(s) => lowercase(s),
        None => lowercase(""),
    };
    k.append(low_res.as_str());
    proof {
        reveal_strlit("/");
        assert("/"@ =~= seq!['/']);
    }
    k
}

/// The `resource` parameter's characters, when it is present and a string.
pub open spec fn res_param_of(ctx: CommandContext) -> Option<Seq<char>> {
    match param_of(ctx, "resource"@) {
        Some(JsonView::Str(s)) => Some(s),
        _ => None,
    }
}

/// Whether a context carries both a `namespace` and a string `resource`.
pub open spec fn has_ns_res(ctx: CommandContext) -> bool {
    meta_of(ctx, "namespace"@) is Some && res_param_of(ctx) is Some
}

/// The store key a context addresses.
pub open spec fn key_of(ctx: CommandContext) -> Seq<char>
    recommends
        has_ns_res(ctx),
{
    resource_key_view(meta_of(ctx, "namespace"@).unwrap(), res_param_of(ctx).unwrap())
}

/// Resolves the namespace and resource of a call, or refuses it.
fn require_ns_res(ctx: &CommandContext) -> (r: Result<(String, String), CommandError>)
    ensures
        r is Ok <==> has_ns_res(*ctx),
        r is Ok ==> r.unwrap().0@ == meta_of(*ctx, "namespace"@).unwrap() && r.unwrap().1@
            == res_param_of(*ctx).unwrap(),
        r is Err ==> r == Err::<(String, String), CommandError>(CommandError::InvalidInput),
{
    let ns = match ctx.get_metadata("namespace") {
        Some(ns) => ns,
        None => {
            return Err(CommandError::InvalidInput);
        },
    };
    match ctx.get_string_param("resource") {
        Ok(res) => Ok((ns, res)),
        Err(_) => Err(CommandError::InvalidInput),
    }
}

/// Reads the object at the resolved key and returns its JSON value
/// unchanged. `InvalidInput` without a namespace or a string resource;
/// `NotFound` when the key is absent; `Internal` when the stored bytes do
/// not parse.
pub fn get_execute<S: TransactionalKeyValueStore>(ctx: &CommandContext, store: &S) -> (r: Result<
    Option<JsonValue>,
    CommandError,
>)
    ensures
        !has_ns_res(*ctx) ==> r == Err::<Option<JsonValue>, CommandError>(
            CommandError::InvalidInput,
        ),
        has_ns_res(*ctx) ==> {
            let c = store.contents();
            let key = key_of(*ctx);
            &&& !(c.contains_key("resource"@) && c["resource"@].contains_key(key)) ==> r == Err::<
                Option<JsonValue>,
                CommandError,
            >(CommandError::NotFound)
            &&& c.contains_key("resource"@) && c["resource"@].contains_key(key) ==> {
                let b = c["resource"@][key];
                &&& decodable(b) ==> r is Ok && r.unwrap() is Some && json_view(
                    r.unwrap().unwrap(),
                ) == decoded_of(b) && wf_json(decoded_of(b))
                &&& !decodable(b) ==> r == Err::<Option<JsonValue>, CommandError>(
                    CommandError::Internal,
                )
            }
        },
{
    let (ns, res) = match require_ns_res(ctx) {
        Ok(p) => p,
        Err(e) => {
            return Err(e);
        },
    };
    let key = resource_key(ns.as_str(), Some(res.as_str()));
    let bytes = match store.get("resource", key.as_str()) {
        Ok(b) => b,
        Err(_) => {
            return Err(CommandError::NotFound);
        },
    };
    match decode_json(bytes.as_slice()) {
        Some(v) => Ok(Some(v)),
        None => Err(CommandError::Internal),
    }
}

/// Serializes the `value` parameter as pretty JSON bytes and performs a
/// full overwrite at the resolved key; returns the value. `InvalidInput`
/// without a namespace, a string resource, or a `value` parameter.
pub fn set_execute<S: TransactionalKeyValueStore>(ctx: &CommandContext, store: &mut S) -> (r:
    Result<Option<JsonValue>, CommandError>)
    ensures
        !(has_ns_res(*ctx) && param_of(*ctx, "value"@) is Some) ==> r == Err::<
            Option<JsonValue>,
            CommandError,
        >(CommandError::InvalidInput) && final(store).contents() == old(store).contents(),
        has_ns_res(*ctx) && param_of(*ctx, "value"@) is Some ==> {
            let v = param_of(*ctx, "value"@).unwrap();
            &&& r is Ok && r.unwrap() is Some && json_view(r.unwrap().unwrap()) == v
            &&& final(store).contents() == put_contents(
                old(store).contents(),
                "resource"@,
                key_of(*ctx),
                pretty_json_of(v),
            )
            &&& pretty_json_of(v).len() > 0
            &&& wf_json(v) && json_depth(v) <= json_depth_limit() ==> spec_decode(
                pretty_json_of(v),
            ) == Some(v)
        },
{
    let (ns, res) = match require_ns_res(ctx) {
        Ok(p) => p,
        Err(e) => {
            return Err(e);
        },
    };
    let value = match ctx.get_param("value") {
        Ok(v) => v,
        Err(e) => {
            return Err(CommandError::InvalidInput);
        },
    };
    let bytes = encode_json_pretty(&value);
    let key = resource_key(ns.as_str(), Some(res.as_str()));
    let _stored = store.put("resource", key.as_str(), bytes);
    Ok(Some(value))
}

/// Soft-deletes the object at the resolved key: absent or already
/// terminating objects are left alone (an idempotent no-op); otherwise the
/// deletion timestamp is stamped with `now` and the object written back.
/// Physical removal is deferred to the reconcile pass.
pub fn delete_execute<S: TransactionalKeyValueStore>(
    ctx: &CommandContext,
    store: &mut S,
    now: i64,
) -> (r: Result<Option<JsonValue>, CommandError>)
    ensures
        !has_ns_res(*ctx) ==> r == Err::<Option<JsonValue>, CommandError>(
            CommandError::InvalidInput,
        ) && final(store).contents() == old(store).contents(),
        has_ns_res(*ctx) ==> {
            let c = old(store).contents();
            let key = key_of(*ctx);
            &&& !(c.contains_key("resource"@) && c["resource"@].contains_key(key)) ==> r == Ok::<
                Option<JsonValue>,
                CommandError,
            >(None) && final(store).contents() == c
            &&& c.contains_key("resource"@) && c["resource"@].contains_key(key) ==> {
                let b = c["resource"@][key];
                &&& b.len() == 0 ==> r == Ok::<Option<JsonValue>, CommandError>(None) && final(store).contents() == c
                &&& b.len() > 0 && decodable(b) ==> {
                    let v = decoded_of(b);
                    &&& wf_json(v)
                    &&& !so_shape_ok(v) ==> r == Err::<Option<JsonValue>, CommandError>(
                        CommandError::Internal,
                    ) && final(store).contents() == c
                    &&& so_shape_ok(v) && so_terminating(v) ==> r == Ok::<
                        Option<JsonValue>,
                        CommandError,
                    >(None) && final(store).contents() == c
                    &&& so_shape_ok(v) && !so_terminating(v) ==> r == Ok::<
                        Option<JsonValue>,
                        CommandError,
                    >(None) && final(store).contents() == put_contents(
                        c,
                        "resource"@,
                        key,
                        pretty_json_of(so_with_dt(v, now as int)),
                    ) && pretty_json_of(so_with_dt(v, now as int)).len() > 0 && wf_json(
                        so_with_dt(v, now as int),
                    ) && (json_depth(so_with_dt(v, now as int)) <= json_depth_limit()
                        ==> spec_decode(pretty_json_of(so_with_dt(v, now as int))) == Some(
                        so_with_dt(v, now as int),
                    ))
                }
                &&& b.len() > 0 && !decodable(b) ==> r == Err::<Option<JsonValue>, CommandError>(
                    CommandError::Internal,
                ) && final(store).contents() == c
            }
        },
{
    let (ns, res) = match require_ns_res(ctx) {
        Ok(p) => p,
        Err(e) => {
            return Err(e);
        },
    };
    let key = resource_key(ns.as_str(), Some(res.as_str()));
    let bytes = match store.get("resource", key.as_str()) {
        Ok(b) => b,
        Err(_) => {
            return Ok(None);
        },
    };
    if bytes.len() == 0 {
        return Ok(None);
    }
    let value = match decode_json(bytes.as_slice()) {
        Some(v) => v,
        None => {
            return Err(CommandError::Internal);
        },
    };
    if !so_shape_check(&value) {
        return Err(CommandError::Internal);
    }
    if deletion_ts(&value).is_some() {
        return Ok(None);
    }
    let ghost dv = json_view(value);
    proof {
        crate::resource::lemma_so_with_dt_props(dv, now as int);
    }
    let stamped = with_deletion_timestamp(value, now);
    let out = encode_json_pretty(&stamped);
    let _stored = store.put("resource", key.as_str(), out);
    Ok(None)
}

/// The suffix of each matching key after the namespace segment.
pub open spec fn key_suffix(ns: Seq<char>, k: Seq<char>) -> Seq<char> {
    k.subrange(lower_of(ns).len() as int + 1, k.len() as int)
}


/// Whether `item` is the namespace-stripped suffix of some stored key
/// matching the search prefix.
#[verifier::opaque]
pub open spec fn is_listed_item(
    m: Map<Seq<char>, Seq<u8>>,
    prefix: Seq<char>,
    ns: Seq<char>,
    item: JsonView,
) -> bool {
    exists|k: Seq<char>|
        m.contains_key(k) && is_prefix_of(prefix, k) && item == JsonView::Str(key_suffix(ns, k))
}

/// Lists the keys under `<namespace>/<resource>` in the resource
/// container, with the namespace segment stripped; exactly the matching
/// keys, each once, in some order. `NotFound` when the container is
/// absent.
pub fn list_execute<S: TransactionalKeyValueStore>(ctx: &CommandContext, store: &S) -> (r: Result<
    Option<JsonValue>,
    CommandError,
>)
    ensures
        !has_ns_res(*ctx) ==> r == Err::<Option<JsonValue>, CommandError>(
            CommandError::InvalidInput,
        ),
        has_ns_res(*ctx) ==> {
            let c = store.contents();
            let ns = meta_of(*ctx, "namespace"@).unwrap();
            let prefix = key_of(*ctx);
            &&& !c.contains_key("resource"@) ==> r == Err::<Option<JsonValue>, CommandError>(
                CommandError::NotFound,
            )
            &&& c.contains_key("resource"@) ==> r is Ok && r.unwrap() is Some && {
                let m = c["resource"@];
                match json_view(r.unwrap().unwrap()) {
                    JsonView::Arr(items) => {
                        &&& forall|a: int|
                            0 <= a < items.len() ==> is_listed_item(m, prefix, ns, #[trigger] items[a])
                        &&& forall|k: Seq<char>|
                            m.contains_key(k) && is_prefix_of(prefix, k) ==> items.contains(
                                JsonView::Str(key_suffix(ns, k)),
                            )
                        &&& forall|a: int, b: int| 0 <= a < b < items.len() ==> items[a] != items[b]
                    },
                    _ => false,
                }
            }
        },
{
    let (ns, res) = match require_ns_res(ctx) {
        Ok(p) => p,
        Err(e) => {
            return Err(e);
        },
    };
    let ns_lower = lowercase(ns.as_str());
    let prefix = resource_key(ns.as_str(), Some(res.as_str()));
    let plen = prefix.as_str().unicode_len();
    proof {
        reveal_strlit("/");
        assert("/"@ =~= seq!['/']);
        assert(plen >= ns_lower@.len() + 1);
    }
    let strip_len = ns_lower.as_str().unicode_len() + 1;
    let keys = match store.list_keys("resource", Some(prefix.as_str())) {
        Ok(keys) => keys,
        Err(_) => {
            return Err(CommandError::NotFound);
        },
    };
    let ghost m = store.contents()["resource"@];
    let ghost nsv = meta_of(*ctx, "namespace"@).unwrap();
    proof {
        assert forall|a: int, b: int|
            0 <= a < b < keys@.len() implies (keys@[a]@) != (keys@[b]@) by {
            assert(crate::store::str_views(keys@)[a] == keys@[a]@);
            assert(crate::store::str_views(keys@)[b] == keys@[b]@);
        }
        assert forall|a: int|
            0 <= a < keys@.len() implies m.contains_key(#[trigger] keys@[a]@) && is_prefix_of(
            prefix@,
            keys@[a]@,
        ) by {
            assert(crate::store::str_views(keys@)[a] == keys@[a]@);
        }
    }
    let n = keys.len();
    let mut items: Vec<JsonValue> = Vec::new();
    let mut i: usize = 0;
    while i < n
        invariant
            i <= n == keys@.len(),
            strip_len == lower_of(nsv).len() + 1,
            prefix@ == resource_key_view(nsv, res_param_of(*ctx).unwrap()),
            forall|a: int, b: int|
                0 <= a < b < n ==> (#[trigger] keys@[a]@) != (#[trigger] keys@[b]@),
            forall|a: int|
                0 <= a < n ==> m.contains_key(#[trigger] keys@[a]@) && is_prefix_of(
                    prefix@,
                    keys@[a]@,
                ),
            crate::json::arr_view(items@).len() == i,
            forall|a: int|
                0 <= a < i ==> (#[trigger] crate::json::arr_view(items@)[a]) == JsonView::Str(
                    key_suffix(nsv, keys@[a]@),
                ),
        decreases n - i,
    {
        proof {
            assert(keys@[i as int]@.len() >= prefix@.len());
        }
        let suffix = strip_chars(keys[i].as_str(), strip_len);
        let ghost prev = items@;
        items.push(JsonValue::Str(suffix.to_owned()));
        proof {
            crate::json::lemma_arr_view_snoc(prev, items@[prev.len() as int]);
            assert(items@ =~= prev.push(items@[prev.len() as int]));
        }
        i += 1;
    }
    proof {
        let itemsv = crate::json::arr_view(items@);
        assert forall|a: int| 0 <= a < itemsv.len() implies is_listed_item(
            m,
            prefix@,
            nsv,
            #[trigger] itemsv[a],
        ) by {
            let k0 = keys@[a]@;
            assert(m.contains_key(k0) && is_prefix_of(prefix@, k0) && itemsv[a] == JsonView::Str(
                key_suffix(nsv, k0),
            ));
            reveal(is_listed_item);
        }
        assert forall|k: Seq<char>|
            m.contains_key(k) && is_prefix_of(prefix@, k) implies itemsv.contains(
            JsonView::Str(key_suffix(nsv, k)),
        ) by {
            assert(crate::store::str_views(keys@).contains(k));
            let a = choose|a: int|
                0 <= a < keys@.len() && crate::store::str_views(keys@)[a] == k;
            assert(keys@[a]@ == k);
            assert(itemsv[a] == JsonView::Str(key_suffix(nsv, k)));
        }
        assert forall|a: int, b: int| 0 <= a < b < itemsv.len() implies itemsv[a] != itemsv[b] by {
            assert(itemsv[a] == JsonView::Str(key_suffix(nsv, keys@[a]@)));
            assert(itemsv[b] == JsonView::Str(key_suffix(nsv, keys@[b]@)));
            lemma_suffix_injective(prefix@, nsv, keys@[a]@, keys@[b]@);
        }
    }
    Ok(Some(JsonValue::Arr(items)))
}

/// Two distinct keys that share the search prefix have distinct suffixes.
proof fn lemma_suffix_injective(prefix: Seq<char>, ns: Seq<char>, k1: Seq<char>, k2: Seq<char>)
    requires
        lower_of(ns).len() + 1 <= prefix.len(),
        is_prefix_of(prefix, k1),
        is_prefix_of(prefix, k2),
        k1 != k2,
    ensures
        key_suffix(ns, k1) != key_suffix(ns, k2),
{
    let cut = lower_of(ns).len() + 1;
    if key_suffix(ns, k1) == key_suffix(ns, k2) {
        assert(k1.subrange(0, prefix.len() as int) == prefix);
        assert(k2.subrange(0, prefix.len() as int) == prefix);
        assert(k1.len() == cut + key_suffix(ns, k1).len());
        assert(k2.len() == cut + key_suffix(ns, k2).len());
        assert forall|j: int| 0 <= j < k1.len() implies k1[j] == k2[j] by {
            if j < cut {
                assert(k1.subrange(0, prefix.len() as int)[j] == k1[j]);
                assert(k2.subrange(0, prefix.len() as int)[j] == k2[j]);
            } else {
                assert(key_suffix(ns, k1)[j - cut] == k1[j]);
                assert(key_suffix(ns, k2)[j - cut] == k2[j]);
            }
        }
        assert(k1 =~= k2);
    }
}

/// The JSON value the `version` verb returns: an object with one
/// `version` member holding the build identifier.
pub open spec fn version_value_view() -> JsonView {
    JsonView::Obj(seq![("version"@, JsonView::Str(crate::version::version_string_view()))])
}

/// Returns the build identifier wrapped in an object.
pub fn version_execute() -> (r: Result<Option<JsonValue>, CommandError>)
    ensures
        r is Ok && r.unwrap() is Some && json_view(r.unwrap().unwrap()) == version_value_view(),
{
    let mut entries: Vec<(String, JsonValue)> = Vec::new();
    entries.push((String::from_str("version"), JsonValue::Str(crate::version::get_version_string())));
    proof {
        let e0 = entries@[0];
        assert(entries@ =~= Seq::<(String, JsonValue)>::empty().push(e0));
        crate::json::lemma_obj_view_snoc(Seq::<(String, JsonValue)>::empty(), e0);
        assert(crate::json::obj_view(Seq::<(String, JsonValue)>::empty())
            =~= Seq::<(Seq<char>, JsonView)>::empty());
        assert(crate::json::obj_view(entries@) =~= version_value_view()->Obj_0);
    }
    Ok(Some(JsonValue::Obj(entries)))
}

} // verus!
