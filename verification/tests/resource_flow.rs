//! The JSON model, the wire codec against real serde_json, and the
//! resource commands driven directly against a store.

use kuiper_runtime::command::CommandContext;
use kuiper_runtime::commands::{
    delete_execute, get_execute, list_execute, resource_key, set_execute, version_execute,
};
use kuiper_runtime::error::CommandError;
use kuiper_runtime::in_memory_store::InMemoryStore;
use kuiper_runtime::json::{decode_json, encode_json_pretty, json_clone, JsonValue};
use kuiper_runtime::resource::{deletion_ts, finalizers_empty, so_shape_check};
use kuiper_runtime::store::TransactionalKeyValueStore;

fn obj(entries: Vec<(&str, JsonValue)>) -> JsonValue {
    JsonValue::Obj(
        entries
            .into_iter()
            .map(|(k, v)| (k.to_string(), v))
            .collect(),
    )
}

fn widget(name: &str) -> JsonValue {
    obj(vec![
        ("apiVersion", JsonValue::Str("v1".to_string())),
        ("kind", JsonValue::Str("Widget".to_string())),
        (
            "metadata",
            obj(vec![("name", JsonValue::Str(name.to_string()))]),
        ),
    ])
}

fn ctx_for(verb: &str, namespace: &str, resource: &str) -> CommandContext {
    let mut ctx = CommandContext::new(verb.to_string(), "test-activity".to_string());
    ctx.set_metadata("namespace".to_string(), namespace.to_string());
    ctx.set_param(
        "resource".to_string(),
        JsonValue::Str(resource.to_string()),
    );
    ctx
}

#[test]
fn encode_decode_round_trip() {
    let v = obj(vec![
        ("apiVersion", JsonValue::Str("v1".to_string())),
        ("kind", JsonValue::Str("Widget".to_string())),
        (
            "metadata",
            obj(vec![
                ("name", JsonValue::Str("foo".to_string())),
                ("creationTimestamp", JsonValue::Int(1682839600)),
                (
                    "finalizers",
                    JsonValue::Arr(vec![JsonValue::Str("cleanup".to_string())]),
                ),
            ]),
        ),
        ("status", JsonValue::Str("ok".to_string())),
        ("active", JsonValue::Bool(true)),
        ("spec", JsonValue::Null),
    ]);
    let bytes = encode_json_pretty(&v);
    // the bytes are real JSON: serde_json itself can read them back
    let raw: serde_json::Value = serde_json::from_slice(&bytes).unwrap();
    assert_eq!(raw["kind"], serde_json::Value::String("Widget".to_string()));
    assert_eq!(raw["metadata"]["name"], "foo");
    let back = decode_json(&bytes).unwrap();
    assert_eq!(back, v);
}

#[test]
fn shape_check_accepts_and_rejects() {
    assert!(so_shape_check(&widget("foo")));
    // a missing kind is not a system object
    let missing_kind = obj(vec![
        ("apiVersion", JsonValue::Str("v1".to_string())),
        (
            "metadata",
            obj(vec![("name", JsonValue::Str("x".to_string()))]),
        ),
    ]);
    assert!(!so_shape_check(&missing_kind));
    // metadata must carry a string name
    let bad_name = obj(vec![
        ("apiVersion", JsonValue::Str("v1".to_string())),
        ("kind", JsonValue::Str("W".to_string())),
        ("metadata", obj(vec![("name", JsonValue::Int(3))])),
    ]);
    assert!(!so_shape_check(&bad_name));
    assert!(deletion_ts(&widget("foo")).is_none());
    assert!(finalizers_empty(&widget("foo")));
}

#[test]
fn resource_key_lower_cases() {
    let k = resource_key("DeFaUlT", Some("Widgets/Foo"));
    assert_eq!(k, "default/widgets/foo");
    let bare = resource_key("NS", None);
    assert_eq!(bare, "ns/");
}

#[test]
fn set_then_get_round_trips() {
    let mut store = InMemoryStore::new();
    let mut ctx = ctx_for("set", "default", "widgets/foo");
    ctx.set_param("value".to_string(), widget("foo"));
    let set_out = set_execute(&ctx, &mut store).unwrap().unwrap();
    assert_eq!(set_out, widget("foo"));
    // the store holds pretty JSON bytes under the lower-cased key
    let bytes = store.get("resource", "default/widgets/foo").unwrap();
    let raw: serde_json::Value = serde_json::from_slice(&bytes).unwrap();
    assert_eq!(raw["metadata"]["name"], "foo");
    let got = get_execute(&ctx_for("get", "default", "widgets/foo"), &store)
        .unwrap()
        .unwrap();
    assert_eq!(got, widget("foo"));
}

#[test]
fn get_missing_fails_not_found() {
    let store = InMemoryStore::new();
    let r = get_execute(&ctx_for("get", "default", "widgets/none"), &store);
    assert_eq!(r, Err(CommandError::NotFound));
}

#[test]
fn missing_inputs_fail_invalid_input() {
    let mut store = InMemoryStore::new();
    // no namespace in the metadata
    let mut no_ns = CommandContext::new("get".to_string(), "a".to_string());
    no_ns.set_param(
        "resource".to_string(),
        JsonValue::Str("widgets/foo".to_string()),
    );
    assert_eq!(
        get_execute(&no_ns, &store),
        Err(CommandError::InvalidInput)
    );
    // no resource parameter
    let mut no_res = CommandContext::new("get".to_string(), "a".to_string());
    no_res.set_metadata("namespace".to_string(), "default".to_string());
    assert_eq!(
        get_execute(&no_res, &store),
        Err(CommandError::InvalidInput)
    );
    // a resource that is not a string
    let mut bad_res = CommandContext::new("get".to_string(), "a".to_string());
    bad_res.set_metadata("namespace".to_string(), "default".to_string());
    bad_res.set_param("resource".to_string(), JsonValue::Int(5));
    assert_eq!(
        get_execute(&bad_res, &store),
        Err(CommandError::InvalidInput)
    );
    // set without a value
    let set_ctx = ctx_for("set", "default", "widgets/foo");
    assert_eq!(
        set_execute(&set_ctx, &mut store),
        Err(CommandError::InvalidInput)
    );
}

#[test]
fn delete_absent_is_a_noop() {
    let mut store = InMemoryStore::new();
    let r = delete_execute(&ctx_for("delete", "default", "widgets/none"), &mut store, 77);
    assert_eq!(r, Ok(None));
    assert_eq!(
        store.get("resource", "default/widgets/none"),
        Err(CommandError::NotFound)
    );
}

#[test]
fn delete_is_idempotent_and_soft() {
    let mut store = InMemoryStore::new();
    let mut set_ctx = ctx_for("set", "default", "widgets/foo");
    set_ctx.set_param("value".to_string(), widget("foo"));
    set_execute(&set_ctx, &mut store).unwrap();

    let del_ctx = ctx_for("delete", "default", "widgets/foo");
    assert_eq!(delete_execute(&del_ctx, &mut store, 1111), Ok(None));

    // still readable, but terminating with the first timestamp
    let after_first = get_execute(&ctx_for("get", "default", "widgets/foo"), &store)
        .unwrap()
        .unwrap();
    assert_eq!(deletion_ts(&after_first), Some(1111));

    // a second delete at a later time changes nothing
    assert_eq!(delete_execute(&del_ctx, &mut store, 2222), Ok(None));
    let after_second = get_execute(&ctx_for("get", "default", "widgets/foo"), &store)
        .unwrap()
        .unwrap();
    assert_eq!(after_second, after_first);
    assert_eq!(deletion_ts(&after_second), Some(1111));
}

#[test]
fn list_strips_the_namespace_segment() {
    let mut store = InMemoryStore::new();
    for (ns, res) in [
        ("n", "p/a"),
        ("n", "p/b"),
        ("n", "q/c"),
        ("m", "p/d"),
    ] {
        let mut ctx = ctx_for("set", ns, res);
        ctx.set_param("value".to_string(), widget("x"));
        set_execute(&ctx, &mut store).unwrap();
    }
    let out = list_execute(&ctx_for("list", "n", "p"), &store)
        .unwrap()
        .unwrap();
    let mut names = match out {
        JsonValue::Arr(items) => items
            .into_iter()
            .map(|it| match it {
                JsonValue::Str(s) => s,
                other => panic!("unexpected list item: {:?}", other),
            })
            .collect::<Vec<_>>(),
        other => panic!("unexpected list result: {:?}", other),
    };
    names.sort();
    assert_eq!(names, vec!["p/a", "p/b"]);
}

#[test]
fn list_missing_container_fails_not_found() {
    let store = InMemoryStore::new();
    assert_eq!(
        list_execute(&ctx_for("list", "n", "p"), &store),
        Err(CommandError::NotFound)
    );
}

#[test]
fn version_reports_the_build_identifier() {
    let out = version_execute().unwrap().unwrap();
    assert_eq!(
        out,
        JsonValue::Obj(vec![(
            "version".to_string(),
            JsonValue::Str("kuiper-runtime v0.1.0-devbuild".to_string())
        )])
    );
    assert_eq!(
        kuiper_runtime::version::get_version_string(),
        "kuiper-runtime v0.1.0-devbuild"
    );
}

#[test]
fn shape_check_requires_string_labels() {
    let bad_labels = obj(vec![
        ("apiVersion", JsonValue::Str("v1".to_string())),
        ("kind", JsonValue::Str("W".to_string())),
        (
            "metadata",
            obj(vec![
                ("name", JsonValue::Str("x".to_string())),
                ("labels", obj(vec![("env", JsonValue::Int(1))])),
            ]),
        ),
    ]);
    assert!(!so_shape_check(&bad_labels));
    let good_labels = obj(vec![
        ("apiVersion", JsonValue::Str("v1".to_string())),
        ("kind", JsonValue::Str("W".to_string())),
        (
            "metadata",
            obj(vec![
                ("name", JsonValue::Str("x".to_string())),
                ("labels", obj(vec![("env", JsonValue::Str("prod".to_string()))])),
            ]),
        ),
    ]);
    assert!(so_shape_check(&good_labels));
}

#[test]
fn deeply_nested_values_do_not_read_back() {
    // the codec's parser keeps a fixed recursion budget: a value nested
    // far beyond it stores fine but cannot be read back
    let mut deep = JsonValue::Int(1);
    for _ in 0..200 {
        deep = JsonValue::Arr(vec![deep]);
    }
    let mut store = InMemoryStore::new();
    let mut ctx = ctx_for("set", "default", "widgets/deep");
    ctx.set_param("value".to_string(), deep);
    assert!(set_execute(&ctx, &mut store).is_ok());
    let r = get_execute(&ctx_for("get", "default", "widgets/deep"), &store);
    assert_eq!(r, Err(CommandError::Internal));

    // a shallow value of the same shape round-trips
    let mut shallow = JsonValue::Int(1);
    for _ in 0..50 {
        shallow = JsonValue::Arr(vec![shallow]);
    }
    let mut ctx2 = ctx_for("set", "default", "widgets/shallow");
    ctx2.set_param("value".to_string(), json_clone(&shallow));
    set_execute(&ctx2, &mut store).unwrap();
    let got = get_execute(&ctx_for("get", "default", "widgets/shallow"), &store)
        .unwrap()
        .unwrap();
    assert_eq!(got, shallow);
}
