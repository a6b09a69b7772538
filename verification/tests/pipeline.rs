//! The assembled runtime end to end: dispatch, the reconcile pass, the
//! event bus, and the CLI argument translation.

use kuiper_runtime::cli::{parse_key_val, Command, CommonArgs};
use kuiper_runtime::command::CommandContext;
use kuiper_runtime::error::CommandError;
use kuiper_runtime::executor::HandlerKind;
use kuiper_runtime::in_memory_store::InMemoryStore;
use kuiper_runtime::json::JsonValue;
use kuiper_runtime::observer::ServerMessage;
use kuiper_runtime::resource::deletion_ts;
use kuiper_runtime::routing::ResourceDescriptor;
use kuiper_runtime::text::truncate;
use kuiper_runtime::CommandType;
use kuiper_runtime::runtime::{KuiperRuntime, KuiperRuntimeBuilder};

fn obj(entries: Vec<(&str, JsonValue)>) -> JsonValue {
    JsonValue::Obj(
        entries
            .into_iter()
            .map(|(k, v)| (k.to_string(), v))
            .collect(),
    )
}

fn widget_with(name: &str, extra: Vec<(&str, JsonValue)>) -> JsonValue {
    let mut meta = vec![("name", JsonValue::Str(name.to_string()))];
    meta.extend(extra);
    obj(vec![
        ("apiVersion", JsonValue::Str("v1".to_string())),
        ("kind", JsonValue::Str("Widget".to_string())),
        ("metadata", obj(meta)),
    ])
}

fn runtime() -> KuiperRuntime<InMemoryStore> {
    KuiperRuntimeBuilder::new(InMemoryStore::new()).build()
}

fn ctx_for(verb: &str, namespace: &str, resource: &str) -> CommandContext {
    let mut ctx = CommandContext::new(verb.to_string(), "activity".to_string());
    ctx.set_metadata("namespace".to_string(), namespace.to_string());
    ctx.set_param(
        "resource".to_string(),
        JsonValue::Str(resource.to_string()),
    );
    ctx
}

#[test]
fn unregistered_verb_fails_not_found() {
    let mut rt = runtime();
    let mut ctx = CommandContext::new("frobnicate".to_string(), "activity".to_string());
    assert_eq!(rt.execute_at(&mut ctx, 1), Err(CommandError::NotFound));
    // the store was never touched: a later get still sees nothing
    let r = rt.execute_at(&mut ctx_for("get", "default", "widgets/foo"), 2);
    assert_eq!(r, Err(CommandError::NotFound));
}

#[test]
fn echo_exposes_no_capability() {
    let mut rt = runtime();
    let mut ctx = CommandContext::new("echo".to_string(), "activity".to_string());
    assert_eq!(rt.execute_at(&mut ctx, 1), Err(CommandError::InvalidInput));
}

#[test]
fn cancelled_context_stops_the_pipeline() {
    let mut rt = runtime();
    let mut ctx = ctx_for("get", "default", "widgets/foo");
    ctx.cancelled = true;
    assert_eq!(rt.execute_at(&mut ctx, 1), Err(CommandError::Cancelled));
}

#[test]
fn end_to_end_lifecycle() {
    let mut rt = runtime();

    // set, then get: the same object comes back
    let mut set_ctx = ctx_for("set", "default", "widgets/foo");
    set_ctx.set_param("value".to_string(), widget_with("foo", vec![]));
    let stored = rt.execute_at(&mut set_ctx, 10).unwrap().unwrap();
    assert_eq!(stored, widget_with("foo", vec![]));

    let got = rt
        .execute_at(&mut ctx_for("get", "default", "widgets/foo"), 11)
        .unwrap()
        .unwrap();
    assert_eq!(got, widget_with("foo", vec![]));

    // delete is soft: an immediate get still succeeds, terminating
    let r = rt
        .execute_at(&mut ctx_for("delete", "default", "widgets/foo"), 12)
        .unwrap();
    assert_eq!(r, None);
    let after_delete = rt
        .execute_at(&mut ctx_for("get", "default", "widgets/foo"), 13)
        .unwrap()
        .unwrap();
    assert_eq!(deletion_ts(&after_delete), Some(12));

    // one reconcile pass retires it; the next get fails NotFound
    assert_eq!(rt.reconcile_once("tick".to_string()), Ok(None));
    let gone = rt.execute_at(&mut ctx_for("get", "default", "widgets/foo"), 14);
    assert_eq!(gone, Err(CommandError::NotFound));
}

#[test]
fn finalizers_block_hard_removal() {
    let mut rt = runtime();
    let mut set_ctx = ctx_for("set", "default", "widgets/held");
    set_ctx.set_param(
        "value".to_string(),
        widget_with(
            "held",
            vec![(
                "finalizers",
                JsonValue::Arr(vec![JsonValue::Str("cleanup".to_string())]),
            )],
        ),
    );
    rt.execute_at(&mut set_ctx, 20).unwrap();
    rt.execute_at(&mut ctx_for("delete", "default", "widgets/held"), 21)
        .unwrap();
    assert_eq!(rt.reconcile_once("tick".to_string()), Ok(None));
    // still present and still terminating
    let kept = rt
        .execute_at(&mut ctx_for("get", "default", "widgets/held"), 22)
        .unwrap()
        .unwrap();
    assert_eq!(deletion_ts(&kept), Some(21));
}

#[test]
fn keys_are_lower_cased_before_use() {
    let mut rt = runtime();
    let mut set_ctx = ctx_for("set", "DeFaUlT", "Widgets/Foo");
    set_ctx.set_param("value".to_string(), widget_with("foo", vec![]));
    rt.execute_at(&mut set_ctx, 30).unwrap();
    let got = rt
        .execute_at(&mut ctx_for("get", "default", "widgets/foo"), 31)
        .unwrap();
    assert!(got.is_some());
}

#[test]
fn subscriber_receives_exactly_one_event() {
    let mut builder = KuiperRuntimeBuilder::new(InMemoryStore::new());
    builder.register_handler("set", HandlerKind::SetObserverCommand);
    let mut rt = builder.build();

    rt.subscribe("watcher".to_string());
    rt.subscribe("leaver".to_string());
    rt.unsubscribe("leaver");

    let mut set_ctx = ctx_for("set", "default", "widgets/foo");
    set_ctx.set_param("value".to_string(), widget_with("foo", vec![]));
    let out = rt.execute_at(&mut set_ctx, 40).unwrap().unwrap();
    assert_eq!(out, widget_with("foo", vec![]));

    let pending = rt.drain("watcher").unwrap();
    assert_eq!(pending.len(), 1);
    match &pending[0] {
        ServerMessage::Event {
            resource,
            namespace,
            action,
            object,
        } => {
            assert_eq!(resource, "v1/Widget");
            assert_eq!(namespace, &None);
            assert_eq!(action, "set");
            assert_eq!(object, &widget_with("foo", vec![]));
        }
        other => panic!("unexpected message: {:?}", other),
    }
    // a second drain finds an emptied queue
    assert_eq!(rt.drain("watcher").unwrap().len(), 0);
    // the disconnected subscriber is gone and received nothing
    assert!(rt.drain("leaver").is_none());
}

#[test]
fn observer_rejects_a_non_object_value() {
    let mut builder = KuiperRuntimeBuilder::new(InMemoryStore::new());
    builder.register_handler("set", HandlerKind::SetObserverCommand);
    let mut rt = builder.build();
    let mut set_ctx = ctx_for("set", "default", "widgets/raw");
    set_ctx.set_param("value".to_string(), JsonValue::Int(7));
    // the internal stage stores the value, then the observer refuses it
    assert_eq!(
        rt.execute_at(&mut set_ctx, 50),
        Err(CommandError::InvalidInput)
    );
    let got = rt
        .execute_at(&mut ctx_for("get", "default", "widgets/raw"), 51)
        .unwrap();
    assert_eq!(got, Some(JsonValue::Int(7)));
}

#[test]
fn parse_key_val_splits_at_the_first_equals() {
    assert_eq!(
        parse_key_val("a=b"),
        Ok(("a".to_string(), "b".to_string()))
    );
    assert_eq!(
        parse_key_val("a=b=c"),
        Ok(("a".to_string(), "b=c".to_string()))
    );
    assert_eq!(parse_key_val("plain"), Err(CommandError::InvalidInput));
}

#[test]
fn cli_command_builds_a_context() {
    let args = CommonArgs {
        resource: Some("Widgets/Foo".to_string()),
        name: Some("foo".to_string()),
        parameters: vec![
            ("color".to_string(), "red".to_string()),
            ("color".to_string(), "blue".to_string()),
        ],
        metadata: vec![("trace".to_string(), "on".to_string())],
        namespace: "default".to_string(),
        file: None,
        force: true,
        verbose: false,
    };
    let ctx = Command::Get(args).into_context("act-1".to_string());
    assert_eq!(ctx.command_name, "get");
    assert_eq!(ctx.activity_id, "act-1");
    assert!(!ctx.cancelled);
    assert_eq!(
        ctx.get_string_param("resource"),
        Ok("Widgets/Foo".to_string())
    );
    assert_eq!(ctx.get_string_param("name"), Ok("foo".to_string()));
    // the later key=value wins
    assert_eq!(ctx.get_string_param("color"), Ok("blue".to_string()));
    assert_eq!(ctx.get_metadata("namespace"), Some("default".to_string()));
    assert_eq!(ctx.get_metadata("force"), Some("true".to_string()));
    assert_eq!(ctx.get_metadata("verbose"), Some("false".to_string()));
    assert_eq!(ctx.get_metadata("trace"), Some("on".to_string()));
    assert_eq!(ctx.get_metadata("file"), None);
}

#[test]
fn reconcile_creates_the_container_when_absent() {
    let mut rt = runtime();
    assert_eq!(rt.reconcile_once("first-tick".to_string()), Ok(None));
    // afterwards a list in any namespace finds the container, just empty
    let out = rt
        .execute_at(&mut ctx_for("list", "default", "widgets"), 60)
        .unwrap();
    assert_eq!(out, Some(JsonValue::Arr(vec![])));
}

#[test]
fn resource_descriptor_parses_paths() {
    let d = ResourceDescriptor::parse("/api/core/default/widgets/foo/status/live").unwrap();
    assert_eq!(d.group, "core");
    assert_eq!(d.namespace, "default");
    assert_eq!(d.kind, "widgets");
    assert_eq!(d.name, Some("foo".to_string()));
    assert_eq!(d.subresource, Some("status/live".to_string()));

    let bare = ResourceDescriptor::parse("core//default///widgets").unwrap();
    assert_eq!(bare.group, "core");
    assert_eq!(bare.namespace, "default");
    assert_eq!(bare.kind, "widgets");
    assert_eq!(bare.name, None);
    assert_eq!(bare.subresource, None);

    assert!(matches!(
        ResourceDescriptor::parse("/api/only/two"),
        Err(CommandError::InvalidInput)
    ));
}

#[test]
fn stage_priorities_order_the_pipeline() {
    assert!(CommandType::Mutator.priority() < CommandType::Validator.priority());
    assert!(CommandType::Validator.priority() < CommandType::Internal.priority());
    assert!(CommandType::Internal.priority() < CommandType::Observer.priority());
    assert_eq!(CommandType::Mutator.as_str(), "mutator");
    assert_eq!(CommandType::Observer.as_str(), "observer");
    assert_eq!(HandlerKind::SetObserverCommand.get_type(), CommandType::Observer);
    assert_eq!(HandlerKind::GetCommand.get_type(), CommandType::Internal);
}

#[test]
fn error_names_render() {
    assert_eq!(CommandError::NotFound.as_str(), "not found");
    assert_eq!(CommandError::Cancelled.as_str(), "cancelled");
    assert_eq!(CommandError::ValidationFailed.as_str(), "validation failed");
}

#[test]
fn context_params_shadow_and_read_back() {
    let mut ctx = CommandContext::new("echo".to_string(), "id".to_string());
    ctx.set_param("x".to_string(), JsonValue::Int(1));
    ctx.set_param("x".to_string(), JsonValue::Int(2));
    assert_eq!(ctx.get_param("x"), Ok(JsonValue::Int(2)));
    assert_eq!(ctx.get_param("y"), Err(CommandError::InvalidInput));
    assert_eq!(ctx.get_string_param("x"), Err(CommandError::InvalidInput));
    assert_eq!(truncate("abcdefghij", 8), "abcdefgh");
    assert_eq!(truncate("abc", 8), "abc");
}

#[test]
fn events_carry_the_object_namespace() {
    let mut builder = KuiperRuntimeBuilder::new(InMemoryStore::new());
    builder.register_handler("set", HandlerKind::SetObserverCommand);
    let mut rt = builder.build();
    rt.subscribe("watcher".to_string());

    let mut set_ctx = ctx_for("set", "team-a", "widgets/bar");
    set_ctx.set_param(
        "value".to_string(),
        widget_with(
            "bar",
            vec![("namespace", JsonValue::Str("team-a".to_string()))],
        ),
    );
    rt.execute_at(&mut set_ctx, 70).unwrap();
    let pending = rt.drain("watcher").unwrap();
    assert_eq!(pending.len(), 1);
    match &pending[0] {
        ServerMessage::Event { namespace, .. } => {
            assert_eq!(namespace, &Some("team-a".to_string()));
        }
        other => panic!("unexpected message: {:?}", other),
    }
}
