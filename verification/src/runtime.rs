//! The assembled runtime: a builder that registers the standard handlers
//! over a store, and the runtime that dispatches contexts against them,
//! stamping each dispatch with the current time.

use vstd::prelude::*;

use crate::command::CommandContext;
use crate::error::CommandError;
use crate::executor::{dispatch_outcome, handler_step, result_view, CommandExecutor, HandlerKind};
use crate::json::{JsonValue, JsonView};
use crate::observer::{BusContents, EventBus};
use crate::reconcile::{all_parse, partial_reconcile, reconciled};
use crate::store::{StoreContents, TransactionalKeyValueStore};

verus! {

/// The outcome of a dispatch: an optional JSON value, or one error.
pub type CommandResult = Result<Option<JsonValue>, CommandError>;

/// Relies on `chrono::Utc::now`: the current time in microseconds since
/// the epoch. The clock decides the value, so nothing is promised of it.
#[verifier::external_body]
pub fn now_micros() -> i64 {
    chrono::Utc::now().timestamp_micros()
}

/// Relies on `uuid::Uuid::new_v4` and its hyphenated rendering: a freshly
/// generated correlation identifier. The value is random, so nothing is
/// promised of it.
#[verifier::external_body]
pub fn new_activity_id() -> String {
    uuid::Uuid::new_v4().to_string()
}

/// Whether a registry holds exactly the standard verbs, each with its one
/// internal handler.
pub open spec fn standard_verbs(reg: spec_fn(Seq<char>) -> Option<Seq<HandlerKind>>) -> bool {
    &&& reg("echo"@) == Some(seq![HandlerKind::EchoCommand])
    &&& reg("version"@) == Some(seq![HandlerKind::VersionCommand])
    &&& reg("get"@) == Some(seq![HandlerKind::GetCommand])
    &&& reg("set"@) == Some(seq![HandlerKind::SetCommand])
    &&& reg("delete"@) == Some(seq![HandlerKind::DeleteCommand])
    &&& reg("list"@) == Some(seq![HandlerKind::ListCommand])
    &&& reg("reconcile"@) == Some(seq![HandlerKind::ReconcileCommand])
}

/// Builds a runtime over a store: the standard handlers are registered at
/// construction, and callers may append further non-internal handlers
/// before building.
pub struct KuiperRuntimeBuilder<S: TransactionalKeyValueStore> {
    executor: CommandExecutor,
    store: S,
    bus: EventBus,
}

impl<S: TransactionalKeyValueStore> KuiperRuntimeBuilder<S> {
    /// The handlers registered so far for a verb.
    pub closed spec fn registry(&self, name: Seq<char>) -> Option<Seq<HandlerKind>> {
        self.executor.registry(name)
    }

    /// The contents of the store the runtime will own.
    pub closed spec fn store_contents(&self) -> StoreContents {
        self.store.contents()
    }

    /// The contents of the event bus the runtime will own.
    pub closed spec fn bus_contents(&self) -> BusContents {
        self.bus.contents()
    }

    /// A builder with the standard verbs registered over `store` and an
    /// empty subscriber registry.
    pub fn new(store: S) -> (b: KuiperRuntimeBuilder<S>)
        ensures
            standard_verbs(|n: Seq<char>| b.registry(n)),
            forall|n: Seq<char>|
                n != "echo"@ && n != "version"@ && n != "get"@ && n != "set"@ && n != "delete"@
                    && n != "list"@ && n != "reconcile"@ ==> #[trigger] b.registry(n) is None,
            b.store_contents() == store.contents(),
            b.bus_contents() == Map::<Seq<char>, Seq<crate::observer::ServerMessageView>>::empty(),
    {
        let mut executor = CommandExecutor::new();
        executor.register_handler("echo", HandlerKind::EchoCommand);
        executor.register_handler("version", HandlerKind::VersionCommand);
        executor.register_handler("get", HandlerKind::GetCommand);
        executor.register_handler("set", HandlerKind::SetCommand);
        executor.register_handler("delete", HandlerKind::DeleteCommand);
        executor.register_handler("list", HandlerKind::ListCommand);
        executor.register_handler("reconcile", HandlerKind::ReconcileCommand);
        proof {
            crate::resource::lemma_field_names_distinct();
            reveal_strlit("echo");
            reveal_strlit("version");
            reveal_strlit("get");
            reveal_strlit("set");
            reveal_strlit("delete");
            reveal_strlit("list");
            reveal_strlit("reconcile");
            assert("echo"@.len() == 4);
            assert("version"@.len() == 7);
            assert("get"@.len() == 3);
            assert("set"@.len() == 3);
            assert("delete"@.len() == 6);
            assert("list"@.len() == 4);
            assert("reconcile"@.len() == 9);
            assert("get"@[0] == 'g');
            assert("set"@[0] == 's');
            assert("echo"@[0] == 'e');
            assert("list"@[0] == 'l');
        }
        KuiperRuntimeBuilder { executor, store, bus: EventBus::new() }
    }

    /// Appends a handler for a verb. Internal handlers belong to the
    /// runtime itself and cannot be registered from outside.
    pub fn register_handler(&mut self, name: &str, handler: HandlerKind)
        requires
            !(handler.stage() is Internal),
        ensures
            final(self).registry(name@) == match old(self).registry(name@) {
                Some(v) => Some(v.push(handler)),
                None => Some(seq![handler]),
            },
            forall|n2: Seq<char>|
                n2 != name@ ==> #[trigger] final(self).registry(n2) == old(self).registry(n2),
            final(self).store_contents() == old(self).store_contents(),
            final(self).bus_contents() == old(self).bus_contents(),
    {
        self.executor.register_handler(name, handler);
    }

    /// Finishes the builder into a runtime.
    pub fn build(self) -> (rt: KuiperRuntime<S>)
        ensures
            forall|n: Seq<char>| #[trigger] rt.registry(n) == self.registry(n),
            rt.store_contents() == self.store_contents(),
            rt.bus_contents() == self.bus_contents(),
    {
        KuiperRuntime { executor: self.executor, store: self.store, bus: self.bus }
    }
}

/// The assembled control plane: the dispatcher, the store and the event
/// bus, ready to execute contexts.
pub struct KuiperRuntime<S: TransactionalKeyValueStore> {
    executor: CommandExecutor,
    store: S,
    bus: EventBus,
}

impl<S: TransactionalKeyValueStore> KuiperRuntime<S> {
    /// The handlers registered for a verb.
    pub closed spec fn registry(&self, name: Seq<char>) -> Option<Seq<HandlerKind>> {
        self.executor.registry(name)
    }

    /// The contents of the owned store.
    pub closed spec fn store_contents(&self) -> StoreContents {
        self.store.contents()
    }

    /// The contents of the owned event bus.
    pub closed spec fn bus_contents(&self) -> BusContents {
        self.bus.contents()
    }

    /// Registers a subscriber on the bus with an empty outbound queue.
    pub fn subscribe(&mut self, id: String)
        ensures
            final(self).bus_contents() == old(self).bus_contents().insert(
                id@,
                Seq::<crate::observer::ServerMessageView>::empty(),
            ),
            final(self).store_contents() == old(self).store_contents(),
            forall|n: Seq<char>| #[trigger] final(self).registry(n) == old(self).registry(n),
    {
        self.bus.subscribe(id);
    }

    /// Removes a subscriber from the bus.
    pub fn unsubscribe(&mut self, id: &str)
        ensures
            final(self).bus_contents() == old(self).bus_contents().remove(id@),
            final(self).store_contents() == old(self).store_contents(),
            forall|n: Seq<char>| #[trigger] final(self).registry(n) == old(self).registry(n),
    {
        self.bus.unsubscribe(id);
    }

    /// Takes a subscriber's pending messages, leaving its queue empty.
    pub fn drain(&mut self, id: &str) -> (r: Option<Vec<crate::observer::ServerMessage>>)
        ensures
            old(self).bus_contents().contains_key(id@) ==> r is Some && crate::observer::queue_view(
                r.unwrap()@,
            ) == old(self).bus_contents()[id@] && final(self).bus_contents() == old(self).bus_contents().insert(id@, Seq::<crate::observer::ServerMessageView>::empty()),
            !old(self).bus_contents().contains_key(id@) ==> r is None && final(self).bus_contents()
                == old(self).bus_contents(),
            final(self).store_contents() == old(self).store_contents(),
            forall|n: Seq<char>| #[trigger] final(self).registry(n) == old(self).registry(n),
    {
        self.bus.drain(id)
    }

    /// Dispatches a context with an explicit timestamp for any soft-delete
    /// stamping: the pipeline and its outcome are exactly the dispatcher's.
    pub fn execute_at(&mut self, ctx: &mut CommandContext, now: i64) -> (r: CommandResult)
        ensures
            *final(ctx) == *old(ctx),
            forall|n: Seq<char>| #[trigger] final(self).registry(n) == old(self).registry(n),
            old(self).registry(old(ctx).command_name@) is None ==> r == Err::<
                Option<JsonValue>,
                CommandError,
            >(CommandError::NotFound) && final(self).store_contents() == old(self).store_contents() && final(self).bus_contents() == old(self).bus_contents(),
            old(self).registry(old(ctx).command_name@) is Some && old(ctx).cancelled ==> r
                == Err::<Option<JsonValue>, CommandError>(CommandError::Cancelled) && final(self).store_contents() == old(self).store_contents() && final(self).bus_contents() == old(self).bus_contents(),
            old(self).registry(old(ctx).command_name@) is Some && !old(ctx).cancelled
                ==> dispatch_outcome(
                old(self).registry(old(ctx).command_name@).unwrap(),
                *old(ctx),
                old(self).store_contents(),
                old(self).bus_contents(),
                now as int,
                r,
                final(self).store_contents(),
                final(self).bus_contents(),
            ),
    {
        let r = self.executor.dispatch(ctx, &mut self.store, &mut self.bus, now);
        proof {
            assert(old(self).store_contents() == old(self).store.contents());
            assert(old(self).bus_contents() == old(self).bus.contents());
            assert(self.store_contents() == self.store.contents());
            assert(self.bus_contents() == self.bus.contents());
            assert(old(self).registry(old(ctx).command_name@) == self.executor.registry(
                old(ctx).command_name@,
            ));
        }
        r
    }

    /// Dispatches a context, stamping any soft delete with the clock's
    /// current time; otherwise exactly `execute_at`.
    pub fn execute(&mut self, ctx: &mut CommandContext) -> (r: CommandResult)
        ensures
            *final(ctx) == *old(ctx),
            forall|n: Seq<char>| #[trigger] final(self).registry(n) == old(self).registry(n),
            old(self).registry(old(ctx).command_name@) is None ==> r == Err::<
                Option<JsonValue>,
                CommandError,
            >(CommandError::NotFound) && final(self).store_contents() == old(self).store_contents() && final(self).bus_contents() == old(self).bus_contents(),
            old(self).registry(old(ctx).command_name@) is Some && old(ctx).cancelled ==> r
                == Err::<Option<JsonValue>, CommandError>(CommandError::Cancelled) && final(self).store_contents() == old(self).store_contents() && final(self).bus_contents() == old(self).bus_contents(),
            old(self).registry(old(ctx).command_name@) is Some && !old(ctx).cancelled ==> exists|
                t: int,
            |
                #[trigger] dispatch_outcome(
                    old(self).registry(old(ctx).command_name@).unwrap(),
                    *old(ctx),
                    old(self).store_contents(),
                    old(self).bus_contents(),
                    t,
                    r,
                    final(self).store_contents(),
                    final(self).bus_contents(),
                ),
    {
        let now = now_micros();
        self.execute_at(ctx, now)
    }

    /// One reconcile pass issued through the same pipeline as user
    /// traffic: a synthetic `reconcile` context under the `global`
    /// namespace. With the standard registration, the store afterwards is
    /// the reconciled store.
    pub fn reconcile_once(&mut self, activity_id: String) -> (r: CommandResult)
        ensures
            forall|n: Seq<char>| #[trigger] final(self).registry(n) == old(self).registry(n),
            old(self).registry("reconcile"@) == Some(seq![HandlerKind::ReconcileCommand]) ==> {
                let c = old(self).store_contents();
                let m = if c.contains_key("resource"@) {
                    c["resource"@]
                } else {
                    Map::<Seq<char>, Seq<u8>>::empty()
                };
                &&& final(self).bus_contents() == old(self).bus_contents()
                &&& all_parse(m) ==> r == Ok::<Option<JsonValue>, CommandError>(None) && final(self).store_contents() == c.insert("resource"@, reconciled(m))
                &&& r is Err ==> r == Err::<Option<JsonValue>, CommandError>(
                    CommandError::Internal,
                )
                &&& partial_reconcile(c, m, final(self).store_contents())
            },
    {
        let mut ctx = CommandContext::new(String::from_str("reconcile"), activity_id);
        ctx.set_metadata(String::from_str("namespace"), String::from_str("global"));
        let now = now_micros();
        let r = self.execute_at(&mut ctx, now);
        proof {
            if old(self).registry("reconcile"@) == Some(seq![HandlerKind::ReconcileCommand]) {
                let hs = old(self).registry("reconcile"@).unwrap();
                assert(hs.len() == 1 && hs[0] == HandlerKind::ReconcileCommand);
                let sr = choose|sr: Result<Option<JsonView>, CommandError>|
                    {
                        &&& #[trigger] handler_step(
                            hs[0],
                            ctx,
                            old(self).store_contents(),
                            old(self).bus_contents(),
                            now as int,
                            sr,
                            self.store_contents(),
                            self.bus_contents(),
                        )
                        &&& (sr is Err ==> result_view(r) == sr)
                        &&& (sr is Ok ==> result_view(r) == Ok::<Option<JsonView>, CommandError>(
                            if hs[0].stage() is Internal {
                                sr.unwrap()
                            } else {
                                None
                            },
                        ))
                    };
                reveal(handler_step);
            }
        }
        r
    }
}

} // verus!
