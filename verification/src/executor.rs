//! The command executor: a registry from verb name to an ordered list of
//! handlers, and the dispatch algorithm that runs them grouped by stage,
//! collecting the first non-empty internal result and aborting on the
//! first error.

use vstd::prelude::*;

use crate::command::{
    lemma_lookup_first_match, lemma_lookup_none, lemma_lookup_push, lemma_lookup_update, lookup,
    CommandContext, CommandType,
};
use crate::commands::{
    delete_execute, get_execute, has_ns_res, is_listed_item, key_of, key_suffix, list_execute,
    set_execute, version_execute, version_value_view,
};
use crate::error::CommandError;
use crate::json::{decodable, decoded_of, json_view, pretty_json_of, wf_json, JsonValue, JsonView};
use crate::observer::{observer_execute, event_view_of, BusContents, EventBus};
use crate::reconcile::{all_parse, partial_reconcile, reconcile_execute, reconciled};
use crate::resource::{so_shape_ok, so_terminating, so_with_dt};
use crate::store::{put_contents, StoreContents, TransactionalKeyValueStore};
use crate::text::{is_prefix_of, str_eq_str};

verus! {

/// The handlers this control plane ships: the internal resource commands,
/// the reconcile sweep, and the observer that fans mutations out.
///
/// Handlers are a closed set of tagged variants rather than an open trait:
/// a contract-bearing trait object cannot be verified, so new handler
/// implementations cannot be supplied from outside the library. This is a
/// deliberate limit; no mutator- or validator-stage handler exists here.
#[derive(Debug, Clone, Copy, PartialEq, Eq, Structural)]
pub enum HandlerKind {
    /// An internal handler that exposes no capability: dispatching it is a
    /// configuration error.
    EchoCommand,
    VersionCommand,
    GetCommand,
    SetCommand,
    DeleteCommand,
    ListCommand,
    ReconcileCommand,
    /// The observer that publishes a mutation to every subscriber.
    SetObserverCommand,
}

impl HandlerKind {
    /// The stage this handler runs in.
    pub open spec fn stage(self) -> CommandType {
        match self {
            HandlerKind::SetObserverCommand => CommandType::Observer,
            _ => CommandType::Internal,
        }
    }

    /// The stage this handler declares.
    pub fn get_type(&self) -> (t: CommandType)
        ensures
            t == self.stage(),
    {
        match self {
            HandlerKind::SetObserverCommand => CommandType::Observer,
            _ => CommandType::Internal,
        }
    }
}

/// The view of a handler's result.
pub open spec fn result_view(r: Result<Option<JsonValue>, CommandError>) -> Result<
    Option<JsonView>,
    CommandError,
> {
    match r {
        Ok(None) => Ok(None),
        Ok(Some(v)) => Ok(Some(json_view(v))),
        Err(e) => Err(e),
    }
}

/// How one handler relates the state before it to the state after it: the
/// store contents, the bus contents, and the result, exactly as each
/// handler's own contract says.
#[verifier::opaque]
pub open spec fn handler_step(
    h: HandlerKind,
    ctx: CommandContext,
    c0: StoreContents,
    b0: BusContents,
    now: int,
    rv: Result<Option<JsonView>, CommandError>,
    c1: StoreContents,
    b1: BusContents,
) -> bool {
    match h {
        HandlerKind::EchoCommand => rv == Err::<Option<JsonView>, CommandError>(
            CommandError::InvalidInput,
        ) && c1 == c0 && b1 == b0,
        HandlerKind::VersionCommand => rv == Ok::<Option<JsonView>, CommandError>(
            Some(version_value_view()),
        ) && c1 == c0 && b1 == b0,
        HandlerKind::GetCommand => {
            &&& c1 == c0
            &&& b1 == b0
            &&& !has_ns_res(ctx) ==> rv == Err::<Option<JsonView>, CommandError>(
                CommandError::InvalidInput,
            )
            &&& has_ns_res(ctx) ==> {
                let key = key_of(ctx);
                &&& !(c0.contains_key("resource"@) && c0["resource"@].contains_key(key)) ==> rv
                    == Err::<Option<JsonView>, CommandError>(CommandError::NotFound)
                &&& c0.contains_key("resource"@) && c0["resource"@].contains_key(key) ==> {
                    let b = c0["resource"@][key];
                    &&& decodable(b) ==> rv == Ok::<Option<JsonView>, CommandError>(
                        Some(decoded_of(b)),
                    ) && wf_json(decoded_of(b))
                    &&& !decodable(b) ==> rv == Err::<Option<JsonView>, CommandError>(
                        CommandError::Internal,
                    )
                }
            }
        },
        HandlerKind::SetCommand => {
            &&& b1 == b0
            &&& !(has_ns_res(ctx) && crate::command::param_of(ctx, "value"@) is Some) ==> rv
                == Err::<Option<JsonView>, CommandError>(CommandError::InvalidInput) && c1 == c0
            &&& has_ns_res(ctx) && crate::command::param_of(ctx, "value"@) is Some ==> {
                let v = crate::command::param_of(ctx, "value"@).unwrap();
                &&& rv == Ok::<Option<JsonView>, CommandError>(Some(v))
                &&& c1 == put_contents(c0, "resource"@, key_of(ctx), pretty_json_of(v))
                &&& pretty_json_of(v).len() > 0
                &&& wf_json(v) && crate::json::json_depth(v) <= crate::json::json_depth_limit()
                    ==> crate::json::spec_decode(pretty_json_of(v)) == Some(v)
            }
        },
        HandlerKind::DeleteCommand => {
            &&& b1 == b0
            &&& !has_ns_res(ctx) ==> rv == Err::<Option<JsonView>, CommandError>(
                CommandError::InvalidInput,
            ) && c1 == c0
            &&& has_ns_res(ctx) ==> {
                let key = key_of(ctx);
                &&& !(c0.contains_key("resource"@) && c0["resource"@].contains_key(key)) ==> rv
                    == Ok::<Option<JsonView>, CommandError>(None) && c1 == c0
                &&& c0.contains_key("resource"@) && c0["resource"@].contains_key(key) ==> {
                    let b = c0["resource"@][key];
                    &&& b.len() == 0 ==> rv == Ok::<Option<JsonView>, CommandError>(None) && c1
                        == c0
                    &&& b.len() > 0 && decodable(b) ==> {
                        let v = decoded_of(b);
                        &&& wf_json(v)
                        &&& !so_shape_ok(v) ==> rv == Err::<Option<JsonView>, CommandError>(
                            CommandError::Internal,
                        ) && c1 == c0
                        &&& so_shape_ok(v) && so_terminating(v) ==> rv == Ok::<
                            Option<JsonView>,
                            CommandError,
                        >(None) && c1 == c0
                        &&& so_shape_ok(v) && !so_terminating(v) ==> rv == Ok::<
                            Option<JsonView>,
                            CommandError,
                        >(None) && c1 == put_contents(
                            c0,
                            "resource"@,
                            key,
                            pretty_json_of(so_with_dt(v, now)),
                        ) && pretty_json_of(so_with_dt(v, now)).len() > 0 && wf_json(
                            so_with_dt(v, now),
                        ) && (crate::json::json_depth(so_with_dt(v, now))
                            <= crate::json::json_depth_limit() ==> crate::json::spec_decode(
                            pretty_json_of(so_with_dt(v, now)),
                        ) == Some(so_with_dt(v, now)))
                    }
                    &&& b.len() > 0 && !decodable(b) ==> rv == Err::<
                        Option<JsonView>,
                        CommandError,
                    >(CommandError::Internal) && c1 == c0
                }
            }
        },
        HandlerKind::ListCommand => {
            &&& c1 == c0
            &&& b1 == b0
            &&& !has_ns_res(ctx) ==> rv == Err::<Option<JsonView>, CommandError>(
                CommandError::InvalidInput,
            )
            &&& has_ns_res(ctx) ==> {
                let ns = crate::command::meta_of(ctx, "namespace"@).unwrap();
                let prefix = key_of(ctx);
                &&& !c0.contains_key("resource"@) ==> rv == Err::<Option<JsonView>, CommandError>(
                    CommandError::NotFound,
                )
                &&& c0.contains_key("resource"@) ==> rv is Ok && rv.unwrap() is Some && {
                    let m = c0["resource"@];
                    match rv.unwrap().unwrap() {
                        JsonView::Arr(items) => {
                            &&& forall|a: int|
                                0 <= a < items.len() ==> is_listed_item(
                                    m,
                                    prefix,
                                    ns,
                                    #[trigger] items[a],
                                )
                            &&& forall|k: Seq<char>|
                                m.contains_key(k) && is_prefix_of(prefix, k) ==> items.contains(
                                    JsonView::Str(key_suffix(ns, k)),
                                )
                            &&& forall|a: int, b: int|
                                0 <= a < b < items.len() ==> items[a] != items[b]
                        },
                        _ => false,
                    }
                }
            }
        },
        HandlerKind::ReconcileCommand => {
            &&& b1 == b0
            &&& ({
                let m = if c0.contains_key("resource"@) {
                    c0["resource"@]
                } else {
                    Map::<Seq<char>, Seq<u8>>::empty()
                };
                &&& all_parse(m) ==> rv == Ok::<Option<JsonView>, CommandError>(None) && c1
                    == c0.insert("resource"@, reconciled(m))
                &&& rv is Err ==> rv == Err::<Option<JsonView>, CommandError>(
                    CommandError::Internal,
                )
                &&& rv is Ok ==> rv == Ok::<Option<JsonView>, CommandError>(None)
                &&& partial_reconcile(c0, m, c1)
            })
        },
        HandlerKind::SetObserverCommand => {
            &&& c1 == c0
            &&& ({
                let p = crate::command::param_of(ctx, "value"@);
                &&& !(p is Some && so_shape_ok(p.unwrap())) ==> rv == Err::<
                    Option<JsonView>,
                    CommandError,
                >(CommandError::InvalidInput) && b1 == b0
                &&& p is Some && so_shape_ok(p.unwrap()) ==> {
                    let ev = event_view_of(ctx, p.unwrap());
                    &&& rv == Ok::<Option<JsonView>, CommandError>(None)
                    &&& b1.dom() == b0.dom()
                    &&& forall|id: Seq<char>|
                        b0.contains_key(id) ==> b1[id] == b0[id].push(ev)
                }
            })
        },
    }
}

/// Runs one handler's applicable capability: the internal handlers
/// execute against the store, the observer against the bus, and a handler
/// with no capability is a configuration error.
pub fn execute_handler<S: TransactionalKeyValueStore>(
    h: HandlerKind,
    ctx: &CommandContext,
    store: &mut S,
    bus: &mut EventBus,
    now: i64,
) -> (r: Result<Option<JsonValue>, CommandError>)
    ensures
        handler_step(
            h,
            *ctx,
            old(store).contents(),
            old(bus).contents(),
            now as int,
            result_view(r),
            final(store).contents(),
            final(bus).contents(),
        ),
{
    proof {
        reveal(handler_step);
    }
    match h {
        HandlerKind::EchoCommand => Err(CommandError::InvalidInput),
        HandlerKind::VersionCommand => version_execute(),
        HandlerKind::GetCommand => get_execute(ctx, store),
        HandlerKind::SetCommand => set_execute(ctx, store),
        HandlerKind::DeleteCommand => delete_execute(ctx, store, now),
        HandlerKind::ListCommand => list_execute(ctx, store),
        HandlerKind::ReconcileCommand => reconcile_execute(ctx, store),
        HandlerKind::SetObserverCommand => observer_execute(ctx, bus),
    }
}

/// The handlers of `hs` that run in stage `t`, in registration order.
pub open spec fn filter_stage(hs: Seq<HandlerKind>, t: CommandType) -> Seq<HandlerKind>
    decreases hs,
{
    if hs.len() == 0 {
        Seq::empty()
    } else {
        (if hs.first().stage() == t {
            seq![hs.first()]
        } else {
            Seq::empty()
        }) + filter_stage(hs.drop_first(), t)
    }
}

/// The handlers of `hs` in dispatch order: stable-sorted by stage
/// priority, mutators first and observers last.
pub open spec fn stage_order(hs: Seq<HandlerKind>) -> Seq<HandlerKind> {
    filter_stage(hs, CommandType::Mutator) + filter_stage(hs, CommandType::Validator)
        + filter_stage(hs, CommandType::Internal) + filter_stage(hs, CommandType::Observer)
}

/// Filtering one more handler appends it to its stage's list.
proof fn lemma_filter_stage_snoc(hs: Seq<HandlerKind>, x: HandlerKind, t: CommandType)
    ensures
        x.stage() == t ==> filter_stage(hs.push(x), t) =~= filter_stage(hs, t).push(x),
        x.stage() != t ==> filter_stage(hs.push(x), t) =~= filter_stage(hs, t),
    decreases hs,
{
    if hs.len() == 0 {
        assert(hs.push(x).first() == x);
        assert(hs.push(x).drop_first() =~= Seq::<HandlerKind>::empty());
        assert(filter_stage(Seq::<HandlerKind>::empty(), t) =~= Seq::<HandlerKind>::empty());
        assert(filter_stage(hs.push(x).drop_first(), t) =~= Seq::<HandlerKind>::empty());
    } else {
        assert(hs.push(x).first() == hs.first());
        assert(hs.push(x).drop_first() =~= hs.drop_first().push(x));
        lemma_filter_stage_snoc(hs.drop_first(), x, t);
    }
}

/// An empty or one-handler list dispatches as itself, and an internal
/// handler followed by an observer dispatches in that same order.
pub proof fn lemma_stage_order_small(hs: Seq<HandlerKind>)
    ensures
        hs.len() == 0 ==> stage_order(hs) =~= hs,
        hs.len() == 1 ==> stage_order(hs) =~= hs,
        hs.len() == 2 && hs[0].stage() is Internal && hs[1].stage() is Observer ==> stage_order(hs)
            =~= hs,
{
    if hs.len() == 0 {
        assert(stage_order(hs) =~= hs);
    }
    if hs.len() == 1 {
        assert(hs =~= Seq::<HandlerKind>::empty().push(hs[0]));
        lemma_filter_stage_snoc(Seq::<HandlerKind>::empty(), hs[0], CommandType::Mutator);
        lemma_filter_stage_snoc(Seq::<HandlerKind>::empty(), hs[0], CommandType::Validator);
        lemma_filter_stage_snoc(Seq::<HandlerKind>::empty(), hs[0], CommandType::Internal);
        lemma_filter_stage_snoc(Seq::<HandlerKind>::empty(), hs[0], CommandType::Observer);
        assert(stage_order(hs) =~= hs);
    }
    if hs.len() == 2 && hs[0].stage() is Internal && hs[1].stage() is Observer {
        let one = Seq::<HandlerKind>::empty().push(hs[0]);
        assert(hs =~= one.push(hs[1]));
        lemma_filter_stage_snoc(Seq::<HandlerKind>::empty(), hs[0], CommandType::Mutator);
        lemma_filter_stage_snoc(Seq::<HandlerKind>::empty(), hs[0], CommandType::Validator);
        lemma_filter_stage_snoc(Seq::<HandlerKind>::empty(), hs[0], CommandType::Internal);
        lemma_filter_stage_snoc(Seq::<HandlerKind>::empty(), hs[0], CommandType::Observer);
        lemma_filter_stage_snoc(one, hs[1], CommandType::Mutator);
        lemma_filter_stage_snoc(one, hs[1], CommandType::Validator);
        lemma_filter_stage_snoc(one, hs[1], CommandType::Internal);
        lemma_filter_stage_snoc(one, hs[1], CommandType::Observer);
        assert(stage_order(hs) =~= hs);
    }
}


/// One executed handler: its result and the store and bus contents it
/// left behind.
pub struct PipelineStep {
    pub sr: Result<Option<JsonView>, CommandError>,
    pub c: StoreContents,
    pub b: BusContents,
}

/// Whether a trace records a run of `hs` in order: each step satisfies
/// its handler's step relation from the state the previous step left, no
/// handler runs after an error, and without an error every handler has a
/// step.
pub open spec fn trace_runs(
    hs: Seq<HandlerKind>,
    ctx: CommandContext,
    t: int,
    c0: StoreContents,
    b0: BusContents,
    trace: Seq<PipelineStep>,
) -> bool
    decreases hs.len(),
{
    if hs.len() == 0 {
        trace.len() == 0
    } else if trace.len() == 0 {
        false
    } else {
        &&& handler_step(
            hs.first(),
            ctx,
            c0,
            b0,
            t,
            trace.first().sr,
            trace.first().c,
            trace.first().b,
        )
        &&& match trace.first().sr {
            Err(_) => trace.len() == 1,
            Ok(_) => trace_runs(
                hs.drop_first(),
                ctx,
                t,
                trace.first().c,
                trace.first().b,
                trace.drop_first(),
            ),
        }
    }
}

/// The dispatch result a trace yields: the first error, else the first
/// non-empty result of an internal-stage handler, else nothing.
pub open spec fn trace_outcome(
    hs: Seq<HandlerKind>,
    trace: Seq<PipelineStep>,
    acc: Option<JsonView>,
) -> Result<Option<JsonView>, CommandError>
    decreases trace.len(),
{
    if trace.len() == 0 || hs.len() == 0 {
        Ok(acc)
    } else {
        match trace.first().sr {
            Err(e) => Err(e),
            Ok(v) => trace_outcome(
                hs.drop_first(),
                trace.drop_first(),
                if acc is None && hs.first().stage() is Internal {
                    v
                } else {
                    acc
                },
            ),
        }
    }
}

/// The internal result accumulated over an error-free trace.
pub open spec fn trace_acc(
    hs: Seq<HandlerKind>,
    trace: Seq<PipelineStep>,
    acc: Option<JsonView>,
) -> Option<JsonView>
    decreases trace.len(),
{
    if trace.len() == 0 || hs.len() == 0 {
        acc
    } else {
        match trace.first().sr {
            Err(_) => acc,
            Ok(v) => trace_acc(
                hs.drop_first(),
                trace.drop_first(),
                if acc is None && hs.first().stage() is Internal {
                    v
                } else {
                    acc
                },
            ),
        }
    }
}

/// The store contents a trace leaves behind.
pub open spec fn trace_store(c0: StoreContents, trace: Seq<PipelineStep>) -> StoreContents {
    if trace.len() == 0 {
        c0
    } else {
        trace.last().c
    }
}

/// The bus contents a trace leaves behind.
pub open spec fn trace_bus(b0: BusContents, trace: Seq<PipelineStep>) -> BusContents {
    if trace.len() == 0 {
        b0
    } else {
        trace.last().b
    }
}

/// Every step of the trace succeeded.
pub open spec fn trace_all_ok(trace: Seq<PipelineStep>) -> bool {
    forall|i: int| 0 <= i < trace.len() ==> (#[trigger] trace[i].sr) is Ok
}

/// Appending one step to an error-free run of `hs` records a run of `hs`
/// extended by that step's handler.
proof fn lemma_trace_runs_snoc(
    hs: Seq<HandlerKind>,
    ctx: CommandContext,
    t: int,
    c0: StoreContents,
    b0: BusContents,
    trace: Seq<PipelineStep>,
    h: HandlerKind,
    rec: PipelineStep,
)
    requires
        trace_runs(hs, ctx, t, c0, b0, trace),
        trace_all_ok(trace),
        trace.len() == hs.len(),
        handler_step(h, ctx, trace_store(c0, trace), trace_bus(b0, trace), t, rec.sr, rec.c, rec.b),
    ensures
        trace_runs(hs.push(h), ctx, t, c0, b0, trace.push(rec)),
    decreases hs.len(),
{
    if hs.len() == 0 {
        assert(hs.push(h)[0] == h);
        assert(trace.push(rec)[0] == rec);
        assert(hs.push(h).drop_first() =~= hs);
        assert(trace.push(rec).drop_first() =~= trace);
        if rec.sr is Ok {
            assert(trace_runs(
                hs.push(h).drop_first(),
                ctx,
                t,
                rec.c,
                rec.b,
                trace.push(rec).drop_first(),
            ));
        }
    } else {
        assert(hs.push(h).first() == hs.first());
        assert(trace.push(rec).first() == trace.first());
        assert(hs.push(h).drop_first() =~= hs.drop_first().push(h));
        assert(trace.push(rec).drop_first() =~= trace.drop_first().push(rec));
        assert(trace[0].sr is Ok);
        assert(forall|i: int|
            0 <= i < trace.len() - 1 ==> (#[trigger] trace.drop_first()[i]) == trace[i + 1]);
        assert(trace.drop_first().len() > 0 ==> trace_store(c0, trace) == trace_store(
            trace.first().c,
            trace.drop_first(),
        ) && trace_bus(b0, trace) == trace_bus(trace.first().b, trace.drop_first()));
        lemma_trace_runs_snoc(
            hs.drop_first(),
            ctx,
            t,
            trace.first().c,
            trace.first().b,
            trace.drop_first(),
            h,
            rec,
        );
    }
}

/// Over an error-free trace the outcome is the accumulated internal
/// result, and appending one step extends both as the step says.
proof fn lemma_trace_outcome_snoc(
    hs: Seq<HandlerKind>,
    trace: Seq<PipelineStep>,
    acc: Option<JsonView>,
    h: HandlerKind,
    rec: PipelineStep,
)
    requires
        trace_all_ok(trace),
        trace.len() == hs.len(),
    ensures
        trace_outcome(hs, trace, acc) == Ok::<Option<JsonView>, CommandError>(
            trace_acc(hs, trace, acc),
        ),
        trace_outcome(hs.push(h), trace.push(rec), acc) == match rec.sr {
            Err(e) => Err::<Option<JsonView>, CommandError>(e),
            Ok(v) => Ok(
                if trace_acc(hs, trace, acc) is None && h.stage() is Internal {
                    v
                } else {
                    trace_acc(hs, trace, acc)
                },
            ),
        },
        rec.sr is Ok ==> trace_acc(hs.push(h), trace.push(rec), acc) == (
        if trace_acc(hs, trace, acc) is None && h.stage() is Internal {
            rec.sr.unwrap()
        } else {
            trace_acc(hs, trace, acc)
        }),
    decreases trace.len(),
{
    if trace.len() == 0 {
        assert(hs.push(h)[0] == h);
        assert(trace.push(rec)[0] == rec);
        assert(hs.push(h).drop_first() =~= hs);
        assert(trace.push(rec).drop_first() =~= trace);
        if rec.sr is Ok {
            let acc2 = if acc is None && h.stage() is Internal {
                rec.sr.unwrap()
            } else {
                acc
            };
            assert(trace_outcome(
                hs.push(h).drop_first(),
                trace.push(rec).drop_first(),
                acc2,
            ) == Ok::<Option<JsonView>, CommandError>(acc2));
            assert(trace_acc(hs.push(h).drop_first(), trace.push(rec).drop_first(), acc2)
                == acc2);
        }
    } else {
        assert(hs.push(h).first() == hs.first());
        assert(trace.push(rec).first() == trace.first());
        assert(hs.push(h).drop_first() =~= hs.drop_first().push(h));
        assert(trace.push(rec).drop_first() =~= trace.drop_first().push(rec));
        assert(trace[0].sr is Ok);
        assert(forall|i: int|
            0 <= i < trace.len() - 1 ==> (#[trigger] trace.drop_first()[i]) == trace[i + 1]);
        let acc2 = if acc is None && hs.first().stage() is Internal {
            trace.first().sr.unwrap()
        } else {
            acc
        };
        lemma_trace_outcome_snoc(hs.drop_first(), trace.drop_first(), acc2, h, rec);
    }
}

/// Over an error-free trace covering the whole list, the outcome is the
/// accumulated internal result.
proof fn lemma_trace_outcome_all_ok(
    hs: Seq<HandlerKind>,
    trace: Seq<PipelineStep>,
    acc: Option<JsonView>,
)
    requires
        trace_all_ok(trace),
        trace.len() == hs.len(),
    ensures
        trace_outcome(hs, trace, acc) == Ok::<Option<JsonView>, CommandError>(
            trace_acc(hs, trace, acc),
        ),
    decreases trace.len(),
{
    if trace.len() > 0 {
        assert(trace[0].sr is Ok);
        assert(forall|i: int|
            0 <= i < trace.len() - 1 ==> (#[trigger] trace.drop_first()[i]) == trace[i + 1]);
        let acc2 = if acc is None && hs.first().stage() is Internal {
            trace.first().sr.unwrap()
        } else {
            acc
        };
        lemma_trace_outcome_all_ok(hs.drop_first(), trace.drop_first(), acc2);
    }
}

/// A run of a prefix that ends in an error, or covers the whole list, is
/// a run of the whole list.
proof fn lemma_trace_prefix_full(
    full: Seq<HandlerKind>,
    k: int,
    ctx: CommandContext,
    t: int,
    c0: StoreContents,
    b0: BusContents,
    trace: Seq<PipelineStep>,
)
    requires
        0 <= k <= full.len(),
        trace_runs(full.take(k), ctx, t, c0, b0, trace),
        k == full.len() || (trace.len() > 0 && trace.last().sr is Err),
    ensures
        trace_runs(full, ctx, t, c0, b0, trace),
    decreases k,
{
    if k == full.len() {
        assert(full.take(k) =~= full);
    } else {
        assert(trace.len() > 0);
        assert(k > 0);
        assert(full.take(k).first() == full.first());
        assert(full.take(k).drop_first() =~= full.drop_first().take(k - 1));
        match trace.first().sr {
            Err(_) => {
                assert(trace.len() == 1);
                assert(trace[0] == trace.first());
            },
            Ok(_) => {
                assert(trace.drop_first().len() > 0 && trace.drop_first().last() == trace.last());
                lemma_trace_prefix_full(
                    full.drop_first(),
                    k - 1,
                    ctx,
                    t,
                    trace.first().c,
                    trace.first().b,
                    trace.drop_first(),
                );
            },
        }
    }
}

/// The outcome of a trace no longer than a prefix is decided within that
/// prefix.
proof fn lemma_trace_outcome_prefix(
    full: Seq<HandlerKind>,
    k: int,
    trace: Seq<PipelineStep>,
    acc: Option<JsonView>,
)
    requires
        0 <= trace.len() <= k <= full.len(),
    ensures
        trace_outcome(full, trace, acc) == trace_outcome(full.take(k), trace, acc),
    decreases trace.len(),
{
    if trace.len() > 0 {
        assert(full.take(k).first() == full.first());
        assert(full.take(k).drop_first() =~= full.drop_first().take(k - 1));
        match trace.first().sr {
            Err(_) => {},
            Ok(v) => {
                lemma_trace_outcome_prefix(
                    full.drop_first(),
                    k - 1,
                    trace.drop_first(),
                    if acc is None && full.first().stage() is Internal {
                        v
                    } else {
                        acc
                    },
                );
            },
        }
    }
}

/// The registered handler lists, by verb name.
pub open spec fn handlers_of(s: Seq<(String, Vec<HandlerKind>)>, name: Seq<char>) -> Option<
    Seq<HandlerKind>,
> {
    match lookup(s, name) {
        None => None,
        Some(v) => Some(v@),
    }
}

/// What one dispatch of a registered verb does. In general: some trace of
/// the handlers, taken in stage order, where each step meets its
/// handler's step relation, no handler runs after the first error, the
/// result is that error or else the first non-empty internal result, and
/// the final store and bus are the last step's. For the shapes this
/// library builds - an empty list, a single handler, an internal handler
/// with an observer behind it - the same outcome is also spelled out
/// directly over the handlers' step relations.
pub open spec fn dispatch_outcome(
    hs: Seq<HandlerKind>,
    ctx0: CommandContext,
    c0: StoreContents,
    b0: BusContents,
    t: int,
    r: Result<Option<JsonValue>, CommandError>,
    c1: StoreContents,
    b1: BusContents,
) -> bool {
    &&& exists|trace: Seq<PipelineStep>|
        {
            &&& #[trigger] trace_runs(stage_order(hs), ctx0, t, c0, b0, trace)
            &&& result_view(r) == trace_outcome(stage_order(hs), trace, None)
            &&& c1 == trace_store(c0, trace)
            &&& b1 == trace_bus(b0, trace)
        }
    &&& hs.len() == 0 ==> r == Ok::<Option<JsonValue>, CommandError>(None) && c1 == c0 && b1 == b0
    &&& hs.len() == 1 ==> exists|sr: Result<Option<JsonView>, CommandError>|
        {
            &&& #[trigger] handler_step(hs[0], ctx0, c0, b0, t, sr, c1, b1)
            &&& sr is Err ==> result_view(r) == sr
            &&& sr is Ok ==> result_view(r) == Ok::<Option<JsonView>, CommandError>(
                if hs[0].stage() is Internal {
                    sr.unwrap()
                } else {
                    None
                },
            )
        }
    &&& hs.len() == 2 && hs[0].stage() is Internal && hs[1].stage() is Observer ==> exists|
        sr1: Result<Option<JsonView>, CommandError>,
        cm: StoreContents,
        bm: BusContents,
    |
        {
            &&& #[trigger] handler_step(hs[0], ctx0, c0, b0, t, sr1, cm, bm)
            &&& sr1 is Err ==> result_view(r) == sr1 && c1 == cm && b1 == bm
            &&& sr1 is Ok ==> exists|sr2: Result<Option<JsonView>, CommandError>|
                {
                    &&& #[trigger] handler_step(hs[1], ctx0, cm, bm, t, sr2, c1, b1)
                    &&& sr2 is Err ==> result_view(r) == sr2
                    &&& sr2 is Ok ==> result_view(r) == Ok::<Option<JsonView>, CommandError>(
                        sr1.unwrap(),
                    )
                }
        }
}

/// The dispatcher: a mapping from verb name to the ordered list of
/// handlers registered for it. Registration is append-only.
pub struct CommandExecutor {
    /// The registry, in registration order; one entry per verb name.
    handlers: Vec<(String, Vec<HandlerKind>)>,
}

impl CommandExecutor {
    /// The registered handlers for a verb.
    pub closed spec fn registry(&self, name: Seq<char>) -> Option<Seq<HandlerKind>> {
        handlers_of(self.handlers@, name)
    }

    /// An empty registry.
    pub fn new() -> (e: CommandExecutor)
        ensures
            forall|n: Seq<char>| #[trigger] e.registry(n) is None,
    {
        let e = CommandExecutor { handlers: Vec::new() };
        proof {
            assert forall|n: Seq<char>| #[trigger] e.registry(n) is None by {
                lemma_lookup_none(e.handlers@, n);
            }
        }
        e
    }

    /// Appends a handler to the list registered for a verb, creating the
    /// list if the verb is new.
    pub fn register_handler(&mut self, name: &str, handler: HandlerKind)
        ensures
            final(self).registry(name@) == match old(self).registry(name@) {
                Some(v) => Some(v.push(handler)),
                None => Some(seq![handler]),
            },
            forall|n2: Seq<char>|
                n2 != name@ ==> #[trigger] final(self).registry(n2) == old(self).registry(n2),
    {
        let n = self.handlers.len();
        let mut i: usize = 0;
        while i < n
            invariant
                i <= n == self.handlers@.len(),
                self.handlers@ == old(self).handlers@,
                forall|j: int| 0 <= j < i ==> (#[trigger] self.handlers@[j].0@) != name@,
            decreases n - i,
        {
            if str_eq_str(self.handlers[i].0.as_str(), name) {
                proof {
                    lemma_lookup_first_match(self.handlers@, name@, i as int);
                }
                let ghost prev = self.handlers@;
                let mut pair = self.handlers.remove(i);
                pair.1.push(handler);
                self.handlers.insert(i, pair);
                proof {
                    assert(self.handlers@ =~= prev.update(
                        i as int,
                        self.handlers@[i as int],
                    ));
                    assert forall|n2: Seq<char>| true implies handlers_of(self.handlers@, n2) == (
                        if n2 == name@ {
                            Some(prev[i as int].1@.push(handler))
                        } else {
                            handlers_of(prev, n2)
                        }
                    ) by {
                        lemma_lookup_update(
                            prev,
                            i as int,
                            self.handlers@[i as int],
                            n2,
                        );
                    }
                }
                return ;
            }
            i += 1;
        }
        proof {
            lemma_lookup_none(self.handlers@, name@);
        }
        let ghost prev = self.handlers@;
        let mut list: Vec<HandlerKind> = Vec::new();
        list.push(handler);
        let pair = (name.to_owned(), list);
        self.handlers.push(pair);
        proof {
            assert(self.handlers@ =~= prev.push(self.handlers@[prev.len() as int]));
            assert forall|n2: Seq<char>| true implies handlers_of(self.handlers@, n2) == (
                if n2 == name@ {
                    Some(seq![handler])
                } else {
                    handlers_of(prev, n2)
                }
            ) by {
                lemma_lookup_push(prev, self.handlers@[prev.len() as int], n2);
            }
            assert(self.handlers@[prev.len() as int].1@ =~= seq![handler]);
        }
    }

    /// The handlers registered for a verb, if any.
    fn find_handlers<'a>(&'a self, name: &str) -> (r: Option<&'a Vec<HandlerKind>>)
        ensures
            r is Some <==> self.registry(name@) is Some,
            r is Some ==> Some(r.unwrap()@) == self.registry(name@),
    {
        let n = self.handlers.len();
        let mut i: usize = 0;
        while i < n
            invariant
                i <= n == self.handlers@.len(),
                forall|j: int| 0 <= j < i ==> (#[trigger] self.handlers@[j].0@) != name@,
            decreases n - i,
        {
            if str_eq_str(self.handlers[i].0.as_str(), name) {
                proof {
                    lemma_lookup_first_match(self.handlers@, name@, i as int);
                }
                return Some(&self.handlers[i].1);
            }
            i += 1;
        }
        proof {
            lemma_lookup_none(self.handlers@, name@);
        }
        None
    }

    /// Dispatches a context: resolves the verb's handlers, runs them
    /// grouped by ascending stage priority in registration order, collects
    /// the first non-empty internal result, and aborts on the first error
    /// or once cancellation is observed.
    ///
    /// For an unregistered verb the call fails `NotFound` and touches
    /// neither the store nor the bus; otherwise the outcome is
    /// `dispatch_outcome`: a stage-ordered run of the registered handlers,
    /// each step meeting its handler's own step relation.
    pub fn dispatch<S: TransactionalKeyValueStore>(
        &self,
        ctx: &mut CommandContext,
        store: &mut S,
        bus: &mut EventBus,
        now: i64,
    ) -> (r: Result<Option<JsonValue>, CommandError>)
        ensures
            *final(ctx) == *old(ctx),
            self.registry(old(ctx).command_name@) is None ==> r == Err::<
                Option<JsonValue>,
                CommandError,
            >(CommandError::NotFound) && final(store).contents() == old(store).contents() && final(bus).contents() == old(bus).contents(),
            self.registry(old(ctx).command_name@) is Some && old(ctx).cancelled ==> r == Err::<
                Option<JsonValue>,
                CommandError,
            >(CommandError::Cancelled) && final(store).contents() == old(store).contents()
                && final(bus).contents() == old(bus).contents(),
            self.registry(old(ctx).command_name@) is Some && !old(ctx).cancelled
                ==> dispatch_outcome(
                self.registry(old(ctx).command_name@).unwrap(),
                *old(ctx),
                old(store).contents(),
                old(bus).contents(),
                now as int,
                r,
                final(store).contents(),
                final(bus).contents(),
            ),
    {
        let hs = match self.find_handlers(ctx.command_name.as_str()) {
            None => {
                return Err(CommandError::NotFound);
            },
            Some(hs) => hs,
        };
        if ctx.cancelled {
            return Err(CommandError::Cancelled);
        }
        let ghost ghs = self.registry(ctx.command_name@).unwrap();
        proof {
            lemma_stage_order_small(ghs);
        }
        // collect the run order: one pass per stage, ascending priority
        let mut runlist: Vec<HandlerKind> = Vec::new();
        collect_stage(&mut runlist, hs, CommandType::Mutator);
        collect_stage(&mut runlist, hs, CommandType::Validator);
        collect_stage(&mut runlist, hs, CommandType::Internal);
        collect_stage(&mut runlist, hs, CommandType::Observer);
        proof {
            assert(runlist@ =~= stage_order(ghs));
        }
        let ghost c0 = store.contents();
        let ghost b0 = bus.contents();
        let n = runlist.len();
        let mut final_result: Option<JsonValue> = None;
        let ghost mut trace: Seq<PipelineStep> = Seq::empty();
        let mut i: usize = 0;
        while i < n
            invariant
                i <= n == runlist@.len(),
                c0 == old(store).contents(),
                b0 == old(bus).contents(),
                *ctx == *old(ctx),
                self.registry(old(ctx).command_name@) == Some(ghs),
                !old(ctx).cancelled,
                runlist@ == stage_order(ghs),
                trace_runs(runlist@.take(i as int), *old(ctx), now as int, c0, b0, trace),
                trace_all_ok(trace),
                trace.len() == i,
                store.contents() == trace_store(c0, trace),
                bus.contents() == trace_bus(b0, trace),
                result_view(Ok(final_result)) == Ok::<Option<JsonView>, CommandError>(
                    trace_acc(runlist@.take(i as int), trace, None),
                ),
                ghs.len() == 0 ==> store.contents() == c0 && bus.contents() == b0 && final_result
                    is None,
                ghs.len() == 1 ==> runlist@ =~= ghs,
                ghs.len() == 2 && ghs[0].stage() is Internal && ghs[1].stage() is Observer
                    ==> runlist@ =~= ghs,
                ghs.len() == 1 && i == 0 ==> store.contents() == c0 && bus.contents() == b0
                    && final_result is None,
                ghs.len() == 1 && i == 1 ==> exists|sr: Result<Option<JsonView>, CommandError>|
                    {
                        &&& #[trigger] handler_step(
                            ghs[0],
                            *old(ctx),
                            c0,
                            b0,
                            now as int,
                            sr,
                            store.contents(),
                            bus.contents(),
                        )
                        &&& sr is Ok
                        &&& result_view(Ok(final_result)) == Ok::<Option<JsonView>, CommandError>(
                            if ghs[0].stage() is Internal {
                                sr.unwrap()
                            } else {
                                None
                            },
                        )
                    },
                ghs.len() == 2 && ghs[0].stage() is Internal && ghs[1].stage() is Observer && i == 0
                    ==> store.contents() == c0 && bus.contents() == b0 && final_result is None,
                ghs.len() == 2 && ghs[0].stage() is Internal && ghs[1].stage() is Observer && i == 1
                    ==> exists|sr1: Result<Option<JsonView>, CommandError>|
                    {
                        &&& #[trigger] handler_step(
                            ghs[0],
                            *old(ctx),
                            c0,
                            b0,
                            now as int,
                            sr1,
                            store.contents(),
                            bus.contents(),
                        )
                        &&& sr1 is Ok
                        &&& result_view(Ok(final_result)) == Ok::<Option<JsonView>, CommandError>(
                            sr1.unwrap(),
                        )
                    },
                ghs.len() == 2 && ghs[0].stage() is Internal && ghs[1].stage() is Observer && i == 2
                    ==> exists|
                    sr1: Result<Option<JsonView>, CommandError>,
                    cm: StoreContents,
                    bm: BusContents,
                    sr2: Result<Option<JsonView>, CommandError>,
                |
                    {
                        &&& #[trigger] handler_step(
                            ghs[0],
                            *old(ctx),
                            c0,
                            b0,
                            now as int,
                            sr1,
                            cm,
                            bm,
                        )
                        &&& sr1 is Ok
                        &&& #[trigger] handler_step(
                            ghs[1],
                            *old(ctx),
                            cm,
                            bm,
                            now as int,
                            sr2,
                            store.contents(),
                            bus.contents(),
                        )
                        &&& sr2 is Ok
                        &&& result_view(Ok(final_result)) == Ok::<Option<JsonView>, CommandError>(
                            sr1.unwrap(),
                        )
                    },
            decreases n - i,
        {
            let h = runlist[i];
            let ghost c_before = store.contents();
            let ghost b_before = bus.contents();
            let res = execute_handler(h, ctx, store, bus, now);
            match res {
                Err(e) => {
                    proof {
                        if ghs.len() == 1 {
                            assert(i == 0);
                            assert(handler_step(
                                ghs[0],
                                *old(ctx),
                                old(store).contents(),
                                old(bus).contents(),
                                now as int,
                                result_view(Err(e)),
                                store.contents(),
                                bus.contents(),
                            ));
                        }
                        if ghs.len() == 2 && ghs[0].stage() is Internal && ghs[1].stage()
                            is Observer {
                            if i == 0 {
                                assert(handler_step(
                                    ghs[0],
                                    *old(ctx),
                                    old(store).contents(),
                                    old(bus).contents(),
                                    now as int,
                                    result_view(Err(e)),
                                    store.contents(),
                                    bus.contents(),
                                ));
                            } else {
                                assert(i == 1);
                                let sr1 = choose|sr1: Result<Option<JsonView>, CommandError>|
                                    {
                                        &&& #[trigger] handler_step(
                                            ghs[0],
                                            *old(ctx),
                                            c0,
                                            b0,
                                            now as int,
                                            sr1,
                                            c_before,
                                            b_before,
                                        )
                                        &&& sr1 is Ok
                                        &&& result_view(Ok(final_result)) == Ok::<
                                            Option<JsonView>,
                                            CommandError,
                                        >(sr1.unwrap())
                                    };
                                assert(handler_step(
                                    ghs[1],
                                    *old(ctx),
                                    c_before,
                                    b_before,
                                    now as int,
                                    result_view(Err(e)),
                                    store.contents(),
                                    bus.contents(),
                                ));
                            }
                        }
                        let rec = PipelineStep {
                            sr: result_view(Err(e)),
                            c: store.contents(),
                            b: bus.contents(),
                        };
                        lemma_trace_runs_snoc(
                            runlist@.take(i as int),
                            *old(ctx),
                            now as int,
                            c0,
                            b0,
                            trace,
                            runlist@[i as int],
                            rec,
                        );
                        lemma_trace_outcome_snoc(
                            runlist@.take(i as int),
                            trace,
                            None,
                            runlist@[i as int],
                            rec,
                        );
                        trace = trace.push(rec);
                        assert(runlist@.take(i + 1 as int) =~= runlist@.take(i as int).push(
                            runlist@[i as int],
                        ));
                        lemma_trace_prefix_full(
                            runlist@,
                            i + 1 as int,
                            *old(ctx),
                            now as int,
                            c0,
                            b0,
                            trace,
                        );
                        lemma_trace_outcome_prefix(runlist@, i + 1 as int, trace, None);
                        assert(trace_runs(stage_order(ghs), *old(ctx), now as int, c0, b0, trace));
                        assert(result_view(Err(e)) == trace_outcome(stage_order(ghs), trace, None));
                        assert(store.contents() == trace_store(c0, trace));
                        assert(bus.contents() == trace_bus(b0, trace));
                    }
                    return Err(e);
                },
                Ok(v) => {
                    proof {
                        assert(handler_step(
                            h,
                            *old(ctx),
                            c_before,
                            b_before,
                            now as int,
                            result_view(Ok(v)),
                            store.contents(),
                            bus.contents(),
                        ));
                    }
                    proof {
                        let rec = PipelineStep {
                            sr: result_view(Ok(v)),
                            c: store.contents(),
                            b: bus.contents(),
                        };
                        lemma_trace_runs_snoc(
                            runlist@.take(i as int),
                            *old(ctx),
                            now as int,
                            c0,
                            b0,
                            trace,
                            runlist@[i as int],
                            rec,
                        );
                        lemma_trace_outcome_snoc(
                            runlist@.take(i as int),
                            trace,
                            None,
                            runlist@[i as int],
                            rec,
                        );
                        let ghost prev = trace;
                        trace = trace.push(rec);
                        assert(runlist@.take(i + 1 as int) =~= runlist@.take(i as int).push(
                            runlist@[i as int],
                        ));
                        assert(forall|j: int| 0 <= j < prev.len() ==> (#[trigger] trace[j]) == prev[j]);
                        assert(trace[prev.len() as int] == rec);
                    }
                    if final_result.is_none() && h.get_type() == CommandType::Internal {
                        final_result = v;
                    }
                },
            }
            i += 1;
        }
        proof {
            assert(runlist@.take(n as int) =~= runlist@);
            lemma_trace_outcome_all_ok(runlist@, trace, None);
            assert(trace_runs(stage_order(ghs), *old(ctx), now as int, c0, b0, trace));
            assert(result_view(Ok(final_result)) == trace_outcome(stage_order(ghs), trace, None));
            assert(store.contents() == trace_store(c0, trace));
            assert(bus.contents() == trace_bus(b0, trace));
        }
        Ok(final_result)
    }
}

/// Appends to `out` the handlers of `hs` that run in stage `t`, in order.
fn collect_stage(out: &mut Vec<HandlerKind>, hs: &Vec<HandlerKind>, t: CommandType)
    ensures
        final(out)@ == old(out)@ + filter_stage(hs@, t),
{
    let n = hs.len();
    let mut j: usize = 0;
    while j < n
        invariant
            j <= n == hs@.len(),
            out@ == old(out)@ + filter_stage(hs@.take(j as int), t),
        decreases n - j,
    {
        proof {
            assert(hs@.take(j + 1 as int) =~= hs@.take(j as int).push(hs@[j as int]));
            lemma_filter_stage_snoc(hs@.take(j as int), hs@[j as int], t);
        }
        if hs[j].get_type() == t {
            out.push(hs[j]);
        }
        j += 1;
    }
    proof {
        assert(hs@.take(n as int) =~= hs@);
    }
}

} // verus!
