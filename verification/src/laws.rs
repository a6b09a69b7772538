//! The laws of the control plane, proved from the contracts alone: each
//! relates the step relations of the handlers over the spec-level store
//! and bus, for every input the law admits.

use vstd::prelude::*;

use crate::command::{param_of, CommandContext};
use crate::commands::{has_ns_res, key_of};
use crate::error::CommandError;
use crate::executor::{handler_step, HandlerKind};
use crate::json::{
    decodable, decoded_of, json_depth, json_depth_limit, pretty_json_of, spec_decode, wf_json,
    JsonView,
};
use crate::observer::{event_view_of, BusContents};
use crate::reconcile::{all_parse, keep_bytes, reconciled};
use crate::resource::{
    lemma_so_with_dt_depth, lemma_so_with_dt_props, so_deletion_ts, so_finalizers_empty,
    so_reclaimable, so_shape_ok, so_terminating, so_with_dt,
};
use crate::store::{put_contents, StoreContents};

verus! {

/// Setting a well-formed value and then getting the same resource yields
/// a value structurally equal to what was set.
pub proof fn law_set_then_get(
    ctx_set: CommandContext,
    ctx_get: CommandContext,
    c0: StoreContents,
    b0: BusContents,
    t1: int,
    t2: int,
    rv_set: Result<Option<JsonView>, CommandError>,
    c1: StoreContents,
    b1: BusContents,
    rv_get: Result<Option<JsonView>, CommandError>,
    c2: StoreContents,
    b2: BusContents,
)
    requires
        has_ns_res(ctx_set),
        param_of(ctx_set, "value"@) is Some,
        wf_json(param_of(ctx_set, "value"@).unwrap()),
        json_depth(param_of(ctx_set, "value"@).unwrap()) <= json_depth_limit(),
        has_ns_res(ctx_get),
        key_of(ctx_get) == key_of(ctx_set),
        handler_step(HandlerKind::SetCommand, ctx_set, c0, b0, t1, rv_set, c1, b1),
        handler_step(HandlerKind::GetCommand, ctx_get, c1, b1, t2, rv_get, c2, b2),
    ensures
        rv_set == Ok::<Option<JsonView>, CommandError>(Some(param_of(ctx_set, "value"@).unwrap())),
        rv_get == Ok::<Option<JsonView>, CommandError>(Some(param_of(ctx_set, "value"@).unwrap())),
        c2 == c1,
{
    reveal(handler_step);
    let v = param_of(ctx_set, "value"@).unwrap();
    let key = key_of(ctx_set);
    assert(c1 == put_contents(c0, "resource"@, key, pretty_json_of(v)));
    assert(c1.contains_key("resource"@));
    assert(c1["resource"@].contains_key(key));
    assert(c1["resource"@][key] == pretty_json_of(v));
    assert(spec_decode(pretty_json_of(v)) == Some(v));
}

/// Deleting a resource that was never created returns no result and
/// leaves the store unchanged.
pub proof fn law_delete_absent(
    ctx: CommandContext,
    c0: StoreContents,
    b0: BusContents,
    t: int,
    rv: Result<Option<JsonView>, CommandError>,
    c1: StoreContents,
    b1: BusContents,
)
    requires
        has_ns_res(ctx),
        !(c0.contains_key("resource"@) && c0["resource"@].contains_key(key_of(ctx))),
        handler_step(HandlerKind::DeleteCommand, ctx, c0, b0, t, rv, c1, b1),
    ensures
        rv == Ok::<Option<JsonView>, CommandError>(None),
        c1 == c0,
{
    reveal(handler_step);
}

/// Whether a stored value is a live, well-shaped object: it parses, has
/// the object shape, is not yet terminating, and nests within the codec's
/// depth budget, so that a stamped rewrite of it reads back.
pub open spec fn live_object_bytes(b: Seq<u8>) -> bool {
    &&& b.len() > 0
    &&& decodable(b)
    &&& so_shape_ok(decoded_of(b))
    &&& !so_terminating(decoded_of(b))
    &&& json_depth(decoded_of(b)) <= json_depth_limit()
}

/// Deleting twice is deleting once: the first call stamps the deletion
/// timestamp, and the second call changes nothing.
pub proof fn law_delete_idempotent(
    ctx1: CommandContext,
    ctx2: CommandContext,
    c0: StoreContents,
    b0: BusContents,
    t1: int,
    t2: int,
    rv1: Result<Option<JsonView>, CommandError>,
    c1: StoreContents,
    b1: BusContents,
    rv2: Result<Option<JsonView>, CommandError>,
    c2: StoreContents,
    b2: BusContents,
)
    requires
        has_ns_res(ctx1),
        has_ns_res(ctx2),
        key_of(ctx2) == key_of(ctx1),
        c0.contains_key("resource"@) && c0["resource"@].contains_key(key_of(ctx1)),
        live_object_bytes(c0["resource"@][key_of(ctx1)]),
        handler_step(HandlerKind::DeleteCommand, ctx1, c0, b0, t1, rv1, c1, b1),
        handler_step(HandlerKind::DeleteCommand, ctx2, c1, b1, t2, rv2, c2, b2),
    ensures
        rv1 == Ok::<Option<JsonView>, CommandError>(None),
        rv2 == Ok::<Option<JsonView>, CommandError>(None),
        c2 == c1,
        so_deletion_ts(decoded_of(c1["resource"@][key_of(ctx1)])) == Some(t1),
{
    reveal(handler_step);
    let key = key_of(ctx1);
    let v = decoded_of(c0["resource"@][key]);
    let stamped = so_with_dt(v, t1);
    lemma_so_with_dt_props(v, t1);
    lemma_so_with_dt_depth(v, t1);
    assert(c1 == put_contents(c0, "resource"@, key, pretty_json_of(stamped)));
    assert(c1["resource"@][key] == pretty_json_of(stamped));
    assert(spec_decode(pretty_json_of(stamped)) == Some(stamped));
    assert(so_terminating(stamped));
    let b1bytes = c1["resource"@][key];
    if b1bytes.len() > 0 {
        assert(decoded_of(b1bytes) == stamped);
    }
}

/// After a delete with no finalizers present, one reconcile pass removes
/// the key, and a get afterwards fails `NotFound`.
pub proof fn law_reconcile_removes(
    ctx_del: CommandContext,
    ctx_rec: CommandContext,
    ctx_get: CommandContext,
    c0: StoreContents,
    b0: BusContents,
    t1: int,
    t2: int,
    t3: int,
    rv1: Result<Option<JsonView>, CommandError>,
    c1: StoreContents,
    b1: BusContents,
    rv2: Result<Option<JsonView>, CommandError>,
    c2: StoreContents,
    b2: BusContents,
    rv3: Result<Option<JsonView>, CommandError>,
    c3: StoreContents,
    b3: BusContents,
)
    requires
        has_ns_res(ctx_del),
        has_ns_res(ctx_get),
        key_of(ctx_get) == key_of(ctx_del),
        c0.contains_key("resource"@) && c0["resource"@].contains_key(key_of(ctx_del)),
        live_object_bytes(c0["resource"@][key_of(ctx_del)]),
        so_finalizers_empty(decoded_of(c0["resource"@][key_of(ctx_del)])),
        all_parse(c0["resource"@]),
        handler_step(HandlerKind::DeleteCommand, ctx_del, c0, b0, t1, rv1, c1, b1),
        handler_step(HandlerKind::ReconcileCommand, ctx_rec, c1, b1, t2, rv2, c2, b2),
        handler_step(HandlerKind::GetCommand, ctx_get, c2, b2, t3, rv3, c3, b3),
    ensures
        rv2 == Ok::<Option<JsonView>, CommandError>(None),
        !c2["resource"@].contains_key(key_of(ctx_del)),
        rv3 == Err::<Option<JsonView>, CommandError>(CommandError::NotFound),
{
    reveal(handler_step);
    let key = key_of(ctx_del);
    let v = decoded_of(c0["resource"@][key]);
    let stamped = so_with_dt(v, t1);
    lemma_so_with_dt_props(v, t1);
    lemma_so_with_dt_depth(v, t1);
    assert(c1 == put_contents(c0, "resource"@, key, pretty_json_of(stamped)));
    let m1 = c1["resource"@];
    assert(m1 == c0["resource"@].insert(key, pretty_json_of(stamped)));
    assert(spec_decode(pretty_json_of(stamped)) == Some(stamped));
    assert forall|k: Seq<char>| #[trigger] m1.dom().contains(k) implies decodable(m1[k])
        && so_shape_ok(decoded_of(m1[k])) by {
        if k != key {
            assert(c0["resource"@].dom().contains(k));
        }
    }
    assert(all_parse(m1));
    assert(c2 == c1.insert("resource"@, reconciled(m1)));
    assert(so_reclaimable(stamped)) by {
        assert(so_finalizers_empty(stamped) == so_finalizers_empty(v));
    }
    assert(!keep_bytes(m1[key]));
    assert(!reconciled(m1).contains_key(key));
}

/// After a delete with one or more finalizers present, a reconcile pass
/// leaves the object in place, terminating, and a get afterwards still
/// succeeds.
pub proof fn law_reconcile_keeps_finalized(
    ctx_del: CommandContext,
    ctx_rec: CommandContext,
    ctx_get: CommandContext,
    c0: StoreContents,
    b0: BusContents,
    t1: int,
    t2: int,
    t3: int,
    rv1: Result<Option<JsonView>, CommandError>,
    c1: StoreContents,
    b1: BusContents,
    rv2: Result<Option<JsonView>, CommandError>,
    c2: StoreContents,
    b2: BusContents,
    rv3: Result<Option<JsonView>, CommandError>,
    c3: StoreContents,
    b3: BusContents,
)
    requires
        has_ns_res(ctx_del),
        has_ns_res(ctx_get),
        key_of(ctx_get) == key_of(ctx_del),
        c0.contains_key("resource"@) && c0["resource"@].contains_key(key_of(ctx_del)),
        live_object_bytes(c0["resource"@][key_of(ctx_del)]),
        !so_finalizers_empty(decoded_of(c0["resource"@][key_of(ctx_del)])),
        all_parse(c0["resource"@]),
        handler_step(HandlerKind::DeleteCommand, ctx_del, c0, b0, t1, rv1, c1, b1),
        handler_step(HandlerKind::ReconcileCommand, ctx_rec, c1, b1, t2, rv2, c2, b2),
        handler_step(HandlerKind::GetCommand, ctx_get, c2, b2, t3, rv3, c3, b3),
    ensures
        rv2 == Ok::<Option<JsonView>, CommandError>(None),
        c2["resource"@].contains_key(key_of(ctx_del)),
        rv3 == Ok::<Option<JsonView>, CommandError>(
            Some(so_with_dt(decoded_of(c0["resource"@][key_of(ctx_del)]), t1)),
        ),
        so_terminating(so_with_dt(decoded_of(c0["resource"@][key_of(ctx_del)]), t1)),
{
    reveal(handler_step);
    let key = key_of(ctx_del);
    let v = decoded_of(c0["resource"@][key]);
    let stamped = so_with_dt(v, t1);
    lemma_so_with_dt_props(v, t1);
    lemma_so_with_dt_depth(v, t1);
    assert(c1 == put_contents(c0, "resource"@, key, pretty_json_of(stamped)));
    let m1 = c1["resource"@];
    assert(m1 == c0["resource"@].insert(key, pretty_json_of(stamped)));
    assert(spec_decode(pretty_json_of(stamped)) == Some(stamped));
    assert forall|k: Seq<char>| #[trigger] m1.dom().contains(k) implies decodable(m1[k])
        && so_shape_ok(decoded_of(m1[k])) by {
        if k != key {
            assert(c0["resource"@].dom().contains(k));
        }
    }
    assert(all_parse(m1));
    assert(c2 == c1.insert("resource"@, reconciled(m1)));
    assert(so_finalizers_empty(stamped) == so_finalizers_empty(v));
    assert(keep_bytes(m1[key]));
    assert(reconciled(m1).contains_key(key));
    assert(reconciled(m1)[key] == pretty_json_of(stamped));
}

/// Two sets to different resources never disturb each other: each key
/// afterwards holds its own value, whichever order the commits ran in.
pub proof fn law_independent_sets(
    ctx1: CommandContext,
    ctx2: CommandContext,
    c0: StoreContents,
    b0: BusContents,
    t1: int,
    t2: int,
    rv1: Result<Option<JsonView>, CommandError>,
    c1: StoreContents,
    b1: BusContents,
    rv2: Result<Option<JsonView>, CommandError>,
    c2: StoreContents,
    b2: BusContents,
)
    requires
        has_ns_res(ctx1),
        has_ns_res(ctx2),
        key_of(ctx1) != key_of(ctx2),
        param_of(ctx1, "value"@) is Some,
        param_of(ctx2, "value"@) is Some,
        handler_step(HandlerKind::SetCommand, ctx1, c0, b0, t1, rv1, c1, b1),
        handler_step(HandlerKind::SetCommand, ctx2, c1, b1, t2, rv2, c2, b2),
    ensures
        c2["resource"@][key_of(ctx1)] == pretty_json_of(param_of(ctx1, "value"@).unwrap()),
        c2["resource"@][key_of(ctx2)] == pretty_json_of(param_of(ctx2, "value"@).unwrap()),
        c2 == put_contents(
            put_contents(c0, "resource"@, key_of(ctx2), pretty_json_of(param_of(ctx2, "value"@).unwrap())),
            "resource"@,
            key_of(ctx1),
            pretty_json_of(param_of(ctx1, "value"@).unwrap()),
        ),
{
    reveal(handler_step);
    let v1 = param_of(ctx1, "value"@).unwrap();
    let v2 = param_of(ctx2, "value"@).unwrap();
    let k1 = key_of(ctx1);
    let k2 = key_of(ctx2);
    assert(c1 == put_contents(c0, "resource"@, k1, pretty_json_of(v1)));
    assert(c2 == put_contents(c1, "resource"@, k2, pretty_json_of(v2)));
    assert(c2 =~~= put_contents(
        put_contents(c0, "resource"@, k2, pretty_json_of(v2)),
        "resource"@,
        k1,
        pretty_json_of(v1),
    ));
}

/// A subscriber registered before a mutation receives exactly one event
/// for it, at the end of its queue; an absent subscriber receives nothing
/// and is still absent afterwards.
pub proof fn law_observer_delivery(
    ctx: CommandContext,
    c0: StoreContents,
    b0: BusContents,
    t: int,
    rv: Result<Option<JsonView>, CommandError>,
    c1: StoreContents,
    b1: BusContents,
    present: Seq<char>,
    gone: Seq<char>,
)
    requires
        param_of(ctx, "value"@) is Some,
        so_shape_ok(param_of(ctx, "value"@).unwrap()),
        b0.contains_key(present),
        !b0.contains_key(gone),
        handler_step(HandlerKind::SetObserverCommand, ctx, c0, b0, t, rv, c1, b1),
    ensures
        rv == Ok::<Option<JsonView>, CommandError>(None),
        b1[present] == b0[present].push(event_view_of(ctx, param_of(ctx, "value"@).unwrap())),
        !b1.contains_key(gone),
        c1 == c0,
{
    reveal(handler_step);
}

} // verus!
