//! The observer side of the pipeline: live subscribers, their outbound
//! event queues, and the observer-stage handler that fans a successful
//! mutation out to every currently-registered subscriber.

use vstd::prelude::*;

use crate::assoc::{
    assoc_map, distinct_names, lemma_assoc_at, lemma_assoc_dom, lemma_assoc_push,
    lemma_assoc_remove, lemma_distinct_push,
};
use crate::command::{param_of, CommandContext};
use crate::error::CommandError;
use crate::json::{json_clone, json_view, JsonValue, JsonView};
use crate::resource::{
    field_str, get_namespace, get_str_field, so_namespace, so_shape_check, so_shape_ok,
};
use crate::text::str_eq_str;

verus! {

/// A message a client sends over a live connection.
#[derive(Debug)]
pub enum ClientMessage {
    Subscribe { resource: String },
    Rpc { method: String, payload: JsonValue },
}

/// A message pushed to a live subscriber.
#[derive(Debug)]
pub enum ServerMessage {
    /// A mutation notification: resource type, namespace, action verb, and
    /// the committed object.
    Event { resource: String, namespace: Option<String>, action: String, object: JsonValue },
    Pong,
    /// The greeting sent when a connection is established.
    Hello { client_id: String, message: String },
    /// A failure report pushed to the client.
    Failure { message: String },
}

/// The mathematical form of a server message.
pub enum ServerMessageView {
    Event { resource: Seq<char>, namespace: Option<Seq<char>>, action: Seq<char>, object: JsonView },
    Pong,
    Hello { client_id: Seq<char>, message: Seq<char> },
    Failure { message: Seq<char> },
}

/// The view of a server message.
pub open spec fn message_view(m: ServerMessage) -> ServerMessageView {
    match m {
        ServerMessage::Event { resource, namespace, action, object } => ServerMessageView::Event {
            resource: resource@,
            namespace: match namespace {
                Some(n) => Some(n@),
                None => None,
            },
            action: action@,
            object: json_view(object),
        },
        ServerMessage::Pong => ServerMessageView::Pong,
        ServerMessage::Hello { client_id, message } => ServerMessageView::Hello {
            client_id: client_id@,
            message: message@,
        },
        ServerMessage::Failure { message } => ServerMessageView::Failure { message: message@ },
    }
}

/// The views of a queue of messages, in order.
pub open spec fn queue_view(q: Seq<ServerMessage>) -> Seq<ServerMessageView>
    decreases q,
{
    if q.len() == 0 {
        Seq::empty()
    } else {
        seq![message_view(q.first())] + queue_view(q.drop_first())
    }
}

/// Appending one message adds its view at the end.
pub proof fn lemma_queue_view_snoc(q: Seq<ServerMessage>, m: ServerMessage)
    ensures
        queue_view(q.push(m)) =~= queue_view(q).push(message_view(m)),
    decreases q,
{
    lemma_queue_view_len(q);
    lemma_queue_view_len(q.push(m));
    if q.len() == 0 {
        assert(q.push(m).first() == m);
        assert(q.push(m).drop_first() =~= q);
    } else {
        assert(q.push(m).first() == q.first());
        assert(q.push(m).drop_first() =~= q.drop_first().push(m));
        lemma_queue_view_snoc(q.drop_first(), m);
    }
}

/// A queue's view has one entry per message.
pub proof fn lemma_queue_view_len(q: Seq<ServerMessage>)
    ensures
        queue_view(q).len() == q.len(),
    decreases q,
{
    if q.len() > 0 {
        lemma_queue_view_len(q.drop_first());
    }
}

/// A copy of a message, equal view for view.
pub fn clone_message(m: &ServerMessage) -> (r: ServerMessage)
    ensures
        message_view(r) == message_view(*m),
{
    match m {
        ServerMessage::Event { resource, namespace, action, object } => ServerMessage::Event {
            resource: resource.clone(),
            namespace: match namespace {
                Some(n) => Some(n.clone()),
                None => None,
            },
            action: action.clone(),
            object: json_clone(object),
        },
        ServerMessage::Pong => ServerMessage::Pong,
        ServerMessage::Hello { client_id, message } => ServerMessage::Hello {
            client_id: client_id.clone(),
            message: message.clone(),
        },
        ServerMessage::Failure { message } => ServerMessage::Failure { message: message.clone() },
    }
}

/// The abstract state of the bus: subscriber identifier to pending
/// outbound messages.
pub type BusContents = Map<Seq<char>, Seq<ServerMessageView>>;

/// The subscriber registry: an opaque subscriber identifier mapped to that
/// subscriber's outbound event queue. Membership is exactly the set of
/// currently-connected listeners; there is no persistence and no replay.
pub struct EventBus {
    subscribers: Vec<(String, Vec<ServerMessage>)>,
}

impl EventBus {
    #[verifier::type_invariant]
    spec fn wf(self) -> bool {
        distinct_names(self.subscribers@)
    }

    /// The registry as a map from subscriber identifier to pending
    /// outbound messages.
    pub closed spec fn contents(&self) -> Map<Seq<char>, Seq<ServerMessageView>> {
        assoc_map(self.subscribers@, |q: Vec<ServerMessage>| queue_view(q@))
    }

    /// An empty registry.
    pub fn new() -> (b: EventBus)
        ensures
            b.contents() == Map::<Seq<char>, Seq<ServerMessageView>>::empty(),
    {
        EventBus { subscribers: Vec::new() }
    }

    /// Registers a subscriber with an empty outbound queue; an existing
    /// queue under the same identifier is replaced.
    pub fn subscribe(&mut self, id: String)
        ensures
            final(self).contents() == old(self).contents().insert(
                id@,
                Seq::<ServerMessageView>::empty(),
            ),
    {
        proof {
            use_type_invariant(&*self);
        }
        let ghost prev = self.subscribers@;
        let mut subs: Vec<(String, Vec<ServerMessage>)> = Vec::new();
        core::mem::swap(&mut subs, &mut self.subscribers);
        proof {
            lemma_assoc_dom(subs@, |q: Vec<ServerMessage>| queue_view(q@), id@);
        }
        match find_subscriber_idx(&subs, id.as_str()) {
            None => {},
            Some(i) => {
                proof {
                    lemma_assoc_remove(subs@, |q: Vec<ServerMessage>| queue_view(q@), i as int);
                }
                let _gone = subs.remove(i);
            },
        }
        let ghost mid = subs@;
        let pair = (id, Vec::<ServerMessage>::new());
        proof {
            lemma_assoc_push(mid, |q: Vec<ServerMessage>| queue_view(q@), pair);
            assert forall|j: int| 0 <= j < mid.len() implies (#[trigger] mid[j].0@) != pair.0@ by {
                if exists|i: int| 0 <= i < prev.len() && (#[trigger] prev[i].0@) == pair.0@ {
                    let i = choose|i: int| 0 <= i < prev.len() && (#[trigger] prev[i].0@) == pair.0@;
                    assert(mid =~= prev.remove(i));
                }
            }
            lemma_distinct_push(mid, pair);
        }
        subs.push(pair);
        core::mem::swap(&mut subs, &mut self.subscribers);
        proof {
            assert(self.contents() =~~= old(self).contents().insert(
                pair.0@,
                Seq::<ServerMessageView>::empty(),
            ));
        }
    }

    /// Removes a subscriber; removing an unknown identifier changes
    /// nothing.
    pub fn unsubscribe(&mut self, id: &str)
        ensures
            final(self).contents() == old(self).contents().remove(id@),
    {
        proof {
            use_type_invariant(&*self);
        }
        let ghost prev = self.subscribers@;
        let mut subs: Vec<(String, Vec<ServerMessage>)> = Vec::new();
        core::mem::swap(&mut subs, &mut self.subscribers);
        proof {
            lemma_assoc_dom(subs@, |q: Vec<ServerMessage>| queue_view(q@), id@);
        }
        match find_subscriber_idx(&subs, id) {
            None => {
                proof {
                    assert(old(self).contents().remove(id@) =~= old(self).contents());
                }
            },
            Some(i) => {
                proof {
                    lemma_assoc_remove(subs@, |q: Vec<ServerMessage>| queue_view(q@), i as int);
                }
                let _gone = subs.remove(i);
            },
        }
        core::mem::swap(&mut subs, &mut self.subscribers);
    }

    /// Whether a subscriber is currently registered.
    pub fn has_subscriber(&self, id: &str) -> (r: bool)
        ensures
            r == self.contents().contains_key(id@),
    {
        proof {
            use_type_invariant(&*self);
            lemma_assoc_dom(self.subscribers@, |q: Vec<ServerMessage>| queue_view(q@), id@);
        }
        find_subscriber_idx(&self.subscribers, id).is_some()
    }

    /// Takes a subscriber's pending messages, leaving its queue empty;
    /// `None` for an unknown identifier.
    pub fn drain(&mut self, id: &str) -> (r: Option<Vec<ServerMessage>>)
        ensures
            old(self).contents().contains_key(id@) ==> r is Some && queue_view(r.unwrap()@) == old(
                self,
            ).contents()[id@] && final(self).contents() == old(self).contents().insert(
                id@,
                Seq::<ServerMessageView>::empty(),
            ),
            !old(self).contents().contains_key(id@) ==> r is None && final(self).contents() == old(
                self,
            ).contents(),
    {
        proof {
            use_type_invariant(&*self);
        }
        let ghost prev = self.subscribers@;
        let mut subs: Vec<(String, Vec<ServerMessage>)> = Vec::new();
        core::mem::swap(&mut subs, &mut self.subscribers);
        proof {
            lemma_assoc_dom(subs@, |q: Vec<ServerMessage>| queue_view(q@), id@);
        }
        let r = match find_subscriber_idx(&subs, id) {
            None => None,
            Some(i) => {
                proof {
                    lemma_assoc_at(subs@, |q: Vec<ServerMessage>| queue_view(q@), i as int);
                    lemma_assoc_remove(subs@, |q: Vec<ServerMessage>| queue_view(q@), i as int);
                }
                let pair = subs.remove(i);
                let ghost mid = subs@;
                let fresh = (pair.0, Vec::<ServerMessage>::new());
                proof {
                    lemma_assoc_push(mid, |q: Vec<ServerMessage>| queue_view(q@), fresh);
                    assert forall|j: int| 0 <= j < mid.len() implies (#[trigger] mid[j].0@)
                        != fresh.0@ by {
                        assert(mid =~= prev.remove(i as int));
                    }
                    lemma_distinct_push(mid, fresh);
                }
                subs.push(fresh);
                proof {
                    assert(assoc_map(subs@, |q: Vec<ServerMessage>| queue_view(q@)) =~= assoc_map(
                        prev,
                        |q: Vec<ServerMessage>| queue_view(q@),
                    ).insert(fresh.0@, Seq::<ServerMessageView>::empty()));
                }
                Some(pair.1)
            },
        };
        core::mem::swap(&mut subs, &mut self.subscribers);
        r
    }

    /// Pushes one message to every registered subscriber's queue: the
    /// membership does not change, and each queue grows by exactly this
    /// message, at the end.
    pub fn publish(&mut self, m: &ServerMessage)
        ensures
            final(self).contents().dom() == old(self).contents().dom(),
            forall|id: Seq<char>|
                old(self).contents().contains_key(id) ==> final(self).contents()[id] == old(
                    self,
                ).contents()[id].push(message_view(*m)),
    {
        proof {
            use_type_invariant(&*self);
        }
        let ghost prev = self.subscribers@;
        let mut subs: Vec<(String, Vec<ServerMessage>)> = Vec::new();
        core::mem::swap(&mut subs, &mut self.subscribers);
        let n = subs.len();
        let mut out: Vec<(String, Vec<ServerMessage>)> = Vec::new();
        let mut i: usize = 0;
        while i < n
            invariant
                i <= n,
                subs@.len() == n - i,
                prev.len() == n,
                distinct_names(prev),
                forall|j: int| 0 <= j < n - i ==> (#[trigger] subs@[j]) == prev[j + i],
                out@.len() == i,
                forall|j: int|
                    0 <= j < i ==> (#[trigger] out@[j].0@) == prev[j].0@ && queue_view(out@[j].1@)
                        == queue_view(prev[j].1@).push(message_view(*m)),
            decreases n - i,
        {
            let mut pair = subs.remove(0);
            let ghost q0 = pair.1@;
            pair.1.push(clone_message(m));
            proof {
                lemma_queue_view_snoc(q0, pair.1@[q0.len() as int]);
                assert(pair.1@ =~= q0.push(pair.1@[q0.len() as int]));
            }
            out.push(pair);
            i += 1;
        }
        proof {
            assert(distinct_names(out@));
            lemma_assoc_pointwise(prev, out@, |q: Vec<ServerMessage>| queue_view(q@), message_view(*m));
        }
        core::mem::swap(&mut out, &mut self.subscribers);
    }
}

/// Two entry lists of equal names, where each queue view of the second is
/// the first's with one message view appended, stand for maps with equal
/// domains and pointwise-appended values.
proof fn lemma_assoc_pointwise(
    s1: Seq<(String, Vec<ServerMessage>)>,
    s2: Seq<(String, Vec<ServerMessage>)>,
    f: spec_fn(Vec<ServerMessage>) -> Seq<ServerMessageView>,
    mv: ServerMessageView,
)
    requires
        s1.len() == s2.len(),
        forall|j: int|
            0 <= j < s1.len() ==> (#[trigger] s2[j].0@) == s1[j].0@ && f(s2[j].1) == f(
                s1[j].1,
            ).push(mv),
    ensures
        assoc_map(s2, f).dom() == assoc_map(s1, f).dom(),
        forall|k: Seq<char>|
            assoc_map(s1, f).contains_key(k) ==> assoc_map(s2, f)[k] == assoc_map(s1, f)[k].push(
                mv,
            ),
    decreases s1,
{
    if s1.len() == 0 {
        assert(assoc_map(s2, f).dom() =~= assoc_map(s1, f).dom());
    } else {
        assert(forall|j: int| 0 <= j < s1.len() - 1 ==> s1.drop_last()[j] == s1[j]);
        assert(forall|j: int| 0 <= j < s2.len() - 1 ==> s2.drop_last()[j] == s2[j]);
        assert(s1[s1.len() - 1] == s1.last());
        assert(s2[s2.len() - 1] == s2.last());
        lemma_assoc_pointwise(s1.drop_last(), s2.drop_last(), f, mv);
        assert(assoc_map(s2, f).dom() =~= assoc_map(s1, f).dom());
    }
}

/// The position of the subscriber with an identifier, if any.
fn find_subscriber_idx(s: &Vec<(String, Vec<ServerMessage>)>, id: &str) -> (r: Option<usize>)
    ensures
        match r {
            Some(i) => i < s@.len() && s@[i as int].0@ == id@,
            None => forall|j: int| 0 <= j < s@.len() ==> (#[trigger] s@[j].0@) != id@,
        },
{
    let n = s.len();
    let mut i: usize = 0;
    while i < n
        invariant
            i <= n == s@.len(),
            forall|j: int| 0 <= j < i ==> (#[trigger] s@[j].0@) != id@,
        decreases n - i,
    {
        if str_eq_str(s[i].0.as_str(), id) {
            return Some(i);
        }
        i += 1;
    }
    None
}

/// The event an observer builds for a mutation: resource type
/// `apiVersion/kind`, the object's namespace, the dispatched verb, and the
/// committed object verbatim.
pub open spec fn event_view_of(ctx: CommandContext, v: JsonView) -> ServerMessageView
    recommends
        so_shape_ok(v),
{
    ServerMessageView::Event {
        resource: field_str(v, "apiVersion"@).unwrap() + seq!['/'] + field_str(v, "kind"@).unwrap(),
        namespace: so_namespace(v),
        action: ctx.command_name@,
        object: v,
    }
}

/// The observer-stage handler for mutating verbs: rebuilds the event from
/// the `value` parameter and pushes it to every registered subscriber.
/// `InvalidInput` when the parameter is missing or is not a well-shaped
/// system object; its own result is always empty.
pub fn observer_execute(ctx: &CommandContext, bus: &mut EventBus) -> (r: Result<
    Option<JsonValue>,
    CommandError,
>)
    ensures
        ({
            let p = param_of(*ctx, "value"@);
            &&& !(p is Some && so_shape_ok(p.unwrap())) ==> r == Err::<
                Option<JsonValue>,
                CommandError,
            >(CommandError::InvalidInput) && final(bus).contents() == old(bus).contents()
            &&& p is Some && so_shape_ok(p.unwrap()) ==> {
                let ev = event_view_of(*ctx, p.unwrap());
                &&& r == Ok::<Option<JsonValue>, CommandError>(None)
                &&& final(bus).contents().dom() == old(bus).contents().dom()
                &&& forall|id: Seq<char>|
                    old(bus).contents().contains_key(id) ==> final(bus).contents()[id] == old(
                        bus,
                    ).contents()[id].push(ev)
            }
        }),
{
    let value = match ctx.get_param("value") {
        Ok(v) => v,
        Err(_) => {
            return Err(CommandError::InvalidInput);
        },
    };
    if !so_shape_check(&value) {
        return Err(CommandError::InvalidInput);
    }
    let api = match get_str_field(&value, "apiVersion") {
        Some(s) => s,
        None => {
            return Err(CommandError::InvalidInput);
        },
    };
    let kind = match get_str_field(&value, "kind") {
        Some(s) => s,
        None => {
            return Err(CommandError::InvalidInput);
        },
    };
    let namespace = get_namespace(&value);
    let mut resource = api;
    resource.append("/");
    resource.append(kind.as_str());
    proof {
        reveal_strlit("/");
        assert("/"@ =~= seq!['/']);
    }
    let event = ServerMessage::Event {
        resource,
        namespace,
        action: ctx.command_name.clone(),
        object: value,
    };
    bus.publish(&event);
    Ok(None)
}

} // verus!
