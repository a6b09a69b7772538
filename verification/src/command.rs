//! The unit of work passed through the pipeline, and the stage tags that
//! order handlers within a dispatch.

use vstd::prelude::*;

use crate::error::CommandError;
use crate::json::{json_clone, json_view, JsonValue, JsonView};
use crate::text::str_eq_str;

verus! {

/// The first value listed under `name`, if any. Builders prepend, so the
/// first entry is the latest one set.
pub open spec fn lookup<V>(entries: Seq<(String, V)>, name: Seq<char>) -> Option<V>
    decreases entries,
{
    if entries.len() == 0 {
        None
    } else if entries.first().0@ == name {
        Some(entries.first().1)
    } else {
        lookup(entries.drop_first(), name)
    }
}

/// If every entry before `i` has another name and entry `i` is named
/// `name`, the lookup yields entry `i`.
pub proof fn lemma_lookup_first_match<V>(s: Seq<(String, V)>, name: Seq<char>, i: int)
    requires
        0 <= i < s.len(),
        s[i].0@ == name,
        forall|j: int| 0 <= j < i ==> (#[trigger] s[j].0@) != name,
    ensures
        lookup(s, name) == Some(s[i].1),
    decreases i,
{
    if i > 0 {
        lemma_lookup_first_match(s.drop_first(), name, i - 1);
    }
}

/// If no entry is named `name`, the lookup yields nothing.
pub proof fn lemma_lookup_none<V>(s: Seq<(String, V)>, name: Seq<char>)
    requires
        forall|j: int| 0 <= j < s.len() ==> (#[trigger] s[j].0@) != name,
    ensures
        lookup(s, name) is None,
    decreases s,
{
    if s.len() > 0 {
        lemma_lookup_none(s.drop_first(), name);
    }
}

/// The position of the first entry carrying a present name.
pub proof fn lookup_first_idx<V>(s: Seq<(String, V)>, name: Seq<char>) -> (i: int)
    requires
        lookup(s, name) is Some,
    ensures
        0 <= i < s.len(),
        s[i].0@ == name,
        lookup(s, name) == Some(s[i].1),
        forall|j: int| 0 <= j < i ==> (#[trigger] s[j].0@) != name,
    decreases s,
{
    assert(s.len() > 0);
    assert(s[0] == s.first());
    if s.first().0@ == name {
        0
    } else {
        let sub = s.drop_first();
        assert(forall|j: int| 0 <= j < sub.len() ==> (#[trigger] sub[j]) == s[j + 1]);
        let i_sub = lookup_first_idx(sub, name);
        assert forall|j: int| 0 <= j < i_sub + 1 implies (#[trigger] s[j].0@) != name by {
            if j > 0 {
                assert(sub[j - 1] == s[j]);
            }
        }
        i_sub + 1
    }
}

/// Replacing the first entry under a name decides that name and leaves
/// every other alone.
pub proof fn lemma_lookup_update<V>(s: Seq<(String, V)>, i: int, p: (String, V), n2: Seq<char>)
    requires
        0 <= i < s.len(),
        p.0@ == s[i].0@,
        forall|j: int| 0 <= j < i ==> (#[trigger] s[j].0@) != s[i].0@,
    ensures
        lookup(s.update(i, p), s[i].0@) == Some(p.1),
        n2 != s[i].0@ ==> lookup(s.update(i, p), n2) == lookup(s, n2),
{
    let upd = s.update(i, p);
    assert(forall|j: int| 0 <= j < s.len() && j != i ==> (#[trigger] upd[j]) == s[j]);
    assert(upd[i] == p);
    assert forall|j: int| 0 <= j < i implies (#[trigger] upd[j].0@) != s[i].0@ by {
        assert(upd[j] == s[j]);
    }
    lemma_lookup_first_match(upd, s[i].0@, i);
    if n2 != s[i].0@ {
        if lookup(s, n2) is Some {
            let j2 = lookup_first_idx(s, n2);
            assert(j2 != i);
            assert(upd[j2] == s[j2]);
            assert forall|j: int| 0 <= j < j2 implies (#[trigger] upd[j].0@) != n2 by {
                if j != i {
                    assert(upd[j] == s[j]);
                } else {
                    assert(upd[j].0@ == s[i].0@);
                }
            }
            lemma_lookup_first_match(upd, n2, j2);
        } else {
            if exists|j: int| 0 <= j < s.len() && (#[trigger] s[j].0@) == n2 {
                let j = choose|j: int| 0 <= j < s.len() && (#[trigger] s[j].0@) == n2;
                let fi = lookup_witness_first(s, n2, j);
                lemma_lookup_first_match(s, n2, fi);
                assert(false);
            }
            assert forall|j: int| 0 <= j < upd.len() implies (#[trigger] upd[j].0@) != n2 by {
                if j != i {
                    assert(upd[j] == s[j]);
                }
            }
            lemma_lookup_none(upd, n2);
            lemma_lookup_none(s, n2);
        }
    }
}

/// From any occurrence of a name, its first occurrence.
pub proof fn lookup_witness_first<V>(s: Seq<(String, V)>, name: Seq<char>, j: int) -> (i: int)
    requires
        0 <= j < s.len(),
        s[j].0@ == name,
    ensures
        0 <= i < s.len(),
        s[i].0@ == name,
        forall|a: int| 0 <= a < i ==> (#[trigger] s[a].0@) != name,
    decreases j,
{
    if exists|a: int| 0 <= a < j && (#[trigger] s[a].0@) == name {
        let a = choose|a: int| 0 <= a < j && (#[trigger] s[a].0@) == name;
        lookup_witness_first(s, name, a)
    } else {
        j
    }
}

/// Appending an entry decides its name when the name was absent, and
/// leaves every other name alone.
pub proof fn lemma_lookup_push<V>(s: Seq<(String, V)>, p: (String, V), n2: Seq<char>)
    ensures
        lookup(s, p.0@) is None ==> lookup(s.push(p), p.0@) == Some(p.1),
        n2 != p.0@ ==> lookup(s.push(p), n2) == lookup(s, n2),
    decreases s,
{
    let upd = s.push(p);
    assert(forall|j: int| 0 <= j < s.len() ==> (#[trigger] upd[j]) == s[j]);
    assert(upd[s.len() as int] == p);
    if lookup(s, p.0@) is None {
        assert forall|j: int| 0 <= j < s.len() implies (#[trigger] upd[j].0@) != p.0@ by {
            if upd[j].0@ == p.0@ {
                let fi = lookup_witness_first(s, p.0@, j);
                lemma_lookup_first_match(s, p.0@, fi);
            }
        }
        lemma_lookup_first_match(upd, p.0@, s.len() as int);
    }
    if n2 != p.0@ {
        if lookup(s, n2) is Some {
            let j2 = lookup_first_idx(s, n2);
            lemma_lookup_first_match(upd, n2, j2);
        } else {
            assert forall|j: int| 0 <= j < upd.len() implies (#[trigger] upd[j].0@) != n2 by {
                if j < s.len() {
                    if upd[j].0@ == n2 {
                        let fi = lookup_witness_first(s, n2, j);
                        lemma_lookup_first_match(s, n2, fi);
                    }
                }
            }
            lemma_lookup_none(upd, n2);
        }
    }
}

/// Prepending an entry decides that name and leaves every other alone.
pub proof fn lemma_lookup_prepend<V>(s: Seq<(String, V)>, p: (String, V), name: Seq<char>)
    ensures
        p.0@ == name ==> lookup(s.insert(0, p), name) == Some(p.1),
        p.0@ != name ==> lookup(s.insert(0, p), name) == lookup(s, name),
{
    assert(s.insert(0, p).first() == p);
    assert(s.insert(0, p).drop_first() =~= s);
}

/// The unit of work passed through the pipeline: a verb, its parameters
/// and metadata, a correlation identifier, and a cooperative cancellation
/// flag. It is created per invocation, read by the pipeline stages, and
/// discarded after dispatch returns.
pub struct CommandContext {
    /// The verb to dispatch.
    pub command_name: String,
    /// Named JSON arguments; the first entry under a name is its value.
    pub parameters: Vec<(String, JsonValue)>,
    /// Named string metadata such as `namespace`, `force` and `verbose`.
    pub metadata: Vec<(String, String)>,
    /// A correlation identifier, generated once per invocation.
    pub activity_id: String,
    /// Whether the caller has asked for the work to stop.
    pub cancelled: bool,
}

/// The view of the parameter named `name`, if present.
pub open spec fn param_of(ctx: CommandContext, name: Seq<char>) -> Option<JsonView> {
    match lookup(ctx.parameters@, name) {
        None => None,
        Some(v) => Some(json_view(v)),
    }
}

/// The view of the metadata entry named `name`, if present.
pub open spec fn meta_of(ctx: CommandContext, name: Seq<char>) -> Option<Seq<char>> {
    match lookup(ctx.metadata@, name) {
        None => None,
        Some(v) => Some(v@),
    }
}

impl CommandContext {
    /// An empty context for a verb.
    pub fn new(command_name: String, activity_id: String) -> (ctx: CommandContext)
        ensures
            ctx.command_name@ == command_name@,
            ctx.parameters@ =~= Seq::<(String, JsonValue)>::empty(),
            ctx.metadata@ =~= Seq::<(String, String)>::empty(),
            ctx.activity_id@ == activity_id@,
            !ctx.cancelled,
    {
        CommandContext {
            command_name,
            parameters: Vec::new(),
            metadata: Vec::new(),
            activity_id,
            cancelled: false,
        }
    }

    /// Sets a parameter, shadowing any earlier value under that name.
    pub fn set_param(&mut self, name: String, value: JsonValue)
        ensures
            param_of(*final(self), name@) == Some(json_view(value)),
            forall|n: Seq<char>|
                n != name@ ==> #[trigger] param_of(*final(self), n) == param_of(*old(self), n),
            final(self).metadata == old(self).metadata,
            final(self).command_name == old(self).command_name,
            final(self).activity_id == old(self).activity_id,
            final(self).cancelled == old(self).cancelled,
    {
        let ghost prev = self.parameters@;
        let ghost p = (name, value);
        self.parameters.insert(0, (name, value));
        proof {
            assert forall|n: Seq<char>| true implies #[trigger] lookup(self.parameters@, n) == (
                if p.0@ == n {
                    Some(p.1)
                } else {
                    lookup(prev, n)
                }
            ) by {
                lemma_lookup_prepend(prev, p, n);
            }
        }
    }

    /// Sets a metadata entry, shadowing any earlier value under that name.
    pub fn set_metadata(&mut self, name: String, value: String)
        ensures
            meta_of(*final(self), name@) == Some(value@),
            forall|n: Seq<char>|
                n != name@ ==> #[trigger] meta_of(*final(self), n) == meta_of(*old(self), n),
            final(self).parameters == old(self).parameters,
            final(self).command_name == old(self).command_name,
            final(self).activity_id == old(self).activity_id,
            final(self).cancelled == old(self).cancelled,
    {
        let ghost prev = self.metadata@;
        let ghost p = (name, value);
        self.metadata.insert(0, (name, value));
        proof {
            assert forall|n: Seq<char>| true implies #[trigger] lookup(self.metadata@, n) == (
                if p.0@ == n {
                    Some(p.1)
                } else {
                    lookup(prev, n)
                }
            ) by {
                lemma_lookup_prepend(prev, p, n);
            }
        }
    }

    /// The parameter named `name`, borrowed.
    pub fn param(&self, name: &str) -> (r: Option<&JsonValue>)
        ensures
            match param_of(*self, name@) {
                None => r is None,
                Some(v) => r is Some && json_view(*r.unwrap()) == v,
            },
    {
        let n = self.parameters.len();
        let mut i: usize = 0;
        while i < n
            invariant
                i <= n == self.parameters@.len(),
                forall|j: int| 0 <= j < i ==> (#[trigger] self.parameters@[j].0@) != name@,
            decreases n - i,
        {
            if str_eq_str(self.parameters[i].0.as_str(), name) {
                proof {
                    lemma_lookup_first_match(self.parameters@, name@, i as int);
                }
                return Some(&self.parameters[i].1);
            }
            i += 1;
        }
        proof {
            lemma_lookup_none(self.parameters@, name@);
        }
        None
    }

    /// The metadata entry named `name`, copied out.
    pub fn get_metadata(&self, name: &str) -> (r: Option<String>)
        ensures
            match meta_of(*self, name@) {
                None => r is None,
                Some(v) => r is Some && r.unwrap()@ == v,
            },
    {
        let n = self.metadata.len();
        let mut i: usize = 0;
        while i < n
            invariant
                i <= n == self.metadata@.len(),
                forall|j: int| 0 <= j < i ==> (#[trigger] self.metadata@[j].0@) != name@,
            decreases n - i,
        {
            if str_eq_str(self.metadata[i].0.as_str(), name) {
                proof {
                    lemma_lookup_first_match(self.metadata@, name@, i as int);
                }
                return Some(self.metadata[i].1.clone());
            }
            i += 1;
        }
        proof {
            lemma_lookup_none(self.metadata@, name@);
        }
        None
    }

    /// The parameter named `name` as a string: `InvalidInput` if it is
    /// missing or not a JSON string.
    pub fn get_string_param(&self, name: &str) -> (r: Result<String, CommandError>)
        ensures
            match param_of(*self, name@) {
                Some(JsonView::Str(s)) => r is Ok && r.unwrap()@ == s,
                Some(v) => !(v is Str) ==> r == Err::<String, CommandError>(
                    CommandError::InvalidInput,
                ),
                None => r == Err::<String, CommandError>(CommandError::InvalidInput),
            },
    {
        match self.param(name) {
            None => Err(CommandError::InvalidInput),
            Some(JsonValue::Str(s)) => Ok(s.clone()),
            Some(_) => Err(CommandError::InvalidInput),
        }
    }

    /// A copy of the parameter named `name`: `InvalidInput` if missing.
    pub fn get_param(&self, name: &str) -> (r: Result<JsonValue, CommandError>)
        ensures
            match param_of(*self, name@) {
                Some(v) => r is Ok && json_view(r.unwrap()) == v,
                None => r == Err::<JsonValue, CommandError>(CommandError::InvalidInput),
            },
    {
        match self.param(name) {
            None => Err(CommandError::InvalidInput),
            Some(v) => Ok(json_clone(v)),
        }
    }
}

/// The stage a handler runs in. Stages run in ascending priority:
/// mutators first, then validators, then internal handlers, then observers.
#[derive(Debug, Clone, Copy, PartialEq, Eq, Structural)]
pub enum CommandType {
    /// Changes the state of the system; runs first.
    Mutator,
    /// Checks invariants before the primary action runs.
    Validator,
    /// Performs the primary action; the first non-empty result of an
    /// internal handler becomes the dispatch's result.
    Internal,
    /// Observes the outcome; its own result is discarded.
    Observer,
}

impl CommandType {
    /// The numeric priority of the stage; lower runs first.
    pub fn priority(&self) -> (p: u8)
        ensures
            p == self.priority_spec(),
    {
        match self {
            CommandType::Mutator => 0,
            CommandType::Validator => 1,
            CommandType::Internal => 2,
            CommandType::Observer => 4,
        }
    }

    /// What `priority` returns for each stage.
    pub open spec fn priority_spec(self) -> u8 {
        match self {
            CommandType::Mutator => 0,
            CommandType::Validator => 1,
            CommandType::Internal => 2,
            CommandType::Observer => 4,
        }
    }

    /// The stage's name.
    pub fn as_str(&self) -> (s: &'static str)
        ensures
            self is Mutator ==> s@ == "mutator"@,
            self is Validator ==> s@ == "validator"@,
            self is Internal ==> s@ == "internal"@,
            self is Observer ==> s@ == "observer"@,
    {
        match self {
            CommandType::Mutator => "mutator",
            CommandType::Validator => "validator",
            CommandType::Internal => "internal",
            CommandType::Observer => "observer",
        }
    }
}

} // verus!
