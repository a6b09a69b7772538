//! The JSON-shaped values that resources are made of.
//!
//! `JsonValue` is the library's own JSON tree: numbers are 64-bit integers,
//! objects are ordered lists of key/value pairs. Its mathematical form is
//! `JsonView`, where strings are `Seq<char>` and objects `Seq` of pairs, so
//! that contracts can state structural equality directly.
//!
//! Encoding to and from bytes is done by serde_json behind trusted
//! wrappers: the byte form of a tree is named `pretty_json_of`, and what
//! the parser reads from bytes is named `spec_decode`. Parsing the pretty
//! bytes of a well-formed tree yields that tree back verbatim.

use vstd::prelude::*;

verus! {

/// A JSON value as the library stores and returns it. Object member order
/// is preserved verbatim; a well-formed object has no repeated keys.
#[derive(Debug, PartialEq, Eq)]
pub enum JsonValue {
    Null,
    Bool(bool),
    Int(i64),
    Str(String),
    Arr(Vec<JsonValue>),
    Obj(Vec<(String, JsonValue)>),
}

/// The mathematical form of a `JsonValue`.
pub enum JsonView {
    Null,
    Bool(bool),
    Int(int),
    Str(Seq<char>),
    Arr(Seq<JsonView>),
    Obj(Seq<(Seq<char>, JsonView)>),
}

/// The view of a `JsonValue`.
pub open spec fn json_view(v: JsonValue) -> JsonView
    decreases v,
{
    match v {
        JsonValue::Null => JsonView::Null,
        JsonValue::Bool(b) => JsonView::Bool(b),
        JsonValue::Int(i) => JsonView::Int(i as int),
        JsonValue::Str(s) => JsonView::Str(s@),
        JsonValue::Arr(a) => JsonView::Arr(arr_view(a@)),
        JsonValue::Obj(o) => JsonView::Obj(obj_view(o@)),
    }
}

/// The views of an array's elements, in order.
pub open spec fn arr_view(s: Seq<JsonValue>) -> Seq<JsonView>
    decreases s,
{
    if s.len() == 0 {
        Seq::empty()
    } else {
        seq![json_view(s.first())] + arr_view(s.drop_first())
    }
}

/// The views of an object's members, in order.
pub open spec fn obj_view(s: Seq<(String, JsonValue)>) -> Seq<(Seq<char>, JsonView)>
    decreases s,
{
    if s.len() == 0 {
        Seq::empty()
    } else {
        seq![(s.first().0@, json_view(s.first().1))] + obj_view(s.drop_first())
    }
}

/// A value and its view are the same kind of JSON node.
pub proof fn lemma_json_view_variants(v: JsonValue)
    ensures
        (v is Null) <==> (json_view(v) is Null),
        (v is Bool) <==> (json_view(v) is Bool),
        (v is Int) <==> (json_view(v) is Int),
        (v is Str) <==> (json_view(v) is Str),
        (v is Arr) <==> (json_view(v) is Arr),
        (v is Obj) <==> (json_view(v) is Obj),
{
    match v {
        JsonValue::Null => {},
        JsonValue::Bool(_) => {},
        JsonValue::Int(_) => {},
        JsonValue::Str(_) => {},
        JsonValue::Arr(_) => {},
        JsonValue::Obj(_) => {},
    }
}

impl View for JsonValue {
    type V = JsonView;

    open spec fn view(&self) -> JsonView {
        json_view(*self)
    }
}

pub broadcast proof fn lemma_arr_view_len(s: Seq<JsonValue>)
    ensures
        #[trigger] arr_view(s).len() == s.len(),
    decreases s,
{
    if s.len() > 0 {
        lemma_arr_view_len(s.drop_first());
    }
}

pub broadcast proof fn lemma_arr_view_index(s: Seq<JsonValue>, i: int)
    requires
        0 <= i < s.len(),
    ensures
        #[trigger] arr_view(s)[i] == json_view(s[i]),
    decreases s,
{
    lemma_arr_view_len(s);
    if i > 0 {
        lemma_arr_view_index(s.drop_first(), i - 1);
    }
}

pub broadcast proof fn lemma_obj_view_len(s: Seq<(String, JsonValue)>)
    ensures
        #[trigger] obj_view(s).len() == s.len(),
    decreases s,
{
    if s.len() > 0 {
        lemma_obj_view_len(s.drop_first());
    }
}

pub broadcast proof fn lemma_obj_view_index(s: Seq<(String, JsonValue)>, i: int)
    requires
        0 <= i < s.len(),
    ensures
        #[trigger] obj_view(s)[i] == (s[i].0@, json_view(s[i].1)),
    decreases s,
{
    lemma_obj_view_len(s);
    if i > 0 {
        lemma_obj_view_index(s.drop_first(), i - 1);
    }
}

/// No two members of this list share a name.
pub open spec fn obj_keys_distinct(entries: Seq<(Seq<char>, JsonView)>) -> bool {
    forall|i: int, j: int|
        0 <= i < j < entries.len() ==> (#[trigger] entries[i].0) != (#[trigger] entries[j].0)
}

/// A well-formed tree: no object repeats a key, at any depth. Every value
/// the decoder returns is well-formed, and a well-formed tree survives an
/// encode/decode round trip verbatim.
pub open spec fn wf_json(v: JsonView) -> bool
    decreases v,
{
    match v {
        JsonView::Null => true,
        JsonView::Bool(_) => true,
        JsonView::Int(_) => true,
        JsonView::Str(_) => true,
        JsonView::Arr(s) => wf_json_seq(s),
        JsonView::Obj(entries) => obj_keys_distinct(entries) && wf_json_entries(entries),
    }
}

/// Every element of the sequence is well-formed.
pub open spec fn wf_json_seq(s: Seq<JsonView>) -> bool
    decreases s,
{
    s.len() == 0 || (wf_json(s.first()) && wf_json_seq(s.drop_first()))
}

/// Every member value of the list is well-formed.
pub open spec fn wf_json_entries(entries: Seq<(Seq<char>, JsonView)>) -> bool
    decreases entries,
{
    entries.len() == 0 || (wf_json(entries.first().1) && wf_json_entries(entries.drop_first()))
}

/// `wf_json_seq` holds exactly when each element is well-formed.
pub proof fn lemma_wf_json_seq_iff(s: Seq<JsonView>)
    ensures
        wf_json_seq(s) <==> (forall|i: int| 0 <= i < s.len() ==> wf_json(#[trigger] s[i])),
    decreases s,
{
    if s.len() > 0 {
        lemma_wf_json_seq_iff(s.drop_first());
        assert(s[0] == s.first());
        assert(forall|i: int| 0 <= i < s.len() - 1 ==> (#[trigger] s.drop_first()[i]) == s[i + 1]);
        if forall|i: int| 0 <= i < s.len() ==> wf_json(#[trigger] s[i]) {
            assert forall|i: int| 0 <= i < s.drop_first().len() implies wf_json(
                #[trigger] s.drop_first()[i],
            ) by {
                assert(s.drop_first()[i] == s[i + 1]);
            }
        }
        if wf_json_seq(s) {
            assert forall|i: int| 0 <= i < s.len() implies wf_json(#[trigger] s[i]) by {
                if i > 0 {
                    assert(s.drop_first()[i - 1] == s[i]);
                }
            }
        }
    }
}

/// `wf_json_entries` holds exactly when each member value is well-formed.
pub proof fn lemma_wf_json_entries_iff(entries: Seq<(Seq<char>, JsonView)>)
    ensures
        wf_json_entries(entries) <==> (forall|i: int|
            0 <= i < entries.len() ==> wf_json(#[trigger] entries[i].1)),
    decreases entries,
{
    if entries.len() > 0 {
        lemma_wf_json_entries_iff(entries.drop_first());
        assert(entries[0] == entries.first());
        assert(forall|i: int|
            0 <= i < entries.len() - 1 ==> (#[trigger] entries.drop_first()[i]) == entries[i + 1]);
        if forall|i: int| 0 <= i < entries.len() ==> wf_json(#[trigger] entries[i].1) {
            assert forall|i: int| 0 <= i < entries.drop_first().len() implies wf_json(
                #[trigger] entries.drop_first()[i].1,
            ) by {
                assert(entries.drop_first()[i] == entries[i + 1]);
            }
        }
        if wf_json_entries(entries) {
            assert forall|i: int| 0 <= i < entries.len() implies wf_json(
                #[trigger] entries[i].1,
            ) by {
                if i > 0 {
                    assert(entries.drop_first()[i - 1] == entries[i]);
                }
            }
        }
    }
}

/// Whether an object has a member named `k`.
pub open spec fn obj_has_key(entries: Seq<(Seq<char>, JsonView)>, k: Seq<char>) -> bool {
    exists|i: int| 0 <= i < entries.len() && (#[trigger] entries[i].0) == k
}

/// The value of the first member named `k`.
pub open spec fn obj_value_of(entries: Seq<(Seq<char>, JsonView)>, k: Seq<char>) -> JsonView
    decreases entries,
{
    if entries.len() == 0 {
        JsonView::Null
    } else if entries.first().0 == k {
        entries.first().1
    } else {
        obj_value_of(entries.drop_first(), k)
    }
}

/// The first member named `k` of an object's member list, if any.
pub fn obj_get<'a>(entries: &'a Vec<(String, JsonValue)>, key: &str) -> (r: Option<
    &'a JsonValue,
>)
    ensures
        r is Some <==> obj_has_key(obj_view(entries@), key@),
        r is Some ==> json_view(*r->0) == obj_value_of(obj_view(entries@), key@),
{
    proof {
        lemma_obj_view_len(entries@);
    }
    let n = entries.len();
    let mut i: usize = 0;
    while i < n
        invariant
            i <= n == entries@.len(),
            forall|j: int| 0 <= j < i ==> (#[trigger] entries@[j].0)@ != key@,
            obj_view(entries@).len() == n,
        decreases n - i,
    {
        if crate::text::str_eq_str(entries[i].0.as_str(), key) {
            proof {
                lemma_obj_view_index(entries@, i as int);
                assert forall|j: int| 0 <= j < i implies (#[trigger] obj_view(entries@)[j].0)
                    != key@ by {
                    lemma_obj_view_index(entries@, j);
                }
                lemma_obj_value_first_match(obj_view(entries@), key@, i as int);
            }
            return Some(&entries[i].1);
        }
        proof {
            lemma_obj_view_index(entries@, i as int);
        }
        i += 1;
    }
    proof {
        assert forall|j: int| 0 <= j < obj_view(entries@).len() implies (#[trigger] obj_view(
            entries@,
        )[j].0) != key@ by {
            lemma_obj_view_index(entries@, j);
        }
    }
    None
}

/// If every member before `i` has another name and member `i` is named `k`,
/// then `obj_value_of` picks member `i`.
pub proof fn lemma_obj_value_first_match(
    entries: Seq<(Seq<char>, JsonView)>,
    k: Seq<char>,
    i: int,
)
    requires
        0 <= i < entries.len(),
        entries[i].0 == k,
        forall|j: int| 0 <= j < i ==> (#[trigger] entries[j].0) != k,
    ensures
        obj_has_key(entries, k),
        obj_value_of(entries, k) == entries[i].1,
    decreases i,
{
    if i > 0 {
        lemma_obj_value_first_match(entries.drop_first(), k, i - 1);
    }
}

/// A copy of the tree, equal member for member.
pub fn json_clone(v: &JsonValue) -> (r: JsonValue)
    ensures
        json_view(r) == json_view(*v),
    decreases *v,
{
    match v {
        JsonValue::Null => JsonValue::Null,
        JsonValue::Bool(b) => JsonValue::Bool(*b),
        JsonValue::Int(i) => JsonValue::Int(*i),
        JsonValue::Str(s) => JsonValue::Str(s.clone()),
        JsonValue::Arr(a) => {
            let n = a.len();
            let mut out: Vec<JsonValue> = Vec::new();
            let mut i: usize = 0;
            while i < n
                invariant
                    i <= n == a@.len(),
                    out@.len() == i,
                    arr_view(out@) =~= arr_view(a@.subrange(0, i as int)),
                    decreases_to!(*v => *a),
                decreases n - i,
            {
                let ghost prev = out@;
                proof {
                    assert(decreases_to!(*a => a@[i as int]));
                }
                let c = json_clone(&a[i]);
                out.push(c);
                proof {
                    lemma_arr_view_snoc(prev, c);
                    lemma_arr_view_snoc(a@.subrange(0, i as int), a@[i as int]);
                    assert(a@.subrange(0, i + 1 as int) =~= a@.subrange(0, i as int).push(
                        a@[i as int],
                    ));
                }
                i += 1;
            }
            proof {
                assert(a@.subrange(0, n as int) =~= a@);
            }
            JsonValue::Arr(out)
        },
        JsonValue::Obj(o) => {
            let n = o.len();
            let mut out: Vec<(String, JsonValue)> = Vec::new();
            let mut i: usize = 0;
            while i < n
                invariant
                    i <= n == o@.len(),
                    out@.len() == i,
                    obj_view(out@) =~= obj_view(o@.subrange(0, i as int)),
                    decreases_to!(*v => *o),
                decreases n - i,
            {
                let ghost prev = out@;
                let k = o[i].0.clone();
                proof {
                    assert(decreases_to!(*o => o@[i as int]));
                    assert(decreases_to!(o@[i as int] => o@[i as int].1));
                }
                let c = json_clone(&o[i].1);
                out.push((k, c));
                proof {
                    lemma_obj_view_snoc(prev, (k, c));
                    lemma_obj_view_snoc(o@.subrange(0, i as int), o@[i as int]);
                    assert(o@.subrange(0, i + 1 as int) =~= o@.subrange(0, i as int).push(
                        o@[i as int],
                    ));
                }
                i += 1;
            }
            proof {
                assert(o@.subrange(0, n as int) =~= o@);
            }
            JsonValue::Obj(out)
        },
    }
}


/// The container-nesting depth of a tree: scalars are at depth zero, and
/// each array or object adds one level around its deepest child.
pub open spec fn json_depth(v: JsonView) -> nat
    decreases v,
{
    match v {
        JsonView::Null => 0,
        JsonView::Bool(_) => 0,
        JsonView::Int(_) => 0,
        JsonView::Str(_) => 0,
        JsonView::Arr(s) => 1 + seq_depth(s),
        JsonView::Obj(entries) => 1 + entries_depth(entries),
    }
}

/// The depth of the deepest element of a sequence.
pub open spec fn seq_depth(s: Seq<JsonView>) -> nat
    decreases s,
{
    if s.len() == 0 {
        0
    } else if json_depth(s.first()) >= seq_depth(s.drop_first()) {
        json_depth(s.first())
    } else {
        seq_depth(s.drop_first())
    }
}

/// The depth of the deepest member value of an object.
pub open spec fn entries_depth(entries: Seq<(Seq<char>, JsonView)>) -> nat
    decreases entries,
{
    if entries.len() == 0 {
        0
    } else if json_depth(entries.first().1) >= entries_depth(entries.drop_first()) {
        json_depth(entries.first().1)
    } else {
        entries_depth(entries.drop_first())
    }
}

/// The deepest nesting the codec reads back: serde_json's parser keeps a
/// fixed recursion budget and refuses the 128th container descent, so
/// trees nested this deep or less round-trip and deeper ones do not.
pub open spec fn json_depth_limit() -> nat {
    127
}

/// Every member value sits at or under the object's member depth.
pub proof fn lemma_entries_depth_ge(entries: Seq<(Seq<char>, JsonView)>)
    ensures
        forall|i: int|
            0 <= i < entries.len() ==> json_depth(#[trigger] entries[i].1) <= entries_depth(
                entries,
            ),
    decreases entries,
{
    if entries.len() > 0 {
        lemma_entries_depth_ge(entries.drop_first());
        assert(entries[0] == entries.first());
        assert forall|i: int|
            0 <= i < entries.len() implies json_depth(#[trigger] entries[i].1) <= entries_depth(
            entries,
        ) by {
            if i > 0 {
                assert(entries.drop_first()[i - 1] == entries[i]);
            }
        }
    }
}

/// A bound on every member value bounds the object's member depth.
pub proof fn lemma_entries_depth_le(entries: Seq<(Seq<char>, JsonView)>, bound: nat)
    requires
        forall|i: int| 0 <= i < entries.len() ==> json_depth(#[trigger] entries[i].1) <= bound,
    ensures
        entries_depth(entries) <= bound,
    decreases entries,
{
    if entries.len() > 0 {
        assert(entries[0] == entries.first());
        assert(forall|i: int|
            0 <= i < entries.len() - 1 ==> (#[trigger] entries.drop_first()[i]) == entries[i + 1]);
        lemma_entries_depth_le(entries.drop_first(), bound);
    }
}

/// serde_json's value type, declared so the wrappers below can build and
/// read it.
#[verifier::external_type_specification]
#[verifier::external_body]
pub struct ExSerdeValue(serde_json::Value);

/// The byte form of a tree: what serde_json's pretty serializer produces
/// for it. It depends on the tree alone, so it is named, not spelled out.
pub uninterp spec fn pretty_json_of(v: JsonView) -> Seq<u8>;

/// Builds the serde_json form of a tree, member for member and in order.
/// Trusted: the result is opaque, so nothing is stated of it; it only
/// feeds `encode_json_pretty` below.
#[verifier::external_body]
fn to_serde(v: &JsonValue) -> serde_json::Value {
    match v {
        JsonValue::Null => serde_json::Value::Null,
        JsonValue::Bool(b) => serde_json::Value::Bool(*b),
        JsonValue::Int(i) => serde_json::Value::Number(serde_json::Number::from(*i)),
        JsonValue::Str(s) => serde_json::Value::String(s.clone()),
        JsonValue::Arr(a) => serde_json::Value::Array(a.iter().map(to_serde).collect()),
        JsonValue::Obj(o) => serde_json::Value::Object(
            o.iter().map(|(k, x)| (k.clone(), to_serde(x))).collect(),
        ),
    }
}

/// Reads a serde_json value back into a tree, member for member and in
/// order; a number that is not a 64-bit integer has no place in a tree,
/// so it yields `None`.
#[verifier::external_body]
fn from_serde(v: &serde_json::Value) -> Option<JsonValue> {
    match v {
        serde_json::Value::Null => Some(JsonValue::Null),
        serde_json::Value::Bool(b) => Some(JsonValue::Bool(*b)),
        serde_json::Value::Number(n) => n.as_i64().map(JsonValue::Int),
        serde_json::Value::String(s) => Some(JsonValue::Str(s.clone())),
        serde_json::Value::Array(a) => {
            a.iter().map(from_serde).collect::<Option<Vec<_>>>().map(JsonValue::Arr)
        },
        serde_json::Value::Object(m) => m.iter().map(
            |(k, x)| Some((k.clone(), from_serde(x)?)),
        ).collect::<Option<Vec<_>>>().map(JsonValue::Obj),
    }
}

/// The tree that serde_json's parser reads from the bytes, if any: a
/// function of the bytes alone, named rather than spelled out.
pub uninterp spec fn spec_decode(b: Seq<u8>) -> Option<JsonView>;

/// Whether the bytes parse as a tree.
pub open spec fn decodable(b: Seq<u8>) -> bool {
    spec_decode(b) is Some
}

/// The tree the bytes parse as.
pub open spec fn decoded_of(b: Seq<u8>) -> JsonView
    recommends
        decodable(b),
{
    spec_decode(b).unwrap()
}

/// Relies on `serde_json::to_vec_pretty` and `serde_json::from_slice`:
/// the bytes are a function of the tree alone, named `pretty_json_of`,
/// and are never empty (even `null` prints four bytes). Parsing them
/// yields the tree back verbatim when it repeats no key (member order is
/// kept on both sides) and its nesting stays inside the parser's fixed
/// recursion budget; a deeper tree is refused by the parser, so nothing
/// is claimed of it. Serializing a `serde_json::Value` cannot fail.
#[verifier::external_body]
pub fn encode_json_pretty(v: &JsonValue) -> (r: Vec<u8>)
    ensures
        r@ == pretty_json_of(v@),
        r@.len() > 0,
        wf_json(v@) && json_depth(v@) <= json_depth_limit() ==> spec_decode(r@) == Some(v@),
{
    serde_json::to_vec_pretty(&to_serde(v)).unwrap()
}

/// Relies on `serde_json::from_slice`: what the parser reads is a
/// function of the bytes alone, named `spec_decode`. A returned tree
/// never repeats a key (the parser keeps one entry per key), so the
/// result is always well-formed, and empty input never parses.
#[verifier::external_body]
pub fn decode_json(b: &[u8]) -> (r: Option<JsonValue>)
    ensures
        r is Some ==> wf_json(r.unwrap()@),
        b@.len() == 0 ==> r is None,
        match spec_decode(b@) {
            None => r is None,
            Some(v) => r is Some && r.unwrap()@ == v,
        },
{
    match serde_json::from_slice::<serde_json::Value>(b) {
        Ok(v) => from_serde(&v),
        Err(_) => None,
    }
}

/// Appending one element adds its view at the end.
pub proof fn lemma_arr_view_snoc(s: Seq<JsonValue>, x: JsonValue)
    ensures
        arr_view(s.push(x)) =~= arr_view(s).push(json_view(x)),
    decreases s,
{
    lemma_arr_view_len(s);
    lemma_arr_view_len(s.push(x));
    if s.len() == 0 {
        assert(s.push(x).first() == x);
        assert(s.push(x).drop_first() =~= s);
    } else {
        assert(s.push(x).first() == s.first());
        assert(s.push(x).drop_first() =~= s.drop_first().push(x));
        lemma_arr_view_snoc(s.drop_first(), x);
    }
}

/// Appending one member adds its view at the end.
pub proof fn lemma_obj_view_snoc(s: Seq<(String, JsonValue)>, x: (String, JsonValue))
    ensures
        obj_view(s.push(x)) =~= obj_view(s).push((x.0@, json_view(x.1))),
    decreases s,
{
    lemma_obj_view_len(s);
    lemma_obj_view_len(s.push(x));
    if s.len() == 0 {
        assert(s.push(x).first() == x);
        assert(s.push(x).drop_first() =~= s);
    } else {
        assert(s.push(x).first() == s.first());
        assert(s.push(x).drop_first() =~= s.drop_first().push(x));
        lemma_obj_view_snoc(s.drop_first(), x);
    }
}

} // verus!
