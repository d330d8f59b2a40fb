use vstd::prelude::*;

verus! {

broadcast use vstd::std_specs::vec::group_vec_axioms, vstd::seq::group_seq_axioms;

/// A JSON document as a mathematical value: the model that every contract in
/// this crate speaks about. Object entries keep their insertion order, and a
/// number is kept as its JSON text so that no information is lost.
#[verifier::ext_equal]
pub enum Json {
    Null,
    Bool(bool),
    Number(Seq<char>),
    Text(Seq<char>),
    Array(Seq<Json>),
    Object(Seq<(Seq<char>, Json)>),
}

/// The entry list of a modelled JSON object.
pub type JsonEntries = Seq<(Seq<char>, Json)>;

/// A JSON document as an executable value. Arrays and objects own their
/// children; an object is an ordered list of key/value entries.
#[derive(Debug, PartialEq)]
pub enum JsonValue {
    Null,
    Bool(bool),
    Number(String),
    Text(String),
    Array(Vec<JsonValue>),
    Object(Vec<(String, JsonValue)>),
}

/// The document that an executable value models.
pub open spec fn json_view(v: JsonValue) -> Json
    decreases v,
{
    match v {
        JsonValue::Null => Json::Null,
        JsonValue::Bool(b) => Json::Bool(b),
        JsonValue::Number(s) => Json::Number(s@),
        JsonValue::Text(s) => Json::Text(s@),
        JsonValue::Array(items) => Json::Array(
            Seq::new(items@.len(), |i: int|
                if 0 <= i < items@.len() {
                    proof {
                        assert(decreases_to!(v => v->Array_0));
                        assert(decreases_to!(items => items@));
                        assert(decreases_to!(items@ => items@[i]));
                    }
                    json_view(items@[i])
                } else {
                    Json::Null
                }),
        ),
        JsonValue::Object(entries) => Json::Object(
            Seq::new(entries@.len(), |i: int|
                if 0 <= i < entries@.len() {
                    proof {
                        assert(decreases_to!(v => v->Object_0));
                        assert(decreases_to!(entries => entries@));
                        assert(decreases_to!(entries@ => entries@[i]));
                        assert(decreases_to!(entries@[i] => entries@[i].1));
                    }
                    (entries@[i].0@, json_view(entries@[i].1))
                } else {
                    (Seq::empty(), Json::Null)
                }),
        ),
    }
}

impl View for JsonValue {
    type V = Json;

    open spec fn view(&self) -> Json {
        json_view(*self)
    }
}

/// The model of an executable entry list.
pub open spec fn entries_view(es: Seq<(String, JsonValue)>) -> JsonEntries {
    Seq::new(es.len(), |i: int| (es[i].0@, es[i].1@))
}

/// Whether some entry of `es` carries the key `k`.
pub open spec fn obj_has_key(es: JsonEntries, k: Seq<char>) -> bool {
    exists|i: int| 0 <= i < es.len() && es[i].0 == k
}

/// The index of the entry of `es` carrying the key `k` (meaningful when the
/// keys of `es` are unique and `k` is among them).
pub open spec fn obj_index_of(es: JsonEntries, k: Seq<char>) -> int {
    choose|i: int| 0 <= i < es.len() && es[i].0 == k
}

/// The value that `es` associates with the key `k` (meaningful when the keys
/// of `es` are unique and `k` is among them).
pub open spec fn obj_get(es: JsonEntries, k: Seq<char>) -> Json {
    es[obj_index_of(es, k)].1
}

/// No two entries of `es` carry the same key.
pub open spec fn unique_keys(es: JsonEntries) -> bool {
    forall|i: int, j: int| 0 <= i < j < es.len() ==> es[i].0 != es[j].0
}

/// A well-formed document: every object, at every depth, has unique keys.
pub open spec fn wf(v: Json) -> bool
    decreases v,
{
    match v {
        Json::Array(items) => forall|i: int| 0 <= i < items.len() ==> wf(#[trigger] items[i]),
        Json::Object(es) => unique_keys(es) && forall|i: int|
            0 <= i < es.len() ==> wf(#[trigger] es[i].1),
        _ => true,
    }
}

pub proof fn lemma_obj_get_unique(es: JsonEntries, i: int)
    requires
        unique_keys(es),
        0 <= i < es.len(),
    ensures
        obj_has_key(es, es[i].0),
        obj_index_of(es, es[i].0) == i,
        obj_get(es, es[i].0) == es[i].1,
{
    assert(obj_has_key(es, es[i].0));
    let j = obj_index_of(es, es[i].0);
    assert(0 <= j < es.len() && es[j].0 == es[i].0);
    if i < j {
        assert(es[i].0 != es[j].0);
    } else if j < i {
        assert(es[j].0 != es[i].0);
    }
}

/// Structural deep copy: the result models the very same document.
#[verifier::loop_isolation(false)]
pub fn clone_tree(v: &JsonValue) -> (r: JsonValue)
    ensures
        r@ == v@,
    decreases v,
{
    match v {
        JsonValue::Null => JsonValue::Null,
        JsonValue::Bool(b) => JsonValue::Bool(*b),
        JsonValue::Number(s) => JsonValue::Number(s.clone()),
        JsonValue::Text(s) => JsonValue::Text(s.clone()),
        JsonValue::Array(items) => {
            let mut out: Vec<JsonValue> = Vec::new();
            let mut i: usize = 0;
            while i < items.len()
                invariant
                    i <= items@.len(),
                    out@.len() == i,
                    forall|j: int| 0 <= j < i ==> out@[j]@ == items@[j]@,
                decreases items@.len() - i,
            {
                proof {
                    assert(decreases_to!(*v => (*v)->Array_0));
                    assert(decreases_to!(*items => items@));
                    assert(decreases_to!(items@ => items@[i as int]));
                }
                out.push(clone_tree(&items[i]));
                i = i + 1;
            }
            let r = JsonValue::Array(out);
            proof {
                assert(r@->Array_0 =~= v@->Array_0);
            }
            r
        },
        JsonValue::Object(entries) => {
            let mut out: Vec<(String, JsonValue)> = Vec::new();
            let mut i: usize = 0;
            while i < entries.len()
                invariant
                    i <= entries@.len(),
                    out@.len() == i,
                    forall|j: int| 0 <= j < i ==> out@[j].0@ == entries@[j].0@
                        && out@[j].1@ == entries@[j].1@,
                decreases entries@.len() - i,
            {
                proof {
                    assert(decreases_to!(*v => (*v)->Object_0));
                    assert(decreases_to!(*entries => entries@));
                    assert(decreases_to!(entries@ => entries@[i as int]));
                    assert(decreases_to!(entries@[i as int] => entries@[i as int].1));
                }
                let sub = clone_tree(&entries[i].1);
                out.push((entries[i].0.clone(), sub));
                i = i + 1;
            }
            let r = JsonValue::Object(out);
            proof {
                assert(r@->Object_0 =~= v@->Object_0);
            }
            r
        },
    }
}

/// Linear search of an entry list for a key.
#[verifier::loop_isolation(false)]
pub fn find_key(entries: &Vec<(String, JsonValue)>, k: &String) -> (r: Option<usize>)
    ensures
        match r {
            Some(p) => p < entries@.len() && entries@[p as int].0@ == k@,
            None => forall|i: int| 0 <= i < entries@.len() ==> entries@[i].0@ != k@,
        },
{
    let mut i: usize = 0;
    while i < entries.len()
        invariant
            i <= entries@.len(),
            forall|j: int| 0 <= j < i ==> entries@[j].0@ != k@,
        decreases entries@.len() - i,
    {
        if entries[i].0 == *k {
            return Some(i);
        }
        i = i + 1;
    }
    None
}

} // verus!
