//! A JSON value tree owned by this library, with a mathematical view, and the
//! trusted boundary that parses request text into it.
//!
//! Parsing JSON text is delegated to serde_json; everything that reads the
//! parsed tree is verified code over `Json` and its view `JsonV`.

use vstd::prelude::*;

verus! {

broadcast use vstd::seq::axiom_seq_index_decreases, vstd::std_specs::vec::group_vec_axioms;

/// A JSON document as this library holds it. Numbers are kept as `i64`:
/// every position this engine works with is an integer, and a number that
/// does not fit is treated like an ill-typed field by the readers.
pub enum Json {
    Null,
    Bool(bool),
    Int(i64),
    Str(String),
    Arr(Vec<Json>),
    Obj(Vec<(String, Json)>),
}

/// The mathematical shape of a JSON document.
pub enum JsonV {
    Null,
    Bool(bool),
    Int(int),
    Str(Seq<char>),
    Arr(Seq<JsonV>),
    Obj(Seq<(Seq<char>, JsonV)>),
}

/// The view of an object's field list.
pub open spec fn fields_view(fields: Seq<(String, Json)>) -> Seq<(Seq<char>, JsonV)>
    decreases fields,
{
    Seq::new(
        fields.len(),
        |i: int|
            if 0 <= i < fields.len() {
                (fields[i].0@, fields[i].1.view())
            } else {
                (Seq::<char>::empty(), JsonV::Null)
            },
    )
}

impl View for Json {
    type V = JsonV;

    open spec fn view(&self) -> JsonV
        decreases self,
    {
        match self {
            Json::Null => JsonV::Null,
            Json::Bool(b) => JsonV::Bool(*b),
            Json::Int(n) => JsonV::Int(*n as int),
            Json::Str(s) => JsonV::Str(s@),
            Json::Arr(v) => JsonV::Arr(
                Seq::new(
                    v@.len(),
                    |i: int|
                        if 0 <= i < v@.len() {
                            v@[i].view()
                        } else {
                            JsonV::Null
                        },
                ),
            ),
            Json::Obj(fields) => JsonV::Obj(fields_view(fields@)),
        }
    }
}

/// The value of the first field named `key`, if any.
pub open spec fn obj_get(fields: Seq<(Seq<char>, JsonV)>, key: Seq<char>) -> Option<JsonV>
    decreases fields.len(),
{
    if fields.len() == 0 {
        None
    } else if fields[0].0 == key {
        Some(fields[0].1)
    } else {
        obj_get(fields.subrange(1, fields.len() as int), key)
    }
}

/// When a field is found, its value is one of the list's elements; this is
/// what lets a reader of a nested document recurse into the value.
pub proof fn lemma_obj_get_element(fields: Seq<(Seq<char>, JsonV)>, key: Seq<char>)
    ensures
        (match obj_get(fields, key) {
            Some(v) => exists|i: int| 0 <= i < fields.len() && #[trigger] fields[i].1 == v,
            None => true,
        }),
    decreases fields.len(),
{
    if fields.len() > 0 && !(fields[0].0 == key) {
        let rest = fields.subrange(1, fields.len() as int);
        lemma_obj_get_element(rest, key);
        match obj_get(fields, key) {
            Some(v) => {
                let i = choose|i: int| 0 <= i < rest.len() && #[trigger] rest[i].1 == v;
                assert(fields[i + 1].1 == v);
            },
            None => {},
        }
    }
}

/// Finds the first field named `key` in an object's field list.
pub fn obj_lookup<'a>(fields: &'a Vec<(String, Json)>, key: &String) -> (r: Option<&'a Json>)
    ensures
        (match r {
            Some(j) => obj_get(fields_view(fields@), key@) == Some(j@) && (exists|i: int|
                0 <= i < fields@.len() && *j == (#[trigger] fields@[i]).1),
            None => obj_get(fields_view(fields@), key@) is None,
        }),
{
    let ghost fv = fields_view(fields@);
    proof {
        assert(fv.subrange(0, fv.len() as int) =~= fv);
    }
    let mut i: usize = 0;
    while i < fields.len()
        invariant
            0 <= i <= fields.len(),
            fields.len() == fv.len(),
            fv == fields_view(fields@),
            obj_get(fv, key@) == obj_get(fv.subrange(i as int, fv.len() as int), key@),
        decreases fields.len() - i,
    {
        let ghost sub = fv.subrange(i as int, fv.len() as int);
        proof {
            assert(sub[0] == fv[i as int]);
            assert(fv[i as int] == (fields@[i as int].0@, fields@[i as int].1.view()));
        }
        if fields[i].0.eq(key) {
            proof {
                assert(obj_get(sub, key@) == Some(sub[0].1));
            }
            return Some(&fields[i].1);
        }
        proof {
            assert(sub.subrange(1, sub.len() as int) =~= fv.subrange(i + 1, fv.len() as int));
            assert(obj_get(sub, key@) == obj_get(sub.subrange(1, sub.len() as int), key@));
        }
        i = i + 1;
    }
    proof {
        assert(fv.subrange(i as int, fv.len() as int) =~= Seq::<(Seq<char>, JsonV)>::empty());
    }
    None
}

#[verifier::external_type_specification]
#[verifier::external_body]
pub struct ExJsonValue(serde_json::Value);

/// What parsing a JSON text yields: `None` when the text is not valid JSON,
/// and otherwise the document it denotes, with every number narrowed to an
/// integer as `Json` holds it. The exact relation between text and document
/// is serde_json's; this name stands for it.
pub uninterp spec fn json_of(s: Seq<char>) -> Option<JsonV>;

/// Relies on serde_json::Value conversion alone: maps each variant of the
/// parsed value onto the library's tree, field by field. A number with no
/// `i64` value (a float, or out of range) becomes `Null`, which the readers
/// treat like any other ill-typed field.
#[verifier::external_body]
fn json_from_value(v: serde_json::Value) -> Json {
    match v {
        serde_json::Value::Null => Json::Null,
        serde_json::Value::Bool(b) => Json::Bool(b),
        serde_json::Value::Number(n) => match n.as_i64() {
            Some(i) => Json::Int(i),
            None => Json::Null,
        },
        serde_json::Value::String(s) => Json::Str(s),
        serde_json::Value::Array(a) => Json::Arr(a.into_iter().map(json_from_value).collect()),
        serde_json::Value::Object(o) => Json::Obj(
            o.into_iter().map(|(k, x)| (k, json_from_value(x))).collect(),
        ),
    }
}

/// Relies on serde_json::from_str: whether a text parses, and what document
/// it denotes, is a function of the text alone.
#[verifier::external_body]
pub fn parse_json(s: &str) -> (r: Option<Json>)
    ensures
        (match r {
            Some(j) => json_of(s@) == Some(j@),
            None => json_of(s@) is None,
        }),
{
    match serde_json::from_str::<serde_json::Value>(s) {
        Ok(v) => Some(json_from_value(v)),
        Err(_) => None,
    }
}

} // verus!
