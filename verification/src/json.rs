//! JSON values as plain data: what `tailscale status --json` reports, and what
//! the events of this program carry.

use vstd::prelude::*;

use crate::text;

verus! {

/// A JSON value. The entries of an object have an order; read from a text, it is
/// the one in which `serde_json` hands them out.
#[derive(Debug, PartialEq, Eq)]
pub enum Json {
    Null,
    Bool(bool),
    /// A number, by its text.
    Number(String),
    Text(String),
    Array(Vec<Json>),
    Object(Vec<(String, Json)>),
}

pub enum JsonModel {
    Null,
    Bool(bool),
    Number(Seq<char>),
    Text(Seq<char>),
    Array(Seq<JsonModel>),
    Object(Seq<(Seq<char>, JsonModel)>),
}

/// The model of a JSON value.
pub open spec fn model(v: Json) -> JsonModel
    decreases v,
{
    match v {
        Json::Null => JsonModel::Null,
        Json::Bool(b) => JsonModel::Bool(b),
        Json::Number(n) => JsonModel::Number(n@),
        Json::Text(t) => JsonModel::Text(t@),
        Json::Array(a) => JsonModel::Array(
            Seq::new(
                a@.len(),
                |i: int|
                    if 0 <= i < a@.len() {
                        model(a@[i])
                    } else {
                        JsonModel::Null
                    },
            ),
        ),
        Json::Object(o) => JsonModel::Object(
            Seq::new(
                o@.len(),
                |i: int|
                    if 0 <= i < o@.len() {
                        (o@[i].0@, model(o@[i].1))
                    } else {
                        (Seq::empty(), JsonModel::Null)
                    },
            ),
        ),
    }
}

impl View for Json {
    type V = JsonModel;

    open spec fn view(&self) -> JsonModel {
        model(*self)
    }
}

/// The value of the first entry under `key`.
pub open spec fn entry(entries: Seq<(Seq<char>, JsonModel)>, key: Seq<char>) -> Option<JsonModel>
    decreases entries.len(),
{
    if entries.len() == 0 {
        None
    } else if entries[0].0 == key {
        Some(entries[0].1)
    } else {
        entry(entries.drop_first(), key)
    }
}

/// The value under `key`, where `v` is an object that has one.
pub open spec fn field(v: JsonModel, key: Seq<char>) -> Option<JsonModel> {
    match v {
        JsonModel::Object(entries) => entry(entries, key),
        _ => None,
    }
}

/// The text under `key`, where there is one.
pub open spec fn text_field(v: JsonModel, key: Seq<char>) -> Option<Seq<char>> {
    match field(v, key) {
        Some(JsonModel::Text(t)) => Some(t),
        _ => None,
    }
}

/// The truth value under `key`, where there is one.
pub open spec fn bool_field(v: JsonModel, key: Seq<char>) -> Option<bool> {
    match field(v, key) {
        Some(JsonModel::Bool(b)) => Some(b),
        _ => None,
    }
}

impl Json {
    /// The value under `key`, where this is an object that has one.
    pub fn get<'a>(&'a self, key: &str) -> (r: Option<&'a Json>)
        ensures
            r is Some == field(self@, key@) is Some,
            r matches Some(v) ==> Some(v@) == field(self@, key@),
    {
        match self {
            Json::Object(v) => {
                let ghost all = self@->Object_0;
                let mut i: usize = 0;
                assert(all.skip(0) =~= all);
                while i < v.len()
                    invariant
                        i <= v@.len(),
                        *self == Json::Object(*v),
                        all == self@->Object_0,
                        all.len() == v@.len(),
                        field(self@, key@) == entry(all.skip(i as int), key@),
                    decreases v@.len() - i,
                {
                    assert(all[i as int] == (v@[i as int].0@, v@[i as int].1@));
                    if text::same(v[i].0.as_str(), key) {
                        return Some(&v[i].1);
                    }
                    assert(all.skip(i as int).drop_first() =~= all.skip(i + 1));
                    i += 1;
                }
                None
            },
            _ => None,
        }
    }

    pub fn as_str<'a>(&'a self) -> (r: Option<&'a str>)
        ensures
            text::opt_str_view(r) == (match self@ {
                JsonModel::Text(t) => Some(t),
                _ => None,
            }),
    {
        match self {
            Json::Text(t) => Some(t.as_str()),
            _ => None,
        }
    }

    pub fn as_bool(&self) -> (r: Option<bool>)
        ensures
            r == (match self@ {
                JsonModel::Bool(b) => Some(b),
                _ => None,
            }),
    {
        match self {
            Json::Bool(b) => Some(*b),
            _ => None,
        }
    }

    /// The text under `key`, where there is one.
    pub fn get_str<'a>(&'a self, key: &str) -> (r: Option<&'a str>)
        ensures
            text::opt_str_view(r) == text_field(self@, key@),
    {
        match self.get(key) {
            Some(v) => v.as_str(),
            None => None,
        }
    }

    /// The truth value under `key`, where there is one.
    pub fn get_bool(&self, key: &str) -> (r: Option<bool>)
        ensures
            r == bool_field(self@, key@),
    {
        match self.get(key) {
            Some(v) => v.as_bool(),
            None => None,
        }
    }
}

/// `serde_json`'s own value, which only passes through.
#[verifier::external_type_specification]
#[verifier::external_body]
pub struct ExValue(serde_json::Value);

/// The plain value that a `serde_json` value holds.
pub uninterp spec fn contents(v: serde_json::Value) -> JsonModel;

/// The value that `serde_json` reads from a text, where the text is JSON.
pub uninterp spec fn parsed(s: Seq<char>) -> Option<JsonModel>;

/// Calls `serde_json::from_str`, which reads the whole text as one JSON value or
/// fails. Its result depends on the text alone.
#[verifier::external_body]
fn read_value(s: &str) -> (r: Option<serde_json::Value>)
    ensures
        r is Some == parsed(s@) is Some,
        r matches Some(v) ==> Some(contents(v)) == parsed(s@),
{
    serde_json::from_str(s).ok()
}

/// Moves a `serde_json::Value` into plain data, variant by variant. Arrays and
/// objects keep the order in which `serde_json` hands out their items.
#[verifier::external_body]
fn from_value(v: serde_json::Value) -> (r: Json)
    ensures
        r@ == contents(v),
{
    match v {
        serde_json::Value::Null => Json::Null,
        serde_json::Value::Bool(b) => Json::Bool(b),
        serde_json::Value::Number(n) => Json::Number(n.to_string()),
        serde_json::Value::String(t) => Json::Text(t),
        serde_json::Value::Array(a) => Json::Array(a.into_iter().map(from_value).collect()),
        serde_json::Value::Object(o) => {
            Json::Object(o.into_iter().map(|(k, x)| (k, from_value(x))).collect())
        },
    }
}

/// The model of an optional value.
pub open spec fn opt_json(o: Option<Json>) -> Option<JsonModel> {
    match o {
        Some(v) => Some(v@),
        None => None,
    }
}

/// The value that a text holds, where it is JSON.
pub fn parse(s: &str) -> (r: Option<Json>)
    ensures
        opt_json(r) == parsed(s@),
{
    match read_value(s) {
        Some(v) => Some(from_value(v)),
        None => None,
    }
}

// ---- What holds of every object ------------------------------------------

/// A key leads to its first entry in an object, and to nothing where it has none
/// there, or where there is no object.
pub proof fn a_key_leads_to_its_first_entry(
    entries: Seq<(Seq<char>, JsonModel)>,
    key: Seq<char>,
    i: int,
)
    requires
        0 <= i <= entries.len(),
        forall|j: int| 0 <= j < i ==> (#[trigger] entries[j]).0 != key,
        i < entries.len() ==> entries[i].0 == key,
    ensures
        field(JsonModel::Object(entries), key) == (if i < entries.len() {
            Some(entries[i].1)
        } else {
            None
        }),
    decreases i,
{
    if i > 0 {
        let rest = entries.drop_first();
        assert(entries[0].0 != key);
        assert forall|j: int| 0 <= j < i - 1 implies (#[trigger] rest[j]).0 != key by {
            assert(rest[j] == entries[j + 1]);
        }
        if i < entries.len() {
            assert(rest[i - 1] == entries[i]);
        }
        a_key_leads_to_its_first_entry(rest, key, i - 1);
    }
}

/// A field is read as text only where it is text, and as a flag only where it is
/// one.
pub proof fn a_field_is_read_as_what_it_is(v: JsonModel, key: Seq<char>, t: Seq<char>, b: bool)
    ensures
        text_field(v, key) == Some(t) <==> field(v, key) == Some(JsonModel::Text(t)),
        bool_field(v, key) == Some(b) <==> field(v, key) == Some(JsonModel::Bool(b)),
        !(v is Object) ==> field(v, key) is None,
{
}

/// The model of a value tells each of its parts as it is, in its order.
pub proof fn a_value_is_told_part_by_part(
    t: String,
    b: bool,
    a: Vec<Json>,
    o: Vec<(String, Json)>,
    i: int,
)
    ensures
        Json::Null@ is Null,
        Json::Bool(b)@ == JsonModel::Bool(b),
        Json::Text(t)@ == JsonModel::Text(t@),
        Json::Number(t)@ == JsonModel::Number(t@),
        Json::Array(a)@ is Array && Json::Array(a)@->Array_0.len() == a@.len(),
        0 <= i < a@.len() ==> Json::Array(a)@->Array_0[i] == a@[i]@,
        Json::Object(o)@ is Object && Json::Object(o)@->Object_0.len() == o@.len(),
        0 <= i < o@.len() ==> Json::Object(o)@->Object_0[i] == (o@[i].0@, o@[i].1@),
{
    reveal_with_fuel(model, 2);
}

} // verus!
