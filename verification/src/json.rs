//! JSON values: the tree that configuration is read from and that events and
//! projections are written as.

use vstd::prelude::*;

verus! {

/// A JSON number: an unsigned or a negative integer, or the bits of a float.
#[derive(Debug, Clone, Copy, PartialEq, Eq, Structural)]
pub enum JsonNumber {
    /// A non-negative integer.
    PosInt(u64),
    /// A negative integer.
    NegInt(i64),
    /// A number with a fraction or an exponent, as the bits of its IEEE 754
    /// double.
    Float(u64),
    /// A single-precision number, as its IEEE 754 bits.
    Float32(u32),
}

/// A JSON value. An object holds its members in the order of their keys.
#[derive(Debug)]
pub enum Json {
    Null,
    Bool(bool),
    Number(JsonNumber),
    String(String),
    Array(Vec<Json>),
    Object(Vec<(String, Json)>),
}

/// What a JSON value holds.
pub ghost enum JsonView {
    Null,
    Bool(bool),
    Number(JsonNumber),
    String(Seq<char>),
    Array(Seq<JsonView>),
    Object(Seq<(Seq<char>, JsonView)>),
}

/// What a JSON value holds.
pub open spec fn json_view(value: Json) -> JsonView
    decreases value,
{
    match value {
        Json::Null => JsonView::Null,
        Json::Bool(b) => JsonView::Bool(b),
        Json::Number(n) => JsonView::Number(n),
        Json::String(s) => JsonView::String(s@),
        Json::Array(items) => JsonView::Array(
            Seq::new(
                items@.len(),
                |i: int|
                    if 0 <= i < items@.len() {
                        json_view(items@[i])
                    } else {
                        JsonView::Null
                    },
            ),
        ),
        Json::Object(members) => JsonView::Object(
            Seq::new(
                members@.len(),
                |i: int|
                    if 0 <= i < members@.len() {
                        (members@[i].0@, json_view(members@[i].1))
                    } else {
                        (Seq::empty(), JsonView::Null)
                    },
            ),
        ),
    }
}

impl View for Json {
    type V = JsonView;

    open spec fn view(&self) -> JsonView {
        json_view(*self)
    }
}

/// The views of the members of an object.
pub open spec fn member_views(members: Seq<(String, Json)>) -> Seq<(Seq<char>, JsonView)> {
    Seq::new(members.len(), |i: int| (members[i].0@, members[i].1@))
}

/// The views of the items of an array.
pub open spec fn element_views(items: Seq<Json>) -> Seq<JsonView> {
    Seq::new(items.len(), |i: int| items[i]@)
}

/// The view of an object is the object of the views of its members, and the
/// view of an array the array of the views of its items.
pub proof fn lemma_json_view(value: &Json)
    ensures
        match value {
            Json::Object(members) => value@ == JsonView::Object(member_views(members@)),
            Json::Array(items) => value@ == JsonView::Array(element_views(items@)),
            _ => true,
        },
{
    match value {
        Json::Object(members) => {
            assert(value@->Object_0 =~= member_views(members@));
        },
        Json::Array(items) => {
            assert(value@->Array_0 =~= element_views(items@));
        },
        _ => {},
    }
}

/// Whether every number in a value is an integer.
pub open spec fn integral(value: JsonView) -> bool
    decreases value,
{
    match value {
        JsonView::Number(n) => n is PosInt || n is NegInt,
        JsonView::Array(items) => forall|i: int|
            0 <= i < items.len() ==> integral(#[trigger] items[i]),
        JsonView::Object(members) => forall|i: int|
            0 <= i < members.len() ==> integral((#[trigger] members[i]).1),
        _ => true,
    }
}

/// The JSON document that a byte string holds, if it holds one.
pub uninterp spec fn json_document(bytes: Seq<u8>) -> Option<JsonView>;

/// The compact JSON text of a value, as `serde_json` writes it.
pub uninterp spec fn json_text(value: JsonView) -> Seq<char>;

/// `serde_json::Value`, which is carried between the parser and the converter.
#[verifier::external_type_specification]
#[verifier::external_body]
pub struct ExSerdeValue(serde_json::Value);

/// `serde_json::Number`, which is carried between the parser and the converter.
#[verifier::external_type_specification]
#[verifier::external_body]
pub struct ExSerdeNumber(serde_json::Number);

/// Moves a number of `serde_json` into the library's own: an unsigned
/// integer, else a signed one, else the bits of the float.
#[verifier::external_body]
fn number_from_serde(n: &serde_json::Number) -> JsonNumber {
    if let Some(u) = n.as_u64() {
        JsonNumber::PosInt(u)
    } else if let Some(i) = n.as_i64() {
        JsonNumber::NegInt(i)
    } else {
        JsonNumber::Float(n.as_f64().map(|f| f.to_bits()).unwrap_or(0))
    }
}

/// Moves a value of `serde_json` into the library's own, variant by variant.
#[verifier::external_body]
fn json_from_serde(value: serde_json::Value) -> Json {
    match value {
        serde_json::Value::Null => Json::Null,
        serde_json::Value::Bool(b) => Json::Bool(b),
        serde_json::Value::Number(n) => Json::Number(number_from_serde(&n)),
        serde_json::Value::String(s) => Json::String(s),
        serde_json::Value::Array(a) => Json::Array(a.into_iter().map(json_from_serde).collect()),
        serde_json::Value::Object(m) => Json::Object(
            m.into_iter().map(|(k, v)| (k, json_from_serde(v))).collect(),
        ),
    }
}

/// Moves an integer of the library into `serde_json`'s own.
#[verifier::external_body]
fn number_to_serde(n: &JsonNumber) -> serde_json::Value
    requires
        n is PosInt || n is NegInt,
{
    match n {
        JsonNumber::PosInt(u) => serde_json::Value::from(*u),
        JsonNumber::NegInt(i) => serde_json::Value::from(*i),
        _ => serde_json::Value::Null,
    }
}

/// Moves a value of the library into `serde_json`'s own, variant by variant.
#[verifier::external_body]
fn json_to_serde(value: &Json) -> serde_json::Value
    requires
        integral(value@),
{
    match value {
        Json::Null => serde_json::Value::Null,
        Json::Bool(b) => serde_json::Value::Bool(*b),
        Json::Number(n) => number_to_serde(n),
        Json::String(s) => serde_json::Value::String(s.clone()),
        Json::Array(a) => serde_json::Value::Array(a.iter().map(json_to_serde).collect()),
        Json::Object(m) => serde_json::Value::Object(
            m.iter().map(|(k, v)| (k.clone(), json_to_serde(v))).collect(),
        ),
    }
}

/// Calls `serde_json::from_slice` for a value: the document that the bytes
/// hold, or the parser's message where they hold none.
#[verifier::external_body]
pub(crate) fn parse_json(bytes: &[u8]) -> (r: Result<Json, String>)
    ensures
        r is Ok <==> json_document(bytes@) is Some,
        r is Ok ==> json_document(bytes@) == Some(r.unwrap()@),
{
    match serde_json::from_slice::<serde_json::Value>(bytes) {
        Ok(value) => Ok(json_from_serde(value)),
        Err(e) => Err(e.to_string()),
    }
}

/// Calls `to_string` of a `serde_json` value: the compact JSON text.
#[verifier::external_body]
pub(crate) fn json_to_string(value: &Json) -> (text: String)
    requires
        integral(value@),
    ensures
        text@ == json_text(value@),
{
    json_to_serde(value).to_string()
}

impl Json {
    /// The members of an object.
    pub fn as_object(&self) -> (members: Option<&Vec<(String, Json)>>)
        ensures
            match self {
                Json::Object(m) => members == Some(m),
                _ => members is None,
            },
    {
        match self {
            Json::Object(m) => Some(m),
            _ => None,
        }
    }

    /// The items of an array.
    pub fn as_array(&self) -> (items: Option<&Vec<Json>>)
        ensures
            match self {
                Json::Array(a) => items == Some(a),
                _ => items is None,
            },
    {
        match self {
            Json::Array(a) => Some(a),
            _ => None,
        }
    }

    /// The text of a string.
    pub fn as_str(&self) -> (text: Option<&str>)
        ensures
            match self {
                Json::String(s) => text is Some && text.unwrap()@ == s@,
                _ => text is None,
            },
    {
        match self {
            Json::String(s) => Some(s.as_str()),
            _ => None,
        }
    }

    /// The boolean of a boolean.
    pub fn as_bool(&self) -> (b: Option<bool>)
        ensures
            match self {
                Json::Bool(x) => b == Some(*x),
                _ => b is None,
            },
    {
        match self {
            Json::Bool(x) => Some(*x),
            _ => None,
        }
    }

    /// The number of a non-negative integer.
    pub fn as_u64(&self) -> (n: Option<u64>)
        ensures
            match self {
                Json::Number(JsonNumber::PosInt(u)) => n == Some(*u),
                _ => n is None,
            },
    {
        match self {
            Json::Number(JsonNumber::PosInt(u)) => Some(*u),
            _ => None,
        }
    }

    /// The number of an integer that fits in 64 bits with a sign.
    pub fn as_i64(&self) -> (n: Option<i64>)
        ensures
            match self {
                Json::Number(JsonNumber::PosInt(u)) => n == if *u <= i64::MAX as u64 {
                    Some(*u as i64)
                } else {
                    None
                },
                Json::Number(JsonNumber::NegInt(i)) => n == Some(*i),
                _ => n is None,
            },
    {
        match self {
            Json::Number(JsonNumber::PosInt(u)) => if *u <= i64::MAX as u64 {
                Some(*u as i64)
            } else {
                None
            },
            Json::Number(JsonNumber::NegInt(i)) => Some(*i),
            _ => None,
        }
    }

    /// The member of an object with this key: the last, where there are
    /// more. `None` for a value that is no object.
    pub fn get(&self, key: &str) -> (value: Option<&Json>)
        ensures
            match self {
                Json::Object(m) => match crate::text::last_index_of(
                    crate::text::text_keys(m@),
                    key@,
                ) {
                    Some(i) => value == Some(&m@[i].1),
                    None => value is None,
                },
                _ => value is None,
            },
    {
        match self {
            Json::Object(m) => match crate::text::find_text_key(m, key) {
                Some(i) => Some(&m[i].1),
                None => None,
            },
            _ => None,
        }
    }
}

} // verus!
