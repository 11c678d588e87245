//! The built-in processing step: a JSON document is decoded to plain values,
//! an object gets a `processed` flag, and the document is encoded again;
//! bytes that are no JSON have each byte raised by one, held at 255.
use vstd::prelude::*;
use serde_json::Value;

verus! {

#[verifier::external_type_specification]
#[verifier::external_body]
pub struct ExValue(serde_json::Value);

/// A JSON document held as plain values; a number is kept as its text.
#[derive(Debug, PartialEq)]
pub enum Json {
    Null,
    Bool(bool),
    Number(String),
    Str(String),
    Array(Vec<Json>),
    Object(Vec<(String, Json)>),
}

/// A JSON document as a mathematical value.
pub enum JsonModel {
    Null,
    Bool(bool),
    Number(Seq<char>),
    Str(Seq<char>),
    Array(Seq<JsonModel>),
    Object(Seq<(Seq<char>, JsonModel)>),
}

/// The mathematical value of a document.
pub open spec fn model(j: Json) -> JsonModel
    decreases j,
{
    match j {
        Json::Null => JsonModel::Null,
        Json::Bool(b) => JsonModel::Bool(b),
        Json::Number(n) => JsonModel::Number(n@),
        Json::Str(t) => JsonModel::Str(t@),
        Json::Array(a) => JsonModel::Array(
            Seq::new(
                a.len() as nat,
                |i: int|
                    if 0 <= i < a.len() {
                        model(a[i])
                    } else {
                        JsonModel::Null
                    },
            ),
        ),
        Json::Object(m) => JsonModel::Object(
            Seq::new(
                m.len() as nat,
                |i: int|
                    if 0 <= i < m.len() {
                        (m[i].0@, model(m[i].1))
                    } else {
                        (Seq::empty(), JsonModel::Null)
                    },
            ),
        ),
    }
}

/// The members of an object; no members for any other document.
pub open spec fn members(d: JsonModel) -> Seq<(Seq<char>, JsonModel)> {
    match d {
        JsonModel::Object(m) => m,
        _ => Seq::empty(),
    }
}

/// The document that the bytes hold, or `None` where they hold no JSON.
pub uninterp spec fn json_doc(b: Seq<u8>) -> Option<JsonModel>;

/// The compact encoding of a document.
pub uninterp spec fn json_text(v: JsonModel) -> Seq<u8>;

/// A byte raised by one, held at 255.
pub open spec fn raised(x: u8) -> u8 {
    if x == 255 {
        255
    } else {
        (x + 1) as u8
    }
}

/// Every byte raised by one, held at 255.
pub open spec fn raised_all(b: Seq<u8>) -> Seq<u8> {
    b.map_values(|x: u8| raised(x))
}

/// The key set on a processed JSON object.
pub const PROCESSED_KEY: &'static str = "processed";

/// Position `i` holds the first member named `key`.
pub open spec fn first_key(m: Seq<(Seq<char>, JsonModel)>, key: Seq<char>, i: int) -> bool {
    &&& 0 <= i < m.len()
    &&& m[i].0 == key
    &&& forall|j: int| 0 <= j < i ==> m[j].0 != key
}

/// The members `m` with `key` set to `v`: in place of the first member of
/// that name, or after all others.
pub open spec fn set_member(
    m: Seq<(Seq<char>, JsonModel)>,
    key: Seq<char>,
    v: JsonModel,
) -> Seq<(Seq<char>, JsonModel)> {
    if exists|i: int| first_key(m, key, i) {
        let i = choose|i: int| first_key(m, key, i);
        m.update(i, (key, v))
    } else {
        m.push((key, v))
    }
}

/// A document with the processed flag set: an object gets member
/// `processed` set to `true`; any other document stays as it is.
pub open spec fn flagged(d: JsonModel) -> JsonModel {
    match d {
        JsonModel::Object(m) => JsonModel::Object(
            set_member(m, PROCESSED_KEY@, JsonModel::Bool(true)),
        ),
        _ => d,
    }
}

/// Converts a serde_json document to plain values, one node for one node.
#[verifier::external_body]
fn json_from_value(v: Value) -> Json {
    match v {
        Value::Null => Json::Null,
        Value::Bool(b) => Json::Bool(b),
        Value::Number(n) => Json::Number(n.to_string()),
        Value::String(s) => Json::Str(s),
        Value::Array(a) => Json::Array(a.into_iter().map(json_from_value).collect()),
        Value::Object(m) => Json::Object(m.into_iter().map(|(k, x)| (k, json_from_value(x))).collect()),
    }
}

/// Converts plain values back to a serde_json document, one node for one
/// node; a number's text is read back by `serde_json::Number::from_str`.
#[verifier::external_body]
fn value_from_json(v: &Json) -> Value {
    match v {
        Json::Null => Value::Null,
        Json::Bool(b) => Value::Bool(*b),
        Json::Number(n) => n.parse::<serde_json::Number>().map(Value::Number).unwrap_or(Value::Null),
        Json::Str(s) => Value::String(s.clone()),
        Json::Array(a) => Value::Array(a.iter().map(value_from_json).collect()),
        Json::Object(m) => Value::Object(m.iter().map(|(k, x)| (k.clone(), value_from_json(x))).collect()),
    }
}

/// Relies on `serde_json::from_slice`: the document the bytes hold, or
/// `None` where they hold no JSON.
#[verifier::external_body]
fn decode_json(data: &[u8]) -> (r: Option<Json>)
    ensures
        match r {
            None => json_doc(data@) is None,
            Some(j) => json_doc(data@) == Some(model(j)),
        },
{
    serde_json::from_slice::<Value>(data).ok().map(json_from_value)
}

/// Relies on `serde_json::to_vec`, which fails only on map keys that are no
/// strings or on a failing `Serialize` impl, neither of which a `Value` has.
#[verifier::external_body]
fn encode_json(v: &Json) -> (r: Vec<u8>)
    ensures
        r@ == json_text(model(*v)),
{
    serde_json::to_vec(&value_from_json(v)).unwrap_or_default()
}

/// Sets the processed flag on a document: an object gets member
/// `processed` set to `true`; any other document is returned as it is.
pub fn flag_processed(v: Json) -> (r: Json)
    ensures
        model(r) == flagged(model(v)),
{
    match v {
        Json::Object(m) => {
            let mut m = m;
            let ghost before = m@;
            let ghost mm = members(model(Json::Object(m)));
            proof {
                assert(mm.len() == before.len());
                assert(forall|j: int| 0 <= j < mm.len() ==> #[trigger] mm[j] == (before[j].0@, model(before[j].1)));
            }
            let key = String::from_str(PROCESSED_KEY);
            let mut pos: Option<usize> = None;
            let mut i: usize = 0;
            while pos.is_none() && i < m.len()
                invariant
                    i <= m@.len(),
                    m@ == before,
                    mm.len() == before.len(),
                    forall|j: int| 0 <= j < mm.len() ==> #[trigger] mm[j] == (before[j].0@, model(before[j].1)),
                    key@ == PROCESSED_KEY@,
                    match pos {
                        None => forall|j: int| 0 <= j < i ==> mm[j].0 != PROCESSED_KEY@,
                        Some(k) => first_key(mm, PROCESSED_KEY@, k as int),
                    },
                decreases m@.len() - i,
            {
                if m[i].0 == key {
                    pos = Some(i);
                }
                i = i + 1;
            }
            match pos {
                Some(k) => {
                    m.set(k, (key, Json::Bool(true)));
                    proof {
                        assert(first_key(mm, PROCESSED_KEY@, k as int));
                        let c = choose|c: int| first_key(mm, PROCESSED_KEY@, c);
                        if c < k {
                            assert(mm[c].0 != PROCESSED_KEY@);
                        } else if k < c {
                            assert(mm[k as int].0 != PROCESSED_KEY@);
                        }
                        let nm = members(model(Json::Object(m)));
                        assert(nm.len() == m@.len());
                        assert(forall|j: int| 0 <= j < nm.len() ==> #[trigger] nm[j] == (m@[j].0@, model(m@[j].1)));
                        assert(model(Json::Bool(true)) == JsonModel::Bool(true));
                        assert(members(model(Json::Object(m))) =~= set_member(
                            mm,
                            PROCESSED_KEY@,
                            JsonModel::Bool(true),
                        ));
                    }
                },
                None => {
                    m.push((key, Json::Bool(true)));
                    proof {
                        assert(!exists|c: int| first_key(mm, PROCESSED_KEY@, c));
                        let nm = members(model(Json::Object(m)));
                        assert(nm.len() == m@.len());
                        assert(forall|j: int| 0 <= j < nm.len() ==> #[trigger] nm[j] == (m@[j].0@, model(m@[j].1)));
                        assert(model(Json::Bool(true)) == JsonModel::Bool(true));
                        assert(members(model(Json::Object(m))) =~= set_member(
                            mm,
                            PROCESSED_KEY@,
                            JsonModel::Bool(true),
                        ));
                    }
                },
            }
            Json::Object(m)
        },
        other => other,
    }
}

pub(crate) fn copy_bytes(data: &[u8]) -> (r: Vec<u8>)
    ensures
        r@ == data@,
{
    let mut out: Vec<u8> = Vec::with_capacity(data.len());
    let mut i: usize = 0;
    while i < data.len()
        invariant
            i <= data@.len(),
            out@ == data@.subrange(0, i as int),
        decreases data@.len() - i,
    {
        out.push(data[i]);
        proof {
            assert(data@.subrange(0, i + 1) == data@.subrange(0, i as int).push(data@[i as int]));
        }
        i = i + 1;
    }
    assert(data@.subrange(0, data@.len() as int) == data@);
    out
}

/// Raises every byte by one, held at 255.
pub fn raise_bytes(data: &[u8]) -> (r: Vec<u8>)
    ensures
        r@ == raised_all(data@),
{
    let mut out: Vec<u8> = Vec::with_capacity(data.len());
    let mut i: usize = 0;
    while i < data.len()
        invariant
            i <= data@.len(),
            out@ == raised_all(data@.subrange(0, i as int)),
        decreases data@.len() - i,
    {
        let x = data[i];
        let y: u8 = if x == 255 { 255 } else { x + 1 };
        out.push(y);
        proof {
            assert(data@.subrange(0, i + 1) == data@.subrange(0, i as int).push(x));
        }
        i = i + 1;
    }
    assert(data@.subrange(0, data@.len() as int) == data@);
    out
}

/// `out` is what processing makes of the payload `data`.
pub open spec fn processed_from(data: Seq<u8>, out: Seq<u8>) -> bool {
    match json_doc(data) {
        None => out == raised_all(data),
        Some(d) => out == json_text(flagged(d)),
    }
}

/// Processes one job payload. A JSON document comes back re-encoded, with
/// the processed flag set where it is an object; bytes that hold no JSON
/// come back raised byte by byte.
pub fn process_task(data: &[u8]) -> (r: Vec<u8>)
    ensures
        processed_from(data@, r@),
{
    match decode_json(data) {
        Some(doc) => {
            let f = flag_processed(doc);
            encode_json(&f)
        },
        None => raise_bytes(data),
    }
}

} // verus!
