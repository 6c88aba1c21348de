//! The JSON values that the usage reports are read from, as plain data.
//!
//! Numbers keep the form in which the document wrote them: a non-negative
//! integer, a negative integer, or a floating-point number held by its
//! IEEE-754 bits.
use vstd::prelude::*;
use vstd::string::StringSliceAdditionalSpecFns;
use vstd::utf8::encode_utf8;
use vstd::utf8::encode_utf8_decode_utf8;

verus! {

/// A JSON number.
#[derive(Debug, Clone, Copy, PartialEq, Eq, Structural)]
pub enum JsonNumber {
    /// An integer `>= 0`.
    PosInt(u64),
    /// An integer `< 0`.
    NegInt(i64),
    /// Any other number, by the bits of its `f64`.
    Float(u64),
}

/// A JSON value.
#[derive(Debug)]
pub enum Json {
    Null,
    Bool(bool),
    Number(JsonNumber),
    String(String),
    Array(Vec<Json>),
    /// The members of an object, each key once, in the order that the
    /// parser keeps them (a sorted map gives them sorted by key).
    Object(Vec<(String, Json)>),
}

/// The value of the first member of `entries` whose key is `key`.
pub open spec fn entry_lookup(entries: Seq<(String, Json)>, key: Seq<char>) -> Option<Json>
    decreases entries.len(),
{
    if entries.len() == 0 {
        None
    } else if entries[0].0@ == key {
        Some(entries[0].1)
    } else {
        entry_lookup(entries.drop_first(), key)
    }
}

/// `v[key]` where `v` is an object that has that member; `None` otherwise.
pub open spec fn json_get(v: Json, key: Seq<char>) -> Option<Json> {
    match v {
        Json::Object(m) => entry_lookup(m@, key),
        _ => None,
    }
}

/// `json_get` applied to an optional value.
pub open spec fn json_get_opt(v: Option<Json>, key: Seq<char>) -> Option<Json> {
    match v {
        Some(x) => json_get(x, key),
        None => None,
    }
}

/// The text of a string value.
pub open spec fn json_str(v: Option<Json>) -> Option<Seq<char>> {
    match v {
        Some(Json::String(s)) => Some(s@),
        _ => None,
    }
}

/// The number of a number value (what `as_f64` reads).
pub open spec fn json_number(v: Option<Json>) -> Option<JsonNumber> {
    match v {
        Some(Json::Number(n)) => Some(n),
        _ => None,
    }
}

/// The value of a boolean.
pub open spec fn json_bool(v: Option<Json>) -> Option<bool> {
    match v {
        Some(Json::Bool(b)) => Some(b),
        _ => None,
    }
}

/// A number that is an integer in the range of `i64` (`as_i64`).
pub open spec fn json_i64(v: Option<Json>) -> Option<i64> {
    match v {
        Some(Json::Number(JsonNumber::PosInt(u))) => if u <= i64::MAX {
            Some(u as i64)
        } else {
            None
        },
        Some(Json::Number(JsonNumber::NegInt(i))) => Some(i),
        _ => None,
    }
}

/// A number that is an integer in the range of `u64` (`as_u64`).
pub open spec fn json_u64(v: Option<Json>) -> Option<u64> {
    match v {
        Some(Json::Number(JsonNumber::PosInt(u))) => Some(u),
        Some(Json::Number(JsonNumber::NegInt(i))) => if i >= 0 {
            Some(i as u64)
        } else {
            None
        },
        _ => None,
    }
}

/// Whether the number equals `0.0` as an `f64` (both zeros of a float count).
pub open spec fn number_is_zero(n: JsonNumber) -> bool {
    match n {
        JsonNumber::PosInt(u) => u == 0,
        JsonNumber::NegInt(i) => i == 0,
        JsonNumber::Float(bits) => bits == 0 || bits == 0x8000_0000_0000_0000u64,
    }
}

/// An optional reference seen as an optional value.
pub open spec fn opt_ref<T>(o: Option<&T>) -> Option<T> {
    match o {
        Some(x) => Some(*x),
        None => None,
    }
}

/// Whether two strings hold the same characters.
pub fn str_eq(a: &str, b: &str) -> (r: bool)
    ensures
        r == (a@ == b@),
{
    let x = a.as_bytes();
    let y = b.as_bytes();
    proof {
        encode_utf8_decode_utf8(a@);
        encode_utf8_decode_utf8(b@);
    }
    if x.len() != y.len() {
        return false;
    }
    let mut i: usize = 0;
    while i < x.len()
        invariant
            x.len() == y.len(),
            i <= x.len(),
            x@ == a.spec_bytes(),
            y@ == b.spec_bytes(),
            forall|k: int| 0 <= k < i ==> x@[k] == y@[k],
        decreases x.len() - i,
    {
        if x[i] != y[i] {
            return false;
        }
        i = i + 1;
    }
    assert(x@ =~= y@);
    true
}

impl Json {
    /// The member `key` of an object; `None` for a missing member or a value
    /// that is not an object.
    pub fn get(&self, key: &str) -> (r: Option<&Json>)
        ensures
            opt_ref(r) == json_get(*self, key@),
    {
        match self {
            Json::Object(m) => {
                let mut i: usize = 0;
                assert(m@.skip(0) =~= m@);
                while i < m.len()
                    invariant
                        i <= m.len(),
                        json_get(*self, key@) == entry_lookup(m@, key@),
                        entry_lookup(m@, key@) == entry_lookup(m@.skip(i as int), key@),
                    decreases m.len() - i,
                {
                    assert(m@.skip(i as int)[0] == m@[i as int]);
                    if str_eq(m[i].0.as_str(), key) {
                        assert(m@[i as int].0@ == key@);
                        assert(entry_lookup(m@.skip(i as int), key@) == Some(m@[i as int].1));
                        return Some(&m[i].1);
                    }
                    assert(m@.skip(i as int).drop_first() =~= m@.skip(i + 1));
                    i = i + 1;
                }
                None
            },
            _ => None,
        }
    }

    /// The text of a string value (`as_str`).
    pub fn as_str(&self) -> (r: Option<&str>)
        ensures
            match r {
                Some(s) => json_str(Some(*self)) == Some(s@),
                None => json_str(Some(*self)) is None,
            },
    {
        match self {
            Json::String(s) => Some(s.as_str()),
            _ => None,
        }
    }

    /// The number of a number value.
    pub fn as_number(&self) -> (r: Option<JsonNumber>)
        ensures
            r == json_number(Some(*self)),
    {
        match self {
            Json::Number(n) => Some(*n),
            _ => None,
        }
    }

    /// The value of a boolean (`as_bool`).
    pub fn as_bool(&self) -> (r: Option<bool>)
        ensures
            r == json_bool(Some(*self)),
    {
        match self {
            Json::Bool(b) => Some(*b),
            _ => None,
        }
    }

    /// An integer in the range of `i64` (`as_i64`).
    pub fn as_i64(&self) -> (r: Option<i64>)
        ensures
            r == json_i64(Some(*self)),
    {
        match self {
            Json::Number(JsonNumber::PosInt(u)) => if *u <= 0x7fff_ffff_ffff_ffffu64 {
                Some(*u as i64)
            } else {
                None
            },
            Json::Number(JsonNumber::NegInt(i)) => Some(*i),
            _ => None,
        }
    }

    /// An integer in the range of `u64` (`as_u64`).
    pub fn as_u64(&self) -> (r: Option<u64>)
        ensures
            r == json_u64(Some(*self)),
    {
        match self {
            Json::Number(JsonNumber::PosInt(u)) => Some(*u),
            Json::Number(JsonNumber::NegInt(i)) => if *i >= 0 {
                Some(*i as u64)
            } else {
                None
            },
            _ => None,
        }
    }
}

/// `v.get(key)` on an optional value.
pub fn get_opt<'a>(v: Option<&'a Json>, key: &str) -> (r: Option<&'a Json>)
    ensures
        opt_ref(r) == json_get_opt(opt_ref(v), key@),
{
    match v {
        Some(x) => x.get(key),
        None => None,
    }
}

/// Whether the number is `0.0` as an `f64`.
pub fn is_zero(n: JsonNumber) -> (r: bool)
    ensures
        r == number_is_zero(n),
{
    match n {
        JsonNumber::PosInt(u) => u == 0,
        JsonNumber::NegInt(i) => i == 0,
        JsonNumber::Float(bits) => bits == 0 || bits == 0x8000_0000_0000_0000u64,
    }
}


/// `serde_json`'s parsed document, carried through opaquely.
#[verifier::external_type_specification]
#[verifier::external_body]
pub struct ExJsonValue(serde_json::Value);

/// `serde_json`'s number, carried through opaquely.
#[verifier::external_type_specification]
#[verifier::external_body]
pub struct ExJsonNumber(serde_json::Number);

/// The JSON document that `bytes` hold, as `serde_json::from_slice` reads it
/// into a `serde_json::Value` and `parse_json` turns that into a `Json`;
/// `None` where `serde_json` refuses the bytes.
pub uninterp spec fn json_document(bytes: Seq<u8>) -> Option<Json>;

/// Parses one JSON document with `serde_json::from_slice`. Trusted: the
/// result is named `json_document(bytes)`, a function of the bytes alone
/// (`serde_json` parses deterministically); nothing more is claimed of it.
#[verifier::external_body]
pub fn parse_json(bytes: &[u8]) -> (r: Option<Json>)
    ensures
        r == json_document(bytes@),
{
    match serde_json::from_slice::<serde_json::Value>(bytes) {
        Ok(v) => Some(json_of_value(&v)),
        Err(_) => None,
    }
}

/// Turns a `serde_json::Value` into a `Json`, variant for variant, members in
/// the order that its map keeps them. Trusted, with no contract: it is only
/// the conversion inside `parse_json`, whose result is named as a whole.
#[verifier::external_body]
fn json_of_value(v: &serde_json::Value) -> Json {
    match v {
        serde_json::Value::Null => Json::Null,
        serde_json::Value::Bool(b) => Json::Bool(*b),
        serde_json::Value::Number(n) => Json::Number(json_number_of(n)),
        serde_json::Value::String(s) => Json::String(s.clone()),
        serde_json::Value::Array(a) => Json::Array(a.iter().map(json_of_value).collect()),
        serde_json::Value::Object(m) => Json::Object(m.iter().map(|(k, x)| (k.clone(), json_of_value(x))).collect()),
    }
}

/// Turns a `serde_json::Number` into a `JsonNumber` by the form it was read
/// in: a `u64`, an `i64` below zero, or an `f64` by its bits. Trusted, with
/// no contract: it is only a part of the conversion inside `parse_json`.
#[verifier::external_body]
fn json_number_of(n: &serde_json::Number) -> JsonNumber {
    match (n.as_u64(), n.as_i64(), n.as_f64()) {
        (Some(u), _, _) => JsonNumber::PosInt(u),
        (None, Some(i), _) => JsonNumber::NegInt(i),
        (None, None, f) => JsonNumber::Float(f.unwrap_or_default().to_bits()),
    }
}

} // verus!
