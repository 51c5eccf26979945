//! JSON values as the agent reads them, and their decoding from bytes.

use rust_lisp::model::FloatType;
use serde_json::{Number, Value};
use vstd::prelude::*;
use vstd::string::*;
use crate::text::{lossy_text, utf8_lossy};

verus! {

/// A JSON value.
///
/// A number is `PosInt` where it is a non-negative integer, `NegInt` where it
/// is a negative one, and `Float` otherwise; a `Float` holds the bit pattern
/// of the number at single precision, the precision of the rule language.
/// An object holds its members in order; where a key occurs twice, the later
/// member is the one that counts.
#[derive(Debug, PartialEq, Eq)]
pub enum Json {
    Null,
    Bool(bool),
    PosInt(u64),
    NegInt(i64),
    Float(u32),
    Text(String),
    Array(Vec<Json>),
    Object(Vec<(String, Json)>),
}

/// The mathematical value of a [`Json`].
pub ghost enum JsonValue {
    Null,
    Bool(bool),
    PosInt(u64),
    NegInt(i64),
    Float(u32),
    Text(Seq<char>),
    Array(Seq<JsonValue>),
    Object(Seq<(Seq<char>, JsonValue)>),
}

impl Json {
    /// The value that this tree of vectors and strings stands for.
    pub open spec fn model(&self) -> JsonValue
        decreases self,
    {
        match self {
            Json::Null => JsonValue::Null,
            Json::Bool(b) => JsonValue::Bool(*b),
            Json::PosInt(n) => JsonValue::PosInt(*n),
            Json::NegInt(n) => JsonValue::NegInt(*n),
            Json::Float(bits) => JsonValue::Float(*bits),
            Json::Text(s) => JsonValue::Text(s@),
            Json::Array(items) => JsonValue::Array(
                Seq::new(
                    items@.len(),
                    |i: int|
                        if 0 <= i < items@.len() {
                            items@[i].model()
                        } else {
                            JsonValue::Null
                        },
                ),
            ),
            Json::Object(members) => JsonValue::Object(
                Seq::new(
                    members@.len(),
                    |i: int|
                        if 0 <= i < members@.len() {
                            (members@[i].0@, members@[i].1.model())
                        } else {
                            (Seq::empty(), JsonValue::Null)
                        },
                ),
            ),
        }
    }
}

impl View for Json {
    type V = JsonValue;

    open spec fn view(&self) -> JsonValue {
        self.model()
    }
}

/// The value of the last member of `members` whose key is `key`.
pub open spec fn last_with_key<V>(members: Seq<(Seq<char>, V)>, key: Seq<char>) -> Option<V>
    decreases members.len(),
{
    if members.len() == 0 {
        None
    } else if members.last().0 == key {
        Some(members.last().1)
    } else {
        last_with_key(members.drop_last(), key)
    }
}

/// Whether `place` is the last place of `keys` that holds `key`.
pub open spec fn is_last_place(keys: Seq<Seq<char>>, key: Seq<char>, place: int) -> bool {
    &&& 0 <= place < keys.len()
    &&& keys[place] == key
    &&& forall|j: int| place < j < keys.len() ==> keys[j] != key
}

/// The keys of members.
pub open spec fn keys_of<V>(members: Seq<(Seq<char>, V)>) -> Seq<Seq<char>> {
    members.map_values(|member: (Seq<char>, V)| member.0)
}

/// The last member with a key is the one at the last place that holds the
/// key; and there is none where no place holds it.
pub proof fn lemma_last_with_key<V>(members: Seq<(Seq<char>, V)>, key: Seq<char>, place: int)
    ensures
        is_last_place(keys_of(members), key, place) ==> last_with_key(members, key) == Some(
            members[place].1,
        ),
        (forall|j: int| 0 <= j < members.len() ==> members[j].0 != key) ==> last_with_key(
            members,
            key,
        ) is None,
    decreases members.len(),
{
    if members.len() > 0 {
        let front = members.drop_last();
        lemma_last_with_key(front, key, place);
        if is_last_place(keys_of(members), key, place) {
            assert(keys_of(members)[place] == members[place].0);
            if place < members.len() - 1 {
                assert(keys_of(members)[members.len() - 1] == members.last().0);
                assert(is_last_place(keys_of(front), key, place)) by {
                    assert(keys_of(front)[place] == front[place].0);
                    assert forall|j: int| place < j < front.len() implies keys_of(front)[j]
                        != key by {
                        assert(keys_of(members)[j] == members[j].0);
                    }
                }
            }
        }
        if forall|j: int| 0 <= j < members.len() ==> members[j].0 != key {
            assert forall|j: int| 0 <= j < front.len() implies front[j].0 != key by {
                assert(front[j] == members[j]);
            }
        }
    }
}

/// The last place of `members` that holds `key`.
pub fn last_place_of<V>(members: &Vec<(String, V)>, key: &str) -> (place: Option<usize>)
    ensures
        match place {
            Some(found) => found < members@.len() && members@[found as int].0@ == key@ && forall|
                j: int,
            | found < j < members@.len() ==> members@[j].0@ != key@,
            None => forall|j: int| 0 <= j < members@.len() ==> members@[j].0@ != key@,
        },
{
    let wanted = String::from_str(key);
    let mut i: usize = members.len();
    while i > 0
        invariant
            i <= members@.len(),
            wanted@ == key@,
            forall|j: int| i <= j < members@.len() ==> members@[j].0@ != key@,
        decreases i,
    {
        i = i - 1;
        if members[i].0 == wanted {
            return Some(i);
        }
    }
    None
}

impl JsonValue {
    /// The member `key` of an object; `None` for a missing key and for a
    /// value that is no object.
    pub open spec fn member(self, key: Seq<char>) -> Option<JsonValue> {
        match self {
            JsonValue::Object(members) => last_with_key(members, key),
            _ => None,
        }
    }
}

/// Why a payload could not be decoded as JSON.
#[derive(Clone, Debug, PartialEq, Eq)]
pub struct JsonError {
    pub message: String,
}

/// `serde_json::Value`, a parsed document. Nothing is known of what one
/// holds.
#[verifier::external_type_specification]
#[verifier::external_body]
pub struct ExSerdeValue(Value);

/// `serde_json::Number`, a parsed number. Nothing is known of what one
/// holds.
#[verifier::external_type_specification]
#[verifier::external_body]
pub struct ExSerdeNumber(Number);

/// `serde_json::Error`, the refusal of a text. Nothing is known of what
/// one holds.
#[verifier::external_type_specification]
#[verifier::external_body]
pub struct ExSerdeError(serde_json::Error);

/// What `serde_json::from_str` makes of a text: the document, or `None`
/// where the text is no JSON document.
pub uninterp spec fn parsed_json(text: Seq<char>) -> Option<JsonValue>;

/// The document that a payload holds, invalid UTF-8 in it replaced.
pub open spec fn decoded_json(payload: Seq<u8>) -> Option<JsonValue> {
    parsed_json(lossy_text(payload))
}

/// Copies a `serde_json::Number` into a [`Json`]: one that `as_u64` gives
/// is a `PosInt`, one that only `as_i64` gives is a `NegInt`, and any other
/// is narrowed to single precision.
#[verifier::external_body]
fn json_from_number(number: &Number) -> Json {
    match (number.as_u64(), number.as_i64(), number.as_f64()) {
        (Some(u), _, _) => Json::PosInt(u),
        (_, Some(i), _) => Json::NegInt(i),
        (_, _, f) => Json::Float((f.unwrap() as FloatType).to_bits()),
    }
}

/// Copies a `serde_json::Value` into a [`Json`], variant by variant, the
/// members of an object in the order in which its map hands them out.
#[verifier::external_body]
fn json_from_serde(value: &Value) -> Json {
    match value {
        Value::Null => Json::Null,
        Value::Bool(b) => Json::Bool(*b),
        Value::Number(n) => json_from_number(n),
        Value::String(s) => Json::Text(s.clone()),
        Value::Array(a) => Json::Array(a.iter().map(json_from_serde).collect()),
        Value::Object(o) => Json::Object(
            o.iter().map(|(k, v)| (k.clone(), json_from_serde(v))).collect()),
    }
}

/// Calls `serde_json::from_str` and copies what it gives. The contract
/// names the outcome: the same text always gives the same document or the
/// same refusal.
#[verifier::external_body]
fn serde_parse(text: &str) -> (r: Result<Json, serde_json::Error>)
    ensures
        match r {
            Ok(json) => parsed_json(text@) == Some(json@),
            Err(_) => parsed_json(text@) is None,
        },
{
    match serde_json::from_str::<Value>(text) {
        Ok(value) => Ok(json_from_serde(&value)),
        Err(error) => Err(error),
    }
}

/// The message of a `serde_json::Error`, as its `Display` prints it.
#[verifier::external_body]
fn serde_error_text(error: &serde_json::Error) -> String {
    error.to_string()
}

impl Json {
    /// Decodes a payload. Invalid UTF-8 in it is replaced, not refused.
    pub fn parse(bytes: &[u8]) -> (r: Result<Json, JsonError>)
        ensures
            match r {
                Ok(json) => decoded_json(bytes@) == Some(json@),
                Err(_) => decoded_json(bytes@) is None,
            },
    {
        match serde_parse(utf8_lossy(bytes).as_str()) {
            Ok(json) => Ok(json),
            Err(error) => Err(JsonError { message: serde_error_text(&error) }),
        }
    }

    /// The member `key` of an object.
    pub fn get<'a>(&'a self, key: &str) -> (r: Option<&'a Json>)
        ensures
            match r {
                Some(found) => self@.member(key@) == Some(found@),
                None => self@.member(key@) is None,
            },
    {
        match self {
            Json::Object(members) => {
                let ghost all = self@->Object_0;
                match last_place_of(members, key) {
                    Some(place) => {
                        proof {
                            assert(all[place as int] == (
                                members@[place as int].0@,
                                members@[place as int].1@,
                            ));
                            assert forall|j: int| place < j < all.len() implies keys_of(all)[j]
                                != key@ by {
                                assert(all[j].0 == members@[j].0@);
                            }
                            lemma_last_with_key(all, key@, place as int);
                        }
                        Some(&members[place].1)
                    },
                    None => {
                        proof {
                            assert forall|j: int| 0 <= j < all.len() implies all[j].0 != key@ by {
                                assert(all[j].0 == members@[j].0@);
                            }
                            lemma_last_with_key(all, key@, 0);
                        }
                        None
                    },
                }
            },
            _ => None,
        }
    }
}

} // verus!
