//! The bridge between window events and the rule language.
//!
//! An event arrives as JSON and is converted into a value of the rule
//! language. Rules reach into it through two primitives, `load` and
//! `has-key`, which follow a dotted path through nested hash maps.
//!
//! The module prepares what the interpreter needs, its bindings and the
//! expressions of a rule, and says in what form the outcome of an
//! evaluation comes back. The interpreter itself is run by the caller.

use std::rc::Rc;
use vstd::prelude::*;
use vstd::string::*;
use crate::json::{
    keys_of, last_place_of, last_with_key, lemma_last_with_key, Json, JsonValue,
};

verus! {

/// A value of the rule language, as far as an event can hold one.
///
/// The empty list is the language's `nil`. A `Float` holds the bit pattern of
/// a single-precision number. A hash map holds its entries in the order in
/// which they were inserted; where a key occurs twice, the later entry is the
/// one that counts.
#[derive(Debug, PartialEq, Eq)]
pub enum LispValue {
    True,
    False,
    Int(i32),
    Float(u32),
    Text(String),
    List(Vec<LispValue>),
    HashMap(Vec<(String, LispValue)>),
}

/// The mathematical value of a [`LispValue`].
pub ghost enum LispData {
    True,
    False,
    Int(i32),
    Float(u32),
    Text(Seq<char>),
    List(Seq<LispData>),
    HashMap(Seq<(Seq<char>, LispData)>),
}

impl LispValue {
    /// The value that this tree of vectors and strings stands for.
    pub open spec fn model(&self) -> LispData
        decreases self,
    {
        match self {
            LispValue::True => LispData::True,
            LispValue::False => LispData::False,
            LispValue::Int(i) => LispData::Int(*i),
            LispValue::Float(bits) => LispData::Float(*bits),
            LispValue::Text(s) => LispData::Text(s@),
            LispValue::List(items) => LispData::List(
                Seq::new(
                    items@.len(),
                    |i: int|
                        if 0 <= i < items@.len() {
                            items@[i].model()
                        } else {
                            LispData::nil()
                        },
                ),
            ),
            LispValue::HashMap(entries) => LispData::HashMap(
                Seq::new(
                    entries@.len(),
                    |i: int|
                        if 0 <= i < entries@.len() {
                            (entries@[i].0@, entries@[i].1.model())
                        } else {
                            (Seq::empty(), LispData::nil())
                        },
                ),
            ),
        }
    }
}

impl View for LispValue {
    type V = LispData;

    open spec fn view(&self) -> LispData {
        self.model()
    }
}

impl LispData {
    /// The empty list.
    pub open spec fn nil() -> LispData {
        LispData::List(Seq::empty())
    }

    /// The entry `key` of a hash map; `None` for a missing key and for a
    /// value that is no hash map.
    pub open spec fn entry(self, key: Seq<char>) -> Option<LispData> {
        match self {
            LispData::HashMap(entries) => last_with_key(entries, key),
            _ => None,
        }
    }
}

/// The bit pattern of the single-precision number that an integer is cast
/// to.
pub uninterp spec fn float_bits(n: int) -> u32;

/// The number that stands for a JSON integer: the integer itself where the
/// integers of the rule language can hold it, else the floating-point
/// number that it is cast to.
pub open spec fn integer_to_lisp(n: int) -> LispData {
    if i32::MIN <= n <= i32::MAX {
        LispData::Int(n as i32)
    } else {
        LispData::Float(float_bits(n))
    }
}

/// The value of the rule language that stands for a JSON value: `null` is
/// the empty list, a boolean is `True` or `False`, a number is a number
/// as [`integer_to_lisp`] says, a string is itself, an array is the list of
/// its converted items in their order and an object is the hash map of its
/// converted members under their keys.
pub open spec fn json_to_lisp(json: JsonValue) -> LispData
    decreases json,
{
    match json {
        JsonValue::Null => LispData::nil(),
        JsonValue::Bool(b) => if b {
            LispData::True
        } else {
            LispData::False
        },
        JsonValue::PosInt(n) => integer_to_lisp(n as int),
        JsonValue::NegInt(n) => integer_to_lisp(n as int),
        JsonValue::Float(bits) => LispData::Float(bits),
        JsonValue::Text(s) => LispData::Text(s),
        JsonValue::Array(items) => LispData::List(
            Seq::new(
                items.len(),
                |i: int|
                    if 0 <= i < items.len() {
                        json_to_lisp(items[i])
                    } else {
                        LispData::nil()
                    },
            ),
        ),
        JsonValue::Object(members) => LispData::HashMap(
            Seq::new(
                members.len(),
                |i: int|
                    if 0 <= i < members.len() {
                        (members[i].0, json_to_lisp(members[i].1))
                    } else {
                        (Seq::empty(), LispData::nil())
                    },
            ),
        ),
    }
}

/// The cast of an integer to the interpreter's floating-point type, `as`,
/// which rounds to the nearest number that the type holds; the contract
/// names the bit pattern that comes out.
#[verifier::external_body]
fn cast_to_float(n: i128) -> (bits: u32)
    ensures
        bits == float_bits(n as int),
{
    (n as rust_lisp::model::FloatType).to_bits()
}

/// Converts a JSON value into the value of the rule language that stands for
/// it.
pub fn serde_lisp_value(value: &Json) -> (lisp: LispValue)
    ensures
        lisp@ == json_to_lisp(value@),
    decreases value,
{
    match value {
        Json::Null => {
            let lisp = LispValue::List(Vec::new());
            assert(lisp@->List_0 =~= Seq::empty());
            lisp
        },
        Json::Bool(b) => if *b {
            LispValue::True
        } else {
            LispValue::False
        },
        Json::PosInt(n) => if *n <= 0x7fff_ffff {
            LispValue::Int(*n as i32)
        } else {
            LispValue::Float(cast_to_float(*n as i128))
        },
        Json::NegInt(n) => if -0x8000_0000 <= *n && *n <= 0x7fff_ffff {
            LispValue::Int(*n as i32)
        } else {
            LispValue::Float(cast_to_float(*n as i128))
        },
        Json::Float(bits) => LispValue::Float(*bits),
        Json::Text(s) => LispValue::Text(s.clone()),
        Json::Array(items) => {
            let mut list: Vec<LispValue> = Vec::new();
            let mut i: usize = 0;
            while i < items.len()
                invariant
                    i <= items@.len(),
                    *value == Json::Array(*items),
                    list@.len() == i,
                    forall|j: int| 0 <= j < i ==> (#[trigger] list@[j])@ == json_to_lisp(items@[j]@),
                decreases items@.len() - i,
            {
                assert(decreases_to!(*value => value->Array_0));
                assert(decreases_to!(*items => items[i as int]));
                let item = serde_lisp_value(&items[i]);
                list.push(item);
                i = i + 1;
            }
            let lisp = LispValue::List(list);
            assert(lisp@->List_0 =~= json_to_lisp(value@)->List_0);
            lisp
        },
        Json::Object(members) => {
            let mut entries: Vec<(String, LispValue)> = Vec::new();
            let mut i: usize = 0;
            while i < members.len()
                invariant
                    i <= members@.len(),
                    *value == Json::Object(*members),
                    entries@.len() == i,
                    forall|j: int|
                        0 <= j < i ==> (#[trigger] entries@[j]).0@ == members@[j].0@
                            && entries@[j].1@ == json_to_lisp(members@[j].1@),
                decreases members@.len() - i,
            {
                assert(decreases_to!(*value => value->Object_0));
                assert(decreases_to!(*members => members[i as int]));
                assert(decreases_to!(members[i as int] => members[i as int].1));
                let converted = serde_lisp_value(&members[i].1);
                entries.push((members[i].0.clone(), converted));
                i = i + 1;
            }
            let lisp = LispValue::HashMap(entries);
            assert(lisp@->HashMap_0 =~= json_to_lisp(value@)->HashMap_0);
            lisp
        },
    }
}

/// The number of characters of `path` before its first dot, or its length
/// where it holds no dot.
pub open spec fn first_dot(path: Seq<char>) -> int
    decreases path.len(),
{
    if path.len() == 0 || path[0] == '.' {
        0
    } else {
        1 + first_dot(path.skip(1))
    }
}

/// The segments of a dotted path: the pieces between its dots, in order,
/// without the empty ones.
pub open spec fn path_segments(path: Seq<char>) -> Seq<Seq<char>>
    decreases path.len(),
{
    if path.len() == 0 {
        Seq::empty()
    } else {
        let n = first_dot(path);
        if n <= 0 {
            path_segments(path.skip(1))
        } else if n < path.len() {
            seq![path.take(n)] + path_segments(path.skip(n + 1))
        } else {
            seq![path]
        }
    }
}

/// `first_dot` is the one index before which no dot stands and at which the
/// path ends or holds a dot.
pub proof fn lemma_first_dot(path: Seq<char>, n: int)
    requires
        0 <= n <= path.len(),
        forall|k: int| 0 <= k < n ==> path[k] != '.',
        n == path.len() || path[n] == '.',
    ensures
        first_dot(path) == n,
    decreases n,
{
    if n > 0 {
        let rest = path.skip(1);
        assert forall|k: int| 0 <= k < n - 1 implies rest[k] != '.' by {
            assert(rest[k] == path[k + 1]);
        }
        lemma_first_dot(rest, n - 1);
    }
}

/// No dot stands before `first_dot`, and at it the path ends or holds a dot.
pub proof fn lemma_first_dot_is_first(path: Seq<char>)
    ensures
        0 <= first_dot(path) <= path.len(),
        forall|k: int| 0 <= k < first_dot(path) ==> path[k] != '.',
        first_dot(path) == path.len() || path[first_dot(path)] == '.',
    decreases path.len(),
{
    if path.len() > 0 && path[0] != '.' {
        let rest = path.skip(1);
        lemma_first_dot_is_first(rest);
        assert forall|k: int| 0 <= k < first_dot(path) implies path[k] != '.' by {
            if k > 0 {
                assert(rest[k - 1] == path[k]);
            }
        }
        if first_dot(path) < path.len() {
            assert(rest[first_dot(rest)] == path[first_dot(path)]);
        }
    }
}

/// A segment of a path is not empty and holds no dot.
pub proof fn lemma_segments_hold_no_dot(path: Seq<char>)
    ensures
        forall|i: int|
            0 <= i < path_segments(path).len() ==> (#[trigger] path_segments(path)[i]).len() > 0
                && !path_segments(path)[i].contains('.'),
    decreases path.len(),
{
    if path.len() > 0 {
        let n = first_dot(path);
        lemma_first_dot_is_first(path);
        if n <= 0 {
            lemma_segments_hold_no_dot(path.skip(1));
            assert(path_segments(path) == path_segments(path.skip(1)));
        } else if n < path.len() {
            let rest = path_segments(path.skip(n + 1));
            lemma_segments_hold_no_dot(path.skip(n + 1));
            assert forall|i: int| 0 <= i < path_segments(path).len() implies (
            #[trigger] path_segments(path)[i]).len() > 0 && !path_segments(path)[i].contains(
                '.',
            ) by {
                if i > 0 {
                    assert(path_segments(path)[i] == rest[i - 1]);
                } else {
                    let head = path.take(n);
                    assert(path_segments(path)[0] == head);
                    if head.contains('.') {
                        let k = choose|k: int| 0 <= k < head.len() && head[k] == '.';
                        assert(path[k] == '.');
                    }
                }
            }
        } else {
            assert(path_segments(path) == seq![path]);
            if path.contains('.') {
                let k = choose|k: int| 0 <= k < path.len() && path[k] == '.';
                assert(path[k] == '.');
            }
        }
    } else {
        assert(path_segments(path).len() == 0);
    }
}

/// The end of walking `segments` down from `root`, each segment the key of
/// an entry of the hash map reached so far: the value reached, or the first
/// segment that names no entry of a hash map.
pub open spec fn lookup(root: LispData, segments: Seq<Seq<char>>) -> Result<LispData, Seq<char>>
    decreases segments.len(),
{
    if segments.len() == 0 {
        Ok(root)
    } else {
        match root.entry(segments[0]) {
            Some(next) => lookup(next, segments.skip(1)),
            None => Err(segments[0]),
        }
    }
}

/// A path that `load` could not follow to its end.
#[derive(Debug, PartialEq, Eq)]
pub struct LookupError {
    /// The first segment that named no entry.
    pub key: String,
}

/// Splits a dotted path into its non-empty segments.
pub fn split_path(path: &str) -> (segments: Vec<String>)
    ensures
        segments@.len() == path_segments(path@).len(),
        forall|i: int|
            0 <= i < segments@.len() ==> (#[trigger] segments@[i])@ == path_segments(path@)[i],
{
    let len = path.unicode_len();
    let mut segments: Vec<String> = Vec::new();
    let ghost mut done: Seq<Seq<char>> = Seq::empty();
    let mut start: usize = 0;
    let mut i: usize = 0;
    assert(path@.skip(0) == path@);
    while i < len
        invariant
            start <= i <= len,
            len == path@.len(),
            forall|k: int| start <= k < i ==> path@[k] != '.',
            segments@.len() == done.len(),
            forall|j: int| 0 <= j < segments@.len() ==> (#[trigger] segments@[j])@ == done[j],
            path_segments(path@) == done + path_segments(path@.skip(start as int)),
        decreases len - i,
    {
        if path.get_char(i) == '.' {
            proof {
                lemma_split_at_dot(path@, start as int, i as int);
            }
            if start < i {
                segments.push(String::from_str(path.substring_char(start, i)));
                proof {
                    done = done.push(path@.subrange(start as int, i as int));
                }
            }
            start = i + 1;
        }
        i = i + 1;
    }
    proof {
        lemma_split_at_end(path@, start as int);
    }
    if start < len {
        segments.push(String::from_str(path.substring_char(start, len)));
        proof {
            done = done.push(path@.subrange(start as int, len as int));
        }
    }
    assert(path_segments(path@) == done);
    segments
}

/// At a dot that follows a stretch without dots, the segments of the rest of
/// the path are that stretch, unless it is empty, and then the segments of
/// what follows the dot.
proof fn lemma_split_at_dot(path: Seq<char>, start: int, dot: int)
    requires
        0 <= start <= dot < path.len(),
        forall|k: int| start <= k < dot ==> path[k] != '.',
        path[dot] == '.',
    ensures
        path_segments(path.skip(start)) == (if start < dot {
            seq![path.subrange(start, dot)]
        } else {
            Seq::empty()
        }) + path_segments(path.skip(dot + 1)),
{
    let rest = path.skip(start);
    let n = dot - start;
    assert forall|k: int| 0 <= k < n implies rest[k] != '.' by {
        assert(rest[k] == path[start + k]);
    }
    assert(rest[n] == path[dot]);
    lemma_first_dot(rest, n);
    assert(rest.skip(n + 1) == path.skip(dot + 1));
    if n == 0 {
        assert(rest.skip(1) == path.skip(dot + 1));
        assert(Seq::<Seq<char>>::empty() + path_segments(path.skip(dot + 1)) == path_segments(
            path.skip(dot + 1),
        ));
    } else {
        assert(rest.take(n) == path.subrange(start, dot));
    }
}

/// A stretch without dots that reaches the end of the path is its last
/// segment, unless it is empty.
proof fn lemma_split_at_end(path: Seq<char>, start: int)
    requires
        0 <= start <= path.len(),
        forall|k: int| start <= k < path.len() ==> path[k] != '.',
    ensures
        path_segments(path.skip(start)) == (if start < path.len() {
            seq![path.subrange(start, path.len() as int)]
        } else {
            Seq::empty()
        }),
{
    let rest = path.skip(start);
    if start < path.len() {
        assert forall|k: int| 0 <= k < rest.len() implies rest[k] != '.' by {
            assert(rest[k] == path[start + k]);
        }
        lemma_first_dot(rest, rest.len() as int);
        assert(rest == path.subrange(start, path.len() as int));
    }
}

/// What the rule language sees of one event: the converted event, which
/// rules know as `__input__`.
#[derive(Debug, PartialEq, Eq)]
pub struct Environment {
    pub input: LispValue,
}

/// The environment for one event.
pub fn env(value: &Json) -> (environment: Environment)
    ensures
        environment.input@ == json_to_lisp(value@),
{
    Environment { input: serde_lisp_value(value) }
}

impl LispValue {
    /// The entry `key` of a hash map.
    pub fn entry<'a>(&'a self, key: &String) -> (r: Option<&'a LispValue>)
        ensures
            match r {
                Some(found) => self@.entry(key@) == Some(found@),
                None => self@.entry(key@) is None,
            },
    {
        match self {
            LispValue::HashMap(entries) => {
                let ghost all = self@->HashMap_0;
                match last_place_of(entries, key.as_str()) {
                    Some(place) => {
                        proof {
                            assert(all[place as int] == (
                                entries@[place as int].0@,
                                entries@[place as int].1@,
                            ));
                            assert forall|j: int| place < j < all.len() implies keys_of(all)[j]
                                != key@ by {
                                assert(all[j].0 == entries@[j].0@);
                            }
                            lemma_last_with_key(all, key@, place as int);
                        }
                        Some(&entries[place].1)
                    },
                    None => {
                        proof {
                            assert forall|j: int| 0 <= j < all.len() implies all[j].0 != key@ by {
                                assert(all[j].0 == entries@[j].0@);
                            }
                            lemma_last_with_key(all, key@, 0);
                        }
                        None
                    },
                }
            },
            _ => None,
        }
    }
}

impl Environment {
    /// The primitive `load`: the value at the end of a dotted path through
    /// the event, or the segment at which the path broke off.
    pub fn load<'a>(&'a self, path: &str) -> (r: Result<&'a LispValue, LookupError>)
        ensures
            match r {
                Ok(found) => lookup(self.input@, path_segments(path@)) == Ok::<
                    LispData,
                    Seq<char>,
                >(found@),
                Err(error) => lookup(self.input@, path_segments(path@)) == Err::<
                    LispData,
                    Seq<char>,
                >(error.key@),
            },
    {
        let mut segments = split_path(path);
        let ghost wanted = path_segments(path@);
        let mut current: &LispValue = &self.input;
        let mut i: usize = 0;
        assert(wanted.skip(0) == wanted);
        while i < segments.len()
            invariant
                i <= segments@.len(),
                wanted == path_segments(path@),
                segments@.len() == wanted.len(),
                forall|j: int| 0 <= j < segments@.len() ==> (#[trigger] segments@[j])@ == wanted[j],
                lookup(self.input@, wanted) == lookup(current@, wanted.skip(i as int)),
            decreases segments@.len() - i,
        {
            proof {
                let rest = wanted.skip(i as int);
                assert(rest[0] == wanted[i as int]);
                assert(rest.skip(1) == wanted.skip(i as int + 1));
            }
            match current.entry(&segments[i]) {
                Some(next) => {
                    current = next;
                },
                None => {
                    let key = segments.swap_remove(i);
                    return Err(LookupError { key });
                },
            }
            i = i + 1;
        }
        Ok(current)
    }

    /// The primitive `has-key`: whether `load` finds a value at `path`.
    pub fn has_key(&self, path: &str) -> (found: bool)
        ensures
            found == lookup(self.input@, path_segments(path@)).is_ok(),
    {
        self.load(path).is_ok()
    }
}

/// `rust_lisp::model::Value`, a value of the interpreter. Nothing is known
/// of what one holds.
#[verifier::external_type_specification]
#[verifier::external_body]
pub struct ExValue(rust_lisp::model::Value);

/// `rust_lisp::model::Env`, the bindings that the interpreter evaluates in.
/// Nothing is known of what one holds.
#[verifier::external_type_specification]
#[verifier::external_body]
pub struct ExEnv(rust_lisp::model::Env);

/// `rust_lisp::model::RuntimeError`, the failure of an evaluation. Nothing
/// is known of what one holds.
#[verifier::external_type_specification]
#[verifier::external_body]
pub struct ExRuntimeError(rust_lisp::model::RuntimeError);

/// `rust_lisp::parser::ParseError`, the refusal of an expression. Nothing
/// is known of what one holds.
#[verifier::external_type_specification]
#[verifier::external_body]
pub struct ExParseError(rust_lisp::parser::ParseError);

/// `Value::from` on a `bool`: the interpreter's `T` or `F`.
#[verifier::external_body]
fn lisp_bool(b: bool) -> rust_lisp::model::Value {
    rust_lisp::model::Value::from(b)
}

/// `Value::Int`, the interpreter's integer.
#[verifier::external_body]
fn lisp_int(i: i32) -> rust_lisp::model::Value {
    rust_lisp::model::Value::Int(i)
}

/// `Value::Float` of the number with the given bit pattern.
#[verifier::external_body]
fn lisp_float(bits: u32) -> rust_lisp::model::Value {
    rust_lisp::model::Value::Float(rust_lisp::model::FloatType::from_bits(bits))
}

/// `Value::String`, the interpreter's string.
#[verifier::external_body]
fn lisp_string(text: &str) -> rust_lisp::model::Value {
    rust_lisp::model::Value::String(text.to_owned())
}

/// `Value::List` of the items in their order, collected by the
/// interpreter's `FromIterator` for `List`; no items give its `NIL`.
#[verifier::external_body]
fn lisp_list(items: Vec<rust_lisp::model::Value>) -> rust_lisp::model::Value {
    rust_lisp::model::Value::List(items.into_iter().collect())
}

/// `Value::from` on a `HashMap` that the entries were inserted into in
/// their order.
#[verifier::external_body]
fn lisp_hash_map(
    entries: Vec<(rust_lisp::model::Value, rust_lisp::model::Value)>,
) -> rust_lisp::model::Value {
    rust_lisp::model::Value::from(
        entries.into_iter().collect::<std::collections::HashMap<_, _>>(),
    )
}

/// The interpreter's own value for a [`LispValue`].
fn to_interpreter(value: &LispValue) -> rust_lisp::model::Value
    decreases value,
{
    match value {
        LispValue::True => lisp_bool(true),
        LispValue::False => lisp_bool(false),
        LispValue::Int(i) => lisp_int(*i),
        LispValue::Float(bits) => lisp_float(*bits),
        LispValue::Text(s) => lisp_string(s.as_str()),
        LispValue::List(items) => {
            let mut list: Vec<rust_lisp::model::Value> = Vec::new();
            let mut i: usize = 0;
            while i < items.len()
                invariant
                    *value == LispValue::List(*items),
                decreases items@.len() - i,
            {
                assert(decreases_to!(*value => value->List_0));
                assert(decreases_to!(*items => items[i as int]));
                list.push(to_interpreter(&items[i]));
                i = i + 1;
            }
            lisp_list(list)
        },
        LispValue::HashMap(entries) => {
            let mut pairs: Vec<(rust_lisp::model::Value, rust_lisp::model::Value)> = Vec::new();
            let mut i: usize = 0;
            while i < entries.len()
                invariant
                    *value == LispValue::HashMap(*entries),
                decreases entries@.len() - i,
            {
                assert(decreases_to!(*value => value->HashMap_0));
                assert(decreases_to!(*entries => entries[i as int]));
                assert(decreases_to!(entries[i as int] => entries[i as int].1));
                pairs.push((lisp_string(entries[i].0.as_str()), to_interpreter(&entries[i].1)));
                i = i + 1;
            }
            lisp_hash_map(pairs)
        },
    }
}

/// What the interpreter's `Debug` prints for the string `text`.
pub uninterp spec fn lisp_string_debug(text: Seq<char>) -> Seq<char>;

/// Formats a `Value::String` with `{:?}`.
#[verifier::external_body]
fn lisp_debug_text(text: &str) -> (printed: String)
    ensures
        printed@ == lisp_string_debug(text@),
{
    format!("{:?}", rust_lisp::model::Value::String(text.to_owned()))
}

impl LookupError {
    /// The words in which `load` reports the failure to a rule.
    pub open spec fn message_spec(&self) -> Seq<char> {
        "No such key "@ + lisp_string_debug(self.key@)
    }

    /// The words in which `load` reports the failure to a rule.
    pub fn message(&self) -> (message: String)
        ensures
            message@ == self.message_spec(),
    {
        let mut message = String::from_str("No such key ");
        message.append(lisp_debug_text(self.key.as_str()).as_str());
        message
    }
}

/// One of the two primitives that rules are given.
#[derive(Clone, Copy, Debug, PartialEq, Eq, Structural)]
pub enum Primitive {
    Load,
    HasKey,
}

impl Primitive {
    /// The name under which rules call the primitive.
    pub fn name(self) -> (name: &'static str)
        ensures
            name@ == (match self {
                Primitive::Load => "load"@,
                Primitive::HasKey => "has-key"@,
            }),
    {
        match self {
            Primitive::Load => "load",
            Primitive::HasKey => "has-key",
        }
    }
}

/// `require_typed_arg::<&String>`: the argument at `index` where it is a
/// string, the interpreter's error where it is missing or no string. The
/// error counts arguments from one, so the last index is left out.
#[verifier::external_body]
fn string_argument(name: &str, args: &Vec<rust_lisp::model::Value>, index: usize) -> Result<
    String,
    rust_lisp::model::RuntimeError,
>
    requires
        index < usize::MAX,
{
    rust_lisp::utils::require_typed_arg::<&String>(name, args, index).cloned()
}

/// A `RuntimeError` with the given message.
#[verifier::external_body]
fn runtime_error(msg: String) -> rust_lisp::model::RuntimeError {
    rust_lisp::model::RuntimeError { msg }
}

/// Whether a primitive has an answer for a path: `has-key` always has one,
/// `load` has one where the path leads to a value.
pub open spec fn answers(primitive: Primitive, input: LispData, path: Seq<char>) -> bool {
    primitive == Primitive::HasKey || lookup(input, path_segments(path)) is Ok
}

/// The answer of a primitive to a path, as a value of the interpreter:
/// `load` gives the value at the end of the path or the error of the
/// lookup, `has-key` gives `T` or `F`.
fn answer_primitive(primitive: Primitive, environment: &Environment, path: &str) -> (r: Result<
    rust_lisp::model::Value,
    rust_lisp::model::RuntimeError,
>)
    ensures
        r is Ok <==> answers(primitive, environment.input@, path@),
{
    match primitive {
        Primitive::Load => match environment.load(path) {
            Ok(found) => Ok(to_interpreter(found)),
            Err(error) => Err(runtime_error(error.message())),
        },
        Primitive::HasKey => Ok(lisp_bool(environment.has_key(path))),
    }
}

/// A call of a primitive by the interpreter: the first argument is the
/// path, and the answer is that of [`answer_primitive`]. A call without a
/// string as its first argument gives the interpreter's own error.
fn call_primitive(
    primitive: Primitive,
    environment: &Environment,
    args: &Vec<rust_lisp::model::Value>,
) -> Result<rust_lisp::model::Value, rust_lisp::model::RuntimeError> {
    match string_argument(primitive.name(), args, 0) {
        Err(error) => Err(error),
        Ok(path) => answer_primitive(primitive, environment, path.as_str()),
    }
}

/// The names that an `Env` binds itself: the symbols of its entries.
pub uninterp spec fn bound_names(env: rust_lisp::model::Env) -> Set<Seq<char>>;

/// Whether `rust_lisp::default_env` binds a name.
pub uninterp spec fn is_builtin(name: Seq<char>) -> bool;

/// The names that the interpreter binds of itself.
pub open spec fn builtin_names() -> Set<Seq<char>> {
    Set::new(|name: Seq<char>| is_builtin(name))
}

/// `rust_lisp::default_env`: the interpreter's built-in bindings, which
/// are the same at every call.
#[verifier::external_body]
fn default_env() -> (env: rust_lisp::model::Env)
    ensures
        forall|name: Seq<char>| bound_names(env).contains(name) == is_builtin(name),
{
    rust_lisp::default_env()
}

/// `Env::define`: binds `name` to `value`, in place of what it was bound
/// to before.
#[verifier::external_body]
fn env_define(env: &mut rust_lisp::model::Env, name: &str, value: rust_lisp::model::Value)
    ensures
        bound_names(*final(env)) == bound_names(*old(env)).insert(name@),
{
    env.define(rust_lisp::model::Symbol::from(name), value)
}

/// `Env::define` of a `Value::NativeClosure` that hands each call to
/// [`call_primitive`]: binds `name` to that closure.
#[verifier::external_body]
fn env_define_primitive(
    env: &mut rust_lisp::model::Env,
    name: &str,
    primitive: Primitive,
    environment: &Rc<Environment>,
)
    ensures
        bound_names(*final(env)) == bound_names(*old(env)).insert(name@),
{
    let environment = environment.clone();
    let native = move |_env, args: Vec<rust_lisp::model::Value>| {
        call_primitive(primitive, &environment, &args)
    };
    let closure = rust_lisp::model::Value::NativeClosure(Rc::new(std::cell::RefCell::new(native)));
    env.define(rust_lisp::model::Symbol::from(name), closure)
}

/// The first `limit` results of `rust_lisp::parser::parse`, one for each
/// expression of `code` in turn. After a first error the parser repeats it
/// without end, which is why the results are cut off. Nothing is claimed of
/// the results. The parser recurses once for each list within a list.
#[verifier::external_body]
fn parse_up_to(code: &str, limit: usize) -> Vec<
    Result<rust_lisp::model::Value, rust_lisp::parser::ParseError>,
> {
    rust_lisp::parser::parse(code).take(limit).collect()
}

/// The values of the results that are `Ok`, in their order.
pub open spec fn successes<T, E>(results: Seq<Result<T, E>>) -> Seq<T>
    decreases results.len(),
{
    if results.len() == 0 {
        Seq::empty()
    } else {
        match results.last() {
            Ok(value) => successes(results.drop_last()).push(value),
            Err(_) => successes(results.drop_last()),
        }
    }
}

/// Keeps the expressions that parsed, in their order.
fn keep_parsed(
    results: Vec<Result<rust_lisp::model::Value, rust_lisp::parser::ParseError>>,
) -> (kept: Vec<rust_lisp::model::Value>)
    ensures
        kept@ == successes(results@),
{
    let mut results = results;
    let ghost all = results@;
    let mut reversed: Vec<rust_lisp::model::Value> = Vec::new();
    assert(successes(all) =~= successes(results@) + reversed@.reverse());
    while results.len() > 0
        invariant
            successes(all) == successes(results@) + reversed@.reverse(),
        decreases results@.len(),
    {
        let ghost before = results@;
        let ghost turned = reversed@;
        match results.pop() {
            Some(Ok(expression)) => {
                reversed.push(expression);
                assert(before.last() == Ok::<
                    rust_lisp::model::Value,
                    rust_lisp::parser::ParseError,
                >(expression));
                assert(reversed@.reverse() =~= seq![expression] + turned.reverse());
                assert(successes(before) + turned.reverse() =~= successes(results@)
                    + reversed@.reverse());
            },
            _ => {
                assert(before.last() is Err);
            },
        }
    }
    let ghost turned = reversed@;
    let mut kept: Vec<rust_lisp::model::Value> = Vec::new();
    assert(turned.reverse() =~= kept@ + reversed@.reverse());
    while reversed.len() > 0
        invariant
            turned.reverse() == kept@ + reversed@.reverse(),
        decreases reversed@.len(),
    {
        let ghost before = reversed@;
        let ghost front = kept@;
        match reversed.pop() {
            Some(expression) => {
                kept.push(expression);
                assert(before =~= reversed@.push(expression));
                assert(before.reverse() =~= seq![expression] + reversed@.reverse());
                assert(front + before.reverse() =~= kept@ + reversed@.reverse());
            },
            None => {},
        }
    }
    assert(kept@ + reversed@.reverse() =~= kept@);
    assert(successes(results@) + turned.reverse() =~= turned.reverse());
    kept
}

/// The expressions of `code` that parse, in their order, as values of the
/// interpreter. The parser is asked for one result more than `code` has
/// bytes, which is more than it can hold expressions.
pub fn parse_program(code: &str) -> Vec<rust_lisp::model::Value> {
    let len = code.len();
    let limit = if len < usize::MAX {
        len + 1
    } else {
        usize::MAX
    };
    keep_parsed(parse_up_to(code, limit))
}

/// How the evaluation of a rule ended. The interpreter is run by the
/// caller, who reports what came of it.
#[derive(Debug, PartialEq, Eq)]
pub enum Evaluation {
    /// The interpreter gave a value: whether it is its `F`, and how it
    /// prints.
    Returned { is_false: bool, text: String },
    /// The interpreter gave an error.
    Failed { message: String },
}

impl Environment {
    /// The bindings that the interpreter evaluates the rules of this event
    /// in: its own, the event as `__input__`, and `load` and `has-key`
    /// bound to the event.
    pub fn bindings(self) -> (env: rust_lisp::model::Env)
        ensures
            bound_names(env) == builtin_names().insert("__input__"@).insert("load"@).insert(
                "has-key"@,
            ),
    {
        let mut env = default_env();
        assert(bound_names(env) =~= builtin_names());
        env_define(&mut env, "__input__", to_interpreter(&self.input));
        let shared = Rc::new(self);
        env_define_primitive(&mut env, Primitive::Load.name(), Primitive::Load, &shared);
        env_define_primitive(&mut env, Primitive::HasKey.name(), Primitive::HasKey, &shared);
        env
    }
}

} // verus!
