//! JSON documents as plain values: parsing and string quoting are done by
//! `serde_json`; the library reads the parsed tree through the accessors
//! here, each stated over the tree itself.
use vstd::prelude::*;

verus! {

/// A JSON number as `serde_json` reports it: its canonical text and, where
/// it is an integer in range, its value as `i64` and as `u64`.
#[derive(Debug, Clone, PartialEq, Eq)]
pub struct JsonNumber {
    pub text: String,
    pub as_i64: Option<i64>,
    pub as_u64: Option<u64>,
}

/// A parsed JSON value. Object members are in key order and no key occurs
/// twice, as in `serde_json::Map`.
#[derive(Debug, PartialEq, Eq)]
pub enum JsonValue {
    Null,
    Bool(bool),
    Number(JsonNumber),
    String(String),
    Array(Vec<JsonValue>),
    Object(Vec<(String, JsonValue)>),
}

#[verifier::external_type_specification]
#[verifier::external_body]
pub struct ExSerdeJsonValue(serde_json::Value);

/// What `serde_json::from_str::<Value>` makes of a text: the tree, or the
/// text of the error.
pub uninterp spec fn json_document(text: Seq<char>) -> Result<JsonValue, Seq<char>>;

/// The value tree of a `serde_json::Value`.
///
/// Trusted: nothing is claimed of the result; it is only ever handed on to
/// `json_document`'s caller.
#[verifier::external_body]
fn tree_of(v: &serde_json::Value) -> JsonValue {
    match v {
        serde_json::Value::Null => JsonValue::Null,
        serde_json::Value::Bool(b) => JsonValue::Bool(*b),
        serde_json::Value::Number(n) => JsonValue::Number(
            JsonNumber { text: n.to_string(), as_i64: n.as_i64(), as_u64: n.as_u64() },
        ),
        serde_json::Value::String(s) => JsonValue::String(s.clone()),
        serde_json::Value::Array(a) => JsonValue::Array(a.iter().map(tree_of).collect()),
        serde_json::Value::Object(o) => JsonValue::Object(
            o.iter().map(|(k, x)| (k.clone(), tree_of(x))).collect(),
        ),
    }
}

/// A parse outcome with its error message taken by its characters.
pub open spec fn parsed_view(r: Result<JsonValue, String>) -> Result<JsonValue, Seq<char>> {
    match r {
        Ok(v) => Ok(v),
        Err(m) => Err(m@),
    }
}

/// `serde_json::from_str::<serde_json::Value>`.
///
/// Trusted: the outcome is named by `json_document`, a function of the text
/// alone; which texts parse, and to what, is `serde_json`'s grammar and is not
/// restated here.
#[verifier::external_body]
pub(crate) fn parse_json(text: &str) -> (r: Result<JsonValue, String>)
    ensures
        parsed_view(r) == json_document(text@),
{
    match serde_json::from_str::<serde_json::Value>(text) {
        Ok(v) => Ok(tree_of(&v)),
        Err(e) => Err(e.to_string()),
    }
}

/// What `serde_json::from_slice::<Value>` makes of bytes: the tree, or the
/// text of the error.
pub uninterp spec fn json_document_bytes(bytes: Seq<u8>) -> Result<JsonValue, Seq<char>>;

/// `serde_json::from_slice::<serde_json::Value>`.
///
/// Trusted: the outcome is named by `json_document_bytes`, a function of the
/// bytes alone; which byte strings parse, and to what, is not restated here.
#[verifier::external_body]
pub(crate) fn parse_json_bytes(bytes: &[u8]) -> (r: Result<JsonValue, String>)
    ensures
        parsed_view(r) == json_document_bytes(bytes@),
{
    match serde_json::from_slice::<serde_json::Value>(bytes) {
        Ok(v) => Ok(tree_of(&v)),
        Err(e) => Err(e.to_string()),
    }
}

/// The escape sequence `serde_json` writes for one character of a string.
pub open spec fn json_escape(c: char) -> Seq<char> {
    if c == '"' {
        seq!['\\', '"']
    } else if c == '\\' {
        seq!['\\', '\\']
    } else if c == '\u{8}' {
        seq!['\\', 'b']
    } else if c == '\t' {
        seq!['\\', 't']
    } else if c == '\n' {
        seq!['\\', 'n']
    } else if c == '\u{c}' {
        seq!['\\', 'f']
    } else if c == '\r' {
        seq!['\\', 'r']
    } else if (c as u32) < 0x20 {
        seq!['\\', 'u', '0', '0', hex_lower((c as u32) / 16), hex_lower((c as u32) % 16)]
    } else {
        seq![c]
    }
}

pub open spec fn hex_lower(d: u32) -> char {
    if d < 10 {
        (('0' as u32) + d) as char
    } else {
        (('a' as u32) + d - 10) as char
    }
}

/// The escaped characters of `s`.
pub open spec fn json_escaped(s: Seq<char>) -> Seq<char>
    decreases s.len(),
{
    if s.len() == 0 {
        Seq::empty()
    } else {
        json_escaped(s.drop_last()) + json_escape(s.last())
    }
}

/// `serde_json::to_string` of a string: the text in double quotes with
/// `"`, `\` and the control characters escaped.
///
/// Trusted: claims the escaping that `serde_json`'s serializer applies
/// (its `ESCAPE` table: short escapes for `\b \t \n \f \r`, `\u00XX` with
/// lower-case hex for the other controls, nothing else escaped).
#[verifier::external_body]
pub(crate) fn json_quote(s: &str) -> (r: String)
    ensures
        r@ == seq!['"'] + json_escaped(s@) + seq!['"'],
{
    serde_json::to_string(s).unwrap_or_default()
}

/// The position of the member named `key` among `es` from `i` on.
pub open spec fn member_index(es: Seq<(String, JsonValue)>, key: Seq<char>, i: int) -> Option<int>
    decreases es.len() - i,
{
    if i < 0 || i >= es.len() {
        None
    } else if es[i].0@ == key {
        Some(i)
    } else {
        member_index(es, key, i + 1)
    }
}

/// `Value::get(key)`: the member named `key` of an object.
pub open spec fn json_get(v: JsonValue, key: Seq<char>) -> Option<JsonValue> {
    match v {
        JsonValue::Object(es) => match member_index(es@, key, 0) {
            Some(i) => Some(es@[i].1),
            None => None,
        },
        _ => None,
    }
}

/// `get(key)` applied to an optional value.
pub open spec fn json_member(v: Option<JsonValue>, key: Seq<char>) -> Option<JsonValue> {
    match v {
        Some(x) => json_get(x, key),
        None => None,
    }
}

/// `Value::as_str`.
pub open spec fn json_text(v: Option<JsonValue>) -> Option<Seq<char>> {
    match v {
        Some(JsonValue::String(s)) => Some(s@),
        _ => None,
    }
}

/// `Value::as_bool`.
pub open spec fn json_flag(v: Option<JsonValue>) -> Option<bool> {
    match v {
        Some(JsonValue::Bool(b)) => Some(b),
        _ => None,
    }
}

/// `Value::as_i64`.
pub open spec fn json_int(v: Option<JsonValue>) -> Option<i64> {
    match v {
        Some(JsonValue::Number(n)) => n.as_i64,
        _ => None,
    }
}

/// `Value::as_u64`.
pub open spec fn json_uint(v: Option<JsonValue>) -> Option<u64> {
    match v {
        Some(JsonValue::Number(n)) => n.as_u64,
        _ => None,
    }
}

/// `Value::as_array`.
pub open spec fn json_items(v: Option<JsonValue>) -> Option<Seq<JsonValue>> {
    match v {
        Some(JsonValue::Array(a)) => Some(a@),
        _ => None,
    }
}

/// The string items of an array, in order (`filter_map(Value::as_str)`).
pub open spec fn string_items(a: Seq<JsonValue>) -> Seq<Seq<char>>
    decreases a.len(),
{
    if a.len() == 0 {
        Seq::empty()
    } else {
        string_items(a.drop_last()) + match a.last() {
            JsonValue::String(s) => seq![s@],
            _ => Seq::empty(),
        }
    }
}

impl JsonValue {
    /// `Value::get`.
    pub fn get<'a>(&'a self, key: &str) -> (r: Option<&'a JsonValue>)
        ensures
            json_get(*self, key@) is None ==> r is None,
            json_get(*self, key@) is Some ==> (r is Some && *r->0 == json_get(*self, key@)->0),
    {
        match self {
            JsonValue::Object(es) => {
                let owned = key.to_owned();
                let mut i: usize = 0;
                while i < es.len()
                    invariant
                        *self == JsonValue::Object(*es),
                        owned@ == key@,
                        i <= es@.len(),
                        member_index(es@, key@, 0) == member_index(es@, key@, i as int),
                    decreases es@.len() - i,
                {
                    if es[i].0 == owned {
                        return Some(&es[i].1);
                    }
                    i = i + 1;
                }
                None
            },
            _ => None,
        }
    }

    /// `Value::as_str`.
    pub fn as_str(&self) -> (r: Option<&str>)
        ensures
            json_text(Some(*self)) is None ==> r is None,
            json_text(Some(*self)) is Some ==> (r is Some && r->0@ == json_text(Some(*self))->0),
    {
        match self {
            JsonValue::String(s) => Some(s.as_str()),
            _ => None,
        }
    }

    /// `Value::as_bool`.
    pub fn as_bool(&self) -> (r: Option<bool>)
        ensures
            r == json_flag(Some(*self)),
    {
        match self {
            JsonValue::Bool(b) => Some(*b),
            _ => None,
        }
    }

    /// `Value::as_i64`.
    pub fn as_i64(&self) -> (r: Option<i64>)
        ensures
            r == json_int(Some(*self)),
    {
        match self {
            JsonValue::Number(n) => n.as_i64,
            _ => None,
        }
    }

    /// `Value::as_u64`.
    pub fn as_u64(&self) -> (r: Option<u64>)
        ensures
            r == json_uint(Some(*self)),
    {
        match self {
            JsonValue::Number(n) => n.as_u64,
            _ => None,
        }
    }

    /// `Value::as_array`.
    pub fn as_array(&self) -> (r: Option<&Vec<JsonValue>>)
        ensures
            json_items(Some(*self)) is None ==> r is None,
            json_items(Some(*self)) is Some ==> (r is Some && r->0@ == json_items(Some(*self))->0),
    {
        match self {
            JsonValue::Array(a) => Some(a),
            _ => None,
        }
    }
}

/// A value tree with its texts taken by their characters.
pub ghost enum JsonView {
    Null,
    Bool(bool),
    Number(Seq<char>, Option<i64>, Option<u64>),
    String(Seq<char>),
    Array(Seq<JsonView>),
    Object(Seq<(Seq<char>, JsonView)>),
}

pub open spec fn json_view(v: JsonValue) -> JsonView
    decreases v,
{
    match v {
        JsonValue::Null => JsonView::Null,
        JsonValue::Bool(b) => JsonView::Bool(b),
        JsonValue::Number(n) => JsonView::Number(n.text@, n.as_i64, n.as_u64),
        JsonValue::String(s) => JsonView::String(s@),
        JsonValue::Array(a) => JsonView::Array(Seq::new(a@.len(), |i: int| if 0 <= i < a@.len() {
            json_view(a@[i])
        } else {
            JsonView::Null
        })),
        JsonValue::Object(es) => JsonView::Object(Seq::new(es@.len(), |i: int| if 0 <= i < es@.len() {
            (es@[i].0@, json_view(es@[i].1))
        } else {
            (Seq::empty(), JsonView::Null)
        })),
    }
}

/// A deep copy of a value (what `Clone` does for the tree).
pub fn copy_json(v: &JsonValue) -> (r: JsonValue)
    ensures
        json_view(r) == json_view(*v),
    decreases *v,
{
    match v {
        JsonValue::Null => JsonValue::Null,
        JsonValue::Bool(b) => JsonValue::Bool(*b),
        JsonValue::Number(n) => JsonValue::Number(
            JsonNumber { text: n.text.clone(), as_i64: n.as_i64, as_u64: n.as_u64 },
        ),
        JsonValue::String(s) => JsonValue::String(s.clone()),
        JsonValue::Array(a) => {
            let mut out: Vec<JsonValue> = Vec::new();
            let mut i: usize = 0;
            while i < a.len()
                invariant
                    i <= a@.len(),
                    *v == JsonValue::Array(*a),
                    out@.len() == i,
                    forall|k: int| 0 <= k < i ==> json_view(#[trigger] out@[k]) == json_view(a@[k]),
                decreases a@.len() - i,
            {
                proof {
                    assert(decreases_to!(*v => (*v)->Array_0));
                    assert(decreases_to!((*v)->Array_0 => a@));
                    assert(decreases_to!(a@ => a@[i as int]));
                }
                let x = copy_json(&a[i]);
                out.push(x);
                i = i + 1;
            }
            let r = JsonValue::Array(out);
            assert(json_view(r) == json_view(*v)) by {
                if let JsonView::Array(x) = json_view(r) {
                    if let JsonView::Array(y) = json_view(*v) {
                        assert(x =~= y);
                    }
                }
            }
            r
        },
        JsonValue::Object(es) => {
            let mut out: Vec<(String, JsonValue)> = Vec::new();
            let mut i: usize = 0;
            while i < es.len()
                invariant
                    i <= es@.len(),
                    *v == JsonValue::Object(*es),
                    out@.len() == i,
                    forall|k: int| 0 <= k < i ==> (#[trigger] out@[k]).0@ == es@[k].0@ && json_view(out@[k].1) == json_view(es@[k].1),
                decreases es@.len() - i,
            {
                proof {
                    assert(decreases_to!(*v => (*v)->Object_0));
                    assert(decreases_to!((*v)->Object_0 => es@));
                    assert(decreases_to!(es@ => es@[i as int]));
                    assert(decreases_to!(es@[i as int] => es@[i as int].1));
                }
                let x = copy_json(&es[i].1);
                out.push((es[i].0.clone(), x));
                i = i + 1;
            }
            let r = JsonValue::Object(out);
            assert(json_view(r) == json_view(*v)) by {
                if let JsonView::Object(x) = json_view(r) {
                    if let JsonView::Object(y) = json_view(*v) {
                        assert(x =~= y);
                    }
                }
            }
            r
        },
    }
}

impl Clone for JsonValue {
    fn clone(&self) -> (r: Self)
        ensures
            json_view(r) == json_view(*self),
    {
        copy_json(self)
    }
}

/// The string items of an array as owned strings.
pub fn string_array(values: &Vec<JsonValue>) -> (r: Vec<String>)
    ensures
        r@.map_values(|s: String| s@) == string_items(values@),
{
    let mut out: Vec<String> = Vec::new();
    let mut i: usize = 0;
    while i < values.len()
        invariant
            i <= values@.len(),
            out@.map_values(|s: String| s@) == string_items(values@.subrange(0, i as int)),
        decreases values@.len() - i,
    {
        let ghost before = out@.map_values(|s: String| s@);
        assert(values@.subrange(0, i + 1).drop_last() =~= values@.subrange(0, i as int));
        match &values[i] {
            JsonValue::String(s) => {
                out.push(s.clone());
                assert(out@.map_values(|s: String| s@) =~= before.push(s@));
            },
            _ => {},
        }
        i = i + 1;
    }
    assert(values@.subrange(0, values@.len() as int) =~= values@);
    out
}

} // verus!
