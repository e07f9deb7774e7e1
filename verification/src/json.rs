//! JSON values.

use crate::text;
use serde_json::Value;
use vstd::prelude::*;

verus! {

/// `serde_json::Value`, carried to and from that crate's parser and printer.
#[verifier::external_type_specification]
#[verifier::external_body]
pub struct ExValue(Value);

/// `serde_json::Number`, carried through where it is no integer.
#[verifier::external_type_specification]
#[verifier::external_body]
pub struct ExNumber(serde_json::Number);

/// A number that is no integer of 64 bits. Only a value of `serde_json` gives one.
#[derive(Debug)]
pub struct OtherNumber {
    number: serde_json::Number,
}

impl View for OtherNumber {
    type V = serde_json::Number;

    closed spec fn view(&self) -> serde_json::Number {
        self.number
    }
}

/// A JSON number: an integer of 64 bits, or anything else as the parser left it.
#[derive(Debug)]
pub enum JsonNumber {
    Unsigned(u64),
    Signed(i64),
    Other(OtherNumber),
}

/// A JSON value.
#[derive(Debug)]
pub enum Json {
    Null,
    Bool(bool),
    Number(JsonNumber),
    Text(String),
    Array(Vec<Json>),
    Object(JsonMap),
}

/// The members of a JSON object. Of two members with one name the later counts.
#[derive(Debug)]
pub struct JsonMap {
    entries: Vec<(String, Json)>,
}

/// A number's value.
pub enum NumberView {
    Unsigned(u64),
    Negative(i64),
    Other(serde_json::Number),
}

/// A JSON value as data: objects are maps from names to values.
pub enum JsonView {
    Null,
    Bool(bool),
    Number(NumberView),
    Text(Seq<char>),
    Array(Seq<JsonView>),
    Object(Map<Seq<char>, JsonView>),
}

/// What a number stands for.
pub open spec fn number_view(n: JsonNumber) -> NumberView {
    match n {
        JsonNumber::Unsigned(u) => NumberView::Unsigned(u),
        JsonNumber::Signed(i) => if i >= 0 {
            NumberView::Unsigned(i as u64)
        } else {
            NumberView::Negative(i)
        },
        JsonNumber::Other(o) => NumberView::Other(o@),
    }
}

/// What a value stands for.
pub closed spec fn json_view(j: Json) -> JsonView
    decreases j,
{
    match j {
        Json::Null => JsonView::Null,
        Json::Bool(b) => JsonView::Bool(b),
        Json::Number(n) => JsonView::Number(number_view(n)),
        Json::Text(t) => JsonView::Text(t@),
        Json::Array(v) => JsonView::Array(
            Seq::new(
                v@.len(),
                |i: int|
                    if 0 <= i < v@.len() {
                        json_view(v@[i])
                    } else {
                        JsonView::Null
                    },
            ),
        ),
        Json::Object(m) => JsonView::Object(entries_view(m.entries@)),
    }
}

closed spec fn entries_view(entries: Seq<(String, Json)>) -> Map<Seq<char>, JsonView>
    decreases entries,
{
    if entries.len() == 0 {
        Map::empty()
    } else {
        entries_view(entries.drop_last()).insert(
            entries.last().0@,
            json_view(entries.last().1),
        )
    }
}

impl DeepView for Json {
    type V = JsonView;

    open spec fn deep_view(&self) -> JsonView {
        json_view(*self)
    }
}

impl DeepView for JsonMap {
    type V = Map<Seq<char>, JsonView>;

    closed spec fn deep_view(&self) -> Map<Seq<char>, JsonView> {
        entries_view(self.entries@)
    }
}


/// The member `key` of an object; other values have no members.
pub open spec fn member(j: JsonView, key: Seq<char>) -> Option<JsonView> {
    match j {
        JsonView::Object(m) => if m.contains_key(key) {
            Some(m[key])
        } else {
            None
        },
        _ => None,
    }
}

/// The text of the member `key`, if that is a text.
pub open spec fn text_member(j: JsonView, key: Seq<char>) -> Option<Seq<char>> {
    match member(j, key) {
        Some(v) => text_of(v),
        None => None,
    }
}

/// The text that a value is.
pub open spec fn text_of(j: JsonView) -> Option<Seq<char>> {
    match j {
        JsonView::Text(t) => Some(t),
        _ => None,
    }
}

/// The items of the member `key`, if that is an array.
pub open spec fn array_member(j: JsonView, key: Seq<char>) -> Option<Seq<JsonView>> {
    match member(j, key) {
        Some(JsonView::Array(v)) => Some(v),
        _ => None,
    }
}

/// The unsigned number that a value is.
pub open spec fn u64_of(j: JsonView) -> Option<u64> {
    match j {
        JsonView::Number(NumberView::Unsigned(n)) => Some(n),
        _ => None,
    }
}

/// The unsigned number that the member `key` is.
pub open spec fn u64_member(j: JsonView, key: Seq<char>) -> Option<u64> {
    match member(j, key) {
        Some(v) => u64_of(v),
        None => None,
    }
}

/// The member `inner` of the member `outer`.
pub open spec fn member2(j: JsonView, outer: Seq<char>, inner: Seq<char>) -> Option<JsonView> {
    match member(j, outer) {
        Some(v) => member(v, inner),
        None => None,
    }
}

/// An unsigned number.
pub open spec fn num(n: nat) -> JsonView {
    JsonView::Number(NumberView::Unsigned(n as u64))
}

/// An object of one member.
pub open spec fn obj1(a: Seq<char>, x: JsonView) -> JsonView {
    JsonView::Object(Map::<Seq<char>, JsonView>::empty().insert(a, x))
}

/// An object of two members.
pub open spec fn obj2(a: Seq<char>, x: JsonView, b: Seq<char>, y: JsonView) -> JsonView {
    JsonView::Object(Map::<Seq<char>, JsonView>::empty().insert(a, x).insert(b, y))
}

/// An object of three members.
pub open spec fn obj3(
    a: Seq<char>,
    x: JsonView,
    b: Seq<char>,
    y: JsonView,
    c: Seq<char>,
    z: JsonView,
) -> JsonView {
    JsonView::Object(Map::<Seq<char>, JsonView>::empty().insert(a, x).insert(b, y).insert(c, z))
}

/// An object of four members.
pub open spec fn obj4(
    a: Seq<char>,
    x: JsonView,
    b: Seq<char>,
    y: JsonView,
    c: Seq<char>,
    z: JsonView,
    d: Seq<char>,
    w: JsonView,
) -> JsonView {
    JsonView::Object(
        Map::<Seq<char>, JsonView>::empty().insert(a, x).insert(b, y).insert(c, z).insert(d, w),
    )
}

/// A value with one more member; only an object has members.
pub open spec fn with_member(j: JsonView, key: Seq<char>, value: JsonView) -> JsonView {
    match j {
        JsonView::Object(m) => JsonView::Object(m.insert(key, value)),
        _ => j,
    }
}

impl JsonMap {
    /// An object without members.
    pub fn new() -> (r: JsonMap)
        ensures
            r.deep_view() == Map::<Seq<char>, JsonView>::empty(),
    {
        JsonMap { entries: Vec::new() }
    }

    /// Sets the member `key`.
    pub fn insert(&mut self, key: &str, value: Json)
        ensures
            final(self).deep_view() == old(self).deep_view().insert(key@, value.deep_view()),
    {
        let ghost before = self.entries@;
        self.entries.push((key.to_owned(), value));
        assert(self.entries@.drop_last() =~= before);
    }

    /// The member `key`.
    pub fn get(&self, key: &str) -> (r: Option<&Json>)
        ensures
            match r {
                Some(v) => self.deep_view().contains_key(key@) && self.deep_view()[key@]
                    == v.deep_view(),
                None => !self.deep_view().contains_key(key@),
            },
    {
        let mut i: usize = self.entries.len();
        assert(self.entries@.take(i as int) =~= self.entries@);
        while i > 0
            invariant
                i <= self.entries@.len(),
                entries_view(self.entries@.take(i as int)).contains_key(key@)
                    == self.deep_view().contains_key(key@),
                self.deep_view().contains_key(key@) ==> entries_view(
                    self.entries@.take(i as int),
                )[key@] == self.deep_view()[key@],
            decreases i,
        {
            i -= 1;
            assert(self.entries@.take(i as int + 1).drop_last() =~= self.entries@.take(i as int));
            let entry = &self.entries[i];
            if text::same(entry.0.as_str(), key) {
                return Some(&entry.1);
            }
        }
        None
    }

    /// Whether there is a member `key`.
    pub fn contains_key(&self, key: &str) -> (r: bool)
        ensures
            r == self.deep_view().contains_key(key@),
    {
        self.get(key).is_some()
    }
}

impl Clone for JsonMap {
    fn clone(&self) -> (r: Self)
        ensures
            r.deep_view() == self.deep_view(),
        decreases self,
    {
        let mut out: Vec<(String, Json)> = Vec::new();
        let mut i: usize = 0;
        assert(self.entries@.take(0) =~= out@);
        while i < self.entries.len()
            invariant
                i <= self.entries@.len(),
                entries_view(out@) == entries_view(self.entries@.take(i as int)),
            decreases self.entries@.len() - i,
        {
            let ghost before = out@;
            let entry = &self.entries[i];
            assert(decreases_to!(self => self.entries@[i as int].1)) by {
                assert(decreases_to!(self.entries => self.entries@));
                assert(decreases_to!(self.entries@ => self.entries@[i as int]));
                assert(decreases_to!(self.entries@[i as int] => self.entries@[i as int].1));
            }
            let value = entry.1.clone();
            out.push((entry.0.clone(), value));
            i += 1;
            assert(self.entries@.take(i as int).drop_last() =~= self.entries@.take(i as int - 1));
            assert(out@.drop_last() =~= before);
        }
        assert(self.entries@.take(self.entries@.len() as int) =~= self.entries@);
        JsonMap { entries: out }
    }
}

impl Clone for JsonNumber {
    fn clone(&self) -> (r: Self)
        ensures
            number_view(r) == number_view(*self),
    {
        match self {
            JsonNumber::Unsigned(u) => JsonNumber::Unsigned(*u),
            JsonNumber::Signed(i) => JsonNumber::Signed(*i),
            JsonNumber::Other(o) => JsonNumber::Other(
                OtherNumber { number: copy_number(&o.number) },
            ),
        }
    }
}

/// `Clone` of `serde_json::Number`: the same number once more.
#[verifier::external_body]
fn copy_number(n: &serde_json::Number) -> (r: serde_json::Number)
    ensures
        r == *n,
{
    n.clone()
}

impl Clone for Json {
    fn clone(&self) -> (r: Self)
        ensures
            r.deep_view() == self.deep_view(),
        decreases self,
    {
        match self {
            Json::Null => Json::Null,
            Json::Bool(b) => Json::Bool(*b),
            Json::Number(n) => Json::Number(n.clone()),
            Json::Text(t) => Json::Text(t.clone()),
            Json::Array(v) => {
                let mut out: Vec<Json> = Vec::new();
                let mut i: usize = 0;
                while i < v.len()
                    invariant
                        i <= v@.len(),
                        out@.len() == i,
                        *self == Json::Array(*v),
                        forall|k: int| 0 <= k < i ==> json_view(#[trigger] out@[k]) == json_view(v@[k]),
                    decreases v@.len() - i,
                {
                    assert(decreases_to!(self => v@[i as int])) by {
                        assert(decreases_to!(self => self->Array_0));
                        assert(decreases_to!(v => v@));
                        assert(decreases_to!(v@ => v@[i as int]));
                    }
                    let item = v[i].clone();
                    out.push(item);
                    i += 1;
                }
                let r = Json::Array(out);
                assert(json_view(r)->Array_0 =~= json_view(*self)->Array_0);
                r
            },
            Json::Object(m) => Json::Object(m.clone()),
        }
    }
}

impl Json {
    /// A text value.
    pub fn text(s: &str) -> (r: Json)
        ensures
            r.deep_view() == JsonView::Text(s@),
    {
        Json::Text(s.to_owned())
    }

    /// A text value.
    pub fn string(s: String) -> (r: Json)
        ensures
            r.deep_view() == JsonView::Text(s@),
    {
        Json::Text(s)
    }

    /// A truth value.
    pub fn boolean(b: bool) -> (r: Json)
        ensures
            r.deep_view() == JsonView::Bool(b),
    {
        Json::Bool(b)
    }

    /// The null value.
    pub fn null() -> (r: Json)
        ensures
            r.deep_view() == JsonView::Null,
    {
        Json::Null
    }

    /// An unsigned number.
    pub fn number(n: u64) -> (r: Json)
        ensures
            r.deep_view() == num(n as nat),
    {
        Json::Number(JsonNumber::Unsigned(n))
    }

    /// A number.
    pub fn numeric(n: JsonNumber) -> (r: Json)
        ensures
            r.deep_view() == JsonView::Number(number_view(n)),
    {
        Json::Number(n)
    }

    /// A count.
    pub fn count(n: usize) -> (r: Json)
        ensures
            r.deep_view() == num(n as nat),
    {
        Json::Number(JsonNumber::Unsigned(n as u64))
    }

    /// An array of values.
    pub fn array(items: Vec<Json>) -> (r: Json)
        ensures
            r.deep_view() == JsonView::Array(items.deep_view()),
    {
        let r = Json::Array(items);
        assert(r.deep_view()->Array_0 =~= items.deep_view());
        r
    }

    /// An object.
    pub fn object(members: JsonMap) -> (r: Json)
        ensures
            r.deep_view() == JsonView::Object(members.deep_view()),
    {
        Json::Object(members)
    }

    /// An object of one member.
    pub fn object1(a: &str, x: Json) -> (r: Json)
        ensures
            r.deep_view() == obj1(a@, x.deep_view()),
    {
        let mut m = JsonMap::new();
        m.insert(a, x);
        Json::object(m)
    }

    /// An object of two members.
    pub fn object2(a: &str, x: Json, b: &str, y: Json) -> (r: Json)
        ensures
            r.deep_view() == obj2(a@, x.deep_view(), b@, y.deep_view()),
    {
        let mut m = JsonMap::new();
        m.insert(a, x);
        m.insert(b, y);
        Json::object(m)
    }

    /// An object of three members.
    pub fn object3(a: &str, x: Json, b: &str, y: Json, c: &str, z: Json) -> (r: Json)
        ensures
            r.deep_view() == obj3(a@, x.deep_view(), b@, y.deep_view(), c@, z.deep_view()),
    {
        let mut m = JsonMap::new();
        m.insert(a, x);
        m.insert(b, y);
        m.insert(c, z);
        Json::object(m)
    }

    /// An object of four members.
    pub fn object4(
        a: &str,
        x: Json,
        b: &str,
        y: Json,
        c: &str,
        z: Json,
        d: &str,
        w: Json,
    ) -> (r: Json)
        ensures
            r.deep_view() == obj4(
                a@,
                x.deep_view(),
                b@,
                y.deep_view(),
                c@,
                z.deep_view(),
                d@,
                w.deep_view(),
            ),
    {
        let mut m = JsonMap::new();
        m.insert(a, x);
        m.insert(b, y);
        m.insert(c, z);
        m.insert(d, w);
        Json::object(m)
    }

    /// Sets a member of this object; nothing else has members.
    pub fn set_member(&mut self, key: &str, value: Json)
        ensures
            final(self).deep_view() == with_member(old(self).deep_view(), key@, value.deep_view()),
    {
        if let Json::Object(m) = self {
            m.insert(key, value);
        }
    }

    /// The member `key`, if this is an object that has it.
    pub fn get(&self, key: &str) -> (r: Option<&Json>)
        ensures
            match r {
                Some(v) => member(self.deep_view(), key@) == Some(v.deep_view()),
                None => member(self.deep_view(), key@) is None,
            },
    {
        match self {
            Json::Object(m) => m.get(key),
            _ => None,
        }
    }

    /// The text that this is.
    pub fn as_str(&self) -> (r: Option<&str>)
        ensures
            match r {
                Some(t) => text_of(self.deep_view()) == Some(t@),
                None => text_of(self.deep_view()) is None,
            },
    {
        match self {
            Json::Text(t) => Some(t.as_str()),
            _ => None,
        }
    }

    /// The unsigned number that this is.
    pub fn as_u64(&self) -> (r: Option<u64>)
        ensures
            r == u64_of(self.deep_view()),
    {
        match self {
            Json::Number(JsonNumber::Unsigned(n)) => Some(*n),
            Json::Number(JsonNumber::Signed(i)) => if *i >= 0 {
                Some(*i as u64)
            } else {
                None
            },
            _ => None,
        }
    }

    /// The truth value that this is.
    pub fn as_bool(&self) -> (r: Option<bool>)
        ensures
            r == (match self.deep_view() {
                JsonView::Bool(b) => Some(b),
                _ => None::<bool>,
            }),
    {
        match self {
            Json::Bool(b) => Some(*b),
            _ => None,
        }
    }

    /// The items of the array that this is.
    pub fn as_array(&self) -> (r: Option<&Vec<Json>>)
        ensures
            match r {
                Some(v) => self.deep_view() == JsonView::Array(v.deep_view()),
                None => !(self.deep_view() is Array),
            },
    {
        match self {
            Json::Array(v) => {
                assert(self.deep_view()->Array_0 =~= v.deep_view());
                Some(v)
            },
            _ => None,
        }
    }

    /// Whether this is an object.
    pub fn is_object(&self) -> (r: bool)
        ensures
            r == (self.deep_view() is Object),
    {
        match self {
            Json::Object(_) => true,
            _ => false,
        }
    }

    /// Whether this is the null value.
    pub fn is_null(&self) -> (r: bool)
        ensures
            r == (self.deep_view() is Null),
    {
        match self {
            Json::Null => true,
            _ => false,
        }
    }

    /// The text of the member `key`.
    pub fn text_member(&self, key: &str) -> (r: Option<&str>)
        ensures
            match r {
                Some(t) => text_member(self.deep_view(), key@) == Some(t@),
                None => text_member(self.deep_view(), key@) is None,
            },
    {
        match self.get(key) {
            Some(v) => v.as_str(),
            None => None,
        }
    }

    /// The items of the member `key`.
    pub fn array_member(&self, key: &str) -> (r: Option<&Vec<Json>>)
        ensures
            match r {
                Some(v) => array_member(self.deep_view(), key@) == Some(v.deep_view()),
                None => array_member(self.deep_view(), key@) is None,
            },
    {
        match self.get(key) {
            Some(v) => v.as_array(),
            None => None,
        }
    }

    /// The unsigned number that the member `key` is.
    pub fn u64_member(&self, key: &str) -> (r: Option<u64>)
        ensures
            r == u64_member(self.deep_view(), key@),
    {
        match self.get(key) {
            Some(v) => v.as_u64(),
            None => None,
        }
    }

    /// The member `inner` of the member `outer`.
    pub fn get2(&self, outer: &str, inner: &str) -> (r: Option<&Json>)
        ensures
            match r {
                Some(v) => member2(self.deep_view(), outer@, inner@) == Some(v.deep_view()),
                None => member2(self.deep_view(), outer@, inner@) is None,
            },
    {
        match self.get(outer) {
            Some(v) => v.get(inner),
            None => None,
        }
    }
}

/// What a `serde_json::Value` holds.
pub uninterp spec fn value_content(value: Value) -> JsonView;

/// The value that `serde_json::from_str` reads from a text, or the message of its
/// error.
pub uninterp spec fn json_parse(s: Seq<char>) -> Result<JsonView, Seq<char>>;

/// The value that `serde_json::from_slice` reads from bytes, or the message of its
/// error.
pub uninterp spec fn json_parse_bytes(bytes: Seq<u8>) -> Result<JsonView, Seq<char>>;

/// The text that `serde_json::to_string` writes for a value.
pub uninterp spec fn json_text(j: JsonView) -> Seq<char>;

/// Parses with `serde_json::from_str`. Which texts are JSON, and what they hold,
/// is that function's; named here is only that it goes by the text alone.
#[verifier::external_body]
fn parse_value(s: &str) -> (r: Result<Value, String>)
    ensures
        match r {
            Ok(v) => json_parse(s@) == Ok::<JsonView, Seq<char>>(value_content(v)),
            Err(m) => json_parse(s@) == Err::<JsonView, Seq<char>>(m@),
        },
{
    serde_json::from_str(s).map_err(|error: serde_json::Error| error.to_string())
}

/// Parses with `serde_json::from_slice`; named here is only that it goes by the
/// bytes alone.
#[verifier::external_body]
fn parse_byte_value(bytes: &[u8]) -> (r: Result<Value, String>)
    ensures
        match r {
            Ok(v) => json_parse_bytes(bytes@) == Ok::<JsonView, Seq<char>>(value_content(v)),
            Err(m) => json_parse_bytes(bytes@) == Err::<JsonView, Seq<char>>(m@),
        },
{
    serde_json::from_slice(bytes).map_err(|error: serde_json::Error| error.to_string())
}

/// How deep a text of JSON may be nested for the parser to read it.
pub open spec fn max_depth() -> nat {
    127
}

/// Whether a value holds no other numbers than integers and is nested no deeper than
/// `depth`.
pub open spec fn is_plain(j: JsonView, depth: nat) -> bool
    decreases depth,
{
    match j {
        JsonView::Number(n) => !(n is Other),
        JsonView::Array(v) => depth > 0 && forall|i: int|
            0 <= i < v.len() ==> is_plain(#[trigger] v[i], (depth - 1) as nat),
        JsonView::Object(m) => depth > 0 && forall|k: Seq<char>| #[trigger]
            m.contains_key(k) ==> is_plain(m[k], (depth - 1) as nat),
        _ => true,
    }
}

/// Whether a text is read as the given value.
pub open spec fn reads_as(s: Seq<char>, j: JsonView) -> bool {
    json_parse(s) == Ok::<JsonView, Seq<char>>(j)
}

/// Writes with `serde_json::to_string`, which goes by what the value holds. What is
/// written is read as the same value, if its numbers are integers and the parser's
/// limit on nesting admits it.
#[verifier::external_body]
fn print_value(v: &Value) -> (r: String)
    ensures
        r@ == json_text(value_content(*v)),
        is_plain(value_content(*v), max_depth()) ==> reads_as(r@, value_content(*v)),
{
    v.to_string()
}

/// Takes a `serde_json::Value` over, variant by variant: the result holds what the
/// value holds.
#[verifier::external_body]
fn json_of_value(v: Value) -> (r: Json)
    ensures
        r.deep_view() == value_content(v),
{
    match v {
        Value::Null => Json::Null,
        Value::Bool(b) => Json::Bool(b),
        Value::Number(n) => Json::Number(match (n.as_u64(), n.as_i64()) {
            (Some(u), _) => JsonNumber::Unsigned(u),
            (None, Some(i)) => JsonNumber::Signed(i),
            (None, None) => JsonNumber::Other(OtherNumber { number: n }),
        }),
        Value::String(t) => Json::Text(t),
        Value::Array(v) => Json::Array(v.into_iter().map(json_of_value).collect()),
        Value::Object(m) => Json::Object(JsonMap {
            entries: m.into_iter().map(|(k, v)| (k, json_of_value(v))).collect(),
        }),
    }
}

/// Hands a value over as a `Value`, variant by variant: that holds what
/// this value holds, and of two members with one name the later.
#[verifier::external_body]
fn value_of_json(j: &Json) -> (r: Value)
    ensures
        value_content(r) == j.deep_view(),
{
    match j {
        Json::Null => Value::Null,
        Json::Bool(b) => Value::Bool(*b),
        Json::Number(JsonNumber::Unsigned(u)) => Value::from(*u),
        Json::Number(JsonNumber::Signed(i)) => Value::from(*i),
        Json::Number(JsonNumber::Other(n)) => Value::Number(n.number.clone()),
        Json::Text(t) => Value::String(t.clone()),
        Json::Array(v) => Value::Array(v.iter().map(value_of_json).collect()),
        Json::Object(m) => Value::Object(
            m.entries.iter().map(|(k, v)| (k.clone(), value_of_json(v))).collect(),
        ),
    }
}

impl Json {
    /// The value that a text of JSON stands for, or the parser's message.
    pub fn parse(s: &str) -> (r: Result<Json, String>)
        ensures
            match r {
                Ok(v) => json_parse(s@) == Ok::<JsonView, Seq<char>>(v.deep_view()),
                Err(m) => json_parse(s@) == Err::<JsonView, Seq<char>>(m@),
            },
    {
        match parse_value(s) {
            Ok(v) => Ok(json_of_value(v)),
            Err(m) => Err(m),
        }
    }

    /// The value that bytes of JSON stand for, or the parser's message.
    pub fn parse_bytes(bytes: &[u8]) -> (r: Result<Json, String>)
        ensures
            match r {
                Ok(v) => json_parse_bytes(bytes@) == Ok::<JsonView, Seq<char>>(v.deep_view()),
                Err(m) => json_parse_bytes(bytes@) == Err::<JsonView, Seq<char>>(m@),
            },
    {
        match parse_byte_value(bytes) {
            Ok(v) => Ok(json_of_value(v)),
            Err(m) => Err(m),
        }
    }

    /// This value as a text of JSON, without white space and with the members of
    /// objects in the order of their names.
    pub fn to_text(&self) -> (r: String)
        ensures
            r@ == json_text(self.deep_view()),
            is_plain(self.deep_view(), max_depth()) ==> reads_as(r@, self.deep_view()),
    {
        print_value(&value_of_json(self))
    }

    /// Takes over a value of `serde_json`.
    pub fn from_value(v: Value) -> (r: Json)
        ensures
            r.deep_view() == value_content(v),
    {
        json_of_value(v)
    }

    /// Hands this value over to `serde_json`.
    pub fn to_value(&self) -> (r: Value)
        ensures
            value_content(r) == self.deep_view(),
    {
        value_of_json(self)
    }
}

} // verus!
