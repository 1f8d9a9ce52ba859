//! JSON values: what a request, a reply or a credentials file holds.

use vstd::prelude::*;

use crate::text::same;
use crate::text::trim;
use crate::text::trimmed;

verus! {

/// A JSON value.
///
/// A number is an `Int` where it fits `i64`, a `UInt` where it is a larger integer that fits
/// `u64`, and else a `Float`, held by the bits of its double. An object is the list of its
/// members; where a key comes more than once, the last member counts.
pub enum Json {
    Null,
    Bool(bool),
    Int(i64),
    UInt(u64),
    Float(u64),
    Str(String),
    Array(Vec<Json>),
    Object(Vec<(String, Json)>),
}

/// What a JSON value means: an object is a map from keys to values.
#[verifier::ext_equal]
pub enum JsonV {
    Null,
    Bool(bool),
    Int(i64),
    UInt(u64),
    Float(u64),
    Str(Seq<char>),
    Array(Seq<JsonV>),
    Object(Map<Seq<char>, JsonV>),
}

/// The meaning of a value.
pub open spec fn json_view(j: Json) -> JsonV
    decreases j,
{
    match j {
        Json::Null => JsonV::Null,
        Json::Bool(b) => JsonV::Bool(b),
        Json::Int(n) => JsonV::Int(n),
        Json::UInt(n) => JsonV::UInt(n),
        Json::Float(n) => JsonV::Float(n),
        Json::Str(s) => JsonV::Str(s@),
        Json::Array(a) => JsonV::Array(items_view(a@)),
        Json::Object(m) => JsonV::Object(members_view(m@)),
    }
}

/// The meanings of the values of an array.
pub open spec fn items_view(s: Seq<Json>) -> Seq<JsonV>
    decreases s,
{
    if s.len() == 0 {
        Seq::empty()
    } else {
        items_view(s.drop_last()).push(json_view(s.last()))
    }
}

/// The map that the members of an object make.
pub open spec fn members_view(s: Seq<(String, Json)>) -> Map<Seq<char>, JsonV>
    decreases s,
{
    if s.len() == 0 {
        Map::empty()
    } else {
        members_view(s.drop_last()).insert(s.last().0@, json_view(s.last().1))
    }
}

impl View for Json {
    type V = JsonV;

    open spec fn view(&self) -> JsonV {
        json_view(*self)
    }
}

/// The meaning of an array holds the meaning of each of its values, in order.
pub proof fn lemma_items_view(s: Seq<Json>)
    ensures
        items_view(s).len() == s.len(),
        forall|i: int| 0 <= i < s.len() ==> #[trigger] items_view(s)[i] == json_view(s[i]),
    decreases s.len(),
{
    if s.len() > 0 {
        lemma_items_view(s.drop_last());
        assert forall|i: int| 0 <= i < s.len() implies #[trigger] items_view(s)[i] == json_view(
            s[i],
        ) by {
            if i < s.len() - 1 {
                assert(s.drop_last()[i] == s[i]);
            }
        }
    }
}

/// What a value that may be missing means.
pub open spec fn opt_view(j: Option<Json>) -> Option<JsonV> {
    match j {
        Some(v) => Some(v@),
        None => None,
    }
}

/// What a text that may be missing holds.
pub open spec fn opt_text(s: Option<String>) -> Option<Seq<char>> {
    match s {
        Some(t) => Some(t@),
        None => None,
    }
}

impl JsonV {
    /// The member of an object under `key`; other values have none.
    pub open spec fn get(self, key: Seq<char>) -> Option<JsonV> {
        match self {
            JsonV::Object(m) => if m.dom().contains(key) {
                Some(m[key])
            } else {
                None
            },
            _ => None,
        }
    }

    /// The text, where the value is one.
    pub open spec fn as_str(self) -> Option<Seq<char>> {
        match self {
            JsonV::Str(s) => Some(s),
            _ => None,
        }
    }

    /// The integer, where the value is one that fits `i64`.
    pub open spec fn as_i64(self) -> Option<i64> {
        match self {
            JsonV::Int(n) => Some(n),
            JsonV::UInt(n) => if n <= i64::MAX {
                Some(n as i64)
            } else {
                None
            },
            _ => None,
        }
    }

    /// The values, where the value is an array.
    pub open spec fn as_array(self) -> Option<Seq<JsonV>> {
        match self {
            JsonV::Array(a) => Some(a),
            _ => None,
        }
    }

    /// The text under `key`.
    pub open spec fn str_at(self, key: Seq<char>) -> Option<Seq<char>> {
        match self.get(key) {
            Some(v) => v.as_str(),
            None => None,
        }
    }

    /// The text under `key` without the white space at its ends; empty where there is none.
    pub open spec fn trimmed_at(self, key: Seq<char>) -> Seq<char> {
        match self.str_at(key) {
            Some(s) => trimmed(s),
            None => Seq::empty(),
        }
    }

    /// The integer under `key`.
    pub open spec fn i64_at(self, key: Seq<char>) -> Option<i64> {
        match self.get(key) {
            Some(v) => v.as_i64(),
            None => None,
        }
    }

    /// The values of the array under `key`.
    pub open spec fn array_at(self, key: Seq<char>) -> Option<Seq<JsonV>> {
        match self.get(key) {
            Some(v) => v.as_array(),
            None => None,
        }
    }

    /// The object with `key` set to `value`; a value that is no object stays as it is.
    pub open spec fn with(self, key: Seq<char>, value: JsonV) -> JsonV {
        match self {
            JsonV::Object(m) => JsonV::Object(m.insert(key, value)),
            _ => self,
        }
    }
}

/// The object without members.
pub open spec fn empty_object() -> JsonV {
    JsonV::Object(Map::empty())
}

impl Json {
    /// The member of an object under `key`.
    pub fn get(&self, key: &str) -> (r: Option<&Json>)
        ensures
            match r {
                Some(v) => self@.get(key@) == Some(v@),
                None => self@.get(key@) is None,
            },
    {
        match self {
            Json::Object(m) => {
                let mut n: usize = m.len();
                proof {
                    assert(m@.take(n as int) =~= m@);
                }
                while n > 0
                    invariant
                        n <= m.len(),
                        self == Json::Object(*m),
                        members_view(m@).dom().contains(key@) == members_view(
                            m@.take(n as int),
                        ).dom().contains(key@),
                        members_view(m@).dom().contains(key@) ==> members_view(m@)[key@]
                            == members_view(m@.take(n as int))[key@],
                    decreases n,
                {
                    proof {
                        assert(m@.take(n as int).drop_last() =~= m@.take(n - 1));
                    }
                    if same(m[n - 1].0.as_str(), key) {
                        return Some(&m[n - 1].1);
                    }
                    n = n - 1;
                }
                None
            },
            _ => None,
        }
    }

    /// The text, where the value is one.
    pub fn as_str(&self) -> (r: Option<&str>)
        ensures
            match r {
                Some(s) => self@.as_str() == Some(s@),
                None => self@.as_str() is None,
            },
    {
        match self {
            Json::Str(s) => Some(s.as_str()),
            _ => None,
        }
    }

    /// The integer, where the value is one that fits `i64`.
    pub fn as_i64(&self) -> (r: Option<i64>)
        ensures
            r == self@.as_i64(),
    {
        match self {
            Json::Int(n) => Some(*n),
            Json::UInt(n) => if *n <= i64::MAX as u64 {
                Some(*n as i64)
            } else {
                None
            },
            _ => None,
        }
    }

    /// The values, where the value is an array.
    pub fn as_array(&self) -> (r: Option<&Vec<Json>>)
        ensures
            match r {
                Some(a) => self@.as_array() == Some(items_view(a@)),
                None => self@.as_array() is None,
            },
    {
        match self {
            Json::Array(a) => Some(a),
            _ => None,
        }
    }

    /// The text under `key`.
    pub fn str_at(&self, key: &str) -> (r: Option<&str>)
        ensures
            match r {
                Some(s) => self@.str_at(key@) == Some(s@),
                None => self@.str_at(key@) is None,
            },
    {
        match self.get(key) {
            Some(v) => v.as_str(),
            None => None,
        }
    }

    /// The text under `key`, as a string of its own.
    pub fn string_at(&self, key: &str) -> (r: Option<String>)
        ensures
            opt_text(r) == self@.str_at(key@),
    {
        match self.str_at(key) {
            Some(s) => Some(s.to_string()),
            None => None,
        }
    }

    /// The text under `key` without the white space at its ends; empty where there is none.
    pub fn trimmed_at(&self, key: &str) -> (r: String)
        ensures
            r@ == self@.trimmed_at(key@),
    {
        match self.str_at(key) {
            Some(s) => trim(s),
            None => String::new(),
        }
    }

    /// The integer under `key`.
    pub fn i64_at(&self, key: &str) -> (r: Option<i64>)
        ensures
            r == self@.i64_at(key@),
    {
        match self.get(key) {
            Some(v) => v.as_i64(),
            None => None,
        }
    }

    /// The values of the array under `key`.
    pub fn array_at(&self, key: &str) -> (r: Option<&Vec<Json>>)
        ensures
            match r {
                Some(a) => self@.array_at(key@) == Some(items_view(a@)),
                None => self@.array_at(key@) is None,
            },
    {
        match self.get(key) {
            Some(v) => v.as_array(),
            None => None,
        }
    }

    /// The object without members.
    pub fn object() -> (r: Json)
        ensures
            r@ == empty_object(),
    {
        Json::Object(Vec::new())
    }

    /// A text.
    pub fn text(s: &str) -> (r: Json)
        ensures
            r@ == JsonV::Str(s@),
    {
        Json::Str(s.to_string())
    }

    /// A text, or null where there is none.
    pub fn text_or_null(s: Option<&str>) -> (r: Json)
        ensures
            r@ == (match s {
                Some(t) => JsonV::Str(t@),
                None => JsonV::Null,
            }),
    {
        match s {
            Some(t) => Json::text(t),
            None => Json::Null,
        }
    }

    /// The object with `key` set to `value`; a value that is no object stays as it is.
    pub fn with(self, key: &str, value: Json) -> (r: Json)
        ensures
            r@ == self@.with(key@, value@),
    {
        match self {
            Json::Object(m) => {
                let mut members = m;
                let ghost before = members@;
                members.push((key.to_string(), value));
                proof {
                    assert(members@.drop_last() =~= before);
                }
                Json::Object(members)
            },
            other => other,
        }
    }

    /// Another value with the same meaning.
    pub fn copy(&self) -> (r: Json)
        ensures
            r@ == self@,
        decreases self,
    {
        match self {
            Json::Null => Json::Null,
            Json::Bool(b) => Json::Bool(*b),
            Json::Int(n) => Json::Int(*n),
            Json::UInt(n) => Json::UInt(*n),
            Json::Float(n) => Json::Float(*n),
            Json::Str(s) => Json::Str(s.clone()),
            Json::Array(a) => {
                let mut out: Vec<Json> = Vec::new();
                let mut i: usize = 0;
                while i < a.len()
                    invariant
                        i <= a.len(),
                        items_view(out@) == items_view(a@.take(i as int)),
                        self == Json::Array(*a),
                    decreases a.len() - i,
                {
                    let ghost before = out@;
                    proof {
                        assert(a@.take(i + 1).drop_last() =~= a@.take(i as int));
                        assert(decreases_to!(*self => self->Array_0));
                        assert(decreases_to!(self->Array_0 => self->Array_0@));
                        assert(decreases_to!(a@ => a@[i as int]));
                    }
                    out.push(a[i].copy());
                    proof {
                        assert(out@.drop_last() =~= before);
                    }
                    i = i + 1;
                }
                proof {
                    assert(a@.take(i as int) =~= a@);
                }
                Json::Array(out)
            },
            Json::Object(m) => {
                let mut out: Vec<(String, Json)> = Vec::new();
                let mut i: usize = 0;
                while i < m.len()
                    invariant
                        i <= m.len(),
                        members_view(out@) == members_view(m@.take(i as int)),
                        self == Json::Object(*m),
                    decreases m.len() - i,
                {
                    let ghost before = out@;
                    proof {
                        assert(m@.take(i + 1).drop_last() =~= m@.take(i as int));
                        assert(decreases_to!(*self => self->Object_0));
                        assert(decreases_to!(self->Object_0 => self->Object_0@));
                        assert(decreases_to!(m@ => m@[i as int]));
                        assert(decreases_to!(m@[i as int] => m@[i as int].1));
                    }
                    out.push((m[i].0.clone(), m[i].1.copy()));
                    proof {
                        assert(out@.drop_last() =~= before);
                    }
                    i = i + 1;
                }
                proof {
                    assert(m@.take(i as int) =~= m@);
                }
                Json::Object(out)
            },
        }
    }
}

/// A member that was set is read back, and the others stay as they were.
pub proof fn lemma_with_get(object: JsonV, key: Seq<char>, value: JsonV, other: Seq<char>)
    requires
        object is Object,
    ensures
        object.with(key, value).get(key) == Some(value),
        other != key ==> object.with(key, value).get(other) == object.get(other),
{
}

/// A member put behind the others of an object counts, and hides one of the same key.
pub proof fn lemma_last_member(members: Seq<(String, Json)>, key: String, value: Json)
    ensures
        members_view(members.push((key, value))) == members_view(members).insert(key@, value@),
{
    assert(members.push((key, value)).drop_last() =~= members);
}

/// What a value is read as: a text as a text, an integer as an integer where it fits, an array as
/// an array, and nothing as anything else.
pub proof fn lemma_kinds(text: Seq<char>, n: i64, big: u64, items: Seq<JsonV>, bits: u64, b: bool)
    ensures
        JsonV::Str(text).as_str() == Some(text),
        JsonV::Int(n).as_i64() == Some(n),
        big <= i64::MAX ==> JsonV::UInt(big).as_i64() == Some(big as i64),
        big > i64::MAX ==> JsonV::UInt(big).as_i64() is None,
        JsonV::Array(items).as_array() == Some(items),
        JsonV::Float(bits).as_i64() is None,
        JsonV::Str(text).as_i64() is None,
        JsonV::Str(text).as_array() is None,
        JsonV::Int(n).as_str() is None,
        JsonV::UInt(big).as_str() is None,
        JsonV::Float(bits).as_str() is None,
        JsonV::Bool(b).as_str() is None,
        JsonV::Null.as_str() is None,
        JsonV::Null.as_i64() is None,
        JsonV::Null.as_array() is None,
        JsonV::Bool(b).as_i64() is None,
        JsonV::Bool(b).as_array() is None,
        JsonV::Array(items).as_str() is None,
        JsonV::Array(items).as_i64() is None,
{
}

/// A member that was set is read as what it is; under another key nothing changes. Only objects
/// have members.
pub proof fn lemma_member_read(
    members: Map<Seq<char>, JsonV>,
    key: Seq<char>,
    value: JsonV,
    other: JsonV,
)
    ensures
        ({
            let object = JsonV::Object(members.insert(key, value));
            &&& object.get(key) == Some(value)
            &&& object.str_at(key) == value.as_str()
            &&& object.i64_at(key) == value.as_i64()
            &&& object.array_at(key) == value.as_array()
            &&& value.as_str() matches Some(s) ==> object.trimmed_at(key) == trimmed(s)
            &&& value.as_str() is None ==> object.trimmed_at(key).len() == 0
        }),
        !members.dom().contains(key) ==> {
            &&& JsonV::Object(members).get(key) is None
            &&& JsonV::Object(members).str_at(key) is None
            &&& JsonV::Object(members).i64_at(key) is None
            &&& JsonV::Object(members).array_at(key) is None
            &&& JsonV::Object(members).trimmed_at(key).len() == 0
        },
        !(other is Object) ==> {
            &&& other.get(key) is None
            &&& other.str_at(key) is None
            &&& other.i64_at(key) is None
            &&& other.array_at(key) is None
            &&& other.trimmed_at(key).len() == 0
        },
{
}

} // verus!
