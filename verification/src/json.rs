//! JSON values in the library's own form.
use crate::text::same;
use vstd::prelude::*;

verus! {

/// A JSON value. A number is kept only where it is an unsigned integer, which is all that is ever
/// read of one. The members of an object stand in the parser's order, each key once.
#[derive(Debug, PartialEq, Eq)]
pub enum Json {
    Null,
    Bool(bool),
    Number(Option<u64>),
    Str(String),
    Array(Vec<Json>),
    Object(Vec<(String, Json)>),
}

/// The mathematical form of a JSON value.
pub enum JsonView {
    Null,
    Bool(bool),
    Number(Option<u64>),
    Str(Seq<char>),
    Array(Seq<JsonView>),
    Object(Seq<(Seq<char>, JsonView)>),
}

/// The mathematical form of a JSON value.
pub open spec fn view_of(j: Json) -> JsonView
    decreases j,
{
    match j {
        Json::Null => JsonView::Null,
        Json::Bool(b) => JsonView::Bool(b),
        Json::Number(n) => JsonView::Number(n),
        Json::Str(s) => JsonView::Str(s@),
        Json::Array(v) => JsonView::Array(
            Seq::new(
                v@.len(),
                |i: int|
                    if 0 <= i < v@.len() {
                        view_of(v@[i])
                    } else {
                        JsonView::Null
                    },
            ),
        ),
        Json::Object(v) => JsonView::Object(
            Seq::new(
                v@.len(),
                |i: int|
                    if 0 <= i < v@.len() {
                        (v@[i].0@, view_of(v@[i].1))
                    } else {
                        (Seq::empty(), JsonView::Null)
                    },
            ),
        ),
    }
}

impl View for Json {
    type V = JsonView;

    open spec fn view(&self) -> JsonView {
        view_of(*self)
    }
}

/// The value of the first member with the given key.
pub open spec fn member(o: Seq<(Seq<char>, JsonView)>, key: Seq<char>) -> Option<JsonView>
    decreases o.len(),
{
    if o.len() == 0 {
        None
    } else if o[0].0 == key {
        Some(o[0].1)
    } else {
        member(o.drop_first(), key)
    }
}

impl JsonView {
    /// The member of an object.
    pub open spec fn get(self, key: Seq<char>) -> Option<JsonView> {
        match self {
            JsonView::Object(o) => member(o, key),
            _ => None,
        }
    }

    /// The text of a string.
    pub open spec fn as_str(self) -> Option<Seq<char>> {
        match self {
            JsonView::Str(s) => Some(s),
            _ => None,
        }
    }

    /// The value of a boolean.
    pub open spec fn as_bool(self) -> Option<bool> {
        match self {
            JsonView::Bool(b) => Some(b),
            _ => None,
        }
    }

    /// The value of an unsigned integer.
    pub open spec fn as_u64(self) -> Option<u64> {
        match self {
            JsonView::Number(n) => n,
            _ => None,
        }
    }

    /// The items of an array.
    pub open spec fn as_array(self) -> Option<Seq<JsonView>> {
        match self {
            JsonView::Array(a) => Some(a),
            _ => None,
        }
    }

    /// The text of a string member.
    pub open spec fn str_at(self, key: Seq<char>) -> Option<Seq<char>> {
        match self.get(key) {
            Some(v) => v.as_str(),
            None => None,
        }
    }

    /// The value of a boolean member.
    pub open spec fn bool_at(self, key: Seq<char>) -> Option<bool> {
        match self.get(key) {
            Some(v) => v.as_bool(),
            None => None,
        }
    }

    /// The items of an array member.
    pub open spec fn array_at(self, key: Seq<char>) -> Option<Seq<JsonView>> {
        match self.get(key) {
            Some(v) => v.as_array(),
            None => None,
        }
    }
}

/// The mathematical forms of a sequence of values.
pub open spec fn views(v: Seq<Json>) -> Seq<JsonView> {
    v.map_values(|j: Json| j@)
}

/// The mathematical form of an optional value.
pub open spec fn opt_view(o: Option<&Json>) -> Option<JsonView> {
    match o {
        Some(j) => Some(j@),
        None => None,
    }
}

/// The text of an optional string slice.
pub open spec fn opt_str(o: Option<&str>) -> Option<Seq<char>> {
    match o {
        Some(s) => Some(s@),
        None => None,
    }
}

/// The first value that is there.
pub open spec fn either<T>(a: Option<T>, b: Option<T>) -> Option<T> {
    match a {
        Some(_) => a,
        None => b,
    }
}

/// The value, or the other one where there is none.
pub open spec fn or_else<T>(a: Option<T>, b: T) -> T {
    match a {
        Some(x) => x,
        None => b,
    }
}

impl Json {
    /// The member of an object.
    pub fn get<'a>(&'a self, key: &str) -> (r: Option<&'a Json>)
        ensures
            opt_view(r) == self@.get(key@),
    {
        match self {
            Json::Object(v) => {
                let ghost o = self@->Object_0;
                let mut i: usize = 0;
                assert(o.skip(0) =~= o);
                while i < v.len()
                    invariant
                        i <= v.len(),
                        o.len() == v@.len(),
                        forall|k: int|
                            0 <= k < o.len() ==> #[trigger] o[k] == (v@[k].0@, v@[k].1@),
                        self@ == JsonView::Object(o),
                        member(o, key@) == member(o.skip(i as int), key@),
                    decreases v.len() - i,
                {
                    assert(o.skip(i as int)[0] == o[i as int]);
                    assert(o.skip(i as int).drop_first() =~= o.skip(i + 1));
                    if same(v[i].0.as_str(), key) {
                        return Some(&v[i].1);
                    }
                    i = i + 1;
                }
                None
            },
            _ => None,
        }
    }

    /// The text of a string.
    pub fn as_str<'a>(&'a self) -> (r: Option<&'a str>)
        ensures
            opt_str(r) == self@.as_str(),
    {
        match self {
            Json::Str(s) => Some(s.as_str()),
            _ => None,
        }
    }

    /// The value of a boolean.
    pub fn as_bool(&self) -> (r: Option<bool>)
        ensures
            r == self@.as_bool(),
    {
        match self {
            Json::Bool(b) => Some(*b),
            _ => None,
        }
    }

    /// The value of an unsigned integer.
    pub fn as_u64(&self) -> (r: Option<u64>)
        ensures
            r == self@.as_u64(),
    {
        match self {
            Json::Number(n) => *n,
            _ => None,
        }
    }

    /// The items of an array.
    pub fn as_array<'a>(&'a self) -> (r: Option<&'a Vec<Json>>)
        ensures
            match r {
                Some(v) => self@.as_array() == Some(views(v@)),
                None => self@.as_array() is None,
            },
    {
        match self {
            Json::Array(v) => {
                assert(self@->Array_0 =~= views(v@));
                Some(v)
            },
            _ => None,
        }
    }

    /// The text of a string member.
    pub fn str_at<'a>(&'a self, key: &str) -> (r: Option<&'a str>)
        ensures
            opt_str(r) == self@.str_at(key@),
    {
        match self.get(key) {
            Some(v) => v.as_str(),
            None => None,
        }
    }

    /// The value of a boolean member.
    pub fn bool_at(&self, key: &str) -> (r: Option<bool>)
        ensures
            r == self@.bool_at(key@),
    {
        match self.get(key) {
            Some(v) => v.as_bool(),
            None => None,
        }
    }

    /// The items of an array member.
    pub fn array_at<'a>(&'a self, key: &str) -> (r: Option<&'a Vec<Json>>)
        ensures
            match r {
                Some(v) => self@.array_at(key@) == Some(views(v@)),
                None => self@.array_at(key@) is None,
            },
    {
        match self.get(key) {
            Some(v) => v.as_array(),
            None => None,
        }
    }
}

// ---------------------------------------------------------------------------
// Parsing
// ---------------------------------------------------------------------------

/// A JSON value of the parser.
#[verifier::external_type_specification]
#[verifier::external_body]
pub struct ExValue(serde_json::Value);

/// Turns a `serde_json::Value` into a value of this library, variant by variant. Nothing is
/// claimed of the result here: what a text becomes has the name `parsed_json`.
#[verifier::external_body]
fn converted(v: serde_json::Value) -> (r: Json) {
    match v {
        serde_json::Value::Null => Json::Null,
        serde_json::Value::Bool(b) => Json::Bool(b),
        serde_json::Value::Number(n) => Json::Number(n.as_u64()),
        serde_json::Value::String(s) => Json::Str(s),
        serde_json::Value::Array(a) => Json::Array(a.into_iter().map(|x| json_of(x)).collect()),
        serde_json::Value::Object(o) => Json::Object(
            o.into_iter().map(|(k, x)| (k, json_of(x))).collect(),
        ),
    }
}

/// The library's form of a parsed value.
fn json_of(v: serde_json::Value) -> (r: Json) {
    converted(v)
}

/// What `serde_json::from_str` makes of a text: a value, or the text of an error.
pub uninterp spec fn read_json(text: Seq<char>) -> Result<JsonView, Seq<char>>;

/// The value that a text denotes, or `None` where the text is no JSON.
pub open spec fn parsed_json(text: Seq<char>) -> Option<JsonView> {
    match read_json(text) {
        Ok(v) => Some(v),
        Err(_) => None,
    }
}

/// Calls `serde_json::from_str`, whose outcome depends on the text alone, and turns the value
/// into the library's form and an error into the text it shows.
#[verifier::external_body]
pub(crate) fn parse_text(text: &str) -> (r: Result<Json, String>)
    ensures
        match r {
            Ok(j) => read_json(text@) == Ok::<JsonView, Seq<char>>(j@),
            Err(e) => read_json(text@) == Err::<JsonView, Seq<char>>(e@),
        },
{
    match serde_json::from_str(text) {
        Ok(v) => Ok(json_of(v)),
        Err(e) => Err(e.to_string()),
    }
}

/// The value that a text denotes, or `None` where the text is no JSON.
pub fn parse_json(text: &str) -> (r: Option<Json>)
    ensures
        match r {
            Some(j) => parsed_json(text@) == Some(j@),
            None => parsed_json(text@) is None,
        },
{
    match parse_text(text) {
        Ok(j) => Some(j),
        Err(_) => None,
    }
}

} // verus!
