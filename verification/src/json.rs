//! JSON values, as far as podman's answers are read.

use serde_json::Value;
use vstd::prelude::*;

use crate::error;
use crate::error::{failure, Error};
use crate::text::same;

verus! {

/// A JSON value. Numbers are never read, so they carry nothing.
#[derive(Debug)]
pub enum Json {
    Null,
    Bool(bool),
    Number,
    Text(String),
    List(Vec<Json>),
    Object(Vec<(String, Json)>),
}

/// A JSON value, as text.
pub enum JsonView {
    Null,
    Bool(bool),
    Number,
    Text(Seq<char>),
    List(Seq<JsonView>),
    Object(Seq<(Seq<char>, JsonView)>),
}

/// What a JSON value says.
pub open spec fn model(j: Json) -> JsonView
    decreases j,
{
    match j {
        Json::Null => JsonView::Null,
        Json::Bool(b) => JsonView::Bool(b),
        Json::Number => JsonView::Number,
        Json::Text(s) => JsonView::Text(s@),
        Json::List(items) => JsonView::List(
            Seq::new(
                items@.len(),
                |i: int|
                    if 0 <= i < items@.len() {
                        model(items@[i])
                    } else {
                        JsonView::Null
                    },
            ),
        ),
        Json::Object(pairs) => JsonView::Object(
            Seq::new(
                pairs@.len(),
                |i: int|
                    if 0 <= i < pairs@.len() {
                        (pairs@[i].0@, model(pairs@[i].1))
                    } else {
                        (Seq::empty(), JsonView::Null)
                    },
            ),
        ),
    }
}

impl View for Json {
    type V = JsonView;

    open spec fn view(&self) -> JsonView {
        model(*self)
    }
}

// ---------------------------------------------------------------------
// Reading a value
// ---------------------------------------------------------------------

/// The value of the first pair with the key.
pub open spec fn lookup(pairs: Seq<(Seq<char>, JsonView)>, key: Seq<char>) -> Option<JsonView>
    decreases pairs.len(),
{
    if pairs.len() == 0 {
        None
    } else if pairs[0].0 == key {
        Some(pairs[0].1)
    } else {
        lookup(pairs.skip(1), key)
    }
}

/// The member of an object; `None` for all other values.
pub open spec fn member(j: JsonView, key: Seq<char>) -> Option<JsonView> {
    match j {
        JsonView::Object(pairs) => lookup(pairs, key),
        _ => None,
    }
}

/// The element of a list; `None` for all other values.
pub open spec fn element(j: JsonView, i: nat) -> Option<JsonView> {
    match j {
        JsonView::List(items) => if i < items.len() {
            Some(items[i as int])
        } else {
            None
        },
        _ => None,
    }
}

/// The elements of a list; none for all other values.
pub open spec fn elements(j: JsonView) -> Seq<JsonView> {
    match j {
        JsonView::List(items) => items,
        _ => Seq::empty(),
    }
}

/// The text of a string; `None` for all other values.
pub open spec fn text_of(j: JsonView) -> Option<Seq<char>> {
    match j {
        JsonView::Text(s) => Some(s),
        _ => None,
    }
}

/// What an optional JSON value says.
pub open spec fn opt_json(o: Option<&Json>) -> Option<JsonView> {
    match o {
        Some(j) => Some(j@),
        None => None,
    }
}

/// The text of an optional JSON value, if it is a string.
pub open spec fn opt_text_of(o: Option<JsonView>) -> Option<Seq<char>> {
    match o {
        Some(j) => text_of(j),
        None => None,
    }
}

impl Json {
    /// The member of an object.
    pub fn get(&self, key: &str) -> (r: Option<&Json>)
        ensures
            opt_json(r) == member(self@, key@),
    {
        match self {
            Json::Object(pairs) => {
                let ghost all = self@->Object_0;
                let mut i: usize = 0;
                proof {
                    assert(all.skip(0) == all);
                }
                while i < pairs.len()
                    invariant
                        i <= pairs@.len(),
                        all.len() == pairs@.len(),
                        forall|k: int|
                            0 <= k < pairs@.len() ==> #[trigger] all[k] == (
                                pairs@[k].0@,
                                pairs@[k].1@,
                            ),
                        self@ == JsonView::Object(all),
                        lookup(all, key@) == lookup(all.skip(i as int), key@),
                    decreases pairs.len() - i,
                {
                    proof {
                        assert(all.skip(i as int)[0] == all[i as int]);
                        assert(all.skip(i as int).skip(1) == all.skip(i + 1));
                    }
                    if same(pairs[i].0.as_str(), key) {
                        return Some(&pairs[i].1);
                    }
                    i += 1;
                }
                None
            },
            _ => None,
        }
    }

    /// The element of a list.
    pub fn at(&self, i: usize) -> (r: Option<&Json>)
        ensures
            opt_json(r) == element(self@, i as nat),
    {
        match self {
            Json::List(items) => {
                if i < items.len() {
                    Some(&items[i])
                } else {
                    None
                }
            },
            _ => None,
        }
    }

    /// The number of elements of a list; none for all other values.
    pub fn len(&self) -> (r: usize)
        ensures
            r == elements(self@).len(),
    {
        match self {
            Json::List(items) => items.len(),
            _ => 0,
        }
    }

    /// The text of a string.
    pub fn as_str(&self) -> (r: Option<&String>)
        ensures
            match r {
                Some(s) => text_of(self@) == Some(s@),
                None => text_of(self@) is None,
            },
    {
        match self {
            Json::Text(s) => Some(s),
            _ => None,
        }
    }
}

// ---------------------------------------------------------------------
// Parsing
// ---------------------------------------------------------------------

/// `serde_json::Value`: a parsed JSON value.
#[verifier::external_type_specification]
#[verifier::external_body]
pub struct ExValue(serde_json::Value);

/// What a `serde_json::Value` holds.
pub uninterp spec fn held(v: Value) -> JsonView;

/// The JSON value that bytes spell, or why they spell none.
pub uninterp spec fn json_text(bytes: Seq<u8>) -> Result<JsonView, Seq<char>>;

/// `serde_json::from_slice` (serde_json), for a `Value`: the value that the
/// bytes spell, or the text of the error if they are no JSON value. Both
/// depend on the bytes alone; the grammar, and what the error says, are left
/// to the name.
#[verifier::external_body]
fn parse_value(bytes: &[u8]) -> (r: Result<Value, String>)
    ensures
        match r {
            Ok(v) => json_text(bytes@) == Ok::<JsonView, Seq<char>>(held(v)),
            Err(why) => json_text(bytes@) == Err::<JsonView, Seq<char>>(why@),
        },
{
    match serde_json::from_slice(bytes) {
        Ok(v) => Ok(v),
        Err(e) => Err(e.to_string()),
    }
}

/// One level of a `serde_json::Value`.
pub enum Level<'a> {
    Null,
    Bool(bool),
    Number,
    Text(&'a String),
    List(&'a Vec<Value>),
    Object(Vec<(&'a String, &'a Value)>),
}

/// What one level, with the values below it, holds.
pub open spec fn level_held(l: Level<'_>) -> JsonView {
    match l {
        Level::Null => JsonView::Null,
        Level::Bool(b) => JsonView::Bool(b),
        Level::Number => JsonView::Number,
        Level::Text(s) => JsonView::Text(s@),
        Level::List(items) => JsonView::List(items@.map_values(|v: Value| held(v))),
        Level::Object(pairs) => JsonView::Object(
            pairs@.map_values(|p: (&String, &Value)| (p.0@, held(*p.1))),
        ),
    }
}

/// The variants of `serde_json::Value` (serde_json), and `Map::iter` for
/// the members of an object: the level is that of the value, with the
/// values below it in their order.
#[verifier::external_body]
fn open_value(v: &Value) -> (r: Level<'_>)
    ensures
        level_held(r) == held(*v),
{
    match v {
        Value::Null => Level::Null,
        Value::Bool(b) => Level::Bool(*b),
        Value::Number(_) => Level::Number,
        Value::String(s) => Level::Text(s),
        Value::Array(a) => Level::List(a),
        Value::Object(m) => Level::Object(m.iter().collect()),
    }
}

/// The value in this crate's form.
fn json_of(v: &Value) -> (r: Json)
    ensures
        r@ == held(*v),
    decreases held(*v),
{
    match open_value(v) {
        Level::Null => Json::Null,
        Level::Bool(b) => Json::Bool(b),
        Level::Number => Json::Number,
        Level::Text(s) => Json::Text(s.clone()),
        Level::List(items) => {
            let ghost all = held(*v)->List_0;
            let mut out: Vec<Json> = Vec::new();
            let mut i: usize = 0;
            while i < items.len()
                invariant
                    i <= items@.len(),
                    held(*v) == JsonView::List(all),
                    all == items@.map_values(|v: Value| held(v)),
                    out@.len() == i,
                    forall|k: int| 0 <= k < i ==> (#[trigger] out@[k])@ == all[k],
                decreases items.len() - i,
            {
                proof {
                    assert(all[i as int] == held(items@[i as int]));
                    assert(decreases_to!(held(*v) => held(*v)->List_0));
                    assert(decreases_to!(all => all[i as int]));
                }
                out.push(json_of(&items[i]));
                i += 1;
            }
            let r = Json::List(out);
            proof {
                assert(r@->List_0 =~= all);
            }
            r
        },
        Level::Object(pairs) => {
            let ghost all = held(*v)->Object_0;
            let mut out: Vec<(String, Json)> = Vec::new();
            let mut i: usize = 0;
            while i < pairs.len()
                invariant
                    i <= pairs@.len(),
                    held(*v) == JsonView::Object(all),
                    all == pairs@.map_values(|p: (&String, &Value)| (p.0@, held(*p.1))),
                    out@.len() == i,
                    forall|k: int|
                        0 <= k < i ==> ((#[trigger] out@[k]).0@, out@[k].1@) == all[k],
                decreases pairs.len() - i,
            {
                proof {
                    assert(all[i as int] == (pairs@[i as int].0@, held(*pairs@[i as int].1)));
                    assert(decreases_to!(held(*v) => held(*v)->Object_0));
                    assert(decreases_to!(all => all[i as int]));
                    assert(decreases_to!(all[i as int] => all[i as int].1));
                }
                out.push((pairs[i].0.clone(), json_of(pairs[i].1)));
                i += 1;
            }
            let r = Json::Object(out);
            proof {
                assert(r@->Object_0 =~= all);
            }
            r
        },
    }
}

/// The JSON value that the bytes spell; the error says why they spell none.
pub fn parse_json(bytes: &[u8]) -> (r: Result<Json, Error>)
    ensures
        match r {
            Ok(j) => json_text(bytes@) == Ok::<JsonView, Seq<char>>(j@),
            Err(e) => json_text(bytes@) is Err && e@ == error::said(json_text(bytes@)->Err_0),
        },
{
    match parse_value(bytes) {
        Ok(v) => Ok(json_of(&v)),
        Err(why) => Err(failure(why)),
    }
}

} // verus!
