//! A JSON document as the library reads it: the payloads that LCEDA returns,
//! held as plain values.
use vstd::prelude::*;

verus! {

/// A JSON number: the text that `Display` prints for it, and its value when
/// it is an integer that fits in an `i64` (what `as_i64` gives).
#[derive(Debug)]
pub struct Number {
    pub text: String,
    pub as_i64: Option<i64>,
}

impl Clone for Number {
    fn clone(&self) -> (r: Self)
        ensures
            r == *self,
    {
        let as_i64 = match self.as_i64 {
            Some(n) => Some(n),
            None => None,
        };
        Number { text: self.text.clone(), as_i64 }
    }
}

/// A JSON value. An object keeps its entries in order; a lookup by key gives
/// the first entry with that key.
#[derive(Debug)]
pub enum Value {
    Null,
    Bool(bool),
    Number(Number),
    String(String),
    Array(Vec<Value>),
    Object(Vec<(String, Value)>),
}

/// A JSON value as mathematics: the view of a `Value`.
pub enum JsonView {
    Null,
    Bool(bool),
    Number(Seq<char>, Option<i64>),
    Str(Seq<char>),
    Array(Seq<JsonView>),
    Object(Seq<(Seq<char>, JsonView)>),
}

pub open spec fn deep(v: Value) -> JsonView
    decreases v,
{
    match v {
        Value::Null => JsonView::Null,
        Value::Bool(b) => JsonView::Bool(b),
        Value::Number(n) => JsonView::Number(n.text@, n.as_i64),
        Value::String(t) => JsonView::Str(t@),
        Value::Array(a) => JsonView::Array(
            Seq::new(
                a@.len(),
                |i: int|
                    if 0 <= i < a@.len() {
                        deep(a@[i])
                    } else {
                        JsonView::Null
                    },
            ),
        ),
        Value::Object(e) => JsonView::Object(
            Seq::new(
                e@.len(),
                |i: int|
                    if 0 <= i < e@.len() {
                        (e@[i].0@, deep(e@[i].1))
                    } else {
                        (Seq::empty(), JsonView::Null)
                    },
            ),
        ),
    }
}

impl View for Value {
    type V = JsonView;

    open spec fn view(&self) -> JsonView {
        deep(*self)
    }
}

impl Clone for Value {
    fn clone(&self) -> (r: Self)
        ensures
            r@ == self@,
    {
        copy_value(self)
    }
}

/// A copy of a value.
pub fn copy_value(v: &Value) -> (r: Value)
    ensures
        r@ == v@,
    decreases v,
{
    match v {
        Value::Null => Value::Null,
        Value::Bool(b) => Value::Bool(*b),
        Value::Number(n) => Value::Number(n.clone()),
        Value::String(t) => Value::String(t.clone()),
        Value::Array(items) => {
            let mut out: Vec<Value> = Vec::new();
            let mut i: usize = 0;
            while i < items.len()
                invariant
                    i <= items@.len(),
                    *v == Value::Array(*items),
                    out@.len() == i,
                    forall|k: int| 0 <= k < i ==> (#[trigger] out@[k])@ == items@[k]@,
                decreases items.len() - i,
            {
                proof {
                    assert(decreases_to!(*v => v->Array_0));
                    assert(decreases_to!(*items => items@));
                    assert(decreases_to!(items@ => items@[i as int]));
                }
                let c = copy_value(&items[i]);
                out.push(c);
                i += 1;
            }
            let r = Value::Array(out);
            assert(deep(r) == deep(*v)) by {
                if let JsonView::Array(x) = deep(r) {
                    if let JsonView::Array(y) = deep(*v) {
                        assert(x =~= y);
                    }
                }
            }
            r
        },
        Value::Object(entries) => {
            let mut out: Vec<(String, Value)> = Vec::new();
            let mut i: usize = 0;
            while i < entries.len()
                invariant
                    i <= entries@.len(),
                    *v == Value::Object(*entries),
                    out@.len() == i,
                    forall|k: int|
                        0 <= k < i ==> (#[trigger] out@[k]).0@ == entries@[k].0@ && out@[k].1@
                            == entries@[k].1@,
                decreases entries.len() - i,
            {
                proof {
                    assert(decreases_to!(*v => v->Object_0));
                    assert(decreases_to!(*entries => entries@));
                    assert(decreases_to!(entries@ => entries@[i as int]));
                    assert(decreases_to!(entries@[i as int] => entries@[i as int].1));
                }
                let k = entries[i].0.clone();
                let c = copy_value(&entries[i].1);
                out.push((k, c));
                i += 1;
            }
            let r = Value::Object(out);
            assert(deep(r) == deep(*v)) by {
                if let JsonView::Object(x) = deep(r) {
                    if let JsonView::Object(y) = deep(*v) {
                        assert(x =~= y);
                    }
                }
            }
            r
        },
    }
}

/// The value of the first entry whose key is `key`.
pub open spec fn entries_get(e: Seq<(Seq<char>, JsonView)>, key: Seq<char>) -> Option<JsonView>
    decreases e.len(),
{
    if e.len() == 0 {
        None
    } else if e[0].0 == key {
        Some(e[0].1)
    } else {
        entries_get(e.drop_first(), key)
    }
}

/// `value.get(key)`: the member `key` of an object; nothing for other values.
pub open spec fn spec_get(v: JsonView, key: Seq<char>) -> Option<JsonView> {
    match v {
        JsonView::Object(e) => entries_get(e, key),
        _ => None,
    }
}

/// The value reached by following the object keys of `path` in turn.
pub open spec fn spec_nested(v: JsonView, path: Seq<Seq<char>>) -> Option<JsonView>
    decreases path.len(),
{
    if path.len() == 0 {
        Some(v)
    } else {
        match spec_nested(v, path.drop_last()) {
            Some(inner) => spec_get(inner, path.last()),
            None => None,
        }
    }
}

/// A borrowed optional value, read through its view.
pub open spec fn opt_view(r: Option<&Value>) -> Option<JsonView> {
    match r {
        Some(x) => Some(x@),
        None => None,
    }
}

/// The keys of a path of string slices.
pub open spec fn path_keys(path: Seq<&str>) -> Seq<Seq<char>> {
    path.map_values(|k: &str| k@)
}

/// The view of an object's entries.
pub open spec fn entries_view(e: Seq<(String, Value)>) -> Seq<(Seq<char>, JsonView)> {
    Seq::new(e.len(), |i: int| (e[i].0@, e[i].1@))
}

impl Value {
    /// `value.get(key)`.
    pub fn get(&self, key: &str) -> (r: Option<&Value>)
        ensures
            opt_view(r) == spec_get(self@, key@),
    {
        match self {
            Value::Object(entries) => {
                let ghost ev = entries_view(entries@);
                assert(self@ == JsonView::Object(ev)) by {
                    if let JsonView::Object(x) = self@ {
                        assert(x =~= ev);
                    }
                }
                let key_string = String::from_str(key);
                let mut i: usize = 0;
                assert(ev.skip(0) =~= ev);
                while i < entries.len()
                    invariant
                        i <= entries@.len(),
                        key_string@ == key@,
                        ev == entries_view(entries@),
                        self@ == JsonView::Object(ev),
                        entries_get(ev, key@) == entries_get(ev.skip(i as int), key@),
                    decreases entries.len() - i,
                {
                    let ghost rest = ev.skip(i as int);
                    assert(rest.drop_first() =~= ev.skip(i + 1));
                    assert(rest[0] == ev[i as int]);
                    if entries[i].0 == key_string {
                        assert(entries_get(rest, key@) == Some(rest[0].1));
                        return Some(&entries[i].1);
                    }
                    i += 1;
                }
                assert(ev.skip(i as int).len() == 0);
                None
            },
            _ => None,
        }
    }

    /// `value.as_str()`: the text of a string value.
    pub fn as_str(&self) -> (r: Option<&String>)
        ensures
            r matches Some(t) ==> self@ == JsonView::Str(t@),
            r is None ==> !(self@ is Str),
    {
        match self {
            Value::String(t) => Some(t),
            _ => None,
        }
    }

    /// `value.as_array()`: the elements of an array value.
    pub fn as_array(&self) -> (r: Option<&Vec<Value>>)
        ensures
            r matches Some(a) ==> self@ == JsonView::Array(a@.map_values(|x: Value| x@)),
            r is None ==> !(self@ is Array),
    {
        match self {
            Value::Array(a) => {
                assert(self@ == JsonView::Array(a@.map_values(|x: Value| x@))) by {
                    if let JsonView::Array(x) = self@ {
                        assert(x =~= a@.map_values(|x: Value| x@));
                    }
                }
                Some(a)
            },
            _ => None,
        }
    }

    /// `value.as_i64()`: an integer number that fits in an `i64`.
    pub fn as_i64(&self) -> (r: Option<i64>)
        ensures
            r == (match self@ {
                JsonView::Number(_, n) => n,
                _ => None,
            }),
    {
        match self {
            Value::Number(n) => n.as_i64,
            _ => None,
        }
    }
}

} // verus!
