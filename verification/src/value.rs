//! Request field values, their mathematical view, and the comparison the
//! matcher uses.

use vstd::prelude::*;
use crate::text;

verus! {

/// A single typed field value of an incoming request.
///
/// Policy rule fields are always plain strings; request fields may carry a
/// string, an integer, a boolean, or a structured attribute object whose
/// entries are string key/value pairs (nested values arrive already rendered
/// as strings by the caller).
pub enum Value {
    S(String),
    I(i64),
    B(bool),
    Obj(Vec<(String, String)>),
}

/// The mathematical model of a [`Value`].
pub enum ValView {
    S(Seq<char>),
    I(int),
    B(bool),
    Obj(Seq<(Seq<char>, Seq<char>)>),
}

impl View for Value {
    type V = ValView;

    open spec fn view(&self) -> ValView {
        match self {
            Value::S(s) => ValView::S(s@),
            Value::I(i) => ValView::I(*i as int),
            Value::B(b) => ValView::B(*b),
            Value::Obj(entries) => ValView::Obj(
                entries@.map_values(|p: (String, String)| (p.0@, p.1@)),
            ),
        }
    }
}

/// The views of a request, field by field.
pub open spec fn req_views(req: Seq<Value>) -> Seq<ValView> {
    req.map_values(|v: Value| v@)
}

/// An exact copy of a value.
pub fn clone_value(v: &Value) -> (r: Value)
    ensures
        r@ == v@,
{
    match v {
        Value::S(s) => Value::S(s.clone()),
        Value::I(i) => Value::I(*i),
        Value::B(b) => Value::B(*b),
        Value::Obj(entries) => {
            let n = entries.len();
            let mut out: Vec<(String, String)> = Vec::new();
            let mut i: usize = 0;
            while i < n
                invariant
                    n == entries@.len(),
                    0 <= i <= n,
                    out@.len() == i,
                    forall|j: int| 0 <= j < i ==> out@[j] == entries@[j],
                decreases n - i,
            {
                let e = &entries[i];
                out.push((e.0.clone(), e.1.clone()));
                i += 1;
            }
            proof {
                assert(out@ =~= entries@);
            }
            Value::Obj(out)
        },
    }
}

/// The wildcard string `*`, which compares equal to anything.
pub open spec fn is_wildcard(v: ValView) -> bool {
    v matches ValView::S(s) && s == "*"@
}

/// Equality of two field values, as the matcher sees it.
///
/// A `*` on either side matches anything. Strings compare by their
/// characters; integers and booleans by value. A string `"true"` or
/// `"false"` compared against a boolean is canonicalized first. Structured
/// values take part in comparisons only through attribute access, so an
/// `Obj` on either side (not a wildcard) compares unequal.
pub open spec fn spec_val_eq(a: ValView, b: ValView) -> bool {
    if is_wildcard(a) || is_wildcard(b) {
        true
    } else {
        match (a, b) {
            (ValView::S(x), ValView::S(y)) => x == y,
            (ValView::I(x), ValView::I(y)) => x == y,
            (ValView::B(x), ValView::B(y)) => x == y,
            (ValView::S(x), ValView::B(y)) => (x == "true"@ && y) || (x == "false"@ && !y),
            (ValView::B(x), ValView::S(y)) => (y == "true"@ && x) || (y == "false"@ && !x),
            _ => false,
        }
    }
}

/// Exec decision procedure for [`spec_val_eq`].
pub fn val_eq(a: &Value, b: &Value) -> (r: bool)
    ensures
        r == spec_val_eq(a@, b@),
{
    if wildcard(a) || wildcard(b) {
        return true;
    }
    match (a, b) {
        (Value::S(x), Value::S(y)) => text::str_eq(x.as_str(), y.as_str()),
        (Value::I(x), Value::I(y)) => *x == *y,
        (Value::B(x), Value::B(y)) => *x == *y,
        (Value::S(x), Value::B(y)) => {
            (text::str_eq(x.as_str(), "true") && *y) || (text::str_eq(x.as_str(), "false") && !*y)
        },
        (Value::B(x), Value::S(y)) => {
            (text::str_eq(y.as_str(), "true") && *x) || (text::str_eq(y.as_str(), "false") && !*x)
        },
        _ => false,
    }
}

/// Exec test of [`is_wildcard`].
pub fn wildcard(v: &Value) -> (r: bool)
    ensures
        r == is_wildcard(v@),
{
    match v {
        Value::S(s) => text::str_eq(s.as_str(), "*"),
        _ => false,
    }
}

/// The value under `key` in an attribute object: the first entry whose key
/// matches, if any.
pub open spec fn spec_obj_get(entries: Seq<(Seq<char>, Seq<char>)>, key: Seq<char>) -> Option<
    Seq<char>,
>
    decreases entries.len(),
{
    if entries.len() == 0 {
        None
    } else if entries[0].0 == key {
        Some(entries[0].1)
    } else {
        spec_obj_get(entries.skip(1), key)
    }
}

/// Exec lookup matching [`spec_obj_get`] on the entries' views.
pub fn obj_get(entries: &Vec<(String, String)>, key: &str) -> (r: Option<String>)
    ensures
        match r {
            Some(v) => spec_obj_get(
                entries@.map_values(|p: (String, String)| (p.0@, p.1@)),
                key@,
            ) == Some(v@),
            None => spec_obj_get(
                entries@.map_values(|p: (String, String)| (p.0@, p.1@)),
                key@,
            ) is None,
        },
{
    let ghost ev = entries@.map_values(|p: (String, String)| (p.0@, p.1@));
    let n = entries.len();
    let mut i: usize = 0;
    proof {
        assert(ev.skip(0) =~= ev);
    }
    while i < n
        invariant
            ev == entries@.map_values(|p: (String, String)| (p.0@, p.1@)),
            n == entries@.len(),
            0 <= i <= n,
            spec_obj_get(ev, key@) == spec_obj_get(ev.skip(i as int), key@),
        decreases n - i,
    {
        let e = &entries[i];
        proof {
            assert(ev.skip(i as int)[0] == ev[i as int]);
            assert(ev.skip(i as int).skip(1) =~= ev.skip(i + 1));
        }
        if text::str_eq(e.0.as_str(), key) {
            return Some(e.1.clone());
        }
        i += 1;
    }
    proof {
        assert(ev.skip(n as int) =~= Seq::<(Seq<char>, Seq<char>)>::empty());
    }
    None
}

} // verus!
