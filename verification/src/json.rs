use vstd::prelude::*;

use crate::text::{owned, str_eq};

verus! {

/// A JSON number: a non-negative integer, a negative integer, or a
/// floating-point number kept as its text.
#[derive(Debug, Clone, PartialEq, Eq)]
pub enum JsonNumber {
    PosInt(u64),
    NegInt(i64),
    Float(String),
}

/// A JSON value. The entries of an object are kept in order; a key occurs
/// once in an object read from JSON text.
#[derive(Debug)]
pub enum Json {
    Null,
    Bool(bool),
    Number(JsonNumber),
    Str(String),
    Array(Vec<Json>),
    Object(Vec<(String, Json)>),
}

/// A JSON number as mathematical values.
pub enum NumberView {
    PosInt(nat),
    NegInt(int),
    Float(Seq<char>),
}

/// A JSON value as mathematical values.
pub enum JsonView {
    Null,
    Bool(bool),
    Number(NumberView),
    Str(Seq<char>),
    Array(Seq<JsonView>),
    Object(Seq<(Seq<char>, JsonView)>),
}

impl JsonNumber {
    pub open spec fn view(&self) -> NumberView {
        match self {
            JsonNumber::PosInt(n) => NumberView::PosInt(*n as nat),
            JsonNumber::NegInt(n) => NumberView::NegInt(*n as int),
            JsonNumber::Float(s) => NumberView::Float(s@),
        }
    }
}

impl Json {
    pub open spec fn view(&self) -> JsonView
        decreases self,
    {
        match self {
            Json::Null => JsonView::Null,
            Json::Bool(b) => JsonView::Bool(*b),
            Json::Number(n) => JsonView::Number(n@),
            Json::Str(s) => JsonView::Str(s@),
            Json::Array(v) => JsonView::Array(Seq::new(v@.len(), |i: int|
                if 0 <= i < v@.len() { v@[i].view() } else { JsonView::Null })),
            Json::Object(v) => JsonView::Object(Seq::new(v@.len(), |i: int|
                if 0 <= i < v@.len() { (v@[i].0@, v@[i].1.view()) } else { (Seq::empty(), JsonView::Null) })),
        }
    }

    /// A copy of this value.
    pub fn deep_copy(&self) -> (r: Json)
        ensures r@ == self@,
        decreases self,
    {
        match self {
            Json::Null => {
                let r = Json::Null;
                assert(r@ == JsonView::Null);
                assert(self@ == JsonView::Null);
                r
            },
            Json::Bool(b) => { let r = Json::Bool(*b); assert(r@ == self@); r },
            Json::Number(n) => Json::Number(match n {
                JsonNumber::PosInt(k) => JsonNumber::PosInt(*k),
                JsonNumber::NegInt(k) => JsonNumber::NegInt(*k),
                JsonNumber::Float(t) => JsonNumber::Float(t.clone()),
            }),
            Json::Str(s) => { let r = Json::Str(s.clone()); assert(r@ == self@); r },
            Json::Array(v) => {
                let mut r: Vec<Json> = Vec::new();
                let mut i: usize = 0;
                while i < v.len()
                    invariant
                        i <= v@.len(),
                        *self == Json::Array(*v),
                        r@.len() == i,
                        forall|j: int| 0 <= j < i ==> (#[trigger] r@[j])@ == v@[j]@,
                    decreases v.len() - i,
                {
                    proof {
                        assert(decreases_to!(*self => self->Array_0));
                        assert(decreases_to!(self->Array_0 => self->Array_0@));
                        assert(decreases_to!(self->Array_0@ => self->Array_0@[i as int]));
                    }
                    r.push(v[i].deep_copy());
                    i += 1;
                }
                let ghost rv = r@;
                let r = Json::Array(r);
                proof {
                    let a = Seq::new(rv.len(), |i: int| if 0 <= i < rv.len() { rv[i].view() } else { JsonView::Null });
                    let b = Seq::new(v@.len(), |i: int| if 0 <= i < v@.len() { v@[i].view() } else { JsonView::Null });
                    assert(a =~= b);
                    let x = r@->Array_0;
                    let y = self@->Array_0;
                    assert(x.len() == rv.len());
                    assert(forall|i: int| 0 <= i < x.len() ==> x[i] == a[i]);
                    assert(x =~= a);
                    assert(y =~= b);
                }
                r
            },
            Json::Object(v) => {
                let mut r: Vec<(String, Json)> = Vec::new();
                let mut i: usize = 0;
                while i < v.len()
                    invariant
                        i <= v@.len(),
                        *self == Json::Object(*v),
                        r@.len() == i,
                        forall|j: int| 0 <= j < i ==> (#[trigger] r@[j]).0@ == v@[j].0@ && r@[j].1@ == v@[j].1@,
                    decreases v.len() - i,
                {
                    proof {
                        assert(decreases_to!(*self => self->Object_0));
                        assert(decreases_to!(self->Object_0 => self->Object_0@));
                        assert(decreases_to!(self->Object_0@ => self->Object_0@[i as int]));
                        assert(decreases_to!(self->Object_0@[i as int] => self->Object_0@[i as int].1));
                    }
                    r.push((v[i].0.clone(), v[i].1.deep_copy()));
                    i += 1;
                }
                let ghost rv = r@;
                let r = Json::Object(r);
                proof {
                    let a = Seq::new(rv.len(), |i: int| if 0 <= i < rv.len() { (rv[i].0@, rv[i].1.view()) } else { (Seq::empty(), JsonView::Null) });
                    let b = Seq::new(v@.len(), |i: int| if 0 <= i < v@.len() { (v@[i].0@, v@[i].1.view()) } else { (Seq::empty(), JsonView::Null) });
                    assert(a =~= b);
                    let x = r@->Object_0;
                    let y = self@->Object_0;
                    assert(x.len() == rv.len());
                    assert(forall|i: int| 0 <= i < x.len() ==> x[i] == a[i]);
                    assert(x =~= a);
                    assert(y =~= b);
                }
                r
            },
        }
    }
}

impl Clone for Json {
    fn clone(&self) -> (r: Json)
        ensures r@ == self@,
    {
        self.deep_copy()
    }
}

/// The first entry of `entries` with key `key`, from index `from` on, or -1.
pub open spec fn entry_index(entries: Seq<(Seq<char>, JsonView)>, key: Seq<char>, from: int) -> int
    decreases entries.len() - from,
{
    if from < 0 || from >= entries.len() {
        -1
    } else if entries[from].0 == key {
        from
    } else {
        entry_index(entries, key, from + 1)
    }
}

/// The value of `key` in an object's entries.
pub open spec fn object_get(entries: Seq<(Seq<char>, JsonView)>, key: Seq<char>) -> Option<JsonView> {
    let i = entry_index(entries, key, 0);
    if i < 0 { None } else { Some(entries[i].1) }
}

pub proof fn lemma_entry_index(entries: Seq<(Seq<char>, JsonView)>, key: Seq<char>, from: int)
    requires 0 <= from,
    ensures
        entry_index(entries, key, from) == -1 || (from <= entry_index(entries, key, from) < entries.len()
            && entries[entry_index(entries, key, from)].0 == key),
    decreases entries.len() - from,
{
    if from < entries.len() && entries[from].0 != key {
        lemma_entry_index(entries, key, from + 1);
    }
}

/// The position of `key` among the entries of an object.
pub fn find_entry(entries: &Vec<(String, Json)>, key: &str) -> (r: Option<usize>)
    ensures
        ({
            let v = Seq::new(entries@.len(), |i: int| (entries@[i].0@, entries@[i].1@));
            match r {
                Some(i) => i as int == entry_index(v, key@, 0) && i < entries@.len(),
                None => entry_index(v, key@, 0) == -1,
            }
        }),
{
    let ghost v = Seq::new(entries@.len(), |i: int| (entries@[i].0@, entries@[i].1@));
    let mut i: usize = 0;
    while i < entries.len()
        invariant
            i <= entries@.len(),
            v == Seq::new(entries@.len(), |i: int| (entries@[i].0@, entries@[i].1@)),
            entry_index(v, key@, 0) == entry_index(v, key@, i as int),
        decreases entries.len() - i,
    {
        if str_eq(entries[i].0.as_str(), key) {
            return Some(i);
        }
        i += 1;
    }
    None
}



/// Whether two JSON values are equal.
pub fn json_eq(a: &Json, b: &Json) -> (r: bool)
    ensures r == (a@ == b@),
    decreases a,
{
    match (a, b) {
        (Json::Null, Json::Null) => true,
        (Json::Bool(x), Json::Bool(y)) => *x == *y,
        (Json::Number(x), Json::Number(y)) => match (x, y) {
            (JsonNumber::PosInt(m), JsonNumber::PosInt(n)) => *m == *n,
            (JsonNumber::NegInt(m), JsonNumber::NegInt(n)) => *m == *n,
            (JsonNumber::Float(m), JsonNumber::Float(n)) => str_eq(m.as_str(), n.as_str()),
            (JsonNumber::PosInt(m), JsonNumber::NegInt(n)) => {
                proof { if a@ == b@ { assert(x@ == y@); } }
                false
            },
            (JsonNumber::NegInt(m), JsonNumber::PosInt(n)) => {
                proof { if a@ == b@ { assert(x@ == y@); } }
                false
            },
            _ => {
                proof { if a@ == b@ { assert(x@ == y@); } }
                false
            },
        },
        (Json::Str(x), Json::Str(y)) => str_eq(x.as_str(), y.as_str()),
        (Json::Array(x), Json::Array(y)) => {
            let ghost ax = a@->Array_0;
            let ghost by = b@->Array_0;
            if x.len() != y.len() {
                proof { if a@ == b@ { assert(ax.len() == by.len()); } }
                return false;
            }
            let mut i: usize = 0;
            while i < x.len()
                invariant
                    i <= x@.len(),
                    x@.len() == y@.len(),
                    *a == Json::Array(*x),
                    *b == Json::Array(*y),
                    ax == a@->Array_0,
                    by == b@->Array_0,
                    forall|j: int| 0 <= j < i ==> (#[trigger] x@[j])@ == y@[j]@,
                decreases x.len() - i,
            {
                proof {
                    assert(decreases_to!(*a => a->Array_0));
                    assert(decreases_to!(a->Array_0 => a->Array_0@));
                    assert(decreases_to!(a->Array_0@ => a->Array_0@[i as int]));
                }
                if !json_eq(&x[i], &y[i]) {
                    proof {
                        if a@ == b@ {
                            assert(ax[i as int] == x@[i as int]@);
                            assert(by[i as int] == y@[i as int]@);
                        }
                    }
                    return false;
                }
                i += 1;
            }
            proof {
                assert forall|j: int| 0 <= j < ax.len() implies ax[j] == by[j] by {
                    assert(ax[j] == x@[j]@);
                    assert(by[j] == y@[j]@);
                }
                assert(ax =~= by);
            }
            true
        },
        (Json::Object(x), Json::Object(y)) => {
            let ghost ax = a@->Object_0;
            let ghost by = b@->Object_0;
            if x.len() != y.len() {
                proof { if a@ == b@ { assert(ax.len() == by.len()); } }
                return false;
            }
            let mut i: usize = 0;
            while i < x.len()
                invariant
                    i <= x@.len(),
                    x@.len() == y@.len(),
                    *a == Json::Object(*x),
                    *b == Json::Object(*y),
                    ax == a@->Object_0,
                    by == b@->Object_0,
                    forall|j: int| 0 <= j < i ==> (#[trigger] x@[j]).0@ == y@[j].0@ && x@[j].1@ == y@[j].1@,
                decreases x.len() - i,
            {
                proof {
                    assert(decreases_to!(*a => a->Object_0));
                    assert(decreases_to!(a->Object_0 => a->Object_0@));
                    assert(decreases_to!(a->Object_0@ => a->Object_0@[i as int]));
                    assert(decreases_to!(a->Object_0@[i as int] => a->Object_0@[i as int].1));
                }
                if !str_eq(x[i].0.as_str(), y[i].0.as_str()) || !json_eq(&x[i].1, &y[i].1) {
                    proof {
                        if a@ == b@ {
                            assert(ax[i as int] == (x@[i as int].0@, x@[i as int].1@));
                            assert(by[i as int] == (y@[i as int].0@, y@[i as int].1@));
                        }
                    }
                    return false;
                }
                i += 1;
            }
            proof {
                assert forall|j: int| 0 <= j < ax.len() implies ax[j] == by[j] by {
                    assert(ax[j] == (x@[j].0@, x@[j].1@));
                    assert(by[j] == (y@[j].0@, y@[j].1@));
                }
                assert(ax =~= by);
            }
            true
        },
        _ => {
            proof {
                if a@ == b@ {
                    match a { Json::Null => {}, Json::Bool(_) => {}, Json::Number(_) => {}, Json::Str(_) => {}, Json::Array(_) => {}, Json::Object(_) => {} }
                }
            }
            false
        },
    }
}

/// The entries of an object after setting `key` to `value`: the first entry
/// with `key` takes the value, or the entry is appended.
pub open spec fn entries_set(entries: Seq<(Seq<char>, JsonView)>, key: Seq<char>, value: JsonView) -> Seq<(Seq<char>, JsonView)> {
    let i = entry_index(entries, key, 0);
    if i == -1 { entries.push((key, value)) } else { entries.update(i, (key, value)) }
}

/// Sets `key` to `value` among the entries of an object.
pub fn set_entry(entries: &mut Vec<(String, Json)>, key: &str, value: Json)
    ensures pairs_of(final(entries)@) == entries_set(pairs_of(old(entries)@), key@, value@),
{
    let ghost v0 = pairs_of(entries@);
    let found = find_entry(entries, key);
    proof {
        assert(v0 =~= Seq::new(entries@.len(), |i: int| (entries@[i].0@, entries@[i].1@)));
        lemma_entry_index(v0, key@, 0);
    }
    let ghost vv = value@;
    match found {
        Some(i) => {
            entries.set(i, (owned(key), value));
            proof { assert(pairs_of(entries@) =~= v0.update(i as int, (key@, vv))); }
        },
        None => {
            entries.push((owned(key), value));
            proof { assert(pairs_of(entries@) =~= v0.push((key@, vv))); }
        },
    }
}


/// The entries of an object after setting, in order, the first `n` entries
/// of `src`.
pub open spec fn extend_entries(target: Seq<(Seq<char>, JsonView)>, src: Seq<(Seq<char>, JsonView)>, n: int) -> Seq<(Seq<char>, JsonView)>
    decreases n,
{
    if n <= 0 { target } else { entries_set(extend_entries(target, src, n - 1), src[n - 1].0, src[n - 1].1) }
}

/// Sets every entry of `src`, in order, among the entries of `target`.
pub fn extend_object(target: &mut Vec<(String, Json)>, src: &Vec<(String, Json)>)
    ensures pairs_of(final(target)@) == extend_entries(pairs_of(old(target)@), pairs_of(src@), src@.len() as int),
{
    let ghost t0 = pairs_of(target@);
    let mut i: usize = 0;
    while i < src.len()
        invariant
            i <= src@.len(),
            pairs_of(target@) == extend_entries(t0, pairs_of(src@), i as int),
        decreases src.len() - i,
    {
        set_entry(target, src[i].0.as_str(), src[i].1.deep_copy());
        i += 1;
    }
}

/// The entries of an object as mathematical values.
pub open spec fn pairs_of(v: Seq<(String, Json)>) -> Seq<(Seq<char>, JsonView)> {
    Seq::new(v.len(), |i: int| (v[i].0@, v[i].1@))
}

/// The items of an array as mathematical values.
pub open spec fn items_of(v: Seq<Json>) -> Seq<JsonView> {
    Seq::new(v.len(), |i: int| v[i]@)
}

/// An object with `entries`, in order.
pub fn object_of(entries: Vec<(String, Json)>) -> (r: Json)
    ensures r@ == JsonView::Object(pairs_of(entries@)),
{
    let ghost p = pairs_of(entries@);
    let r = Json::Object(entries);
    proof {
        let x = r@->Object_0;
        assert(x =~= p);
    }
    r
}

/// An array of `items`, in order.
pub fn array_of(items: Vec<Json>) -> (r: Json)
    ensures r@ == JsonView::Array(items_of(items@)),
{
    let ghost p = items_of(items@);
    let r = Json::Array(items);
    proof {
        let x = r@->Array_0;
        assert(x =~= p);
    }
    r
}

/// A JSON string.
pub fn json_str(s: &str) -> (r: Json)
    ensures r@ == JsonView::Str(s@),
{
    Json::Str(owned(s))
}

/// An object with one entry.
pub fn obj1(k0: &str, v0: Json) -> (r: Json)
    ensures r@ == JsonView::Object(seq![(k0@, v0@)]),
{
    let mut e: Vec<(String, Json)> = Vec::new();
    let ghost a = v0@;
    e.push((owned(k0), v0));
    let r = object_of(e);
    proof { assert(pairs_of(e@) =~= seq![(k0@, a)]); }
    r
}

/// An object with two entries.
pub fn obj2(k0: &str, v0: Json, k1: &str, v1: Json) -> (r: Json)
    ensures r@ == JsonView::Object(seq![(k0@, v0@), (k1@, v1@)]),
{
    let ghost (a, b) = (v0@, v1@);
    let mut e: Vec<(String, Json)> = Vec::new();
    e.push((owned(k0), v0));
    e.push((owned(k1), v1));
    proof { assert(pairs_of(e@) =~= seq![(k0@, a), (k1@, b)]); }
    object_of(e)
}

/// An object with three entries.
pub fn obj3(k0: &str, v0: Json, k1: &str, v1: Json, k2: &str, v2: Json) -> (r: Json)
    ensures r@ == JsonView::Object(seq![(k0@, v0@), (k1@, v1@), (k2@, v2@)]),
{
    let ghost (a, b, c) = (v0@, v1@, v2@);
    let mut e: Vec<(String, Json)> = Vec::new();
    e.push((owned(k0), v0));
    e.push((owned(k1), v1));
    e.push((owned(k2), v2));
    proof { assert(pairs_of(e@) =~= seq![(k0@, a), (k1@, b), (k2@, c)]); }
    object_of(e)
}

/// An object with four entries.
pub fn obj4(k0: &str, v0: Json, k1: &str, v1: Json, k2: &str, v2: Json, k3: &str, v3: Json) -> (r: Json)
    ensures r@ == JsonView::Object(seq![(k0@, v0@), (k1@, v1@), (k2@, v2@), (k3@, v3@)]),
{
    let ghost (a, b, c, d) = (v0@, v1@, v2@, v3@);
    let mut e: Vec<(String, Json)> = Vec::new();
    e.push((owned(k0), v0));
    e.push((owned(k1), v1));
    e.push((owned(k2), v2));
    e.push((owned(k3), v3));
    proof { assert(pairs_of(e@) =~= seq![(k0@, a), (k1@, b), (k2@, c), (k3@, d)]); }
    object_of(e)
}

/// An array with one item.
pub fn arr1(v0: Json) -> (r: Json)
    ensures r@ == JsonView::Array(seq![v0@]),
{
    let ghost a = v0@;
    let mut e: Vec<Json> = Vec::new();
    e.push(v0);
    proof { assert(items_of(e@) =~= seq![a]); }
    array_of(e)
}

} // verus!
