//! The JSON values that flow through the daemon: tool arguments, tool
//! outputs, schemas and event-log records.
//!
//! `JsonValue` holds a JSON document as plain values; its view `JsonView`
//! is the mathematical model every contract speaks of. Numbers keep what the
//! logic reads: non-negative integers, negative integers, and the decimal
//! text of any other number.
use vstd::prelude::*;
use crate::text::str_eq;

verus! {

/// A JSON number.
#[derive(Clone, Debug, PartialEq)]
pub enum JsonNumber {
    /// An integer `>= 0`.
    PosInt(u64),
    /// An integer `< 0`.
    NegInt(i64),
    /// Any other number, as its decimal text.
    Float(String),
}

/// A JSON value. Object members keep their order.
#[derive(Debug, PartialEq)]
pub enum JsonValue {
    Null,
    Bool(bool),
    Number(JsonNumber),
    Str(String),
    Array(Vec<JsonValue>),
    Object(Vec<(String, JsonValue)>),
}

/// Model of a JSON number.
pub enum NumberView {
    PosInt(u64),
    NegInt(i64),
    Float(Seq<char>),
}

/// Model of a JSON value.
pub enum JsonView {
    Null,
    Bool(bool),
    Number(NumberView),
    Str(Seq<char>),
    Array(Seq<JsonView>),
    Object(Seq<(Seq<char>, JsonView)>),
}

/// The value of the first member named `key`.
pub open spec fn member(fields: Seq<(Seq<char>, JsonView)>, key: Seq<char>) -> Option<JsonView>
    decreases fields.len(),
{
    if fields.len() == 0 {
        None
    } else if fields[0].0 == key {
        Some(fields[0].1)
    } else {
        member(fields.drop_first(), key)
    }
}

impl JsonNumber {
    pub open spec fn model(self) -> NumberView {
        match self {
            JsonNumber::PosInt(n) => NumberView::PosInt(n),
            JsonNumber::NegInt(n) => NumberView::NegInt(n),
            JsonNumber::Float(s) => NumberView::Float(s@),
        }
    }
}

impl JsonValue {
    /// The model of this value.
    pub open spec fn model(self) -> JsonView
        decreases self,
    {
        match self {
            JsonValue::Null => JsonView::Null,
            JsonValue::Bool(b) => JsonView::Bool(b),
            JsonValue::Number(n) => JsonView::Number(n.model()),
            JsonValue::Str(s) => JsonView::Str(s@),
            JsonValue::Array(v) => JsonView::Array(
                Seq::new(
                    v@.len(),
                    |i: int|
                        if 0 <= i < v@.len() {
                            v@[i].model()
                        } else {
                            JsonView::Null
                        },
                ),
            ),
            JsonValue::Object(v) => JsonView::Object(
                Seq::new(
                    v@.len(),
                    |i: int|
                        if 0 <= i < v@.len() {
                            (v@[i].0@, v@[i].1.model())
                        } else {
                            (Seq::empty(), JsonView::Null)
                        },
                ),
            ),
        }
    }
}

impl View for JsonValue {
    type V = JsonView;

    open spec fn view(&self) -> JsonView {
        self.model()
    }
}

/// The models of a sequence of values.
pub open spec fn elems_view(v: Seq<JsonValue>) -> Seq<JsonView> {
    v.map_values(|x: JsonValue| x@)
}

/// The models of a sequence of object members.
pub open spec fn pairs_view(v: Seq<(String, JsonValue)>) -> Seq<(Seq<char>, JsonView)> {
    v.map_values(|p: (String, JsonValue)| (p.0@, p.1@))
}

impl JsonView {
    /// `value.get(key)`: the member `key` of an object, `None` otherwise.
    pub open spec fn get(self, key: Seq<char>) -> Option<JsonView> {
        match self {
            JsonView::Object(fields) => member(fields, key),
            _ => None,
        }
    }

    /// `value[key]`: the member `key` of an object, `Null` when there is none.
    pub open spec fn at(self, key: Seq<char>) -> JsonView {
        match self.get(key) {
            Some(v) => v,
            None => JsonView::Null,
        }
    }

    /// `value.as_str()`.
    pub open spec fn as_str(self) -> Option<Seq<char>> {
        match self {
            JsonView::Str(s) => Some(s),
            _ => None,
        }
    }

    /// `value.as_u64()`.
    pub open spec fn as_u64(self) -> Option<u64> {
        match self {
            JsonView::Number(NumberView::PosInt(n)) => Some(n),
            _ => None,
        }
    }

    /// `value.as_bool()`.
    pub open spec fn as_bool(self) -> Option<bool> {
        match self {
            JsonView::Bool(b) => Some(b),
            _ => None,
        }
    }

    /// `value.as_array()`.
    pub open spec fn as_array(self) -> Option<Seq<JsonView>> {
        match self {
            JsonView::Array(a) => Some(a),
            _ => None,
        }
    }

    /// `value.as_object()`.
    pub open spec fn as_object(self) -> Option<Seq<(Seq<char>, JsonView)>> {
        match self {
            JsonView::Object(o) => Some(o),
            _ => None,
        }
    }
}

pub proof fn lemma_array_view(v: Vec<JsonValue>)
    ensures
        JsonValue::Array(v)@ == JsonView::Array(elems_view(v@)),
{
    let a = JsonValue::Array(v)@;
    assert(a->Array_0 =~= elems_view(v@));
}

pub proof fn lemma_object_view(v: Vec<(String, JsonValue)>)
    ensures
        JsonValue::Object(v)@ == JsonView::Object(pairs_view(v@)),
{
    let a = JsonValue::Object(v)@;
    assert(a->Object_0 =~= pairs_view(v@));
}

proof fn lemma_member_skip(fields: Seq<(Seq<char>, JsonView)>, i: int, key: Seq<char>)
    requires
        0 <= i < fields.len(),
        fields[i].0 != key,
    ensures
        member(fields.subrange(i, fields.len() as int), key) == member(
            fields.subrange(i + 1, fields.len() as int),
            key,
        ),
{
    let t = fields.subrange(i, fields.len() as int);
    assert(t.drop_first() =~= fields.subrange(i + 1, fields.len() as int));
}

impl JsonNumber {
    /// A copy of this number.
    pub fn deep_copy(&self) -> (r: JsonNumber)
        ensures
            r.model() == self.model(),
    {
        match self {
            JsonNumber::PosInt(n) => JsonNumber::PosInt(*n),
            JsonNumber::NegInt(n) => JsonNumber::NegInt(*n),
            JsonNumber::Float(s) => JsonNumber::Float(s.clone()),
        }
    }
}

impl JsonValue {
    /// A string value.
    pub fn string(s: &str) -> (r: JsonValue)
        ensures
            r@ == JsonView::Str(s@),
    {
        JsonValue::Str(s.to_owned())
    }

    /// A non-negative integer value.
    pub fn uint(n: u64) -> (r: JsonValue)
        ensures
            r@ == JsonView::Number(NumberView::PosInt(n)),
    {
        JsonValue::Number(JsonNumber::PosInt(n))
    }

    /// An array of the given values.
    pub fn array(v: Vec<JsonValue>) -> (r: JsonValue)
        ensures
            r@ == JsonView::Array(elems_view(v@)),
    {
        proof {
            lemma_array_view(v);
        }
        JsonValue::Array(v)
    }

    /// An object with the given members, in order.
    pub fn object(v: Vec<(String, JsonValue)>) -> (r: JsonValue)
        ensures
            r@ == JsonView::Object(pairs_view(v@)),
    {
        proof {
            lemma_object_view(v);
        }
        JsonValue::Object(v)
    }

    /// `value.get(key)`.
    pub fn get(&self, key: &str) -> (r: Option<&JsonValue>)
        ensures
            match r {
                Some(x) => self@.get(key@) == Some(x@),
                None => self@.get(key@) is None,
            },
    {
        match self {
            JsonValue::Object(v) => {
                proof {
                    lemma_object_view(*v);
                }
                assert(*self == JsonValue::Object(*v));
                let ghost fields = pairs_view(v@);
                assert(self@ == JsonView::Object(fields));
                assert(fields.subrange(0, fields.len() as int) =~= fields);
                let mut i: usize = 0;
                while i < v.len()
                    invariant
                        i <= v@.len(),
                        fields == pairs_view(v@),
                        self@ == JsonView::Object(fields),
                        member(fields, key@) == member(fields.subrange(i as int, fields.len() as int), key@),
                    decreases v@.len() - i,
                {
                    if str_eq(v[i].0.as_str(), key) {
                        let ghost t = fields.subrange(i as int, fields.len() as int);
                        assert(t[0] == fields[i as int]);
                        assert(fields[i as int] == (v@[i as int].0@, v@[i as int].1@));
                        return Some(&v[i].1);
                    }
                    proof {
                        lemma_member_skip(fields, i as int, key@);
                    }
                    i = i + 1;
                }
                None
            },
            _ => None,
        }
    }

    /// `value[key]` read as a string.
    pub fn get_str(&self, key: &str) -> (r: Option<&String>)
        ensures
            match r {
                Some(s) => self@.at(key@).as_str() == Some(s@),
                None => self@.at(key@).as_str() is None,
            },
    {
        match self.get(key) {
            Some(x) => x.as_str(),
            None => None,
        }
    }

    /// `value[key]` read as a `u64`.
    pub fn get_u64(&self, key: &str) -> (r: Option<u64>)
        ensures
            r == self@.at(key@).as_u64(),
    {
        match self.get(key) {
            Some(x) => x.as_u64(),
            None => None,
        }
    }

    /// `value[key]` read as a `bool`.
    pub fn get_bool(&self, key: &str) -> (r: Option<bool>)
        ensures
            r == self@.at(key@).as_bool(),
    {
        match self.get(key) {
            Some(x) => x.as_bool(),
            None => None,
        }
    }

    /// `value.as_str()`.
    pub fn as_str(&self) -> (r: Option<&String>)
        ensures
            match r {
                Some(s) => self@.as_str() == Some(s@),
                None => self@.as_str() is None,
            },
    {
        match self {
            JsonValue::Str(s) => Some(s),
            _ => None,
        }
    }

    /// `value.as_u64()`.
    pub fn as_u64(&self) -> (r: Option<u64>)
        ensures
            r == self@.as_u64(),
    {
        match self {
            JsonValue::Number(JsonNumber::PosInt(n)) => Some(*n),
            _ => None,
        }
    }

    /// `value.as_bool()`.
    pub fn as_bool(&self) -> (r: Option<bool>)
        ensures
            r == self@.as_bool(),
    {
        match self {
            JsonValue::Bool(b) => Some(*b),
            _ => None,
        }
    }

    /// `value.as_array()`.
    pub fn as_array(&self) -> (r: Option<&Vec<JsonValue>>)
        ensures
            match r {
                Some(v) => self@.as_array() == Some(elems_view(v@)),
                None => self@.as_array() is None,
            },
    {
        match self {
            JsonValue::Array(v) => {
                proof {
                    lemma_array_view(*v);
                }
                Some(v)
            },
            _ => None,
        }
    }

    /// A copy of this value.
    pub fn deep_copy(&self) -> (r: JsonValue)
        ensures
            r@ == self@,
        decreases self,
    {
        match self {
            JsonValue::Null => JsonValue::Null,
            JsonValue::Bool(b) => JsonValue::Bool(*b),
            JsonValue::Number(n) => JsonValue::Number(n.deep_copy()),
            JsonValue::Str(s) => JsonValue::Str(s.clone()),
            JsonValue::Array(v) => {
                assert(*self == JsonValue::Array(*v));
                let mut out: Vec<JsonValue> = Vec::new();
                let mut i: usize = 0;
                while i < v.len()
                    invariant
                        i <= v@.len(),
                        *self == JsonValue::Array(*v),
                        out@.len() == i,
                        forall|j: int| 0 <= j < i ==> #[trigger] out@[j]@ == v@[j]@,
                    decreases v@.len() - i,
                {
                    proof {
                        assert(decreases_to!(*self => self->Array_0));
                        assert(decreases_to!(*v => v@[i as int]));
                    }
                    let c = v[i].deep_copy();
                    out.push(c);
                    i = i + 1;
                }
                proof {
                    lemma_array_view(out);
                    lemma_array_view(*v);
                    assert(elems_view(out@) =~= elems_view(v@));
                }
                JsonValue::Array(out)
            },
            JsonValue::Object(v) => {
                assert(*self == JsonValue::Object(*v));
                let mut out: Vec<(String, JsonValue)> = Vec::new();
                let mut i: usize = 0;
                while i < v.len()
                    invariant
                        i <= v@.len(),
                        *self == JsonValue::Object(*v),
                        out@.len() == i,
                        forall|j: int|
                            0 <= j < i ==> #[trigger] out@[j].1@ == v@[j].1@ && out@[j].0@
                                == v@[j].0@,
                    decreases v@.len() - i,
                {
                    proof {
                        assert(decreases_to!(*self => self->Object_0));
                        assert(decreases_to!(*v => v@[i as int]));
                        assert(decreases_to!(v@[i as int] => v@[i as int].1));
                    }
                    let c = v[i].1.deep_copy();
                    let k = v[i].0.clone();
                    out.push((k, c));
                    i = i + 1;
                }
                proof {
                    lemma_object_view(out);
                    lemma_object_view(*v);
                    assert(pairs_view(out@) =~= pairs_view(v@));
                }
                JsonValue::Object(out)
            },
        }
    }
}

/// The members after `value[key] = val`: the first member named `key`
/// takes the new value, or the member is added at the end.
pub open spec fn with_member(fields: Seq<(Seq<char>, JsonView)>, key: Seq<char>, val: JsonView) -> Seq<
    (Seq<char>, JsonView),
>
    decreases fields.len(),
{
    if fields.len() == 0 {
        seq![(key, val)]
    } else if fields[0].0 == key {
        seq![(key, val)] + fields.drop_first()
    } else {
        seq![fields[0]] + with_member(fields.drop_first(), key, val)
    }
}

/// `value[key] = val` on an object; a null value becomes an object first.
pub open spec fn set_view(v: JsonView, key: Seq<char>, val: JsonView) -> JsonView {
    match v {
        JsonView::Object(f) => JsonView::Object(with_member(f, key, val)),
        _ => JsonView::Object(seq![(key, val)]),
    }
}

/// After `value[key] = val`, `key` holds `val` and every other member is
/// as it was.
pub proof fn lemma_with_member(fields: Seq<(Seq<char>, JsonView)>, key: Seq<char>, val: JsonView, k: Seq<char>)
    ensures
        member(with_member(fields, key, val), k) == if k == key {
            Some(val)
        } else {
            member(fields, k)
        },
    decreases fields.len(),
{
    let w = with_member(fields, key, val);
    if fields.len() == 0 {
        assert(w[0] == (key, val));
        assert(w.drop_first() =~= Seq::<(Seq<char>, JsonView)>::empty());
        assert(member(w.drop_first(), k) is None);
    } else if fields[0].0 == key {
        assert(w[0] == (key, val));
        assert(w.drop_first() =~= fields.drop_first());
        if k != key {
            assert(member(w, k) == member(w.drop_first(), k));
            assert(member(fields, k) == member(fields.drop_first(), k));
        }
    } else {
        lemma_with_member(fields.drop_first(), key, val, k);
        assert(w[0] == fields[0]);
        assert(w.drop_first() =~= with_member(fields.drop_first(), key, val));
    }
}

proof fn lemma_with_member_at(fields: Seq<(Seq<char>, JsonView)>, key: Seq<char>, val: JsonView, i: int)
    requires
        0 <= i < fields.len(),
        fields[i].0 == key,
        forall|j: int| 0 <= j < i ==> fields[j].0 != key,
    ensures
        with_member(fields, key, val) == fields.update(i, (key, val)),
    decreases i,
{
    if i == 0 {
        assert(seq![(key, val)] + fields.drop_first() =~= fields.update(0, (key, val)));
    } else {
        lemma_with_member_at(fields.drop_first(), key, val, i - 1);
        assert(seq![fields[0]] + fields.drop_first().update(i - 1, (key, val)) =~= fields.update(
            i,
            (key, val),
        ));
    }
}

proof fn lemma_with_member_none(fields: Seq<(Seq<char>, JsonView)>, key: Seq<char>, val: JsonView)
    requires
        forall|j: int| 0 <= j < fields.len() ==> fields[j].0 != key,
    ensures
        with_member(fields, key, val) == fields.push((key, val)),
    decreases fields.len(),
{
    if fields.len() > 0 {
        lemma_with_member_none(fields.drop_first(), key, val);
        assert(seq![fields[0]] + fields.drop_first().push((key, val)) =~= fields.push((key, val)));
    }
}

/// `value[key] = val` on an object or null value.
pub fn set_member(v: JsonValue, key: &str, val: JsonValue) -> (r: JsonValue)
    requires
        v@ is Object || v@ is Null,
    ensures
        r@ == set_view(v@, key@, val@),
{
    match v {
        JsonValue::Object(mut fields) => {
            proof {
                lemma_object_view(fields);
            }
            let ghost f = pairs_view(fields@);
            let mut i: usize = 0;
            while i < fields.len() && !str_eq(fields[i].0.as_str(), key)
                invariant
                    i <= fields@.len(),
                    f == pairs_view(fields@),
                    forall|j: int| 0 <= j < i ==> f[j].0 != key@,
                decreases fields@.len() - i,
            {
                i = i + 1;
            }
            let ghost vv = val@;
            if i < fields.len() && str_eq(fields[i].0.as_str(), key) {
                proof {
                    lemma_with_member_at(f, key@, vv, i as int);
                }
                fields.set(i, (key.to_owned(), val));
                proof {
                    assert(pairs_view(fields@) =~= f.update(i as int, (key@, vv)));
                    lemma_object_view(fields);
                }
                JsonValue::Object(fields)
            } else {
                proof {
                    assert(i == fields@.len());
                    lemma_with_member_none(f, key@, vv);
                }
                fields.push((key.to_owned(), val));
                proof {
                    assert(pairs_view(fields@) =~= f.push((key@, vv)));
                    lemma_object_view(fields);
                }
                JsonValue::Object(fields)
            }
        },
        _ => {
            let mut fields: Vec<(String, JsonValue)> = Vec::new();
            fields.push((key.to_owned(), val));
            proof {
                assert(pairs_view(fields@) =~= seq![(key@, fields@[0].1@)]);
                lemma_object_view(fields);
            }
            JsonValue::Object(fields)
        },
    }
}

} // verus!
