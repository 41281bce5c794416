//! A JSON-shaped value tree.
//!
//! The wire translator works on this type; the surrounding process converts
//! between it and whatever JSON library the transport uses.  Numbers carry
//! what the translator reads of them: a signed value, an unsigned value too
//! large for `i64`, or the marker `Fractional` for a number that is neither.

use vstd::prelude::*;

verus! {

broadcast use vstd::std_specs::vec::group_vec_axioms;

/// Mathematical value of a [`JsonValue`].
#[verifier::ext_equal]
pub enum JsonView {
    Null,
    Bool(bool),
    Int(i64),
    UInt(u64),
    Fractional,
    Text(Seq<char>),
    Array(Seq<JsonView>),
    Object(Seq<(Seq<char>, JsonView)>),
}

/// A JSON value: an object is a key-value list in source order.
#[derive(PartialEq, Eq, Debug)]
pub enum JsonValue {
    Null,
    Bool(bool),
    Int(i64),
    UInt(u64),
    Fractional,
    Text(String),
    Array(Vec<JsonValue>),
    Object(Vec<(String, JsonValue)>),
}

/// The view of a JSON value, structurally.
pub open spec fn json_view(v: JsonValue) -> JsonView
    decreases v,
{
    match v {
        JsonValue::Null => JsonView::Null,
        JsonValue::Bool(b) => JsonView::Bool(b),
        JsonValue::Int(i) => JsonView::Int(i),
        JsonValue::UInt(u) => JsonView::UInt(u),
        JsonValue::Fractional => JsonView::Fractional,
        JsonValue::Text(s) => JsonView::Text(s@),
        JsonValue::Array(items) => JsonView::Array(json_views(items@)),
        JsonValue::Object(fields) => JsonView::Object(json_field_views(fields@)),
    }
}

/// The views of the elements, in order.
pub open spec fn json_views(s: Seq<JsonValue>) -> Seq<JsonView>
    decreases s,
{
    if s.len() == 0 {
        Seq::empty()
    } else {
        seq![json_view(s[0])] + json_views(s.drop_first())
    }
}

/// The view of one object field.
pub open spec fn json_field_view(p: (String, JsonValue)) -> (Seq<char>, JsonView)
    decreases p,
{
    (p.0@, json_view(p.1))
}

/// The views of the object fields, in order.
pub open spec fn json_field_views(s: Seq<(String, JsonValue)>) -> Seq<(Seq<char>, JsonView)>
    decreases s,
{
    if s.len() == 0 {
        Seq::empty()
    } else {
        seq![json_field_view(s[0])] + json_field_views(s.drop_first())
    }
}

pub proof fn lemma_json_views_index(s: Seq<JsonValue>)
    ensures
        json_views(s).len() == s.len(),
        forall|i: int| 0 <= i < s.len() ==> #[trigger] json_views(s)[i] == json_view(s[i]),
    decreases s,
{
    if s.len() == 0 {
    } else {
        lemma_json_views_index(s.drop_first());
        assert(forall|i: int| 1 <= i < s.len() ==> s.drop_first()[i - 1] == #[trigger] s[i]);
    }
}

pub proof fn lemma_json_field_views_index(s: Seq<(String, JsonValue)>)
    ensures
        json_field_views(s).len() == s.len(),
        forall|i: int|
            0 <= i < s.len() ==> #[trigger] json_field_views(s)[i] == json_field_view(s[i]),
    decreases s,
{
    if s.len() == 0 {
    } else {
        lemma_json_field_views_index(s.drop_first());
        assert(forall|i: int| 1 <= i < s.len() ==> s.drop_first()[i - 1] == #[trigger] s[i]);
    }
}

impl View for JsonValue {
    type V = JsonView;

    open spec fn view(&self) -> JsonView {
        json_view(*self)
    }
}

/// First value under the key, object fields searched front to back.
pub open spec fn jv_lookup(fields: Seq<(Seq<char>, JsonView)>, key: Seq<char>) -> Option<JsonView>
    decreases fields.len(),
{
    if fields.len() == 0 {
        Option::None
    } else if fields[0].0 == key {
        Option::Some(fields[0].1)
    } else {
        jv_lookup(fields.drop_first(), key)
    }
}

/// Field access: something only an object can answer.
pub open spec fn j_get(v: JsonView, key: Seq<char>) -> Option<JsonView> {
    match v {
        JsonView::Object(fields) => jv_lookup(fields, key),
        _ => Option::None,
    }
}

pub open spec fn j_as_str(v: JsonView) -> Option<Seq<char>> {
    match v {
        JsonView::Text(s) => Option::Some(s),
        _ => Option::None,
    }
}

/// The signed reading of a number: an unsigned value fits if it is small
/// enough.
pub open spec fn j_as_i64(v: JsonView) -> Option<i64> {
    match v {
        JsonView::Int(i) => Option::Some(i),
        JsonView::UInt(u) => if u <= i64::MAX as u64 {
            Option::Some(u as i64)
        } else {
            Option::None
        },
        _ => Option::None,
    }
}

/// The unsigned reading of a number: a signed value fits if non-negative.
pub open spec fn j_as_u64(v: JsonView) -> Option<u64> {
    match v {
        JsonView::UInt(u) => Option::Some(u),
        JsonView::Int(i) => if i >= 0 {
            Option::Some(i as u64)
        } else {
            Option::None
        },
        _ => Option::None,
    }
}

pub open spec fn j_as_bool(v: JsonView) -> Option<bool> {
    match v {
        JsonView::Bool(b) => Option::Some(b),
        _ => Option::None,
    }
}

pub open spec fn j_as_array(v: JsonView) -> Option<Seq<JsonView>> {
    match v {
        JsonView::Array(a) => Option::Some(a),
        _ => Option::None,
    }
}

proof fn lemma_jv_lookup_at(fields: Seq<(Seq<char>, JsonView)>, key: Seq<char>, i: int)
    requires
        0 <= i < fields.len(),
        fields[i].0 == key,
        forall|j: int| 0 <= j < i ==> (#[trigger] fields[j]).0 != key,
    ensures
        jv_lookup(fields, key) == Option::Some(fields[i].1),
    decreases i,
{
    if i == 0 {
    } else {
        assert(fields[0].0 != key);
        assert(fields.drop_first()[i - 1] == fields[i]);
        assert(forall|j: int| 0 <= j < i - 1 ==> (#[trigger] fields.drop_first()[j]).0 != key);
        lemma_jv_lookup_at(fields.drop_first(), key, i - 1);
    }
}

proof fn lemma_jv_lookup_none(fields: Seq<(Seq<char>, JsonView)>, key: Seq<char>)
    requires
        forall|j: int| 0 <= j < fields.len() ==> (#[trigger] fields[j]).0 != key,
    ensures
        jv_lookup(fields, key) is None,
    decreases fields.len(),
{
    if fields.len() == 0 {
    } else {
        assert(forall|j: int|
            0 <= j < fields.drop_first().len() ==> (#[trigger] fields.drop_first()[j]).0 != key);
        lemma_jv_lookup_none(fields.drop_first(), key);
    }
}

impl JsonValue {
    /// Looks the key up when this value is an object; anything else has no
    /// fields.
    pub fn get<'a>(&'a self, key: &String) -> (r: Option<&'a JsonValue>)
        ensures
            match r {
                Option::Some(c) => j_get(self@, key@) == Option::Some(c@),
                Option::None => j_get(self@, key@) is None,
            },
    {
        match self {
            JsonValue::Object(fields) => {
                let ghost fv = json_field_views(fields@);
                proof {
                    lemma_json_field_views_index(fields@);
                }
                let mut i: usize = 0;
                while i < fields.len()
                    invariant
                        i <= fields@.len(),
                        self@ == JsonView::Object(fv),
                        fv == json_field_views(fields@),
                        fv.len() == fields@.len(),
                        forall|k: int|
                            0 <= k < fields@.len() ==> fv[k] == json_field_view(
                                #[trigger] fields@[k],
                            ),
                        forall|j: int| 0 <= j < i as int ==> (#[trigger] fv[j]).0 != key@,
                    decreases fields@.len() - i as int,
                {
                    if fields[i].0 == *key {
                        proof {
                            lemma_jv_lookup_at(fv, key@, i as int);
                        }
                        return Option::Some(&fields[i].1);
                    }
                    i = i + 1;
                }
                proof {
                    lemma_jv_lookup_none(fv, key@);
                }
                Option::None
            },
            _ => Option::None,
        }
    }

    /// The string inside, if this is a text value.
    pub fn as_str<'a>(&'a self) -> (r: Option<&'a String>)
        ensures
            match r {
                Option::Some(s) => j_as_str(self@) == Option::Some(s@),
                Option::None => j_as_str(self@) is None,
            },
    {
        match self {
            JsonValue::Text(s) => Option::Some(s),
            _ => Option::None,
        }
    }

    /// The signed reading of this value, if it is a number that fits.
    pub fn as_i64(&self) -> (r: Option<i64>)
        ensures
            r == j_as_i64(self@),
    {
        match self {
            JsonValue::Int(i) => Option::Some(*i),
            JsonValue::UInt(u) => if *u <= i64::MAX as u64 {
                Option::Some(*u as i64)
            } else {
                Option::None
            },
            _ => Option::None,
        }
    }

    /// The unsigned reading of this value, if it is a number that fits.
    pub fn as_u64(&self) -> (r: Option<u64>)
        ensures
            r == j_as_u64(self@),
    {
        match self {
            JsonValue::UInt(u) => Option::Some(*u),
            JsonValue::Int(i) => if *i >= 0 {
                Option::Some(*i as u64)
            } else {
                Option::None
            },
            _ => Option::None,
        }
    }

    /// The boolean inside, if this is a boolean.
    pub fn as_bool(&self) -> (r: Option<bool>)
        ensures
            r == j_as_bool(self@),
    {
        match self {
            JsonValue::Bool(b) => Option::Some(*b),
            _ => Option::None,
        }
    }

    /// The elements, if this is an array.
    pub fn as_array<'a>(&'a self) -> (r: Option<&'a Vec<JsonValue>>)
        ensures
            match r {
                Option::Some(a) => j_as_array(self@) == Option::Some(json_views(a@)),
                Option::None => j_as_array(self@) is None,
            },
    {
        match self {
            JsonValue::Array(items) => Option::Some(items),
            _ => Option::None,
        }
    }
}

} // verus!
