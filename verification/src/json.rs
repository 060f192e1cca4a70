//! JSON values as plain data.

use vstd::prelude::*;
use vstd::string::*;
use crate::text::text_eq;

verus! {

/// `serde_json::Value`, carried only between the parser and the conversion.
#[verifier::external_type_specification]
#[verifier::external_body]
pub struct ExValue(serde_json::Value);

/// A JSON value. The fields of an object stand in the order of their names, as
/// `serde_json` keeps them.
#[derive(Debug)]
pub enum Json {
    Null,
    Bool(bool),
    UInt(u64),
    Int(i64),
    Decimal(String),
    Text(String),
    Array(Vec<Json>),
    Object(Vec<(String, Json)>),
}

/// What a JSON value says.
#[verifier::ext_equal]
pub enum JsonView {
    Null,
    Bool(bool),
    UInt(u64),
    Int(i64),
    Decimal(Seq<char>),
    Text(Seq<char>),
    Array(Seq<JsonView>),
    Object(Seq<(Seq<char>, JsonView)>),
}

impl Json {
    /// What the value says.
    pub open spec fn view(&self) -> JsonView
        decreases self,
    {
        match self {
            Json::Null => JsonView::Null,
            Json::Bool(b) => JsonView::Bool(*b),
            Json::UInt(n) => JsonView::UInt(*n),
            Json::Int(n) => JsonView::Int(*n),
            Json::Decimal(t) => JsonView::Decimal(t@),
            Json::Text(t) => JsonView::Text(t@),
            Json::Array(items) => JsonView::Array(
                Seq::new(
                    items@.len(),
                    |i: int|
                        if 0 <= i < items@.len() {
                            items@[i].view()
                        } else {
                            JsonView::Null
                        },
                ),
            ),
            Json::Object(fields) => JsonView::Object(
                Seq::new(
                    fields@.len(),
                    |i: int|
                        if 0 <= i < fields@.len() {
                            (fields@[i].0@, fields@[i].1.view())
                        } else {
                            (Seq::<char>::empty(), JsonView::Null)
                        },
                ),
            ),
        }
    }
}

/// The text of a decimal, without the sign of a zero.
pub open spec fn unsigned_zero(text: Seq<char>) -> Seq<char> {
    if text == "-0.0"@ {
        "0.0"@
    } else {
        text
    }
}

/// What a value says where the sign of a zero says nothing.
#[verifier::opaque]
pub open spec fn without_zero_signs(v: JsonView) -> JsonView
    decreases v,
{
    match v {
        JsonView::Decimal(text) => JsonView::Decimal(unsigned_zero(text)),
        JsonView::Array(items) => JsonView::Array(
            Seq::new(
                items.len(),
                |i: int|
                    if 0 <= i < items.len() {
                        without_zero_signs(items[i])
                    } else {
                        JsonView::Null
                    },
            ),
        ),
        JsonView::Object(fields) => JsonView::Object(
            Seq::new(
                fields.len(),
                |i: int|
                    if 0 <= i < fields.len() {
                        (fields[i].0, without_zero_signs(fields[i].1))
                    } else {
                        (Seq::<char>::empty(), JsonView::Null)
                    },
            ),
        ),
        other => other,
    }
}

/// Two values that are equal: zeros are, whatever their signs.
pub open spec fn same_json(a: JsonView, b: JsonView) -> bool {
    without_zero_signs(a) == without_zero_signs(b)
}

/// Some values hold one that is equal to a given one.
pub open spec fn has_json(entries: Seq<JsonView>, wanted: JsonView) -> bool {
    exists|i: int| 0 <= i < entries.len() && same_json(#[trigger] entries[i], wanted)
}

/// A value that may be missing is there and equal to a given one.
pub open spec fn opt_same_json(entry: Option<JsonView>, wanted: JsonView) -> bool {
    entry is Some && same_json(entry->0, wanted)
}

/// A text is equal to nothing but itself.
pub proof fn law_texts_are_equal_to_themselves_alone(v: JsonView, text: Seq<char>)
    ensures
        same_json(v, JsonView::Text(text)) == (v == JsonView::Text(text)),
        same_json(JsonView::Text(text), v) == (v == JsonView::Text(text)),
{
    reveal(without_zero_signs);
}

/// What each of some JSON values says.
pub open spec fn json_views(items: Seq<Json>) -> Seq<JsonView> {
    items.map_values(|j: Json| j@)
}

/// The first field of an object with a given name.
pub open spec fn field(fields: Seq<(Seq<char>, JsonView)>, name: Seq<char>) -> Option<JsonView>
    decreases fields.len(),
{
    if fields.len() == 0 {
        None
    } else if fields[0].0 == name {
        Some(fields[0].1)
    } else {
        field(fields.skip(1), name)
    }
}

/// The field of a value with a given name; only objects have fields.
pub open spec fn json_get(v: JsonView, name: Seq<char>) -> Option<JsonView> {
    match v {
        JsonView::Object(fields) => field(fields, name),
        _ => None,
    }
}

/// The text that a value is, if it is one.
pub open spec fn json_text(v: JsonView) -> Option<Seq<char>> {
    match v {
        JsonView::Text(t) => Some(t),
        _ => None,
    }
}

/// The text in the field of a value with a given name.
pub open spec fn json_get_text(v: JsonView, name: Seq<char>) -> Option<Seq<char>> {
    match json_get(v, name) {
        Some(f) => json_text(f),
        None => None,
    }
}

/// What parsing some bytes as one JSON document gives: the value, or the text of
/// the parser's error.
pub uninterp spec fn json_parsed(bytes: Seq<u8>) -> Result<JsonView, Seq<char>>;

/// The bytes that a JSON value is written as in its compact form.
pub uninterp spec fn json_encoded(v: JsonView) -> Seq<u8>;

/// A `serde_json::Value` as a value of this crate, one variant for one variant.
#[verifier::external_body]
pub(crate) fn from_value(v: serde_json::Value) -> Json {
    match v {
        serde_json::Value::Null => Json::Null,
        serde_json::Value::Bool(b) => Json::Bool(b),
        serde_json::Value::Number(n) => match (n.as_u64(), n.as_i64()) {
            (Some(u), _) => Json::UInt(u),
            (None, Some(i)) => Json::Int(i),
            (None, None) => Json::Decimal(n.to_string()),
        },
        serde_json::Value::String(s) => Json::Text(s),
        serde_json::Value::Array(a) => Json::Array(a.into_iter().map(from_value).collect()),
        serde_json::Value::Object(o) => Json::Object(o.into_iter().map(|(k, v)| (k, from_value(v))).collect()),
    }
}

/// A value of this crate as a `serde_json::Value`, one variant for one variant.
/// A decimal that is no JSON number becomes null.
#[verifier::external_body]
pub(crate) fn to_value(v: &Json) -> serde_json::Value {
    match v {
        Json::Null => serde_json::Value::Null,
        Json::Bool(b) => serde_json::Value::Bool(*b),
        Json::UInt(n) => serde_json::Value::from(*n),
        Json::Int(n) => serde_json::Value::from(*n),
        Json::Decimal(t) => t.parse().map_or(serde_json::Value::Null, serde_json::Value::Number),
        Json::Text(t) => serde_json::Value::String(t.clone()),
        Json::Array(a) => serde_json::Value::Array(a.iter().map(to_value).collect()),
        Json::Object(o) => serde_json::Value::Object(o.iter().map(|(k, v)| (k.clone(), to_value(v))).collect()),
    }
}

/// `serde_json::from_slice` into a `Value`: what it gives depends on the bytes
/// alone, and so does the text of its error.
#[verifier::external_body]
pub(crate) fn parse_bytes(bytes: &[u8]) -> (r: Result<Json, String>)
    ensures
        match r {
            Ok(v) => json_parsed(bytes@) == Ok::<JsonView, Seq<char>>(v@),
            Err(e) => json_parsed(bytes@) == Err::<JsonView, Seq<char>>(e@),
        },
{
    match serde_json::from_slice::<serde_json::Value>(bytes) {
        Ok(v) => Ok(from_value(v)),
        Err(e) => Err(e.to_string()),
    }
}

/// `serde_json::Value`'s `to_string`, the compact form, which depends on the value
/// alone.
#[verifier::external_body]
pub(crate) fn encode_value(v: &Json) -> (r: Vec<u8>)
    ensures
        r@ == json_encoded(v@),
{
    to_value(v).to_string().into_bytes()
}

/// Parses bytes as one JSON document.
pub fn parse_json(bytes: &[u8]) -> (r: Result<Json, String>)
    ensures
        match r {
            Ok(v) => json_parsed(bytes@) == Ok::<JsonView, Seq<char>>(v@),
            Err(e) => json_parsed(bytes@) == Err::<JsonView, Seq<char>>(e@),
        },
{
    parse_bytes(bytes)
}

/// Writes a JSON value in its compact form.
pub fn encode_json(v: &Json) -> (r: Vec<u8>)
    ensures
        r@ == json_encoded(v@),
{
    encode_value(v)
}

/// What each of some fields says.
pub open spec fn field_views(fields: Seq<(String, Json)>) -> Seq<(Seq<char>, JsonView)> {
    fields.map_values(|f: (String, Json)| (f.0@, f.1@))
}

/// Adds a field after some fields.
pub fn push_field(fields: &mut Vec<(String, Json)>, name: &str, value: Json)
    ensures
        field_views(final(fields)@) == field_views(old(fields)@).push((name@, value@)),
{
    fields.push((name.to_owned(), value));
    assert(field_views(fields@) =~= field_views(old(fields)@).push((name@, value@)));
}

/// The object with some fields, which stand in the order of their names.
pub fn json_object(fields: Vec<(String, Json)>) -> (r: Json)
    ensures
        r@ == JsonView::Object(field_views(fields@)),
{
    let r = Json::Object(fields);
    assert(r@->Object_0 =~= field_views(fields@));
    r
}

/// A text as a JSON value.
pub fn json_of_text(text: &str) -> (r: Json)
    ensures
        r@ == JsonView::Text(text@),
{
    Json::Text(text.to_owned())
}

/// The text of a decimal, without the sign of a zero.
fn magnitude_of_zero(text: &str) -> (r: &str)
    ensures
        r@ == unsigned_zero(text@),
{
    if text_eq(text, "-0.0") {
        "0.0"
    } else {
        text
    }
}

impl Json {
    /// The text that the value is, if it is one.
    pub fn as_text(&self) -> (r: Option<&String>)
        ensures
            r is Some == json_text(self@) is Some,
            r is Some ==> Some(r->0@) == json_text(self@),
    {
        match self {
            Json::Text(t) => Some(t),
            _ => None,
        }
    }

    /// The field with a given name; only objects have fields.
    pub fn get(&self, name: &str) -> (r: Option<&Json>)
        ensures
            r is Some == json_get(self@, name@) is Some,
            r is Some ==> Some(r->0@) == json_get(self@, name@),
    {
        match self {
            Json::Object(fields) => {
                let ghost all = self@->Object_0;
                let mut i: usize = 0;
                assert(all.skip(0) =~= all);
                while i < fields.len()
                    invariant
                        i <= fields.len(),
                        *self == Json::Object(*fields),
                        all == self@->Object_0,
                        all.len() == fields@.len(),
                        json_get(self@, name@) == field(all.skip(i as int), name@),
                    decreases fields.len() - i,
                {
                    assert(all.skip(i as int)[0] == (fields@[i as int].0@, fields@[i as int].1@));
                    assert(all.skip(i as int).skip(1) =~= all.skip(i + 1));
                    if text_eq(fields[i].0.as_str(), name) {
                        return Some(&fields[i].1);
                    }
                    i += 1;
                }
                assert(all.skip(i as int).len() == 0);
                None
            },
            _ => None,
        }
    }

    /// The text in the field with a given name.
    pub fn get_text(&self, name: &str) -> (r: Option<&String>)
        ensures
            r is Some == json_get_text(self@, name@) is Some,
            r is Some ==> Some(r->0@) == json_get_text(self@, name@),
    {
        match self.get(name) {
            Some(f) => f.as_text(),
            None => None,
        }
    }

    /// A copy of the value.
    pub fn copy(&self) -> (r: Json)
        ensures
            r@ == self@,
        decreases *self,
    {
        match self {
            Json::Null => Json::Null,
            Json::Bool(b) => Json::Bool(*b),
            Json::UInt(n) => Json::UInt(*n),
            Json::Int(n) => Json::Int(*n),
            Json::Decimal(t) => Json::Decimal(t.clone()),
            Json::Text(t) => Json::Text(t.clone()),
            Json::Array(items) => {
                let mut out: Vec<Json> = Vec::new();
                let mut i: usize = 0;
                while i < items.len()
                    invariant
                        i <= items.len(),
                        *self == Json::Array(*items),
                        out@.len() == i,
                        forall|k: int| 0 <= k < i ==> (#[trigger] out@[k])@ == items@[k]@,
                    decreases items.len() - i,
                {
                    let item = &items[i];
                    assert(decreases_to!(*self => self->Array_0));
                    assert(decreases_to!(*items => items[i as int]));
                    out.push(item.copy());
                    i += 1;
                }
                let r = Json::Array(out);
                assert(r@->Array_0 =~= self@->Array_0);
                r
            },
            Json::Object(fields) => {
                let mut out: Vec<(String, Json)> = Vec::new();
                let mut i: usize = 0;
                while i < fields.len()
                    invariant
                        i <= fields.len(),
                        *self == Json::Object(*fields),
                        out@.len() == i,
                        forall|k: int|
                            0 <= k < i ==> (#[trigger] out@[k]).1@ == fields@[k].1@ && out@[k].0@
                                == fields@[k].0@,
                    decreases fields.len() - i,
                {
                    let item = &fields[i];
                    assert(decreases_to!(*self => self->Object_0));
                    assert(decreases_to!(*fields => fields[i as int]));
                    out.push((item.0.clone(), item.1.copy()));
                    i += 1;
                }
                let r = Json::Object(out);
                assert(r@->Object_0 =~= self@->Object_0);
                r
            },
        }
    }

    /// Whether two values are equal.
    pub fn same(&self, other: &Json) -> (r: bool)
        ensures
            r == same_json(self@, other@),
        decreases *self,
    {
        reveal(without_zero_signs);
        match (self, other) {
            (Json::Null, Json::Null) => true,
            (Json::Bool(a), Json::Bool(b)) => *a == *b,
            (Json::UInt(a), Json::UInt(b)) => *a == *b,
            (Json::Int(a), Json::Int(b)) => *a == *b,
            (Json::Decimal(a), Json::Decimal(b)) => text_eq(
                magnitude_of_zero(a.as_str()),
                magnitude_of_zero(b.as_str()),
            ),
            (Json::Text(a), Json::Text(b)) => text_eq(a.as_str(), b.as_str()),
            (Json::Array(a), Json::Array(b)) => {
                if a.len() != b.len() {
                    assert(without_zero_signs(self@)->Array_0.len() != without_zero_signs(
                        other@,
                    )->Array_0.len());
                    return false;
                }
                let mut i: usize = 0;
                while i < a.len()
                    invariant
                        i <= a.len(),
                        a.len() == b.len(),
                        *self == Json::Array(*a),
                        *other == Json::Array(*b),
                        forall|k: int| 0 <= k < i ==> same_json((#[trigger] a@[k])@, b@[k]@),
                    decreases a.len() - i,
                {
                    reveal(without_zero_signs);
                    assert(decreases_to!(*self => self->Array_0));
                    assert(decreases_to!(*a => a[i as int]));
                    if !a[i].same(&b[i]) {
                        assert(without_zero_signs(self@)->Array_0[i as int] != without_zero_signs(
                            other@,
                        )->Array_0[i as int]);
                        return false;
                    }
                    i += 1;
                }
                assert(without_zero_signs(self@)->Array_0 =~= without_zero_signs(
                    other@,
                )->Array_0);
                true
            },
            (Json::Object(a), Json::Object(b)) => {
                if a.len() != b.len() {
                    assert(without_zero_signs(self@)->Object_0.len() != without_zero_signs(
                        other@,
                    )->Object_0.len());
                    return false;
                }
                let mut i: usize = 0;
                while i < a.len()
                    invariant
                        i <= a.len(),
                        a.len() == b.len(),
                        *self == Json::Object(*a),
                        *other == Json::Object(*b),
                        forall|k: int|
                            0 <= k < i ==> (#[trigger] a@[k]).0@ == b@[k].0@ && same_json(
                                a@[k].1@,
                                b@[k].1@,
                            ),
                    decreases a.len() - i,
                {
                    reveal(without_zero_signs);
                    assert(decreases_to!(*self => self->Object_0));
                    assert(decreases_to!(*a => a[i as int]));
                    if !text_eq(a[i].0.as_str(), b[i].0.as_str()) || !a[i].1.same(&b[i].1) {
                        assert(without_zero_signs(self@)->Object_0[i as int] != without_zero_signs(
                            other@,
                        )->Object_0[i as int]);
                        return false;
                    }
                    i += 1;
                }
                assert(without_zero_signs(self@)->Object_0 =~= without_zero_signs(
                    other@,
                )->Object_0);
                true
            },
            _ => false,
        }
    }
}

/// A value has as a field the first of that name, and only an object has any.
pub proof fn law_the_first_field_counts(
    fields: Seq<(Seq<char>, JsonView)>,
    name: Seq<char>,
    k: int,
)
    requires
        0 <= k <= fields.len(),
        forall|i: int| 0 <= i < k ==> (#[trigger] fields[i]).0 != name,
    ensures
        k < fields.len() && fields[k].0 == name ==> json_get(JsonView::Object(fields), name) == Some(
            fields[k].1,
        ),
        k == fields.len() ==> json_get(JsonView::Object(fields), name) is None,
    decreases k,
{
    if k > 0 {
        assert(fields[0].0 != name);
        assert forall|i: int| 0 <= i < k - 1 implies (#[trigger] fields.skip(1)[i]).0 != name by {
            assert(fields.skip(1)[i] == fields[i + 1]);
        }
        law_the_first_field_counts(fields.skip(1), name, k - 1);
    }
}

/// A text in a field is one only where the field is a text.
pub proof fn law_only_texts_are_read_as_texts(v: JsonView, name: Seq<char>, text: Seq<char>)
    ensures
        json_get_text(v, name) == Some(text) <==> json_get(v, name) == Some(JsonView::Text(text)),
        !(v is Object) ==> json_get(v, name) is None && json_get_text(v, name) is None,
{
}

/// Values that are equal are of one kind; whole numbers, truth values and texts are equal
/// only where they are the same, and lists and objects where they have as many items and
/// each is equal, under the same name.
pub proof fn law_equal_values_are_alike(a: JsonView, b: JsonView)
    ensures
        same_json(a, b) <==> match (a, b) {
            (JsonView::Null, JsonView::Null) => true,
            (JsonView::Bool(x), JsonView::Bool(y)) => x == y,
            (JsonView::UInt(x), JsonView::UInt(y)) => x == y,
            (JsonView::Int(x), JsonView::Int(y)) => x == y,
            (JsonView::Text(x), JsonView::Text(y)) => x == y,
            (JsonView::Decimal(x), JsonView::Decimal(y)) => x == y || (x == "-0.0"@ && y
                == "0.0"@) || (x == "0.0"@ && y == "-0.0"@),
            (JsonView::Array(x), JsonView::Array(y)) => x.len() == y.len() && forall|i: int|
                0 <= i < x.len() ==> same_json(#[trigger] x[i], y[i]),
            (JsonView::Object(x), JsonView::Object(y)) => x.len() == y.len() && forall|i: int|
                0 <= i < x.len() ==> (#[trigger] x[i]).0 == y[i].0 && same_json(x[i].1, y[i].1),
            _ => false,
        },
{
    reveal(without_zero_signs);
    reveal_strlit("-0.0");
    reveal_strlit("0.0");
    match (a, b) {
        (JsonView::Array(x), JsonView::Array(y)) => {
            let p = without_zero_signs(a)->Array_0;
            let q = without_zero_signs(b)->Array_0;
            assert(p.len() == x.len() && q.len() == y.len());
            assert(forall|i: int|
                0 <= i < x.len() ==> #[trigger] p[i] == without_zero_signs(x[i]));
            assert(forall|i: int|
                0 <= i < y.len() ==> #[trigger] q[i] == without_zero_signs(y[i]));
            if same_json(a, b) {
                assert forall|i: int| 0 <= i < x.len() implies same_json(#[trigger] x[i], y[i]) by {
                    assert(p[i] == q[i]);
                }
            }
            if x.len() == y.len() && forall|i: int|
                0 <= i < x.len() ==> same_json(#[trigger] x[i], y[i]) {
                assert forall|i: int| 0 <= i < p.len() implies p[i] == q[i] by {
                    assert(same_json(x[i], y[i]));
                }
                assert(p =~= q);
            }
        },
        (JsonView::Object(x), JsonView::Object(y)) => {
            let p = without_zero_signs(a)->Object_0;
            let q = without_zero_signs(b)->Object_0;
            assert(p.len() == x.len() && q.len() == y.len());
            assert(forall|i: int|
                0 <= i < x.len() ==> #[trigger] p[i] == (x[i].0, without_zero_signs(x[i].1)));
            assert(forall|i: int|
                0 <= i < y.len() ==> #[trigger] q[i] == (y[i].0, without_zero_signs(y[i].1)));
            if same_json(a, b) {
                assert forall|i: int| 0 <= i < x.len() implies (#[trigger] x[i]).0 == y[i].0
                    && same_json(x[i].1, y[i].1) by {
                    assert(p[i] == q[i]);
                }
            }
            if x.len() == y.len() && forall|i: int|
                0 <= i < x.len() ==> (#[trigger] x[i]).0 == y[i].0 && same_json(x[i].1, y[i].1) {
                assert forall|i: int| 0 <= i < p.len() implies p[i] == q[i] by {
                    assert(x[i].0 == y[i].0 && same_json(x[i].1, y[i].1));
                }
                assert(p =~= q);
            }
        },
        _ => {},
    }
}

} // verus!
