//! A JSON document model held as plain values, read and written by `serde_json`.

use vstd::prelude::*;

use crate::text;

verus! {

/// A JSON value. Numbers keep the three shapes the bridge tells apart:
/// non-negative integers, negative integers, and every other number, which is
/// held as its JSON text.
pub enum Json {
    Null,
    Bool(bool),
    UInt(u64),
    Int(i64),
    Float(String),
    Str(String),
    Array(Vec<Json>),
    Object(Vec<(String, Json)>),
}

/// The mathematical model of [`Json`]: strings as character sequences.
pub enum JsonV {
    Null,
    Bool(bool),
    UInt(u64),
    Int(i64),
    Float(Seq<char>),
    Str(Seq<char>),
    Array(Seq<JsonV>),
    Object(Seq<(Seq<char>, JsonV)>),
}

pub open spec fn json_view(j: Json) -> JsonV
    decreases j,
{
    match j {
        Json::Null => JsonV::Null,
        Json::Bool(b) => JsonV::Bool(b),
        Json::UInt(n) => JsonV::UInt(n),
        Json::Int(n) => JsonV::Int(n),
        Json::Float(s) => JsonV::Float(s@),
        Json::Str(s) => JsonV::Str(s@),
        Json::Array(items) => JsonV::Array(
            Seq::new(
                items@.len(),
                |i: int|
                    if 0 <= i < items@.len() {
                        proof {
                            assert(decreases_to!(items => items@[i]));
                        }
                        json_view(items@[i])
                    } else {
                        JsonV::Null
                    },
            ),
        ),
        Json::Object(fields) => JsonV::Object(
            Seq::new(
                fields@.len(),
                |i: int|
                    if 0 <= i < fields@.len() {
                        proof {
                            assert(decreases_to!(fields => fields@[i]));
                        }
                        (fields@[i].0@, json_view(fields@[i].1))
                    } else {
                        (Seq::empty(), JsonV::Null)
                    },
            ),
        ),
    }
}

impl View for Json {
    type V = JsonV;

    open spec fn view(&self) -> JsonV {
        json_view(*self)
    }
}

/// The models of a sequence of values.
pub open spec fn views(items: Seq<Json>) -> Seq<JsonV> {
    Seq::new(items.len(), |i: int| json_view(items[i]))
}

/// The models of a sequence of object fields.
pub open spec fn field_views(fields: Seq<(String, Json)>) -> Seq<(Seq<char>, JsonV)> {
    Seq::new(fields.len(), |i: int| (fields[i].0@, json_view(fields[i].1)))
}

pub proof fn lemma_array_view(items: Vec<Json>)
    ensures
        Json::Array(items)@ == JsonV::Array(views(items@)),
{
    assert(json_view(Json::Array(items))->Array_0 =~= views(items@));
}

pub proof fn lemma_object_view(fields: Vec<(String, Json)>)
    ensures
        Json::Object(fields)@ == JsonV::Object(field_views(fields@)),
{
    assert(json_view(Json::Object(fields))->Object_0 =~= field_views(fields@));
}

/// The value stored under `key`: the first field with that name
/// (`Value::get` with a string key; `None` for values that are not objects).
pub open spec fn find_field(fields: Seq<(Seq<char>, JsonV)>, key: Seq<char>) -> Option<JsonV>
    decreases fields.len(),
{
    if fields.len() == 0 {
        None
    } else if fields[0].0 == key {
        Some(fields[0].1)
    } else {
        find_field(fields.drop_first(), key)
    }
}

pub open spec fn jget(v: JsonV, key: Seq<char>) -> Option<JsonV> {
    match v {
        JsonV::Object(fields) => find_field(fields, key),
        _ => None,
    }
}

/// `Value::as_str`.
pub open spec fn jstr(v: JsonV) -> Option<Seq<char>> {
    match v {
        JsonV::Str(s) => Some(s),
        _ => None,
    }
}

/// `Value::as_array`.
pub open spec fn jarr(v: JsonV) -> Option<Seq<JsonV>> {
    match v {
        JsonV::Array(items) => Some(items),
        _ => None,
    }
}

/// `Value::as_bool`.
pub open spec fn jbool(v: JsonV) -> Option<bool> {
    match v {
        JsonV::Bool(b) => Some(b),
        _ => None,
    }
}

/// `Value::as_u64`: non-negative integers only.
pub open spec fn ju64(v: JsonV) -> Option<u64> {
    match v {
        JsonV::UInt(n) => Some(n),
        JsonV::Int(n) => if n >= 0 { Some(n as u64) } else { None },
        _ => None,
    }
}

/// `value.get(key).and_then(Value::as_str)`.
pub open spec fn get_str(v: JsonV, key: Seq<char>) -> Option<Seq<char>> {
    match jget(v, key) {
        Some(x) => jstr(x),
        None => None,
    }
}

/// `value.get(key).and_then(Value::as_array)`.
pub open spec fn get_arr(v: JsonV, key: Seq<char>) -> Option<Seq<JsonV>> {
    match jget(v, key) {
        Some(x) => jarr(x),
        None => None,
    }
}

/// `value.get(key).and_then(Value::as_bool)`.
pub open spec fn get_bool(v: JsonV, key: Seq<char>) -> Option<bool> {
    match jget(v, key) {
        Some(x) => jbool(x),
        None => None,
    }
}

/// `value.get(key).and_then(Value::as_u64)`.
pub open spec fn get_u64(v: JsonV, key: Seq<char>) -> Option<u64> {
    match jget(v, key) {
        Some(x) => ju64(x),
        None => None,
    }
}

impl Json {
    /// The value stored under `key` in an object (`Value::get`).
    pub fn get(&self, key: &str) -> (r: Option<&Json>)
        ensures
            match r {
                Some(x) => jget(self@, key@) == Some(x@),
                None => jget(self@, key@) is None,
            },
    {
        match self {
            Json::Object(fields) => {
                proof {
                    lemma_object_view(*fields);
                }
                let ghost fv = field_views(fields@);
                let k = text::chars_of(key);
                let mut i: usize = 0;
                assert(fv.skip(0) =~= fv);
                while i < fields.len()
                    invariant
                        i <= fields.len(),
                        fv == field_views(fields@),
                        self@ == JsonV::Object(fv),
                        k@ == key@,
                        find_field(fv, key@) == find_field(fv.skip(i as int), key@),
                    decreases fields.len() - i,
                {
                    let name = text::chars_of(fields[i].0.as_str());
                    assert(fv.skip(i as int).drop_first() =~= fv.skip(i + 1));
                    assert(fv.skip(i as int)[0] == fv[i as int]);
                    if text::chars_eq(name.as_slice(), k.as_slice()) {
                        assert(fv[i as int].0 == key@);
                        assert(fv[i as int].1 == fields@[i as int].1@);
                        return Some(&fields[i].1);
                    }
                    i = i + 1;
                }
                None
            },
            _ => None,
        }
    }

    /// `Value::as_str`.
    pub fn as_str(&self) -> (r: Option<&str>)
        ensures
            match r {
                Some(s) => jstr(self@) == Some(s@),
                None => jstr(self@) is None,
            },
    {
        match self {
            Json::Str(s) => Some(s.as_str()),
            _ => None,
        }
    }

    /// `Value::as_array`.
    pub fn as_array(&self) -> (r: Option<&Vec<Json>>)
        ensures
            match r {
                Some(items) => jarr(self@) == Some(views(items@)),
                None => jarr(self@) is None,
            },
    {
        match self {
            Json::Array(items) => {
                proof {
                    lemma_array_view(*items);
                }
                Some(items)
            },
            _ => None,
        }
    }

    /// `Value::as_bool`.
    pub fn as_bool(&self) -> (r: Option<bool>)
        ensures
            r == jbool(self@),
    {
        match self {
            Json::Bool(b) => Some(*b),
            _ => None,
        }
    }

    /// `Value::as_u64`.
    pub fn as_u64(&self) -> (r: Option<u64>)
        ensures
            r == ju64(self@),
    {
        match self {
            Json::UInt(n) => Some(*n),
            Json::Int(n) => if *n >= 0 { Some(*n as u64) } else { None },
            _ => None,
        }
    }

    /// `Value::is_null`.
    pub fn is_null(&self) -> (r: bool)
        ensures
            r == (self@ is Null),
    {
        match self {
            Json::Null => true,
            _ => false,
        }
    }

    /// `value.get(key).and_then(Value::as_str)`.
    pub fn get_str(&self, key: &str) -> (r: Option<&str>)
        ensures
            match r {
                Some(s) => get_str(self@, key@) == Some(s@),
                None => get_str(self@, key@) is None,
            },
    {
        match self.get(key) {
            Some(x) => x.as_str(),
            None => None,
        }
    }

    /// `value.get(key).and_then(Value::as_array)`.
    pub fn get_array(&self, key: &str) -> (r: Option<&Vec<Json>>)
        ensures
            match r {
                Some(items) => get_arr(self@, key@) == Some(views(items@)),
                None => get_arr(self@, key@) is None,
            },
    {
        match self.get(key) {
            Some(x) => x.as_array(),
            None => None,
        }
    }

    /// `value.get(key).and_then(Value::as_bool)`.
    pub fn get_bool(&self, key: &str) -> (r: Option<bool>)
        ensures
            r == get_bool(self@, key@),
    {
        match self.get(key) {
            Some(x) => x.as_bool(),
            None => None,
        }
    }

    /// `value.get(key).and_then(Value::as_u64)`.
    pub fn get_u64(&self, key: &str) -> (r: Option<u64>)
        ensures
            r == get_u64(self@, key@),
    {
        match self.get(key) {
            Some(x) => x.as_u64(),
            None => None,
        }
    }
}


/// The lower-case hexadecimal digit for `d < 16`.
pub open spec fn hex_digit(d: nat) -> char {
    if d < 10 {
        text::digit_char(d)
    } else if d == 10 { 'a' }
    else if d == 11 { 'b' }
    else if d == 12 { 'c' }
    else if d == 13 { 'd' }
    else if d == 14 { 'e' }
    else { 'f' }
}

/// The lower-case hexadecimal digit for `d < 16`.
pub(crate) fn hex_char(d: u32) -> (c: char)
    requires
        d < 16,
    ensures
        c == hex_digit(d as nat),
{
    if d < 10 {
        text::digit(d as u64)
    } else if d == 10 { 'a' }
    else if d == 11 { 'b' }
    else if d == 12 { 'c' }
    else if d == 13 { 'd' }
    else if d == 14 { 'e' }
    else { 'f' }
}

#[verifier::external_type_specification]
#[verifier::external_body]
pub struct ExJsonValue(serde_json::Value);

/// What `serde_json::from_str::<serde_json::Value>` makes of a text: the
/// value it parses, taken variant by variant as a [`JsonV`], or the message
/// of its error.
pub uninterp spec fn json_parse(text: Seq<char>) -> Result<JsonV, Seq<char>>;

/// What `serde_json::from_slice::<serde_json::Value>` makes of bytes: the
/// value it parses, taken as a [`JsonV`], or nothing when it fails.
pub uninterp spec fn json_parse_bytes(bytes: Seq<u8>) -> Option<JsonV>;

/// What `serde_json::to_string` writes for a value: its compact text.
pub uninterp spec fn json_serialize(v: JsonV) -> Seq<char>;

/// `serde_json::from_str` into a `serde_json::Value`, taken as a [`Json`];
/// an error becomes its message. The contract only names the result: what
/// the text must look like is `serde_json`'s grammar, left unsaid here.
#[verifier::external_body]
pub(crate) fn parse_json_text(text: &str) -> (r: Result<Json, String>)
    ensures
        match r {
            Ok(v) => json_parse(text@) == Ok::<JsonV, Seq<char>>(v@),
            Err(e) => json_parse(text@) == Err::<JsonV, Seq<char>>(e@),
        },
{
    serde_json::from_str::<serde_json::Value>(text).map(json_of_value).map_err(|e| e.to_string())
}

/// `serde_json::from_slice` into a `serde_json::Value`, taken as a [`Json`];
/// `None` when the bytes do not parse. The contract only names the result.
#[verifier::external_body]
pub(crate) fn parse_json_bytes(bytes: &[u8]) -> (r: Option<Json>)
    ensures
        crate::chat::opt_value(r) == json_parse_bytes(bytes@),
{
    serde_json::from_slice::<serde_json::Value>(bytes).ok().map(json_of_value)
}

/// `serde_json::to_string` of a [`Json`] taken as a `serde_json::Value`: the
/// compact text with `serde_json`'s escaping. The contract only names it.
#[verifier::external_body]
pub(crate) fn to_json_text(v: &Json) -> (r: String)
    ensures
        r@ == json_serialize(v@),
{
    serde_json::to_string(&value_of_json(v)).unwrap_or_default()
}

/// A parsed `serde_json::Value` taken as a [`Json`], variant by variant; a
/// number as an unsigned or a signed integer when it is one, else by its
/// text. Only the parse wrappers above call it; their contracts cover it.
#[verifier::external_body]
fn json_of_value(v: serde_json::Value) -> Json {
    match v {
        serde_json::Value::Null => Json::Null,
        serde_json::Value::Bool(b) => Json::Bool(b),
        serde_json::Value::Number(n) => match (n.as_u64(), n.as_i64()) {
            (Some(u), _) => Json::UInt(u),
            (None, Some(i)) => Json::Int(i),
            (None, None) => Json::Float(n.to_string()),
        },
        serde_json::Value::String(s) => Json::Str(s),
        serde_json::Value::Array(a) => Json::Array(a.into_iter().map(json_of_value).collect()),
        serde_json::Value::Object(m) => Json::Object(m.into_iter().map(|(k, x)| (k, json_of_value(x))).collect()),
    }
}

/// A [`Json`] taken as a `serde_json::Value`, variant by variant; the text of
/// a number that is neither integer form is read back as a number. Only
/// `to_json_text` calls it; its contract covers it.
#[verifier::external_body]
fn value_of_json(v: &Json) -> serde_json::Value {
    match v {
        Json::Null => serde_json::Value::Null,
        Json::Bool(b) => serde_json::Value::Bool(*b),
        Json::UInt(u) => serde_json::Value::from(*u),
        Json::Int(i) => serde_json::Value::from(*i),
        Json::Float(t) => t.parse::<serde_json::Number>().map(serde_json::Value::Number).unwrap_or_default(),
        Json::Str(t) => serde_json::Value::String(t.clone()),
        Json::Array(a) => serde_json::Value::Array(a.iter().map(value_of_json).collect()),
        Json::Object(f) => serde_json::Value::Object(f.iter().map(|(k, x)| (k.clone(), value_of_json(x))).collect()),
    }
}

/// The first field named `key` is the one `find_field` finds.
pub proof fn lemma_find_field_at(fields: Seq<(Seq<char>, JsonV)>, key: Seq<char>, i: int)
    requires
        0 <= i < fields.len(),
        fields[i].0 == key,
        forall|j: int| 0 <= j < i ==> fields[j].0 != key,
    ensures
        find_field(fields, key) == Some(fields[i].1),
    decreases i,
{
    if i > 0 {
        lemma_find_field_at(fields.drop_first(), key, i - 1);
    }
}

/// A value found by `find_field` is one of the fields' values.
pub proof fn lemma_find_field_member(fields: Seq<(Seq<char>, JsonV)>, key: Seq<char>)
    requires
        find_field(fields, key) is Some,
    ensures
        exists|i: int| 0 <= i < fields.len() && fields[i].1 == find_field(fields, key)->0,
    decreases fields.len(),
{
    if fields[0].0 == key {
        assert(fields[0].1 == find_field(fields, key)->0);
    } else {
        lemma_find_field_member(fields.drop_first(), key);
        let i = choose|i: int|
            0 <= i < fields.drop_first().len() && fields.drop_first()[i].1 == find_field(
                fields.drop_first(),
                key,
            )->0;
        assert(fields[i + 1].1 == find_field(fields, key)->0);
    }
}

/// A field's value is smaller than the object that holds it.
pub proof fn lemma_jget_decreases(v: JsonV, key: Seq<char>)
    requires
        jget(v, key) is Some,
    ensures
        decreases_to!(v => jget(v, key)->0),
{
    let fields = v->Object_0;
    lemma_find_field_member(fields, key);
    let i = choose|i: int| 0 <= i < fields.len() && fields[i].1 == find_field(fields, key)->0;
    assert(decreases_to!(v => fields));
    assert(decreases_to!(fields => fields[i]));
    assert(decreases_to!(fields[i] => fields[i].1));
}

impl Json {
    /// A copy of this value.
    pub fn copy(&self) -> (r: Json)
        ensures
            r@ == self@,
        decreases self,
    {
        match self {
            Json::Null => Json::Null,
            Json::Bool(b) => Json::Bool(*b),
            Json::UInt(n) => Json::UInt(*n),
            Json::Int(n) => Json::Int(*n),
            Json::Float(t) => Json::Float(t.clone()),
            Json::Str(t) => Json::Str(t.clone()),
            Json::Array(items) => {
                let mut out: Vec<Json> = Vec::new();
                let mut i: usize = 0;
                while i < items.len()
                    invariant
                        i <= items.len(),
                        *self == Json::Array(*items),
                        views(out@) == views(items@).take(i as int),
                    decreases items.len() - i,
                {
                    proof {
                        assert(decreases_to!(*self => (*self)->Array_0));
                        assert(decreases_to!(items => items@[i as int]));
                    }
                    let c = items[i].copy();
                    let ghost before = out@;
                    let ghost cv = c@;
                    out.push(c);
                    assert(views(out@) =~= views(before).push(cv));
                    i = i + 1;
                    assert(views(out@) =~= views(items@).take(i as int));
                }
                assert(views(items@).take(items.len() as int) =~= views(items@));
                proof {
                    lemma_array_view(out);
                    lemma_array_view(*items);
                }
                Json::Array(out)
            },
            Json::Object(fields) => {
                let mut out: Vec<(String, Json)> = Vec::new();
                let mut i: usize = 0;
                while i < fields.len()
                    invariant
                        i <= fields.len(),
                        *self == Json::Object(*fields),
                        field_views(out@) == field_views(fields@).take(i as int),
                    decreases fields.len() - i,
                {
                    proof {
                        assert(decreases_to!(*self => (*self)->Object_0));
                        assert(decreases_to!(fields => fields@[i as int]));
                        assert(decreases_to!(fields@[i as int] => fields@[i as int].1));
                    }
                    let c = fields[i].1.copy();
                    let ghost before = out@;
                    let ghost cv = c@;
                    let name = fields[i].0.clone();
                    out.push((name, c));
                    assert(field_views(out@) =~= field_views(before).push((fields@[i as int].0@, cv)));
                    i = i + 1;
                    assert(field_views(out@) =~= field_views(fields@).take(i as int));
                }
                assert(field_views(fields@).take(fields.len() as int) =~= field_views(fields@));
                proof {
                    lemma_object_view(out);
                    lemma_object_view(*fields);
                }
                Json::Object(out)
            },
        }
    }
}

/// A copy of a list of values.
pub fn copy_all(items: &Vec<Json>) -> (r: Vec<Json>)
    ensures
        views(r@) == views(items@),
{
    let mut out: Vec<Json> = Vec::new();
    let mut i: usize = 0;
    while i < items.len()
        invariant
            i <= items.len(),
            views(out@) == views(items@).take(i as int),
        decreases items.len() - i,
    {
        let c = items[i].copy();
        let ghost before = out@;
        let ghost cv = c@;
        out.push(c);
        assert(views(out@) =~= views(before).push(cv));
        i = i + 1;
        assert(views(out@) =~= views(items@).take(i as int));
    }
    assert(views(items@).take(items.len() as int) =~= views(items@));
    out
}

/// A JSON string value.
pub fn str_value(s: &str) -> (r: Json)
    ensures
        r@ == JsonV::Str(s@),
{
    Json::Str(text::owned(s))
}

/// A two-field object, fields in the given order.
pub fn object2(k1: &str, v1: Json, k2: &str, v2: Json) -> (r: Json)
    ensures
        r@ == JsonV::Object(seq![(k1@, v1@), (k2@, v2@)]),
{
    let mut fields: Vec<(String, Json)> = Vec::new();
    let ghost a = v1@;
    let ghost b = v2@;
    fields.push((text::owned(k1), v1));
    fields.push((text::owned(k2), v2));
    proof {
        lemma_object_view(fields);
        assert(field_views(fields@) =~= seq![(k1@, a), (k2@, b)]);
    }
    Json::Object(fields)
}

/// An object of the given fields, in the given order.
pub fn object(fields: Vec<(String, Json)>) -> (r: Json)
    ensures
        r@ == JsonV::Object(field_views(fields@)),
{
    proof {
        lemma_object_view(fields);
    }
    Json::Object(fields)
}

/// One object field.
pub fn field(key: &str, value: Json) -> (r: (String, Json))
    ensures
        r.0@ == key@,
        r.1 == value,
{
    (text::owned(key), value)
}

/// An array of the given items.
pub fn array(items: Vec<Json>) -> (r: Json)
    ensures
        r@ == JsonV::Array(views(items@)),
{
    proof {
        lemma_array_view(items);
    }
    Json::Array(items)
}
} // verus!
