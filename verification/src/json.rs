//! JSON values: what the gateway reads from requests, upstream events and
//! stored state, and what it answers.
use vstd::prelude::*;
use vstd::string::*;

use crate::text;

verus! {

/// A JSON number. A number that is no 64-bit integer is held by the bit
/// pattern of its IEEE 754 double.
#[derive(Clone, Copy, Debug, PartialEq, Eq, Structural)]
pub enum Number {
    /// A non-negative integer.
    Unsigned(u64),
    /// A negative integer.
    Negative(i64),
    /// Any other number.
    Double(u64),
}

impl Number {
    /// The integer that this number is, where it fits in an `i64`.
    pub open spec fn i64_of(self) -> Option<i64> {
        match self {
            Number::Unsigned(n) => if n <= i64::MAX {
                Some(n as i64)
            } else {
                None
            },
            Number::Negative(n) => Some(n),
            Number::Double(_) => None,
        }
    }

    /// The number that stands for the integer `i`.
    pub open spec fn of_int(i: i64) -> Number {
        if i < 0 {
            Number::Negative(i)
        } else {
            Number::Unsigned(i as u64)
        }
    }

    /// The integer that this number is, where it fits in an `i64`.
    pub fn as_i64(&self) -> (r: Option<i64>)
        ensures
            r == self.i64_of(),
    {
        match *self {
            Number::Unsigned(n) => if n <= 9_223_372_036_854_775_807 {
                Some(n as i64)
            } else {
                None
            },
            Number::Negative(n) => Some(n),
            Number::Double(_) => None,
        }
    }

    /// The number that stands for the integer `i`.
    pub fn from_i64(i: i64) -> (r: Number)
        ensures
            r == Number::of_int(i),
    {
        if i < 0 {
            Number::Negative(i)
        } else {
            Number::Unsigned(i as u64)
        }
    }
}

/// The two bit patterns are those of a positive and a negative zero.
pub open spec fn both_zero(a: u64, b: u64) -> bool {
    (a == 0 || a == 0x8000_0000_0000_0000) && (b == 0 || b == 0x8000_0000_0000_0000)
}

/// Two numbers are equal: same kind, same value, and the two zeros are one.
pub open spec fn same_number(a: Number, b: Number) -> bool {
    match (a, b) {
        (Number::Double(x), Number::Double(y)) => x == y || both_zero(x, y),
        _ => a == b,
    }
}

/// A JSON value. The fields of an object stand in the order in which they are walked.
#[derive(Debug)]
pub enum Json {
    Null,
    Bool(bool),
    Number(Number),
    Str(String),
    Array(Vec<Json>),
    Object(Vec<(String, Json)>),
}

/// The mathematical value of a [`Json`].
pub enum JsonV {
    Null,
    Bool(bool),
    Number(Number),
    Str(Seq<char>),
    Array(Seq<JsonV>),
    Object(Seq<(Seq<char>, JsonV)>),
}

/// The mathematical value of `j`.
pub open spec fn model_of(j: Json) -> JsonV
    decreases j,
{
    match j {
        Json::Null => JsonV::Null,
        Json::Bool(b) => JsonV::Bool(b),
        Json::Number(n) => JsonV::Number(n),
        Json::Str(s) => JsonV::Str(s@),
        Json::Array(v) => JsonV::Array(
            Seq::new(
                v@.len(),
                |i: int|
                    if 0 <= i < v@.len() {
                        model_of(v@[i])
                    } else {
                        JsonV::Null
                    },
            ),
        ),
        Json::Object(v) => JsonV::Object(
            Seq::new(
                v@.len(),
                |i: int|
                    if 0 <= i < v@.len() {
                        (v@[i].0@, model_of(v@[i].1))
                    } else {
                        (Seq::<char>::empty(), JsonV::Null)
                    },
            ),
        ),
    }
}

/// The values of a list of items.
pub open spec fn models(v: Seq<Json>) -> Seq<JsonV> {
    v.map_values(|j: Json| model_of(j))
}

/// The values of a list of fields.
pub open spec fn field_models(v: Seq<(String, Json)>) -> Seq<(Seq<char>, JsonV)> {
    v.map_values(|f: (String, Json)| (f.0@, model_of(f.1)))
}

impl View for Json {
    type V = JsonV;

    open spec fn view(&self) -> JsonV {
        model_of(*self)
    }
}

/// The value of an optional [`Json`].
pub open spec fn opt_model(o: Option<&Json>) -> Option<JsonV> {
    match o {
        Some(j) => Some(j@),
        None => None,
    }
}

/// An array holds the values of its items.
pub broadcast proof fn lemma_array_model(v: Vec<Json>)
    ensures
        #[trigger] model_of(Json::Array(v)) == JsonV::Array(models(v@)),
{
    assert(model_of(Json::Array(v))->Array_0 =~= models(v@));
}

/// An object holds the values of its fields.
pub broadcast proof fn lemma_object_model(v: Vec<(String, Json)>)
    ensures
        #[trigger] model_of(Json::Object(v)) == JsonV::Object(field_models(v@)),
{
    assert(model_of(Json::Object(v))->Object_0 =~= field_models(v@));
}

/// The position of the first field named `key`, from `i` on.
pub open spec fn position_from(
    fields: Seq<(Seq<char>, JsonV)>,
    key: Seq<char>,
    i: int,
) -> Option<int>
    decreases fields.len() - i,
{
    if i < 0 || i >= fields.len() {
        None
    } else if fields[i].0 == key {
        Some(i)
    } else {
        position_from(fields, key, i + 1)
    }
}

/// The position of the first field named `key`.
pub open spec fn position(fields: Seq<(Seq<char>, JsonV)>, key: Seq<char>) -> Option<int> {
    position_from(fields, key, 0)
}

/// The value of the field named `key`.
pub open spec fn lookup(fields: Seq<(Seq<char>, JsonV)>, key: Seq<char>) -> Option<JsonV> {
    match position(fields, key) {
        Some(i) => Some(fields[i].1),
        None => None,
    }
}

/// The fields with `key` set to `value`: in place where there is such a
/// field, at the end where there is none.
pub open spec fn put(
    fields: Seq<(Seq<char>, JsonV)>,
    key: Seq<char>,
    value: JsonV,
) -> Seq<(Seq<char>, JsonV)> {
    match position(fields, key) {
        Some(i) => fields.update(i, (key, value)),
        None => fields.push((key, value)),
    }
}

/// `position_from` finds the least position from `i` on, and finds one whenever there is one.
pub proof fn lemma_position_from(fields: Seq<(Seq<char>, JsonV)>, key: Seq<char>, i: int)
    requires
        0 <= i,
    ensures
        match position_from(fields, key, i) {
            Some(k) => i <= k < fields.len() && fields[k].0 == key && forall|j: int|
                i <= j < k ==> (#[trigger] fields[j]).0 != key,
            None => forall|j: int| i <= j < fields.len() ==> (#[trigger] fields[j]).0 != key,
        },
    decreases fields.len() - i,
{
    if i < fields.len() && fields[i].0 != key {
        lemma_position_from(fields, key, i + 1);
    }
}

/// No two fields have one name.
pub open spec fn distinct(fields: Seq<(Seq<char>, JsonV)>) -> bool {
    forall|i: int, j: int|
        0 <= i < j < fields.len() ==> (#[trigger] fields[i]).0 != (#[trigger] fields[j]).0
}

/// Where `v` is an object, it names no field twice.
pub open spec fn names_once(v: JsonV) -> bool {
    v matches JsonV::Object(fields) ==> distinct(fields)
}

/// No object in `v`, at any depth, names a field twice.
pub open spec fn well_formed(v: JsonV) -> bool
    decreases v,
{
    match v {
        JsonV::Array(items) => forall|i: int|
            0 <= i < items.len() ==> well_formed(#[trigger] items[i]),
        JsonV::Object(fields) => distinct(fields) && forall|i: int|
            0 <= i < fields.len() ==> well_formed((#[trigger] fields[i]).1),
        _ => true,
    }
}

/// The first position of a name is the only one where names are distinct.
pub proof fn lemma_position_distinct(fields: Seq<(Seq<char>, JsonV)>, k: int)
    requires
        distinct(fields),
        0 <= k < fields.len(),
    ensures
        position(fields, fields[k].0) == Some(k),
{
    lemma_position_from(fields, fields[k].0, 0);
}

/// Setting a field sets that field and no other.
pub proof fn lemma_put(fields: Seq<(Seq<char>, JsonV)>, key: Seq<char>, value: JsonV, other: Seq<char>)
    ensures
        lookup(put(fields, key, value), other) == (if other == key {
            Some(value)
        } else {
            lookup(fields, other)
        }),
{
    let after = put(fields, key, value);
    lemma_position_from(fields, key, 0);
    lemma_position_from(fields, other, 0);
    lemma_position_from(after, other, 0);
    match position(after, other) {
        Some(k) => {
            if other == key {
                match position(fields, key) {
                    Some(i) => {
                        assert(after[i].0 == key);
                        assert(k == i);
                    },
                    None => {
                        if k < fields.len() {
                            assert(fields[k].0 == key);
                        }
                        assert(k == fields.len());
                    },
                }
            } else {
                assert(k < fields.len());
                assert(after[k] == fields[k]);
                assert(position(fields, other) is Some);
                let m = position(fields, other)->0;
                assert(after[m] == fields[m]);
                assert(m == k);
            }
        },
        None => {
            if other == key {
                match position(fields, key) {
                    Some(i) => {
                        assert(after[i].0 == key);
                    },
                    None => {
                        assert(after[fields.len() as int].0 == key);
                    },
                }
            } else if position(fields, other) is Some {
                let m = position(fields, other)->0;
                assert(after[m] == fields[m]);
            }
        },
    }
}

impl JsonV {
    /// The field `key` of an object; other values have no fields.
    pub open spec fn field(self, key: Seq<char>) -> Option<JsonV> {
        match self {
            JsonV::Object(fields) => lookup(fields, key),
            _ => None,
        }
    }

    /// The text that this value is.
    pub open spec fn text(self) -> Option<Seq<char>> {
        match self {
            JsonV::Str(s) => Some(s),
            _ => None,
        }
    }

    /// The integer that this value is.
    pub open spec fn integer(self) -> Option<i64> {
        match self {
            JsonV::Number(n) => n.i64_of(),
            _ => None,
        }
    }

    /// The items of an array.
    pub open spec fn items(self) -> Option<Seq<JsonV>> {
        match self {
            JsonV::Array(v) => Some(v),
            _ => None,
        }
    }
}

/// The text in an optional value.
pub open spec fn text_in(o: Option<JsonV>) -> Option<Seq<char>> {
    match o {
        Some(j) => j.text(),
        None => None,
    }
}

/// The integer in an optional value.
pub open spec fn int_in(o: Option<JsonV>) -> Option<i64> {
    match o {
        Some(j) => j.integer(),
        None => None,
    }
}

/// The field of an optional value.
pub open spec fn field_in(o: Option<JsonV>, key: Seq<char>) -> Option<JsonV> {
    match o {
        Some(j) => j.field(key),
        None => None,
    }
}

/// The position of the first field named `key`.
pub fn find_field(fields: &Vec<(String, Json)>, key: &str) -> (r: Option<usize>)
    ensures
        match r {
            Some(i) => i < fields@.len() && position(field_models(fields@), key@) == Some(i as int),
            None => position(field_models(fields@), key@) is None,
        },
{
    let mut i: usize = 0;
    while i < fields.len()
        invariant
            i <= fields@.len(),
            position_from(field_models(fields@), key@, i as int) == position(
                field_models(fields@),
                key@,
            ),
        decreases fields@.len() - i,
    {
        proof {
            assert(field_models(fields@)[i as int].0 == fields@[i as int].0@);
        }
        if text::same_text(fields[i].0.as_str(), key) {
            return Some(i);
        }
        i += 1;
    }
    None
}

impl Json {
    /// The field `key` of an object; other values have no fields.
    pub fn get(&self, key: &str) -> (r: Option<&Json>)
        ensures
            opt_model(r) == self@.field(key@),
    {
        broadcast use lemma_object_model;

        match self {
            Json::Object(fields) => {
                match find_field(fields, key) {
                    Some(i) => {
                        proof {
                            assert(field_models(fields@)[i as int].1 == fields@[i as int].1@);
                        }
                        Some(&fields[i].1)
                    },
                    None => None,
                }
            },
            _ => None,
        }
    }

    /// The text that this value is.
    pub fn as_str(&self) -> (r: Option<&String>)
        ensures
            match r {
                Some(s) => self@.text() == Some(s@),
                None => self@.text() is None,
            },
    {
        match self {
            Json::Str(s) => Some(s),
            _ => None,
        }
    }

    /// The integer that this value is.
    pub fn as_i64(&self) -> (r: Option<i64>)
        ensures
            r == self@.integer(),
    {
        match self {
            Json::Number(n) => n.as_i64(),
            _ => None,
        }
    }

    /// The items of an array.
    pub fn as_array(&self) -> (r: Option<&Vec<Json>>)
        ensures
            match r {
                Some(v) => self@.items() == Some(models(v@)),
                None => self@.items() is None,
            },
    {
        broadcast use lemma_array_model;

        match self {
            Json::Array(v) => Some(v),
            _ => None,
        }
    }

    /// The text in the field `key`.
    pub fn get_str(&self, key: &str) -> (r: Option<&String>)
        ensures
            match r {
                Some(s) => text_in(self@.field(key@)) == Some(s@),
                None => text_in(self@.field(key@)) is None,
            },
    {
        match self.get(key) {
            Some(j) => j.as_str(),
            None => None,
        }
    }

    /// The integer in the field `key`.
    pub fn get_i64(&self, key: &str) -> (r: Option<i64>)
        ensures
            r == int_in(self@.field(key@)),
    {
        match self.get(key) {
            Some(j) => j.as_i64(),
            None => None,
        }
    }
}

impl Clone for Json {
    fn clone(&self) -> (r: Json)
        ensures
            r@ == self@,
    {
        copy_json(self)
    }
}

/// A copy of `j`.
pub fn copy_json(j: &Json) -> (r: Json)
    ensures
        r@ == j@,
    decreases j,
{
    broadcast use {lemma_array_model, lemma_object_model};

    match j {
        Json::Null => Json::Null,
        Json::Bool(b) => Json::Bool(*b),
        Json::Number(n) => Json::Number(*n),
        Json::Str(s) => Json::Str(s.clone()),
        Json::Array(v) => {
            let mut out: Vec<Json> = Vec::new();
            let mut i: usize = 0;
            while i < v.len()
                invariant
                    i <= v@.len(),
                    j is Array,
                    *v == j->Array_0,
                    models(out@) =~= models(v@).take(i as int),
                decreases v@.len() - i,
            {
                let ghost held = out@;
                proof {
                    assert(decreases_to!(j => j->Array_0));
                    assert(decreases_to!(v => v@));
                    assert(decreases_to!(v@ => v@[i as int]));
                }
                let item = copy_json(&v[i]);
                out.push(item);
                proof {
                    assert(models(out@) =~= models(held).push(v@[i as int]@));
                }
                i += 1;
            }
            proof {
                assert(models(out@) =~= models(v@));
            }
            Json::Array(out)
        },
        Json::Object(v) => {
            let mut out: Vec<(String, Json)> = Vec::new();
            let mut i: usize = 0;
            while i < v.len()
                invariant
                    i <= v@.len(),
                    j is Object,
                    *v == j->Object_0,
                    field_models(out@) =~= field_models(v@).take(i as int),
                decreases v@.len() - i,
            {
                let ghost held = out@;
                proof {
                    assert(decreases_to!(j => j->Object_0));
                    assert(decreases_to!(v => v@));
                    assert(decreases_to!(v@ => v@[i as int]));
                    assert(decreases_to!(v@[i as int] => v@[i as int].1));
                }
                let item = copy_json(&v[i].1);
                out.push((v[i].0.clone(), item));
                proof {
                    assert(field_models(out@) =~= field_models(held).push(
                        (v@[i as int].0@, v@[i as int].1@),
                    ));
                }
                i += 1;
            }
            proof {
                assert(field_models(out@) =~= field_models(v@));
            }
            Json::Object(out)
        },
    }
}


/// Two values are equal. The order of the fields of an object does not matter.
pub open spec fn same_value(a: JsonV, b: JsonV) -> bool
    decreases a,
{
    match (a, b) {
        (JsonV::Null, JsonV::Null) => true,
        (JsonV::Bool(x), JsonV::Bool(y)) => x == y,
        (JsonV::Number(x), JsonV::Number(y)) => same_number(x, y),
        (JsonV::Str(x), JsonV::Str(y)) => x == y,
        (JsonV::Array(x), JsonV::Array(y)) => x.len() == y.len() && forall|i: int|
            0 <= i < x.len() ==> same_value(#[trigger] x[i], y[i]),
        (JsonV::Object(x), JsonV::Object(y)) => x.len() == y.len() && forall|i: int|
            0 <= i < x.len() ==> match lookup(y, (#[trigger] x[i]).0) {
                Some(w) => same_value(x[i].1, w),
                None => false,
            },
        _ => false,
    }
}

/// Whether two numbers are equal.
fn equal_numbers(a: Number, b: Number) -> (r: bool)
    ensures
        r == same_number(a, b),
{
    match (a, b) {
        (Number::Double(x), Number::Double(y)) => x == y || ((x == 0 || x
            == 0x8000_0000_0000_0000) && (y == 0 || y == 0x8000_0000_0000_0000)),
        _ => a == b,
    }
}

/// Whether two values are equal.
pub fn equal(a: &Json, b: &Json) -> (r: bool)
    ensures
        r == same_value(a@, b@),
    decreases a,
{
    broadcast use {lemma_array_model, lemma_object_model};

    match (a, b) {
        (Json::Null, Json::Null) => true,
        (Json::Bool(x), Json::Bool(y)) => *x == *y,
        (Json::Number(x), Json::Number(y)) => equal_numbers(*x, *y),
        (Json::Str(x), Json::Str(y)) => text::same_text(x.as_str(), y.as_str()),
        (Json::Array(x), Json::Array(y)) => {
            if x.len() != y.len() {
                return false;
            }
            let mut i: usize = 0;
            while i < x.len()
                invariant
                    i <= x@.len(),
                    x@.len() == y@.len(),
                    a is Array,
                    *x == a->Array_0,
                    a@ == JsonV::Array(models(x@)),
                    b@ == JsonV::Array(models(y@)),
                    forall|k: int|
                        0 <= k < i ==> same_value(#[trigger] models(x@)[k], models(y@)[k]),
                decreases x@.len() - i,
            {
                proof {
                    assert(decreases_to!(a => a->Array_0));
                    assert(decreases_to!(x => x@));
                    assert(decreases_to!(x@ => x@[i as int]));
                    assert(models(x@)[i as int] == x@[i as int]@);
                    assert(models(y@)[i as int] == y@[i as int]@);
                }
                if !equal(&x[i], &y[i]) {
                    return false;
                }
                i += 1;
            }
            true
        },
        (Json::Object(x), Json::Object(y)) => {
            if x.len() != y.len() {
                return false;
            }
            let mut i: usize = 0;
            while i < x.len()
                invariant
                    i <= x@.len(),
                    x@.len() == y@.len(),
                    a is Object,
                    *x == a->Object_0,
                    a@ == JsonV::Object(field_models(x@)),
                    b@ == JsonV::Object(field_models(y@)),
                    forall|k: int|
                        0 <= k < i ==> match lookup(
                            field_models(y@),
                            (#[trigger] field_models(x@)[k]).0,
                        ) {
                            Some(w) => same_value(field_models(x@)[k].1, w),
                            None => false,
                        },
                decreases x@.len() - i,
            {
                proof {
                    assert(decreases_to!(a => a->Object_0));
                    assert(decreases_to!(x => x@));
                    assert(decreases_to!(x@ => x@[i as int]));
                    assert(decreases_to!(x@[i as int] => x@[i as int].1));
                    assert(field_models(x@)[i as int] == (x@[i as int].0@, x@[i as int].1@));
                }
                match find_field(y, x[i].0.as_str()) {
                    Some(k) => {
                        proof {
                            assert(field_models(y@)[k as int].1 == y@[k as int].1@);
                        }
                        if !equal(&x[i].1, &y[k].1) {
                            return false;
                        }
                    },
                    None => {
                        return false;
                    },
                }
                i += 1;
            }
            true
        },
        _ => false,
    }
}

/// The field named `key` of a value that may be missing.
pub fn get_in<'a>(o: Option<&'a Json>, key: &str) -> (r: Option<&'a Json>)
    ensures
        opt_model(r) == field_in(opt_model(o), key@),
{
    match o {
        Some(j) => j.get(key),
        None => None,
    }
}

/// The text that a value is, where it is there and is one.
pub fn str_in<'a>(o: Option<&'a Json>) -> (r: Option<&'a String>)
    ensures
        match r {
            Some(s) => text_in(opt_model(o)) == Some(s@),
            None => text_in(opt_model(o)) is None,
        },
{
    match o {
        Some(j) => j.as_str(),
        None => None,
    }
}

/// The integer that a value is, where it is there and is one.
pub fn i64_in(o: Option<&Json>) -> (r: Option<i64>)
    ensures
        r == int_in(opt_model(o)),
{
    match o {
        Some(j) => j.as_i64(),
        None => None,
    }
}

/// The items of an array, where the value is there and is one.
pub open spec fn items_in(o: Option<JsonV>) -> Option<Seq<JsonV>> {
    match o {
        Some(v) => v.items(),
        None => None,
    }
}

/// The items of an array, where the value is there and is one.
pub fn array_in<'a>(o: Option<&'a Json>) -> (r: Option<&'a Vec<Json>>)
    ensures
        match r {
            Some(v) => items_in(opt_model(o)) == Some(models(v@)),
            None => items_in(opt_model(o)) is None,
        },
{
    match o {
        Some(j) => j.as_array(),
        None => None,
    }
}

/// The texts in a list of values; what is no text is passed over.
pub open spec fn texts_among(items: Seq<JsonV>) -> Seq<Seq<char>>
    decreases items.len(),
{
    if items.len() == 0 {
        Seq::empty()
    } else {
        match items.last().text() {
            Some(s) => texts_among(items.drop_last()).push(s),
            None => texts_among(items.drop_last()),
        }
    }
}

/// The texts in a list of values; what is no text is passed over.
pub fn texts_of(items: &Vec<Json>) -> (r: Vec<String>)
    ensures
        text::texts(r@) == texts_among(models(items@)),
{
    let ghost all = models(items@);
    let mut out: Vec<String> = Vec::new();
    let n: usize = items.len();
    let mut i: usize = 0;
    proof {
        assert(all.take(0) =~= Seq::empty());
        assert(text::texts(out@) =~= Seq::empty());
    }
    while i < n
        invariant
            n == items@.len(),
            i <= n,
            all == models(items@),
            text::texts(out@) == texts_among(all.take(i as int)),
        decreases n - i,
    {
        proof {
            assert(all.take(i + 1).drop_last() =~= all.take(i as int));
            assert(all.take(i + 1).last() == items@[i as int]@);
        }
        if let Some(s) = items[i].as_str() {
            let ghost held = out@;
            out.push(s.clone());
            proof {
                assert(text::texts(out@) =~= text::texts(held).push(s@));
            }
        }
        i += 1;
    }
    proof {
        assert(all.take(i as int) =~= all);
    }
    out
}

/// A text value.
pub fn text_value(s: &str) -> (r: Json)
    ensures
        r@ == JsonV::Str(s@),
{
    Json::Str(String::from_str(s))
}

/// An integer value.
pub fn int_value(i: i64) -> (r: Json)
    ensures
        r@ == JsonV::Number(Number::of_int(i)),
{
    Json::Number(Number::from_i64(i))
}

/// A count.
pub fn count_value(n: usize) -> (r: Json)
    ensures
        r@ == JsonV::Number(Number::Unsigned(n as u64)),
{
    Json::Number(Number::Unsigned(n as u64))
}

/// What stands for an optional text: the text, or null.
pub open spec fn opt_text_model(o: Option<Seq<char>>) -> JsonV {
    match o {
        Some(s) => JsonV::Str(s),
        None => JsonV::Null,
    }
}

/// What stands for an optional text: the text, or null.
pub fn opt_text_value(o: &Option<String>) -> (r: Json)
    ensures
        r@ == opt_text_model(text::text_opt(*o)),
{
    match o {
        Some(s) => Json::Str(s.clone()),
        None => Json::Null,
    }
}

/// The fields of an object that is being put together.
#[derive(Debug)]
pub struct Fields {
    list: Vec<(String, Json)>,
}

impl View for Fields {
    type V = Seq<(Seq<char>, JsonV)>;

    closed spec fn view(&self) -> Seq<(Seq<char>, JsonV)> {
        field_models(self.list@)
    }
}

impl Fields {
    /// No fields yet.
    pub fn new() -> (r: Fields)
        ensures
            r@ == Seq::<(Seq<char>, JsonV)>::empty(),
    {
        let r = Fields { list: Vec::new() };
        proof {
            assert(r@ =~= Seq::<(Seq<char>, JsonV)>::empty());
        }
        r
    }

    /// Adds a field at the end.
    pub fn add(&mut self, key: &str, value: Json)
        ensures
            final(self)@ == old(self)@.push((key@, value@)),
    {
        let ghost held = self.list@;
        self.list.push((String::from_str(key), value));
        proof {
            assert(field_models(self.list@) =~= field_models(held).push((key@, value@)));
        }
    }

    /// Sets a field: in place where there is one of that name, at the end otherwise.
    pub fn set(&mut self, key: &str, value: Json)
        ensures
            final(self)@ == put(old(self)@, key@, value@),
    {
        match find_field(&self.list, key) {
            Some(i) => {
                let ghost held = self.list@;
                self.list.set(i, (String::from_str(key), value));
                proof {
                    assert(field_models(self.list@) =~= field_models(held).update(
                        i as int,
                        (key@, value@),
                    ));
                }
            },
            None => {
                self.add(key, value);
            },
        }
    }

    /// The value of the field named `key`.
    pub fn get(&self, key: &str) -> (r: Option<&Json>)
        ensures
            opt_model(r) == lookup(self@, key@),
    {
        match find_field(&self.list, key) {
            Some(i) => {
                proof {
                    assert(field_models(self.list@)[i as int].1 == self.list@[i as int].1@);
                }
                Some(&self.list[i].1)
            },
            None => None,
        }
    }

    /// The object with these fields.
    pub fn object(self) -> (r: Json)
        ensures
            r@ == JsonV::Object(self@),
    {
        broadcast use lemma_object_model;

        Json::Object(self.list)
    }
}

/// The array with these items.
pub fn array(items: Vec<Json>) -> (r: Json)
    ensures
        r@ == JsonV::Array(models(items@)),
{
    broadcast use lemma_array_model;

    Json::Array(items)
}

/// The object without fields.
pub fn empty_object() -> (r: Json)
    ensures
        r@ == JsonV::Object(Seq::empty()),
{
    Fields::new().object()
}

} // verus!
