//! Configuration files: TOML values and how they stand for JSON values.
use vstd::arithmetic::power2::{lemma2_to64, pow2};
use vstd::prelude::*;
use vstd::string::*;

use crate::json;
use crate::json::{Fields, Json, JsonV, Number};

verus! {

/// A TOML value.
#[derive(Debug)]
pub enum Toml {
    Str(String),
    Integer(i64),
    /// The double with this IEEE 754 bit pattern.
    Float(u64),
    Boolean(bool),
    /// A date or time, as it is written.
    Datetime(String),
    Array(Vec<Toml>),
    Table(Vec<(String, Toml)>),
}

/// The mathematical value of a [`Toml`].
pub enum TomlV {
    Str(Seq<char>),
    Integer(i64),
    Float(u64),
    Boolean(bool),
    Datetime(Seq<char>),
    Array(Seq<TomlV>),
    Table(Seq<(Seq<char>, TomlV)>),
}

/// The mathematical value of `t`.
pub open spec fn model_of(t: Toml) -> TomlV
    decreases t,
{
    match t {
        Toml::Str(s) => TomlV::Str(s@),
        Toml::Integer(i) => TomlV::Integer(i),
        Toml::Float(d) => TomlV::Float(d),
        Toml::Boolean(b) => TomlV::Boolean(b),
        Toml::Datetime(s) => TomlV::Datetime(s@),
        Toml::Array(v) => TomlV::Array(
            Seq::new(
                v@.len(),
                |i: int|
                    if 0 <= i < v@.len() {
                        model_of(v@[i])
                    } else {
                        TomlV::Boolean(false)
                    },
            ),
        ),
        Toml::Table(v) => TomlV::Table(
            Seq::new(
                v@.len(),
                |i: int|
                    if 0 <= i < v@.len() {
                        (v@[i].0@, model_of(v@[i].1))
                    } else {
                        (Seq::<char>::empty(), TomlV::Boolean(false))
                    },
            ),
        ),
    }
}

impl View for Toml {
    type V = TomlV;

    open spec fn view(&self) -> TomlV {
        model_of(*self)
    }
}

/// The values of a list of items.
pub open spec fn models(v: Seq<Toml>) -> Seq<TomlV> {
    v.map_values(|t: Toml| model_of(t))
}

/// The values of a list of entries.
pub open spec fn entry_models(v: Seq<(String, Toml)>) -> Seq<(Seq<char>, TomlV)> {
    v.map_values(|f: (String, Toml)| (f.0@, model_of(f.1)))
}

/// An array holds the values of its items.
pub broadcast proof fn lemma_array_model(v: Vec<Toml>)
    ensures
        #[trigger] model_of(Toml::Array(v)) == TomlV::Array(models(v@)),
{
    assert(model_of(Toml::Array(v))->Array_0 =~= models(v@));
}

/// A table holds the values of its entries.
pub broadcast proof fn lemma_table_model(v: Vec<(String, Toml)>)
    ensures
        #[trigger] model_of(Toml::Table(v)) == TomlV::Table(entry_models(v@)),
{
    assert(model_of(Toml::Table(v))->Table_0 =~= entry_models(v@));
}

/// The bit pattern is that of a finite double.
pub open spec fn finite(bits: u64) -> bool {
    (bits / 0x10_0000_0000_0000) % 0x800 != 0x7ff
}

/// The bit pattern of the double nearest to `n`, which is no less than two to
/// the 63rd: doubles of that size lie 2048 apart, and of two that are equally
/// near it is the one with the even bit pattern.
pub open spec fn nearest_double(n: u64) -> u64 {
    let below = n / 2048;
    let rest = n % 2048;
    let up: int = if rest > 1024 || rest == 1024 && below % 2 == 1 {
        1
    } else {
        0
    };
    (1085 * 0x10_0000_0000_0000 + below + up) as u64
}

/// The value of a positive double that is a whole number because its
/// exponent is large.
pub open spec fn whole_value(bits: u64) -> int {
    (0x10_0000_0000_0000 + bits % 0x10_0000_0000_0000) * pow2(
        (bits / 0x10_0000_0000_0000 - 1075) as nat,
    )
}

/// The double that stands for a large number is at most half a step away from
/// it, and where it is half a step away it is the even one.
pub proof fn law_nearest_double(n: u64)
    requires
        n > i64::MAX,
    ensures
        finite(nearest_double(n)),
        -1024 <= whole_value(nearest_double(n)) - n <= 1024,
        whole_value(nearest_double(n)) - n == 1024 || whole_value(nearest_double(n)) - n == -1024
            ==> nearest_double(n) % 2 == 0,
{
    lemma2_to64();
    let bits = nearest_double(n);
    if bits / 0x10_0000_0000_0000 == 1086 {
        assert(whole_value(bits) == (0x10_0000_0000_0000 + bits % 0x10_0000_0000_0000) * 2048);
    } else {
        assert(bits == 1087 * 0x10_0000_0000_0000);
        assert(whole_value(bits) == 0x10_0000_0000_0000 * 4096);
    }
}

fn double_near(n: u64) -> (r: u64)
    requires
        n > i64::MAX,
    ensures
        r == nearest_double(n),
{
    let below: u64 = n / 2048;
    let rest: u64 = n % 2048;
    let up: u64 = if rest > 1024 || rest == 1024 && below % 2 == 1 {
        1
    } else {
        0
    };
    1085 * 0x10_0000_0000_0000 + below + up
}

/// Every number in `t` is one that JSON can hold.
pub open spec fn representable(t: TomlV) -> bool
    decreases t,
{
    match t {
        TomlV::Float(b) => finite(b),
        TomlV::Array(v) => forall|i: int| 0 <= i < v.len() ==> representable(#[trigger] v[i]),
        TomlV::Table(v) => forall|i: int| 0 <= i < v.len() ==> representable((#[trigger] v[i]).1),
        _ => true,
    }
}

/// The JSON value that stands for `t`.
pub open spec fn json_of(t: TomlV) -> JsonV
    decreases t,
{
    match t {
        TomlV::Str(s) => JsonV::Str(s),
        TomlV::Integer(i) => JsonV::Number(Number::of_int(i)),
        TomlV::Float(b) => JsonV::Number(Number::Double(b)),
        TomlV::Boolean(b) => JsonV::Bool(b),
        TomlV::Datetime(s) => JsonV::Str(s),
        TomlV::Array(v) => JsonV::Array(
            Seq::new(
                v.len(),
                |i: int|
                    if 0 <= i < v.len() {
                        json_of(v[i])
                    } else {
                        JsonV::Null
                    },
            ),
        ),
        TomlV::Table(v) => JsonV::Object(
            Seq::new(
                v.len(),
                |i: int|
                    if 0 <= i < v.len() {
                        (v[i].0, json_of(v[i].1))
                    } else {
                        (Seq::<char>::empty(), JsonV::Null)
                    },
            ),
        ),
    }
}

/// The TOML value that stands for `j`. TOML has no null and no integer beyond
/// an `i64`: an empty text and the nearest double take their places.
pub open spec fn toml_of(j: JsonV) -> TomlV
    decreases j,
{
    match j {
        JsonV::Null => TomlV::Str(Seq::empty()),
        JsonV::Bool(b) => TomlV::Boolean(b),
        JsonV::Number(n) => match n.i64_of() {
            Some(i) => TomlV::Integer(i),
            None => match n {
                Number::Double(b) => TomlV::Float(b),
                Number::Unsigned(u) => TomlV::Float(nearest_double(u)),
                Number::Negative(i) => TomlV::Integer(i),
            },
        },
        JsonV::Str(s) => TomlV::Str(s),
        JsonV::Array(v) => TomlV::Array(
            Seq::new(
                v.len(),
                |i: int|
                    if 0 <= i < v.len() {
                        toml_of(v[i])
                    } else {
                        TomlV::Boolean(false)
                    },
            ),
        ),
        JsonV::Object(v) => TomlV::Table(
            Seq::new(
                v.len(),
                |i: int|
                    if 0 <= i < v.len() {
                        (v[i].0, toml_of(v[i].1))
                    } else {
                        (Seq::<char>::empty(), TomlV::Boolean(false))
                    },
            ),
        ),
    }
}

/// The JSON value that stands for `value`.
pub fn toml_to_json(value: Toml) -> (r: Json)
    requires
        representable(value@),
    ensures
        r@ == json_of(value@),
{
    to_json(&value)
}

fn to_json(value: &Toml) -> (r: Json)
    requires
        representable(value@),
    ensures
        r@ == json_of(value@),
    decreases value,
{
    broadcast use {
        json::lemma_array_model,
        json::lemma_object_model,
        lemma_array_model,
        lemma_table_model,
    };

    match value {
        Toml::Str(s) => Json::Str(s.clone()),
        Toml::Integer(i) => json::int_value(*i),
        Toml::Float(b) => Json::Number(Number::Double(*b)),
        Toml::Boolean(b) => Json::Bool(*b),
        Toml::Datetime(s) => Json::Str(s.clone()),
        Toml::Array(v) => {
            let mut out: Vec<Json> = Vec::new();
            let mut i: usize = 0;
            while i < v.len()
                invariant
                    i <= v@.len(),
                    value is Array,
                    *v == value->Array_0,
                    representable(value@),
                    value@ == TomlV::Array(models(v@)),
                    json::models(out@) =~= json_of(value@)->Array_0.take(i as int),
                decreases v@.len() - i,
            {
                let ghost held = out@;
                proof {
                    assert(decreases_to!(value => value->Array_0));
                    assert(decreases_to!(v => v@));
                    assert(decreases_to!(v@ => v@[i as int]));
                    assert(models(v@)[i as int] == v@[i as int]@);
                }
                let item = to_json(&v[i]);
                out.push(item);
                proof {
                    assert(json::models(out@) =~= json::models(held).push(item@));
                }
                i += 1;
            }
            proof {
                assert(json::models(out@) =~= json_of(value@)->Array_0);
            }
            json::array(out)
        },
        Toml::Table(v) => {
            let mut fields = Fields::new();
            let mut i: usize = 0;
            while i < v.len()
                invariant
                    i <= v@.len(),
                    value is Table,
                    *v == value->Table_0,
                    representable(value@),
                    value@ == TomlV::Table(entry_models(v@)),
                    fields@ =~= json_of(value@)->Object_0.take(i as int),
                decreases v@.len() - i,
            {
                proof {
                    assert(decreases_to!(value => value->Table_0));
                    assert(decreases_to!(v => v@));
                    assert(decreases_to!(v@ => v@[i as int]));
                    assert(decreases_to!(v@[i as int] => v@[i as int].1));
                    assert(entry_models(v@)[i as int] == (v@[i as int].0@, v@[i as int].1@));
                }
                let item = to_json(&v[i].1);
                fields.add(v[i].0.as_str(), item);
                i += 1;
            }
            proof {
                assert(fields@ =~= json_of(value@)->Object_0);
            }
            fields.object()
        },
    }
}

fn json_to_toml(value: &Json) -> (r: Toml)
    ensures
        r@ == toml_of(value@),
    decreases value,
{
    broadcast use {
        json::lemma_array_model,
        json::lemma_object_model,
        lemma_array_model,
        lemma_table_model,
    };

    match value {
        Json::Null => Toml::Str(String::new()),
        Json::Bool(b) => Toml::Boolean(*b),
        Json::Number(n) => match n.as_i64() {
            Some(i) => Toml::Integer(i),
            None => match *n {
                Number::Double(b) => Toml::Float(b),
                Number::Unsigned(u) => Toml::Float(double_near(u)),
                Number::Negative(i) => Toml::Integer(i),
            },
        },
        Json::Str(s) => Toml::Str(s.clone()),
        Json::Array(v) => {
            let mut out: Vec<Toml> = Vec::new();
            let mut i: usize = 0;
            while i < v.len()
                invariant
                    i <= v@.len(),
                    value is Array,
                    *v == value->Array_0,
                    value@ == JsonV::Array(json::models(v@)),
                    models(out@) =~= toml_of(value@)->Array_0.take(i as int),
                decreases v@.len() - i,
            {
                let ghost held = out@;
                proof {
                    assert(decreases_to!(value => value->Array_0));
                    assert(decreases_to!(v => v@));
                    assert(decreases_to!(v@ => v@[i as int]));
                    assert(json::models(v@)[i as int] == v@[i as int]@);
                }
                let item = json_to_toml(&v[i]);
                out.push(item);
                proof {
                    assert(models(out@) =~= models(held).push(item@));
                }
                i += 1;
            }
            proof {
                assert(models(out@) =~= toml_of(value@)->Array_0);
            }
            Toml::Array(out)
        },
        Json::Object(v) => {
            let mut out: Vec<(String, Toml)> = Vec::new();
            let mut i: usize = 0;
            while i < v.len()
                invariant
                    i <= v@.len(),
                    value is Object,
                    *v == value->Object_0,
                    value@ == JsonV::Object(json::field_models(v@)),
                    entry_models(out@) =~= toml_of(value@)->Table_0.take(i as int),
                decreases v@.len() - i,
            {
                let ghost held = out@;
                proof {
                    assert(decreases_to!(value => value->Object_0));
                    assert(decreases_to!(v => v@));
                    assert(decreases_to!(v@ => v@[i as int]));
                    assert(decreases_to!(v@[i as int] => v@[i as int].1));
                    assert(json::field_models(v@)[i as int] == (
                        v@[i as int].0@,
                        v@[i as int].1@,
                    ));
                }
                let item = json_to_toml(&v[i].1);
                out.push((v[i].0.clone(), item));
                proof {
                    assert(entry_models(out@) =~= entry_models(held).push(
                        (v@[i as int].0@, item@),
                    ));
                }
                i += 1;
            }
            proof {
                assert(entry_models(out@) =~= toml_of(value@)->Table_0);
            }
            Toml::Table(out)
        },
    }
}

/// The TOML value under which a configuration is stored.
pub fn config_to_toml(value: &Json) -> (r: Toml)
    ensures
        r@ == toml_of(value@),
{
    json_to_toml(value)
}

/// `j` holds no null, no integer beyond an `i64` and no double that is not finite.
pub open spec fn storable(j: JsonV) -> bool
    decreases j,
{
    match j {
        JsonV::Null => false,
        JsonV::Number(Number::Double(b)) => finite(b),
        JsonV::Number(Number::Unsigned(n)) => n <= i64::MAX,
        JsonV::Number(Number::Negative(n)) => n < 0,
        JsonV::Array(v) => forall|i: int| 0 <= i < v.len() ==> storable(#[trigger] v[i]),
        JsonV::Object(v) => forall|i: int| 0 <= i < v.len() ==> storable((#[trigger] v[i]).1),
        _ => true,
    }
}

/// A configuration without nulls and out-of-range numbers reads back from its
/// file as it was stored.
pub proof fn law_config_survives_storage(j: JsonV)
    requires
        storable(j),
    ensures
        representable(toml_of(j)),
        json_of(toml_of(j)) == j,
    decreases j,
{
    match j {
        JsonV::Array(v) => {
            let t = toml_of(j)->Array_0;
            assert forall|i: int| 0 <= i < v.len() implies representable(#[trigger] t[i])
                && json_of(t[i]) == v[i] by {
                law_config_survives_storage(v[i]);
            }
            assert(json_of(toml_of(j))->Array_0 =~= v);
        },
        JsonV::Object(v) => {
            let t = toml_of(j)->Table_0;
            assert forall|i: int| 0 <= i < v.len() implies representable((#[trigger] t[i]).1)
                && json_of(t[i].1) == v[i].1 && t[i].0 == v[i].0 by {
                law_config_survives_storage(v[i].1);
            }
            assert(json_of(toml_of(j))->Object_0 =~= v);
        },
        _ => {},
    }
}

/// Every number in `j` is one that a file can hold: a double is finite, and a
/// negative integer is negative.
pub open spec fn sound(j: JsonV) -> bool
    decreases j,
{
    match j {
        JsonV::Number(Number::Double(b)) => finite(b),
        JsonV::Number(Number::Negative(n)) => n < 0,
        JsonV::Array(v) => forall|i: int| 0 <= i < v.len() ==> sound(#[trigger] v[i]),
        JsonV::Object(v) => forall|i: int| 0 <= i < v.len() ==> sound((#[trigger] v[i]).1),
        _ => true,
    }
}

/// `j` with an empty text in place of each null, and the nearest double in
/// place of each integer beyond an `i64`.
pub open spec fn as_stored(j: JsonV) -> JsonV
    decreases j,
{
    match j {
        JsonV::Null => JsonV::Str(Seq::empty()),
        JsonV::Number(Number::Unsigned(n)) => if n > i64::MAX {
            JsonV::Number(Number::Double(nearest_double(n)))
        } else {
            j
        },
        JsonV::Array(v) => JsonV::Array(
            Seq::new(
                v.len(),
                |i: int|
                    if 0 <= i < v.len() {
                        as_stored(v[i])
                    } else {
                        JsonV::Null
                    },
            ),
        ),
        JsonV::Object(v) => JsonV::Object(
            Seq::new(
                v.len(),
                |i: int|
                    if 0 <= i < v.len() {
                        (v[i].0, as_stored(v[i].1))
                    } else {
                        (Seq::<char>::empty(), JsonV::Null)
                    },
            ),
        ),
        _ => j,
    }
}

/// Whatever is stored reads back but for what a file cannot hold: a null
/// comes back as an empty text, and a large integer as the nearest double.
pub proof fn law_nulls_come_back_empty(j: JsonV)
    requires
        sound(j),
    ensures
        representable(toml_of(j)),
        json_of(toml_of(j)) == as_stored(j),
        json_of(toml_of(JsonV::Null)) == JsonV::Str(Seq::empty()),
    decreases j,
{
    match j {
        JsonV::Number(Number::Unsigned(n)) => {
            if n > i64::MAX {
                law_nearest_double(n);
            }
        },
        JsonV::Array(v) => {
            let t = toml_of(j)->Array_0;
            let s = as_stored(j)->Array_0;
            assert forall|i: int| 0 <= i < v.len() implies representable(#[trigger] t[i])
                && json_of(t[i]) == s[i] by {
                law_nulls_come_back_empty(v[i]);
            }
            assert(json_of(toml_of(j))->Array_0 =~= s);
        },
        JsonV::Object(v) => {
            let t = toml_of(j)->Table_0;
            let s = as_stored(j)->Object_0;
            assert forall|i: int| 0 <= i < v.len() implies representable((#[trigger] t[i]).1)
                && json_of(t[i].1) == s[i].1 && t[i].0 == s[i].0 by {
                law_nulls_come_back_empty(v[i].1);
            }
            assert(json_of(toml_of(j))->Object_0 =~= s);
        },
        _ => {},
    }
}

} // verus!
