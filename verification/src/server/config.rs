//! Layered configuration: defaults, what is stored, and what an
//! administrator sends.
use vstd::prelude::*;
use vstd::string::*;

use crate::json;
use crate::json::{Fields, Json, JsonV};
use crate::text;

verus! {

/// `over` laid on top of `base`: objects are merged field by field, anything
/// else in `over` wins.
pub open spec fn merged(base: JsonV, over: JsonV) -> JsonV
    decreases over, 0int,
{
    match (base, over) {
        (JsonV::Object(b), JsonV::Object(o)) => JsonV::Object(merged_fields(b, o)),
        _ => over,
    }
}

/// The fields `o`, one after the other, laid on top of the fields `b`.
pub open spec fn merged_fields(
    b: Seq<(Seq<char>, JsonV)>,
    o: Seq<(Seq<char>, JsonV)>,
) -> Seq<(Seq<char>, JsonV)>
    decreases o, 1int,
{
    if o.len() == 0 {
        b
    } else {
        let acc = merged_fields(b, o.drop_last());
        let key = o.last().0;
        let value = match json::lookup(acc, key) {
            Some(existing) => merged(existing, o[o.len() - 1].1),
            None => o.last().1,
        };
        json::put(acc, key, value)
    }
}

/// `over` laid on top of `base`.
pub fn deep_merge(base: &Json, over: &Json) -> (r: Json)
    ensures
        r@ == merged(base@, over@),
    decreases over,
{
    broadcast use {json::lemma_array_model, json::lemma_object_model};

    match (base, over) {
        (Json::Object(b), Json::Object(o)) => {
            let mut fields = Fields::new();
            let mut k: usize = 0;
            while k < b.len()
                invariant
                    k <= b@.len(),
                    fields@ =~= json::field_models(b@).take(k as int),
                decreases b@.len() - k,
            {
                fields.add(b[k].0.as_str(), b[k].1.clone());
                k += 1;
            }
            proof {
                assert(json::field_models(b@).take(b@.len() as int) =~= json::field_models(b@));
                assert(json::field_models(o@).take(0) =~= Seq::empty());
            }
            let mut i: usize = 0;
            while i < o.len()
                invariant
                    i <= o@.len(),
                    over is Object,
                    *o == over->Object_0,
                    fields@ == merged_fields(
                        json::field_models(b@),
                        json::field_models(o@).take(i as int),
                    ),
                decreases o@.len() - i,
            {
                let ghost om = json::field_models(o@);
                proof {
                    assert(decreases_to!(over => over->Object_0));
                    assert(decreases_to!(o => o@));
                    assert(decreases_to!(o@ => o@[i as int]));
                    assert(decreases_to!(o@[i as int] => o@[i as int].1));
                    assert(om.take(i + 1).drop_last() =~= om.take(i as int));
                    assert(om.take(i + 1).last() == (o@[i as int].0@, o@[i as int].1@));
                }
                let key: &str = o[i].0.as_str();
                let value = match fields.get(key) {
                    Some(existing) => deep_merge(existing, &o[i].1),
                    None => o[i].1.clone(),
                };
                fields.set(key, value);
                i += 1;
            }
            proof {
                assert(json::field_models(o@).take(o@.len() as int) =~= json::field_models(o@));
            }
            fields.object()
        },
        _ => over.clone(),
    }
}

/// What `key` names in `config`: a field, or with a dot a field of a section.
/// Parts after a second dot are not looked at.
pub open spec fn value_at(config: JsonV, key: Seq<char>) -> Option<JsonV> {
    let parts = text::pieces(key, text::is_char('.'));
    if parts.len() < 2 {
        config.field(key)
    } else {
        json::field_in(config.field(parts[0]), parts[1])
    }
}

/// What `key` names in `config`.
pub fn get_value(config: &Json, key: &str) -> (r: Option<Json>)
    ensures
        match r {
            Some(j) => value_at(config@, key@) == Some(j@),
            None => value_at(config@, key@) is None,
        },
{
    let parts = text::split_char(key, '.');
    let ghost views = text::pieces(key@, text::is_char('.'));
    if parts.len() < 2 {
        return match config.get(key) {
            Some(j) => Some(j.clone()),
            None => None,
        };
    }
    proof {
        assert(text::texts(parts@)[0] == parts@[0]@);
        assert(text::texts(parts@)[1] == parts@[1]@);
    }
    match config.get(parts[0].as_str()) {
        Some(section) => match section.get(parts[1].as_str()) {
            Some(j) => Some(j.clone()),
            None => None,
        },
        None => None,
    }
}


/// The configuration in use, and the defaults that it is laid upon.
#[derive(Debug)]
pub struct Config {
    pub inner: Json,
    pub defaults: Option<Json>,
}

/// What is to be written to storage after a load or an update, and what the
/// configuration becomes once that is done.
#[derive(Debug)]
pub struct ConfigPlan {
    pub value: Json,
    pub persist: bool,
}

/// The defaults, or an empty object where none are known.
pub open spec fn defaults_of(o: Option<Json>) -> JsonV {
    match o {
        Some(j) => j@,
        None => JsonV::Object(Seq::empty()),
    }
}

impl Config {
    /// A configuration without settings and without defaults.
    pub fn new() -> (r: Config)
        ensures
            r.inner@ == JsonV::Object(Seq::empty()),
            r.defaults is None,
    {
        Config { inner: json::empty_object(), defaults: None }
    }

    /// Takes `loaded` as the defaults where none are known yet. Where nothing
    /// could be loaded the defaults are an empty object from then on.
    pub fn ensure_defaults(&mut self, loaded: Option<Json>)
        ensures
            final(self).inner == old(self).inner,
            final(self).defaults is Some,
            old(self).defaults is Some ==> final(self).defaults == old(self).defaults,
            old(self).defaults is None ==> defaults_of(final(self).defaults) == defaults_of(loaded),
    {
        if self.defaults.is_some() {
            return;
        }
        let value = match loaded {
            Some(j) => j,
            None => json::empty_object(),
        };
        self.defaults = Some(value);
    }

    fn known_defaults(&self) -> (r: Json)
        ensures
            r@ == defaults_of(self.defaults),
    {
        match &self.defaults {
            Some(j) => j.clone(),
            None => json::empty_object(),
        }
    }

    /// What a load makes of what the storage holds (`remote`), or where it
    /// gave nothing, of what the local files hold (`local`): the stored
    /// settings on top of the defaults. They are written back where they did
    /// not come from the storage as they now stand.
    pub fn load(&self, remote: Option<Json>, local: Option<Json>) -> (r: ConfigPlan)
        ensures
            ({
                let data = if remote is Some {
                    remote->0@
                } else {
                    defaults_of(local)
                };
                &&& r.value@ == merged(defaults_of(self.defaults), data)
                &&& r.persist == (remote is None || !json::same_value(r.value@, data))
            }),
    {
        let from_remote = remote.is_some();
        let data = match remote {
            Some(j) => j,
            None => match local {
                Some(j) => j,
                None => json::empty_object(),
            },
        };
        let value = deep_merge(&self.known_defaults(), &data);
        let persist = !from_remote || !json::equal(&value, &data);
        ConfigPlan { value, persist }
    }

    /// What an update makes of the configuration: `new_config` on top of the
    /// settings in use, on top of the defaults. It is always written.
    pub fn update(&self, new_config: &Json) -> (r: ConfigPlan)
        ensures
            r.value@ == merged(merged(defaults_of(self.defaults), self.inner@), new_config@),
            r.persist,
    {
        let base = deep_merge(&self.known_defaults(), &self.inner);
        ConfigPlan { value: deep_merge(&base, new_config), persist: true }
    }

    /// Puts `value` to use.
    pub fn adopt(&mut self, value: Json)
        ensures
            final(self).inner == value,
            final(self).defaults == old(self).defaults,
    {
        self.inner = value;
    }

    /// What `key` names in the settings in use.
    pub fn get_value(&self, key: &str) -> (r: Option<Json>)
        ensures
            match r {
                Some(j) => value_at(self.inner@, key@) == Some(j@),
                None => value_at(self.inner@, key@) is None,
            },
    {
        get_value(&self.inner, key)
    }
}

/// Every field of a merge: what `o` sets is laid on top of what `b` has, what
/// `o` does not set stays as it is.
pub proof fn law_merge_fields(
    b: Seq<(Seq<char>, JsonV)>,
    o: Seq<(Seq<char>, JsonV)>,
    key: Seq<char>,
)
    requires
        json::distinct(o),
    ensures
        json::lookup(merged_fields(b, o), key) == (match json::lookup(o, key) {
            Some(v) => Some(
                match json::lookup(b, key) {
                    Some(existing) => merged(existing, v),
                    None => v,
                },
            ),
            None => json::lookup(b, key),
        }),
    decreases o.len(),
{
    json::lemma_position_from(o, key, 0);
    if o.len() > 0 {
        let before = o.drop_last();
        let last = o.last();
        assert(json::distinct(before)) by {
            assert forall|i: int, j: int| 0 <= i < j < before.len() implies (
            #[trigger] before[i]).0 != (#[trigger] before[j]).0 by {
                assert(before[i] == o[i] && before[j] == o[j]);
            }
        }
        law_merge_fields(b, before, key);
        law_merge_fields(b, before, last.0);
        json::lemma_position_from(before, key, 0);
        json::lemma_position_from(before, last.0, 0);
        let acc = merged_fields(b, before);
        let value = match json::lookup(acc, last.0) {
            Some(existing) => merged(existing, o[o.len() - 1].1),
            None => last.1,
        };
        json::lemma_put(acc, last.0, value, key);
        assert(json::position(before, last.0) is None) by {
            if json::position(before, last.0) is Some {
                let k = json::position(before, last.0)->0;
                assert(before[k] == o[k]);
                assert(o[k].0 != o[o.len() - 1].0);
            }
        }
        if key == last.0 {
            json::lemma_position_distinct(o, o.len() - 1);
        } else {
            match json::position(o, key) {
                Some(k) => {
                    assert(k < o.len() - 1);
                    assert(before[k] == o[k]);
                    assert(json::position(before, key) is Some);
                    let m = json::position(before, key)->0;
                    assert(before[m] == o[m]);
                    assert(m == k);
                },
                None => {
                    if json::position(before, key) is Some {
                        let m = json::position(before, key)->0;
                        assert(before[m] == o[m]);
                    }
                },
            }
        }
    }
}

/// Laying an empty object on top changes nothing.
pub proof fn law_merge_empty(b: Seq<(Seq<char>, JsonV)>)
    ensures
        merged(JsonV::Object(b), JsonV::Object(Seq::empty())) == JsonV::Object(b),
{
}

/// A value laid on top of an empty object is that value.
pub proof fn law_merge_onto_empty(over: JsonV)
    requires
        json::names_once(over),
    ensures
        merged(JsonV::Object(Seq::empty()), over) == over,
{
    if let JsonV::Object(o) = over {
        lemma_merge_onto_nothing(o);
    }
}

proof fn lemma_merge_onto_nothing(o: Seq<(Seq<char>, JsonV)>)
    requires
        json::distinct(o),
    ensures
        merged_fields(Seq::empty(), o) == o,
    decreases o.len(),
{
    if o.len() > 0 {
        let before = o.drop_last();
        assert(json::distinct(before)) by {
            assert forall|i: int, j: int| 0 <= i < j < before.len() implies (
            #[trigger] before[i]).0 != (#[trigger] before[j]).0 by {
                assert(before[i] == o[i] && before[j] == o[j]);
            }
        }
        lemma_merge_onto_nothing(before);
        json::lemma_position_from(before, o.last().0, 0);
        if json::position(before, o.last().0) is Some {
            let k = json::position(before, o.last().0)->0;
            assert(before[k] == o[k]);
            assert(o[k].0 != o[o.len() - 1].0);
        }
        assert(before.push(o.last()) =~= o);
    }
}

/// A value laid on top of itself is that value.
pub proof fn law_merge_self(v: JsonV)
    requires
        json::well_formed(v),
    ensures
        merged(v, v) == v,
    decreases v,
{
    if let JsonV::Object(fields) = v {
        lemma_merge_settled(fields, fields, fields.len());
        assert(fields.take(fields.len() as int) =~= fields);
    }
}

/// Laying one value on top twice is laying it on top once.
pub proof fn law_merge_twice(base: JsonV, over: JsonV)
    requires
        json::well_formed(over),
    ensures
        merged(merged(base, over), over) == merged(base, over),
    decreases over,
{
    match (base, over) {
        (JsonV::Object(b), JsonV::Object(o)) => {
            let m = merged_fields(b, o);
            assert forall|i: int| 0 <= i < o.len() implies match json::lookup(
                m,
                (#[trigger] o[i]).0,
            ) {
                Some(w) => merged(w, o[i].1) == w,
                None => false,
            } by {
                law_merge_fields(b, o, o[i].0);
                json::lemma_position_distinct(o, i);
                assert(decreases_to!(over => over->Object_0));
                assert(decreases_to!(o => o[i]));
                assert(decreases_to!(o[i] => o[i].1));
                law_merge_self(o[i].1);
                if let Some(e) = json::lookup(b, o[i].0) {
                    law_merge_twice(e, o[i].1);
                }
            }
            lemma_merge_absorbed(m, o, o.len());
            assert(o.take(o.len() as int) =~= o);
        },
        _ => {
            law_merge_self(over);
        },
    }
}

/// Fields that are already laid on top of themselves stay as they are.
proof fn lemma_merge_settled(
    all: Seq<(Seq<char>, JsonV)>,
    fields: Seq<(Seq<char>, JsonV)>,
    n: nat,
)
    requires
        n <= fields.len(),
        all == fields,
        json::distinct(fields),
        forall|i: int| 0 <= i < fields.len() ==> json::well_formed((#[trigger] fields[i]).1),
    ensures
        merged_fields(fields, fields.take(n as int)) == fields,
    decreases all, n,
{
    if n > 0 {
        let o = fields.take(n as int);
        lemma_merge_settled(all, fields, (n - 1) as nat);
        assert(o.drop_last() =~= fields.take(n - 1));
        assert(o.last() == fields[n - 1]);
        json::lemma_position_distinct(fields, n - 1);
        assert(decreases_to!(all => all[n - 1]));
        assert(decreases_to!(all[n - 1] => all[n - 1].1));
        law_merge_self(fields[n - 1].1);
        assert(fields.update(n - 1, fields[n - 1]) =~= fields);
    }
}

/// Fields that absorb each of `o` stay as they are when `o` is laid on top.
proof fn lemma_merge_absorbed(
    m: Seq<(Seq<char>, JsonV)>,
    o: Seq<(Seq<char>, JsonV)>,
    n: nat,
)
    requires
        n <= o.len(),
        forall|i: int| 0 <= i < o.len() ==> match json::lookup(m, (#[trigger] o[i]).0) {
            Some(w) => merged(w, o[i].1) == w,
            None => false,
        },
    ensures
        merged_fields(m, o.take(n as int)) == m,
    decreases n,
{
    if n > 0 {
        let p = o.take(n as int);
        lemma_merge_absorbed(m, o, (n - 1) as nat);
        assert(p.drop_last() =~= o.take(n - 1));
        assert(p.last() == o[n - 1]);
        json::lemma_position_from(m, o[n - 1].0, 0);
        let k = json::position(m, o[n - 1].0)->0;
        assert(m.update(k, m[k]) =~= m);
    }
}

/// A setting that is not an object reads back as it was written, whatever
/// lay beneath.
pub proof fn law_setting_reads_back(base: JsonV, new: JsonV, key: Seq<char>)
    requires
        json::well_formed(new),
        value_at(new, key) is Some,
        value_at(new, key)->0 !is Object,
    ensures
        value_at(merged(base, new), key) == value_at(new, key),
{
    let parts = text::pieces(key, text::is_char('.'));
    if let (JsonV::Object(b), JsonV::Object(o)) = (base, new) {
        if parts.len() < 2 {
            law_merge_fields(b, o, key);
        } else {
            law_merge_fields(b, o, parts[0]);
            let section = json::lookup(o, parts[0])->0;
            json::lemma_position_from(o, parts[0], 0);
            assert(json::well_formed(section));
            if let (Some(JsonV::Object(e)), JsonV::Object(ns)) = (
                json::lookup(b, parts[0]),
                section,
            ) {
                law_merge_fields(e, ns, parts[1]);
            }
        }
    }
}

/// A setting whose section an update does not mention keeps its value.
pub proof fn law_setting_kept(base: JsonV, new: JsonV, key: Seq<char>)
    requires
        json::well_formed(new),
        base is Object,
        new is Object,
        text::pieces(key, text::is_char('.')).len() < 2 ==> new.field(key) is None,
        text::pieces(key, text::is_char('.')).len() >= 2 ==> new.field(
            text::pieces(key, text::is_char('.'))[0],
        ) is None,
    ensures
        value_at(merged(base, new), key) == value_at(base, key),
{
    let parts = text::pieces(key, text::is_char('.'));
    if parts.len() < 2 {
        law_merge_fields(base->Object_0, new->Object_0, key);
    } else {
        law_merge_fields(base->Object_0, new->Object_0, parts[0]);
    }
}

} // verus!
