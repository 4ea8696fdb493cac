//! What is promised of access, settings and errors.
use vstd::prelude::*;

use crate::json;
use crate::json::JsonV;
use crate::server::auth;
use crate::server::batch_tasks;
use crate::server::batch_tasks::BatchTask;
use crate::server::config;
use crate::server::exceptions;
use crate::server::exceptions::ErrorType;
use crate::text;
use crate::text_laws;

verus! {

/// A header carries a key behind `Bearer `, without white space around it, and
/// no other header carries one.
pub proof fn law_bearers(key: Seq<char>, header: Seq<char>)
    ensures
        auth::bearer_of(Some("Bearer "@ + key)) == Some(text::trim_of(key)),
        (forall|r: Seq<char>| header != #[trigger] ("Bearer "@ + r)) ==> auth::bearer_of(
            Some(header),
        ) is None,
        auth::bearer_of(None) is None,
{
    text_laws::law_begins(header, "Bearer "@, key);
    if text::begins(header, "Bearer "@) {
        assert(header == "Bearer "@ + header.skip("Bearer "@.len() as int));
    }
}

/// A key in a query may stand behind `Bearer ` or by itself. Without a
/// configured key everyone passes; otherwise only that key does.
pub proof fn law_query_keys(key: Seq<char>, api_key: Seq<char>)
    requires
        forall|r: Seq<char>| key != #[trigger] ("Bearer "@ + r),
    ensures
        auth::query_passes(None, Seq::empty()),
        auth::query_passes(Some(key), Seq::empty()),
        api_key.len() > 0 ==> !auth::query_passes(None, api_key),
        api_key.len() > 0 ==> (auth::query_passes(Some(key), api_key) <==> text::trim_of(key)
            == api_key),
        api_key.len() > 0 ==> (auth::query_passes(Some("Bearer "@ + key), api_key)
            <==> text::trim_of(key) == api_key),
{
    text_laws::law_begins(key, "Bearer "@, key);
    if text::begins(key, "Bearer "@) {
        assert(key == "Bearer "@ + key.skip("Bearer "@.len() as int));
    }
}

/// Each error has its HTTP status, its type and its code, and tells its message.
pub proof fn law_errors(message: Seq<char>)
    ensures
        ({
            let e = exceptions::invalid_request_of(message);
            e.status == 400 && e.body.error_type == ErrorType::InvalidRequestError && e.body.code
                == Some("invalid_value"@) && e.body.message == message && e.body.param is None
        }),
        ({
            let e = exceptions::authentication_of(message);
            e.status == 401 && e.body.error_type == ErrorType::AuthenticationError && e.body.code
                == Some("invalid_api_key"@) && e.body.message == message
        }),
        ({
            let e = exceptions::not_found_of(message);
            e.status == 404 && e.body.error_type == ErrorType::NotFoundError && e.body.message
                == message
        }),
        ({
            let e = exceptions::rate_limit_of(message);
            e.status == 429 && e.body.error_type == ErrorType::RateLimitError && e.body.code
                == Some("rate_limit_exceeded"@) && e.body.message == message
        }),
        ({
            let e = exceptions::server_of(message);
            e.status == 500 && e.body.error_type == ErrorType::ServerError && e.body.message
                == message
        }),
        ({
            let e = exceptions::upstream_of(message);
            e.status == 502 && e.body.error_type == ErrorType::ServerError && e.body.code == Some(
                "upstream_error"@,
            ) && e.body.message == message
        }),
        ErrorType::InvalidRequestError.name_of() == "invalid_request_error"@,
        ErrorType::AuthenticationError.name_of() == "authentication_error"@,
        ErrorType::NotFoundError.name_of() == "not_found_error"@,
        ErrorType::RateLimitError.name_of() == "rate_limit_error"@,
        ErrorType::ServerError.name_of() == "server_error"@,
{
}

/// A setting is named by itself, or by its section and its name with a dot in
/// between; what follows a second dot is not looked at.
pub proof fn law_settings_are_named(
    c: JsonV,
    section: Seq<char>,
    name: Seq<char>,
    more: Seq<char>,
)
    requires
        !section.contains('.'),
        !name.contains('.'),
    ensures
        config::value_at(c, name) == c.field(name),
        config::value_at(c, section.push('.') + name) == json::field_in(c.field(section), name),
        config::value_at(c, section.push('.') + (name.push('.') + more)) == json::field_in(
            c.field(section),
            name,
        ),
{
    let sep = text::is_char('.');
    text_laws::law_pieces(section, '.', name, sep);
    text_laws::law_pieces(name, '.', more, sep);
    text_laws::law_pieces(section, '.', name.push('.') + more, sep);
    assert forall|i: int| 0 <= i < section.len() implies !sep(#[trigger] section[i]) by {
        assert(section.contains(section[i]));
    }
    assert forall|i: int| 0 <= i < name.len() implies !sep(#[trigger] name[i]) by {
        assert(name.contains(name[i]));
    }
    text::lemma_pieces_len(more, sep);
    assert(text::pieces(section, sep) == seq![section]);
    assert(text::pieces(name, sep) == seq![name]);
    assert(text::pieces(section.push('.') + name, sep) =~= seq![section, name]);
    let all = text::pieces(section.push('.') + (name.push('.') + more), sep);
    assert(all[0] == section && all[1] == name);
}

/// What is laid on top wins, unless both are objects.
pub proof fn law_what_is_on_top_wins(base: JsonV, over: JsonV)
    ensures
        !(base is Object && over is Object) ==> config::merged(base, over) == over,
        base is Object && over is Object ==> config::merged(base, over) is Object,
{
}

/// A field of an object is found by its name: the first that has it.
pub proof fn law_fields_are_found(fields: Seq<(Seq<char>, JsonV)>, key: Seq<char>, i: int)
    ensures
        0 <= i < fields.len() && json::distinct(fields) ==> JsonV::Object(fields).field(fields[i].0)
            == Some(fields[i].1),
        JsonV::Object(fields).field(key) is None ==> (0 <= i < fields.len() ==> fields[i].0 != key),
        JsonV::Object(fields).field(key) matches Some(v) ==> fields.contains((key, v)),
{
    json::lemma_position_from(fields, key, 0);
    if 0 <= i < fields.len() && json::distinct(fields) {
        json::lemma_position_distinct(fields, i);
    }
    if let Some(v) = JsonV::Object(fields).field(key) {
        let k = json::position(fields, key)->0;
        assert(fields[k] == (key, v));
    }
}

/// What is put into an object reads back, and all else stays.
pub proof fn law_fields_read_back(
    fields: Seq<(Seq<char>, JsonV)>,
    key: Seq<char>,
    value: JsonV,
    other: Seq<char>,
)
    ensures
        json::lookup(json::put(fields, key, value), key) == Some(value),
        other != key ==> json::lookup(json::put(fields, key, value), other) == json::lookup(
            fields,
            other,
        ),
{
    json::lemma_put(fields, key, value, key);
    json::lemma_put(fields, key, value, other);
}

/// A number that was written as an integer reads back, and other values have none.
pub proof fn law_integers(i: i64, v: JsonV)
    ensures
        JsonV::Number(json::Number::of_int(i)).integer() == Some(i),
        i >= 0 <==> json::Number::of_int(i) is Unsigned,
        i < 0 <==> json::Number::of_int(i) is Negative,
        v !is Number ==> v.integer() is None,
        v.text() matches Some(s) ==> v == JsonV::Str(s),
        JsonV::Str(Seq::empty()).text() == Some(Seq::<char>::empty()),
{
}

/// The texts in a list are taken, in order, and nothing else.
pub proof fn law_texts_in_lists(items: Seq<JsonV>, v: JsonV)
    ensures
        json::texts_among(Seq::empty()).len() == 0,
        v matches JsonV::Str(s) ==> json::texts_among(items.push(v)) == json::texts_among(
            items,
        ).push(s),
        v !is Str ==> json::texts_among(items.push(v)) == json::texts_among(items),
{
    assert(items.push(v).drop_last() =~= items);
}

/// Values are alike where they say the same: numbers of one kind, texts,
/// lists item by item and objects name by name.
pub proof fn law_same_values(
    a: Seq<char>,
    b: Seq<char>,
    x: Seq<JsonV>,
    y: Seq<JsonV>,
    m: u64,
    n: u64,
)
    ensures
        json::same_value(JsonV::Str(a), JsonV::Str(b)) <==> a == b,
        json::same_value(JsonV::Array(x), JsonV::Array(y)) ==> x.len() == y.len(),
        json::same_value(
            JsonV::Number(json::Number::Unsigned(m)),
            JsonV::Number(json::Number::Unsigned(n)),
        ) <==> m == n,
        json::same_value(
            JsonV::Number(json::Number::Double(m)),
            JsonV::Number(json::Number::Double(n)),
        ) <==> m == n || ((m == 0 || m == 0x8000_0000_0000_0000) && (n == 0 || n
            == 0x8000_0000_0000_0000)),
        !json::same_value(JsonV::Null, JsonV::Str(a)),
        !json::same_value(JsonV::Bool(true), JsonV::Bool(false)),
        json::same_value(JsonV::Null, JsonV::Null),
{
}

/// A task that ends tells how: done with its result, or cancelled without one.
/// The counts stay what they were.
pub proof fn law_how_tasks_end(
    before: BatchTask,
    after: BatchTask,
    event: JsonV,
    result: JsonV,
    warning: Option<Seq<char>>,
)
    ensures
        batch_tasks::ends_done(before, after, event, result, warning) ==> {
            &&& after.status@ == "done"@
            &&& after.result matches Some(r) && r@ == result
            &&& event->Object_0[0] == ("type"@, JsonV::Str("done"@))
            &&& event->Object_0.last() == ("result"@, result)
            &&& after.processed == before.processed && after.ok == before.ok && after.fail
                == before.fail && after.total == before.total
        },
        batch_tasks::ends_cancelled(before, after, event) ==> {
            &&& after.status@ == "cancelled"@
            &&& after.result == before.result
            &&& event->Object_0[0] == ("type"@, JsonV::Str("cancelled"@))
            &&& after.processed == before.processed && after.ok == before.ok && after.fail
                == before.fail && after.total == before.total
        },
{
}

/// A task begins with nothing done.
pub proof fn law_how_tasks_begin(t: BatchTask, id: Seq<char>, total: usize, now: i64)
    requires
        batch_tasks::begun(t, id, total, now),
    ensures
        t.id@ == id && t.total == total && t.created_at == now,
        t.processed == 0 && t.ok == 0 && t.fail == 0 && !t.cancelled,
        t.status@ == "running"@ && t.result is None && t.error is None,
{
}

/// A refused client is told whether its key is wrong or missing.
pub proof fn law_refused_clients(key: Seq<char>)
    ensures
        auth::refusal(None) == "Missing authentication token"@,
        auth::refusal(Some("Bearer "@ + key)) == "Invalid authentication token"@,
{
    law_bearers(key, key);
}

} // verus!
