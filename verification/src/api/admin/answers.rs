//! What an administrator is answered.
use vstd::prelude::*;
use vstd::string::*;
use vstd::utf8::*;

use crate::api::admin::accounts;
use crate::grok::nsfw;
use crate::grok::nsfw::NsfwResult;
use crate::json;
use crate::json::{Fields, Json, JsonV, Number};
use crate::outside;
use crate::server::batch_tasks;
use crate::text;
use crate::token::manager;

verus! {

/// A success, with one more field.
pub open spec fn success_with(key: Seq<char>, value: JsonV) -> JsonV {
    JsonV::Object(seq![("status"@, JsonV::Str("success"@)), (key, value)])
}

/// A success, with one more field.
pub fn success(key: &str, value: Json) -> (r: Json)
    ensures
        r@ == success_with(key@, value@),
{
    let mut f = Fields::new();
    f.add("status", json::text_value("success"));
    f.add(key, value);
    proof {
        assert(f@ =~= success_with(key@, value@)->Object_0);
    }
    f.object()
}

/// A success, and nothing more to say.
pub fn plain_success() -> (r: Json)
    ensures
        r@ == JsonV::Object(seq![("status"@, JsonV::Str("success"@))]),
{
    let mut f = Fields::new();
    f.add("status", json::text_value("success"));
    proof {
        assert(f@ =~= seq![("status"@, JsonV::Str("success"@))]);
    }
    f.object()
}

/// The answer to a login: the key with which the other endpoints are called.
pub fn login_answer(api_key: &str) -> (r: Json)
    ensures
        r@ == success_with("api_key"@, JsonV::Str(api_key@)),
{
    success("api_key", json::text_value(api_key))
}

/// The answer once the configuration was updated.
pub fn config_updated() -> (r: Json)
    ensures
        r@ == success_with("message"@, JsonV::Str("配置已更新"@)),
{
    success("message", json::text_value("配置已更新"))
}

/// The answer once the tokens were updated.
pub fn tokens_updated() -> (r: Json)
    ensures
        r@ == success_with("message"@, JsonV::Str("Token 已更新"@)),
{
    success("message", json::text_value("Token 已更新"))
}

/// The kind of storage that is in use.
pub fn storage_answer(storage_type: &str) -> (r: Json)
    ensures
        r@ == JsonV::Object(
            seq![("type"@, JsonV::Str(outside::lowercase_of(storage_type@)))],
        ),
        is_ascii_chars(storage_type@) ==> r@ == JsonV::Object(
            seq![("type"@, JsonV::Str(text::ascii_lower_of(storage_type@)))],
        ),
{
    let lower = outside::to_lowercase(storage_type);
    let mut f = Fields::new();
    f.add("type", json::text_value(lower.as_str()));
    proof {
        assert(f@ =~= seq![("type"@, JsonV::Str(outside::lowercase_of(storage_type@)))]);
    }
    f.object()
}

/// The answer once work over `total` items has begun.
pub open spec fn started_json(task_id: Seq<char>, total: usize) -> JsonV {
    JsonV::Object(
        seq![
            ("status"@, JsonV::Str("success"@)),
            ("task_id"@, JsonV::Str(task_id)),
            ("total"@, batch_tasks::count_model(total)),
        ],
    )
}

/// The answer once work over `total` items has begun.
pub fn task_started(task_id: &str, total: usize) -> (r: Json)
    ensures
        r@ == started_json(task_id@, total),
{
    let mut f = Fields::new();
    f.add("status", json::text_value("success"));
    f.add("task_id", json::text_value(task_id));
    f.add("total", json::count_value(total));
    proof {
        assert(f@ =~= started_json(task_id@, total)->Object_0);
    }
    f.object()
}

/// What became of one item of a piece of work.
#[derive(Debug)]
pub struct Entry {
    pub key: String,
    pub ok: bool,
    /// What is answered under the key, where something is.
    pub value: Option<Json>,
}

/// The mathematical value of an [`Entry`].
pub struct EntryV {
    pub key: Seq<char>,
    pub ok: bool,
    pub value: Option<JsonV>,
}

impl View for Entry {
    type V = EntryV;

    open spec fn view(&self) -> EntryV {
        EntryV {
            key: self.key@,
            ok: self.ok,
            value: match self.value {
                Some(j) => Some(j@),
                None => None,
            },
        }
    }
}

/// The values of a list of entries.
pub open spec fn entry_views(v: Seq<Entry>) -> Seq<EntryV> {
    v.map_values(|e: Entry| e@)
}

/// The results of the entries by their keys; a later entry wins.
pub open spec fn results_of(entries: Seq<EntryV>) -> Seq<(Seq<char>, JsonV)>
    decreases entries.len(),
{
    if entries.len() == 0 {
        Seq::empty()
    } else {
        let before = results_of(entries.drop_last());
        match entries.last().value {
            Some(v) => json::put(before, entries.last().key, v),
            None => before,
        }
    }
}

/// How many entries went well, or did not.
pub open spec fn count_ok(entries: Seq<EntryV>, ok: bool) -> nat
    decreases entries.len(),
{
    if entries.len() == 0 {
        0
    } else {
        count_ok(entries.drop_last(), ok) + if entries.last().ok == ok {
            1nat
        } else {
            0
        }
    }
}

/// `fields`, and a warning where there is one.
pub open spec fn with_warning(
    fields: Seq<(Seq<char>, JsonV)>,
    warning: Option<Seq<char>>,
) -> Seq<(Seq<char>, JsonV)> {
    match warning {
        Some(w) => fields.push(("warning"@, JsonV::Str(w))),
        None => fields,
    }
}

/// Adds a warning where there is one.
pub fn add_warning(f: &mut Fields, warning: &Option<String>)
    ensures
        final(f)@ == with_warning(old(f)@, text::text_opt(*warning)),
{
    if let Some(w) = warning {
        f.add("warning", json::text_value(w.as_str()));
    }
}

/// The results of the entries.
pub open spec fn results_json(entries: Seq<EntryV>, warning: Option<Seq<char>>) -> JsonV {
    JsonV::Object(
        with_warning(
            seq![
                ("status"@, JsonV::Str("success"@)),
                ("results"@, JsonV::Object(results_of(entries))),
            ],
            warning,
        ),
    )
}

/// The results of the entries, with a summary over `total` items.
pub open spec fn summary_json(
    total: usize,
    entries: Seq<EntryV>,
    warning: Option<Seq<char>>,
) -> JsonV {
    JsonV::Object(
        with_warning(
            seq![
                ("status"@, JsonV::Str("success"@)),
                (
                    "summary"@,
                    JsonV::Object(
                        seq![
                            ("total"@, batch_tasks::count_model(total)),
                            (
                                "ok"@,
                                JsonV::Number(Number::Unsigned(count_ok(entries, true) as u64)),
                            ),
                            (
                                "fail"@,
                                JsonV::Number(Number::Unsigned(count_ok(entries, false) as u64)),
                            ),
                        ],
                    ),
                ),
                ("results"@, JsonV::Object(results_of(entries))),
            ],
            warning,
        ),
    )
}

fn collect_results(entries: &Vec<Entry>) -> (r: Json)
    ensures
        r@ == JsonV::Object(results_of(entry_views(entries@))),
{
    let ghost all = entry_views(entries@);
    let mut f = Fields::new();
    let n: usize = entries.len();
    let mut i: usize = 0;
    proof {
        assert(all.take(0) =~= Seq::empty());
    }
    while i < n
        invariant
            n == entries@.len(),
            i <= n,
            all == entry_views(entries@),
            f@ == results_of(all.take(i as int)),
        decreases n - i,
    {
        proof {
            assert(all.take(i + 1).drop_last() =~= all.take(i as int));
            assert(all.take(i + 1).last() == entries@[i as int]@);
        }
        if let Some(v) = &entries[i].value {
            f.set(entries[i].key.as_str(), v.clone());
        }
        i += 1;
    }
    proof {
        assert(all.take(i as int) =~= all);
    }
    f.object()
}

/// How many entries went well, or did not.
pub fn count_entries(entries: &Vec<Entry>, ok: bool) -> (r: usize)
    ensures
        r == count_ok(entry_views(entries@), ok),
        r <= entries@.len(),
{
    let ghost all = entry_views(entries@);
    let mut count: usize = 0;
    let n: usize = entries.len();
    let mut i: usize = 0;
    proof {
        assert(all.take(0) =~= Seq::empty());
    }
    while i < n
        invariant
            n == entries@.len(),
            i <= n,
            count <= i,
            all == entry_views(entries@),
            count == count_ok(all.take(i as int), ok),
        decreases n - i,
    {
        proof {
            assert(all.take(i + 1).drop_last() =~= all.take(i as int));
            assert(all.take(i + 1).last() == entries@[i as int]@);
        }
        if entries[i].ok == ok {
            count += 1;
        }
        i += 1;
    }
    proof {
        assert(all.take(i as int) =~= all);
    }
    count
}

/// The results of the entries.
pub fn results_answer(entries: &Vec<Entry>, warning: &Option<String>) -> (r: Json)
    ensures
        r@ == results_json(entry_views(entries@), text::text_opt(*warning)),
{
    let mut f = Fields::new();
    f.add("status", json::text_value("success"));
    f.add("results", collect_results(entries));
    proof {
        assert(f@ =~= results_json(entry_views(entries@), None)->Object_0);
    }
    add_warning(&mut f, warning);
    f.object()
}

/// The results of the entries, with a summary over `total` items.
pub fn summary_answer(total: usize, entries: &Vec<Entry>, warning: &Option<String>) -> (r: Json)
    ensures
        r@ == summary_json(total, entry_views(entries@), text::text_opt(*warning)),
{
    let ghost want = summary_json(total, entry_views(entries@), None)->Object_0;
    let mut s = Fields::new();
    s.add("total", json::count_value(total));
    s.add("ok", json::count_value(count_entries(entries, true)));
    s.add("fail", json::count_value(count_entries(entries, false)));
    proof {
        assert(s@ =~= want[1].1->Object_0);
    }
    let mut f = Fields::new();
    f.add("status", json::text_value("success"));
    f.add("summary", s.object());
    f.add("results", collect_results(entries));
    proof {
        assert(f@ =~= want);
    }
    add_warning(&mut f, warning);
    f.object()
}

/// Every entry went well or did not.
pub proof fn law_summary_adds_up(entries: Seq<EntryV>)
    ensures
        count_ok(entries, true) + count_ok(entries, false) == entries.len(),
    decreases entries.len(),
{
    if entries.len() > 0 {
        law_summary_adds_up(entries.drop_last());
    }
}

/// Where no two entries have one key, each result is answered under its own key.
pub proof fn law_results_are_kept(entries: Seq<EntryV>, k: int)
    requires
        forall|i: int, j: int|
            0 <= i < j < entries.len() ==> (#[trigger] entries[i]).key != (
            #[trigger] entries[j]).key,
        0 <= k < entries.len(),
    ensures
        json::lookup(results_of(entries), entries[k].key) == entries[k].value,
    decreases entries.len(),
{
    let before = entries.drop_last();
    assert forall|i: int, j: int| 0 <= i < j < before.len() implies (#[trigger] before[i]).key != (
    #[trigger] before[j]).key by {
        assert(entries[i].key != entries[j].key);
    }
    if k < before.len() {
        law_results_are_kept(before, k);
        assert(before[k] == entries[k]);
        assert(entries[k].key != entries[entries.len() - 1].key);
    } else {
        lemma_no_result(before, entries[k].key);
    }
    if let Some(v) = entries.last().value {
        json::lemma_put(results_of(before), entries.last().key, v, entries[k].key);
    }
}

proof fn lemma_no_result(entries: Seq<EntryV>, key: Seq<char>)
    requires
        forall|i: int| 0 <= i < entries.len() ==> (#[trigger] entries[i]).key != key,
    ensures
        json::lookup(results_of(entries), key) is None,
    decreases entries.len(),
{
    if entries.len() > 0 {
        let before = entries.drop_last();
        assert forall|i: int| 0 <= i < before.len() implies (#[trigger] before[i]).key != key by {
            assert(before[i] == entries[i]);
        }
        lemma_no_result(before, key);
        if let Some(v) = entries.last().value {
            assert(entries[entries.len() - 1].key != key);
            json::lemma_put(results_of(before), entries.last().key, v, key);
        }
    }
}

/// What became of asking for the quota of a token.
pub fn refresh_entry(token: &str, ok: bool) -> (r: Entry)
    ensures
        r@ == (EntryV { key: token@, ok, value: Some(JsonV::Bool(ok)) }),
{
    Entry { key: String::from_str(token), ok, value: Some(Json::Bool(ok)) }
}

/// What became of allowing adult content for a token.
pub open spec fn nsfw_json(r: nsfw::ResultV) -> JsonV {
    JsonV::Object(
        seq![
            ("success"@, JsonV::Bool(r.success)),
            ("http_status"@, JsonV::Number(Number::Unsigned(r.http_status as u64))),
            (
                "grpc_status"@,
                match r.grpc_status {
                    Some(c) => manager::int_model(c as i64),
                    None => JsonV::Null,
                },
            ),
            ("grpc_message"@, json::opt_text_model(r.grpc_message)),
            ("error"@, json::opt_text_model(r.error)),
        ],
    )
}

/// Tokens longer than this many bytes are masked in results.
pub const RESULT_LIMIT: usize = 20;

/// This many bytes at the end of a token are shown in results.
pub const RESULT_TAIL: usize = 8;

/// What became of allowing adult content for a token.
pub fn nsfw_entry(token: &str, result: &NsfwResult) -> (r: Entry)
    requires
        accounts::maskable(token@, RESULT_LIMIT as int, RESULT_TAIL as int),
    ensures
        r@ == (EntryV {
            key: accounts::masked(token@, RESULT_LIMIT as int, RESULT_TAIL as int),
            ok: result@.success,
            value: Some(nsfw_json(result@)),
        }),
{
    let code = match result.grpc_status {
        Some(c) => json::int_value(c as i64),
        None => Json::Null,
    };
    let mut f = Fields::new();
    f.add("success", Json::Bool(result.success));
    f.add("http_status", json::count_value(result.http_status as usize));
    f.add("grpc_status", code);
    f.add("grpc_message", json::opt_text_value(&result.grpc_message));
    f.add("error", json::opt_text_value(&result.error));
    proof {
        assert(f@ =~= nsfw_json(result@)->Object_0);
    }
    Entry {
        key: accounts::mask(token, RESULT_LIMIT, RESULT_TAIL),
        ok: result.success,
        value: Some(f.object()),
    }
}

/// What became of a token whose worker failed.
pub fn lost_entry(token: &str, error: &str) -> (r: Entry)
    requires
        accounts::maskable(token@, RESULT_LIMIT as int, RESULT_TAIL as int),
    ensures
        r@ == (EntryV {
            key: accounts::masked(token@, RESULT_LIMIT as int, RESULT_TAIL as int),
            ok: false,
            value: Some(JsonV::Object(seq![("error"@, JsonV::Str(error@))])),
        }),
{
    let mut f = Fields::new();
    f.add("error", json::text_value(error));
    proof {
        assert(f@ =~= seq![("error"@, JsonV::Str(error@))]);
    }
    Entry {
        key: accounts::mask(token, RESULT_LIMIT, RESULT_TAIL),
        ok: false,
        value: Some(f.object()),
    }
}

/// What became of deleting the assets of a token.
pub fn clear_entry(token: &str, result: Result<Json, String>) -> (r: Entry)
    ensures
        r@.key == token@,
        r@.ok == (result is Ok),
        r@.value == Some(
            match result {
                Ok(j) => success_with("result"@, j@),
                Err(e) => JsonV::Object(
                    seq![("status"@, JsonV::Str("error"@)), ("error"@, JsonV::Str(e@))],
                ),
            },
        ),
{
    match result {
        Ok(j) => Entry {
            key: String::from_str(token),
            ok: true,
            value: Some(success("result", j)),
        },
        Err(e) => {
            let mut f = Fields::new();
            f.add("status", json::text_value("error"));
            f.add("error", json::text_value(e.as_str()));
            proof {
                assert(f@ =~= seq![("status"@, JsonV::Str("error"@)), ("error"@, JsonV::Str(e@))]);
            }
            Entry { key: String::from_str(token), ok: false, value: Some(f.object()) }
        },
    }
}

/// Whether a stream of events ends with this one.
pub fn ends_stream(event: &Json) -> (r: bool)
    ensures
        r == ({
            let kind = json::text_in(event@.field("type"@));
            kind == Some("done"@) || kind == Some("error"@) || kind == Some("cancelled"@)
        }),
{
    match event.get_str("type") {
        Some(s) => text::same_text(s.as_str(), "done") || text::same_text(s.as_str(), "error")
            || text::same_text(s.as_str(), "cancelled"),
        None => false,
    }
}

} // verus!
