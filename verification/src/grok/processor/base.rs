//! What the readers of event streams share.
use vstd::prelude::*;
use vstd::string::*;

use crate::json;
use crate::json::{Fields, Json, JsonV, Number};
use crate::outside;
use crate::text;

verus! {

/// The JSON text that a line of an event stream carries, where it carries one.
pub open spec fn payload_of(line: Seq<char>) -> Option<Seq<char>> {
    let whole = text::trim_of(line);
    let rest = match text::after_prefix(whole, "data:"@) {
        Some(r) => text::trim_of(r),
        None => whole,
    };
    if whole.len() == 0 || rest.len() == 0 || rest == "[DONE]"@ {
        None
    } else {
        Some(rest)
    }
}

/// The JSON text that a line of an event stream carries, where it carries one.
pub fn normalize_json_line(line: &str) -> (r: Option<String>)
    ensures
        text::text_opt(r) == payload_of(line@),
{
    let whole = text::trim(line);
    if text::is_empty(whole.as_str()) {
        return None;
    }
    let rest = match text::strip_prefix(whole.as_str(), "data:") {
        Some(r) => text::trim(r.as_str()),
        None => whole,
    };
    if text::is_empty(rest.as_str()) || text::same_text(rest.as_str(), "[DONE]") {
        return None;
    }
    Some(rest)
}

/// What an event says of the response.
pub open spec fn response_of(data: JsonV) -> Option<JsonV> {
    json::field_in(data.field("result"@), "response"@)
}

/// What an event says of the response.
pub fn response(data: &Json) -> (r: Option<&Json>)
    ensures
        json::opt_model(r) == response_of(data@),
{
    json::get_in(data.get("result"), "response")
}

/// The fields that hold image URLs.
pub open spec fn is_url_key(key: Seq<char>) -> bool {
    key == "generatedImageUrls"@ || key == "imageUrls"@ || key == "imageURLs"@
}

/// `out`, and the texts among `items` that are not empty and not there yet.
pub open spec fn with_urls(out: Seq<Seq<char>>, items: Seq<JsonV>) -> Seq<Seq<char>>
    decreases items.len(),
{
    if items.len() == 0 {
        out
    } else {
        let acc = with_urls(out, items.drop_last());
        match items.last().text() {
            Some(url) => text::with_new(acc, url),
            None => acc,
        }
    }
}

/// `out`, and the URLs that one field adds.
pub open spec fn with_field_urls(out: Seq<Seq<char>>, value: JsonV) -> Seq<Seq<char>> {
    match value {
        JsonV::Array(items) => with_urls(out, items),
        JsonV::Str(url) => text::with_new(out, url),
        _ => out,
    }
}

/// `out`, and the image URLs anywhere in `v`, each once, in the order in
/// which they are met.
pub open spec fn gathered(v: JsonV, out: Seq<Seq<char>>) -> Seq<Seq<char>>
    decreases v, 0int,
{
    match v {
        JsonV::Object(fields) => gathered_fields(fields, out),
        JsonV::Array(items) => gathered_items(items, out),
        _ => out,
    }
}

/// `out`, and the image URLs anywhere in the fields.
pub open spec fn gathered_fields(f: Seq<(Seq<char>, JsonV)>, out: Seq<Seq<char>>) -> Seq<Seq<char>>
    decreases f, 1int,
{
    if f.len() == 0 {
        out
    } else {
        let acc = gathered_fields(f.drop_last(), out);
        if is_url_key(f[f.len() - 1].0) {
            with_field_urls(acc, f[f.len() - 1].1)
        } else {
            gathered(f[f.len() - 1].1, acc)
        }
    }
}

/// `out`, and the image URLs anywhere in the items.
pub open spec fn gathered_items(v: Seq<JsonV>, out: Seq<Seq<char>>) -> Seq<Seq<char>>
    decreases v, 1int,
{
    if v.len() == 0 {
        out
    } else {
        gathered(v[v.len() - 1], gathered_items(v.drop_last(), out))
    }
}

fn add_urls(out: &mut Vec<String>, items: &Vec<Json>)
    ensures
        text::texts(final(out)@) == with_urls(text::texts(old(out)@), json::models(items@)),
{
    let ghost all = json::models(items@);
    let ghost start = text::texts(out@);
    let n: usize = items.len();
    let mut i: usize = 0;
    proof {
        assert(all.take(0) =~= Seq::empty());
    }
    while i < n
        invariant
            n == items@.len(),
            i <= n,
            all == json::models(items@),
            text::texts(out@) == with_urls(start, all.take(i as int)),
        decreases n - i,
    {
        proof {
            assert(all.take(i + 1).drop_last() =~= all.take(i as int));
            assert(all.take(i + 1).last() == items@[i as int]@);
        }
        if let Some(url) = items[i].as_str() {
            text::add_new(out, url.as_str());
        }
        i += 1;
    }
    proof {
        assert(all.take(i as int) =~= all);
    }
}

fn add_field_urls(out: &mut Vec<String>, value: &Json)
    ensures
        text::texts(final(out)@) == with_field_urls(text::texts(old(out)@), value@),
{
    broadcast use json::lemma_array_model;

    match value {
        Json::Array(items) => {
            add_urls(out, items);
        },
        Json::Str(url) => {
            text::add_new(out, url.as_str());
        },
        _ => {},
    }
}

fn walk(value: &Json, out: &mut Vec<String>)
    ensures
        text::texts(final(out)@) == gathered(value@, text::texts(old(out)@)),
    decreases value,
{
    broadcast use {json::lemma_array_model, json::lemma_object_model};

    let ghost start = text::texts(out@);
    match value {
        Json::Object(fields) => {
            let ghost all = json::field_models(fields@);
            let n: usize = fields.len();
            let mut i: usize = 0;
            proof {
                assert(all.take(0) =~= Seq::empty());
            }
            while i < n
                invariant
                    n == fields@.len(),
                    i <= n,
                    value is Object,
                    *fields == value->Object_0,
                    all == json::field_models(fields@),
                    text::texts(out@) == gathered_fields(all.take(i as int), start),
                decreases n - i,
            {
                proof {
                    assert(decreases_to!(value => value->Object_0));
                    assert(decreases_to!(fields => fields@));
                    assert(decreases_to!(fields@ => fields@[i as int]));
                    assert(decreases_to!(fields@[i as int] => fields@[i as int].1));
                    assert(all.take(i + 1).drop_last() =~= all.take(i as int));
                    assert(all.take(i + 1)[i as int] == (
                        fields@[i as int].0@,
                        fields@[i as int].1@,
                    ));
                }
                let key: &str = fields[i].0.as_str();
                if text::same_text(key, "generatedImageUrls") || text::same_text(key, "imageUrls")
                    || text::same_text(key, "imageURLs") {
                    add_field_urls(out, &fields[i].1);
                } else {
                    walk(&fields[i].1, out);
                }
                i += 1;
            }
            proof {
                assert(all.take(i as int) =~= all);
            }
        },
        Json::Array(items) => {
            let ghost all = json::models(items@);
            let n: usize = items.len();
            let mut i: usize = 0;
            proof {
                assert(all.take(0) =~= Seq::empty());
            }
            while i < n
                invariant
                    n == items@.len(),
                    i <= n,
                    value is Array,
                    *items == value->Array_0,
                    all == json::models(items@),
                    text::texts(out@) == gathered_items(all.take(i as int), start),
                decreases n - i,
            {
                proof {
                    assert(decreases_to!(value => value->Array_0));
                    assert(decreases_to!(items => items@));
                    assert(decreases_to!(items@ => items@[i as int]));
                    assert(all.take(i + 1).drop_last() =~= all.take(i as int));
                    assert(all.take(i + 1)[i as int] == items@[i as int]@);
                }
                walk(&items[i], out);
                i += 1;
            }
            proof {
                assert(all.take(i as int) =~= all);
            }
        },
        _ => {},
    }
}

/// The image URLs anywhere in `value`, each once, in the order in which they are met.
pub fn collect_image_urls(value: &Json) -> (r: Vec<String>)
    ensures
        text::texts(r@) == gathered(value@, Seq::empty()),
{
    let mut out: Vec<String> = Vec::new();
    proof {
        assert(text::texts(out@) =~= Seq::empty());
    }
    walk(value, &mut out);
    out
}

/// No text stands in the list twice, and none is empty.
pub open spec fn distinct_urls(v: Seq<Seq<char>>) -> bool {
    v.no_duplicates() && forall|i: int| 0 <= i < v.len() ==> (#[trigger] v[i]).len() > 0
}

proof fn lemma_with_url(out: Seq<Seq<char>>, url: Seq<char>)
    requires
        distinct_urls(out),
    ensures
        distinct_urls(text::with_new(out, url)),
        out.is_prefix_of(text::with_new(out, url)),
{
}

proof fn lemma_with_urls(out: Seq<Seq<char>>, items: Seq<JsonV>)
    requires
        distinct_urls(out),
    ensures
        distinct_urls(with_urls(out, items)),
    decreases items.len(),
{
    if items.len() > 0 {
        lemma_with_urls(out, items.drop_last());
        if let Some(url) = items.last().text() {
            lemma_with_url(with_urls(out, items.drop_last()), url);
        }
    }
}

/// No image URL is gathered twice, and none is empty.
pub proof fn law_urls_are_distinct(v: JsonV, out: Seq<Seq<char>>)
    requires
        distinct_urls(out),
    ensures
        distinct_urls(gathered(v, out)),
    decreases v, 0int,
{
    match v {
        JsonV::Object(fields) => {
            lemma_fields_distinct(fields, out);
        },
        JsonV::Array(items) => {
            lemma_items_distinct(items, out);
        },
        _ => {},
    }
}

proof fn lemma_fields_distinct(f: Seq<(Seq<char>, JsonV)>, out: Seq<Seq<char>>)
    requires
        distinct_urls(out),
    ensures
        distinct_urls(gathered_fields(f, out)),
    decreases f, 1int,
{
    if f.len() > 0 {
        lemma_fields_distinct(f.drop_last(), out);
        let acc = gathered_fields(f.drop_last(), out);
        match f[f.len() - 1].1 {
            JsonV::Array(items) => {
                lemma_with_urls(acc, items);
            },
            JsonV::Str(url) => {
                lemma_with_url(acc, url);
            },
            _ => {},
        }
        law_urls_are_distinct(f[f.len() - 1].1, acc);
    }
}

proof fn lemma_items_distinct(v: Seq<JsonV>, out: Seq<Seq<char>>)
    requires
        distinct_urls(out),
    ensures
        distinct_urls(gathered_items(v, out)),
    decreases v, 1int,
{
    if v.len() > 0 {
        lemma_items_distinct(v.drop_last(), out);
        law_urls_are_distinct(v[v.len() - 1], gathered_items(v.drop_last(), out));
    }
}

/// What a reader of an event stream knows from the start.
#[derive(Debug)]
pub struct BaseProcessor {
    pub model: String,
    pub token: String,
    /// Seconds since the Unix epoch.
    pub created: i64,
    pub app_url: String,
}

/// The path of an asset: that of its URL, with a slash in front.
pub open spec fn asset_path_of(path: Seq<char>) -> Seq<char> {
    let p = if text::begins(path, "http"@) && outside::parsed_path(path) is Some {
        outside::parsed_path(path)->0
    } else {
        path
    };
    slashed(p)
}

/// `p` with a slash in front.
pub open spec fn slashed(p: Seq<char>) -> Seq<char> {
    if text::begins(p, "/"@) {
        p
    } else {
        "/"@ + p
    }
}

/// `p` with a slash in front.
pub fn with_slash(p: String) -> (r: String)
    ensures
        r@ == slashed(p@),
{
    if text::starts_with(p.as_str(), "/") {
        p
    } else {
        text::joined("/", p.as_str())
    }
}

/// The path of an asset.
pub fn asset_path(path: &str) -> (r: String)
    ensures
        r@ == asset_path_of(path@),
{
    if text::starts_with(path, "http") {
        if let Some(p) = outside::url_path(path) {
            return with_slash(p);
        }
    }
    with_slash(String::from_str(path))
}

/// Where an asset is found: at the gateway where it has an address of its
/// own, and upstream otherwise.
pub open spec fn asset_url_of(
    app_url: Seq<char>,
    media_type: Seq<char>,
    path: Seq<char>,
) -> Seq<char> {
    if app_url.len() == 0 {
        "https://assets.grok.com"@ + path
    } else {
        text::without_trailing(app_url, '/') + "/v1/files/"@ + media_type + path
    }
}

/// Where the asset of an upstream URL is found.
pub open spec fn link_of(app_url: Seq<char>, media_type: Seq<char>, url: Seq<char>) -> Seq<char> {
    asset_url_of(app_url, media_type, asset_path_of(url))
}

/// An event, and the data of the images that it brings, as far as it was
/// asked for: one entry for each image, and nothing where there was no answer.
#[derive(Debug)]
pub struct Event {
    pub data: Json,
    pub encoded: Vec<Option<String>>,
}

/// The mathematical value of an [`Event`].
pub struct EventV {
    pub data: JsonV,
    pub encoded: Seq<Option<Seq<char>>>,
}

impl View for Event {
    type V = EventV;

    open spec fn view(&self) -> EventV {
        EventV { data: self.data@, encoded: text::text_opts(self.encoded@) }
    }
}

/// The values of a list of events.
pub open spec fn event_views(v: Seq<Event>) -> Seq<EventV> {
    v.map_values(|e: Event| e@)
}

/// An asset: where it is found, and what the gateway has to download first.
#[derive(Debug)]
pub struct Asset {
    pub url: String,
    pub download: Option<String>,
}

/// A time in seconds that the clock can show.
pub open spec fn clock_second(s: i64) -> bool {
    0 <= s <= outside::CLOCK_MAX_MS / 1000
}

/// The time in seconds since the Unix epoch.
pub fn now_ts() -> (r: i64)
    ensures
        clock_second(r),
{
    outside::now_millis() / 1000
}

/// The name of a response that has none of its own.
pub open spec fn is_chat_id(s: Seq<char>) -> bool {
    exists|u: Seq<char>| #[trigger] outside::is_simple_uuid(u) && s == "chatcmpl-"@ + u
}

/// A name for a response that has none of its own.
pub fn fresh_chat_id() -> (r: String)
    ensures
        is_chat_id(r@),
{
    let u = outside::fresh_simple_uuid();
    text::joined("chatcmpl-", u.as_str())
}

/// One step of a streamed answer.
#[derive(Debug)]
pub enum Delta {
    /// Who is speaking.
    Role,
    /// Thinking begins.
    ThinkOpen,
    /// Thinking ends.
    ThinkClose,
    /// More text.
    Text(String),
    /// The answer is complete.
    Stop,
}

/// The mathematical value of a [`Delta`].
pub enum DeltaV {
    Role,
    ThinkOpen,
    ThinkClose,
    Text(Seq<char>),
    Stop,
}

impl View for Delta {
    type V = DeltaV;

    open spec fn view(&self) -> DeltaV {
        match self {
            Delta::Role => DeltaV::Role,
            Delta::ThinkOpen => DeltaV::ThinkOpen,
            Delta::ThinkClose => DeltaV::ThinkClose,
            Delta::Text(s) => DeltaV::Text(s@),
            Delta::Stop => DeltaV::Stop,
        }
    }
}

/// One chunk of a streamed answer, with the name and the fingerprint of the
/// response as far as they are known when it is sent.
#[derive(Debug)]
pub struct Chunk {
    pub id: Option<String>,
    pub fingerprint: String,
    pub delta: Delta,
}

/// The mathematical value of a [`Chunk`].
pub struct ChunkV {
    pub id: Option<Seq<char>>,
    pub fingerprint: Seq<char>,
    pub delta: DeltaV,
}

impl View for Chunk {
    type V = ChunkV;

    open spec fn view(&self) -> ChunkV {
        ChunkV {
            id: text::text_opt(self.id),
            fingerprint: self.fingerprint@,
            delta: self.delta@,
        }
    }
}

/// The values of a list of chunks.
pub open spec fn chunk_views(v: Seq<Chunk>) -> Seq<ChunkV> {
    v.map_values(|c: Chunk| c@)
}

/// The delta of a chunk as JSON.
pub open spec fn delta_json(d: DeltaV) -> JsonV {
    JsonV::Object(
        match d {
            DeltaV::Role => seq![("role"@, JsonV::Str("assistant"@)), ("content"@, JsonV::Str(""@))],
            DeltaV::ThinkOpen => seq![("content"@, JsonV::Str("<think>\n"@))],
            DeltaV::ThinkClose => seq![("content"@, JsonV::Str("</think>\n"@))],
            DeltaV::Text(s) => seq![("content"@, JsonV::Str(s))],
            DeltaV::Stop => Seq::empty(),
        },
    )
}

/// Why the answer ends with a chunk, where it does.
pub open spec fn finish_json(d: DeltaV) -> JsonV {
    match d {
        DeltaV::Stop => JsonV::Str("stop"@),
        _ => JsonV::Null,
    }
}

/// A chunk as it is sent, under the name `id`.
pub open spec fn chunk_json(model: Seq<char>, created: i64, id: Seq<char>, c: ChunkV) -> JsonV {
    JsonV::Object(
        seq![
            ("id"@, JsonV::Str(id)),
            ("object"@, JsonV::Str("chat.completion.chunk"@)),
            ("created"@, JsonV::Number(Number::of_int(created))),
            ("model"@, JsonV::Str(model)),
            ("system_fingerprint"@, JsonV::Str(c.fingerprint)),
            (
                "choices"@,
                JsonV::Array(
                    seq![
                        JsonV::Object(
                            seq![
                                ("index"@, JsonV::Number(Number::Unsigned(0))),
                                ("delta"@, delta_json(c.delta)),
                                ("logprobs"@, JsonV::Null),
                                ("finish_reason"@, finish_json(c.delta)),
                            ],
                        ),
                    ],
                ),
            ),
        ],
    )
}

fn delta_value(d: &Delta) -> (r: Json)
    ensures
        r@ == delta_json(d@),
{
    let mut f = Fields::new();
    match d {
        Delta::Role => {
            f.add("role", json::text_value("assistant"));
            f.add("content", json::text_value(""));
        },
        Delta::ThinkOpen => {
            f.add("content", json::text_value("<think>\n"));
        },
        Delta::ThinkClose => {
            f.add("content", json::text_value("</think>\n"));
        },
        Delta::Text(s) => {
            f.add("content", json::text_value(s.as_str()));
        },
        Delta::Stop => {},
    }
    proof {
        assert(f@ =~= delta_json(d@)->Object_0);
    }
    f.object()
}

/// A list with one item.
pub fn one(item: Json) -> (r: Json)
    ensures
        r@ == JsonV::Array(seq![item@]),
{
    let mut v: Vec<Json> = Vec::new();
    v.push(item);
    proof {
        assert(json::models(v@) =~= seq![item@]);
    }
    json::array(v)
}

impl BaseProcessor {
    /// A reader that starts now.
    pub fn new(model: &str, token: &str, app_url: &str) -> (r: BaseProcessor)
        ensures
            r.model@ == model@,
            r.token@ == token@,
            r.app_url@ == app_url@,
            clock_second(r.created),
    {
        BaseProcessor {
            model: String::from_str(model),
            token: String::from_str(token),
            created: now_ts(),
            app_url: String::from_str(app_url),
        }
    }

    /// Where the asset at `path` is found, and what has to be downloaded for it.
    pub fn asset_at(&self, path: String, media_type: &str) -> (r: Asset)
        ensures
            r.url@ == asset_url_of(self.app_url@, media_type@, path@),
            text::text_opt(r.download) == (if self.app_url@.len() == 0 {
                None
            } else {
                Some(path@)
            }),
    {
        if text::is_empty(self.app_url.as_str()) {
            return Asset { url: text::joined("https://assets.grok.com", path.as_str()), download: None };
        }
        let mut url = text::trim_end_char(self.app_url.as_str(), '/');
        url.append("/v1/files/");
        url.append(media_type);
        url.append(path.as_str());
        Asset { url, download: Some(path) }
    }

    /// Where the asset `path` is found, and what is to be downloaded for that.
    pub fn process_url(&self, path: &str, media_type: &str) -> (r: Asset)
        ensures
            r.url@ == link_of(self.app_url@, media_type@, path@),
            text::text_opt(r.download) == (if self.app_url@.len() == 0 {
                None
            } else {
                Some(asset_path_of(path@))
            }),
    {
        self.asset_at(asset_path(path), media_type)
    }

    /// A chunk as it is sent, under the name `id`.
    pub fn sse_chunk(&self, id: &str, chunk: &Chunk) -> (r: Json)
        ensures
            r@ == chunk_json(self.model@, self.created, id@, chunk@),
    {
        let mut choice = Fields::new();
        choice.add("index", json::count_value(0));
        choice.add("delta", delta_value(&chunk.delta));
        choice.add("logprobs", Json::Null);
        let finish = match &chunk.delta {
            Delta::Stop => json::text_value("stop"),
            _ => Json::Null,
        };
        choice.add("finish_reason", finish);
        let ghost want = chunk_json(self.model@, self.created, id@, chunk@);
        proof {
            assert(choice@ =~= want->Object_0[5].1->Array_0[0]->Object_0);
        }
        let choices = one(choice.object());
        let mut f = Fields::new();
        f.add("id", json::text_value(id));
        f.add("object", json::text_value("chat.completion.chunk"));
        f.add("created", json::int_value(self.created));
        f.add("model", json::text_value(self.model.as_str()));
        f.add("system_fingerprint", json::text_value(chunk.fingerprint.as_str()));
        f.add("choices", choices);
        proof {
            assert(f@ =~= want->Object_0);
        }
        f.object()
    }

    /// A chunk as it is sent: under the name of its response, or under a fresh
    /// one where that has no name yet.
    pub fn send_chunk(&self, chunk: &Chunk) -> (r: Json)
        ensures
            chunk.id is Some ==> r@ == chunk_json(
                self.model@,
                self.created,
                chunk@.id->0,
                chunk@,
            ),
            chunk.id is None ==> exists|id: Seq<char>| #[trigger]
                is_chat_id(id) && r@ == chunk_json(self.model@, self.created, id, chunk@),
    {
        match &chunk.id {
            Some(id) => self.sse_chunk(id.as_str(), chunk),
            None => {
                let id = fresh_chat_id();
                self.sse_chunk(id.as_str(), chunk)
            },
        }
    }
}

/// The line that carries `payload` in an event stream.
pub fn sse_data(payload: &str) -> (r: String)
    ensures
        r@ == "data: "@ + payload@ + "\n\n"@,
{
    text::joined3("data: ", payload, "\n\n")
}

/// The line that carries `payload` in an event stream, as an event named `event`.
pub fn sse_event(event: &str, payload: &str) -> (r: String)
    ensures
        r@ == "event: "@ + event@ + "\ndata: "@ + payload@ + "\n\n"@,
{
    let mut out = text::joined3("event: ", event, "\ndata: ");
    out.append(payload);
    out.append("\n\n");
    out
}

/// The line with which an event stream ends.
pub fn sse_done() -> (r: String)
    ensures
        r@ == "data: [DONE]\n\n"@,
{
    String::from_str("data: [DONE]\n\n")
}

} // verus!
