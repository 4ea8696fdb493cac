//! Chat answers: streamed, and collected into one.
use vstd::prelude::*;
use vstd::string::*;

use crate::grok::processor::base;
use crate::grok::processor::base::{BaseProcessor, Chunk, ChunkV, Delta, DeltaV, Event, EventV};
use crate::json;
use crate::json::{Fields, Json, JsonV, Number};
use crate::text;

verus! {

/// Turns the events of a chat into the chunks of a streamed answer.
#[derive(Debug)]
pub struct StreamProcessor {
    pub base: BaseProcessor,
    pub response_id: Option<String>,
    pub fingerprint: String,
    pub think_opened: bool,
    pub role_sent: bool,
    pub filter_tags: Vec<String>,
    pub image_format: String,
    pub show_think: bool,
}

/// The state of a [`StreamProcessor`].
pub struct ChatV {
    pub response_id: Option<Seq<char>>,
    pub fingerprint: Seq<char>,
    pub think_opened: bool,
    pub role_sent: bool,
    pub filter_tags: Seq<Seq<char>>,
    pub image_format: Seq<char>,
    pub show_think: bool,
}

impl View for StreamProcessor {
    type V = ChatV;

    open spec fn view(&self) -> ChatV {
        ChatV {
            response_id: text::text_opt(self.response_id),
            fingerprint: self.fingerprint@,
            think_opened: self.think_opened,
            role_sent: self.role_sent,
            filter_tags: text::texts(self.filter_tags@),
            image_format: self.image_format@,
            show_think: self.show_think,
        }
    }
}

/// The chunk that says `d` in the state `s`.
pub open spec fn said(s: ChatV, d: DeltaV) -> ChunkV {
    ChunkV { id: s.response_id, fingerprint: s.fingerprint, delta: d }
}

/// The hash of the model that an event tells.
pub open spec fn model_hash(resp: Option<JsonV>) -> Option<Seq<char>> {
    json::text_in(json::field_in(json::field_in(resp, "llmInfo"@), "modelHash"@))
}

/// The fingerprint once an event was read: the first hash that is told stays.
pub open spec fn fingerprint_after(fingerprint: Seq<char>, resp: Option<JsonV>) -> Seq<char> {
    if fingerprint.len() == 0 && model_hash(resp) is Some {
        model_hash(resp)->0
    } else {
        fingerprint
    }
}

/// What an event tells of the response as a whole.
pub open spec fn learned(s: ChatV, resp: Option<JsonV>) -> ChatV {
    ChatV {
        fingerprint: fingerprint_after(s.fingerprint, resp),
        response_id: match json::text_in(json::field_in(resp, "responseId"@)) {
            Some(id) => Some(id),
            None => s.response_id,
        },
        ..s
    }
}

/// The progress of an image, where the event tells one.
pub open spec fn image_progress(resp: Option<JsonV>) -> Option<JsonV> {
    json::field_in(resp, "streamingImageGenerationResponse"@)
}

/// The complete answer, where the event tells it and no progress.
pub open spec fn model_response(resp: Option<JsonV>) -> Option<JsonV> {
    if image_progress(resp) is Some {
        None
    } else {
        json::field_in(resp, "modelResponse"@)
    }
}

/// An integer that an event tells, or zero.
pub open spec fn int_or_zero(o: Option<i64>) -> i64 {
    match o {
        Some(i) => i,
        None => 0,
    }
}

/// The number of an image that an event tells, counted from zero.
pub open spec fn image_number(img: Option<JsonV>) -> i64 {
    int_or_zero(json::int_in(json::field_in(img, "imageIndex"@)))
}

/// How the progress of an image is put in words.
pub open spec fn progress_text(img: Option<JsonV>) -> Seq<char> {
    "正在生成第"@ + text::signed_of(image_number(img) + 1) + "张图片中，当前进度"@ + text::signed_of(
        int_or_zero(json::int_in(json::field_in(img, "progress"@))) as int,
    ) + "%\n"@
}

/// `token` holds one of the tags that are filtered.
pub open spec fn filtered(tags: Seq<Seq<char>>, token: Seq<char>) -> bool {
    exists|i: int| 0 <= i < tags.len() && text::occurs(token, #[trigger] tags[i])
}

/// The text that an event adds, where it is nothing but text.
pub open spec fn token_text(s: ChatV, resp: Option<JsonV>) -> Option<Seq<char>> {
    match json::text_in(json::field_in(resp, "token"@)) {
        Some(t) => if t.len() > 0 && !filtered(s.filter_tags, t) {
            Some(t)
        } else {
            None
        },
        None => None,
    }
}

/// `d`, where `when` holds.
pub open spec fn maybe(s: ChatV, when: bool, d: DeltaV) -> Seq<ChunkV> {
    if when {
        seq![said(s, d)]
    } else {
        Seq::empty()
    }
}

/// What is thought, and the end of thinking, once the complete answer is there.
pub open spec fn closing(s: ChatV, mr: JsonV) -> Seq<ChunkV> {
    if s.think_opened && s.show_think {
        (match json::text_in(mr.field("message"@)) {
            Some(m) => seq![said(s, DeltaV::Text(m + "\n"@))],
            None => Seq::empty(),
        }) + seq![said(s, DeltaV::ThinkClose)]
    } else {
        Seq::empty()
    }
}

/// The chunks with which an event is answered before its images are.
pub open spec fn opening_chunks(before: ChatV, data: JsonV) -> Seq<ChunkV> {
    let resp = base::response_of(data);
    let s = learned(before, resp);
    maybe(s, !s.role_sent, DeltaV::Role) + (if image_progress(resp) is Some {
        if s.show_think {
            maybe(s, !s.think_opened, DeltaV::ThinkOpen) + seq![
                said(s, DeltaV::Text(progress_text(image_progress(resp)))),
            ]
        } else {
            Seq::empty()
        }
    } else if model_response(resp) is Some {
        closing(s, model_response(resp)->0)
    } else {
        match token_text(s, resp) {
            Some(t) => seq![said(s, DeltaV::Text(t))],
            None => Seq::empty(),
        }
    })
}

/// The state in which the images of an event are answered.
pub open spec fn opened(before: ChatV, data: JsonV) -> ChatV {
    let resp = base::response_of(data);
    let s = learned(before, resp);
    ChatV {
        role_sent: true,
        think_opened: if image_progress(resp) is Some {
            s.think_opened || s.show_think
        } else if model_response(resp) is Some {
            s.think_opened && !s.show_think
        } else {
            s.think_opened
        },
        ..s
    }
}

/// The URLs of the images that come with a complete answer.
pub open spec fn answer_urls(mr: Option<JsonV>) -> Seq<Seq<char>> {
    match json::items_in(json::field_in(mr, "generatedImageUrls"@)) {
        Some(items) => json::texts_among(items),
        None => Seq::empty(),
    }
}

/// The name of an image: the last directory of its URL.
pub open spec fn label_of(url: Seq<char>) -> Seq<char> {
    let parts = text::pieces(url, text::is_char('/'));
    if parts.len() >= 2 {
        parts[parts.len() - 2]
    } else {
        parts[0]
    }
}

/// The text that shows the image of `url`, found at `link`.
pub open spec fn image_text(url: Seq<char>, link: Seq<char>) -> Seq<char> {
    "!["@ + label_of(url) + "]("@ + link + ")\n"@
}

/// The state after an event: the complete answer may tell another fingerprint.
pub open spec fn closed(s: ChatV, data: JsonV) -> ChatV {
    match json::text_in(
        json::field_in(
            json::field_in(
                json::field_in(model_response(base::response_of(data)), "metadata"@),
                "llm_info"@,
            ),
            "modelHash"@,
        ),
    ) {
        Some(h) => ChatV { fingerprint: h, ..s },
        None => s,
    }
}

/// The chunks with which the answer ends.
pub open spec fn ending(s: ChatV) -> Seq<ChunkV> {
    maybe(s, s.think_opened, DeltaV::ThinkClose) + seq![said(s, DeltaV::Stop)]
}

/// The number that is shown for an image fits in 64 bits.
pub open spec fn countable(data: JsonV) -> bool {
    image_number(image_progress(base::response_of(data))) < i64::MAX
}

fn answer_url_list(mr: Option<&Json>) -> (r: Vec<String>)
    ensures
        text::texts(r@) == answer_urls(json::opt_model(mr)),
{
    match json::array_in(json::get_in(mr, "generatedImageUrls")) {
        Some(items) => json::texts_of(items),
        None => {
            let none: Vec<String> = Vec::new();
            proof {
                assert(text::texts(none@) =~= Seq::empty());
            }
            none
        },
    }
}

fn is_filtered(tags: &Vec<String>, token: &str) -> (r: bool)
    ensures
        r == filtered(text::texts(tags@), token@),
{
    let ghost all = text::texts(tags@);
    let n: usize = tags.len();
    let mut i: usize = 0;
    while i < n
        invariant
            n == tags@.len(),
            i <= n,
            all == text::texts(tags@),
            forall|k: int| 0 <= k < i ==> !text::occurs(token@, #[trigger] all[k]),
        decreases n - i,
    {
        proof {
            assert(all[i as int] == tags@[i as int]@);
        }
        if text::contains(token, tags[i].as_str()) {
            return true;
        }
        i += 1;
    }
    false
}

/// The name of an image: the last directory of its URL.
pub fn image_label(url: &str) -> (r: String)
    ensures
        r@ == label_of(url@),
{
    let parts = text::split_char(url, '/');
    let ghost views = text::pieces(url@, text::is_char('/'));
    proof {
        text::lemma_pieces_len(url@, text::is_char('/'));
        assert(text::texts(parts@) == views);
        assert(views[0] == parts@[0]@);
    }
    let n: usize = parts.len();
    if n >= 2 {
        proof {
            assert(views[n - 2] == parts@[n - 2]@);
        }
        parts[n - 2].clone()
    } else {
        parts[0].clone()
    }
}

fn model_response_in<'a>(resp: Option<&'a Json>) -> (r: Option<&'a Json>)
    ensures
        json::opt_model(r) == model_response(json::opt_model(resp)),
{
    if json::get_in(resp, "streamingImageGenerationResponse").is_some() {
        None
    } else {
        json::get_in(resp, "modelResponse")
    }
}

fn progress_words(img: &Json) -> (r: String)
    requires
        image_number(Some(img@)) < i64::MAX,
    ensures
        r@ == progress_text(Some(img@)),
{
    let number: i64 = match img.get_i64("imageIndex") {
        Some(i) => i,
        None => 0,
    };
    let progress: i64 = match img.get_i64("progress") {
        Some(i) => i,
        None => 0,
    };
    let mut out = String::from_str("正在生成第");
    out.append(text::signed_decimal(number + 1).as_str());
    out.append("张图片中，当前进度");
    out.append(text::signed_decimal(progress).as_str());
    out.append("%\n");
    out
}

impl StreamProcessor {
    /// A reader that has read nothing yet.
    pub fn new(
        base: BaseProcessor,
        filter_tags: Vec<String>,
        image_format: String,
        show_think: bool,
    ) -> (r: StreamProcessor)
        ensures
            r.base == base,
            r@ == (ChatV {
                response_id: None,
                fingerprint: Seq::empty(),
                think_opened: false,
                role_sent: false,
                filter_tags: text::texts(filter_tags@),
                image_format: image_format@,
                show_think,
            }),
    {
        let fingerprint = String::new();
        proof {
            assert(fingerprint@ =~= Seq::empty());
        }
        StreamProcessor {
            base,
            response_id: None,
            fingerprint,
            think_opened: false,
            role_sent: false,
            filter_tags,
            image_format,
            show_think,
        }
    }

    fn say(&self, delta: Delta) -> (r: Chunk)
        ensures
            r@ == said(self@, delta@),
    {
        Chunk {
            id: text::copy_opt(&self.response_id),
            fingerprint: self.fingerprint.clone(),
            delta,
        }
    }

    fn learn(&mut self, resp: Option<&Json>)
        ensures
            final(self)@ == learned(old(self)@, json::opt_model(resp)),
            final(self).base == old(self).base,
    {
        if text::is_empty(self.fingerprint.as_str()) {
            if let Some(hash) = json::str_in(
                json::get_in(json::get_in(resp, "llmInfo"), "modelHash"),
            ) {
                self.fingerprint = hash.clone();
            }
        }
        if let Some(id) = json::str_in(json::get_in(resp, "responseId")) {
            self.response_id = Some(id.clone());
        }
    }

    /// Answers an event, up to its images. Returns the chunks to send.
    pub fn open_event(&mut self, data: &Json) -> (r: Vec<Chunk>)
        requires
            old(self).show_think ==> countable(data@),
        ensures
            base::chunk_views(r@) == opening_chunks(old(self)@, data@),
            final(self)@ == opened(old(self)@, data@),
            final(self).base == old(self).base,
    {
        let ghost before = self@;
        let resp = base::response(data);
        self.learn(resp);
        let ghost s = self@;
        let mut out: Vec<Chunk> = Vec::new();
        if !self.role_sent {
            out.push(self.say(Delta::Role));
            self.role_sent = true;
        }
        proof {
            assert(base::chunk_views(out@) =~= maybe(s, !s.role_sent, DeltaV::Role));
        }
        let ghost role = base::chunk_views(out@);
        if let Some(img) = json::get_in(resp, "streamingImageGenerationResponse") {
            if self.show_think {
                if !self.think_opened {
                    out.push(self.say(Delta::ThinkOpen));
                    self.think_opened = true;
                }
                out.push(self.say(Delta::Text(progress_words(img))));
                proof {
                    assert(base::chunk_views(out@) =~= opening_chunks(before, data@));
                }
            }
        } else if let Some(mr) = json::get_in(resp, "modelResponse") {
            if self.think_opened && self.show_think {
                if let Some(m) = mr.get_str("message") {
                    out.push(self.say(Delta::Text(text::joined(m.as_str(), "\n"))));
                }
                out.push(self.say(Delta::ThinkClose));
                self.think_opened = false;
            }
            proof {
                assert(base::chunk_views(out@) =~= opening_chunks(before, data@));
            }
        } else if let Some(t) = json::str_in(json::get_in(resp, "token")) {
            if !text::is_empty(t.as_str()) && !is_filtered(&self.filter_tags, t.as_str()) {
                out.push(self.say(Delta::Text(t.clone())));
            }
        }
        proof {
            assert(base::chunk_views(out@) =~= opening_chunks(before, data@));
        }
        out
    }

    /// The URLs of the images that an event brings.
    pub fn image_urls(&self, data: &Json) -> (r: Vec<String>)
        ensures
            text::texts(r@) == answer_urls(model_response(base::response_of(data@))),
    {
        answer_url_list(model_response_in(base::response(data)))
    }

    /// Whether images are sent as data.
    pub fn wants_base64(&self) -> (r: bool)
        ensures
            r == as_data(self@.image_format),
    {
        text::same_text(self.image_format.as_str(), "base64")
    }

    /// What is shown for the image of `url`, where `encoded` is its data if
    /// that was asked for and is there.
    pub fn image_link(&self, url: &str, encoded: Option<String>) -> (r: String)
        ensures
            r@ == shown_at(
                self.base.app_url@,
                self@.image_format,
                url@,
                text::text_opt(encoded),
            ),
    {
        if self.wants_base64() {
            if let Some(data) = encoded {
                return data;
            }
        }
        self.base.process_url(url, "image").url
    }

    /// The chunk that shows the image of `url`, found at `link`.
    pub fn image_chunk(&self, url: &str, link: &str) -> (r: Chunk)
        ensures
            r@ == said(self@, DeltaV::Text(image_text(url@, link@))),
    {
        let label = image_label(url);
        let mut out = text::joined3("![", label.as_str(), "](");
        out.append(link);
        out.append(")\n");
        self.say(Delta::Text(out))
    }

    /// Answers the end of an event.
    pub fn close_event(&mut self, data: &Json)
        ensures
            final(self)@ == closed(old(self)@, data@),
            final(self).base == old(self).base,
    {
        let mr = model_response_in(base::response(data));
        let info = json::get_in(json::get_in(mr, "metadata"), "llm_info");
        if let Some(hash) = json::str_in(json::get_in(info, "modelHash")) {
            self.fingerprint = hash.clone();
        }
    }

    /// The chunks with which the answer ends.
    pub fn finish(&self) -> (r: Vec<Chunk>)
        ensures
            base::chunk_views(r@) == ending(self@),
    {
        let mut out: Vec<Chunk> = Vec::new();
        if self.think_opened {
            out.push(self.say(Delta::ThinkClose));
        }
        out.push(self.say(Delta::Stop));
        proof {
            assert(base::chunk_views(out@) =~= ending(self@));
        }
        out
    }

    /// Answers one event whole.
    fn answer_event(&mut self, e: &Event) -> (r: Vec<Chunk>)
        requires
            is_resolved(e@, old(self)@.image_format, old(self).show_think),
        ensures
            base::chunk_views(r@) == event_chunks(old(self)@, old(self).base.app_url@, e@),
            final(self)@ == closed(opened(old(self)@, e@.data), e@.data),
            final(self).base == old(self).base,
    {
        let ghost before = self@;
        let mut out = self.open_event(&e.data);
        let ghost start = base::chunk_views(out@);
        let ghost app_url = self.base.app_url@;
        let ghost want = image_chunks(self@, app_url, e@);
        let wants_data = self.wants_base64();
        let urls = self.image_urls(&e.data);
        let n: usize = urls.len();
        let mut i: usize = 0;
        proof {
            assert(text::texts(urls@).len() == urls@.len());
            assert(text::text_opts(e.encoded@).len() == e.encoded@.len());
            assert(start + want.take(0) =~= start);
        }
        while i < n
            invariant
                n == urls@.len(),
                wants_data ==> n == e.encoded@.len(),
                n == want.len(),
                i <= n,
                wants_data == as_data(self@.image_format),
                self@ == opened(before, e@.data),
                self.base == old(self).base,
                app_url == self.base.app_url@,
                want == image_chunks(self@, app_url, e@),
                text::texts(urls@) == answer_urls(model_response(base::response_of(e@.data))),
                base::chunk_views(out@) =~= start + want.take(i as int),
            decreases n - i,
        {
            let ghost held = out@;
            let encoded = if wants_data {
                text::copy_opt(&e.encoded[i])
            } else {
                None
            };
            let link = self.image_link(urls[i].as_str(), encoded);
            let chunk = self.image_chunk(urls[i].as_str(), link.as_str());
            proof {
                assert(text::texts(urls@)[i as int] == urls@[i as int]@);
                assert(shown_links(app_url, self@.image_format, e@)[i as int] == link@);
            }
            out.push(chunk);
            proof {
                assert(base::chunk_views(out@) =~= base::chunk_views(held).push(chunk@));
            }
            i += 1;
        }
        proof {
            assert(want.take(i as int) =~= want);
        }
        self.close_event(&e.data);
        out
    }

    /// The whole answer to a chat whose events and images are all there.
    pub fn process(self, events: &Vec<Event>) -> (r: Vec<Chunk>)
        requires
            forall|i: int|
                0 <= i < events@.len() ==> is_resolved(
                    #[trigger] events@[i]@,
                    self@.image_format,
                    self.show_think,
                ),
        ensures
            base::chunk_views(r@) == answer(
                self@,
                self.base.app_url@,
                base::event_views(events@),
            ),
    {
        let ghost start = self@;
        let ghost app_url = self.base.app_url@;
        let ghost all = base::event_views(events@);
        let mut me = self;
        let mut out: Vec<Chunk> = Vec::new();
        let n: usize = events.len();
        let mut i: usize = 0;
        proof {
            assert(all.take(0) =~= Seq::empty());
            assert(base::chunk_views(out@) =~= Seq::empty());
        }
        while i < n
            invariant
                n == events@.len(),
                i <= n,
                all == base::event_views(events@),
                me.base.app_url@ == app_url,
                me.show_think == start.show_think,
                me@.image_format == start.image_format,
                forall|k: int|
                    0 <= k < events@.len() ==> is_resolved(
                        #[trigger] events@[k]@,
                        start.image_format,
                        start.show_think,
                    ),
                me@ == state_after(start, all.take(i as int)),
                base::chunk_views(out@) == chunks_for(start, app_url, all.take(i as int)),
            decreases n - i,
        {
            proof {
                assert(all.take(i + 1).drop_last() =~= all.take(i as int));
                assert(all.take(i + 1).last() == events@[i as int]@);
            }
            let ghost held = out@;
            let mut more = me.answer_event(&events[i]);
            let ghost added = more@;
            out.append(&mut more);
            proof {
                assert(base::chunk_views(out@) =~= base::chunk_views(held) + base::chunk_views(
                    added,
                ));
            }
            i += 1;
        }
        proof {
            assert(all.take(i as int) =~= all);
        }
        let mut more = me.finish();
        let ghost held = out@;
        let ghost added = more@;
        out.append(&mut more);
        proof {
            assert(base::chunk_views(out@) =~= base::chunk_views(held) + base::chunk_views(added));
        }
        out
    }
}

/// Images are asked for as data.
pub open spec fn as_data(image_format: Seq<char>) -> bool {
    image_format == "base64"@
}

/// Where data of images is asked for, there is an entry for each image of the
/// event; and the number of an image can be shown where thinking is.
pub open spec fn is_resolved(e: EventV, image_format: Seq<char>, show_think: bool) -> bool {
    &&& show_think ==> countable(e.data)
    &&& as_data(image_format) ==> e.encoded.len() == answer_urls(
        model_response(base::response_of(e.data)),
    ).len()
}

/// What a streamed answer shows for the image of `url`: its data, where that
/// is asked for and there, and otherwise where it is found.
pub open spec fn shown_at(
    app_url: Seq<char>,
    image_format: Seq<char>,
    url: Seq<char>,
    encoded: Option<Seq<char>>,
) -> Seq<char> {
    if as_data(image_format) && encoded is Some {
        encoded->0
    } else {
        base::link_of(app_url, "image"@, url)
    }
}

/// The links of the images of an event in a streamed answer.
pub open spec fn shown_links(
    app_url: Seq<char>,
    image_format: Seq<char>,
    e: EventV,
) -> Seq<Seq<char>> {
    let urls = answer_urls(model_response(base::response_of(e.data)));
    Seq::new(urls.len(), |i: int| shown_at(app_url, image_format, urls[i], e.encoded[i]))
}

/// The chunks that show the images of an event.
pub open spec fn image_chunks(s: ChatV, app_url: Seq<char>, e: EventV) -> Seq<ChunkV> {
    let urls = answer_urls(model_response(base::response_of(e.data)));
    Seq::new(
        urls.len(),
        |i: int|
            said(
                s,
                DeltaV::Text(image_text(urls[i], shown_links(app_url, s.image_format, e)[i])),
            ),
    )
}

/// All chunks with which an event is answered.
pub open spec fn event_chunks(s: ChatV, app_url: Seq<char>, e: EventV) -> Seq<ChunkV> {
    opening_chunks(s, e.data) + image_chunks(opened(s, e.data), app_url, e)
}

/// The state after the events.
pub open spec fn state_after(s: ChatV, events: Seq<EventV>) -> ChatV
    decreases events.len(),
{
    if events.len() == 0 {
        s
    } else {
        let t = state_after(s, events.drop_last());
        closed(opened(t, events.last().data), events.last().data)
    }
}

/// The chunks with which the events are answered.
pub open spec fn chunks_for(s: ChatV, app_url: Seq<char>, events: Seq<EventV>) -> Seq<ChunkV>
    decreases events.len(),
{
    if events.len() == 0 {
        Seq::empty()
    } else {
        chunks_for(s, app_url, events.drop_last()) + event_chunks(
            state_after(s, events.drop_last()),
            app_url,
            events.last(),
        )
    }
}

/// The whole answer.
pub open spec fn answer(s: ChatV, app_url: Seq<char>, events: Seq<EventV>) -> Seq<ChunkV> {
    chunks_for(s, app_url, events) + ending(state_after(s, events))
}

/// A reader that has read nothing yet.
pub open spec fn is_fresh(s: ChatV) -> bool {
    !s.role_sent && !s.think_opened
}

/// Whether thinking is open after the chunks, where it was `open` before
/// them; nothing where it is opened twice or closed without being open.
pub open spec fn think_after(chunks: Seq<ChunkV>, open: bool) -> Option<bool>
    decreases chunks.len(),
{
    if chunks.len() == 0 {
        Some(open)
    } else {
        match think_after(chunks.drop_last(), open) {
            Some(o) => match chunks.last().delta {
                DeltaV::ThinkOpen => if o {
                    None
                } else {
                    Some(true)
                },
                DeltaV::ThinkClose => if o {
                    Some(false)
                } else {
                    None
                },
                _ => Some(o),
            },
            None => None,
        }
    }
}

/// Whether thinking is open after two runs of chunks.
pub proof fn lemma_think_concat(a: Seq<ChunkV>, b: Seq<ChunkV>, open: bool)
    ensures
        think_after(a + b, open) == (match think_after(a, open) {
            Some(o) => think_after(b, o),
            None => None,
        }),
    decreases b.len(),
{
    if b.len() > 0 {
        assert((a + b).drop_last() =~= a + b.drop_last());
        lemma_think_concat(a, b.drop_last(), open);
    } else {
        assert(a + b =~= a);
    }
}

/// All chunks are text.
pub open spec fn all_text(c: Seq<ChunkV>) -> bool {
    forall|i: int| 0 <= i < c.len() ==> (#[trigger] c[i]).delta is Text
}

proof fn lemma_think_text(c: Seq<ChunkV>, open: bool)
    requires
        all_text(c),
    ensures
        think_after(c, open) == Some(open),
    decreases c.len(),
{
    if c.len() > 0 {
        assert forall|i: int| 0 <= i < c.drop_last().len() implies (
        #[trigger] c.drop_last()[i]).delta is Text by {
            assert(c.drop_last()[i] == c[i]);
        }
        lemma_think_text(c.drop_last(), open);
        assert(c[c.len() - 1].delta is Text);
    }
}

proof fn lemma_event_think(s: ChatV, app_url: Seq<char>, e: EventV)
    ensures
        think_after(event_chunks(s, app_url, e), s.think_opened) == Some(opened(s, e.data).think_opened),
{
    reveal_with_fuel(think_after, 5);
    let resp = base::response_of(e.data);
    let l = learned(s, resp);
    let role = maybe(l, !l.role_sent, DeltaV::Role);
    let chunks = opening_chunks(s, e.data);
    let rest = chunks.skip(role.len() as int);
    assert(chunks =~= role + rest);
    if role.len() > 0 {
        assert(role.drop_last() =~= Seq::empty());
    }
    assert(think_after(role, s.think_opened) == Some(s.think_opened));
    lemma_think_concat(role, rest, s.think_opened);
    if image_progress(resp) is Some {
        if l.show_think {
            let words = said(l, DeltaV::Text(progress_text(image_progress(resp))));
            assert(rest.drop_last() =~= maybe(l, !l.think_opened, DeltaV::ThinkOpen));
            assert(rest.last() == words);
            assert(rest.drop_last().len() > 0 ==> rest.drop_last().drop_last() =~= Seq::empty());
        } else {
            assert(rest =~= Seq::empty());
        }
    } else if model_response(resp) is Some {
        assert(rest =~= closing(l, model_response(resp)->0));
        if l.think_opened && l.show_think {
            let head = rest.drop_last();
            assert(rest.last().delta == DeltaV::ThinkClose);
            assert(all_text(head));
            lemma_think_text(head, s.think_opened);
        }
    } else {
        assert(all_text(rest));
        lemma_think_text(rest, s.think_opened);
    }
    assert(think_after(chunks, s.think_opened) == Some(opened(s, e.data).think_opened));
    let images = image_chunks(opened(s, e.data), app_url, e);
    assert(all_text(images));
    lemma_think_concat(chunks, images, s.think_opened);
    lemma_think_text(images, opened(s, e.data).think_opened);
}

proof fn lemma_events_think(s: ChatV, app_url: Seq<char>, events: Seq<EventV>)
    ensures
        think_after(chunks_for(s, app_url, events), s.think_opened) == Some(
            state_after(s, events).think_opened,
        ),
    decreases events.len(),
{
    if events.len() > 0 {
        lemma_events_think(s, app_url, events.drop_last());
        let t = state_after(s, events.drop_last());
        lemma_event_think(t, app_url, events.last());
        lemma_think_concat(
            chunks_for(s, app_url, events.drop_last()),
            event_chunks(t, app_url, events.last()),
            s.think_opened,
        );
    }
}

/// Whatever the events are, thinking is opened and closed in turn and is
/// closed when the answer ends.
pub proof fn law_thinking_is_balanced(s: ChatV, app_url: Seq<char>, events: Seq<EventV>)
    requires
        is_fresh(s),
    ensures
        think_after(answer(s, app_url, events), false) == Some(false),
{
    reveal_with_fuel(think_after, 3);
    lemma_events_think(s, app_url, events);
    let t = state_after(s, events);
    let end = ending(t);
    lemma_think_concat(chunks_for(s, app_url, events), end, false);
    assert(end.drop_last() =~= maybe(t, t.think_opened, DeltaV::ThinkClose));
    assert(end.last().delta == DeltaV::Stop);
    if t.think_opened {
        assert(end.drop_last().drop_last() =~= Seq::empty());
        assert(end.drop_last().last().delta == DeltaV::ThinkClose);
    }
}

/// Neither the role nor the end is among the chunks.
pub open spec fn plain(c: Seq<ChunkV>) -> bool {
    forall|i: int|
        0 <= i < c.len() ==> (#[trigger] c[i]).delta !is Role && c[i].delta !is Stop
}

proof fn lemma_event_roles(s: ChatV, app_url: Seq<char>, e: EventV)
    ensures
        opened(s, e.data).role_sent,
        s.role_sent ==> plain(event_chunks(s, app_url, e)),
        !s.role_sent ==> event_chunks(s, app_url, e).len() > 0 && event_chunks(s, app_url, e)[0].delta is Role
            && plain(event_chunks(s, app_url, e).skip(1)),
{
    let c = event_chunks(s, app_url, e);
    let resp = base::response_of(e.data);
    let l = learned(s, resp);
    if !s.role_sent {
        assert(c[0].delta is Role);
        let rest = c.skip(1);
        assert forall|i: int| 0 <= i < rest.len() implies (#[trigger] rest[i]).delta !is Role
            && rest[i].delta !is Stop by {
            assert(rest[i] == c[i + 1]);
        }
    }
}

/// The first chunk says who is speaking, as soon as there is an event, and no
/// other does; the last chunk says that the answer is complete, and no other does.
pub proof fn law_role_first_stop_last(s: ChatV, app_url: Seq<char>, events: Seq<EventV>)
    requires
        is_fresh(s),
    ensures
        answer(s, app_url, events).len() > 0,
        answer(s, app_url, events).last().delta is Stop,
        forall|i: int|
            0 <= i < answer(s, app_url, events).len() - 1 ==> (#[trigger] answer(s, app_url, events)[i]).delta
                !is Stop,
        forall|i: int|
            0 <= i < answer(s, app_url, events).len() ==> ((#[trigger] answer(s, app_url, events)[i]).delta is Role
                <==> i == 0 && events.len() > 0),
{
    lemma_events_roles(s, app_url, events);
    let c = chunks_for(s, app_url, events);
    let end = ending(state_after(s, events));
    let a = answer(s, app_url, events);
    assert forall|i: int| 0 <= i < a.len() implies ((#[trigger] a[i]).delta is Role <==> i == 0
        && events.len() > 0) && (i < a.len() - 1 ==> a[i].delta !is Stop) by {
        if i < c.len() {
            assert(a[i] == c[i]);
            if i > 0 {
                assert(c.skip(1)[i - 1] == c[i]);
            }
        } else {
            assert(a[i] == end[i - c.len()]);
        }
    }
}

proof fn lemma_events_roles(s: ChatV, app_url: Seq<char>, events: Seq<EventV>)
    requires
        is_fresh(s),
    ensures
        events.len() == 0 ==> chunks_for(s, app_url, events).len() == 0,
        events.len() > 0 ==> state_after(s, events).role_sent && chunks_for(s, app_url, events).len() > 0
            && chunks_for(s, app_url, events)[0].delta is Role && plain(chunks_for(s, app_url, events).skip(1)),
    decreases events.len(),
{
    if events.len() > 0 {
        let before = events.drop_last();
        lemma_events_roles(s, app_url, before);
        let t = state_after(s, before);
        lemma_event_roles(t, app_url, events.last());
        let a = chunks_for(s, app_url, before);
        let b = event_chunks(t, app_url, events.last());
        let c = chunks_for(s, app_url, events);
        assert(c == a + b);
        if before.len() == 0 {
            assert(c =~= b);
        } else {
            let rest = c.skip(1);
            assert forall|i: int| 0 <= i < rest.len() implies (#[trigger] rest[i]).delta !is Role
                && rest[i].delta !is Stop by {
                if i + 1 < a.len() {
                    assert(a.skip(1)[i] == rest[i]);
                } else {
                    assert(b[i + 1 - a.len()] == rest[i]);
                }
            }
        }
    }
}

/// Collects the events of a chat into one answer.
#[derive(Debug)]
pub struct CollectProcessor {
    pub base: BaseProcessor,
    pub image_format: String,
    pub response_id: String,
    pub fingerprint: String,
    pub content: String,
}

/// What a [`CollectProcessor`] has collected.
pub struct CollectedV {
    pub response_id: Seq<char>,
    pub fingerprint: Seq<char>,
    pub content: Seq<char>,
}

impl View for CollectProcessor {
    type V = CollectedV;

    open spec fn view(&self) -> CollectedV {
        CollectedV {
            response_id: self.response_id@,
            fingerprint: self.fingerprint@,
            content: self.content@,
        }
    }
}

/// What is collected from an event before its images.
pub open spec fn collected_open(c: CollectedV, data: JsonV) -> CollectedV {
    let resp = base::response_of(data);
    CollectedV {
        fingerprint: fingerprint_after(c.fingerprint, resp),
        response_id: match json::text_in(json::field_in(resp, "responseId"@)) {
            Some(id) => id,
            None => c.response_id,
        },
        content: c.content + text::or_empty(
            json::text_in(json::field_in(json::field_in(resp, "modelResponse"@), "message"@)),
        ),
    }
}

/// What is collected from an event after its images.
pub open spec fn collected_close(c: CollectedV, data: JsonV) -> CollectedV {
    CollectedV {
        content: c.content + text::or_empty(
            json::text_in(json::field_in(base::response_of(data), "token"@)),
        ),
        ..c
    }
}

/// What is collected once the images of an event were found.
pub open spec fn with_images(c: CollectedV, links: Seq<Seq<char>>) -> CollectedV
    decreases links.len(),
{
    if links.len() == 0 {
        c
    } else {
        let before = with_images(c, links.drop_last());
        CollectedV { content: before.content + ("![]("@ + links.last() + ")\n"@), ..before }
    }
}

/// The URLs of the images that a collected answer takes from an event.
pub open spec fn collected_urls(data: JsonV) -> Seq<Seq<char>> {
    answer_urls(json::field_in(base::response_of(data), "modelResponse"@))
}

/// What a collected answer shows for the image of `url`: where data is asked
/// for, that or else the URL as it is, and otherwise where it is found.
pub open spec fn collected_at(
    app_url: Seq<char>,
    image_format: Seq<char>,
    url: Seq<char>,
    encoded: Option<Seq<char>>,
) -> Seq<char> {
    if as_data(image_format) {
        match encoded {
            Some(data) => data,
            None => url,
        }
    } else {
        base::link_of(app_url, "image"@, url)
    }
}

/// The links of the images of an event in a collected answer.
pub open spec fn collected_links(
    app_url: Seq<char>,
    image_format: Seq<char>,
    e: EventV,
) -> Seq<Seq<char>> {
    let urls = collected_urls(e.data);
    Seq::new(urls.len(), |i: int| collected_at(app_url, image_format, urls[i], e.encoded[i]))
}

/// Where images are not asked for as data, an answer links every image of an
/// event, in order, to the place where it is found.
pub proof fn law_images_are_linked(app_url: Seq<char>, image_format: Seq<char>, e: EventV)
    requires
        !as_data(image_format),
    ensures
        shown_links(app_url, image_format, e) == answer_urls(
            model_response(base::response_of(e.data)),
        ).map_values(|url: Seq<char>| base::link_of(app_url, "image"@, url)),
        collected_links(app_url, image_format, e) == collected_urls(e.data).map_values(
            |url: Seq<char>| base::link_of(app_url, "image"@, url),
        ),
{
}

/// What is collected from the events.
pub open spec fn collected_from(
    c: CollectedV,
    app_url: Seq<char>,
    image_format: Seq<char>,
    events: Seq<EventV>,
) -> CollectedV
    decreases events.len(),
{
    if events.len() == 0 {
        c
    } else {
        let e = events.last();
        let before = collected_from(c, app_url, image_format, events.drop_last());
        collected_close(
            with_images(
                collected_open(before, e.data),
                collected_links(app_url, image_format, e),
            ),
            e.data,
        )
    }
}

/// The counts of an answer, none of which is known.
pub open spec fn zero() -> JsonV {
    JsonV::Number(Number::Unsigned(0))
}

/// The usage that is told with a collected answer.
pub open spec fn usage_json() -> JsonV {
    JsonV::Object(
        seq![
            ("prompt_tokens"@, zero()),
            ("completion_tokens"@, zero()),
            ("total_tokens"@, zero()),
            (
                "prompt_tokens_details"@,
                JsonV::Object(
                    seq![
                        ("cached_tokens"@, zero()),
                        ("text_tokens"@, zero()),
                        ("audio_tokens"@, zero()),
                        ("image_tokens"@, zero()),
                    ],
                ),
            ),
            (
                "completion_tokens_details"@,
                JsonV::Object(
                    seq![
                        ("text_tokens"@, zero()),
                        ("audio_tokens"@, zero()),
                        ("reasoning_tokens"@, zero()),
                    ],
                ),
            ),
        ],
    )
}

/// The one choice of a collected answer.
pub open spec fn choice_json(content: Seq<char>) -> JsonV {
    JsonV::Object(
        seq![
            ("index"@, zero()),
            (
                "message"@,
                JsonV::Object(
                    seq![
                        ("role"@, JsonV::Str("assistant"@)),
                        ("content"@, JsonV::Str(content)),
                        ("refusal"@, JsonV::Null),
                        ("annotations"@, JsonV::Array(Seq::empty())),
                    ],
                ),
            ),
            ("finish_reason"@, JsonV::Str("stop"@)),
        ],
    )
}

/// A collected answer.
pub open spec fn completion_json(model: Seq<char>, created: i64, c: CollectedV) -> JsonV {
    JsonV::Object(
        seq![
            ("id"@, JsonV::Str(c.response_id)),
            ("object"@, JsonV::Str("chat.completion"@)),
            ("created"@, JsonV::Number(Number::of_int(created))),
            ("model"@, JsonV::Str(model)),
            ("system_fingerprint"@, JsonV::Str(c.fingerprint)),
            ("choices"@, JsonV::Array(seq![choice_json(c.content)])),
            ("usage"@, usage_json()),
        ],
    )
}

fn usage_value() -> (r: Json)
    ensures
        r@ == usage_json(),
{
    let mut prompt = Fields::new();
    prompt.add("cached_tokens", json::count_value(0));
    prompt.add("text_tokens", json::count_value(0));
    prompt.add("audio_tokens", json::count_value(0));
    prompt.add("image_tokens", json::count_value(0));
    let mut completion = Fields::new();
    completion.add("text_tokens", json::count_value(0));
    completion.add("audio_tokens", json::count_value(0));
    completion.add("reasoning_tokens", json::count_value(0));
    proof {
        assert(prompt@ =~= usage_json()->Object_0[3].1->Object_0);
        assert(completion@ =~= usage_json()->Object_0[4].1->Object_0);
    }
    let mut f = Fields::new();
    f.add("prompt_tokens", json::count_value(0));
    f.add("completion_tokens", json::count_value(0));
    f.add("total_tokens", json::count_value(0));
    f.add("prompt_tokens_details", prompt.object());
    f.add("completion_tokens_details", completion.object());
    proof {
        assert(f@ =~= usage_json()->Object_0);
    }
    f.object()
}

fn choice_value(content: &str) -> (r: Json)
    ensures
        r@ == choice_json(content@),
{
    let none: Vec<Json> = Vec::new();
    proof {
        assert(json::models(none@) =~= Seq::empty());
    }
    let mut m = Fields::new();
    m.add("role", json::text_value("assistant"));
    m.add("content", json::text_value(content));
    m.add("refusal", Json::Null);
    m.add("annotations", json::array(none));
    proof {
        assert(m@ =~= choice_json(content@)->Object_0[1].1->Object_0);
    }
    let mut f = Fields::new();
    f.add("index", json::count_value(0));
    f.add("message", m.object());
    f.add("finish_reason", json::text_value("stop"));
    proof {
        assert(f@ =~= choice_json(content@)->Object_0);
    }
    f.object()
}

impl CollectProcessor {
    /// A reader that has collected nothing yet.
    pub fn new(base: BaseProcessor, image_format: String) -> (r: CollectProcessor)
        ensures
            r.base == base,
            r.image_format == image_format,
            r@ == (CollectedV {
                response_id: Seq::empty(),
                fingerprint: Seq::empty(),
                content: Seq::empty(),
            }),
    {
        let r = CollectProcessor {
            base,
            image_format,
            response_id: String::new(),
            fingerprint: String::new(),
            content: String::new(),
        };
        proof {
            assert(r@.response_id =~= Seq::empty());
            assert(r@.fingerprint =~= Seq::empty());
            assert(r@.content =~= Seq::empty());
        }
        r
    }

    /// Reads an event, up to its images.
    pub fn open_event(&mut self, data: &Json)
        ensures
            final(self)@ == collected_open(old(self)@, data@),
            final(self).base == old(self).base,
            final(self).image_format == old(self).image_format,
    {
        let resp = base::response(data);
        if text::is_empty(self.fingerprint.as_str()) {
            if let Some(hash) = json::str_in(
                json::get_in(json::get_in(resp, "llmInfo"), "modelHash"),
            ) {
                self.fingerprint = hash.clone();
            }
        }
        if let Some(id) = json::str_in(json::get_in(resp, "responseId")) {
            self.response_id = id.clone();
        }
        let ghost held = self.content@;
        match json::str_in(json::get_in(json::get_in(resp, "modelResponse"), "message")) {
            Some(m) => {
                self.content.append(m.as_str());
            },
            None => {
                proof {
                    assert(held + Seq::<char>::empty() =~= held);
                }
            },
        }
    }

    /// The URLs of the images that an event brings.
    pub fn image_urls(&self, data: &Json) -> (r: Vec<String>)
        ensures
            text::texts(r@) == collected_urls(data@),
    {
        answer_url_list(json::get_in(base::response(data), "modelResponse"))
    }

    /// Whether images are given as data.
    pub fn wants_base64(&self) -> (r: bool)
        ensures
            r == as_data(self.image_format@),
    {
        text::same_text(self.image_format.as_str(), "base64")
    }

    /// What is shown for the image of `url`, where `encoded` is its data if
    /// that was asked for and is there.
    pub fn image_link(&self, url: &str, encoded: Option<String>) -> (r: String)
        ensures
            r@ == collected_at(
                self.base.app_url@,
                self.image_format@,
                url@,
                text::text_opt(encoded),
            ),
    {
        if self.wants_base64() {
            match encoded {
                Some(data) => data,
                None => String::from_str(url),
            }
        } else {
            self.base.process_url(url, "image").url
        }
    }

    /// Adds an image that was found at `link`.
    pub fn add_image(&mut self, link: &str)
        ensures
            final(self)@ == (CollectedV {
                content: old(self)@.content + ("![]("@ + link@ + ")\n"@),
                ..old(self)@
            }),
            final(self).base == old(self).base,
            final(self).image_format == old(self).image_format,
    {
        let shown = text::joined3("![](", link, ")\n");
        self.content.append(shown.as_str());
    }

    /// Reads the end of an event.
    pub fn close_event(&mut self, data: &Json)
        ensures
            final(self)@ == collected_close(old(self)@, data@),
            final(self).base == old(self).base,
            final(self).image_format == old(self).image_format,
    {
        let ghost held = self.content@;
        match json::str_in(json::get_in(base::response(data), "token")) {
            Some(t) => {
                self.content.append(t.as_str());
            },
            None => {
                proof {
                    assert(held + Seq::<char>::empty() =~= held);
                }
            },
        }
    }

    /// The whole answer to a chat whose events and images are all there.
    pub fn process(self, events: &Vec<Event>) -> (r: Json)
        requires
            as_data(self.image_format@) ==> forall|i: int|
                0 <= i < events@.len() ==> (#[trigger] events@[i]@).encoded.len()
                    == collected_urls(events@[i]@.data).len(),
        ensures
            r@ == completion_json(
                self.base.model@,
                self.base.created,
                collected_from(
                    self@,
                    self.base.app_url@,
                    self.image_format@,
                    base::event_views(events@),
                ),
            ),
    {
        let ghost start = self@;
        let ghost app_url = self.base.app_url@;
        let ghost format = self.image_format@;
        let ghost all = base::event_views(events@);
        let wants_data = self.wants_base64();
        let mut me = self;
        let n: usize = events.len();
        let mut i: usize = 0;
        proof {
            assert(all.take(0) =~= Seq::empty());
        }
        while i < n
            invariant
                n == events@.len(),
                i <= n,
                all == base::event_views(events@),
                me.base == self.base,
                me.image_format == self.image_format,
                app_url == self.base.app_url@,
                format == self.image_format@,
                wants_data == as_data(format),
                wants_data ==> forall|k: int|
                    0 <= k < events@.len() ==> (#[trigger] events@[k]@).encoded.len()
                        == collected_urls(events@[k]@.data).len(),
                me@ == collected_from(start, app_url, format, all.take(i as int)),
            decreases n - i,
        {
            let e = &events[i];
            proof {
                assert(all.take(i + 1).drop_last() =~= all.take(i as int));
                assert(all.take(i + 1).last() == e@);
            }
            me.open_event(&e.data);
            let ghost opened = me@;
            let ghost links = collected_links(app_url, format, e@);
            let urls = me.image_urls(&e.data);
            let m: usize = urls.len();
            let mut k: usize = 0;
            proof {
                assert(links.take(0) =~= Seq::empty());
                assert(text::texts(urls@).len() == urls@.len());
                assert(wants_data ==> e@.encoded.len() == m);
                assert(text::text_opts(e.encoded@).len() == e.encoded@.len());
            }
            while k < m
                invariant
                    m == urls@.len(),
                    m == links.len(),
                    k <= m,
                    wants_data ==> m == e.encoded@.len(),
                    wants_data == as_data(format),
                    app_url == self.base.app_url@,
                    format == self.image_format@,
                    text::texts(urls@) == collected_urls(e@.data),
                    links == collected_links(app_url, format, e@),
                    me.base == self.base,
                    me.image_format == self.image_format,
                    me@ == with_images(opened, links.take(k as int)),
                decreases m - k,
            {
                let encoded = if wants_data {
                    text::copy_opt(&e.encoded[k])
                } else {
                    None
                };
                let link = me.image_link(urls[k].as_str(), encoded);
                proof {
                    assert(text::texts(urls@)[k as int] == urls@[k as int]@);
                    assert(links[k as int] == link@);
                    assert(links.take(k + 1).drop_last() =~= links.take(k as int));
                    assert(links.take(k + 1).last() == link@);
                }
                me.add_image(link.as_str());
                k += 1;
            }
            proof {
                assert(links.take(k as int) =~= links);
            }
            me.close_event(&e.data);
            i += 1;
        }
        proof {
            assert(all.take(i as int) =~= all);
        }
        me.finish()
    }

    /// The answer.
    pub fn finish(&self) -> (r: Json)
        ensures
            r@ == completion_json(self.base.model@, self.base.created, self@),
    {
        let choices = base::one(choice_value(self.content.as_str()));
        let mut f = Fields::new();
        f.add("id", json::text_value(self.response_id.as_str()));
        f.add("object", json::text_value("chat.completion"));
        f.add("created", json::int_value(self.base.created));
        f.add("model", json::text_value(self.base.model.as_str()));
        f.add("system_fingerprint", json::text_value(self.fingerprint.as_str()));
        f.add("choices", choices);
        f.add("usage", usage_value());
        proof {
            assert(f@ =~= completion_json(
                self.base.model@,
                self.base.created,
                self@,
            )->Object_0);
        }
        f.object()
    }
}

} // verus!
