//! Videos: streamed answers, and answers collected into one.
use vstd::prelude::*;
use vstd::string::*;

use crate::grok::processor::base;
use crate::grok::processor::base::{BaseProcessor, Chunk, ChunkV, Delta, DeltaV};
use crate::grok::processor::chat;
use crate::json;
use crate::json::{Fields, Json, JsonV, Number};
use crate::text;

verus! {

/// The HTML that shows a video, with a picture in its place until it plays.
pub open spec fn html_of(video_url: Seq<char>, thumbnail_url: Seq<char>) -> Seq<char> {
    "<video id=\"video\" controls=\"\" preload=\"none\""@ + (if thumbnail_url.len() == 0 {
        ""@
    } else {
        " poster=\""@ + thumbnail_url + "\""@
    }) + ">\n  <source id=\"mp4\" src=\""@ + video_url + "\" type=\"video/mp4\">\n</video>"@
}

/// The HTML that shows a video.
pub fn build_video_html(video_url: &str, thumbnail_url: &str) -> (r: String)
    ensures
        r@ == html_of(video_url@, thumbnail_url@),
{
    let poster = if text::is_empty(thumbnail_url) {
        String::from_str("")
    } else {
        text::joined3(" poster=\"", thumbnail_url, "\"")
    };
    let mut out = String::from_str("<video id=\"video\" controls=\"\" preload=\"none\"");
    out.append(poster.as_str());
    out.append(">\n  <source id=\"mp4\" src=\"");
    out.append(video_url);
    out.append("\" type=\"video/mp4\">\n</video>");
    out
}

/// A finished video: where it is upstream, and its picture (empty where there is none).
#[derive(Debug)]
pub struct VideoRef {
    pub video_url: String,
    pub thumbnail_url: String,
}

/// The mathematical value of a [`VideoRef`].
pub struct VideoV {
    pub video_url: Seq<char>,
    pub thumbnail_url: Seq<char>,
}

impl View for VideoRef {
    type V = VideoV;

    open spec fn view(&self) -> VideoV {
        VideoV { video_url: self.video_url@, thumbnail_url: self.thumbnail_url@ }
    }
}

/// What an event tells of a video.
pub open spec fn video_of(data: JsonV) -> Option<JsonV> {
    json::field_in(base::response_of(data), "streamingVideoGenerationResponse"@)
}

/// How far the video is, where the event tells it.
pub open spec fn told_progress(data: JsonV) -> Option<i64> {
    json::int_in(json::field_in(video_of(data), "progress"@))
}

/// The finished video that an event tells of.
pub open spec fn finished_video(data: JsonV) -> Option<VideoV> {
    let url = text::or_empty(json::text_in(json::field_in(video_of(data), "videoUrl"@)));
    if told_progress(data) == Some(100i64) && url.len() > 0 {
        Some(
            VideoV {
                video_url: url,
                thumbnail_url: text::or_empty(
                    json::text_in(json::field_in(video_of(data), "thumbnailImageUrl"@)),
                ),
            },
        )
    } else {
        None
    }
}

fn video_in(data: &Json) -> (r: Option<&Json>)
    ensures
        json::opt_model(r) == video_of(data@),
{
    json::get_in(base::response(data), "streamingVideoGenerationResponse")
}

/// The finished video that an event tells of.
pub fn video_ref(data: &Json) -> (r: Option<VideoRef>)
    ensures
        match r {
            Some(v) => finished_video(data@) == Some(v@),
            None => finished_video(data@) is None,
        },
{
    let video = video_in(data);
    match json::i64_in(json::get_in(video, "progress")) {
        Some(p) => {
            if p != 100 {
                return None;
            }
        },
        None => {
            return None;
        },
    }
    let video_url = text::owned_or_empty(json::str_in(json::get_in(video, "videoUrl")));
    if text::is_empty(video_url.as_str()) {
        return None;
    }
    let thumbnail_url = text::owned_or_empty(json::str_in(json::get_in(video, "thumbnailImageUrl")));
    Some(VideoRef { video_url, thumbnail_url })
}

/// Turns the events of a video into the chunks of a streamed answer.
#[derive(Debug)]
pub struct VideoStreamProcessor {
    pub base: BaseProcessor,
    pub response_id: Option<String>,
    pub think_opened: bool,
    pub role_sent: bool,
    pub show_think: bool,
}

/// The state of a [`VideoStreamProcessor`].
pub struct VideoStateV {
    pub response_id: Option<Seq<char>>,
    pub think_opened: bool,
    pub role_sent: bool,
    pub show_think: bool,
}

impl View for VideoStreamProcessor {
    type V = VideoStateV;

    open spec fn view(&self) -> VideoStateV {
        VideoStateV {
            response_id: text::text_opt(self.response_id),
            think_opened: self.think_opened,
            role_sent: self.role_sent,
            show_think: self.show_think,
        }
    }
}

/// The chunk that says `d` in the state `s`. Videos have no fingerprint.
pub open spec fn said(s: VideoStateV, d: DeltaV) -> ChunkV {
    ChunkV { id: s.response_id, fingerprint: ""@, delta: d }
}

/// `d`, where `when` holds.
pub open spec fn maybe(s: VideoStateV, when: bool, d: DeltaV) -> Seq<ChunkV> {
    if when {
        seq![said(s, d)]
    } else {
        Seq::empty()
    }
}

/// What an event tells of the response as a whole.
pub open spec fn learned(s: VideoStateV, data: JsonV) -> VideoStateV {
    VideoStateV {
        response_id: match json::text_in(json::field_in(base::response_of(data), "responseId"@)) {
            Some(id) => Some(id),
            None => s.response_id,
        },
        ..s
    }
}

/// How the progress of a video is put in words.
pub open spec fn progress_text(data: JsonV) -> Seq<char> {
    "正在生成视频中，当前进度"@ + text::signed_of(chat::int_or_zero(told_progress(data)) as int)
        + "%\n"@
}

/// The chunks with which an event is answered, up to the video itself.
pub open spec fn opening_chunks(before: VideoStateV, data: JsonV) -> Seq<ChunkV> {
    let s = learned(before, data);
    maybe(s, !s.role_sent, DeltaV::Role) + (if video_of(data) is Some && s.show_think {
        maybe(s, !s.think_opened, DeltaV::ThinkOpen) + seq![
            said(s, DeltaV::Text(progress_text(data))),
        ] + maybe(s, told_progress(data) == Some(100i64), DeltaV::ThinkClose)
    } else {
        Seq::empty()
    })
}

/// The state after an event.
pub open spec fn opened(before: VideoStateV, data: JsonV) -> VideoStateV {
    let s = learned(before, data);
    VideoStateV {
        role_sent: true,
        think_opened: if video_of(data) is Some && s.show_think {
            told_progress(data) != Some(100i64)
        } else {
            s.think_opened
        },
        ..s
    }
}

/// The chunks with which the answer ends.
pub open spec fn ending(s: VideoStateV) -> Seq<ChunkV> {
    maybe(s, s.think_opened, DeltaV::ThinkClose) + seq![said(s, DeltaV::Stop)]
}

impl VideoStreamProcessor {
    /// A reader that has read nothing yet.
    pub fn new(base: BaseProcessor, show_think: bool) -> (r: VideoStreamProcessor)
        ensures
            r.base == base,
            r@ == (VideoStateV {
                response_id: None,
                think_opened: false,
                role_sent: false,
                show_think,
            }),
    {
        VideoStreamProcessor {
            base,
            response_id: None,
            think_opened: false,
            role_sent: false,
            show_think,
        }
    }

    fn say(&self, delta: Delta) -> (r: Chunk)
        ensures
            r@ == said(self@, delta@),
    {
        Chunk { id: text::copy_opt(&self.response_id), fingerprint: String::from_str(""), delta }
    }

    /// Answers an event, up to the video itself. Returns the chunks to send.
    pub fn open_event(&mut self, data: &Json) -> (r: Vec<Chunk>)
        ensures
            base::chunk_views(r@) == opening_chunks(old(self)@, data@),
            final(self)@ == opened(old(self)@, data@),
            final(self).base == old(self).base,
    {
        let ghost before = self@;
        if let Some(id) = json::str_in(json::get_in(base::response(data), "responseId")) {
            self.response_id = Some(id.clone());
        }
        let ghost s = self@;
        let mut out: Vec<Chunk> = Vec::new();
        if !self.role_sent {
            out.push(self.say(Delta::Role));
            self.role_sent = true;
        }
        if let Some(video) = video_in(data) {
            let told = video.get_i64("progress");
            let progress: i64 = match told {
                Some(p) => p,
                None => 0,
            };
            if self.show_think {
                if !self.think_opened {
                    out.push(self.say(Delta::ThinkOpen));
                    self.think_opened = true;
                }
                let words = text::joined3(
                    "正在生成视频中，当前进度",
                    text::signed_decimal(progress).as_str(),
                    "%\n",
                );
                out.push(self.say(Delta::Text(words)));
            }
            if progress == 100 && self.think_opened && self.show_think {
                out.push(self.say(Delta::ThinkClose));
                self.think_opened = false;
            }
        }
        proof {
            assert(base::chunk_views(out@) =~= opening_chunks(before, data@));
        }
        out
    }

    /// The chunk that shows a finished video, found at `video_url`.
    pub fn video_chunk(&self, video_url: &str, thumbnail_url: &str) -> (r: Chunk)
        ensures
            r@ == said(self@, DeltaV::Text(html_of(video_url@, thumbnail_url@))),
    {
        self.say(Delta::Text(build_video_html(video_url, thumbnail_url)))
    }

    /// The chunks with which the answer ends.
    pub fn finish(&self) -> (r: Vec<Chunk>)
        ensures
            base::chunk_views(r@) == ending(self@),
    {
        let mut out: Vec<Chunk> = Vec::new();
        if self.think_opened {
            out.push(self.say(Delta::ThinkClose));
        }
        out.push(self.say(Delta::Stop));
        proof {
            assert(base::chunk_views(out@) =~= ending(self@));
        }
        out
    }
}

/// A finished video once it is found: both its files where a client gets them.
pub open spec fn shown(app_url: Seq<char>, v: VideoV) -> VideoV {
    VideoV {
        video_url: base::link_of(app_url, "video"@, v.video_url),
        thumbnail_url: if v.thumbnail_url.len() == 0 {
            Seq::empty()
        } else {
            base::link_of(app_url, "image"@, v.thumbnail_url)
        },
    }
}

/// The HTML that shows a finished video.
pub open spec fn shown_html(app_url: Seq<char>, v: VideoV) -> Seq<char> {
    html_of(shown(app_url, v).video_url, shown(app_url, v).thumbnail_url)
}

/// A finished video once it is found.
pub fn shown_video(base: &BaseProcessor, found: &VideoRef) -> (r: VideoRef)
    ensures
        r@ == shown(base.app_url@, found@),
{
    let video_url = base.process_url(found.video_url.as_str(), "video").url;
    let thumbnail_url = if text::is_empty(found.thumbnail_url.as_str()) {
        String::new()
    } else {
        base.process_url(found.thumbnail_url.as_str(), "image").url
    };
    let r = VideoRef { video_url, thumbnail_url };
    proof {
        assert(r@.thumbnail_url =~= shown(base.app_url@, found@).thumbnail_url);
    }
    r
}

/// The chunk that shows the finished video of an event.
pub open spec fn video_chunks(s: VideoStateV, app_url: Seq<char>, data: JsonV) -> Seq<ChunkV> {
    match finished_video(data) {
        Some(v) => seq![said(s, DeltaV::Text(shown_html(app_url, v)))],
        None => Seq::empty(),
    }
}

/// The state after the events.
pub open spec fn state_after(s: VideoStateV, events: Seq<JsonV>) -> VideoStateV
    decreases events.len(),
{
    if events.len() == 0 {
        s
    } else {
        opened(state_after(s, events.drop_last()), events.last())
    }
}

/// The chunks with which the events are answered.
pub open spec fn chunks_for(
    s: VideoStateV,
    app_url: Seq<char>,
    events: Seq<JsonV>,
) -> Seq<ChunkV>
    decreases events.len(),
{
    if events.len() == 0 {
        Seq::empty()
    } else {
        let before = events.drop_last();
        chunks_for(s, app_url, before) + opening_chunks(state_after(s, before), events.last())
            + video_chunks(state_after(s, events), app_url, events.last())
    }
}

impl VideoStreamProcessor {
    /// The whole answer to a video whose events are all there.
    pub fn process(self, events: &Vec<Json>) -> (r: Vec<Chunk>)
        ensures
            base::chunk_views(r@) == chunks_for(
                self@,
                self.base.app_url@,
                json::models(events@),
            ) + ending(state_after(self@, json::models(events@))),
    {
        let ghost start = self@;
        let ghost app_url = self.base.app_url@;
        let ghost all = json::models(events@);
        let mut me = self;
        let mut out: Vec<Chunk> = Vec::new();
        let n: usize = events.len();
        let mut i: usize = 0;
        proof {
            assert(all.take(0) =~= Seq::empty());
            assert(base::chunk_views(out@) =~= Seq::empty());
        }
        while i < n
            invariant
                n == events@.len(),
                i <= n,
                all == json::models(events@),
                me.base.app_url@ == app_url,
                me@ == state_after(start, all.take(i as int)),
                base::chunk_views(out@) == chunks_for(start, app_url, all.take(i as int)),
            decreases n - i,
        {
            proof {
                assert(all.take(i + 1).drop_last() =~= all.take(i as int));
                assert(all.take(i + 1).last() == events@[i as int]@);
            }
            let ghost held = out@;
            let mut more = me.open_event(&events[i]);
            let ghost added = more@;
            out.append(&mut more);
            let ghost upto = out@;
            proof {
                assert(base::chunk_views(upto) =~= base::chunk_views(held) + base::chunk_views(
                    added,
                ));
            }
            if let Some(found) = video_ref(&events[i]) {
                let v = shown_video(&me.base, &found);
                out.push(me.video_chunk(v.video_url.as_str(), v.thumbnail_url.as_str()));
            }
            proof {
                assert(base::chunk_views(out@) =~= chunks_for(start, app_url, all.take(i + 1)));
            }
            i += 1;
        }
        proof {
            assert(all.take(i as int) =~= all);
        }
        let ghost held = out@;
        let mut more = me.finish();
        let ghost added = more@;
        out.append(&mut more);
        proof {
            assert(base::chunk_views(out@) =~= base::chunk_views(held) + base::chunk_views(added));
        }
        out
    }
}

proof fn lemma_event_think(s: VideoStateV, data: JsonV)
    ensures
        chat::think_after(opening_chunks(s, data), s.think_opened) == Some(
            opened(s, data).think_opened,
        ),
{
    reveal_with_fuel(chat::think_after, 6);
    let l = learned(s, data);
    let role = maybe(l, !l.role_sent, DeltaV::Role);
    let c = opening_chunks(s, data);
    if video_of(data) is Some && l.show_think {
        let open = maybe(l, !l.think_opened, DeltaV::ThinkOpen);
        let words = seq![said(l, DeltaV::Text(progress_text(data)))];
        let close = maybe(l, told_progress(data) == Some(100i64), DeltaV::ThinkClose);
        let upto = role + open;
        if close.len() > 0 {
            assert(c.last().delta == DeltaV::ThinkClose);
            assert(c.drop_last() =~= upto + words);
        } else {
            assert(c =~= upto + words);
        }
        assert((upto + words).drop_last() =~= upto);
        if open.len() > 0 {
            assert(upto.drop_last() =~= role);
        } else {
            assert(upto =~= role);
        }
    } else {
        assert(c =~= role);
    }
    if role.len() > 0 {
        assert(role.drop_last() =~= Seq::empty());
    }
}

/// Whatever the events are, thinking is opened and closed in turn and is
/// closed when the answer ends.
pub proof fn law_thinking_is_balanced(s: VideoStateV, app_url: Seq<char>, events: Seq<JsonV>)
    ensures
        chat::think_after(chunks_for(s, app_url, events), s.think_opened) == Some(
            state_after(s, events).think_opened,
        ),
        chat::think_after(
            chunks_for(s, app_url, events) + ending(state_after(s, events)),
            s.think_opened,
        ) == Some(false),
    decreases events.len(),
{
    reveal_with_fuel(chat::think_after, 3);
    let t = state_after(s, events);
    if events.len() > 0 {
        let before = events.drop_last();
        let data = events.last();
        law_thinking_is_balanced(s, app_url, before);
        lemma_event_think(state_after(s, before), data);
        let a = chunks_for(s, app_url, before);
        let b = opening_chunks(state_after(s, before), data);
        let c = video_chunks(t, app_url, data);
        chat::lemma_think_concat(a, b, s.think_opened);
        chat::lemma_think_concat(a + b, c, s.think_opened);
        if c.len() > 0 {
            assert(c.drop_last() =~= Seq::empty());
        }
    }
    let end = ending(t);
    chat::lemma_think_concat(chunks_for(s, app_url, events), end, s.think_opened);
    assert(end.drop_last() =~= maybe(t, t.think_opened, DeltaV::ThinkClose));
    if t.think_opened {
        assert(end.drop_last().drop_last() =~= Seq::empty());
        assert(end.drop_last().last().delta == DeltaV::ThinkClose);
    }
}

/// Collects the events of a video into one answer.
#[derive(Debug)]
pub struct VideoCollectProcessor {
    pub base: BaseProcessor,
    pub response_id: String,
    pub content: String,
}

/// The answer with a collected video.
pub open spec fn video_json(
    model: Seq<char>,
    created: i64,
    response_id: Seq<char>,
    content: Seq<char>,
) -> JsonV {
    JsonV::Object(
        seq![
            ("id"@, JsonV::Str(response_id)),
            ("object"@, JsonV::Str("chat.completion"@)),
            ("created"@, JsonV::Number(Number::of_int(created))),
            ("model"@, JsonV::Str(model)),
            (
                "choices"@,
                JsonV::Array(
                    seq![
                        JsonV::Object(
                            seq![
                                ("index"@, chat::zero()),
                                (
                                    "message"@,
                                    JsonV::Object(
                                        seq![
                                            ("role"@, JsonV::Str("assistant"@)),
                                            ("content"@, JsonV::Str(content)),
                                            ("refusal"@, JsonV::Null),
                                        ],
                                    ),
                                ),
                                ("finish_reason"@, JsonV::Str("stop"@)),
                            ],
                        ),
                    ],
                ),
            ),
            (
                "usage"@,
                JsonV::Object(
                    seq![
                        ("prompt_tokens"@, chat::zero()),
                        ("completion_tokens"@, chat::zero()),
                        ("total_tokens"@, chat::zero()),
                    ],
                ),
            ),
        ],
    )
}

/// The name of the response that the last finished event tells.
pub open spec fn id_after(events: Seq<JsonV>) -> Seq<char>
    decreases events.len(),
{
    if events.len() == 0 {
        Seq::empty()
    } else if told_progress(events.last()) == Some(100i64) {
        text::or_empty(
            json::text_in(json::field_in(base::response_of(events.last()), "responseId"@)),
        )
    } else {
        id_after(events.drop_last())
    }
}

/// The HTML that shows the last finished video.
pub open spec fn content_after(app_url: Seq<char>, events: Seq<JsonV>) -> Seq<char>
    decreases events.len(),
{
    if events.len() == 0 {
        Seq::empty()
    } else {
        match finished_video(events.last()) {
            Some(v) => shown_html(app_url, v),
            None => content_after(app_url, events.drop_last()),
        }
    }
}

impl VideoCollectProcessor {
    /// A reader that has collected nothing yet.
    pub fn new(base: BaseProcessor) -> (r: VideoCollectProcessor)
        ensures
            r.base == base,
            r.response_id@.len() == 0,
            r.content@.len() == 0,
    {
        VideoCollectProcessor { base, response_id: String::new(), content: String::new() }
    }

    /// Reads an event. Returns the finished video that it tells of.
    pub fn read_event(&mut self, data: &Json) -> (r: Option<VideoRef>)
        ensures
            match r {
                Some(v) => finished_video(data@) == Some(v@),
                None => finished_video(data@) is None,
            },
            final(self).response_id@ == (if told_progress(data@) == Some(100i64) {
                text::or_empty(
                    json::text_in(json::field_in(base::response_of(data@), "responseId"@)),
                )
            } else {
                old(self).response_id@
            }),
            final(self).content == old(self).content,
            final(self).base == old(self).base,
    {
        if let Some(p) = json::i64_in(json::get_in(video_in(data), "progress")) {
            if p == 100 {
                self.response_id = text::owned_or_empty(
                    json::str_in(json::get_in(base::response(data), "responseId")),
                );
            }
        }
        video_ref(data)
    }

    /// Takes a finished video, found at `video_url`, as the answer.
    pub fn set_video(&mut self, video_url: &str, thumbnail_url: &str)
        ensures
            final(self).content@ == html_of(video_url@, thumbnail_url@),
            final(self).response_id == old(self).response_id,
            final(self).base == old(self).base,
    {
        self.content = build_video_html(video_url, thumbnail_url);
    }

    /// The whole answer to a video whose events are all there.
    pub fn process(self, events: &Vec<Json>) -> (r: Json)
        requires
            self.response_id@.len() == 0,
            self.content@.len() == 0,
        ensures
            r@ == video_json(
                self.base.model@,
                self.base.created,
                id_after(json::models(events@)),
                content_after(self.base.app_url@, json::models(events@)),
            ),
    {
        let ghost app_url = self.base.app_url@;
        let ghost all = json::models(events@);
        let mut me = self;
        let n: usize = events.len();
        let mut i: usize = 0;
        proof {
            assert(all.take(0) =~= Seq::empty());
            assert(me.response_id@ =~= Seq::empty());
            assert(me.content@ =~= Seq::empty());
        }
        while i < n
            invariant
                n == events@.len(),
                i <= n,
                all == json::models(events@),
                app_url == self.base.app_url@,
                me.base == self.base,
                me.response_id@ == id_after(all.take(i as int)),
                me.content@ == content_after(app_url, all.take(i as int)),
            decreases n - i,
        {
            proof {
                assert(all.take(i + 1).drop_last() =~= all.take(i as int));
                assert(all.take(i + 1).last() == events@[i as int]@);
            }
            if let Some(found) = me.read_event(&events[i]) {
                let v = shown_video(&me.base, &found);
                me.set_video(v.video_url.as_str(), v.thumbnail_url.as_str());
            }
            i += 1;
        }
        proof {
            assert(all.take(i as int) =~= all);
        }
        me.finish()
    }

    /// The answer.
    pub fn finish(&self) -> (r: Json)
        ensures
            r@ == video_json(
                self.base.model@,
                self.base.created,
                self.response_id@,
                self.content@,
            ),
    {
        let ghost want = video_json(
            self.base.model@,
            self.base.created,
            self.response_id@,
            self.content@,
        )->Object_0;
        let mut m = Fields::new();
        m.add("role", json::text_value("assistant"));
        m.add("content", json::text_value(self.content.as_str()));
        m.add("refusal", Json::Null);
        let mut c = Fields::new();
        let ghost choice = want[4].1->Array_0[0]->Object_0;
        proof {
            assert(m@ =~= choice[1].1->Object_0);
        }
        c.add("index", json::count_value(0));
        c.add("message", m.object());
        c.add("finish_reason", json::text_value("stop"));
        proof {
            assert(c@ =~= choice);
        }
        let choices = base::one(c.object());
        let mut u = Fields::new();
        u.add("prompt_tokens", json::count_value(0));
        u.add("completion_tokens", json::count_value(0));
        u.add("total_tokens", json::count_value(0));
        proof {
            assert(u@ =~= want[5].1->Object_0);
        }
        let mut f = Fields::new();
        f.add("id", json::text_value(self.response_id.as_str()));
        f.add("object", json::text_value("chat.completion"));
        f.add("created", json::int_value(self.base.created));
        f.add("model", json::text_value(self.base.model.as_str()));
        f.add("choices", choices);
        f.add("usage", u.object());
        proof {
            assert(f@ =~= want);
        }
        f.object()
    }
}

} // verus!
