//! The course of one generation: each thing that the web socket tells, and
//! what follows from it.
use vstd::prelude::*;
use vstd::string::*;

use crate::grok::imagine::generation;
use crate::grok::imagine::generation::{
    GenerationProgress, ImageProgress, ImageV, ImagineProgressEvent, ImagineResult, ProgressV, ResultV, Stage,
};
use crate::grok::imagine::rotation;
use crate::json;
use crate::json::{Fields, Json, JsonV, Number};
use crate::outside;
use crate::text;

verus! {

/// What the web socket tells.
#[derive(Debug)]
pub enum SocketEvent {
    /// A message.
    Message(Json),
    /// A text that is no JSON.
    Garbled,
    /// Nothing for a while.
    Quiet,
    /// The socket is closed.
    Ended,
    /// Something that is not looked at.
    Ignored,
    /// The socket failed.
    Broken(String),
}

/// What to do next.
#[derive(Debug)]
pub enum Next {
    /// Go on listening.
    Listen,
    /// Save the images that are there.
    Save,
    /// Give up.
    Fail(ImagineResult),
}

/// What follows from an event.
#[derive(Debug)]
pub struct Step {
    pub next: Next,
    pub report: Option<ImagineProgressEvent>,
}

/// The mathematical value of a [`Next`].
pub enum NextV {
    Listen,
    Save,
    Fail(ResultV),
}

impl View for Next {
    type V = NextV;

    open spec fn view(&self) -> NextV {
        match self {
            Next::Listen => NextV::Listen,
            Next::Save => NextV::Save,
            Next::Fail(r) => NextV::Fail(r@),
        }
    }
}

/// The mathematical value of a [`SocketEvent`].
pub enum EventV {
    Message(JsonV),
    Garbled,
    Quiet,
    Ended,
    Ignored,
    Broken(Seq<char>),
}

impl View for SocketEvent {
    type V = EventV;

    open spec fn view(&self) -> EventV {
        match self {
            SocketEvent::Message(j) => EventV::Message(j@),
            SocketEvent::Garbled => EventV::Garbled,
            SocketEvent::Quiet => EventV::Quiet,
            SocketEvent::Ended => EventV::Ended,
            SocketEvent::Ignored => EventV::Ignored,
            SocketEvent::Broken(s) => EventV::Broken(s@),
        }
    }
}

/// The course of one generation. Times are in nanoseconds since its start.
#[derive(Debug)]
pub struct Session {
    pub n: usize,
    pub progress: GenerationProgress,
    pub error_info: Option<(String, String)>,
    pub last_activity: u128,
    pub medium_at: Option<u128>,
}

/// The state of a [`Session`].
pub struct SessionV {
    pub n: usize,
    pub total: usize,
    pub images: Seq<ImageV>,
    pub error: Option<(Seq<char>, Seq<char>)>,
    pub last_activity: u128,
    pub medium_at: Option<u128>,
}

impl View for Session {
    type V = SessionV;

    open spec fn view(&self) -> SessionV {
        SessionV {
            n: self.n,
            total: self.progress.total,
            images: generation::image_views(self.progress.images@),
            error: match self.error_info {
                Some(e) => Some((e.0@, e.1@)),
                None => None,
            },
            last_activity: self.last_activity,
            medium_at: self.medium_at,
        }
    }
}

/// A second in nanoseconds.
pub const SECOND: u128 = 1_000_000_000;

/// How long ago `at` is at `now`.
pub open spec fn since(now: u128, at: u128) -> int {
    if now > at {
        now - at
    } else {
        0
    }
}

fn since_then(now: u128, at: u128) -> (r: u128)
    ensures
        r == since(now, at),
{
    if now > at {
        now - at
    } else {
        0
    }
}

/// A generation that is held up and given up.
pub open spec fn blocked() -> ResultV {
    generation::failure("blocked"@, "生成被阻止，无法获取最终图片"@)
}

fn blocked_result() -> (r: ImagineResult)
    ensures
        r@ == blocked(),
{
    ImagineResult::failed("blocked", "生成被阻止，无法获取最终图片")
}

/// No image is final `seconds` seconds after the first of medium quality.
pub open spec fn stuck(s: SessionV, now: u128, seconds: int) -> bool {
    s.medium_at is Some && generation::finals(s.images) == 0 && since(now, s.medium_at->0)
        > seconds * SECOND
}

/// What to do after a message.
pub open spec fn verdict(s: SessionV, now: u128) -> NextV {
    if generation::finals(s.images) >= s.n {
        NextV::Save
    } else if stuck(s, now, 15) {
        NextV::Fail(blocked())
    } else {
        NextV::Listen
    }
}

/// The state once a message brought an image.
pub open spec fn with_image(s: SessionV, img: ImageV, now: u128) -> SessionV {
    SessionV {
        images: generation::received(s.images, img),
        medium_at: if img.stage == Stage::Medium && s.medium_at is None {
            Some(now)
        } else {
            s.medium_at
        },
        ..s
    }
}

/// What is reported of an image that changed something.
pub open spec fn report_of(before: SessionV, img: ImageV) -> Option<ProgressV> {
    if generation::accepted(before.images, img) {
        Some(
            ProgressV {
                image_id: img.image_id,
                stage: img.stage.name_of(),
                is_final: img.is_final,
                completed: generation::finals(generation::received(before.images, img)),
                total: before.total,
            },
        )
    } else {
        None
    }
}

/// The error that a message tells.
pub open spec fn error_of(msg: JsonV) -> (Seq<char>, Seq<char>) {
    (
        generation::field_text(msg, "err_code"@),
        match json::text_in(msg.field("err_msg"@)) {
            Some(m) => m,
            None => "generation failed"@,
        },
    )
}

/// The state after an event.
pub open spec fn state_after(before: SessionV, event: EventV, now: u128) -> SessionV {
    match event {
        EventV::Message(msg) => {
            let s = SessionV { last_activity: now, ..before };
            if generation::field_text(msg, "type"@) == "image"@ {
                match generation::image_in(msg) {
                    Some(img) => with_image(s, img, now),
                    None => s,
                }
            } else if generation::field_text(msg, "type"@) == "error"@ {
                SessionV { error: Some(error_of(msg)), ..s }
            } else {
                s
            }
        },
        EventV::Garbled => SessionV { last_activity: now, ..before },
        _ => before,
    }
}

/// What to do after an event.
pub open spec fn next_after(before: SessionV, event: EventV, now: u128) -> NextV {
    let s = state_after(before, event, now);
    match event {
        EventV::Message(msg) => {
            if generation::field_text(msg, "type"@) == "image"@ && generation::image_in(
                msg,
            ) is None {
                NextV::Listen
            } else if generation::field_text(msg, "type"@) == "error"@ && error_of(msg).0
                == "rate_limit_exceeded"@ {
                NextV::Fail(generation::failure(error_of(msg).0, error_of(msg).1))
            } else {
                verdict(s, now)
            }
        },
        EventV::Garbled => NextV::Listen,
        EventV::Quiet => if stuck(s, now, 10) {
            NextV::Fail(blocked())
        } else if generation::finals(s.images) > 0 && since(now, s.last_activity) > 10 * SECOND {
            NextV::Save
        } else {
            NextV::Listen
        },
        EventV::Ended => NextV::Save,
        EventV::Ignored => NextV::Listen,
        EventV::Broken(e) => NextV::Fail(generation::failure("connection_failed"@, e)),
    }
}

/// What is reported of an event.
pub open spec fn report_after(before: SessionV, event: EventV) -> Option<ProgressV> {
    match event {
        EventV::Message(msg) => if generation::field_text(msg, "type"@) == "image"@
            && generation::image_in(msg) is Some {
            report_of(before, generation::image_in(msg)->0)
        } else {
            None
        },
        _ => None,
    }
}

/// How the generation ends with the images that were saved.
pub open spec fn outcome_of(
    s: SessionV,
    urls: Seq<Seq<char>>,
    b64_list: Seq<Seq<char>>,
) -> ResultV {
    if urls.len() > 0 {
        generation::succeeded(urls, b64_list)
    } else {
        match s.error {
            Some(e) => generation::failure(e.0, e.1),
            None => if generation::held_up(s.images) {
                blocked()
            } else {
                generation::failure("generation_failed"@, "未收到图片数据"@)
            },
        }
    }
}

impl Session {
    /// The number of completed images is right.
    pub open spec fn wf(&self) -> bool {
        self.progress.wf()
    }

    /// A generation of `n` images that has just begun.
    pub fn new(n: usize) -> (r: Session)
        ensures
            r.wf(),
            r@ == (SessionV {
                n,
                total: n,
                images: Seq::empty(),
                error: None,
                last_activity: 0,
                medium_at: None,
            }),
    {
        let r = Session {
            n,
            progress: GenerationProgress::new(n),
            error_info: None,
            last_activity: 0,
            medium_at: None,
        };
        proof {
            assert(r@.images =~= Seq::empty());
        }
        r
    }

    /// Whether there is time left at `now`, where `timeout_secs` seconds are allowed.
    pub fn in_time(&self, now: u128, timeout_secs: u64) -> (r: bool)
        ensures
            r == (now < timeout_secs * SECOND),
    {
        now < timeout_secs as u128 * SECOND
    }

    fn judge(&self, now: u128) -> (r: Next)
        requires
            self.wf(),
        ensures
            r@ == verdict(self@, now),
    {
        if self.progress.completed >= self.n {
            return Next::Save;
        }
        if let Some(at) = self.medium_at {
            if self.progress.completed == 0 && since_then(now, at) > 15 * SECOND {
                return Next::Fail(blocked_result());
            }
        }
        Next::Listen
    }

    /// Takes an image at `now`.
    pub fn take_image(&mut self, img: ImageProgress, now: u128) -> (r: Step)
        requires
            old(self).wf(),
        ensures
            final(self).wf(),
            final(self)@ == with_image(old(self)@, img@, now),
            r.next@ == verdict(final(self)@, now),
            opt_view(r.report) == report_of(old(self)@, img@),
    {
        if img.stage == Stage::Medium && self.medium_at.is_none() {
            self.medium_at = Some(now);
        }
        let image_id = img.image_id.clone();
        let stage = img.stage;
        let is_final = img.is_final;
        let changed = self.progress.receive(img);
        let report = if changed {
            Some(
                ImagineProgressEvent {
                    image_id,
                    stage: String::from_str(stage.name()),
                    is_final,
                    completed: self.progress.completed,
                    total: self.progress.total,
                },
            )
        } else {
            None
        };
        Step { next: self.judge(now), report }
    }

    fn take_message(&mut self, msg: &Json, now: u128) -> (r: Step)
        requires
            old(self).wf(),
        ensures
            final(self).wf(),
            final(self)@ == state_after(old(self)@, EventV::Message(msg@), now),
            r.next@ == next_after(old(self)@, EventV::Message(msg@), now),
            opt_view(r.report) == report_after(old(self)@, EventV::Message(msg@)),
    {
        self.last_activity = now;
        proof {
            reveal_strlit("image");
            reveal_strlit("error");
            assert("image"@[0] == 'i' && "error"@[0] == 'e');
        }
        let kind = text::owned_or_empty(msg.get_str("type"));
        if text::same_text(kind.as_str(), "image") {
            return match generation::read_image(msg) {
                Some(img) => self.take_image(img, now),
                None => Step { next: Next::Listen, report: None },
            };
        }
        if text::same_text(kind.as_str(), "error") {
            let code = text::owned_or_empty(msg.get_str("err_code"));
            let message = match msg.get_str("err_msg") {
                Some(s) => s.clone(),
                None => String::from_str("generation failed"),
            };
            self.error_info = Some((code.clone(), message.clone()));
            if text::same_text(code.as_str(), "rate_limit_exceeded") {
                return Step {
                    next: Next::Fail(ImagineResult::failed(code.as_str(), message.as_str())),
                    report: None,
                };
            }
        }
        Step { next: self.judge(now), report: None }
    }

    /// Takes an event at `now`.
    pub fn take(&mut self, event: &SocketEvent, now: u128) -> (r: Step)
        requires
            old(self).wf(),
        ensures
            final(self).wf(),
            final(self)@ == state_after(old(self)@, event@, now),
            r.next@ == next_after(old(self)@, event@, now),
            opt_view(r.report) == report_after(old(self)@, event@),
    {
        match event {
            SocketEvent::Message(msg) => self.take_message(msg, now),
            SocketEvent::Garbled => {
                self.last_activity = now;
                Step { next: Next::Listen, report: None }
            },
            SocketEvent::Quiet => {
                if let Some(at) = self.medium_at {
                    if self.progress.completed == 0 && since_then(now, at) > 10 * SECOND {
                        return Step { next: Next::Fail(blocked_result()), report: None };
                    }
                }
                if self.progress.completed > 0 && since_then(now, self.last_activity) > 10
                    * SECOND {
                    return Step { next: Next::Save, report: None };
                }
                Step { next: Next::Listen, report: None }
            },
            SocketEvent::Ended => Step { next: Next::Save, report: None },
            SocketEvent::Ignored => Step { next: Next::Listen, report: None },
            SocketEvent::Broken(e) => Step {
                next: Next::Fail(ImagineResult::failed("connection_failed", e.as_str())),
                report: None,
            },
        }
    }

    /// How the generation ends with the images that were saved.
    pub fn outcome(&self, urls: Vec<String>, b64_list: Vec<String>) -> (r: ImagineResult)
        ensures
            r@ == outcome_of(self@, text::texts(urls@), text::texts(b64_list@)),
    {
        if urls.len() > 0 {
            return ImagineResult::ok(urls, b64_list);
        }
        match &self.error_info {
            Some(e) => ImagineResult::failed(e.0.as_str(), e.1.as_str()),
            None => if self.progress.check_blocked() {
                blocked_result()
            } else {
                ImagineResult::failed("generation_failed", "未收到图片数据")
            },
        }
    }
}

/// The value of an optional report.
pub open spec fn opt_view(o: Option<ImagineProgressEvent>) -> Option<ProgressV> {
    match o {
        Some(e) => Some(e@),
        None => None,
    }
}

/// How a generation ends whose socket could not be opened.
pub fn connect_failure(error: &str) -> (r: ImagineResult)
    ensures
        r@ == generation::failure(
            if text::occurs(error@, "401"@) {
                "unauthorized"@
            } else {
                "connection_failed"@
            },
            error@,
        ),
{
    if text::contains(error, "401") {
        ImagineResult::failed("unauthorized", error)
    } else {
        ImagineResult::failed("connection_failed", error)
    }
}

/// The cookie with which the socket is opened.
pub open spec fn cookie_of(sso: Seq<char>) -> Seq<char> {
    "sso="@ + rotation::sanitized(sso) + "; sso-rw="@ + rotation::sanitized(sso)
}

/// The headers with which the socket is opened, in order.
pub open spec fn header_list(sso: Seq<char>) -> Seq<(Seq<char>, Seq<char>)> {
    seq![
        ("Cookie"@, cookie_of(sso)),
        ("Origin"@, "https://grok.com"@),
        (
            "User-Agent"@,
            "Mozilla/5.0 (Windows NT 10.0; Win64; x64) AppleWebKit/537.36 (KHTML, like Gecko) Chrome/131.0.0.0 Safari/537.36"@,
        ),
        ("Accept-Language"@, "zh-CN,zh;q=0.9,en;q=0.8"@),
        ("Cache-Control"@, "no-cache"@),
        ("Pragma"@, "no-cache"@),
    ]
}

/// The headers with which the socket is opened.
pub fn socket_headers(sso: &str) -> (r: Vec<(String, String)>)
    ensures
        text::pair_texts(r@) == header_list(sso@),
{
    let raw = rotation::sanitize_token(sso);
    let mut cookie = text::joined3("sso=", raw.as_str(), "; sso-rw=");
    cookie.append(raw.as_str());
    let mut out: Vec<(String, String)> = Vec::new();
    text::push_pair(&mut out, "Cookie", cookie.as_str());
    text::push_pair(&mut out, "Origin", "https://grok.com");
    text::push_pair(
        &mut out,
        "User-Agent",
        "Mozilla/5.0 (Windows NT 10.0; Win64; x64) AppleWebKit/537.36 (KHTML, like Gecko) Chrome/131.0.0.0 Safari/537.36",
    );
    text::push_pair(&mut out, "Accept-Language", "zh-CN,zh;q=0.9,en;q=0.8");
    text::push_pair(&mut out, "Cache-Control", "no-cache");
    text::push_pair(&mut out, "Pragma", "no-cache");
    proof {
        assert(text::pair_texts(out@) =~= header_list(sso@));
    }
    out
}

/// What is sent to start a generation.
pub open spec fn request_json(
    request_id: Seq<char>,
    timestamp: i64,
    prompt: Seq<char>,
    aspect_ratio: Seq<char>,
    enable_nsfw: bool,
) -> JsonV {
    JsonV::Object(
        seq![
            ("type"@, JsonV::Str("conversation.item.create"@)),
            ("timestamp"@, JsonV::Number(Number::of_int(timestamp))),
            (
                "item"@,
                JsonV::Object(
                    seq![
                        ("type"@, JsonV::Str("message"@)),
                        (
                            "content"@,
                            JsonV::Array(
                                seq![
                                    JsonV::Object(
                                        seq![
                                            ("requestId"@, JsonV::Str(request_id)),
                                            ("text"@, JsonV::Str(prompt)),
                                            ("type"@, JsonV::Str("input_text"@)),
                                            (
                                                "properties"@,
                                                properties_json(aspect_ratio, enable_nsfw),
                                            ),
                                        ],
                                    ),
                                ],
                            ),
                        ),
                    ],
                ),
            ),
        ],
    )
}

/// The properties of a generation.
pub open spec fn properties_json(aspect_ratio: Seq<char>, enable_nsfw: bool) -> JsonV {
    JsonV::Object(
        seq![
            ("section_count"@, JsonV::Number(Number::Unsigned(0))),
            ("is_kids_mode"@, JsonV::Bool(false)),
            ("enable_nsfw"@, JsonV::Bool(enable_nsfw)),
            ("skip_upsampler"@, JsonV::Bool(false)),
            ("is_initial"@, JsonV::Bool(false)),
            ("aspect_ratio"@, JsonV::Str(aspect_ratio)),
        ],
    )
}

/// What is sent to start a generation, under a fresh name and at the present time.
pub fn start_request(prompt: &str, aspect_ratio: &str, enable_nsfw: bool) -> (r: Json)
    ensures
        exists|id: Seq<char>, now: i64|
            #![trigger outside::is_uuid_text(id), outside::clock_time(now)]
            outside::is_uuid_text(id) && outside::clock_time(now) && r@ == request_json(
                id,
                now,
                prompt@,
                aspect_ratio@,
                enable_nsfw,
            ),
{
    let id = outside::fresh_uuid();
    let now = outside::now_millis();
    request_payload(id.as_str(), now, prompt, aspect_ratio, enable_nsfw)
}

/// What is sent to start a generation.
pub fn request_payload(
    request_id: &str,
    timestamp: i64,
    prompt: &str,
    aspect_ratio: &str,
    enable_nsfw: bool,
) -> (r: Json)
    ensures
        r@ == request_json(request_id@, timestamp, prompt@, aspect_ratio@, enable_nsfw),
{
    let ghost want = request_json(request_id@, timestamp, prompt@, aspect_ratio@, enable_nsfw);
    let mut p = Fields::new();
    p.add("section_count", json::count_value(0));
    p.add("is_kids_mode", Json::Bool(false));
    p.add("enable_nsfw", Json::Bool(enable_nsfw));
    p.add("skip_upsampler", Json::Bool(false));
    p.add("is_initial", Json::Bool(false));
    p.add("aspect_ratio", json::text_value(aspect_ratio));
    proof {
        assert(p@ =~= properties_json(aspect_ratio@, enable_nsfw)->Object_0);
    }
    let mut c = Fields::new();
    c.add("requestId", json::text_value(request_id));
    c.add("text", json::text_value(prompt));
    c.add("type", json::text_value("input_text"));
    c.add("properties", p.object());
    let ghost item = want->Object_0[2].1->Object_0;
    proof {
        assert(c@ =~= item[1].1->Array_0[0]->Object_0);
    }
    let mut content: Vec<Json> = Vec::new();
    content.push(c.object());
    proof {
        assert(json::models(content@) =~= item[1].1->Array_0);
    }
    let mut i = Fields::new();
    i.add("type", json::text_value("message"));
    i.add("content", json::array(content));
    proof {
        assert(i@ =~= item);
    }
    let mut f = Fields::new();
    f.add("type", json::text_value("conversation.item.create"));
    f.add("timestamp", json::int_value(timestamp));
    f.add("item", i.object());
    proof {
        assert(f@ =~= want->Object_0);
    }
    f.object()
}

/// How many images are final after one was replaced.
pub proof fn lemma_finals_update(images: Seq<ImageV>, k: int, img: ImageV)
    requires
        0 <= k < images.len(),
    ensures
        generation::finals(images.update(k, img)) == generation::finals(images) + (
        if img.is_final {
            1int
        } else {
            0
        }) - (if images[k].is_final {
            1int
        } else {
            0
        }),
    decreases images.len(),
{
    let after = images.update(k, img);
    if k == images.len() - 1 {
        assert(after.drop_last() =~= images.drop_last());
    } else {
        assert(after.drop_last() =~= images.drop_last().update(k, img));
        assert(images.drop_last()[k] == images[k]);
        lemma_finals_update(images.drop_last(), k, img);
    }
}

/// A final image is never given up, whatever the socket tells, and the number
/// of final images never falls.
pub proof fn law_final_images_stay(s: SessionV, event: EventV, now: u128, k: int)
    requires
        0 <= k < s.images.len(),
        s.images[k].is_final,
    ensures
        k < state_after(s, event, now).images.len(),
        state_after(s, event, now).images[k] == s.images[k],
        generation::finals(state_after(s, event, now).images) >= generation::finals(s.images),
{
    if let EventV::Message(msg) = event {
        if let Some(img) = generation::image_in(msg) {
            generation::lemma_image_from(s.images, img.image_id, 0);
            match generation::image_from(s.images, img.image_id, 0) {
                Some(i) => {
                    lemma_finals_update(s.images, i, img);
                },
                None => {
                    assert(s.images.push(img).drop_last() =~= s.images);
                },
            }
        }
    }
}

/// The state after several events, each with its time.
pub open spec fn state_after_all(s: SessionV, events: Seq<(EventV, u128)>) -> SessionV
    decreases events.len(),
{
    if events.len() == 0 {
        s
    } else {
        state_after(
            state_after_all(s, events.drop_last()),
            events.last().0,
            events.last().1,
        )
    }
}

/// Over a whole generation, no final image is given up and the number of
/// final images never falls.
pub proof fn law_final_images_stay_to_the_end(s: SessionV, events: Seq<(EventV, u128)>, k: int)
    requires
        0 <= k < s.images.len(),
        s.images[k].is_final,
    ensures
        k < state_after_all(s, events).images.len(),
        state_after_all(s, events).images[k] == s.images[k],
        generation::finals(state_after_all(s, events).images) >= generation::finals(s.images),
    decreases events.len(),
{
    if events.len() > 0 {
        law_final_images_stay_to_the_end(s, events.drop_last(), k);
        law_final_images_stay(
            state_after_all(s, events.drop_last()),
            events.last().0,
            events.last().1,
            k,
        );
    }
}

/// Once as many images are final as were asked for, they are saved at the
/// next message that brings an image or tells no error.
pub proof fn law_enough_images_end_it(s: SessionV, msg: JsonV, now: u128)
    requires
        generation::finals(state_after(s, EventV::Message(msg), now).images) >= s.n,
        generation::field_text(msg, "type"@) != "error"@,
        generation::field_text(msg, "type"@) == "image"@ ==> generation::image_in(msg) is Some,
    ensures
        next_after(s, EventV::Message(msg), now) == NextV::Save,
{
}

} // verus!
