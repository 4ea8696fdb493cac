//! Generated images: streamed, and collected into a list.
use vstd::prelude::*;
use vstd::string::*;

use crate::grok::processor::base;
use crate::grok::processor::base::{BaseProcessor, Event, EventV};
use crate::grok::processor::chat;
use crate::json;
use crate::json::{Fields, Json, JsonV, Number};
use crate::outside;
use crate::text;

verus! {

/// An image as it is answered: by its data or by its URL.
#[derive(Debug)]
pub enum FinalImage {
    Base64(String),
    Url(String),
}

/// The mathematical value of a [`FinalImage`].
pub enum ImageV {
    Base64(Seq<char>),
    Url(Seq<char>),
}

impl View for FinalImage {
    type V = ImageV;

    open spec fn view(&self) -> ImageV {
        match self {
            FinalImage::Base64(s) => ImageV::Base64(s@),
            FinalImage::Url(s) => ImageV::Url(s@),
        }
    }
}

/// The values of a list of images.
pub open spec fn image_views(v: Seq<FinalImage>) -> Seq<ImageV> {
    v.map_values(|i: FinalImage| i@)
}

/// The field under which an image is answered.
pub open spec fn image_field(i: ImageV) -> (Seq<char>, JsonV) {
    match i {
        ImageV::Base64(s) => ("b64_json"@, JsonV::Str(s)),
        ImageV::Url(s) => ("url"@, JsonV::Str(s)),
    }
}

/// The data of a data URL: what follows the first comma.
pub open spec fn data_of(s: Seq<char>) -> Seq<char> {
    match text::first_of(s, ","@) {
        Some(i) => s.skip(i + 1),
        None => s,
    }
}

/// The data of a data URL.
pub fn data_part(s: &str) -> (r: String)
    ensures
        r@ == data_of(s@),
{
    proof {
        reveal_strlit(",");
        text::lemma_first_from(s@, ","@, 0);
    }
    match text::find(s, ",") {
        Some(i) => {
            let n: usize = s.unicode_len();
            proof {
                assert(s@.subrange(i + 1, n as int) =~= s@.skip(i + 1));
            }
            text::slice_text(s, i + 1, n)
        },
        None => String::from_str(s),
    }
}

/// The image of `url` as it is answered: where data is asked for, by that and
/// not at all where there is none, and otherwise by where it is found.
pub open spec fn image_for(
    app_url: Seq<char>,
    return_base64: bool,
    url: Seq<char>,
    encoded: Option<Seq<char>>,
) -> Option<ImageV> {
    if return_base64 {
        match encoded {
            Some(data) => Some(ImageV::Base64(data_of(data))),
            None => None,
        }
    } else {
        Some(ImageV::Url(base::link_of(app_url, "image"@, url)))
    }
}

/// The images of the URLs, in order, as they are answered.
pub open spec fn images_for(
    app_url: Seq<char>,
    return_base64: bool,
    urls: Seq<Seq<char>>,
    encoded: Seq<Option<Seq<char>>>,
) -> Seq<ImageV>
    decreases urls.len(),
{
    if urls.len() == 0 {
        Seq::empty()
    } else {
        let before = images_for(app_url, return_base64, urls.drop_last(), encoded);
        match image_for(app_url, return_base64, urls.last(), encoded[urls.len() - 1]) {
            Some(i) => before.push(i),
            None => before,
        }
    }
}

fn add_images_of(
    images: &mut Vec<FinalImage>,
    base: &BaseProcessor,
    return_base64: bool,
    urls: &Vec<String>,
    encoded: &Vec<Option<String>>,
)
    requires
        return_base64 ==> encoded@.len() == urls@.len(),
    ensures
        image_views(final(images)@) == image_views(old(images)@) + images_for(
            base.app_url@,
            return_base64,
            text::texts(urls@),
            text::text_opts(encoded@),
        ),
{
    let ghost start = image_views(images@);
    let ghost app_url = base.app_url@;
    let ghost all = text::texts(urls@);
    let ghost data = text::text_opts(encoded@);
    let n: usize = urls.len();
    let mut i: usize = 0;
    proof {
        assert(all.take(0) =~= Seq::empty());
        assert(start + images_for(app_url, return_base64, all.take(0), data) =~= start);
    }
    while i < n
        invariant
            n == urls@.len(),
            i <= n,
            return_base64 ==> encoded@.len() == n,
            app_url == base.app_url@,
            all == text::texts(urls@),
            data == text::text_opts(encoded@),
            image_views(images@) == start + images_for(
                app_url,
                return_base64,
                all.take(i as int),
                data,
            ),
        decreases n - i,
    {
        let ghost held = images@;
        proof {
            assert(all.take(i + 1).drop_last() =~= all.take(i as int));
            assert(all.take(i + 1).last() == urls@[i as int]@);
        }
        if return_base64 {
            if let Some(s) = &encoded[i] {
                images.push(FinalImage::Base64(data_part(s.as_str())));
                proof {
                    assert(image_views(images@) =~= image_views(held).push(
                        ImageV::Base64(data_of(s@)),
                    ));
                }
            }
        } else {
            let url = base.process_url(urls[i].as_str(), "image").url;
            let ghost link = url@;
            images.push(FinalImage::Url(url));
            proof {
                assert(image_views(images@) =~= image_views(held).push(ImageV::Url(link)));
            }
        }
        proof {
            assert(image_views(images@) =~= start + images_for(
                app_url,
                return_base64,
                all.take(i + 1),
                data,
            ));
        }
        i += 1;
    }
    proof {
        assert(all.take(i as int) =~= all);
    }
}

/// The URLs of the images that an event brings.
pub open spec fn event_urls(data: JsonV) -> Seq<Seq<char>> {
    match json::field_in(base::response_of(data), "modelResponse"@) {
        Some(mr) => base::gathered(mr, Seq::empty()),
        None => Seq::empty(),
    }
}

fn url_list(data: &Json) -> (r: Vec<String>)
    ensures
        text::texts(r@) == event_urls(data@),
{
    match json::get_in(base::response(data), "modelResponse") {
        Some(mr) => base::collect_image_urls(mr),
        None => {
            let none: Vec<String> = Vec::new();
            proof {
                assert(text::texts(none@) =~= Seq::empty());
            }
            none
        },
    }
}

/// Turns the events of an image generation into a stream of events.
#[derive(Debug)]
pub struct ImageStreamProcessor {
    pub base: BaseProcessor,
    pub n: usize,
    pub target_index: Option<usize>,
    pub return_base64: bool,
    pub final_images: Vec<FinalImage>,
}

/// What an event asks for.
#[derive(Debug)]
pub enum ImageStep {
    /// Send this as an event of the kind `image_generation.partial_image`.
    Partial(Json),
    /// Fetch the images of these URLs.
    Fetch(Vec<String>),
}

/// Whether the image at `index` is answered: where one image is asked for,
/// only the one that was picked.
pub open spec fn is_wanted(n: usize, target: Option<usize>, index: int) -> bool {
    n == 1 && target is Some ==> index == target->0
}

/// The index under which the image at `index` is answered.
pub open spec fn out_index(n: usize, index: usize) -> usize {
    if n == 1 {
        0
    } else {
        index
    }
}

/// The index of the image whose progress an event tells.
pub open spec fn progress_index(img: JsonV) -> usize {
    chat::int_or_zero(json::int_in(img.field("imageIndex"@))) as usize
}

/// The event that tells the progress of an image.
pub open spec fn partial_json(n: usize, return_base64: bool, img: JsonV) -> JsonV {
    JsonV::Object(
        seq![
            ("type"@, JsonV::Str("image_generation.partial_image"@)),
            (
                "index"@,
                JsonV::Number(Number::Unsigned(out_index(n, progress_index(img)) as u64)),
            ),
            (
                "progress"@,
                JsonV::Number(
                    Number::of_int(chat::int_or_zero(json::int_in(img.field("progress"@)))),
                ),
            ),
            (
                if return_base64 {
                    "b64_json"@
                } else {
                    "url"@
                },
                JsonV::Str(""@),
            ),
        ],
    )
}

/// A number that is told whatever the images are.
pub open spec fn fixed(n: u64) -> JsonV {
    JsonV::Number(Number::Unsigned(n))
}

/// The usage that is told with a finished image.
pub open spec fn usage_json() -> JsonV {
    JsonV::Object(
        seq![
            ("total_tokens"@, fixed(50)),
            ("input_tokens"@, fixed(25)),
            ("output_tokens"@, fixed(25)),
            (
                "input_tokens_details"@,
                JsonV::Object(seq![("text_tokens"@, fixed(5)), ("image_tokens"@, fixed(20))]),
            ),
        ],
    )
}

/// The event that tells a finished image.
pub open spec fn completed_json(index: usize, image: ImageV) -> JsonV {
    JsonV::Object(
        seq![
            ("type"@, JsonV::Str("image_generation.completed"@)),
            ("index"@, JsonV::Number(Number::Unsigned(index as u64))),
            ("usage"@, usage_json()),
            image_field(image),
        ],
    )
}

/// The events that tell the finished images, in order.
pub open spec fn completed_events(
    n: usize,
    target: Option<usize>,
    images: Seq<ImageV>,
) -> Seq<JsonV>
    decreases images.len(),
{
    if images.len() == 0 {
        Seq::empty()
    } else {
        let before = completed_events(n, target, images.drop_last());
        let index = images.len() - 1;
        if is_wanted(n, target, index) {
            before.push(completed_json(out_index(n, index as usize), images.last()))
        } else {
            before
        }
    }
}

fn usage_value() -> (r: Json)
    ensures
        r@ == usage_json(),
{
    let mut d = Fields::new();
    d.add("text_tokens", json::count_value(5));
    d.add("image_tokens", json::count_value(20));
    proof {
        assert(d@ =~= usage_json()->Object_0[3].1->Object_0);
    }
    let mut f = Fields::new();
    f.add("total_tokens", json::count_value(50));
    f.add("input_tokens", json::count_value(25));
    f.add("output_tokens", json::count_value(25));
    f.add("input_tokens_details", d.object());
    proof {
        assert(f@ =~= usage_json()->Object_0);
    }
    f.object()
}

impl ImageStreamProcessor {
    /// A reader for `n` images. Where one is asked for, chance picks which of
    /// the two that are made is answered.
    pub fn new(base: BaseProcessor, n: usize, return_base64: bool) -> (r: ImageStreamProcessor)
        ensures
            r.base == base,
            r.n == n,
            r.return_base64 == return_base64,
            r.final_images@.len() == 0,
            n == 1 ==> r.target_index == Some(0usize) || r.target_index == Some(1usize),
            n != 1 ==> r.target_index is None,
    {
        let target: usize = outside::random_usize() % 2;
        ImageStreamProcessor::picking(base, n, return_base64, target)
    }

    /// A reader for `n` images. Where one is asked for, the one at `target` is answered.
    pub fn picking(base: BaseProcessor, n: usize, return_base64: bool, target: usize) -> (r:
        ImageStreamProcessor)
        ensures
            r.base == base,
            r.n == n,
            r.return_base64 == return_base64,
            r.final_images@.len() == 0,
            r.target_index == (if n == 1 {
                Some(target)
            } else {
                None
            }),
    {
        let target_index = if n == 1 {
            Some(target)
        } else {
            None
        };
        ImageStreamProcessor { base, n, target_index, return_base64, final_images: Vec::new() }
    }

    fn wanted(&self, index: usize) -> (r: bool)
        ensures
            r == is_wanted(self.n, self.target_index, index as int),
    {
        if self.n == 1 {
            match self.target_index {
                Some(t) => index == t,
                None => true,
            }
        } else {
            true
        }
    }

    fn index_out(&self, index: usize) -> (r: usize)
        ensures
            r == out_index(self.n, index),
    {
        if self.n == 1 {
            0
        } else {
            index
        }
    }

    /// What an event asks for. The progress of an image that is not answered
    /// asks for nothing.
    pub fn read_event(&self, data: &Json) -> (r: Option<ImageStep>)
        ensures
            ({
                let img = chat::image_progress(base::response_of(data@));
                match r {
                    Some(ImageStep::Partial(p)) => {
                        &&& img is Some
                        &&& is_wanted(self.n, self.target_index, progress_index(img->0) as int)
                        &&& p@ == partial_json(self.n, self.return_base64, img->0)
                    },
                    Some(ImageStep::Fetch(urls)) => img is None && text::texts(urls@)
                        == event_urls(data@),
                    None => img is Some && !is_wanted(
                        self.n,
                        self.target_index,
                        progress_index(img->0) as int,
                    ),
                }
            }),
    {
        if let Some(img) = json::get_in(
            base::response(data),
            "streamingImageGenerationResponse",
        ) {
            let number: i64 = match img.get_i64("imageIndex") {
                Some(i) => i,
                None => 0,
            };
            let progress: i64 = match img.get_i64("progress") {
                Some(i) => i,
                None => 0,
            };
            let index: usize = number as usize;
            if !self.wanted(index) {
                return None;
            }
            let mut f = Fields::new();
            f.add("type", json::text_value("image_generation.partial_image"));
            f.add("index", json::count_value(self.index_out(index)));
            f.add("progress", json::int_value(progress));
            if self.return_base64 {
                f.add("b64_json", json::text_value(""));
            } else {
                f.add("url", json::text_value(""));
            }
            proof {
                assert(f@ =~= partial_json(self.n, self.return_base64, img@)->Object_0);
            }
            return Some(ImageStep::Partial(f.object()));
        }
        Some(ImageStep::Fetch(url_list(data)))
    }

    /// Adds the images of the URLs, where `encoded` holds the data that was
    /// asked for: one entry for each URL, and nothing where there was no answer.
    pub fn add_images(&mut self, urls: &Vec<String>, encoded: &Vec<Option<String>>)
        requires
            old(self).return_base64 ==> encoded@.len() == urls@.len(),
        ensures
            image_views(final(self).final_images@) == image_views(old(self).final_images@)
                + images_for(
                old(self).base.app_url@,
                old(self).return_base64,
                text::texts(urls@),
                text::text_opts(encoded@),
            ),
            final(self).n == old(self).n,
            final(self).target_index == old(self).target_index,
            final(self).return_base64 == old(self).return_base64,
            final(self).base == old(self).base,
    {
        add_images_of(&mut self.final_images, &self.base, self.return_base64, urls, encoded);
    }

    /// The events of the kind `image_generation.completed` with which the stream ends.
    pub fn finish(&self) -> (r: Vec<Json>)
        ensures
            json::models(r@) == completed_events(
                self.n,
                self.target_index,
                image_views(self.final_images@),
            ),
    {
        let ghost all = image_views(self.final_images@);
        let mut out: Vec<Json> = Vec::new();
        let m: usize = self.final_images.len();
        let mut i: usize = 0;
        proof {
            assert(all.take(0) =~= Seq::empty());
            assert(json::models(out@) =~= Seq::empty());
        }
        while i < m
            invariant
                m == self.final_images@.len(),
                i <= m,
                all == image_views(self.final_images@),
                json::models(out@) == completed_events(
                    self.n,
                    self.target_index,
                    all.take(i as int),
                ),
            decreases m - i,
        {
            proof {
                assert(all.take(i + 1).drop_last() =~= all.take(i as int));
                assert(all.take(i + 1).last() == self.final_images@[i as int]@);
            }
            if self.wanted(i) {
                let ghost held = out@;
                let event = completed_value(self.index_out(i), &self.final_images[i]);
                out.push(event);
                proof {
                    assert(json::models(out@) =~= json::models(held).push(event@));
                }
            }
            i += 1;
        }
        proof {
            assert(all.take(i as int) =~= all);
        }
        out
    }
}

/// An event of a stream: its name and what it tells.
#[derive(Debug)]
pub struct StreamEvent {
    pub name: &'static str,
    pub data: Json,
}

/// The mathematical value of a [`StreamEvent`].
pub struct StreamEventV {
    pub name: Seq<char>,
    pub data: JsonV,
}

impl View for StreamEvent {
    type V = StreamEventV;

    open spec fn view(&self) -> StreamEventV {
        StreamEventV { name: self.name@, data: self.data@ }
    }
}

/// The values of a list of events.
pub open spec fn stream_views(v: Seq<StreamEvent>) -> Seq<StreamEventV> {
    v.map_values(|e: StreamEvent| e@)
}

/// The events with which the progress of the images is told.
pub open spec fn partial_events(
    n: usize,
    target: Option<usize>,
    return_base64: bool,
    events: Seq<EventV>,
) -> Seq<StreamEventV>
    decreases events.len(),
{
    if events.len() == 0 {
        Seq::empty()
    } else {
        let before = partial_events(n, target, return_base64, events.drop_last());
        match chat::image_progress(base::response_of(events.last().data)) {
            Some(img) => if is_wanted(n, target, progress_index(img) as int) {
                before.push(
                    StreamEventV {
                        name: "image_generation.partial_image"@,
                        data: partial_json(n, return_base64, img),
                    },
                )
            } else {
                before
            },
            None => before,
        }
    }
}

/// The images that an event brings, as they are answered.
pub open spec fn event_images(app_url: Seq<char>, return_base64: bool, e: EventV) -> Seq<ImageV> {
    images_for(app_url, return_base64, event_urls(e.data), e.encoded)
}

/// There is an entry for each image of the event.
pub open spec fn is_resolved(e: EventV) -> bool {
    e.encoded.len() == event_urls(e.data).len()
}

/// The event tells the progress of an image.
pub open spec fn is_progress(e: EventV) -> bool {
    chat::image_progress(base::response_of(e.data)) is Some
}

/// The images of the events that tell no progress, as they are answered.
pub open spec fn final_images_of(
    app_url: Seq<char>,
    return_base64: bool,
    events: Seq<EventV>,
) -> Seq<ImageV>
    decreases events.len(),
{
    if events.len() == 0 {
        Seq::empty()
    } else {
        let before = final_images_of(app_url, return_base64, events.drop_last());
        if is_progress(events.last()) {
            before
        } else {
            before + event_images(app_url, return_base64, events.last())
        }
    }
}

/// The events with which the finished images are told.
pub open spec fn named_completed(data: Seq<JsonV>) -> Seq<StreamEventV> {
    data.map_values(
        |j: JsonV| StreamEventV { name: "image_generation.completed"@, data: j },
    )
}

impl ImageStreamProcessor {
    /// The whole stream for a generation whose events and images are all there.
    pub fn process(self, events: &Vec<Event>) -> (r: Vec<StreamEvent>)
        requires
            self.final_images@.len() == 0,
            self.return_base64 ==> forall|i: int|
                0 <= i < events@.len() ==> is_progress(#[trigger] events@[i]@) || is_resolved(
                    events@[i]@,
                ),
        ensures
            stream_views(r@) == partial_events(
                self.n,
                self.target_index,
                self.return_base64,
                base::event_views(events@),
            ) + named_completed(
                completed_events(
                    self.n,
                    self.target_index,
                    final_images_of(
                        self.base.app_url@,
                        self.return_base64,
                        base::event_views(events@),
                    ),
                ),
            ),
    {
        let ghost app_url = self.base.app_url@;
        let ghost all = base::event_views(events@);
        let mut me = self;
        let mut out: Vec<StreamEvent> = Vec::new();
        let n: usize = events.len();
        let mut i: usize = 0;
        proof {
            assert(all.take(0) =~= Seq::empty());
            assert(image_views(me.final_images@) =~= Seq::empty());
            assert(stream_views(out@) =~= Seq::empty());
        }
        while i < n
            invariant
                n == events@.len(),
                i <= n,
                all == base::event_views(events@),
                me.base.app_url@ == app_url,
                me.n == self.n,
                me.target_index == self.target_index,
                me.return_base64 == self.return_base64,
                self.return_base64 ==> forall|k: int|
                    0 <= k < events@.len() ==> is_progress(#[trigger] events@[k]@) || is_resolved(
                        events@[k]@,
                    ),
                image_views(me.final_images@) == final_images_of(
                    app_url,
                    self.return_base64,
                    all.take(i as int),
                ),
                stream_views(out@) == partial_events(
                    self.n,
                    self.target_index,
                    self.return_base64,
                    all.take(i as int),
                ),
            decreases n - i,
        {
            proof {
                assert(all.take(i + 1).drop_last() =~= all.take(i as int));
                assert(all.take(i + 1).last() == events@[i as int]@);
            }
            match me.read_event(&events[i].data) {
                Some(ImageStep::Partial(data)) => {
                    let ghost held = out@;
                    let event = StreamEvent { name: "image_generation.partial_image", data };
                    out.push(event);
                    proof {
                        assert(stream_views(out@) =~= stream_views(held).push(event@));
                    }
                },
                Some(ImageStep::Fetch(urls)) => {
                    proof {
                        assert(text::texts(urls@).len() == urls@.len());
                        assert(events@[i as int]@.encoded.len() == events@[i as int].encoded@.len());
                    }
                    me.add_images(&urls, &events[i].encoded);
                },
                None => {},
            }
            i += 1;
        }
        proof {
            assert(all.take(i as int) =~= all);
        }
        let ghost start = stream_views(out@);
        let done = me.finish();
        let ghost want = named_completed(json::models(done@));
        let m: usize = done.len();
        let mut k: usize = 0;
        proof {
            assert(start + want.take(0) =~= start);
        }
        while k < m
            invariant
                m == done@.len(),
                k <= m,
                want == named_completed(json::models(done@)),
                stream_views(out@) =~= start + want.take(k as int),
            decreases m - k,
        {
            let ghost held = out@;
            let event = StreamEvent { name: "image_generation.completed", data: done[k].clone() };
            out.push(event);
            proof {
                assert(stream_views(out@) =~= stream_views(held).push(event@));
                assert(want[k as int] == event@);
            }
            k += 1;
        }
        proof {
            assert(want.take(k as int) =~= want);
        }
        out
    }
}

fn completed_value(index: usize, image: &FinalImage) -> (r: Json)
    ensures
        r@ == completed_json(index, image@),
{
    let mut f = Fields::new();
    f.add("type", json::text_value("image_generation.completed"));
    f.add("index", json::count_value(index));
    f.add("usage", usage_value());
    match image {
        FinalImage::Base64(s) => {
            f.add("b64_json", json::text_value(s.as_str()));
        },
        FinalImage::Url(s) => {
            f.add("url", json::text_value(s.as_str()));
        },
    }
    proof {
        assert(f@ =~= completed_json(index, image@)->Object_0);
    }
    f.object()
}

/// Where several images are asked for, each is answered under its own index;
/// where one is asked for, the one that was picked is answered under index
/// zero, if it was made.
pub proof fn law_completed_images(n: usize, target: usize, images: Seq<ImageV>)
    requires
        images.len() <= usize::MAX,
    ensures
        n != 1 ==> completed_events(n, None, images) =~= Seq::new(
            images.len(),
            |i: int| completed_json(i as usize, images[i]),
        ),
        n == 1 ==> completed_events(n, Some(target), images) =~= (if target < images.len() {
            seq![completed_json(0, images[target as int])]
        } else {
            Seq::empty()
        }),
    decreases images.len(),
{
    if images.len() > 0 {
        law_completed_images(n, target, images.drop_last());
    }
}

/// Collects the images of a generation.
#[derive(Debug)]
pub struct ImageCollectProcessor {
    pub base: BaseProcessor,
    pub return_base64: bool,
    pub images: Vec<FinalImage>,
}

impl ImageCollectProcessor {
    /// A reader that has collected nothing yet.
    pub fn new(base: BaseProcessor, return_base64: bool) -> (r: ImageCollectProcessor)
        ensures
            r.base == base,
            r.return_base64 == return_base64,
            r.images@.len() == 0,
    {
        ImageCollectProcessor { base, return_base64, images: Vec::new() }
    }

    /// The URLs of the images that an event brings.
    pub fn image_urls(&self, data: &Json) -> (r: Vec<String>)
        ensures
            text::texts(r@) == event_urls(data@),
    {
        url_list(data)
    }

    /// Adds the images of the URLs, where `encoded` holds the data that was
    /// asked for: one entry for each URL, and nothing where there was no answer.
    pub fn add_images(&mut self, urls: &Vec<String>, encoded: &Vec<Option<String>>)
        requires
            old(self).return_base64 ==> encoded@.len() == urls@.len(),
        ensures
            image_views(final(self).images@) == image_views(old(self).images@) + images_for(
                old(self).base.app_url@,
                old(self).return_base64,
                text::texts(urls@),
                text::text_opts(encoded@),
            ),
            final(self).return_base64 == old(self).return_base64,
            final(self).base == old(self).base,
    {
        add_images_of(&mut self.images, &self.base, self.return_base64, urls, encoded);
    }

    /// The images as they are answered.
    pub fn finish(&self) -> (r: Vec<Json>)
        ensures
            json::models(r@) == images_json(image_views(self.images@)),
    {
        let ghost want = images_json(image_views(self.images@));
        let mut out: Vec<Json> = Vec::new();
        let n: usize = self.images.len();
        let mut i: usize = 0;
        while i < n
            invariant
                n == self.images@.len(),
                i <= n,
                want == images_json(image_views(self.images@)),
                json::models(out@) =~= want.take(i as int),
            decreases n - i,
        {
            let ghost held = out@;
            let item = image_value(&self.images[i]);
            out.push(item);
            proof {
                assert(json::models(out@) =~= json::models(held).push(item@));
            }
            i += 1;
        }
        proof {
            assert(json::models(out@) =~= want);
        }
        out
    }

    /// The images of a generation whose events and images are all there.
    pub fn process(self, events: &Vec<Event>) -> (r: Vec<Json>)
        requires
            self.images@.len() == 0,
            self.return_base64 ==> forall|i: int|
                0 <= i < events@.len() ==> is_resolved(#[trigger] events@[i]@),
        ensures
            json::models(r@) == images_json(
                images_of(self.base.app_url@, self.return_base64, base::event_views(events@)),
            ),
    {
        let ghost app_url = self.base.app_url@;
        let ghost all = base::event_views(events@);
        let mut me = self;
        let n: usize = events.len();
        let mut i: usize = 0;
        proof {
            assert(all.take(0) =~= Seq::empty());
            assert(image_views(me.images@) =~= Seq::empty());
        }
        while i < n
            invariant
                n == events@.len(),
                i <= n,
                all == base::event_views(events@),
                me.base.app_url@ == app_url,
                me.return_base64 == self.return_base64,
                self.return_base64 ==> forall|k: int|
                    0 <= k < events@.len() ==> is_resolved(#[trigger] events@[k]@),
                image_views(me.images@) == images_of(
                    app_url,
                    self.return_base64,
                    all.take(i as int),
                ),
            decreases n - i,
        {
            proof {
                assert(all.take(i + 1).drop_last() =~= all.take(i as int));
                assert(all.take(i + 1).last() == events@[i as int]@);
            }
            let urls = me.image_urls(&events[i].data);
            proof {
                assert(text::texts(urls@).len() == urls@.len());
                assert(self.return_base64 ==> is_resolved(events@[i as int]@));
                assert(events@[i as int]@.encoded.len() == events@[i as int].encoded@.len());
            }
            me.add_images(&urls, &events[i].encoded);
            i += 1;
        }
        proof {
            assert(all.take(i as int) =~= all);
        }
        me.finish()
    }
}

/// The images as they are answered.
pub open spec fn images_json(images: Seq<ImageV>) -> Seq<JsonV> {
    images.map_values(|i: ImageV| JsonV::Object(seq![image_field(i)]))
}

/// The images of the events, as they are answered.
pub open spec fn images_of(
    app_url: Seq<char>,
    return_base64: bool,
    events: Seq<EventV>,
) -> Seq<ImageV>
    decreases events.len(),
{
    if events.len() == 0 {
        Seq::empty()
    } else {
        images_of(app_url, return_base64, events.drop_last()) + event_images(
            app_url,
            return_base64,
            events.last(),
        )
    }
}

/// The URLs as images that are answered by where they are found.
pub open spec fn linked(app_url: Seq<char>, urls: Seq<Seq<char>>) -> Seq<ImageV> {
    urls.map_values(|url: Seq<char>| ImageV::Url(base::link_of(app_url, "image"@, url)))
}

/// The URLs of the images of the events.
pub open spec fn urls_of(events: Seq<EventV>) -> Seq<Seq<char>>
    decreases events.len(),
{
    if events.len() == 0 {
        Seq::empty()
    } else {
        urls_of(events.drop_last()) + event_urls(events.last().data)
    }
}

proof fn lemma_linked(app_url: Seq<char>, urls: Seq<Seq<char>>, encoded: Seq<Option<Seq<char>>>)
    ensures
        images_for(app_url, false, urls, encoded) == linked(app_url, urls),
    decreases urls.len(),
{
    if urls.len() > 0 {
        lemma_linked(app_url, urls.drop_last(), encoded);
    }
    assert(images_for(app_url, false, urls, encoded) =~= linked(app_url, urls));
}

/// Where no data is asked for, every image of the events is answered, in
/// order, by where it is found. A stream leaves the events out that tell a progress.
pub proof fn law_images_are_linked(app_url: Seq<char>, events: Seq<EventV>)
    ensures
        images_of(app_url, false, events) == linked(app_url, urls_of(events)),
        final_images_of(app_url, false, events) == linked(
            app_url,
            urls_of(events.filter(|e: EventV| !is_progress(e))),
        ),
    decreases events.len(),
{
    reveal(Seq::filter);
    let kept = |e: EventV| !is_progress(e);
    if events.len() > 0 {
        let before = events.drop_last();
        let urls = event_urls(events.last().data);
        law_images_are_linked(app_url, before);
        lemma_linked(app_url, urls, events.last().encoded);
        assert(linked(app_url, urls_of(before) + urls) =~= linked(app_url, urls_of(before))
            + linked(app_url, urls));
        if kept(events.last()) {
            let f = before.filter(kept);
            assert(events.filter(kept) =~= f.push(events.last()));
            assert(f.push(events.last()).drop_last() =~= f);
            assert(linked(app_url, urls_of(f) + urls) =~= linked(app_url, urls_of(f)) + linked(
                app_url,
                urls,
            ));
        }
    }
}

/// An image as JSON.
pub fn image_value(image: &FinalImage) -> (r: Json)
    ensures
        r@ == JsonV::Object(seq![image_field(image@)]),
{
    let mut f = Fields::new();
    match image {
        FinalImage::Base64(s) => {
            f.add("b64_json", json::text_value(s.as_str()));
        },
        FinalImage::Url(s) => {
            f.add("url", json::text_value(s.as_str()));
        },
    }
    proof {
        assert(f@ =~= seq![image_field(image@)]);
    }
    f.object()
}

} // verus!
