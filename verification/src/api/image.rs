//! Image generation requests: what is asked for, how it is split into calls,
//! and what is answered.
use vstd::prelude::*;
use vstd::string::*;

use crate::grok::imagine::generation;
use crate::grok::imagine::generation::{ImagineProgressEvent, ImagineResult, ProgressV, ResultV};
use crate::grok::processor::base;
use crate::json;
use crate::json::{Fields, Json, JsonV, Number};
use crate::outside;
use crate::server::exceptions;
use crate::server::exceptions::{ApiError, BodyV, ErrorV};
use crate::text;
use crate::token::models::EffortType;

verus! {

/// A request for images.
#[derive(Debug)]
pub struct ImageRequest {
    pub prompt: String,
    pub model: Option<String>,
    pub n: Option<u32>,
    pub size: Option<String>,
    pub quality: Option<String>,
    pub response_format: Option<String>,
    pub style: Option<String>,
    pub stream: Option<bool>,
}

/// How images are answered.
#[derive(Clone, Copy, Debug, PartialEq, Eq, Structural)]
pub enum ImageOutputFormat {
    Url,
    Base64,
}

/// The format that a name stands for.
pub open spec fn format_of(raw: Seq<char>) -> Option<ImageOutputFormat> {
    let name = text::ascii_lower_of(text::trim_of(raw));
    if name == "url"@ {
        Some(ImageOutputFormat::Url)
    } else if name == "base64"@ || name == "b64_json"@ {
        Some(ImageOutputFormat::Base64)
    } else {
        None
    }
}

impl ImageOutputFormat {
    /// The format that a name stands for.
    pub fn parse(raw: &str) -> (r: Option<ImageOutputFormat>)
        ensures
            r == format_of(raw@),
    {
        let trimmed = text::trim(raw);
        let name = text::to_ascii_lowercase(trimmed.as_str());
        if text::same_text(name.as_str(), "url") {
            Some(ImageOutputFormat::Url)
        } else if text::same_text(name.as_str(), "base64") || text::same_text(
            name.as_str(),
            "b64_json",
        ) {
            Some(ImageOutputFormat::Base64)
        } else {
            None
        }
    }

    /// Whether images are answered as data.
    pub fn is_base64(self) -> (r: bool)
        ensures
            r == (self == ImageOutputFormat::Base64),
    {
        match self {
            ImageOutputFormat::Base64 => true,
            ImageOutputFormat::Url => false,
        }
    }
}

/// A request that is refused for one of its parameters.
pub open spec fn bad_param(message: Seq<char>, param: Seq<char>) -> ErrorV {
    let e = exceptions::invalid_request_of(message);
    ErrorV { body: BodyV { param: Some(param), ..e.body }, ..e }
}

/// The format that a request asks for: the one that it names, or where it
/// names none the configured one, or where that is unknown the URL.
pub open spec fn format_for(
    response_format: Option<Seq<char>>,
    config_format: Seq<char>,
) -> Option<ImageOutputFormat> {
    if response_format is Some && text::trim_of(response_format->0).len() > 0 {
        format_of(text::trim_of(response_format->0))
    } else {
        match format_of(config_format) {
            Some(f) => Some(f),
            None => Some(ImageOutputFormat::Url),
        }
    }
}

/// The format that a request asks for.
pub fn resolve_image_output_format(
    response_format: &Option<String>,
    config_format: &str,
) -> (r: Result<ImageOutputFormat, ApiError>)
    ensures
        match r {
            Ok(f) => format_for(text::text_opt(*response_format), config_format@) == Some(f),
            Err(e) => format_for(text::text_opt(*response_format), config_format@) is None && e@
                == bad_param(
                "response_format must be one of: url, b64_json"@,
                "response_format"@,
            ),
        },
{
    if let Some(raw) = response_format {
        let name = text::trim(raw.as_str());
        if !text::is_empty(name.as_str()) {
            return match ImageOutputFormat::parse(name.as_str()) {
                Some(f) => Ok(f),
                None => Err(
                    ApiError::invalid_request(
                        "response_format must be one of: url, b64_json",
                    ).with_param("response_format"),
                ),
            };
        }
    }
    match ImageOutputFormat::parse(config_format) {
        Some(f) => Ok(f),
        None => Ok(ImageOutputFormat::Url),
    }
}

/// How a request is carried out.
#[derive(Debug)]
pub struct ImagePlan {
    pub model_id: String,
    pub n: u32,
    pub stream: bool,
    pub format: ImageOutputFormat,
}

/// The model that a request names, or the usual one.
pub open spec fn model_of(req: ImageRequest) -> Seq<char> {
    match req.model {
        Some(m) => m@,
        None => "grok-imagine-1.0"@,
    }
}

/// The model that a request names, or the usual one.
pub fn requested_model(req: &ImageRequest) -> (r: String)
    ensures
        r@ == model_of(*req),
{
    match &req.model {
        Some(m) => m.clone(),
        None => String::from_str("grok-imagine-1.0"),
    }
}

/// How many images are made: as many as are asked for, but at least one and at most ten.
pub open spec fn count_of(n: Option<u32>) -> u32 {
    match n {
        Some(k) => if k < 1 {
            1
        } else if k > 10 {
            10
        } else {
            k
        },
        None => 1,
    }
}

/// The request asks for a stream.
pub open spec fn streams(stream: Option<bool>) -> bool {
    stream == Some(true)
}

/// Why a request is refused, where it is. `supports_images` says whether the
/// model makes images, where it is known at all.
pub open spec fn refusal(
    req: ImageRequest,
    enabled: bool,
    config_format: Seq<char>,
    supports_images: Option<bool>,
) -> Option<ErrorV> {
    if !enabled {
        Some(exceptions::not_found_of("Endpoint disabled"@))
    } else if format_for(text::text_opt(req.response_format), config_format) is None {
        Some(
            bad_param("response_format must be one of: url, b64_json"@, "response_format"@),
        )
    } else if supports_images is None {
        Some(exceptions::invalid_request_of("The model does not exist"@))
    } else if supports_images == Some(false) {
        Some(
            exceptions::error_of(
                400,
                "The model `"@ + model_of(req) + "` is not supported for image generation."@,
                exceptions::ErrorType::InvalidRequestError,
                Some("model_not_supported"@),
            ),
        )
    } else if text::trim_of(req.prompt@).len() == 0 {
        Some(bad_param("Prompt cannot be empty"@, "prompt"@))
    } else if streams(req.stream) && count_of(req.n) > 2 {
        Some(bad_param("Streaming is only supported when n=1 or n=2"@, "stream"@))
    } else {
        None
    }
}

/// Checks a request and plans how it is carried out.
pub fn plan_image(
    req: &ImageRequest,
    enabled: bool,
    config_format: &str,
    supports_images: Option<bool>,
) -> (r: Result<ImagePlan, ApiError>)
    ensures
        match r {
            Ok(p) => {
                &&& refusal(*req, enabled, config_format@, supports_images) is None
                &&& p.model_id@ == model_of(*req)
                &&& p.n == count_of(req.n)
                &&& 1 <= p.n <= 10
                &&& req.n matches Some(k) ==> (1 <= k <= 10 ==> p.n == k)
                &&& p.stream == streams(req.stream)
                &&& format_for(text::text_opt(req.response_format), config_format@) == Some(
                    p.format,
                )
            },
            Err(e) => refusal(*req, enabled, config_format@, supports_images) == Some(e@),
        },
{
    if !enabled {
        return Err(ApiError::not_found("Endpoint disabled"));
    }
    let model_id = requested_model(req);
    let n: u32 = match req.n {
        Some(k) => if k < 1 {
            1
        } else if k > 10 {
            10
        } else {
            k
        },
        None => 1,
    };
    let stream = match req.stream {
        Some(s) => s,
        None => false,
    };
    let format = match resolve_image_output_format(&req.response_format, config_format) {
        Ok(f) => f,
        Err(e) => {
            return Err(e);
        },
    };
    match supports_images {
        Some(true) => {},
        Some(false) => {
            let words = text::joined3(
                "The model `",
                model_id.as_str(),
                "` is not supported for image generation.",
            );
            return Err(
                ApiError::invalid_request(words.as_str()).with_code("model_not_supported"),
            );
        },
        None => {
            return Err(ApiError::invalid_request("The model does not exist"));
        },
    }
    let prompt = text::trim(req.prompt.as_str());
    if text::is_empty(prompt.as_str()) {
        return Err(ApiError::invalid_request("Prompt cannot be empty").with_param("prompt"));
    }
    if stream && n > 2 {
        return Err(
            ApiError::invalid_request("Streaming is only supported when n=1 or n=2").with_param(
                "stream",
            ),
        );
    }
    Ok(ImagePlan { model_id, n, stream, format })
}

/// How many images the call at `k` makes of `n` that are made two at a time.
pub open spec fn count_at(n: int, k: int) -> int {
    if n - 2 * k >= 2 {
        2
    } else {
        1
    }
}

/// How many calls make `n` images.
pub open spec fn calls_for(n: int) -> int {
    (n + 1) / 2
}

/// How many images each of the calls makes that make `n` images together.
pub fn call_counts(n: usize) -> (r: Vec<usize>)
    requires
        n < usize::MAX,
    ensures
        r@.len() == calls_for(n as int),
        forall|k: int| 0 <= k < r@.len() ==> #[trigger] r@[k] == count_at(n as int, k),
{
    let calls: usize = (n + 1) / 2;
    let mut out: Vec<usize> = Vec::new();
    let mut k: usize = 0;
    while k < calls
        invariant
            n < usize::MAX,
            calls == (n + 1) / 2,
            k <= calls,
            out@.len() == k,
            forall|j: int| 0 <= j < k ==> #[trigger] out@[j] == count_at(n as int, j),
        decreases calls - k,
    {
        let left: usize = n - 2 * k;
        out.push(
            if left >= 2 {
                2
            } else {
                1
            },
        );
        k += 1;
    }
    out
}

/// The images that the first `k` calls make together.
pub open spec fn made_by(n: int, k: int) -> int
    decreases k,
{
    if k <= 0 {
        0
    } else {
        made_by(n, k - 1) + count_at(n, k - 1)
    }
}

/// The calls make exactly as many images together as are asked for, one or
/// two each.
pub proof fn law_calls_add_up(n: int)
    requires
        n >= 1,
    ensures
        made_by(n, calls_for(n)) == n,
        forall|k: int| 1 <= #[trigger] count_at(n, k) <= 2,
{
    lemma_made_by(n, calls_for(n));
}

proof fn lemma_made_by(n: int, k: int)
    requires
        n >= 1,
        0 <= k <= calls_for(n),
    ensures
        made_by(n, k) == if 2 * k <= n {
            2 * k
        } else {
            n
        },
    decreases k,
{
    if k > 0 {
        lemma_made_by(n, k - 1);
    }
}

/// How many images one call of the upstream service is asked for.
pub fn upstream_count(image_count: usize) -> (r: usize)
    ensures
        r == (if image_count < 1 {
            1
        } else if image_count > 2 {
            2
        } else {
            image_count
        }),
{
    if image_count < 1 {
        1
    } else if image_count > 2 {
        2
    } else {
        image_count
    }
}

/// What a model costs.
pub fn effort_for(high_cost: bool) -> (r: EffortType)
    ensures
        r == (if high_cost {
            EffortType::High
        } else {
            EffortType::Low
        }),
{
    if high_cost {
        EffortType::High
    } else {
        EffortType::Low
    }
}

/// What stands in the place of an image that is missing.
pub open spec fn missing_image(format: ImageOutputFormat) -> JsonV {
    JsonV::Object(
        seq![
            (
                if format == ImageOutputFormat::Base64 {
                    "b64_json"@
                } else {
                    "url"@
                },
                JsonV::Str("error"@),
            ),
        ],
    )
}

/// The first `n` images, with the missing ones filled in.
pub open spec fn filled_up(images: Seq<JsonV>, n: int, format: ImageOutputFormat) -> Seq<JsonV> {
    Seq::new(
        n as nat,
        |i: int|
            if i < images.len() {
                images[i]
            } else {
                missing_image(format)
            },
    )
}

fn missing_value(format: ImageOutputFormat) -> (r: Json)
    ensures
        r@ == missing_image(format),
{
    let mut f = Fields::new();
    match format {
        ImageOutputFormat::Base64 => {
            f.add("b64_json", json::text_value("error"));
        },
        ImageOutputFormat::Url => {
            f.add("url", json::text_value("error"));
        },
    }
    proof {
        assert(f@ =~= missing_image(format)->Object_0);
    }
    f.object()
}

/// `order` names every place below `n` once.
pub open spec fn is_order(order: Seq<usize>, n: nat) -> bool {
    order.len() == n && order.to_multiset() == places(n).to_multiset()
}

/// The places below `n`.
pub open spec fn places(n: nat) -> Seq<usize> {
    Seq::new(n, |i: int| i as usize)
}

/// The images in this order.
pub open spec fn in_order(images: Seq<JsonV>, order: Seq<usize>) -> Seq<JsonV> {
    Seq::new(order.len(), |i: int| images[order[i] as int])
}

/// The first `n` images in this order, with the missing ones filled in.
pub fn settle_in_order(
    images: &Vec<Json>,
    order: &Vec<usize>,
    n: usize,
    format: ImageOutputFormat,
) -> (r: Vec<Json>)
    requires
        forall|i: int| 0 <= i < order@.len() ==> #[trigger] order@[i] < images@.len(),
    ensures
        json::models(r@) == filled_up(
            in_order(json::models(images@), order@),
            n as int,
            format,
        ),
{
    let ghost want = filled_up(in_order(json::models(images@), order@), n as int, format);
    let mut out: Vec<Json> = Vec::new();
    let mut i: usize = 0;
    while i < n
        invariant
            i <= n,
            want == filled_up(in_order(json::models(images@), order@), n as int, format),
            forall|k: int| 0 <= k < order@.len() ==> #[trigger] order@[k] < images@.len(),
            json::models(out@) =~= want.take(i as int),
        decreases n - i,
    {
        let ghost held = out@;
        let item = if i < order.len() {
            images[order[i]].clone()
        } else {
            missing_value(format)
        };
        out.push(item);
        proof {
            assert(json::models(out@) =~= json::models(held).push(item@));
        }
        i += 1;
    }
    proof {
        assert(json::models(out@) =~= want);
    }
    out
}

/// Exactly `n` images: all that there are with the missing ones filled in, or
/// where there are more a random choice of them.
pub fn settle(images: &Vec<Json>, n: usize, format: ImageOutputFormat) -> (r: Vec<Json>)
    ensures
        r@.len() == n,
        images@.len() <= n ==> json::models(r@) == filled_up(
            json::models(images@),
            n as int,
            format,
        ),
        images@.len() > n ==> exists|order: Seq<usize>| #[trigger]
            is_order(order, images@.len()) && json::models(r@) == filled_up(
                in_order(json::models(images@), order),
                n as int,
                format,
            ),
{
    let mut order: Vec<usize> = Vec::new();
    let m: usize = images.len();
    let mut i: usize = 0;
    while i < m
        invariant
            m == images@.len(),
            i <= m,
            order@.len() == i,
            forall|k: int| 0 <= k < i ==> #[trigger] order@[k] == k,
        decreases m - i,
    {
        order.push(i);
        i += 1;
    }
    let ghost plain = order@;
    proof {
        assert(plain =~= places(images@.len()));
    }
    if m > n {
        outside::shuffle(&mut order);
        proof {
            assert forall|k: int| 0 <= k < order@.len() implies #[trigger] order@[k]
                < images@.len() by {
                vstd::seq_lib::to_multiset_contains(order@, order@[k]);
                vstd::seq_lib::to_multiset_contains(plain, order@[k]);
                assert(order@.contains(order@[k]));
                assert(plain.contains(order@[k]));
            }
            assert(is_order(order@, images@.len()));
        }
    }
    let r = settle_in_order(images, &order, n, format);
    proof {
        assert(json::models(r@).len() == n);
        if m <= n {
            assert(in_order(json::models(images@), order@) =~= json::models(images@));
        }
    }
    r
}

/// The answer with the images.
pub open spec fn images_json(created: i64, data: Seq<JsonV>) -> JsonV {
    JsonV::Object(
        seq![
            ("created"@, JsonV::Number(Number::of_int(created))),
            ("data"@, JsonV::Array(data)),
            (
                "usage"@,
                JsonV::Object(
                    seq![
                        ("prompt_tokens"@, JsonV::Number(Number::Unsigned(0))),
                        ("completion_tokens"@, JsonV::Number(Number::Unsigned(0))),
                        ("total_tokens"@, JsonV::Number(Number::Unsigned(0))),
                    ],
                ),
            ),
        ],
    )
}

/// The answer with the images, made at `created`.
pub fn images_answer(created: i64, images: Vec<Json>) -> (r: Json)
    ensures
        r@ == images_json(created, json::models(images@)),
{
    let ghost want = images_json(created, json::models(images@));
    let mut u = Fields::new();
    u.add("prompt_tokens", json::count_value(0));
    u.add("completion_tokens", json::count_value(0));
    u.add("total_tokens", json::count_value(0));
    proof {
        assert(u@ =~= want->Object_0[2].1->Object_0);
    }
    let mut f = Fields::new();
    f.add("created", json::int_value(created));
    f.add("data", json::array(images));
    f.add("usage", u.object());
    proof {
        assert(f@ =~= want->Object_0);
    }
    f.object()
}

/// The answer with the images, made now.
pub fn answer_now(images: Vec<Json>) -> (r: Json)
    ensures
        exists|created: i64| #[trigger]
            base::clock_second(created) && r@ == images_json(created, json::models(images@)),
{
    let created = base::now_ts();
    images_answer(created, images)
}

/// Why a request for adult images is refused, where it is.
pub open spec fn nsfw_refusal(
    req: ImageRequest,
    enabled: bool,
    nsfw_enabled: bool,
) -> Option<ErrorV> {
    if !enabled || !nsfw_enabled {
        Some(exceptions::not_found_of("Endpoint disabled"@))
    } else if text::trim_of(req.prompt@).len() == 0 {
        Some(bad_param("Prompt cannot be empty"@, "prompt"@))
    } else if req.n is Some && (req.n->0 == 0 || req.n->0 > 4) {
        Some(bad_param("n must be between 1 and 4"@, "n"@))
    } else {
        None
    }
}

/// How a request for adult images is carried out.
#[derive(Clone, Copy, Debug, PartialEq, Eq, Structural)]
pub struct NsfwPlan {
    pub stream: bool,
    pub return_base64: bool,
}

/// Checks a request for adult images and plans how it is carried out.
pub fn plan_image_nsfw(req: &ImageRequest, enabled: bool, nsfw_enabled: bool) -> (r: Result<
    NsfwPlan,
    ApiError,
>)
    ensures
        match r {
            Ok(p) => {
                &&& nsfw_refusal(*req, enabled, nsfw_enabled) is None
                &&& p.stream == streams(req.stream)
                &&& p.return_base64 == (text::text_opt(req.response_format) == Some("b64_json"@))
            },
            Err(e) => nsfw_refusal(*req, enabled, nsfw_enabled) == Some(e@),
        },
{
    if !enabled || !nsfw_enabled {
        return Err(ApiError::not_found("Endpoint disabled"));
    }
    let prompt = text::trim(req.prompt.as_str());
    if text::is_empty(prompt.as_str()) {
        return Err(ApiError::invalid_request("Prompt cannot be empty").with_param("prompt"));
    }
    if let Some(n) = req.n {
        if n == 0 || n > 4 {
            return Err(ApiError::invalid_request("n must be between 1 and 4").with_param("n"));
        }
    }
    let stream = match req.stream {
        Some(s) => s,
        None => false,
    };
    let return_base64 = match &req.response_format {
        Some(f) => text::same_text(f.as_str(), "b64_json"),
        None => false,
    };
    Ok(NsfwPlan { stream, return_base64 })
}

/// The event that tells how far an image is.
pub open spec fn progress_json(e: ProgressV) -> JsonV {
    JsonV::Object(
        seq![
            ("image_id"@, JsonV::Str(e.image_id)),
            ("stage"@, JsonV::Str(e.stage)),
            ("is_final"@, JsonV::Bool(e.is_final)),
            ("completed"@, JsonV::Number(Number::Unsigned(e.completed as u64))),
            ("total"@, JsonV::Number(Number::Unsigned(e.total as u64))),
            (
                "progress"@,
                JsonV::Str(
                    text::decimal_of(e.completed) + "/"@ + text::decimal_of(e.total as nat),
                ),
            ),
        ],
    )
}

/// The event that tells how far an image is.
pub fn progress_value(e: &ImagineProgressEvent) -> (r: Json)
    ensures
        r@ == progress_json(e@),
{
    let progress = text::joined3(
        text::decimal(e.completed as u64).as_str(),
        "/",
        text::decimal(e.total as u64).as_str(),
    );
    let mut f = Fields::new();
    f.add("image_id", json::text_value(e.image_id.as_str()));
    f.add("stage", json::text_value(e.stage.as_str()));
    f.add("is_final", Json::Bool(e.is_final));
    f.add("completed", json::count_value(e.completed));
    f.add("total", json::count_value(e.total));
    f.add("progress", json::text_value(progress.as_str()));
    proof {
        assert(f@ =~= progress_json(e@)->Object_0);
    }
    f.object()
}

/// Images under the field `key`.
pub open spec fn listed(key: Seq<char>, items: Seq<Seq<char>>) -> Seq<JsonV> {
    items.map_values(|s: Seq<char>| JsonV::Object(seq![(key, JsonV::Str(s))]))
}

fn list_images(key: &str, items: &Vec<String>) -> (r: Vec<Json>)
    ensures
        json::models(r@) == listed(key@, text::texts(items@)),
{
    let ghost want = listed(key@, text::texts(items@));
    let mut out: Vec<Json> = Vec::new();
    let n: usize = items.len();
    let mut i: usize = 0;
    while i < n
        invariant
            n == items@.len(),
            i <= n,
            want == listed(key@, text::texts(items@)),
            json::models(out@) =~= want.take(i as int),
        decreases n - i,
    {
        let ghost held = out@;
        let mut f = Fields::new();
        f.add(key, json::text_value(items[i].as_str()));
        proof {
            assert(f@ =~= seq![(key@, JsonV::Str(items@[i as int]@))]);
        }
        let item = f.object();
        out.push(item);
        proof {
            assert(json::models(out@) =~= json::models(held).push(item@));
        }
        i += 1;
    }
    proof {
        assert(json::models(out@) =~= want);
    }
    out
}

/// The images of a generation that is done.
pub open spec fn done_json(created: i64, data: Seq<JsonV>) -> JsonV {
    JsonV::Object(
        seq![
            ("created"@, JsonV::Number(Number::of_int(created))),
            ("data"@, JsonV::Array(data)),
        ],
    )
}

/// How the failure of a generation is put in words.
pub open spec fn failure_text(r: ResultV) -> Seq<char> {
    match r.error {
        Some(e) => e,
        None => "Image generation failed"@,
    }
}

fn failure_words(result: &ImagineResult) -> (r: String)
    ensures
        r@ == failure_text(result@),
{
    match &result.error {
        Some(e) => e.clone(),
        None => String::from_str("Image generation failed"),
    }
}

/// The last event of a streamed generation, made at `created`: its name and
/// what it tells.
pub fn final_event(result: &ImagineResult, created: i64) -> (r: (&'static str, Json))
    ensures
        result@.success ==> r.0@ == "complete"@ && r.1@ == done_json(
            created,
            listed("url"@, result@.urls),
        ),
        !result@.success ==> r.0@ == "error"@ && r.1@ == JsonV::Object(
            seq![("error"@, JsonV::Str(failure_text(result@)))],
        ),
{
    if result.success {
        ("complete", done_value(created, list_images("url", &result.urls)))
    } else {
        let mut f = Fields::new();
        f.add("error", json::text_value(failure_words(result).as_str()));
        proof {
            assert(f@ =~= seq![("error"@, JsonV::Str(failure_text(result@)))]);
        }
        ("error", f.object())
    }
}

fn done_value(created: i64, data: Vec<Json>) -> (r: Json)
    ensures
        r@ == done_json(created, json::models(data@)),
{
    let mut f = Fields::new();
    f.add("created", json::int_value(created));
    f.add("data", json::array(data));
    proof {
        assert(f@ =~= done_json(created, json::models(data@))->Object_0);
    }
    f.object()
}

/// The answer with the result of a generation, made at `created`.
pub fn generation_answer(result: &ImagineResult, return_base64: bool, created: i64) -> (r: Result<
    Json,
    ApiError,
>)
    ensures
        match r {
            Ok(j) => result@.success && j@ == done_json(
                created,
                if return_base64 {
                    listed("b64_json"@, result@.b64_list)
                } else {
                    listed("url"@, result@.urls)
                },
            ),
            Err(e) => !result@.success && e@ == (if result@.error_code == Some(
                "rate_limit_exceeded"@,
            ) {
                exceptions::rate_limit_of(failure_text(result@))
            } else {
                exceptions::server_of(failure_text(result@))
            }),
        },
{
    if !result.success {
        let words = failure_words(result);
        let limited = match &result.error_code {
            Some(c) => text::same_text(c.as_str(), "rate_limit_exceeded"),
            None => false,
        };
        if limited {
            return Err(ApiError::rate_limit(words.as_str()));
        }
        return Err(ApiError::server(words.as_str()));
    }
    let data = if return_base64 {
        list_images("b64_json", &result.b64_list)
    } else {
        list_images("url", &result.urls)
    };
    Ok(done_value(created, data))
}

/// The result of a generation whose task came to nothing.
pub fn lost_generation(error: &str) -> (r: ImagineResult)
    ensures
        r@ == generation::failure("generation_failed"@, "task join error: "@ + error@),
{
    let words = text::joined("task join error: ", error);
    ImagineResult::failed("generation_failed", words.as_str())
}

} // verus!
