//! Asking for a video.
use vstd::prelude::*;
use vstd::string::*;

use crate::grok::headers;
use crate::json;
use crate::json::{Fields, Json, JsonV, Number};
use crate::server::exceptions;
use crate::server::exceptions::ApiError;
use crate::text;

verus! {

/// Asks for videos.
#[derive(Clone, Copy, Debug)]
pub struct VideoService;

impl VideoService {
    /// The headers of the requests, under a fresh request identifier.
    pub fn build_headers(&self, token: &str, cf: &str, referer: &str, dynamic: bool) -> (r: Vec<
        (String, String),
    >)
        ensures
            headers::is_browser_call(text::pair_texts(r@), token@, cf@, referer@, dynamic),
    {
        headers::browser_headers(token, cf, referer, dynamic)
    }
}

/// How lively a video is made.
pub open spec fn mode_of(preset: Seq<char>) -> Seq<char> {
    if preset == "fun"@ {
        "--mode=extremely-crazy"@
    } else if preset == "normal"@ {
        "--mode=normal"@
    } else if preset == "spicy"@ {
        "--mode=extremely-spicy-or-crazy"@
    } else {
        "--mode=custom"@
    }
}

/// How lively a video is made.
pub fn mode_flag(preset: &str) -> (r: &'static str)
    ensures
        r@ == mode_of(preset@),
{
    if text::same_text(preset, "fun") {
        "--mode=extremely-crazy"
    } else if text::same_text(preset, "normal") {
        "--mode=normal"
    } else if text::same_text(preset, "spicy") {
        "--mode=extremely-spicy-or-crazy"
    } else {
        "--mode=custom"
    }
}

/// What a post is made of.
#[derive(Clone, Copy, Debug, PartialEq, Eq, Structural)]
pub enum PostKind {
    /// A prompt.
    Video,
    /// The URL of an image.
    Image,
}

/// What is sent to make a post.
pub open spec fn post_json(kind: PostKind, content: Seq<char>) -> JsonV {
    JsonV::Object(
        match kind {
            PostKind::Video => seq![
                ("mediaType"@, JsonV::Str("MEDIA_POST_TYPE_VIDEO"@)),
                ("prompt"@, JsonV::Str(content)),
            ],
            PostKind::Image => seq![
                ("mediaType"@, JsonV::Str("MEDIA_POST_TYPE_IMAGE"@)),
                ("mediaUrl"@, JsonV::Str(content)),
            ],
        },
    )
}

/// What is sent to make a post.
pub fn post_payload(kind: PostKind, content: &str) -> (r: Json)
    ensures
        r@ == post_json(kind, content@),
{
    let mut f = Fields::new();
    match kind {
        PostKind::Video => {
            f.add("mediaType", json::text_value("MEDIA_POST_TYPE_VIDEO"));
            f.add("prompt", json::text_value(content));
        },
        PostKind::Image => {
            f.add("mediaType", json::text_value("MEDIA_POST_TYPE_IMAGE"));
            f.add("mediaUrl", json::text_value(content));
        },
    }
    proof {
        assert(f@ =~= post_json(kind, content@)->Object_0);
    }
    f.object()
}

/// The name of the post that an answer tells, or an empty text.
pub fn post_id(value: &Json) -> (r: String)
    ensures
        r@ == text::or_empty(json::text_in(json::field_in(value@.field("post"@), "id"@))),
{
    text::owned_or_empty(json::str_in(json::get_in(value.get("post"), "id")))
}

/// How the video is made.
pub open spec fn config_json(
    post_id: Seq<char>,
    aspect_ratio: Seq<char>,
    video_length: i32,
    resolution: Seq<char>,
) -> JsonV {
    JsonV::Object(
        seq![
            ("parentPostId"@, JsonV::Str(post_id)),
            ("aspectRatio"@, JsonV::Str(aspect_ratio)),
            ("videoLength"@, JsonV::Number(Number::of_int(video_length as i64))),
            ("videoResolution"@, JsonV::Str(resolution)),
        ],
    )
}

/// An object with one field.
pub open spec fn nested(key: Seq<char>, value: JsonV) -> JsonV {
    JsonV::Object(seq![(key, value)])
}

fn nest(key: &str, value: Json) -> (r: Json)
    ensures
        r@ == nested(key@, value@),
{
    let mut f = Fields::new();
    f.add(key, value);
    proof {
        assert(f@ =~= nested(key@, value@)->Object_0);
    }
    f.object()
}

/// What is sent to make a video.
pub open spec fn video_json(
    prompt: Seq<char>,
    post_id: Seq<char>,
    aspect_ratio: Seq<char>,
    video_length: i32,
    resolution: Seq<char>,
    preset: Seq<char>,
) -> JsonV {
    JsonV::Object(
        seq![
            ("temporary"@, JsonV::Bool(true)),
            ("modelName"@, JsonV::Str("grok-3"@)),
            ("message"@, JsonV::Str(prompt + " "@ + mode_of(preset))),
            ("toolOverrides"@, nested("videoGen"@, JsonV::Bool(true))),
            ("enableSideBySide"@, JsonV::Bool(true)),
            (
                "responseMetadata"@,
                JsonV::Object(
                    seq![
                        ("experiments"@, JsonV::Array(Seq::empty())),
                        (
                            "modelConfigOverride"@,
                            nested(
                                "modelMap"@,
                                nested(
                                    "videoGenModelConfig"@,
                                    config_json(post_id, aspect_ratio, video_length, resolution),
                                ),
                            ),
                        ),
                    ],
                ),
            ),
        ],
    )
}

/// What is sent to make a video.
pub fn build_payload(
    prompt: &str,
    post_id: &str,
    aspect_ratio: &str,
    video_length: i32,
    resolution: &str,
    preset: &str,
) -> (r: Json)
    ensures
        r@ == video_json(
            prompt@,
            post_id@,
            aspect_ratio@,
            video_length,
            resolution@,
            preset@,
        ),
{
    let ghost want = video_json(
        prompt@,
        post_id@,
        aspect_ratio@,
        video_length,
        resolution@,
        preset@,
    );
    let mut c = Fields::new();
    c.add("parentPostId", json::text_value(post_id));
    c.add("aspectRatio", json::text_value(aspect_ratio));
    c.add("videoLength", json::int_value(video_length as i64));
    c.add("videoResolution", json::text_value(resolution));
    proof {
        assert(c@ =~= config_json(
            post_id@,
            aspect_ratio@,
            video_length,
            resolution@,
        )->Object_0);
    }
    let none: Vec<Json> = Vec::new();
    proof {
        assert(json::models(none@) =~= Seq::empty());
    }
    let mut m = Fields::new();
    m.add("experiments", json::array(none));
    m.add("modelConfigOverride", nest("modelMap", nest("videoGenModelConfig", c.object())));
    proof {
        assert(m@ =~= want->Object_0[5].1->Object_0);
    }
    let message = text::joined3(prompt, " ", mode_flag(preset));
    let mut f = Fields::new();
    f.add("temporary", Json::Bool(true));
    f.add("modelName", json::text_value("grok-3"));
    f.add("message", json::text_value(message.as_str()));
    f.add("toolOverrides", nest("videoGen", Json::Bool(true)));
    f.add("enableSideBySide", Json::Bool(true));
    f.add("responseMetadata", m.object());
    proof {
        assert(f@ =~= want->Object_0);
    }
    f.object()
}

/// Whether thinking is shown, where the request says so.
pub open spec fn thinking_of(thinking: Option<Seq<char>>) -> Option<bool> {
    if thinking == Some("enabled"@) {
        Some(true)
    } else if thinking == Some("disabled"@) {
        Some(false)
    } else {
        None
    }
}

/// Whether thinking is shown, where the request says so.
pub fn thinking_choice(thinking: &Option<String>) -> (r: Option<bool>)
    ensures
        r == thinking_of(text::text_opt(*thinking)),
{
    match thinking {
        Some(s) => if text::same_text(s.as_str(), "enabled") {
            proof {
                reveal_strlit("enabled");
                reveal_strlit("disabled");
            }
            Some(true)
        } else if text::same_text(s.as_str(), "disabled") {
            Some(false)
        } else {
            None
        },
        None => None,
    }
}

/// The first attachment of the kind `image`, from `i` on.
pub open spec fn image_from(attachments: Seq<(Seq<char>, Seq<char>)>, i: int) -> Option<Seq<char>>
    decreases attachments.len() - i,
{
    if i < 0 || i >= attachments.len() {
        None
    } else if attachments[i].0 == "image"@ {
        Some(attachments[i].1)
    } else {
        image_from(attachments, i + 1)
    }
}

/// The image that a video is made from: the first attachment of that kind.
pub fn first_image(attachments: &Vec<(String, String)>) -> (r: Option<String>)
    ensures
        text::text_opt(r) == image_from(text::pair_texts(attachments@), 0),
{
    let ghost all = text::pair_texts(attachments@);
    let n: usize = attachments.len();
    let mut i: usize = 0;
    while i < n
        invariant
            n == attachments@.len(),
            i <= n,
            all == text::pair_texts(attachments@),
            image_from(all, 0) == image_from(all, i as int),
        decreases n - i,
    {
        proof {
            assert(all[i as int] == (attachments@[i as int].0@, attachments@[i as int].1@));
        }
        if text::same_text(attachments[i].0.as_str(), "image") {
            return Some(attachments[i].1.clone());
        }
        i += 1;
    }
    None
}

/// Where an uploaded file is found.
pub fn uploaded_url(file_uri: &str) -> (r: String)
    ensures
        r@ == "https://assets.grok.com/"@ + file_uri@,
{
    text::joined("https://assets.grok.com/", file_uri)
}

/// The error where the upstream service answers with another status than 200.
pub fn status_failure(status: u16, content_type: &str, preview: &str) -> (r: ApiError)
    ensures
        r@ == exceptions::upstream_of(
            "Media request failed: "@ + text::decimal_of(status as nat) + "; content-type: "@
                + content_type@ + "; body: "@ + preview@,
        ),
{
    let mut out = text::joined3(
        "Media request failed: ",
        text::decimal(status as u64).as_str(),
        "; content-type: ",
    );
    out.append(content_type);
    out.append("; body: ");
    out.append(preview);
    ApiError::upstream(out.as_str())
}

/// The error where the answer could not be parsed.
pub fn parse_failure(error: &str, content_type: &str, preview: &str) -> (r: ApiError)
    ensures
        r@ == exceptions::upstream_of(
            "Media parse error: "@ + error@ + "; content-type: "@ + content_type@ + "; body: "@
                + preview@,
        ),
{
    let mut out = text::joined3("Media parse error: ", error, "; content-type: ");
    out.append(content_type);
    out.append("; body: ");
    out.append(preview);
    ApiError::upstream(out.as_str())
}

} // verus!
