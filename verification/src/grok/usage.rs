//! Asking for the quota that a token has left.
use vstd::prelude::*;
use vstd::string::*;

use crate::grok::headers;
use crate::json;
use crate::json::{Fields, Json, JsonV};
use crate::outside;
use crate::server::exceptions;
use crate::server::exceptions::{ApiError, ErrorV};
use crate::text;

verus! {

/// Asks for the quota that a token has left.
#[derive(Clone, Copy, Debug)]
pub struct UsageService;

impl UsageService {
    /// The headers of the request, under a fresh request identifier.
    pub fn build_headers(&self, token: &str, cf: &str, dynamic: bool) -> (r: Vec<
        (String, String),
    >)
        ensures
            headers::is_browser_call(
                text::pair_texts(r@),
                token@,
                cf@,
                "https://grok.com/"@,
                dynamic,
            ),
    {
        headers::browser_headers(token, cf, "https://grok.com/", dynamic)
    }
}

/// What is asked.
pub open spec fn request_json(model_name: Seq<char>) -> JsonV {
    JsonV::Object(
        seq![("requestKind"@, JsonV::Str("DEFAULT"@)), ("modelName"@, JsonV::Str(model_name))],
    )
}

/// What is asked.
pub fn request_payload(model_name: &str) -> (r: Json)
    ensures
        r@ == request_json(model_name@),
{
    let mut f = Fields::new();
    f.add("requestKind", json::text_value("DEFAULT"));
    f.add("modelName", json::text_value(model_name));
    proof {
        assert(f@ =~= request_json(model_name@)->Object_0);
    }
    f.object()
}

/// How many characters of a body are shown in an error.
pub const PREVIEW_LENGTH: usize = 200;

/// The beginning of a text as it is shown in an error.
pub open spec fn preview_of(s: Seq<char>) -> Seq<char> {
    text::escaped_of(text::head_of(s, PREVIEW_LENGTH as nat))
}

/// The beginning of a text as it is shown in an error.
pub fn body_preview(s: &str) -> (r: String)
    ensures
        r@ == preview_of(s@),
{
    text::escaped_head(s, PREVIEW_LENGTH)
}

/// `s` without the line that keeps other sites from running it.
pub open spec fn without_guard_line(s: Seq<char>) -> Seq<char> {
    if text::begins(s, ")]}'"@) {
        match text::first_of(s, "\n"@) {
            Some(i) => text::trim_start_of(s.skip(i + 1)),
            None => s,
        }
    } else {
        s
    }
}

/// `s` without the loops that keep other sites from running it.
pub open spec fn without_loops(s: Seq<char>) -> Seq<char> {
    if text::begins(s, "for (;;);"@) {
        text::trim_start_of(text::without_prefixes(s, "for (;;);"@))
    } else {
        s
    }
}

/// The JSON in a body, without byte order marks, guards and white space around it.
pub open spec fn json_text_of(raw: Seq<char>) -> Seq<char> {
    text::trim_of(
        without_loops(
            without_guard_line(text::trim_start_of(text::without_prefixes(raw, "\u{feff}"@))),
        ),
    )
}

/// The JSON in a body, without byte order marks, guards and white space around it.
pub fn normalize_json_text(raw: &str) -> (r: String)
    ensures
        r@ == json_text_of(raw@),
{
    proof {
        reveal_strlit("\u{feff}");
        reveal_strlit("for (;;);");
        reveal_strlit("\n");
    }
    let marked = text::trim_start_matches(raw, "\u{feff}");
    let mut s = text::trim_start(marked.as_str());
    if text::starts_with(s.as_str(), ")]}'") {
        proof {
            text::lemma_first_from(s@, "\n"@, 0);
        }
        if let Some(i) = text::find(s.as_str(), "\n") {
            let n: usize = s.as_str().unicode_len();
            let rest = text::slice_text(s.as_str(), i + 1, n);
            proof {
                assert(s@.subrange(i + 1, n as int) =~= s@.skip(i + 1));
            }
            s = text::trim_start(rest.as_str());
        }
    }
    if text::starts_with(s.as_str(), "for (;;);") {
        let rest = text::trim_start_matches(s.as_str(), "for (;;);");
        s = text::trim_start(rest.as_str());
    }
    text::trim(s.as_str())
}

/// Why an answer with this status is refused.
pub open spec fn status_error(
    status: u16,
    content_type: Seq<char>,
    body: Seq<char>,
) -> Seq<char> {
    "Failed to get usage stats: "@ + text::decimal_of(status as nat) + "; content-type: "@
        + content_type + "; body: "@ + preview_of(body)
}

/// The error for an answer with this body that is refused.
pub open spec fn refusal_of(status: u16, content_type: Seq<char>, body: Seq<char>) -> ErrorV {
    exceptions::upstream_of(
        if status != 200 {
            status_error(status, content_type, body)
        } else {
            "Usage parse error: empty response body; content-type: "@ + content_type
        },
    )
}

/// The JSON of an answer with this body, to be parsed.
pub fn read_text(status: u16, content_type: &str, whole: &str) -> (r: Result<String, ApiError>)
    ensures
        match r {
            Ok(s) => status == 200 && s@ == json_text_of(whole@) && s@.len() > 0,
            Err(e) => {
                &&& status != 200 || json_text_of(whole@).len() == 0
                &&& e@ == refusal_of(status, content_type@, whole@)
            },
        },
{
    if status != 200 {
        let mut out = text::joined3(
            "Failed to get usage stats: ",
            text::decimal(status as u64).as_str(),
            "; content-type: ",
        );
        out.append(content_type);
        out.append("; body: ");
        out.append(body_preview(whole).as_str());
        return Err(ApiError::upstream(out.as_str()));
    }
    let normalized = normalize_json_text(whole);
    if text::is_empty(normalized.as_str()) {
        let out = text::joined(
            "Usage parse error: empty response body; content-type: ",
            content_type,
        );
        return Err(ApiError::upstream(out.as_str()));
    }
    Ok(normalized)
}

/// The JSON of an answer, to be parsed.
pub fn read_answer(status: u16, content_type: &str, body: &Vec<u8>) -> (r: Result<String, ApiError>)
    ensures
        ({
            let whole = outside::lossy_of(body@);
            match r {
                Ok(s) => status == 200 && s@ == json_text_of(whole) && s@.len() > 0,
                Err(e) => {
                    &&& status != 200 || json_text_of(whole).len() == 0
                    &&& e@ == refusal_of(status, content_type@, whole)
                },
            }
        }),
{
    let whole = outside::from_utf8_lossy(body.as_slice());
    read_text(status, content_type, whole.as_str())
}

/// The body begins as compressed data does.
pub open spec fn looks_compressed(body: Seq<u8>) -> bool {
    body.len() >= 2 && body[0] == 0x1f && body[1] == 0x8b
}

/// The error where the JSON of an answer could not be parsed.
pub fn parse_failure(error: &str, content_type: &str, normalized: &str, body: &Vec<u8>) -> (r:
    ApiError)
    ensures
        r@ == exceptions::upstream_of(
            "Usage parse error: "@ + error@ + "; content-type: "@ + content_type@ + "; body: "@
                + preview_of(normalized@) + if looks_compressed(body@) {
                "; hint: upstream body still looks gzip-compressed"@
            } else {
                ""@
            },
        ),
{
    let mut out = text::joined3("Usage parse error: ", error, "; content-type: ");
    out.append(content_type);
    out.append("; body: ");
    out.append(body_preview(normalized).as_str());
    if body.len() >= 2 && body[0] == 0x1f && body[1] == 0x8b {
        out.append("; hint: upstream body still looks gzip-compressed");
    } else {
        out.append("");
    }
    ApiError::upstream(out.as_str())
}

} // verus!
