//! Asking the upstream service to allow adult content for a token.
use vstd::prelude::*;
use vstd::string::*;
use vstd::utf8::*;

use crate::grok::grpc_web;
use crate::outside;
use crate::text;
use crate::text_map::TextMap;

verus! {

/// How the request for a token ended.
#[derive(Debug)]
pub struct NsfwResult {
    pub success: bool,
    pub http_status: u16,
    pub grpc_status: Option<i32>,
    pub grpc_message: Option<String>,
    pub error: Option<String>,
}

/// The mathematical value of an [`NsfwResult`].
pub struct ResultV {
    pub success: bool,
    pub http_status: u16,
    pub grpc_status: Option<i32>,
    pub grpc_message: Option<Seq<char>>,
    pub error: Option<Seq<char>>,
}

impl View for NsfwResult {
    type V = ResultV;

    open spec fn view(&self) -> ResultV {
        ResultV {
            success: self.success,
            http_status: self.http_status,
            grpc_status: self.grpc_status,
            grpc_message: text::text_opt(self.grpc_message),
            error: text::text_opt(self.error),
        }
    }
}

impl Clone for NsfwResult {
    fn clone(&self) -> (r: NsfwResult)
        ensures
            r@ == self@,
    {
        NsfwResult {
            success: self.success,
            http_status: self.http_status,
            grpc_status: self.grpc_status,
            grpc_message: text::copy_opt(&self.grpc_message),
            error: text::copy_opt(&self.error),
        }
    }
}

/// A token without the one `sso=` that it may be written with.
pub open spec fn raw_token(token: Seq<char>) -> Seq<char> {
    match text::after_prefix(token, "sso="@) {
        Some(r) => r,
        None => token,
    }
}

/// A token without the one `sso=` that it may be written with.
pub fn strip_sso(token: &str) -> (r: String)
    ensures
        r@ == raw_token(token@),
{
    match text::strip_prefix(token, "sso=") {
        Some(r) => r,
        None => String::from_str(token),
    }
}

/// The cookie with which a token is shown, with the clearance `cf` where there is one.
pub open spec fn cookie_of(token: Seq<char>, cf: Seq<char>) -> Seq<char> {
    let raw = raw_token(token);
    let plain = "sso="@ + raw + "; sso-rw="@ + raw;
    if text::trim_of(cf).len() == 0 {
        plain
    } else {
        plain + "; cf_clearance="@ + text::trim_of(cf)
    }
}

/// The cookie with which a token is shown.
pub fn build_cookie(token: &str, cf: &str) -> (r: String)
    ensures
        r@ == cookie_of(token@, cf@),
{
    let raw = strip_sso(token);
    let mut out = text::joined3("sso=", raw.as_str(), "; sso-rw=");
    out.append(raw.as_str());
    let clearance = text::trim(cf);
    if !text::is_empty(clearance.as_str()) {
        out.append("; cf_clearance=");
        out.append(clearance.as_str());
    }
    out
}

/// The headers of the request, in order.
pub open spec fn header_list(token: Seq<char>, cf: Seq<char>) -> Seq<(Seq<char>, Seq<char>)> {
    seq![
        ("accept"@, "*/*"@),
        ("content-type"@, "application/grpc-web+proto"@),
        ("origin"@, "https://grok.com"@),
        ("referer"@, "https://grok.com/"@),
        ("user-agent"@, "Mozilla/5.0 (Macintosh; Intel Mac OS X 10_15_7) AppleWebKit/537.36"@),
        ("x-grpc-web"@, "1"@),
        ("x-user-agent"@, "connect-es/2.1.1"@),
        ("cookie"@, cookie_of(token, cf)),
    ]
}

/// Asks the upstream service to allow adult content.
#[derive(Clone, Copy, Debug)]
pub struct NsfwService;

impl NsfwService {
    /// The headers of the request.
    pub fn build_headers(&self, token: &str, cf: &str) -> (r: Vec<(String, String)>)
        ensures
            text::pair_texts(r@) == header_list(token@, cf@),
    {
        let mut out: Vec<(String, String)> = Vec::new();
        text::push_pair(&mut out, "accept", "*/*");
        text::push_pair(&mut out, "content-type", "application/grpc-web+proto");
        text::push_pair(&mut out, "origin", "https://grok.com");
        text::push_pair(&mut out, "referer", "https://grok.com/");
        text::push_pair(
            &mut out,
            "user-agent",
            "Mozilla/5.0 (Macintosh; Intel Mac OS X 10_15_7) AppleWebKit/537.36",
        );
        text::push_pair(&mut out, "x-grpc-web", "1");
        text::push_pair(&mut out, "x-user-agent", "connect-es/2.1.1");
        text::push_pair(&mut out, "cookie", build_cookie(token, cf).as_str());
        proof {
            assert(text::pair_texts(out@) =~= header_list(token@, cf@));
        }
        out
    }
}

/// The two features that are switched on, as a message.
pub open spec fn features() -> Seq<u8> {
    seq![0x0Au8, 0x04u8, 0x08u8, 0x01u8, 0x10u8, 0x01u8]
}

/// The request message: the features, and under field `number` a field mask
/// with the one path `path`. A path that is too long for a one-byte length is left out.
pub open spec fn payload_of(number: u8, path: Seq<char>) -> Seq<u8> {
    let p = encode_utf8(path);
    if p.len() > 253 {
        features()
    } else {
        features() + seq![
            (number * 8 % 256 + 2) as u8,
            (p.len() + 2) as u8,
            0x0Au8,
            p.len() as u8,
        ] + p
    }
}

/// The request message.
pub fn build_proto_payload(mask_field_number: u8, mask_path: &str) -> (r: Vec<u8>)
    ensures
        r@ == payload_of(mask_field_number, mask_path@),
{
    let mut out: Vec<u8> = Vec::new();
    out.push(0x0A);
    out.push(0x04);
    out.push(0x08);
    out.push(0x01);
    out.push(0x10);
    out.push(0x01);
    proof {
        assert(out@ =~= features());
    }
    let path_bytes = mask_path.as_bytes();
    if path_bytes.len() > 253 {
        return out;
    }
    let tag: u8 = (mask_field_number << 3) | 0x02;
    proof {
        assert((mask_field_number << 3) | 0x02 == (mask_field_number as u32 * 8 % 256 + 2) as u8)
            by (bit_vector);
    }
    out.push(tag);
    out.push((path_bytes.len() + 2) as u8);
    out.push(0x0A);
    out.push(path_bytes.len() as u8);
    out.extend_from_slice(path_bytes);
    proof {
        assert(out@ =~= payload_of(mask_field_number, mask_path@));
    }
    out
}

/// How many characters of a body are shown in an error.
pub const PREVIEW_LENGTH: usize = 220;

/// The beginning of a body as it is shown in an error.
pub open spec fn preview_of(bytes: Seq<u8>) -> Seq<char> {
    text::escaped_of(text::head_of(outside::lossy_of(bytes), PREVIEW_LENGTH as nat))
}

/// The beginning of a body as it is shown in an error.
pub fn body_preview(bytes: &Vec<u8>) -> (r: String)
    ensures
        r@ == preview_of(bytes@),
{
    let all = outside::from_utf8_lossy(bytes.as_slice());
    text::escaped_head(all.as_str(), PREVIEW_LENGTH)
}

/// The name of a browser without what is written differently from place to place.
pub open spec fn plain_emulation(s: Seq<char>) -> Seq<char> {
    text::dropping_of(text::ascii_lower_of(text::trim_of(s)), '-', '_', ' ')
}

/// The name of a browser without what is written differently from place to place.
pub fn normalize_emulation(input: &str) -> (r: String)
    ensures
        r@ == plain_emulation(input@),
{
    let trimmed = text::trim(input);
    let lower = text::to_ascii_lowercase(trimmed.as_str());
    text::dropping(lower.as_str(), '-', '_', ' ')
}

/// Whether two names mean one browser.
pub fn emulation_equals(left: &str, right: &str) -> (r: bool)
    ensures
        r == (plain_emulation(left@) == plain_emulation(right@)),
{
    let a = normalize_emulation(left);
    let b = normalize_emulation(right);
    text::same_text(a.as_str(), b.as_str())
}

/// `s` holds `word`, whatever the case of its ASCII letters.
pub open spec fn mentions(s: Seq<char>, word: Seq<char>) -> bool {
    text::occurs(text::ascii_lower_of(s), word)
}

/// The text is about who may do what.
pub open spec fn auth_related(s: Seq<char>) -> bool {
    mentions(s, "unauthorized"@) || mentions(s, "forbidden"@) || mentions(s, "auth"@) || mentions(
        s,
        "permission"@,
    ) || mentions(s, "token"@)
}

/// The text says that the message could not be read.
pub open spec fn decode_error(s: Seq<char>) -> bool {
    mentions(s, "failed to decode protobuf"@) || mentions(s, "invalid wire type"@) || mentions(
        s,
        "updateuserfeaturecontrolsrequest.features"@,
    )
}

/// The text says that there is no field mask.
pub open spec fn mask_missing(s: Seq<char>) -> bool {
    mentions(s, "field mask must be provided"@)
}

/// The text says that the path of the field mask is wrong.
pub open spec fn bad_mask_path(s: Seq<char>) -> bool {
    mentions(s, "invalid field mask"@) || mentions(s, "fieldmask"@) || mentions(
        s,
        "cannot find field"@,
    ) || mentions(s, "unknown path"@)
}

/// The text says that the features are not accepted.
pub open spec fn features_rejected(s: Seq<char>) -> bool {
    mentions(s, "invalid field: features"@) || mentions(s, "field mask must be provided"@)
        || mentions(s, "invalid field"@)
}

/// Whether the text is about who may do what.
pub fn is_auth_related(s: &str) -> (r: bool)
    ensures
        r == auth_related(s@),
{
    let lower = text::to_ascii_lowercase(s);
    let l: &str = lower.as_str();
    text::contains(l, "unauthorized") || text::contains(l, "forbidden") || text::contains(l, "auth")
        || text::contains(l, "permission") || text::contains(l, "token")
}

/// Whether the text says that the message could not be read.
pub fn is_payload_decode_error(s: &str) -> (r: bool)
    ensures
        r == decode_error(s@),
{
    let lower = text::to_ascii_lowercase(s);
    let l: &str = lower.as_str();
    text::contains(l, "failed to decode protobuf") || text::contains(l, "invalid wire type")
        || text::contains(l, "updateuserfeaturecontrolsrequest.features")
}

/// Whether the text says that there is no field mask.
pub fn is_field_mask_missing(s: &str) -> (r: bool)
    ensures
        r == mask_missing(s@),
{
    let lower = text::to_ascii_lowercase(s);
    text::contains(lower.as_str(), "field mask must be provided")
}

/// Whether the text says that the path of the field mask is wrong.
pub fn is_invalid_field_mask_path(s: &str) -> (r: bool)
    ensures
        r == bad_mask_path(s@),
{
    let lower = text::to_ascii_lowercase(s);
    let l: &str = lower.as_str();
    text::contains(l, "invalid field mask") || text::contains(l, "fieldmask") || text::contains(
        l,
        "cannot find field",
    ) || text::contains(l, "unknown path")
}

/// Whether the text says that the features are not accepted.
pub fn is_rejected_features_field(s: &str) -> (r: bool)
    ensures
        r == features_rejected(s@),
{
    let lower = text::to_ascii_lowercase(s);
    let l: &str = lower.as_str();
    text::contains(l, "invalid field: features") || text::contains(l, "field mask must be provided")
        || text::contains(l, "invalid field")
}

/// The message or the error of a result says something.
pub open spec fn says(r: ResultV, what: spec_fn(Seq<char>) -> bool) -> bool {
    (r.grpc_message is Some && what(r.grpc_message->0)) || (r.error is Some && what(r.error->0))
}

/// The field mask goes under another field.
pub open spec fn wants_other_field(r: ResultV) -> bool {
    !r.success && r.grpc_status == Some(3i32) && says(r, |s: Seq<char>| mask_missing(s))
}

/// The field mask gets another path.
pub open spec fn wants_other_path(r: ResultV) -> bool {
    !r.success && r.grpc_status == Some(3i32) && says(r, |s: Seq<char>| bad_mask_path(s))
}

/// The age is verified instead.
pub open spec fn wants_age(r: ResultV) -> bool {
    !r.success && r.grpc_status == Some(3i32) && says(r, |s: Seq<char>| features_rejected(s))
}

/// The message gets its old form.
pub open spec fn wants_legacy(r: ResultV) -> bool {
    !r.success && r.grpc_status == Some(13i32) && says(r, |s: Seq<char>| decode_error(s))
}

/// Another browser is tried.
pub open spec fn wants_fallback(r: ResultV) -> bool {
    !r.success && (r.http_status == 401 || r.http_status == 403 || r.grpc_status == Some(7i32)
        || r.grpc_status == Some(16i32) || says(r, |s: Seq<char>| auth_related(s)))
}

/// Whether the field mask goes under another field.
pub fn should_retry_with_alternate_mask_field(result: &NsfwResult) -> (r: bool)
    ensures
        r == wants_other_field(result@),
{
    if result.success || !is_code(result.grpc_status, 3) {
        return false;
    }
    if let Some(m) = &result.grpc_message {
        if is_field_mask_missing(m.as_str()) {
            return true;
        }
    }
    match &result.error {
        Some(e) => is_field_mask_missing(e.as_str()),
        None => false,
    }
}

/// Whether the field mask gets another path.
pub fn should_retry_with_alternate_mask_path(result: &NsfwResult) -> (r: bool)
    ensures
        r == wants_other_path(result@),
{
    if result.success || !is_code(result.grpc_status, 3) {
        return false;
    }
    if let Some(m) = &result.grpc_message {
        if is_invalid_field_mask_path(m.as_str()) {
            return true;
        }
    }
    match &result.error {
        Some(e) => is_invalid_field_mask_path(e.as_str()),
        None => false,
    }
}

/// Whether the age is verified instead.
pub fn should_retry_with_age_verify(result: &NsfwResult) -> (r: bool)
    ensures
        r == wants_age(result@),
{
    if result.success || !is_code(result.grpc_status, 3) {
        return false;
    }
    if let Some(m) = &result.grpc_message {
        if is_rejected_features_field(m.as_str()) {
            return true;
        }
    }
    match &result.error {
        Some(e) => is_rejected_features_field(e.as_str()),
        None => false,
    }
}

/// Whether the message gets its old form.
pub fn should_retry_with_legacy_payload(result: &NsfwResult) -> (r: bool)
    ensures
        r == wants_legacy(result@),
{
    if result.success || !is_code(result.grpc_status, 13) {
        return false;
    }
    if let Some(m) = &result.grpc_message {
        if is_payload_decode_error(m.as_str()) {
            return true;
        }
    }
    match &result.error {
        Some(e) => is_payload_decode_error(e.as_str()),
        None => false,
    }
}

/// Whether another browser is tried.
pub fn should_retry_with_fallback(result: &NsfwResult) -> (r: bool)
    ensures
        r == wants_fallback(result@),
{
    if result.success {
        return false;
    }
    if result.http_status == 401 || result.http_status == 403 {
        return true;
    }
    if is_code(result.grpc_status, 7) || is_code(result.grpc_status, 16) {
        return true;
    }
    if let Some(m) = &result.grpc_message {
        if is_auth_related(m.as_str()) {
            return true;
        }
    }
    match &result.error {
        Some(e) => is_auth_related(e.as_str()),
        None => false,
    }
}

fn is_code(status: Option<i32>, code: i32) -> (r: bool)
    ensures
        r == (status == Some(code)),
{
    match status {
        Some(c) => c == code,
        None => false,
    }
}

/// How an HTTP failure is put in words.
pub open spec fn http_error(status: u16, content_type: Seq<char>, preview: Seq<char>) -> Seq<char> {
    "HTTP "@ + text::decimal_of(status as nat) + "; content-type: "@ + content_type + "; body: "@
        + preview
}

fn http_error_text(status: u16, content_type: &str, preview: &str) -> (r: String)
    ensures
        r@ == http_error(status, content_type@, preview@),
{
    let mut out = text::joined3("HTTP ", text::decimal(status as u64).as_str(), "; content-type: ");
    out.append(content_type);
    out.append("; body: ");
    out.append(preview);
    out
}

/// The trailers of an answer; where they lack a status or a message, the
/// headers give it, and the message is percent-decoded where that can be done.
pub open spec fn answer_trailers(
    body: Seq<u8>,
    content_type: Seq<char>,
    status_header: Option<Seq<char>>,
    message_header: Option<Seq<char>>,
) -> Map<Seq<char>, Seq<char>> {
    let frames = grpc_web::frames_from(grpc_web::binary_of(body, Some(content_type)), 0);
    grpc_web::filled(
        grpc_web::filled(grpc_web::all_trailers(frames), "grpc-status"@, status_header),
        "grpc-message"@,
        match message_header {
            Some(m) => Some(
                match outside::percent_decoded(m) {
                    Some(d) => d,
                    None => m,
                },
            ),
            None => None,
        },
    )
}

/// The result of an answer with HTTP status 200. An answer without a status
/// code counts as success.
pub open spec fn grpc_result(
    trailers: Map<Seq<char>, Seq<char>>,
    preview: Seq<char>,
) -> ResultV {
    let code = grpc_web::code_in(trailers);
    let message = grpc_web::value_or_empty(trailers, "grpc-message"@);
    let success = code == -1 || code == 0;
    ResultV {
        success,
        http_status: 200,
        grpc_status: Some(code),
        grpc_message: if message.len() == 0 {
            None
        } else {
            Some(message)
        },
        error: if success {
            None
        } else {
            Some(
                "gRPC error: code="@ + text::signed_of(code as int) + ", message="@ + message
                    + ", body="@ + preview,
            )
        },
    }
}

/// The result of an answer with another HTTP status than 200.
pub open spec fn failed_result(
    status: u16,
    content_type: Seq<char>,
    status_header: Option<Seq<char>>,
    message_header: Option<Seq<char>>,
    preview: Seq<char>,
) -> ResultV {
    ResultV {
        success: false,
        http_status: status,
        grpc_status: match status_header {
            Some(s) => text::i32_of(s),
            None => None,
        },
        grpc_message: message_header,
        error: Some(http_error(status, content_type, preview)),
    }
}

/// The result of an answer.
pub open spec fn result_of(
    status: u16,
    content_type: Seq<char>,
    status_header: Option<Seq<char>>,
    message_header: Option<Seq<char>>,
    body: Seq<u8>,
) -> ResultV {
    if status != 200 {
        failed_result(status, content_type, status_header, message_header, preview_of(body))
    } else {
        grpc_result(
            answer_trailers(body, content_type, status_header, message_header),
            preview_of(body),
        )
    }
}

/// The result of an answer with another HTTP status than 200.
pub fn http_failure(
    status: u16,
    content_type: &str,
    status_header: &Option<String>,
    message_header: &Option<String>,
    preview: &str,
) -> (r: NsfwResult)
    ensures
        r@ == failed_result(
            status,
            content_type@,
            text::text_opt(*status_header),
            text::text_opt(*message_header),
            preview@,
        ),
{
    let grpc_status = match status_header {
        Some(s) => text::parse_i32(s.as_str()),
        None => None,
    };
    NsfwResult {
        success: false,
        http_status: status,
        grpc_status,
        grpc_message: text::copy_opt(message_header),
        error: Some(http_error_text(status, content_type, preview)),
    }
}

/// The result of an answer with HTTP status 200 and these trailers.
pub fn read_trailers(trailers: &TextMap, preview: &str) -> (r: NsfwResult)
    ensures
        r@ == grpc_result(trailers@, preview@),
{
    let grpc = grpc_web::get_grpc_status(trailers);
    let success = grpc.code == -1 || grpc.ok();
    let grpc_message = if text::is_empty(grpc.message.as_str()) {
        None
    } else {
        Some(grpc.message.clone())
    };
    let error = if success {
        None
    } else {
        let mut out = text::joined3(
            "gRPC error: code=",
            text::signed_decimal(grpc.code as i64).as_str(),
            ", message=",
        );
        out.append(grpc.message.as_str());
        out.append(", body=");
        out.append(preview);
        Some(out)
    };
    NsfwResult { success, http_status: 200, grpc_status: Some(grpc.code), grpc_message, error }
}

/// The result of an answer.
pub fn read_answer(
    status: u16,
    content_type: &str,
    status_header: &Option<String>,
    message_header: &Option<String>,
    body: &Vec<u8>,
) -> (r: NsfwResult)
    ensures
        r@ == result_of(
            status,
            content_type@,
            text::text_opt(*status_header),
            text::text_opt(*message_header),
            body@,
        ),
{
    let preview = body_preview(body);
    if status != 200 {
        return http_failure(status, content_type, status_header, message_header, preview.as_str());
    }
    let kind = Some(String::from_str(content_type));
    let parsed = grpc_web::parse_grpc_web_response(body, &kind, &None, &None);
    let mut trailers = parsed.1;
    if let Some(s) = status_header {
        trailers.insert_missing("grpc-status", s.clone());
    }
    if let Some(m) = message_header {
        let decoded = match outside::percent_decode(m.as_str()) {
            Some(d) => d,
            None => m.clone(),
        };
        trailers.insert_missing("grpc-message", decoded);
    }
    read_trailers(&trailers, preview.as_str())
}

/// The result of verifying the age.
pub open spec fn age_result(status: u16, content_type: Seq<char>, preview: Seq<char>) -> ResultV {
    if status == 200 {
        ResultV {
            success: true,
            http_status: 200,
            grpc_status: Some(0i32),
            grpc_message: Some("fallback age verify success"@),
            error: None,
        }
    } else {
        ResultV {
            success: false,
            http_status: status,
            grpc_status: Some(3i32),
            grpc_message: Some("age verify fallback failed"@),
            error: Some(http_error(status, content_type, preview)),
        }
    }
}

/// The result of verifying the age.
pub fn read_age_answer(status: u16, content_type: &str, preview: &str) -> (r: NsfwResult)
    ensures
        r@ == age_result(status, content_type@, preview@),
{
    if status == 200 {
        NsfwResult {
            success: true,
            http_status: 200,
            grpc_status: Some(0),
            grpc_message: Some(String::from_str("fallback age verify success")),
            error: None,
        }
    } else {
        NsfwResult {
            success: false,
            http_status: status,
            grpc_status: Some(3),
            grpc_message: Some(String::from_str("age verify fallback failed")),
            error: Some(http_error_text(status, content_type, preview)),
        }
    }
}

/// A request that got no answer.
pub fn unanswered(error: &str) -> (r: NsfwResult)
    ensures
        r@ == (ResultV {
            success: false,
            http_status: 0,
            grpc_status: None,
            grpc_message: None,
            error: Some(error@),
        }),
{
    NsfwResult {
        success: false,
        http_status: 0,
        grpc_status: None,
        grpc_message: None,
        error: Some(String::from_str(error)),
    }
}

/// The ways in which the upstream service is asked, one after the other.
#[derive(Clone, Copy, Debug, PartialEq, Eq, Structural)]
pub enum Way {
    /// With a field mask under the second field.
    Primary,
    /// With a field mask under the third field.
    OtherField,
    /// With another path in the field mask.
    OtherPath,
    /// With a message in its old form.
    Legacy,
    /// By verifying the age.
    Age,
}

/// How far along the ways this one is.
pub open spec fn rank(w: Way) -> int {
    match w {
        Way::Primary => 0,
        Way::OtherField => 1,
        Way::OtherPath => 2,
        Way::Legacy => 3,
        Way::Age => 4,
    }
}

/// The way to try after `after` ended with `r`.
pub open spec fn next_way(after: Way, r: ResultV) -> Option<Way> {
    if rank(after) < 1 && wants_other_field(r) {
        Some(Way::OtherField)
    } else if rank(after) < 2 && wants_other_path(r) {
        Some(Way::OtherPath)
    } else if rank(after) < 3 && wants_legacy(r) {
        Some(Way::Legacy)
    } else if rank(after) < 4 && wants_age(r) {
        Some(Way::Age)
    } else {
        None
    }
}

/// The message that is sent on a way; the age is verified without one.
pub open spec fn message_for(w: Way) -> Option<Seq<u8>> {
    match w {
        Way::Primary => Some(payload_of(2, "features"@)),
        Way::OtherField => Some(payload_of(3, "features"@)),
        Way::OtherPath => Some(payload_of(2, "features.enabled"@)),
        Way::Legacy => Some(seq![0x08u8, 0x01u8, 0x10u8, 0x01u8]),
        Way::Age => None,
    }
}

/// What an error says, or that nothing is known of it.
pub open spec fn error_or_unknown(e: Option<Seq<char>>) -> Seq<char> {
    match e {
        Some(s) => s,
        None => "unknown"@,
    }
}

fn known_error(e: &Option<String>) -> (r: String)
    ensures
        r@ == error_or_unknown(text::text_opt(*e)),
{
    match e {
        Some(s) => s.clone(),
        None => String::from_str("unknown"),
    }
}

/// How the failures of a way and of what came before it are put in words.
pub open spec fn both_failed(w: Way, before: Seq<char>, now: Seq<char>) -> Seq<char> {
    match w {
        Way::OtherField => "primary payload failed: "@ + before + "; alternate mask field failed: "@
            + now,
        Way::OtherPath => "previous payload failed: "@ + before + "; alternate mask path failed: "@
            + now,
        Way::Legacy => "previous payload failed: "@ + before + "; legacy payload failed: "@ + now,
        Way::Age => "gRPC update failed: "@ + before + "; age-verify fallback failed: "@ + now,
        Way::Primary => now,
    }
}

/// `r`, which ended the way `w`, with the failure before it told too.
pub open spec fn joined_result(w: Way, before: Option<ResultV>, r: ResultV) -> ResultV {
    if r.success || before is None || w == Way::Primary {
        r
    } else {
        ResultV {
            error: Some(
                both_failed(w, error_or_unknown(before->0.error), error_or_unknown(r.error)),
            ),
            ..r
        }
    }
}

/// The course of asking: the way that is being tried, and how the one before it ended.
#[derive(Debug)]
pub struct EnableFlow {
    pub way: Way,
    pub before: Option<NsfwResult>,
}

/// What to do next.
#[derive(Debug)]
pub enum FlowStep {
    /// Send this message.
    Send(Vec<u8>),
    /// Verify the age.
    VerifyAge,
    /// That is the result.
    Done(NsfwResult),
}

/// The value of an optional result.
pub open spec fn opt_result(o: Option<NsfwResult>) -> Option<ResultV> {
    match o {
        Some(r) => Some(r@),
        None => None,
    }
}

/// `step` tries the way `w`.
pub open spec fn tries(step: FlowStep, w: Way) -> bool {
    match step {
        FlowStep::Send(m) => message_for(w) == Some(m@),
        FlowStep::VerifyAge => message_for(w) is None,
        FlowStep::Done(_) => false,
    }
}

impl EnableFlow {
    /// Nothing was asked yet.
    pub fn new() -> (r: EnableFlow)
        ensures
            r.way == Way::Primary,
            r.before is None,
    {
        EnableFlow { way: Way::Primary, before: None }
    }

    /// What is to be asked on the present way.
    pub fn ask(&self) -> (r: FlowStep)
        ensures
            tries(r, self.way),
    {
        match self.way {
            Way::Primary => FlowStep::Send(build_proto_payload(2, "features")),
            Way::OtherField => FlowStep::Send(build_proto_payload(3, "features")),
            Way::OtherPath => FlowStep::Send(build_proto_payload(2, "features.enabled")),
            Way::Legacy => {
                let mut m: Vec<u8> = Vec::new();
                m.push(0x08);
                m.push(0x01);
                m.push(0x10);
                m.push(0x01);
                proof {
                    assert(m@ =~= seq![0x08u8, 0x01u8, 0x10u8, 0x01u8]);
                }
                FlowStep::Send(m)
            },
            Way::Age => FlowStep::VerifyAge,
        }
    }

    fn choose_next(&self, r: &NsfwResult) -> (w: Option<Way>)
        ensures
            w == next_way(self.way, r@),
    {
        let at = self.way;
        if at == Way::Primary && should_retry_with_alternate_mask_field(r) {
            return Some(Way::OtherField);
        }
        if (at == Way::Primary || at == Way::OtherField) && should_retry_with_alternate_mask_path(
            r,
        ) {
            return Some(Way::OtherPath);
        }
        if at != Way::Legacy && at != Way::Age && should_retry_with_legacy_payload(r) {
            return Some(Way::Legacy);
        }
        if at != Way::Age && should_retry_with_age_verify(r) {
            return Some(Way::Age);
        }
        None
    }

    fn tell_both(&self, r: NsfwResult) -> (t: NsfwResult)
        ensures
            t@ == joined_result(self.way, opt_result(self.before), r@),
    {
        if r.success || self.way == Way::Primary {
            return r;
        }
        match &self.before {
            Some(b) => {
                let before = known_error(&b.error);
                let now = known_error(&r.error);
                let mut out = match self.way {
                    Way::OtherField => text::joined3(
                        "primary payload failed: ",
                        before.as_str(),
                        "; alternate mask field failed: ",
                    ),
                    Way::OtherPath => text::joined3(
                        "previous payload failed: ",
                        before.as_str(),
                        "; alternate mask path failed: ",
                    ),
                    Way::Legacy => text::joined3(
                        "previous payload failed: ",
                        before.as_str(),
                        "; legacy payload failed: ",
                    ),
                    _ => text::joined3(
                        "gRPC update failed: ",
                        before.as_str(),
                        "; age-verify fallback failed: ",
                    ),
                };
                out.append(now.as_str());
                let mut t = r;
                t.error = Some(out);
                t
            },
            None => r,
        }
    }

    /// Takes note of how the present way ended.
    pub fn take(&mut self, result: NsfwResult) -> (r: FlowStep)
        ensures
            ({
                let t = joined_result(old(self).way, opt_result(old(self).before), result@);
                match next_way(old(self).way, t) {
                    Some(w) => {
                        &&& final(self).way == w
                        &&& opt_result(final(self).before) == Some(t)
                        &&& tries(r, w)
                    },
                    None => r matches FlowStep::Done(d) && d@ == t && *final(self) == *old(self),
                }
            }),
    {
        let t = self.tell_both(result);
        match self.choose_next(&t) {
            Some(w) => {
                self.way = w;
                self.before = Some(t);
                self.ask()
            },
            None => FlowStep::Done(t),
        }
    }
}

/// Every way is tried at most once, in order, so that asking ends after five
/// answers at most.
pub proof fn law_ways_advance(after: Way, r: ResultV)
    ensures
        next_way(after, r) is Some ==> rank(after) < rank(next_way(after, r)->0) <= 4,
        next_way(Way::Age, r) is None,
{
}

/// A success ends the asking at once.
pub proof fn law_success_ends_asking(w: Way, before: Option<ResultV>, r: ResultV)
    requires
        r.success,
    ensures
        joined_result(w, before, r) == r,
        next_way(w, r) is None,
        !wants_fallback(r),
{
}

/// The browser that is tried after another one was refused.
pub const FALLBACK_EMULATION: &'static str = "chrome_116";

/// Whether another browser is tried after `first`, where `preferred` was tried.
pub fn falls_back(first: &NsfwResult, preferred: &str) -> (r: bool)
    ensures
        r == (wants_fallback(first@) && plain_emulation(preferred@) != plain_emulation(
            FALLBACK_EMULATION@,
        )),
{
    should_retry_with_fallback(first) && !emulation_equals(preferred, FALLBACK_EMULATION)
}

/// The result where another browser was tried too.
pub open spec fn after_fallback(first: ResultV, second: ResultV) -> ResultV {
    if second.success {
        second
    } else {
        ResultV {
            error: Some(
                "primary attempt failed: "@ + error_or_unknown(first.error)
                    + "; fallback attempt failed: "@ + error_or_unknown(second.error),
            ),
            ..second
        }
    }
}

/// The result where another browser was tried too.
pub fn combine_attempts(first: &NsfwResult, second: NsfwResult) -> (r: NsfwResult)
    ensures
        r@ == after_fallback(first@, second@),
{
    if second.success {
        return second;
    }
    let a = known_error(&first.error);
    let b = known_error(&second.error);
    let mut out = text::joined3(
        "primary attempt failed: ",
        a.as_str(),
        "; fallback attempt failed: ",
    );
    out.append(b.as_str());
    let mut r = second;
    r.error = Some(out);
    r
}

/// The browser that is asked for, where one is.
pub fn preferred_emulation(configured: &str) -> (r: Option<String>)
    ensures
        match r {
            Some(s) => s@ == text::trim_of(configured@) && s@.len() > 0,
            None => text::trim_of(configured@).len() == 0,
        },
{
    let trimmed = text::trim(configured);
    if text::is_empty(trimmed.as_str()) {
        None
    } else {
        Some(trimmed)
    }
}

} // verus!
