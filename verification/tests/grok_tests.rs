use base64::Engine;
use grok2api_appchat::grok::batch::{batches, positive};
use grok2api_appchat::grok::headers::{browser_cookie, browser_headers, headers_with};
use grok2api_appchat::grok::media;
use grok2api_appchat::grok::media::{PostKind, VideoService};
use grok2api_appchat::grok::nsfw;
use grok2api_appchat::grok::nsfw::{EnableFlow, FlowStep, NsfwResult, NsfwService, Way};
use grok2api_appchat::grok::retry::RetryContext;
use grok2api_appchat::grok::statsig::StatsigService;
use grok2api_appchat::grok::usage;
use grok2api_appchat::grok::usage::UsageService;
use grok2api_appchat::json;
use grok2api_appchat::json::{Json, Number};
use grok2api_appchat::text_map::TextMap;

fn conv(v: &serde_json::Value) -> Json {
    match v {
        serde_json::Value::Null => Json::Null,
        serde_json::Value::Bool(b) => Json::Bool(*b),
        serde_json::Value::Number(n) => Json::Number(if let Some(u) = n.as_u64() {
            Number::Unsigned(u)
        } else if let Some(i) = n.as_i64() {
            Number::Negative(i)
        } else {
            Number::Double(n.as_f64().unwrap().to_bits())
        }),
        serde_json::Value::String(s) => Json::Str(s.clone()),
        serde_json::Value::Array(a) => Json::Array(a.iter().map(conv).collect()),
        serde_json::Value::Object(m) => {
            Json::Object(m.iter().map(|(k, v)| (k.clone(), conv(v))).collect())
        }
    }
}

fn j(s: &str) -> Json {
    conv(&serde_json::from_str(s).unwrap())
}

fn same(a: &Json, b: &str) -> bool {
    json::equal(a, &j(b))
}

fn texts(v: &[&str]) -> Vec<String> {
    v.iter().map(|s| s.to_string()).collect()
}

fn find<'a>(headers: &'a [(String, String)], name: &str) -> &'a str {
    &headers.iter().find(|h| h.0 == name).unwrap().1
}

fn refused(grpc: i32, message: &str) -> NsfwResult {
    NsfwResult {
        success: false,
        http_status: 200,
        grpc_status: Some(grpc),
        grpc_message: Some(message.to_string()),
        error: Some(format!("e{grpc}")),
    }
}

fn enabled() -> NsfwResult {
    NsfwResult {
        success: true,
        http_status: 200,
        grpc_status: Some(0),
        grpc_message: None,
        error: None,
    }
}

#[test]
fn no_item_is_lost_in_batches() {
    let items = texts(&["a", "b", "c", "d", "e"]);
    let b = batches(&items, 2);
    assert_eq!(b, vec![texts(&["a", "b"]), texts(&["c", "d"]), texts(&["e"])]);
    assert_eq!(batches(&items, 0).len(), 5);
    assert!(batches(&vec![], 3).is_empty());
    assert_eq!((positive(0), positive(7)), (1, 7));
}

#[test]
fn calls_are_retried_for_some_codes_only() {
    let mut c = RetryContext::new(3, vec![401, 429]);
    assert!(c.should_retry(401));
    assert!(!c.should_retry(500));
    assert_eq!(c.note_failure(Some(429)), Some(2));
    assert_eq!(c.note_failure(Some(429)), Some(3));
    assert_eq!(c.note_failure(Some(429)), None);
    let mut c = RetryContext::new(3, vec![401]);
    assert_eq!(c.note_failure(None), None);
    assert_eq!(c.attempt, 0);
    assert_eq!(c.note_failure(Some(500)), None);
    assert_eq!(RetryContext::new(1, vec![401]).note_failure(Some(401)), None);
}

#[test]
fn a_statsig_id_is_a_fixed_text_where_it_is_not_dynamic() {
    let id = StatsigService::gen_id(false);
    assert_eq!(
        id,
        "ZTpUeXBlRXJyb3I6IENhbm5vdCByZWFkIHByb3BlcnRpZXMgb2YgdW5kZWZpbmVkIChyZWFkaW5nICdjaGlsZE5vZGVzJyk="
    );
}

#[test]
fn a_dynamic_statsig_id_encodes_a_message() {
    let mut null = 0;
    let mut seen: Vec<String> = Vec::new();
    for _ in 0..60 {
        let id = StatsigService::gen_id(true);
        let raw = base64::engine::general_purpose::STANDARD.decode(&id).unwrap();
        let text = String::from_utf8(raw).unwrap();
        if let Some(rest) =
            text.strip_prefix("e:TypeError: Cannot read properties of null (reading 'children[\"")
        {
            null += 1;
            assert_eq!(rest.len(), 5 + "\"]')".len());
            assert!(rest[..5].bytes().all(|b| b.is_ascii_lowercase() || b.is_ascii_digit()));
        } else {
            let rest = text
                .strip_prefix("e:TypeError: Cannot read properties of undefined (reading '")
                .unwrap();
            assert_eq!(rest.len(), 10 + "')".len());
            assert!(rest[..10].bytes().all(|b| b.is_ascii_lowercase()));
        }
        if !seen.contains(&id) {
            seen.push(id);
        }
    }
    assert!(null > 0 && null < 60);
    assert!(seen.len() > 50);
}

#[test]
fn random_words_have_the_asked_length() {
    assert_eq!(StatsigService::rand_str(0, true), "");
    assert_eq!(StatsigService::rand_str(33, true).len(), 33);
    assert!(StatsigService::rand_str(33, false).bytes().all(|b| b.is_ascii_lowercase()));
    assert_eq!(
        StatsigService::null_text("w"),
        "e:TypeError: Cannot read properties of null (reading 'children[\"w\"]')"
    );
    assert_eq!(
        StatsigService::undefined_text("w"),
        "e:TypeError: Cannot read properties of undefined (reading 'w')"
    );
}

#[test]
fn requests_look_like_those_of_a_browser() {
    assert_eq!(browser_cookie("sso=t", ""), "sso=t");
    assert_eq!(browser_cookie("t", "cf"), "sso=t;cf_clearance=cf");
    let h = headers_with("ref", "sid", "rid", "cookie");
    assert_eq!(h.len(), 23);
    assert_eq!(find(&h, "Referer"), "ref");
    assert_eq!(find(&h, "x-statsig-id"), "sid");
    assert_eq!(find(&h, "x-xai-request-id"), "rid");
    assert_eq!(find(&h, "Cookie"), "cookie");
    assert_eq!(find(&h, "Sec-Ch-Ua-Platform"), "\"Linux\"");
    let a = browser_headers("t", "", "r", false);
    let b = browser_headers("t", "", "r", false);
    assert_eq!(find(&a, "x-xai-request-id").len(), 36);
    assert_ne!(find(&a, "x-xai-request-id"), find(&b, "x-xai-request-id"));
    assert_eq!(find(&UsageService.build_headers("t", "", false), "Referer"), "https://grok.com/");
    let v = VideoService.build_headers("sso=t", "c", "https://grok.com/imagine", true);
    assert_eq!(find(&v, "Cookie"), "sso=t;cf_clearance=c");
}

#[test]
fn usage_is_asked_for_a_model() {
    assert!(same(
        &usage::request_payload("grok-3"),
        r#"{"requestKind":"DEFAULT","modelName":"grok-3"}"#
    ));
}

#[test]
fn guards_before_json_are_dropped() {
    assert_eq!(usage::normalize_json_text("\u{feff}\u{feff}  {} \n"), "{}");
    assert_eq!(usage::normalize_json_text(")]}'\n  {\"a\":1}"), "{\"a\":1}");
    assert_eq!(usage::normalize_json_text(")]}'"), ")]}'");
    assert_eq!(usage::normalize_json_text("for (;;);for (;;); {}"), "{}");
    assert_eq!(usage::normalize_json_text(")]}'\nfor (;;);[]"), "[]");
}

#[test]
fn a_usage_answer_is_read() {
    assert_eq!(usage::read_answer(200, "ct", &b" {} ".to_vec()).unwrap(), "{}");
    let e = usage::read_answer(200, "ct", &b" \n".to_vec()).unwrap_err();
    assert_eq!(e.text(), "Usage parse error: empty response body; content-type: ct");
    assert_eq!(e.status, 502);
    let e = usage::read_answer(429, "ct", &vec![b'a', 0xff, b'\n']).unwrap_err();
    assert_eq!(
        e.text(),
        "Failed to get usage stats: 429; content-type: ct; body: a\\u{fffd}\\n"
    );
    assert_eq!(usage::body_preview(&"x".repeat(300)).len(), 200);
    let e = usage::parse_failure("bad", "ct", "nor", &vec![0x1f, 0x8b, 1]);
    assert_eq!(
        e.text(),
        "Usage parse error: bad; content-type: ct; body: nor; hint: upstream body still looks gzip-compressed"
    );
    let e = usage::parse_failure("bad", "ct", "nor", &vec![0x1f]);
    assert_eq!(e.text(), "Usage parse error: bad; content-type: ct; body: nor");
}

#[test]
fn a_video_is_asked_for_in_a_post() {
    assert!(same(
        &media::post_payload(PostKind::Video, "p"),
        r#"{"mediaType":"MEDIA_POST_TYPE_VIDEO","prompt":"p"}"#
    ));
    assert!(same(
        &media::post_payload(PostKind::Image, "u"),
        r#"{"mediaType":"MEDIA_POST_TYPE_IMAGE","mediaUrl":"u"}"#
    ));
    assert_eq!(media::post_id(&j(r#"{"post":{"id":"x"}}"#)), "x");
    assert_eq!(media::post_id(&j(r#"{"post":7}"#)), "");
}

#[test]
fn presets_choose_a_mode() {
    assert_eq!(media::mode_flag("fun"), "--mode=extremely-crazy");
    assert_eq!(media::mode_flag("normal"), "--mode=normal");
    assert_eq!(media::mode_flag("spicy"), "--mode=extremely-spicy-or-crazy");
    assert_eq!(media::mode_flag("other"), "--mode=custom");
    assert!(same(
        &media::build_payload("p", "id", "3:2", 6, "480p", "fun"),
        r#"{"temporary":true,"modelName":"grok-3","message":"p --mode=extremely-crazy","toolOverrides":{"videoGen":true},"enableSideBySide":true,"responseMetadata":{"experiments":[],"modelConfigOverride":{"modelMap":{"videoGenModelConfig":{"parentPostId":"id","aspectRatio":"3:2","videoLength":6,"videoResolution":"480p"}}}}}"#
    ));
}

#[test]
fn video_requests_are_read() {
    let some = |s: &str| Some(s.to_string());
    assert_eq!(media::thinking_choice(&some("enabled")), Some(true));
    assert_eq!(media::thinking_choice(&some("disabled")), Some(false));
    assert_eq!(media::thinking_choice(&some("x")), None);
    let pair = |a: &str, b: &str| (a.to_string(), b.to_string());
    let list = vec![pair("file", "f"), pair("image", "i"), pair("image", "k")];
    assert_eq!(media::first_image(&list), some("i"));
    assert_eq!(media::first_image(&vec![]), None);
    assert_eq!(media::uploaded_url("a/b"), "https://assets.grok.com/a/b");
    assert_eq!(
        media::status_failure(403, "ct", "pv").text(),
        "Media request failed: 403; content-type: ct; body: pv"
    );
    assert_eq!(
        media::parse_failure("e", "ct", "pv").text(),
        "Media parse error: e; content-type: ct; body: pv"
    );
}

#[test]
fn the_enabling_cookie_holds_the_token_twice() {
    assert_eq!(nsfw::build_cookie("sso=t", " "), "sso=t; sso-rw=t");
    assert_eq!(nsfw::build_cookie("t", " cf "), "sso=t; sso-rw=t; cf_clearance=cf");
    let h = NsfwService.build_headers("t", "");
    assert_eq!(find(&h, "content-type"), "application/grpc-web+proto");
    assert_eq!(find(&h, "cookie"), "sso=t; sso-rw=t");
}

#[test]
fn the_enabling_message_has_a_field_mask() {
    assert_eq!(
        nsfw::build_proto_payload(2, "features"),
        [&[0x0A, 4, 8, 1, 0x10, 1, 0x12, 10, 0x0A, 8][..], b"features"].concat()
    );
    assert_eq!(nsfw::build_proto_payload(3, "f")[6], 0x1A);
    assert_eq!(nsfw::build_proto_payload(2, &"x".repeat(253)).len(), 8 + 255);
    assert_eq!(nsfw::build_proto_payload(2, &"x".repeat(254)).len(), 6);
    assert_eq!(nsfw::build_proto_payload(2, &"x".repeat(300)).len(), 6);
}

#[test]
fn emulations_are_compared_loosely() {
    assert!(nsfw::emulation_equals(" Chrome-116 ", "chrome_116"));
    assert!(nsfw::emulation_equals("chrome 116", "CHROME116"));
    assert!(!nsfw::emulation_equals("chrome_117", "chrome_116"));
    assert_eq!(nsfw::preferred_emulation("  "), None);
    assert_eq!(nsfw::preferred_emulation(" x "), Some("x".to_string()));
}

#[test]
fn refusals_are_told_apart() {
    assert!(nsfw::is_auth_related("No PERMISSION"));
    assert!(!nsfw::is_auth_related("broken"));
    assert!(nsfw::is_payload_decode_error("Invalid wire type value: 7"));
    assert!(nsfw::is_field_mask_missing("Field mask must be provided"));
    assert!(nsfw::is_invalid_field_mask_path("unknown path x"));
    assert!(nsfw::is_rejected_features_field("Invalid field: features"));
    assert!(nsfw::should_retry_with_alternate_mask_field(&refused(3, "field mask must be provided")));
    assert!(!nsfw::should_retry_with_alternate_mask_field(&refused(4, "field mask must be provided")));
    assert!(nsfw::should_retry_with_alternate_mask_path(&refused(3, "cannot find field")));
    assert!(nsfw::should_retry_with_legacy_payload(&refused(13, "failed to decode Protobuf")));
    assert!(nsfw::should_retry_with_age_verify(&refused(3, "invalid field")));
    assert!(nsfw::should_retry_with_fallback(&refused(16, "x")));
    assert!(!nsfw::should_retry_with_fallback(&refused(3, "x")));
    assert!(!nsfw::should_retry_with_fallback(&enabled()));
}

#[test]
fn an_enabling_answer_is_read() {
    let none: Option<String> = None;
    let r = nsfw::read_answer(403, "ct", &Some("7".to_string()), &Some("m%20n".to_string()), &b"no\n".to_vec());
    assert!(!r.success);
    assert_eq!((r.http_status, r.grpc_status), (403, Some(7)));
    assert_eq!(r.grpc_message.as_deref(), Some("m%20n"));
    assert_eq!(r.error.as_deref(), Some("HTTP 403; content-type: ct; body: no\\n"));
    let r = nsfw::read_answer(200, "ct", &none, &none, &b"!".to_vec());
    assert!(r.success);
    assert_eq!((r.grpc_status, r.grpc_message, r.error), (Some(-1), None, None));
    let r = nsfw::read_answer(200, "ct", &Some("3".to_string()), &Some("a%20b".to_string()), &b"!".to_vec());
    assert_eq!(r.grpc_message.as_deref(), Some("a b"));
    assert_eq!(r.error.as_deref(), Some("gRPC error: code=3, message=a b, body=!"));
    let r = nsfw::read_answer(200, "ct", &Some("3".to_string()), &Some("%ff".to_string()), &b"!".to_vec());
    assert_eq!(r.grpc_message.as_deref(), Some("%ff"));
}

#[test]
fn an_age_answer_is_read() {
    let r = nsfw::read_age_answer(200, "ct", "p");
    assert!(r.success);
    assert_eq!(r.grpc_message.as_deref(), Some("fallback age verify success"));
    let r = nsfw::read_age_answer(500, "ct", "p");
    assert_eq!(r.grpc_status, Some(3));
    assert_eq!(r.error.as_deref(), Some("HTTP 500; content-type: ct; body: p"));
    let r = nsfw::unanswered("lost");
    assert_eq!((r.http_status, r.grpc_status, r.error.as_deref()), (0, None, Some("lost")));
}

#[test]
fn success_ends_the_asking() {
    let mut f = EnableFlow::new();
    assert!(matches!(f.ask(), FlowStep::Send(p) if p == nsfw::build_proto_payload(2, "features")));
    assert!(matches!(f.take(enabled()), FlowStep::Done(r) if r.success));
}

#[test]
fn each_refusal_has_a_next_way() {
    let mut f = EnableFlow::new();
    let step = f.take(refused(3, "field mask must be provided"));
    assert!(matches!(step, FlowStep::Send(p) if p == nsfw::build_proto_payload(3, "features")));
    assert!(matches!(f.way, Way::OtherField));
    let step = f.take(refused(3, "unknown path"));
    assert!(matches!(step, FlowStep::Send(p) if p == nsfw::build_proto_payload(2, "features.enabled")));
    let step = f.take(refused(13, "invalid wire type"));
    assert!(matches!(step, FlowStep::Send(p) if p == vec![8, 1, 0x10, 1]));
    let step = f.take(refused(3, "invalid field"));
    assert!(matches!(step, FlowStep::VerifyAge));
    match f.take(nsfw::read_age_answer(500, "c", "p")) {
        FlowStep::Done(r) => assert_eq!(
            r.error.unwrap(),
            "gRPC update failed: previous payload failed: previous payload failed: primary payload failed: e3; alternate mask field failed: e3; alternate mask path failed: e13; legacy payload failed: e3; age-verify fallback failed: HTTP 500; content-type: c; body: p"
        ),
        _ => panic!("expected the end"),
    }
}

#[test]
fn an_auth_refusal_is_tried_with_another_emulation() {
    assert!(nsfw::falls_back(&refused(7, "x"), ""));
    assert!(!nsfw::falls_back(&refused(7, "x"), "Chrome-116"));
    assert!(!nsfw::falls_back(&refused(3, "x"), ""));
    assert_eq!(nsfw::FALLBACK_EMULATION, "chrome_116");
    let r = nsfw::combine_attempts(&refused(7, "x"), refused(3, "y"));
    assert_eq!(
        r.error.as_deref(),
        Some("primary attempt failed: e7; fallback attempt failed: e3")
    );
    assert!(nsfw::combine_attempts(&refused(7, "x"), enabled()).error.is_none());
}

#[test]
fn trailers_decide_an_enabling() {
    let mut t = TextMap::new();
    assert!(nsfw::read_trailers(&t, "p").success);
    t.insert("grpc-status".to_string(), "0".to_string());
    assert!(nsfw::read_trailers(&t, "p").success);
    t.insert("grpc-status".to_string(), "13".to_string());
    t.insert("grpc-message".to_string(), "m".to_string());
    let r = nsfw::read_trailers(&t, "p");
    assert_eq!(r.error.as_deref(), Some("gRPC error: code=13, message=m, body=p"));
    let r = nsfw::http_failure(500, "ct", &None, &None, "p");
    assert_eq!((r.http_status, r.grpc_status), (500, None));
    assert_eq!(usage::read_text(200, "ct", " 1 ").unwrap(), "1");
    assert!(usage::read_text(200, "ct", " ").is_err());
}

#[test]
fn no_retries_are_made_by_default() {
    let mut c = RetryContext::default();
    assert_eq!((c.attempt, c.max_retry, c.retry_codes.len()), (0, 0, 0));
    assert_eq!(c.note_failure(Some(401)), None);
}
