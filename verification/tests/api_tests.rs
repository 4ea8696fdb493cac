use grok2api_appchat::api::files::served_file;
use grok2api_appchat::api::image::{
    call_counts, effort_for, final_event, generation_answer, images_answer, lost_generation,
    plan_image, plan_image_nsfw, progress_value, requested_model, resolve_image_output_format,
    settle, settle_in_order, upstream_count, ImageOutputFormat, ImageRequest,
};
use grok2api_appchat::api::models::list_models;
use grok2api_appchat::grok::imagine::generation::{ImagineProgressEvent, ImagineResult};
use grok2api_appchat::json;
use grok2api_appchat::json::{Json, Number};
use grok2api_appchat::token::models::EffortType;

fn conv(v: &serde_json::Value) -> Json {
    match v {
        serde_json::Value::Null => Json::Null,
        serde_json::Value::Bool(b) => Json::Bool(*b),
        serde_json::Value::Number(n) => Json::Number(if let Some(u) = n.as_u64() {
            Number::Unsigned(u)
        } else if let Some(i) = n.as_i64() {
            Number::Negative(i)
        } else {
            Number::Double(n.as_f64().unwrap().to_bits())
        }),
        serde_json::Value::String(s) => Json::Str(s.clone()),
        serde_json::Value::Array(a) => Json::Array(a.iter().map(conv).collect()),
        serde_json::Value::Object(m) => {
            Json::Object(m.iter().map(|(k, v)| (k.clone(), conv(v))).collect())
        }
    }
}

fn j(s: &str) -> Json {
    conv(&serde_json::from_str(s).unwrap())
}

fn same(a: &Json, b: &str) -> bool {
    json::equal(a, &j(b))
}

fn request(prompt: &str) -> ImageRequest {
    ImageRequest {
        prompt: prompt.to_string(),
        model: None,
        n: None,
        size: None,
        quality: None,
        response_format: None,
        style: None,
        stream: None,
    }
}

#[test]
fn formats_are_read_without_case_or_space() {
    let of = |s: &str| ImageOutputFormat::parse(s).map(|f| f.is_base64());
    assert_eq!(of(" URL "), Some(false));
    assert_eq!(of("Base64"), Some(true));
    assert_eq!(of("b64_json"), Some(true));
    assert_eq!(of("png"), None);
}

#[test]
fn a_request_names_its_format_or_the_setting_does() {
    let some = |s: &str| Some(s.to_string());
    assert!(resolve_image_output_format(&some("b64_json"), "url").unwrap().is_base64());
    assert!(resolve_image_output_format(&some("  "), "base64").unwrap().is_base64());
    assert!(!resolve_image_output_format(&None, "nonsense").unwrap().is_base64());
    let e = resolve_image_output_format(&some("gif"), "url").unwrap_err();
    assert_eq!(e.text(), "response_format must be one of: url, b64_json");
    assert_eq!(e.body.param.as_deref(), Some("response_format"));
}

#[test]
fn an_image_request_is_planned() {
    let mut r = request("a cat");
    assert_eq!(requested_model(&r), "grok-imagine-1.0");
    let p = plan_image(&r, true, "url", Some(true)).unwrap();
    assert_eq!((p.n, p.stream, p.model_id.as_str()), (1, false, "grok-imagine-1.0"));
    r.n = Some(99);
    assert_eq!(plan_image(&r, true, "url", Some(true)).unwrap().n, 10);
    r.n = Some(0);
    assert_eq!(plan_image(&r, true, "url", Some(true)).unwrap().n, 1);
}

#[test]
fn bad_image_requests_are_refused_in_order() {
    let mut r = request(" ");
    r.stream = Some(true);
    r.n = Some(3);
    r.response_format = Some("gif".to_string());
    r.model = Some("m".to_string());
    let text = |r: &ImageRequest, on: bool, s: Option<bool>| plan_image(r, on, "url", s).unwrap_err();
    let e = text(&r, false, None);
    assert_eq!((e.status, e.text().as_str()), (404, "Endpoint disabled"));
    assert_eq!(text(&r, true, None).text(), "response_format must be one of: url, b64_json");
    r.response_format = None;
    assert_eq!(text(&r, true, None).text(), "The model does not exist");
    let e = text(&r, true, Some(false));
    assert_eq!(e.text(), "The model `m` is not supported for image generation.");
    assert_eq!(e.body.code.as_deref(), Some("model_not_supported"));
    let e = text(&r, true, Some(true));
    assert_eq!((e.text().as_str(), e.body.param.as_deref()), ("Prompt cannot be empty", Some("prompt")));
    r.prompt = "x".to_string();
    let e = text(&r, true, Some(true));
    assert_eq!(e.text(), "Streaming is only supported when n=1 or n=2");
    r.n = Some(2);
    assert!(plan_image(&r, true, "url", Some(true)).unwrap().stream);
}

#[test]
fn images_are_asked_for_two_at_a_time() {
    assert_eq!(call_counts(1), vec![1]);
    assert_eq!(call_counts(2), vec![2]);
    assert_eq!(call_counts(5), vec![2, 2, 1]);
    for n in 1..=10usize {
        assert_eq!(call_counts(n).iter().sum::<usize>(), n);
    }
    assert_eq!(upstream_count(0), 1);
    assert_eq!(upstream_count(7), 2);
}

#[test]
fn costly_models_take_high_effort() {
    assert!(matches!(effort_for(true), EffortType::High));
    assert!(matches!(effort_for(false), EffortType::Low));
}

#[test]
fn missing_images_are_answered_with_an_error() {
    let got = settle(&vec![j(r#"{"url":"u"}"#)], 3, ImageOutputFormat::Url);
    assert_eq!(got.len(), 3);
    assert!(same(&got[0], r#"{"url":"u"}"#));
    assert!(same(&got[1], r#"{"url":"error"}"#));
    let got = settle(&vec![], 1, ImageOutputFormat::Base64);
    assert!(same(&got[0], r#"{"b64_json":"error"}"#));
}

#[test]
fn surplus_images_are_dropped_at_random() {
    let images: Vec<Json> = (0..6).map(|i| j(&i.to_string())).collect();
    let mut orders = Vec::new();
    for _ in 0..60 {
        let got = settle(&images, 3, ImageOutputFormat::Url);
        assert_eq!(got.len(), 3);
        let picked: Vec<i64> = got.iter().map(|g| g.as_i64().unwrap()).collect();
        for (k, p) in picked.iter().enumerate() {
            assert!((0..6).contains(p));
            assert!(!picked[..k].contains(p));
        }
        if !orders.contains(&picked) {
            orders.push(picked);
        }
    }
    assert!(orders.len() > 1);
    let got = settle_in_order(&images, &vec![5, 0, 3, 1, 2, 4], 2, ImageOutputFormat::Url);
    assert_eq!(got.len(), 2);
    assert!(same(&got[0], "5") && same(&got[1], "0"));
}

#[test]
fn an_image_answer_has_no_usage() {
    let a = images_answer(12, vec![j("1")]);
    assert!(same(
        &a,
        r#"{"created":12,"data":[1],"usage":{"prompt_tokens":0,"completion_tokens":0,"total_tokens":0}}"#
    ));
}

#[test]
fn an_imagine_request_is_planned() {
    let mut r = request("x");
    let p = plan_image_nsfw(&r, true, true).unwrap();
    assert!(!p.stream && !p.return_base64);
    r.response_format = Some("b64_json".to_string());
    r.stream = Some(true);
    let p = plan_image_nsfw(&r, true, true).unwrap();
    assert!(p.stream && p.return_base64);
    assert_eq!(plan_image_nsfw(&r, false, true).unwrap_err().status, 404);
    assert_eq!(plan_image_nsfw(&r, true, false).unwrap_err().status, 404);
    r.n = Some(5);
    let e = plan_image_nsfw(&r, true, true).unwrap_err();
    assert_eq!((e.text().as_str(), e.body.param.as_deref()), ("n must be between 1 and 4", Some("n")));
    r.n = Some(0);
    assert!(plan_image_nsfw(&r, true, true).is_err());
    r.prompt = "\n".to_string();
    assert_eq!(plan_image_nsfw(&r, true, true).unwrap_err().text(), "Prompt cannot be empty");
}

#[test]
fn progress_is_reported_as_a_fraction() {
    let e = ImagineProgressEvent {
        image_id: "i".to_string(),
        stage: "final".to_string(),
        is_final: true,
        completed: 1,
        total: 4,
    };
    assert!(same(
        &progress_value(&e),
        r#"{"image_id":"i","stage":"final","is_final":true,"completed":1,"total":4,"progress":"1/4"}"#
    ));
}

#[test]
fn a_generation_is_answered() {
    let ok = ImagineResult::ok(vec!["u".to_string()], vec!["b".to_string()]);
    assert_eq!(ok.count, 1);
    assert!(same(&generation_answer(&ok, false, 3).unwrap(), r#"{"created":3,"data":[{"url":"u"}]}"#));
    assert!(same(&generation_answer(&ok, true, 3).unwrap(), r#"{"created":3,"data":[{"b64_json":"b"}]}"#));
    let (name, v) = final_event(&ok, 3);
    assert_eq!(name, "complete");
    assert!(same(&v, r#"{"created":3,"data":[{"url":"u"}]}"#));
    let limited = ImagineResult::failed("rate_limit_exceeded", "slow");
    let e = generation_answer(&limited, false, 3).unwrap_err();
    assert_eq!((e.status, e.text().as_str()), (429, "slow"));
    let failed = ImagineResult::failed("x", "bad");
    assert_eq!(generation_answer(&failed, false, 3).unwrap_err().status, 500);
    let (name, v) = final_event(&failed, 3);
    assert_eq!(name, "error");
    assert!(same(&v, r#"{"error":"bad"}"#));
    let lost = lost_generation("gone");
    assert_eq!(lost.error_code.as_deref(), Some("generation_failed"));
    assert_eq!(lost.error.as_deref(), Some("task join error: gone"));
}

#[test]
fn a_failure_without_a_reason_has_a_default_one() {
    let mut r = ImagineResult::failed("x", "bad");
    r.error = None;
    assert_eq!(generation_answer(&r, false, 1).unwrap_err().text(), "Image generation failed");
    assert!(same(&final_event(&r, 1).1, r#"{"error":"Image generation failed"}"#));
}

#[test]
fn served_names_have_no_slash() {
    let f = served_file("a/b/../c.png", "image");
    assert_eq!(f.name, "a-b-..-c.png");
    assert_eq!(f.directory, "image");
    assert_eq!(f.content_type, "image/png");
    assert_eq!(f.cache_control, "public, max-age=31536000, immutable");
    let f = served_file("x.png", "video");
    assert_eq!((f.directory, f.content_type.as_str()), ("video", "video/mp4"));
}

#[test]
fn models_are_listed_unless_switched_off() {
    let ids = vec!["m1".to_string()];
    assert!(same(
        &list_models(true, &ids).unwrap(),
        r#"{"object":"list","data":[{"id":"m1","object":"model","created":0,"owned_by":"grok2api"}]}"#
    ));
    assert_eq!(list_models(false, &ids).unwrap_err().status, 404);
}
