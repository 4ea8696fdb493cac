use grok2api_appchat::grok::imagine::generation::{
    extract_image_id, image_from_parts, is_final_at, is_final_image, read_image, GenerationProgress, ImageProgress,
    ImagineProgressEvent, ImagineResult, Stage,
};
use grok2api_appchat::grok::imagine::retries::{
    aspect_ratio, size_to_aspect_ratio, target_count, Attempts, Mark,
};
use grok2api_appchat::grok::imagine::rotation::{
    best_place, digest_key, get_sso_tokens, key_hash, sanitize_token, score, KeyUsage,
    RotationState,
};
use grok2api_appchat::grok::imagine::run::{Action, Run};
use grok2api_appchat::grok::imagine::saving::{job_for, save_order, Saver};
use grok2api_appchat::grok::imagine::session::{
    connect_failure, request_payload, socket_headers, start_request, Next, Session, SocketEvent,
    SECOND,
};
use grok2api_appchat::json;
use grok2api_appchat::json::{Json, Number};
use grok2api_appchat::token::manager::TokenManager;

fn conv(v: &serde_json::Value) -> Json {
    match v {
        serde_json::Value::Null => Json::Null,
        serde_json::Value::Bool(b) => Json::Bool(*b),
        serde_json::Value::Number(n) => Json::Number(if let Some(u) = n.as_u64() {
            Number::Unsigned(u)
        } else if let Some(i) = n.as_i64() {
            Number::Negative(i)
        } else {
            Number::Double(n.as_f64().unwrap().to_bits())
        }),
        serde_json::Value::String(s) => Json::Str(s.clone()),
        serde_json::Value::Array(a) => Json::Array(a.iter().map(conv).collect()),
        serde_json::Value::Object(m) => {
            Json::Object(m.iter().map(|(k, v)| (k.clone(), conv(v))).collect())
        }
    }
}

fn j(s: &str) -> Json {
    conv(&serde_json::from_str(s).unwrap())
}

fn same(a: &Json, b: &str) -> bool {
    json::equal(a, &j(b))
}

fn texts(v: &[&str]) -> Vec<String> {
    v.iter().map(|s| s.to_string()).collect()
}

fn image(id: &str, blob: &str, is_final: bool) -> ImageProgress {
    ImageProgress {
        image_id: id.to_string(),
        stage: if is_final { Stage::Final } else { Stage::Preview },
        blob: blob.to_string(),
        blob_size: blob.len(),
        url: String::new(),
        is_final,
    }
}

fn message(url: &str, size: usize) -> SocketEvent {
    SocketEvent::Message(j(&format!(
        r#"{{"type":"image","blob":"{}","url":"{url}"}}"#,
        "A".repeat(size)
    )))
}

const FINAL: usize = 100_004;
const MEDIUM: usize = 30_004;

#[test]
fn image_ids_stand_in_their_urls() {
    let id = |s: &str| extract_image_id(s);
    assert_eq!(id("https://h.example/images/ab-12.jpg?x=1"), Some("ab-12".to_string()));
    assert_eq!(id("/images/AB.png"), Some("AB".to_string()));
    assert_eq!(id("/images/ab.gif"), None);
    assert_eq!(id("/images/.png"), None);
    assert_eq!(id("/images/xyz.png"), None);
    assert_eq!(id("/other/ab.png"), None);
    assert_eq!(id("/images/a.b.png"), None);
}

#[test]
fn a_final_image_is_a_large_jpeg() {
    assert!(is_final_image("https://h.example/a.jpg?x", 100_001));
    assert!(!is_final_image("/a.jpg", 100_000));
    assert!(!is_final_image("/a.png", 200_000));
}

#[test]
fn images_are_read_from_messages() {
    let m = j(r#"{"type":"image","blob":"QUJD","url":"/images/ab.jpg"}"#);
    let i = read_image(&m).unwrap();
    assert_eq!((i.image_id.as_str(), i.blob_size, i.is_final), ("ab", 4, false));
    assert!(matches!(i.stage, Stage::Preview));
    assert!(read_image(&j(r#"{"type":"image","blob":"","url":"/images/ab.jpg"}"#)).is_none());
}

#[test]
fn a_final_image_is_not_replaced() {
    let mut p = GenerationProgress::new(2);
    assert!(p.receive(image("a", "AAAA", true)));
    assert!(!p.receive(image("a", "BBBB", false)));
    assert_eq!(p.images[0].blob, "AAAA");
    assert_eq!(p.completed, 1);
    assert!(p.receive(image("b", "CCCC", false)));
    assert!(p.receive(image("b", "DDDD", true)));
    assert_eq!((p.completed, p.images.len()), (2, 2));
}

#[test]
fn only_medium_images_mean_blocked() {
    let mut p = GenerationProgress::new(1);
    assert!(!p.check_blocked());
    let mut m = image("a", "A", false);
    m.stage = Stage::Medium;
    p.receive(m);
    assert!(p.check_blocked());
    p.receive(image("b", "B", true));
    assert!(!p.check_blocked());
}

#[test]
fn enough_final_images_end_a_session() {
    let mut s = Session::new(1);
    let step = s.take(&message("/images/ab.jpg", 8), SECOND);
    assert!(matches!(step.next, Next::Listen));
    let r = step.report.unwrap();
    assert_eq!((r.image_id.as_str(), r.stage.as_str(), r.completed, r.total), ("ab", "preview", 0, 1));
    let step = s.take(&message("/images/ab.jpg", FINAL), 2 * SECOND);
    assert!(matches!(step.next, Next::Save));
    let r = step.report.unwrap();
    assert_eq!((r.stage.as_str(), r.is_final, r.completed), ("final", true, 1));
}

#[test]
fn a_session_with_only_medium_images_is_blocked() {
    let mut s = Session::new(1);
    assert!(matches!(s.take(&message("/images/ab.jpg", MEDIUM), 0).next, Next::Listen));
    let still = SocketEvent::Message(j("{}"));
    assert!(matches!(s.take(&still, 15 * SECOND).next, Next::Listen));
    match s.take(&still, 15 * SECOND + 1).next {
        Next::Fail(r) => assert_eq!(r.error.as_deref(), Some("生成被阻止，无法获取最终图片")),
        _ => panic!("expected a failure"),
    }
    let mut s = Session::new(1);
    s.take(&message("/images/ab.jpg", MEDIUM), 0);
    assert!(matches!(s.take(&SocketEvent::Quiet, 10 * SECOND).next, Next::Listen));
    assert!(matches!(s.take(&SocketEvent::Quiet, 10 * SECOND + 1).next, Next::Fail(_)));
}

#[test]
fn a_quiet_session_with_an_image_is_saved() {
    let mut s = Session::new(2);
    s.take(&message("/images/ab.jpg", FINAL), 0);
    assert!(matches!(s.take(&SocketEvent::Quiet, 10 * SECOND).next, Next::Listen));
    assert!(matches!(s.take(&SocketEvent::Garbled, 10 * SECOND).next, Next::Listen));
    assert!(matches!(s.take(&SocketEvent::Quiet, 20 * SECOND).next, Next::Listen));
    assert!(matches!(s.take(&SocketEvent::Quiet, 20 * SECOND + 1).next, Next::Save));
}

#[test]
fn a_session_ends_with_its_socket() {
    let mut s = Session::new(1);
    assert!(matches!(s.take(&SocketEvent::Ignored, 0).next, Next::Listen));
    assert!(matches!(s.take(&SocketEvent::Ended, 0).next, Next::Save));
    match s.take(&SocketEvent::Broken("b".to_string()), 0).next {
        Next::Fail(r) => {
            assert_eq!(r.error_code.as_deref(), Some("connection_failed"));
            assert_eq!(r.error.as_deref(), Some("b"));
        }
        _ => panic!("expected a failure"),
    }
    assert!(s.in_time(SECOND - 1, 1));
    assert!(!s.in_time(SECOND, 1));
}

#[test]
fn an_error_message_is_the_outcome_where_nothing_was_saved() {
    let mut s = Session::new(1);
    let e = SocketEvent::Message(j(r#"{"type":"error","err_code":"c"}"#));
    assert!(matches!(s.take(&e, 0).next, Next::Listen));
    let r = s.outcome(vec![], vec![]);
    assert_eq!((r.error_code.as_deref(), r.error.as_deref()), (Some("c"), Some("generation failed")));
    let r = s.outcome(texts(&["u"]), texts(&["b"]));
    assert!(r.success);
    let limit = SocketEvent::Message(j(r#"{"type":"error","err_code":"rate_limit_exceeded","err_msg":"m"}"#));
    assert!(matches!(s.take(&limit, 0).next, Next::Fail(r) if r.error.as_deref() == Some("m")));
    let r = Session::new(1).outcome(vec![], vec![]);
    assert_eq!((r.error_code.as_deref(), r.error.as_deref()), (Some("generation_failed"), Some("未收到图片数据")));
    let mut s = Session::new(1);
    s.take(&message("/images/ab.jpg", MEDIUM), 0);
    assert_eq!(s.outcome(vec![], vec![]).error_code.as_deref(), Some("blocked"));
}

#[test]
fn a_refused_connection_is_told_apart() {
    assert_eq!(connect_failure("HTTP 401").error_code.as_deref(), Some("unauthorized"));
    assert_eq!(connect_failure("x").error_code.as_deref(), Some("connection_failed"));
}

#[test]
fn a_generation_is_requested() {
    let h = socket_headers(" sso=t ");
    assert_eq!(h[0], ("Cookie".to_string(), "sso=t; sso-rw=t".to_string()));
    assert!(same(
        &request_payload("id", 7, "p", "2:3", true),
        r#"{"type":"conversation.item.create","timestamp":7,"item":{"type":"message","content":[{"requestId":"id","text":"p","type":"input_text","properties":{"section_count":0,"is_kids_mode":false,"enable_nsfw":true,"skip_upsampler":false,"is_initial":false,"aspect_ratio":"2:3"}}]}}"#
    ));
    let r = start_request("p", "2:3", false);
    assert!(r.get_i64("timestamp").unwrap() > 1_600_000_000_000);
}

#[test]
fn finals_are_saved_first() {
    let images = vec![image("a", "AAAA", false), image("b", "AAAAAAAA", false), image("c", "QQ==", true)];
    let order: Vec<String> = save_order(&images).into_iter().map(|i| i.image_id).collect();
    assert_eq!(order, texts(&["c", "b", "a"]));
}

#[test]
fn images_are_saved_up_to_the_asked_number() {
    let images = vec![image("a", "QUJD", true), image("b", "!!!!!", true), image("c", "QQ==", false)];
    let mut s = Saver::new(&images, 2, "http://me/".to_string());
    let first = s.next_job().unwrap();
    assert_eq!((first.filename.as_str(), first.data.as_slice()), ("a.jpg", &b"ABC"[..]));
    assert_eq!(first.url, "http://me/images/a.jpg");
    s.written(first);
    let second = s.next_job().unwrap();
    assert_eq!((second.filename.as_str(), second.data.as_slice()), ("c.png", &b"A"[..]));
    s.written(second);
    assert!(s.next_job().is_none());
    assert_eq!(s.urls, texts(&["http://me/images/a.jpg", "http://me/images/c.png"]));
    assert_eq!(s.b64_list, texts(&["QUJD", "QQ=="]));
    let mut s = Saver::new(&images, 1, " ".to_string());
    let job = s.next_job().unwrap();
    assert_eq!(job.url, "/images/a.jpg");
    s.written(job);
    assert!(s.next_job().is_none());
}

#[test]
fn tokens_are_kept_under_a_digest() {
    assert_eq!(key_hash("abc"), "a9993e364706");
    assert_eq!(sanitize_token("  sso=sso=t "), "t");
}

#[test]
fn the_token_with_most_left_is_next() {
    let tokens = texts(&["a", "b"]);
    let mut r = RotationState::new();
    let (t, save) = r.get_next_sso_at(&tokens, 10, 1_000);
    assert_eq!((t.as_deref(), save), (Some("a"), false));
    assert_eq!(r.last_reset, 1_000);
    r.record_usage_at("a", 1_000);
    assert_eq!(r.get_next_sso_at(&tokens, 10, 1_000).0.as_deref(), Some("b"));
    r.record_usage_at("b", 1_000);
    r.record_usage_at("b", 1_000);
    assert_eq!(r.get_next_sso_at(&tokens, 10, 1_000).0.as_deref(), Some("a"));
    assert_eq!(r.get_count("b"), 2);
}

#[test]
fn rest_counts_for_a_token() {
    let tokens = texts(&["a", "b"]);
    let mut r = RotationState::new();
    r.get_next_sso_at(&tokens, 10, 1_000);
    r.record_usage_at("a", 61_000);
    r.record_usage_at("b", 1_000);
    r.record_usage_at("b", 1_000);
    // 9 * 1.0 against 8 * 1.1
    assert_eq!(r.get_next_sso_at(&tokens, 10, 61_000).0.as_deref(), Some("a"));
    // 9 * 1.1 against 8 * 1.2
    assert_eq!(r.get_next_sso_at(&tokens, 10, 121_000).0.as_deref(), Some("a"));
    r.record_usage_at("a", 121_000);
    // 8 * 1.0 against 8 * 1.2
    assert_eq!(r.get_next_sso_at(&tokens, 10, 121_000).0.as_deref(), Some("b"));
}

#[test]
fn failed_and_used_up_tokens_are_passed_over() {
    let tokens = texts(&["a", "b"]);
    let mut r = RotationState::new();
    r.set_failed("a", true, 0);
    assert_eq!(r.get_available_tokens(&tokens, 1, 0), texts(&["b"]));
    r.record_usage_at("b", 0);
    assert_eq!(r.get_next_sso_at(&tokens, 1, 0), (None, false));
    r.mark_failed("b");
    assert_eq!(r.get_next_sso_at(&tokens, 1, 0), (Some("a".to_string()), true));
    assert!(!r.get_usage("a", 0).failed && !r.get_usage("b", 0).failed);
    r.mark_failed("a");
    r.mark_success("a");
    assert!(!r.get_usage("a", 0).failed);
}

#[test]
fn usage_is_reset_after_a_day() {
    let mut r = RotationState::new();
    r.check_daily_reset(5_000);
    r.record_usage_at("a", 6_000);
    r.set_failed("a", true, 6_000);
    r.check_daily_reset(5_000 + 86_399_999);
    assert_eq!(r.get_count("a"), 1);
    r.check_daily_reset(5_000 + 86_400_000);
    assert_eq!(r.get_count("a"), 0);
    assert!(!r.get_usage("a", 0).failed);
    assert_eq!(r.last_reset, 86_405_000);
}

#[test]
fn ages_are_remembered() {
    let mut r = RotationState::new();
    assert_eq!(r.get_age_verified("a"), 0);
    r.set_age_verified("a", 1);
    assert_eq!(r.get_age_verified("a"), 1);
    r.set_age_verified_at("b", 2, 9);
    assert_eq!((r.get_age_verified("b"), r.get_usage("b", 0).first_used), (2, 9));
    r.record_usage("a");
    assert_eq!(r.get_count("a"), 1);
    assert!(r.get_next_sso(&texts(&["a"]), 5).0.is_some());
}

#[test]
fn all_tokens_may_generate() {
    let mut m = TokenManager::new();
    m.add_at("a", "p", 0);
    m.add_at(" sso=a ", "q", 0);
    m.add_at("b", "q", 0);
    m.add_at("  ", "q", 0);
    assert_eq!(get_sso_tokens(&m), texts(&["a", "b"]));
}

#[test]
fn sizes_have_aspect_ratios() {
    assert_eq!(size_to_aspect_ratio("1024x1024"), "1:1");
    assert_eq!(size_to_aspect_ratio("1024x1536"), "2:3");
    assert_eq!(size_to_aspect_ratio("1536x1024"), "3:2");
    assert_eq!(size_to_aspect_ratio("512x512"), "1:1");
    assert_eq!(size_to_aspect_ratio("256x256"), "1:1");
    assert_eq!(size_to_aspect_ratio("x"), "2:3");
    assert_eq!(aspect_ratio(&None), "2:3");
}

#[test]
fn at_most_four_images_are_generated() {
    assert_eq!(target_count(None, 0), 1);
    assert_eq!(target_count(None, 9), 4);
    assert_eq!(target_count(Some(0), 4), 1);
    assert_eq!(target_count(Some(3), 4), 3);
    assert_eq!(target_count(Some(7), 1), 4);
}

#[test]
fn a_success_is_returned() {
    let mut a = Attempts::new(2, 3);
    let v = a.note(ImagineResult::ok(texts(&["u"]), texts(&["b"])));
    assert!(matches!(v.mark, Mark::Used));
    assert!(v.result.unwrap().success);
}

#[test]
fn attempts_end_after_too_many_blocks() {
    let mut a = Attempts::new(9, 2);
    let v = a.note(ImagineResult::failed("blocked", "b"));
    assert!(v.result.is_none());
    assert!(matches!(v.mark, Mark::Failed(m) if m == "blocked - 无法生成最终图片"));
    let v = a.note(ImagineResult::failed("blocked", "b"));
    assert_eq!(v.result.unwrap().error.as_deref(), Some("连续 2 次被 blocked，请稍后重试"));
}

#[test]
fn attempts_go_on_with_other_tokens() {
    let mut a = Attempts::new(0, 3);
    assert!(a.may_try());
    assert_eq!(a.without_token().error.as_deref(), Some("没有可用的 SSO"));
    assert_eq!(a.exhausted().error.as_deref(), Some("所有重试都失败了"));
    let v = a.note(ImagineResult::failed("unauthorized", "u"));
    assert!(v.result.is_none());
    assert!(matches!(v.mark, Mark::Failed(m) if m == "u"));
    assert!(!a.may_try());
    assert_eq!(a.exhausted().error_code.as_deref(), Some("unauthorized"));
    assert_eq!(a.without_token().error_code.as_deref(), Some("unauthorized"));
    let mut a = Attempts::new(5, 3);
    let v = a.note(ImagineResult::failed("send_failed", "s"));
    assert!(matches!(v.mark, Mark::Nothing));
    assert_eq!(v.result.unwrap().error_code.as_deref(), Some("send_failed"));
}

fn attempt(action: (Action, bool)) -> (String, bool) {
    match action.0 {
        Action::Attempt { token, verify_age } => (token, verify_age),
        Action::Stop(r) => panic!("stopped: {:?}", r.error),
    }
}

fn stopped(action: (Action, bool)) -> ImagineResult {
    match action.0 {
        Action::Attempt { token, .. } => panic!("goes on with {token}"),
        Action::Stop(r) => r,
    }
}

#[test]
fn a_run_without_tokens_stops_at_once() {
    let mut state = RotationState::new();
    let r = stopped(Run::new(vec![], 10, 5, 3).next_at(&mut state, 7));
    assert_eq!(r.error_code.as_deref(), Some("no_available_sso"));
    assert_eq!(state.last_reset, 0);
}

#[test]
fn a_run_goes_from_token_to_token() {
    let mut state = RotationState::new();
    let mut run = Run::new(texts(&["a", "b"]), 10, 2, 3);
    assert_eq!(attempt(run.next_at(&mut state, 7)), ("a".to_string(), true));
    assert!(Run::take_age_at(&mut state, "a", true, 7));
    assert_eq!(attempt(run.next_at(&mut state, 7)), ("a".to_string(), false));
    let failed = ImagineResult::failed("unauthorized", "u");
    assert!(run.take_at(&mut state, "a", failed, 7).is_none());
    assert_eq!(attempt(run.next_at(&mut state, 8)), ("b".to_string(), true));
    assert!(!Run::take_age(&mut state, "b", false));
    let failed = ImagineResult::failed("rate_limit_exceeded", "slow");
    assert!(run.take_at(&mut state, "b", failed, 8).is_none());
    let r = stopped(run.next_at(&mut state, 9));
    assert_eq!(r.error.as_deref(), Some("slow"));
}

#[test]
fn a_run_ends_with_a_success() {
    let mut state = RotationState::new();
    let mut run = Run::new(texts(&["a"]), 1, 5, 3);
    let (token, _) = attempt(run.next(&mut state));
    let done = ImagineResult::ok(texts(&["u"]), texts(&["b"]));
    assert!(run.take(&mut state, &token, done).unwrap().success);
    assert_eq!(state.get_count("a"), 1);
    assert_eq!(
        stopped(run.next(&mut state)).error.as_deref(),
        Some("没有可用的 SSO")
    );
}

#[test]
fn an_image_is_made_of_its_parts() {
    let i = image_from_parts("QUJD".to_string(), "u".to_string(), "/images/ab.png").unwrap();
    assert_eq!((i.image_id.as_str(), i.url.as_str(), i.blob_size), ("ab", "u", 4));
    assert!(image_from_parts("QUJD".to_string(), "u".to_string(), "/x").is_none());
    assert!(is_final_at("/a.jpg", 100_001));
    let mut s = Session::new(1);
    let step = s.take_image(image("ab", "QUJD", true), 5);
    assert!(matches!(step.next, Next::Save));
    let job = job_for(&image("ab", "QUJD", true), vec![1], "");
    assert_eq!((job.filename.as_str(), job.url.as_str()), ("ab.jpg", "/images/ab.jpg"));
}

#[test]
fn scores_are_compared() {
    let usage = |count: i32, last_used: i64| KeyUsage {
        count,
        last_used,
        first_used: 0,
        failed: false,
        age_verified: 0,
    };
    assert_eq!(score(usage(0, 0), 10, 5), 10 * 11 * 600_000);
    assert_eq!(score(usage(4, 1_000), 10, 61_000), 6 * 660_000);
    assert_eq!(score(usage(12, 1_000), 10, 61_000), 0);
    let list = vec![usage(4, 1_000), usage(0, 0), usage(0, 0)];
    assert_eq!(best_place(&list, 10, 61_000), Some(1));
    assert_eq!(best_place(&vec![], 10, 61_000), None);
    assert_eq!(digest_key(&vec![0, 1, 2, 0xab, 0xcd, 0xef, 9]), "000102abcdef");
}

#[test]
fn a_progress_event_is_cloned() {
    let e = ImagineProgressEvent {
        image_id: "i".to_string(),
        stage: "final".to_string(),
        is_final: true,
        completed: 2,
        total: 3,
    };
    let c = e.clone();
    assert_eq!((c.image_id.as_str(), c.stage.as_str()), ("i", "final"));
    assert_eq!((c.is_final, c.completed, c.total), (true, 2, 3));
}
