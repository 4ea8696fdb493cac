use grok2api_appchat::json;
use grok2api_appchat::json::{Json, Number};
use grok2api_appchat::server::auth;
use grok2api_appchat::server::batch_tasks::BatchTask;
use grok2api_appchat::server::exceptions::{ApiError, ErrorResponse, ErrorType};
use grok2api_appchat::server::static_assets;
use grok2api_appchat::server::storage::{lock_step, LockStep, StorageError};

fn conv(v: &serde_json::Value) -> Json {
    match v {
        serde_json::Value::Null => Json::Null,
        serde_json::Value::Bool(b) => Json::Bool(*b),
        serde_json::Value::Number(n) => Json::Number(if let Some(u) = n.as_u64() {
            Number::Unsigned(u)
        } else if let Some(i) = n.as_i64() {
            Number::Negative(i)
        } else {
            Number::Double(n.as_f64().unwrap().to_bits())
        }),
        serde_json::Value::String(s) => Json::Str(s.clone()),
        serde_json::Value::Array(a) => Json::Array(a.iter().map(conv).collect()),
        serde_json::Value::Object(m) => {
            Json::Object(m.iter().map(|(k, v)| (k.clone(), conv(v))).collect())
        }
    }
}

fn j(s: &str) -> Json {
    conv(&serde_json::from_str(s).unwrap())
}

fn same(a: &Json, b: &str) -> bool {
    json::equal(a, &j(b))
}

fn some(s: &str) -> Option<String> {
    Some(s.to_string())
}

#[test]
fn each_error_has_its_status_and_code() {
    let cases = [
        (ApiError::invalid_request("m"), 400, "invalid_request_error", "invalid_value"),
        (ApiError::authentication("m"), 401, "authentication_error", "invalid_api_key"),
        (ApiError::permission("m"), 403, "permission_error", "insufficient_quota"),
        (ApiError::not_found("m"), 404, "not_found_error", "model_not_found"),
        (ApiError::rate_limit("m"), 429, "rate_limit_error", "rate_limit_exceeded"),
        (ApiError::server("m"), 500, "server_error", "internal_error"),
        (ApiError::upstream("m"), 502, "server_error", "upstream_error"),
    ];
    for (e, status, kind, code) in cases {
        assert_eq!(e.text(), "m");
        let (s, body) = e.into_response();
        assert_eq!(s, status);
        let want = format!(
            r#"{{"error":{{"message":"m","type":"{kind}","param":null,"code":"{code}"}}}}"#
        );
        assert!(same(&body, &want));
    }
}

#[test]
fn an_error_names_its_parameter() {
    let e = ApiError::new(503, "busy", ErrorType::ServiceUnavailableError)
        .with_param("p")
        .with_code("c");
    let (s, body) = e.into_response();
    assert_eq!(s, 503);
    assert!(same(
        &body,
        r#"{"error":{"message":"busy","type":"service_unavailable_error","param":"p","code":"c"}}"#
    ));
}

#[test]
fn an_open_gateway_lets_everyone_in() {
    assert!(auth::verify_api_key(&None, "").is_ok());
    assert!(auth::verify_stream_api_key(&None, "").is_ok());
}

#[test]
fn an_administrator_needs_a_configured_key() {
    let e = auth::verify_app_key(&some("Bearer "), "").unwrap_err();
    assert_eq!(e.text(), "App key is not configured");
    assert_eq!(e.status, 401);
    assert!(auth::verify_app_key(&some("Bearer k"), "k").is_ok());
    assert_eq!(
        auth::verify_app_key(&None, "k").unwrap_err().text(),
        "Missing authentication token"
    );
}

#[test]
fn a_key_is_compared_with_the_bearer_token() {
    assert!(auth::verify_api_key(&some("Bearer  secret "), "secret").is_ok());
    assert_eq!(
        auth::verify_api_key(&some("Bearer other"), "secret").unwrap_err().text(),
        "Invalid authentication token"
    );
    assert_eq!(
        auth::verify_api_key(&some("bearer secret"), "secret").unwrap_err().text(),
        "Missing authentication token"
    );
    assert_eq!(
        auth::verify_api_key(&None, "secret").unwrap_err().text(),
        "Missing authentication token"
    );
}

#[test]
fn a_query_key_may_carry_bearer() {
    assert!(auth::verify_stream_api_key(&some(" secret "), "secret").is_ok());
    assert!(auth::verify_stream_api_key(&some("Bearer secret"), "secret").is_ok());
    assert_eq!(
        auth::verify_stream_api_key(&some("x"), "secret").unwrap_err().text(),
        "Invalid authentication token"
    );
    assert!(auth::verify_stream_api_key(&None, "secret").is_err());
}

#[test]
fn a_task_counts_what_is_done() {
    let mut t = BatchTask::begin("id".to_string(), 3, 5);
    assert!(same(
        &t.record(true, None, None, None),
        r#"{"type":"progress","task_id":"id","total":3,"processed":1,"ok":1,"fail":0}"#
    ));
    let e = t.record(false, Some(j("1")), Some(j("[2]")), Some("bad".to_string()));
    assert!(same(
        &e,
        r#"{"type":"progress","task_id":"id","total":3,"processed":2,"ok":1,"fail":1,"item":1,"detail":[2],"error":"bad"}"#
    ));
    assert_eq!(t.processed, t.ok + t.fail);
    assert!(t.final_event().is_none());
    assert!(same(
        &t.snapshot(),
        r#"{"task_id":"id","status":"running","total":3,"processed":2,"ok":1,"fail":1,"warning":null}"#
    ));
}

#[test]
fn a_task_ends_in_one_of_three_ways() {
    let mut t = BatchTask::begin("id".to_string(), 1, 0);
    let e = t.finish(j(r#"{"r":1}"#), Some("w".to_string()));
    let want = r#"{"type":"done","task_id":"id","total":1,"processed":0,"ok":0,"fail":0,"warning":"w","result":{"r":1}}"#;
    assert!(same(&e, want));
    assert!(same(&t.final_event().unwrap(), want));
    assert_eq!(t.status, "done");

    let mut t = BatchTask::begin("id".to_string(), 1, 0);
    let e = t.fail_task("no".to_string());
    assert!(same(
        &e,
        r#"{"type":"error","task_id":"id","total":1,"processed":0,"ok":0,"fail":0,"error":"no"}"#
    ));
    assert_eq!(t.status, "error");

    let mut t = BatchTask::begin("id".to_string(), 1, 0);
    t.cancel();
    assert!(t.cancelled);
    let e = t.finish_cancelled();
    assert!(same(
        &e,
        r#"{"type":"cancelled","task_id":"id","total":1,"processed":0,"ok":0,"fail":0}"#
    ));
    assert_eq!(t.status, "cancelled");
}

#[test]
fn a_cancelled_task_is_not_done() {
    let mut t = BatchTask::begin("id".to_string(), 1, 0);
    t.cancel();
    t.conclude(j("1"), None);
    assert_eq!(t.status, "cancelled");
    assert!(t.result.is_none());
    let mut t = BatchTask::begin("id".to_string(), 1, 0);
    t.conclude(j("1"), None);
    assert_eq!(t.status, "done");
}

#[test]
fn a_new_task_has_a_fresh_name() {
    let a = BatchTask::new(2);
    let b = BatchTask::new(2);
    assert_ne!(a.id, b.id);
    assert_eq!(a.id.len(), 36);
    assert_eq!(a.id.as_bytes()[14], b'4');
    assert!(a.created_at > 1_600_000_000_000);
    assert_eq!(a.status, "running");
}

#[test]
fn a_lock_is_waited_for_until_its_time_is_up() {
    assert!(matches!(lock_step(true, u128::MAX, 0, "n"), LockStep::Held));
    assert!(matches!(lock_step(false, 9_999_999_999, 10, "n"), LockStep::Wait(50)));
    match lock_step(false, 10_000_000_000, 10, "config_save") {
        LockStep::Failed(e) => assert_eq!(e.text(), "lock timeout: config_save"),
        _ => panic!("expected a timeout"),
    }
    assert_eq!(StorageError("x".to_string()).text(), "x");
}

#[test]
fn assets_are_named_without_leading_slashes() {
    assert_eq!(static_assets::asset_name("//a/b.css").unwrap(), "a/b.css");
    assert!(static_assets::asset_name("/").is_none());
    assert!(static_assets::asset_name("").is_none());
}

#[test]
fn assets_are_served_with_their_media_type() {
    let r = static_assets::static_reply("a/b.css", vec![1, 2]);
    assert_eq!(r.content_type, "text/css");
    assert_eq!(r.cache_control, "public, max-age=31536000, immutable");
    assert_eq!(r.body, vec![1, 2]);
    assert_eq!(
        static_assets::static_reply("noext", vec![]).content_type,
        "application/octet-stream"
    );
}

#[test]
fn asset_text_must_be_utf8() {
    assert_eq!(static_assets::get_text(Some("é".as_bytes().to_vec())).unwrap(), "é");
    assert!(static_assets::get_text(Some(vec![0xff])).is_none());
    assert!(static_assets::get_text(None).is_none());
}

#[test]
fn errors_are_cloned() {
    let e = ApiError::invalid_request("m").with_param("p").with_code("c");
    let c = e.clone();
    assert_eq!(c.status, e.status);
    assert_eq!(c.body.message, "m");
    assert_eq!(c.body.error_type.name(), e.body.error_type.name());
    assert_eq!((c.body.param.as_deref(), c.body.code.as_deref()), (Some("p"), Some("c")));
    let r = ErrorResponse { error: c.body.clone() }.clone();
    assert_eq!(r.error.message, "m");
    assert_eq!(StorageError("s".to_string()).clone().0, "s");
}
