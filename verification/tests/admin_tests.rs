use grok2api_appchat::api::admin::accounts::{can_list, can_mask, list_accounts, list_tokens, mask};
use grok2api_appchat::api::admin::answers::{
    clear_entry, config_updated, count_entries, ends_stream, login_answer, lost_entry, nsfw_entry,
    plain_success, refresh_entry, results_answer, storage_answer, success, summary_answer,
    task_started, tokens_updated, Entry,
};
use grok2api_appchat::api::admin::cache::{
    cache_answer, cache_kind, choose_scope, details, file_name, loaded_view, many_answer,
    online_view, page_answer, page_of, query_tokens, scope_name, token_to_clear, total, CountReply,
    Counted, OnlineScope,
};
use grok2api_appchat::api::admin::selection::{
    clean, gather, limit, select_for_clear, select_for_load, select_for_nsfw, select_for_refresh,
    squeeze,
};
use grok2api_appchat::grok::nsfw::NsfwResult;
use grok2api_appchat::json;
use grok2api_appchat::json::{Json, Number};
use grok2api_appchat::token::manager::TokenManager;

fn conv(v: &serde_json::Value) -> Json {
    match v {
        serde_json::Value::Null => Json::Null,
        serde_json::Value::Bool(b) => Json::Bool(*b),
        serde_json::Value::Number(n) => Json::Number(if let Some(u) = n.as_u64() {
            Number::Unsigned(u)
        } else if let Some(i) = n.as_i64() {
            Number::Negative(i)
        } else {
            Number::Double(n.as_f64().unwrap().to_bits())
        }),
        serde_json::Value::String(s) => Json::Str(s.clone()),
        serde_json::Value::Array(a) => Json::Array(a.iter().map(conv).collect()),
        serde_json::Value::Object(m) => {
            Json::Object(m.iter().map(|(k, v)| (k.clone(), conv(v))).collect())
        }
    }
}

fn j(s: &str) -> Json {
    conv(&serde_json::from_str(s).unwrap())
}

fn same(a: &Json, b: &str) -> bool {
    json::equal(a, &j(b))
}

fn texts(v: &[&str]) -> Vec<String> {
    v.iter().map(|s| s.to_string()).collect()
}

fn some(s: &str) -> Option<String> {
    Some(s.to_string())
}

fn found(token: &str, n: usize) -> Counted {
    Counted { token: token.to_string(), reply: CountReply::Found(n) }
}

fn failed(token: &str, e: &str) -> Counted {
    Counted { token: token.to_string(), reply: CountReply::Failed(e.to_string()) }
}

const LONG: &str = "abcdefghijklmnopqrstuvwxyz0123456789";

#[test]
fn one_token_stands_before_a_list() {
    assert_eq!(gather(&some("a"), &Some(texts(&["b", "c"]))), texts(&["a", "b", "c"]));
    assert!(gather(&None, &None).is_empty());
}

#[test]
fn only_neighbours_are_deduplicated() {
    assert_eq!(clean(&texts(&[" a ", "", "\t", "b"])), texts(&["a", "b"]));
    assert_eq!(squeeze(&texts(&["a", "a", "b", "a"])), texts(&["a", "b", "a"]));
}

#[test]
fn a_selection_is_cut_to_its_limit() {
    let s = limit(&texts(&["a", "b", "b", "c"]), 2);
    assert_eq!(s.tokens, texts(&["a", "b"]));
    assert_eq!((s.original_count, s.max_tokens, s.truncated), (3, 2, true));
    assert_eq!(s.warning().unwrap(), "数量超出限制，仅处理前 2 个（共 3 个）");
    assert!(limit(&texts(&["a"]), 1).warning().is_none());
}

#[test]
fn a_refresh_needs_tokens() {
    let e = select_for_refresh(&None, &Some(vec![]), 5).unwrap_err();
    assert_eq!(e.text(), "No tokens provided");
    assert!(select_for_refresh(&some(" "), &None, 5).unwrap().tokens.is_empty());
    assert_eq!(select_for_refresh(&some("a"), &None, 5).unwrap().tokens, texts(&["a"]));
}

#[test]
fn enabling_falls_back_to_all_tokens() {
    let known = texts(&["k1", "k2"]);
    assert_eq!(select_for_nsfw(&None, &None, &known, 9).unwrap().tokens, known);
    assert_eq!(select_for_nsfw(&some("a"), &None, &known, 9).unwrap().tokens, texts(&["a"]));
    let e = select_for_nsfw(&None, &None, &vec![], 9).unwrap_err();
    assert_eq!(e.text(), "No tokens available");
}

#[test]
fn clearing_needs_a_token_that_is_not_blank() {
    assert!(select_for_clear(&texts(&[" "]), 9).is_err());
    assert_eq!(select_for_clear(&texts(&[" a"]), 9).unwrap().tokens, texts(&["a"]));
}

#[test]
fn loading_names_its_scope() {
    let known = texts(&["k"]);
    let s = select_for_load(&None, &some("all"), &known, 9).unwrap();
    assert_eq!((s.scope.as_str(), s.selection.tokens), ("all", known.clone()));
    let s = select_for_load(&Some(texts(&["a"])), &some("all"), &known, 9).unwrap();
    assert_eq!((s.scope.as_str(), s.selection.tokens), ("selected", texts(&["a"])));
    assert!(select_for_load(&None, &some("none"), &known, 9).is_err());
    assert!(select_for_load(&None, &None, &known, 9).is_err());
}

#[test]
fn long_tokens_are_masked() {
    assert!(can_mask(LONG, 24, 16));
    assert_eq!(mask(LONG, 24, 16), "abcdefgh...uvwxyz0123456789");
    assert_eq!(mask("short", 24, 16), "short");
    assert!(!can_mask("abcdefg\u{e9}jklmnopqrstuvwxyz", 24, 16));
    assert!(can_mask("\u{e9}\u{e9}", 24, 16));
}

#[test]
fn accounts_are_listed_pool_by_pool() {
    let mut m = TokenManager::new();
    m.add_at(LONG, "p", 0);
    m.add_at("b", "q", 0);
    assert!(can_list(&m));
    let a = list_accounts(&m);
    assert_eq!(a.len(), 2);
    let want = format!(
        r#"{{"token":"{LONG}","token_masked":"abcdefgh...uvwxyz0123456789","pool":"p","status":"active","last_asset_clear_at":null}}"#
    );
    assert!(same(&a[0], &want));
    assert_eq!(list_tokens(&m), texts(&[LONG, "b"]));
}

#[test]
fn answers_say_success() {
    assert!(same(&plain_success(), r#"{"status":"success"}"#));
    assert!(same(&success("result", j("1")), r#"{"status":"success","result":1}"#));
    assert!(same(&login_answer("k"), r#"{"status":"success","api_key":"k"}"#));
    assert!(same(&config_updated(), r#"{"status":"success","message":"配置已更新"}"#));
    assert!(same(&tokens_updated(), r#"{"status":"success","message":"Token 已更新"}"#));
    assert!(same(&task_started("t", 4), r#"{"status":"success","task_id":"t","total":4}"#));
}

#[test]
fn the_storage_is_named_in_lower_case() {
    assert!(same(&storage_answer("LOCAL"), r#"{"type":"local"}"#));
    assert!(same(&storage_answer("ÀB"), r#"{"type":"àb"}"#));
}

#[test]
fn results_are_kept_under_their_keys() {
    let entries = vec![refresh_entry("a", true), refresh_entry("b", false)];
    assert!(same(
        &results_answer(&entries, &None),
        r#"{"status":"success","results":{"a":true,"b":false}}"#
    ));
    assert!(same(
        &results_answer(&entries, &some("w")),
        r#"{"status":"success","results":{"a":true,"b":false},"warning":"w"}"#
    ));
    assert!(same(
        &summary_answer(2, &entries, &None),
        r#"{"status":"success","summary":{"total":2,"ok":1,"fail":1},"results":{"a":true,"b":false}}"#
    ));
    assert_eq!(count_entries(&entries, true) + count_entries(&entries, false), 2);
}

#[test]
fn a_later_result_replaces_an_earlier_one() {
    let entries = vec![refresh_entry("a", true), refresh_entry("a", false)];
    assert!(same(
        &summary_answer(2, &entries, &None),
        r#"{"status":"success","summary":{"total":2,"ok":1,"fail":1},"results":{"a":false}}"#
    ));
}

#[test]
fn an_entry_without_a_value_is_only_counted() {
    let entries = vec![Entry { key: "a".to_string(), ok: false, value: None }];
    assert!(same(
        &summary_answer(1, &entries, &None),
        r#"{"status":"success","summary":{"total":1,"ok":0,"fail":1},"results":{}}"#
    ));
}

#[test]
fn enabling_results_are_shown_under_masked_tokens() {
    let r = NsfwResult {
        success: true,
        http_status: 200,
        grpc_status: Some(0),
        grpc_message: None,
        error: None,
    };
    let e = nsfw_entry(LONG, &r);
    assert_eq!(e.key, "abcdefgh...23456789");
    assert!(e.ok);
    assert!(same(
        &e.value.unwrap(),
        r#"{"success":true,"http_status":200,"grpc_status":0,"grpc_message":null,"error":null}"#
    ));
    let e = lost_entry("short", "gone");
    assert!(!e.ok);
    assert!(same(&e.value.unwrap(), r#"{"error":"gone"}"#));
}

#[test]
fn clearing_results_tell_what_happened() {
    let e = clear_entry("t", Ok(j("[]")));
    assert!(e.ok);
    assert!(same(&e.value.unwrap(), r#"{"status":"success","result":[]}"#));
    let e = clear_entry("t", Err("bad".to_string()));
    assert!(!e.ok);
    assert!(same(&e.value.unwrap(), r#"{"status":"error","error":"bad"}"#));
}

#[test]
fn three_events_end_a_stream() {
    for t in ["done", "error", "cancelled"] {
        assert!(ends_stream(&j(&format!(r#"{{"type":"{t}"}}"#))));
    }
    assert!(!ends_stream(&j(r#"{"type":"progress"}"#)));
    assert!(!ends_stream(&j("{}")));
}

#[test]
fn the_counted_tokens_are_chosen() {
    let known = texts(&["k", "k"]);
    assert_eq!(query_tokens(&some(" a, ,b ")), texts(&["a", "b"]));
    assert!(matches!(
        choose_scope(&some("x"), &some("a,a,b"), &some("all"), &known, 9),
        OnlineScope::Selected(s) if s.tokens == texts(&["a", "b"])
    ));
    assert!(matches!(
        choose_scope(&some("x"), &some(","), &some("all"), &known, 9),
        OnlineScope::All(s) if s.tokens == known
    ));
    assert!(matches!(
        choose_scope(&some("x"), &None, &some("one"), &known, 9),
        OnlineScope::One(t) if t == "x"
    ));
    assert!(matches!(choose_scope(&None, &None, &None, &known, 9), OnlineScope::NotLoaded));
}

#[test]
fn counts_are_added_and_shown() {
    let counts = vec![found("a", 2), failed("b", "no"), found("c", 5)];
    assert_eq!(total(&counts), 7);
    let d = details(&counts, true);
    assert!(same(&d[0], r#"{"token":"a","token_masked":"a","count":2,"status":"ok"}"#));
    assert!(same(&d[1], r#"{"token":"b","token_masked":"b","count":0,"status":"error: no"}"#));
    assert!(same(&details(&counts, false)[2], r#"{"token":"c","count":5,"status":"ok"}"#));
    assert!(same(
        &many_answer(7, false),
        r#"{"count":7,"status":"ok","token":null,"last_asset_clear_at":null}"#
    ));
    assert!(same(
        &many_answer(0, true),
        r#"{"count":0,"status":"no_token","token":null,"last_asset_clear_at":null}"#
    ));
}

#[test]
fn each_scope_has_its_view() {
    let v = online_view(&OnlineScope::NotLoaded, &vec![]);
    assert!(same(&v.stats, r#"{"count":0,"status":"not_loaded","token":null}"#));
    let v = online_view(&OnlineScope::One("t".to_string()), &vec![found("t", 3)]);
    assert!(same(&v.stats, r#"{"count":3,"status":"ok","token":"t"}"#));
    let v = online_view(&OnlineScope::One("t".to_string()), &vec![failed("t", "no")]);
    assert!(same(&v.stats, r#"{"count":0,"status":"error: no","token":"t"}"#));
    let scope = choose_scope(&None, &None, &some("all"), &vec![], 9);
    let v = online_view(&scope, &vec![]);
    assert!(same(
        &v.stats,
        r#"{"count":0,"status":"no_token","token":null,"last_asset_clear_at":null}"#
    ));
    let scope = choose_scope(&None, &some("a,b"), &None, &vec![], 1);
    let v = online_view(&scope, &vec![found("a", 4)]);
    assert_eq!(v.warning.as_deref(), Some("数量超出限制，仅处理前 1 个（共 2 个）"));
    assert_eq!(v.details.len(), 1);
}

#[test]
fn the_cache_is_shown_in_one_answer() {
    let v = online_view(&OnlineScope::NotLoaded, &vec![]);
    let a = cache_answer(j("1"), j("2"), vec![j("3")], "none", v);
    assert!(same(
        &a,
        r#"{"local_image":1,"local_video":2,"online":{"count":0,"status":"not_loaded","token":null},"online_accounts":[3],"online_scope":"none","online_details":[]}"#
    ));
    let v = loaded_view(&limit(&texts(&["a"]), 9), &vec![found("a", 1)]);
    assert!(same(&v.details[0], r#"{"token":"a","count":1,"status":"ok"}"#));
    assert!(v.warning.is_none());
}

#[test]
fn absent_parameters_have_defaults() {
    assert_eq!(scope_name(&None), "none");
    assert_eq!(scope_name(&some("x")), "x");
    assert_eq!(cache_kind(&None), "image");
    assert_eq!(page_of(None, Some(5)), (1, 5));
    assert_eq!(page_of(Some(2), None), (2, 1000));
    assert_eq!(file_name(&some("f")).unwrap(), "f");
    assert_eq!(file_name(&None).unwrap_err().text(), "Missing file name");
}

#[test]
fn a_page_is_answered_with_what_is_there() {
    assert!(same(
        &page_answer(&j(r#"{"total":3,"items":[1],"other":9}"#)),
        r#"{"status":"success","total":3,"page":null,"page_size":null,"items":[1]}"#
    ));
}

#[test]
fn a_token_to_clear_is_named_or_handed_out() {
    assert_eq!(token_to_clear(&some("a"), &some("b")).unwrap(), "a");
    assert_eq!(token_to_clear(&None, &some("b")).unwrap(), "b");
    assert_eq!(
        token_to_clear(&None, &None).unwrap_err().text(),
        "No available token to perform cleanup"
    );
}
