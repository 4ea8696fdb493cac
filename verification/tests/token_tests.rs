use grok2api_appchat::json;
use grok2api_appchat::json::{Json, Number};
use grok2api_appchat::token::manager::{bare, token_from_value, token_value, QuotaReply, TokenManager};
use grok2api_appchat::token::models::{
    effort_cost, EffortType, TokenInfo, TokenPoolStats, TokenStatus, DEFAULT_QUOTA, FAIL_THRESHOLD,
};
use grok2api_appchat::token::pool::TokenPool;
use grok2api_appchat::token::scheduler::TokenRefreshScheduler;

fn conv(v: &serde_json::Value) -> Json {
    match v {
        serde_json::Value::Null => Json::Null,
        serde_json::Value::Bool(b) => Json::Bool(*b),
        serde_json::Value::Number(n) => Json::Number(if let Some(u) = n.as_u64() {
            Number::Unsigned(u)
        } else if let Some(i) = n.as_i64() {
            Number::Negative(i)
        } else {
            Number::Double(n.as_f64().unwrap().to_bits())
        }),
        serde_json::Value::String(s) => Json::Str(s.clone()),
        serde_json::Value::Array(a) => Json::Array(a.iter().map(conv).collect()),
        serde_json::Value::Object(m) => {
            Json::Object(m.iter().map(|(k, v)| (k.clone(), conv(v))).collect())
        }
    }
}

fn j(s: &str) -> Json {
    conv(&serde_json::from_str(s).unwrap())
}

fn same(a: &Json, b: &str) -> bool {
    json::equal(a, &j(b))
}

fn token(name: &str) -> TokenInfo {
    TokenInfo::new_at(name.to_string(), 1000)
}

fn with_quota(name: &str, quota: i32) -> TokenInfo {
    let mut t = token(name);
    t.update_quota(quota);
    t
}

fn stored() -> Json {
    j(r#"{"ssoBasic":[{"token":"sso=a","quota":3},{"token":"b","status":"disabled","tags":["x",1,"y"]},{"token":""},7],"ssoSuper":[{"token":"c"}],"odd":1}"#)
}

fn manager() -> TokenManager {
    let mut m = TokenManager::new();
    m.load_at(&stored(), 500);
    m
}

fn info(m: &TokenManager, pool: &str, name: &str) -> TokenInfo {
    m.get_pool_tokens(pool).into_iter().find(|t| t.token == name).unwrap()
}

#[test]
fn a_new_token_is_active_with_a_full_quota() {
    let t = token("t");
    assert!(matches!(t.status, TokenStatus::Active));
    assert_eq!(t.quota, 80);
    assert_eq!(DEFAULT_QUOTA, 80);
    assert_eq!(t.created_at, 1000);
    assert!(t.is_available());
    assert!(TokenInfo::new("t".to_string()).created_at > 1_600_000_000_000);
}

#[test]
fn high_effort_costs_four() {
    assert_eq!(effort_cost(&EffortType::Low), 1);
    assert_eq!(effort_cost(&EffortType::High), 4);
}

#[test]
fn what_is_used_leaves_the_quota() {
    let mut t = with_quota("t", 6);
    assert_eq!(t.consume_at(&EffortType::High, 7), 4);
    assert_eq!((t.quota, t.use_count, t.last_used_at), (2, 4, Some(7)));
    assert!(t.is_available());
    assert_eq!(t.consume_at(&EffortType::High, 8), 2);
    assert_eq!((t.quota, t.use_count), (0, 6));
    assert!(matches!(t.status, TokenStatus::Cooling));
    assert_eq!(t.consume_at(&EffortType::Low, 9), 0);
    assert!(!t.is_available());
}

#[test]
fn a_quota_is_never_negative() {
    let mut t = token("t");
    t.update_quota(-3);
    assert_eq!(t.quota, 0);
    assert!(matches!(t.status, TokenStatus::Cooling));
    t.update_quota(9);
    assert!(matches!(t.status, TokenStatus::Active));
}

#[test]
fn a_disabled_token_stays_disabled_when_its_quota_changes() {
    let mut t = token("t");
    t.status = TokenStatus::Disabled;
    t.update_quota(5);
    assert!(matches!(t.status, TokenStatus::Disabled));
    t.reset();
    assert!(t.is_available());
    assert_eq!(t.quota, 80);
}

#[test]
fn the_fifth_refusal_expires_a_token() {
    let mut t = token("t");
    t.record_fail_at(500, "no", 3);
    assert_eq!(t.fail_count, 0);
    for i in 1..=5 {
        t.record_fail_at(401, "refused", 10 + i);
        assert_eq!(matches!(t.status, TokenStatus::Expired), i as i32 >= FAIL_THRESHOLD);
    }
    assert_eq!(t.last_fail_at, Some(15));
    assert_eq!(t.last_fail_reason.as_deref(), Some("refused"));
    t.record_success_at(true, 20);
    assert_eq!((t.fail_count, t.use_count, t.last_used_at), (0, 1, Some(20)));
    assert!(t.last_fail_reason.is_none() && t.last_fail_at.is_none());
    assert!(matches!(t.status, TokenStatus::Active));
}

#[test]
fn cooling_tokens_are_refreshed_after_the_interval() {
    let mut t = token("t");
    assert!(!t.need_refresh_at(8, 0));
    t.update_quota(0);
    assert!(t.need_refresh_at(8, 0));
    t.mark_synced_at(1_000);
    assert!(!t.need_refresh_at(1, 3_600_999));
    assert!(t.need_refresh_at(1, 3_601_000));
}

#[test]
fn a_pool_hands_out_a_token_with_the_largest_quota() {
    let mut p = TokenPool::new("p");
    assert!(p.select().is_none());
    p.add(with_quota("a", 3));
    p.add(with_quota("b", 9));
    p.add(with_quota("c", 9));
    p.add(with_quota("d", 0));
    let mut disabled = with_quota("e", 50);
    disabled.status = TokenStatus::Disabled;
    p.add(disabled);
    assert_eq!(p.best(), vec![1, 2]);
    for _ in 0..40 {
        let t = p.select().unwrap().token;
        assert!(t == "b" || t == "c");
    }
}

#[test]
fn a_pool_counts_by_status() {
    let mut p = TokenPool::new("p");
    p.add(with_quota("a", 3));
    p.add(with_quota("b", 0));
    let mut t = token("c");
    t.status = TokenStatus::Expired;
    p.add(t);
    let s: TokenPoolStats = p.stats();
    assert_eq!((s.total, s.active, s.disabled, s.expired, s.cooling), (3, 1, 0, 1, 1));
    assert_eq!(s.total_quota, 83);
    assert_eq!(s.total, s.active + s.disabled + s.expired + s.cooling);
}

#[test]
fn adding_and_removing_gives_the_pool_back() {
    let mut p = TokenPool::new("p");
    p.add(token("a"));
    p.add(token("b"));
    assert!(p.remove("b"));
    assert!(!p.remove("b"));
    assert_eq!(p.count(), 1);
    assert_eq!(p.position("a"), Some(0));
    assert!(p.get("b").is_none());
    p.get_mut("a").unwrap().note = "n".to_string();
    assert_eq!(p.list()[0].note, "n");
}

#[test]
fn stored_tokens_are_loaded_once() {
    let mut m = manager();
    assert_eq!(m.pools.len(), 3);
    assert_eq!(m.get_pool_tokens("ssoBasic").len(), 2);
    let a = info(&m, "ssoBasic", "a");
    assert_eq!((a.quota, a.created_at), (3, 500));
    let b = info(&m, "ssoBasic", "b");
    assert!(matches!(b.status, TokenStatus::Disabled));
    assert_eq!(b.tags, vec!["x", "y"]);
    m.load_at(&j("{}"), 0);
    assert_eq!(m.pools.len(), 3);
    m.reload(&j("{}"));
    assert_eq!(m.pools.len(), 0);
}

#[test]
fn stored_tokens_survive_storage() {
    let m = manager();
    let saved = m.save();
    let mut again = TokenManager::new();
    again.load_at(&saved, 9999);
    assert!(json::equal(&again.save(), &saved));
}

#[test]
fn a_token_reads_back_from_its_value() {
    let mut t = with_quota("t", 5);
    t.record_fail_at(401, "r", 6);
    t.tags.push("nsfw".to_string());
    let v = token_value(&t);
    assert!(same(
        &v,
        r#"{"token":"t","status":"active","quota":5,"created_at":1000,"last_used_at":null,"use_count":0,"fail_count":1,"last_fail_at":6,"last_fail_reason":"r","last_sync_at":null,"tags":["nsfw"],"note":"","last_asset_clear_at":null}"#
    ));
    assert!(json::equal(&token_value(&token_from_value(&v, 3).unwrap()), &v));
    assert!(token_from_value(&j(r#"{"token":""}"#), 3).is_none());
    assert!(token_from_value(&j("[]"), 3).is_none());
}

#[test]
fn a_wide_quota_is_cut_to_its_low_bits() {
    let t = token_from_value(&j(r#"{"token":"t","quota":4294967301}"#), 3).unwrap();
    assert_eq!(t.quota, 5);
}

#[test]
fn names_lose_their_cookie_prefix() {
    assert_eq!(bare("sso=sso=x"), "x");
    assert_eq!(bare(" sso=x"), " sso=x");
}

#[test]
fn only_usable_tokens_are_handed_out() {
    let m = manager();
    assert_eq!(m.get_token("ssoBasic").unwrap(), "a");
    assert!(m.get_token("none").is_none());
    let mut m = m;
    assert!(m.consume_at("sso=a", EffortType::High, 4));
    assert!(m.get_token("ssoBasic").is_none());
    assert!(!m.consume_at("unknown", EffortType::Low, 4));
}

#[test]
fn a_sync_takes_the_quota_of_the_answer() {
    let mut m = manager();
    let reply = Some(j(r#"{"remainingTokens":42}"#));
    assert!(m.knows("sso=c"));
    assert!(m.sync_usage_at("c", &reply, EffortType::Low, false, true, 77));
    let c = info(&m, "ssoSuper", "c");
    assert_eq!((c.quota, c.use_count, c.last_used_at), (42, 1, Some(77)));
    assert!(!m.sync_usage_at("c", &None, EffortType::Low, false, true, 78));
    assert_eq!(info(&m, "ssoSuper", "c").quota, 42);
    assert!(m.sync_usage_at("c", &Some(j("{}")), EffortType::High, true, true, 79));
    assert_eq!(info(&m, "ssoSuper", "c").quota, 38);
    assert!(!m.sync_usage_at("unknown", &reply, EffortType::Low, true, true, 80));
}

#[test]
fn refusals_and_resets_reach_the_named_token_only() {
    let mut m = manager();
    assert!(m.record_fail_at("sso=a", 401, "r", 6));
    assert!(!m.record_fail_at("zz", 401, "r", 6));
    assert_eq!(info(&m, "ssoBasic", "a").fail_count, 1);
    assert_eq!(info(&m, "ssoSuper", "c").fail_count, 0);
    assert!(m.reset_token("a"));
    assert_eq!(info(&m, "ssoBasic", "a").quota, 80);
    assert!(matches!(info(&m, "ssoBasic", "b").status, TokenStatus::Disabled));
    m.reset_all();
    assert!(matches!(info(&m, "ssoBasic", "b").status, TokenStatus::Active));
}

#[test]
fn an_added_token_is_known_once() {
    let mut m = TokenManager::new();
    assert!(m.add_at("sso=n", "fresh", 12));
    assert!(!m.add_at("n", "fresh", 13));
    assert!(m.knows("n"));
    assert_eq!(info(&m, "fresh", "n").created_at, 12);
    assert!(m.add("n2", "fresh"));
    assert_eq!(m.pools.len(), 1);
    assert!(!m.remove("sso=n"));
    assert!(m.remove("n"));
    assert!(!m.knows("n"));
}

#[test]
fn tags_and_marks_are_kept() {
    let mut m = manager();
    assert!(!m.has_tag("a", "nsfw"));
    assert!(m.add_tag("sso=a", "nsfw"));
    assert!(m.add_tag("a", "nsfw"));
    assert!(m.has_tag("a", "nsfw"));
    assert_eq!(info(&m, "ssoBasic", "a").tags.len(), 1);
    assert!(!m.add_tag("zz", "nsfw"));
    assert!(m.mark_asset_clear("c"));
    assert!(info(&m, "ssoSuper", "c").last_asset_clear_at.unwrap() > 1_600_000_000_000);
    assert!(!m.mark_asset_clear("zz"));
}

#[test]
fn statistics_are_given_pool_by_pool() {
    let stats = manager().get_stats();
    assert_eq!(stats.len(), 3);
    let basic = &stats.iter().find(|s| s.0 == "ssoBasic").unwrap().1;
    assert_eq!((basic.total, basic.disabled, basic.total_quota), (2, 1, 83));
}

#[test]
fn a_refresh_counts_every_answer() {
    let mut m = TokenManager::new();
    for t in ["a", "b", "c"] {
        m.add_at(t, "p", 0);
        m.sync_usage_at(t, &Some(j(r#"{"remainingTokens":0}"#)), EffortType::Low, false, false, 0);
    }
    assert_eq!(m.cooling_tokens(8, 0), vec!["a", "b", "c"]);
    let replies = vec![
        QuotaReply { token: "a".to_string(), reply: Some(j(r#"{"remainingTokens":5}"#)) },
        QuotaReply { token: "b".to_string(), reply: None },
        QuotaReply { token: "c".to_string(), reply: Some(j("{}")) },
    ];
    let tally = m.refresh_cooling_tokens_at(&replies, 9);
    assert_eq!((tally.checked, tally.refreshed, tally.recovered, tally.expired), (3, 3, 1, 1));
    assert_eq!(info(&m, "p", "a").last_sync_at, Some(9));
    assert!(matches!(info(&m, "p", "b").status, TokenStatus::Expired));
    assert_eq!(info(&m, "p", "c").last_sync_at, None);
}

#[test]
fn a_manager_reloads_only_when_stale() {
    let mut m = manager();
    assert!(!m.reload_if_stale(10, None));
    assert!(!m.reload_if_stale(10, Some(11)));
    assert!(m.reload_if_stale(11, Some(11)));
    m.load_at(&j("{}"), 0);
    assert_eq!(m.pools.len(), 0);
}

#[test]
fn a_scheduler_starts_once() {
    let mut s = TokenRefreshScheduler::new(0);
    assert_eq!(s.start(), Some(3600));
    assert_eq!(s.start(), None);
    s.stop();
    assert_eq!(s.start(), Some(3600));
    assert_eq!(TokenRefreshScheduler::new(8).start(), Some(28_800));
}

#[test]
fn any_run_of_failures_counts_its_refusals() {
    let mut t = token("t");
    let mut refusals = 0;
    for i in 0..40 {
        let code = [401, 500, 403, 401, 429][i % 5];
        t.record_fail_at(code, &format!("r{i}"), i as i64);
        refusals += (code == 401) as i32;
        assert_eq!(t.fail_count, refusals);
        assert_eq!(matches!(t.status, TokenStatus::Expired), refusals >= 5);
        assert_eq!(matches!(t.status, TokenStatus::Active), refusals < 5);
    }
    assert_eq!(refusals, 16);
    assert_eq!((t.last_fail_reason.as_deref(), t.last_fail_at), (Some("r38"), Some(38)));
    assert_eq!((t.quota, t.use_count, t.last_used_at), (DEFAULT_QUOTA, 0, None));
    let mut t = token("t");
    t.record_fail_at(500, "no", 3);
    assert!(t.last_fail_reason.is_none() && t.last_fail_at.is_none());
}

#[test]
fn loaded_pools_have_names_of_their_own() {
    let m = manager();
    let names: Vec<&str> = m.pools.iter().map(|p| p.name.as_str()).collect();
    assert_eq!(names, ["odd", "ssoBasic", "ssoSuper"]);
}

#[test]
fn changes_to_tokens_leave_the_manager_loaded() {
    let mut m = manager();
    m.consume("a", EffortType::Low);
    m.record_fail("a", 401, "r");
    m.add("d", "ssoBasic");
    m.mark_asset_clear("a");
    assert!(m.initialized);
    let mut m = TokenManager::new();
    m.add("d", "ssoBasic");
    m.consume("d", EffortType::Low);
    m.record_fail("d", 401, "r");
    m.mark_asset_clear("d");
    assert!(!m.initialized);
}

#[test]
fn quota_and_use_of_a_fresh_token_add_up() {
    let mut t = token("t");
    for i in 0..40 {
        let effort = if i % 3 == 0 { EffortType::Low } else { EffortType::High };
        t.consume_at(&effort, i);
        assert_eq!(t.quota + t.use_count, DEFAULT_QUOTA);
        assert!(t.quota >= 0);
    }
    assert_eq!((t.quota, t.use_count), (0, 80));
}
