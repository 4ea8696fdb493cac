use grok2api_appchat::json;
use grok2api_appchat::json::{Json, Number};
use grok2api_appchat::server::config::{deep_merge, get_value, Config};
use grok2api_appchat::server::toml::{config_to_toml, toml_to_json, Toml};

fn conv(v: &serde_json::Value) -> Json {
    match v {
        serde_json::Value::Null => Json::Null,
        serde_json::Value::Bool(b) => Json::Bool(*b),
        serde_json::Value::Number(n) => Json::Number(if let Some(u) = n.as_u64() {
            Number::Unsigned(u)
        } else if let Some(i) = n.as_i64() {
            Number::Negative(i)
        } else {
            Number::Double(n.as_f64().unwrap().to_bits())
        }),
        serde_json::Value::String(s) => Json::Str(s.clone()),
        serde_json::Value::Array(a) => Json::Array(a.iter().map(conv).collect()),
        serde_json::Value::Object(m) => {
            Json::Object(m.iter().map(|(k, v)| (k.clone(), conv(v))).collect())
        }
    }
}

fn j(s: &str) -> Json {
    conv(&serde_json::from_str(s).unwrap())
}

fn same(a: &Json, b: &str) -> bool {
    json::equal(a, &j(b))
}

#[test]
fn merge_lays_objects_on_top_of_each_other() {
    let base = j(r#"{"app":{"a":1,"b":{"c":2}},"x":[1,2]}"#);
    let over = j(r#"{"app":{"b":{"d":3}},"x":[9],"y":null}"#);
    let m = deep_merge(&base, &over);
    assert!(same(&m, r#"{"app":{"a":1,"b":{"c":2,"d":3}},"x":[9],"y":null}"#));
}

#[test]
fn merge_lets_anything_but_two_objects_win() {
    assert!(same(&deep_merge(&j(r#"{"a":1}"#), &j("7")), "7"));
    assert!(same(&deep_merge(&j("7"), &j(r#"{"a":1}"#)), r#"{"a":1}"#));
}

#[test]
fn merge_with_nothing_and_merge_twice_change_nothing() {
    let base = j(r#"{"a":{"b":1},"c":2}"#);
    let over = j(r#"{"a":{"b":5,"d":6}}"#);
    assert!(json::equal(&deep_merge(&base, &j("{}")), &base));
    let once = deep_merge(&base, &over);
    assert!(json::equal(&deep_merge(&once, &over), &once));
    assert!(json::equal(&deep_merge(&over, &over), &over));
}

#[test]
fn values_are_named_by_section_and_key() {
    let c = j(r#"{"app":{"key":"k","deep":{"x":1}},"top":true,"a.b":3}"#);
    assert!(same(&get_value(&c, "app.key").unwrap(), r#""k""#));
    assert!(same(&get_value(&c, "top").unwrap(), "true"));
    assert!(same(&get_value(&c, "app.deep.x").unwrap(), r#"{"x":1}"#));
    assert!(get_value(&c, "a.b").is_none());
    assert!(get_value(&c, "top.key").is_none());
    assert!(get_value(&c, "none").is_none());
}

#[test]
fn an_update_reads_back() {
    let mut c = Config::new();
    c.ensure_defaults(Some(j(r#"{"app":{"a":1,"b":2}}"#)));
    let plan = c.load(Some(j(r#"{"app":{"b":3}}"#)), None);
    assert!(plan.persist);
    c.adopt(plan.value);
    assert!(same(&c.get_value("app.a").unwrap(), "1"));
    assert!(same(&c.get_value("app.b").unwrap(), "3"));
    let plan = c.update(&j(r#"{"app":{"a":"new"}}"#));
    assert!(plan.persist);
    c.adopt(plan.value);
    assert!(same(&c.get_value("app.a").unwrap(), r#""new""#));
    assert!(same(&c.get_value("app.b").unwrap(), "3"));
}

#[test]
fn a_load_is_written_back_only_where_it_must_be() {
    let mut c = Config::new();
    c.ensure_defaults(Some(j(r#"{"a":1}"#)));
    assert!(!c.load(Some(j(r#"{"a":2}"#)), None).persist);
    assert!(c.load(Some(j("{}")), None).persist);
    let plan = c.load(None, Some(j(r#"{"a":2}"#)));
    assert!(plan.persist);
    assert!(same(&plan.value, r#"{"a":2}"#));
    assert!(same(&c.load(None, None).value, r#"{"a":1}"#));
}

#[test]
fn defaults_are_taken_once() {
    let mut c = Config::new();
    c.ensure_defaults(None);
    c.ensure_defaults(Some(j(r#"{"a":1}"#)));
    assert!(same(&c.load(None, None).value, "{}"));
}

#[test]
fn toml_values_stand_for_json_values() {
    let t = Toml::Table(vec![
        ("s".to_string(), Toml::Str("x".to_string())),
        ("i".to_string(), Toml::Integer(-3)),
        ("f".to_string(), Toml::Float(1.5f64.to_bits())),
        ("b".to_string(), Toml::Boolean(true)),
        ("d".to_string(), Toml::Datetime("2024-01-01".to_string())),
        ("a".to_string(), Toml::Array(vec![Toml::Integer(1)])),
    ]);
    let want = r#"{"s":"x","i":-3,"f":1.5,"b":true,"d":"2024-01-01","a":[1]}"#;
    assert!(same(&toml_to_json(t), want));
}

#[test]
fn a_config_survives_storage() {
    let text = r#"{"app":{"key":"k","n":5,"neg":-5,"x":2.5},"list":[true,"a"]}"#;
    assert!(same(&toml_to_json(config_to_toml(&j(text))), text));
}

#[test]
fn toml_has_no_null_and_no_large_integers() {
    assert!(matches!(config_to_toml(&j("null")), Toml::Str(s) if s.is_empty()));
    let half = 1u64 << 63;
    for n in [half, half + 1023, half + 1024, half + 1025, half + 3072, u64::MAX - 1024, u64::MAX] {
        match config_to_toml(&Json::Number(Number::Unsigned(n))) {
            Toml::Float(bits) => assert_eq!(bits, (n as f64).to_bits()),
            _ => panic!("expected a double"),
        }
    }
}

#[test]
fn a_stored_null_comes_back_as_an_empty_text() {
    let back = toml_to_json(config_to_toml(&j(r#"{"a":{"b":null},"c":[null,1]}"#)));
    assert!(same(&back, r#"{"a":{"b":""},"c":["",1]}"#));
    let back = toml_to_json(config_to_toml(&j("18446744073709551615")));
    assert!(same(&back, "18446744073709551616.0"));
}

#[test]
fn merging_onto_nothing_gives_the_overlay() {
    let over = r#"{"a":{"b":1},"c":[2]}"#;
    assert!(same(&deep_merge(&j("{}"), &j(over)), over));
    assert!(same(&deep_merge(&j("{}"), &j("3")), "3"));
}

#[test]
fn numbers_and_objects_are_compared_as_values() {
    assert!(same(&j(r#"{"a":1,"b":2}"#), r#"{"b":2,"a":1}"#));
    assert!(!same(&j(r#"{"a":1}"#), r#"{"a":1,"b":2}"#));
    assert!(!same(&j("1"), "1.0"));
    assert!(same(&j("-0.0"), "0.0"));
    assert!(!same(&j("[1,2]"), "[2,1]"));
}
