use hhh::json::JsonValue;
use hhh::pkgs::rc::index::{deep_clone_array, deep_extend, env_config_entry, rc, DefaultInput, FileLoad, RcSources};
use hhh::pkgs::rc::utils::{ini_to_json, parse, path_join, try_parse, ParseError, ParsedConfig};
use hhh::pkgs::registry_url::registry_url_for;
use serde_json::Value;

fn to_serde(v: &JsonValue) -> Value {
    match v {
        JsonValue::Null => Value::Null,
        JsonValue::Bool(b) => Value::Bool(*b),
        JsonValue::Number(n) => Value::Number(n.parse().unwrap()),
        JsonValue::String(s) => Value::String(s.clone()),
        JsonValue::Array(a) => Value::Array(a.iter().map(to_serde).collect()),
        JsonValue::Object(o) => {
            let mut m = serde_json::Map::new();
            for (k, x) in o {
                m.insert(k.clone(), to_serde(x));
            }
            Value::Object(m)
        }
    }
}

fn from_serde(v: &Value) -> JsonValue {
    match v {
        Value::Null => JsonValue::Null,
        Value::Bool(b) => JsonValue::Bool(*b),
        Value::Number(n) => JsonValue::Number(n.to_string()),
        Value::String(s) => JsonValue::String(s.clone()),
        Value::Array(a) => JsonValue::Array(a.iter().map(from_serde).collect()),
        Value::Object(o) => JsonValue::Object(o.iter().map(|(k, x)| (k.clone(), from_serde(x))).collect()),
    }
}

fn json(text: &str) -> Value {
    serde_json::from_str(text).unwrap()
}

fn value(text: &str) -> JsonValue {
    from_serde(&json(text))
}

fn vars(pairs: &[(&str, &str)]) -> Vec<(String, String)> {
    pairs.iter().map(|(k, v)| (k.to_string(), v.to_string())).collect()
}

#[test]
fn test_deep_extend() -> Result<(), String> {
    let v1 = value(r#"{"a": "1", "b": {"b_1": "b_1"}, "c": ["c_1", "c_2"], "d": 1}"#);
    let v2 = value(r#"{"a": "2"}"#);
    let v3 = value(r#"{"b": {"b_1": "B_1", "b_2": "B_2"}}"#);
    let v4 = value(r#"{"c": ["c_3"]}"#);
    let result = to_serde(&deep_extend(vec![v1, v2, v3, v4]));
    let expect = json(r#"{"a": "2", "b": {"b_1": "B_1", "b_2": "B_2"}, "c": ["c_3"], "d": 1}"#);
    if result == expect {
        Ok(())
    } else {
        Err(format!("{:#}", result))
    }
}

#[test]
fn parse_json_file() -> Result<(), String> {
    let json_content = r#"
        {
            "key": "value",
            "number": 42,
            "array": [1, 2, 3]
        }
        "#;
    let parsed_value = match parse(json_content) {
        Ok(ParsedConfig::JsonText(bytes)) => serde_json::from_slice::<Value>(&bytes).map_err(|e| format!("parse fail: {:?}", e))?,
        Ok(ParsedConfig::Value(_)) => return Err(String::from("parsed as INI")),
        Err(e) => return Err(format!("parse fail: {:?}", e)),
    };
    let expected = json(r#"{"key": "value", "number": 42, "array": [1, 2, 3]}"#);
    if parsed_value == expected {
        Ok(())
    } else {
        Err(String::from("parsed value is wrong"))
    }
}

#[test]
fn parse_ini_file() -> Result<(), String> {
    let ini_content = r#"
        //registry.npmjs.org/:_authToken=xxx
        access=public
        "#;
    let parsed_value = match parse(ini_content) {
        Ok(ParsedConfig::Value(v)) => to_serde(&v),
        Ok(ParsedConfig::JsonText(_)) => return Err(String::from("parsed as JSON")),
        Err(e) => return Err(format!("parse fail: {:?}", e)),
    };
    println!("parsed_value: {parsed_value}");
    let expected = json(r#"{"//registry.npmjs.org/": "_authToken=xxx", "access": "public"}"#);
    if expected == parsed_value {
        Ok(())
    } else {
        Err(String::from("parsed value is wrong"))
    }
}

#[test]
fn env() -> Result<(), String> {
    let n = String::from("rc");
    let env_str = String::from("_someOpt__a__b__c");
    let env_key = String::from("") + &n + &env_str;
    let env_vars = vec![(env_key, String::from("243"))];
    let prefix = String::from("") + &n + "_";
    let result = to_serde(&hhh::pkgs::rc::utils::env(&prefix, &env_vars));
    let expect_json = json(r#"{"someopt": {"a": {"b": {"c": "243"}}}}"#);
    if result == expect_json {
        Ok(())
    } else {
        Err(format!("fail: result is {:?}\n, expect is {:?}", result.to_string(), expect_json.to_string()))
    }
}

#[test]
fn deep_extend_of_nothing_is_empty_object() {
    assert_eq!(to_serde(&deep_extend(vec![])), json("{}"));
}

#[test]
fn deep_extend_skips_values_that_are_not_objects() {
    let r = deep_extend(vec![value(r#"{"a": 1}"#), value("[1, 2]"), value("3"), value("null"), value(r#""x""#)]);
    assert_eq!(to_serde(&r), json(r#"{"a": 1}"#));
}

#[test]
fn deep_extend_single_object_is_a_copy() {
    let text = r#"{"a": {"b": [1, {"c": true}], "d": null}, "e": "f", "g": 1.5}"#;
    assert_eq!(to_serde(&deep_extend(vec![value(text)])), json(text));
}

#[test]
fn deep_extend_object_replaces_scalar_and_scalar_replaces_object() {
    let r = deep_extend(vec![value(r#"{"a": 1, "b": {"x": 1}}"#), value(r#"{"a": {"y": 2}, "b": 7}"#)]);
    assert_eq!(to_serde(&r), json(r#"{"a": {"y": 2}, "b": 7}"#));
}

#[test]
fn deep_extend_merges_nested_objects_deeply() {
    let r = deep_extend(vec![
        value(r#"{"a": {"b": {"c": 1, "d": 2}}}"#),
        value(r#"{"a": {"b": {"d": 3}, "e": 4}}"#),
    ]);
    assert_eq!(to_serde(&r), json(r#"{"a": {"b": {"c": 1, "d": 3}, "e": 4}}"#));
}

#[test]
fn deep_extend_keys_are_the_union() {
    let r = to_serde(&deep_extend(vec![value(r#"{"a": 1}"#), value(r#"{"b": 2}"#), value(r#"{"c": 3}"#)]));
    let keys: Vec<&String> = r.as_object().unwrap().keys().collect();
    assert_eq!(keys, vec!["a", "b", "c"]);
}

#[test]
fn deep_clone_array_copies_items() {
    let arr = value(r#"[1, "two", {"three": {"four": 4}}, [5], null]"#);
    assert_eq!(to_serde(&deep_clone_array(&arr)), json(r#"[1, "two", {"three": {"four": 4}}, [5], null]"#));
    assert_eq!(to_serde(&deep_clone_array(&value(r#"{"a": 1}"#))), json("[]"));
}

#[test]
fn env_ignores_variables_without_the_prefix() {
    let r = hhh::pkgs::rc::utils::env("app_", &vars(&[("OTHER_x", "1"), ("appx", "2")]));
    assert_eq!(to_serde(&r), json("{}"));
}

#[test]
fn env_is_case_insensitive_and_lowercases_keys() {
    let r = hhh::pkgs::rc::utils::env("App_", &vars(&[("APP_Db__Host", "localhost"), ("app_db__port", "5432")]));
    assert_eq!(to_serde(&r), json(r#"{"db": {"host": "localhost", "port": "5432"}}"#));
}

#[test]
fn env_drops_empty_key_segments() {
    let r = hhh::pkgs::rc::utils::env("rc_", &vars(&[("rc_a____b__", "v")]));
    assert_eq!(to_serde(&r), json(r#"{"a": {"b": "v"}}"#));
}

#[test]
fn env_string_blocks_deeper_keys_in_either_order() {
    let r1 = hhh::pkgs::rc::utils::env("rc_", &vars(&[("rc_a", "1"), ("rc_a__b", "2")]));
    let r2 = hhh::pkgs::rc::utils::env("rc_", &vars(&[("rc_a__b", "2"), ("rc_a", "1")]));
    assert_eq!(to_serde(&r1), json(r#"{"a": "1"}"#));
    assert_eq!(to_serde(&r2), json(r#"{"a": "1"}"#));
}

#[test]
fn env_last_variable_sets_its_key() {
    let r = hhh::pkgs::rc::utils::env("rc_", &vars(&[("rc_x", "first"), ("RC_X", "second")]));
    assert_eq!(to_serde(&r), json(r#"{"x": "second"}"#));
}

#[test]
fn env_prefix_alone_writes_nothing() {
    let r = hhh::pkgs::rc::utils::env("rc_", &vars(&[("rc_", "1"), ("rc_____", "2")]));
    assert_eq!(to_serde(&r), json("{}"));
}

#[test]
fn parse_strips_comments_from_json() {
    let text = "  {\n  // a comment\n  \"a\": /* inline */ 1, # shell\n  \"b\": \"// not a comment\"\n}";
    match parse(text) {
        Ok(ParsedConfig::JsonText(bytes)) => {
            assert_eq!(bytes.len(), text.len());
            let v: Value = serde_json::from_slice(&bytes).unwrap();
            assert_eq!(v, json(r#"{"a": 1, "b": "// not a comment"}"#));
        }
        _ => panic!("expected JSON text"),
    }
}

#[test]
fn parse_reports_a_stray_slash() {
    assert!(matches!(parse("{ \"a\": 1 /x }"), Err(ParseError::Comments)));
    assert!(matches!(parse("{ /* open"), Err(ParseError::Comments)));
}

#[test]
fn parse_reads_ini_sections() {
    let text = "; comment\n[Server]\nHost = example.org\nflag\n[b]\nx: 1\n";
    match parse(text) {
        Ok(ParsedConfig::Value(v)) => {
            assert_eq!(to_serde(&v), json(r#"{"server": {"host": "example.org", "flag": ""}, "b": {"x": "1"}}"#));
        }
        _ => panic!("expected INI value"),
    }
}

#[test]
fn try_parse_refuses_broken_ini() {
    assert!(try_parse("[section\nkey=value").is_none());
    assert!(try_parse("=value").is_none());
    assert!(matches!(try_parse("a=b"), Some(Ok(ParsedConfig::Value(_)))));
    assert!(matches!(try_parse(" {}"), Some(Ok(ParsedConfig::JsonText(_)))));
}

#[test]
fn ini_default_section_replaces_what_came_before() {
    let sections = vec![
        ("s".to_string(), vec![("k".to_string(), Some("1".to_string()))]),
        ("default".to_string(), vec![("d".to_string(), None)]),
        ("t".to_string(), vec![("k".to_string(), Some("2".to_string()))]),
    ];
    assert_eq!(to_serde(&ini_to_json(&sections)), json(r#"{"d": "", "t": {"k": "2"}}"#));
}

#[test]
fn path_join_joins_parts_with_separators() {
    assert_eq!(path_join(vec!["a", "b", "c.txt"]), "a/b/c.txt");
    assert_eq!(path_join(vec!["/etc/", "npm", "/abs"]), "/abs");
    assert_eq!(path_join(vec![Some("x"), None, Some("y")]), "x/y");
    assert_eq!(path_join(Vec::<&str>::new()), "");
}

#[test]
fn default_input_gives_value_or_text() {
    assert!(matches!(DefaultInput::Json(JsonValue::Null).to_value(), Ok(JsonValue::Null)));
    match DefaultInput::String("{\"a\":1}".to_string()).to_value() {
        Err(t) => assert_eq!(t, "{\"a\":1}"),
        Ok(_) => panic!("text is decoded by the caller"),
    }
}

fn sources(files: Vec<(String, FileLoad)>, env_vars: Vec<(String, String)>) -> RcSources {
    RcSources {
        is_win: false,
        home: Some("/home/u".to_string()),
        cwd_rc: Some("/work/.npmrc".to_string()),
        env_config: None,
        env_vars,
        files,
    }
}

#[test]
fn rc_layers_defaults_files_and_environment() {
    let files = vec![
        ("/etc/npmrc".to_string(), FileLoad::Parsed(value(r#"{"registry": "etc", "a": {"x": 1}}"#))),
        ("/home/u/.npmrc".to_string(), FileLoad::Unparsable),
        ("/work/.npmrc".to_string(), FileLoad::Parsed(value(r#"{"a": {"y": 2}}"#))),
        ("/home/u/.config/npm".to_string(), FileLoad::Unreadable),
    ];
    let r = rc("npm", value(r#"{"registry": "default", "keep": true}"#), &sources(files, vars(&[("npm_config_registry", "env")])));
    assert_eq!(
        to_serde(&r),
        json(r#"{
            "registry": "etc", "keep": true, "a": {"x": 1, "y": 2}, "config_registry": "env",
            "configs": ["/etc/npmrc", "/home/u/.npmrc", "/work/.npmrc"], "config": "/work/.npmrc"
        }"#)
    );
}

#[test]
fn rc_without_files_is_defaults_and_environment() {
    let r = rc("app", value(r#"{"a": 1}"#), &sources(vec![], vars(&[("APP_b", "2")])));
    assert_eq!(to_serde(&r), json(r#"{"a": 1, "b": "2"}"#));
}

#[test]
fn rc_reads_a_path_once() {
    let mut s = sources(vec![("/work/.npmrc".to_string(), FileLoad::Parsed(value(r#"{"n": 1}"#)))], vec![]);
    s.env_config = Some("/work/.npmrc".to_string());
    let r = rc("npm", value("{}"), &s);
    assert_eq!(to_serde(&r), json(r#"{"n": 1, "configs": ["/work/.npmrc"], "config": "/work/.npmrc"}"#));
}

#[test]
fn rc_candidate_paths_follow_the_lookup_order() {
    let s = sources(vec![], vec![]);
    let paths = hhh::pkgs::rc::index::rc_candidate_paths("npm", &s);
    assert_eq!(
        paths,
        vec![
            "/etc/npm/config",
            "/etc/npmrc",
            "/home/u/.config/npm/config",
            "/home/u/.config/npm",
            "/home/u/.npm/config",
            "/home/u/.npmrc",
            "/work/.npmrc",
        ]
    );
    let mut w = sources(vec![], vec![]);
    w.is_win = true;
    w.home = None;
    w.cwd_rc = None;
    assert!(hhh::pkgs::rc::index::rc_candidate_paths("npm", &w).is_empty());
}

#[test]
fn deep_extend_of_an_object_with_itself_is_the_object() {
    let text = r#"{"a": {"b": {"c": [1, 2]}, "d": "e"}, "f": null}"#;
    assert_eq!(to_serde(&deep_extend(vec![value(text), value(text)])), json(text));
}

#[test]
fn rc_environment_overrides_files_and_defaults() {
    let files = vec![("/etc/npmrc".to_string(), FileLoad::Parsed(value(r#"{"registry": "file", "x": {"y": 1}}"#)))];
    let r = rc("npm", value(r#"{"registry": "default"}"#), &sources(files, vars(&[("NPM_REGISTRY", "env"), ("npm_x__z", "2")])));
    assert_eq!(
        to_serde(&r),
        json(r#"{"registry": "env", "x": {"y": 1, "z": "2"}, "configs": ["/etc/npmrc"], "config": "/etc/npmrc"}"#)
    );
}

#[test]
fn rc_later_files_override_earlier_files_and_defaults() {
    let files = vec![
        ("/etc/npmrc".to_string(), FileLoad::Parsed(value(r#"{"k": "etc", "e": "etc"}"#))),
        ("/home/u/.npmrc".to_string(), FileLoad::Parsed(value(r#"{"k": "home"}"#))),
    ];
    let r = rc("npm", value(r#"{"k": "default", "e": "default", "d": "default"}"#), &sources(files, vec![]));
    let r = to_serde(&r);
    assert_eq!(r["k"], json(r#""home""#));
    assert_eq!(r["e"], json(r#""etc""#));
    assert_eq!(r["d"], json(r#""default""#));
    let with_env = rc("npm", value(r#"{"k": "default"}"#), &sources(
        vec![("/etc/npmrc".to_string(), FileLoad::Parsed(value(r#"{"k": "etc"}"#)))],
        vars(&[("npm_k", "env")]),
    ));
    assert_eq!(to_serde(&with_env)["k"], json(r#""env""#));
}

#[test]
fn deep_extend_in_stages_equals_deep_extend_at_once() {
    let a = || value(r#"{"a": {"x": 1}, "b": [1], "c": "c"}"#);
    let b = || value(r#"{"a": {"y": 2}, "b": {"z": 3}}"#);
    let c = || value(r#"{"a": {"x": "X"}, "c": {"w": 4}}"#);
    let staged = deep_extend(vec![deep_extend(vec![a(), b()]), c()]);
    let at_once = deep_extend(vec![a(), b(), c()]);
    assert_eq!(to_serde(&staged), to_serde(&at_once));
    assert_eq!(to_serde(&at_once), json(r#"{"a": {"x": "X", "y": 2}, "b": {"z": 3}, "c": {"w": 4}}"#));
}

#[test]
fn env_config_entry_reads_the_config_variable() {
    let c = env_config_entry("npm", &vars(&[("NPM_CONFIG", "/x/rc"), ("npm_other", "1")]));
    assert_eq!(c.map(|v| to_serde(&v)), Some(json(r#""/x/rc""#)));
    assert!(env_config_entry("npm", &vars(&[("npm_registry", "r")])).is_none());
}

#[test]
fn env_does_not_depend_on_variable_order() {
    let all = [("app_a__b", "1"), ("APP_c", "2"), ("app_a__d__e", "3"), ("other", "4"), ("app_a__d__f", "5")];
    let forward = hhh::pkgs::rc::utils::env("app_", &vars(&all));
    let mut reversed = all.to_vec();
    reversed.reverse();
    let backward = hhh::pkgs::rc::utils::env("app_", &vars(&reversed));
    assert_eq!(to_serde(&forward), to_serde(&backward));
    assert_eq!(to_serde(&forward), json(r#"{"a": {"b": "1", "d": {"e": "3", "f": "5"}}, "c": "2"}"#));
}

#[test]
fn parse_tells_json_by_a_brace_after_unicode_white_space() {
    assert!(matches!(parse("\u{3000}\u{a0}\t{\"a\": 1}"), Ok(ParsedConfig::JsonText(_))));
    assert!(matches!(parse("a = {\n"), Ok(ParsedConfig::Value(_))));
    assert!(matches!(parse("x{\"a\": 1}"), Ok(ParsedConfig::Value(_))));
}

#[test]
fn registry_url_for_reads_the_npm_configuration() {
    let home_rc = |text: &str| vec![("/home/u/.npmrc".to_string(), FileLoad::Parsed(value(text)))];
    let plain = sources(vec![], vec![]);
    assert_eq!(registry_url_for(&plain, "@s").as_deref(), Some("https://registry.npmjs.org/"));
    let scoped = sources(home_rc(r#"{"@s:registry": "https://s.example/", "registry": "https://r.example/"}"#), vec![]);
    assert_eq!(registry_url_for(&scoped, "@s").as_deref(), Some("https://s.example/"));
    assert_eq!(registry_url_for(&scoped, "@t").as_deref(), Some("https://r.example/"));
    let from_env = sources(vec![], vars(&[("npm_config_registry", "https://e.example/")]));
    assert_eq!(registry_url_for(&from_env, "@s").as_deref(), Some("https://e.example/"));
    let broken = sources(home_rc(r#"{"registry": 1}"#), vec![]);
    assert_eq!(registry_url_for(&broken, "@s"), None);
}

#[test]
fn deep_extend_onto_empty_object_is_a_copy() {
    let v = || value(r#"{"a": {"b": [1, {"c": 2}]}, "d": "e"}"#);
    assert_eq!(to_serde(&deep_extend(vec![value("{}"), v()])), to_serde(&v()));
    assert_eq!(to_serde(&deep_extend(vec![v(), v()])), to_serde(&v()));
}
