use hhh::json::JsonValue;
use hhh::pkgs::pkg_json::{
    has_requested_version, package_scope, package_url, requested_version, select_package_json, AbbreviatedMetadata,
    AbbreviatedVersion, DistTags, PackageJsonOptions, PackageJsonReturn,
};
use hhh::pkgs::registry_url::{has_registry_url, registry_defaults, registry_url_from_config};
use hhh::string_map::StringMap;
use hhh::utils::update::{check_update, UpdateCheck};

fn object(entries: &[(&str, &str)]) -> JsonValue {
    JsonValue::Object(entries.iter().map(|(k, v)| (k.to_string(), JsonValue::String(v.to_string()))).collect())
}

fn version(name: Option<&str>, v: &str) -> AbbreviatedVersion {
    AbbreviatedVersion { name: name.map(|s| s.to_string()), version: v.to_string() }
}

fn metadata() -> AbbreviatedMetadata {
    let mut tags = DistTags::new("2.0.0".to_string());
    tags.insert_tag("next".to_string(), "3.0.0-beta.1".to_string());
    tags.insert_tag("gone".to_string(), "0.0.1".to_string());
    let mut versions = StringMap::new();
    versions.insert("2.0.0".to_string(), version(Some("pkg"), "2.0.0"));
    versions.insert("3.0.0-beta.1".to_string(), version(None, "3.0.0-beta.1"));
    AbbreviatedMetadata { name: "pkg".to_string(), modified: "today".to_string(), dist_tags: tags, versions }
}

fn options(version: Option<&str>, all_versions: bool) -> PackageJsonOptions {
    PackageJsonOptions { version: version.map(|s| s.to_string()), all_versions, ..PackageJsonOptions::default() }
}

#[test]
fn registry_url_prefers_the_scope_registry() {
    let config = object(&[("@corp:registry", "https://corp/"), ("config_registry", "https://env/"), ("registry", "https://default/")]);
    assert!(has_registry_url(&config, "@corp"));
    assert_eq!(registry_url_from_config(&config, "@corp"), "https://corp/");
    assert_eq!(registry_url_from_config(&config, "@other"), "https://env/");
}

#[test]
fn registry_url_falls_back_to_registry() {
    let config = registry_defaults();
    assert!(has_registry_url(&config, "npm"));
    assert_eq!(registry_url_from_config(&config, "npm"), "https://registry.npmjs.org/");
}

#[test]
fn registry_url_of_a_non_string_entry_is_empty() {
    let config = JsonValue::Object(vec![("@s:registry".to_string(), JsonValue::Bool(true))]);
    assert_eq!(registry_url_from_config(&config, "@s"), "");
    assert_eq!(registry_url_from_config(&JsonValue::Null, "@s"), "");
}

#[test]
fn registry_url_needs_some_registry() {
    let config = JsonValue::Object(vec![("registry".to_string(), JsonValue::Null)]);
    assert!(!has_registry_url(&config, "npm"));
}

#[test]
fn package_scope_is_the_name_up_to_the_first_slash() {
    assert_eq!(package_scope("@modern-js/app-tools"), "@modern-js");
    assert_eq!(package_scope("package-json"), "package-json");
    assert_eq!(package_scope("a/b/c"), "a");
    assert_eq!(package_scope(""), "");
}

#[test]
fn package_url_encodes_the_name_and_keeps_a_leading_at() {
    assert_eq!(package_url("https://registry.npmjs.org/", "@scope/pkg").unwrap(), "https://registry.npmjs.org/@scope%2Fpkg");
    assert_eq!(package_url("https://r.example", "package-json").unwrap(), "https://r.example/package-json");
    assert_eq!(package_url("https://r.example/", "a b@c~d").unwrap(), "https://r.example/a%20b%40c~d");
    assert_eq!(package_url("https://r.example", "é").unwrap(), "https://r.example/%C3%A9");
}

#[test]
fn requested_version_defaults_to_latest() {
    assert_eq!(requested_version(&PackageJsonOptions::default()), "latest");
    assert_eq!(requested_version(&options(None, false)), "latest");
    assert_eq!(requested_version(&options(Some("next"), false)), "next");
}

#[test]
fn select_package_json_follows_the_tag() {
    let meta = metadata();
    let opts = options(Some("latest"), false);
    assert!(has_requested_version(&meta, &opts));
    match select_package_json(meta, &opts) {
        PackageJsonReturn::Version(v) => {
            assert_eq!(v.version, "2.0.0");
            assert_eq!(v.name.as_deref(), Some("pkg"));
        }
        _ => panic!("expected a version"),
    }
    match select_package_json(metadata(), &options(Some("next"), false)) {
        PackageJsonReturn::Version(v) => assert_eq!(v.version, "3.0.0-beta.1"),
        _ => panic!("expected a version"),
    }
}

#[test]
fn select_package_json_unknown_tag_gives_nothing() {
    assert!(matches!(select_package_json(metadata(), &options(Some("canary"), false)), PackageJsonReturn::NotFound));
}

#[test]
fn select_package_json_all_versions() {
    match select_package_json(metadata(), &options(Some("canary"), true)) {
        PackageJsonReturn::OnlyAllVersions(m) => assert_eq!(m.name, "pkg"),
        _ => panic!("expected all versions"),
    }
}

#[test]
fn tag_naming_a_missing_version_is_detected() {
    assert!(!has_requested_version(&metadata(), &options(Some("gone"), false)));
}

#[test]
fn dist_tags_read_back_what_was_written() {
    let mut tags = DistTags::new("1.0.0".to_string());
    assert_eq!(tags.latest().map(|s| s.as_str()), Some("1.0.0"));
    assert_eq!(tags.get_tag("beta"), None);
    tags.insert_tag("beta".to_string(), "2.0.0-b".to_string());
    tags.insert_tag("latest".to_string(), "1.1.0".to_string());
    assert_eq!(tags.get_tag("beta").map(|s| s.as_str()), Some("2.0.0-b"));
    assert_eq!(tags.latest().map(|s| s.as_str()), Some("1.1.0"));
    assert_eq!(tags.map.entries().len(), 2);
}

#[test]
fn abbreviated_version_create_copies() {
    let v = version(Some("n"), "1.2.3");
    let c = v.create();
    assert_eq!(c.name.as_deref(), Some("n"));
    assert_eq!(c.version, "1.2.3");
}

#[test]
fn string_map_insert_replaces() {
    let mut m: StringMap<u32> = StringMap::new();
    assert!(!m.contains_key("a"));
    m.insert("a".to_string(), 1);
    m.insert("b".to_string(), 2);
    m.insert("a".to_string(), 3);
    assert_eq!(m.get("a"), Some(&3));
    assert_eq!(m.get("b"), Some(&2));
    assert!(m.contains_key("b"));
    assert_eq!(m.entries().len(), 2);
}

#[test]
fn check_update_compares_semantic_versions() {
    let latest = |v: &str| PackageJsonReturn::Version(version(None, v));
    assert!(matches!(check_update("0.1.0", &latest("0.2.0")), UpdateCheck::Outdated));
    assert!(matches!(check_update("0.10.0", &latest("0.9.0")), UpdateCheck::UpToDate));
    assert!(matches!(check_update("1.0.0", &latest("1.0.0-rc.1")), UpdateCheck::UpToDate));
    assert!(matches!(check_update("1.0.0-rc.1", &latest("1.0.0")), UpdateCheck::Outdated));
    assert!(matches!(check_update("1.0.0", &latest("v1.0.1")), UpdateCheck::BadVersion));
    assert!(matches!(check_update("1.0.0", &PackageJsonReturn::NotFound), UpdateCheck::NoLatest));
}

#[test]
fn package_url_restores_only_a_leading_at() {
    assert_eq!(package_url("https://r.example", "@a/@b").unwrap(), "https://r.example/@a%2F%40b");
    assert_eq!(package_url("https://r.example", "").unwrap(), "https://r.example/");
}
