//! The npm registry that serves a package scope.
use vstd::prelude::*;

use crate::json::{Json, JsonValue, get_entry, get_value, json_entries};
use crate::text::concat_text;
use crate::pkgs::rc::index::{rc, rc_model, RcSources};

verus! {

/// The text of a value that is a string; the empty text for any other value.
pub open spec fn string_or_empty(v: Json) -> Seq<char> {
    match v {
        Json::Str(s) => s,
        _ => Seq::empty(),
    }
}

/// The key under which a scope names its own registry.
pub open spec fn scope_registry_key(scope: Seq<char>) -> Seq<char> {
    scope + ":registry"@
}

/// Whether the registry of `scope` can be read from `config`: it is not an
/// object, or it names the scope's registry, or `config_registry`, or holds
/// a string under `registry`.
pub open spec fn registry_url_defined(config: Json, scope: Seq<char>) -> bool {
    match config {
        Json::Object(es) => get_entry(es, scope_registry_key(scope)) is Some || get_entry(
            es,
            "config_registry"@,
        ) is Some || get_entry(es, "registry"@) matches Some(Json::Str(_)),
        _ => true,
    }
}

/// The registry URL that `config` gives for `scope`: the scope's own
/// registry where it names one, else `config_registry` where present, else
/// `registry`. A present entry that is not a string gives the empty text, as
/// does a configuration that is not an object.
pub open spec fn registry_url_of(config: Json, scope: Seq<char>) -> Seq<char> {
    match config {
        Json::Object(es) => match get_entry(es, scope_registry_key(scope)) {
            Some(v) => string_or_empty(v),
            None => match get_entry(es, "config_registry"@) {
                Some(v) => string_or_empty(v),
                None => string_or_empty(get_entry(es, "registry"@)->0),
            },
        },
        _ => Seq::empty(),
    }
}

/// The defaults under the npm configuration: the public npm registry.
pub open spec fn registry_defaults_model() -> Json {
    Json::Object(seq![("registry"@, Json::Str("https://registry.npmjs.org/"@))])
}

/// The defaults under the npm configuration, as `registry_defaults_model` says.
pub fn registry_defaults() -> (r: JsonValue)
    ensures
        r@ == registry_defaults_model(),
{
    let k = String::from_str("registry");
    let v = String::from_str("https://registry.npmjs.org/");
    let mut entries: Vec<(String, JsonValue)> = Vec::new();
    entries.push((k, JsonValue::String(v)));
    proof {
        assert(entries@.drop_last() =~= Seq::<(String, JsonValue)>::empty());
        crate::json::lemma_json_entries_index(entries@);
        assert(json_entries(entries@) =~= seq![("registry"@, Json::Str("https://registry.npmjs.org/"@))]);
    }
    JsonValue::Object(entries)
}

/// The text of a value that is a string, else the empty text.
fn text_or_empty(v: &JsonValue) -> (r: String)
    ensures
        r@ == string_or_empty(v@),
{
    match v {
        JsonValue::String(s) => s.clone(),
        _ => String::new(),
    }
}

/// Whether `registry_url_from_config` can answer for `scope`.
pub fn has_registry_url(config: &JsonValue, scope: &str) -> (r: bool)
    ensures
        r == registry_url_defined(config@, scope@),
{
    match config {
        JsonValue::Object(es) => {
            let scope_key = concat_text(scope, ":registry");
            if get_value(es, &scope_key).is_some() {
                return true;
            }
            let cr = String::from_str("config_registry");
            if get_value(es, &cr).is_some() {
                return true;
            }
            let rk = String::from_str("registry");
            match get_value(es, &rk) {
                Some(JsonValue::String(_)) => true,
                _ => false,
            }
        },
        _ => true,
    }
}

/// The registry URL that an npm configuration gives for `scope`, as
/// `registry_url_of` says.
pub fn registry_url_from_config(config: &JsonValue, scope: &str) -> (r: String)
    requires
        registry_url_defined(config@, scope@),
    ensures
        r@ == registry_url_of(config@, scope@),
{
    let mut url = String::new();
    if let JsonValue::Object(es) = config {
        let scope_key = concat_text(scope, ":registry");
        if let Some(v) = get_value(es, &scope_key) {
            url.append(text_or_empty(v).as_str());
        } else {
            let cr = String::from_str("config_registry");
            if let Some(v) = get_value(es, &cr) {
                url.append(text_or_empty(v).as_str());
            } else {
                let rk = String::from_str("registry");
                match get_value(es, &rk) {
                    Some(v) => {
                        url.append(text_or_empty(v).as_str());
                    },
                    None => {},
                }
            }
        }
    }
    url
}


/// The registry that serves `scope`, read from the npm configuration: the
/// public npm registry as the default, then the configuration files and the
/// environment found in `sources`. `None` where that configuration gives no
/// registry for `scope`.
pub fn registry_url_for(sources: &RcSources, scope: &str) -> (r: Option<String>)
    ensures
        match r {
            Some(u) => registry_url_defined(rc_model("npm"@, registry_defaults_model(), *sources), scope@)
                && u@ == registry_url_of(rc_model("npm"@, registry_defaults_model(), *sources), scope@),
            None => !registry_url_defined(rc_model("npm"@, registry_defaults_model(), *sources), scope@),
        },
{
    let config = rc("npm", registry_defaults(), sources);
    if has_registry_url(&config, scope) {
        Some(registry_url_from_config(&config, scope))
    } else {
        None
    }
}

} // verus!
