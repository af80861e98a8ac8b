//! Layered configuration: the deep merge of configuration values, and the
//! assembly of a program's configuration from its defaults, its files and
//! its environment.
use vstd::prelude::*;

use crate::json::{
    Json, JsonValue, json_of, json_seq, json_entries, lemma_json_entries_index, lemma_json_seq_index,
    get_entry, put_entry, find_key, clone_entries, clone_json, put_value, unique_keys, json_wf,
    entries_wf, items_wf, lemma_get_put, lemma_get_unique_last, lemma_key_absent, lemma_entries_wf_index, lemma_items_wf_index,
    lemma_get_entry_wf, lemma_put_entry_wf,
};
use crate::paths::{joined, join};
use crate::pkgs::rc::utils::{env, env_model, pair_texts};
use crate::text::{concat_text, find_text, position_of, texts};

verus! {

/// The entries of `acc` after writing the entries of `src` onto them, one
/// by one in order. An object written onto an object is merged into it; any
/// other value replaces what was there.
pub open spec fn merge_entries(acc: Seq<(Seq<char>, Json)>, src: Seq<(Seq<char>, Json)>) -> Seq<
    (Seq<char>, Json),
>
    decreases src,
{
    if src.len() == 0 {
        acc
    } else {
        let prev = merge_entries(acc, src.drop_last());
        let k = src.last().0;
        put_entry(prev, k, merged_value(get_entry(prev, k), src.last().1))
    }
}

/// What a key holds after `v` is written onto its old value `old`.
pub open spec fn merged_value(old: Option<Json>, v: Json) -> Json
    decreases v,
{
    match v {
        Json::Object(ve) => Json::Object(
            merge_entries(
                match old {
                    Some(Json::Object(oe)) => oe,
                    _ => Seq::empty(),
                },
                ve,
            ),
        ),
        _ => v,
    }
}

/// The entries of the deep merge of `values`, taken from first to last;
/// values that are not objects are passed over.
pub open spec fn extend_entries(values: Seq<Json>) -> Seq<(Seq<char>, Json)>
    decreases values.len(),
{
    if values.len() == 0 {
        Seq::empty()
    } else {
        let prev = extend_entries(values.drop_last());
        match values.last() {
            Json::Object(xe) => merge_entries(prev, xe),
            _ => prev,
        }
    }
}

/// The deep merge of `values`.
pub open spec fn deep_extended(values: Seq<Json>) -> Json {
    Json::Object(extend_entries(values))
}

/// Writes the entries of `src` onto `acc`, as `merge_entries` says.
pub fn merge_object(acc: &mut Vec<(String, JsonValue)>, src: &Vec<(String, JsonValue)>)
    ensures
        json_entries(final(acc)@) == merge_entries(json_entries(old(acc)@), json_entries(src@)),
    decreases src@,
{
    let ghost acc0 = json_entries(acc@);
    let n = src.len();
    proof {
        lemma_json_entries_index(src@);
        assert(src@.take(0) =~= Seq::<(String, JsonValue)>::empty());
    }
    for i in 0..n
        invariant
            n == src@.len(),
            json_entries(src@).len() == n,
            forall|j: int|
                0 <= j < n ==> #[trigger] json_entries(src@)[j] == (src@[j].0@, json_of(
                    src@[j].1,
                )),
            json_entries(acc@) == merge_entries(acc0, json_entries(src@.take(i as int))),
        decreases n - i,
    {
        let ghost prev = json_entries(acc@);
        let ghost taken = json_entries(src@.take(i + 1));
        proof {
            assert(src@.take(i + 1).drop_last() =~= src@.take(i as int));
            assert(taken.drop_last() == json_entries(src@.take(i as int)));
            assert(taken.last() == (src@[i as int].0@, json_of(src@[i as int].1)));
        }
        let k = &src[i].0;
        let pos = find_key(acc, k);
        proof {
            lemma_json_entries_index(acc@);
        }
        let new_value = match &src[i].1 {
            JsonValue::Object(ve) => {
                let mut base: Vec<(String, JsonValue)> = match pos {
                    Some(p) => match &acc[p].1 {
                        JsonValue::Object(oe) => clone_entries(oe),
                        _ => Vec::new(),
                    },
                    None => Vec::new(),
                };
                proof {
                    assert(decreases_to!(src@ => src@[i as int]));
                }
                merge_object(&mut base, ve);
                JsonValue::Object(base)
            },
            other => clone_json(other),
        };
        assert(new_value@ == merged_value(get_entry(prev, k@), json_of(src@[i as int].1)));
        put_value(acc, k.clone(), new_value);
    }
    proof {
        assert(src@.take(n as int) =~= src@);
    }
}

/// Deep merge of `values`, from first to last: later values override earlier
/// ones key by key, objects are merged recursively, and values that are not
/// objects are passed over. The result is always an object.
pub fn deep_extend(values: Vec<JsonValue>) -> (r: JsonValue)
    ensures
        r@ == deep_extended(json_seq(values@)),
        (forall|i: int| 0 <= i < values@.len() ==> json_wf(#[trigger] values@[i]@)) ==> json_wf(r@),
{
    proof {
        if forall|i: int| 0 <= i < values@.len() ==> json_wf(#[trigger] values@[i]@) {
            lemma_json_seq_index(values@);
            assert forall|i: int| 0 <= i < json_seq(values@).len() implies json_wf(#[trigger] json_seq(values@)[i]) by {
                assert(json_seq(values@)[i] == values@[i]@);
            }
            lemma_extend_wf(json_seq(values@));
        }
    }
    let mut acc: Vec<(String, JsonValue)> = Vec::new();
    let n = values.len();
    proof {
        lemma_json_seq_index(values@);
        assert(values@.take(0) =~= Seq::<JsonValue>::empty());
    }
    for i in 0..n
        invariant
            n == values@.len(),
            json_seq(values@).len() == n,
            forall|j: int| 0 <= j < n ==> #[trigger] json_seq(values@)[j] == json_of(values@[j]),
            json_entries(acc@) == extend_entries(json_seq(values@.take(i as int))),
        decreases n - i,
    {
        proof {
            assert(values@.take(i + 1).drop_last() =~= values@.take(i as int));
            assert(values@.take(i + 1).last() == values@[i as int]);
            assert(json_seq(values@.take(i + 1)) == json_seq(values@.take(i as int)).push(
                json_of(values@[i as int]),
            ));
            assert(json_seq(values@.take(i + 1)).drop_last() =~= json_seq(values@.take(i as int)));
        }
        match &values[i] {
            JsonValue::Object(xe) => {
                merge_object(&mut acc, xe);
            },
            _ => {},
        }
    }
    proof {
        assert(values@.take(n as int) =~= values@);
    }
    JsonValue::Object(acc)
}


/// What `deep_clone_array` makes of an item: an object is copied through a
/// merge onto an empty object; anything else is kept.
pub open spec fn copied_item(item: Json) -> Json {
    match item {
        Json::Object(_) => deep_extended(seq![Json::Object(Seq::empty()), item]),
        _ => item,
    }
}

/// What `deep_clone_array` makes of a value: the array of its copied items
/// where it is an array, else the empty array.
pub open spec fn cloned_array(arr: Json) -> Json {
    match arr {
        Json::Array(items) => Json::Array(items.map_values(|item: Json| copied_item(item))),
        _ => Json::Array(Seq::empty()),
    }
}

/// A copy of an array whose objects are copied through `deep_extend`; a value
/// that is not an array gives the empty array.
pub fn deep_clone_array(arr: &JsonValue) -> (r: JsonValue)
    ensures
        r@ == cloned_array(arr@),
{
    let mut clone: Vec<JsonValue> = Vec::new();
    if let JsonValue::Array(items) = arr {
        let n = items.len();
        proof {
            lemma_json_seq_index(items@);
        }
        for i in 0..n
            invariant
                n == items@.len(),
                json_seq(items@).len() == n,
                forall|j: int| 0 <= j < n ==> #[trigger] json_seq(items@)[j] == json_of(items@[j]),
                clone@.len() == i,
                forall|j: int|
                    0 <= j < i ==> json_of(#[trigger] clone@[j]) == copied_item(json_of(items@[j])),
        {
            let item = &items[i];
            let copy = match item {
                JsonValue::Object(_) => {
                    let empty = JsonValue::Object(Vec::new());
                    let parts = vec![empty, clone_json(item)];
                    proof {
                        lemma_json_seq_index(parts@);
                        assert(json_seq(parts@) =~= seq![
                            Json::Object(Seq::empty()),
                            json_of(*item),
                        ]);
                    }
                    deep_extend(parts)
                },
                _ => clone_json(item),
            };
            clone.push(copy);
        }
        proof {
            lemma_json_seq_index(clone@);
            assert(json_seq(clone@) =~= json_seq(items@).map_values(
                |item: Json| copied_item(item),
            ));
        }
    } else {
        proof {
            assert(json_seq(clone@) =~= Seq::<Json>::empty());
        }
    }
    JsonValue::Array(clone)
}

// ---------------------------------------------------------------------------
// Assembling a program's configuration
/// The defaults of a configuration: JSON text, or a value.
pub enum DefaultInput {
    String(String),
    Json(JsonValue),
}

impl DefaultInput {
    /// The defaults as a value where they are one; JSON text comes back as
    /// `Err`, for the caller to decode.
    pub fn to_value(self) -> (r: Result<JsonValue, String>)
        ensures
            match self {
                DefaultInput::Json(v) => r matches Ok(w) && w == v,
                DefaultInput::String(t) => r matches Err(u) && u == t,
            },
    {
        match self {
            DefaultInput::String(s) => Err(s),
            DefaultInput::Json(v) => Ok(v),
        }
    }
}

/// What looking for one configuration file gave.
pub enum FileLoad {
    /// The file could not be read.
    Unreadable,
    /// The file was read, but its text did not parse.
    Unparsable,
    /// The file was read and parsed to this value.
    Parsed(JsonValue),
}

/// The model of a lookup: `None` for an unreadable file, `Some(None)` for
/// one that did not parse, `Some(Some(v))` for one that parsed to `v`.
pub open spec fn load_model(l: FileLoad) -> Option<Option<Json>> {
    match l {
        FileLoad::Unreadable => None,
        FileLoad::Unparsable => Some(None),
        FileLoad::Parsed(v) => Some(Some(v@)),
    }
}

/// Everything outside the program that its configuration is read from.
pub struct RcSources {
    /// Whether the platform is Windows (no `/etc` files there).
    pub is_win: bool,
    /// The home directory (`HOME`, or `USERPROFILE` on Windows), if set.
    pub home: Option<String>,
    /// The path of the `.<name>rc` file found from the working directory up, if any.
    pub cwd_rc: Option<String>,
    /// The JSON text of the `config` entry of the environment configuration, if it has one.
    pub env_config: Option<String>,
    /// The environment variables, in the order in which they are read.
    pub env_vars: Vec<(String, String)>,
    /// What reading each configuration file gave, by path; a path not listed
    /// could not be read.
    pub files: Vec<(String, FileLoad)>,
}

/// The texts of an optional string.
pub open spec fn opt_text(o: Option<String>) -> Seq<Seq<char>> {
    match o {
        Some(s) => seq![s@],
        None => Seq::empty(),
    }
}

/// The paths of the configuration files looked for, in order: under `/etc`
/// (not on Windows), under the home directory, the `.<name>rc` found from
/// the working directory up, and the file that the environment names.
pub open spec fn rc_candidates(name: Seq<char>, s: RcSources) -> Seq<Seq<char>> {
    let etc = if !s.is_win {
        seq![joined(joined("/etc"@, name), "config"@), joined("/etc"@, name + "rc"@)]
    } else {
        Seq::empty()
    };
    let home = match s.home {
        Some(h) => seq![
            joined(joined(joined(h@, ".config"@), name), "config"@),
            joined(joined(h@, ".config"@), name),
            joined(joined(h@, "."@ + name), "config"@),
            joined(h@, "."@ + name + "rc"@),
        ],
        None => Seq::empty(),
    };
    etc + home + opt_text(s.cwd_rc) + opt_text(s.env_config)
}

/// The paths of the file table.
pub open spec fn load_paths(files: Seq<(String, FileLoad)>) -> Seq<Seq<char>> {
    files.map_values(|e: (String, FileLoad)| e.0@)
}

/// What the file table says of `path`.
pub open spec fn load_of(files: Seq<(String, FileLoad)>, path: Seq<char>) -> Option<Option<Json>> {
    match position_of(load_paths(files), path) {
        Some(i) => load_model(files[i].1),
        None => None,
    }
}

/// The configurations and file paths gathered after looking at `path`: a path
/// already gathered is passed over; a readable file adds its path, and its
/// value when it parsed.
pub open spec fn add_config_file(
    state: (Seq<Json>, Seq<Seq<char>>),
    path: Seq<char>,
    files: Seq<(String, FileLoad)>,
) -> (Seq<Json>, Seq<Seq<char>>) {
    if state.1.contains(path) {
        state
    } else {
        match load_of(files, path) {
            None => state,
            Some(None) => (state.0, state.1.push(path)),
            Some(Some(v)) => (state.0.push(v), state.1.push(path)),
        }
    }
}

/// The configurations and file paths gathered from the candidate paths, in order.
pub open spec fn gathered(
    start: (Seq<Json>, Seq<Seq<char>>),
    paths: Seq<Seq<char>>,
    files: Seq<(String, FileLoad)>,
) -> (Seq<Json>, Seq<Seq<char>>)
    decreases paths.len(),
{
    if paths.len() == 0 {
        start
    } else {
        add_config_file(gathered(start, paths.drop_last(), files), paths.last(), files)
    }
}

/// The object that records the files read: all of their paths, and the last.
pub open spec fn files_record(paths: Seq<Seq<char>>) -> Json {
    Json::Object(
        seq![
            ("configs"@, Json::Array(paths.map_values(|p: Seq<char>| Json::Str(p)))),
            ("config"@, Json::Str(paths.last())),
        ],
    )
}

/// A file's value, where it parsed, is well formed.
pub open spec fn load_wf(l: FileLoad) -> bool {
    match l {
        FileLoad::Parsed(v) => json_wf(v@),
        _ => true,
    }
}

/// Every file of the table that parsed holds a well-formed value.
pub open spec fn files_wf(files: Seq<(String, FileLoad)>) -> bool {
    forall|i: int| 0 <= i < files.len() ==> load_wf(#[trigger] files[i].1)
}

/// The configuration of program `name`: the defaults, then each configuration
/// file that parsed, then the environment, then (where any file was read) the
/// record of the files read, merged in that order.
pub open spec fn rc_model(name: Seq<char>, defaults: Json, s: RcSources) -> Json {
    let g = gathered((seq![defaults], Seq::empty()), rc_candidates(name, s), s.files@);
    let env = env_model(name + "_"@, pair_texts(s.env_vars@));
    let layers = g.0.push(env);
    deep_extended(
        if g.1.len() > 0 {
            layers.push(files_record(g.1))
        } else {
            layers
        },
    )
}

/// What the file table says of `path`.
fn find_load<'a>(files: &'a Vec<(String, FileLoad)>, path: &str) -> (r: Option<&'a FileLoad>)
    ensures
        match r {
            Some(l) => load_of(files@, path@) == load_model(*l),
            None => load_of(files@, path@) is None,
        },
{
    let ghost ps = load_paths(files@);
    let pc = String::from_str(path);
    for i in 0..files.len()
        invariant
            ps == load_paths(files@),
            pc@ == path@,
            forall|j: int| 0 <= j < i ==> ps[j] != path@,
    {
        if files[i].0 == pc {
            proof {
                crate::text::lemma_position_of(ps, path@, i as int);
            }
            return Some(&files[i].1);
        }
    }
    proof {
        crate::text::lemma_position_of(ps, path@, files@.len() as int);
    }
    None
}

/// Looks at one candidate path, as `add_config_file` says.
fn add_config_file_exec(
    configs: &mut Vec<JsonValue>,
    config_files: &mut Vec<String>,
    path: String,
    files: &Vec<(String, FileLoad)>,
)
    ensures
        (json_seq(final(configs)@), texts(final(config_files)@)) == add_config_file(
            (json_seq(old(configs)@), texts(old(config_files)@)),
            path@,
            files@,
        ),
{
    let listed = find_text(config_files, path.as_str());
    proof {
        crate::text::lemma_position_of_found(texts(config_files@), path@);
    }
    if listed.is_some() {
        return;
    }
    match find_load(files, path.as_str()) {
        None | Some(FileLoad::Unreadable) => {},
        Some(FileLoad::Unparsable) => {
            let ghost before = config_files@;
            config_files.push(path);
            assert(texts(config_files@) =~= texts(before).push(path@));
        },
        Some(FileLoad::Parsed(v)) => {
            let ghost before = config_files@;
            let ghost cbefore = configs@;
            configs.push(clone_json(v));
            config_files.push(path);
            assert(texts(config_files@) =~= texts(before).push(path@));
            assert(configs@.drop_last() =~= cbefore);
        },
    }
}

/// The candidate configuration file paths, as `rc_candidates` says.
pub fn rc_candidate_paths(name: &str, sources: &RcSources) -> (r: Vec<String>)
    ensures
        texts(r@) == rc_candidates(name@, *sources),
{
    let mut paths: Vec<String> = Vec::new();
    let ghost mut expect: Seq<Seq<char>> = Seq::empty();
    if !sources.is_win {
        let etc_name = join("/etc", name);
        paths.push(join(etc_name.as_str(), "config"));
        let name_rc = concat_text(name, "rc");
        paths.push(join("/etc", name_rc.as_str()));
    }
    if let Some(home) = &sources.home {
        let config_dir = join(home.as_str(), ".config");
        let config_name = join(config_dir.as_str(), name);
        paths.push(join(config_name.as_str(), "config"));
        paths.push(config_name);
        let dot_name = concat_text(".", name);
        let home_dot = join(home.as_str(), dot_name.as_str());
        paths.push(join(home_dot.as_str(), "config"));
        let dot_name_rc = concat_text(dot_name.as_str(), "rc");
        paths.push(join(home.as_str(), dot_name_rc.as_str()));
    }
    if let Some(cwd_rc) = &sources.cwd_rc {
        paths.push(cwd_rc.clone());
    }
    if let Some(env_config) = &sources.env_config {
        paths.push(env_config.clone());
    }
    proof {
        assert(texts(paths@) =~= rc_candidates(name@, *sources));
    }
    paths
}

/// The configuration of program `name`, as `rc_model` says: the defaults,
/// the configuration files that parsed, the environment variables prefixed
/// `<name>_`, and the record of the files read, deeply merged in that order.
pub fn rc(name: &str, defaults: JsonValue, sources: &RcSources) -> (r: JsonValue)
    ensures
        r@ == rc_model(name@, defaults@, *sources),
        json_wf(defaults@) && files_wf(sources.files@) ==> json_wf(r@),
{
    proof {
        if json_wf(defaults@) && files_wf(sources.files@) {
            law_rc_wf(name@, defaults@, *sources);
        }
    }
    let prefix = concat_text(name, "_");
    let env_value = env(prefix.as_str(), &sources.env_vars);
    let mut configs: Vec<JsonValue> = vec![defaults];
    let mut config_files: Vec<String> = Vec::new();
    let candidates = rc_candidate_paths(name, sources);
    let ghost cs = texts(candidates@);
    let ghost start = (json_seq(configs@), texts(config_files@));
    proof {
        lemma_json_seq_index(configs@);
        assert(json_seq(configs@) =~= seq![defaults@]);
        assert(texts(config_files@) =~= Seq::<Seq<char>>::empty());
    }
    for i in 0..candidates.len()
        invariant
            cs == texts(candidates@),
            cs == rc_candidates(name@, *sources),
            start == (seq![defaults@], Seq::<Seq<char>>::empty()),
            (json_seq(configs@), texts(config_files@)) == gathered(
                start,
                cs.take(i as int),
                sources.files@,
            ),
    {
        proof {
            assert(cs.take(i + 1).drop_last() =~= cs.take(i as int));
        }
        add_config_file_exec(&mut configs, &mut config_files, candidates[i].clone(), &sources.files);
    }
    proof {
        assert(cs.take(candidates@.len() as int) =~= cs);
    }
    let ghost g = (json_seq(configs@), texts(config_files@));
    assert(g == gathered(start, cs, sources.files@));
    assert(env_value@ == env_model(name@ + "_"@, pair_texts(sources.env_vars@)));
    let ghost before_env = configs@;
    configs.push(env_value);
    proof {
        assert(configs@.drop_last() =~= before_env);
    }
    let n = config_files.len();
    if n > 0 {
        let mut all: Vec<JsonValue> = Vec::new();
        for i in 0..n
            invariant
                n == config_files@.len(),
                all@.len() == i,
                forall|j: int|
                    0 <= j < i ==> #[trigger] json_of(all@[j]) == Json::Str(config_files@[j]@),
        {
            all.push(JsonValue::String(config_files[i].clone()));
        }
        let last = config_files[n - 1].clone();
        let configs_key = String::from_str("configs");
        let config_key = String::from_str("config");
        let entries = vec![(configs_key, JsonValue::Array(all)), (config_key, JsonValue::String(last))];
        proof {
            lemma_json_seq_index(all@);
            assert(json_seq(all@) =~= texts(config_files@).map_values(|p: Seq<char>| Json::Str(p)));
            assert(entries@.drop_last().drop_last() =~= Seq::<(String, JsonValue)>::empty());
            assert(entries@.drop_last().last() == entries@[0]);
            lemma_json_entries_index(entries@);
            assert(json_entries(entries@) =~= seq![
                ("configs"@, Json::Array(json_seq(all@))),
                ("config"@, Json::Str(texts(config_files@).last())),
            ]);
        }
        let record = JsonValue::Object(entries);
        assert(record@ == files_record(texts(config_files@)));
        let ghost before_record = configs@;
        configs.push(record);
        proof {
            assert(configs@.drop_last() =~= before_record);
            assert(json_seq(before_record) == g.0.push(env_value@));
            assert(json_seq(configs@) == g.0.push(env_value@).push(files_record(g.1)));
        }
    }
    proof {
        let layers = g.0.push(env_value@);
        if n > 0 {
            assert(json_seq(configs@) == layers.push(files_record(g.1)));
        } else {
            assert(json_seq(configs@) == layers);
        }
    }
    deep_extend(configs)
}


/// The `config` entry of the environment configuration of program `name`,
/// which the variable `<name>_config` (in any case) sets. Its JSON text (for
/// a string, the string in double quotes) is the last path looked for
/// (`RcSources::env_config`).
pub fn env_config_entry(name: &str, env_vars: &Vec<(String, String)>) -> (r: Option<JsonValue>)
    ensures
        match env_model(name@ + "_"@, pair_texts(env_vars@)) {
            Json::Object(es) => match r {
                Some(c) => get_entry(es, "config"@) == Some(c@),
                None => get_entry(es, "config"@) is None,
            },
            _ => r is None,
        },
{
    let prefix = concat_text(name, "_");
    let env_value = env(prefix.as_str(), env_vars);
    let key = String::from_str("config");
    match &env_value {
        JsonValue::Object(es) => match crate::json::get_value(es, &key) {
            Some(c) => Some(clone_json(c)),
            None => None,
        },
        _ => None,
    }
}

// ---------------------------------------------------------------------------
// Laws of the deep merge
/// Merging goes key by key.
pub proof fn lemma_merge_entries_get(
    acc: Seq<(Seq<char>, Json)>,
    src: Seq<(Seq<char>, Json)>,
    q: Seq<char>,
)
    requires
        unique_keys(src),
    ensures
        get_entry(merge_entries(acc, src), q) == match get_entry(src, q) {
            Some(v) => Some(merged_value(get_entry(acc, q), v)),
            None => get_entry(acc, q),
        },
    decreases src.len(),
{
    if src.len() > 0 {
        let d = src.drop_last();
        let k = src.last().0;
        assert(unique_keys(d));
        lemma_merge_entries_get(acc, d, q);
        let prev = merge_entries(acc, d);
        lemma_get_put(prev, k, merged_value(get_entry(prev, k), src.last().1), q);
        lemma_get_unique_last(src, q);
        if q == k {
            assert forall|j: int| 0 <= j < d.len() implies (#[trigger] d[j]).0 != k by {
                assert(src[j].0 != src[src.len() - 1].0);
            }
            lemma_key_absent(d, k);
        }
    } else {
        lemma_key_absent(src, q);
    }
}

/// Merging goes key by key: once an object is written onto the merge of
/// earlier values, each key that the object holds maps to the object's value
/// merged onto the key's earlier value (so a value that is not an object
/// simply takes its place), and every other key keeps its earlier value.
pub proof fn law_deep_extend_last_object(values: Seq<Json>, last: Seq<(Seq<char>, Json)>, q: Seq<char>)
    requires
        unique_keys(last),
    ensures
        get_entry(extend_entries(values.push(Json::Object(last))), q) == match get_entry(last, q) {
            Some(v) => Some(merged_value(get_entry(extend_entries(values), q), v)),
            None => get_entry(extend_entries(values), q),
        },
        get_entry(last, q) matches Some(v) ==> (!(v is Object) ==> get_entry(
            extend_entries(values.push(Json::Object(last))),
            q,
        ) == Some(v)),
{
    assert(values.push(Json::Object(last)).drop_last() =~= values);
    lemma_merge_entries_get(extend_entries(values), last, q);
}

/// The keys of a deep merge are the keys of the objects merged: a key is in
/// the result exactly when some object among the values holds it.
pub proof fn law_deep_extend_keys(values: Seq<Json>, q: Seq<char>)
    requires
        forall|i: int| 0 <= i < values.len() ==> (#[trigger] values[i] matches Json::Object(e) ==> unique_keys(e)),
    ensures
        get_entry(extend_entries(values), q) is Some <==> exists|i: int|
            0 <= i < values.len() && (#[trigger] values[i] matches Json::Object(e) && get_entry(e, q) is Some),
    decreases values.len(),
{
    if values.len() == 0 {
        lemma_key_absent(Seq::empty(), q);
    } else {
        let d = values.drop_last();
        assert forall|i: int| 0 <= i < d.len() implies (#[trigger] d[i] matches Json::Object(e) ==> unique_keys(e)) by {
            assert(d[i] == values[i]);
        }
        law_deep_extend_keys(d, q);
        let n = values.len() - 1;
        match values.last() {
            Json::Object(e) => {
                lemma_merge_entries_get(extend_entries(d), e, q);
            },
            _ => {},
        }
        if exists|i: int| 0 <= i < values.len() && (#[trigger] values[i] matches Json::Object(e) && get_entry(e, q) is Some) {
            let i = choose|i: int| 0 <= i < values.len() && (#[trigger] values[i] matches Json::Object(e) && get_entry(e, q) is Some);
            if i < n {
                assert(d[i] == values[i]);
            }
        }
        if exists|i: int| 0 <= i < d.len() && (#[trigger] d[i] matches Json::Object(e) && get_entry(e, q) is Some) {
            let i = choose|i: int| 0 <= i < d.len() && (#[trigger] d[i] matches Json::Object(e) && get_entry(e, q) is Some);
            assert(values[i] == d[i]);
        }
    }
}

/// Writing well-formed entries onto nothing gives them back.
pub proof fn lemma_merge_onto_empty(es: Seq<(Seq<char>, Json)>)
    requires
        unique_keys(es),
        entries_wf(es),
    ensures
        merge_entries(Seq::empty(), es) == es,
    decreases es,
{
    if es.len() > 0 {
        let d = es.drop_last();
        let k = es.last().0;
        let v = es.last().1;
        assert(unique_keys(d));
        lemma_merge_onto_empty(d);
        assert forall|j: int| 0 <= j < d.len() implies (#[trigger] d[j]).0 != k by {
            assert(es[j].0 != es[es.len() - 1].0);
        }
        lemma_key_absent(d, k);
        match v {
            Json::Object(ve) => {
                assert(json_wf(v));
                lemma_merge_onto_empty(ve);
            },
            _ => {},
        }
        assert(merged_value(None, v) == v);
        assert(d.push((k, v)) =~= es);
    }
}

/// Merging a single well-formed object gives a copy of it: the deep merge
/// of one object is that object, and so is its merge onto the empty object.
pub proof fn law_deep_extend_single(es: Seq<(Seq<char>, Json)>)
    requires
        json_wf(Json::Object(es)),
    ensures
        deep_extended(seq![Json::Object(es)]) == Json::Object(es),
        deep_extended(seq![Json::Object(Seq::empty()), Json::Object(es)]) == Json::Object(es),
{
    let two = seq![Json::Object(Seq::empty()), Json::Object(es)];
    let first = seq![Json::Object(Seq::<(Seq<char>, Json)>::empty())];
    assert(two.drop_last() =~= first);
    assert(first.drop_last() =~= Seq::<Json>::empty());
    assert(extend_entries(first.drop_last()) == Seq::<(Seq<char>, Json)>::empty());
    assert(merge_entries(Seq::empty(), Seq::empty()) == Seq::<(Seq<char>, Json)>::empty());
    assert(extend_entries(first) == Seq::<(Seq<char>, Json)>::empty());
    assert(two.last() == Json::Object(es));
    assert(extend_entries(two) == merge_entries(Seq::empty(), es));
    let vs = seq![Json::Object(es)];
    assert(vs.drop_last() =~= Seq::<Json>::empty());
    assert(vs.last() == Json::Object(es));
    assert(extend_entries(vs.drop_last()) == Seq::<(Seq<char>, Json)>::empty());
    assert(extend_entries(vs) == merge_entries(extend_entries(vs.drop_last()), es));
    lemma_merge_onto_empty(es);
}

/// Copying a well-formed array through `deep_clone_array` gives it back.
pub proof fn law_deep_clone_array_copies(items: Seq<Json>)
    requires
        json_wf(Json::Array(items)),
    ensures
        cloned_array(Json::Array(items)) == Json::Array(items),
{
    assert forall|i: int| 0 <= i < items.len() implies #[trigger] copied_item(items[i]) == items[i] by {
        lemma_items_wf_index(items, i);
        match items[i] {
            Json::Object(e) => {
                let vs = seq![Json::Object(Seq::empty()), items[i]];
                let v1 = seq![Json::Object(Seq::empty())];
                assert(vs.drop_last() =~= v1);
                assert(v1.drop_last() =~= Seq::<Json>::empty());
                assert(v1.last() == Json::Object(Seq::empty()));
                assert(extend_entries(v1.drop_last()) == Seq::<(Seq<char>, Json)>::empty());
                assert(merge_entries(Seq::empty(), Seq::empty()) == Seq::<(Seq<char>, Json)>::empty());
                assert(extend_entries(v1) == Seq::<(Seq<char>, Json)>::empty());
                assert(vs.last() == Json::Object(e));
                assert(extend_entries(vs) == merge_entries(Seq::empty(), e));
                lemma_merge_onto_empty(e);
            },
            _ => {},
        }
    }
    assert(items.map_values(|item: Json| copied_item(item)) =~= items);
}


/// Where any configuration file was read, the configuration records them:
/// `config` holds the path of the last one read and `configs` the paths of
/// all of them, in the order read, whatever the files and the environment say.
pub proof fn law_rc_records_files(name: Seq<char>, defaults: Json, s: RcSources)
    requires
        gathered((seq![defaults], Seq::empty()), rc_candidates(name, s), s.files@).1.len() > 0,
    ensures
        ({
            let files = gathered((seq![defaults], Seq::empty()), rc_candidates(name, s), s.files@).1;
            rc_model(name, defaults, s) matches Json::Object(es) && get_entry(es, "config"@) == Some(
                Json::Str(files.last()),
            ) && get_entry(es, "configs"@) == Some(
                Json::Array(files.map_values(|p: Seq<char>| Json::Str(p))),
            )
        }),
{
    let g = gathered((seq![defaults], Seq::empty()), rc_candidates(name, s), s.files@);
    let env = crate::pkgs::rc::utils::env_model(name + "_"@, pair_texts(s.env_vars@));
    let layers = g.0.push(env);
    let rec = seq![
        ("configs"@, Json::Array(g.1.map_values(|p: Seq<char>| Json::Str(p)))),
        ("config"@, Json::Str(g.1.last())),
    ];
    assert(unique_keys(rec)) by {
        reveal_strlit("configs");
        reveal_strlit("config");
        assert("configs"@.len() != "config"@.len());
    }
    law_deep_extend_last_object(layers, rec, "config"@);
    law_deep_extend_last_object(layers, rec, "configs"@);
    crate::json::lemma_get_unique_last(rec, "config"@);
    crate::json::lemma_get_unique_last(rec, "configs"@);
    let d = rec.drop_last();
    assert(d =~= seq![("configs"@, Json::Array(g.1.map_values(|p: Seq<char>| Json::Str(p))))]);
    crate::json::lemma_key_position(d, "configs"@, 0);
}


/// Writing well-formed entries onto themselves changes nothing.
pub proof fn lemma_merge_self(es: Seq<(Seq<char>, Json)>)
    requires
        unique_keys(es),
        entries_wf(es),
    ensures
        merge_entries(es, es) == es,
    decreases es, 1int, 0int,
{
    lemma_merge_self_prefix(es, es.len() as int);
    assert(es.take(es.len() as int) =~= es);
}

/// Writing the first `i` entries of well-formed entries onto them changes nothing.
pub proof fn lemma_merge_self_prefix(es: Seq<(Seq<char>, Json)>, i: int)
    requires
        unique_keys(es),
        entries_wf(es),
        0 <= i <= es.len(),
    ensures
        merge_entries(es, es.take(i)) == es,
    decreases es, 0int, i,
{
    if i > 0 {
        let t = es.take(i);
        assert(t.drop_last() =~= es.take(i - 1));
        assert(t.last() == es[i - 1]);
        lemma_merge_self_prefix(es, i - 1);
        let k = es[i - 1].0;
        let v = es[i - 1].1;
        assert forall|j: int| 0 <= j < i - 1 implies (#[trigger] es[j]).0 != k by {
            assert(es[j].0 != es[i - 1].0);
        }
        crate::json::lemma_key_position(es, k, i - 1);
        lemma_entries_wf_index(es, i - 1);
        match v {
            Json::Object(ve) => {
                assert(decreases_to!(es => es[i - 1]));
                lemma_merge_self(ve);
            },
            _ => {},
        }
        assert(merged_value(Some(v), v) == v);
        assert(es.update(i - 1, (k, v)) =~= es);
    } else {
        assert(es.take(0) =~= Seq::<(Seq<char>, Json)>::empty());
    }
}

/// Merging a well-formed object with itself gives it back: layering the same
/// configuration twice is the same as layering it once.
pub proof fn law_deep_extend_idempotent(es: Seq<(Seq<char>, Json)>)
    requires
        json_wf(Json::Object(es)),
    ensures
        deep_extended(seq![Json::Object(es), Json::Object(es)]) == Json::Object(es),
{
    let vs = seq![Json::Object(es), Json::Object(es)];
    let v1 = seq![Json::Object(es)];
    assert(vs.drop_last() =~= v1);
    assert(v1.drop_last() =~= Seq::<Json>::empty());
    assert(extend_entries(v1.drop_last()) == Seq::<(Seq<char>, Json)>::empty());
    assert(extend_entries(v1) == merge_entries(Seq::empty(), es));
    lemma_merge_onto_empty(es);
    assert(extend_entries(vs) == merge_entries(es, es));
    lemma_merge_self(es);
}

/// The top-level keys of the environment configuration are listed once each.
pub proof fn lemma_env_keys_unique(prefix: Seq<char>, vars: Seq<(Seq<char>, Seq<char>)>)
    ensures
        env_model(prefix, vars) matches Json::Object(es) && unique_keys(es),
    decreases vars.len(),
{
    crate::pkgs::rc::utils::law_env_is_object(prefix, vars);
    if vars.len() > 0 {
        lemma_env_keys_unique(prefix, vars.drop_last());
        let acc = env_model(prefix, vars.drop_last());
        let path = crate::pkgs::rc::utils::key_path(
            crate::text::lowercase_of(vars.last().0).skip(crate::text::lowercase_of(prefix).len() as int),
        );
        if let Json::Object(es) = acc {
            if path.len() == 1 {
                crate::json::lemma_put_entry_unique(es, path[0], Json::Str(vars.last().1));
            } else if path.len() > 1 {
                let child = match get_entry(es, path[0]) {
                    Some(c) => c,
                    None => Json::Object(Seq::empty()),
                };
                crate::json::lemma_put_entry_unique(
                    es,
                    path[0],
                    crate::pkgs::rc::utils::insert_path(child, path.drop_first(), vars.last().1),
                );
            }
        }
    }
}

/// The environment overrides the defaults and the configuration files: a
/// key that the environment configuration sets to a value other than an
/// object holds that value in the program's configuration (the keys
/// `configs` and `config`, which record the files read, aside).
pub proof fn law_rc_environment_overrides(name: Seq<char>, defaults: Json, s: RcSources, q: Seq<char>, v: Json)
    requires
        env_model(name + "_"@, pair_texts(s.env_vars@)) matches Json::Object(ee) && get_entry(ee, q) == Some(v),
        !(v is Object),
        q != "configs"@,
        q != "config"@,
    ensures
        rc_model(name, defaults, s) matches Json::Object(es) && get_entry(es, q) == Some(v),
{
    let g = gathered((seq![defaults], Seq::empty()), rc_candidates(name, s), s.files@);
    let env = env_model(name + "_"@, pair_texts(s.env_vars@));
    lemma_env_keys_unique(name + "_"@, pair_texts(s.env_vars@));
    let layers = g.0.push(env);
    if let Json::Object(ee) = env {
        law_deep_extend_last_object(g.0, ee, q);
        assert(layers == g.0.push(Json::Object(ee)));
        if g.1.len() > 0 {
            let rec = seq![
                ("configs"@, Json::Array(g.1.map_values(|p: Seq<char>| Json::Str(p)))),
                ("config"@, Json::Str(g.1.last())),
            ];
            assert(unique_keys(rec)) by {
                reveal_strlit("configs");
                reveal_strlit("config");
                assert("configs"@.len() != "config"@.len());
            }
            law_deep_extend_last_object(layers, rec, q);
            assert forall|j: int| 0 <= j < rec.len() implies (#[trigger] rec[j]).0 != q by {}
            lemma_key_absent(rec, q);
        }
    }
}


/// A later layer wins: where one of the merged values is an object that sets
/// key `q` to a value other than an object, and no later object sets `q`,
/// the merge holds that value for `q`.
pub proof fn law_deep_extend_later_layers_win(values: Seq<Json>, i: int, q: Seq<char>, v: Json)
    requires
        0 <= i < values.len(),
        values[i] matches Json::Object(e) && unique_keys(e) && get_entry(e, q) == Some(v),
        !(v is Object),
        forall|j: int|
            i < j < values.len() ==> (#[trigger] values[j] matches Json::Object(e) ==> unique_keys(e)
                && get_entry(e, q) is None),
    ensures
        get_entry(extend_entries(values), q) == Some(v),
    decreases values.len(),
{
    let n = values.len() - 1;
    let d = values.drop_last();
    if i == n {
        if let Json::Object(e) = values[i] {
            assert(values =~= d.push(Json::Object(e)));
            law_deep_extend_last_object(d, e, q);
        }
    } else {
        assert forall|j: int| i < j < d.len() implies (#[trigger] d[j] matches Json::Object(e) ==> unique_keys(e)
            && get_entry(e, q) is None) by {
            assert(d[j] == values[j]);
        }
        assert(d[i] == values[i]);
        law_deep_extend_later_layers_win(d, i, q, v);
        assert(values.last() == values[n]);
        match values[n] {
            Json::Object(e) => {
                lemma_merge_entries_get(extend_entries(d), e, q);
            },
            _ => {},
        }
    }
}

/// Configuration files override the defaults, and a file found later in the
/// search order overrides one found earlier: the layers gathered are the
/// defaults first, then each file that parsed, in the order looked for.
/// Where layer `i` sets key `q` to a value other than an object, and neither
/// a later layer nor the environment sets `q`, the program's configuration
/// holds that value (the keys `configs` and `config`, which record the files
/// read, aside).
pub proof fn law_rc_later_layers_override(
    name: Seq<char>,
    defaults: Json,
    s: RcSources,
    i: int,
    q: Seq<char>,
    v: Json,
)
    requires
        ({
            let layers = gathered((seq![defaults], Seq::empty()), rc_candidates(name, s), s.files@).0;
            &&& 0 <= i < layers.len()
            &&& layers[i] matches Json::Object(e) && unique_keys(e) && get_entry(e, q) == Some(v)
            &&& forall|j: int|
                i < j < layers.len() ==> (#[trigger] layers[j] matches Json::Object(e) ==> unique_keys(e)
                    && get_entry(e, q) is None)
        }),
        !(v is Object),
        env_model(name + "_"@, pair_texts(s.env_vars@)) matches Json::Object(ee) && get_entry(ee, q) is None,
        q != "configs"@,
        q != "config"@,
    ensures
        rc_model(name, defaults, s) matches Json::Object(es) && get_entry(es, q) == Some(v),
{
    let g = gathered((seq![defaults], Seq::empty()), rc_candidates(name, s), s.files@);
    let env = env_model(name + "_"@, pair_texts(s.env_vars@));
    lemma_env_keys_unique(name + "_"@, pair_texts(s.env_vars@));
    let layers = g.0.push(env);
    assert forall|j: int| i < j < layers.len() implies (#[trigger] layers[j] matches Json::Object(e) ==> unique_keys(e)
        && get_entry(e, q) is None) by {
        if j < g.0.len() {
            assert(layers[j] == g.0[j]);
        }
    }
    assert(layers[i] == g.0[i]);
    if g.1.len() > 0 {
        let rec = seq![
            ("configs"@, Json::Array(g.1.map_values(|p: Seq<char>| Json::Str(p)))),
            ("config"@, Json::Str(g.1.last())),
        ];
        assert(unique_keys(rec)) by {
            reveal_strlit("configs");
            reveal_strlit("config");
            assert("configs"@.len() != "config"@.len());
        }
        assert forall|j: int| 0 <= j < rec.len() implies (#[trigger] rec[j]).0 != q by {}
        lemma_key_absent(rec, q);
        let all = layers.push(files_record(g.1));
        assert(files_record(g.1) == Json::Object(rec));
        assert forall|j: int| i < j < all.len() implies (#[trigger] all[j] matches Json::Object(e) ==> unique_keys(e)
            && get_entry(e, q) is None) by {
            if j < layers.len() {
                assert(all[j] == layers[j]);
            }
        }
        assert(all[i] == layers[i]);
        law_deep_extend_later_layers_win(all, i, q, v);
    } else {
        law_deep_extend_later_layers_win(layers, i, q, v);
    }
}


/// Merging well-formed entries onto well-formed entries gives well-formed
/// entries, each key listed once.
pub proof fn lemma_merge_wf(acc: Seq<(Seq<char>, Json)>, src: Seq<(Seq<char>, Json)>)
    requires
        unique_keys(acc),
        entries_wf(acc),
        entries_wf(src),
    ensures
        unique_keys(merge_entries(acc, src)),
        entries_wf(merge_entries(acc, src)),
    decreases src,
{
    if src.len() > 0 {
        let d = src.drop_last();
        lemma_merge_wf(acc, d);
        let prev = merge_entries(acc, d);
        let k = src.last().0;
        let v = src.last().1;
        let old = get_entry(prev, k);
        lemma_get_entry_wf(prev, k);
        lemma_entries_wf_index(src, src.len() - 1);
        assert(json_wf(v));
        match v {
            Json::Object(ve) => {
                let base = match old {
                    Some(Json::Object(oe)) => oe,
                    _ => Seq::empty(),
                };
                assert(unique_keys(base) && entries_wf(base));
                assert(decreases_to!(src => src[src.len() - 1]));
                lemma_merge_wf(base, ve);
            },
            _ => {},
        }
        let w = merged_value(old, v);
        assert(json_wf(w));
        crate::json::lemma_put_entry_unique(prev, k, w);
        lemma_put_entry_wf(prev, k, w);
    }
}

/// The deep merge of well-formed values is well formed.
pub proof fn lemma_extend_wf(values: Seq<Json>)
    requires
        forall|i: int| 0 <= i < values.len() ==> json_wf(#[trigger] values[i]),
    ensures
        unique_keys(extend_entries(values)),
        entries_wf(extend_entries(values)),
    decreases values.len(),
{
    if values.len() > 0 {
        let d = values.drop_last();
        assert forall|i: int| 0 <= i < d.len() implies json_wf(#[trigger] d[i]) by {
            assert(d[i] == values[i]);
        }
        lemma_extend_wf(d);
        assert(json_wf(values[values.len() - 1]));
        match values.last() {
            Json::Object(xe) => {
                lemma_merge_wf(extend_entries(d), xe);
            },
            _ => {},
        }
    }
}

/// Merging in stages is merging at once: merging the merge of well-formed
/// values `xs` with further values `ys` gives the merge of all of them.
pub proof fn law_deep_extend_flattens(xs: Seq<Json>, ys: Seq<Json>)
    requires
        forall|i: int| 0 <= i < xs.len() ==> json_wf(#[trigger] xs[i]),
    ensures
        deep_extended(seq![deep_extended(xs)] + ys) == deep_extended(xs + ys),
    decreases ys.len(),
{
    let lhs = seq![deep_extended(xs)] + ys;
    let rhs = xs + ys;
    if ys.len() == 0 {
        let e = extend_entries(xs);
        let one = seq![Json::Object(e)];
        assert(lhs =~= one);
        assert(rhs =~= xs);
        assert(one.drop_last() =~= Seq::<Json>::empty());
        assert(one.last() == Json::Object(e));
        assert(extend_entries(one.drop_last()) == Seq::<(Seq<char>, Json)>::empty());
        assert(extend_entries(one) == merge_entries(Seq::empty(), e));
        lemma_extend_wf(xs);
        lemma_merge_onto_empty(e);
    } else {
        law_deep_extend_flattens(xs, ys.drop_last());
        assert(lhs.drop_last() =~= seq![deep_extended(xs)] + ys.drop_last());
        assert(rhs.drop_last() =~= xs + ys.drop_last());
        assert(lhs.last() == ys.last());
        assert(rhs.last() == ys.last());
    }
}


/// Gathering keeps the values gathered well formed, where the file table's are.
pub proof fn lemma_gathered_wf(
    start: (Seq<Json>, Seq<Seq<char>>),
    paths: Seq<Seq<char>>,
    files: Seq<(String, FileLoad)>,
)
    requires
        forall|i: int| 0 <= i < start.0.len() ==> json_wf(#[trigger] start.0[i]),
        files_wf(files),
    ensures
        forall|i: int| 0 <= i < gathered(start, paths, files).0.len() ==> json_wf(#[trigger] gathered(start, paths, files).0[i]),
    decreases paths.len(),
{
    if paths.len() > 0 {
        lemma_gathered_wf(start, paths.drop_last(), files);
        let g = gathered(start, paths.drop_last(), files);
        let path = paths.last();
        crate::text::lemma_position_of_found(load_paths(files), path);
        if let Some(i) = position_of(load_paths(files), path) {
            assert(load_wf(files[i].1));
        }
        let g2 = add_config_file(g, path, files);
        assert forall|i: int| 0 <= i < g2.0.len() implies json_wf(#[trigger] g2.0[i]) by {
            if i < g.0.len() {
                assert(g2.0[i] == g.0[i]);
            }
        }
    }
}

/// The configuration of a program is well formed (each of its objects lists
/// each key once) where its defaults and the files that parsed are.
pub proof fn law_rc_wf(name: Seq<char>, defaults: Json, s: RcSources)
    requires
        json_wf(defaults),
        files_wf(s.files@),
    ensures
        json_wf(rc_model(name, defaults, s)),
{
    let start = (seq![defaults], Seq::<Seq<char>>::empty());
    let g = gathered(start, rc_candidates(name, s), s.files@);
    lemma_gathered_wf(start, rc_candidates(name, s), s.files@);
    let env = env_model(name + "_"@, pair_texts(s.env_vars@));
    crate::pkgs::rc::utils::law_env_wf(name + "_"@, pair_texts(s.env_vars@));
    let layers = g.0.push(env);
    assert forall|i: int| 0 <= i < layers.len() implies json_wf(#[trigger] layers[i]) by {
        if i < g.0.len() {
            assert(layers[i] == g.0[i]);
        }
    }
    if g.1.len() > 0 {
        let items = g.1.map_values(|p: Seq<char>| Json::Str(p));
        crate::json::lemma_items_wf_all(items);
        let rec = seq![("configs"@, Json::Array(items)), ("config"@, Json::Str(g.1.last()))];
        assert(unique_keys(rec)) by {
            reveal_strlit("configs");
            reveal_strlit("config");
            assert("configs"@.len() != "config"@.len());
        }
        crate::json::lemma_entries_wf_all(rec);
        assert(json_wf(rec[0].1));
        assert(files_record(g.1) == Json::Object(rec));
        let all = layers.push(files_record(g.1));
        assert forall|i: int| 0 <= i < all.len() implies json_wf(#[trigger] all[i]) by {
            if i < layers.len() {
                assert(all[i] == layers[i]);
            }
        }
        lemma_extend_wf(all);
    } else {
        lemma_extend_wf(layers);
    }
}


/// Writing an object onto an object merges it in: each key of the earlier
/// object that the later one does not set keeps its earlier value (so
/// writing an empty object changes nothing), and each key that the later one
/// sets to a value other than an object takes that value.
pub proof fn law_merge_keeps_unset_keys(oe: Seq<(Seq<char>, Json)>, ve: Seq<(Seq<char>, Json)>, q: Seq<char>)
    requires
        unique_keys(ve),
    ensures
        get_entry(ve, q) is None ==> match merged_value(Some(Json::Object(oe)), Json::Object(ve)) {
            Json::Object(me) => get_entry(me, q) == get_entry(oe, q),
            _ => false,
        },
        (match get_entry(ve, q) {
            Some(w) => !(w is Object),
            None => false,
        }) ==> match merged_value(Some(Json::Object(oe)), Json::Object(ve)) {
            Json::Object(me) => get_entry(me, q) == get_entry(ve, q),
            _ => false,
        },
        ve.len() == 0 ==> merged_value(Some(Json::Object(oe)), Json::Object(ve)) == Json::Object(oe),
{
    lemma_merge_entries_get(oe, ve, q);
    if ve.len() == 0 {
        assert(merge_entries(oe, ve) == oe);
    }
}

/// In a deep merge, a key that holds an object and is then written with an
/// object keeps, inside it, every key that the later object does not set.
pub proof fn law_deep_extend_nested_keeps_unset_keys(
    values: Seq<Json>,
    last: Seq<(Seq<char>, Json)>,
    k: Seq<char>,
    oe: Seq<(Seq<char>, Json)>,
    ve: Seq<(Seq<char>, Json)>,
    q: Seq<char>,
)
    requires
        unique_keys(last),
        unique_keys(ve),
        get_entry(extend_entries(values), k) == Some(Json::Object(oe)),
        get_entry(last, k) == Some(Json::Object(ve)),
        get_entry(ve, q) is None,
    ensures
        match get_entry(extend_entries(values.push(Json::Object(last))), k) {
            Some(Json::Object(me)) => get_entry(me, q) == get_entry(oe, q),
            _ => false,
        },
{
    law_deep_extend_last_object(values, last, k);
    law_merge_keeps_unset_keys(oe, ve, q);
}

/// The configuration files looked for: under `/etc` first, only off
/// Windows; then, where the home directory is set, whatever the platform,
/// `.config/<name>/config`, `.config/<name>`, `.<name>/config` and
/// `.<name>rc` under it, in that order; then the `.<name>rc` found from the
/// working directory, and the file that the environment names.
pub proof fn law_rc_candidates_order(name: Seq<char>, s: RcSources)
    ensures
        ({
            let c = rc_candidates(name, s);
            let k: int = if s.is_win { 0 } else { 2 };
            &&& c.len() == k + (if s.home is Some { 4int } else { 0int }) + opt_text(s.cwd_rc).len()
                + opt_text(s.env_config).len()
            &&& !s.is_win ==> c[0] == joined(joined("/etc"@, name), "config"@) && c[1] == joined(
                "/etc"@,
                name + "rc"@,
            )
            &&& s.home is Some ==> {
                let h = s.home.unwrap()@;
                &&& c[k] == joined(joined(joined(h, ".config"@), name), "config"@)
                &&& c[k + 1] == joined(joined(h, ".config"@), name)
                &&& c[k + 2] == joined(joined(h, "."@ + name), "config"@)
                &&& c[k + 3] == joined(h, "."@ + name + "rc"@)
            }
            &&& c.subrange(k + (if s.home is Some { 4int } else { 0int }), c.len() as int) == opt_text(s.cwd_rc)
                + opt_text(s.env_config)
        }),
{
    let c = rc_candidates(name, s);
    let k: int = if s.is_win { 0 } else { 2 };
    let hn: int = if s.home is Some { 4int } else { 0int };
    assert(c.subrange(k + hn, c.len() as int) =~= opt_text(s.cwd_rc) + opt_text(s.env_config));
}

} // verus!
