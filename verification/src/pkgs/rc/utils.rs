//! Reading configuration sources: path building, the two configuration
//! file formats (JSON with comments, and INI), and configuration held in
//! environment variables.
use vstd::prelude::*;

use crate::json::{
    Json, JsonValue, json_of, json_entries, get_entry, put_entry, get_value, put_value, clone_json,
    lemma_get_put, lemma_key_absent, json_wf, unique_keys, entries_wf, lemma_get_entry_wf,
    lemma_put_entry_wf, lemma_put_entry_unique,
};
use crate::paths::{joined, join};
use crate::pattern::{opens_with_brace, regex_is_match};
use crate::text::{
    chars_of, lowercase_of, to_lowercase, split_on, split, texts, starts_with, string_of_range,
};
use std::io::Read;

verus! {

/// A list of path parts.
pub trait ToStrVec {
    /// The texts of the parts that the list holds.
    spec fn part_texts(&self) -> Seq<Seq<char>>;

    /// The parts, in order.
    fn to_str_vec(&self) -> (r: Vec<&str>)
        ensures
            r@.map_values(|s: &str| s@) == self.part_texts(),
    ;
}

impl<'a> ToStrVec for Vec<&'a str> {
    open spec fn part_texts(&self) -> Seq<Seq<char>> {
        self@.map_values(|s: &str| s@)
    }

    fn to_str_vec(&self) -> (r: Vec<&str>) {
        let mut r: Vec<&str> = Vec::new();
        for i in 0..self.len()
            invariant
                r@.len() == i,
                forall|j: int| 0 <= j < i ==> #[trigger] r@[j] == self@[j],
        {
            r.push(self[i]);
        }
        assert(r@.map_values(|s: &str| s@) =~= self@.map_values(|s: &str| s@));
        r
    }
}

/// The texts of the parts that are present, in order.
pub open spec fn present_texts(s: Seq<Option<&str>>) -> Seq<Seq<char>>
    decreases s.len(),
{
    if s.len() == 0 {
        Seq::empty()
    } else {
        let prev = present_texts(s.drop_last());
        match s.last() {
            Some(t) => prev.push(t@),
            None => prev,
        }
    }
}

impl<'a> ToStrVec for Vec<Option<&'a str>> {
    open spec fn part_texts(&self) -> Seq<Seq<char>> {
        present_texts(self@)
    }

    fn to_str_vec(&self) -> (r: Vec<&str>) {
        let mut r: Vec<&str> = Vec::new();
        for i in 0..self.len()
            invariant
                r@.map_values(|s: &str| s@) == present_texts(self@.take(i as int)),
        {
            proof {
                assert(self@.take(i + 1).drop_last() =~= self@.take(i as int));
            }
            let ghost before = r@;
            match self[i] {
                Some(t) => {
                    r.push(t);
                    assert(r@.map_values(|s: &str| s@) =~= before.map_values(|s: &str| s@).push(
                        t@,
                    ));
                },
                None => {},
            }
        }
        assert(self@.take(self@.len() as int) =~= self@);
        r
    }
}

/// The path made by joining `parts` one after the other onto the empty path.
pub open spec fn joined_all(parts: Seq<Seq<char>>) -> Seq<char>
    decreases parts.len(),
{
    if parts.len() == 0 {
        Seq::empty()
    } else {
        joined(joined_all(parts.drop_last()), parts.last())
    }
}

/// The path made of the parts of `args`, each pushed onto the one before.
pub fn path_join<T: ToStrVec>(args: T) -> (r: String)
    ensures
        r@ == joined_all(args.part_texts()),
{
    let parts = args.to_str_vec();
    let ghost ps = parts@.map_values(|s: &str| s@);
    let mut path = String::new();
    for i in 0..parts.len()
        invariant
            ps == args.part_texts(),
            ps == parts@.map_values(|s: &str| s@),
            path@ == joined_all(ps.take(i as int)),
    {
        proof {
            assert(ps.take(i + 1).drop_last() =~= ps.take(i as int));
            assert(ps.take(i + 1).last() == parts@[i as int]@);
        }
        path = join(path.as_str(), parts[i]);
    }
    proof {
        assert(ps.take(parts@.len() as int) =~= ps);
    }
    path
}

// ---------------------------------------------------------------------------
// Configuration held in environment variables
/// The parts of `s` that are not empty, in order.
pub open spec fn non_empty_texts(s: Seq<Seq<char>>) -> Seq<Seq<char>>
    decreases s.len(),
{
    if s.len() == 0 {
        Seq::empty()
    } else {
        let prev = non_empty_texts(s.drop_last());
        if s.last().len() > 0 {
            prev.push(s.last())
        } else {
            prev
        }
    }
}

/// The key path named by the rest of a variable's name: the pieces between
/// double underscores, without the empty ones.
pub open spec fn key_path(rest: Seq<char>) -> Seq<Seq<char>> {
    non_empty_texts(split_on(rest, "__"@))
}

/// `cur` with the string `v` written at key path `path`, creating the objects
/// on the way. Where the walk meets a value that is not an object, nothing
/// below it is written.
pub open spec fn insert_path(cur: Json, path: Seq<Seq<char>>, v: Seq<char>) -> Json
    decreases path.len(),
{
    match cur {
        Json::Object(es) => if path.len() == 0 {
            cur
        } else if path.len() == 1 {
            Json::Object(put_entry(es, path[0], Json::Str(v)))
        } else {
            let child = match get_entry(es, path[0]) {
                Some(c) => c,
                None => Json::Object(Seq::empty()),
            };
            Json::Object(put_entry(es, path[0], insert_path(child, path.drop_first(), v)))
        },
        _ => cur,
    }
}

/// The configuration after reading one variable: a variable whose lowercase
/// name begins with the lowercase prefix writes its value at the key path
/// named by the rest of its lowercase name; other variables change nothing.
pub open spec fn env_step(acc: Json, prefix: Seq<char>, var: (Seq<char>, Seq<char>)) -> Json {
    let k = lowercase_of(var.0);
    let p = lowercase_of(prefix);
    if p.is_prefix_of(k) {
        insert_path(acc, key_path(k.skip(p.len() as int)), var.1)
    } else {
        acc
    }
}

/// The configuration that the variables `vars`, read in order, give for
/// `prefix`.
pub open spec fn env_model(prefix: Seq<char>, vars: Seq<(Seq<char>, Seq<char>)>) -> Json
    decreases vars.len(),
{
    if vars.len() == 0 {
        Json::Object(Seq::empty())
    } else {
        env_step(env_model(prefix, vars.drop_last()), prefix, vars.last())
    }
}

/// The texts of name/value pairs.
pub open spec fn pair_texts(v: Seq<(String, String)>) -> Seq<(Seq<char>, Seq<char>)> {
    v.map_values(|p: (String, String)| (p.0@, p.1@))
}

/// The parts of `parts` that are not empty.
fn retain_non_empty(parts: Vec<String>) -> (r: Vec<String>)
    ensures
        texts(r@) == non_empty_texts(texts(parts@)),
{
    let mut r: Vec<String> = Vec::new();
    let n = parts.len();
    for i in 0..n
        invariant
            n == parts@.len(),
            texts(r@) == non_empty_texts(texts(parts@.take(i as int))),
    {
        proof {
            assert(parts@.take(i + 1).drop_last() =~= parts@.take(i as int));
            assert(texts(parts@.take(i + 1)).drop_last() =~= texts(parts@.take(i as int)));
            assert(texts(parts@.take(i + 1)).last() == parts@[i as int]@);
        }
        let ghost before = r@;
        let part = &parts[i];
        if !part.as_str().is_empty() {
            r.push(part.clone());
            assert(texts(r@) =~= texts(before).push(parts@[i as int]@));
        }
    }
    assert(parts@.take(n as int) =~= parts@);
    r
}

/// `cur` with `v` written at key path `path[from..]`, as `insert_path` says.
fn insert_at_path(cur: JsonValue, path: &Vec<String>, from: usize, v: &String) -> (r: JsonValue)
    requires
        from <= path@.len(),
    ensures
        r@ == insert_path(cur@, texts(path@).skip(from as int), v@),
    decreases path@.len() - from,
{
    let ghost rest = texts(path@).skip(from as int);
    match cur {
        JsonValue::Object(es) => {
            let mut es = es;
            if from == path.len() {
                return JsonValue::Object(es);
            }
            assert(rest[0] == path@[from as int]@);
            if from + 1 == path.len() {
                put_value(&mut es, path[from].clone(), JsonValue::String(v.clone()));
                return JsonValue::Object(es);
            }
            let child = match get_value(&es, &path[from]) {
                Some(c) => clone_json(c),
                None => JsonValue::Object(Vec::new()),
            };
            proof {
                assert(rest.drop_first() =~= texts(path@).skip(from + 1));
            }
            let new_child = insert_at_path(child, path, from + 1, v);
            put_value(&mut es, path[from].clone(), new_child);
            JsonValue::Object(es)
        },
        other => other,
    }
}

/// The configuration that the variables `env_vars`, read in the order given,
/// hold for `prefix`: a variable whose lowercase name begins with the
/// lowercase prefix puts its value at the key path that the rest of its
/// lowercase name spells with `__` between the keys.
pub fn env(prefix: &str, env_vars: &Vec<(String, String)>) -> (r: JsonValue)
    ensures
        r@ == env_model(prefix@, pair_texts(env_vars@)),
        json_wf(r@),
{
    proof {
        law_env_wf(prefix@, pair_texts(env_vars@));
    }
    let mut obj = JsonValue::Object(Vec::new());
    let n = env_vars.len();
    proof {
        assert(json_entries(Seq::<(String, JsonValue)>::empty()) =~= Seq::empty());
    }
    for i in 0..n
        invariant
            n == env_vars@.len(),
            obj@ == env_model(prefix@, pair_texts(env_vars@.take(i as int))),
    {
        proof {
            assert(env_vars@.take(i + 1).drop_last() =~= env_vars@.take(i as int));
            assert(pair_texts(env_vars@.take(i + 1)).drop_last() =~= pair_texts(
                env_vars@.take(i as int),
            ));
        }
        let k = &env_vars[i].0;
        let v = &env_vars[i].1;
        let k_lower_case = to_lowercase(k.as_str());
        let prefix_lower_case = to_lowercase(prefix);
        if starts_with(k_lower_case.as_str(), prefix_lower_case.as_str()) {
            let kc = chars_of(k_lower_case.as_str());
            let pc = chars_of(prefix_lower_case.as_str());
            let sub_k = string_of_range(&kc, pc.len(), kc.len());
            proof {
                reveal_strlit("__");
                assert(sub_k@ =~= k_lower_case@.skip(prefix_lower_case@.len() as int));
            }
            let keypath = retain_non_empty(split(sub_k.as_str(), "__"));
            proof {
                assert(texts(keypath@).skip(0) =~= texts(keypath@));
            }
            obj = insert_at_path(obj, &keypath, 0, v);
        }
    }
    proof {
        assert(env_vars@.take(n as int) =~= env_vars@);
    }
    obj
}

/// The object that holds `v` at key path `path` and nothing else.
pub open spec fn nested(path: Seq<Seq<char>>, v: Seq<char>) -> Json
    decreases path.len(),
{
    if path.len() == 0 {
        Json::Object(Seq::empty())
    } else if path.len() == 1 {
        Json::Object(seq![(path[0], Json::Str(v))])
    } else {
        Json::Object(seq![(path[0], nested(path.drop_first(), v))])
    }
}

/// Writing at a key path into the empty object builds the chain of objects
/// down to the value.
pub proof fn lemma_insert_path_empty(path: Seq<Seq<char>>, v: Seq<char>)
    ensures
        insert_path(Json::Object(Seq::empty()), path, v) == nested(path, v),
    decreases path.len(),
{
    let e = Seq::<(Seq<char>, Json)>::empty();
    if path.len() >= 1 {
        lemma_key_absent(e, path[0]);
        if path.len() >= 2 {
            lemma_insert_path_empty(path.drop_first(), v);
        }
        assert(e.push((path[0], Json::Str(v))) =~= seq![(path[0], Json::Str(v))]);
        assert(e.push((path[0], nested(path.drop_first(), v))) =~= seq![
            (path[0], nested(path.drop_first(), v)),
        ]);
    }
}

/// The configuration read from environment variables is always an object,
/// even where no variable has the prefix.
pub proof fn law_env_is_object(prefix: Seq<char>, vars: Seq<(Seq<char>, Seq<char>)>)
    ensures
        env_model(prefix, vars) is Object,
    decreases vars.len(),
{
    if vars.len() > 0 {
        law_env_is_object(prefix, vars.drop_last());
    }
}

/// A single variable whose lowercase name is the lowercase prefix followed by
/// keys joined with `__` gives the object that holds its value under those
/// keys, one inside the other.
pub proof fn law_env_single_variable(prefix: Seq<char>, name: Seq<char>, value: Seq<char>)
    requires
        lowercase_of(prefix).is_prefix_of(lowercase_of(name)),
    ensures
        env_model(prefix, seq![(name, value)]) == nested(
            key_path(lowercase_of(name).skip(lowercase_of(prefix).len() as int)),
            value,
        ),
{
    let vars = seq![(name, value)];
    assert(vars.drop_last() =~= Seq::<(Seq<char>, Seq<char>)>::empty());
    assert(env_model(prefix, vars.drop_last()) == Json::Object(Seq::empty()));
    assert(vars.last() == (name, value));
    lemma_insert_path_empty(key_path(lowercase_of(name).skip(lowercase_of(prefix).len() as int)), value);
}

/// A variable that names a single key sets that key to its value, whatever
/// the variables read before it held there.
pub proof fn law_env_last_variable_sets_key(
    prefix: Seq<char>,
    vars: Seq<(Seq<char>, Seq<char>)>,
    name: Seq<char>,
    value: Seq<char>,
    key: Seq<char>,
)
    requires
        lowercase_of(prefix).is_prefix_of(lowercase_of(name)),
        key_path(lowercase_of(name).skip(lowercase_of(prefix).len() as int)) == seq![key],
    ensures
        env_model(prefix, vars.push((name, value))) matches Json::Object(es) && get_entry(es, key)
            == Some(Json::Str(value)),
{
    law_env_is_object(prefix, vars);
    assert(vars.push((name, value)).drop_last() =~= vars);
    match env_model(prefix, vars) {
        Json::Object(es) => {
            lemma_get_put(es, key, Json::Str(value), key);
        },
        _ => {},
    }
}

/// A variable whose lowercase name does not begin with the lowercase prefix
/// changes nothing.
pub proof fn law_env_ignores_other_variables(
    prefix: Seq<char>,
    vars: Seq<(Seq<char>, Seq<char>)>,
    var: (Seq<char>, Seq<char>),
)
    requires
        !lowercase_of(prefix).is_prefix_of(lowercase_of(var.0)),
    ensures
        env_model(prefix, vars.push(var)) == env_model(prefix, vars),
{
    assert(vars.push(var).drop_last() =~= vars);
}

/// The value at key path `p` inside `j`, walking down through objects.
pub open spec fn value_at(j: Json, p: Seq<Seq<char>>) -> Option<Json>
    decreases p.len(),
{
    if p.len() == 0 {
        Some(j)
    } else {
        match j {
            Json::Object(es) => match get_entry(es, p[0]) {
                Some(c) => value_at(c, p.drop_first()),
                None => None,
            },
            _ => None,
        }
    }
}

/// Key path `p` of `j` holds `x`, a value other than an object.
pub open spec fn leaf_at(j: Json, p: Seq<Seq<char>>, x: Json) -> bool {
    value_at(j, p) == Some(x) && !(x is Object)
}

/// Writing at key path `path` into `j` takes effect: `j` is an object, and so
/// is every value met on the way down that is there at all.
pub open spec fn writable(j: Json, path: Seq<Seq<char>>) -> bool
    decreases path.len(),
{
    match j {
        Json::Object(es) => path.len() <= 1 || match get_entry(es, path[0]) {
            Some(c) => writable(c, path.drop_first()),
            None => true,
        },
        _ => false,
    }
}

/// The key path that variable `var` writes at, where its lowercase name
/// begins with the lowercase `prefix`.
pub open spec fn var_path(prefix: Seq<char>, var: (Seq<char>, Seq<char>)) -> Option<Seq<Seq<char>>> {
    let k = lowercase_of(var.0);
    let p = lowercase_of(prefix);
    if p.is_prefix_of(k) {
        Some(key_path(k.skip(p.len() as int)))
    } else {
        None
    }
}

/// No two of `vars` write at the same key path.
pub open spec fn distinct_paths(prefix: Seq<char>, vars: Seq<(Seq<char>, Seq<char>)>) -> bool {
    forall|i: int, j: int|
        0 <= i < j < vars.len() && writes_somewhere(#[trigger] var_path(prefix, vars[i])) ==> var_path(prefix, vars[i])
            != #[trigger] var_path(prefix, vars[j])
}

/// A key path is given, and it is not empty.
pub open spec fn writes_somewhere(path: Option<Seq<Seq<char>>>) -> bool {
    path matches Some(a) && a.len() > 0
}

/// Some variable of `vars` writes the string `s` at key path `p`.
pub open spec fn written(prefix: Seq<char>, vars: Seq<(Seq<char>, Seq<char>)>, p: Seq<Seq<char>>, s: Seq<char>) -> bool {
    exists|i: int| 0 <= i < vars.len() && #[trigger] var_path(prefix, vars[i]) == Some(p) && vars[i].1 == s
}

/// Some variable of `vars` writes at a key path above `p`.
pub open spec fn shadowed(prefix: Seq<char>, vars: Seq<(Seq<char>, Seq<char>)>, p: Seq<Seq<char>>) -> bool {
    exists|i: int|
        0 <= i < vars.len() && (#[trigger] var_path(prefix, vars[i]) matches Some(r) && 0 < r.len() < p.len()
            && r.is_prefix_of(p))
}

proof fn lemma_prefix_tail(a: Seq<Seq<char>>, b: Seq<Seq<char>>)
    requires
        a.len() > 0,
        b.len() > 0,
        a[0] == b[0],
    ensures
        a.is_prefix_of(b) <==> a.drop_first().is_prefix_of(b.drop_first()),
        (a == b) <==> (a.drop_first() == b.drop_first()),
{
    if a.drop_first().is_prefix_of(b.drop_first()) {
        assert(a =~= b.subrange(0, a.len() as int)) by {
            assert forall|i: int| 0 <= i < a.len() implies a[i] == b.subrange(0, a.len() as int)[i] by {
                if i > 0 {
                    assert(a[i] == a.drop_first()[i - 1]);
                    assert(b[i] == b.drop_first()[i - 1]);
                }
            }
        }
    }
    if a.is_prefix_of(b) {
        assert(a.drop_first() =~= b.drop_first().subrange(0, a.drop_first().len() as int)) by {
            assert forall|i: int| 0 <= i < a.drop_first().len() implies a.drop_first()[i] == b.drop_first().subrange(0, a.drop_first().len() as int)[i] by {
                assert(a[i + 1] == b.subrange(0, a.len() as int)[i + 1]);
            }
        }
    }
    if a.drop_first() == b.drop_first() {
        assert(a =~= b) by {
            assert forall|i: int| 0 <= i < a.len() implies a[i] == b[i] by {
                if i > 0 {
                    assert(a[i] == a.drop_first()[i - 1]);
                    assert(b[i] == b.drop_first()[i - 1]);
                }
            }
        }
    }
}

/// Where writing at `path` does not take effect, `j` is left as it was.
proof fn lemma_insert_unwritable(j: Json, path: Seq<Seq<char>>, v: Seq<char>)
    requires
        path.len() > 0,
        !writable(j, path),
    ensures
        insert_path(j, path, v) == j,
    decreases path.len(),
{
    if let Json::Object(es) = j {
        let c = get_entry(es, path[0]).unwrap();
        lemma_insert_unwritable(c, path.drop_first(), v);
        crate::json::lemma_key_position_found(es, path[0]);
        let i = crate::json::key_position(es, path[0]).unwrap();
        assert(es.update(i, (path[0], c)) =~= es);
    }
}

/// Key path `p` of `j` holds a value other than an object.
pub open spec fn non_object_at(j: Json, p: Seq<Seq<char>>) -> bool {
    value_at(j, p) matches Some(x) && !(x is Object)
}

/// Looking a non-empty key path up in an object: the first key, then the rest.
proof fn lemma_value_at_step(es: Seq<(Seq<char>, Json)>, p: Seq<Seq<char>>)
    requires
        p.len() > 0,
    ensures
        value_at(Json::Object(es), p) == match get_entry(es, p[0]) {
            Some(c) => value_at(c, p.drop_first()),
            None => None,
        },
{
}

/// Writing takes effect exactly where no value met on the way down, above
/// the target, is anything but an object.
proof fn lemma_writable_iff(j: Json, path: Seq<Seq<char>>)
    requires
        j is Object,
        path.len() > 0,
    ensures
        writable(j, path) <==> forall|k: int| 1 <= k < path.len() ==> !non_object_at(j, #[trigger] path.take(k)),
    decreases path.len(),
{
    if let Json::Object(es) = j {
        if path.len() > 1 {
            let t = path.drop_first();
            assert forall|k: int| 1 <= k < path.len() implies value_at(j, #[trigger] path.take(k)) == match get_entry(es, path[0]) {
                Some(c) => value_at(c, t.take(k - 1)),
                None => None,
            } by {
                assert(path.take(k).drop_first() =~= t.take(k - 1));
                assert(path.take(k)[0] == path[0]);
                lemma_value_at_step(es, path.take(k));
            }
            match get_entry(es, path[0]) {
                Some(c) => {
                    assert(t.take(0) =~= Seq::<Seq<char>>::empty());
                    assert(value_at(j, path.take(1)) == Some(c));
                    if c is Object {
                        lemma_writable_iff(c, t);
                        if writable(j, path) {
                            assert forall|k: int| 1 <= k < path.len() implies !non_object_at(j, #[trigger] path.take(k)) by {
                                if k > 1 {
                                    assert(!non_object_at(c, t.take(k - 1)));
                                }
                            }
                        } else {
                            let k2 = choose|k2: int| 1 <= k2 < t.len() && non_object_at(c, #[trigger] t.take(k2));
                            assert(non_object_at(j, path.take(k2 + 1)));
                        }
                    } else {
                        assert(non_object_at(j, path.take(1)));
                        assert(!writable(c, t));
                        assert(!writable(j, path));
                    }
                },
                None => {
                    assert(writable(j, path));
                    assert forall|k: int| 1 <= k < path.len() implies !non_object_at(j, #[trigger] path.take(k)) by {
                        assert(value_at(j, path.take(k)) is None);
                    }
                },
            }
        } else {
            assert(writable(j, path));
        }
    }
}

/// Writing the string `v` at key path `path` where that takes effect: key
/// path `p` then holds `v` where it is `path`, nothing else where it lies
/// above or below `path`, and what it held before elsewhere.
proof fn lemma_insert_leaf(j: Json, path: Seq<Seq<char>>, v: Seq<char>, p: Seq<Seq<char>>, x: Json)
    requires
        path.len() > 0,
        p.len() > 0,
        writable(j, path),
    ensures
        leaf_at(insert_path(j, path, v), p, x) <==> ((p == path && x == Json::Str(v)) || (
        !path.is_prefix_of(p) && !p.is_prefix_of(path) && leaf_at(j, p, x))),
    decreases path.len(),
{
    if let Json::Object(es) = j {
        let t = path.drop_first();
        let pt = p.drop_first();
        if p[0] == path[0] {
            lemma_prefix_tail(p, path);
            lemma_prefix_tail(path, p);
        } else {
            assert(!path.is_prefix_of(p)) by {
                if path.is_prefix_of(p) {
                    assert(p.subrange(0, path.len() as int)[0] == p[0]);
                }
            }
            assert(!p.is_prefix_of(path)) by {
                if p.is_prefix_of(path) {
                    assert(path.subrange(0, p.len() as int)[0] == path[0]);
                }
            }
            assert(p != path);
        }
        lemma_value_at_step(es, p);
        let w = if path.len() == 1 {
            Json::Str(v)
        } else {
            let c = match get_entry(es, path[0]) {
                Some(c) => c,
                None => Json::Object(Seq::empty()),
            };
            insert_path(c, t, v)
        };
        let es2 = put_entry(es, path[0], w);
        assert(insert_path(j, path, v) == Json::Object(es2));
        lemma_value_at_step(es2, p);
        lemma_get_put(es, path[0], w, p[0]);
        if p[0] != path[0] {
            assert(value_at(insert_path(j, path, v), p) == value_at(j, p));
        } else if path.len() == 1 {
            if p.len() == 1 {
                assert(p =~= path);
                assert(value_at(Json::Str(v), pt) == Some(Json::Str(v)));
            } else {
                assert(path.is_prefix_of(p)) by {
                    assert(path =~= p.subrange(0, 1));
                }
                assert(p != path);
                assert(value_at(Json::Str(v), pt) is None);
            }
        } else {
            let c = match get_entry(es, path[0]) {
                Some(c) => c,
                None => Json::Object(Seq::empty()),
            };
            if get_entry(es, path[0]) is None {
                if t.len() > 1 {
                    lemma_key_absent(Seq::empty(), t[0]);
                }
            }
            assert(writable(c, t));
            assert(c is Object);
            assert(w is Object);
            if p.len() == 1 {
                assert(p.is_prefix_of(path)) by {
                    assert(p =~= path.subrange(0, 1));
                }
                assert(p != path);
                assert(value_at(insert_path(j, path, v), p) == Some(w));
            } else {
                lemma_insert_leaf(c, t, v, pt, x);
                assert(value_at(insert_path(j, path, v), p) == value_at(w, pt));
                if get_entry(es, path[0]) is None {
                    lemma_key_absent(Seq::empty(), pt[0]);
                    lemma_value_at_step(Seq::empty(), pt);
                    assert(value_at(j, p) is None);
                    assert(value_at(c, pt) is None);
                } else {
                    assert(value_at(j, p) == value_at(c, pt));
                }
            }
        }
    }
}

/// A shadowing variable leads to one that no other shadows.
proof fn lemma_first_writer(prefix: Seq<char>, vars: Seq<(Seq<char>, Seq<char>)>, path: Seq<Seq<char>>, k: int)
    requires
        1 <= k < path.len(),
        exists|i: int| 0 <= i < vars.len() && #[trigger] var_path(prefix, vars[i]) == Some(path.take(k)),
    ensures
        exists|k2: int| 1 <= k2 <= k && (exists|i: int| 0 <= i < vars.len() && #[trigger] var_path(prefix, vars[i]) == Some(path.take(k2)))
            && !shadowed(prefix, vars, #[trigger] path.take(k2)),
    decreases k,
{
    if shadowed(prefix, vars, path.take(k)) {
        let i = choose|i: int|
            0 <= i < vars.len() && (#[trigger] var_path(prefix, vars[i]) matches Some(r) && 0 < r.len() < path.take(k).len()
                && r.is_prefix_of(path.take(k)));
        let r = var_path(prefix, vars[i]).unwrap();
        assert(r =~= path.take(r.len() as int));
        lemma_first_writer(prefix, vars, path, r.len() as int);
    } else {
        assert(exists|i: int| 0 <= i < vars.len() && #[trigger] var_path(prefix, vars[i]) == Some(path.take(k)));
    }
}

/// `written` and `shadowed` over all the variables, from those over the
/// earlier ones and the last.
proof fn lemma_env_split(prefix: Seq<char>, vars: Seq<(Seq<char>, Seq<char>)>, p: Seq<Seq<char>>, s: Seq<char>)
    requires
        vars.len() > 0,
    ensures
        written(prefix, vars, p, s) <==> written(prefix, vars.drop_last(), p, s) || (var_path(prefix, vars.last()) == Some(p)
            && vars.last().1 == s),
        shadowed(prefix, vars, p) <==> shadowed(prefix, vars.drop_last(), p) || (var_path(prefix, vars.last()) matches Some(r)
            && 0 < r.len() < p.len() && r.is_prefix_of(p)),
{
    let d = vars.drop_last();
    let n = vars.len() - 1;
    assert forall|i: int| 0 <= i < d.len() implies #[trigger] d[i] == vars[i] by {}
    if written(prefix, vars, p, s) {
        let i = choose|i: int| 0 <= i < vars.len() && #[trigger] var_path(prefix, vars[i]) == Some(p) && vars[i].1 == s;
        if i < n {
            assert(var_path(prefix, d[i]) == Some(p));
        }
    }
    if written(prefix, d, p, s) {
        let i = choose|i: int| 0 <= i < d.len() && #[trigger] var_path(prefix, d[i]) == Some(p) && d[i].1 == s;
        assert(var_path(prefix, vars[i]) == Some(p));
    }
    if var_path(prefix, vars.last()) == Some(p) && vars.last().1 == s {
        assert(var_path(prefix, vars[n]) == Some(p));
    }
    if shadowed(prefix, vars, p) {
        let i = choose|i: int|
            0 <= i < vars.len() && (#[trigger] var_path(prefix, vars[i]) matches Some(r) && 0 < r.len() < p.len()
                && r.is_prefix_of(p));
        if i < n {
            assert(var_path(prefix, d[i]) == var_path(prefix, vars[i]));
        }
    }
    if shadowed(prefix, d, p) {
        let i = choose|i: int|
            0 <= i < d.len() && (#[trigger] var_path(prefix, d[i]) matches Some(r) && 0 < r.len() < p.len()
                && r.is_prefix_of(p));
        assert(var_path(prefix, vars[i]) == var_path(prefix, d[i]));
    }
    if var_path(prefix, vars.last()) matches Some(r) && 0 < r.len() < p.len() && r.is_prefix_of(p) {
        assert(var_path(prefix, vars[n]) == var_path(prefix, vars.last()));
    }
}

/// Which values other than objects the environment configuration holds, for
/// variables that write at distinct key paths: key path `p` holds one exactly
/// when some variable writes a string there and none writes above it, and it
/// holds that string.
pub proof fn lemma_env_leaves(prefix: Seq<char>, vars: Seq<(Seq<char>, Seq<char>)>, p: Seq<Seq<char>>, x: Json)
    requires
        distinct_paths(prefix, vars),
        p.len() > 0,
    ensures
        leaf_at(env_model(prefix, vars), p, x) <==> (x matches Json::Str(s) && written(prefix, vars, p, s))
            && !shadowed(prefix, vars, p),
    decreases vars.len(),
{
    if vars.len() == 0 {
        lemma_key_absent(Seq::empty(), p[0]);
    } else {
        let d = vars.drop_last();
        let n = vars.len() - 1;
        let y = vars.last();
        assert forall|i: int| 0 <= i < d.len() implies #[trigger] d[i] == vars[i] by {}
        assert(distinct_paths(prefix, d)) by {
            assert forall|i: int, j: int| 0 <= i < j < d.len() && writes_somewhere(#[trigger] var_path(prefix, d[i])) implies var_path(prefix, d[i])
                != #[trigger] var_path(prefix, d[j]) by {
                assert(d[i] == vars[i] && d[j] == vars[j]);
            }
        }
        law_env_is_object(prefix, d);
        let m = env_model(prefix, d);
        lemma_env_leaves(prefix, d, p, x);
        if let Json::Str(s) = x {
            lemma_env_split(prefix, vars, p, s);
        } else {
            lemma_env_split(prefix, vars, p, Seq::empty());
        }
        // no earlier variable writes where the last one does
        let ghost last_path = var_path(prefix, y);
        assert(y == vars[n]);
        if let Some(pp) = last_path {
            if pp.len() > 0 {
                assert forall|i: int| 0 <= i < d.len() implies #[trigger] var_path(prefix, d[i]) != Some(pp) by {
                    assert(d[i] == vars[i]);
                    if var_path(prefix, vars[i]) == Some(pp) {
                        assert(writes_somewhere(var_path(prefix, vars[i])));
                        assert(var_path(prefix, vars[i]) != var_path(prefix, vars[n]));
                    }
                }
            }
        }
        match last_path {
            None => {
                assert(env_model(prefix, vars) == m);
            },
            Some(pp) => {
                assert(env_model(prefix, vars) == insert_path(m, pp, y.1));
                if pp.len() == 0 {
                    assert(insert_path(m, pp, y.1) == m);
                } else if !writable(m, pp) {
                    lemma_insert_unwritable(m, pp, y.1);
                    lemma_writable_iff(m, pp);
                    let k = choose|k: int| 1 <= k < pp.len() && non_object_at(m, #[trigger] pp.take(k));
                    let x0 = value_at(m, pp.take(k)).unwrap();
                    lemma_env_leaves(prefix, d, pp.take(k), x0);
                    let s0 = x0->Str_0;
                    let i0 = choose|i: int| 0 <= i < d.len() && #[trigger] var_path(prefix, d[i]) == Some(pp.take(k)) && d[i].1 == s0;
                    assert(pp.take(k).is_prefix_of(pp));
                    if pp.is_prefix_of(p) {
                        assert(pp.take(k).is_prefix_of(p)) by {
                            assert(pp.take(k) =~= p.subrange(0, k));
                        }
                        assert(shadowed(prefix, d, p));
                    }
                    if p == pp {
                        assert(shadowed(prefix, d, p));
                    }
                } else {
                    lemma_insert_leaf(m, pp, y.1, p, x);
                    lemma_writable_iff(m, pp);
                    if shadowed(prefix, d, pp) {
                        let i = choose|i: int|
                            0 <= i < d.len() && (#[trigger] var_path(prefix, d[i]) matches Some(r) && 0 < r.len() < pp.len()
                                && r.is_prefix_of(pp));
                        let r = var_path(prefix, d[i]).unwrap();
                        assert(r =~= pp.take(r.len() as int));
                        lemma_first_writer(prefix, d, pp, r.len() as int);
                        let k2 = choose|k2: int| 1 <= k2 <= r.len() && (exists|i: int| 0 <= i < d.len() && #[trigger] var_path(prefix, d[i]) == Some(pp.take(k2)))
                            && !shadowed(prefix, d, #[trigger] pp.take(k2));
                        let i2 = choose|i: int| 0 <= i < d.len() && #[trigger] var_path(prefix, d[i]) == Some(pp.take(k2));
                        lemma_env_leaves(prefix, d, pp.take(k2), Json::Str(d[i2].1));
                        assert(false);
                    }
                    if p.is_prefix_of(pp) && p != pp {
                        if let Json::Str(s) = x {
                            if written(prefix, d, p, s) {
                                let i = choose|i: int| 0 <= i < d.len() && #[trigger] var_path(prefix, d[i]) == Some(p) && d[i].1 == s;
                                assert(p.len() < pp.len()) by {
                                    if p.len() == pp.len() {
                                        assert(p =~= pp);
                                    }
                                }
                                assert(shadowed(prefix, d, pp));
                            }
                        }
                    }
                }
            },
        }
    }
}

/// Two lists holding the same variables, each writing at distinct key paths,
/// hold the same values other than objects at every key path.
proof fn lemma_env_leaves_agree(
    prefix: Seq<char>,
    vars1: Seq<(Seq<char>, Seq<char>)>,
    vars2: Seq<(Seq<char>, Seq<char>)>,
    p: Seq<Seq<char>>,
    x: Json,
)
    requires
        distinct_paths(prefix, vars1),
        distinct_paths(prefix, vars2),
        forall|i: int| 0 <= i < vars1.len() ==> vars2.contains(#[trigger] vars1[i]),
        forall|i: int| 0 <= i < vars2.len() ==> vars1.contains(#[trigger] vars2[i]),
    ensures
        leaf_at(env_model(prefix, vars1), p, x) <==> leaf_at(env_model(prefix, vars2), p, x),
{
    if p.len() == 0 {
        law_env_is_object(prefix, vars1);
        law_env_is_object(prefix, vars2);
    } else {
        lemma_env_leaves(prefix, vars1, p, x);
        lemma_env_leaves(prefix, vars2, p, x);
        if let Json::Str(s) = x {
            if written(prefix, vars1, p, s) {
                let i = choose|i: int| 0 <= i < vars1.len() && #[trigger] var_path(prefix, vars1[i]) == Some(p) && vars1[i].1 == s;
                let j = choose|j: int| 0 <= j < vars2.len() && vars2[j] == vars1[i];
                assert(var_path(prefix, vars2[j]) == Some(p));
            }
            if written(prefix, vars2, p, s) {
                let i = choose|i: int| 0 <= i < vars2.len() && #[trigger] var_path(prefix, vars2[i]) == Some(p) && vars2[i].1 == s;
                let j = choose|j: int| 0 <= j < vars1.len() && vars1[j] == vars2[i];
                assert(var_path(prefix, vars1[j]) == Some(p));
            }
        }
        if shadowed(prefix, vars1, p) {
            let i = choose|i: int|
                0 <= i < vars1.len() && (#[trigger] var_path(prefix, vars1[i]) matches Some(r) && 0 < r.len() < p.len()
                    && r.is_prefix_of(p));
            let j = choose|j: int| 0 <= j < vars2.len() && vars2[j] == vars1[i];
            assert(var_path(prefix, vars2[j]) == var_path(prefix, vars1[i]));
        }
        if shadowed(prefix, vars2, p) {
            let i = choose|i: int|
                0 <= i < vars2.len() && (#[trigger] var_path(prefix, vars2[i]) matches Some(r) && 0 < r.len() < p.len()
                    && r.is_prefix_of(p));
            let j = choose|j: int| 0 <= j < vars1.len() && vars1[j] == vars2[i];
            assert(var_path(prefix, vars1[j]) == var_path(prefix, vars2[i]));
        }
    }
}


/// Key path `p` of `j` holds an object.
pub open spec fn object_at(j: Json, p: Seq<Seq<char>>) -> bool {
    value_at(j, p) matches Some(Json::Object(_))
}

/// Every key path above one that holds a value holds an object.
proof fn lemma_value_at_prefix(j: Json, q: Seq<Seq<char>>, p: Seq<Seq<char>>)
    requires
        p.len() < q.len(),
        p.is_prefix_of(q),
        value_at(j, q) is Some,
    ensures
        object_at(j, p),
    decreases p.len(),
{
    if let Json::Object(es) = j {
        if p.len() > 0 {
            assert(p[0] == q.subrange(0, p.len() as int)[0]);
            lemma_prefix_tail(p, q);
            let c = get_entry(es, q[0])->0;
            lemma_value_at_prefix(c, q.drop_first(), p.drop_first());
        }
    }
}

/// Of two prefixes of one sequence, one is a prefix of the other.
proof fn lemma_prefixes_comparable(a: Seq<Seq<char>>, b: Seq<Seq<char>>, c: Seq<Seq<char>>)
    requires
        a.is_prefix_of(c),
        b.is_prefix_of(c),
    ensures
        a.is_prefix_of(b) || b.is_prefix_of(a),
{
    if a.len() <= b.len() {
        assert(a =~= b.subrange(0, a.len() as int)) by {
            assert forall|i: int| 0 <= i < a.len() implies a[i] == b.subrange(0, a.len() as int)[i] by {
                assert(a[i] == c.subrange(0, a.len() as int)[i]);
                assert(b[i] == c.subrange(0, b.len() as int)[i]);
            }
        }
    } else {
        assert(b =~= a.subrange(0, b.len() as int)) by {
            assert forall|i: int| 0 <= i < b.len() implies b[i] == a.subrange(0, b.len() as int)[i] by {
                assert(a[i] == c.subrange(0, a.len() as int)[i]);
                assert(b[i] == c.subrange(0, b.len() as int)[i]);
            }
        }
    }
}

/// A prefix of a prefix is a prefix.
proof fn lemma_prefix_trans(a: Seq<Seq<char>>, b: Seq<Seq<char>>, c: Seq<Seq<char>>)
    requires
        a.is_prefix_of(b),
        b.is_prefix_of(c),
    ensures
        a.is_prefix_of(c),
{
    assert(a =~= c.subrange(0, a.len() as int)) by {
        assert forall|i: int| 0 <= i < a.len() implies a[i] == c.subrange(0, a.len() as int)[i] by {
            assert(a[i] == b.subrange(0, a.len() as int)[i]);
            assert(b[i] == c.subrange(0, b.len() as int)[i]);
        }
    }
}

/// Writing at key path `path` leaves every key path beside it (neither above
/// nor below it) as it was.
proof fn lemma_insert_beside(j: Json, path: Seq<Seq<char>>, v: Seq<char>, p: Seq<Seq<char>>)
    requires
        path.len() > 0,
        p.len() > 0,
        !path.is_prefix_of(p),
        !p.is_prefix_of(path),
    ensures
        value_at(insert_path(j, path, v), p) == value_at(j, p),
    decreases path.len(),
{
    if let Json::Object(es) = j {
        let t = path.drop_first();
        let pt = p.drop_first();
        lemma_value_at_step(es, p);
        if p[0] == path[0] {
            lemma_prefix_tail(p, path);
            lemma_prefix_tail(path, p);
            if path.len() == 1 {
                assert(path.is_prefix_of(p)) by {
                    assert(path =~= p.subrange(0, 1));
                }
            }
            if p.len() == 1 {
                assert(p.is_prefix_of(path)) by {
                    assert(p =~= path.subrange(0, 1));
                }
            }
        }
        let w = if path.len() == 1 {
            Json::Str(v)
        } else {
            let c = match get_entry(es, path[0]) {
                Some(c) => c,
                None => Json::Object(Seq::empty()),
            };
            insert_path(c, t, v)
        };
        let es2 = put_entry(es, path[0], w);
        assert(insert_path(j, path, v) == Json::Object(es2));
        lemma_value_at_step(es2, p);
        lemma_get_put(es, path[0], w, p[0]);
        if p[0] == path[0] {
            let c = match get_entry(es, path[0]) {
                Some(c) => c,
                None => Json::Object(Seq::empty()),
            };
            lemma_insert_beside(c, t, v, pt);
            if get_entry(es, path[0]) is None {
                lemma_key_absent(Seq::empty(), pt[0]);
                lemma_value_at_step(Seq::empty(), pt);
            }
        }
    }
}

/// In the environment configuration every object below the top holds some
/// value other than an object further down: no object there is empty.
proof fn lemma_env_objects_hold_leaves(prefix: Seq<char>, vars: Seq<(Seq<char>, Seq<char>)>, p: Seq<Seq<char>>)
    requires
        p.len() > 0,
        object_at(env_model(prefix, vars), p),
    ensures
        exists|q: Seq<Seq<char>>, x: Json|
            p.len() < q.len() && p.is_prefix_of(q) && #[trigger] leaf_at(env_model(prefix, vars), q, x),
    decreases vars.len(),
{
    if vars.len() == 0 {
        lemma_key_absent(Seq::empty(), p[0]);
    } else {
        let d = vars.drop_last();
        let y = vars.last();
        law_env_is_object(prefix, d);
        let m = env_model(prefix, d);
        match var_path(prefix, y) {
            None => {
                lemma_env_objects_hold_leaves(prefix, d, p);
            },
            Some(pp) => {
                assert(env_model(prefix, vars) == insert_path(m, pp, y.1));
                if pp.len() == 0 {
                    assert(insert_path(m, pp, y.1) == m);
                    lemma_env_objects_hold_leaves(prefix, d, p);
                } else if !writable(m, pp) {
                    lemma_insert_unwritable(m, pp, y.1);
                    lemma_env_objects_hold_leaves(prefix, d, p);
                } else {
                    let m2 = insert_path(m, pp, y.1);
                    lemma_insert_leaf(m, pp, y.1, pp, Json::Str(y.1));
                    if pp.is_prefix_of(p) {
                        if pp.len() < p.len() {
                            lemma_value_at_prefix(m2, p, pp);
                        } else {
                            assert(p =~= pp);
                        }
                    } else if p.is_prefix_of(pp) {
                        assert(p.len() < pp.len()) by {
                            if p.len() == pp.len() {
                                assert(p =~= pp);
                            }
                        }
                        assert(leaf_at(m2, pp, Json::Str(y.1)));
                    } else {
                        lemma_insert_beside(m, pp, y.1, p);
                        lemma_env_objects_hold_leaves(prefix, d, p);
                        let (q, x) = choose|q: Seq<Seq<char>>, x: Json|
                            p.len() < q.len() && p.is_prefix_of(q) && #[trigger] leaf_at(m, q, x);
                        if pp.is_prefix_of(q) {
                            lemma_prefixes_comparable(pp, p, q);
                        }
                        if q.is_prefix_of(pp) {
                            lemma_prefix_trans(p, q, pp);
                        }
                        lemma_insert_leaf(m, pp, y.1, q, x);
                        assert(leaf_at(m2, q, x));
                    }
                }
            },
        }
    }
}

/// The environment configuration does not depend on the order in which the
/// variables are read, where no two variables write at the same key path:
/// two lists holding the same variables give configurations that hold an
/// object at the same key paths and the same other value at every other key
/// path, so that they differ at most in the order of their objects' entries.
pub proof fn law_env_order_independent(
    prefix: Seq<char>,
    vars1: Seq<(Seq<char>, Seq<char>)>,
    vars2: Seq<(Seq<char>, Seq<char>)>,
    p: Seq<Seq<char>>,
    x: Json,
)
    requires
        distinct_paths(prefix, vars1),
        distinct_paths(prefix, vars2),
        forall|i: int| 0 <= i < vars1.len() ==> vars2.contains(#[trigger] vars1[i]),
        forall|i: int| 0 <= i < vars2.len() ==> vars1.contains(#[trigger] vars2[i]),
    ensures
        leaf_at(env_model(prefix, vars1), p, x) <==> leaf_at(env_model(prefix, vars2), p, x),
        object_at(env_model(prefix, vars1), p) <==> object_at(env_model(prefix, vars2), p),
{
    lemma_env_leaves_agree(prefix, vars1, vars2, p, x);
    law_env_is_object(prefix, vars1);
    law_env_is_object(prefix, vars2);
    if p.len() > 0 {
        if object_at(env_model(prefix, vars1), p) {
            lemma_env_objects_hold_leaves(prefix, vars1, p);
            let (q, x1) = choose|q: Seq<Seq<char>>, x1: Json|
                p.len() < q.len() && p.is_prefix_of(q) && #[trigger] leaf_at(env_model(prefix, vars1), q, x1);
            lemma_env_leaves_agree(prefix, vars1, vars2, q, x1);
            lemma_value_at_prefix(env_model(prefix, vars2), q, p);
        }
        if object_at(env_model(prefix, vars2), p) {
            lemma_env_objects_hold_leaves(prefix, vars2, p);
            let (q, x2) = choose|q: Seq<Seq<char>>, x2: Json|
                p.len() < q.len() && p.is_prefix_of(q) && #[trigger] leaf_at(env_model(prefix, vars2), q, x2);
            lemma_env_leaves_agree(prefix, vars1, vars2, q, x2);
            lemma_value_at_prefix(env_model(prefix, vars1), q, p);
        }
    }
}

/// Writing a string at a key path keeps a value well formed.
pub proof fn lemma_insert_path_wf(cur: Json, path: Seq<Seq<char>>, v: Seq<char>)
    requires
        json_wf(cur),
    ensures
        json_wf(insert_path(cur, path, v)),
    decreases path.len(),
{
    if let Json::Object(es) = cur {
        if path.len() == 1 {
            lemma_put_entry_unique(es, path[0], Json::Str(v));
            lemma_put_entry_wf(es, path[0], Json::Str(v));
        } else if path.len() > 1 {
            let child = match get_entry(es, path[0]) {
                Some(c) => c,
                None => Json::Object(Seq::empty()),
            };
            lemma_get_entry_wf(es, path[0]);
            assert(json_wf(child));
            lemma_insert_path_wf(child, path.drop_first(), v);
            let w = insert_path(child, path.drop_first(), v);
            lemma_put_entry_unique(es, path[0], w);
            lemma_put_entry_wf(es, path[0], w);
        }
    }
}

/// The configuration read from environment variables is well formed: each
/// of its objects lists each key once.
pub proof fn law_env_wf(prefix: Seq<char>, vars: Seq<(Seq<char>, Seq<char>)>)
    ensures
        json_wf(env_model(prefix, vars)),
    decreases vars.len(),
{
    if vars.len() > 0 {
        law_env_wf(prefix, vars.drop_last());
        let acc = env_model(prefix, vars.drop_last());
        let k = lowercase_of(vars.last().0);
        let p = lowercase_of(prefix);
        if p.is_prefix_of(k) {
            lemma_insert_path_wf(acc, key_path(k.skip(p.len() as int)), vars.last().1);
        }
    }
}

/// The entries of a section list each key once, and are well formed.
pub proof fn lemma_section_entries_wf(props: Seq<(Seq<char>, Option<Seq<char>>)>)
    ensures
        unique_keys(section_entries(props)),
        entries_wf(section_entries(props)),
    decreases props.len(),
{
    if props.len() > 0 {
        lemma_section_entries_wf(props.drop_last());
        let prev = section_entries(props.drop_last());
        let v = match props.last().1 {
            Some(s) => s,
            None => Seq::empty(),
        };
        lemma_put_entry_unique(prev, props.last().0, Json::Str(v));
        lemma_put_entry_wf(prev, props.last().0, Json::Str(v));
    }
}

/// The JSON value of INI sections is well formed: each of its objects lists
/// each key once.
pub proof fn law_ini_entries_wf(secs: Seq<(Seq<char>, Seq<(Seq<char>, Option<Seq<char>>)>)>)
    ensures
        json_wf(Json::Object(ini_entries(secs))),
    decreases secs.len(),
{
    if secs.len() > 0 {
        law_ini_entries_wf(secs.drop_last());
        let prev = ini_entries(secs.drop_last());
        let section = section_entries(secs.last().1);
        lemma_section_entries_wf(secs.last().1);
        if secs.last().0 != "default"@ {
            lemma_put_entry_unique(prev, secs.last().0, Json::Object(section));
            lemma_put_entry_wf(prev, secs.last().0, Json::Object(section));
        }
    }
}

/// The value text of an INI entry: its value, or the empty text for a key
/// given without one.
pub open spec fn ini_value_text(v: Option<Seq<char>>) -> Seq<char> {
    match v {
        Some(s) => s,
        None => Seq::empty(),
    }
}

/// The JSON object of an INI section holds, for each of its keys (listed
/// once each), the whole text of that key's value, and no other key.
pub proof fn law_ini_section_values(props: Seq<(Seq<char>, Option<Seq<char>>)>, q: Seq<char>)
    requires
        forall|a: int, b: int| 0 <= a < b < props.len() ==> props[a].0 != props[b].0,
    ensures
        forall|i: int|
            0 <= i < props.len() && props[i].0 == q ==> get_entry(section_entries(props), q) == Some(
                Json::Str(ini_value_text(props[i].1)),
            ),
        (forall|i: int| 0 <= i < props.len() ==> props[i].0 != q) ==> get_entry(section_entries(props), q)
            is None,
    decreases props.len(),
{
    if props.len() == 0 {
        lemma_key_absent(Seq::empty(), q);
    } else {
        let d = props.drop_last();
        let n = props.len() - 1;
        assert forall|a: int, b: int| 0 <= a < b < d.len() implies d[a].0 != d[b].0 by {
            assert(d[a] == props[a] && d[b] == props[b]);
        }
        law_ini_section_values(d, q);
        let v = ini_value_text(props.last().1);
        lemma_get_put(section_entries(d), props.last().0, Json::Str(v), q);
        assert forall|i: int| 0 <= i < props.len() && props[i].0 == q implies get_entry(section_entries(props), q)
            == Some(Json::Str(ini_value_text(props[i].1))) by {
            if i < n {
                assert(d[i] == props[i]);
                assert(props[i].0 != props[n].0);
            }
        }
        if forall|i: int| 0 <= i < props.len() ==> props[i].0 != q {
            assert forall|i: int| 0 <= i < d.len() implies d[i].0 != q by {
                assert(d[i] == props[i]);
            }
            assert(props[n].0 != q);
        }
    }
}

/// The JSON value of INI sections (listed once each) holds, under the name
/// of each section other than `default` that no later `default` section
/// replaces, the object of that section's entries.
pub proof fn law_ini_sections_nested(secs: Seq<(Seq<char>, Seq<(Seq<char>, Option<Seq<char>>)>)>, i: int)
    requires
        forall|a: int, b: int| 0 <= a < b < secs.len() ==> secs[a].0 != secs[b].0,
        0 <= i < secs.len(),
        forall|j: int| i <= j < secs.len() ==> secs[j].0 != "default"@,
    ensures
        get_entry(ini_entries(secs), secs[i].0) == Some(Json::Object(section_entries(secs[i].1))),
    decreases secs.len(),
{
    let d = secs.drop_last();
    let n = secs.len() - 1;
    assert(secs[n].0 != "default"@);
    lemma_get_put(ini_entries(d), secs.last().0, Json::Object(section_entries(secs.last().1)), secs[i].0);
    if i < n {
        assert forall|a: int, b: int| 0 <= a < b < d.len() implies d[a].0 != d[b].0 by {
            assert(d[a] == secs[a] && d[b] == secs[b]);
        }
        assert forall|j: int| i <= j < d.len() implies d[j].0 != "default"@ by {
            assert(d[j] == secs[j]);
        }
        law_ini_sections_nested(d, i);
        assert(d[i] == secs[i]);
        assert(secs[i].0 != secs[n].0);
    }
}

/// The section `default` of INI sections (listed once each) gives the
/// top-level keys: each of its keys that no later section names holds the
/// whole text of its value, and the name of an earlier section that neither
/// the default section nor a later section sets is gone.
pub proof fn law_ini_default_section(
    secs: Seq<(Seq<char>, Seq<(Seq<char>, Option<Seq<char>>)>)>,
    i: int,
    q: Seq<char>,
)
    requires
        forall|a: int, b: int| 0 <= a < b < secs.len() ==> secs[a].0 != secs[b].0,
        0 <= i < secs.len(),
        secs[i].0 == "default"@,
        forall|a: int, b: int| 0 <= a < b < secs[i].1.len() ==> secs[i].1[a].0 != secs[i].1[b].0,
        forall|j: int| i < j < secs.len() ==> secs[j].0 != q,
    ensures
        forall|m: int|
            0 <= m < secs[i].1.len() && secs[i].1[m].0 == q ==> get_entry(ini_entries(secs), q) == Some(
                Json::Str(ini_value_text(secs[i].1[m].1)),
            ),
        (forall|m: int| 0 <= m < secs[i].1.len() ==> secs[i].1[m].0 != q) ==> get_entry(ini_entries(secs), q)
            is None,
    decreases secs.len(),
{
    let d = secs.drop_last();
    let n = secs.len() - 1;
    law_ini_section_values(secs[i].1, q);
    if i < n {
        assert(secs[n].0 != "default"@);
        assert forall|a: int, b: int| 0 <= a < b < d.len() implies d[a].0 != d[b].0 by {
            assert(d[a] == secs[a] && d[b] == secs[b]);
        }
        assert forall|j: int| i < j < d.len() implies d[j].0 != q by {
            assert(d[j] == secs[j]);
        }
        assert(d[i] == secs[i]);
        law_ini_default_section(d, i, q);
        lemma_get_put(ini_entries(d), secs.last().0, Json::Object(section_entries(secs.last().1)), q);
    } else {
        assert(secs.last() == secs[i]);
    }
}

// ---------------------------------------------------------------------------
// Configuration files
/// What `json_comments::StripComments` reads out of `text`: the text with
/// every comment turned into spaces, or `None` where it reports the text as
/// invalid: a `/` that starts no comment, or text that ends inside a comment,
/// inside a string, or just after a backslash in a string.
pub uninterp spec fn comments_stripped(text: Seq<char>) -> Option<Seq<u8>>;

/// Reads `text` to its end through `json_comments::StripComments`. The
/// result is named `comments_stripped`; nothing else is stated of it.
#[verifier::external_body]
fn strip_comments(text: &str) -> (r: Option<Vec<u8>>)
    ensures
        match r {
            Some(b) => comments_stripped(text@) == Some(b@),
            None => comments_stripped(text@) is None,
        },
{
    let mut out: Vec<u8> = Vec::new();
    match json_comments::StripComments::new(text.as_bytes()).read_to_end(&mut out) {
        Ok(_) => Some(out),
        Err(_) => None,
    }
}

/// The sections of an INI text, as `configparser` reads them with its
/// default settings (`Ini::new`): `None` where it refuses the text, else each
/// section's name mapped to its keys, each key mapped to its value, which is
/// absent for a key given without one.
pub uninterp spec fn ini_sections_read(text: Seq<char>) -> Option<
    Map<Seq<char>, Map<Seq<char>, Option<Seq<char>>>>,
>;

/// The texts of a section's entries.
pub open spec fn prop_texts(props: Seq<(String, Option<String>)>) -> Seq<
    (Seq<char>, Option<Seq<char>>),
> {
    props.map_values(
        |p: (String, Option<String>)|
            (
                p.0@,
                match p.1 {
                    Some(s) => Some(s@),
                    None => None,
                },
            ),
    )
}

/// The texts of a list of sections.
pub open spec fn section_texts(secs: Seq<(String, Vec<(String, Option<String>)>)>) -> Seq<
    (Seq<char>, Seq<(Seq<char>, Option<Seq<char>>)>),
> {
    secs.map_values(|s: (String, Vec<(String, Option<String>)>)| (s.0@, prop_texts(s.1@)))
}

/// `props` lists the map `m`: each key once, each with its value.
pub open spec fn lists_map<V>(props: Seq<(Seq<char>, V)>, m: Map<Seq<char>, V>) -> bool {
    &&& forall|i: int, j: int| 0 <= i < j < props.len() ==> props[i].0 != props[j].0
    &&& forall|i: int|
        0 <= i < props.len() ==> m.contains_key(#[trigger] props[i].0) && m[props[i].0]
            == props[i].1
    &&& forall|k: Seq<char>| m.contains_key(k) ==> exists|i: int| 0 <= i < props.len() && #[trigger] props[i].0 == k
}

/// `secs` lists the sections `m`, in some order: each section once, with
/// its entries listed in some order.
pub open spec fn lists_sections(
    secs: Seq<(Seq<char>, Seq<(Seq<char>, Option<Seq<char>>)>)>,
    m: Map<Seq<char>, Map<Seq<char>, Option<Seq<char>>>>,
) -> bool {
    &&& forall|i: int, j: int| 0 <= i < j < secs.len() ==> secs[i].0 != secs[j].0
    &&& forall|i: int|
        0 <= i < secs.len() ==> m.contains_key(#[trigger] secs[i].0) && lists_map(
            secs[i].1,
            m[secs[i].0],
        )
    &&& forall|k: Seq<char>| m.contains_key(k) ==> exists|i: int| 0 <= i < secs.len() && #[trigger] secs[i].0 == k
}

/// Reads an INI text with `configparser::ini::Ini::new()` and `Ini::read`,
/// and lists the sections and their entries in the order in which its hash
/// maps give them. That order is not stated; what is stated is that the
/// listing holds exactly the sections named `ini_sections_read` of the text.
#[verifier::external_body]
fn read_ini(text: &str) -> (r: Option<Vec<(String, Vec<(String, Option<String>)>)>>)
    ensures
        r is Some <==> ini_sections_read(text@) is Some,
        r matches Some(secs) ==> lists_sections(section_texts(secs@), ini_sections_read(text@)->0),
{
    let mut config = configparser::ini::Ini::new();
    match config.read(String::from(text)) {
        Ok(map) => Some(map.into_iter().map(|(s, props)| (s, props.into_iter().collect())).collect()),
        Err(_) => None,
    }
}

/// The object entries of one section: each key with its value as a string,
/// the empty string for a key without a value.
pub open spec fn section_entries(props: Seq<(Seq<char>, Option<Seq<char>>)>) -> Seq<
    (Seq<char>, Json),
>
    decreases props.len(),
{
    if props.len() == 0 {
        Seq::empty()
    } else {
        let prev = section_entries(props.drop_last());
        let v = match props.last().1 {
            Some(s) => s,
            None => Seq::empty(),
        };
        put_entry(prev, props.last().0, Json::Str(v))
    }
}

/// The object entries that sections give, taken in order: the section named
/// `default` replaces everything taken before it; any other section is put
/// under its name.
pub open spec fn ini_entries(secs: Seq<(Seq<char>, Seq<(Seq<char>, Option<Seq<char>>)>)>) -> Seq<
    (Seq<char>, Json),
>
    decreases secs.len(),
{
    if secs.len() == 0 {
        Seq::empty()
    } else {
        let prev = ini_entries(secs.drop_last());
        let section = section_entries(secs.last().1);
        if secs.last().0 == "default"@ {
            section
        } else {
            put_entry(prev, secs.last().0, Json::Object(section))
        }
    }
}

/// Whether two texts are equal.
fn same_text(a: &str, b: &str) -> (r: bool)
    ensures
        r == (a@ == b@),
{
    let ac = chars_of(a);
    let bc = chars_of(b);
    if ac.len() != bc.len() {
        return false;
    }
    for i in 0..ac.len()
        invariant
            ac@ == a@,
            bc@ == b@,
            ac@.len() == bc@.len(),
            forall|j: int| 0 <= j < i ==> ac@[j] == bc@[j],
    {
        if ac[i] != bc[i] {
            assert(a@[i as int] != b@[i as int]);
            return false;
        }
    }
    assert(ac@ =~= bc@);
    true
}

/// The JSON object of one INI section.
fn section_object(props: &Vec<(String, Option<String>)>) -> (r: Vec<(String, JsonValue)>)
    ensures
        json_entries(r@) == section_entries(prop_texts(props@)),
{
    let mut r: Vec<(String, JsonValue)> = Vec::new();
    let n = props.len();
    for i in 0..n
        invariant
            n == props@.len(),
            json_entries(r@) == section_entries(prop_texts(props@.take(i as int))),
    {
        proof {
            assert(props@.take(i + 1).drop_last() =~= props@.take(i as int));
            assert(prop_texts(props@.take(i + 1)).drop_last() =~= prop_texts(
                props@.take(i as int),
            ));
        }
        let value = match &props[i].1 {
            Some(s) => s.clone(),
            None => String::new(),
        };
        put_value(&mut r, props[i].0.clone(), JsonValue::String(value));
    }
    proof {
        assert(props@.take(n as int) =~= props@);
    }
    r
}

/// The JSON object that INI sections, taken in the order given, make: the
/// section `default` gives the top-level keys (replacing what came before
/// it), any other section becomes an object under its name.
pub fn ini_to_json(sections: &Vec<(String, Vec<(String, Option<String>)>)>) -> (r: JsonValue)
    ensures
        r@ == Json::Object(ini_entries(section_texts(sections@))),
        json_wf(r@),
{
    proof {
        law_ini_entries_wf(section_texts(sections@));
    }
    let mut json_value: Vec<(String, JsonValue)> = Vec::new();
    let n = sections.len();
    for i in 0..n
        invariant
            n == sections@.len(),
            json_entries(json_value@) == ini_entries(section_texts(sections@.take(i as int))),
    {
        proof {
            assert(sections@.take(i + 1).drop_last() =~= sections@.take(i as int));
            assert(section_texts(sections@.take(i + 1)).drop_last() =~= section_texts(
                sections@.take(i as int),
            ));
        }
        let section_map = section_object(&sections[i].1);
        if same_text(sections[i].0.as_str(), "default") {
            json_value = section_map;
        } else {
            put_value(&mut json_value, sections[i].0.clone(), JsonValue::Object(section_map));
        }
    }
    proof {
        assert(sections@.take(n as int) =~= sections@);
    }
    JsonValue::Object(json_value)
}

/// A configuration text as parsed: JSON text with its comments removed, to
/// be decoded as JSON by the caller, or the JSON value of an INI text.
pub enum ParsedConfig {
    JsonText(Vec<u8>),
    Value(JsonValue),
}

/// Why a configuration text could not be parsed.
#[derive(Debug)]
pub enum ParseError {
    /// The pattern that tells JSON from INI did not compile (it is fixed and
    /// always compiles, so `parse` never gives this).
    Pattern,
    /// The JSON text holds a `/` that starts no comment, or it ends inside a
    /// comment, inside a string, or just after a backslash in a string.
    Comments,
}

/// Whether parsing `content` panics: it is INI, and `configparser` refuses it.
pub open spec fn parse_panics(content: Seq<char>) -> bool {
    !opens_with_brace(content) && ini_sections_read(content) is None
}

/// What parsing `content` gives: JSON text (an opening brace after white
/// space) comes back with its comments removed; INI text comes back as the
/// JSON value of its sections, taken in the order that the INI reader lists
/// them.
pub open spec fn parse_outcome(content: Seq<char>, r: Result<ParsedConfig, ParseError>) -> bool {
    if opens_with_brace(content) {
        match comments_stripped(content) {
            None => r matches Err(ParseError::Comments),
            Some(b) => r matches Ok(ParsedConfig::JsonText(t)) && t@ == b,
        }
    } else {
        r matches Ok(ParsedConfig::Value(v)) && exists|
            secs: Seq<(Seq<char>, Seq<(Seq<char>, Option<Seq<char>>)>)>,
        |
            lists_sections(secs, ini_sections_read(content)->0) && v@ == Json::Object(
                ini_entries(secs),
            )
    }
}

/// Parses a configuration text, as `parse_outcome` says.
pub fn parse(content: &str) -> (r: Result<ParsedConfig, ParseError>)
    requires
        !parse_panics(content@),
    ensures
        parse_outcome(content@, r),
{
    let is_json = regex_is_match("^\\s*\\{", content);
    match is_json {
        None => Err(ParseError::Pattern),
        Some(true) => match strip_comments(content) {
            Some(stripped) => Ok(ParsedConfig::JsonText(stripped)),
            None => Err(ParseError::Comments),
        },
        Some(false) => {
            let sections = read_ini(content);
            match sections {
                Some(secs) => {
                    let v = ini_to_json(&secs);
                    Ok(ParsedConfig::Value(v))
                },
                None => {
                    assert(false);
                    Err(ParseError::Pattern)
                },
            }
        },
    }
}

/// Parses a configuration text where `parse` may: `None` exactly where an INI
/// text is refused by the INI reader.
pub fn try_parse(content: &str) -> (r: Option<Result<ParsedConfig, ParseError>>)
    ensures
        r is None <==> parse_panics(content@),
        r matches Some(p) ==> parse_outcome(content@, p),
{
    if regex_is_match("^\\s*\\{", content) == Some(false) && read_ini(content).is_none() {
        return None;
    }
    Some(parse(content))
}

} // verus!
