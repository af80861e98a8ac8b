//! JSON values as configuration data: the executable tree, its mathematical
//! model, and the object operations (lookup, update) that the merge and the
//! environment reader are specified with.
use vstd::prelude::*;

verus! {

/// Mathematical model of a JSON value. An object is the sequence of its
/// entries; a number is kept as the decimal text that denotes it.
pub enum Json {
    Null,
    Bool(bool),
    Number(Seq<char>),
    Str(Seq<char>),
    Array(Seq<Json>),
    Object(Seq<(Seq<char>, Json)>),
}

/// A JSON value. A number is held as its decimal text, so that equal numbers
/// have equal text; an object holds its entries in order.
#[derive(Debug)]
pub enum JsonValue {
    Null,
    Bool(bool),
    Number(String),
    String(String),
    Array(Vec<JsonValue>),
    Object(Vec<(String, JsonValue)>),
}

/// The model of a value.
pub open spec fn json_of(v: JsonValue) -> Json
    decreases v,
{
    match v {
        JsonValue::Null => Json::Null,
        JsonValue::Bool(b) => Json::Bool(b),
        JsonValue::Number(n) => Json::Number(n@),
        JsonValue::String(s) => Json::Str(s@),
        JsonValue::Array(a) => Json::Array(json_seq(a@)),
        JsonValue::Object(o) => Json::Object(json_entries(o@)),
    }
}

/// The models of a sequence of values.
pub open spec fn json_seq(s: Seq<JsonValue>) -> Seq<Json>
    decreases s,
{
    if s.len() == 0 {
        Seq::empty()
    } else {
        json_seq(s.drop_last()).push(json_of(s.last()))
    }
}

/// The models of a sequence of object entries.
pub open spec fn json_entries(s: Seq<(String, JsonValue)>) -> Seq<(Seq<char>, Json)>
    decreases s,
{
    if s.len() == 0 {
        Seq::empty()
    } else {
        json_entries(s.drop_last()).push((s.last().0@, json_of(s.last().1)))
    }
}

impl View for JsonValue {
    type V = Json;

    open spec fn view(&self) -> Json {
        json_of(*self)
    }
}

pub proof fn lemma_json_seq_index(s: Seq<JsonValue>)
    ensures
        json_seq(s).len() == s.len(),
        forall|i: int| 0 <= i < s.len() ==> #[trigger] json_seq(s)[i] == json_of(s[i]),
    decreases s.len(),
{
    if s.len() > 0 {
        lemma_json_seq_index(s.drop_last());
    }
}

pub proof fn lemma_json_entries_index(s: Seq<(String, JsonValue)>)
    ensures
        json_entries(s).len() == s.len(),
        forall|i: int|
            0 <= i < s.len() ==> #[trigger] json_entries(s)[i] == (s[i].0@, json_of(s[i].1)),
    decreases s.len(),
{
    if s.len() > 0 {
        lemma_json_entries_index(s.drop_last());
    }
}

/// Two sequences of entries whose entries agree one by one have one model.
pub proof fn lemma_json_entries_ext(a: Seq<(String, JsonValue)>, b: Seq<(String, JsonValue)>)
    requires
        a.len() == b.len(),
        forall|i: int|
            0 <= i < a.len() ==> (#[trigger] a[i]).0@ == b[i].0@ && json_of(a[i].1) == json_of(
                b[i].1,
            ),
    ensures
        json_entries(a) == json_entries(b),
{
    lemma_json_entries_index(a);
    lemma_json_entries_index(b);
    assert(json_entries(a) =~= json_entries(b));
}

pub proof fn lemma_json_seq_ext(a: Seq<JsonValue>, b: Seq<JsonValue>)
    requires
        a.len() == b.len(),
        forall|i: int| 0 <= i < a.len() ==> json_of(#[trigger] a[i]) == json_of(b[i]),
    ensures
        json_seq(a) == json_seq(b),
{
    lemma_json_seq_index(a);
    lemma_json_seq_index(b);
    assert(json_seq(a) =~= json_seq(b));
}

/// Updating one entry updates its model.
pub proof fn lemma_json_entries_update(s: Seq<(String, JsonValue)>, i: int, e: (String, JsonValue))
    requires
        0 <= i < s.len(),
    ensures
        json_entries(s.update(i, e)) == json_entries(s).update(i, (e.0@, json_of(e.1))),
{
    lemma_json_entries_index(s);
    lemma_json_entries_index(s.update(i, e));
    assert(json_entries(s.update(i, e)) =~= json_entries(s).update(i, (e.0@, json_of(e.1))));
}

/// Appending one entry appends its model.
pub proof fn lemma_json_entries_push(s: Seq<(String, JsonValue)>, e: (String, JsonValue))
    ensures
        json_entries(s.push(e)) == json_entries(s).push((e.0@, json_of(e.1))),
{
    assert(s.push(e).drop_last() =~= s);
}

/// A copy of a value, with the same model.
pub fn clone_json(v: &JsonValue) -> (r: JsonValue)
    ensures
        r@ == v@,
    decreases v,
{
    match v {
        JsonValue::Null => JsonValue::Null,
        JsonValue::Bool(b) => JsonValue::Bool(*b),
        JsonValue::Number(n) => JsonValue::Number(n.clone()),
        JsonValue::String(s) => JsonValue::String(s.clone()),
        JsonValue::Array(a) => {
            let r = clone_values(a);
            JsonValue::Array(r)
        },
        JsonValue::Object(o) => {
            let r = clone_entries(o);
            JsonValue::Object(r)
        },
    }
}

/// A copy of a sequence of values.
pub fn clone_values(a: &Vec<JsonValue>) -> (r: Vec<JsonValue>)
    ensures
        json_seq(r@) == json_seq(a@),
        r@.len() == a@.len(),
    decreases a,
{
    let mut r: Vec<JsonValue> = Vec::new();
    let n = a.len();
    for i in 0..n
        invariant
            n == a@.len(),
            r@.len() == i,
            forall|j: int| 0 <= j < i ==> json_of(#[trigger] r@[j]) == json_of(a@[j]),
    {
        let c = clone_json(&a[i]);
        r.push(c);
    }
    proof {
        lemma_json_seq_ext(r@, a@);
    }
    r
}

/// A copy of a sequence of entries.
pub fn clone_entries(o: &Vec<(String, JsonValue)>) -> (r: Vec<(String, JsonValue)>)
    ensures
        json_entries(r@) == json_entries(o@),
        r@.len() == o@.len(),
    decreases o,
{
    let mut r: Vec<(String, JsonValue)> = Vec::new();
    let n = o.len();
    for i in 0..n
        invariant
            n == o@.len(),
            r@.len() == i,
            forall|j: int|
                0 <= j < i ==> (#[trigger] r@[j]).0@ == o@[j].0@ && json_of(r@[j].1) == json_of(
                    o@[j].1,
                ),
    {
        let k = o[i].0.clone();
        let c = clone_json(&o[i].1);
        r.push((k, c));
    }
    proof {
        lemma_json_entries_ext(r@, o@);
    }
    r
}

/// Position of the first entry of `es` whose key is `k`.
pub open spec fn key_position(es: Seq<(Seq<char>, Json)>, k: Seq<char>) -> Option<int>
    decreases es.len(),
{
    if es.len() == 0 {
        None
    } else if es[0].0 == k {
        Some(0)
    } else {
        match key_position(es.drop_first(), k) {
            Some(i) => Some(i + 1),
            None => None,
        }
    }
}

/// The value that an object's entries give to key `k`.
pub open spec fn get_entry(es: Seq<(Seq<char>, Json)>, k: Seq<char>) -> Option<Json> {
    match key_position(es, k) {
        Some(i) => Some(es[i].1),
        None => None,
    }
}

/// The entries with key `k` set to `v`: in place where `k` is present,
/// appended where it is not.
pub open spec fn put_entry(es: Seq<(Seq<char>, Json)>, k: Seq<char>, v: Json) -> Seq<
    (Seq<char>, Json),
> {
    match key_position(es, k) {
        Some(i) => es.update(i, (k, v)),
        None => es.push((k, v)),
    }
}

/// `key_position` is the first index whose key is `k`.
pub proof fn lemma_key_position(es: Seq<(Seq<char>, Json)>, k: Seq<char>, i: int)
    requires
        0 <= i <= es.len(),
        forall|j: int| 0 <= j < i ==> (#[trigger] es[j]).0 != k,
        i < es.len() ==> es[i].0 == k,
    ensures
        key_position(es, k) == (if i < es.len() {
            Some(i)
        } else {
            None::<int>
        }),
    decreases es.len(),
{
    if es.len() > 0 && i > 0 {
        assert(es[0].0 != k);
        let t = es.drop_first();
        assert forall|j: int| 0 <= j < i - 1 implies (#[trigger] t[j]).0 != k by {
            assert(t[j] == es[j + 1]);
        }
        lemma_key_position(t, k, i - 1);
    }
}

/// A found position holds the key, and no earlier entry does.
pub proof fn lemma_key_position_found(es: Seq<(Seq<char>, Json)>, k: Seq<char>)
    ensures
        key_position(es, k) matches Some(i) ==> 0 <= i < es.len() && es[i].0 == k && forall|
            j: int,
        | 0 <= j < i ==> (#[trigger] es[j]).0 != k,
        key_position(es, k) is None ==> forall|j: int| 0 <= j < es.len() ==> (#[trigger] es[j]).0
            != k,
    decreases es.len(),
{
    if es.len() > 0 {
        let t = es.drop_first();
        lemma_key_position_found(t, k);
        if es[0].0 != k {
            assert forall|j: int| 1 <= j < es.len() implies #[trigger] es[j] == t[j - 1] by {}
        }
    }
}

/// Position of the first entry of `es` with key `k`.
pub fn find_key(es: &Vec<(String, JsonValue)>, k: &String) -> (r: Option<usize>)
    ensures
        match r {
            Some(i) => key_position(json_entries(es@), k@) == Some(i as int) && i < es@.len(),
            None => key_position(json_entries(es@), k@) is None,
        },
{
    proof {
        lemma_json_entries_index(es@);
    }
    let n = es.len();
    for i in 0..n
        invariant
            n == es@.len(),
            json_entries(es@).len() == n,
            forall|j: int|
                0 <= j < n ==> #[trigger] json_entries(es@)[j] == (es@[j].0@, json_of(es@[j].1)),
            forall|j: int| 0 <= j < i ==> (#[trigger] json_entries(es@)[j]).0 != k@,
    {
        if es[i].0 == *k {
            proof {
                lemma_key_position(json_entries(es@), k@, i as int);
            }
            return Some(i);
        }
    }
    proof {
        lemma_key_position(json_entries(es@), k@, n as int);
    }
    None
}

/// Sets the entry for key `k` to `v`, as `put_entry` says.
pub fn put_value(es: &mut Vec<(String, JsonValue)>, k: String, v: JsonValue)
    ensures
        json_entries(final(es)@) == put_entry(json_entries(old(es)@), k@, v@),
{
    let pos = find_key(es, &k);
    match pos {
        Some(p) => {
            proof {
                lemma_json_entries_update(es@, p as int, (k, v));
            }
            es.set(p, (k, v));
        },
        None => {
            proof {
                lemma_json_entries_push(es@, (k, v));
            }
            es.push((k, v));
        },
    }
}

/// The value of key `k` in `es`, if there is one.
pub fn get_value<'a>(es: &'a Vec<(String, JsonValue)>, k: &String) -> (r: Option<&'a JsonValue>)
    ensures
        match r {
            Some(v) => get_entry(json_entries(es@), k@) == Some(v@),
            None => get_entry(json_entries(es@), k@) is None,
        },
{
    proof {
        lemma_json_entries_index(es@);
    }
    match find_key(es, k) {
        Some(p) => Some(&es[p].1),
        None => None,
    }
}

/// Each key of `es` is listed once.
pub open spec fn unique_keys(es: Seq<(Seq<char>, Json)>) -> bool {
    forall|i: int, j: int| 0 <= i < j < es.len() ==> es[i].0 != es[j].0
}

/// Every object inside `j`, `j` itself included, lists each key once.
pub open spec fn json_wf(j: Json) -> bool
    decreases j,
{
    match j {
        Json::Object(es) => unique_keys(es) && entries_wf(es),
        Json::Array(xs) => items_wf(xs),
        _ => true,
    }
}

/// Every value of `es` is well formed.
pub open spec fn entries_wf(es: Seq<(Seq<char>, Json)>) -> bool
    decreases es,
{
    if es.len() == 0 {
        true
    } else {
        entries_wf(es.drop_last()) && json_wf(es.last().1)
    }
}

/// Every item of `xs` is well formed.
pub open spec fn items_wf(xs: Seq<Json>) -> bool
    decreases xs,
{
    if xs.len() == 0 {
        true
    } else {
        items_wf(xs.drop_last()) && json_wf(xs.last())
    }
}

/// A key that no entry holds has no position.
pub proof fn lemma_key_absent(es: Seq<(Seq<char>, Json)>, k: Seq<char>)
    requires
        forall|j: int| 0 <= j < es.len() ==> (#[trigger] es[j]).0 != k,
    ensures
        key_position(es, k) is None,
{
    lemma_key_position(es, k, es.len() as int);
}

/// Looking a key up after setting one: the value set, for that key; what
/// was there before, for any other.
pub proof fn lemma_get_put(es: Seq<(Seq<char>, Json)>, k: Seq<char>, w: Json, q: Seq<char>)
    ensures
        get_entry(put_entry(es, k, w), q) == (if q == k {
            Some(w)
        } else {
            get_entry(es, q)
        }),
{
    lemma_key_position_found(es, k);
    lemma_key_position_found(es, q);
    let t = put_entry(es, k, w);
    match key_position(es, k) {
        Some(i) => {
            if q == k {
                lemma_key_position(t, q, i);
            } else {
                match key_position(es, q) {
                    Some(p) => {
                        assert forall|j: int| 0 <= j < p implies (#[trigger] t[j]).0 != q by {
                            assert(es[j].0 != q);
                        }
                        lemma_key_position(t, q, p);
                    },
                    None => {
                        assert forall|j: int| 0 <= j < t.len() implies (#[trigger] t[j]).0 != q by {
                            if j != i {
                                assert(es[j].0 != q);
                            }
                        }
                        lemma_key_position(t, q, t.len() as int);
                    },
                }
            }
        },
        None => {
            if q == k {
                assert forall|j: int| 0 <= j < es.len() implies (#[trigger] t[j]).0 != q by {
                    assert(t[j] == es[j]);
                }
                lemma_key_position(t, q, es.len() as int);
            } else {
                match key_position(es, q) {
                    Some(p) => {
                        assert forall|j: int| 0 <= j < p implies (#[trigger] t[j]).0 != q by {
                            assert(t[j] == es[j]);
                        }
                        lemma_key_position(t, q, p);
                    },
                    None => {
                        assert forall|j: int| 0 <= j < t.len() implies (#[trigger] t[j]).0 != q by {
                            if j < es.len() {
                                assert(t[j] == es[j]);
                            }
                        }
                        lemma_key_position(t, q, t.len() as int);
                    },
                }
            }
        },
    }
}

/// In entries with unique keys, the value of the last entry's key is the
/// last value, and other keys are looked up among the earlier entries.
pub proof fn lemma_get_unique_last(es: Seq<(Seq<char>, Json)>, q: Seq<char>)
    requires
        es.len() > 0,
        unique_keys(es),
    ensures
        get_entry(es, q) == (if q == es.last().0 {
            Some(es.last().1)
        } else {
            get_entry(es.drop_last(), q)
        }),
{
    let d = es.drop_last();
    let n = es.len() - 1;
    lemma_key_position_found(d, q);
    if q == es.last().0 {
        assert forall|j: int| 0 <= j < n implies (#[trigger] es[j]).0 != q by {
            assert(es[j].0 != es[n].0);
        }
        lemma_key_position(es, q, n);
    } else {
        match key_position(d, q) {
            Some(p) => {
                assert forall|j: int| 0 <= j < p implies (#[trigger] es[j]).0 != q by {
                    assert(es[j] == d[j]);
                }
                assert(es[p] == d[p]);
                lemma_key_position(es, q, p);
            },
            None => {
                assert forall|j: int| 0 <= j < es.len() implies (#[trigger] es[j]).0 != q by {
                    if j < n {
                        assert(es[j] == d[j]);
                    }
                }
                lemma_key_position(es, q, es.len() as int);
            },
        }
    }
}


/// Setting a key keeps the keys listed once each.
pub proof fn lemma_put_entry_unique(es: Seq<(Seq<char>, Json)>, k: Seq<char>, w: Json)
    requires
        unique_keys(es),
    ensures
        unique_keys(put_entry(es, k, w)),
{
    lemma_key_position_found(es, k);
    let t = put_entry(es, k, w);
    match key_position(es, k) {
        Some(i) => {
            assert forall|a: int, b: int| 0 <= a < b < t.len() implies t[a].0 != t[b].0 by {
                assert(t[a].0 == es[a].0);
                assert(t[b].0 == es[b].0);
            }
        },
        None => {
            assert forall|a: int, b: int| 0 <= a < b < t.len() implies t[a].0 != t[b].0 by {
                if b < es.len() {
                    assert(t[a] == es[a]);
                    assert(t[b] == es[b]);
                } else {
                    assert(t[a] == es[a]);
                }
            }
        },
    }
}

/// The values of well-formed entries are well formed, one by one.
pub proof fn lemma_entries_wf_index(es: Seq<(Seq<char>, Json)>, i: int)
    requires
        entries_wf(es),
        0 <= i < es.len(),
    ensures
        json_wf(es[i].1),
    decreases es.len(),
{
    if i < es.len() - 1 {
        lemma_entries_wf_index(es.drop_last(), i);
    }
}

/// The items of well-formed items are well formed, one by one.
pub proof fn lemma_items_wf_index(xs: Seq<Json>, i: int)
    requires
        items_wf(xs),
        0 <= i < xs.len(),
    ensures
        json_wf(xs[i]),
    decreases xs.len(),
{
    if i < xs.len() - 1 {
        lemma_items_wf_index(xs.drop_last(), i);
    }
}

/// Entries are well formed exactly when each of their values is.
pub proof fn lemma_entries_wf_all(es: Seq<(Seq<char>, Json)>)
    ensures
        entries_wf(es) <==> forall|i: int| 0 <= i < es.len() ==> json_wf(#[trigger] es[i].1),
    decreases es.len(),
{
    if es.len() > 0 {
        let d = es.drop_last();
        lemma_entries_wf_all(d);
        assert forall|i: int| 0 <= i < d.len() implies #[trigger] d[i] == es[i] by {}
        if entries_wf(es) {
            assert forall|i: int| 0 <= i < es.len() implies json_wf(#[trigger] es[i].1) by {
                if i < d.len() {
                    assert(d[i] == es[i]);
                }
            }
        }
        if forall|i: int| 0 <= i < es.len() ==> json_wf(#[trigger] es[i].1) {
            assert forall|i: int| 0 <= i < d.len() implies json_wf(#[trigger] d[i].1) by {
                assert(d[i] == es[i]);
            }
            assert(json_wf(es[es.len() - 1].1));
        }
    }
}

/// What well-formed entries give for a key is well formed.
pub proof fn lemma_get_entry_wf(es: Seq<(Seq<char>, Json)>, q: Seq<char>)
    requires
        entries_wf(es),
    ensures
        get_entry(es, q) matches Some(w) ==> json_wf(w),
{
    lemma_key_position_found(es, q);
    if let Some(i) = key_position(es, q) {
        lemma_entries_wf_index(es, i);
    }
}

/// Setting a key to a well-formed value keeps the entries well formed.
pub proof fn lemma_put_entry_wf(es: Seq<(Seq<char>, Json)>, k: Seq<char>, w: Json)
    requires
        entries_wf(es),
        json_wf(w),
    ensures
        entries_wf(put_entry(es, k, w)),
{
    lemma_entries_wf_all(es);
    let t = put_entry(es, k, w);
    lemma_entries_wf_all(t);
    lemma_key_position_found(es, k);
    assert forall|i: int| 0 <= i < t.len() implies json_wf(#[trigger] t[i].1) by {
        match key_position(es, k) {
            Some(p) => {
                if i != p {
                    assert(t[i] == es[i]);
                }
            },
            None => {
                if i < es.len() {
                    assert(t[i] == es[i]);
                }
            },
        }
    }
}



/// Items are well formed exactly when each of them is.
pub proof fn lemma_items_wf_all(xs: Seq<Json>)
    ensures
        items_wf(xs) <==> forall|i: int| 0 <= i < xs.len() ==> json_wf(#[trigger] xs[i]),
    decreases xs.len(),
{
    if xs.len() > 0 {
        let d = xs.drop_last();
        lemma_items_wf_all(d);
        assert forall|i: int| 0 <= i < d.len() implies #[trigger] d[i] == xs[i] by {}
        if items_wf(xs) {
            assert forall|i: int| 0 <= i < xs.len() implies json_wf(#[trigger] xs[i]) by {
                if i < d.len() {
                    assert(d[i] == xs[i]);
                }
            }
        }
        if forall|i: int| 0 <= i < xs.len() ==> json_wf(#[trigger] xs[i]) {
            assert forall|i: int| 0 <= i < d.len() implies json_wf(#[trigger] d[i]) by {
                assert(d[i] == xs[i]);
            }
            assert(json_wf(xs[xs.len() - 1]));
        }
    }
}

} // verus!
