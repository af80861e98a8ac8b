//! Operations on text, stated over the text's characters.
use vstd::prelude::*;

verus! {

/// The characters of `s`, in order.
pub fn chars_of(s: &str) -> (r: Vec<char>)
    ensures
        r@ == s@,
{
    let mut r: Vec<char> = Vec::new();
    for c in it: s.chars()
        invariant
            r.len() == it.index(),
            r@ == it.seq().take(it.index() as int),
            it.seq() == s@,
    {
        r.push(c);
    }
    r
}

/// Appends `c` to `s` (`String::push`): the text grows by that one
/// character at its end.
#[verifier::external_body]
fn push_char(s: &mut String, c: char)
    ensures
        final(s)@ == old(s)@.push(c),
{
    s.push(c);
}

/// The text made of `cs[from..to]`.
pub fn string_of_range(cs: &Vec<char>, from: usize, to: usize) -> (r: String)
    requires
        from <= to <= cs@.len(),
    ensures
        r@ == cs@.subrange(from as int, to as int),
{
    let mut r = String::new();
    let mut i = from;
    while i < to
        invariant
            from <= i <= to <= cs@.len(),
            r@ == cs@.subrange(from as int, i as int),
        decreases to - i,
    {
        push_char(&mut r, cs[i]);
        proof {
            assert(cs@.subrange(from as int, i + 1) =~= cs@.subrange(from as int, i as int).push(
                cs@[i as int],
            ));
        }
        i = i + 1;
    }
    r
}

/// The text made of all of `cs`.
pub fn string_of(cs: &Vec<char>) -> (r: String)
    ensures
        r@ == cs@,
{
    let r = string_of_range(cs, 0, cs.len());
    proof {
        assert(cs@.subrange(0, cs@.len() as int) =~= cs@);
    }
    r
}

/// `a` followed by `b`.
pub fn concat_text(a: &str, b: &str) -> (r: String)
    ensures
        r@ == a@ + b@,
{
    let mut r = a.to_owned();
    r.append(b);
    r
}

/// What `str::to_lowercase` gives for a text: its lowercase equivalent as the
/// Unicode `Lowercase` mapping defines it.
pub uninterp spec fn lowercase_of(s: Seq<char>) -> Seq<char>;

/// The ASCII lowercase of a character: `A` to `Z` become `a` to `z`; any
/// other character stays.
pub open spec fn ascii_lower(c: char) -> char {
    if 'A' <= c <= 'Z' {
        ((c as u32) + 32) as char
    } else {
        c
    }
}

/// Lowercase equivalent of `s` (`str::to_lowercase`); the result is named
/// `lowercase_of`. For a text of ASCII characters only it is stated: the
/// Unicode mapping lowercases `A` to `Z` and leaves every other ASCII
/// character as it is, one character for one. Other texts are left to the
/// Unicode tables.
#[verifier::external_body]
pub fn to_lowercase(s: &str) -> (r: String)
    ensures
        r@ == lowercase_of(s@),
        (forall|i: int| 0 <= i < s@.len() ==> (#[trigger] s@[i] as u32) < 128) ==> r@ == s@.map_values(
            |c: char| ascii_lower(c),
        ),
{
    s.to_lowercase()
}

/// Whether `p` occurs in `s` starting at index `i`.
pub open spec fn matches_at(s: Seq<char>, p: Seq<char>, i: int) -> bool {
    0 <= i && i + p.len() <= s.len() && s.subrange(i, i + p.len()) == p
}

/// Index of the leftmost occurrence of `p` in `s`.
pub open spec fn first_occurrence(s: Seq<char>, p: Seq<char>) -> Option<int>
    decreases s.len(),
{
    if s.len() < p.len() {
        None
    } else if s.take(p.len() as int) == p {
        Some(0)
    } else if s.len() == 0 {
        None
    } else {
        match first_occurrence(s.drop_first(), p) {
            Some(i) => Some(i + 1),
            None => None,
        }
    }
}

/// Whether `p` occurs somewhere in `s`.
pub open spec fn contains_text(s: Seq<char>, p: Seq<char>) -> bool {
    exists|i: int| matches_at(s, p, i)
}

/// `first_occurrence` is the least index where `p` occurs.
pub proof fn lemma_first_occurrence(s: Seq<char>, p: Seq<char>, i: int)
    requires
        0 <= i,
        forall|t: int| 0 <= t < i ==> !matches_at(s, p, t),
        matches_at(s, p, i) || i + p.len() > s.len(),
    ensures
        first_occurrence(s, p) == (if matches_at(s, p, i) {
            Some(i)
        } else {
            None::<int>
        }),
    decreases s.len(),
{
    if s.len() < p.len() {
    } else if s.take(p.len() as int) == p {
        assert(s.subrange(0, p.len() as int) == s.take(p.len() as int));
        assert(matches_at(s, p, 0));
    } else {
        assert(!matches_at(s, p, 0)) by {
            assert(s.subrange(0, p.len() as int) == s.take(p.len() as int));
        }
        if s.len() > 0 {
            let t = s.drop_first();
            assert forall|u: int| 0 <= u < i - 1 implies !matches_at(t, p, u) by {
                if u + 1 + p.len() <= s.len() {
                    assert(t.subrange(u, u + p.len()) =~= s.subrange(u + 1, u + 1 + p.len()));
                }
                assert(!matches_at(s, p, u + 1));
            }
            if matches_at(s, p, i) {
                assert(t.subrange(i - 1, i - 1 + p.len()) =~= s.subrange(i, i + p.len()));
            }
            if i >= 1 {
                lemma_first_occurrence(t, p, i - 1);
            } else {
                assert(i == 0);
            }
        }
    }
}

/// A found occurrence is an occurrence, and no earlier one exists.
pub proof fn lemma_first_occurrence_found(s: Seq<char>, p: Seq<char>)
    ensures
        first_occurrence(s, p) matches Some(i) ==> matches_at(s, p, i) && forall|t: int|
            0 <= t < i ==> !matches_at(s, p, t),
        first_occurrence(s, p) is None ==> forall|t: int| !matches_at(s, p, t),
    decreases s.len(),
{
    if s.len() < p.len() {
    } else if s.take(p.len() as int) == p {
        assert(s.subrange(0, p.len() as int) == s.take(p.len() as int));
    } else {
        assert(!matches_at(s, p, 0)) by {
            assert(s.subrange(0, p.len() as int) == s.take(p.len() as int));
        }
        if s.len() > 0 {
            let t = s.drop_first();
            lemma_first_occurrence_found(t, p);
            assert forall|u: int| 1 <= u implies matches_at(s, p, u) == matches_at(t, p, u - 1) by {
                if u + p.len() <= s.len() {
                    assert(t.subrange(u - 1, u - 1 + p.len()) =~= s.subrange(u, u + p.len()));
                }
            }
        }
    }
}

/// The pieces of `s` between the occurrences of `sep`, taken leftmost first
/// and without overlap (`str::split`). A text without `sep` is one piece.
pub open spec fn split_on(s: Seq<char>, sep: Seq<char>) -> Seq<Seq<char>>
    decreases s.len(),
{
    if sep.len() == 0 {
        seq![s]
    } else {
        match first_occurrence(s, sep) {
            Some(i) => {
                proof {
                    lemma_first_occurrence_found(s, sep);
                }
                seq![s.take(i)] + split_on(s.skip(i + sep.len()), sep)
            },
            None => seq![s],
        }
    }
}

/// The texts of a sequence of strings.
pub open spec fn texts(v: Seq<String>) -> Seq<Seq<char>> {
    v.map_values(|x: String| x@)
}

/// Whether `p` occurs in `cs` at index `j`.
fn matches_at_exec(cs: &Vec<char>, p: &Vec<char>, j: usize) -> (r: bool)
    ensures
        r == matches_at(cs@, p@, j as int),
{
    let n = cs.len();
    if j > n || p.len() > n - j {
        return false;
    }
    let m = p.len();
    for t in 0..m
        invariant
            m == p@.len(),
            n == cs@.len(),
            j + m <= n,
            forall|u: int| 0 <= u < t ==> cs@[j + u] == p@[u],
    {
        if cs[j + t] != p[t] {
            proof {
                assert(cs@.subrange(j as int, j + m)[t as int] != p@[t as int]);
            }
            return false;
        }
    }
    proof {
        assert(cs@.subrange(j as int, j + m) =~= p@);
    }
    true
}

/// Whether `p` occurs in `s` (`str::contains`).
pub fn contains(s: &str, p: &str) -> (r: bool)
    ensures
        r == contains_text(s@, p@),
{
    let cs = chars_of(s);
    let ps = chars_of(p);
    let n = cs.len();
    let m = ps.len();
    if m > n {
        assert forall|i: int| !matches_at(s@, p@, i) by {}
        return false;
    }
    if m == 0 {
        assert(matches_at(s@, p@, 0)) by {
            assert(s@.subrange(0, 0) =~= p@);
        }
        return true;
    }
    let mut j: usize = 0;
    while j <= n - m
        invariant
            n == cs@.len(),
            m == ps@.len(),
            0 < m <= n,
            cs@ == s@,
            ps@ == p@,
            j <= n - m + 1,
            forall|t: int| 0 <= t < j ==> !matches_at(s@, p@, t),
        decreases n - j,
    {
        if matches_at_exec(&cs, &ps, j) {
            return true;
        }
        j = j + 1;
    }
    assert forall|i: int| !matches_at(s@, p@, i) by {
        if 0 <= i && i < j {
        }
    }
    false
}

/// Whether `s` begins with `p` (`str::starts_with`).
pub fn starts_with(s: &str, p: &str) -> (r: bool)
    ensures
        r == p@.is_prefix_of(s@),
{
    let cs = chars_of(s);
    let ps = chars_of(p);
    if ps.len() > cs.len() {
        return false;
    }
    let r = matches_at_exec(&cs, &ps, 0);
    proof {
        assert(cs@.subrange(0, ps@.len() as int) == cs@.take(ps@.len() as int));
    }
    r
}

/// The pieces of `s` between the occurrences of `sep` (`str::split`).
pub fn split(s: &str, sep: &str) -> (r: Vec<String>)
    requires
        sep@.len() > 0,
    ensures
        texts(r@) == split_on(s@, sep@),
{
    let cs = chars_of(s);
    let ps = chars_of(sep);
    let n = cs.len();
    let m = ps.len();
    let mut parts: Vec<String> = Vec::new();
    proof {
        assert(cs@.skip(0) =~= cs@);
        assert(texts(parts@) =~= Seq::<Seq<char>>::empty());
        assert(Seq::<Seq<char>>::empty() + split_on(cs@, ps@) =~= split_on(cs@, ps@));
    }
    let mut start: usize = 0;
    let mut j: usize = 0;
    while j < n && m <= n - j
        invariant
            n == cs@.len(),
            m == ps@.len(),
            m > 0,
            cs@ == s@,
            ps@ == sep@,
            start <= j <= n,
            texts(parts@) + split_on(cs@.skip(start as int), ps@) == split_on(cs@, ps@),
            forall|t: int| start <= t < j ==> !matches_at(cs@, ps@, t),
        decreases n - j,
    {
        if matches_at_exec(&cs, &ps, j) {
            let piece = string_of_range(&cs, start, j);
            proof {
                let rest = cs@.skip(start as int);
                let i = j - start;
                assert forall|t: int| 0 <= t < i implies !matches_at(rest, ps@, t) by {
                    if t + m <= rest.len() {
                        assert(rest.subrange(t, t + m) =~= cs@.subrange(start + t, start + t + m));
                    }
                    assert(!matches_at(cs@, ps@, start + t));
                }
                assert(rest.subrange(i, i + m) =~= cs@.subrange(j as int, j + m));
                lemma_first_occurrence(rest, ps@, i);
                assert(rest.take(i) =~= cs@.subrange(start as int, j as int));
                assert(rest.skip(i + m) =~= cs@.skip(j + m));
                assert(split_on(rest, ps@) == seq![rest.take(i)] + split_on(rest.skip(i + m), ps@));
                assert(texts(parts@.push(piece)) =~= texts(parts@).push(piece@));
                assert(texts(parts@).push(piece@) + split_on(cs@.skip(j + m), ps@) =~= texts(
                    parts@,
                ) + (seq![rest.take(i)] + split_on(rest.skip(i + m), ps@)));
            }
            parts.push(piece);
            start = j + m;
            j = start;
        } else {
            j = j + 1;
        }
    }
    let last = string_of_range(&cs, start, n);
    proof {
        let rest = cs@.skip(start as int);
        let i = j - start;
        assert forall|t: int| 0 <= t < i implies !matches_at(rest, ps@, t) by {
            if t + m <= rest.len() {
                assert(rest.subrange(t, t + m) =~= cs@.subrange(start + t, start + t + m));
            }
            assert(!matches_at(cs@, ps@, start + t));
        }
        lemma_first_occurrence(rest, ps@, i);
        assert(rest =~= cs@.subrange(start as int, n as int));
        assert(split_on(rest, ps@) == seq![rest]);
        assert(texts(parts@.push(last)) =~= texts(parts@).push(last@));
        assert(texts(parts@).push(last@) =~= texts(parts@) + seq![rest]);
    }
    parts.push(last);
    parts
}

} // verus!

verus! {

/// Index of the first text in `s` that equals `k`.
pub open spec fn position_of(s: Seq<Seq<char>>, k: Seq<char>) -> Option<int>
    decreases s.len(),
{
    if s.len() == 0 {
        None
    } else if s[0] == k {
        Some(0)
    } else {
        match position_of(s.drop_first(), k) {
            Some(i) => Some(i + 1),
            None => None,
        }
    }
}

/// `position_of` is the first index holding `k`.
pub proof fn lemma_position_of(s: Seq<Seq<char>>, k: Seq<char>, i: int)
    requires
        0 <= i <= s.len(),
        forall|j: int| 0 <= j < i ==> s[j] != k,
        i < s.len() ==> s[i] == k,
    ensures
        position_of(s, k) == (if i < s.len() {
            Some(i)
        } else {
            None::<int>
        }),
    decreases s.len(),
{
    if s.len() > 0 && i > 0 {
        let t = s.drop_first();
        assert forall|j: int| 0 <= j < i - 1 implies t[j] != k by {
            assert(t[j] == s[j + 1]);
        }
        lemma_position_of(t, k, i - 1);
    }
}

/// A found position holds `k`; where none is found, `k` does not occur.
pub proof fn lemma_position_of_found(s: Seq<Seq<char>>, k: Seq<char>)
    ensures
        position_of(s, k) matches Some(i) ==> 0 <= i < s.len() && s[i] == k,
        position_of(s, k) is None ==> !s.contains(k),
    decreases s.len(),
{
    if s.len() > 0 {
        let t = s.drop_first();
        lemma_position_of_found(t, k);
        if s[0] != k && position_of(t, k) is None {
            assert forall|j: int| 0 <= j < s.len() implies s[j] != k by {
                if j > 0 {
                    assert(s[j] == t[j - 1]);
                }
            }
        }
    }
}

/// Index of the first string in `v` whose text is `k`.
pub fn find_text(v: &Vec<String>, k: &str) -> (r: Option<usize>)
    ensures
        match r {
            Some(i) => position_of(texts(v@), k@) == Some(i as int) && i < v@.len(),
            None => position_of(texts(v@), k@) is None,
        },
{
    let ghost ts = texts(v@);
    let kc = String::from_str(k);
    for i in 0..v.len()
        invariant
            ts == texts(v@),
            kc@ == k@,
            forall|j: int| 0 <= j < i ==> ts[j] != k@,
    {
        if v[i] == kc {
            proof {
                lemma_position_of(ts, k@, i as int);
            }
            return Some(i);
        }
    }
    proof {
        lemma_position_of(ts, k@, v@.len() as int);
    }
    None
}

} // verus!

verus! {

/// Splitting always gives at least one piece.
pub proof fn lemma_split_on_nonempty(s: Seq<char>, sep: Seq<char>)
    ensures
        split_on(s, sep).len() >= 1,
{
    if sep.len() > 0 {
        match first_occurrence(s, sep) {
            Some(i) => {
                lemma_first_occurrence_found(s, sep);
                let rest = split_on(s.skip(i + sep.len()), sep);
                assert((seq![s.take(i)] + rest).len() == 1 + rest.len());
            },
            None => {},
        }
    }
}

} // verus!
