//! Paths held as text, joined and cut by the platform's `Path`.
use vstd::prelude::*;

verus! {

/// What `Path::join` gives for `base` and `part`, as text: `part` pushed
/// onto `base` by the platform's rules (its separator, and what makes `part`
/// replace `base`).
pub uninterp spec fn joined(base: Seq<char>, part: Seq<char>) -> Seq<char>;

/// `base` joined with `part` by `Path::join`. The result is what `joined`
/// names for the two texts; the platform's joining rules are not stated. Both
/// inputs are text, and joining adds only a separator, so the result is
/// text too and comes back unchanged.
#[verifier::external_body]
pub fn join(base: &str, part: &str) -> (r: String)
    ensures
        r@ == joined(base@, part@),
{
    std::path::Path::new(base).join(part).to_string_lossy().into_owned()
}

/// What `Path::parent` gives for the path `p`, as text: the path without
/// its final component, or nothing where `p` is a root or empty.
pub uninterp spec fn parent_of(p: Seq<char>) -> Option<Seq<char>>;

/// The path without its final component (`Path::parent`, on the path read
/// from `p`). The result is what `parent_of` names for `p`; where there is
/// one, it is strictly shorter than `p`, since `Path::parent` hands back a
/// proper prefix of the path. What counts as a component is left to the
/// platform's `Path` and is not stated here.
#[verifier::external_body]
pub fn parent(p: &str) -> (r: Option<String>)
    ensures
        match r {
            Some(q) => parent_of(p@) == Some(q@),
            None => parent_of(p@) is None,
        },
        r matches Some(q) ==> q@.len() < p@.len(),
{
    match std::path::Path::new(p).parent() {
        Some(q) => q.to_str().map(|t| t.to_owned()),
        None => None,
    }
}

} // verus!
