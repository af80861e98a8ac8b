//! Looking for something from a directory upwards, one directory at a time.
use vstd::prelude::*;

use crate::paths::{join, joined, parent, parent_of};
use crate::utils::constants::PNPM_MONO_CONFIG_JSON;

verus! {

/// The directory `n` levels above `start` (`start` itself for `n == 0`),
/// if there are that many.
pub open spec fn nth_ancestor(start: Seq<char>, n: nat) -> Option<Seq<char>>
    decreases n,
{
    if n == 0 {
        Some(start)
    } else {
        match nth_ancestor(start, (n - 1) as nat) {
            Some(d) => parent_of(d),
            None => None,
        }
    }
}

/// The next move of an upward search.
pub enum SearchStep {
    /// What was looked for is in this directory.
    Found(String),
    /// Look in this directory next: the parent of the one just looked in.
    Ascend(String),
    /// This directory, which has no parent, was the last one looked in.
    Exhausted(String),
}

/// The next move of an upward search after looking in `dir`: stop there
/// where the thing was found; else go on in the parent of `dir`; else, where
/// `dir` has no parent, stop at `dir`, the top.
pub fn search_step(dir: &str, found: bool) -> (r: SearchStep)
    ensures
        found ==> (r matches SearchStep::Found(d) && d@ == dir@),
        !found ==> match r {
            SearchStep::Ascend(p) => parent_of(dir@) == Some(p@) && p@.len() < dir@.len(),
            SearchStep::Exhausted(d) => d@ == dir@ && parent_of(dir@) is None,
            SearchStep::Found(_) => false,
        },
{
    if found {
        return SearchStep::Found(dir.to_owned());
    }
    match parent(dir) {
        Some(p) => SearchStep::Ascend(p),
        None => SearchStep::Exhausted(dir.to_owned()),
    }
}

/// A search from a start directory upwards, one directory at a time: it
/// looks in `start`, then in its parent, and so on, and stops at the first
/// directory where the thing is found or at the top.
pub struct UpwardSearch {
    dir: String,
    start: Ghost<Seq<char>>,
    depth: Ghost<nat>,
}

/// Where an upward search stands after one more directory was looked in.
pub enum SearchProgress {
    /// Found in this directory, the nearest one to the start that has it.
    Found(String),
    /// Not found yet: the search goes on one level up.
    Searching(UpwardSearch),
    /// Found nowhere; this is the topmost directory, where the search ended.
    Exhausted(String),
}

impl UpwardSearch {
    /// The directory the search started from.
    pub closed spec fn start(self) -> Seq<char> {
        self.start@
    }

    /// How many levels above the start the search has climbed.
    pub closed spec fn depth(self) -> nat {
        self.depth@
    }

    /// The directory to look in next.
    pub closed spec fn current(self) -> Seq<char> {
        self.dir@
    }

    #[verifier::type_invariant]
    spec fn on_the_way_up(self) -> bool {
        nth_ancestor(self.start@, self.depth@) == Some(self.dir@)
    }

    /// A search that looks in `start` first.
    pub fn new(start: &str) -> (s: Self)
        ensures
            s.start() == start@,
            s.depth() == 0,
            s.current() == start@,
    {
        UpwardSearch { dir: start.to_owned(), start: Ghost(start@), depth: Ghost(0) }
    }

    /// The directory to look in next.
    pub fn dir(&self) -> (d: &str)
        ensures
            d@ == self.current(),
    {
        self.dir.as_str()
    }

    /// One more step, after looking in `self.current()` and learning whether
    /// the thing is there (`found`). The search is found there; or, with a
    /// parent, it goes on to that parent one level higher; or, without one,
    /// it is exhausted at this topmost directory.
    pub fn advance(self, found: bool) -> (r: SearchProgress)
        ensures
            nth_ancestor(self.start(), self.depth()) == Some(self.current()),
            match r {
                SearchProgress::Found(d) => found && d@ == self.current(),
                SearchProgress::Searching(next) => {
                    &&& !found
                    &&& parent_of(self.current()) == Some(next.current())
                    &&& next.start() == self.start()
                    &&& next.depth() == self.depth() + 1
                    &&& next.current().len() < self.current().len()
                },
                SearchProgress::Exhausted(d) => {
                    &&& !found
                    &&& d@ == self.current()
                    &&& parent_of(self.current()) is None
                },
            },
    {
        proof {
            use_type_invariant(&self);
        }
        match search_step(self.dir.as_str(), found) {
            SearchStep::Found(d) => SearchProgress::Found(d),
            SearchStep::Exhausted(d) => SearchProgress::Exhausted(d),
            SearchStep::Ascend(p) => {
                let ghost depth = self.depth@ + 1;
                proof {
                    assert(nth_ancestor(self.start@, depth) == parent_of(self.dir@));
                }
                SearchProgress::Searching(
                    UpwardSearch { dir: p, start: Ghost(self.start@), depth: Ghost(depth) },
                )
            },
        }
    }
}

/// The file whose presence marks `dir` as the root of a pnpm monorepo.
pub fn workspace_file_path(dir: &str) -> (r: String)
    ensures
        r@ == joined(dir@, PNPM_MONO_CONFIG_JSON@),
{
    join(dir, PNPM_MONO_CONFIG_JSON)
}

} // verus!
