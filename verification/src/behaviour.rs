//! Runtime behaviour objects: a stub ("given") behaviour with an optional
//! match limit, and an interaction ("expect") behaviour with inclusive
//! lower/upper bounds on its match count.

use vstd::prelude::*;

verus! {

/// Abstract value of a given-behaviour.
pub struct GivenBehaviourModel {
    pub stmt_id: int,
    pub num_matches: int,
    pub expected_matches: Option<int>,
    pub stmt_repr: Seq<char>,
}

/// A stub behaviour: after matching `expected_matches` times it is saturated
/// and gets evicted from the dispatch collection; a behaviour without a limit
/// is never saturated.
pub struct GivenBehaviour {
    pub stmt_id: usize,
    pub num_matches: usize,
    pub expected_matches: Option<usize>,
    pub stmt_repr: String,
}

impl View for GivenBehaviour {
    type V = GivenBehaviourModel;

    open spec fn view(&self) -> GivenBehaviourModel {
        GivenBehaviourModel {
            stmt_id: self.stmt_id as int,
            num_matches: self.num_matches as int,
            expected_matches: match self.expected_matches {
                Some(k) => Some(k as int),
                None => None,
            },
            stmt_repr: self.stmt_repr@,
        }
    }
}

/// Whether a given-behaviour has used up its match limit.
pub open spec fn given_saturated(b: GivenBehaviourModel) -> bool {
    match b.expected_matches {
        Some(k) => b.num_matches >= k,
        None => false,
    }
}

/// The same behaviour with one more recorded match.
pub open spec fn given_bumped(b: GivenBehaviourModel) -> GivenBehaviourModel {
    GivenBehaviourModel { num_matches: b.num_matches + 1, ..b }
}

impl Clone for GivenBehaviour {
    fn clone(&self) -> (r: Self)
        ensures
            r@ == self@,
    {
        GivenBehaviour {
            stmt_id: self.stmt_id,
            num_matches: self.num_matches,
            expected_matches: self.expected_matches,
            stmt_repr: self.stmt_repr.clone(),
        }
    }
}

impl GivenBehaviour {
    /// An unconditional behaviour: it matches unboundedly and is never evicted.
    pub fn with(stmt_id: usize, stmt_repr: &str) -> (r: Self)
        ensures
            r@ == (GivenBehaviourModel {
                stmt_id: stmt_id as int,
                num_matches: 0,
                expected_matches: None::<int>,
                stmt_repr: stmt_repr@,
            }),
    {
        GivenBehaviour {
            stmt_id,
            num_matches: 0,
            expected_matches: None,
            stmt_repr: stmt_repr.to_owned(),
        }
    }

    /// A behaviour limited to `times` matches.
    pub fn with_times(times: usize, stmt_id: usize, stmt_repr: &str) -> (r: Self)
        ensures
            r@ == (GivenBehaviourModel {
                stmt_id: stmt_id as int,
                num_matches: 0,
                expected_matches: Some(times as int),
                stmt_repr: stmt_repr@,
            }),
    {
        GivenBehaviour {
            stmt_id,
            num_matches: 0,
            expected_matches: Some(times),
            stmt_repr: stmt_repr.to_owned(),
        }
    }

    /// Records one match.
    pub fn matched(&mut self)
        requires
            old(self).num_matches < usize::MAX,
        ensures
            final(self)@ == given_bumped(old(self)@),
    {
        self.num_matches = self.num_matches + 1;
    }

    /// True iff a match limit is set and the counter has reached it.
    pub fn is_saturated(&self) -> (r: bool)
        ensures
            r == given_saturated(self@),
    {
        match self.expected_matches {
            Some(limit) => self.num_matches >= limit,
            None => false,
        }
    }

    /// The human-readable rendering of the statement this behaviour came from.
    pub fn describe(&self) -> (r: &str)
        ensures
            r@ == self@.stmt_repr,
    {
        self.stmt_repr.as_str()
    }
}

/// Abstract value of an expect-behaviour.
pub struct ExpectBehaviourModel {
    pub stmt_id: int,
    pub num_matches: int,
    pub expected_min_matches: Option<int>,
    pub expected_max_matches: Option<int>,
    pub stmt_repr: Seq<char>,
}

/// An interaction expectation: its counter is incremented on every matching
/// call, and it is satisfied iff the counter lies within the configured
/// inclusive bounds (an absent bound defaults to zero or to `usize::MAX`).
pub struct ExpectBehaviour {
    pub stmt_id: usize,
    pub num_matches: usize,
    pub expected_min_matches: Option<usize>,
    pub expected_max_matches: Option<usize>,
    pub stmt_repr: String,
}

impl View for ExpectBehaviour {
    type V = ExpectBehaviourModel;

    open spec fn view(&self) -> ExpectBehaviourModel {
        ExpectBehaviourModel {
            stmt_id: self.stmt_id as int,
            num_matches: self.num_matches as int,
            expected_min_matches: match self.expected_min_matches {
                Some(k) => Some(k as int),
                None => None,
            },
            expected_max_matches: match self.expected_max_matches {
                Some(k) => Some(k as int),
                None => None,
            },
            stmt_repr: self.stmt_repr@,
        }
    }
}

/// Whether an expect-behaviour's counter lies within its bounds.
pub open spec fn expect_satisfied(b: ExpectBehaviourModel) -> bool {
    (match b.expected_min_matches {
        Some(lo) => lo <= b.num_matches,
        None => true,
    }) && (match b.expected_max_matches {
        Some(hi) => b.num_matches <= hi,
        None => true,
    })
}

/// The same expectation with one more recorded match.
pub open spec fn expect_bumped(b: ExpectBehaviourModel) -> ExpectBehaviourModel {
    ExpectBehaviourModel { num_matches: b.num_matches + 1, ..b }
}

impl Clone for ExpectBehaviour {
    fn clone(&self) -> (r: Self)
        ensures
            r@ == self@,
    {
        ExpectBehaviour {
            stmt_id: self.stmt_id,
            num_matches: self.num_matches,
            expected_min_matches: self.expected_min_matches,
            expected_max_matches: self.expected_max_matches,
            stmt_repr: self.stmt_repr.clone(),
        }
    }
}

impl ExpectBehaviour {
    /// An expectation of exactly `times` matches; `times == 0` encodes "never".
    pub fn with_times(times: usize, stmt_id: usize, stmt_repr: &str) -> (r: Self)
        ensures
            r@ == (ExpectBehaviourModel {
                stmt_id: stmt_id as int,
                num_matches: 0,
                expected_min_matches: Some(times as int),
                expected_max_matches: Some(times as int),
                stmt_repr: stmt_repr@,
            }),
    {
        ExpectBehaviour {
            stmt_id,
            num_matches: 0,
            expected_min_matches: Some(times),
            expected_max_matches: Some(times),
            stmt_repr: stmt_repr.to_owned(),
        }
    }

    /// An expectation of at least `at_least_times` matches.
    pub fn with_at_least(at_least_times: usize, stmt_id: usize, stmt_repr: &str) -> (r: Self)
        ensures
            r@ == (ExpectBehaviourModel {
                stmt_id: stmt_id as int,
                num_matches: 0,
                expected_min_matches: Some(at_least_times as int),
                expected_max_matches: None::<int>,
                stmt_repr: stmt_repr@,
            }),
    {
        ExpectBehaviour {
            stmt_id,
            num_matches: 0,
            expected_min_matches: Some(at_least_times),
            expected_max_matches: None,
            stmt_repr: stmt_repr.to_owned(),
        }
    }

    /// An expectation of at most `at_most_times` matches.
    pub fn with_at_most(at_most_times: usize, stmt_id: usize, stmt_repr: &str) -> (r: Self)
        ensures
            r@ == (ExpectBehaviourModel {
                stmt_id: stmt_id as int,
                num_matches: 0,
                expected_min_matches: None::<int>,
                expected_max_matches: Some(at_most_times as int),
                stmt_repr: stmt_repr@,
            }),
    {
        ExpectBehaviour {
            stmt_id,
            num_matches: 0,
            expected_min_matches: None,
            expected_max_matches: Some(at_most_times),
            stmt_repr: stmt_repr.to_owned(),
        }
    }

    /// An expectation of between `at_least_times` and `at_most_times` matches,
    /// both inclusive.
    pub fn with_between(at_least_times: usize, at_most_times: usize, stmt_id: usize, stmt_repr: &str) -> (r: Self)
        ensures
            r@ == (ExpectBehaviourModel {
                stmt_id: stmt_id as int,
                num_matches: 0,
                expected_min_matches: Some(at_least_times as int),
                expected_max_matches: Some(at_most_times as int),
                stmt_repr: stmt_repr@,
            }),
    {
        ExpectBehaviour {
            stmt_id,
            num_matches: 0,
            expected_min_matches: Some(at_least_times),
            expected_max_matches: Some(at_most_times),
            stmt_repr: stmt_repr.to_owned(),
        }
    }

    /// Records one match.
    pub fn matched(&mut self)
        requires
            old(self).num_matches < usize::MAX,
        ensures
            final(self)@ == expect_bumped(old(self)@),
    {
        self.num_matches = self.num_matches + 1;
    }

    /// True iff the counter lies within the configured inclusive bounds.
    pub fn is_saturated(&self) -> (r: bool)
        ensures
            r == expect_satisfied(self@),
    {
        let lo_ok = match self.expected_min_matches {
            Some(lo) => lo <= self.num_matches,
            None => true,
        };
        let hi_ok = match self.expected_max_matches {
            Some(hi) => self.num_matches <= hi,
            None => true,
        };
        lo_ok && hi_ok
    }

    /// The human-readable rendering of the statement this expectation came from.
    pub fn describe(&self) -> (r: &str)
        ensures
            r@ == self@.stmt_repr,
    {
        self.stmt_repr.as_str()
    }
}

/// An expectation declared `between(lo, hi)` is satisfied exactly when its
/// counter lies in the inclusive range; declared `at_least(lo)` exactly when
/// the counter is at least `lo`; declared `at_most(hi)` exactly when the
/// counter is at most `hi`; declared `times(0)` ("never") exactly when the
/// counter is zero.
pub proof fn lemma_expect_bounds(b: ExpectBehaviourModel)
    ensures
        b.expected_min_matches == Some(0int) && b.expected_max_matches == Some(0int)
            ==> (expect_satisfied(b) <==> b.num_matches == 0),
        forall|lo: int, hi: int|
            b.expected_min_matches == Some(lo) && b.expected_max_matches == Some(hi)
                ==> (expect_satisfied(b) <==> lo <= b.num_matches <= hi),
        forall|lo: int|
            b.expected_min_matches == Some(lo) && b.expected_max_matches is None
                ==> (expect_satisfied(b) <==> lo <= b.num_matches),
        forall|hi: int|
            b.expected_max_matches == Some(hi) && b.expected_min_matches is None
                ==> (expect_satisfied(b) <==> b.num_matches <= hi),
{
}

} // verus!

verus! {

/// Whether a per-argument matcher accepts a call: every position's
/// predicate accepted its argument. An explicit matcher is a single
/// predicate over the whole curried tuple and needs no combination.
pub fn all_arguments_match(results: &Vec<bool>) -> (r: bool)
    ensures
        r == forall|i: int| 0 <= i < results@.len() ==> results@[i],
{
    let mut i: usize = 0;
    while i < results.len()
        invariant
            i <= results@.len(),
            forall|l: int| 0 <= l < i ==> results@[l],
        decreases results@.len() - i,
    {
        if !results[i] {
            return false;
        }
        i += 1;
    }
    true
}

} // verus!
