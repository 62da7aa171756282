//! The runtime state of one mock instance: an ordered collection of given-
//! and expect-behaviours per (trait, method) pair, and the call-dispatch
//! algorithm that runs over them.
//!
//! On a call the engine first records the call against every matching
//! expectation, then scans the given-behaviours for the method in
//! registration order: the earliest behaviour whose matcher accepted the
//! call wins; its counter is incremented and, if that saturates the
//! behaviour, it is evicted from the collection. Whether a matcher accepted
//! the call is decided by the caller (matchers are user code this engine
//! never executes) and handed in as one boolean per behaviour, in collection
//! order.

use vstd::prelude::*;
use crate::behaviour::ExpectBehaviour;
use crate::behaviour::ExpectBehaviourModel;
use crate::behaviour::GivenBehaviour;
use crate::behaviour::GivenBehaviourModel;
use crate::behaviour::expect_bumped;
use crate::behaviour::expect_satisfied;
use crate::behaviour::given_bumped;
use crate::behaviour::given_saturated;
use crate::strutil::str_eq;

verus! {

/// Abstract value of the behaviour collections of one (trait, method) pair.
pub struct MethodBehavioursModel {
    pub trait_name: Seq<char>,
    pub method_name: Seq<char>,
    pub givens: Seq<GivenBehaviourModel>,
    pub expects: Seq<ExpectBehaviourModel>,
}

/// The behaviour collections of one (trait, method) pair.
pub struct MethodBehaviours {
    trait_name: String,
    method_name: String,
    givens: Vec<GivenBehaviour>,
    expects: Vec<ExpectBehaviour>,
}

impl View for MethodBehaviours {
    type V = MethodBehavioursModel;

    closed spec fn view(&self) -> MethodBehavioursModel {
        MethodBehavioursModel {
            trait_name: self.trait_name@,
            method_name: self.method_name@,
            givens: self.givens@.map_values(|b: GivenBehaviour| b@),
            expects: self.expects@.map_values(|b: ExpectBehaviour| b@),
        }
    }
}

/// Abstract value of a whole mock state.
pub struct MockStateModel {
    pub entries: Seq<MethodBehavioursModel>,
    pub verify_on_drop: bool,
}

/// The runtime state of one mock instance.
pub struct MockState {
    entries: Vec<MethodBehaviours>,
    verify_on_drop: bool,
}

impl View for MockState {
    type V = MockStateModel;

    closed spec fn view(&self) -> MockStateModel {
        MockStateModel {
            entries: self.entries@.map_values(|e: MethodBehaviours| e@),
            verify_on_drop: self.verify_on_drop,
        }
    }
}

/// The index of the first entry for the given (trait, method) pair, or -1.
pub open spec fn find_entry(entries: Seq<MethodBehavioursModel>, t: Seq<char>, m: Seq<char>) -> int
    decreases entries.len(),
{
    if entries.len() == 0 {
        -1
    } else if entries[0].trait_name == t && entries[0].method_name == m {
        0
    } else {
        let r = find_entry(entries.drop_first(), t, m);
        if r == -1 {
            -1
        } else {
            r + 1
        }
    }
}

/// The given-behaviours registered for a (trait, method) pair, in
/// registration order.
pub open spec fn givens_of(s: MockStateModel, t: Seq<char>, m: Seq<char>) -> Seq<GivenBehaviourModel> {
    let i = find_entry(s.entries, t, m);
    if i == -1 {
        Seq::empty()
    } else {
        s.entries[i].givens
    }
}

/// The expect-behaviours registered for a (trait, method) pair, in
/// registration order.
pub open spec fn expects_of(s: MockStateModel, t: Seq<char>, m: Seq<char>) -> Seq<ExpectBehaviourModel> {
    let i = find_entry(s.entries, t, m);
    if i == -1 {
        Seq::empty()
    } else {
        s.entries[i].expects
    }
}

/// The index of the first `true` in a sequence of match decisions.
pub open spec fn first_true(s: Seq<bool>) -> Option<int>
    decreases s.len(),
{
    if s.len() == 0 {
        None
    } else if s[0] {
        Some(0)
    } else {
        match first_true(s.drop_first()) {
            Some(k) => Some(k + 1),
            None => None,
        }
    }
}

/// The expectations after a call: every matching expectation counts the
/// call, the others stay as they are.
pub open spec fn expects_after(es: Seq<ExpectBehaviourModel>, em: Seq<bool>) -> Seq<ExpectBehaviourModel> {
    Seq::new(es.len(), |i: int| if em[i] { expect_bumped(es[i]) } else { es[i] })
}

/// The given-behaviours after a call: the first matching behaviour counts
/// the call and, if that saturates it, is evicted; everything else stays.
pub open spec fn givens_after(gs: Seq<GivenBehaviourModel>, gm: Seq<bool>) -> Seq<GivenBehaviourModel> {
    match first_true(gm) {
        None => gs,
        Some(i) => {
            let b = given_bumped(gs[i]);
            if given_saturated(b) {
                gs.remove(i)
            } else {
                gs.update(i, b)
            }
        },
    }
}

/// The whole-state transition of one dispatched call.
pub open spec fn call_transition(
    s: MockStateModel,
    t: Seq<char>,
    m: Seq<char>,
    em: Seq<bool>,
    gm: Seq<bool>,
) -> MockStateModel {
    let i = find_entry(s.entries, t, m);
    if i == -1 {
        s
    } else {
        MockStateModel {
            entries: s.entries.update(
                i,
                MethodBehavioursModel {
                    givens: givens_after(s.entries[i].givens, gm),
                    expects: expects_after(s.entries[i].expects, em),
                    ..s.entries[i]
                },
            ),
            ..s
        }
    }
}

/// The whole-state transition of registering one given-behaviour: it is
/// appended to its method's collection, which is created at the end of the
/// entry list when the pair is new.
pub open spec fn add_given_transition(
    s: MockStateModel,
    t: Seq<char>,
    m: Seq<char>,
    b: GivenBehaviourModel,
) -> MockStateModel {
    let i = find_entry(s.entries, t, m);
    if i == -1 {
        MockStateModel {
            entries: s.entries.push(
                MethodBehavioursModel {
                    trait_name: t,
                    method_name: m,
                    givens: seq![b],
                    expects: Seq::empty(),
                },
            ),
            ..s
        }
    } else {
        MockStateModel {
            entries: s.entries.update(
                i,
                MethodBehavioursModel { givens: s.entries[i].givens.push(b), ..s.entries[i] },
            ),
            ..s
        }
    }
}

/// The whole-state transition of registering one expect-behaviour.
pub open spec fn add_expect_transition(
    s: MockStateModel,
    t: Seq<char>,
    m: Seq<char>,
    b: ExpectBehaviourModel,
) -> MockStateModel {
    let i = find_entry(s.entries, t, m);
    if i == -1 {
        MockStateModel {
            entries: s.entries.push(
                MethodBehavioursModel {
                    trait_name: t,
                    method_name: m,
                    givens: Seq::empty(),
                    expects: seq![b],
                },
            ),
            ..s
        }
    } else {
        MockStateModel {
            entries: s.entries.update(
                i,
                MethodBehavioursModel { expects: s.entries[i].expects.push(b), ..s.entries[i] },
            ),
            ..s
        }
    }
}

/// The statement renderings of a sequence of given-behaviours.
pub open spec fn descriptions(gs: Seq<GivenBehaviourModel>) -> Seq<Seq<char>> {
    gs.map_values(|b: GivenBehaviourModel| b.stmt_repr)
}

/// The views of a vector of strings.
pub open spec fn strings_seq(v: Seq<String>) -> Seq<Seq<char>> {
    v.map_values(|s: String| s@)
}

/// The outcome of dispatching one call.
pub enum CallOutcome {
    /// The given-behaviour at `index` (within the method's collection, before
    /// any eviction) matched; its statement id names the winning statement.
    Matched { index: usize, stmt_id: usize },
    /// No given-behaviour matched; the call is a usage error and carries the
    /// renderings of all behaviours that remain registered for the method.
    NoMatch { remaining: Vec<String> },
}

proof fn lemma_find_entry(entries: Seq<MethodBehavioursModel>, t: Seq<char>, m: Seq<char>)
    ensures
        find_entry(entries, t, m) == -1 ==> forall|k: int|
            0 <= k < entries.len() ==> !(entries[k].trait_name == t && entries[k].method_name == m),
        find_entry(entries, t, m) != -1 ==> {
            let i = find_entry(entries, t, m);
            &&& 0 <= i < entries.len()
            &&& entries[i].trait_name == t
            &&& entries[i].method_name == m
            &&& forall|k: int|
                0 <= k < i ==> !(entries[k].trait_name == t && entries[k].method_name == m)
        },
    decreases entries.len(),
{
    if entries.len() > 0 {
        let rest = entries.drop_first();
        lemma_find_entry(rest, t, m);
        if find_entry(entries, t, m) == -1 {
            assert forall|k: int| 0 <= k < entries.len() implies !(entries[k].trait_name == t
                && entries[k].method_name == m) by {
                if k > 0 {
                    assert(rest[k - 1] == entries[k]);
                }
            }
        } else {
            let i = find_entry(entries, t, m);
            if i > 0 {
                assert(rest[i - 1] == entries[i]);
                assert forall|k: int| 0 <= k < i implies !(entries[k].trait_name == t
                    && entries[k].method_name == m) by {
                    if k > 0 {
                        assert(rest[k - 1] == entries[k]);
                    }
                }
            }
        }
    }
}

proof fn lemma_find_entry_first(entries: Seq<MethodBehavioursModel>, t: Seq<char>, m: Seq<char>, k: int)
    requires
        0 <= k < entries.len(),
        entries[k].trait_name == t,
        entries[k].method_name == m,
        forall|j: int| 0 <= j < k ==> !(entries[j].trait_name == t && entries[j].method_name == m),
    ensures
        find_entry(entries, t, m) == k,
    decreases entries.len(),
{
    if k > 0 {
        lemma_find_entry_first(entries.drop_first(), t, m, k - 1);
    }
}

/// Lookups depend only on the keys: two entry sequences with the same keys
/// in the same order agree on every lookup.
proof fn lemma_find_entry_same_keys(
    a: Seq<MethodBehavioursModel>,
    b: Seq<MethodBehavioursModel>,
    t: Seq<char>,
    m: Seq<char>,
)
    requires
        a.len() == b.len(),
        forall|k: int|
            0 <= k < a.len() ==> a[k].trait_name == b[k].trait_name && a[k].method_name
                == b[k].method_name,
    ensures
        find_entry(a, t, m) == find_entry(b, t, m),
    decreases a.len(),
{
    if a.len() > 0 {
        assert(forall|k: int|
            0 <= k < a.drop_first().len() ==> a.drop_first()[k].trait_name
                == b.drop_first()[k].trait_name && a.drop_first()[k].method_name
                == b.drop_first()[k].method_name);
        lemma_find_entry_same_keys(a.drop_first(), b.drop_first(), t, m);
    }
}

proof fn lemma_find_entry_push(
    entries: Seq<MethodBehavioursModel>,
    e: MethodBehavioursModel,
    t: Seq<char>,
    m: Seq<char>,
)
    ensures
        find_entry(entries, t, m) != -1 ==> find_entry(entries.push(e), t, m) == find_entry(
            entries,
            t,
            m,
        ),
        find_entry(entries, t, m) == -1 && e.trait_name == t && e.method_name == m
            ==> find_entry(entries.push(e), t, m) == entries.len(),
        find_entry(entries, t, m) == -1 && !(e.trait_name == t && e.method_name == m)
            ==> find_entry(entries.push(e), t, m) == -1,
    decreases entries.len(),
{
    lemma_find_entry(entries, t, m);
    if find_entry(entries, t, m) != -1 {
        let i = find_entry(entries, t, m);
        lemma_find_entry_first(entries.push(e), t, m, i);
    } else if e.trait_name == t && e.method_name == m {
        lemma_find_entry_first(entries.push(e), t, m, entries.len() as int);
    } else {
        lemma_find_entry(entries.push(e), t, m);
        if find_entry(entries.push(e), t, m) != -1 {
            let i = find_entry(entries.push(e), t, m);
            assert(entries.push(e)[i] == if i < entries.len() {
                entries[i]
            } else {
                e
            });
        }
    }
}

proof fn lemma_first_true_at(s: Seq<bool>, k: int)
    requires
        0 <= k < s.len(),
        s[k],
        forall|l: int| 0 <= l < k ==> !s[l],
    ensures
        first_true(s) == Some(k),
    decreases s.len(),
{
    if k > 0 {
        lemma_first_true_at(s.drop_first(), k - 1);
    }
}

proof fn lemma_first_true_none(s: Seq<bool>)
    requires
        forall|l: int| 0 <= l < s.len() ==> !s[l],
    ensures
        first_true(s) == None::<int>,
    decreases s.len(),
{
    if s.len() > 0 {
        lemma_first_true_none(s.drop_first());
    }
}

/// Characterizes `first_true`: a `Some(k)` is a true position with nothing
/// true before it; a `None` means nothing is true at all.
pub proof fn lemma_first_true_properties(s: Seq<bool>)
    ensures
        first_true(s) is None ==> forall|l: int| 0 <= l < s.len() ==> !s[l],
        first_true(s) matches Some(k) ==> 0 <= k < s.len() && s[k] && (forall|l: int|
            0 <= l < k ==> !s[l]),
    decreases s.len(),
{
    if s.len() > 0 {
        let rest = s.drop_first();
        lemma_first_true_properties(rest);
        if first_true(s) is None {
            assert forall|l: int| 0 <= l < s.len() implies !s[l] by {
                if l > 0 {
                    assert(rest[l - 1] == s[l]);
                }
            }
        } else if !s[0] {
            let k = first_true(rest)->Some_0;
            assert(rest[k] == s[k + 1]);
            assert forall|l: int| 0 <= l < k + 1 implies !s[l] by {
                if l > 0 {
                    assert(rest[l - 1] == s[l]);
                }
            }
        }
    }
}

/// A state change that touches only the entry of one (trait, method) pair
/// leaves the collections of every other pair as they were.
proof fn lemma_state_frame(s1: MockStateModel, s2: MockStateModel, i: int, t: Seq<char>, m: Seq<char>)
    requires
        s2.entries.len() == s1.entries.len(),
        0 <= i < s1.entries.len(),
        find_entry(s1.entries, t, m) == i,
        s1.entries[i].trait_name == t,
        s1.entries[i].method_name == m,
        s2.entries[i].trait_name == t,
        s2.entries[i].method_name == m,
        forall|k: int| 0 <= k < s1.entries.len() && k != i ==> s2.entries[k] == s1.entries[k],
    ensures
        givens_of(s1, t, m) == s1.entries[i].givens,
        expects_of(s1, t, m) == s1.entries[i].expects,
        givens_of(s2, t, m) == s2.entries[i].givens,
        expects_of(s2, t, m) == s2.entries[i].expects,
        forall|t2: Seq<char>, m2: Seq<char>|
            !(t2 == t && m2 == m) ==> #[trigger] givens_of(s2, t2, m2) == givens_of(s1, t2, m2),
        forall|t2: Seq<char>, m2: Seq<char>|
            !(t2 == t && m2 == m) ==> #[trigger] expects_of(s2, t2, m2) == expects_of(s1, t2, m2),
{
    assert forall|t2: Seq<char>, m2: Seq<char>| #[trigger]
        find_entry(s2.entries, t2, m2) == find_entry(s1.entries, t2, m2) by {
        lemma_find_entry_same_keys(s1.entries, s2.entries, t2, m2);
    }
    assert(find_entry(s2.entries, t, m) == i);
    assert forall|t2: Seq<char>, m2: Seq<char>| !(t2 == t && m2 == m) implies #[trigger] givens_of(
        s2,
        t2,
        m2,
    ) == givens_of(s1, t2, m2) by {
        let j = find_entry(s1.entries, t2, m2);
        lemma_find_entry(s1.entries, t2, m2);
        if j != -1 {
            assert(s1.entries[j].trait_name == t2 && s1.entries[j].method_name == m2);
            assert(j != i);
        }
    }
    assert forall|t2: Seq<char>, m2: Seq<char>| !(t2 == t && m2 == m) implies #[trigger] expects_of(
        s2,
        t2,
        m2,
    ) == expects_of(s1, t2, m2) by {
        let j = find_entry(s1.entries, t2, m2);
        lemma_find_entry(s1.entries, t2, m2);
        if j != -1 {
            assert(s1.entries[j].trait_name == t2 && s1.entries[j].method_name == m2);
            assert(j != i);
        }
    }
}

/// Appending an entry with a fresh key leaves every other lookup unchanged.
proof fn lemma_state_frame_push(
    s1: MockStateModel,
    s2: MockStateModel,
    e: MethodBehavioursModel,
    t: Seq<char>,
    m: Seq<char>,
)
    requires
        s2.entries == s1.entries.push(e),
        e.trait_name == t,
        e.method_name == m,
        find_entry(s1.entries, t, m) == -1,
    ensures
        givens_of(s1, t, m) == Seq::<GivenBehaviourModel>::empty(),
        expects_of(s1, t, m) == Seq::<ExpectBehaviourModel>::empty(),
        givens_of(s2, t, m) == e.givens,
        expects_of(s2, t, m) == e.expects,
        forall|t2: Seq<char>, m2: Seq<char>|
            !(t2 == t && m2 == m) ==> #[trigger] givens_of(s2, t2, m2) == givens_of(s1, t2, m2),
        forall|t2: Seq<char>, m2: Seq<char>|
            !(t2 == t && m2 == m) ==> #[trigger] expects_of(s2, t2, m2) == expects_of(s1, t2, m2),
{
    lemma_find_entry_push(s1.entries, e, t, m);
    assert(find_entry(s2.entries, t, m) == s1.entries.len());
    assert forall|t2: Seq<char>, m2: Seq<char>| !(t2 == t && m2 == m) implies #[trigger] givens_of(
        s2,
        t2,
        m2,
    ) == givens_of(s1, t2, m2) by {
        lemma_find_entry_push(s1.entries, e, t2, m2);
        let j = find_entry(s1.entries, t2, m2);
        if j != -1 {
            lemma_find_entry(s1.entries, t2, m2);
            assert(s2.entries[j] == s1.entries[j]);
        }
    }
    assert forall|t2: Seq<char>, m2: Seq<char>| !(t2 == t && m2 == m) implies #[trigger] expects_of(
        s2,
        t2,
        m2,
    ) == expects_of(s1, t2, m2) by {
        lemma_find_entry_push(s1.entries, e, t2, m2);
        let j = find_entry(s1.entries, t2, m2);
        if j != -1 {
            lemma_find_entry(s1.entries, t2, m2);
            assert(s2.entries[j] == s1.entries[j]);
        }
    }
}

impl MockState {
    /// A fresh mock with no behaviours; verification on drop is enabled.
    pub fn new() -> (r: Self)
        ensures
            r@.entries == Seq::<MethodBehavioursModel>::empty(),
            r@.verify_on_drop == true,
    {
        let r = MockState { entries: Vec::new(), verify_on_drop: true };
        proof {
            assert(r@.entries =~= Seq::<MethodBehavioursModel>::empty());
        }
        r
    }

    /// Toggles whether dropping the mock should trigger verification.
    pub fn should_verify_on_drop(&mut self, flag: bool)
        ensures
            final(self)@ == (MockStateModel { verify_on_drop: flag, ..old(self)@ }),
    {
        self.verify_on_drop = flag;
    }

    /// Whether dropping the mock should trigger verification.
    pub fn wants_verify_on_drop(&self) -> (r: bool)
        ensures
            r == self@.verify_on_drop,
    {
        self.verify_on_drop
    }

    fn find_index(&self, requested_trait: &str, method: &str) -> (r: Option<usize>)
        ensures
            (match r {
                Some(i) => 0 <= i as int == find_entry(self@.entries, requested_trait@, method@),
                None => find_entry(self@.entries, requested_trait@, method@) == -1,
            }),
    {
        let ghost t = requested_trait@;
        let ghost m = method@;
        let mut i: usize = 0;
        while i < self.entries.len()
            invariant
                t == requested_trait@,
                m == method@,
                i <= self.entries.len(),
                forall|k: int|
                    0 <= k < i ==> !(self@.entries[k].trait_name == t && self@.entries[k].method_name
                        == m),
            decreases self.entries.len() - i,
        {
            let e = &self.entries[i];
            proof {
                assert(self.entries@[i as int] == *e);
                assert(self@.entries[i as int] == (*e)@);
            }
            let te = str_eq(e.trait_name.as_str(), requested_trait);
            let me = str_eq(e.method_name.as_str(), method);
            if te && me {
                proof {
                    lemma_find_entry_first(self@.entries, t, m, i as int);
                }
                return Some(i);
            }
            proof {
                assert(!(self@.entries[i as int].trait_name == t
                    && self@.entries[i as int].method_name == m));
            }
            i += 1;
        }
        proof {
            lemma_find_entry(self@.entries, t, m);
        }
        None
    }
}

} // verus!

verus! {

impl MockState {
    /// Appends a given-behaviour to the collection of the named trait method;
    /// everything else is untouched.
    pub fn add_given_behaviour(
        &mut self,
        requested_trait: &str,
        method: &str,
        behaviour: GivenBehaviour,
    )
        ensures
            final(self)@ == add_given_transition(old(self)@, requested_trait@, method@, behaviour@),
            final(self)@.verify_on_drop == old(self)@.verify_on_drop,
            givens_of(final(self)@, requested_trait@, method@) == givens_of(
                old(self)@,
                requested_trait@,
                method@,
            ).push(behaviour@),
            expects_of(final(self)@, requested_trait@, method@) == expects_of(
                old(self)@,
                requested_trait@,
                method@,
            ),
            forall|t2: Seq<char>, m2: Seq<char>|
                !(t2 == requested_trait@ && m2 == method@) ==> #[trigger] givens_of(
                    final(self)@,
                    t2,
                    m2,
                ) == givens_of(old(self)@, t2, m2),
            forall|t2: Seq<char>, m2: Seq<char>|
                !(t2 == requested_trait@ && m2 == method@) ==> #[trigger] expects_of(
                    final(self)@,
                    t2,
                    m2,
                ) == expects_of(old(self)@, t2, m2),
    {
        let ghost t = requested_trait@;
        let ghost m = method@;
        let ghost s1 = self@;
        match self.find_index(requested_trait, method) {
            Some(i) => {
                proof {
                    lemma_find_entry(s1.entries, t, m);
                    assert(self@.entries.len() == self.entries@.len());
                }
                let mut e = self.entries.remove(i);
                let ghost e1 = e@;
                e.givens.push(behaviour);
                proof {
                    assert(e@.givens =~= e1.givens.push(behaviour@));
                    assert(e@.trait_name == t && e@.method_name == m) by {
                        lemma_find_entry(s1.entries, t, m);
                    }
                }
                self.entries.insert(i, e);
                proof {
                    assert forall|k: int| 0 <= k < s1.entries.len() implies #[trigger] self@.entries[k]
                        == if k == i { e@ } else { s1.entries[k] } by {
                        assert(self.entries@[k] == if k == i {
                            e
                        } else {
                            old(self).entries@[k]
                        });
                    }
                    assert(self@.entries.len() == s1.entries.len());
                    lemma_state_frame(s1, self@, i as int, t, m);
                    assert(e@ == (MethodBehavioursModel {
                        givens: s1.entries[i as int].givens.push(behaviour@),
                        ..s1.entries[i as int]
                    }));
                    assert(self@.entries =~= add_given_transition(s1, t, m, behaviour@).entries);
                    assert(self@ == add_given_transition(s1, t, m, behaviour@));
                }
            },
            None => {
                let mut givens: Vec<GivenBehaviour> = Vec::new();
                givens.push(behaviour);
                let e = MethodBehaviours {
                    trait_name: requested_trait.to_owned(),
                    method_name: method.to_owned(),
                    givens,
                    expects: Vec::new(),
                };
                let ghost ev = e@;
                proof {
                    assert(ev.trait_name == t && ev.method_name == m);
                    assert(ev.givens =~= seq![behaviour@]);
                    assert(ev.expects =~= Seq::<ExpectBehaviourModel>::empty());
                }
                self.entries.push(e);
                proof {
                    assert(self@.entries =~= s1.entries.push(ev));
                    lemma_state_frame_push(s1, self@, ev, t, m);
                    assert(givens_of(self@, t, m) =~= givens_of(s1, t, m).push(behaviour@));
                    assert(ev == (MethodBehavioursModel {
                        trait_name: t,
                        method_name: m,
                        givens: seq![behaviour@],
                        expects: Seq::<ExpectBehaviourModel>::empty(),
                    }));
                    assert(self@.entries =~= add_given_transition(s1, t, m, behaviour@).entries);
                    assert(self@ == add_given_transition(s1, t, m, behaviour@));
                }
            },
        }
    }

    /// Appends an expect-behaviour to the collection of the named trait
    /// method; everything else is untouched.
    pub fn add_expect_behaviour(
        &mut self,
        requested_trait: &str,
        method: &str,
        behaviour: ExpectBehaviour,
    )
        ensures
            final(self)@ == add_expect_transition(
                old(self)@,
                requested_trait@,
                method@,
                behaviour@,
            ),
            final(self)@.verify_on_drop == old(self)@.verify_on_drop,
            expects_of(final(self)@, requested_trait@, method@) == expects_of(
                old(self)@,
                requested_trait@,
                method@,
            ).push(behaviour@),
            givens_of(final(self)@, requested_trait@, method@) == givens_of(
                old(self)@,
                requested_trait@,
                method@,
            ),
            forall|t2: Seq<char>, m2: Seq<char>|
                !(t2 == requested_trait@ && m2 == method@) ==> #[trigger] givens_of(
                    final(self)@,
                    t2,
                    m2,
                ) == givens_of(old(self)@, t2, m2),
            forall|t2: Seq<char>, m2: Seq<char>|
                !(t2 == requested_trait@ && m2 == method@) ==> #[trigger] expects_of(
                    final(self)@,
                    t2,
                    m2,
                ) == expects_of(old(self)@, t2, m2),
    {
        let ghost t = requested_trait@;
        let ghost m = method@;
        let ghost s1 = self@;
        match self.find_index(requested_trait, method) {
            Some(i) => {
                proof {
                    lemma_find_entry(s1.entries, t, m);
                    assert(self@.entries.len() == self.entries@.len());
                }
                let mut e = self.entries.remove(i);
                let ghost e1 = e@;
                e.expects.push(behaviour);
                proof {
                    assert(e@.expects =~= e1.expects.push(behaviour@));
                    assert(e@.trait_name == t && e@.method_name == m) by {
                        lemma_find_entry(s1.entries, t, m);
                    }
                }
                self.entries.insert(i, e);
                proof {
                    assert forall|k: int| 0 <= k < s1.entries.len() implies #[trigger] self@.entries[k]
                        == if k == i { e@ } else { s1.entries[k] } by {
                        assert(self.entries@[k] == if k == i {
                            e
                        } else {
                            old(self).entries@[k]
                        });
                    }
                    assert(self@.entries.len() == s1.entries.len());
                    lemma_state_frame(s1, self@, i as int, t, m);
                    assert(e@ == (MethodBehavioursModel {
                        expects: s1.entries[i as int].expects.push(behaviour@),
                        ..s1.entries[i as int]
                    }));
                    assert(self@.entries =~= add_expect_transition(s1, t, m, behaviour@).entries);
                    assert(self@ == add_expect_transition(s1, t, m, behaviour@));
                }
            },
            None => {
                let mut expects: Vec<ExpectBehaviour> = Vec::new();
                expects.push(behaviour);
                let e = MethodBehaviours {
                    trait_name: requested_trait.to_owned(),
                    method_name: method.to_owned(),
                    givens: Vec::new(),
                    expects,
                };
                let ghost ev = e@;
                proof {
                    assert(ev.trait_name == t && ev.method_name == m);
                    assert(ev.expects =~= seq![behaviour@]);
                    assert(ev.givens =~= Seq::<GivenBehaviourModel>::empty());
                }
                self.entries.push(e);
                proof {
                    assert(self@.entries =~= s1.entries.push(ev));
                    lemma_state_frame_push(s1, self@, ev, t, m);
                    assert(expects_of(self@, t, m) =~= expects_of(s1, t, m).push(behaviour@));
                    assert(ev == (MethodBehavioursModel {
                        trait_name: t,
                        method_name: m,
                        givens: Seq::<GivenBehaviourModel>::empty(),
                        expects: seq![behaviour@],
                    }));
                    assert(self@.entries =~= add_expect_transition(s1, t, m, behaviour@).entries);
                    assert(self@ == add_expect_transition(s1, t, m, behaviour@));
                }
            },
        }
    }

    /// Clears every given-behaviour collection; expectations stay as they are.
    pub fn reset_given_behaviours(&mut self)
        ensures
            final(self)@.verify_on_drop == old(self)@.verify_on_drop,
            forall|t2: Seq<char>, m2: Seq<char>| #[trigger] givens_of(final(self)@, t2, m2)
                == Seq::<GivenBehaviourModel>::empty(),
            forall|t2: Seq<char>, m2: Seq<char>| #[trigger] expects_of(final(self)@, t2, m2)
                == expects_of(old(self)@, t2, m2),
    {
        let ghost s1 = self@;
        let mut i: usize = 0;
        while i < self.entries.len()
            invariant
                i <= self.entries.len(),
                self@.entries.len() == s1.entries.len(),
                self@.verify_on_drop == s1.verify_on_drop,
                forall|k: int|
                    0 <= k < i ==> #[trigger] self@.entries[k] == (MethodBehavioursModel {
                        givens: Seq::<GivenBehaviourModel>::empty(),
                        ..s1.entries[k]
                    }),
                forall|k: int| i <= k < s1.entries.len() ==> #[trigger] self@.entries[k] == s1.entries[k],
            decreases self.entries.len() - i,
        {
            let ghost snap = self.entries@;
            let ghost snapv = self@.entries;
            proof {
                assert(snap.map_values(|x: MethodBehaviours| x@) == snapv);
            }
            let mut e = self.entries.remove(i);
            let ghost e1 = e@;
            e.givens = Vec::new();
            proof {
                assert(e@ == (MethodBehavioursModel {
                    givens: Seq::<GivenBehaviourModel>::empty(),
                    ..e1
                })) by {
                    assert(e@.givens =~= Seq::<GivenBehaviourModel>::empty());
                }
            }
            self.entries.insert(i, e);
            proof {
                assert(self.entries@ =~= snap.update(i as int, e));
                assert forall|k: int| 0 <= k < self@.entries.len() implies #[trigger] self@.entries[k]
                    == if k == i { e@ } else { snap.map_values(|x: MethodBehaviours| x@)[k] } by {
                    assert(self.entries@[k] == if k == i {
                        e
                    } else {
                        snap[k]
                    });
                }
                assert(e1 == snapv[i as int]);
                assert(snapv[i as int] == s1.entries[i as int]);
                assert forall|k: int| 0 <= k < i + 1 implies #[trigger] self@.entries[k]
                    == if k == i { e@ } else { snapv[k] } by {}
            }
            i += 1;
        }
        proof {
            assert forall|t2: Seq<char>, m2: Seq<char>| #[trigger]
                find_entry(self@.entries, t2, m2) == find_entry(s1.entries, t2, m2) by {
                lemma_find_entry_same_keys(s1.entries, self@.entries, t2, m2);
            }
            assert forall|t2: Seq<char>, m2: Seq<char>| #[trigger] givens_of(self@, t2, m2)
                =~= Seq::<GivenBehaviourModel>::empty() by {
                lemma_find_entry(self@.entries, t2, m2);
            }
            assert forall|t2: Seq<char>, m2: Seq<char>| #[trigger] expects_of(self@, t2, m2)
                == expects_of(s1, t2, m2) by {
                let j = find_entry(s1.entries, t2, m2);
                lemma_find_entry(s1.entries, t2, m2);
                if j != -1 {
                    assert(self@.entries[j].expects == s1.entries[j].expects);
                }
            }
        }
    }

    /// Clears every expect-behaviour collection; given-behaviours stay.
    pub fn reset_expected_behaviours(&mut self)
        ensures
            final(self)@.verify_on_drop == old(self)@.verify_on_drop,
            forall|t2: Seq<char>, m2: Seq<char>| #[trigger] expects_of(final(self)@, t2, m2)
                == Seq::<ExpectBehaviourModel>::empty(),
            forall|t2: Seq<char>, m2: Seq<char>| #[trigger] givens_of(final(self)@, t2, m2)
                == givens_of(old(self)@, t2, m2),
    {
        let ghost s1 = self@;
        let mut i: usize = 0;
        while i < self.entries.len()
            invariant
                i <= self.entries.len(),
                self@.entries.len() == s1.entries.len(),
                self@.verify_on_drop == s1.verify_on_drop,
                forall|k: int|
                    0 <= k < i ==> #[trigger] self@.entries[k] == (MethodBehavioursModel {
                        expects: Seq::<ExpectBehaviourModel>::empty(),
                        ..s1.entries[k]
                    }),
                forall|k: int| i <= k < s1.entries.len() ==> #[trigger] self@.entries[k] == s1.entries[k],
            decreases self.entries.len() - i,
        {
            let ghost snap = self.entries@;
            let ghost snapv = self@.entries;
            proof {
                assert(snap.map_values(|x: MethodBehaviours| x@) == snapv);
            }
            let mut e = self.entries.remove(i);
            let ghost e1 = e@;
            e.expects = Vec::new();
            proof {
                assert(e@ == (MethodBehavioursModel {
                    expects: Seq::<ExpectBehaviourModel>::empty(),
                    ..e1
                })) by {
                    assert(e@.expects =~= Seq::<ExpectBehaviourModel>::empty());
                }
            }
            self.entries.insert(i, e);
            proof {
                assert(self.entries@ =~= snap.update(i as int, e));
                assert forall|k: int| 0 <= k < self@.entries.len() implies #[trigger] self@.entries[k]
                    == if k == i { e@ } else { snap.map_values(|x: MethodBehaviours| x@)[k] } by {
                    assert(self.entries@[k] == if k == i {
                        e
                    } else {
                        snap[k]
                    });
                }
                assert(e1 == snapv[i as int]);
                assert(snapv[i as int] == s1.entries[i as int]);
                assert forall|k: int| 0 <= k < i + 1 implies #[trigger] self@.entries[k]
                    == if k == i { e@ } else { snapv[k] } by {}
            }
            i += 1;
        }
        proof {
            assert forall|t2: Seq<char>, m2: Seq<char>| #[trigger]
                find_entry(self@.entries, t2, m2) == find_entry(s1.entries, t2, m2) by {
                lemma_find_entry_same_keys(s1.entries, self@.entries, t2, m2);
            }
            assert forall|t2: Seq<char>, m2: Seq<char>| #[trigger] expects_of(self@, t2, m2)
                =~= Seq::<ExpectBehaviourModel>::empty() by {
                lemma_find_entry(self@.entries, t2, m2);
            }
            assert forall|t2: Seq<char>, m2: Seq<char>| #[trigger] givens_of(self@, t2, m2)
                == givens_of(s1, t2, m2) by {
                let j = find_entry(s1.entries, t2, m2);
                lemma_find_entry(s1.entries, t2, m2);
                if j != -1 {
                    assert(self@.entries[j].givens == s1.entries[j].givens);
                }
            }
        }
    }
}

} // verus!

verus! {

impl MockState {
    /// Dispatches one call of the named trait method.
    ///
    /// `expect_matches` and `given_matches` say, per registered behaviour in
    /// collection order, whether that behaviour's matcher accepted the
    /// call's arguments. Every matching expectation counts the call, whether
    /// or not any given-behaviour produces a return; then the earliest
    /// matching given-behaviour wins, counts the call and, if saturated by
    /// it, is evicted. With no matching given-behaviour the call is a usage
    /// error and the outcome carries the renderings of the behaviours that
    /// remain registered for the method.
    pub fn handle_call(
        &mut self,
        requested_trait: &str,
        method: &str,
        expect_matches: &Vec<bool>,
        given_matches: &Vec<bool>,
    ) -> (r: CallOutcome)
        requires
            expect_matches@.len() == expects_of(old(self)@, requested_trait@, method@).len(),
            given_matches@.len() == givens_of(old(self)@, requested_trait@, method@).len(),
            forall|l: int|
                0 <= l < expects_of(old(self)@, requested_trait@, method@).len() ==> expects_of(
                    old(self)@,
                    requested_trait@,
                    method@,
                )[l].num_matches < usize::MAX,
            forall|l: int|
                0 <= l < givens_of(old(self)@, requested_trait@, method@).len() ==> givens_of(
                    old(self)@,
                    requested_trait@,
                    method@,
                )[l].num_matches < usize::MAX,
        ensures
            final(self)@ == call_transition(
                old(self)@,
                requested_trait@,
                method@,
                expect_matches@,
                given_matches@,
            ),
            final(self)@.verify_on_drop == old(self)@.verify_on_drop,
            expects_of(final(self)@, requested_trait@, method@) == expects_after(
                expects_of(old(self)@, requested_trait@, method@),
                expect_matches@,
            ),
            givens_of(final(self)@, requested_trait@, method@) == givens_after(
                givens_of(old(self)@, requested_trait@, method@),
                given_matches@,
            ),
            forall|t2: Seq<char>, m2: Seq<char>|
                !(t2 == requested_trait@ && m2 == method@) ==> #[trigger] givens_of(
                    final(self)@,
                    t2,
                    m2,
                ) == givens_of(old(self)@, t2, m2),
            forall|t2: Seq<char>, m2: Seq<char>|
                !(t2 == requested_trait@ && m2 == method@) ==> #[trigger] expects_of(
                    final(self)@,
                    t2,
                    m2,
                ) == expects_of(old(self)@, t2, m2),
            (match first_true(given_matches@) {
                Some(i) => r matches CallOutcome::Matched { index, stmt_id } && index as int == i
                    && stmt_id as int == givens_of(old(self)@, requested_trait@, method@)[i].stmt_id,
                None => r matches CallOutcome::NoMatch { remaining } && strings_seq(remaining@)
                    == descriptions(givens_of(old(self)@, requested_trait@, method@)),
            }),
    {
        let ghost t = requested_trait@;
        let ghost m = method@;
        let ghost s1 = self@;
        let ghost gs = givens_of(s1, t, m);
        let ghost es = expects_of(s1, t, m);
        let found = self.find_index(requested_trait, method);
        match found {
            None => {
                proof {
                    assert(es =~= Seq::<ExpectBehaviourModel>::empty());
                    assert(gs =~= Seq::<GivenBehaviourModel>::empty());
                    assert(first_true(given_matches@) is None);
                    assert(strings_seq(Seq::<String>::empty()) =~= descriptions(gs));
                }
                CallOutcome::NoMatch { remaining: Vec::new() }
            },
            Some(i) => {
                proof {
                    lemma_find_entry(s1.entries, t, m);
                    assert(self@.entries.len() == self.entries@.len());
                }
                let mut e = self.entries.remove(i);
                proof {
                    assert(e@ == s1.entries[i as int]);
                    assert(gs == e@.givens);
                    assert(es == e@.expects);
                }
                let ghost e1 = e@;

                // Record the call against every matching expectation.
                let mut new_expects: Vec<ExpectBehaviour> = Vec::new();
                let mut j: usize = 0;
                while j < e.expects.len()
                    invariant
                        j <= e.expects.len(),
                        e@ == e1,
                        es == e1.expects,
                        expect_matches@.len() == es.len(),
                        es.len() == e.expects@.len(),
                        forall|l: int| 0 <= l < es.len() ==> es[l].num_matches < usize::MAX,
                        new_expects@.len() == j,
                        forall|l: int|
                            0 <= l < j ==> #[trigger] new_expects@[l]@ == expects_after(
                                es,
                                expect_matches@,
                            )[l],
                    decreases e.expects.len() - j,
                {
                    let mut b = e.expects[j].clone();
                    proof {
                        assert(e.expects@[j as int]@ == es[j as int]);
                    }
                    if expect_matches[j] {
                        b.matched();
                    }
                    new_expects.push(b);
                    j += 1;
                }
                e.expects = new_expects;
                proof {
                    assert(e@.expects =~= expects_after(es, expect_matches@));
                    assert(e@.givens == gs);
                    assert(e@.trait_name == t && e@.method_name == m);
                }
                let ghost e2 = e@;

                // Scan the given-behaviours in registration order.
                let glen = e.givens.len();
                let mut k: usize = 0;
                while k < glen && !given_matches[k]
                    invariant
                        glen == e.givens@.len(),
                        e@ == e2,
                        given_matches@.len() == glen,
                        k <= glen,
                        forall|l: int| 0 <= l < k ==> !given_matches@[l],
                    decreases glen - k,
                {
                    k += 1;
                }
                if k < glen {
                    proof {
                        lemma_first_true_at(given_matches@, k as int);
                        assert(e.givens@[k as int]@ == gs[k as int]);
                    }
                    let mut b = e.givens.remove(k);
                    let sid = b.stmt_id;
                    b.matched();
                    let sat = b.is_saturated();
                    proof {
                        assert(b@ == given_bumped(gs[k as int]));
                    }
                    if !sat {
                        e.givens.insert(k, b);
                        proof {
                            assert forall|l: int| 0 <= l < gs.len() implies #[trigger] e.givens@[l]@
                                == gs.update(k as int, given_bumped(gs[k as int]))[l] by {}
                            assert(e@.givens =~= gs.update(k as int, given_bumped(gs[k as int])));
                        }
                    } else {
                        proof {
                            assert(e@.givens =~= gs.remove(k as int));
                        }
                    }
                    proof {
                        assert(e@.givens =~= givens_after(gs, given_matches@));
                        assert(e@.expects == e2.expects);
                        assert(e@.trait_name == t && e@.method_name == m);
                    }
                    self.entries.insert(i, e);
                    proof {
                        self.lemma_reassemble(s1, i as int, e@, t, m, expect_matches@, given_matches@);
                    }
                    CallOutcome::Matched { index: k, stmt_id: sid }
                } else {
                    proof {
                        lemma_first_true_none(given_matches@);
                        assert(givens_after(gs, given_matches@) == gs);
                    }
                    let mut remaining: Vec<String> = Vec::new();
                    let mut k2: usize = 0;
                    while k2 < e.givens.len()
                        invariant
                            k2 <= e.givens@.len(),
                            e@ == e2,
                            gs == e2.givens,
                            gs.len() == e.givens@.len(),
                            remaining@.len() == k2,
                            forall|l: int|
                                0 <= l < k2 ==> #[trigger] remaining@[l]@ == gs[l].stmt_repr,
                        decreases e.givens@.len() - k2,
                    {
                        let d = e.givens[k2].stmt_repr.clone();
                        proof {
                            assert(e.givens@[k2 as int]@ == gs[k2 as int]);
                        }
                        remaining.push(d);
                        k2 += 1;
                    }
                    self.entries.insert(i, e);
                    proof {
                        self.lemma_reassemble(s1, i as int, e@, t, m, expect_matches@, given_matches@);
                        assert(strings_seq(remaining@) =~= descriptions(gs));
                    }
                    CallOutcome::NoMatch { remaining }
                }
            },
        }
    }

    /// After removing entry `i` and re-inserting its updated value, the
    /// state is exactly the call transition.
    proof fn lemma_reassemble(
        &self,
        s1: MockStateModel,
        i: int,
        ev: MethodBehavioursModel,
        t: Seq<char>,
        m: Seq<char>,
        em: Seq<bool>,
        gm: Seq<bool>,
    )
        requires
            0 <= i < s1.entries.len(),
            self@.entries.len() == s1.entries.len(),
            self@.verify_on_drop == s1.verify_on_drop,
            find_entry(s1.entries, t, m) == i,
            s1.entries[i].trait_name == t,
            s1.entries[i].method_name == m,
            forall|k: int| 0 <= k < s1.entries.len() && k != i ==> self@.entries[k] == s1.entries[k],
            self@.entries[i] == ev,
            ev.trait_name == t,
            ev.method_name == m,
            ev.givens == givens_after(s1.entries[i].givens, gm),
            ev.expects == expects_after(s1.entries[i].expects, em),
        ensures
            self@ == call_transition(s1, t, m, em, gm),
            givens_of(self@, t, m) == givens_after(givens_of(s1, t, m), gm),
            expects_of(self@, t, m) == expects_after(expects_of(s1, t, m), em),
            forall|t2: Seq<char>, m2: Seq<char>|
                !(t2 == t && m2 == m) ==> #[trigger] givens_of(self@, t2, m2) == givens_of(
                    s1,
                    t2,
                    m2,
                ),
            forall|t2: Seq<char>, m2: Seq<char>|
                !(t2 == t && m2 == m) ==> #[trigger] expects_of(self@, t2, m2) == expects_of(
                    s1,
                    t2,
                    m2,
                ),
    {
        lemma_state_frame(s1, self@, i, t, m);
        let ct = call_transition(s1, t, m, em, gm);
        assert(ev == (MethodBehavioursModel {
            givens: givens_after(s1.entries[i].givens, gm),
            expects: expects_after(s1.entries[i].expects, em),
            ..s1.entries[i]
        }));
        assert(self@.entries =~= ct.entries);
        assert(self@ == ct);
    }
}

} // verus!

verus! {

/// The renderings of the unsatisfied expectations in one collection, in
/// registration order.
pub open spec fn unsat_of_expects(es: Seq<ExpectBehaviourModel>) -> Seq<Seq<char>>
    decreases es.len(),
{
    if es.len() == 0 {
        Seq::empty()
    } else {
        unsat_of_expects(es.drop_last()) + (if !expect_satisfied(es.last()) {
            seq![es.last().stmt_repr]
        } else {
            Seq::empty()
        })
    }
}

/// The renderings of every unsatisfied expectation across all methods.
pub open spec fn unsat_all(entries: Seq<MethodBehavioursModel>) -> Seq<Seq<char>>
    decreases entries.len(),
{
    if entries.len() == 0 {
        Seq::empty()
    } else {
        unsat_all(entries.drop_last()) + unsat_of_expects(entries.last().expects)
    }
}

/// Whether every registered expectation is satisfied.
pub open spec fn all_satisfied(s: MockStateModel) -> bool {
    forall|i: int, j: int|
        0 <= i < s.entries.len() && 0 <= j < s.entries[i].expects.len() ==> expect_satisfied(
            #[trigger] s.entries[i].expects[j],
        )
}

proof fn lemma_unsat_of_expects_empty(es: Seq<ExpectBehaviourModel>)
    ensures
        unsat_of_expects(es).len() == 0 <==> forall|j: int|
            0 <= j < es.len() ==> expect_satisfied(#[trigger] es[j]),
    decreases es.len(),
{
    if es.len() > 0 {
        lemma_unsat_of_expects_empty(es.drop_last());
        if unsat_of_expects(es).len() == 0 {
            assert forall|j: int| 0 <= j < es.len() implies expect_satisfied(#[trigger] es[j]) by {
                if j < es.len() - 1 {
                    assert(es.drop_last()[j] == es[j]);
                } else {
                    assert(es[j] == es.last());
                }
            }
        } else {
            if unsat_of_expects(es.drop_last()).len() > 0 {
                let j = choose|j: int|
                    0 <= j < es.drop_last().len() && !expect_satisfied(#[trigger] es.drop_last()[j]);
                assert(es.drop_last()[j] == es[j]);
            }
        }
    }
}

/// There is no unsatisfied-expectation message exactly when every
/// expectation is satisfied.
pub proof fn lemma_all_satisfied_iff_no_unsat(s: MockStateModel)
    ensures
        all_satisfied(s) <==> unsat_all(s.entries).len() == 0,
{
    lemma_unsat_all_empty(s.entries);
}

proof fn lemma_unsat_all_empty(entries: Seq<MethodBehavioursModel>)
    ensures
        unsat_all(entries).len() == 0 <==> forall|i: int, j: int|
            0 <= i < entries.len() && 0 <= j < entries[i].expects.len() ==> expect_satisfied(
                #[trigger] entries[i].expects[j],
            ),
    decreases entries.len(),
{
    if entries.len() > 0 {
        lemma_unsat_all_empty(entries.drop_last());
        lemma_unsat_of_expects_empty(entries.last().expects);
        if unsat_all(entries).len() == 0 {
            assert forall|i: int, j: int|
                0 <= i < entries.len() && 0 <= j < entries[i].expects.len() implies expect_satisfied(
                #[trigger] entries[i].expects[j],
            ) by {
                if i < entries.len() - 1 {
                    assert(entries.drop_last()[i] == entries[i]);
                } else {
                    assert(entries[i] == entries.last());
                }
            }
        } else {
            if unsat_all(entries.drop_last()).len() > 0 {
                let (i, j) = choose|i: int, j: int|
                    0 <= i < entries.drop_last().len() && 0 <= j < entries.drop_last()[i].expects.len()
                        && !expect_satisfied(#[trigger] entries.drop_last()[i].expects[j]);
                assert(entries.drop_last()[i] == entries[i]);
            } else {
                let j = choose|j: int|
                    0 <= j < entries.last().expects.len() && !expect_satisfied(
                        #[trigger] entries.last().expects[j],
                    );
                assert(entries[entries.len() - 1].expects[j] == entries.last().expects[j]);
            }
        }
    }
}

impl MockState {
    /// The renderings of every unsatisfied expectation, in registration order.
    pub fn unsatisfied_descriptions(&self) -> (r: Vec<String>)
        ensures
            strings_seq(r@) == unsat_all(self@.entries),
    {
        let mut r: Vec<String> = Vec::new();
        let mut i: usize = 0;
        while i < self.entries.len()
            invariant
                i <= self.entries.len(),
                strings_seq(r@) =~= unsat_all(self@.entries.take(i as int)),
            decreases self.entries.len() - i,
        {
            let e = &self.entries[i];
            proof {
                assert(self@.entries[i as int] == (*e)@);
            }
            let mut j: usize = 0;
            while j < e.expects.len()
                invariant
                    j <= e.expects.len(),
                    self@.entries[i as int] == (*e)@,
                    i < self@.entries.len(),
                    strings_seq(r@) =~= unsat_all(self@.entries.take(i as int)) + unsat_of_expects(
                        (*e)@.expects.take(j as int),
                    ),
                decreases e.expects.len() - j,
            {
                let ghost pre = r@;
                let b = &e.expects[j];
                proof {
                    assert((*e)@.expects[j as int] == (*b)@);
                }
                if !b.is_saturated() {
                    r.push(b.stmt_repr.clone());
                }
                proof {
                    let taken = (*e)@.expects.take(j + 1);
                    assert(taken.drop_last() =~= (*e)@.expects.take(j as int));
                    assert(taken.last() == (*e)@.expects[j as int]);
                    if !expect_satisfied((*e)@.expects[j as int]) {
                        assert(strings_seq(r@) =~= strings_seq(pre).push((*b)@.stmt_repr));
                    } else {
                        assert(r@ == pre);
                    }
                    assert(strings_seq(r@) =~= unsat_all(self@.entries.take(i as int))
                        + unsat_of_expects(taken));
                }
                j += 1;
            }
            proof {
                assert((*e)@.expects.take(e.expects@.len() as int) =~= (*e)@.expects);
                let taken = self@.entries.take(i + 1);
                assert(taken.drop_last() =~= self@.entries.take(i as int));
                assert(taken.last() == self@.entries[i as int]);
                assert(strings_seq(r@) =~= unsat_all(taken));
            }
            i += 1;
        }
        proof {
            assert(self@.entries.take(self@.entries.len() as int) =~= self@.entries);
        }
        r
    }

    /// Whether every registered expectation is satisfied.
    pub fn are_expected_behaviours_satisfied(&self) -> (r: bool)
        ensures
            r == all_satisfied(self@),
    {
        let mut i: usize = 0;
        while i < self.entries.len()
            invariant
                i <= self.entries.len(),
                forall|i2: int, j2: int|
                    0 <= i2 < i && 0 <= j2 < self@.entries[i2].expects.len() ==> expect_satisfied(
                        #[trigger] self@.entries[i2].expects[j2],
                    ),
            decreases self.entries.len() - i,
        {
            let e = &self.entries[i];
            proof {
                assert(self@.entries[i as int] == (*e)@);
            }
            let mut j: usize = 0;
            while j < e.expects.len()
                invariant
                    j <= e.expects.len(),
                    self@.entries[i as int] == (*e)@,
                    i < self@.entries.len(),
                    forall|j2: int|
                        0 <= j2 < j ==> expect_satisfied(#[trigger] (*e)@.expects[j2]),
                decreases e.expects.len() - j,
            {
                let b = &e.expects[j];
                proof {
                    assert((*e)@.expects[j as int] == (*b)@);
                }
                if !b.is_saturated() {
                    return false;
                }
                j += 1;
            }
            i += 1;
        }
        true
    }

    /// Checks every expectation: `Ok` when all are satisfied, otherwise the
    /// renderings of the unsatisfied ones, so a caller can raise the failure.
    pub fn verify(&self) -> (r: Result<(), Vec<String>>)
        ensures
            r is Ok <==> all_satisfied(self@),
            (match r {
                Ok(_) => true,
                Err(msgs) => strings_seq(msgs@) == unsat_all(self@.entries),
            }),
    {
        let msgs = self.unsatisfied_descriptions();
        proof {
            lemma_all_satisfied_iff_no_unsat(self@);
        }
        if msgs.is_empty() {
            Ok(())
        } else {
            Err(msgs)
        }
    }

    /// The statement ids of the given-behaviours currently registered for a
    /// method, in collection order.
    pub fn given_stmt_ids(&self, requested_trait: &str, method: &str) -> (r: Vec<usize>)
        ensures
            r@.len() == givens_of(self@, requested_trait@, method@).len(),
            forall|l: int|
                0 <= l < r@.len() ==> r@[l] as int == givens_of(
                    self@,
                    requested_trait@,
                    method@,
                )[l].stmt_id,
    {
        let ghost t = requested_trait@;
        let ghost m = method@;
        let mut r: Vec<usize> = Vec::new();
        match self.find_index(requested_trait, method) {
            None => r,
            Some(i) => {
                proof {
                    lemma_find_entry(self@.entries, t, m);
                    assert(self@.entries.len() == self.entries@.len());
                }
                let e = &self.entries[i];
                proof {
                    assert(self@.entries[i as int] == (*e)@);
                }
                let mut k: usize = 0;
                while k < e.givens.len()
                    invariant
                        k <= e.givens.len(),
                        self@.entries[i as int] == (*e)@,
                        (i as int) < self@.entries.len(),
                        find_entry(self@.entries, t, m) == i as int,
                        r@.len() == k,
                        forall|l: int| 0 <= l < k ==> r@[l] as int == (*e)@.givens[l].stmt_id,
                    decreases e.givens.len() - k,
                {
                    let b = &e.givens[k];
                    proof {
                        assert((*e)@.givens[k as int] == (*b)@);
                    }
                    r.push(b.stmt_id);
                    k += 1;
                }
                r
            },
        }
    }

    /// The statement ids of the expect-behaviours currently registered for a
    /// method, in collection order.
    pub fn expect_stmt_ids(&self, requested_trait: &str, method: &str) -> (r: Vec<usize>)
        ensures
            r@.len() == expects_of(self@, requested_trait@, method@).len(),
            forall|l: int|
                0 <= l < r@.len() ==> r@[l] as int == expects_of(
                    self@,
                    requested_trait@,
                    method@,
                )[l].stmt_id,
    {
        let ghost t = requested_trait@;
        let ghost m = method@;
        let mut r: Vec<usize> = Vec::new();
        match self.find_index(requested_trait, method) {
            None => r,
            Some(i) => {
                proof {
                    lemma_find_entry(self@.entries, t, m);
                    assert(self@.entries.len() == self.entries@.len());
                }
                let e = &self.entries[i];
                proof {
                    assert(self@.entries[i as int] == (*e)@);
                }
                let mut k: usize = 0;
                while k < e.expects.len()
                    invariant
                        k <= e.expects.len(),
                        self@.entries[i as int] == (*e)@,
                        (i as int) < self@.entries.len(),
                        find_entry(self@.entries, t, m) == i as int,
                        r@.len() == k,
                        forall|l: int| 0 <= l < k ==> r@[l] as int == (*e)@.expects[l].stmt_id,
                    decreases e.expects.len() - k,
                {
                    let b = &e.expects[k];
                    proof {
                        assert((*e)@.expects[k as int] == (*b)@);
                    }
                    r.push(b.stmt_id);
                    k += 1;
                }
                r
            },
        }
    }
}

/// For every match vector, a call that matches behaviour `i` never resolves
/// to a later-registered behaviour `j`: dispatch picks the earliest matching
/// index, which is at most `i`, and is exactly `i` when nothing before `i`
/// matches.
pub proof fn lemma_given_dispatch_order(gm: Seq<bool>, i: int, j: int)
    requires
        0 <= i < j < gm.len(),
        gm[i],
    ensures
        first_true(gm) is Some,
        first_true(gm) matches Some(k) ==> 0 <= k <= i < j,
        (forall|l: int| 0 <= l < i ==> !gm[l]) ==> first_true(gm) == Some(i),
{
    lemma_first_true_properties(gm);
    if first_true(gm) is None {
        assert(!gm[i]);
    }
    let k = first_true(gm)->Some_0;
    if k > i {
        assert(!gm[i]);
    }
    if forall|l: int| 0 <= l < i ==> !gm[l] {
        lemma_first_true_at(gm, i);
    }
}

/// Whether a given-behaviour still has headroom under its limit: an
/// unlimited behaviour always does; a limited one while its counter is
/// below the limit (a limit of zero only before any match).
pub open spec fn given_within_limit(b: GivenBehaviourModel) -> bool {
    match b.expected_matches {
        Some(k) => b.num_matches < k || (k == 0 && b.num_matches == 0),
        None => true,
    }
}

/// The saturation invariant: when every registered given-behaviour is
/// within its limit, one dispatched call keeps every surviving behaviour
/// within its limit, and a behaviour with limit `k >= 1` never records more
/// than `k` matches in total before it is evicted (its counter counts every
/// match it ever won).
pub proof fn lemma_saturation_invariant(gs: Seq<GivenBehaviourModel>, gm: Seq<bool>)
    requires
        gm.len() == gs.len(),
        forall|l: int| 0 <= l < gs.len() ==> given_within_limit(#[trigger] gs[l]),
    ensures
        forall|l: int|
            0 <= l < givens_after(gs, gm).len() ==> given_within_limit(
                #[trigger] givens_after(gs, gm)[l],
            ),
        forall|i: int, k: int|
            first_true(gm) == Some(i) && gs[i].expected_matches == Some(k) && k >= 1
                ==> given_bumped(gs[i]).num_matches <= k,
{
    lemma_first_true_properties(gm);
    match first_true(gm) {
        None => {},
        Some(i) => {
            let b = given_bumped(gs[i]);
            if given_saturated(b) {
                assert forall|l: int| 0 <= l < givens_after(gs, gm).len() implies given_within_limit(
                    #[trigger] givens_after(gs, gm)[l],
                ) by {
                    assert(givens_after(gs, gm)[l] == if l < i {
                        gs[l]
                    } else {
                        gs[l + 1]
                    });
                }
            } else {
                assert forall|l: int| 0 <= l < givens_after(gs, gm).len() implies given_within_limit(
                    #[trigger] givens_after(gs, gm)[l],
                ) by {
                    assert(givens_after(gs, gm)[l] == if l == i {
                        b
                    } else {
                        gs[l]
                    });
                }
            }
        },
    }
}

/// Expectation counting is independent of stub dispatch: for one and the
/// same call, the expectations after the call do not depend on which (if
/// any) given-behaviour produced a return.
pub proof fn lemma_expect_counting_independence(
    s: MockStateModel,
    t: Seq<char>,
    m: Seq<char>,
    em: Seq<bool>,
    gm1: Seq<bool>,
    gm2: Seq<bool>,
)
    ensures
        forall|t2: Seq<char>, m2: Seq<char>| #[trigger] expects_of(
            call_transition(s, t, m, em, gm1),
            t2,
            m2,
        ) == expects_of(call_transition(s, t, m, em, gm2), t2, m2),
{
    let s1 = call_transition(s, t, m, em, gm1);
    let s2 = call_transition(s, t, m, em, gm2);
    let i = find_entry(s.entries, t, m);
    assert forall|t2: Seq<char>, m2: Seq<char>| #[trigger] expects_of(s1, t2, m2) == expects_of(
        s2,
        t2,
        m2,
    ) by {
        if i != -1 {
            lemma_find_entry(s.entries, t, m);
            lemma_find_entry_same_keys(s.entries, s1.entries, t2, m2);
            lemma_find_entry_same_keys(s.entries, s2.entries, t2, m2);
            let j = find_entry(s.entries, t2, m2);
            lemma_find_entry(s.entries, t2, m2);
            if j != -1 {
                assert(s1.entries[j].expects == s2.entries[j].expects);
            }
        }
    }
}

} // verus!

