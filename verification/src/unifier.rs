//! The deduplicating registry of requested trait usages. Each structurally
//! distinct usage (trait path plus full generic instantiation, compared by
//! its canonical token text) receives a small positive integer on first
//! sight, and keeps it: the identifier is the collision-free naming key for
//! everything generated per trait.

use vstd::prelude::*;
use vstd::string::StrSliceExecFns;
use vstd::string::StringExecFns;
use crate::strutil::string_eq;

verus! {

/// The position of a usage in the registration order, or -1.
pub open spec fn usage_index(traits: Seq<Seq<char>>, usage: Seq<char>) -> int
    decreases traits.len(),
{
    if traits.len() == 0 {
        -1
    } else if traits[0] == usage {
        0
    } else {
        let r = usage_index(traits.drop_first(), usage);
        if r == -1 {
            -1
        } else {
            r + 1
        }
    }
}

/// The unique id of a usage: its one-based position in registration order.
pub open spec fn id_of(traits: Seq<Seq<char>>, usage: Seq<char>) -> Option<int> {
    let i = usage_index(traits, usage);
    if i == -1 {
        None
    } else {
        Some(i + 1)
    }
}

/// A registry assigning stable unique ids to trait usages, starting at 1
/// and increasing by 1 per distinct usage; re-registering is a no-op.
pub struct MockedTraitUnifier {
    traits: Vec<String>,
}

impl View for MockedTraitUnifier {
    type V = Seq<Seq<char>>;

    closed spec fn view(&self) -> Seq<Seq<char>> {
        self.traits@.map_values(|s: String| s@)
    }
}

pub proof fn lemma_usage_index(traits: Seq<Seq<char>>, usage: Seq<char>)
    ensures
        usage_index(traits, usage) == -1 ==> forall|k: int|
            0 <= k < traits.len() ==> traits[k] != usage,
        usage_index(traits, usage) != -1 ==> {
            let i = usage_index(traits, usage);
            &&& 0 <= i < traits.len()
            &&& traits[i] == usage
            &&& forall|k: int| 0 <= k < i ==> traits[k] != usage
        },
    decreases traits.len(),
{
    if traits.len() > 0 {
        let rest = traits.drop_first();
        lemma_usage_index(rest, usage);
        if usage_index(traits, usage) == -1 {
            assert forall|k: int| 0 <= k < traits.len() implies traits[k] != usage by {
                if k > 0 {
                    assert(rest[k - 1] == traits[k]);
                }
            }
        } else {
            let i = usage_index(traits, usage);
            if i > 0 {
                assert(rest[i - 1] == traits[i]);
                assert forall|k: int| 0 <= k < i implies traits[k] != usage by {
                    if k > 0 {
                        assert(rest[k - 1] == traits[k]);
                    }
                }
            }
        }
    }
}

pub proof fn lemma_usage_index_at(traits: Seq<Seq<char>>, usage: Seq<char>, k: int)
    requires
        0 <= k < traits.len(),
        traits[k] == usage,
        forall|l: int| 0 <= l < k ==> traits[l] != usage,
    ensures
        usage_index(traits, usage) == k,
    decreases traits.len(),
{
    if k > 0 {
        lemma_usage_index_at(traits.drop_first(), usage, k - 1);
    }
}

impl MockedTraitUnifier {
    /// An empty registry.
    pub fn new() -> (r: Self)
        ensures
            r@ == Seq::<Seq<char>>::empty(),
    {
        let r = MockedTraitUnifier { traits: Vec::new() };
        proof {
            assert(r@ =~= Seq::<Seq<char>>::empty());
        }
        r
    }

    fn position_of(&self, trait_usage: &str) -> (r: Option<usize>)
        ensures
            (match r {
                Some(i) => i as int == usage_index(self@, trait_usage@),
                None => usage_index(self@, trait_usage@) == -1,
            }),
    {
        let ghost u = trait_usage@;
        let mut i: usize = 0;
        while i < self.traits.len()
            invariant
                u == trait_usage@,
                i <= self.traits.len(),
                forall|k: int| 0 <= k < i ==> self@[k] != u,
            decreases self.traits.len() - i,
        {
            proof {
                assert(self@[i as int] == self.traits@[i as int]@);
            }
            if string_eq(&self.traits[i], trait_usage) {
                proof {
                    lemma_usage_index_at(self@, u, i as int);
                }
                return Some(i);
            }
            i += 1;
        }
        proof {
            lemma_usage_index(self@, u);
        }
        None
    }

    /// Registers a trait usage: a not-yet-seen usage receives the next
    /// unused id; re-registering an already-seen usage changes nothing.
    pub fn register_trait(&mut self, trait_usage: &str)
        ensures
            id_of(old(self)@, trait_usage@) is Some ==> final(self)@ == old(self)@,
            id_of(old(self)@, trait_usage@) is None ==> final(self)@ == old(self)@.push(
                trait_usage@,
            ) && id_of(final(self)@, trait_usage@) == Some(old(self)@.len() + 1int),
    {
        match self.position_of(trait_usage) {
            Some(_) => {},
            None => {
                let ghost s1 = self@;
                self.traits.push(trait_usage.to_owned());
                proof {
                    assert(self@ =~= s1.push(trait_usage@));
                    lemma_usage_index(s1, trait_usage@);
                    lemma_usage_index_at(self@, trait_usage@, s1.len() as int);
                }
            },
        }
    }

    /// Whether the registry can take no further usage.
    pub fn is_full(&self) -> (r: bool)
        ensures
            r <==> self@.len() >= usize::MAX,
    {
        let n = self.traits.len();
        proof {
            assert(self@.len() == self.traits@.len());
        }
        n >= usize::MAX
    }

    /// The id of an already-registered usage, or nothing.
    pub fn get_unique_id_for(&self, trait_usage: &str) -> (r: Option<usize>)
        requires
            self@.len() < usize::MAX,
        ensures
            (match r {
                Some(id) => id_of(self@, trait_usage@) == Some(id as int),
                None => id_of(self@, trait_usage@) is None,
            }),
    {
        match self.position_of(trait_usage) {
            Some(i) => {
                proof {
                    lemma_usage_index(self@, trait_usage@);
                }
                Some(i + 1)
            },
            None => None,
        }
    }

    /// Every registered usage, in registration order (the order carries no
    /// meaning beyond determinism; usage `k` has id `k + 1`).
    pub fn get_all_traits(&self) -> (r: Vec<String>)
        ensures
            r@.map_values(|s: String| s@) == self@,
    {
        let mut r: Vec<String> = Vec::new();
        let mut i: usize = 0;
        while i < self.traits.len()
            invariant
                i <= self.traits.len(),
                r@.len() == i,
                forall|k: int| 0 <= k < i ==> #[trigger] r@[k]@ == self@[k],
            decreases self.traits.len() - i,
        {
            proof {
                assert(self@[i as int] == self.traits@[i as int]@);
            }
            r.push(self.traits[i].clone());
            i += 1;
        }
        proof {
            assert(r@.map_values(|s: String| s@) =~= self@);
        }
        r
    }
}

/// An id once assigned survives any later registration: appending a new
/// usage never changes an existing usage's id.
pub proof fn lemma_id_of_push(traits: Seq<Seq<char>>, u: Seq<char>, v: Seq<char>)
    requires
        id_of(traits, v) is Some,
    ensures
        id_of(traits.push(u), v) == id_of(traits, v),
{
    lemma_usage_index(traits, v);
    let j = usage_index(traits, v);
    lemma_usage_index_at(traits.push(u), v, j);
}

/// Unique-id stability: structurally equal usages always carry the same
/// id; distinct registered usages carry distinct ids; and ids are exactly
/// the one-based registration positions, so they start at 1 and grow by 1
/// per distinct usage.
pub proof fn lemma_unique_id_stability(traits: Seq<Seq<char>>, u1: Seq<char>, u2: Seq<char>)
    ensures
        u1 == u2 ==> id_of(traits, u1) == id_of(traits, u2),
        id_of(traits, u1) is Some && id_of(traits, u2) is Some && u1 != u2 ==> id_of(traits, u1)
            != id_of(traits, u2),
        id_of(traits, u1) matches Some(id) ==> 1 <= id <= traits.len() && traits[id - 1] == u1,
{
    lemma_usage_index(traits, u1);
    lemma_usage_index(traits, u2);
}

} // verus!
