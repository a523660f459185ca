//! Ordinals of shortcode calls. Each call receives the next number of its
//! name, in document order, when the tree is built; rendering never changes it.

use vstd::hash_map::StringHashMap;
use vstd::prelude::*;
use vstd::string::*;

verus! {

/// The running counters of a document: for each shortcode name seen, the
/// number of its calls that have been numbered.
pub struct Numbering {
    counters: StringHashMap<usize>,
}

/// One more than `n`, the largest `usize` being the last number.
pub open spec fn next_ordinal(n: nat) -> nat {
    if n < usize::MAX {
        n + 1
    } else {
        n
    }
}

/// The number of calls of `name` among the first `n` of `names`.
pub open spec fn occurrences(names: Seq<Seq<char>>, name: Seq<char>, n: nat) -> nat
    decreases n,
{
    if n == 0 {
        0
    } else {
        occurrences(names, name, (n - 1) as nat) + if names[n - 1] == name {
            1nat
        } else {
            0nat
        }
    }
}

/// The ordinal of the call at index `i` of a document whose calls have the
/// names `names`, in document order: the number of calls of its name up to
/// and including it.
pub open spec fn ordinal(names: Seq<Seq<char>>, i: int) -> nat {
    occurrences(names, names[i], (i + 1) as nat)
}

/// The number of calls of a name grows with the number of calls looked at.
pub proof fn lemma_occurrences_grow(names: Seq<Seq<char>>, name: Seq<char>, n: nat, m: nat)
    requires
        n <= m,
    ensures
        occurrences(names, name, n) <= occurrences(names, name, m),
    decreases m,
{
    if n < m {
        lemma_occurrences_grow(names, name, n, (m - 1) as nat);
    }
}

/// Ordinals start at one, and of two calls of one name the later has the
/// greater ordinal: the ordinals of a name are strictly increasing and none
/// occurs twice.
pub proof fn lemma_ordinals_increase(names: Seq<Seq<char>>, i: int, j: int)
    requires
        0 <= i < j < names.len(),
        names[i] == names[j],
    ensures
        1 <= ordinal(names, i) < ordinal(names, j),
{
    lemma_occurrences_grow(names, names[i], (i + 1) as nat, j as nat);
}

/// For each name the number of its calls that have been numbered.
pub type Counts = Map<Seq<char>, nat>;

impl View for Numbering {
    type V = Counts;

    /// For each name the number of its calls that have been numbered.
    closed spec fn view(&self) -> Counts {
        Map::total(|name: Seq<char>| self.count(name))
    }
}

/// The counts before any call is numbered: zero for every name.
pub open spec fn unnumbered() -> Counts {
    Map::total(|name: Seq<char>| 0nat)
}

/// The counts behind the numbering of one more call of `name`.
pub open spec fn numbered(counts: Counts, name: Seq<char>) -> Counts {
    counts.insert(name, next_ordinal(counts[name]))
}

/// The counts behind the numbering of the first `n` of the calls with the
/// names `names`.
pub open spec fn counts_after(names: Seq<Seq<char>>, n: nat) -> Counts
    decreases n,
{
    if n == 0 {
        unnumbered()
    } else {
        numbered(counts_after(names, (n - 1) as nat), names[n - 1])
    }
}

/// `n`, or the largest `usize` where `n` is greater.
pub open spec fn capped(n: nat) -> nat {
    if n <= usize::MAX {
        n
    } else {
        usize::MAX as nat
    }
}

/// The count of a name is the number of its calls so far.
pub proof fn lemma_counts_are_occurrences(names: Seq<Seq<char>>, name: Seq<char>, n: nat)
    ensures
        counts_after(names, n)[name] == capped(occurrences(names, name, n)),
    decreases n,
{
    if n > 0 {
        lemma_counts_are_occurrences(names, name, (n - 1) as nat);
        lemma_counts_are_occurrences(names, names[n - 1], (n - 1) as nat);
    }
}

/// Ordinals are assigned once, in document order: the call at index `i`
/// receives the number of calls of its name up to and including it. With
/// `lemma_ordinals_increase`, the ordinals of one name are strictly increasing
/// and none is given twice.
pub proof fn lemma_numbering_gives_ordinals(names: Seq<Seq<char>>, i: int)
    requires
        0 <= i < names.len(),
    ensures
        next_ordinal(counts_after(names, i as nat)[names[i]]) == capped(ordinal(names, i)),
{
    lemma_counts_are_occurrences(names, names[i], i as nat);
}

impl Numbering {
    /// The number of calls of `name` that have been numbered.
    pub closed spec fn count(&self, name: Seq<char>) -> nat {
        if self.counters@.contains_key(name) {
            self.counters@[name] as nat
        } else {
            0
        }
    }

    /// The view holds the count of every name.
    pub proof fn lemma_view(&self)
        ensures
            forall|name: Seq<char>| self@.dom().contains(name) && #[trigger] self@[name] == self.count(name),
    {
    }

    /// Counters that have numbered nothing.
    pub fn new() -> (r: Self)
        ensures
            forall|name: Seq<char>| r.count(name) == 0,
            r@ == unnumbered(),
    {
        let r = Numbering { counters: StringHashMap::new() };
        assert(r@ =~= unnumbered());
        r
    }

    /// The ordinal of the next call of `name`: one more than the number of
    /// calls of that name numbered so far. The counters of other names stay.
    pub fn next(&mut self, name: &str) -> (r: usize)
        ensures
            r == next_ordinal(old(self).count(name@)),
            final(self).count(name@) == r,
            final(self)@ == numbered(old(self)@, name@),
            forall|other: Seq<char>| other != name@ ==> final(self).count(other) == old(self).count(
                other,
            ),
    {
        let count = match self.counters.get(name) {
            Some(c) => *c,
            None => 0,
        };
        let next = if count < usize::MAX {
            count + 1
        } else {
            count
        };
        self.counters.insert(String::from_str(name), next);
        proof {
            assert(self@ =~= numbered(old(self)@, name@));
        }
        next
    }
}

} // verus!
