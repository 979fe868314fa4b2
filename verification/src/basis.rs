//! Basis stamps: per-source version counters that say which upstream writes
//! a value reflects.
//!
//! The view of a stamp is the map from the sources it names to their
//! counters. A source that a stamp does not name counts as version 0, which
//! is what [`counter`] reads. Merging takes, source by source, the larger of
//! two counters; the laws of that operation are proved below.

use crate::names::{bindings, lemma_bindings_push, NameMap};
use vstd::prelude::*;

verus! {

/// The version that `stamp` records for `source`: 0 where it names none.
pub open spec fn counter(stamp: Map<Seq<char>, u64>, source: Seq<char>) -> u64 {
    if stamp.contains_key(source) {
        stamp[source]
    } else {
        0
    }
}

/// The larger of two versions.
pub open spec fn later(a: u64, b: u64) -> u64 {
    if a >= b {
        a
    } else {
        b
    }
}

/// The merge of two stamps: it names every source that either names, with
/// the larger of the two counters.
pub open spec fn merge(a: Map<Seq<char>, u64>, b: Map<Seq<char>, u64>) -> Map<Seq<char>, u64> {
    Map::new(
        |k: Seq<char>| a.contains_key(k) || b.contains_key(k),
        |k: Seq<char>| later(counter(a, k), counter(b, k)),
    )
}

/// Whether every counter of `a` is at least the counter of `b` for the same
/// source.
pub open spec fn dominates(a: Map<Seq<char>, u64>, b: Map<Seq<char>, u64>) -> bool {
    forall|k: Seq<char>| counter(a, k) >= counter(b, k)
}

/// Whether `out` is the merge of all of `bases`: it names the sources that any
/// of them names, and records for every source the largest counter that any
/// of them records.
pub open spec fn is_merge_of(out: Map<Seq<char>, u64>, bases: Seq<Map<Seq<char>, u64>>) -> bool {
    &&& forall|s: Seq<char>| #[trigger]
        out.contains_key(s) <==> exists|i: int|
            0 <= i < bases.len() && (#[trigger] bases[i]).contains_key(s)
    &&& forall|s: Seq<char>, i: int|
        0 <= i < bases.len() ==> #[trigger] counter(bases[i], s) <= counter(out, s)
    &&& forall|s: Seq<char>| #[trigger]
        out.contains_key(s) ==> exists|i: int|
            0 <= i < bases.len() && #[trigger] counter(bases[i], s) == out[s]
}

/// A vector of per-source version counters.
#[derive(Debug)]
pub struct BasisStamp {
    counters: NameMap<u64>,
}

impl View for BasisStamp {
    type V = Map<Seq<char>, u64>;

    closed spec fn view(&self) -> Map<Seq<char>, u64> {
        self.counters@
    }
}

/// For every source, the merge of two stamps records the larger of their
/// two counters, a source that a stamp does not name counting as 0.
pub proof fn lemma_merge_pointwise(a: BasisStamp, b: BasisStamp, source: Seq<char>)
    ensures
        counter(merge(a@, b@), source) == later(counter(a@, source), counter(b@, source)),
        merge(a@, b@).contains_key(source) <==> a@.contains_key(source) || b@.contains_key(source),
{
}

/// Merging is commutative.
pub proof fn lemma_merge_commutative(a: BasisStamp, b: BasisStamp)
    ensures
        merge(a@, b@) == merge(b@, a@),
{
    assert(merge(a@, b@) =~= merge(b@, a@));
}

/// Merging is associative.
pub proof fn lemma_merge_associative(a: BasisStamp, b: BasisStamp, c: BasisStamp)
    ensures
        merge(merge(a@, b@), c@) == merge(a@, merge(b@, c@)),
{
    assert(merge(merge(a@, b@), c@) =~= merge(a@, merge(b@, c@)));
}

/// Merging is idempotent.
pub proof fn lemma_merge_idempotent(a: BasisStamp)
    ensures
        merge(a@, a@) == a@,
{
    assert(merge(a@, a@) =~= a@);
}

/// The merge of two stamps dominates both, and every stamp that dominates
/// both dominates their merge.
pub proof fn lemma_merge_least_upper_bound(a: BasisStamp, b: BasisStamp, c: BasisStamp)
    ensures
        dominates(merge(a@, b@), a@),
        dominates(merge(a@, b@), b@),
        dominates(c@, a@) && dominates(c@, b@) ==> dominates(c@, merge(a@, b@)),
{
    if dominates(c@, a@) && dominates(c@, b@) {
        assert forall|k: Seq<char>| counter(c@, k) >= counter(merge(a@, b@), k) by {
            assert(counter(c@, k) >= counter(a@, k));
            assert(counter(c@, k) >= counter(b@, k));
        }
    }
}

/// Only the empty stamp is the merge of no stamps.
pub proof fn lemma_merge_of_none(out: Map<Seq<char>, u64>)
    ensures
        is_merge_of(out, Seq::empty()) <==> out == Map::<Seq<char>, u64>::empty(),
{
    if is_merge_of(out, Seq::empty()) {
        assert(out =~= Map::<Seq<char>, u64>::empty());
    }
}

/// Merging one more stamp into the merge of some stamps gives the merge of
/// all of them.
pub proof fn lemma_merge_of_push(
    out: Map<Seq<char>, u64>,
    bases: Seq<Map<Seq<char>, u64>>,
    next: Map<Seq<char>, u64>,
)
    requires
        is_merge_of(out, bases),
    ensures
        is_merge_of(merge(out, next), bases.push(next)),
{
    let all = bases.push(next);
    let merged = merge(out, next);
    let last = bases.len() as int;
    assert(all[last] == next);
    assert forall|s: Seq<char>| #[trigger] merged.contains_key(s) implies exists|i: int|
        0 <= i < all.len() && (#[trigger] all[i]).contains_key(s) by {
        if out.contains_key(s) {
            let i = choose|i: int| 0 <= i < bases.len() && (#[trigger] bases[i]).contains_key(s);
            assert(all[i] == bases[i]);
        } else {
            assert(all[last].contains_key(s));
        }
    }
    assert forall|s: Seq<char>|
        (exists|i: int| 0 <= i < all.len() && (#[trigger] all[i]).contains_key(s)) implies #[trigger]
        merged.contains_key(s) by {
        let i = choose|i: int| 0 <= i < all.len() && (#[trigger] all[i]).contains_key(s);
        if i < last {
            assert(bases[i] == all[i]);
        }
    }
    assert forall|s: Seq<char>, i: int| 0 <= i < all.len() implies #[trigger] counter(all[i], s)
        <= counter(merged, s) by {
        if i < last {
            assert(bases[i] == all[i]);
            assert(counter(bases[i], s) <= counter(out, s));
        }
    }
    assert forall|s: Seq<char>| #[trigger] merged.contains_key(s) implies exists|i: int|
        0 <= i < all.len() && #[trigger] counter(all[i], s) == merged[s] by {
        if counter(out, s) >= counter(next, s) && out.contains_key(s) {
            let i = choose|i: int| 0 <= i < bases.len() && #[trigger] counter(bases[i], s) == out[s];
            assert(all[i] == bases[i]);
            assert(counter(all[i], s) == merged[s]);
        } else {
            assert(counter(all[last], s) == merged[s]);
        }
    }
}

/// Some stamps have one merge only.
pub proof fn lemma_merge_of_unique(
    a: Map<Seq<char>, u64>,
    b: Map<Seq<char>, u64>,
    bases: Seq<Map<Seq<char>, u64>>,
)
    requires
        is_merge_of(a, bases),
        is_merge_of(b, bases),
    ensures
        a == b,
{
    assert forall|s: Seq<char>| a.contains_key(s) implies b.contains_key(s) && a[s] == b[s] by {
        let i = choose|i: int| 0 <= i < bases.len() && (#[trigger] bases[i]).contains_key(s);
        assert(b.contains_key(s));
        let ia = choose|i: int| 0 <= i < bases.len() && #[trigger] counter(bases[i], s) == a[s];
        let ib = choose|i: int| 0 <= i < bases.len() && #[trigger] counter(bases[i], s) == b[s];
        assert(counter(bases[ia], s) <= counter(b, s));
        assert(counter(bases[ib], s) <= counter(a, s));
    }
    assert forall|s: Seq<char>| b.contains_key(s) implies a.contains_key(s) by {
        let i = choose|i: int| 0 <= i < bases.len() && (#[trigger] bases[i]).contains_key(s);
        assert(a.contains_key(s));
    }
    assert(a =~= b);
}

impl BasisStamp {
    /// The stamp that names no source.
    pub fn empty() -> (s: Self)
        ensures
            s@ == Map::<Seq<char>, u64>::empty(),
    {
        BasisStamp { counters: NameMap::new() }
    }

    /// The stamp that names `source` alone, at `version`.
    pub fn single(source: String, version: u64) -> (s: Self)
        ensures
            s@ == Map::<Seq<char>, u64>::empty().insert(source@, version),
    {
        let mut counters: NameMap<u64> = NameMap::new();
        let _ = counters.insert(source, version);
        BasisStamp { counters }
    }

    /// The version recorded for `source`.
    pub fn get(&self, source: &String) -> (version: u64)
        ensures
            version == counter(self@, source@),
    {
        match self.counters.get(source) {
            Some(version) => *version,
            None => 0,
        }
    }

    /// Whether the stamp names `source`.
    pub fn names_source(&self, source: &String) -> (r: bool)
        ensures
            r == self@.contains_key(source@),
    {
        self.counters.contains_key(source)
    }

    /// The number of sources that the stamp names.
    pub fn len(&self) -> (n: usize)
        ensures
            self@.dom().finite(),
            n == self@.len(),
    {
        self.counters.len()
    }

    /// Raises each counter to the larger of its own value and `other`'s, and
    /// takes over the sources that only `other` names.
    pub fn merge_from(&mut self, other: &BasisStamp)
        ensures
            final(self)@ == merge(old(self)@, other@),
    {
        let n: usize = other.counters.len();
        let ghost names = other.counters.names();
        let ghost values = other.counters.values();
        let mut i: usize = 0;
        assert(self@ =~= merge(old(self)@, bindings(names.take(0), values.take(0))));
        while i < n
            invariant
                i <= n,
                n == names.len(),
                names == other.counters.names(),
                values == other.counters.values(),
                other.counters.indexed(),
                self@ == merge(old(self)@, bindings(names.take(i as int), values.take(i as int))),
            decreases n - i,
        {
            let source = other.counters.name_at(i);
            let version: u64 = *other.counters.value_at(i);
            let ghost seen = bindings(names.take(i as int), values.take(i as int));
            let ghost before = self@;
            proof {
                assert(names.take(i + 1) =~= names.take(i as int).push(names[i as int]));
                assert(values.take(i + 1) =~= values.take(i as int).push(values[i as int]));
                assert(names.take(i as int).no_duplicates());
                assert(!names.take(i as int).contains(names[i as int])) by {
                    if names.take(i as int).contains(names[i as int]) {
                        let j = names.take(i as int).index_of(names[i as int]);
                        assert(names.take(i as int)[j] == names[j]);
                    }
                }
                lemma_bindings_push(
                    names.take(i as int),
                    values.take(i as int),
                    names[i as int],
                    values[i as int],
                );
                assert(!seen.contains_key(source@));
            }
            let raise = match self.counters.get(source) {
                Some(current) => version > *current,
                None => true,
            };
            if raise {
                let _ = self.counters.insert(source.clone(), version);
            }
            assert(self@ =~= merge(old(self)@, seen.insert(source@, version)));
            i += 1;
        }
        proof {
            assert(names.take(n as int) =~= names);
            assert(values.take(n as int) =~= values);
        }
    }
}

impl Clone for BasisStamp {
    /// A copy that names the same sources with the same counters.
    fn clone(&self) -> (r: Self)
        ensures
            r@ == self@,
    {
        let mut r = BasisStamp::empty();
        r.merge_from(self);
        proof {
            assert(merge(Map::<Seq<char>, u64>::empty(), self@) =~= self@);
        }
        r
    }
}

} // verus!
