//! Partial complex entities and instantiable sets (ISO 10303-11 Annex B).

use super::arrange::dedup_indices;
use super::arrange::sort_indices;
use super::order::canonical;
use super::order::lemma_canonical_of_ascending;
use super::order::lemma_dedup_sorted;
use core::cmp::Ordering;
use vstd::prelude::*;
use vstd::relations::sorted_by;
use vstd::relations::strict_total_ordering;
use vstd::seq_lib::seq_to_set_distributes_over_add;
use vstd::slice::slice_to_vec;
use vstd::std_specs::cmp::PartialEqSpecImpl;
use vstd::std_specs::convert::FromSpecImpl;
use vstd::std_specs::cmp::PartialOrdSpecImpl;
use vstd::std_specs::ops::BitAndSpecImpl;

verus! {

/// The order of namespace indices.
pub open spec fn index_lt() -> spec_fn(usize, usize) -> bool {
    |a: usize, b: usize| a < b
}

/// Indices are strictly and totally ordered.
pub proof fn lemma_index_order()
    ensures
        strict_total_ordering(index_lt()),
{
}

/// The canonical index list that names the same entity types as `s`.
pub open spec fn normalized(s: Seq<usize>) -> Seq<usize> {
    canonical(s.to_set(), index_lt())
}

/// `a & b` on index lists: the canonical list of every index found in either.
pub open spec fn merged(a: Seq<usize>, b: Seq<usize>) -> Seq<usize> {
    canonical(a.to_set().union(b.to_set()), index_lt())
}

/// A sorted list and its rearrangement have the same members.
pub proof fn lemma_same_multiset_same_set<T>(a: Seq<T>, b: Seq<T>)
    requires
        a.to_multiset() == b.to_multiset(),
    ensures
        a.to_set() == b.to_set(),
{
    a.to_multiset_ensures();
    b.to_multiset_ensures();
    assert forall|x: T| a.to_set().contains(x) <==> b.to_set().contains(x) by {
        assert(a.contains(x) <==> a.to_multiset().count(x) > 0);
        assert(b.contains(x) <==> b.to_multiset().count(x) > 0);
    }
    assert(a.to_set() =~= b.to_set());
}

/// `a` and `b` hold the same index at every position below `k`.
pub open spec fn agree_below(a: Seq<usize>, b: Seq<usize>, k: int) -> bool {
    forall|i: int| 0 <= i < k ==> a[i] == b[i]
}

/// `a` and `b` first differ at position `k`, where `a` holds the smaller index.
pub open spec fn smaller_at(a: Seq<usize>, b: Seq<usize>, k: int) -> bool {
    &&& 0 <= k < a.len()
    &&& k < b.len()
    &&& agree_below(a, b, k)
    &&& a[k] < b[k]
}

/// The total order of partial complex entities: the shorter list first,
/// lists of one length in lexicographic order.
pub open spec fn precedes(a: Seq<usize>, b: Seq<usize>) -> bool {
    a.len() < b.len() || (a.len() == b.len() && exists|k: int| smaller_at(a, b, k))
}

/// [`precedes`] as a relation.
pub open spec fn part_lt() -> spec_fn(Seq<usize>, Seq<usize>) -> bool {
    |a: Seq<usize>, b: Seq<usize>| precedes(a, b)
}

/// Two lists of one length agree below `n`, or differ somewhere below it
/// for the first time.
proof fn lemma_first_difference(a: Seq<usize>, b: Seq<usize>, n: int) -> (k: int)
    requires
        0 <= n <= a.len(),
        n <= b.len(),
    ensures
        agree_below(a, b, n) ==> k == n,
        !agree_below(a, b, n) ==> 0 <= k < n && agree_below(a, b, k) && a[k] != b[k],
    decreases n,
{
    if n == 0 {
        0
    } else {
        let k = lemma_first_difference(a, b, n - 1);
        if k < n - 1 {
            k
        } else if a[n - 1] == b[n - 1] {
            n
        } else {
            n - 1
        }
    }
}

/// The order of partial complex entities is strict and total.
pub proof fn lemma_part_order()
    ensures
        strict_total_ordering(part_lt()),
{
    let lt = part_lt();
    assert forall|x: Seq<usize>, y: Seq<usize>| #[trigger] lt(x, y) && #[trigger] lt(y, x) implies x
        == y by {
        let k1 = choose|k: int| smaller_at(x, y, k);
        let k2 = choose|k: int| smaller_at(y, x, k);
        if k1 < k2 {
            assert(y[k1] == x[k1]);
        } else if k2 < k1 {
            assert(x[k2] == y[k2]);
        }
    }
    assert forall|x: Seq<usize>, y: Seq<usize>, z: Seq<usize>| #[trigger] lt(x, y) && #[trigger] lt(
        y,
        z,
    ) implies lt(x, z) by {
        if x.len() == y.len() && y.len() == z.len() {
            let k1 = choose|k: int| smaller_at(x, y, k);
            let k2 = choose|k: int| smaller_at(y, z, k);
            let k = if k1 < k2 {
                k1
            } else {
                k2
            };
            assert(smaller_at(x, z, k));
        }
    }
    assert forall|x: Seq<usize>, y: Seq<usize>| x != y implies #[trigger] lt(x, y) || #[trigger] lt(
        y,
        x,
    ) by {
        if x.len() == y.len() {
            let k = lemma_first_difference(x, y, x.len() as int);
            if agree_below(x, y, x.len() as int) {
                assert(x =~= y);
            }
            if x[k] < y[k] {
                assert(smaller_at(x, y, k));
            } else {
                assert(agree_below(y, x, k));
                assert(smaller_at(y, x, k));
            }
        }
    }
}

/// A smaller index at the first difference puts `a` before `b`.
proof fn lemma_precedes_at(a: Seq<usize>, b: Seq<usize>, k: usize)
    requires
        a.len() == b.len(),
        smaller_at(a, b, k as int),
    ensures
        precedes(a, b),
{
}

/// One intersection of entity types, e.g. `A & B & C`, each type named by
/// its namespace index.
#[derive(Debug)]
pub struct PartialComplexEntity {
    /// Sorted and non-duplicated indices
    pub indices: Vec<usize>,
}

impl View for PartialComplexEntity {
    type V = Seq<usize>;

    open spec fn view(&self) -> Seq<usize> {
        self.indices@
    }
}

impl PartialComplexEntity {
    /// The indices are strictly ascending.
    pub open spec fn wf(&self) -> bool {
        sorted_by(self@, index_lt())
    }

    /// Sorts `v` and drops repeats.
    fn canonicalize(v: Vec<usize>) -> (r: Self)
        ensures
            r@ == normalized(v@),
            r.wf(),
    {
        let mut v = v;
        let ghost before = v@;
        sort_indices(&mut v);
        let ghost sorted = v@;
        let d = dedup_indices(v);
        proof {
            lemma_index_order();
            lemma_same_multiset_same_set(sorted, before);
            lemma_dedup_sorted(sorted, index_lt());
            lemma_canonical_of_ascending(d@, index_lt());
        }
        PartialComplexEntity { indices: d }
    }

    /// The partial complex entity of the given entity types, whatever their
    /// order and however often each is listed.
    pub fn new(indices: &[usize]) -> (r: Self)
        ensures
            r@ == normalized(indices@),
            r.wf(),
    {
        Self::canonicalize(slice_to_vec(indices))
    }
}

impl PartialComplexEntity {
    /// Where `self` stands relative to `rhs` in the total order: shorter
    /// first, then lexicographic.
    pub fn compare(&self, rhs: &Self) -> (r: Ordering)
        ensures
            r is Less <==> precedes(self@, rhs@),
            r is Equal <==> self@ == rhs@,
            r is Greater <==> precedes(rhs@, self@),
    {
        proof {
            lemma_part_order();
            assert(part_lt()(self@, rhs@) == precedes(self@, rhs@));
            assert(part_lt()(rhs@, self@) == precedes(rhs@, self@));
            assert(part_lt()(self@, self@) == false);
        }
        let n = self.indices.len();
        let m = rhs.indices.len();
        if n < m {
            return Ordering::Less;
        }
        if n > m {
            return Ordering::Greater;
        }
        let mut i: usize = 0;
        while i < n
            invariant
                i <= n,
                n == self@.len(),
                n == rhs@.len(),
                forall|k: int| 0 <= k < i ==> self@[k] == rhs@[k],
            decreases n - i,
        {
            if self.indices[i] < rhs.indices[i] {
                proof {
                    lemma_precedes_at(self@, rhs@, i);
                }
                return Ordering::Less;
            }
            if self.indices[i] > rhs.indices[i] {
                proof {
                    lemma_precedes_at(rhs@, self@, i);
                }
                return Ordering::Greater;
            }
            i += 1;
        }
        assert(self@ =~= rhs@);
        Ordering::Equal
    }
}

impl PartialOrdSpecImpl for PartialComplexEntity {
    open spec fn obeys_partial_cmp_spec() -> bool {
        true
    }

    open spec fn partial_cmp_spec(&self, other: &Self) -> Option<Ordering> {
        if precedes(self@, other@) {
            Some(Ordering::Less)
        } else if self@ == other@ {
            Some(Ordering::Equal)
        } else {
            Some(Ordering::Greater)
        }
    }
}

impl PartialOrd for PartialComplexEntity {
    fn partial_cmp(&self, other: &Self) -> (r: Option<Ordering>) {
        Some(self.compare(other))
    }
}

impl<'a> FromSpecImpl<&'a [usize]> for PartialComplexEntity {
    open spec fn obeys_from_spec() -> bool {
        false
    }

    open spec fn from_spec(v: &'a [usize]) -> Self {
        arbitrary()
    }
}

impl<'a> From<&'a [usize]> for PartialComplexEntity {
    /// The same as [`PartialComplexEntity::new`].
    fn from(indices: &'a [usize]) -> (r: PartialComplexEntity)
        ensures
            r@ == normalized(indices@),
            r.wf(),
    {
        PartialComplexEntity::new(indices)
    }
}

impl Clone for PartialComplexEntity {
    fn clone(&self) -> (r: Self)
        ensures
            r@ == self@,
    {
        PartialComplexEntity { indices: self.indices.clone() }
    }
}

impl PartialEq for PartialComplexEntity {
    fn eq(&self, other: &Self) -> (r: bool) {
        let r = self.indices == other.indices;
        proof {
            assert(r == (self@ =~= other@));
        }
        r
    }
}

impl Eq for PartialComplexEntity {

}

impl PartialEqSpecImpl for PartialComplexEntity {
    open spec fn obeys_eq_spec() -> bool {
        true
    }

    open spec fn eq_spec(&self, other: &Self) -> bool {
        self@ == other@
    }
}

impl BitAndSpecImpl for PartialComplexEntity {
    open spec fn obeys_bitand_spec() -> bool {
        false
    }

    open spec fn bitand_req(self, rhs: Self) -> bool {
        true
    }

    open spec fn bitand_spec(self, rhs: Self) -> Self {
        self
    }
}

impl core::ops::BitAnd for PartialComplexEntity {
    type Output = Self;

    /// `A & B`: the entity types of both operands together.
    fn bitand(self, rhs: Self) -> (r: Self)
        ensures
            r@ == merged(self@, rhs@),
            r.wf(),
    {
        let mut lhs = self;
        let mut rhs = rhs;
        let ghost a = lhs@;
        let ghost b = rhs@;
        lhs.indices.append(&mut rhs.indices);
        proof {
            seq_to_set_distributes_over_add(a, b);
        }
        Self::canonicalize(lhs.indices)
    }
}

} // verus!

