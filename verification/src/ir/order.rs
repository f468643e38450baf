//! Strictly ascending sequences as canonical representatives of finite sets.
//!
//! Both partial complex entities (sets of indices) and instantiables (sets
//! of partial complex entities) are stored as strictly ascending vectors.
//! A finite set has exactly one such arrangement under a strict total
//! order; the lemmas here establish that, so that contracts can speak of
//! "the ascending sequence holding exactly the members of `s`".

use vstd::prelude::*;
use vstd::relations::sorted_by;
use vstd::relations::strict_total_ordering;

verus! {

/// The non-strict companion of a strict order: `a` is not above `b`.
pub open spec fn not_above<T>(lt: spec_fn(T, T) -> bool) -> spec_fn(T, T) -> bool {
    |a: T, b: T| !lt(b, a)
}

/// `q` lists exactly the members of `s` in strictly ascending order.
pub open spec fn arranges<T>(q: Seq<T>, s: Set<T>, lt: spec_fn(T, T) -> bool) -> bool {
    sorted_by(q, lt) && q.to_set() == s
}

/// The strictly ascending sequence that holds exactly the members of `s`.
pub open spec fn canonical<T>(s: Set<T>, lt: spec_fn(T, T) -> bool) -> Seq<T> {
    choose|q: Seq<T>| arranges(q, s, lt)
}

/// What remains of `s` when every element equal to its predecessor is dropped.
pub open spec fn dedup_adjacent<T>(s: Seq<T>) -> Seq<T>
    decreases s.len(),
{
    if s.len() <= 1 {
        s
    } else if s[s.len() - 2] == s.last() {
        dedup_adjacent(s.drop_last())
    } else {
        dedup_adjacent(s.drop_last()).push(s.last())
    }
}

/// `x` placed into the ascending sequence `q` at its ordered position.
pub open spec fn inserted<T>(q: Seq<T>, x: T, lt: spec_fn(T, T) -> bool) -> Seq<T>
    decreases q.len(),
{
    if q.len() == 0 {
        seq![x]
    } else if lt(q.last(), x) {
        q.push(x)
    } else {
        inserted(q.drop_last(), x, lt).push(q.last())
    }
}

/// A strictly ascending sequence never repeats an element.
pub proof fn lemma_ascending_no_duplicates<T>(q: Seq<T>, lt: spec_fn(T, T) -> bool)
    requires
        strict_total_ordering(lt),
        sorted_by(q, lt),
    ensures
        q.no_duplicates(),
{
    assert forall|i: int, j: int| 0 <= i < q.len() && 0 <= j < q.len() && i != j implies q[i]
        != q[j] by {
        if i < j {
            assert(lt(q[i], q[j]));
        } else {
            assert(lt(q[j], q[i]));
        }
    }
}

/// Dropping the last element of an ascending sequence removes it from the set.
pub proof fn lemma_ascending_drop_last<T>(q: Seq<T>, lt: spec_fn(T, T) -> bool)
    requires
        strict_total_ordering(lt),
        sorted_by(q, lt),
        q.len() > 0,
    ensures
        sorted_by(q.drop_last(), lt),
        q.drop_last().to_set() == q.to_set().remove(q.last()),
{
    let d = q.drop_last();
    assert forall|x: T| d.to_set().contains(x) <==> q.to_set().remove(q.last()).contains(
        x,
    ) by {
        if d.contains(x) {
            let i = choose|i: int| 0 <= i < d.len() && d[i] == x;
            assert(q[i] == x);
            assert(lt(q[i], q[q.len() - 1]));
        }
        if q.contains(x) && x != q.last() {
            let i = choose|i: int| 0 <= i < q.len() && q[i] == x;
            assert(d[i] == x);
        }
    }
    assert(d.to_set() =~= q.to_set().remove(q.last()));
}

/// Two strictly ascending sequences with the same members are the same sequence.
pub proof fn lemma_ascending_unique<T>(p: Seq<T>, q: Seq<T>, lt: spec_fn(T, T) -> bool)
    requires
        strict_total_ordering(lt),
        sorted_by(p, lt),
        sorted_by(q, lt),
        p.to_set() == q.to_set(),
    ensures
        p == q,
    decreases p.len(),
{
    if p.len() == 0 {
        if q.len() > 0 {
            assert(q.to_set().contains(q[0]));
            assert(p.contains(q[0]));
        }
        assert(p =~= q);
    } else {
        assert(p.to_set().contains(p.last()));
        assert(q.contains(p.last()));
        assert(q.to_set().contains(q.last()));
        assert(p.contains(q.last()));
        let i = choose|i: int| 0 <= i < p.len() && p[i] == q.last();
        let j = choose|j: int| 0 <= j < q.len() && q[j] == p.last();
        if p.last() != q.last() {
            assert(lt(p[i], p[p.len() - 1]));
            assert(lt(q[j], q[q.len() - 1]));
        }
        lemma_ascending_drop_last(p, lt);
        lemma_ascending_drop_last(q, lt);
        lemma_ascending_unique(p.drop_last(), q.drop_last(), lt);
        assert(p =~= p.drop_last().push(p.last()));
        assert(q =~= q.drop_last().push(q.last()));
    }
}

/// Inserting a new element keeps the sequence ascending and adds just that element.
pub proof fn lemma_inserted<T>(q: Seq<T>, x: T, lt: spec_fn(T, T) -> bool)
    requires
        strict_total_ordering(lt),
        sorted_by(q, lt),
        !q.contains(x),
    ensures
        arranges(inserted(q, x, lt), q.to_set().insert(x), lt),
    decreases q.len(),
{
    let r = inserted(q, x, lt);
    if q.len() == 0 {
        assert(r.to_set() =~= q.to_set().insert(x)) by {
            assert(r[0] == x);
        }
    } else if lt(q.last(), x) {
        assert forall|i: int, j: int| 0 <= i < j < r.len() implies #[trigger] lt(r[i], r[j]) by {
            if j == r.len() - 1 && i < q.len() - 1 {
                assert(lt(q[i], q[q.len() - 1]));
            }
        }
        q.lemma_push_to_set_commute(x);
    } else {
        let d = q.drop_last();
        let m = q.last();
        let r0 = inserted(d, x, lt);
        lemma_ascending_drop_last(q, lt);
        assert(!d.contains(x)) by {
            if d.contains(x) {
                assert(d.to_set().contains(x));
            }
        }
        lemma_inserted(d, x, lt);
        assert(q.contains(m));
        assert(x != m);
        assert(lt(x, m));
        assert forall|i: int, j: int| 0 <= i < j < r.len() implies #[trigger] lt(r[i], r[j]) by {
            if j == r.len() - 1 {
                assert(r0.to_set().contains(r0[i]));
                if r0[i] != x {
                    assert(d.to_set().contains(r0[i]));
                    let k = choose|k: int| 0 <= k < d.len() && d[k] == r0[i];
                    assert(lt(q[k], q[q.len() - 1]));
                }
            } else {
                assert(lt(r0[i], r0[j]));
            }
        }
        r0.lemma_push_to_set_commute(m);
        assert(r.to_set() =~= q.to_set().insert(x));
    }
}

/// Every finite set has a strictly ascending arrangement.
pub proof fn lemma_arrangement_exists<T>(s: Set<T>, lt: spec_fn(T, T) -> bool)
    requires
        strict_total_ordering(lt),
        s.finite(),
    ensures
        exists|q: Seq<T>| arranges(q, s, lt),
    decreases s.len(),
{
    if s.len() == 0 {
        let q = Seq::<T>::empty();
        assert(q.to_set() =~= s);
        assert(arranges(q, s, lt));
    } else {
        let x = s.choose();
        let rest = s.remove(x);
        lemma_arrangement_exists(rest, lt);
        let q0 = choose|q: Seq<T>| arranges(q, rest, lt);
        assert(!q0.contains(x)) by {
            if q0.contains(x) {
                assert(q0.to_set().contains(x));
            }
        }
        lemma_inserted(q0, x, lt);
        assert(rest.insert(x) =~= s);
        assert(arranges(inserted(q0, x, lt), s, lt));
    }
}

/// The canonical sequence of a finite set is ascending and holds exactly its members.
pub proof fn lemma_canonical<T>(s: Set<T>, lt: spec_fn(T, T) -> bool)
    requires
        strict_total_ordering(lt),
        s.finite(),
    ensures
        arranges(canonical(s, lt), s, lt),
        canonical(s, lt).len() == s.len(),
{
    lemma_arrangement_exists(s, lt);
    lemma_ascending_no_duplicates(canonical(s, lt), lt);
    canonical(s, lt).unique_seq_to_set();
}

/// An ascending sequence is the canonical sequence of its own members.
pub proof fn lemma_canonical_of_ascending<T>(q: Seq<T>, lt: spec_fn(T, T) -> bool)
    requires
        strict_total_ordering(lt),
        sorted_by(q, lt),
    ensures
        canonical(q.to_set(), lt) == q,
{
    assert(arranges(q, q.to_set(), lt));
    lemma_ascending_unique(canonical(q.to_set(), lt), q, lt);
}

/// Removing adjacent repeats from a weakly sorted sequence leaves it
/// strictly ascending with the same members.
pub proof fn lemma_dedup_sorted<T>(s: Seq<T>, lt: spec_fn(T, T) -> bool)
    requires
        strict_total_ordering(lt),
        sorted_by(s, not_above(lt)),
    ensures
        arranges(dedup_adjacent(s), s.to_set(), lt),
        s.len() > 0 ==> dedup_adjacent(s).len() > 0 && dedup_adjacent(s).last() == s.last(),
    decreases s.len(),
{
    let r = dedup_adjacent(s);
    if s.len() <= 1 {
    } else {
        let d = s.drop_last();
        let r0 = dedup_adjacent(d);
        assert forall|i: int, j: int| 0 <= i < j < d.len() implies #[trigger] not_above(lt)(
            d[i],
            d[j],
        ) by {
            assert(not_above(lt)(s[i], s[j]));
        }
        lemma_dedup_sorted(d, lt);
        assert(s =~= d.push(s.last()));
        d.lemma_push_to_set_commute(s.last());
        assert(d.last() == s[s.len() - 2]);
        if s[s.len() - 2] == s.last() {
            assert(d.to_set().contains(d.last()));
            assert(d.to_set().insert(s.last()) =~= d.to_set());
        } else {
            let m = s.last();
            assert(not_above(lt)(s[s.len() - 2], s[s.len() - 1]));
            assert(lt(r0.last(), m));
            assert forall|i: int, j: int| 0 <= i < j < r.len() implies #[trigger] lt(
                r[i],
                r[j],
            ) by {
                if j == r.len() - 1 {
                    if i < r0.len() - 1 {
                        assert(lt(r0[i], r0[r0.len() - 1]));
                    }
                } else {
                    assert(lt(r0[i], r0[j]));
                }
            }
            r0.lemma_push_to_set_commute(m);
        }
    }
}

} // verus!
