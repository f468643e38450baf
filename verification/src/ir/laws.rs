//! The algebra of partial complex entities and instantiable sets.
//!
//! Every statement here is about the values that the operators of
//! [`PartialComplexEntity`](super::PartialComplexEntity) and
//! [`Instantiables`](super::Instantiables) return, as their contracts name
//! them: `merged` for `&` on partial complex entities; `sum`, `product`,
//! `difference` and `restriction` for `+`, `&`, `-` and `/` on instantiable
//! sets.

use super::complex_entity::index_lt;
use super::complex_entity::lemma_index_order;
use super::complex_entity::lemma_part_order;
use super::complex_entity::merged;
use super::complex_entity::normalized;
use super::complex_entity::part_lt;
use super::instantiables::absent_from;
use super::instantiables::arranged;
use super::instantiables::covering;
use super::instantiables::covers_one_of;
use super::instantiables::difference;
use super::instantiables::lemma_filter_ascending;
use super::instantiables::lemma_merged;
use super::instantiables::lemma_pairings_before_all;
use super::instantiables::operands_wf;
use super::instantiables::pairings;
use super::instantiables::pairings_before;
use super::instantiables::product;
use super::instantiables::restriction;
use super::instantiables::selections_of_all;
use super::instantiables::sum;
use super::order::canonical;
use super::order::lemma_ascending_no_duplicates;
use super::order::lemma_ascending_unique;
use super::order::lemma_canonical;
use super::order::lemma_canonical_of_ascending;
use vstd::arithmetic::power2::lemma2_to64;
use vstd::arithmetic::power2::lemma_pow2_unfold;
use vstd::arithmetic::power2::pow2;
use vstd::prelude::*;
use vstd::relations::injective_on;
use vstd::relations::sorted_by;
use vstd::seq_lib::seq_to_set_is_finite;
use vstd::set_lib::lemma_map_size;
use vstd::set_lib::lemma_set_disjoint_lens;

verus! {

/// The canonical list of `s` is strictly ascending and names what `s` names.
pub proof fn lemma_normalized(s: Seq<usize>)
    ensures
        sorted_by(normalized(s), index_lt()),
        normalized(s).to_set() == s.to_set(),
{
    lemma_index_order();
    seq_to_set_is_finite(s);
    lemma_canonical(s.to_set(), index_lt());
}

/// The canonical list of a finite set of alternatives is strictly ascending
/// and holds each of them once.
pub proof fn lemma_arranged(s: Set<Seq<usize>>)
    requires
        s.finite(),
    ensures
        sorted_by(arranged(s), part_lt()),
        arranged(s).to_set() == s,
        arranged(s).len() == s.len(),
{
    lemma_part_order();
    lemma_canonical(s, part_lt());
}

/// `a + b` is strictly ascending and holds exactly the alternatives of `a` and of `b`.
pub proof fn lemma_sum(a: Seq<Seq<usize>>, b: Seq<Seq<usize>>)
    ensures
        sorted_by(sum(a, b), part_lt()),
        sum(a, b).to_set() == a.to_set().union(b.to_set()),
        sum(a, b).len() == a.to_set().union(b.to_set()).len(),
{
    seq_to_set_is_finite(a);
    seq_to_set_is_finite(b);
    lemma_arranged(a.to_set().union(b.to_set()));
}

/// There are finitely many pairings before any position.
proof fn lemma_pairings_before_finite(a: Seq<Seq<usize>>, b: Seq<Seq<usize>>, i: int, j: int)
    requires
        0 <= i <= a.len(),
        0 <= j <= b.len(),
        i < a.len() || j == 0,
    ensures
        pairings_before(a, b, i, j).finite(),
    decreases i, j,
{
    if j > 0 {
        lemma_pairings_before_finite(a, b, i, j - 1);
        assert(pairings_before(a, b, i, j) =~= pairings_before(a, b, i, j - 1).insert(
            merged(a[i], b[j - 1]),
        ));
    } else if i > 0 {
        lemma_pairings_before_finite(a, b, i - 1, b.len() as int);
        assert(pairings_before(a, b, i, j) =~= pairings_before(a, b, i - 1, b.len() as int));
    } else {
        assert(pairings_before(a, b, i, j) =~= Set::<Seq<usize>>::empty());
    }
}

/// `a & b` is strictly ascending and holds exactly the pairings of `a` with `b`.
pub proof fn lemma_product(a: Seq<Seq<usize>>, b: Seq<Seq<usize>>)
    ensures
        pairings(a, b).finite(),
        sorted_by(product(a, b), part_lt()),
        product(a, b).to_set() == pairings(a, b),
        product(a, b).len() == pairings(a, b).len(),
{
    lemma_pairings_before_finite(a, b, a.len() as int, 0);
    lemma_pairings_before_all(a, b);
    lemma_arranged(pairings(a, b));
}

/// Keeping nothing leaves nothing.
proof fn lemma_filter_none<T>(s: Seq<T>, pred: spec_fn(T) -> bool)
    requires
        forall|i: int| 0 <= i < s.len() ==> !pred(#[trigger] s[i]),
    ensures
        s.filter(pred) == Seq::<T>::empty(),
    decreases s.len(),
{
    reveal(Seq::filter);
    if s.len() > 0 {
        let d = s.drop_last();
        assert forall|i: int| 0 <= i < d.len() implies !pred(#[trigger] d[i]) by {
            assert(d[i] == s[i]);
        }
        lemma_filter_none(d, pred);
        assert(!pred(s[s.len() - 1]));
    }
}

/// Keeping everything changes nothing.
proof fn lemma_filter_all<T>(s: Seq<T>, pred: spec_fn(T) -> bool)
    requires
        forall|i: int| 0 <= i < s.len() ==> pred(#[trigger] s[i]),
    ensures
        s.filter(pred) == s,
    decreases s.len(),
{
    reveal(Seq::filter);
    if s.len() > 0 {
        let d = s.drop_last();
        assert forall|i: int| 0 <= i < d.len() implies pred(#[trigger] d[i]) by {
            assert(d[i] == s[i]);
        }
        lemma_filter_all(d, pred);
        assert(pred(s[s.len() - 1]));
        assert(d.push(s.last()) =~= s);
    }
}

/// `a & a = a` for every well-formed partial complex entity.
pub proof fn and_is_idempotent(a: Seq<usize>)
    requires
        sorted_by(a, index_lt()),
    ensures
        merged(a, a) == a,
{
    lemma_index_order();
    assert(a.to_set().union(a.to_set()) =~= a.to_set());
    lemma_canonical_of_ascending(a, index_lt());
}

/// `a & b = b & a`.
pub proof fn and_is_commutative(a: Seq<usize>, b: Seq<usize>)
    ensures
        merged(a, b) == merged(b, a),
{
    assert(a.to_set().union(b.to_set()) =~= b.to_set().union(a.to_set()));
}

/// `(a & b) & c = a & (b & c)`.
pub proof fn and_is_associative(a: Seq<usize>, b: Seq<usize>, c: Seq<usize>)
    ensures
        merged(merged(a, b), c) == merged(a, merged(b, c)),
{
    lemma_merged(a, b);
    lemma_merged(b, c);
    assert(a.to_set().union(b.to_set()).union(c.to_set()) =~= a.to_set().union(
        b.to_set().union(c.to_set()),
    ));
}

/// `A + B = B + A`.
pub proof fn sum_is_commutative(a: Seq<Seq<usize>>, b: Seq<Seq<usize>>)
    ensures
        sum(a, b) == sum(b, a),
{
    assert(a.to_set().union(b.to_set()) =~= b.to_set().union(a.to_set()));
}

/// `(A + B) + C = A + (B + C)`.
pub proof fn sum_is_associative(a: Seq<Seq<usize>>, b: Seq<Seq<usize>>, c: Seq<Seq<usize>>)
    ensures
        sum(sum(a, b), c) == sum(a, sum(b, c)),
{
    lemma_sum(a, b);
    lemma_sum(b, c);
    assert(a.to_set().union(b.to_set()).union(c.to_set()) =~= a.to_set().union(
        b.to_set().union(c.to_set()),
    ));
}

/// `A + A = A` for every instantiable set in canonical order.
pub proof fn sum_is_idempotent(a: Seq<Seq<usize>>)
    requires
        sorted_by(a, part_lt()),
    ensures
        sum(a, a) == a,
{
    lemma_part_order();
    assert(a.to_set().union(a.to_set()) =~= a.to_set());
    lemma_canonical_of_ascending(a, part_lt());
}

/// `A & B = B & A`.
pub proof fn product_is_commutative(a: Seq<Seq<usize>>, b: Seq<Seq<usize>>)
    ensures
        product(a, b) == product(b, a),
{
    assert forall|x: Seq<usize>| pairings(a, b).contains(x) <==> pairings(b, a).contains(x) by {
        if pairings(a, b).contains(x) {
            let (p, q) = choose|p: Seq<usize>, q: Seq<usize>|
                #[trigger] a.contains(p) && #[trigger] b.contains(q) && x == merged(p, q);
            and_is_commutative(p, q);
            assert(b.contains(q) && a.contains(p) && x == merged(q, p));
        }
        if pairings(b, a).contains(x) {
            let (q, p) = choose|q: Seq<usize>, p: Seq<usize>|
                #[trigger] b.contains(q) && #[trigger] a.contains(p) && x == merged(q, p);
            and_is_commutative(q, p);
            assert(a.contains(p) && b.contains(q) && x == merged(p, q));
        }
    }
    assert(pairings(a, b) =~= pairings(b, a));
}

/// `(A & B) & C = A & (B & C)`.
pub proof fn product_is_associative(a: Seq<Seq<usize>>, b: Seq<Seq<usize>>, c: Seq<Seq<usize>>)
    ensures
        product(product(a, b), c) == product(a, product(b, c)),
{
    lemma_product(a, b);
    lemma_product(b, c);
    let ab = product(a, b);
    let bc = product(b, c);
    assert forall|x: Seq<usize>| pairings(ab, c).contains(x) <==> pairings(a, bc).contains(x) by {
        if pairings(ab, c).contains(x) {
            let (t, r) = choose|t: Seq<usize>, r: Seq<usize>|
                #[trigger] ab.contains(t) && #[trigger] c.contains(r) && x == merged(t, r);
            assert(ab.to_set().contains(t));
            let (p, q) = choose|p: Seq<usize>, q: Seq<usize>|
                #[trigger] a.contains(p) && #[trigger] b.contains(q) && t == merged(p, q);
            and_is_associative(p, q, r);
            assert(b.contains(q) && c.contains(r));
            assert(pairings(b, c).contains(merged(q, r)));
            assert(bc.to_set().contains(merged(q, r)));
            assert(a.contains(p) && bc.contains(merged(q, r)));
        }
        if pairings(a, bc).contains(x) {
            let (p, u) = choose|p: Seq<usize>, u: Seq<usize>|
                #[trigger] a.contains(p) && #[trigger] bc.contains(u) && x == merged(p, u);
            assert(bc.to_set().contains(u));
            let (q, r) = choose|q: Seq<usize>, r: Seq<usize>|
                #[trigger] b.contains(q) && #[trigger] c.contains(r) && u == merged(q, r);
            and_is_associative(p, q, r);
            assert(a.contains(p) && b.contains(q));
            assert(pairings(a, b).contains(merged(p, q)));
            assert(ab.to_set().contains(merged(p, q)));
            assert(ab.contains(merged(p, q)) && c.contains(r));
        }
    }
    assert(pairings(ab, c) =~= pairings(a, bc));
}

/// `A & (B + C) = (A & B) + (A & C)`.
pub proof fn product_distributes_over_sum(
    a: Seq<Seq<usize>>,
    b: Seq<Seq<usize>>,
    c: Seq<Seq<usize>>,
)
    ensures
        product(a, sum(b, c)) == sum(product(a, b), product(a, c)),
{
    lemma_sum(b, c);
    lemma_product(a, b);
    lemma_product(a, c);
    let s = sum(b, c);
    let both = pairings(a, b).union(pairings(a, c));
    assert forall|x: Seq<usize>| pairings(a, s).contains(x) <==> both.contains(x) by {
        if pairings(a, s).contains(x) {
            let (p, q) = choose|p: Seq<usize>, q: Seq<usize>|
                #[trigger] a.contains(p) && #[trigger] s.contains(q) && x == merged(p, q);
            assert(s.to_set().contains(q));
            if b.to_set().contains(q) {
                assert(a.contains(p) && b.contains(q));
            } else {
                assert(c.to_set().contains(q));
                assert(a.contains(p) && c.contains(q));
            }
        }
        if pairings(a, b).contains(x) {
            let (p, q) = choose|p: Seq<usize>, q: Seq<usize>|
                #[trigger] a.contains(p) && #[trigger] b.contains(q) && x == merged(p, q);
            assert(s.to_set().contains(q));
            assert(a.contains(p) && s.contains(q));
        }
        if pairings(a, c).contains(x) {
            let (p, q) = choose|p: Seq<usize>, q: Seq<usize>|
                #[trigger] a.contains(p) && #[trigger] c.contains(q) && x == merged(p, q);
            assert(s.to_set().contains(q));
            assert(a.contains(p) && s.contains(q));
        }
    }
    assert(pairings(a, s) =~= both);
}

/// `A - A` has no alternative.
pub proof fn difference_with_itself_is_empty(a: Seq<Seq<usize>>)
    ensures
        difference(a, a) == Seq::<Seq<usize>>::empty(),
{
    lemma_filter_none(a, absent_from(a));
}

/// `A - B = A` where `B` has no alternative.
pub proof fn difference_with_nothing_is_unchanged(a: Seq<Seq<usize>>)
    ensures
        difference(a, Seq::<Seq<usize>>::empty()) == a,
{
    lemma_filter_all(a, absent_from(Seq::<Seq<usize>>::empty()));
}

/// Every alternative of `A / B` is an alternative of `A` and holds every
/// index of at least one alternative of `B`.
pub proof fn restriction_covers(a: Seq<Seq<usize>>, b: Seq<Seq<usize>>, i: int)
    requires
        0 <= i < restriction(a, b).len(),
    ensures
        a.contains(restriction(a, b)[i]),
        covers_one_of(restriction(a, b)[i], b),
{
    a.lemma_filter_pred(covering(b), i);
    lemma_filter_ascending(a, covering(b), part_lt());
    assert(restriction(a, b).to_set().contains(restriction(a, b)[i]));
    assert(a.to_set().contains(restriction(a, b)[i]));
}

/// Making a canonical index list canonical again changes nothing.
pub proof fn normalized_is_idempotent(s: Seq<usize>)
    ensures
        normalized(normalized(s)) == normalized(s),
{
    lemma_normalized(s);
}

/// Making a canonical list of alternatives canonical again changes nothing.
pub proof fn arranged_is_idempotent(s: Seq<Seq<usize>>)
    ensures
        arranged(arranged(s.to_set()).to_set()) == arranged(s.to_set()),
{
    seq_to_set_is_finite(s);
    lemma_arranged(s.to_set());
}

/// `A ANDOR B` has exactly the terms `A`, `B` and `A & B`.
pub proof fn selections_of_two(a: Seq<Seq<usize>>, b: Seq<Seq<usize>>)
    ensures
        selections_of_all(seq![a, b]) == sum(sum(a, b), product(a, b)),
        selections_of_all(seq![a, b]).to_set() == a.to_set().union(b.to_set()).union(pairings(a, b)),
{
    let fs = seq![a, b];
    let e = Seq::<Seq<usize>>::empty();
    assert(fs.drop_last() =~= seq![a]);
    assert(seq![a].drop_last() =~= Seq::<Seq<Seq<usize>>>::empty());
    assert(selections_of_all(seq![a].drop_last()) == e);
    let r = selections_of_all(seq![a]);
    assert(r == sum(sum(e, a), product(e, a)));
    lemma_sum(e, a);
    lemma_product(e, a);
    lemma_sum(sum(e, a), product(e, a));
    assert(pairings(e, a) =~= Set::<Seq<usize>>::empty());
    assert(r.to_set() =~= a.to_set());
    assert(selections_of_all(fs) == sum(sum(r, b), product(r, b)));
    assert(sum(r, b) == sum(a, b));
    assert(pairings(r, b) =~= pairings(a, b)) by {
        assert forall|x: Seq<usize>| pairings(r, b).contains(x) <==> pairings(a, b).contains(x) by {
            if pairings(r, b).contains(x) {
                let (p, q) = choose|p: Seq<usize>, q: Seq<usize>|
                    #[trigger] r.contains(p) && #[trigger] b.contains(q) && x == merged(p, q);
                assert(r.to_set().contains(p));
                assert(a.contains(p) && b.contains(q));
            }
            if pairings(a, b).contains(x) {
                let (p, q) = choose|p: Seq<usize>, q: Seq<usize>|
                    #[trigger] a.contains(p) && #[trigger] b.contains(q) && x == merged(p, q);
                assert(a.to_set().contains(p));
                assert(r.contains(p) && b.contains(q));
            }
        }
    }
    lemma_sum(a, b);
    lemma_product(a, b);
    lemma_sum(sum(a, b), product(a, b));
}

/// One operand per index of `xs`, each the single alternative of that index alone.
pub open spec fn singles(xs: Seq<usize>) -> Seq<Seq<Seq<usize>>> {
    xs.map_values(|x: usize| seq![seq![x]])
}

/// `t` with the entity type `x` added.
pub open spec fn with_index(x: usize) -> spec_fn(Seq<usize>) -> Seq<usize> {
    |t: Seq<usize>| merged(t, seq![x])
}

/// What `ANDOR` yields for distinct singletons: canonical, non-empty
/// selections of the given indices, one fewer than `2^n` of them.
proof fn lemma_selections_of_singletons(xs: Seq<usize>)
    requires
        xs.no_duplicates(),
    ensures
        sorted_by(selections_of_all(singles(xs)), part_lt()),
        selections_of_all(singles(xs)).len() == pow2(xs.len()) - 1,
        forall|t: Seq<usize>| #[trigger]
            selections_of_all(singles(xs)).contains(t) ==> sorted_by(t, index_lt()) && t.len() > 0
                && t.to_set().subset_of(xs.to_set()),
    decreases xs.len(),
{
    let fs = singles(xs);
    let r = selections_of_all(fs);
    lemma_part_order();
    lemma_index_order();
    if xs.len() == 0 {
        lemma2_to64();
    } else {
        let ys = xs.drop_last();
        let x = xs.last();
        let one = seq![seq![x]];
        assert(fs.drop_last() =~= singles(ys));
        assert(fs.last() == one);
        lemma_selections_of_singletons(ys);
        let r0 = selections_of_all(singles(ys));
        assert(r == sum(sum(r0, one), product(r0, one)));
        let s1 = r0.to_set();
        let s2 = one.to_set();
        let s3 = pairings(r0, one);
        let f = with_index(x);
        lemma_sum(r0, one);
        lemma_product(r0, one);
        lemma_sum(sum(r0, one), product(r0, one));
        lemma_pow2_unfold(xs.len());
        seq_to_set_is_finite(r0);
        seq_to_set_is_finite(one);
        lemma_ascending_no_duplicates(r0, part_lt());
        r0.unique_seq_to_set();
        one.unique_seq_to_set();
        assert(one.contains(seq![x])) by {
            assert(one[0] == seq![x]);
        }
        assert(seq![x].contains(x)) by {
            assert(seq![x][0] == x);
        }
        assert(!ys.contains(x)) by {
            if ys.contains(x) {
                let k = choose|k: int| 0 <= k < ys.len() && ys[k] == x;
                assert(xs[k] == xs[xs.len() - 1]);
            }
        }
        assert forall|t: Seq<usize>| s1.contains(t) implies !t.contains(x) by {
            assert(r0.contains(t));
            if t.contains(x) {
                assert(t.to_set().contains(x));
                assert(ys.to_set().contains(x));
            }
        }
        assert forall|t: Seq<usize>| s1.contains(t) implies sorted_by(f(t), index_lt()) && f(
            t,
        ).to_set() == t.to_set().insert(x) by {
            lemma_merged(t, seq![x]);
            assert(t.to_set().union(seq![x].to_set()) =~= t.to_set().insert(x));
        }
        assert(s1.map(f) =~= s3) by {
            assert forall|u: Seq<usize>| s1.map(f).contains(u) <==> s3.contains(u) by {
                if s1.map(f).contains(u) {
                    let t = choose|t: Seq<usize>| s1.contains(t) && u == f(t);
                    assert(r0.contains(t) && one.contains(seq![x]) && u == merged(t, seq![x]));
                }
                if s3.contains(u) {
                    let (p, q) = choose|p: Seq<usize>, q: Seq<usize>|
                        #[trigger] r0.contains(p) && #[trigger] one.contains(q) && u == merged(p, q);
                    let k = choose|k: int| 0 <= k < one.len() && one[k] == q;
                    assert(q == seq![x]);
                    assert(s1.contains(p) && u == f(p));
                }
            }
        }
        assert(injective_on(f, s1)) by {
            assert forall|t1: Seq<usize>, t2: Seq<usize>|
                s1.contains(t1) && s1.contains(t2) && #[trigger] f(t1) == #[trigger] f(
                    t2,
                ) implies t1 == t2 by {
                assert(r0.contains(t1) && r0.contains(t2));
                assert(t1.to_set().insert(x) == t2.to_set().insert(x));
                assert forall|e: usize| t1.to_set().contains(e) <==> t2.to_set().contains(e) by {
                    if e != x {
                        assert(t1.to_set().insert(x).contains(e) <==> t1.to_set().contains(e));
                        assert(t2.to_set().insert(x).contains(e) <==> t2.to_set().contains(e));
                    }
                }
                assert(t1.to_set() =~= t2.to_set());
                lemma_ascending_unique(t1, t2, index_lt());
            }
        }
        lemma_map_size(s1, s3, f);
        assert(s1.disjoint(s2)) by {
            assert forall|t: Seq<usize>| s1.contains(t) implies !s2.contains(t) by {
                if s2.contains(t) {
                    let k = choose|k: int| 0 <= k < one.len() && one[k] == t;
                    assert(t == seq![x]);
                }
            }
        }
        assert((s1 + s2).disjoint(s3)) by {
            assert forall|u: Seq<usize>| s3.contains(u) implies !(s1 + s2).contains(u) by {
                let t = choose|t: Seq<usize>| s1.contains(t) && u == f(t);
                assert(r0.contains(t));
                assert(u.to_set().contains(x));
                assert(u.contains(x));
                assert(t.len() > 0);
                assert(u.to_set().contains(t[0])) by {
                    assert(t.to_set().contains(t[0]));
                }
                assert(t[0] != x) by {
                    assert(t.contains(t[0]));
                }
                if s2.contains(u) {
                    let k = choose|k: int| 0 <= k < one.len() && one[k] == u;
                    assert(u == seq![x]);
                    let m = choose|m: int| 0 <= m < u.len() && u[m] == t[0];
                }
            }
        }
        lemma_set_disjoint_lens(s1, s2);
        lemma_set_disjoint_lens(s1 + s2, s3);
        assert(r.to_set() == (s1 + s2) + s3);
        assert forall|t: Seq<usize>| #[trigger] r.contains(t) implies sorted_by(t, index_lt())
            && t.len() > 0 && t.to_set().subset_of(xs.to_set()) by {
            assert(r.to_set().contains(t));
            assert(xs.to_set().contains(x)) by {
                assert(xs[xs.len() - 1] == x);
            }
            assert(ys.to_set().subset_of(xs.to_set())) by {
                assert forall|e: usize| ys.to_set().contains(e) implies xs.to_set().contains(e) by {
                    let k = choose|k: int| 0 <= k < ys.len() && ys[k] == e;
                    assert(xs[k] == e);
                }
            }
            if s1.contains(t) {
                assert(r0.contains(t));
            } else if s2.contains(t) {
                let k = choose|k: int| 0 <= k < one.len() && one[k] == t;
                assert(t == seq![x]);
                assert(t.to_set() =~= Set::<usize>::empty().insert(x));
            } else {
                assert(s3.contains(t));
                let t0 = choose|t0: Seq<usize>| s1.contains(t0) && t == f(t0);
                assert(r0.contains(t0));
                assert(t.to_set().contains(x));
                assert(t.contains(x));
            }
        }
    }
}

/// `ANDOR` of `n` operands, each a single entity type and no two the same,
/// has `2^n - 1` alternatives.
pub proof fn selections_of_singletons_count(xs: Seq<usize>)
    requires
        xs.no_duplicates(),
    ensures
        selections_of_all(singles(xs)).len() == pow2(xs.len()) - 1,
{
    lemma_selections_of_singletons(xs);
}

/// `picks` selects operands: for each operand it says which of its
/// alternatives is taken, or `-1` for none, and it takes at least one.
pub open spec fn is_selection(fs: Seq<Seq<Seq<usize>>>, picks: Seq<int>) -> bool {
    &&& picks.len() == fs.len()
    &&& forall|i: int| 0 <= i < fs.len() ==> -1 <= #[trigger] picks[i] < fs[i].len()
    &&& exists|i: int| 0 <= i < fs.len() && #[trigger] picks[i] >= 0
}

/// The indices of the alternatives that `picks` takes of the first `n` operands.
pub open spec fn selected_indices(fs: Seq<Seq<Seq<usize>>>, picks: Seq<int>, n: nat) -> Set<usize>
    decreases n,
{
    if n == 0 {
        Set::empty()
    } else {
        let before = selected_indices(fs, picks, (n - 1) as nat);
        if picks[n - 1] >= 0 {
            before.union(fs[n - 1][picks[n - 1]].to_set())
        } else {
            before
        }
    }
}

/// The alternative that a selection stands for: the alternatives taken, joined by `&`.
pub open spec fn selection_part(fs: Seq<Seq<Seq<usize>>>, picks: Seq<int>) -> Seq<usize> {
    canonical(selected_indices(fs, picks, fs.len()), index_lt())
}

/// What is selected of the first operands does not depend on what follows them.
proof fn lemma_selected_prefix(
    fs: Seq<Seq<Seq<usize>>>,
    picks: Seq<int>,
    gs: Seq<Seq<Seq<usize>>>,
    p: Seq<int>,
    n: nat,
)
    requires
        n <= fs.len(),
        n <= gs.len(),
        n <= picks.len(),
        n <= p.len(),
        forall|i: int| 0 <= i < n ==> fs[i] == gs[i] && picks[i] == p[i],
    ensures
        selected_indices(fs, picks, n) == selected_indices(gs, p, n),
        selected_indices(fs, picks, n).finite(),
    decreases n,
{
    if n > 0 {
        lemma_selected_prefix(fs, picks, gs, p, (n - 1) as nat);
        if picks[n - 1] >= 0 {
            seq_to_set_is_finite(fs[n - 1][picks[n - 1]]);
        }
    }
}

/// Where nothing is taken, nothing is selected.
proof fn lemma_selected_nothing(fs: Seq<Seq<Seq<usize>>>, picks: Seq<int>, n: nat)
    requires
        n <= picks.len(),
        forall|i: int| 0 <= i < n ==> picks[i] < 0,
    ensures
        selected_indices(fs, picks, n) == Set::<usize>::empty(),
    decreases n,
{
    if n > 0 {
        lemma_selected_nothing(fs, picks, (n - 1) as nat);
    }
}

/// An alternative of `ANDOR` stands for a selection of operands.
proof fn lemma_selection_of(fs: Seq<Seq<Seq<usize>>>, t: Seq<usize>) -> (picks: Seq<int>)
    requires
        operands_wf(fs),
        selections_of_all(fs).contains(t),
    ensures
        is_selection(fs, picks),
        t == selection_part(fs, picks),
    decreases fs.len(),
{
    lemma_index_order();
    let n = fs.len();
    assert(n > 0) by {
        if n == 0 {
            assert(selections_of_all(fs) =~= Seq::<Seq<usize>>::empty());
        }
    }
    let gs = fs.drop_last();
    let f = fs.last();
    let r = selections_of_all(gs);
    lemma_sum(r, f);
    lemma_product(r, f);
    lemma_sum(sum(r, f), product(r, f));
    assert(selections_of_all(fs).to_set().contains(t));
    assert(operands_wf(gs)) by {
        assert forall|i: int| 0 <= i < gs.len() implies super::instantiables::parts_wf(
            #[trigger] gs[i],
        ) by {
            assert(gs[i] == fs[i]);
        }
    }
    if r.to_set().contains(t) {
        assert(r.contains(t));
        let p = lemma_selection_of(gs, t);
        let picks = p.push(-1);
        let k = choose|i: int| 0 <= i < gs.len() && #[trigger] p[i] >= 0;
        assert(picks[k] >= 0);
        assert forall|i: int| 0 <= i < fs.len() implies -1 <= #[trigger] picks[i] < fs[i].len() by {
            if i < gs.len() {
                assert(picks[i] == p[i]);
                assert(fs[i] == gs[i]);
            }
        }
        lemma_selected_prefix(fs, picks, gs, p, (n - 1) as nat);
        picks
    } else if f.to_set().contains(t) {
        let j = choose|j: int| 0 <= j < f.len() && f[j] == t;
        let none = Seq::new((n - 1) as nat, |i: int| -1int);
        let picks = none.push(j);
        assert(picks[n - 1] >= 0);
        assert forall|i: int| 0 <= i < fs.len() implies -1 <= #[trigger] picks[i] < fs[i].len() by {
        }
        lemma_selected_nothing(fs, picks, (n - 1) as nat);
        assert(selected_indices(fs, picks, n) =~= t.to_set());
        assert(super::instantiables::parts_wf(fs[n - 1]));
        assert(sorted_by(f[j], index_lt()));
        lemma_canonical_of_ascending(t, index_lt());
        picks
    } else {
        assert(pairings(r, f).contains(t));
        let (a, q) = choose|a: Seq<usize>, q: Seq<usize>|
            #[trigger] r.contains(a) && #[trigger] f.contains(q) && t == merged(a, q);
        let j = choose|j: int| 0 <= j < f.len() && f[j] == q;
        let p = lemma_selection_of(gs, a);
        let picks = p.push(j);
        assert(picks[n - 1] >= 0);
        assert forall|i: int| 0 <= i < fs.len() implies -1 <= #[trigger] picks[i] < fs[i].len() by {
            if i < gs.len() {
                assert(picks[i] == p[i]);
                assert(fs[i] == gs[i]);
            }
        }
        lemma_selected_prefix(fs, picks, gs, p, (n - 1) as nat);
        lemma_canonical(selected_indices(gs, p, gs.len()), index_lt());
        assert(a.to_set() == selected_indices(gs, p, gs.len()));
        picks
    }
}

/// What a selection of operands stands for is an alternative of `ANDOR`.
proof fn lemma_selection_is_there(fs: Seq<Seq<Seq<usize>>>, picks: Seq<int>)
    requires
        operands_wf(fs),
        is_selection(fs, picks),
    ensures
        selections_of_all(fs).contains(selection_part(fs, picks)),
    decreases fs.len(),
{
    lemma_index_order();
    let n = fs.len();
    let gs = fs.drop_last();
    let f = fs.last();
    let p = picks.drop_last();
    let j = picks.last();
    let r = selections_of_all(gs);
    let t = selection_part(fs, picks);
    lemma_sum(r, f);
    lemma_product(r, f);
    lemma_sum(sum(r, f), product(r, f));
    assert(-1 <= picks[n - 1] < fs[n - 1].len());
    assert(operands_wf(gs)) by {
        assert forall|i: int| 0 <= i < gs.len() implies super::instantiables::parts_wf(
            #[trigger] gs[i],
        ) by {
            assert(gs[i] == fs[i]);
        }
    }
    lemma_selected_prefix(fs, picks, gs, p, (n - 1) as nat);
    let taken = exists|i: int| 0 <= i < gs.len() && #[trigger] p[i] >= 0;
    if taken {
        assert forall|i: int| 0 <= i < gs.len() implies -1 <= #[trigger] p[i] < gs[i].len() by {
            assert(p[i] == picks[i]);
            assert(gs[i] == fs[i]);
        }
        assert(is_selection(gs, p));
        lemma_selection_is_there(gs, p);
        let a = selection_part(gs, p);
        assert(r.contains(a));
        if j < 0 {
            assert(t == a);
            assert(r.to_set().contains(t));
        } else {
            lemma_canonical(selected_indices(gs, p, gs.len()), index_lt());
            assert(f.contains(f[j]));
            assert(t == merged(a, f[j]));
            assert(pairings(r, f).contains(t));
            assert(product(r, f).to_set().contains(t));
        }
    } else {
        assert forall|i: int| 0 <= i < n - 1 implies picks[i] < 0 by {
            assert(p[i] == picks[i]);
        }
        lemma_selected_nothing(fs, picks, (n - 1) as nat);
        let k = choose|i: int| 0 <= i < fs.len() && #[trigger] picks[i] >= 0;
        assert(k == n - 1);
        assert(selected_indices(fs, picks, n) =~= f[j].to_set());
        assert(super::instantiables::parts_wf(fs[n - 1]));
        assert(sorted_by(f[j], index_lt()));
        lemma_canonical_of_ascending(f[j], index_lt());
        assert(f.contains(f[j]));
        assert(f.to_set().contains(t));
    }
    assert(selections_of_all(fs).to_set().contains(t));
}

/// `ANDOR` is the sum over every non-empty selection of operands: its
/// alternatives are exactly those that one gets by taking an alternative
/// of each operand of a non-empty selection and joining what was taken.
pub proof fn selections_are_all_non_empty_selections(fs: Seq<Seq<Seq<usize>>>, t: Seq<usize>)
    requires
        operands_wf(fs),
    ensures
        selections_of_all(fs).contains(t) <==> exists|picks: Seq<int>|
            is_selection(fs, picks) && t == #[trigger] selection_part(fs, picks),
{
    if selections_of_all(fs).contains(t) {
        let picks = lemma_selection_of(fs, t);
        assert(is_selection(fs, picks) && t == selection_part(fs, picks));
    }
    if exists|picks: Seq<int>| is_selection(fs, picks) && t == #[trigger] selection_part(fs, picks) {
        let picks = choose|picks: Seq<int>|
            is_selection(fs, picks) && t == #[trigger] selection_part(fs, picks);
        lemma_selection_is_there(fs, picks);
    }
}

} // verus!
