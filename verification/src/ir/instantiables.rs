//! Instantiable sets: the alternatives among which an instance of an
//! entity chooses, each a partial complex entity.

use super::arrange::dedup_parts;
use super::arrange::sort_parts;
use super::complex_entity::index_lt;
use super::complex_entity::lemma_index_order;
use super::complex_entity::lemma_part_order;
use super::complex_entity::lemma_same_multiset_same_set;
use super::complex_entity::merged;
use super::complex_entity::part_lt;
use super::complex_entity::PartialComplexEntity;
use super::order::canonical;
use super::order::lemma_canonical;
use super::order::lemma_canonical_of_ascending;
use super::order::lemma_dedup_sorted;
use vstd::prelude::*;
use vstd::relations::sorted_by;
use vstd::seq_lib::seq_to_set_distributes_over_add;
use vstd::seq_lib::seq_to_set_is_finite;
use vstd::std_specs::cmp::PartialEqSpecImpl;
use vstd::std_specs::ops::AddSpecImpl;
use vstd::std_specs::ops::BitAndSpecImpl;
use vstd::std_specs::ops::DivSpecImpl;
use vstd::std_specs::ops::SubSpecImpl;

verus! {

/// The index lists of a sequence of partial complex entities.
pub open spec fn part_views(s: Seq<PartialComplexEntity>) -> Seq<Seq<usize>> {
    s.map_values(|p: PartialComplexEntity| p@)
}

/// The canonical list of the alternatives in `s`.
pub open spec fn arranged(s: Set<Seq<usize>>) -> Seq<Seq<usize>> {
    canonical(s, part_lt())
}

/// `A + B`: every alternative of either operand.
pub open spec fn sum(a: Seq<Seq<usize>>, b: Seq<Seq<usize>>) -> Seq<Seq<usize>> {
    arranged(a.to_set().union(b.to_set()))
}

/// Every `p & q` with `p` among the first `i` alternatives of `a`, or the
/// one after them joined with one of the first `j` alternatives of `b`.
pub open spec fn pairings_before(
    a: Seq<Seq<usize>>,
    b: Seq<Seq<usize>>,
    i: int,
    j: int,
) -> Set<Seq<usize>> {
    Set::new(
        |x: Seq<usize>|
            exists|k: int, l: int|
                0 <= k < a.len() && 0 <= l < b.len() && (k < i || (k == i && l < j)) && x
                    == merged(#[trigger] a[k], #[trigger] b[l]),
    )
}

/// Every `p & q` with `p` an alternative of `a` and `q` one of `b`.
pub open spec fn pairings(a: Seq<Seq<usize>>, b: Seq<Seq<usize>>) -> Set<Seq<usize>> {
    Set::new(
        |x: Seq<usize>|
            exists|p: Seq<usize>, q: Seq<usize>|
                #[trigger] a.contains(p) && #[trigger] b.contains(q) && x == merged(p, q),
    )
}

/// `A & B`: each alternative of `a` joined with each alternative of `b`.
pub open spec fn product(a: Seq<Seq<usize>>, b: Seq<Seq<usize>>) -> Seq<Seq<usize>> {
    arranged(pairings(a, b))
}

/// The test that `p` is no alternative of `b`.
pub open spec fn absent_from(b: Seq<Seq<usize>>) -> spec_fn(Seq<usize>) -> bool {
    |p: Seq<usize>| !b.contains(p)
}

/// `A - B`: the alternatives of `a` that are not alternatives of `b`, in their order.
pub open spec fn difference(a: Seq<Seq<usize>>, b: Seq<Seq<usize>>) -> Seq<Seq<usize>> {
    a.filter(absent_from(b))
}

/// Every index of `q` occurs in `p`.
pub open spec fn covers(p: Seq<usize>, q: Seq<usize>) -> bool {
    forall|j: int| 0 <= j < q.len() ==> p.contains(#[trigger] q[j])
}

/// `p` covers at least one alternative of `b`.
pub open spec fn covers_one_of(p: Seq<usize>, b: Seq<Seq<usize>>) -> bool {
    exists|j: int| 0 <= j < b.len() && covers(p, #[trigger] b[j])
}

/// The test that `p` covers at least one alternative of `b`.
pub open spec fn covering(b: Seq<Seq<usize>>) -> spec_fn(Seq<usize>) -> bool {
    |p: Seq<usize>| covers_one_of(p, b)
}

/// `A / B`: the alternatives of `a` that cover some alternative of `b`, in their order.
pub open spec fn restriction(a: Seq<Seq<usize>>, b: Seq<Seq<usize>>) -> Seq<Seq<usize>> {
    a.filter(covering(b))
}

/// `ONEOF(A1, .., An)`: `A1 + .. + An`, nothing for no operand.
pub open spec fn sum_of_all(fs: Seq<Seq<Seq<usize>>>) -> Seq<Seq<usize>>
    decreases fs.len(),
{
    if fs.len() == 0 {
        Seq::empty()
    } else {
        sum(sum_of_all(fs.drop_last()), fs.last())
    }
}

/// `A1 AND .. AND An`: `A1 & .. & An`.
pub open spec fn product_of_all(fs: Seq<Seq<Seq<usize>>>) -> Seq<Seq<usize>>
    decreases fs.len(),
{
    if fs.len() == 0 {
        Seq::empty()
    } else if fs.len() == 1 {
        fs[0]
    } else {
        product(product_of_all(fs.drop_last()), fs.last())
    }
}

/// `A1 ANDOR .. ANDOR An`: the sum of `&` over every non-empty selection
/// of operands. A further operand `A` turns `R` into `R + A + (R & A)`:
/// the selections without `A`, `A` alone, and `A` joined to each of them.
pub open spec fn selections_of_all(fs: Seq<Seq<Seq<usize>>>) -> Seq<Seq<usize>>
    decreases fs.len(),
{
    if fs.len() == 0 {
        Seq::empty()
    } else {
        let r = selections_of_all(fs.drop_last());
        sum(sum(r, fs.last()), product(r, fs.last()))
    }
}

/// The alternatives of a sequence of instantiable sets.
pub open spec fn operand_views(s: Seq<Instantiables>) -> Seq<Seq<Seq<usize>>> {
    s.map_values(|p: Instantiables| p@)
}

/// Instantiable subtypes as a list of partial complex entities, e.g. `[A, B & C]`.
#[derive(Debug)]
pub struct Instantiables {
    /// Sorted and non-duplicated list of partial complex entities
    pub parts: Vec<PartialComplexEntity>,
}

impl View for Instantiables {
    type V = Seq<Seq<usize>>;

    open spec fn view(&self) -> Seq<Seq<usize>> {
        part_views(self.parts@)
    }
}

/// Every alternative lists its indices in strictly ascending order.
pub open spec fn parts_wf(s: Seq<Seq<usize>>) -> bool {
    forall|i: int| 0 <= i < s.len() ==> sorted_by(#[trigger] s[i], index_lt())
}

impl Instantiables {
    /// The alternatives are strictly ascending, and so are the indices of each.
    pub open spec fn wf(&self) -> bool {
        sorted_by(self@, part_lt()) && parts_wf(self@)
    }

    /// Sorts the alternatives and drops repeats.
    fn canonicalize(v: Vec<PartialComplexEntity>) -> (r: Self)
        ensures
            r@ == arranged(part_views(v@).to_set()),
            sorted_by(r@, part_lt()),
            r@.to_set() == part_views(v@).to_set(),
    {
        let ghost before = part_views(v@);
        let s = sort_parts(v);
        let ghost sorted = part_views(s@);
        let d = dedup_parts(s);
        proof {
            lemma_part_order();
            lemma_same_multiset_same_set(sorted, before);
            lemma_dedup_sorted(sorted, part_lt());
            lemma_canonical_of_ascending(part_views(d@), part_lt());
        }
        Instantiables { parts: d }
    }

    /// The instantiable set with the given alternatives, whatever their
    /// order and however often each is listed.
    pub fn new(pces: &[PartialComplexEntity]) -> (r: Self)
        ensures
            r@ == arranged(part_views(pces@).to_set()),
            sorted_by(r@, part_lt()),
            parts_wf(part_views(pces@)) ==> r.wf(),
    {
        let mut v: Vec<PartialComplexEntity> = Vec::new();
        let mut i: usize = 0;
        while i < pces.len()
            invariant
                i <= pces.len(),
                part_views(v@) == part_views(pces@).take(i as int),
            decreases pces.len() - i,
        {
            let ghost prior = v@;
            let p = pces[i].clone();
            v.push(p);
            proof {
                assert(v@ == prior.push(p));
                assert(part_views(pces@)[i as int] == p@);
                assert(part_views(v@) =~= part_views(prior).push(p@));
                assert(part_views(pces@).take(i + 1) =~= part_views(pces@).take(i as int).push(p@));
            }
            i += 1;
        }
        proof {
            assert(part_views(pces@).take(i as int) =~= part_views(pces@));
        }
        let r = Self::canonicalize(v);
        proof {
            lemma_members_wf(r@, part_views(pces@));
        }
        r
    }

    /// The instantiable set whose one alternative is the entity type `index` alone.
    pub fn single(index: usize) -> (r: Self)
        ensures
            r@ == seq![seq![index]],
            r.wf(),
    {
        let mut indices: Vec<usize> = Vec::new();
        indices.push(index);
        let mut parts: Vec<PartialComplexEntity> = Vec::new();
        parts.push(PartialComplexEntity { indices });
        let r = Instantiables { parts };
        proof {
            assert(r@ =~= seq![seq![index]]);
        }
        r
    }
}

/// If every member of `r` is a member of `s`, and the members of `s` are
/// well formed, so are those of `r`.
pub proof fn lemma_members_wf(r: Seq<Seq<usize>>, s: Seq<Seq<usize>>)
    requires
        r.to_set().subset_of(s.to_set()),
    ensures
        parts_wf(s) ==> parts_wf(r),
{
    if parts_wf(s) {
        assert forall|i: int| 0 <= i < r.len() implies sorted_by(#[trigger] r[i], index_lt()) by {
            assert(r.to_set().contains(r[i]));
            assert(s.contains(r[i]));
        }
    }
}

impl Default for Instantiables {
    fn default() -> (r: Self)
        ensures
            r@ == Seq::<Seq<usize>>::empty(),
            r.wf(),
    {
        let r = Instantiables { parts: Vec::new() };
        proof {
            assert(r@ =~= Seq::<Seq<usize>>::empty());
        }
        r
    }
}

impl Clone for Instantiables {
    fn clone(&self) -> (r: Self)
        ensures
            r@ == self@,
    {
        let mut v: Vec<PartialComplexEntity> = Vec::new();
        let mut i: usize = 0;
        while i < self.parts.len()
            invariant
                i <= self.parts.len(),
                part_views(v@) == self@.take(i as int),
            decreases self.parts.len() - i,
        {
            let ghost prior = v@;
            let p = self.parts[i].clone();
            v.push(p);
            proof {
                assert(v@ == prior.push(p));
                assert(self@[i as int] == p@);
                assert(part_views(v@) =~= part_views(prior).push(p@));
                assert(self@.take(i + 1) =~= self@.take(i as int).push(p@));
            }
            i += 1;
        }
        proof {
            assert(self@.take(i as int) =~= self@);
        }
        Instantiables { parts: v }
    }
}

impl PartialEq for Instantiables {
    fn eq(&self, other: &Self) -> (r: bool) {
        let r = self.parts == other.parts;
        proof {
            if r {
                assert forall|i: int| 0 <= i < self@.len() implies self@[i] == other@[i] by {
                    assert(vstd::std_specs::cmp::PartialEqSpec::eq_spec(
                        &self.parts[i],
                        &other.parts[i],
                    ));
                }
                assert(self@ =~= other@);
            } else if self@ == other@ {
                assert(self@.len() == self.parts.len());
                assert(other@.len() == other.parts.len());
                assert forall|i: int| 0 <= i < self.parts.len() implies #[trigger] vstd::std_specs::cmp::PartialEqSpec::eq_spec(
                    &self.parts[i],
                    &other.parts[i],
                ) by {
                    assert(self@[i] == other@[i]);
                }
            }
        }
        r
    }
}

impl Eq for Instantiables {

}

impl PartialEqSpecImpl for Instantiables {
    open spec fn obeys_eq_spec() -> bool {
        true
    }

    open spec fn eq_spec(&self, other: &Self) -> bool {
        self@ == other@
    }
}

/// Keeping some elements of an ascending sequence, in their order, leaves
/// it ascending, and every element kept was there before.
pub proof fn lemma_filter_ascending<T>(s: Seq<T>, pred: spec_fn(T) -> bool, lt: spec_fn(T, T) -> bool)
    ensures
        s.filter(pred).to_set().subset_of(s.to_set()),
        sorted_by(s, lt) ==> sorted_by(s.filter(pred), lt),
    decreases s.len(),
{
    reveal(Seq::filter);
    let r = s.filter(pred);
    if s.len() > 0 {
        let d = s.drop_last();
        let r0 = d.filter(pred);
        lemma_filter_ascending(d, pred, lt);
        assert forall|x: T| r.to_set().contains(x) implies s.to_set().contains(x) by {
            let i = choose|i: int| 0 <= i < r.len() && r[i] == x;
            if i < r0.len() {
                assert(r0.to_set().contains(r0[i]));
                assert(d.contains(x));
                let k = choose|k: int| 0 <= k < d.len() && d[k] == x;
                assert(s[k] == x);
            } else {
                assert(s[s.len() - 1] == x);
            }
        }
        if sorted_by(s, lt) {
            assert forall|i: int, j: int| 0 <= i < j < d.len() implies #[trigger] lt(d[i], d[j]) by {
                assert(lt(s[i], s[j]));
            }
            assert forall|i: int, j: int| 0 <= i < j < r.len() implies #[trigger] lt(r[i], r[j]) by {
                if j < r0.len() {
                    assert(lt(r0[i], r0[j]));
                } else {
                    assert(r0.to_set().contains(r0[i]));
                    assert(d.contains(r0[i]));
                    let k = choose|k: int| 0 <= k < d.len() && d[k] == r0[i];
                    assert(lt(s[k], s[s.len() - 1]));
                }
            }
        }
    }
}

/// The views of a concatenation are the concatenation of the views.
proof fn lemma_part_views_add(a: Seq<PartialComplexEntity>, b: Seq<PartialComplexEntity>)
    ensures
        part_views(a + b) == part_views(a) + part_views(b),
{
    assert(part_views(a + b) =~= part_views(a) + part_views(b));
}

/// The views after a push are the views before it, and the view of what was pushed.
proof fn lemma_part_views_push(a: Seq<PartialComplexEntity>, p: PartialComplexEntity)
    ensures
        part_views(a.push(p)) == part_views(a).push(p@),
{
    assert(part_views(a.push(p)) =~= part_views(a).push(p@));
}

/// The views after a push are the views before it, and the view of what was pushed.
pub proof fn lemma_operand_views_push(a: Seq<Instantiables>, p: Instantiables)
    ensures
        operand_views(a.push(p)) == operand_views(a).push(p@),
{
    assert(operand_views(a.push(p)) =~= operand_views(a).push(p@));
}

/// Every pairing is the canonical list of a finite set of indices.
pub proof fn lemma_pairings_wf(a: Seq<Seq<usize>>, b: Seq<Seq<usize>>, r: Seq<Seq<usize>>)
    requires
        r.to_set().subset_of(pairings(a, b)),
    ensures
        parts_wf(r),
{
    assert forall|i: int| 0 <= i < r.len() implies sorted_by(#[trigger] r[i], index_lt()) by {
        assert(r.to_set().contains(r[i]));
        let (p, q) = choose|p: Seq<usize>, q: Seq<usize>|
            #[trigger] a.contains(p) && #[trigger] b.contains(q) && r[i] == merged(p, q);
        lemma_merged(p, q);
    }
}

/// Once every alternative of `a` has been paired, all pairings are there.
pub proof fn lemma_pairings_before_all(a: Seq<Seq<usize>>, b: Seq<Seq<usize>>)
    ensures
        pairings_before(a, b, a.len() as int, 0) == pairings(a, b),
{
    let l = pairings_before(a, b, a.len() as int, 0);
    let r = pairings(a, b);
    assert forall|x: Seq<usize>| l.contains(x) <==> r.contains(x) by {
        if l.contains(x) {
            let (k, m) = choose|k: int, m: int|
                0 <= k < a.len() && 0 <= m < b.len() && (k < a.len() || (k == a.len() && m < 0))
                    && x == merged(#[trigger] a[k], #[trigger] b[m]);
            assert(a.contains(a[k]) && b.contains(b[m]));
        }
        if r.contains(x) {
            let (p, q) = choose|p: Seq<usize>, q: Seq<usize>|
                #[trigger] a.contains(p) && #[trigger] b.contains(q) && x == merged(p, q);
            let k = choose|k: int| 0 <= k < a.len() && a[k] == p;
            let m = choose|m: int| 0 <= m < b.len() && b[m] == q;
            assert(x == merged(a[k], b[m]));
        }
    }
    assert(l =~= r);
}

/// `a & b` is strictly ascending and holds exactly the indices of `a` and of `b`.
pub proof fn lemma_merged(a: Seq<usize>, b: Seq<usize>)
    ensures
        sorted_by(merged(a, b), index_lt()),
        merged(a, b).to_set() == a.to_set().union(b.to_set()),
{
    lemma_index_order();
    seq_to_set_is_finite(a);
    seq_to_set_is_finite(b);
    lemma_canonical(a.to_set().union(b.to_set()), index_lt());
}

impl PartialComplexEntity {
    /// Whether `index` is one of the entity types.
    pub fn contains(&self, index: usize) -> (r: bool)
        ensures
            r == self@.contains(index),
    {
        let mut i: usize = 0;
        while i < self.indices.len()
            invariant
                i <= self.indices.len(),
                forall|k: int| 0 <= k < i ==> self@[k] != index,
            decreases self.indices.len() - i,
        {
            if self.indices[i] == index {
                return true;
            }
            i += 1;
        }
        false
    }

    /// Whether every entity type of `q` is one of `self`.
    pub fn covers(&self, q: &PartialComplexEntity) -> (r: bool)
        ensures
            r == covers(self@, q@),
    {
        let mut j: usize = 0;
        while j < q.indices.len()
            invariant
                j <= q.indices.len(),
                forall|k: int| 0 <= k < j ==> self@.contains(#[trigger] q@[k]),
            decreases q.indices.len() - j,
        {
            if !self.contains(q.indices[j]) {
                return false;
            }
            j += 1;
        }
        true
    }
}

impl Instantiables {
    /// Whether `p` is one of the alternatives.
    pub fn contains(&self, p: &PartialComplexEntity) -> (r: bool)
        ensures
            r == self@.contains(p@),
    {
        let mut i: usize = 0;
        while i < self.parts.len()
            invariant
                i <= self.parts.len(),
                forall|k: int| 0 <= k < i ==> self@[k] != p@,
            decreases self.parts.len() - i,
        {
            if self.parts[i] == *p {
                assert(self@[i as int] == p@);
                return true;
            }
            assert(self@[i as int] != p@);
            i += 1;
        }
        false
    }

    /// Whether `p` covers at least one of the alternatives.
    pub fn covered_by(&self, p: &PartialComplexEntity) -> (r: bool)
        ensures
            r == covers_one_of(p@, self@),
    {
        let mut j: usize = 0;
        while j < self.parts.len()
            invariant
                j <= self.parts.len(),
                forall|k: int| 0 <= k < j ==> !covers(p@, #[trigger] self@[k]),
            decreases self.parts.len() - j,
        {
            if p.covers(&self.parts[j]) {
                assert(covers(p@, self@[j as int]));
                return true;
            }
            assert(!covers(p@, self@[j as int]));
            j += 1;
        }
        false
    }
}

impl AddSpecImpl for Instantiables {
    open spec fn obeys_add_spec() -> bool {
        false
    }

    open spec fn add_req(self, rhs: Self) -> bool {
        true
    }

    open spec fn add_spec(self, rhs: Self) -> Self {
        self
    }
}

impl core::ops::Add for Instantiables {
    type Output = Self;

    /// `[A, B] + [C, D] = [A, B, C, D]`
    fn add(self, rhs: Instantiables) -> (r: Self)
        ensures
            r@ == sum(self@, rhs@),
            sorted_by(r@, part_lt()),
            parts_wf(self@) && parts_wf(rhs@) ==> r.wf(),
    {
        let mut lhs = self;
        let mut rhs = rhs;
        let ghost a = lhs.parts@;
        let ghost b = rhs.parts@;
        lhs.parts.append(&mut rhs.parts);
        proof {
            lemma_part_views_add(a, b);
            seq_to_set_distributes_over_add(part_views(a), part_views(b));
        }
        let r = Self::canonicalize(lhs.parts);
        proof {
            lemma_members_wf(r@, part_views(a) + part_views(b));
        }
        r
    }
}

impl AddSpecImpl<PartialComplexEntity> for Instantiables {
    open spec fn obeys_add_spec() -> bool {
        false
    }

    open spec fn add_req(self, rhs: PartialComplexEntity) -> bool {
        true
    }

    open spec fn add_spec(self, rhs: PartialComplexEntity) -> Self {
        self
    }
}

impl core::ops::Add<PartialComplexEntity> for Instantiables {
    type Output = Self;

    /// `[A, B] + C = [A, B, C]`
    fn add(self, rhs: PartialComplexEntity) -> (r: Self)
        ensures
            r@ == sum(self@, seq![rhs@]),
            sorted_by(r@, part_lt()),
            parts_wf(self@) && rhs.wf() ==> r.wf(),
    {
        let mut lhs = self;
        let ghost a = lhs.parts@;
        let ghost q = rhs@;
        lhs.parts.push(rhs);
        proof {
            lemma_part_views_push(a, rhs);
            assert(part_views(a).push(q) =~= part_views(a) + seq![q]);
            seq_to_set_distributes_over_add(part_views(a), seq![q]);
        }
        let r = Self::canonicalize(lhs.parts);
        proof {
            lemma_members_wf(r@, part_views(a) + seq![q]);
        }
        r
    }
}

impl AddSpecImpl<Instantiables> for PartialComplexEntity {
    open spec fn obeys_add_spec() -> bool {
        false
    }

    open spec fn add_req(self, rhs: Instantiables) -> bool {
        true
    }

    open spec fn add_spec(self, rhs: Instantiables) -> Instantiables {
        rhs
    }
}

impl core::ops::Add<Instantiables> for PartialComplexEntity {
    type Output = Instantiables;

    /// `A + [B, C] = [A, B, C]`
    fn add(self, rhs: Instantiables) -> (r: Instantiables)
        ensures
            r@ == sum(rhs@, seq![self@]),
            sorted_by(r@, part_lt()),
            parts_wf(rhs@) && self.wf() ==> r.wf(),
    {
        rhs + self
    }
}

impl BitAndSpecImpl for Instantiables {
    open spec fn obeys_bitand_spec() -> bool {
        false
    }

    open spec fn bitand_req(self, rhs: Self) -> bool {
        true
    }

    open spec fn bitand_spec(self, rhs: Self) -> Self {
        self
    }
}

impl core::ops::BitAnd for Instantiables {
    type Output = Instantiables;

    /// `[A, B] & [C, D] = [A & C, A & D, B & C, B & D]`
    fn bitand(self, rhs: Instantiables) -> (r: Instantiables)
        ensures
            r@ == product(self@, rhs@),
            r.wf(),
    {
        let ghost a = self@;
        let ghost b = rhs@;
        let n = self.parts.len();
        let m = rhs.parts.len();
        let mut parts: Vec<PartialComplexEntity> = Vec::new();
        let mut i: usize = 0;
        proof {
            assert(part_views(parts@).to_set() =~= pairings_before(a, b, 0, 0));
        }
        while i < n
            invariant
                i <= n,
                n == a.len(),
                m == b.len(),
                a == self@,
                b == rhs@,
                part_views(parts@).to_set() == pairings_before(a, b, i as int, 0),
            decreases n - i,
        {
            let mut j: usize = 0;
            while j < m
                invariant
                    i < n,
                    j <= m,
                    n == a.len(),
                    m == b.len(),
                    a == self@,
                    b == rhs@,
                    part_views(parts@).to_set() == pairings_before(a, b, i as int, j as int),
                decreases m - j,
            {
                let ghost prior = parts@;
                let t = self.parts[i].clone() & rhs.parts[j].clone();
                parts.push(t);
                proof {
                    lemma_part_views_push(prior, t);
                    part_views(prior).lemma_push_to_set_commute(t@);
                    assert(t@ == merged(a[i as int], b[j as int]));
                    assert(pairings_before(a, b, i as int, j as int).insert(t@) =~= pairings_before(
                        a,
                        b,
                        i as int,
                        j + 1,
                    ));
                }
                j += 1;
            }
            proof {
                assert(pairings_before(a, b, i as int, m as int) =~= pairings_before(a, b, i + 1, 0));
            }
            i += 1;
        }
        proof {
            lemma_pairings_before_all(a, b);
        }
        let r = Self::canonicalize(parts);
        proof {
            lemma_pairings_wf(a, b, r@);
        }
        r
    }
}

impl BitAndSpecImpl<PartialComplexEntity> for Instantiables {
    open spec fn obeys_bitand_spec() -> bool {
        false
    }

    open spec fn bitand_req(self, rhs: PartialComplexEntity) -> bool {
        true
    }

    open spec fn bitand_spec(self, rhs: PartialComplexEntity) -> Self {
        self
    }
}

impl core::ops::BitAnd<PartialComplexEntity> for Instantiables {
    type Output = Instantiables;

    /// `[A, B] & C = [A & C, B & C]`
    fn bitand(self, q: PartialComplexEntity) -> (r: Instantiables)
        ensures
            r@ == product(self@, seq![q@]),
            r.wf(),
    {
        let mut parts: Vec<PartialComplexEntity> = Vec::new();
        parts.push(q);
        let rhs = Instantiables { parts };
        proof {
            assert(rhs@ =~= seq![q@]);
        }
        self & rhs
    }
}

impl BitAndSpecImpl<Instantiables> for PartialComplexEntity {
    open spec fn obeys_bitand_spec() -> bool {
        false
    }

    open spec fn bitand_req(self, rhs: Instantiables) -> bool {
        true
    }

    open spec fn bitand_spec(self, rhs: Instantiables) -> Instantiables {
        rhs
    }
}

impl core::ops::BitAnd<Instantiables> for PartialComplexEntity {
    type Output = Instantiables;

    /// `A & [B, C] = [A & B, A & C]`
    fn bitand(self, rhs: Instantiables) -> (r: Instantiables)
        ensures
            r@ == product(rhs@, seq![self@]),
            r.wf(),
    {
        rhs & self
    }
}

impl Instantiables {
    /// The alternatives of `self`, in their order, that cover an
    /// alternative of `rhs` (where `covering_only` is set) or that are no
    /// alternatives of `rhs` (where it is not).
    fn kept(&self, rhs: &Instantiables, covering_only: bool) -> (r: Instantiables)
        ensures
            covering_only ==> r@ == restriction(self@, rhs@),
            !covering_only ==> r@ == difference(self@, rhs@),
            self.wf() ==> r.wf(),
    {
        let ghost pred = if covering_only {
            covering(rhs@)
        } else {
            absent_from(rhs@)
        };
        let mut parts: Vec<PartialComplexEntity> = Vec::new();
        let mut i: usize = 0;
        proof {
            reveal(Seq::filter);
            assert(self@.take(0).filter(pred) =~= part_views(parts@));
        }
        while i < self.parts.len()
            invariant
                i <= self.parts.len(),
                pred == if covering_only {
                    covering(rhs@)
                } else {
                    absent_from(rhs@)
                },
                part_views(parts@) == self@.take(i as int).filter(pred),
            decreases self.parts.len() - i,
        {
            let p = &self.parts[i];
            let keep = if covering_only {
                rhs.covered_by(p)
            } else {
                !rhs.contains(p)
            };
            proof {
                assert(self@[i as int] == p@);
                assert(keep == pred(p@));
                self@.lemma_take_succ_push(i as int);
                self@.take(i as int).lemma_filter_push(p@, pred);
            }
            if keep {
                let ghost prior = parts@;
                let c = p.clone();
                parts.push(c);
                proof {
                    lemma_part_views_push(prior, c);
                }
            }
            i += 1;
        }
        let r = Instantiables { parts };
        proof {
            assert(self@.take(i as int) =~= self@);
            lemma_filter_ascending(self@, pred, part_lt());
            lemma_members_wf(r@, self@);
        }
        r
    }
}

impl SubSpecImpl for Instantiables {
    open spec fn obeys_sub_spec() -> bool {
        false
    }

    open spec fn sub_req(self, rhs: Self) -> bool {
        true
    }

    open spec fn sub_spec(self, rhs: Self) -> Self {
        self
    }
}

impl core::ops::Sub for Instantiables {
    type Output = Self;

    /// `[A1, A2, B1, B2] - [A2, B1] = [A1, B2]`
    fn sub(self, rhs: Instantiables) -> (r: Self)
        ensures
            r@ == difference(self@, rhs@),
            self.wf() ==> r.wf(),
    {
        self.kept(&rhs, false)
    }
}

impl SubSpecImpl<PartialComplexEntity> for Instantiables {
    open spec fn obeys_sub_spec() -> bool {
        false
    }

    open spec fn sub_req(self, rhs: PartialComplexEntity) -> bool {
        true
    }

    open spec fn sub_spec(self, rhs: PartialComplexEntity) -> Self {
        self
    }
}

impl core::ops::Sub<PartialComplexEntity> for Instantiables {
    type Output = Self;

    /// `[A, B, C] - B = [A, C]`
    fn sub(self, q: PartialComplexEntity) -> (r: Self)
        ensures
            r@ == difference(self@, seq![q@]),
            self.wf() ==> r.wf(),
    {
        let mut parts: Vec<PartialComplexEntity> = Vec::new();
        parts.push(q);
        let rhs = Instantiables { parts };
        proof {
            assert(rhs@ =~= seq![q@]);
        }
        self.kept(&rhs, false)
    }
}

impl DivSpecImpl for Instantiables {
    open spec fn obeys_div_spec() -> bool {
        false
    }

    open spec fn div_req(self, rhs: Self) -> bool {
        true
    }

    open spec fn div_spec(self, rhs: Self) -> Self {
        self
    }
}

impl core::ops::Div for Instantiables {
    type Output = Self;

    /// `[A, A & B, A & C, A & B & D, B & C, D] / [B, D] = [A & B, A & B & D, B & C, D]`
    fn div(self, rhs: Instantiables) -> (r: Self)
        ensures
            r@ == restriction(self@, rhs@),
            self.wf() ==> r.wf(),
    {
        self.kept(&rhs, true)
    }
}

impl DivSpecImpl<PartialComplexEntity> for Instantiables {
    open spec fn obeys_div_spec() -> bool {
        false
    }

    open spec fn div_req(self, rhs: PartialComplexEntity) -> bool {
        true
    }

    open spec fn div_spec(self, rhs: PartialComplexEntity) -> Self {
        self
    }
}

impl core::ops::Div<PartialComplexEntity> for Instantiables {
    type Output = Instantiables;

    /// `[A, A & B, A & C, A & B & D, B & C, D] / A = [A, A & B, A & C, A & B & D]`
    fn div(self, q: PartialComplexEntity) -> (r: Instantiables)
        ensures
            r@ == restriction(self@, seq![q@]),
            self.wf() ==> r.wf(),
    {
        let mut parts: Vec<PartialComplexEntity> = Vec::new();
        parts.push(q);
        let rhs = Instantiables { parts };
        proof {
            assert(rhs@ =~= seq![q@]);
        }
        self.kept(&rhs, true)
    }
}

/// Every operand lists the indices of each alternative in strictly ascending order.
pub open spec fn operands_wf(fs: Seq<Seq<Seq<usize>>>) -> bool {
    forall|i: int| 0 <= i < fs.len() ==> parts_wf(#[trigger] fs[i])
}

/// The views of the operands before `i + 1` are those before `i`, and operand `i`.
proof fn lemma_operands_take(fs: Seq<Instantiables>, i: int)
    requires
        0 <= i < fs.len(),
    ensures
        operand_views(fs).take(i + 1).drop_last() == operand_views(fs).take(i),
        operand_views(fs).take(i + 1).last() == fs[i]@,
        operand_views(fs).take(fs.len() as int) == operand_views(fs),
{
    assert(operand_views(fs).take(i + 1).drop_last() =~= operand_views(fs).take(i));
    assert(operand_views(fs).take(fs.len() as int) =~= operand_views(fs));
}

impl Instantiables {
    /// `ONEOF(A, B, C) -> [A, B, C]`: the operands are mutually exclusive,
    /// so the alternatives are those of all operands together.
    pub fn oneof(parts: Vec<Self>) -> (r: Self)
        ensures
            r@ == sum_of_all(operand_views(parts@)),
            sorted_by(r@, part_lt()),
            operands_wf(operand_views(parts@)) ==> r.wf(),
    {
        let ghost fs = operand_views(parts@);
        let mut is = Self::default();
        let mut i: usize = 0;
        while i < parts.len()
            invariant
                i <= parts.len(),
                fs == operand_views(parts@),
                is@ == sum_of_all(fs.take(i as int)),
                sorted_by(is@, part_lt()),
                operands_wf(fs) ==> is.wf(),
            decreases parts.len() - i,
        {
            proof {
                lemma_operands_take(parts@, i as int);
                assert(fs[i as int] == parts@[i as int]@);
            }
            is = is + parts[i].clone();
            i += 1;
        }
        proof {
            if parts.len() > 0 {
                lemma_operands_take(parts@, 0);
            } else {
                assert(fs.take(0) =~= fs);
            }
        }
        is
    }

    /// `A AND B AND C -> [A & B & C]`: every operand is instantiated at once.
    pub fn and(terms: Vec<Self>) -> (r: Self)
        requires
            terms.len() >= 2,
        ensures
            r@ == product_of_all(operand_views(terms@)),
            r.wf(),
    {
        let ghost fs = operand_views(terms@);
        proof {
            lemma_operands_take(terms@, 0);
            lemma_operands_take(terms@, 1);
            assert(fs.take(1) =~= seq![terms@[0]@]);
            assert(product_of_all(fs.take(1)) == terms@[0]@);
            assert(product_of_all(fs.take(2)) == product(
                product_of_all(fs.take(2).drop_last()),
                fs.take(2).last(),
            ));
        }
        let mut constraint = terms[0].clone() & terms[1].clone();
        let mut i: usize = 2;
        while i < terms.len()
            invariant
                2 <= i <= terms.len(),
                fs == operand_views(terms@),
                constraint@ == product_of_all(fs.take(i as int)),
                constraint.wf(),
            decreases terms.len() - i,
        {
            proof {
                lemma_operands_take(terms@, i as int);
            }
            constraint = constraint & terms[i].clone();
            i += 1;
        }
        proof {
            lemma_operands_take(terms@, 0);
        }
        constraint
    }

    /// `A ANDOR B ANDOR C -> [A, B, C, A & B, B & C, A & C, A & B & C]`:
    /// any non-empty selection of the operands may be instantiated together.
    pub fn andor(factors: Vec<Self>) -> (r: Self)
        requires
            factors.len() >= 1,
        ensures
            r@ == selections_of_all(operand_views(factors@)),
            sorted_by(r@, part_lt()),
            operands_wf(operand_views(factors@)) ==> r.wf(),
    {
        let ghost fs = operand_views(factors@);
        let mut constraint = Self::default();
        let mut i: usize = 0;
        while i < factors.len()
            invariant
                i <= factors.len(),
                fs == operand_views(factors@),
                constraint@ == selections_of_all(fs.take(i as int)),
                sorted_by(constraint@, part_lt()),
                operands_wf(fs) ==> constraint.wf(),
            decreases factors.len() - i,
        {
            proof {
                lemma_operands_take(factors@, i as int);
                assert(fs[i as int] == factors@[i as int]@);
            }
            let joined = constraint.clone() & factors[i].clone();
            constraint = (constraint + factors[i].clone()) + joined;
            i += 1;
        }
        proof {
            lemma_operands_take(factors@, 0);
        }
        constraint
    }
}

} // verus!
