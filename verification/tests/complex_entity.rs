use espr::ir::Instantiables;
use espr::ir::PartialComplexEntity;
use std::cmp::Ordering;

fn pce(indices: &[usize]) -> PartialComplexEntity {
    PartialComplexEntity::new(indices)
}

fn parts(lists: &[&[usize]]) -> Instantiables {
    let pces: Vec<PartialComplexEntity> = lists.iter().map(|l| pce(l)).collect();
    Instantiables::new(&pces)
}

fn listed(i: &Instantiables) -> Vec<Vec<usize>> {
    i.parts.iter().map(|p| p.indices.clone()).collect()
}

#[test]
fn pce_new_sorts_and_removes_repeats() {
    assert_eq!(pce(&[3, 1, 2, 3, 1]).indices, vec![1, 2, 3]);
    assert_eq!(pce(&[]).indices, Vec::<usize>::new());
    assert_eq!(pce(&[7, 7, 7]).indices, vec![7]);
}

#[test]
fn pce_new_is_idempotent() {
    let once = pce(&[5, 2, 9, 2]);
    let twice = pce(&once.indices);
    assert_eq!(once, twice);
}

#[test]
fn pce_and_is_idempotent() {
    let a = pce(&[1]);
    assert_eq!(a.clone() & a.clone(), a);
    let b = pce(&[4, 2, 8]);
    assert_eq!(b.clone() & b.clone(), b);
}

#[test]
fn pce_and_is_commutative() {
    let a = pce(&[1]);
    let b = pce(&[2]);
    assert_eq!(a.clone() & b.clone(), b & a);
}

#[test]
fn pce_and_is_associative() {
    let a = pce(&[1]);
    let b = pce(&[3]);
    let c = pce(&[2]);
    assert_eq!(
        (a.clone() & b.clone()) & c.clone(),
        a.clone() & (b.clone() & c.clone())
    );
    assert_eq!(a & b & c, pce(&[1, 2, 3]));
}

#[test]
fn pce_and_of_three_singletons() {
    let r = pce(&[1]) & pce(&[2]) & pce(&[3]);
    assert_eq!(r, pce(&[1, 2, 3]));
    assert_eq!(r.indices, vec![1, 2, 3]);
}

#[test]
fn pce_and_merges_overlapping_lists() {
    let r = pce(&[5, 1, 3]) & pce(&[3, 4, 1]);
    assert_eq!(r.indices, vec![1, 3, 4, 5]);
}

#[test]
fn pce_order_is_by_length_then_content() {
    assert_eq!(pce(&[9]).compare(&pce(&[1, 2])), Ordering::Less);
    assert_eq!(pce(&[1, 2]).compare(&pce(&[9])), Ordering::Greater);
    assert_eq!(pce(&[1, 3]).compare(&pce(&[1, 2])), Ordering::Greater);
    assert_eq!(pce(&[1, 2]).compare(&pce(&[1, 3])), Ordering::Less);
    assert_eq!(pce(&[2, 1]).compare(&pce(&[1, 2])), Ordering::Equal);
    assert!(pce(&[4]) < pce(&[1, 2]));
    assert!(pce(&[1, 2]) <= pce(&[1, 2]));
    assert!(pce(&[2, 3]) > pce(&[1, 4]));
}

#[test]
fn pce_contains_and_covers() {
    let p = pce(&[1, 2, 4]);
    assert!(p.contains(2));
    assert!(!p.contains(3));
    assert!(p.covers(&pce(&[1, 4])));
    assert!(p.covers(&pce(&[])));
    assert!(p.covers(&p.clone()));
    assert!(!p.covers(&pce(&[1, 3])));
}

#[test]
fn instantiables_new_sorts_and_removes_repeats() {
    let x = parts(&[&[4], &[1, 2], &[1], &[2, 1], &[1, 2, 4], &[2, 3]]);
    assert_eq!(
        listed(&x),
        vec![vec![1], vec![4], vec![1, 2], vec![2, 3], vec![1, 2, 4]]
    );
}

#[test]
fn instantiables_new_is_idempotent() {
    let once = parts(&[&[2, 3], &[1], &[4], &[1]]);
    let twice = Instantiables::new(&once.parts);
    assert_eq!(once, twice);
}

#[test]
fn single_holds_one_index() {
    assert_eq!(listed(&Instantiables::single(7)), vec![vec![7]]);
    assert_eq!(Instantiables::single(7), parts(&[&[7]]));
}

#[test]
fn default_is_empty() {
    assert_eq!(listed(&Instantiables::default()), Vec::<Vec<usize>>::new());
}

#[test]
fn pce_plus_instantiables() {
    let a = pce(&[1]);
    let b1 = pce(&[2]);
    let b2 = pce(&[3]);
    let ce = Instantiables::new(&[b1.clone(), b2.clone()]);
    assert_eq!(
        a.clone() + ce.clone(),
        Instantiables::new(&[a.clone(), b1.clone(), b2.clone()])
    );
    assert_eq!(ce + a.clone(), Instantiables::new(&[a, b1, b2]));
}

#[test]
fn pce_and_instantiables() {
    let a = pce(&[1]);
    let b1 = pce(&[2]);
    let b2 = pce(&[3]);
    let ce = Instantiables::new(&[b1.clone(), b2.clone()]);
    let expected = Instantiables::new(&[a.clone() & b1.clone(), a.clone() & b2.clone()]);
    assert_eq!(a.clone() & ce.clone(), expected);
    assert_eq!(ce & a, expected);
}

#[test]
fn instantiables_plus_instantiables() {
    let a1 = pce(&[1]);
    let a2 = pce(&[2]);
    let b1 = pce(&[3]);
    let b2 = pce(&[4]);
    let ce1 = Instantiables::new(&[a1.clone(), a2.clone()]);
    let ce2 = Instantiables::new(&[b1.clone(), b2.clone()]);
    assert_eq!(ce1 + ce2, Instantiables::new(&[a1, a2, b1, b2]));
}

#[test]
fn plus_removes_shared_alternatives() {
    let a = parts(&[&[1], &[2, 3]]);
    let b = parts(&[&[2, 3], &[4]]);
    assert_eq!(listed(&(a + b)), vec![vec![1], vec![4], vec![2, 3]]);
}

#[test]
fn instantiables_and_instantiables() {
    let a1 = pce(&[1]);
    let a2 = pce(&[2]);
    let b1 = pce(&[3]);
    let b2 = pce(&[4]);
    let ce1 = Instantiables::new(&[a1.clone(), a2.clone()]);
    let ce2 = Instantiables::new(&[b1.clone(), b2.clone()]);
    assert_eq!(
        ce1 & ce2,
        Instantiables::new(&[
            a1.clone() & b1.clone(),
            a1.clone() & b2.clone(),
            a2.clone() & b1.clone(),
            a2.clone() & b2.clone(),
        ])
    );
}

#[test]
fn and_collapses_equal_products() {
    let a = parts(&[&[1], &[2]]);
    let b = parts(&[&[1], &[2]]);
    assert_eq!(listed(&(a & b)), vec![vec![1], vec![2], vec![1, 2]]);
}

#[test]
fn and_with_nothing_is_nothing() {
    let a = parts(&[&[1], &[2]]);
    assert_eq!(a & Instantiables::default(), Instantiables::default());
}

#[test]
fn restrict_by_pce() {
    let a = pce(&[1]);
    let b = pce(&[2]);
    let c = pce(&[3]);
    let d = pce(&[4]);
    let ce = Instantiables::new(&[
        a.clone(),
        a.clone() & b.clone(),
        a.clone() & c.clone(),
        a.clone() & b.clone() & d.clone(),
        b.clone() & c.clone(),
        d.clone(),
    ]);
    assert_eq!(
        ce / a.clone(),
        Instantiables::new(&[
            a.clone(),
            a.clone() & b.clone(),
            a.clone() & c.clone(),
            a.clone() & b.clone() & d.clone(),
        ])
    );
}

#[test]
fn restrict_by_instantiables() {
    let a = pce(&[1]);
    let b = pce(&[2]);
    let c = pce(&[3]);
    let d = pce(&[4]);
    let ce1 = Instantiables::new(&[
        a.clone(),
        a.clone() & b.clone(),
        a.clone() & c.clone(),
        a.clone() & b.clone() & d.clone(),
        b.clone() & c.clone(),
        d.clone(),
    ]);
    let ce2 = Instantiables::new(&[b.clone(), d.clone()]);
    assert_eq!(
        ce1 / ce2,
        Instantiables::new(&[
            a.clone() & b.clone(),
            a.clone() & b.clone() & d.clone(),
            b.clone() & c.clone(),
            d.clone(),
        ])
    );
}

#[test]
fn restriction_lists_exactly_the_covering_alternatives() {
    let x = parts(&[&[1], &[1, 2], &[1, 3], &[1, 2, 4], &[2, 3], &[4]]);
    assert_eq!(
        listed(&(x.clone() / pce(&[1]))),
        vec![vec![1], vec![1, 2], vec![1, 3], vec![1, 2, 4]]
    );
    assert_eq!(
        listed(&(x.clone() / parts(&[&[2], &[4]]))),
        vec![vec![4], vec![1, 2], vec![2, 3], vec![1, 2, 4]]
    );
    for p in (x.clone() / parts(&[&[2], &[4]])).parts {
        assert!(p.contains(2) || p.contains(4));
    }
    assert_eq!(x.clone() / Instantiables::default(), Instantiables::default());
    assert_eq!(x.clone() / pce(&[]), x);
}

#[test]
fn difference_of_instantiables() {
    let a1 = pce(&[1]);
    let a2 = pce(&[2]);
    let b1 = pce(&[3]);
    let b2 = pce(&[4]);
    let ce1 = Instantiables::new(&[a1.clone(), a2.clone(), b1.clone(), b2.clone()]);
    let ce2 = Instantiables::new(&[a2.clone(), b1.clone()]);
    assert_eq!(ce1.clone() - ce2, Instantiables::new(&[a1.clone(), b2.clone()]));
    assert_eq!(ce1 - a1, Instantiables::new(&[a2, b1, b2]));
}

#[test]
fn difference_with_itself_and_with_nothing() {
    let a = parts(&[&[1], &[2, 3], &[4]]);
    assert_eq!(a.clone() - a.clone(), Instantiables::default());
    assert_eq!(a.clone() - Instantiables::default(), a);
}

#[test]
fn difference_keeps_the_order_of_what_stays() {
    let a = Instantiables {
        parts: vec![pce(&[4]), pce(&[1, 2]), pce(&[1])],
    };
    let r = a - pce(&[1, 2]);
    assert_eq!(listed(&r), vec![vec![4], vec![1]]);
}

#[test]
fn oneof_of_three_singletons() {
    let r = Instantiables::oneof(vec![
        Instantiables::single(1),
        Instantiables::single(2),
        Instantiables::single(3),
    ]);
    assert_eq!(listed(&r), vec![vec![1], vec![2], vec![3]]);
}

#[test]
fn oneof_of_nothing_is_empty() {
    assert_eq!(Instantiables::oneof(vec![]), Instantiables::default());
}

#[test]
fn and_of_three_singletons() {
    let r = Instantiables::and(vec![
        Instantiables::single(1),
        Instantiables::single(2),
        Instantiables::single(3),
    ]);
    assert_eq!(listed(&r), vec![vec![1, 2, 3]]);
}

#[test]
fn andor_of_two_singletons() {
    let r = Instantiables::andor(vec![Instantiables::single(1), Instantiables::single(2)]);
    assert_eq!(listed(&r), vec![vec![1], vec![2], vec![1, 2]]);
}

#[test]
fn andor_of_two_operands_is_each_and_both() {
    let a = parts(&[&[1], &[2]]);
    let b = parts(&[&[3]]);
    let r = Instantiables::andor(vec![a.clone(), b.clone()]);
    assert_eq!(r, a.clone() + b.clone() + (a & b));
    assert_eq!(
        listed(&r),
        vec![vec![1], vec![2], vec![3], vec![1, 3], vec![2, 3]]
    );
}

#[test]
fn andor_of_distinct_singletons_has_all_non_empty_selections() {
    for n in 1..=6usize {
        let operands: Vec<Instantiables> = (0..n).map(Instantiables::single).collect();
        let r = Instantiables::andor(operands);
        assert_eq!(r.parts.len(), (1usize << n) - 1);
    }
    let r = Instantiables::andor(vec![
        Instantiables::single(1),
        Instantiables::single(2),
        Instantiables::single(3),
    ]);
    assert_eq!(
        listed(&r),
        vec![
            vec![1],
            vec![2],
            vec![3],
            vec![1, 2],
            vec![1, 3],
            vec![2, 3],
            vec![1, 2, 3]
        ]
    );
}

#[test]
fn andor_of_one_operand_is_that_operand() {
    let a = parts(&[&[2, 3], &[1]]);
    assert_eq!(Instantiables::andor(vec![a.clone()]), a);
}

#[test]
fn sum_and_product_of_single_with_two_alternatives() {
    let a = Instantiables::single(1);
    let b = parts(&[&[2], &[3]]);
    assert_eq!(listed(&(a.clone() + b.clone())), vec![vec![1], vec![2], vec![3]]);
    assert_eq!(listed(&(a & b)), vec![vec![1, 2], vec![1, 3]]);
}

#[test]
fn plus_laws_on_examples() {
    let a = parts(&[&[1], &[2, 3]]);
    let b = parts(&[&[2], &[2, 3], &[1, 4]]);
    let c = parts(&[&[5]]);
    assert_eq!(a.clone() + b.clone(), b.clone() + a.clone());
    assert_eq!(
        (a.clone() + b.clone()) + c.clone(),
        a.clone() + (b.clone() + c.clone())
    );
    assert_eq!(a.clone() + a.clone(), a);
}

#[test]
fn and_laws_on_examples() {
    let a = parts(&[&[1], &[2, 3]]);
    let b = parts(&[&[2], &[2, 3], &[1, 4]]);
    let c = parts(&[&[5], &[1]]);
    assert_eq!(a.clone() & b.clone(), b.clone() & a.clone());
    assert_eq!(
        (a.clone() & b.clone()) & c.clone(),
        a.clone() & (b.clone() & c.clone())
    );
    assert_eq!(
        a.clone() & (b.clone() + c.clone()),
        (a.clone() & b.clone()) + (a & c)
    );
}

#[test]
fn pce_from_a_slice_is_new() {
    let indices: &[usize] = &[3, 1, 3];
    assert_eq!(PartialComplexEntity::from(indices), pce(&[1, 3]));
}
