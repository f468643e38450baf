//! Sorting and adjacent-duplicate removal, delegated to `std` and `itertools`.
//!
//! The functions here are the only unverified code behind the algebra: each
//! one makes a single library call, and its contract restates what that
//! library documents.

use super::complex_entity::index_lt;
use super::complex_entity::part_lt;
use super::complex_entity::PartialComplexEntity;
use super::instantiables::part_views;
use super::order::dedup_adjacent;
use super::order::not_above;
use itertools::Itertools;
use vstd::prelude::*;
use vstd::relations::sorted_by;

verus! {

/// Sorts `v` in place with `slice::sort_unstable`.
///
/// Trusted: afterwards `v` is a rearrangement of what it held before, in
/// ascending (non-strict) order of `usize`.
#[verifier::external_body]
pub(crate) fn sort_indices(v: &mut Vec<usize>)
    ensures
        final(v)@.to_multiset() == old(v)@.to_multiset(),
        sorted_by(final(v)@, not_above(index_lt())),
{
    v.sort_unstable();
}

/// Removes repeated neighbours with `Itertools::dedup`.
///
/// Trusted: of every run of equal adjacent elements exactly one is kept,
/// and nothing else changes.
#[verifier::external_body]
pub(crate) fn dedup_indices(v: Vec<usize>) -> (r: Vec<usize>)
    ensures
        r@ == dedup_adjacent(v@),
{
    v.into_iter().dedup().collect()
}

/// Sorts partial complex entities with `Itertools::sorted_by`, ordered by
/// [`PartialComplexEntity::compare`].
///
/// Trusted: the result is a rearrangement of `v` in which no element
/// stands after one that it precedes.
#[verifier::external_body]
pub(crate) fn sort_parts(v: Vec<PartialComplexEntity>) -> (r: Vec<PartialComplexEntity>)
    ensures
        part_views(r@).to_multiset() == part_views(v@).to_multiset(),
        sorted_by(part_views(r@), not_above(part_lt())),
{
    v.into_iter().sorted_by(|a, b| a.compare(b)).collect()
}

/// Removes repeated neighbours with `Itertools::dedup`, where two partial
/// complex entities are equal when they list the same indices.
///
/// Trusted: of every run of equal adjacent elements exactly one is kept,
/// and nothing else changes.
#[verifier::external_body]
pub(crate) fn dedup_parts(v: Vec<PartialComplexEntity>) -> (r: Vec<PartialComplexEntity>)
    ensures
        part_views(r@) == dedup_adjacent(part_views(v@)),
{
    v.into_iter().dedup().collect()
}

} // verus!
