//! The set of live cells, held in `im::HashSet`.
//!
//! Verus cannot look inside the hash set, so everything it knows about one is
//! what the contracts in this file say. None of them is proved: each is a
//! statement about `im`'s code, written down from its source.

use vstd::prelude::*;

verus! {

/// A lattice point `(x, y)`.
pub type Cell = (i64, i64);

/// `im::HashSet`, taken as it is: Verus sees no field of it.
#[verifier::external_type_specification]
#[verifier::external_body]
#[verifier::reject_recursive_types(A)]
#[verifier::reject_recursive_types(S)]
pub struct ExHashSet<A, S>(im::HashSet<A, S>);

/// The cells that a hash set holds.
pub uninterp spec fn cells_of(set: im::HashSet<(i64, i64)>) -> Set<(i64, i64)>;

/// `im::HashSet::new`: the set it makes holds nothing.
#[verifier::external_body]
pub(crate) fn empty() -> (set: im::HashSet<Cell>)
    ensures
        cells_of(set) == Set::<Cell>::empty(),
{
    im::HashSet::new()
}

/// `im::HashSet::insert`: afterwards the set holds `cell` and whatever it held before.
#[verifier::external_body]
pub(crate) fn insert(set: &mut im::HashSet<Cell>, cell: Cell)
    ensures
        cells_of(*final(set)) == cells_of(*old(set)).insert(cell),
{
    set.insert(cell);
}

/// `Clone::clone` of `im::HashSet`: the copy holds the same cells.
#[verifier::external_body]
pub(crate) fn duplicate(set: &im::HashSet<Cell>) -> (copy: im::HashSet<Cell>)
    ensures
        cells_of(copy) == cells_of(*set),
{
    set.clone()
}

/// `im::HashSet::union`: the cells that are in either set.
#[verifier::external_body]
pub(crate) fn union(a: im::HashSet<Cell>, b: im::HashSet<Cell>) -> (both: im::HashSet<Cell>)
    ensures
        cells_of(both) == cells_of(a).union(cells_of(b)),
{
    a.union(b)
}

/// `im::HashSet::intersection`: the cells that are in both sets.
#[verifier::external_body]
pub(crate) fn intersection(a: im::HashSet<Cell>, b: im::HashSet<Cell>) -> (common: im::HashSet<
    Cell,
>)
    ensures
        cells_of(common) == cells_of(a).intersect(cells_of(b)),
{
    a.intersection(b)
}

/// `im::HashSet::relative_complement`: the cells of `a` that are not in `b`.
#[verifier::external_body]
pub(crate) fn relative_complement(a: im::HashSet<Cell>, b: im::HashSet<Cell>) -> (rest:
    im::HashSet<Cell>)
    ensures
        cells_of(rest) == cells_of(a).difference(cells_of(b)),
{
    a.relative_complement(b)
}

/// `im::HashSet::len`: how many cells the set holds. A count is only spoken
/// of where the cells are known to be finitely many.
#[verifier::external_body]
pub(crate) fn len(set: &im::HashSet<Cell>) -> (n: usize)
    requires
        cells_of(*set).finite(),
    ensures
        n == cells_of(*set).len(),
{
    set.len()
}

/// `im::HashSet::iter`: every cell of the set comes out exactly once. The order
/// depends on the set's hasher, so nothing is said about it.
#[verifier::external_body]
pub(crate) fn to_vec(set: &im::HashSet<Cell>) -> (cells: Vec<Cell>)
    ensures
        cells@.no_duplicates(),
        cells@.to_set() == cells_of(*set),
{
    set.iter().copied().collect()
}

} // verus!
