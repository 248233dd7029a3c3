//! Live cells as a flat list of coordinates: `x0, y0, x1, y1, ...`.

use vstd::prelude::*;
use crate::live_set;
use crate::live_set::{Cell, cells_of};

verus! {

/// Why a flat list of coordinates is refused.
#[derive(Debug, Clone, Copy, PartialEq, Eq, Structural)]
pub enum EvolveError {
    /// The list has an odd number of entries: some x has no y.
    InvalidInput,
}

/// The cells that a flat list spells out: entry `2 * i` is the x of cell `i`,
/// entry `2 * i + 1` its y. A last entry without a partner belongs to no cell.
pub open spec fn paired(coords: Seq<i64>) -> Seq<Cell> {
    Seq::new((coords.len() / 2) as nat, |i: int| (coords[2 * i], coords[2 * i + 1]))
}

/// `coords` lists the cells of `live`, each of them once, in any order.
pub open spec fn encodes(coords: Seq<i64>, live: Set<Cell>) -> bool {
    &&& coords.len() % 2 == 0
    &&& paired(coords).no_duplicates()
    &&& paired(coords).to_set() == live
}

/// A list that encodes a set is twice as long as the set is large.
pub proof fn lemma_encoding_length(coords: Seq<i64>, live: Set<Cell>)
    requires
        encodes(coords, live),
    ensures
        live.finite(),
        coords.len() == 2 * live.len(),
{
    paired(coords).unique_seq_to_set();
}

/// The set of cells that a flat list of coordinates spells out. A cell that is
/// listed twice is in the set once. A list of odd length is refused.
pub fn decode(coords: &[i64]) -> (decoded: Result<im::HashSet<Cell>, EvolveError>)
    ensures
        match decoded {
            Ok(cells) => coords@.len() % 2 == 0 && cells_of(cells) == paired(coords@).to_set(),
            Err(e) => coords@.len() % 2 == 1 && e == EvolveError::InvalidInput,
        },
{
    let len: usize = coords.len();
    if len % 2 != 0 {
        return Err(EvolveError::InvalidInput);
    }
    let count: usize = len / 2;
    let mut cells = live_set::empty();
    let mut i: usize = 0;
    while i < count
        invariant
            i <= count,
            len == coords@.len(),
            len == 2 * count,
            cells_of(cells) =~= Set::new(
                |c: Cell| exists|k: int| 0 <= k < i && #[trigger] paired(coords@)[k] == c,
            ),
        decreases count - i,
    {
        assert(paired(coords@)[i as int] == (coords@[2 * i], coords@[2 * i + 1]));
        live_set::insert(&mut cells, (coords[2 * i], coords[2 * i + 1]));
        i += 1;
    }
    proof {
        let listed = paired(coords@);
        assert forall|c: Cell| cells_of(cells).contains(c) <==> listed.to_set().contains(c) by {
            assert(listed.to_set().contains(c) <==> listed.contains(c));
        }
        assert(cells_of(cells) =~= listed.to_set());
    }
    Ok(cells)
}

/// The coordinates of a list of cells, in the order of the list: `x` then `y`
/// of the first cell, then of the second, and so on.
pub open spec fn flattened(cells: Seq<Cell>) -> Seq<i64> {
    Seq::new(
        2 * cells.len(),
        |i: int|
            if i % 2 == 0 {
                cells[i / 2].0
            } else {
                cells[i / 2].1
            },
    )
}

/// Pairing up the coordinates of a list of cells gives the list back.
pub proof fn lemma_paired_undoes_flattened(cells: Seq<Cell>)
    ensures
        paired(flattened(cells)) == cells,
{
    assert(paired(flattened(cells)) =~= cells);
}

/// A list that names each cell of a set once flattens to an encoding of the set.
pub proof fn lemma_flattened_encodes(cells: Seq<Cell>)
    requires
        cells.no_duplicates(),
    ensures
        encodes(flattened(cells), cells.to_set()),
{
    lemma_paired_undoes_flattened(cells);
}

/// The coordinates of a list of cells, in the order of the list.
pub fn flatten(cells: &[Cell]) -> (coords: Vec<i64>)
    ensures
        coords@ == flattened(cells@),
{
    let mut coords: Vec<i64> = Vec::new();
    let mut i: usize = 0;
    while i < cells.len()
        invariant
            i <= cells.len(),
            coords@ =~= flattened(cells@.take(i as int)),
        decreases cells.len() - i,
    {
        let (x, y) = cells[i];
        coords.push(x);
        coords.push(y);
        i += 1;
    }
    assert(cells@.take(i as int) == cells@);
    coords
}

/// The cells of a set as a flat list of coordinates, each cell once. The order
/// of the cells is that in which the set hands them out.
pub fn encode(cells: &im::HashSet<Cell>) -> (coords: Vec<i64>)
    ensures
        encodes(coords@, cells_of(*cells)),
        coords@.len() == 2 * cells_of(*cells).len(),
{
    let listed = live_set::to_vec(cells);
    let coords = flatten(listed.as_slice());
    proof {
        lemma_flattened_encodes(listed@);
        lemma_encoding_length(coords@, cells_of(*cells));
    }
    coords
}

/// `Vec::into_boxed_slice`: the boxed slice holds the items of the vector, in
/// the same order.
#[verifier::external_body]
pub(crate) fn into_boxed(coords: Vec<i64>) -> (boxed: Box<[i64]>)
    ensures
        boxed@ == coords@,
{
    coords.into_boxed_slice()
}

} // verus!
