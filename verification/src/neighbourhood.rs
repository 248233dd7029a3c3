//! The Moore neighbourhood of a cell.

use vstd::prelude::*;
use crate::live_set;
use crate::live_set::{Cell, cells_of};

verus! {

/// `b` lies in the three-by-three block centred on `a`.
pub open spec fn adjacent(a: Cell, b: Cell) -> bool {
    -1 <= b.0 - a.0 <= 1 && -1 <= b.1 - a.1 <= 1
}

/// Both coordinates of `c` keep at least `margin` away from either end of `i64`.
pub open spec fn inset(c: Cell, margin: int) -> bool {
    &&& i64::MIN + margin <= c.0 <= i64::MAX - margin
    &&& i64::MIN + margin <= c.1 <= i64::MAX - margin
}

/// The cell together with its eight neighbours.
pub open spec fn with_neighbours(c: Cell) -> Set<Cell> {
    Set::new(|p: Cell| adjacent(c, p))
}

/// The eight neighbours of a cell, without the cell itself.
pub open spec fn neighbour_positions(c: Cell) -> Set<Cell> {
    with_neighbours(c).remove(c)
}

/// The cell at offset `(dx, dy)` from `c`.
spec fn shifted(c: Cell, dx: int, dy: int) -> Cell {
    ((c.0 + dx) as i64, (c.1 + dy) as i64)
}

/// The nine offsets of a three-by-three block, applied to `c`.
spec fn nine_around(c: Cell) -> Set<Cell> {
    set![
        shifted(c, -1, -1),
        shifted(c, -1, 0),
        shifted(c, -1, 1),
        shifted(c, 0, -1),
        shifted(c, 0, 0),
        shifted(c, 0, 1),
        shifted(c, 1, -1),
        shifted(c, 1, 0),
        shifted(c, 1, 1)
    ]
}

/// A cell away from the edge of the coordinate range has a block of exactly
/// nine cells, itself among them.
pub proof fn lemma_with_neighbours_has_nine(c: Cell)
    requires
        inset(c, 1),
    ensures
        with_neighbours(c).finite(),
        with_neighbours(c).len() == 9,
        with_neighbours(c).contains(c),
{
    assert(with_neighbours(c) =~= nine_around(c));
}

/// The block of any cell is finite and holds the cell. At the edge of the
/// coordinate range it has fewer than nine cells.
pub proof fn lemma_with_neighbours_at_most_nine(c: Cell)
    ensures
        with_neighbours(c).finite(),
        with_neighbours(c).len() <= 9,
        with_neighbours(c).contains(c),
{
    assert forall|p: Cell| with_neighbours(c).contains(p) implies nine_around(c).contains(p) by {
        assert(p == shifted(c, p.0 - c.0, p.1 - c.1));
    }
    vstd::set_lib::lemma_len_subset(with_neighbours(c), nine_around(c));
}

/// A cell away from the edge of the coordinate range has exactly eight
/// neighbours, and is not one of them.
pub proof fn lemma_neighbour_positions_has_eight(c: Cell)
    requires
        inset(c, 1),
    ensures
        neighbour_positions(c).finite(),
        neighbour_positions(c).len() == 8,
        !neighbour_positions(c).contains(c),
{
    lemma_with_neighbours_has_nine(c);
}

/// The cell and its eight neighbours.
pub fn get_with_neighbours(cell: Cell) -> (cells: im::HashSet<Cell>)
    requires
        inset(cell, 1),
    ensures
        cells_of(cells) == with_neighbours(cell),
        cells_of(cells).finite(),
        cells_of(cells).len() == 9,
        cells_of(cells).contains(cell),
{
    let mut cells = live_set::empty();
    let mut d0: i64 = -1;
    while d0 <= 1
        invariant
            inset(cell, 1),
            -1 <= d0 <= 2,
            cells_of(cells) =~= Set::new(|p: Cell| adjacent(cell, p) && p.0 - cell.0 < d0),
        decreases 2 - d0,
    {
        let mut d1: i64 = -1;
        while d1 <= 1
            invariant
                inset(cell, 1),
                -1 <= d0 <= 1,
                -1 <= d1 <= 2,
                cells_of(cells) =~= Set::new(
                    |p: Cell|
                        adjacent(cell, p) && (p.0 - cell.0 < d0 || (p.0 - cell.0 == d0 && p.1
                            - cell.1 < d1)),
                ),
            decreases 2 - d1,
        {
            live_set::insert(&mut cells, (cell.0 + d0, cell.1 + d1));
            d1 += 1;
        }
        d0 += 1;
    }
    proof {
        lemma_with_neighbours_has_nine(cell);
    }
    cells
}

/// The eight neighbours of a cell.
pub fn get_neighbour_positions(cell: Cell) -> (cells: im::HashSet<Cell>)
    requires
        inset(cell, 1),
    ensures
        cells_of(cells) == neighbour_positions(cell),
        cells_of(cells).finite(),
        cells_of(cells).len() == 8,
        !cells_of(cells).contains(cell),
{
    let mut centre = live_set::empty();
    live_set::insert(&mut centre, cell);
    let cells = live_set::relative_complement(get_with_neighbours(cell), centre);
    proof {
        lemma_neighbour_positions_has_eight(cell);
        assert(cells_of(cells) =~= neighbour_positions(cell));
    }
    cells
}

} // verus!
