//! The birth and death rule: which live cells die, and which dead cells are born.

use vstd::prelude::*;
use crate::live_set;
use crate::live_set::{Cell, cells_of};
use crate::neighbourhood::{
    adjacent, get_neighbour_positions, get_with_neighbours, inset, neighbour_positions,
    with_neighbours,
};

verus! {

/// Every cell of the set keeps at least `margin` away from the ends of `i64`.
pub open spec fn within_margin(live: Set<Cell>, margin: int) -> bool {
    forall|c: Cell| #[trigger] live.contains(c) ==> inset(c, margin)
}

/// How many of the eight neighbours of `c` are alive. The cell itself is not counted.
pub open spec fn neighbour_count(live: Set<Cell>, c: Cell) -> nat {
    live.intersect(neighbour_positions(c)).len()
}

/// The cells that have a live cell in their three-by-three block: the live
/// cells and everything next to one.
pub open spec fn candidates(live: Set<Cell>) -> Set<Cell> {
    Set::new(|p: Cell| exists|c: Cell| live.contains(c) && #[trigger] adjacent(c, p))
}

/// The live cells that die: those with fewer than two or more than three live neighbours.
pub open spec fn deceased(live: Set<Cell>) -> Set<Cell> {
    Set::new(
        |c: Cell|
            live.contains(c) && (neighbour_count(live, c) < 2 || neighbour_count(live, c) > 3),
    )
}

/// The dead cells that come alive: dead candidates with exactly three live neighbours.
pub open spec fn newborns(live: Set<Cell>) -> Set<Cell> {
    Set::new(
        |c: Cell|
            candidates(live).contains(c) && !live.contains(c) && neighbour_count(live, c) == 3,
    )
}

/// The live cells one tick later.
pub open spec fn next_generation(live: Set<Cell>) -> Set<Cell> {
    live.difference(deceased(live)).union(newborns(live))
}

/// A cell has at most eight live neighbours.
pub proof fn lemma_neighbour_count_at_most_eight(live: Set<Cell>, c: Cell)
    requires
        inset(c, 1),
    ensures
        neighbour_count(live, c) <= 8,
{
    crate::neighbourhood::lemma_neighbour_positions_has_eight(c);
    vstd::set_lib::lemma_len_intersect(neighbour_positions(c), live);
    assert(neighbour_positions(c).intersect(live) =~= live.intersect(neighbour_positions(c)));
}

/// A cell with a live neighbour is a candidate, so leaving the other dead
/// cells out of the count loses nothing.
pub proof fn lemma_live_neighbour_makes_candidate(live: Set<Cell>, c: Cell)
    requires
        neighbour_count(live, c) > 0,
    ensures
        candidates(live).contains(c),
{
    let alive_around = live.intersect(neighbour_positions(c));
    crate::neighbourhood::lemma_with_neighbours_at_most_nine(c);
    let q = alive_around.choose();
    assert(alive_around.contains(q));
    assert(adjacent(q, c));
}

/// The step is Conway's rule: a live cell lives on with two or three live
/// neighbours, and a dead cell comes alive with exactly three.
pub proof fn lemma_next_generation_rule(live: Set<Cell>, c: Cell)
    ensures
        next_generation(live).contains(c) <==> if live.contains(c) {
            neighbour_count(live, c) == 2 || neighbour_count(live, c) == 3
        } else {
            neighbour_count(live, c) == 3
        },
{
    if !live.contains(c) && neighbour_count(live, c) == 3 {
        lemma_live_neighbour_makes_candidate(live, c);
    }
}

/// Only live cells die.
pub proof fn lemma_deceased_were_alive(live: Set<Cell>)
    ensures
        deceased(live).subset_of(live),
{
}

/// No live cell is born.
pub proof fn lemma_newborns_were_dead(live: Set<Cell>)
    ensures
        newborns(live).disjoint(live),
        newborns(live).intersect(live) == Set::<Cell>::empty(),
{
    assert(newborns(live).intersect(live) =~= Set::<Cell>::empty());
}

/// Where nothing lives, nothing is born: the empty set is its own next generation.
pub proof fn lemma_empty_stays_empty()
    ensures
        next_generation(Set::<Cell>::empty()) == Set::<Cell>::empty(),
{
    assert(next_generation(Set::<Cell>::empty()) =~= Set::<Cell>::empty());
}

/// The live cells and everything next to one.
pub fn get_candidates(cells: &im::HashSet<Cell>) -> (out: im::HashSet<Cell>)
    requires
        within_margin(cells_of(*cells), 1),
    ensures
        cells_of(out) == candidates(cells_of(*cells)),
{
    let listed = live_set::to_vec(cells);
    let mut out = live_set::empty();
    let mut i: usize = 0;
    while i < listed.len()
        invariant
            i <= listed.len(),
            listed@.to_set() == cells_of(*cells),
            within_margin(cells_of(*cells), 1),
            cells_of(out) =~= Set::new(
                |p: Cell| exists|k: int| 0 <= k < i && #[trigger] adjacent(listed@[k], p),
            ),
        decreases listed.len() - i,
    {
        let cell = listed[i];
        assert(listed@.to_set().contains(cell));
        let ghost before = cells_of(out);
        out = live_set::union(out, get_with_neighbours(cell));
        i += 1;
        proof {
            assert forall|p: Cell|
                (before.contains(p) || with_neighbours(cell).contains(p)) <==> (exists|k: int|
                    0 <= k < i && #[trigger] adjacent(listed@[k], p)) by {
                if with_neighbours(cell).contains(p) {
                    assert(adjacent(listed@[i - 1], p));
                }
            }
        }
    }
    proof {
        let live = cells_of(*cells);
        assert forall|p: Cell| cells_of(out).contains(p) <==> candidates(live).contains(p) by {
            if cells_of(out).contains(p) {
                let k = choose|k: int| 0 <= k < i && #[trigger] adjacent(listed@[k], p);
                assert(listed@.to_set().contains(listed@[k]));
            }
            if candidates(live).contains(p) {
                let c = choose|c: Cell| live.contains(c) && #[trigger] adjacent(c, p);
                assert(listed@.contains(c));
                let k = choose|k: int| 0 <= k < listed@.len() && listed@[k] == c;
                assert(adjacent(listed@[k], p));
            }
        }
        assert(cells_of(out) =~= candidates(live));
    }
    out
}

/// How many of the eight neighbours of `cell` are in `world_cells`.
pub fn get_num_neighbours(world_cells: &im::HashSet<Cell>, cell: Cell) -> (n: usize)
    requires
        inset(cell, 1),
    ensures
        n == neighbour_count(cells_of(*world_cells), cell),
        n <= 8,
{
    let around = get_neighbour_positions(cell);
    let alive_around = live_set::intersection(live_set::duplicate(world_cells), around);
    proof {
        lemma_neighbour_count_at_most_eight(cells_of(*world_cells), cell);
    }
    live_set::len(&alive_around)
}

/// The dead cells that come alive in the next generation.
pub fn get_newborns(world_cells: &im::HashSet<Cell>) -> (born: im::HashSet<Cell>)
    requires
        within_margin(cells_of(*world_cells), 2),
    ensures
        cells_of(born) == newborns(cells_of(*world_cells)),
        cells_of(born).disjoint(cells_of(*world_cells)),
{
    let ghost live = cells_of(*world_cells);
    let dead_candidates = live_set::relative_complement(
        get_candidates(world_cells),
        live_set::duplicate(world_cells),
    );
    let listed = live_set::to_vec(&dead_candidates);
    let mut born = live_set::empty();
    let mut i: usize = 0;
    while i < listed.len()
        invariant
            i <= listed.len(),
            live == cells_of(*world_cells),
            within_margin(live, 2),
            listed@.to_set() == candidates(live).difference(live),
            cells_of(born) =~= Set::new(
                |c: Cell|
                    neighbour_count(live, c) == 3 && exists|k: int|
                        0 <= k < i && #[trigger] listed@[k] == c,
            ),
        decreases listed.len() - i,
    {
        let cell = listed[i];
        proof {
            assert(listed@.to_set().contains(cell));
            let c = choose|c: Cell| live.contains(c) && #[trigger] adjacent(c, cell);
            assert(inset(c, 2));
        }
        let n: usize = get_num_neighbours(world_cells, cell);
        if n == 3 {
            live_set::insert(&mut born, cell);
        }
        i += 1;
    }
    proof {
        assert forall|c: Cell| cells_of(born).contains(c) <==> newborns(live).contains(c) by {
            lemma_listed_is_contained(listed@, c);
        }
        assert(cells_of(born) =~= newborns(live));
    }
    born
}

/// The live cells that die in the next generation.
pub fn get_deceased(world_cells: &im::HashSet<Cell>) -> (dead: im::HashSet<Cell>)
    requires
        within_margin(cells_of(*world_cells), 1),
    ensures
        cells_of(dead) == deceased(cells_of(*world_cells)),
        cells_of(dead).subset_of(cells_of(*world_cells)),
{
    let ghost live = cells_of(*world_cells);
    let listed = live_set::to_vec(world_cells);
    let mut dead = live_set::empty();
    let mut i: usize = 0;
    while i < listed.len()
        invariant
            i <= listed.len(),
            live == cells_of(*world_cells),
            within_margin(live, 1),
            listed@.to_set() == live,
            cells_of(dead) =~= Set::new(
                |c: Cell|
                    (neighbour_count(live, c) < 2 || neighbour_count(live, c) > 3) && exists|k: int|
                        0 <= k < i && #[trigger] listed@[k] == c,
            ),
        decreases listed.len() - i,
    {
        let cell = listed[i];
        assert(listed@.to_set().contains(cell));
        let num_neighbours: usize = get_num_neighbours(world_cells, cell);
        if num_neighbours < 2 || 3 < num_neighbours {
            live_set::insert(&mut dead, cell);
        }
        i += 1;
    }
    proof {
        assert forall|c: Cell| cells_of(dead).contains(c) <==> deceased(live).contains(c) by {
            lemma_listed_is_contained(listed@, c);
        }
        assert(cells_of(dead) =~= deceased(live));
    }
    dead
}

/// A cell is in the set of a list's items exactly if it stands at some index of the list.
proof fn lemma_listed_is_contained(listed: Seq<Cell>, c: Cell)
    ensures
        listed.to_set().contains(c) <==> exists|k: int|
            0 <= k < listed.len() && #[trigger] listed[k] == c,
{
    assert(listed.to_set().contains(c) <==> listed.contains(c));
}

} // verus!
