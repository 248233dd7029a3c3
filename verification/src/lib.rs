//! Conway's Game of Life on an unbounded lattice, kept as a sparse set of live cells.

use vstd::prelude::*;

pub mod codec;
pub mod live_set;
pub mod neighbourhood;
pub mod rule;
pub mod world;

pub use crate::codec::EvolveError;
pub use crate::live_set::Cell;
pub use crate::world::World;

use crate::codec::{decode, encode, encodes, into_boxed, paired};
use crate::world::{generation, stays_in_range};

verus! {

/// Runs the game for `steps` ticks on the cells that `alive_cells` lists as
/// `x0, y0, x1, y1, ...`, and lists the cells that are alive afterwards in the
/// same way, each once. A list of odd length is refused.
pub fn evolve(alive_cells: &[i64], steps: usize) -> (evolved: Result<Box<[i64]>, EvolveError>)
    requires
        alive_cells@.len() % 2 == 0 ==> stays_in_range(
            paired(alive_cells@).to_set(),
            steps as nat,
        ),
    ensures
        match evolved {
            Ok(coords) => alive_cells@.len() % 2 == 0 && encodes(
                coords@,
                generation(paired(alive_cells@).to_set(), steps as nat),
            ),
            Err(e) => alive_cells@.len() % 2 == 1 && e == EvolveError::InvalidInput,
        },
{
    match decode(alive_cells) {
        Ok(cells) => {
            let World { cells: new_cells } = (World { cells }).forward(steps);
            Ok(into_boxed(encode(&new_cells)))
        },
        Err(e) => Err(e),
    }
}

/// As `evolve`, for any list: `Ok(None)` where the cells come too close to the
/// ends of `i64` within `steps` ticks for the game to be run.
pub fn checked_evolve(alive_cells: &[i64], steps: usize) -> (evolved: Result<
    Option<Box<[i64]>>,
    EvolveError,
>)
    ensures
        match evolved {
            Ok(Some(coords)) => {
                &&& alive_cells@.len() % 2 == 0
                &&& stays_in_range(paired(alive_cells@).to_set(), steps as nat)
                &&& encodes(coords@, generation(paired(alive_cells@).to_set(), steps as nat))
            },
            Ok(None) => {
                &&& alive_cells@.len() % 2 == 0
                &&& !stays_in_range(paired(alive_cells@).to_set(), steps as nat)
            },
            Err(e) => alive_cells@.len() % 2 == 1 && e == EvolveError::InvalidInput,
        },
{
    match decode(alive_cells) {
        Ok(cells) => {
            match (World { cells }).checked_forward(steps) {
                Some(world) => Ok(Some(into_boxed(encode(&world.cells)))),
                None => Ok(None),
            }
        },
        Err(e) => Err(e),
    }
}

} // verus!
