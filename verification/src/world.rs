//! One generation of the game, and the step from it to the next.

use vstd::prelude::*;
use crate::live_set;
use crate::live_set::{Cell, cells_of};
use crate::neighbourhood::{adjacent, inset};
use crate::rule::{get_deceased, get_newborns, next_generation, within_margin};

verus! {

/// The live cells after `n` ticks, starting from `live`.
pub open spec fn generation(live: Set<Cell>, n: nat) -> Set<Cell>
    decreases n,
{
    if n == 0 {
        live
    } else {
        next_generation(generation(live, (n - 1) as nat))
    }
}

/// Each of the first `n` generations keeps two cells away from the ends of
/// `i64`, so that the neighbours of its candidates can be computed.
pub open spec fn stays_in_range(live: Set<Cell>, n: nat) -> bool {
    forall|k: nat| k < n ==> within_margin(#[trigger] generation(live, k), 2)
}

/// Zero ticks change nothing.
pub proof fn lemma_generation_zero(live: Set<Cell>)
    ensures
        generation(live, 0) == live,
{
}

/// Stepping `a + b` times is stepping `a` times and then `b` times.
pub proof fn lemma_generation_composes(live: Set<Cell>, a: nat, b: nat)
    ensures
        generation(live, a + b) == generation(generation(live, a), b),
    decreases b,
{
    if b > 0 {
        lemma_generation_composes(live, a, (b - 1) as nat);
        assert((a + b - 1) as nat == a + (b - 1) as nat);
    }
}

/// There is room for `a + b` ticks exactly if there is room for `a` ticks and
/// then for `b` more.
pub proof fn lemma_range_composes(live: Set<Cell>, a: nat, b: nat)
    ensures
        stays_in_range(live, a + b) <==> stays_in_range(live, a) && stays_in_range(
            generation(live, a),
            b,
        ),
{
    let later = generation(live, a);
    if stays_in_range(live, a + b) {
        assert forall|k: nat| k < b implies within_margin(#[trigger] generation(later, k), 2) by {
            lemma_generation_composes(live, a, k);
            assert(within_margin(generation(live, a + k), 2));
        }
    }
    if stays_in_range(live, a) && stays_in_range(later, b) {
        assert forall|k: nat| k < a + b implies within_margin(
            #[trigger] generation(live, k),
            2,
        ) by {
            if k >= a {
                lemma_generation_composes(live, a, (k - a) as nat);
                assert(within_margin(generation(later, (k - a) as nat), 2));
            }
        }
    }
}

/// An empty world stays empty for ever.
pub proof fn lemma_empty_is_absorbing(n: nat)
    ensures
        generation(Set::<Cell>::empty(), n) == Set::<Cell>::empty(),
    decreases n,
{
    if n > 0 {
        lemma_empty_is_absorbing((n - 1) as nat);
        crate::rule::lemma_empty_stays_empty();
    }
}

/// Life spreads by at most one cell per tick: a generation that keeps `margin`
/// away from the ends of `i64` is followed by one that keeps `margin - 1` away.
pub proof fn lemma_step_spreads_by_one(live: Set<Cell>, margin: int)
    requires
        within_margin(live, margin),
    ensures
        within_margin(next_generation(live), margin - 1),
{
    assert forall|p: Cell| #[trigger] next_generation(live).contains(p) implies inset(
        p,
        margin - 1,
    ) by {
        if live.contains(p) {
        } else {
            let c = choose|c: Cell| live.contains(c) && #[trigger] adjacent(c, p);
            assert(inset(c, margin));
        }
    }
}

/// A world that starts `n + 1` cells or more away from the ends of `i64`
/// can be stepped `n` times.
pub proof fn lemma_margin_gives_range(live: Set<Cell>, n: nat)
    requires
        within_margin(live, n as int + 1),
    ensures
        stays_in_range(live, n),
        within_margin(generation(live, n), 1),
{
    assert forall|k: nat| k <= n implies within_margin(
        #[trigger] generation(live, k),
        n + 1 - k,
    ) by {
        lemma_generation_margin(live, n as int + 1, k);
    }
}

/// Each tick costs at most one cell of margin.
proof fn lemma_generation_margin(live: Set<Cell>, margin: int, k: nat)
    requires
        within_margin(live, margin),
    ensures
        within_margin(generation(live, k), margin - k),
    decreases k,
{
    if k > 0 {
        lemma_generation_margin(live, margin, (k - 1) as nat);
        lemma_step_spreads_by_one(generation(live, (k - 1) as nat), margin - (k - 1));
    }
}

/// The live cells of one generation.
#[derive(Debug)]
pub struct World {
    pub cells: im::HashSet<Cell>,
}

impl View for World {
    type V = Set<Cell>;

    open spec fn view(&self) -> Set<Cell> {
        cells_of(self.cells)
    }
}

impl World {
    /// The world one tick later: the live cells without those that die, and
    /// with those that are born.
    pub fn next_step(self) -> (next: World)
        requires
            within_margin(self@, 2),
        ensures
            next@ == next_generation(self@),
    {
        let World { cells } = self;
        let deceased = get_deceased(&cells);
        let newborns = get_newborns(&cells);
        let next_cells = live_set::union(
            live_set::relative_complement(live_set::duplicate(&cells), deceased),
            newborns,
        );
        World { cells: next_cells }
    }

    /// The world `n` ticks later.
    pub fn forward(self, n: usize) -> (later: World)
        requires
            stays_in_range(self@, n as nat),
        ensures
            later@ == generation(self@, n as nat),
            n == 0 ==> later@ == self@,
    {
        let ghost start = self@;
        let mut world = self;
        let mut i: usize = 0;
        while i < n
            invariant
                i <= n,
                stays_in_range(start, n as nat),
                world@ == generation(start, i as nat),
            decreases n - i,
        {
            assert(within_margin(generation(start, i as nat), 2));
            world = world.next_step();
            i += 1;
        }
        world
    }

    /// Whether the next generation can be computed: every live cell keeps two
    /// away from the ends of `i64`.
    pub fn has_room(&self) -> (roomy: bool)
        ensures
            roomy == within_margin(self@, 2),
    {
        let listed = live_set::to_vec(&self.cells);
        let mut i: usize = 0;
        while i < listed.len()
            invariant
                i <= listed.len(),
                listed@.to_set() == self@,
                forall|k: int| 0 <= k < i ==> inset(#[trigger] listed@[k], 2),
            decreases listed.len() - i,
        {
            let (x, y) = listed[i];
            if x < i64::MIN + 2 || x > i64::MAX - 2 || y < i64::MIN + 2 || y > i64::MAX - 2 {
                assert(listed@.to_set().contains(listed@[i as int]));
                return false;
            }
            i += 1;
        }
        proof {
            assert forall|c: Cell| #[trigger] self@.contains(c) implies inset(c, 2) by {
                assert(listed@.contains(c));
            }
        }
        true
    }

    /// The world `n` ticks later, or `None` where a generation on the way comes
    /// too close to the ends of `i64` to be stepped.
    pub fn checked_forward(self, n: usize) -> (later: Option<World>)
        ensures
            later is Some <==> stays_in_range(self@, n as nat),
            later matches Some(world) ==> world@ == generation(self@, n as nat),
    {
        let ghost start = self@;
        let mut world = self;
        let mut i: usize = 0;
        while i < n
            invariant
                i <= n,
                start == self@,
                stays_in_range(start, i as nat),
                world@ == generation(start, i as nat),
            decreases n - i,
        {
            if !world.has_room() {
                assert(!within_margin(generation(start, i as nat), 2));
                return None;
            }
            world = world.next_step();
            i += 1;
        }
        Some(world)
    }
}

} // verus!
