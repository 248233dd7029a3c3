use game_of_rife::live_set::Cell;
use game_of_rife::rule::get_newborns;
use game_of_rife::World;
use im::HashSet;

fn world(listed: &[Cell]) -> World {
    let mut set: HashSet<Cell> = HashSet::new();
    for cell in listed {
        set.insert(*cell);
    }
    World { cells: set }
}

fn cells(listed: &[Cell]) -> HashSet<Cell> {
    world(listed).cells
}

const BLINKER: [Cell; 3] = [(-1, 0), (0, 0), (1, 0)];

const GLIDER: [Cell; 5] = [(0, 0), (1, 0), (2, 0), (2, 1), (1, 2)];

#[test]
fn forward_zero_is_the_identity() {
    assert_eq!(world(&GLIDER).forward(0).cells, cells(&GLIDER));
    assert_eq!(world(&[]).forward(0).cells, cells(&[]));
    assert_eq!(world(&[(9, 9)]).forward(0).cells, cells(&[(9, 9)]));
}

#[test]
fn forward_one_is_next_step() {
    assert_eq!(world(&GLIDER).forward(1).cells, world(&GLIDER).next_step().cells);
}

#[test]
fn forward_composes() {
    for a in 0..6usize {
        for b in 0..6usize {
            let at_once = world(&GLIDER).forward(a + b).cells;
            let in_two = world(&GLIDER).forward(a).forward(b).cells;
            assert_eq!(at_once, in_two);
        }
    }
}

#[test]
fn empty_world_stays_empty() {
    assert_eq!(world(&[]).next_step().cells, cells(&[]));
    assert_eq!(world(&[]).forward(25).cells, cells(&[]));
}

#[test]
fn lone_cell_dies() {
    assert_eq!(world(&[(3, 3)]).next_step().cells, cells(&[]));
}

#[test]
fn blinker_has_period_two() {
    let once = world(&BLINKER).next_step();
    assert_eq!(once.cells, cells(&[(0, 1), (0, 0), (0, -1)]));
    let twice = once.next_step();
    assert_eq!(twice.cells, cells(&BLINKER));
    assert_eq!(world(&BLINKER).forward(2).cells, cells(&BLINKER));
}

#[test]
fn three_cells_grow_into_a_block_that_stays() {
    let corner: [Cell; 3] = [(0, 0), (0, 1), (1, 0)];
    let block: [Cell; 4] = [(0, 0), (0, 1), (1, 0), (1, 1)];
    assert_eq!(get_newborns(&cells(&corner)), cells(&[(1, 1)]));
    assert_eq!(world(&corner).next_step().cells, cells(&block));
    assert_eq!(world(&block).next_step().cells, cells(&block));
    assert_eq!(world(&corner).forward(10).cells, cells(&block));
}

#[test]
fn glider_moves_one_cell_in_four_ticks() {
    let moved: Vec<Cell> = GLIDER.iter().map(|c: &Cell| (c.0 + 1, c.1 - 1)).collect();
    assert_eq!(world(&GLIDER).forward(4).cells, cells(&moved));
}

#[test]
fn glider_after_a_thousand_ticks() {
    let moved: Vec<Cell> = GLIDER.iter().map(|c: &Cell| (c.0 + 250, c.1 - 250)).collect();
    assert_eq!(world(&GLIDER).forward(1000).cells, cells(&moved));
}

#[test]
fn has_room_two_cells_from_the_edge() {
    assert!(world(&[]).has_room());
    assert!(world(&GLIDER).has_room());
    assert!(world(&[(i64::MAX - 2, i64::MIN + 2)]).has_room());
    assert!(!world(&[(i64::MAX - 1, 0)]).has_room());
    assert!(!world(&[(0, i64::MAX - 1)]).has_room());
    assert!(!world(&[(i64::MIN + 1, 0)]).has_room());
    assert!(!world(&[(0, 0), (0, i64::MIN + 1)]).has_room());
    assert!(!world(&[(i64::MAX, i64::MAX)]).has_room());
}

#[test]
fn step_at_the_last_cell_with_room() {
    let x: i64 = i64::MAX - 2;
    let y: i64 = i64::MIN + 2;
    let upright: [Cell; 3] = [(x, y), (x, y + 1), (x, y + 2)];
    let flat: [Cell; 3] = [(x - 1, y + 1), (x, y + 1), (x + 1, y + 1)];
    assert_eq!(world(&upright).next_step().cells, cells(&flat));
}

#[test]
fn checked_forward_agrees_with_forward() {
    for n in 0..9usize {
        let checked = world(&GLIDER).checked_forward(n);
        assert!(checked.is_some());
        assert_eq!(checked.unwrap().cells, world(&GLIDER).forward(n).cells);
    }
}

#[test]
fn checked_forward_zero_needs_no_room() {
    let edge: [Cell; 1] = [(i64::MAX, i64::MIN)];
    let kept = world(&edge).checked_forward(0);
    assert!(kept.is_some());
    assert_eq!(kept.unwrap().cells, cells(&edge));
}

#[test]
fn checked_forward_stops_at_the_edge() {
    assert!(world(&[(i64::MAX - 1, 0)]).checked_forward(1).is_none());
    assert!(world(&[(i64::MAX, 0)]).checked_forward(3).is_none());
}

#[test]
fn checked_forward_stops_when_life_reaches_the_edge() {
    let x: i64 = i64::MAX - 2;
    let upright: [Cell; 3] = [(x, -1), (x, 0), (x, 1)];
    assert!(world(&upright).checked_forward(1).is_some());
    assert!(world(&upright).checked_forward(2).is_none());
}

#[test]
fn checked_forward_lets_the_dying_pass() {
    let lone: [Cell; 1] = [(i64::MAX - 2, 7)];
    let after = world(&lone).checked_forward(5);
    assert!(after.is_some());
    assert_eq!(after.unwrap().cells, cells(&[]));
}

#[test]
fn world_prints_its_cells() {
    let text = format!("{:?}", world(&[(1, 2)]));
    assert!(text.contains("World"));
    assert!(text.contains("(1, 2)"));
}
