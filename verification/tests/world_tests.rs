use wumpus_world::attr::Attr;
use wumpus_world::attr::AttrSet;
use wumpus_world::world::ArrowOutcome;
use wumpus_world::world::World;

fn count_cells_with(w: &World, a: Attr) -> usize {
    let n = w.grid_size();
    let mut count = 0;
    for x in 0..n {
        for y in 0..n {
            if w.percept((x, y)).contains(a) {
                count += 1;
            }
        }
    }
    count
}

#[test]
fn new_world_is_empty() {
    let w = World::new(4);
    assert_eq!(w.grid_size(), 4);
    assert_eq!(w.agent_position(), (0, 0));
    assert_eq!(w.agent_direction(), 90);
    assert!(w.has_arrow());
    for x in 0..4 {
        for y in 0..4 {
            assert!(w.percept((x, y)).is_empty());
        }
    }
}

#[test]
fn wumpus_lands_interior_on_smallest_grid() {
    // On a 3x3 grid the interior band [1, N-2] is the single cell (1,1),
    // so the random placement is forced there.
    let mut w = World::new(3);
    w.place_wumpus();
    assert!(w.percept((1, 1)).contains(Attr::Wumpus));
    assert!(w.percept((0, 1)).contains(Attr::Stench));
    assert!(w.percept((2, 1)).contains(Attr::Stench));
    assert!(w.percept((1, 0)).contains(Attr::Stench));
    assert!(w.percept((1, 2)).contains(Attr::Stench));
    for x in 0..3 {
        for y in 0..3 {
            if (x, y) != (1, 1) {
                assert!(!w.percept((x, y)).contains(Attr::Wumpus));
            }
        }
    }
}

#[test]
fn gold_lands_interior_on_smallest_grid() {
    let mut w = World::new(3);
    w.place_gold_and_glitter();
    assert!(w.percept((1, 1)).contains(Attr::Gold));
    assert!(w.percept((1, 1)).contains(Attr::Glitter));
    for x in 0..3 {
        for y in 0..3 {
            if (x, y) != (1, 1) {
                assert!(w.percept((x, y)).is_empty());
            }
        }
    }
}

#[test]
fn stench_marks_exactly_the_four_neighbors() {
    // Wumpus at (1,1) on a 4x4 grid: Stench on (0,1),(2,1),(1,0),(1,2),
    // the cell itself holds only the Wumpus, diagonals stay clean.
    let mut w = World::new(4);
    w.place_wumpus_at(1, 1);
    let stench = [(0, 1), (2, 1), (1, 0), (1, 2)];
    for x in 0..4 {
        for y in 0..4 {
            let c = w.percept((x, y));
            if stench.contains(&(x, y)) {
                assert!(c.contains(Attr::Stench));
                assert!(!c.contains(Attr::Wumpus));
            } else {
                assert!(!c.contains(Attr::Stench));
            }
        }
    }
    let at_wumpus = w.percept((1, 1));
    assert!(at_wumpus.contains(Attr::Wumpus));
    assert!(!at_wumpus.contains(Attr::Stench));
    assert!(!at_wumpus.contains(Attr::Breeze));
    assert!(!at_wumpus.contains(Attr::Pit));
    assert!(!at_wumpus.contains(Attr::Gold));
    assert!(!at_wumpus.contains(Attr::Glitter));
}

#[test]
fn breeze_at_a_corner_touches_two_cells() {
    // A pit in the corner has only two in-bounds orthogonal neighbors:
    // propagation never wraps and never reaches a diagonal.
    let mut w = World::new(4);
    w.place_pit_at(0, 0);
    assert!(w.percept((0, 0)).contains(Attr::Pit));
    assert!(w.percept((1, 0)).contains(Attr::Breeze));
    assert!(w.percept((0, 1)).contains(Attr::Breeze));
    assert_eq!(count_cells_with(&w, Attr::Breeze), 2);
    assert!(!w.percept((1, 1)).contains(Attr::Breeze));
    assert!(!w.percept((3, 0)).contains(Attr::Breeze));
    assert!(!w.percept((0, 3)).contains(Attr::Breeze));
}

#[test]
fn place_pits_on_four_grid_places_exactly_three() {
    let mut w = World::new(4);
    w.place_pits();
    assert_eq!(count_cells_with(&w, Attr::Pit), 3);
    // Each pit landed on a cell that was empty immediately before its
    // placement, so a pit cell can have gathered nothing but Breeze.
    for x in 0..4 {
        for y in 0..4 {
            let c = w.percept((x, y));
            if c.contains(Attr::Pit) {
                assert!(!c.contains(Attr::Wumpus));
                assert!(!c.contains(Attr::Gold));
                assert!(!c.contains(Attr::Glitter));
                assert!(!c.contains(Attr::Stench));
            }
        }
    }
}

#[test]
fn place_pits_target_is_three_quarters_rounded_down() {
    // floor(3N/4): two pits on a 3x3 grid, four on a 6x6 grid.
    let mut w3 = World::new(3);
    w3.place_pits();
    assert_eq!(count_cells_with(&w3, Attr::Pit), 2);
    let mut w6 = World::new(6);
    w6.place_pits();
    assert_eq!(count_cells_with(&w6, Attr::Pit), 4);
}

#[test]
fn arrow_is_spent_once_and_then_reports_no_arrows() {
    let mut w = World::new(4);
    assert!(w.has_arrow());
    let first = w.shot_arrow();
    assert_eq!(first, ArrowOutcome::Lost);
    assert!(!w.has_arrow());
    assert_eq!(w.shot_arrow(), ArrowOutcome::NoArrows);
    assert_eq!(w.shot_arrow(), ArrowOutcome::NoArrows);
    assert!(!w.has_arrow());
}

#[test]
fn lost_shot_alters_no_grid_attribute() {
    let mut w = World::new(4);
    w.place_wumpus_at(2, 2);
    // The agent at (0,0) faces 90: the ray runs down column 0 and
    // misses the Wumpus at (2,2).
    let r = w.shot_arrow();
    assert_eq!(r, ArrowOutcome::Lost);
    assert!(!w.has_arrow());
    assert!(w.percept((2, 2)).contains(Attr::Wumpus));
    assert!(w.percept((1, 2)).contains(Attr::Stench));
    assert!(w.percept((3, 2)).contains(Attr::Stench));
    assert!(w.percept((2, 1)).contains(Attr::Stench));
    assert!(w.percept((2, 3)).contains(Attr::Stench));
    assert_eq!(count_cells_with(&w, Attr::Stench), 4);
}

#[test]
fn killing_shot_removes_wumpus_but_not_stench() {
    let mut w = World::new(4);
    w.place_wumpus_at(2, 1);
    w.set_agent_position((0, 1));
    let r = w.shot_arrow();
    assert_eq!(r, ArrowOutcome::Killed);
    assert!(!w.has_arrow());
    assert!(!w.percept((2, 1)).contains(Attr::Wumpus));
    // Residual Stench from the dead Wumpus is never retracted.
    assert!(w.percept((1, 1)).contains(Attr::Stench));
    assert!(w.percept((3, 1)).contains(Attr::Stench));
}

#[test]
fn rotate_left_then_right_restores_every_facing() {
    let mut w = World::new(4);
    for _ in 0..4 {
        let before = w.agent_direction();
        w.rotate_agent(true);
        w.rotate_agent(false);
        assert_eq!(w.agent_direction(), before);
        w.rotate_agent(false);
    }
    assert_eq!(w.agent_direction(), 90);
}

#[test]
fn rotation_steps_through_the_four_cardinals() {
    let mut w = World::new(4);
    assert_eq!(w.agent_direction(), 90);
    w.rotate_agent(true);
    assert_eq!(w.agent_direction(), 0);
    w.rotate_agent(false);
    assert_eq!(w.agent_direction(), 90);
    w.rotate_agent(false);
    assert_eq!(w.agent_direction(), 180);
    w.rotate_agent(false);
    assert_eq!(w.agent_direction(), 270);
    w.rotate_agent(false);
    assert_eq!(w.agent_direction(), 0);
}

#[test]
fn first_move_steps_to_one_zero() {
    let mut w = World::new(4);
    w.move_agent();
    assert_eq!(w.agent_position(), (1, 0));
}

#[test]
fn move_at_the_edge_is_a_silent_no_op() {
    let mut w = World::new(3);
    w.move_agent();
    w.move_agent();
    assert_eq!(w.agent_position(), (2, 0));
    // A further step in direction 90 would leave the grid.
    w.move_agent();
    assert_eq!(w.agent_position(), (2, 0));
    // Facing 180 the step from column 0 would also leave the grid.
    w.rotate_agent(false);
    w.move_agent();
    assert_eq!(w.agent_position(), (2, 0));
}

#[test]
fn percept_returns_an_independent_copy() {
    let w = World::new(3);
    let mut p = w.percept((0, 0));
    p.insert(Attr::Gold);
    assert!(p.contains(Attr::Gold));
    assert!(!w.percept((0, 0)).contains(Attr::Gold));
    assert!(w.percept((0, 0)).is_empty());
}

#[test]
fn attr_set_membership_basics() {
    let mut s = AttrSet::empty();
    assert!(s.is_empty());
    s.insert(Attr::Stench);
    assert!(s.contains(Attr::Stench));
    assert!(!s.contains(Attr::Breeze));
    assert!(!s.is_empty());
    s.insert(Attr::Stench);
    assert!(s.contains(Attr::Stench));
    s.remove(Attr::Stench);
    assert!(!s.contains(Attr::Stench));
    assert!(s.is_empty());
}
