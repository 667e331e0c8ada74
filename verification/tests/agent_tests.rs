use wumpus_world::agent::Agent;
use wumpus_world::attr::Attr;
use wumpus_world::attr::AttrSet;

#[test]
fn fresh_agent_decides_to_visit_the_start_cell() {
    let a = Agent::new();
    assert_eq!(a.decide_next_move(), Some((0, 0)));
}

#[test]
fn after_first_update_at_start_no_decision_is_left() {
    // The start cell is the only safe cell; once it is recorded in the
    // knowledge base, every safe cell has been visited.
    let mut a = Agent::new();
    let goal = a.update_knowledge((0, 0), AttrSet::empty());
    assert!(!goal);
    assert_eq!(a.decide_next_move(), None);
}

#[test]
fn glitter_raises_the_goal_signal() {
    let mut a = Agent::new();
    let mut p = AttrSet::empty();
    p.insert(Attr::Glitter);
    let goal = a.update_knowledge((1, 1), p);
    assert!(goal);
}

#[test]
fn breeze_or_stench_keeps_a_cell_out_of_the_safe_set() {
    let mut a = Agent::new();
    a.update_knowledge((0, 0), AttrSet::empty());
    let mut breezy = AttrSet::empty();
    breezy.insert(Attr::Breeze);
    let goal = a.update_knowledge((1, 0), breezy);
    assert!(!goal);
    // (1,0) was not marked safe, so nothing is left to visit.
    assert_eq!(a.decide_next_move(), None);
    let mut smelly = AttrSet::empty();
    smelly.insert(Attr::Stench);
    a.update_knowledge((0, 1), smelly);
    assert_eq!(a.decide_next_move(), None);
}

#[test]
fn empty_percept_marks_only_the_visited_cell_safe() {
    let mut a = Agent::new();
    // Recording an empty percept away from the start adds that cell to
    // the safe set and the knowledge base at once; the start cell is
    // then the one safe cell not yet visited.
    let goal = a.update_knowledge((1, 0), AttrSet::empty());
    assert!(!goal);
    assert_eq!(a.decide_next_move(), Some((0, 0)));
}

#[test]
fn update_overwrites_the_entry_for_a_position() {
    let mut a = Agent::new();
    let mut breezy = AttrSet::empty();
    breezy.insert(Attr::Breeze);
    a.update_knowledge((0, 0), breezy);
    assert_eq!(a.decide_next_move(), None);
    // A later empty percept at the same cell re-adds it to the safe
    // set, and the knowledge base still covers it.
    a.update_knowledge((0, 0), AttrSet::empty());
    assert_eq!(a.decide_next_move(), None);
}
