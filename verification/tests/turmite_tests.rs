use turmite::engine::{step, AntState, Turmite};
use turmite::error::TurmiteError;
use turmite::grid::TileGrid;
use turmite::heading::Heading;
use turmite::marker::{Marker, CHANNEL_MAX, CHANNEL_MIN};
use turmite::pattern::{AntPattern, TurnCommand};

fn foreign_marker() -> Marker {
    Marker { red: 0, green: 0, blue: 0 }
}

#[test]
fn parse_accepts_two_valid() {
    let t = AntPattern::parse(String::from("RL")).unwrap();
    assert_eq!(t.len(), 2);
    assert_eq!(t.turn_at(0), TurnCommand::TurnRight);
    assert_eq!(t.turn_at(1), TurnCommand::TurnLeft);
}

#[test]
fn parse_supports_full_alphabet() {
    let t = AntPattern::parse(String::from("rLuN")).unwrap();
    assert_eq!(t.len(), 4);
    assert_eq!(t.turn_at(0), TurnCommand::TurnRight);
    assert_eq!(t.turn_at(1), TurnCommand::TurnLeft);
    assert_eq!(t.turn_at(2), TurnCommand::UTurn);
    assert_eq!(t.turn_at(3), TurnCommand::NoTurn);
}

#[test]
fn parse_skips_unrecognized_characters() {
    let t = AntPattern::parse(String::from("aR bLc?U")).unwrap();
    assert_eq!(t.len(), 3);
    assert_eq!(t.turn_at(0), TurnCommand::TurnRight);
    assert_eq!(t.turn_at(1), TurnCommand::TurnLeft);
    assert_eq!(t.turn_at(2), TurnCommand::UTurn);
}

#[test]
fn parse_rejects_single_noop_symbol() {
    assert_eq!(
        AntPattern::parse(String::from("N")).unwrap_err(),
        TurmiteError::InvalidPattern
    );
}

#[test]
fn parse_rejects_too_few_entries() {
    assert_eq!(
        AntPattern::parse(String::from("")).unwrap_err(),
        TurmiteError::InvalidPattern
    );
    assert_eq!(
        AntPattern::parse(String::from("r")).unwrap_err(),
        TurmiteError::InvalidPattern
    );
    assert_eq!(
        AntPattern::parse(String::from("xyz!")).unwrap_err(),
        TurmiteError::InvalidPattern
    );
}

#[test]
fn fresh_markers_stay_in_channel_range() {
    let t = AntPattern::parse(String::from("rlun")).unwrap();
    for i in 0..t.len() {
        let m = t.marker_at(i);
        assert!(CHANNEL_MIN <= m.red && m.red < CHANNEL_MAX);
        assert!(CHANNEL_MIN <= m.green && m.green < CHANNEL_MAX);
        assert!(CHANNEL_MIN <= m.blue && m.blue < CHANNEL_MAX);
    }
}

#[test]
fn first_entry_pairs_second_marker_with_first_turn() {
    let t = AntPattern::parse(String::from("rl")).unwrap();
    let (m, turn) = t.first();
    assert_eq!(m, t.marker_at(1));
    assert_eq!(turn, t.turn_at(0));
}

#[test]
fn next_entry_cyclic_wraparound() {
    let t = AntPattern::parse(String::from("ru")).unwrap();
    assert_eq!(t.len(), 2);
    assert_eq!(t.turn_at(0), TurnCommand::TurnRight);
    assert_eq!(t.turn_at(1), TurnCommand::UTurn);
    let (m, turn) = t.next(t.marker_at(0)).unwrap();
    assert_eq!(m, t.marker_at(1));
    assert_eq!(turn, t.turn_at(0));
    let (m, turn) = t.next(t.marker_at(1)).unwrap();
    assert_eq!(m, t.marker_at(0));
    assert_eq!(turn, t.turn_at(1));
}

#[test]
fn next_entry_walks_longer_table() {
    let t = AntPattern::parse(String::from("rlun")).unwrap();
    for i in 0..t.len() {
        let (m, turn) = t.next(t.marker_at(i)).unwrap();
        assert_eq!(m, t.marker_at((i + 1) % t.len()));
        assert_eq!(turn, t.turn_at(i));
    }
}

#[test]
fn next_entry_rejects_foreign_marker() {
    let t = AntPattern::parse(String::from("rl")).unwrap();
    assert_eq!(t.next(foreign_marker()).unwrap_err(), TurmiteError::UnknownMarker);
}

#[test]
fn error_descriptions() {
    assert_eq!(
        TurmiteError::InvalidPattern.describe(),
        "incorrect pattern: should be at least 2 correct values (L, R, U, N)"
    );
    assert_eq!(TurmiteError::UnknownMarker.describe(), "can't find matching color");
}

#[test]
fn uturn_is_involutive() {
    for h in [Heading::North, Heading::South, Heading::East, Heading::West] {
        let mut a = h;
        a.apply_turn(TurnCommand::UTurn);
        a.apply_turn(TurnCommand::UTurn);
        assert_eq!(a, h);
    }
}

#[test]
fn noturn_is_identity() {
    for h in [Heading::North, Heading::South, Heading::East, Heading::West] {
        let mut a = h;
        a.apply_turn(TurnCommand::NoTurn);
        assert_eq!(a, h);
    }
}

#[test]
fn left_and_right_cancel() {
    for h in [Heading::North, Heading::South, Heading::East, Heading::West] {
        let mut a = h;
        a.apply_turn(TurnCommand::TurnLeft);
        a.apply_turn(TurnCommand::TurnRight);
        assert_eq!(a, h);
        a.apply_turn(TurnCommand::TurnRight);
        a.apply_turn(TurnCommand::TurnLeft);
        assert_eq!(a, h);
    }
}

#[test]
fn rotations_follow_transition_table() {
    let mut h = Heading::North;
    h.rotate_left();
    assert_eq!(h, Heading::West);
    h.rotate_left();
    assert_eq!(h, Heading::South);
    h.rotate_right();
    assert_eq!(h, Heading::West);
    h.rotate_back();
    assert_eq!(h, Heading::East);
}

#[test]
fn grid_set_and_get() {
    let mut g = TileGrid::new();
    assert_eq!(g.len(), 0);
    assert_eq!(g.get(3, -4), None);
    let m = foreign_marker();
    g.set(3, -4, m);
    assert_eq!(g.len(), 1);
    assert_eq!(g.get(3, -4), Some(m));
    let m2 = Marker { red: 1, green: 2, blue: 3 };
    g.set(3, -4, m2);
    assert_eq!(g.len(), 1);
    assert_eq!(g.get(3, -4), Some(m2));
    g.set(0, 0, m);
    assert_eq!(g.len(), 2);
    assert_eq!(g.get(3, -4), Some(m2));
    assert_eq!(g.get(0, 0), Some(m));
}

#[test]
fn rl_scenario_first_ticks() {
    let t = AntPattern::parse(String::from("RL")).unwrap();
    let first_marker = t.marker_at(1);
    let mut sim = Turmite::new(t);

    // Tick 1: the origin is blank; the first-entry rule paints it with the
    // table's second marker and turns right.
    sim.step().unwrap();
    assert_eq!(sim.grid.get(0, 0), Some(first_marker));
    assert_eq!(sim.ant.heading, Heading::East);
    assert_eq!((sim.ant.x, sim.ant.y), (1, 0));

    // Ticks 2-4: each lands on a blank cell, so the first-visit branch
    // recurs, turning right each time.
    sim.step().unwrap();
    assert_eq!(sim.grid.get(1, 0), Some(first_marker));
    assert_eq!(sim.ant.heading, Heading::South);
    assert_eq!((sim.ant.x, sim.ant.y), (1, -1));

    sim.step().unwrap();
    assert_eq!(sim.ant.heading, Heading::West);
    assert_eq!((sim.ant.x, sim.ant.y), (0, -1));

    sim.step().unwrap();
    assert_eq!(sim.ant.heading, Heading::North);
    assert_eq!((sim.ant.x, sim.ant.y), (0, 0));
    assert_eq!(sim.grid.len(), 4);
}

#[test]
fn rl_scenario_revisit_exercises_next_entry() {
    let t = AntPattern::parse(String::from("RL")).unwrap();
    let m0 = t.marker_at(0);
    let m1 = t.marker_at(1);
    // A collision of the two random markers would change the lookup; it is
    // astronomically unlikely, but skip cleanly rather than fail on it.
    if m0 == m1 {
        return;
    }
    let mut sim = Turmite::new(t);
    for _ in 0..4 {
        sim.step().unwrap();
    }
    // Tick 5 revisits the origin, which holds the table's second marker: the
    // cyclic lookup repaints it with the first marker and turns left.
    assert_eq!((sim.ant.x, sim.ant.y), (0, 0));
    sim.step().unwrap();
    assert_eq!(sim.grid.get(0, 0), Some(m0));
    assert_eq!(sim.ant.heading, Heading::West);
    assert_eq!((sim.ant.x, sim.ant.y), (-1, 0));
    assert_eq!(sim.grid.len(), 4);
}

#[test]
fn runs_are_deterministic() {
    let t = AntPattern::parse(String::from("rlun")).unwrap();
    let mut sim1 = Turmite::new(t.clone());
    let mut sim2 = Turmite::new(t);
    for _ in 0..200 {
        let r1 = sim1.step();
        let r2 = sim2.step();
        assert_eq!(r1, r2);
        assert_eq!(sim1.ant, sim2.ant);
        assert_eq!(sim1.grid, sim2.grid);
    }
}

#[test]
fn run_agrees_with_single_steps() {
    let t = AntPattern::parse(String::from("rl")).unwrap();
    let mut by_run = Turmite::new(t.clone());
    let mut by_steps = Turmite::new(t);
    by_run.run(150).unwrap();
    for _ in 0..150 {
        by_steps.step().unwrap();
    }
    assert_eq!(by_run.ant, by_steps.ant);
    assert_eq!(by_run.grid, by_steps.grid);
}

#[test]
fn visited_cells_are_never_removed() {
    let t = AntPattern::parse(String::from("rlun")).unwrap();
    let mut sim = Turmite::new(t);
    let mut seen: Vec<(i64, i64)> = Vec::new();
    let mut prev_len = 0;
    for _ in 0..100 {
        let here = (sim.ant.x, sim.ant.y);
        sim.step().unwrap();
        if !seen.contains(&here) {
            seen.push(here);
        }
        // The cell just visited is painted, every earlier cell is still
        // there, and the grid never shrinks.
        for c in &seen {
            assert!(sim.grid.get(c.0, c.1).is_some());
        }
        assert!(sim.grid.len() >= prev_len);
        prev_len = sim.grid.len();
    }
    assert_eq!(sim.grid.len(), seen.len());
}

#[test]
fn step_reports_foreign_marker_and_leaves_state() {
    let t = AntPattern::parse(String::from("rl")).unwrap();
    let mut grid = TileGrid::new();
    grid.set(0, 0, foreign_marker());
    let snapshot = grid.clone();
    let mut ant = AntState::origin();
    assert_eq!(
        step(&t, &mut grid, &mut ant).unwrap_err(),
        TurmiteError::UnknownMarker
    );
    assert_eq!(ant, AntState::origin());
    assert_eq!(grid, snapshot);
}
