use magibreak::coordinate::SigilCoordinate;
use magibreak::line::Line;
use magibreak::puzzle::{ActivePuzzle, Puzzle};
use magibreak::rune::{Orb, Rune, Sigil, SigilMap};

fn coordinate(x: i32, y: i32) -> SigilCoordinate {
    SigilCoordinate::new(x, y)
}

fn line(x1: i32, y1: i32, x2: i32, y2: i32) -> Line {
    Line {
        start: coordinate(x1, y1),
        end: coordinate(x2, y2),
    }
}

fn sigil(rune: Rune, orb: Orb) -> Sigil {
    Sigil { rune, orb }
}

#[test]
fn position_round_trip() {
    let samples = [
        (0, 0),
        (1, 0),
        (-1, 7),
        (23, -23),
        (1000, -4096),
        (i32::MAX, i32::MIN),
    ];
    for &(x, y) in samples.iter() {
        let c = coordinate(x, y);
        assert_eq!(SigilCoordinate::from_position(c.position()), c);
    }
}

#[test]
fn position_scales_by_lattice_spacing() {
    assert_eq!(coordinate(2, 3).position(), (46, 69));
    assert_eq!(coordinate(-1, 0).position(), (-23, 0));
}

#[test]
fn from_position_rounds_to_nearest() {
    assert_eq!(SigilCoordinate::from_position((50, -50)), coordinate(2, -2));
    assert_eq!(SigilCoordinate::from_position((11, 12)), coordinate(0, 1));
}

#[test]
fn line_coordinates_completeness() {
    let points = line(0, 0, 4, 2).coordinates();
    assert_eq!(
        points,
        vec![coordinate(0, 0), coordinate(2, 1), coordinate(4, 2)]
    );
}

#[test]
fn line_coordinates_degenerate() {
    assert_eq!(line(3, 3, 3, 3).coordinates(), vec![coordinate(3, 3)]);
}

#[test]
fn line_coordinates_reduced_by_gcd() {
    let points = line(0, 0, 6, 4).coordinates();
    assert_eq!(
        points,
        vec![coordinate(0, 0), coordinate(3, 2), coordinate(6, 4)]
    );
    let vertical = line(1, 2, 1, -1).coordinates();
    assert_eq!(
        vertical,
        vec![
            coordinate(1, 2),
            coordinate(1, 1),
            coordinate(1, 0),
            coordinate(1, -1)
        ]
    );
}

#[test]
fn intersection_shared_endpoint_exemption() {
    assert!(!line(0, 0, 2, 2).intersects(&line(2, 2, 4, 0)));
}

#[test]
fn intersection_collinear_extension_exemption() {
    assert!(!line(0, 0, 2, 0).intersects(&line(2, 0, 4, 0)));
}

#[test]
fn intersection_general_crossing() {
    assert!(line(0, 0, 2, 2).intersects(&line(0, 2, 2, 0)));
}

#[test]
fn intersection_collinear_overlap() {
    assert!(line(0, 0, 4, 0).intersects(&line(1, 0, 3, 0)));
}

fn puzzle_with(runes: &[(i32, i32, Rune, Orb)], lines: Vec<Line>, cursor: (i32, i32)) -> Puzzle {
    let mut sigils = SigilMap::new();
    for &(x, y, rune, orb) in runes.iter() {
        sigils.insert(coordinate(x, y), sigil(rune, orb));
    }
    Puzzle {
        sigils,
        lines,
        cursor: coordinate(cursor.0, cursor.1),
    }
}

#[test]
fn input_rejects_when_no_rune_at_target() {
    let mut puzzle = puzzle_with(&[(0, 0, Rune::Alpha, Orb::Circle)], vec![], (0, 0));
    assert!(!puzzle.input(&coordinate(1, 1)));
    assert!(puzzle.lines.is_empty());
    assert_eq!(puzzle.cursor, coordinate(0, 0));
}

#[test]
fn input_rejects_self_move() {
    let mut puzzle = puzzle_with(
        &[
            (0, 0, Rune::Alpha, Orb::Circle),
            (1, 0, Rune::Alpha, Orb::Circle),
        ],
        vec![],
        (0, 0),
    );
    assert!(!puzzle.input(&coordinate(0, 0)));
    assert!(puzzle.lines.is_empty());
    assert_eq!(puzzle.cursor, coordinate(0, 0));
}

#[test]
fn input_rejects_when_cursor_off_rune() {
    let mut puzzle = puzzle_with(&[(1, 1, Rune::Alpha, Orb::Circle)], vec![], (0, 0));
    assert!(!puzzle.input(&coordinate(1, 1)));
    assert!(puzzle.lines.is_empty());
}

#[test]
fn input_accepts_and_appends_line() {
    let mut puzzle = puzzle_with(
        &[
            (0, 0, Rune::Alpha, Orb::Circle),
            (1, 0, Rune::Alpha, Orb::Circle),
        ],
        vec![],
        (0, 0),
    );
    assert!(puzzle.input(&coordinate(1, 0)));
    assert_eq!(puzzle.lines, vec![line(0, 0, 1, 0)]);
    assert_eq!(puzzle.cursor, coordinate(1, 0));
}

#[test]
fn circle_orb_blocks_crossing() {
    let mut puzzle = puzzle_with(
        &[
            (0, 0, Rune::Alpha, Orb::Circle),
            (2, 2, Rune::Alpha, Orb::Circle),
        ],
        vec![line(0, 2, 2, 0)],
        (0, 0),
    );
    assert!(!puzzle.input(&coordinate(2, 2)));
    assert_eq!(puzzle.lines, vec![line(0, 2, 2, 0)]);
    assert_eq!(puzzle.cursor, coordinate(0, 0));
}

#[test]
fn diamond_orb_allows_crossing() {
    let mut puzzle = puzzle_with(
        &[
            (0, 0, Rune::Alpha, Orb::Diamond),
            (2, 2, Rune::Alpha, Orb::Diamond),
        ],
        vec![line(0, 2, 2, 0)],
        (0, 0),
    );
    assert!(puzzle.input(&coordinate(2, 2)));
    assert_eq!(puzzle.lines, vec![line(0, 2, 2, 0), line(0, 0, 2, 2)]);
    assert_eq!(puzzle.cursor, coordinate(2, 2));
}

#[test]
fn octogon_redirect_rewrites_incoming_lines() {
    let mut puzzle = puzzle_with(
        &[
            (0, 0, Rune::Alpha, Orb::Circle),
            (1, 0, Rune::Alpha, Orb::Octogon),
            (2, 0, Rune::Alpha, Orb::Circle),
        ],
        vec![line(0, 0, 1, 0)],
        (1, 0),
    );
    assert!(puzzle.input(&coordinate(2, 0)));
    assert_eq!(puzzle.lines, vec![line(0, 0, 2, 0), line(1, 0, 2, 0)]);
    assert_eq!(puzzle.cursor, coordinate(2, 0));
}

#[test]
fn octogon_effect_only() {
    let mut lines = vec![line(0, 0, 1, 0), line(2, 2, 3, 3)];
    Orb::Circle.effect(coordinate(1, 0), coordinate(2, 0), &mut lines);
    assert_eq!(lines, vec![line(0, 0, 1, 0), line(2, 2, 3, 3)]);
    Orb::Octogon.effect(coordinate(1, 0), coordinate(2, 0), &mut lines);
    assert_eq!(lines, vec![line(0, 0, 2, 0), line(2, 2, 3, 3)]);
}

#[test]
fn undo_restores_exact_prior_state() {
    let puzzle = puzzle_with(
        &[
            (0, 0, Rune::Alpha, Orb::Circle),
            (1, 0, Rune::Alpha, Orb::Circle),
        ],
        vec![],
        (0, 0),
    );
    let mut active = ActivePuzzle::new(puzzle);
    active.input(&coordinate(1, 0));
    assert_eq!(active.puzzle().lines, vec![line(0, 0, 1, 0)]);
    assert_eq!(active.history_len(), 1);

    assert!(active.undo());
    assert!(active.puzzle().lines.is_empty());
    assert_eq!(active.puzzle().cursor, coordinate(0, 0));
    assert_eq!(active.history_len(), 0);

    assert!(!active.undo());
    assert!(active.puzzle().lines.is_empty());
    assert_eq!(active.puzzle().cursor, coordinate(0, 0));
}

#[test]
fn rejected_input_retains_no_snapshot() {
    let puzzle = puzzle_with(&[(0, 0, Rune::Alpha, Orb::Circle)], vec![], (0, 0));
    let mut active = ActivePuzzle::new(puzzle);
    active.input(&coordinate(5, 5));
    assert_eq!(active.history_len(), 0);
    assert!(!active.undo());
}

#[test]
fn rune_state_query_reports_activity() {
    let puzzle = puzzle_with(
        &[
            (0, 0, Rune::Alpha, Orb::Circle),
            (5, 5, Rune::Alpha, Orb::Circle),
        ],
        vec![line(0, 0, 1, 0)],
        (1, 0),
    );
    let (c0, s0, active0) = puzzle.rune_state_at(0);
    assert_eq!(c0, coordinate(0, 0));
    assert_eq!(s0.rune, Rune::Alpha);
    assert!(active0);
    let (c1, _, active1) = puzzle.rune_state_at(1);
    assert_eq!(c1, coordinate(5, 5));
    assert!(!active1);
}

#[test]
fn load_puzzle_clears_history() {
    let puzzle = puzzle_with(
        &[
            (0, 0, Rune::Alpha, Orb::Circle),
            (1, 0, Rune::Alpha, Orb::Circle),
        ],
        vec![],
        (0, 0),
    );
    let mut active = ActivePuzzle::new(puzzle);
    active.input(&coordinate(1, 0));
    assert_eq!(active.history_len(), 1);
    let fresh = puzzle_with(&[(3, 3, Rune::Phi, Orb::Diamond)], vec![], (3, 3));
    active.load_puzzle(fresh);
    assert_eq!(active.history_len(), 0);
    assert_eq!(active.puzzle().cursor, coordinate(3, 3));
}
