use magibreak::coordinate::SigilCoordinate;
use magibreak::line::Line;
use magibreak::rune::{Orb, Rune, Sigil, SigilMap};

fn coordinate(x: i32, y: i32) -> SigilCoordinate {
    SigilCoordinate::new(x, y)
}

fn line(x1: i32, y1: i32, x2: i32, y2: i32) -> Line {
    Line {
        start: coordinate(x1, y1),
        end: coordinate(x2, y2),
    }
}

fn sigils_at(coordinates: &[(i32, i32)]) -> SigilMap {
    let mut sigils = SigilMap::new();
    for &(x, y) in coordinates.iter() {
        sigils.insert(
            coordinate(x, y),
            Sigil {
                rune: Rune::Alpha,
                orb: Orb::Circle,
            },
        );
    }
    sigils
}

#[test]
fn alpha_touched_by_line_interior() {
    let lines = vec![line(0, 0, 4, 2)];
    let sigils = sigils_at(&[(2, 1)]);
    // (2, 1) is an interior lattice point of the segment, not an endpoint.
    assert!(Rune::Alpha.active(coordinate(2, 1), &lines, &sigils));
    assert!(Rune::Alpha.active(coordinate(0, 0), &lines, &sigils));
    assert!(!Rune::Alpha.active(coordinate(1, 1), &lines, &sigils));
}

#[test]
fn phi_negates_alpha() {
    let lines = vec![line(0, 0, 4, 2)];
    let sigils = sigils_at(&[(2, 1), (5, 5)]);
    assert!(!Rune::Phi.active(coordinate(2, 1), &lines, &sigils));
    assert!(Rune::Phi.active(coordinate(5, 5), &lines, &sigils));
}

#[test]
fn sigma_loop_detection() {
    let lines = vec![
        line(0, 0, 1, 0),
        line(1, 0, 0, 1),
        line(0, 1, 0, 0),
    ];
    let sigils = sigils_at(&[(0, 0), (1, 0), (0, 1), (5, 5)]);
    assert!(Rune::Sigma.active(coordinate(0, 0), &lines, &sigils));
    assert!(Rune::Sigma.active(coordinate(1, 0), &lines, &sigils));
    assert!(Rune::Sigma.active(coordinate(0, 1), &lines, &sigils));
    assert!(!Rune::Sigma.active(coordinate(5, 5), &lines, &sigils));
}

#[test]
fn sigma_needs_a_cycle() {
    let lines = vec![line(0, 0, 1, 0), line(1, 0, 2, 0)];
    let sigils = sigils_at(&[(0, 0), (1, 0), (2, 0)]);
    assert!(!Rune::Sigma.active(coordinate(0, 0), &lines, &sigils));
    assert!(!Rune::Sigma.active(coordinate(2, 0), &lines, &sigils));
}

#[test]
fn delta_interior_of_directed_triangle() {
    let lines = vec![
        line(0, 0, 4, 0),
        line(4, 0, 0, 4),
        line(0, 4, 0, 0),
    ];
    let sigils = sigils_at(&[(0, 0), (4, 0), (0, 4), (1, 1), (3, 3)]);
    assert!(Rune::Delta.active(coordinate(1, 1), &lines, &sigils));
    assert!(!Rune::Delta.active(coordinate(3, 3), &lines, &sigils));
    // A point on an edge is not strictly inside.
    assert!(!Rune::Delta.active(coordinate(2, 2), &lines, &sigils));
}

#[test]
fn delta_needs_sigils_at_junctions() {
    let lines = vec![
        line(0, 0, 4, 0),
        line(4, 0, 0, 4),
        line(0, 4, 0, 0),
    ];
    // No sigil at the triangle's corners: the lines do not extend each
    // other, so nothing is inside a triangle.
    let sigils = sigils_at(&[(1, 1)]);
    assert!(!Rune::Delta.active(coordinate(1, 1), &lines, &sigils));
}

#[test]
fn orb_allow_intersections() {
    assert!(!Orb::Circle.allow_intersections());
    assert!(Orb::Diamond.allow_intersections());
    assert!(Orb::Octogon.allow_intersections());
}

#[test]
fn kind_cycling_and_names() {
    assert_eq!(Orb::Circle.change(), Orb::Diamond);
    assert_eq!(Orb::Diamond.change(), Orb::Octogon);
    assert_eq!(Orb::Octogon.change(), Orb::Circle);
    assert_eq!(Rune::Alpha.change(), Rune::Delta);
    assert_eq!(Rune::Delta.change(), Rune::Phi);
    assert_eq!(Rune::Phi.change(), Rune::Sigma);
    assert_eq!(Rune::Sigma.change(), Rune::Alpha);
    assert_eq!(Orb::Circle.to_string(), "Circle");
    assert_eq!(Rune::Sigma.to_string(), "Sigma");
}

#[test]
fn sigil_map_last_insert_wins() {
    let mut sigils = SigilMap::new();
    sigils.insert(
        coordinate(0, 0),
        Sigil {
            rune: Rune::Alpha,
            orb: Orb::Circle,
        },
    );
    sigils.insert(
        coordinate(0, 0),
        Sigil {
            rune: Rune::Phi,
            orb: Orb::Diamond,
        },
    );
    assert_eq!(sigils.len(), 1);
    let stored = sigils.get(&coordinate(0, 0)).unwrap();
    assert_eq!(stored.rune, Rune::Phi);
    assert_eq!(stored.orb, Orb::Diamond);
    sigils.remove(&coordinate(0, 0));
    assert!(sigils.get(&coordinate(0, 0)).is_none());
}
