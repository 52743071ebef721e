use magibreak::coordinate::SigilCoordinate;
use magibreak::line::Line;
use magibreak::puzzle::Puzzle;
use magibreak::rune::{Orb, Rune, Sigil, SigilMap};
use magibreak::serial::{FromKeyError, SerialablePuzzle};

fn coordinate(x: i32, y: i32) -> SigilCoordinate {
    SigilCoordinate::new(x, y)
}

#[test]
fn puzzle_can_serialize() {
    let runes = SigilMap::new();
    let puzzle = Puzzle {
        sigils: runes,
        lines: vec![],
        cursor: coordinate(0, 0),
    };
    let serialized = SerialablePuzzle::from_puzzle(&puzzle);
    Puzzle::try_from_serialable(&serialized).unwrap();
}

#[test]
fn key_format_is_two_decimals_joined_by_space() {
    assert_eq!(coordinate(3, -5).as_key(), "3 -5");
    assert_eq!(coordinate(0, 0).as_key(), "0 0");
    assert_eq!(coordinate(-2147483648, 2147483647).as_key(), "-2147483648 2147483647");
}

#[test]
fn key_round_trip() {
    let samples = [
        (0, 0),
        (3, -5),
        (-1, 1),
        (2147483647, -2147483648),
        (-23, 1000000),
    ];
    for &(x, y) in samples.iter() {
        let c = coordinate(x, y);
        assert_eq!(SigilCoordinate::from_key(c.as_key().as_str()), Ok(c));
    }
}

#[test]
fn from_key_accepts_signed_pieces() {
    assert_eq!(SigilCoordinate::from_key("+5 -0"), Ok(coordinate(5, 0)));
    assert_eq!(SigilCoordinate::from_key("007 8"), Ok(coordinate(7, 8)));
}

#[test]
fn from_key_rejects_malformed_pieces() {
    assert_eq!(SigilCoordinate::from_key("a b"), Err(FromKeyError::FromStr));
    assert_eq!(SigilCoordinate::from_key(""), Err(FromKeyError::FromStr));
    assert_eq!(SigilCoordinate::from_key("1 "), Err(FromKeyError::FromStr));
    assert_eq!(SigilCoordinate::from_key("1 2.5"), Err(FromKeyError::FromStr));
    assert_eq!(
        SigilCoordinate::from_key("2147483648 0"),
        Err(FromKeyError::FromStr)
    );
    assert_eq!(
        SigilCoordinate::from_key("1 -2147483649"),
        Err(FromKeyError::FromStr)
    );
}

#[test]
fn from_key_rejects_wrong_arity() {
    assert_eq!(
        SigilCoordinate::from_key("1 2 3"),
        Err(FromKeyError::SliceDoesntFit)
    );
    assert_eq!(
        SigilCoordinate::from_key("12"),
        Err(FromKeyError::SliceDoesntFit)
    );
}

#[test]
fn full_puzzle_round_trip() {
    let mut sigils = SigilMap::new();
    sigils.insert(
        coordinate(0, 0),
        Sigil {
            rune: Rune::Alpha,
            orb: Orb::Circle,
        },
    );
    sigils.insert(
        coordinate(-3, 7),
        Sigil {
            rune: Rune::Sigma,
            orb: Orb::Octogon,
        },
    );
    let puzzle = Puzzle {
        sigils,
        lines: vec![Line {
            start: coordinate(0, 0),
            end: coordinate(-3, 7),
        }],
        cursor: coordinate(-3, 7),
    };
    let serialized = SerialablePuzzle::from_puzzle(&puzzle);
    assert_eq!(serialized.sigils.len(), 2);
    assert_eq!(serialized.sigils[0].0, "0 0");
    assert_eq!(serialized.sigils[1].0, "-3 7");

    let restored = Puzzle::try_from_serialable(&serialized).unwrap();
    assert_eq!(restored.lines, puzzle.lines);
    assert_eq!(restored.cursor, puzzle.cursor);
    assert_eq!(restored.sigils.len(), 2);
    let first = restored.sigils.get(&coordinate(0, 0)).unwrap();
    assert_eq!(first.rune, Rune::Alpha);
    assert_eq!(first.orb, Orb::Circle);
    let second = restored.sigils.get(&coordinate(-3, 7)).unwrap();
    assert_eq!(second.rune, Rune::Sigma);
    assert_eq!(second.orb, Orb::Octogon);
}

#[test]
fn deserialize_reports_bad_key() {
    let mut serialized = SerialablePuzzle {
        sigils: vec![(
            String::from("not a key"),
            Sigil {
                rune: Rune::Alpha,
                orb: Orb::Circle,
            },
        )],
        lines: vec![],
        cursor: coordinate(0, 0),
    };
    assert_eq!(
        Puzzle::try_from_serialable(&serialized).unwrap_err(),
        FromKeyError::FromStr
    );
    serialized.sigils[0].0 = String::from("1 2 3");
    assert_eq!(
        Puzzle::try_from_serialable(&serialized).unwrap_err(),
        FromKeyError::SliceDoesntFit
    );
}
