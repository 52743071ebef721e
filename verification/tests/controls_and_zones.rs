use magibreak::controls::{Button, InputState};
use magibreak::coordinate::SigilCoordinate;
use magibreak::editor::{apply_edit, LevelEditorMode};
use magibreak::line::Line;
use magibreak::puzzle::Puzzle;
use magibreak::rune::{Orb, Rune, Sigil, SigilMap};
use magibreak::sprite::indices;
use magibreak::status::OneShotStatus;
use magibreak::zone::ZoneState;

fn coordinate(x: i32, y: i32) -> SigilCoordinate {
    SigilCoordinate::new(x, y)
}

fn line(x1: i32, y1: i32, x2: i32, y2: i32) -> Line {
    Line {
        start: coordinate(x1, y1),
        end: coordinate(x2, y2),
    }
}

#[test]
fn input_state_steps_edges_to_levels() {
    let mut state = InputState::JustPressed;
    state.step();
    assert_eq!(state, InputState::Pressed);
    state.step();
    assert_eq!(state, InputState::Pressed);

    let mut state = InputState::JustReleased;
    state.step();
    assert_eq!(state, InputState::Released);

    assert!(InputState::Pressed.pressed());
    assert!(InputState::JustPressed.pressed());
    assert!(!InputState::Released.pressed());
    assert!(!InputState::JustReleased.pressed());
    assert_eq!(InputState::default(), InputState::Released);
}

#[test]
fn button_queries_respect_consumption() {
    let button = Button {
        state: InputState::JustPressed,
        consumed: false,
    };
    assert!(button.just_pressed());
    assert!(!button.pressed());
    assert!(!button.just_released());
    assert!(!button.released());

    let consumed = Button {
        state: InputState::JustPressed,
        consumed: true,
    };
    assert!(!consumed.just_pressed());

    let idle = Button::default();
    assert!(idle.released());
    assert!(!idle.pressed());
}

#[test]
fn zone_state_selection_and_unlock() {
    assert!(ZoneState::Unlocked.selectable());
    assert!(ZoneState::Solved.selectable());
    assert!(!ZoneState::Locked.selectable());

    let mut zone = ZoneState::Locked;
    zone.unlock();
    assert_eq!(zone, ZoneState::Unlocked);

    let mut solved = ZoneState::Solved;
    solved.unlock();
    assert_eq!(solved, ZoneState::Solved);
}

#[test]
fn one_shot_status_carries_value() {
    let status: OneShotStatus<u32> = OneShotStatus::Value(7);
    match status {
        OneShotStatus::Value(v) => assert_eq!(v, 7),
        OneShotStatus::Closed | OneShotStatus::Empty | OneShotStatus::NoReceiver => {
            panic!("expected a value")
        }
    }
}

#[test]
fn quad_indices_pattern() {
    assert_eq!(indices(0), Vec::<u16>::new());
    assert_eq!(indices(2), vec![0, 1, 2, 2, 3, 0, 4, 5, 6, 6, 7, 4]);
}

fn editor_puzzle() -> Puzzle {
    let mut sigils = SigilMap::new();
    sigils.insert(
        coordinate(0, 0),
        Sigil {
            rune: Rune::Alpha,
            orb: Orb::Circle,
        },
    );
    Puzzle {
        sigils,
        lines: vec![line(0, 0, 1, 0), line(1, 0, 2, 0)],
        cursor: coordinate(0, 0),
    }
}

#[test]
fn editor_mode_cycles() {
    assert_eq!(LevelEditorMode::Clear.change(), LevelEditorMode::Cursor);
    assert_eq!(LevelEditorMode::Cursor.change(), LevelEditorMode::Place);
    assert_eq!(LevelEditorMode::Place.change(), LevelEditorMode::Lines);
    assert_eq!(LevelEditorMode::Lines.change(), LevelEditorMode::Clear);
}

#[test]
fn editor_place_and_clear() {
    let mut puzzle = editor_puzzle();
    let placed = Sigil {
        rune: Rune::Delta,
        orb: Orb::Diamond,
    };
    let r = apply_edit(
        &LevelEditorMode::Place,
        placed,
        None,
        coordinate(5, 5),
        &mut puzzle,
    );
    assert_eq!(r, None);
    let stored = puzzle.sigils.get(&coordinate(5, 5)).unwrap();
    assert_eq!(stored.rune, Rune::Delta);

    let r = apply_edit(
        &LevelEditorMode::Clear,
        placed,
        None,
        coordinate(1, 0),
        &mut puzzle,
    );
    assert_eq!(r, None);
    // Both lines touch (1, 0) as an endpoint, so both are removed.
    assert!(puzzle.lines.is_empty());
    assert!(puzzle.sigils.get(&coordinate(1, 0)).is_none());
}

#[test]
fn editor_cursor_and_lines() {
    let mut puzzle = editor_puzzle();
    let sigil = Sigil {
        rune: Rune::Alpha,
        orb: Orb::Circle,
    };
    apply_edit(
        &LevelEditorMode::Cursor,
        sigil,
        None,
        coordinate(7, 7),
        &mut puzzle,
    );
    assert_eq!(puzzle.cursor, coordinate(7, 7));

    let first = apply_edit(
        &LevelEditorMode::Lines,
        sigil,
        None,
        coordinate(3, 3),
        &mut puzzle,
    );
    assert_eq!(first, Some(coordinate(3, 3)));
    let second = apply_edit(
        &LevelEditorMode::Lines,
        sigil,
        first,
        coordinate(4, 4),
        &mut puzzle,
    );
    assert_eq!(second, None);
    assert_eq!(puzzle.lines.last(), Some(&line(3, 3, 4, 4)));
}
