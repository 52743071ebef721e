//! The level editor's puzzle mutations.
//!
//! The editor's windows, file dialogs and channels live outside the
//! library; what is kept here is the one place its clicks change a puzzle.

use vstd::prelude::*;
use vstd::string::StringExecFns;

use crate::coordinate::SigilCoordinate;
use crate::line::Line;
use crate::puzzle::Puzzle;
use crate::rune::Sigil;

verus! {

/// What a click in the editor does.
#[derive(Clone, Copy, PartialEq, Eq, Structural, Debug)]
pub enum LevelEditorMode {
    /// Remove the sigil at the clicked coordinate and every line touching
    /// it as an endpoint.
    Clear,
    /// Move the puzzle's cursor to the clicked coordinate.
    Cursor,
    /// Place the editor's current sigil at the clicked coordinate.
    Place,
    /// Draw a free line between two clicked coordinates.
    Lines,
}

impl LevelEditorMode {
    /// This mode's display name.
    pub fn to_string(&self) -> (r: String)
        ensures
            r@ == (match *self {
                LevelEditorMode::Clear => "Clear"@,
                LevelEditorMode::Cursor => "Cursor"@,
                LevelEditorMode::Place => "Place"@,
                LevelEditorMode::Lines => "Lines"@,
            }),
    {
        match *self {
            LevelEditorMode::Clear => String::from_str("Clear"),
            LevelEditorMode::Cursor => String::from_str("Cursor"),
            LevelEditorMode::Place => String::from_str("Place"),
            LevelEditorMode::Lines => String::from_str("Lines"),
        }
    }

    /// The next mode in the editor's cycling order.
    pub fn change(&self) -> (r: Self)
        ensures
            r == (match *self {
                LevelEditorMode::Clear => LevelEditorMode::Cursor,
                LevelEditorMode::Cursor => LevelEditorMode::Place,
                LevelEditorMode::Place => LevelEditorMode::Lines,
                LevelEditorMode::Lines => LevelEditorMode::Clear,
            }),
    {
        match *self {
            LevelEditorMode::Clear => LevelEditorMode::Cursor,
            LevelEditorMode::Cursor => LevelEditorMode::Place,
            LevelEditorMode::Place => LevelEditorMode::Lines,
            LevelEditorMode::Lines => LevelEditorMode::Clear,
        }
    }
}

/// The lines kept when a coordinate is cleared: those that neither start
/// nor end there.
pub open spec fn lines_avoiding(lines: Seq<Line>, coordinate: SigilCoordinate) -> Seq<Line> {
    lines.filter(|l: Line| l.start != coordinate && l.end != coordinate)
}

/// Applies one editor click to a puzzle. `line_start` is the pending
/// first endpoint of a free line, if one was clicked before; the returned
/// value is that state after this click.
#[verifier::loop_isolation(false)]
pub fn apply_edit(
    mode: &LevelEditorMode,
    sigil: Sigil,
    line_start: Option<SigilCoordinate>,
    coordinate: SigilCoordinate,
    puzzle: &mut Puzzle,
) -> (r: Option<SigilCoordinate>)
    requires
        old(puzzle).wf(),
    ensures
        final(puzzle).wf(),
        final(puzzle).sigils@ == (match *mode {
            LevelEditorMode::Clear => old(puzzle).sigils@.remove(coordinate@),
            LevelEditorMode::Place => old(puzzle).sigils@.insert(coordinate@, sigil),
            _ => old(puzzle).sigils@,
        }),
        *mode != LevelEditorMode::Clear && *mode != LevelEditorMode::Place
            ==> final(puzzle).sigils.pairs() == old(puzzle).sigils.pairs(),
        final(puzzle).lines@ == (match *mode {
            LevelEditorMode::Clear => lines_avoiding(old(puzzle).lines@, coordinate),
            LevelEditorMode::Lines => (match line_start {
                Some(start) => if coordinate != start {
                    old(puzzle).lines@.push(Line { start, end: coordinate })
                } else {
                    old(puzzle).lines@
                },
                None => old(puzzle).lines@,
            }),
            _ => old(puzzle).lines@,
        }),
        final(puzzle).cursor == (if *mode == LevelEditorMode::Cursor {
            coordinate
        } else {
            old(puzzle).cursor
        }),
        r == (match *mode {
            LevelEditorMode::Lines => (match line_start {
                Some(start) => if coordinate != start {
                    Option::<SigilCoordinate>::None
                } else {
                    line_start
                },
                None => Some(coordinate),
            }),
            _ => line_start,
        }),
{
    match mode {
        LevelEditorMode::Cursor => {
            puzzle.cursor = coordinate;
            line_start
        },
        LevelEditorMode::Clear => {
            puzzle.sigils.remove(&coordinate);
            let ghost lines0 = puzzle.lines@;
            proof {
                reveal(Seq::<Line>::filter);
                assert(lines0.take(0) =~= Seq::<Line>::empty());
            }
            let mut kept: Vec<Line> = Vec::new();
            let mut i: usize = 0;
            while i < puzzle.lines.len()
                invariant
                    i <= lines0.len(),
                    puzzle.lines@ == lines0,
                    kept@ == lines_avoiding(lines0.take(i as int), coordinate),
                decreases lines0.len() - i,
            {
                proof {
                    reveal(Seq::<Line>::filter);
                    assert(lines0.take(i + 1).drop_last() =~= lines0.take(i as int));
                    assert(lines0.take(i + 1).last() == lines0[i as int]);
                }
                let line = puzzle.lines[i];
                if line.start != coordinate && line.end != coordinate {
                    kept.push(line);
                }
                i = i + 1;
            }
            proof {
                reveal(Seq::<Line>::filter);
                assert(lines0.take(lines0.len() as int) =~= lines0);
            }
            puzzle.lines = kept;
            line_start
        },
        LevelEditorMode::Place => {
            puzzle.sigils.insert(coordinate, sigil);
            line_start
        },
        LevelEditorMode::Lines => {
            match line_start {
                Some(start) => {
                    if coordinate != start {
                        puzzle.lines.push(Line { start, end: coordinate });
                        None
                    } else {
                        line_start
                    }
                },
                None => Some(coordinate),
            }
        },
    }
}

} // verus!
