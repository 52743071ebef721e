//! The puzzle state machine and its undo-capable wrapper.
//!
//! A puzzle is a placement of sigils, an ordered list of drawn lines and a
//! cursor. `input` is the single mutator: it extends a line from the
//! cursor to a clicked coordinate when the rules allow it. `ActivePuzzle`
//! snapshots the puzzle before each successful move so that `undo` can
//! restore the exact prior state.

use vstd::prelude::*;

use crate::activation::rune_active;
use crate::coordinate::SigilCoordinate;
use crate::line::{Line, spec_intersects};
use crate::rune::{Orb, Sigil, SigilMap};

verus! {

/// The candidate line crosses one of the drawn lines, under the
/// intersection policy.
pub open spec fn spec_intersects_any(lines: Seq<Line>, l: Line) -> bool {
    exists|i: int| 0 <= i < lines.len() && spec_intersects(#[trigger] lines[i], l)
}

/// What the octogon's redirect does to a single line: a line that ended at
/// the moved-from coordinate is bent to end at the new target instead.
/// Other orbs leave every line alone.
pub open spec fn redirect_line(orb: Orb, from: SigilCoordinate, to: SigilCoordinate, l: Line) -> Line {
    if orb == Orb::Octogon && l.end == from {
        Line { start: l.start, end: to }
    } else {
        l
    }
}

/// The redirect side effect applied to the whole line list.
pub open spec fn redirected(
    orb: Orb,
    from: SigilCoordinate,
    to: SigilCoordinate,
    lines: Seq<Line>,
) -> Seq<Line> {
    lines.map_values(|l: Line| redirect_line(orb, from, to, l))
}

impl Orb {
    /// Applies this orb's side effect to the drawn lines when a line is
    /// drawn from `coordinate` to `to`: only the octogon has one, the
    /// redirect of lines previously ending at `coordinate`.
    pub fn effect(&self, coordinate: SigilCoordinate, to: SigilCoordinate, lines: &mut Vec<Line>)
        ensures
            final(lines)@ == redirected(*self, coordinate, to, old(lines)@),
    {
        if *self != Orb::Octogon {
            proof {
                assert(final(lines)@ =~= redirected(*self, coordinate, to, old(lines)@));
            }
            return ;
        }
        let ghost lines0 = lines@;
        let mut i: usize = 0;
        while i < lines.len()
            invariant
                i <= lines@.len(),
                lines@.len() == lines0.len(),
                forall|j: int| 0 <= j < i ==> lines@[j] == redirect_line(
                    Orb::Octogon,
                    coordinate,
                    to,
                    #[trigger] lines0[j],
                ),
                forall|j: int| i <= j < lines0.len() ==> #[trigger] lines@[j] == lines0[j],
            decreases lines@.len() - i,
        {
            if lines[i].end == coordinate {
                let bent = Line { start: lines[i].start, end: to };
                lines.set(i, bent);
            }
            i = i + 1;
        }
        proof {
            assert(lines@ =~= redirected(*self, coordinate, to, lines0));
        }
    }
}

/// The puzzle which the player interacts with: placed sigils, drawn lines
/// and the pen's current coordinate.
#[derive(Debug)]
pub struct Puzzle {
    pub sigils: SigilMap,
    pub lines: Vec<Line>,
    pub cursor: SigilCoordinate,
}

impl Puzzle {
    /// The sigil map stores each coordinate at most once.
    pub open spec fn wf(&self) -> bool {
        self.sigils.wf()
    }

    /// Two puzzles hold the same state: same placed sigils in the same
    /// order, same drawn lines, same cursor.
    pub open spec fn state_eq(&self, other: &Puzzle) -> bool {
        &&& self.sigils.pairs() == other.sigils.pairs()
        &&& self.lines@ == other.lines@
        &&& self.cursor == other.cursor
    }

    /// Whether an input at `coordinate` changes the state: the click must
    /// leave the cursor, the cursor must rest on a sigil whose orb permits
    /// the candidate line, and the target must hold a sigil.
    pub open spec fn input_accepted(&self, coordinate: SigilCoordinate) -> bool {
        &&& coordinate != self.cursor
        &&& self.sigils@.contains_key(self.cursor@)
        &&& (self.sigils@[self.cursor@].orb != Orb::Circle || !spec_intersects_any(
            self.lines@,
            Line { start: self.cursor, end: coordinate },
        ))
        &&& self.sigils@.contains_key(coordinate@)
    }

    /// The line list after an accepted input: the cursor orb's redirect
    /// applied to the drawn lines, then the candidate line appended.
    pub open spec fn lines_after_input(&self, coordinate: SigilCoordinate) -> Seq<Line> {
        redirected(self.sigils@[self.cursor@].orb, self.cursor, coordinate, self.lines@).push(
            Line { start: self.cursor, end: coordinate },
        )
    }

    /// An empty puzzle with the cursor at the origin.
    pub fn new() -> (r: Self)
        ensures
            r.sigils@ == Map::<(int, int), Sigil>::empty(),
            r.sigils.pairs() == Seq::<(SigilCoordinate, Sigil)>::empty(),
            r.lines@ == Seq::<Line>::empty(),
            r.cursor == (SigilCoordinate { x: 0, y: 0 }),
            r.wf(),
    {
        Puzzle { sigils: SigilMap::new(), lines: Vec::new(), cursor: SigilCoordinate { x: 0, y: 0 } }
    }

    /// Whether the candidate line crosses any drawn line.
    fn intersects_lines(&self, line: &Line) -> (r: bool)
        ensures
            r == spec_intersects_any(self.lines@, *line),
    {
        let mut i: usize = 0;
        while i < self.lines.len()
            invariant
                i <= self.lines@.len(),
                forall|j: int| 0 <= j < i ==> !spec_intersects(#[trigger] self.lines@[j], *line),
            decreases self.lines@.len() - i,
        {
            if self.lines[i].intersects(line) {
                return true;
            }
            i = i + 1;
        }
        false
    }

    /// What a sprite layer needs for the `i`-th placed sigil: its
    /// coordinate, its kinds, and whether its rune is currently active
    /// over the drawn lines.
    pub fn rune_state_at(&self, i: usize) -> (r: (SigilCoordinate, Sigil, bool))
        requires
            i < self.sigils.pairs().len(),
        ensures
            (r.0, r.1) == self.sigils.pairs()[i as int],
            r.2 == rune_active(r.1.rune, r.0, self.lines@, self.sigils@),
    {
        let (coordinate, sigil) = self.sigils.pair_at(i);
        let active = sigil.rune.active(coordinate, &self.lines, &self.sigils);
        (coordinate, sigil, active)
    }

    /// Attempts to draw a line from the cursor to `coordinate`; returns
    /// whether the input changed anything. A rejected input leaves the
    /// puzzle exactly as it was; an accepted one applies the cursor orb's
    /// side effect, appends the candidate line and moves the cursor.
    pub fn input(&mut self, coordinate: &SigilCoordinate) -> (r: bool)
        requires
            old(self).wf(),
        ensures
            final(self).wf(),
            r == old(self).input_accepted(*coordinate),
            final(self).sigils.pairs() == old(self).sigils.pairs(),
            final(self).sigils@ == old(self).sigils@,
            r ==> final(self).lines@ == old(self).lines_after_input(*coordinate)
                && final(self).cursor == *coordinate,
            !r ==> final(self).state_eq(old(self)),
    {
        if *coordinate == self.cursor {
            return false;
        }
        match self.sigils.get(&self.cursor) {
            Some(cursor_sigil) => {
                let line = Line { start: self.cursor, end: *coordinate };
                if !cursor_sigil.orb.allow_intersections() && self.intersects_lines(&line) {
                    return false;
                }
                if self.sigils.get(coordinate).is_some() {
                    cursor_sigil.orb.effect(self.cursor, *coordinate, &mut self.lines);
                    self.lines.push(line);
                    self.cursor = *coordinate;
                    return true;
                }
                false
            },
            None => false,
        }
    }
}

impl Default for Puzzle {
    /// An empty puzzle with the cursor at the origin.
    fn default() -> (r: Self)
        ensures
            r.sigils.pairs() == Seq::<(SigilCoordinate, Sigil)>::empty(),
            r.lines@ == Seq::<Line>::empty(),
            r.cursor == (SigilCoordinate { x: 0, y: 0 }),
            r.wf(),
    {
        Puzzle::new()
    }
}

impl Clone for Puzzle {
    /// A deep copy that preserves the whole state.
    fn clone(&self) -> (r: Self)
        ensures
            r.state_eq(self),
            r.wf() == self.wf(),
    {
        Puzzle {
            sigils: self.sigils.duplicate(),
            lines: copy_lines(&self.lines),
            cursor: self.cursor,
        }
    }
}

/// An element-wise copy of a line list.
pub(crate) fn copy_lines(lines: &Vec<Line>) -> (r: Vec<Line>)
    ensures
        r@ == lines@,
{
    let mut result: Vec<Line> = Vec::new();
    let mut i: usize = 0;
    while i < lines.len()
        invariant
            i <= lines@.len(),
            result@ == lines@.take(i as int),
        decreases lines@.len() - i,
    {
        result.push(lines[i]);
        proof {
            assert(result@ =~= lines@.take(i + 1));
        }
        i = i + 1;
    }
    proof {
        assert(lines@.take(lines@.len() as int) =~= lines@);
    }
    result
}

/// How `ActivePuzzle::input` changes the session state: nothing on a
/// rejected click; on an accepted one the old puzzle is pushed onto the
/// history and the puzzle takes the input's result.
pub open spec fn input_transition(
    pre_puzzle: Puzzle,
    pre_history: Seq<Puzzle>,
    post_puzzle: Puzzle,
    post_history: Seq<Puzzle>,
    coordinate: SigilCoordinate,
) -> bool {
    if pre_puzzle.input_accepted(coordinate) {
        &&& post_history.len() == pre_history.len() + 1
        &&& post_history.drop_last() == pre_history
        &&& post_history.last().state_eq(&pre_puzzle)
        &&& post_puzzle.sigils.pairs() == pre_puzzle.sigils.pairs()
        &&& post_puzzle.lines@ == pre_puzzle.lines_after_input(coordinate)
        &&& post_puzzle.cursor == coordinate
    } else {
        &&& post_puzzle.state_eq(&pre_puzzle)
        &&& post_history == pre_history
    }
}

/// How `ActivePuzzle::undo` changes the session state: with history, the
/// most recent snapshot becomes the puzzle again; without, nothing moves.
pub open spec fn undo_transition(
    pre_puzzle: Puzzle,
    pre_history: Seq<Puzzle>,
    post_puzzle: Puzzle,
    post_history: Seq<Puzzle>,
    undone: bool,
) -> bool {
    if pre_history.len() > 0 {
        &&& undone
        &&& post_puzzle == pre_history.last()
        &&& post_history == pre_history.drop_last()
    } else {
        &&& !undone
        &&& post_puzzle == pre_puzzle
        &&& post_history == pre_history
    }
}

/// The puzzle a player is working on, with the history of snapshots that
/// undo walks back through.
#[derive(Debug)]
pub struct ActivePuzzle {
    puzzle: Puzzle,
    history: Vec<Puzzle>,
}

impl ActivePuzzle {
    /// The live puzzle.
    pub closed spec fn spec_puzzle(&self) -> Puzzle {
        self.puzzle
    }

    /// The retained snapshots, oldest first.
    pub closed spec fn spec_history(&self) -> Seq<Puzzle> {
        self.history@
    }

    /// The live puzzle and every snapshot are well formed.
    pub open spec fn wf(&self) -> bool {
        &&& self.spec_puzzle().wf()
        &&& forall|i: int| 0 <= i < self.spec_history().len() ==> (
        #[trigger] self.spec_history()[i]).wf()
    }

    /// Wraps a puzzle with an empty history.
    pub fn new(puzzle: Puzzle) -> (r: Self)
        requires
            puzzle.wf(),
        ensures
            r.spec_puzzle() == puzzle,
            r.spec_history() == Seq::<Puzzle>::empty(),
            r.wf(),
    {
        ActivePuzzle { puzzle, history: Vec::new() }
    }

    /// Read access to the live puzzle.
    pub fn puzzle(&self) -> (r: &Puzzle)
        ensures
            r == self.spec_puzzle(),
    {
        &self.puzzle
    }

    /// How many snapshots the history holds.
    pub fn history_len(&self) -> (r: usize)
        ensures
            r == self.spec_history().len(),
    {
        self.history.len()
    }

    /// Replaces the live puzzle and clears the history unconditionally: no
    /// undo crosses a load.
    pub fn load_puzzle(&mut self, puzzle: Puzzle)
        requires
            puzzle.wf(),
        ensures
            final(self).spec_puzzle() == puzzle,
            final(self).spec_history() == Seq::<Puzzle>::empty(),
            final(self).wf(),
    {
        self.puzzle = puzzle;
        self.history.clear();
    }

    /// Pops the most recent snapshot back into the live puzzle; returns
    /// whether there was one. Exhausted history is the terminal state, not
    /// an error.
    pub fn undo(&mut self) -> (r: bool)
        requires
            old(self).wf(),
        ensures
            final(self).wf(),
            undo_transition(
                old(self).spec_puzzle(),
                old(self).spec_history(),
                final(self).spec_puzzle(),
                final(self).spec_history(),
                r,
            ),
    {
        match self.history.pop() {
            Some(new_puzzle) => {
                self.puzzle = new_puzzle;
                proof {
                    let h0 = old(self).spec_history();
                    assert(h0[h0.len() - 1].wf());
                    assert forall|i: int| 0 <= i < self.spec_history().len() implies (
                    #[trigger] self.spec_history()[i]).wf() by {
                        assert(self.spec_history()[i] == h0[i]);
                    }
                }
                true
            },
            None => false,
        }
    }

    /// Snapshots the puzzle, attempts the input, and retains the snapshot
    /// only if the input changed state, so that undo restores exactly the
    /// puzzle seen before this call.
    pub fn input(&mut self, coordinate: &SigilCoordinate)
        requires
            old(self).wf(),
        ensures
            final(self).wf(),
            input_transition(
                old(self).spec_puzzle(),
                old(self).spec_history(),
                final(self).spec_puzzle(),
                final(self).spec_history(),
                *coordinate,
            ),
    {
        let past = self.puzzle.clone();
        if self.puzzle.input(coordinate) {
            self.history.push(past);
            proof {
                let h0 = old(self).spec_history();
                assert(self.spec_history().drop_last() =~= h0);
                assert forall|i: int| 0 <= i < self.spec_history().len() implies (
                #[trigger] self.spec_history()[i]).wf() by {
                    if i < h0.len() {
                        assert(self.spec_history()[i] == h0[i]);
                    } else {
                        assert(self.spec_history()[i] == past);
                    }
                }
            }
        } else {
            proof {
                let h0 = old(self).spec_history();
                assert forall|i: int| 0 <= i < self.spec_history().len() implies (
                #[trigger] self.spec_history()[i]).wf() by {
                    assert(self.spec_history()[i] == h0[i]);
                }
            }
        }
    }
}

/// A click on the cursor's own coordinate never changes anything: input
/// at the cursor is always rejected, whatever the puzzle holds.
pub proof fn lemma_self_move_rejected(p: Puzzle)
    ensures
        !p.input_accepted(p.cursor),
{
}

/// One undo exactly reverts one successful input: if an accepted input
/// takes the session from `(p0, h0)` to `(p1, h1)` and an undo then takes
/// it to `(p2, h2)`, the restored puzzle holds the state of `p0` and the
/// history is `h0` again.
pub proof fn lemma_undo_restores_input(
    p0: Puzzle,
    h0: Seq<Puzzle>,
    p1: Puzzle,
    h1: Seq<Puzzle>,
    p2: Puzzle,
    h2: Seq<Puzzle>,
    coordinate: SigilCoordinate,
    undone: bool,
)
    requires
        p0.input_accepted(coordinate),
        input_transition(p0, h0, p1, h1, coordinate),
        undo_transition(p1, h1, p2, h2, undone),
    ensures
        undone,
        p2.state_eq(&p0),
        h2 == h0,
{
}

} // verus!
