//! Rune activation: the four read-only predicates a rune kind evaluates
//! over the drawn lines.
//!
//! Alpha asks to be touched by a line, Phi asks to be touched by none,
//! Sigma asks for a directed cycle through a touching line, and Delta asks
//! to sit strictly inside a directed triangle of mutually extending lines.

use vstd::prelude::*;

use crate::coordinate::SigilCoordinate;
use crate::line::{Line, Orientation, point_on, step_count, touches, spec_orientation, orientation};
use crate::rune::{Rune, Sigil, SigilMap};

verus! {

/// Whether some drawn line touches the coordinate.
pub open spec fn alpha_active(lines: Seq<Line>, c: SigilCoordinate) -> bool {
    exists|i: int| 0 <= i < lines.len() && touches(#[trigger] lines[i], c)
}

/// The shared lattice point that makes `l2` extend `l1`: the `i`-th point
/// of `l1` (not its start) equals the `j`-th point of `l2` (not its end),
/// and a sigil is placed there.
pub open spec fn extends_at(
    l1: Line,
    l2: Line,
    sigils: Map<(int, int), Sigil>,
    i: int,
    j: int,
) -> bool {
    &&& 1 <= i <= step_count(l1)
    &&& 0 <= j < step_count(l2)
    &&& point_on(l1, i) == point_on(l2, j)
    &&& sigils.contains_key(point_on(l1, i))
}

/// Whether `l2` branches or extends from `l1` through some shared
/// coordinate that holds a sigil.
pub open spec fn spec_extends(l1: Line, l2: Line, sigils: Map<(int, int), Sigil>) -> bool {
    exists|i: int, j: int| extends_at(l1, l2, sigils, i, j)
}

/// A drawn line leads directly from `a` to `b`.
pub open spec fn edge(lines: Seq<Line>, a: SigilCoordinate, b: SigilCoordinate) -> bool {
    exists|i: int| 0 <= i < lines.len() && (#[trigger] lines[i]).start == a && lines[i].end == b
}

/// A non-empty walk that follows drawn lines start-to-end.
pub open spec fn is_path(lines: Seq<Line>, p: Seq<SigilCoordinate>) -> bool {
    p.len() >= 1 && forall|i: int| 0 <= i < p.len() - 1 ==> edge(lines, #[trigger] p[i], p[i + 1])
}

/// `to` can be reached from `from` by following drawn lines forward.
pub open spec fn reachable(lines: Seq<Line>, from: SigilCoordinate, to: SigilCoordinate) -> bool {
    exists|p: Seq<SigilCoordinate>|
        is_path(lines, p) && p.first() == from && p.last() == to
}

/// Whether the coordinate lies on a directed cycle: some line touching it
/// leads, start to end and onward through further lines, back to its own
/// start.
pub open spec fn sigma_active(lines: Seq<Line>, c: SigilCoordinate) -> bool {
    exists|i: int|
        0 <= i < lines.len() && touches(#[trigger] lines[i], c) && reachable(
            lines,
            lines[i].end,
            lines[i].start,
        )
}

/// Lines `a`, `b`, `d` form a directed triangle of mutually extending
/// lines with a consistent non-collinear winding, and the coordinate falls
/// on that same side of all three edges.
pub open spec fn delta_witness(
    lines: Seq<Line>,
    sigils: Map<(int, int), Sigil>,
    c: SigilCoordinate,
    a: int,
    b: int,
    d: int,
) -> bool {
    &&& 0 <= a < lines.len()
    &&& 0 <= b < lines.len()
    &&& 0 <= d < lines.len()
    &&& spec_extends(lines[a], lines[b], sigils)
    &&& spec_extends(lines[b], lines[d], sigils)
    &&& spec_extends(lines[d], lines[a], sigils)
    &&& spec_orientation(lines[a].start@, lines[a].end@, lines[b].end@) != Orientation::Collinear
    &&& spec_orientation(lines[a].start@, lines[a].end@, c@) == spec_orientation(
        lines[a].start@,
        lines[a].end@,
        lines[b].end@,
    )
    &&& spec_orientation(lines[b].start@, lines[b].end@, c@) == spec_orientation(
        lines[a].start@,
        lines[a].end@,
        lines[b].end@,
    )
    &&& spec_orientation(lines[d].start@, lines[d].end@, c@) == spec_orientation(
        lines[a].start@,
        lines[a].end@,
        lines[b].end@,
    )
}

/// Whether the coordinate lies strictly inside some directed triangle of
/// mutually extending lines.
pub open spec fn delta_active(
    lines: Seq<Line>,
    sigils: Map<(int, int), Sigil>,
    c: SigilCoordinate,
) -> bool {
    exists|a: int, b: int, d: int| delta_witness(lines, sigils, c, a, b, d)
}

/// The activation predicate of each rune kind.
pub open spec fn rune_active(
    rune: Rune,
    c: SigilCoordinate,
    lines: Seq<Line>,
    sigils: Map<(int, int), Sigil>,
) -> bool {
    match rune {
        Rune::Alpha => alpha_active(lines, c),
        Rune::Phi => !alpha_active(lines, c),
        Rune::Sigma => sigma_active(lines, c),
        Rune::Delta => delta_active(lines, sigils, c),
    }
}

/// Whether a segment passes through the given coordinate.
#[verifier::loop_isolation(false)]
pub fn touches_exec(l: &Line, c: &SigilCoordinate) -> (r: bool)
    ensures
        r == touches(*l, *c),
{
    let points = l.coordinates();
    let mut k: usize = 0;
    while k < points.len()
        invariant
            k <= points@.len(),
            forall|j: int| 0 <= j < k ==> point_on(*l, j) != c@,
        decreases points@.len() - k,
    {
        if points[k] == *c {
            proof {
                assert(point_on(*l, k as int) == c@);
            }
            return true;
        }
        k = k + 1;
    }
    false
}

/// Whether the vector holds the coordinate.
#[verifier::loop_isolation(false)]
fn contains_coordinate(v: &Vec<SigilCoordinate>, c: &SigilCoordinate) -> (r: bool)
    ensures
        r == v@.contains(*c),
{
    let mut k: usize = 0;
    while k < v.len()
        invariant
            k <= v@.len(),
            forall|j: int| 0 <= j < k ==> v@[j] != *c,
        decreases v@.len() - k,
    {
        if v[k] == *c {
            return true;
        }
        k = k + 1;
    }
    false
}

impl Line {
    /// Whether `other` branches or extends from `self`: some coordinate
    /// touched by `self` (other than its start) equals a coordinate touched
    /// by `other` (other than its end), and a sigil is placed there.
    #[verifier::loop_isolation(false)]
    pub fn extends(&self, other: &Line, sigils: &SigilMap) -> (r: bool)
        ensures
            r == spec_extends(*self, *other, sigils@),
    {
        let self_points = self.coordinates();
        let other_points = other.coordinates();
        let mut i: usize = 1;
        while i < self_points.len()
            invariant
                1 <= i,
                forall|a: int, b: int| 1 <= a < i ==> !extends_at(*self, *other, sigils@, a, b),
            decreases self_points@.len() - i,
        {
            if sigils.get(&self_points[i]).is_some() {
                let mut j: usize = 0;
                while j < other_points.len() - 1
                    invariant
                        j <= other_points@.len() - 1,
                        forall|b: int| 0 <= b < j ==> !extends_at(
                            *self,
                            *other,
                            sigils@,
                            i as int,
                            b,
                        ),
                    decreases other_points@.len() - j,
                {
                    if self_points[i] == other_points[j] {
                        proof {
                            assert(extends_at(*self, *other, sigils@, i as int, j as int));
                        }
                        return true;
                    }
                    j = j + 1;
                }
            }
            proof {
                assert forall|b: int| !extends_at(*self, *other, sigils@, i as int, b) by {
                    if 0 <= b < step_count(*other) {
                        assert(other_points@[b]@ == point_on(*other, b));
                    }
                }
            }
            i = i + 1;
        }
        proof {
            assert forall|a: int, b: int| !extends_at(*self, *other, sigils@, a, b) by {}
        }
        false
    }
}

/// Extending a walk by one drawn line keeps it a walk.
proof fn lemma_reachable_step(lines: Seq<Line>, s: SigilCoordinate, x: SigilCoordinate, y: SigilCoordinate)
    requires
        reachable(lines, s, x),
        edge(lines, x, y),
    ensures
        reachable(lines, s, y),
{
    let p = choose|p: Seq<SigilCoordinate>| is_path(lines, p) && p.first() == s && p.last() == x;
    let q = p.push(y);
    assert(q.last() == y);
    assert forall|i: int| 0 <= i < q.len() - 1 implies edge(lines, #[trigger] q[i], q[i + 1]) by {
        if i < p.len() - 1 {
            assert(q[i] == p[i] && q[i + 1] == p[i + 1]);
        } else {
            assert(q[i] == p.last() && q[i + 1] == y);
        }
    }
    assert(is_path(lines, q) && q.first() == s && q.last() == y);
}

/// Every coordinate is reachable from itself by the empty walk.
proof fn lemma_reachable_refl(lines: Seq<Line>, c: SigilCoordinate)
    ensures
        reachable(lines, c, c),
{
    let p = seq![c];
    assert(is_path(lines, p) && p.first() == c && p.last() == c);
}

/// A set of coordinates closed under following drawn lines traps every
/// walk that starts inside it.
proof fn lemma_closed_blocks(lines: Seq<Line>, passed: Seq<SigilCoordinate>, p: Seq<SigilCoordinate>)
    requires
        is_path(lines, p),
        passed.contains(p.first()),
        forall|k: int, li: int|
            0 <= k < passed.len() && 0 <= li < lines.len() && (#[trigger] lines[li]).start == (
            #[trigger] passed[k]) ==> passed.contains(lines[li].end),
    ensures
        passed.contains(p.last()),
    decreases p.len(),
{
    if p.len() > 1 {
        assert(edge(lines, p[0], p[1]));
        let li = choose|li: int|
            0 <= li < lines.len() && (#[trigger] lines[li]).start == p[0] && lines[li].end == p[1];
        let k = choose|k: int| 0 <= k < passed.len() && passed[k] == p.first();
        assert(passed.contains(p[1]));
        let q = p.subrange(1, p.len() as int);
        assert forall|i: int| 0 <= i < q.len() - 1 implies edge(lines, #[trigger] q[i], q[i + 1]) by {
            assert(q[i] == p[i + 1] && q[i + 1] == p[i + 2]);
        }
        assert(is_path(lines, q));
        lemma_closed_blocks(lines, passed, q);
    }
}

/// The end coordinate of each drawn line, in order.
spec fn ends_seq(lines: Seq<Line>) -> Seq<SigilCoordinate> {
    lines.map_values(|l: Line| l.end)
}

/// Depth-first search along drawn lines: whether `target` can be reached
/// from `source`.
#[verifier::loop_isolation(false)]
fn search_cycle(lines: &Vec<Line>, source: SigilCoordinate, target: SigilCoordinate) -> (r: bool)
    ensures
        r == reachable(lines@, source, target),
{
    let ghost universe = ends_seq(lines@).to_set().insert(source);
    proof {
        broadcast use vstd::seq_lib::seq_to_set_is_finite;

        assert(universe.finite());
        lemma_reachable_refl(lines@, source);
    }
    let mut frontier: Vec<SigilCoordinate> = Vec::new();
    frontier.push(source);
    let mut passed: Vec<SigilCoordinate> = Vec::new();
    proof {
        assert(frontier@[0] == source);
        assert(frontier@.contains(source));
    }
    while frontier.len() > 0
        invariant
            forall|k: int| 0 <= k < frontier@.len() ==> reachable(
                lines@,
                source,
                #[trigger] frontier@[k],
            ),
            forall|k: int| 0 <= k < frontier@.len() ==> universe.contains(#[trigger] frontier@[k]),
            forall|k: int| 0 <= k < passed@.len() ==> (#[trigger] passed@[k]) != target,
            passed@.contains(source) || frontier@.contains(source),
            forall|k: int, li: int|
                0 <= k < passed@.len() && 0 <= li < lines@.len() && (#[trigger] lines@[li]).start
                    == (#[trigger] passed@[k]) ==> passed@.contains(lines@[li].end)
                || frontier@.contains(lines@[li].end),
        decreases universe.difference(passed@.to_set()).len(), frontier@.len(),
    {
        let ghost frontier0 = frontier@;
        let ghost passed0 = passed@;
        let x = match frontier.pop() {
            Some(x) => x,
            None => {
                proof {
                    assert(false);
                }
                return false;
            },
        };
        if x == target {
            return true;
        }
        proof {
            assert(frontier@ == frontier0.drop_last());
            assert(x == frontier0.last());
        }
        if !contains_coordinate(&passed, &x) {
            passed.push(x);
            proof {
                broadcast use vstd::seq_lib::lemma_seq_contains_after_push;

                assert forall|j: int|
                    0 <= j < frontier0.len() - 1 implies frontier@.contains(
                    #[trigger] frontier0[j],
                ) by {
                    assert(frontier@[j] == frontier0[j]);
                }
                if passed0.contains(source) {
                    assert(passed@.contains(source));
                } else {
                    let i = choose|i: int|
                        0 <= i < frontier0.len() && frontier0[i] == source;
                    if i < frontier0.len() - 1 {
                        assert(frontier@[i] == frontier0[i]);
                        assert(frontier@.contains(source));
                    } else {
                        assert(source == x);
                        assert(passed@.contains(source));
                    }
                }
                assert forall|k: int, lj: int|
                    0 <= k < passed0.len() && 0 <= lj < lines@.len() && (
                #[trigger] lines@[lj]).start == (#[trigger] passed0[k]) implies passed@.contains(
                    lines@[lj].end,
                ) || frontier@.contains(lines@[lj].end) by {
                    assert(passed0.contains(lines@[lj].end) || frontier0.contains(
                        lines@[lj].end,
                    ));
                    if passed0.contains(lines@[lj].end) {
                        assert(passed@.contains(lines@[lj].end));
                    } else {
                        let i = choose|i: int|
                            0 <= i < frontier0.len() && frontier0[i] == lines@[lj].end;
                        if i < frontier0.len() - 1 {
                            assert(frontier@[i] == frontier0[i]);
                            assert(frontier@.contains(lines@[lj].end));
                        } else {
                            assert(lines@[lj].end == x);
                            assert(passed@.contains(lines@[lj].end));
                        }
                    }
                }
                assert(passed@.to_set() =~= passed0.to_set().insert(x));
                assert(universe.difference(passed@.to_set()) =~= universe.difference(
                    passed0.to_set(),
                ).remove(x));
                vstd::set_lib::lemma_len_subset(
                    universe.difference(passed@.to_set()),
                    universe,
                );
                assert(universe.difference(passed0.to_set()).contains(x));
                assert(universe.difference(passed0.to_set()).len() > universe.difference(
                    passed@.to_set(),
                ).len());
            }
            let mut li: usize = 0;
            while li < lines.len()
                invariant
                    passed@ == passed0.push(x),
                    frontier@.len() >= frontier0.len() - 1,
                    forall|k: int| 0 <= k < frontier@.len() ==> reachable(
                        lines@,
                        source,
                        #[trigger] frontier@[k],
                    ),
                    forall|k: int| 0 <= k < frontier@.len() ==> universe.contains(
                        #[trigger] frontier@[k],
                    ),
                    passed@.contains(source) || frontier@.contains(source),
                    forall|j: int| 0 <= j < frontier0.len() - 1 ==> frontier@.contains(
                        #[trigger] frontier0[j],
                    ),
                    forall|k: int, lj: int|
                        0 <= k < passed0.len() && 0 <= lj < lines@.len() && (
                        #[trigger] lines@[lj]).start == (#[trigger] passed0[k]) ==> passed@.contains(
                            lines@[lj].end,
                        ) || frontier@.contains(lines@[lj].end),
                    forall|lj: int|
                        0 <= lj < li && (#[trigger] lines@[lj]).start == x ==> passed@.contains(
                            lines@[lj].end,
                        ) || frontier@.contains(lines@[lj].end),
                decreases lines@.len() - li,
            {
                if lines[li].start.x == x.x && lines[li].start.y == x.y {
                    proof {
                        assert(edge(lines@, x, lines@[li as int].end));
                        lemma_reachable_step(lines@, source, x, lines@[li as int].end);
                        assert(ends_seq(lines@)[li as int] == lines@[li as int].end);
                        assert(ends_seq(lines@).contains(lines@[li as int].end));
                        assert(universe.contains(lines@[li as int].end));
                    }
                    let ghost fbefore = frontier@;
                    frontier.push(lines[li].end);
                    proof {
                        broadcast use vstd::seq_lib::lemma_seq_contains_after_push;

                        assert(frontier@ == fbefore.push(lines@[li as int].end));
                        assert(frontier@.contains(lines@[li as int].end));
                    }
                }
                li = li + 1;
            }
        } else {
            proof {
                if !passed@.contains(source) {
                    let i = choose|i: int|
                        0 <= i < frontier0.len() && frontier0[i] == source;
                    if i < frontier0.len() - 1 {
                        assert(frontier@[i] == frontier0[i]);
                        assert(frontier@.contains(source));
                    } else {
                        assert(source == x);
                    }
                }
                assert forall|k: int, lj: int|
                    0 <= k < passed@.len() && 0 <= lj < lines@.len() && (
                #[trigger] lines@[lj]).start == (#[trigger] passed@[k]) implies passed@.contains(
                    lines@[lj].end,
                ) || frontier@.contains(lines@[lj].end) by {
                    assert(passed0.contains(lines@[lj].end) || frontier0.contains(
                        lines@[lj].end,
                    ));
                    if !passed@.contains(lines@[lj].end) {
                        let i = choose|i: int|
                            0 <= i < frontier0.len() && frontier0[i] == lines@[lj].end;
                        if i < frontier0.len() - 1 {
                            assert(frontier@[i] == frontier0[i]);
                            assert(frontier@.contains(lines@[lj].end));
                        } else {
                            assert(lines@[lj].end == x);
                        }
                    }
                }
            }
        }
    }
    proof {
        if reachable(lines@, source, target) {
            let p = choose|p: Seq<SigilCoordinate>|
                is_path(lines@, p) && p.first() == source && p.last() == target;
            lemma_closed_blocks(lines@, passed@, p);
            let k = choose|k: int| 0 <= k < passed@.len() && passed@[k] == p.last();
            assert(false);
        }
    }
    false
}

impl Rune {
    /// Evaluates this rune kind's activation predicate at a coordinate,
    /// over the drawn lines and the placed sigils.
    #[verifier::loop_isolation(false)]
    pub fn active(&self, coordinate: SigilCoordinate, lines: &Vec<Line>, sigils: &SigilMap) -> (r:
        bool)
        ensures
            r == rune_active(*self, coordinate, lines@, sigils@),
    {
        match self {
            Rune::Alpha => alpha_exec(coordinate, lines),
            Rune::Phi => !alpha_exec(coordinate, lines),
            Rune::Sigma => {
                let mut i: usize = 0;
                while i < lines.len()
                    invariant
                        forall|k: int|
                            0 <= k < i ==> !(touches(#[trigger] lines@[k], coordinate) && reachable(
                                lines@,
                                lines@[k].end,
                                lines@[k].start,
                            )),
                    decreases lines@.len() - i,
                {
                    if touches_exec(&lines[i], &coordinate) {
                        if search_cycle(lines, lines[i].end, lines[i].start) {
                            return true;
                        }
                    }
                    i = i + 1;
                }
                false
            },
            Rune::Delta => {
                let mut a: usize = 0;
                while a < lines.len()
                    invariant
                        forall|a1: int, b1: int, d1: int|
                            0 <= a1 < a ==> !delta_witness(lines@, sigils@, coordinate, a1, b1, d1),
                    decreases lines@.len() - a,
                {
                    let mut b: usize = 0;
                    while b < lines.len()
                        invariant
                            forall|a1: int, b1: int, d1: int|
                                0 <= a1 < a ==> !delta_witness(
                                    lines@,
                                    sigils@,
                                    coordinate,
                                    a1,
                                    b1,
                                    d1,
                                ),
                            forall|b1: int, d1: int|
                                0 <= b1 < b ==> !delta_witness(
                                    lines@,
                                    sigils@,
                                    coordinate,
                                    a as int,
                                    b1,
                                    d1,
                                ),
                        decreases lines@.len() - b,
                    {
                        if lines[a].extends(&lines[b], sigils) {
                            let mut d: usize = 0;
                            while d < lines.len()
                                invariant
                                    forall|a1: int, b1: int, d1: int|
                                        0 <= a1 < a ==> !delta_witness(
                                            lines@,
                                            sigils@,
                                            coordinate,
                                            a1,
                                            b1,
                                            d1,
                                        ),
                                    forall|b1: int, d1: int|
                                        0 <= b1 < b ==> !delta_witness(
                                            lines@,
                                            sigils@,
                                            coordinate,
                                            a as int,
                                            b1,
                                            d1,
                                        ),
                                    forall|d1: int|
                                        0 <= d1 < d ==> !delta_witness(
                                            lines@,
                                            sigils@,
                                            coordinate,
                                            a as int,
                                            b as int,
                                            d1,
                                        ),
                                decreases lines@.len() - d,
                            {
                                if lines[b].extends(&lines[d], sigils) && lines[d].extends(
                                    &lines[a],
                                    sigils,
                                ) {
                                    let direction = orientation(
                                        lines[a].start,
                                        lines[a].end,
                                        lines[b].end,
                                    );
                                    if direction != Orientation::Collinear {
                                        if orientation(lines[a].start, lines[a].end, coordinate)
                                            == direction && orientation(
                                            lines[b].start,
                                            lines[b].end,
                                            coordinate,
                                        ) == direction && orientation(
                                            lines[d].start,
                                            lines[d].end,
                                            coordinate,
                                        ) == direction {
                                            proof {
                                                assert(delta_witness(
                                                    lines@,
                                                    sigils@,
                                                    coordinate,
                                                    a as int,
                                                    b as int,
                                                    d as int,
                                                ));
                                            }
                                            return true;
                                        }
                                    }
                                }
                                d = d + 1;
                            }
                        }
                        b = b + 1;
                    }
                    a = a + 1;
                }
                false
            },
        }
    }
}

/// Whether some drawn line touches the coordinate.
#[verifier::loop_isolation(false)]
fn alpha_exec(coordinate: SigilCoordinate, lines: &Vec<Line>) -> (r: bool)
    ensures
        r == alpha_active(lines@, coordinate),
{
    let mut i: usize = 0;
    while i < lines.len()
        invariant
            forall|k: int| 0 <= k < i ==> !touches(#[trigger] lines@[k], coordinate),
        decreases lines@.len() - i,
    {
        if touches_exec(&lines[i], &coordinate) {
            return true;
        }
        i = i + 1;
    }
    false
}

} // verus!
