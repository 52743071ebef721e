//! Runes, orbs and the coordinate-keyed map of placed sigils.
//!
//! A sigil is a rune kind (its activation rule) paired with an orb kind
//! (its line-drawing rule). At most one sigil sits at a coordinate, so the
//! placement is a map from coordinates to sigils; it is stored as a vector
//! of pairs with unique keys and abstracted as a `Map`.

use vstd::prelude::*;
use vstd::string::StringExecFns;

use crate::coordinate::SigilCoordinate;

verus! {

/// Line-drawing rule kind carried by a sigil.
#[derive(Clone, Copy, PartialEq, Eq, Structural, Debug)]
pub enum Orb {
    Circle,
    Diamond,
    Octogon,
}

impl Orb {
    /// Whether a line drawn from a sigil with this orb may cross existing
    /// lines: only the circle forbids it.
    pub fn allow_intersections(&self) -> (r: bool)
        ensures
            r == (*self != Orb::Circle),
    {
        *self != Orb::Circle
    }

    /// This orb kind's display name.
    pub fn to_string(&self) -> (r: String)
        ensures
            r@ == (match *self {
                Orb::Circle => "Circle"@,
                Orb::Diamond => "Diamond"@,
                Orb::Octogon => "Octogon"@,
            }),
    {
        match *self {
            Orb::Circle => String::from_str("Circle"),
            Orb::Diamond => String::from_str("Diamond"),
            Orb::Octogon => String::from_str("Octogon"),
        }
    }

    /// The next orb kind in the editor's cycling order.
    pub fn change(&self) -> (r: Self)
        ensures
            r == (match *self {
                Orb::Circle => Orb::Diamond,
                Orb::Diamond => Orb::Octogon,
                Orb::Octogon => Orb::Circle,
            }),
    {
        match *self {
            Orb::Circle => Orb::Diamond,
            Orb::Diamond => Orb::Octogon,
            Orb::Octogon => Orb::Circle,
        }
    }
}

/// Activation rule kind carried by a sigil.
#[derive(Clone, Copy, PartialEq, Eq, Structural, Debug)]
pub enum Rune {
    Alpha,
    Sigma,
    Delta,
    Phi,
}

impl Rune {
    /// This rune kind's display name.
    pub fn to_string(&self) -> (r: String)
        ensures
            r@ == (match *self {
                Rune::Alpha => "Alpha"@,
                Rune::Sigma => "Sigma"@,
                Rune::Delta => "Delta"@,
                Rune::Phi => "Phi"@,
            }),
    {
        match *self {
            Rune::Alpha => String::from_str("Alpha"),
            Rune::Sigma => String::from_str("Sigma"),
            Rune::Delta => String::from_str("Delta"),
            Rune::Phi => String::from_str("Phi"),
        }
    }

    /// The next rune kind in the editor's cycling order.
    pub fn change(&self) -> (r: Self)
        ensures
            r == (match *self {
                Rune::Alpha => Rune::Delta,
                Rune::Delta => Rune::Phi,
                Rune::Phi => Rune::Sigma,
                Rune::Sigma => Rune::Alpha,
            }),
    {
        match *self {
            Rune::Alpha => Rune::Delta,
            Rune::Delta => Rune::Phi,
            Rune::Phi => Rune::Sigma,
            Rune::Sigma => Rune::Alpha,
        }
    }
}

/// A placed puzzle piece: an activation rule and a line-drawing rule.
#[derive(Clone, Copy, PartialEq, Eq, Structural, Debug)]
pub struct Sigil {
    pub rune: Rune,
    pub orb: Orb,
}

/// The sigils placed at coordinates, as a map built from a sequence of
/// pairs; a later pair with the same key shadows an earlier one.
pub open spec fn entries_map(s: Seq<(SigilCoordinate, Sigil)>) -> Map<(int, int), Sigil>
    decreases s.len(),
{
    if s.len() == 0 {
        Map::empty()
    } else {
        entries_map(s.drop_last()).insert(s.last().0@, s.last().1)
    }
}

/// A finite mapping from lattice coordinates to sigils.
#[derive(Debug)]
pub struct SigilMap {
    entries: Vec<(SigilCoordinate, Sigil)>,
}

impl View for SigilMap {
    type V = Map<(int, int), Sigil>;

    closed spec fn view(&self) -> Map<(int, int), Sigil> {
        entries_map(self.entries@)
    }
}

impl SigilMap {
    /// The stored pairs, in insertion order.
    pub closed spec fn pairs(&self) -> Seq<(SigilCoordinate, Sigil)> {
        self.entries@
    }

    /// Keys occur at most once among the stored pairs.
    pub open spec fn wf(&self) -> bool {
        forall|i: int, j: int|
            0 <= i < j < self.pairs().len() ==> (#[trigger] self.pairs()[i]).0@ != (
            #[trigger] self.pairs()[j]).0@
    }

    /// An empty map.
    pub fn new() -> (r: Self)
        ensures
            r@ == Map::<(int, int), Sigil>::empty(),
            r.pairs() == Seq::<(SigilCoordinate, Sigil)>::empty(),
            r.wf(),
    {
        SigilMap { entries: Vec::new() }
    }

    /// How many sigils are placed.
    pub fn len(&self) -> (r: usize)
        ensures
            r == self.pairs().len(),
    {
        self.entries.len()
    }

    /// The `i`-th stored pair, in insertion order.
    pub fn pair_at(&self, i: usize) -> (r: (SigilCoordinate, Sigil))
        requires
            i < self.pairs().len(),
        ensures
            r == self.pairs()[i as int],
    {
        self.entries[i]
    }

    /// Looks up the sigil at a coordinate.
    #[verifier::loop_isolation(false)]
    pub fn get(&self, coordinate: &SigilCoordinate) -> (r: Option<Sigil>)
        ensures
            match r {
                Some(sigil) => self@.contains_key(coordinate@) && self@[coordinate@] == sigil,
                None => !self@.contains_key(coordinate@),
            },
    {
        let ghost full = self.entries@;
        proof {
            assert(full.take(full.len() as int) =~= full);
        }
        let mut i: usize = self.entries.len();
        while i > 0
            invariant
                i <= self.entries.len(),
                full == self.entries@,
                entries_map(full).contains_key(coordinate@) == entries_map(
                    full.take(i as int),
                ).contains_key(coordinate@),
                entries_map(full.take(i as int)).contains_key(coordinate@) ==> entries_map(
                    full,
                )[coordinate@] == entries_map(full.take(i as int))[coordinate@],
            decreases i,
        {
            i = i - 1;
            proof {
                let pre = full.take(i + 1);
                assert(pre.drop_last() =~= full.take(i as int));
                assert(pre.last() == full[i as int]);
            }
            if self.entries[i].0 == *coordinate {
                return Some(self.entries[i].1);
            }
        }
        proof {
            assert(full.take(0) =~= Seq::<(SigilCoordinate, Sigil)>::empty());
        }
        None
    }

    /// Places a sigil at a coordinate, replacing any sigil already there.
    #[verifier::loop_isolation(false)]
    pub fn insert(&mut self, coordinate: SigilCoordinate, sigil: Sigil)
        requires
            old(self).wf(),
        ensures
            final(self).wf(),
            final(self)@ == old(self)@.insert(coordinate@, sigil),
            !old(self)@.contains_key(coordinate@) ==> final(self).pairs() == old(
                self,
            ).pairs().push((coordinate, sigil)),
            old(self)@.contains_key(coordinate@) ==> final(self).pairs().len() == old(
                self,
            ).pairs().len(),
    {
        let ghost s0 = self.entries@;
        proof {
            assert forall|a: int, b: int|
                0 <= a < b < s0.len() implies (#[trigger] s0[a]).0@ != (#[trigger] s0[b]).0@ by {
                assert(old(self).pairs()[a].0@ != old(self).pairs()[b].0@);
            }
        }
        let mut i: usize = 0;
        while i < self.entries.len()
            invariant
                i <= self.entries.len(),
                s0 == self.entries@,
                forall|j: int| 0 <= j < i ==> (#[trigger] s0[j]).0@ != coordinate@,
            decreases self.entries.len() - i,
        {
            if self.entries[i].0 == coordinate {
                let ghost gi = i as int;
                self.entries.set(i, (coordinate, sigil));
                proof {
                    lemma_entries_map_update(s0, gi, (coordinate, sigil));
                    lemma_entries_map_domain(s0, coordinate@);
                    assert(self.entries@ == s0.update(gi, (coordinate, sigil)));
                    assert forall|a: int, b: int|
                        0 <= a < b < self.entries@.len() implies (#[trigger] self.entries@[a]).0@
                        != (#[trigger] self.entries@[b]).0@ by {
                        assert(s0[a].0@ != s0[b].0@);
                        assert(self.entries@[a] == if a == gi {
                            (coordinate, sigil)
                        } else {
                            s0[a]
                        });
                        assert(self.entries@[b] == if b == gi {
                            (coordinate, sigil)
                        } else {
                            s0[b]
                        });
                    }
                }
                return ;
            }
            i = i + 1;
        }
        self.entries.push((coordinate, sigil));
        proof {
            lemma_entries_map_domain(s0, coordinate@);
            assert(self.entries@.drop_last() =~= s0);
            assert(entries_map(self.entries@) =~= entries_map(s0).insert(coordinate@, sigil));
            assert forall|a: int, b: int|
                0 <= a < b < self.entries@.len() implies (#[trigger] self.entries@[a]).0@ != (
            #[trigger] self.entries@[b]).0@ by {
                if b < s0.len() {
                    assert(s0[a].0@ != s0[b].0@);
                } else {
                    assert(s0[a].0@ != coordinate@);
                }
            }
        }
    }

    /// An element-wise copy holding the same pairs.
    pub fn duplicate(&self) -> (r: Self)
        ensures
            r.pairs() == self.pairs(),
            r@ == self@,
            r.wf() == self.wf(),
    {
        let mut entries: Vec<(SigilCoordinate, Sigil)> = Vec::new();
        let mut i: usize = 0;
        while i < self.entries.len()
            invariant
                i <= self.entries@.len(),
                entries@ == self.entries@.take(i as int),
            decreases self.entries@.len() - i,
        {
            entries.push(self.entries[i]);
            proof {
                assert(entries@ =~= self.entries@.take(i + 1));
            }
            i = i + 1;
        }
        proof {
            assert(self.entries@.take(self.entries@.len() as int) =~= self.entries@);
        }
        SigilMap { entries }
    }

    /// Removes the sigil at a coordinate, if any.
    #[verifier::loop_isolation(false)]
    pub fn remove(&mut self, coordinate: &SigilCoordinate)
        requires
            old(self).wf(),
        ensures
            final(self).wf(),
            final(self)@ == old(self)@.remove(coordinate@),
    {
        let ghost s0 = self.entries@;
        proof {
            assert forall|a: int, b: int|
                0 <= a < b < s0.len() implies (#[trigger] s0[a]).0@ != (#[trigger] s0[b]).0@ by {
                assert(old(self).pairs()[a].0@ != old(self).pairs()[b].0@);
            }
        }
        let mut i: usize = 0;
        while i < self.entries.len()
            invariant
                i <= self.entries.len(),
                s0 == self.entries@,
                forall|j: int| 0 <= j < i ==> (#[trigger] s0[j]).0@ != coordinate@,
            decreases self.entries.len() - i,
        {
            if self.entries[i].0 == *coordinate {
                let ghost gi = i as int;
                self.entries.remove(i);
                proof {
                    lemma_entries_map_remove(s0, gi);
                    assert(self.entries@ == s0.remove(gi));
                    assert forall|a: int, b: int|
                        0 <= a < b < self.entries@.len() implies (#[trigger] self.entries@[a]).0@
                        != (#[trigger] self.entries@[b]).0@ by {
                        let a0 = if a < gi {
                            a
                        } else {
                            a + 1
                        };
                        let b0 = if b < gi {
                            b
                        } else {
                            b + 1
                        };
                        assert(self.entries@[a] == s0[a0]);
                        assert(self.entries@[b] == s0[b0]);
                        assert(s0[a0].0@ != s0[b0].0@);
                    }
                }
                return ;
            }
            i = i + 1;
        }
        proof {
            lemma_entries_map_domain(s0, coordinate@);
            assert(entries_map(s0) =~= entries_map(s0).remove(coordinate@));
        }
    }
}

/// A key is in the map built from a pair sequence exactly when some pair
/// carries it.
pub proof fn lemma_entries_map_domain(s: Seq<(SigilCoordinate, Sigil)>, k: (int, int))
    ensures
        entries_map(s).contains_key(k) <==> exists|i: int|
            0 <= i < s.len() && (#[trigger] s[i]).0@ == k,
    decreases s.len(),
{
    if s.len() > 0 {
        lemma_entries_map_domain(s.drop_last(), k);
        if s.last().0@ == k {
            assert(s[s.len() - 1].0@ == k);
        } else if entries_map(s).contains_key(k) {
            let i = choose|i: int| 0 <= i < s.drop_last().len() && (#[trigger] s.drop_last()[i]).0@
                == k;
            assert(s[i].0@ == k);
        } else {
            if exists|i: int| 0 <= i < s.len() && (#[trigger] s[i]).0@ == k {
                let i = choose|i: int| 0 <= i < s.len() && (#[trigger] s[i]).0@ == k;
                assert(i < s.len() - 1);
                assert(s.drop_last()[i].0@ == k);
            }
        }
    }
}

/// Replacing the single pair that carries a key rewrites the built map at
/// that key alone.
proof fn lemma_entries_map_update(
    s: Seq<(SigilCoordinate, Sigil)>,
    i: int,
    p: (SigilCoordinate, Sigil),
)
    requires
        0 <= i < s.len(),
        s[i].0@ == p.0@,
        forall|a: int, b: int|
            0 <= a < b < s.len() ==> (#[trigger] s[a]).0@ != (#[trigger] s[b]).0@,
    ensures
        entries_map(s.update(i, p)) == entries_map(s).insert(p.0@, p.1),
    decreases s.len(),
{
    let n = s.len() as int;
    if i == n - 1 {
        assert(s.update(i, p).drop_last() =~= s.drop_last());
        assert(entries_map(s.update(i, p)) =~= entries_map(s).insert(p.0@, p.1));
    } else {
        assert(s.update(i, p).drop_last() =~= s.drop_last().update(i, p));
        lemma_entries_map_update(s.drop_last(), i, p);
        assert(s.last().0@ != p.0@);
        assert(entries_map(s.update(i, p)) =~= entries_map(s).insert(p.0@, p.1));
    }
}

/// Removing the single pair that carries a key removes exactly that key
/// from the built map.
proof fn lemma_entries_map_remove(s: Seq<(SigilCoordinate, Sigil)>, i: int)
    requires
        0 <= i < s.len(),
        forall|a: int, b: int|
            0 <= a < b < s.len() ==> (#[trigger] s[a]).0@ != (#[trigger] s[b]).0@,
    ensures
        entries_map(s.remove(i)) == entries_map(s).remove(s[i].0@),
    decreases s.len(),
{
    let n = s.len() as int;
    let k = s[i].0@;
    if i == n - 1 {
        assert(s.remove(i) =~= s.drop_last());
        lemma_entries_map_domain(s.drop_last(), k);
        assert(!entries_map(s.drop_last()).contains_key(k));
        assert(entries_map(s.remove(i)) =~= entries_map(s).remove(k));
    } else {
        assert(s.remove(i).drop_last() =~= s.drop_last().remove(i));
        lemma_entries_map_remove(s.drop_last(), i);
        assert(s.last().0@ != k);
        assert(entries_map(s.remove(i)) =~= entries_map(s).remove(k));
    }
}

} // verus!
