//! The discrete state of a simulation: molecule counts and the reactions
//! that act on them.
//!
//! The engine evaluates the integer part of every propensity and applies the
//! reaction that was drawn.  Drawing it (scaling by the rate constants,
//! summing, sampling the waiting time and the reaction) is the caller's part,
//! who reports what came of it as a [`Draw`].

use vstd::prelude::*;
use crate::rate::{combinations, exhausted, Rate};

verus! {

/// What can go wrong at the surface of the engine.
#[derive(Debug, Clone, Copy, PartialEq, Eq, Structural)]
pub enum Error {
    /// A vector does not have one entry for each species.
    ShapeMismatch,
    /// An index does not name a species.
    IndexOutOfRange,
    /// A propensity is not a finite number, or is negative.
    InvalidPropensity,
}

/// A reaction: how fast it fires, and what one firing does to the counts.
pub struct Reaction<K> {
    pub rate: Rate<K>,
    pub change: Vec<i64>,
}

/// The mathematical content of a [`Reaction`].
pub ghost struct ReactionSpec<K> {
    pub constant: K,
    pub reactants: Seq<u64>,
    pub change: Seq<i64>,
}

impl<K> View for Reaction<K> {
    type V = ReactionSpec<K>;

    open spec fn view(&self) -> ReactionSpec<K> {
        ReactionSpec {
            constant: self.rate.constant(),
            reactants: self.rate.reactants(),
            change: self.change@,
        }
    }
}

/// `e` undoes `d`: entry by entry the opposite change.
pub open spec fn opposite(d: Seq<i64>, e: Seq<i64>) -> bool {
    &&& d.len() == e.len()
    &&& forall|i: int| 0 <= i < d.len() ==> #[trigger] e[i] == -d[i]
}

/// The state `x` moved by the change `d`, as unbounded integers.
pub open spec fn moved(x: Seq<i64>, d: Seq<i64>) -> Seq<int> {
    Seq::new(x.len(), |i: int| x[i] + d[i])
}

/// Every count of `x` moved by `d` is still a 64-bit count.
pub open spec fn movable(x: Seq<i64>, d: Seq<i64>) -> bool {
    &&& x.len() == d.len()
    &&& forall|i: int| 0 <= i < x.len() ==> i64::MIN <= #[trigger] moved(x, d)[i] <= i64::MAX
}

/// A reaction with this rate and this change has one multiplicity and one
/// change for each species of the state `x`.
pub open spec fn fits<K>(x: Seq<i64>, rate: Rate<K>, change: Vec<i64>) -> bool {
    rate.reactants().len() == x.len() && change@.len() == x.len()
}

/// The mathematical content of an [`Engine`].
pub ghost struct EngineState<K> {
    pub counts: Seq<i64>,
    pub reactions: Seq<ReactionSpec<K>>,
}

impl<K> EngineState<K> {
    /// Every reaction has one multiplicity and one change for each species.
    pub open spec fn wf(self) -> bool {
        forall|j: int|
            0 <= j < self.reactions.len() ==> {
                &&& (#[trigger] self.reactions[j]).reactants.len() == self.counts.len()
                &&& self.reactions[j].change.len() == self.counts.len()
            }
    }

    /// The state with one more reaction, which gets the next index.
    pub open spec fn add_reaction(self, reaction: ReactionSpec<K>) -> Self {
        EngineState { counts: self.counts, reactions: self.reactions.push(reaction) }
    }

    /// The integer part of the propensity of reaction `j`.
    pub open spec fn combinations(self, j: int) -> int {
        combinations(self.counts, self.reactions[j].reactants)
    }

    /// Reaction `j` exists and firing it keeps every count within 64 bits.
    pub open spec fn can_fire(self, j: int) -> bool {
        &&& 0 <= j < self.reactions.len()
        &&& movable(self.counts, self.reactions[j].change)
    }

    /// The state after a draw was taken in: only a firing moves it.
    pub open spec fn commit(self, draw: Draw) -> Self {
        match draw {
            Draw::Fire(j) => self.fire(j as int),
            _ => self,
        }
    }

    /// The state after reaction `j` fired once.
    pub open spec fn fire(self, j: int) -> Self {
        EngineState {
            counts: Seq::new(
                self.counts.len(),
                |i: int| (self.counts[i] + self.reactions[j].change[i]) as i64,
            ),
            reactions: self.reactions,
        }
    }
}

/// What evaluating the propensities and drawing the next event came to.
#[derive(Debug, Clone, Copy, PartialEq, Eq, Structural)]
pub enum Draw {
    /// Some propensity is not a finite number, or is negative.
    Invalid,
    /// The propensities sum to zero: no reaction can fire.
    Absorbing,
    /// The next firing falls after the time asked for: it is discarded.
    Beyond,
    /// The reaction with this index fires.
    Fire(usize),
}

impl Draw {
    /// What the step kernel reports for this draw: the reaction that fired,
    /// `None` where no step was made, an error for an invalid propensity.
    pub open spec fn outcome(self) -> Result<Option<usize>, Error> {
        match self {
            Draw::Invalid => Err(Error::InvalidPropensity),
            Draw::Absorbing => Ok(None),
            Draw::Beyond => Ok(None),
            Draw::Fire(j) => Ok(Some(j)),
        }
    }
}

/// Molecule counts and the reactions that change them.
pub struct Engine<K> {
    species: Vec<i64>,
    reactions: Vec<Reaction<K>>,
}

impl<K> View for Engine<K> {
    type V = EngineState<K>;

    closed spec fn view(&self) -> EngineState<K> {
        EngineState {
            counts: self.species@,
            reactions: Seq::new(self.reactions@.len(), |j: int| self.reactions@[j]@),
        }
    }
}

impl<K> Engine<K> {
    /// Every reaction has one multiplicity and one change for each species.
    pub open spec fn wf(&self) -> bool {
        self@.wf()
    }

    /// An engine with the counts `x0`, one for each species, and no reaction.
    pub fn new(x0: Vec<i64>) -> (engine: Self)
        ensures
            engine.wf(),
            engine@.counts == x0@,
            engine@.reactions == Seq::<ReactionSpec<K>>::empty(),
    {
        let engine = Engine { species: x0, reactions: Vec::new() };
        assert(engine@.reactions =~= Seq::<ReactionSpec<K>>::empty());
        engine
    }

    /// Number of species.
    pub fn nb_species(&self) -> (n: usize)
        ensures
            n == self@.counts.len(),
    {
        self.species.len()
    }

    /// Number of reactions.
    pub fn nb_reactions(&self) -> (n: usize)
        ensures
            n == self@.reactions.len(),
    {
        self.reactions.len()
    }

    /// The count of species `i`.
    pub fn get_species(&self, i: usize) -> (r: Result<i64, Error>)
        ensures
            i < self@.counts.len() ==> r == Ok::<i64, Error>(self@.counts[i as int]),
            i >= self@.counts.len() ==> r == Err::<i64, Error>(Error::IndexOutOfRange),
    {
        if i < self.species.len() {
            Ok(self.species[i])
        } else {
            Err(Error::IndexOutOfRange)
        }
    }

    /// All counts, by species index.
    pub fn counts(&self) -> (x: &Vec<i64>)
        ensures
            x@ == self@.counts,
    {
        &self.species
    }

    /// Reaction `j`, if there is one.
    pub fn reaction(&self, j: usize) -> (r: Option<&Reaction<K>>)
        ensures
            match r {
                Some(reaction) => j < self@.reactions.len()
                    && reaction@ == self@.reactions[j as int],
                None => j >= self@.reactions.len(),
            },
    {
        if j < self.reactions.len() {
            Some(&self.reactions[j])
        } else {
            None
        }
    }

    /// Appends a reaction; it gets the next index and no other index moves.
    ///
    /// A multiplicity or change vector that does not have one entry for each
    /// species is refused, and nothing changes.
    pub fn add_reaction(&mut self, rate: Rate<K>, change: Vec<i64>) -> (r: Result<(), Error>)
        requires
            old(self).wf(),
        ensures
            final(self).wf(),
            fits(old(self)@.counts, rate, change) ==> r.is_ok()
                && final(self)@ == old(self)@.add_reaction((Reaction { rate, change })@),
            !fits(old(self)@.counts, rate, change) ==> r == Err::<(), Error>(Error::ShapeMismatch)
                && final(self)@ == old(self)@,
    {
        if rate.stoichiometry().len() != self.species.len() || change.len() != self.species.len() {
            return Err(Error::ShapeMismatch);
        }
        let reaction = Reaction { rate, change };
        self.reactions.push(reaction);
        assert(self@.reactions =~= old(self)@.reactions.push(reaction@));
        Ok(())
    }

    /// Evaluates the integer part of every propensity in the current state.
    ///
    /// `scratch` is the caller's, to be used again from step to step; what
    /// it held is overwritten.  Entry `j` is the number of ordered ways to
    /// pick the reactants of reaction `j`, or `None` where that number
    /// exceeds 64 bits.
    pub fn evaluate(&self, scratch: &mut Vec<Option<i64>>)
        ensures
            final(scratch)@.len() == self@.reactions.len(),
            forall|j: int|
                0 <= j < self@.reactions.len() ==> match #[trigger] final(scratch)@[j] {
                    Some(p) => p == self@.combinations(j),
                    None => self@.combinations(j) > i64::MAX,
                },
    {
        scratch.clear();
        let mut j: usize = 0;
        while j < self.reactions.len()
            invariant
                j <= self.reactions.len(),
                scratch@.len() == j,
                forall|k: int|
                    0 <= k < j ==> match #[trigger] scratch@[k] {
                        Some(p) => p == self@.combinations(k),
                        None => self@.combinations(k) > i64::MAX,
                    },
            decreases self.reactions.len() - j,
        {
            let c = self.reactions[j].rate.combinations(&self.species);
            scratch.push(c);
            j += 1;
        }
    }

    /// Whether reaction `j` exists and firing it keeps every count within 64 bits.
    pub fn can_fire(&self, j: usize) -> (b: bool)
        requires
            self.wf(),
        ensures
            b == self@.can_fire(j as int),
    {
        if j >= self.reactions.len() {
            return false;
        }
        let change = &self.reactions[j].change;
        assert(change@ == self@.reactions[j as int].change);
        let mut i: usize = 0;
        while i < self.species.len()
            invariant
                i <= self.species.len(),
                j < self.reactions@.len(),
                change@ == self@.reactions[j as int].change,
                change@.len() == self.species@.len(),
                forall|k: int|
                    0 <= k < i ==> i64::MIN <= #[trigger] moved(self.species@, change@)[k]
                        <= i64::MAX,
            decreases self.species.len() - i,
        {
            if self.species[i].checked_add(change[i]).is_none() {
                assert(!(i64::MIN <= moved(self.species@, change@)[i as int] <= i64::MAX));
                return false;
            }
            i += 1;
        }
        true
    }

    /// Fires reaction `j` once: every count moves by the reaction's change.
    pub fn fire(&mut self, j: usize)
        requires
            old(self).wf(),
            old(self)@.can_fire(j as int),
        ensures
            final(self).wf(),
            final(self)@ == old(self)@.fire(j as int),
    {
        let n = self.species.len();
        let mut i: usize = 0;
        while i < n
            invariant
                i <= n,
                n == self.species@.len(),
                n == old(self).species@.len(),
                j < self.reactions@.len(),
                self.reactions == old(self).reactions,
                old(self)@.can_fire(j as int),
                forall|k: int|
                    0 <= k < i ==> self.species@[k] == moved(
                        old(self).species@,
                        old(self).reactions@[j as int].change@,
                    )[k],
                forall|k: int| i <= k < n ==> self.species@[k] == old(self).species@[k],
            decreases n - i,
        {
            assert(i64::MIN <= moved(
                old(self).species@,
                old(self).reactions@[j as int].change@,
            )[i as int] <= i64::MAX);
            let v: i64 = self.species[i] + self.reactions[j].change[i];
            self.species.set(i, v);
            i += 1;
        }
        assert(self@.counts =~= old(self)@.fire(j as int).counts);
        assert(self@.reactions =~= old(self)@.reactions);
    }

    /// Takes in what a draw came to, and says which reaction fired, if one did.
    ///
    /// Only [`Draw::Fire`] moves the state.  An invalid propensity is an
    /// error, and leaves the state as the last step left it.
    pub fn commit(&mut self, draw: Draw) -> (r: Result<Option<usize>, Error>)
        requires
            old(self).wf(),
            draw matches Draw::Fire(j) ==> old(self)@.can_fire(j as int),
        ensures
            final(self).wf(),
            r == draw.outcome(),
            final(self)@ == old(self)@.commit(draw),
    {
        match draw {
            Draw::Invalid => Err(Error::InvalidPropensity),
            Draw::Absorbing => Ok(None),
            Draw::Beyond => Ok(None),
            Draw::Fire(j) => {
                self.fire(j);
                Ok(Some(j))
            },
        }
    }
}

/// Firing a reaction and then one with the opposite change restores every count.
pub proof fn lemma_fire_then_opposite<K>(state: EngineState<K>, j: int, back: int)
    requires
        state.wf(),
        state.can_fire(j),
        0 <= back < state.reactions.len(),
        opposite(state.reactions[j].change, state.reactions[back].change),
    ensures
        state.fire(j).can_fire(back),
        state.fire(j).fire(back) == state,
{
    let mid = state.fire(j);
    let d = state.reactions[j].change;
    let e = state.reactions[back].change;
    assert forall|i: int| 0 <= i < mid.counts.len() implies i64::MIN <= #[trigger] moved(
        mid.counts,
        e,
    )[i] <= i64::MAX by {
        assert(i64::MIN <= moved(state.counts, d)[i] <= i64::MAX);
        assert(e[i] == -d[i]);
    }
    assert forall|i: int| 0 <= i < state.counts.len() implies mid.fire(back).counts[i]
        == state.counts[i] by {
        assert(i64::MIN <= moved(state.counts, d)[i] <= i64::MAX);
        assert(e[i] == -d[i]);
    }
    assert(mid.fire(back).counts =~= state.counts);
}

/// A reaction that takes from no species more than it consumes of it, fired
/// while none of its reactants is exhausted, leaves no count negative.
pub proof fn lemma_fire_keeps_counts_nonnegative<K>(state: EngineState<K>, j: int)
    requires
        state.wf(),
        state.can_fire(j),
        !exhausted(state.counts, state.reactions[j].reactants),
        forall|i: int|
            0 <= i < state.counts.len() ==> (#[trigger] state.reactions[j].change[i])
                + state.reactions[j].reactants[i] >= 0,
    ensures
        forall|i: int| 0 <= i < state.counts.len() ==> #[trigger] state.fire(j).counts[i] >= 0,
{
    let x = state.counts;
    let s = state.reactions[j].reactants;
    let d = state.reactions[j].change;
    assert forall|i: int| 0 <= i < x.len() implies #[trigger] state.fire(j).counts[i] >= 0 by {
        assert(i64::MIN <= moved(x, d)[i] <= i64::MAX);
        assert(x[i] >= s[i]);
        assert(d[i] + s[i] >= 0);
    }
}

/// A reaction none of whose reactants is at hand cannot be drawn: the
/// integer part of its propensity is zero.
pub proof fn lemma_exhausted_reaction_is_silent<K>(state: EngineState<K>, j: int)
    requires
        0 <= j < state.reactions.len(),
        exhausted(state.counts, state.reactions[j].reactants),
    ensures
        state.combinations(j) == 0,
{
}

} // verus!
