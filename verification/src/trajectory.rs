//! Sampling a run: which states are recorded, and when the run is over.
//!
//! A run is either sampled on a grid of `nb_steps + 1` regularly spaced
//! times, or, with `nb_steps == 0`, at every firing.  The [`Recorder`] keeps
//! the samples and tells the driver what to do next; the driver owns the
//! clock and carries the directive out.

use vstd::prelude::*;
use crate::engine::Error;
use crate::species::SpeciesTable;

verus! {

/// What the driver of a run is to do next.
#[derive(Debug, Clone, Copy, PartialEq, Eq, Structural)]
pub enum Directive {
    /// Advance to grid point `index` out of `of`, that is to the time
    /// `tmax · index / of`, then record the state.
    AdvanceTo { index: usize, of: usize },
    /// Record the state as it stands.
    Record,
    /// Let one reaction fire and record the state, or halt if none can fire.
    React,
    /// The run is over.
    Finish,
}

/// The mathematical content of a [`Recorder`].
pub ghost struct Samples {
    pub nb_species: nat,
    pub nb_steps: nat,
    pub halted: bool,
    pub rows: Seq<Seq<i64>>,
}

impl Samples {
    /// Every sample has one count for each species.
    pub open spec fn wf(self) -> bool {
        forall|k: int| 0 <= k < self.rows.len() ==> (#[trigger] self.rows[k]).len() == self.nb_species
    }

    /// What is to be done next; `reached` says whether the clock has reached
    /// the end of the run.
    ///
    /// On a grid the samples are taken at the grid points in turn, whatever
    /// the clock says.  Without a grid the starting state is recorded, and
    /// then every firing until the clock has reached the end or no reaction
    /// can fire.
    pub open spec fn next(self, reached: bool) -> Directive {
        if self.nb_steps > 0 {
            if self.rows.len() <= self.nb_steps {
                Directive::AdvanceTo { index: self.rows.len() as usize, of: self.nb_steps as usize }
            } else {
                Directive::Finish
            }
        } else if self.rows.len() == 0 {
            Directive::Record
        } else if self.halted || reached {
            Directive::Finish
        } else {
            Directive::React
        }
    }

    /// The samples with `x` recorded after them.
    pub open spec fn record(self, x: Seq<i64>) -> Self {
        Samples { rows: self.rows.push(x), ..self }
    }

    /// The samples with each of `xs` recorded after them, in turn.
    pub open spec fn record_all(self, xs: Seq<Seq<i64>>) -> Self {
        Samples { rows: self.rows + xs, ..self }
    }

    /// The samples once it is known that no reaction can fire.
    pub open spec fn halt(self) -> Self {
        Samples { halted: true, ..self }
    }

    /// The counts of species `i`, sample by sample.
    pub open spec fn column(self, i: int) -> Seq<i64> {
        Seq::new(self.rows.len(), |k: int| self.rows[k][i])
    }
}

/// On a grid of `nb_steps` steps a run records exactly `nb_steps + 1`
/// samples: after `m` samples the next directive is grid point `m` as long as
/// `m <= nb_steps`, and the run is over from `m == nb_steps + 1` on.
pub proof fn lemma_grid_run_length(start: Samples, xs: Seq<Seq<i64>>, reached: bool)
    requires
        start.nb_steps > 0,
        start.nb_steps <= usize::MAX,
        start.rows.len() == 0,
    ensures
        xs.len() <= start.nb_steps ==> start.record_all(xs).next(reached) == (Directive::AdvanceTo {
            index: xs.len() as usize,
            of: start.nb_steps as usize,
        }),
        xs.len() > start.nb_steps <==> start.record_all(xs).next(reached) == Directive::Finish,
{
}

/// Without a grid a run starts by recording the state, and is over as soon
/// as the clock has reached the end or no reaction can fire.
pub proof fn lemma_event_run(start: Samples, xs: Seq<Seq<i64>>, reached: bool)
    requires
        start.nb_steps == 0,
        start.rows.len() == 0,
    ensures
        start.next(reached) == Directive::Record,
        xs.len() > 0 ==> (start.record_all(xs).next(reached) == Directive::Finish <==> reached
            || start.halted),
        xs.len() > 0 ==> start.record_all(xs).halt().next(reached) == Directive::Finish,
{
}

/// Recording sample after sample is recording them all.
pub proof fn lemma_record_all_push(start: Samples, xs: Seq<Seq<i64>>, x: Seq<i64>)
    ensures
        start.record_all(xs).record(x) == start.record_all(xs.push(x)),
        start.record_all(Seq::empty()) == start,
{
    assert(start.rows + xs.push(x) =~= (start.rows + xs).push(x));
    assert(start.rows + Seq::<Seq<i64>>::empty() =~= start.rows);
}

/// A copy of a vector of counts.
fn copy_counts(x: &Vec<i64>) -> (copy: Vec<i64>)
    ensures
        copy@ == x@,
{
    let mut copy: Vec<i64> = Vec::new();
    let mut i: usize = 0;
    while i < x.len()
        invariant
            i <= x.len(),
            copy@ == x@.take(i as int),
        decreases x.len() - i,
    {
        copy.push(x[i]);
        assert(copy@ =~= x@.take(i + 1));
        i += 1;
    }
    assert(x@.take(i as int) =~= x@);
    copy
}

/// The samples of a run, and the plan by which they are taken.
pub struct Recorder {
    nb_species: usize,
    nb_steps: usize,
    halted: bool,
    rows: Vec<Vec<i64>>,
}

impl View for Recorder {
    type V = Samples;

    closed spec fn view(&self) -> Samples {
        Samples {
            nb_species: self.nb_species as nat,
            nb_steps: self.nb_steps as nat,
            halted: self.halted,
            rows: Seq::new(self.rows@.len(), |k: int| self.rows@[k]@),
        }
    }
}

impl Recorder {
    /// Every sample has one count for each species.
    pub open spec fn wf(&self) -> bool {
        self@.wf()
    }

    /// A recorder without samples, for `nb_species` species.  With
    /// `nb_steps > 0` the run is sampled on a grid of that many steps, with
    /// `nb_steps == 0` at every firing.
    pub fn new(nb_species: usize, nb_steps: usize) -> (recorder: Self)
        ensures
            recorder.wf(),
            recorder@ == (Samples {
                nb_species: nb_species as nat,
                nb_steps: nb_steps as nat,
                halted: false,
                rows: Seq::empty(),
            }),
    {
        let recorder = Recorder { nb_species, nb_steps, halted: false, rows: Vec::new() };
        assert(recorder@.rows =~= Seq::<Seq<i64>>::empty());
        recorder
    }

    /// Number of samples taken so far.
    pub fn nb_samples(&self) -> (n: usize)
        ensures
            n == self@.rows.len(),
    {
        self.rows.len()
    }

    /// What the driver is to do next; `reached` says whether the clock has
    /// reached the end of the run.
    pub fn next(&self, reached: bool) -> (directive: Directive)
        ensures
            directive == self@.next(reached),
    {
        if self.nb_steps > 0 {
            if self.rows.len() <= self.nb_steps {
                Directive::AdvanceTo { index: self.rows.len(), of: self.nb_steps }
            } else {
                Directive::Finish
            }
        } else if self.rows.len() == 0 {
            Directive::Record
        } else if self.halted || reached {
            Directive::Finish
        } else {
            Directive::React
        }
    }

    /// Records the state `x` as the next sample.  A state that does not have
    /// one count for each species is refused, and nothing changes.
    pub fn record(&mut self, x: &Vec<i64>) -> (r: Result<(), Error>)
        requires
            old(self).wf(),
        ensures
            final(self).wf(),
            x@.len() == old(self)@.nb_species ==> r.is_ok() && final(self)@ == old(self)@.record(
                x@,
            ),
            x@.len() != old(self)@.nb_species ==> r == Err::<(), Error>(Error::ShapeMismatch)
                && final(self)@ == old(self)@,
    {
        if x.len() != self.nb_species {
            return Err(Error::ShapeMismatch);
        }
        self.rows.push(copy_counts(x));
        assert(self@.rows =~= old(self)@.rows.push(x@));
        Ok(())
    }

    /// Takes note that no reaction can fire any more.
    pub fn halt(&mut self)
        ensures
            final(self)@ == old(self)@.halt(),
    {
        self.halted = true;
        assert(self@.rows =~= old(self)@.rows);
    }

    /// The counts of species `i`, sample by sample.
    pub fn column(&self, i: usize) -> (r: Result<Vec<i64>, Error>)
        requires
            self.wf(),
        ensures
            i < self@.nb_species ==> r.is_ok() && r.unwrap()@ == self@.column(i as int),
            i >= self@.nb_species ==> r.is_err() && r.unwrap_err() == Error::IndexOutOfRange,
    {
        if i >= self.nb_species {
            return Err(Error::IndexOutOfRange);
        }
        let mut column: Vec<i64> = Vec::new();
        let mut k: usize = 0;
        while k < self.rows.len()
            invariant
                k <= self.rows.len(),
                self.wf(),
                i < self.nb_species,
                column@.len() == k,
                forall|m: int| 0 <= m < k ==> column@[m] == self@.rows[m][i as int],
            decreases self.rows.len() - k,
        {
            assert(self@.rows[k as int].len() == self@.nb_species);
            column.push(self.rows[k][i]);
            k += 1;
        }
        assert(column@ =~= self@.column(i as int));
        Ok(column)
    }

    /// The samples by species: each name of `species` with the counts of its
    /// species, sample by sample, in the order of the table.  A table that
    /// does not hold one name for each species is refused.
    pub fn named_columns(&self, species: &SpeciesTable) -> (r: Result<
        Vec<(String, Vec<i64>)>,
        Error,
    >)
        requires
            self.wf(),
        ensures
            species@.len() != self@.nb_species ==> r.is_err() && r.unwrap_err()
                == Error::ShapeMismatch,
            species@.len() == self@.nb_species ==> r.is_ok() && r.unwrap()@.len()
                == species@.len() && forall|i: int|
                0 <= i < species@.len() ==> (#[trigger] r.unwrap()@[i]).0@ == species@[i]
                    && r.unwrap()@[i].1@ == self@.column(i),
    {
        if species.len() != self.nb_species {
            return Err(Error::ShapeMismatch);
        }
        let mut named: Vec<(String, Vec<i64>)> = Vec::new();
        let mut i: usize = 0;
        while i < self.nb_species
            invariant
                i <= self.nb_species,
                self.wf(),
                species@.len() == self.nb_species,
                named@.len() == i,
                forall|m: int|
                    0 <= m < i ==> (#[trigger] named@[m]).0@ == species@[m] && named@[m].1@
                        == self@.column(m),
            decreases self.nb_species - i,
        {
            let name = match species.name(i) {
                Some(name) => name.clone(),
                None => String::new(),
            };
            let column = match self.column(i) {
                Ok(column) => column,
                Err(_) => Vec::new(),
            };
            named.push((name, column));
            i += 1;
        }
        Ok(named)
    }
}

} // verus!
