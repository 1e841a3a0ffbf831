//! Reaction systems written with species names.
//!
//! Species are registered as reactions mention them, in the order of first
//! mention.  A system is lowered to an [`Engine`] that works on indices.

use vstd::prelude::*;
use crate::engine::{
    lemma_fire_keeps_counts_nonnegative, lemma_fire_then_opposite, opposite, Engine,
    EngineState, Error, ReactionSpec,
};
use crate::rate::{exhausted, Rate};
use crate::species::{
    lemma_register_all, lemma_register_all_known, register_all, texts, SpeciesTable,
};
use crate::text::{decimal, joined, push_decimal, push_joined};
use vstd::seq_lib::to_multiset_build;

verus! {

/// A reaction between named species, as it was written.
pub struct NamedReaction<K> {
    pub rate: K,
    pub reactants: Vec<String>,
    pub products: Vec<String>,
}

/// The mathematical content of a [`NamedReaction`]: both sides are multisets
/// written as lists, a name standing once for each molecule.
pub ghost struct Equation<K> {
    pub rate: K,
    pub reactants: Seq<Seq<char>>,
    pub products: Seq<Seq<char>>,
}

impl<K> View for NamedReaction<K> {
    type V = Equation<K>;

    open spec fn view(&self) -> Equation<K> {
        Equation {
            rate: self.rate,
            reactants: texts(self.reactants@),
            products: texts(self.products@),
        }
    }
}

/// How often `name` stands in `list`.
pub open spec fn occurrences(list: Seq<Seq<char>>, name: Seq<char>) -> nat
    decreases list.len(),
{
    if list.len() == 0 {
        0
    } else {
        occurrences(list.drop_last(), name) + if list.last() == name {
            1nat
        } else {
            0nat
        }
    }
}

/// For each species, how many molecules of it stand in `list`.
pub open spec fn multiplicities(species: Seq<Seq<char>>, list: Seq<Seq<char>>) -> Seq<int> {
    Seq::new(species.len(), |i: int| occurrences(list, species[i]) as int)
}

/// For each species, what one firing adds: molecules made less molecules used.
pub open spec fn net_change(
    species: Seq<Seq<char>>,
    reactants: Seq<Seq<char>>,
    products: Seq<Seq<char>>,
) -> Seq<int> {
    Seq::new(
        species.len(),
        |i: int| occurrences(products, species[i]) - occurrences(reactants, species[i]),
    )
}

/// The value that `init` gives to `name`: that of the last pair which names
/// it, and zero if none does.
pub open spec fn assigned(init: Seq<(Seq<char>, i64)>, name: Seq<char>) -> i64
    decreases init.len(),
{
    if init.len() == 0 {
        0
    } else if init.last().0 == name {
        init.last().1
    } else {
        assigned(init.drop_last(), name)
    }
}

/// The initial count of each species under `init`; names that are no species
/// are ignored.
pub open spec fn initial_counts(species: Seq<Seq<char>>, init: Seq<(Seq<char>, i64)>) -> Seq<
    i64,
> {
    Seq::new(species.len(), |i: int| assigned(init, species[i]))
}

/// The names and values of a list of initial counts.
pub open spec fn pairs(init: Seq<(String, i64)>) -> Seq<(Seq<char>, i64)> {
    Seq::new(init.len(), |k: int| (init[k].0@, init[k].1))
}

/// A name stands in a list at most as often as the list is long.
pub proof fn lemma_occurrences_bounded(list: Seq<Seq<char>>, name: Seq<char>)
    ensures
        occurrences(list, name) <= list.len(),
    decreases list.len(),
{
    if list.len() > 0 {
        lemma_occurrences_bounded(list.drop_last(), name);
    }
}

/// The sides of a reaction are multisets: how often a name stands in a list
/// is its count in the multiset of the list, whatever the order.
pub proof fn lemma_occurrences_is_count(list: Seq<Seq<char>>, name: Seq<char>)
    ensures
        occurrences(list, name) == list.to_multiset().count(name),
    decreases list.len(),
{
    if list.len() == 0 {
        list.to_multiset_ensures();
        assert(!list.contains(name));
    } else {
        lemma_occurrences_is_count(list.drop_last(), name);
        to_multiset_build(list.drop_last(), list.last());
        assert(list.drop_last().push(list.last()) =~= list);
    }
}

/// The line that shows one reaction: the reactants, an arrow, the products,
/// and the rate as `label` writes it.
pub open spec fn equation_line<K>(equation: Equation<K>, label: Seq<char>) -> Seq<char> {
    joined(equation.reactants, " + "@) + " --> "@ + joined(equation.products, " + "@) + " @ "@
        + label + "\n"@
}

/// The lines of the first `n` reactions, one after the other.
pub open spec fn equation_lines<K>(
    reactions: Seq<Equation<K>>,
    labels: Seq<Seq<char>>,
    n: nat,
) -> Seq<char>
    decreases n,
{
    if n == 0 {
        Seq::empty()
    } else {
        equation_lines(reactions, labels, (n - 1) as nat) + equation_line(
            reactions[n - 1],
            labels[n - 1],
        )
    }
}

/// The mathematical content of a [`Gillespie`] system.
pub ghost struct Network<K> {
    pub species: Seq<Seq<char>>,
    pub reactions: Seq<Equation<K>>,
}

impl<K> Network<K> {
    /// Both sides of `equation` name species only, and are short enough for
    /// their multiplicities to be 64-bit counts.
    pub open spec fn knows(self, equation: Equation<K>) -> bool {
        &&& equation.reactants.len() <= i64::MAX
        &&& equation.products.len() <= i64::MAX
        &&& forall|k: int|
            0 <= k < equation.reactants.len() ==> self.species.contains(
                #[trigger] equation.reactants[k],
            )
        &&& forall|k: int|
            0 <= k < equation.products.len() ==> self.species.contains(
                #[trigger] equation.products[k],
            )
    }

    /// No species stands twice, and the reactions name species only.
    pub open spec fn wf(self) -> bool {
        &&& self.species.no_duplicates()
        &&& forall|j: int|
            0 <= j < self.reactions.len() ==> self.knows(#[trigger] self.reactions[j])
    }

    /// The system after a reaction was added: its reactants and then its
    /// products are registered, the reaction is appended, and after it the
    /// reverse reaction where a reverse rate is given.
    pub open spec fn add_reaction(
        self,
        rate: K,
        reactants: Seq<Seq<char>>,
        products: Seq<Seq<char>>,
        reverse_rate: Option<K>,
    ) -> Self {
        let forward = self.reactions.push(Equation { rate, reactants, products });
        Network {
            species: register_all(register_all(self.species, reactants), products),
            reactions: match reverse_rate {
                Some(back) => forward.push(
                    Equation { rate: back, reactants: products, products: reactants },
                ),
                None => forward,
            },
        }
    }

    /// The system in words: a line that counts species and reactions, then
    /// one line for each reaction, its rate written as `labels` has it.
    pub open spec fn description(self, labels: Seq<Seq<char>>) -> Seq<char> {
        decimal(self.species.len()) + " species and "@ + decimal(self.reactions.len())
            + " reactions\n"@ + equation_lines(self.reactions, labels, self.reactions.len())
    }

    /// Reaction `j` on indices: its rate constant, the multiplicity of each
    /// species among its reactants, and the net change of each species.
    pub open spec fn lowered(self, j: int) -> ReactionSpec<K> {
        ReactionSpec {
            constant: self.reactions[j].rate,
            reactants: Seq::new(
                self.species.len(),
                |i: int| multiplicities(self.species, self.reactions[j].reactants)[i] as u64,
            ),
            change: Seq::new(
                self.species.len(),
                |i: int|
                    net_change(
                        self.species,
                        self.reactions[j].reactants,
                        self.reactions[j].products,
                    )[i] as i64,
            ),
        }
    }
}

/// Adding a reaction keeps a system well formed.
pub proof fn lemma_add_reaction_wf<K>(
    net: Network<K>,
    rate: K,
    reactants: Seq<Seq<char>>,
    products: Seq<Seq<char>>,
    reverse_rate: Option<K>,
)
    requires
        net.wf(),
        reactants.len() <= i64::MAX,
        products.len() <= i64::MAX,
    ensures
        net.add_reaction(rate, reactants, products, reverse_rate).wf(),
        net.species.len() <= net.add_reaction(rate, reactants, products, reverse_rate).species.len(),
        net.add_reaction(rate, reactants, products, reverse_rate).species.take(
            net.species.len() as int,
        ) == net.species,
{
    let mid = register_all(net.species, reactants);
    let after = net.add_reaction(rate, reactants, products, reverse_rate);
    lemma_register_all(net.species, reactants);
    lemma_register_all(mid, products);
    assert(after.species.take(net.species.len() as int) =~= net.species) by {
        assert(after.species.take(mid.len() as int) == mid);
        assert(mid.take(net.species.len() as int) == net.species);
    }
    let forward = Equation { rate, reactants, products };
    assert(after.knows(forward)) by {
        assert forall|k: int| 0 <= k < reactants.len() implies after.species.contains(
            #[trigger] reactants[k],
        ) by {
            assert(mid.contains(reactants[k]));
        }
    }
    assert forall|j: int| 0 <= j < after.reactions.len() implies after.knows(
        #[trigger] after.reactions[j],
    ) by {
        if j < net.reactions.len() {
            let e = net.reactions[j];
            assert(after.reactions[j] == e);
            assert(net.knows(e));
            assert forall|k: int| 0 <= k < e.reactants.len() implies after.species.contains(
                #[trigger] e.reactants[k],
            ) by {
                assert(mid.contains(e.reactants[k]));
            }
            assert forall|k: int| 0 <= k < e.products.len() implies after.species.contains(
                #[trigger] e.products[k],
            ) by {
                assert(mid.contains(e.products[k]));
            }
        } else if j == net.reactions.len() {
            assert(after.reactions[j] == forward);
        } else {
            let back = Equation { rate: reverse_rate.unwrap(), reactants: products, products: reactants };
            assert(after.reactions[j] == back);
            assert forall|k: int| 0 <= k < reactants.len() implies after.species.contains(
                #[trigger] reactants[k],
            ) by {
                assert(mid.contains(reactants[k]));
            }
        }
    }
}

/// Adding a reaction together with its reverse is the same as adding the
/// reaction, and then the reaction with both sides swapped.
pub proof fn lemma_reverse_is_second_reaction<K>(
    net: Network<K>,
    rate: K,
    reactants: Seq<Seq<char>>,
    products: Seq<Seq<char>>,
    reverse_rate: K,
)
    requires
        net.wf(),
    ensures
        net.add_reaction(rate, reactants, products, Some(reverse_rate)) == net.add_reaction(
            rate,
            reactants,
            products,
            None,
        ).add_reaction(reverse_rate, products, reactants, None),
{
    let mid = register_all(net.species, reactants);
    let species = register_all(mid, products);
    lemma_register_all(net.species, reactants);
    lemma_register_all(mid, products);
    assert forall|k: int| 0 <= k < reactants.len() implies species.contains(
        #[trigger] reactants[k],
    ) by {
        assert(mid.contains(reactants[k]));
    }
    lemma_register_all_known(species, products);
    lemma_register_all_known(species, reactants);
}

/// Lowering is exact: the multiplicities and net changes of a well-formed
/// system are 64-bit counts, and a reaction takes from no species more
/// molecules than stand among its reactants.
pub proof fn lemma_lowered_exact<K>(net: Network<K>, j: int)
    requires
        net.wf(),
        0 <= j < net.reactions.len(),
    ensures
        net.lowered(j).reactants.len() == net.species.len(),
        net.lowered(j).change.len() == net.species.len(),
        forall|i: int|
            0 <= i < net.species.len() ==> {
                &&& (#[trigger] net.lowered(j).reactants[i]) == occurrences(
                    net.reactions[j].reactants,
                    net.species[i],
                )
                &&& net.lowered(j).change[i] == occurrences(
                    net.reactions[j].products,
                    net.species[i],
                ) - occurrences(net.reactions[j].reactants, net.species[i])
                &&& net.lowered(j).change[i] + net.lowered(j).reactants[i] >= 0
            },
{
    let e = net.reactions[j];
    assert(net.knows(e));
    assert forall|i: int| 0 <= i < net.species.len() implies {
        &&& (#[trigger] net.lowered(j).reactants[i]) == occurrences(e.reactants, net.species[i])
        &&& net.lowered(j).change[i] == occurrences(e.products, net.species[i]) - occurrences(
            e.reactants,
            net.species[i],
        )
        &&& net.lowered(j).change[i] + net.lowered(j).reactants[i] >= 0
    } by {
        lemma_occurrences_bounded(e.reactants, net.species[i]);
        lemma_occurrences_bounded(e.products, net.species[i]);
    }
}

/// One equation is the reverse of the other: each side of the one is, as a
/// multiset, the other side of the other.
pub open spec fn reverses<K>(forward: Equation<K>, back: Equation<K>) -> bool {
    &&& back.reactants.to_multiset() == forward.products.to_multiset()
    &&& back.products.to_multiset() == forward.reactants.to_multiset()
}

/// The two reactions that are added with a reverse rate are each the
/// reverse of the other.
pub proof fn lemma_added_reverse_reverses<K>(
    net: Network<K>,
    rate: K,
    reactants: Seq<Seq<char>>,
    products: Seq<Seq<char>>,
    reverse_rate: K,
)
    ensures
        ({
            let after = net.add_reaction(rate, reactants, products, Some(reverse_rate));
            let n = net.reactions.len() as int;
            &&& after.reactions.len() == n + 2
            &&& reverses(after.reactions[n], after.reactions[n + 1])
            &&& reverses(after.reactions[n + 1], after.reactions[n])
        }),
{
}

/// A reaction and its reverse lower to opposite changes.
pub proof fn lemma_reverse_lowers_to_opposite<K>(net: Network<K>, j: int, back: int)
    requires
        net.wf(),
        0 <= j < net.reactions.len(),
        0 <= back < net.reactions.len(),
        reverses(net.reactions[j], net.reactions[back]),
    ensures
        opposite(net.lowered(j).change, net.lowered(back).change),
{
    lemma_lowered_exact(net, j);
    lemma_lowered_exact(net, back);
    assert forall|i: int| 0 <= i < net.lowered(j).change.len() implies #[trigger] net.lowered(
        back,
    ).change[i] == -net.lowered(j).change[i] by {
        lemma_occurrences_is_count(net.reactions[j].reactants, net.species[i]);
        lemma_occurrences_is_count(net.reactions[j].products, net.species[i]);
        lemma_occurrences_is_count(net.reactions[back].reactants, net.species[i]);
        lemma_occurrences_is_count(net.reactions[back].products, net.species[i]);
        assert(net.lowered(j).reactants[i] == occurrences(
            net.reactions[j].reactants,
            net.species[i],
        ));
        assert(net.lowered(back).reactants[i] == occurrences(
            net.reactions[back].reactants,
            net.species[i],
        ));
    }
}

/// In an engine lowered from a system, firing a reaction and then its
/// reverse restores every count.
pub proof fn lemma_reverse_restores_counts<K>(
    net: Network<K>,
    state: EngineState<K>,
    j: int,
    back: int,
)
    requires
        net.wf(),
        0 <= j < net.reactions.len(),
        0 <= back < net.reactions.len(),
        reverses(net.reactions[j], net.reactions[back]),
        state.wf(),
        state.reactions.len() == net.reactions.len(),
        state.reactions[j] == net.lowered(j),
        state.reactions[back] == net.lowered(back),
        state.can_fire(j),
    ensures
        state.fire(j).can_fire(back),
        state.fire(j).fire(back) == state,
{
    lemma_reverse_lowers_to_opposite(net, j, back);
    lemma_fire_then_opposite(state, j, back);
}

/// In an engine lowered from a system no count turns negative: a reaction
/// fired while none of its reactants is exhausted leaves every count at zero
/// or above.
pub proof fn lemma_lowered_keeps_counts_nonnegative<K>(
    net: Network<K>,
    state: EngineState<K>,
    j: int,
)
    requires
        net.wf(),
        0 <= j < net.reactions.len(),
        state.wf(),
        state.counts.len() == net.species.len(),
        state.reactions.len() == net.reactions.len(),
        state.reactions[j] == net.lowered(j),
        state.can_fire(j),
        !exhausted(state.counts, state.reactions[j].reactants),
    ensures
        forall|i: int| 0 <= i < state.counts.len() ==> #[trigger] state.fire(j).counts[i] >= 0,
{
    lemma_lowered_exact(net, j);
    assert forall|i: int| 0 <= i < state.counts.len() implies (#[trigger] state.reactions[j].change[i])
        + state.reactions[j].reactants[i] >= 0 by {
        assert(net.lowered(j).reactants[i] == occurrences(
            net.reactions[j].reactants,
            net.species[i],
        ));
    }
    lemma_fire_keeps_counts_nonnegative(state, j);
}

/// A system of reactions between named species.
pub struct Gillespie<K> {
    species: SpeciesTable,
    reactions: Vec<NamedReaction<K>>,
}

impl<K> View for Gillespie<K> {
    type V = Network<K>;

    closed spec fn view(&self) -> Network<K> {
        Network {
            species: self.species@,
            reactions: Seq::new(self.reactions@.len(), |j: int| self.reactions@[j]@),
        }
    }
}

/// A copy of a list of names.
fn copy_names(names: &Vec<String>) -> (copy: Vec<String>)
    ensures
        texts(copy@) == texts(names@),
{
    let mut copy: Vec<String> = Vec::new();
    let mut k: usize = 0;
    while k < names.len()
        invariant
            k <= names.len(),
            copy@.len() == k,
            forall|i: int| 0 <= i < k ==> copy@[i]@ == names@[i]@,
        decreases names.len() - k,
    {
        copy.push(names[k].clone());
        k += 1;
    }
    assert(texts(copy@) =~= texts(names@));
    copy
}

/// A vector of `n` zeros.
fn zeros_u64(n: usize) -> (v: Vec<u64>)
    ensures
        v@.len() == n,
        forall|i: int| 0 <= i < n ==> v@[i] == 0,
{
    let mut v: Vec<u64> = Vec::new();
    while v.len() < n
        invariant
            v@.len() <= n,
            forall|i: int| 0 <= i < v@.len() ==> v@[i] == 0,
        decreases n - v.len(),
    {
        v.push(0);
    }
    v
}

/// A vector of `n` zeros.
fn zeros_i64(n: usize) -> (v: Vec<i64>)
    ensures
        v@.len() == n,
        forall|i: int| 0 <= i < n ==> v@[i] == 0,
{
    let mut v: Vec<i64> = Vec::new();
    while v.len() < n
        invariant
            v@.len() <= n,
            forall|i: int| 0 <= i < v@.len() ==> v@[i] == 0,
        decreases n - v.len(),
    {
        v.push(0);
    }
    v
}

impl<K> Gillespie<K> {
    /// No species stands twice, and the reactions name species only.
    pub open spec fn wf(&self) -> bool {
        self@.wf()
    }

    /// The system without species and without reactions.
    pub fn new() -> (system: Self)
        ensures
            system.wf(),
            system@.species == Seq::<Seq<char>>::empty(),
            system@.reactions == Seq::<Equation<K>>::empty(),
    {
        let system = Gillespie { species: SpeciesTable::new(), reactions: Vec::new() };
        assert(system@.reactions =~= Seq::<Equation<K>>::empty());
        system
    }

    /// Number of species currently in the system.
    pub fn nb_species(&self) -> (n: usize)
        ensures
            n == self@.species.len(),
    {
        self.species.len()
    }

    /// Number of reactions currently in the system.
    pub fn nb_reactions(&self) -> (n: usize)
        ensures
            n == self@.reactions.len(),
    {
        self.reactions.len()
    }

    /// The species, by index.
    pub fn species(&self) -> (table: &SpeciesTable)
        ensures
            table@ == self@.species,
            self.wf() ==> table.wf(),
    {
        &self.species
    }

    /// Reaction `j` as it was written, if there is one.
    pub fn reaction(&self, j: usize) -> (r: Option<&NamedReaction<K>>)
        ensures
            match r {
                Some(reaction) => j < self@.reactions.len()
                    && reaction@ == self@.reactions[j as int],
                None => j >= self@.reactions.len(),
            },
    {
        if j < self.reactions.len() {
            Some(&self.reactions[j])
        } else {
            None
        }
    }

    /// Adds a mass-action reaction to the system.
    ///
    /// `reactants` and `products` name one species for each molecule, so a
    /// repeated name raises the multiplicity.  Names not seen before become
    /// species, reactants first.  With a `reverse_rate` the reverse reaction
    /// is added as well, right after the forward one.
    pub fn add_reaction(
        &mut self,
        rate: K,
        reactants: Vec<String>,
        products: Vec<String>,
        reverse_rate: Option<K>,
    )
        requires
            old(self).wf(),
            reactants@.len() <= i64::MAX,
            products@.len() <= i64::MAX,
        ensures
            final(self).wf(),
            final(self)@ == old(self)@.add_reaction(
                rate,
                texts(reactants@),
                texts(products@),
                reverse_rate,
            ),
    {
        proof {
            lemma_add_reaction_wf(
                self@,
                rate,
                texts(reactants@),
                texts(products@),
                reverse_rate,
            );
        }
        self.species.register_all(&reactants);
        self.species.register_all(&products);
        match reverse_rate {
            Some(back) => {
                let reverse = NamedReaction {
                    rate: back,
                    reactants: copy_names(&products),
                    products: copy_names(&reactants),
                };
                let forward = NamedReaction { rate, reactants, products };
                self.reactions.push(forward);
                self.reactions.push(reverse);
                assert(self@.reactions =~= old(self)@.reactions.push(forward@).push(reverse@));
            },
            None => {
                let forward = NamedReaction { rate, reactants, products };
                self.reactions.push(forward);
                assert(self@.reactions =~= old(self)@.reactions.push(forward@));
            },
        }
    }

    /// The system in words: `"<N> species and <M> reactions"`, then one line
    /// `"<reactants> --> <products> @ <rate>"` for each reaction, the names of
    /// each side joined by `" + "`.
    ///
    /// `labels` holds the rate of each reaction as it is to be written, and
    /// is refused unless it has one entry for each reaction.
    pub fn describe(&self, labels: &Vec<String>) -> (r: Result<String, Error>)
        ensures
            labels@.len() == self@.reactions.len() ==> r.is_ok() && r.unwrap()@
                == self@.description(texts(labels@)),
            labels@.len() != self@.reactions.len() ==> r.is_err() && r.unwrap_err()
                == Error::ShapeMismatch,
    {
        if labels.len() != self.reactions.len() {
            return Err(Error::ShapeMismatch);
        }
        let mut out = String::new();
        push_decimal(&mut out, self.species.len());
        out.append(" species and ");
        push_decimal(&mut out, self.reactions.len());
        out.append(" reactions\n");
        let ghost head = out@;
        assert(head =~= decimal(self@.species.len()) + " species and "@ + decimal(
            self@.reactions.len(),
        ) + " reactions\n"@);
        let mut j: usize = 0;
        while j < self.reactions.len()
            invariant
                j <= self.reactions.len(),
                labels@.len() == self.reactions@.len(),
                out@ == head + equation_lines(self@.reactions, texts(labels@), j as nat),
            decreases self.reactions.len() - j,
        {
            let written = &self.reactions[j];
            let ghost before = out@;
            push_joined(&mut out, &written.reactants, " + ");
            out.append(" --> ");
            push_joined(&mut out, &written.products, " + ");
            out.append(" @ ");
            out.append(labels[j].as_str());
            out.append("\n");
            assert(out@ =~= before + equation_line(written@, labels@[j as int]@));
            assert(written@ == self@.reactions[j as int]);
            assert(texts(labels@)[j as int] == labels@[j as int]@);
            assert(out@ =~= head + equation_lines(
                self@.reactions,
                texts(labels@),
                (j + 1) as nat,
            ));
            j += 1;
        }
        Ok(out)
    }

    /// For each species, how many molecules of it stand in `list`.
    pub fn count_molecules(&self, list: &Vec<String>) -> (s: Vec<u64>)
        requires
            self.wf(),
        ensures
            s@.len() == self@.species.len(),
            forall|i: int|
                0 <= i < s@.len() ==> #[trigger] s@[i] == multiplicities(
                    self@.species,
                    texts(list@),
                )[i],
    {
        let ghost names = self@.species;
        let ghost all = texts(list@);
        let mut s = zeros_u64(self.species.len());
        let mut k: usize = 0;
        while k < list.len()
            invariant
                k <= list.len(),
                names == self@.species,
                names.no_duplicates(),
                all == texts(list@),
                s@.len() == names.len(),
                forall|i: int|
                    0 <= i < s@.len() ==> #[trigger] s@[i] == occurrences(
                        all.take(k as int),
                        names[i],
                    ),
            decreases list.len() - k,
        {
            proof {
                let next = all.take(k + 1);
                assert(next.drop_last() =~= all.take(k as int));
                assert(next.last() == list@[k as int]@);
                lemma_occurrences_bounded(all.take(k as int), list@[k as int]@);
            }
            match self.species.index_of(&list[k]) {
                Some(id) => {
                    let v: u64 = s[id];
                    s.set(id, v + 1);
                },
                None => {},
            }
            k += 1;
        }
        assert(all.take(k as int) =~= all);
        s
    }

    /// For each species, what one firing of a reaction from `reactants` to
    /// `products` adds to its count.
    pub fn count_change(&self, reactants: &Vec<String>, products: &Vec<String>) -> (d: Vec<i64>)
        requires
            self.wf(),
            reactants@.len() <= i64::MAX,
            products@.len() <= i64::MAX,
        ensures
            d@.len() == self@.species.len(),
            forall|i: int|
                0 <= i < d@.len() ==> #[trigger] d@[i] == net_change(
                    self@.species,
                    texts(reactants@),
                    texts(products@),
                )[i],
    {
        let used = self.count_molecules(reactants);
        let made = self.count_molecules(products);
        let n = self.species.len();
        let mut d: Vec<i64> = Vec::new();
        let mut i: usize = 0;
        while i < n
            invariant
                i <= n,
                n == self@.species.len(),
                used@.len() == n,
                made@.len() == n,
                d@.len() == i,
                reactants@.len() <= i64::MAX,
                products@.len() <= i64::MAX,
                forall|k: int|
                    0 <= k < n ==> #[trigger] used@[k] == multiplicities(
                        self@.species,
                        texts(reactants@),
                    )[k],
                forall|k: int|
                    0 <= k < n ==> #[trigger] made@[k] == multiplicities(
                        self@.species,
                        texts(products@),
                    )[k],
                forall|k: int|
                    0 <= k < i ==> #[trigger] d@[k] == net_change(
                        self@.species,
                        texts(reactants@),
                        texts(products@),
                    )[k],
            decreases n - i,
        {
            proof {
                lemma_occurrences_bounded(texts(reactants@), self@.species[i as int]);
                lemma_occurrences_bounded(texts(products@), self@.species[i as int]);
                assert(used@[i as int] == multiplicities(self@.species, texts(reactants@))[i as int]);
                assert(made@[i as int] == multiplicities(self@.species, texts(products@))[i as int]);
            }
            let gain: i64 = made[i] as i64;
            let loss: i64 = used[i] as i64;
            d.push(gain - loss);
            i += 1;
        }
        d
    }

    /// The initial count of each species under `init`: the value of the last
    /// pair that names the species, zero where none does.  Pairs that name
    /// no species are ignored.
    pub fn initial_counts(&self, init: &Vec<(String, i64)>) -> (x0: Vec<i64>)
        requires
            self.wf(),
        ensures
            x0@ == initial_counts(self@.species, pairs(init@)),
    {
        let ghost names = self@.species;
        let ghost all = pairs(init@);
        let mut x0 = zeros_i64(self.species.len());
        let mut k: usize = 0;
        while k < init.len()
            invariant
                k <= init.len(),
                names == self@.species,
                names.no_duplicates(),
                all == pairs(init@),
                x0@.len() == names.len(),
                forall|i: int|
                    0 <= i < x0@.len() ==> #[trigger] x0@[i] == assigned(
                        all.take(k as int),
                        names[i],
                    ),
            decreases init.len() - k,
        {
            proof {
                let next = all.take(k + 1);
                assert(next.drop_last() =~= all.take(k as int));
                assert(next.last() == (init@[k as int].0@, init@[k as int].1));
            }
            match self.species.index_of(&init[k].0) {
                Some(id) => {
                    x0.set(id, init[k].1);
                },
                None => {},
            }
            k += 1;
        }
        assert(all.take(k as int) =~= all);
        assert(x0@ =~= initial_counts(names, all));
        x0
    }
}

impl<K: Copy> Gillespie<K> {
    /// Lowers the system to an engine on indices, started from the counts
    /// that `init` gives: reaction `j` of the engine is reaction `j` of the
    /// system, with the multiplicities of its reactants and its net change.
    pub fn engine(&self, init: &Vec<(String, i64)>) -> (engine: Engine<K>)
        requires
            self.wf(),
        ensures
            engine.wf(),
            engine@.counts == initial_counts(self@.species, pairs(init@)),
            engine@.reactions.len() == self@.reactions.len(),
            forall|j: int|
                0 <= j < self@.reactions.len() ==> #[trigger] engine@.reactions[j]
                    == self@.lowered(j),
    {
        let mut engine: Engine<K> = Engine::new(self.initial_counts(init));
        let mut j: usize = 0;
        while j < self.reactions.len()
            invariant
                j <= self.reactions.len(),
                self.wf(),
                engine.wf(),
                engine@.counts == initial_counts(self@.species, pairs(init@)),
                engine@.reactions.len() == j,
                forall|k: int|
                    0 <= k < j ==> #[trigger] engine@.reactions[k] == self@.lowered(k),
            decreases self.reactions.len() - j,
        {
            let written = &self.reactions[j];
            assert(written@ == self@.reactions[j as int]);
            assert(self@.knows(self@.reactions[j as int]));
            let used = self.count_molecules(&written.reactants);
            let change = self.count_change(&written.reactants, &written.products);
            let rate = Rate::lma(written.rate, used);
            proof {
                let lowered = self@.lowered(j as int);
                assert(rate.reactants() =~= lowered.reactants) by {
                    assert forall|i: int| 0 <= i < used@.len() implies used@[i]
                        == lowered.reactants[i] by {
                        assert(used@[i] == multiplicities(
                            self@.species,
                            texts(written.reactants@),
                        )[i]);
                    }
                }
                assert(change@ =~= lowered.change) by {
                    assert forall|i: int| 0 <= i < change@.len() implies change@[i]
                        == lowered.change[i] by {
                        assert(change@[i] == net_change(
                            self@.species,
                            texts(written.reactants@),
                            texts(written.products@),
                        )[i]);
                    }
                }
            }
            let ghost before = engine@;
            let added = engine.add_reaction(rate, change);
            assert(added.is_ok());
            assert(engine@.reactions[j as int] == self@.lowered(j as int));
            assert forall|k: int| 0 <= k < j implies #[trigger] engine@.reactions[k]
                == self@.lowered(k) by {
                assert(engine@.reactions[k] == before.reactions[k]);
            }
            j += 1;
        }
        engine
    }
}

} // verus!
