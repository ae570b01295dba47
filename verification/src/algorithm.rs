use vstd::prelude::*;

use vstd::arithmetic::div_mod::{lemma_div_is_ordered, lemma_div_multiples_vanish};

use crate::errors::EvolveError;
use crate::population::{
    all_evaluated, fkey, lemma_sort_by_fitness_props, sort_by_fitness, sorted_by_fitness,
    Population,
};
use crate::program::{FitnessScore, freshly_generated, GenerateParams, Program, ProgramV};
use crate::rng::sample_distinct_indices;

verus! {

/// The fraction of the population retained as survivors each generation,
/// held exactly as a ratio: `num / den` of the population survives a
/// selection step.
#[derive(Clone, Copy, Debug, PartialEq, Eq, Structural)]
pub struct Gap {
    pub num: u32,
    pub den: u32,
}

impl Gap {
    /// A gap is a fraction inside `[0, 1]`.
    pub open spec fn wf(self) -> bool {
        self.den > 0 && self.num <= self.den
    }
}

/// The immutable configuration of one run.
#[derive(Clone, Copy, Debug, PartialEq, Eq, Structural)]
pub struct HyperParameters {
    pub population_size: usize,
    pub max_program_size: usize,
    pub gap: Gap,
    pub max_generations: usize,
    pub n_operations: usize,
}

/// How many programs a selection step removes from the front: the floor of
/// `(1 - gap)` times the population length.
pub open spec fn selection_cut(len: int, gap: Gap) -> int {
    len * (gap.den - gap.num) / (gap.den as int)
}

/// Whether `new_p` extends `old_p` only by value-equal copies of members of
/// `old_p`, drawn at pairwise distinct positions: resampling of existing
/// genetic material, never synthesis.
pub open spec fn picks_survivors(idxs: Seq<int>, old_p: Seq<ProgramV>, new_p: Seq<ProgramV>) -> bool {
    &&& idxs.len() == new_p.len() - old_p.len()
    &&& forall|i: int|
        0 <= i < idxs.len() ==> 0 <= idxs[i] < old_p.len() && new_p[old_p.len() + i] == old_p[idxs[i]]
    &&& forall|i: int, j: int| 0 <= i < j < idxs.len() ==> idxs[i] != idxs[j]
}

pub open spec fn refilled_from(old_p: Seq<ProgramV>, new_p: Seq<ProgramV>) -> bool {
    &&& new_p.len() >= old_p.len()
    &&& new_p.take(old_p.len() as int) == old_p
    &&& exists|idxs: Seq<int>| picks_survivors(idxs, old_p, new_p)
}

/// Creates exactly `population_size` programs, each through the organism
/// generation procedure seeded with `params`, in a population of that
/// capacity. A zero population size or invalid generation parameters are
/// rejected before any program is built.
pub fn init_population(
    hyper_params: &HyperParameters,
    params: GenerateParams,
    rng: &mut rand::rngs::StdRng,
) -> (r: Result<Population, EvolveError>)
    ensures
        (r is Ok) <==> (hyper_params.population_size > 0 && params.wf()),
        r is Ok ==> {
            let pop = r->Ok_0;
            &&& pop.cap() == hyper_params.population_size
            &&& pop.progs().len() == hyper_params.population_size
            &&& forall|i: int|
                0 <= i < pop.progs().len() ==> freshly_generated(#[trigger] pop.progs()[i], params)
            &&& pop.wf()
        },
        r is Err ==> r->Err_0 is InvalidConfiguration,
{
    if hyper_params.population_size == 0 || params.registers_len == 0 || params.data_len == 0
        || params.n_operations == 0 || params.max_instructions == 0 {
        return Err(EvolveError::InvalidConfiguration);
    }
    let mut population = Population::new(hyper_params.population_size);
    let mut i: usize = 0;
    while i < hyper_params.population_size
        invariant
            i <= hyper_params.population_size,
            params.wf(),
            population.cap() == hyper_params.population_size,
            population.progs().len() == i,
            forall|j: int|
                0 <= j < i ==> freshly_generated(#[trigger] population.progs()[j], params),
        decreases hyper_params.population_size - i,
    {
        match Program::generate(params, rng) {
            Ok(program) => {
                match population.push(program) {
                    Ok(()) => {},
                    Err(_) => {
                        // unreachable: the population was built with room
                        // for every generated program
                        proof {
                            assert(false);
                        }
                    },
                }
            },
            Err(_) => {
                // unreachable: the generation parameters were validated above
                proof {
                    assert(false);
                }
            },
        }
        i = i + 1;
    }
    Ok(population)
}

/// Forces a fitness onto every program: one that already carries a cached
/// score keeps it, and one that does not caches the score computed for its
/// position (the aggregation over the dataset is the caller's fitness
/// function). Instructions and registers are untouched.
pub fn evaluate(population: &mut Population, scores: &Vec<FitnessScore>)
    requires
        scores@.len() == old(population).progs().len(),
    ensures
        final(population).cap() == old(population).cap(),
        final(population).progs().len() == old(population).progs().len(),
        forall|i: int|
            0 <= i < old(population).progs().len() ==> #[trigger] final(population).progs()[i]
                == (ProgramV {
                fitness: if old(population).progs()[i].fitness is Some {
                    old(population).progs()[i].fitness
                } else {
                    Some(scores@[i])
                },
                ..old(population).progs()[i]
            }),
        all_evaluated(final(population).progs()),
        old(population).wf() ==> final(population).wf(),
{
    let n = population.items.len();
    let mut updated: Vec<Program> = Vec::new();
    let mut i: usize = 0;
    while i < n
        invariant
            i <= n,
            n == old(population).progs().len(),
            scores@.len() == n,
            population.items@ == old(population).items@,
            population.capacity == old(population).capacity,
            updated@.len() == i,
            forall|j: int|
                0 <= j < i ==> #[trigger] updated@[j]@ == (ProgramV {
                    fitness: if old(population).progs()[j].fitness is Some {
                        old(population).progs()[j].fitness
                    } else {
                        Some(scores@[j])
                    },
                    ..old(population).progs()[j]
                }),
        decreases n - i,
    {
        let mut program = population.items[i].deep_clone();
        program.lazy_retrieve_fitness(scores[i]);
        updated.push(program);
        i = i + 1;
    }
    population.items = updated;
    proof {
        let newp = final(population).progs();
        assert(forall|i: int| 0 <= i < newp.len() ==> (#[trigger] newp[i]).fitness is Some);
    }
}

/// Sorts the population ascending by fitness, so that the worst program
/// stands first and the best last; a member without a cached fitness fails
/// the ranking explicitly.
pub fn rank(population: &mut Population) -> (r: Result<(), EvolveError>)
    ensures
        (r is Ok) <==> all_evaluated(old(population).progs()),
        r is Ok ==> final(population).progs() == sort_by_fitness(old(population).progs())
            && sorted_by_fitness(final(population).progs()),
        r is Err ==> final(population).progs() == old(population).progs() && r == Err::<
            (),
            EvolveError,
        >(EvolveError::FitnessNotEvaluated),
        final(population).cap() == old(population).cap(),
        final(population).progs().len() == old(population).progs().len(),
        old(population).wf() ==> final(population).wf(),
{
    let r = population.sort();
    proof {
        if r is Ok {
            lemma_sort_by_fitness_props(old(population).progs());
        }
    }
    r
}

/// Removes the lowest-scoring `1 - gap` fraction from the front of a ranked
/// population, floor-truncated on the removed side: a gap of one removes
/// none, a gap of zero keeps essentially nothing. A gap outside `[0, 1]` is
/// an invalid configuration and removes nothing.
pub fn apply_selection(population: &mut Population, gap: Gap) -> (r: Result<(), EvolveError>)
    requires
        old(population).progs().len() > 0,
        old(population).progs()[0].fitness is Some,
        old(population).progs().last().fitness is Some,
        fkey(old(population).progs()[0]) <= fkey(old(population).progs().last()),
    ensures
        (r is Ok) <==> gap.wf(),
        r is Ok ==> final(population).progs() == old(population).progs().skip(
            selection_cut(old(population).progs().len() as int, gap),
        ),
        r is Err ==> final(population).progs() == old(population).progs() && r == Err::<
            (),
            EvolveError,
        >(EvolveError::InvalidConfiguration),
        final(population).cap() == old(population).cap(),
        old(population).wf() ==> final(population).wf(),
{
    if gap.den == 0 || gap.num > gap.den {
        return Err(EvolveError::InvalidConfiguration);
    }
    let pop_len = population.len();
    let keep_num: u32 = gap.den - gap.num;
    proof {
        let l = pop_len as int;
        let k = keep_num as int;
        let d = gap.den as int;
        assert(l * k <= 0xFFFF_FFFF_FFFF_FFFF * 0xFFFF_FFFF) by (nonlinear_arith)
            requires 0 <= l <= 0xFFFF_FFFF_FFFF_FFFF && 0 <= k <= 0xFFFF_FFFF;
        assert(l * k <= l * d) by (nonlinear_arith)
            requires 0 <= l && 0 <= k <= d;
        lemma_div_is_ordered(l * k, l * d, d);
        lemma_div_multiples_vanish(l, d);
        assert(l * k / d <= l);
        assert(0 <= l * k) by (nonlinear_arith)
            requires 0 <= l && 0 <= k;
    }
    let lowest_count: usize = (((pop_len as u128) * (keep_num as u128)) / (gap.den as u128)) as usize;
    proof {
        assert(lowest_count as int == selection_cut(pop_len as int, gap));
    }
    let mut removed: usize = 0;
    while removed < lowest_count
        invariant
            removed <= lowest_count,
            lowest_count as int <= old(population).progs().len(),
            population.progs() == old(population).progs().skip(removed as int),
            population.cap() == old(population).cap(),
        decreases lowest_count - removed,
    {
        let ghost before = population.progs();
        let discarded = population.f_pop();
        proof {
            assert(before.drop_first() =~= old(population).progs().skip(removed as int + 1));
        }
        removed = removed + 1;
    }
    Ok(())
}

/// Refills the population back toward its capacity by drawing, uniformly
/// and without replacement, value-equal copies of current survivors: as
/// many as the free room asks for, capped by how many survivors there are
/// to draw from.
pub fn breed(population: &mut Population, rng: &mut rand::rngs::StdRng)
    requires
        old(population).wf(),
    ensures
        final(population).cap() == old(population).cap(),
        final(population).progs().len() == old(population).progs().len() + (if old(
            population,
        ).cap() - old(population).progs().len() < old(population).progs().len() {
            old(population).cap() - old(population).progs().len()
        } else {
            old(population).progs().len() as int
        }),
        refilled_from(old(population).progs(), final(population).progs()),
        final(population).wf(),
{
    let pop_cap = population.capacity();
    let pop_len = population.len();
    let remaining_size = pop_cap - pop_len;
    let amount = if remaining_size < pop_len {
        remaining_size
    } else {
        pop_len
    };
    let chosen = sample_distinct_indices(rng, pop_len, amount);
    let ghost old_progs = population.progs();
    let mut i: usize = 0;
    while i < chosen.len()
        invariant
            i <= chosen@.len(),
            chosen@.len() == amount,
            amount + old_progs.len() <= population.cap(),
            forall|j: int| 0 <= j < chosen@.len() ==> chosen@[j] < old_progs.len(),
            forall|j: int, k: int| 0 <= j < k < chosen@.len() ==> chosen@[j] != chosen@[k],
            old_progs.len() == pop_len,
            population.cap() == old(population).cap(),
            population.progs().len() == old_progs.len() + i,
            population.progs().take(old_progs.len() as int) == old_progs,
            forall|j: int|
                0 <= j < i ==> #[trigger] population.progs()[old_progs.len() + j]
                    == old_progs[chosen@[j] as int],
        decreases chosen@.len() - i,
    {
        let idx = chosen[i];
        let program = population.items[idx].deep_clone();
        proof {
            assert(population.progs()[idx as int] == old_progs[idx as int]) by {
                assert(population.progs().take(old_progs.len() as int)[idx as int]
                    == old_progs[idx as int]);
            };
        }
        let ghost before = population.progs();
        match population.push(program) {
            Ok(()) => {},
            Err(_) => {
                // unreachable: the refill never exceeds the free room
                proof {
                    assert(false);
                }
            },
        }
        proof {
            assert(population.progs().take(old_progs.len() as int) =~= old_progs);
        }
        i = i + 1;
    }
    proof {
        let new_progs = population.progs();
        let idxs = chosen@.map_values(|u: usize| u as int);
        assert(picks_survivors(idxs, old_progs, new_progs));
    }
}

} // verus!
