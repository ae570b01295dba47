use vstd::prelude::*;

use crate::errors::EvolveError;
use crate::program::{Program, ProgramV};

verus! {

/// The fitness key a program is ordered by; meaningful only when a fitness
/// is cached.
pub open spec fn fkey(p: ProgramV) -> u64 {
    p.fitness->Some_0.key
}

/// Every program of the sequence carries a cached fitness.
pub open spec fn all_evaluated(s: Seq<ProgramV>) -> bool {
    forall|i: int| 0 <= i < s.len() ==> s[i].fitness is Some
}

/// Ascending order by fitness: the worst program stands first, the best
/// last.
pub open spec fn sorted_by_fitness(s: Seq<ProgramV>) -> bool {
    forall|i: int, j: int| 0 <= i <= j < s.len() ==> fkey(s[i]) <= fkey(s[j])
}

/// Stable insertion of one program into a sequence: it lands before the
/// first program whose key is at least its own.
pub open spec fn insert_sorted(p: ProgramV, s: Seq<ProgramV>) -> Seq<ProgramV>
    decreases s.len(),
{
    if s.len() == 0 {
        seq![p]
    } else if fkey(p) <= fkey(s[0]) {
        seq![p] + s
    } else {
        seq![s[0]] + insert_sorted(p, s.drop_first())
    }
}

/// Stable ascending sort by fitness: programs of equal key keep their
/// relative order.
pub open spec fn sort_by_fitness(s: Seq<ProgramV>) -> Seq<ProgramV>
    decreases s.len(),
{
    if s.len() == 0 {
        Seq::empty()
    } else {
        insert_sorted(s[0], sort_by_fitness(s.drop_first()))
    }
}

/// The views of a sequence of programs.
pub open spec fn views_of(s: Seq<Program>) -> Seq<ProgramV> {
    s.map_values(|p: Program| p@)
}

pub proof fn lemma_insert_sorted_props(p: ProgramV, s: Seq<ProgramV>)
    ensures
        insert_sorted(p, s).len() == s.len() + 1,
        sorted_by_fitness(s) ==> sorted_by_fitness(insert_sorted(p, s)),
        all_evaluated(s) && p.fitness is Some ==> all_evaluated(insert_sorted(p, s)),
        forall|i: int|
            0 <= i < insert_sorted(p, s).len() ==> insert_sorted(p, s)[i] == p || s.contains(
                insert_sorted(p, s)[i],
            ),
    decreases s.len(),
{
    let r = insert_sorted(p, s);
    if s.len() == 0 {
    } else if fkey(p) <= fkey(s[0]) {
        assert(forall|i: int| 0 <= i < s.len() ==> r[i + 1] == s[i]);
        assert(forall|i: int| 1 <= i < r.len() ==> s.contains(#[trigger] r[i])) by {
            assert(forall|i: int| 1 <= i < r.len() ==> r[i] == s[i - 1]);
        };
    } else {
        lemma_insert_sorted_props(p, s.drop_first());
        let inner = insert_sorted(p, s.drop_first());
        assert(forall|i: int| 1 <= i < r.len() ==> r[i] == inner[i - 1]);
        if sorted_by_fitness(s) {
            assert(sorted_by_fitness(s.drop_first()));
            assert(sorted_by_fitness(inner));
            assert(forall|i: int|
                0 <= i < inner.len() ==> inner[i] == p || s.drop_first().contains(inner[i]));
            assert(forall|i: int| 0 <= i < inner.len() ==> fkey(s[0]) <= fkey(#[trigger] inner[i]))
                by {
                assert(forall|i: int|
                    0 <= i < inner.len() && inner[i] != p ==> s.drop_first().contains(
                        #[trigger] inner[i],
                    ));
                assert(forall|k: int|
                    0 <= k < s.drop_first().len() ==> fkey(s[0]) <= fkey(
                        #[trigger] s.drop_first()[k],
                    ));
            };
            assert(sorted_by_fitness(r)) by {
                assert(forall|i: int, j: int|
                    1 <= i <= j < r.len() ==> fkey(#[trigger] r[i]) <= fkey(#[trigger] r[j]))
                    by {
                    assert(forall|i: int, j: int|
                        0 <= i <= j < inner.len() ==> fkey(#[trigger] inner[i]) <= fkey(
                            #[trigger] inner[j],
                        ));
                };
            };
        }
        assert(forall|i: int|
            0 <= i < inner.len() && inner[i] != p ==> s.contains(#[trigger] inner[i])) by {
            assert(forall|i: int|
                0 <= i < inner.len() && inner[i] != p ==> s.drop_first().contains(
                    #[trigger] inner[i],
                ));
            assert(forall|k: int| 0 <= k < s.drop_first().len() ==> s.drop_first()[k] == s[k + 1]);
        };
        assert(s.contains(s[0]));
    }
}

pub proof fn lemma_sort_by_fitness_props(s: Seq<ProgramV>)
    ensures
        sort_by_fitness(s).len() == s.len(),
        sorted_by_fitness(sort_by_fitness(s)),
        all_evaluated(s) ==> all_evaluated(sort_by_fitness(s)),
    decreases s.len(),
{
    if s.len() == 0 {
    } else {
        lemma_sort_by_fitness_props(s.drop_first());
        lemma_insert_sorted_props(s[0], sort_by_fitness(s.drop_first()));
        if all_evaluated(s) {
            assert(all_evaluated(s.drop_first()));
            assert(s[0].fitness is Some);
        }
    }
}

/// Ranking is idempotent: sorting a sequence that already stands in
/// ascending fitness order gives back exactly that sequence, so ranking an
/// already-ranked population twice produces the same order.
pub proof fn lemma_rank_idempotent(s: Seq<ProgramV>)
    requires
        sorted_by_fitness(s),
    ensures
        sort_by_fitness(s) == s,
    decreases s.len(),
{
    if s.len() == 0 {
        assert(sort_by_fitness(s) =~= s);
    } else {
        assert(sorted_by_fitness(s.drop_first()));
        lemma_rank_idempotent(s.drop_first());
        let rest = s.drop_first();
        if rest.len() == 0 {
            assert(insert_sorted(s[0], rest) =~= s);
        } else {
            assert(fkey(s[0]) <= fkey(rest[0]));
            assert(insert_sorted(s[0], rest) == seq![s[0]] + rest);
            assert(seq![s[0]] + rest =~= s);
        }
    }
}

/// A capacity-bounded ordered collection of programs. The population's
/// invariant, kept by the driver rather than self-enforced, is that it
/// never holds more programs than its capacity.
#[derive(Debug)]
pub struct Population {
    pub items: Vec<Program>,
    pub capacity: usize,
}

impl Population {
    /// The models of the held programs, in order.
    pub open spec fn progs(&self) -> Seq<ProgramV> {
        views_of(self.items@)
    }

    pub open spec fn cap(&self) -> int {
        self.capacity as int
    }

    pub open spec fn wf(&self) -> bool {
        self.progs().len() <= self.cap()
    }

    /// An empty population bounded by `capacity`.
    pub fn new(capacity: usize) -> (r: Population)
        ensures
            r.progs() == Seq::<ProgramV>::empty(),
            r.cap() == capacity,
            r.wf(),
    {
        let r = Population { items: Vec::new(), capacity };
        proof {
            assert(r.progs() =~= Seq::<ProgramV>::empty());
        }
        r
    }

    pub fn len(&self) -> (r: usize)
        ensures
            r == self.progs().len(),
    {
        self.items.len()
    }

    pub fn capacity(&self) -> (r: usize)
        ensures
            r == self.cap(),
    {
        self.capacity
    }

    /// The held programs, worst first once ranked.
    pub fn get_pop(&self) -> (r: &Vec<Program>)
        ensures
            views_of(r@) == self.progs(),
    {
        &self.items
    }

    /// Inserts a program if the population is below capacity; a full
    /// population rejects the insertion with a capacity-exceeded error.
    pub fn push(&mut self, program: Program) -> (r: Result<(), EvolveError>)
        ensures
            (r is Ok) <==> old(self).progs().len() < old(self).cap(),
            r is Ok ==> final(self).progs() == old(self).progs().push(program@),
            r is Err ==> final(self).progs() == old(self).progs() && r == Err::<
                (),
                EvolveError,
            >(EvolveError::CapacityExceeded { capacity: old(self).capacity }),
            final(self).cap() == old(self).cap(),
            old(self).wf() ==> final(self).wf(),
    {
        if self.items.len() < self.capacity {
            let ghost prev = self.items@;
            self.items.push(program);
            proof {
                assert(self.progs() =~= views_of(prev).push(program@));
            }
            Ok(())
        } else {
            Err(EvolveError::CapacityExceeded { capacity: self.capacity })
        }
    }

    /// Removes and returns the front program: the worst one once ranked.
    pub fn f_pop(&mut self) -> (r: Option<Program>)
        ensures
            final(self).cap() == old(self).cap(),
            old(self).progs().len() == 0 ==> r is None && final(self).progs() == old(self).progs(),
            old(self).progs().len() > 0 ==> r is Some && r->Some_0@ == old(self).progs()[0]
                && final(self).progs() == old(self).progs().drop_first(),
            old(self).wf() ==> final(self).wf(),
    {
        if self.items.len() == 0 {
            None
        } else {
            let ghost prev = self.items@;
            let program = self.items.remove(0);
            proof {
                assert(self.progs() =~= views_of(prev).drop_first());
            }
            Some(program)
        }
    }

    /// Removes and returns the back program: the best one once ranked.
    pub fn pop_back(&mut self) -> (r: Option<Program>)
        ensures
            final(self).cap() == old(self).cap(),
            old(self).progs().len() == 0 ==> r is None && final(self).progs() == old(self).progs(),
            old(self).progs().len() > 0 ==> r is Some && r->Some_0@ == old(self).progs().last()
                && final(self).progs() == old(self).progs().drop_last(),
            old(self).wf() ==> final(self).wf(),
    {
        let ghost prev = self.items@;
        let r = self.items.pop();
        proof {
            if prev.len() > 0 {
                assert(self.progs() =~= views_of(prev).drop_last());
            }
        }
        r
    }

    /// Peeks at the worst program without removing it.
    pub fn first(&self) -> (r: Option<&Program>)
        ensures
            self.progs().len() == 0 ==> r is None,
            self.progs().len() > 0 ==> r is Some && r->Some_0@ == self.progs()[0],
    {
        if self.items.len() == 0 {
            None
        } else {
            Some(&self.items[0])
        }
    }

    /// Peeks at the best program without removing it.
    pub fn last(&self) -> (r: Option<&Program>)
        ensures
            self.progs().len() == 0 ==> r is None,
            self.progs().len() > 0 ==> r is Some && r->Some_0@ == self.progs().last(),
    {
        if self.items.len() == 0 {
            None
        } else {
            Some(&self.items[self.items.len() - 1])
        }
    }

    /// Orders all programs ascending by fitness, stably. Sorting demands
    /// that every member already carries a cached fitness; otherwise the
    /// sort fails explicitly and changes nothing.
    pub fn sort(&mut self) -> (r: Result<(), EvolveError>)
        ensures
            (r is Ok) <==> all_evaluated(old(self).progs()),
            r is Ok ==> final(self).progs() == sort_by_fitness(old(self).progs()),
            r is Err ==> final(self).progs() == old(self).progs() && r == Err::<
                (),
                EvolveError,
            >(EvolveError::FitnessNotEvaluated),
            final(self).cap() == old(self).cap(),
            final(self).progs().len() == old(self).progs().len(),
            old(self).wf() ==> final(self).wf(),
    {
        let n = self.items.len();
        let mut i: usize = 0;
        while i < n
            invariant
                i <= n,
                n == self.progs().len(),
                forall|j: int| 0 <= j < i ==> self.progs()[j].fitness is Some,
            decreases n - i,
        {
            if self.items[i].fitness.is_none() {
                proof {
                    assert(!all_evaluated(self.progs())) by {
                        assert(self.progs()[i as int].fitness is None);
                    };
                }
                return Err(EvolveError::FitnessNotEvaluated);
            }
            i = i + 1;
        }
        let sorted = sort_programs(&self.items, 0);
        proof {
            assert(views_of(self.items@).skip(0) =~= self.progs());
            lemma_sort_by_fitness_props(self.progs());
        }
        self.items = sorted;
        Ok(())
    }
}

/// Sorts the tail of `v` that starts at `from`, stably and ascending by
/// fitness key.
fn sort_programs(v: &Vec<Program>, from: usize) -> (r: Vec<Program>)
    requires
        from <= v@.len(),
        all_evaluated(views_of(v@).skip(from as int)),
    ensures
        views_of(r@) == sort_by_fitness(views_of(v@).skip(from as int)),
    decreases v@.len() - from,
{
    if from == v.len() {
        let r: Vec<Program> = Vec::new();
        proof {
            assert(views_of(r@) =~= Seq::<ProgramV>::empty());
            assert(views_of(v@).skip(from as int) =~= Seq::<ProgramV>::empty());
        }
        r
    } else {
        proof {
            assert(views_of(v@).skip(from as int).drop_first() =~= views_of(v@).skip(
                from as int + 1,
            ));
            assert(views_of(v@).skip(from as int)[0] == v@[from as int]@);
        }
        let rest = sort_programs(v, from + 1);
        let p = v[from].deep_clone();
        proof {
            lemma_sort_by_fitness_props(views_of(v@).skip(from as int + 1));
            assert(p@.fitness is Some) by {
                assert(views_of(v@).skip(from as int)[0].fitness is Some);
            };
        }
        insert_program(rest, p)
    }
}

/// Inserts a program before the first member whose fitness key is at least
/// its own.
fn insert_program(mut sorted: Vec<Program>, p: Program) -> (r: Vec<Program>)
    requires
        p@.fitness is Some,
        all_evaluated(views_of(sorted@)),
    ensures
        views_of(r@) == insert_sorted(p@, views_of(sorted@)),
{
    let pk = match &p.fitness {
        Some(score) => score.key,
        None => 0,
    };
    let mut idx: usize = 0;
    let mut found = false;
    while idx < sorted.len() && !found
        invariant
            idx <= sorted@.len(),
            p@.fitness is Some,
            pk == fkey(p@),
            all_evaluated(views_of(sorted@)),
            forall|j: int| 0 <= j < idx ==> fkey(views_of(sorted@)[j]) < pk,
            found ==> idx < sorted@.len() && pk <= fkey(views_of(sorted@)[idx as int]),
        decreases sorted@.len() - idx + (if found { 0int } else { 1int }),
    {
        let ck = match &sorted[idx].fitness {
            Some(score) => score.key,
            None => 0,
        };
        if pk <= ck {
            found = true;
        } else {
            idx = idx + 1;
        }
    }
    proof {
        lemma_insert_sorted_at(p@, views_of(sorted@), idx as int);
    }
    let ghost prev = sorted@;
    sorted.insert(idx, p);
    proof {
        assert(views_of(sorted@) =~= views_of(prev).insert(idx as int, p@));
    }
    sorted
}

proof fn lemma_insert_sorted_at(p: ProgramV, s: Seq<ProgramV>, pos: int)
    requires
        0 <= pos <= s.len(),
        forall|j: int| 0 <= j < pos ==> fkey(s[j]) < fkey(p),
        pos < s.len() ==> fkey(p) <= fkey(s[pos]),
    ensures
        insert_sorted(p, s) == s.insert(pos, p),
    decreases pos,
{
    if pos == 0 {
        if s.len() == 0 {
            assert(insert_sorted(p, s) =~= s.insert(0, p));
        } else {
            assert(seq![p] + s =~= s.insert(0, p));
        }
    } else {
        assert(fkey(s[0]) < fkey(p));
        lemma_insert_sorted_at(p, s.drop_first(), pos - 1);
        assert(seq![s[0]] + s.drop_first().insert(pos - 1, p) =~= s.insert(pos, p));
    }
}

} // verus!
