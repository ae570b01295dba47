use vstd::prelude::*;

use crate::chromosomes::Instruction;
use crate::errors::EvolveError;
use crate::registers::{Registers, RegisterValue, ZERO_KEY};
use crate::rng::rand_index;

verus! {

/// The scalar quality score of a program, held as its order code: a 64-bit
/// key that compares the same way the underlying score does.
#[derive(Clone, Copy, Debug, PartialEq, Eq, Structural)]
pub struct FitnessScore {
    pub key: u64,
}

/// The mathematical model of a program: its instruction sequence, the cells
/// of its register file, and its cached fitness if one was computed.
pub ghost struct ProgramV {
    pub instructions: Seq<Instruction>,
    pub registers: Seq<RegisterValue>,
    pub fitness: Option<FitnessScore>,
}

/// One organism: an ordered sequence of instructions, its own register
/// file, and a lazily cached fitness score. The dataset a program is
/// evaluated against is shared read-only by the whole population and is
/// handed to the evaluation step, not owned here.
#[derive(Debug)]
pub struct Program {
    pub instructions: Vec<Instruction>,
    pub registers: Registers,
    pub fitness: Option<FitnessScore>,
}

impl View for Program {
    type V = ProgramV;

    open spec fn view(&self) -> ProgramV {
        ProgramV {
            instructions: self.instructions@,
            registers: self.registers@,
            fitness: self.fitness,
        }
    }
}

/// What seeds one program's generation: the register file length, the
/// record width, the registry size, and the cap on instruction count.
#[derive(Clone, Copy, Debug, PartialEq, Eq, Structural)]
pub struct GenerateParams {
    pub registers_len: usize,
    pub data_len: usize,
    pub n_operations: usize,
    pub max_instructions: usize,
}

impl GenerateParams {
    /// Every extent must be positive: an empty register file, record, the
    /// empty registry, or a zero instruction cap is an invalid configuration.
    pub open spec fn wf(self) -> bool {
        &&& self.registers_len > 0
        &&& self.data_len > 0
        &&& self.n_operations > 0
        &&& self.max_instructions > 0
    }
}

/// Whether a freshly generated program is consistent with its parameters:
/// between one and the capped number of instructions, each well-formed; a
/// zero-filled register file of the configured length; no fitness yet.
pub open spec fn freshly_generated(p: ProgramV, params: GenerateParams) -> bool {
    &&& 1 <= p.instructions.len() <= params.max_instructions
    &&& forall|i: int|
        0 <= i < p.instructions.len() ==> p.instructions[i].wf(
            params.registers_len as int,
            params.data_len as int,
            params.n_operations as int,
        )
    &&& p.registers.len() == params.registers_len
    &&& forall|i: int| 0 <= i < p.registers.len() ==> p.registers[i].key == ZERO_KEY
    &&& p.fitness is None
}

impl Program {
    /// Generates one organism: a uniformly drawn instruction count between
    /// one and the cap, each instruction drawn by the chromosome generation
    /// procedure, a fresh zero-filled register file, and no fitness.
    pub fn generate(params: GenerateParams, rng: &mut rand::rngs::StdRng) -> (r: Result<
        Program,
        EvolveError,
    >)
        ensures
            (r is Ok) <==> params.wf(),
            r is Ok ==> freshly_generated(r->Ok_0@, params),
            r is Err ==> r->Err_0 is InvalidConfiguration,
    {
        if params.registers_len == 0 || params.data_len == 0 || params.n_operations == 0
            || params.max_instructions == 0 {
            return Err(EvolveError::InvalidConfiguration);
        }
        let count = rand_index(rng, params.max_instructions) + 1;
        let mut instructions: Vec<Instruction> = Vec::new();
        let mut i: usize = 0;
        while i < count
            invariant
                i <= count,
                1 <= count <= params.max_instructions,
                params.wf(),
                instructions@.len() == i,
                forall|j: int|
                    0 <= j < i ==> instructions@[j].wf(
                        params.registers_len as int,
                        params.data_len as int,
                        params.n_operations as int,
                    ),
            decreases count - i,
        {
            match Instruction::generate(
                params.registers_len,
                params.data_len,
                params.n_operations,
                rng,
            ) {
                Ok(instruction) => instructions.push(instruction),
                Err(_) => {
                    // unreachable: the parameters were validated above
                    proof {
                        assert(false);
                    }
                },
            }
            i = i + 1;
        }
        Ok(
            Program {
                instructions,
                registers: Registers::new(params.registers_len),
                fitness: None,
            },
        )
    }

    /// Returns the cached fitness when one exists; otherwise caches the
    /// score handed in (the aggregation over the dataset is the caller's
    /// fitness function) and returns it. A second call never recomputes.
    pub fn lazy_retrieve_fitness(&mut self, computed: FitnessScore) -> (r: FitnessScore)
        ensures
            old(self)@.fitness is Some ==> final(self)@ == old(self)@ && r == old(
                self,
            )@.fitness->Some_0,
            old(self)@.fitness is None ==> final(self)@ == (ProgramV {
                fitness: Some(computed),
                ..old(self)@
            }) && r == computed,
            final(self)@.fitness is Some,
    {
        match &self.fitness {
            Some(score) => *score,
            None => {
                self.fitness = Some(computed);
                computed
            },
        }
    }

    /// The total order between programs, defined strictly by cached
    /// fitness. Comparing two programs of which either lacks a cached
    /// fitness fails explicitly rather than silently default-ordering.
    pub fn compare_fitness(&self, other: &Program) -> (r: Result<
        core::cmp::Ordering,
        EvolveError,
    >)
        ensures
            (r is Ok) <==> (self@.fitness is Some && other@.fitness is Some),
            r is Err ==> r == Err::<core::cmp::Ordering, EvolveError>(
                EvolveError::FitnessNotEvaluated,
            ),
            r is Ok ==> r->Ok_0 == (if self@.fitness->Some_0.key < other@.fitness->Some_0.key {
                core::cmp::Ordering::Less
            } else if self@.fitness->Some_0.key == other@.fitness->Some_0.key {
                core::cmp::Ordering::Equal
            } else {
                core::cmp::Ordering::Greater
            }),
    {
        match (&self.fitness, &other.fitness) {
            (Some(own), Some(theirs)) => {
                if own.key < theirs.key {
                    Ok(core::cmp::Ordering::Less)
                } else if own.key == theirs.key {
                    Ok(core::cmp::Ordering::Equal)
                } else {
                    Ok(core::cmp::Ordering::Greater)
                }
            },
            _ => Err(EvolveError::FitnessNotEvaluated),
        }
    }

    /// A value-equal copy: same instructions, same cells, same cached
    /// fitness.
    pub fn deep_clone(&self) -> (r: Program)
        ensures
            r@ == self@,
    {
        let mut instructions: Vec<Instruction> = Vec::new();
        let mut i: usize = 0;
        while i < self.instructions.len()
            invariant
                i <= self.instructions@.len(),
                instructions@ == self.instructions@.take(i as int),
            decreases self.instructions@.len() - i,
        {
            instructions.push(self.instructions[i]);
            proof {
                assert(instructions@ =~= self.instructions@.take(i as int + 1));
            }
            i = i + 1;
        }
        let mut cells: Vec<RegisterValue> = Vec::new();
        let mut j: usize = 0;
        while j < self.registers.0.len()
            invariant
                j <= self.registers@.len(),
                cells@ == self.registers@.take(j as int),
            decreases self.registers@.len() - j,
        {
            cells.push(self.registers.0[j]);
            proof {
                assert(cells@ =~= self.registers@.take(j as int + 1));
            }
            j = j + 1;
        }
        let fitness = match &self.fitness {
            Some(score) => Some(*score),
            None => None,
        };
        let r = Program { instructions, registers: Registers::from(cells), fitness };
        proof {
            assert(r.instructions@ =~= self.instructions@);
            assert(r.registers@ =~= self.registers@);
        }
        r
    }
}

} // verus!
