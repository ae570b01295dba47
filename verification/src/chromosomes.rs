use vstd::prelude::*;

use crate::errors::EvolveError;
use crate::registers::{InputRecord, RegisterValue, Registers};
use crate::rng::{rand_flag, rand_index};

verus! {

/// Where an instruction's target operand resolves: against the current input
/// record, or against the program's own register file.
#[derive(Clone, Copy, Debug, PartialEq, Eq, Structural)]
pub enum Modes {
    Input,
    Registers,
}

/// The addressing mode a drawn flag selects: a set flag reads from the
/// input record, a clear one from the register file.
pub fn mode_of(flag: bool) -> (r: Modes)
    ensures
        r == (if flag {
            Modes::Input
        } else {
            Modes::Registers
        }),
{
    if flag {
        Modes::Input
    } else {
        Modes::Registers
    }
}

/// Draws one addressing mode, each of the two equally likely: the drawn
/// flag picks the mode through `mode_of`.
pub fn sample_mode(rng: &mut rand::rngs::StdRng) -> Modes {
    let should_read_from_input: bool = rand_flag(rng);
    mode_of(should_read_from_input)
}

/// One addressable operation application: a source index into the register
/// file, a target index whose addressing space depends on the mode, and the
/// stable identifier of one registered operation.
///
/// Equality is structural on all four parts; the operation is carried as its
/// registry identifier, never as a function address, so instruction equality
/// is value-based and reproducible across runs.
#[derive(Clone, Copy, Debug, PartialEq, Eq, Structural)]
pub struct Instruction {
    pub source_index: usize,
    pub target_index: usize,
    pub mode: Modes,
    pub operation: usize,
}

impl Instruction {
    /// The generation-time invariant: the source addresses the register
    /// file, the target addresses the bank its mode selects, and the
    /// operation identifier addresses the registry.
    pub open spec fn wf(self, registers_len: int, data_len: int, n_operations: int) -> bool {
        &&& (self.source_index as int) < registers_len
        &&& (self.mode is Registers ==> (self.target_index as int) < registers_len)
        &&& (self.mode is Input ==> (self.target_index as int) < data_len)
        &&& (self.operation as int) < n_operations
    }

    /// Draws a fresh instruction: the source index uniformly from the
    /// register file, the mode uniformly from the two addressing modes, the
    /// target index uniformly from the bank that mode selects, and the
    /// operation uniformly from the registry. An empty registry, an empty
    /// register file, or an empty record width is rejected before any draw.
    pub fn generate(
        registers_len: usize,
        data_len: usize,
        n_operations: usize,
        rng: &mut rand::rngs::StdRng,
    ) -> (r: Result<Instruction, EvolveError>)
        ensures
            (r is Ok) <==> (registers_len > 0 && data_len > 0 && n_operations > 0),
            r is Ok ==> r->Ok_0.wf(registers_len as int, data_len as int, n_operations as int),
            r is Err ==> r->Err_0 is InvalidConfiguration,
    {
        if n_operations == 0 || registers_len == 0 || data_len == 0 {
            return Err(EvolveError::InvalidConfiguration);
        }
        let source_index = rand_index(rng, registers_len);
        let mode = sample_mode(rng);
        let target_index = match mode {
            Modes::Input => rand_index(rng, data_len),
            Modes::Registers => rand_index(rng, registers_len),
        };
        let operation = rand_index(rng, n_operations);
        Ok(Instruction { source_index, target_index, mode, operation })
    }

    /// The register file cell an operation's output overwrites: the target
    /// cell in register mode. Input records are read-only, so in input mode
    /// the output cannot land in the record's target slot and falls back to
    /// the source cell of the register file.
    pub fn output_index(&self) -> (r: usize)
        ensures
            r == (if self.mode is Registers {
                self.target_index
            } else {
                self.source_index
            }),
    {
        match self.mode {
            Modes::Registers => self.target_index,
            Modes::Input => self.source_index,
        }
    }

    /// Resolves the instruction's two operands: the source operand is always
    /// the register file's cell at the source index, while the target
    /// operand comes from the register file or from the input record as the
    /// mode selects. Input records are read-only: in input mode the record
    /// only supplies the target operand, and an operation's result is
    /// written back to the register file (through `Registers::update`, at
    /// the cell `output_index` names), never into the record. Either
    /// resolution failing its bank's bounds is an out-of-bounds error.
    pub fn get_data(&self, registers: &Registers, data: &InputRecord) -> (r: Result<
        (Vec<RegisterValue>, Vec<RegisterValue>),
        EvolveError,
    >)
        ensures
            (r is Ok) <==> ((self.source_index as int) < registers@.len() && (match self.mode {
                Modes::Registers => (self.target_index as int) < registers@.len(),
                Modes::Input => (self.target_index as int) < data.features@.len(),
            })),
            r is Ok ==> r->Ok_0.0@ == seq![registers@[self.source_index as int]],
            r is Ok ==> r->Ok_0.1@ == (match self.mode {
                Modes::Registers => seq![registers@[self.target_index as int]],
                Modes::Input => seq![data.features@[self.target_index as int]],
            }),
            r is Err ==> r->Err_0 is OutOfBounds,
    {
        let registers_len = registers.len();
        if self.source_index >= registers_len {
            return Err(EvolveError::OutOfBounds { index: self.source_index, len: registers_len });
        }
        let target_value: RegisterValue = match self.mode {
            Modes::Registers => {
                if self.target_index >= registers_len {
                    return Err(EvolveError::OutOfBounds {
                        index: self.target_index,
                        len: registers_len,
                    });
                }
                registers.0[self.target_index]
            },
            Modes::Input => {
                let data_len = data.features.len();
                if self.target_index >= data_len {
                    return Err(EvolveError::OutOfBounds {
                        index: self.target_index,
                        len: data_len,
                    });
                }
                data.features[self.target_index]
            },
        };
        let mut source_data: Vec<RegisterValue> = Vec::new();
        source_data.push(registers.0[self.source_index]);
        let mut target_data: Vec<RegisterValue> = Vec::new();
        target_data.push(target_value);
        proof {
            assert(source_data@ =~= seq![registers@[self.source_index as int]]);
            assert(target_data@ =~= seq![target_value]);
        }
        Ok((source_data, target_data))
    }
}

} // verus!
