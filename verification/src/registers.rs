use vstd::prelude::*;

use crate::common_traits::{Compare, Show};
use crate::errors::EvolveError;

verus! {

/// Order code of the zero cell value.
///
/// Register cells are floating working-memory values carried under a total
/// order; the library holds each as its order code, a 64-bit key that
/// compares the same way the value does (callers obtain the codes by a
/// monotone encoding of their floating values). Zero sits in the middle of
/// the code space so that codes below it remain for negative values.
pub const ZERO_KEY: u64 = 0x8000_0000_0000_0000;

/// One working-memory cell: a totally ordered value held as its order code.
#[derive(Clone, Copy, Debug, PartialEq, Eq, Structural)]
pub struct RegisterValue {
    pub key: u64,
}

impl RegisterValue {
    /// The zero cell value, written by `Registers::new` and `Registers::reset`.
    pub fn zero() -> (r: RegisterValue)
        ensures
            r.key == ZERO_KEY,
    {
        RegisterValue { key: ZERO_KEY }
    }
}

/// One typed dataset row: its feature cells and its class label.
#[derive(Debug)]
pub struct InputRecord {
    pub features: Vec<RegisterValue>,
    pub class: usize,
}

/// Capability contract for record types a genetic run can consume: such a
/// record compares, displays, and carries classification metadata.
pub trait ValidInput: Compare + Show {
    /// How many classes the record's label ranges over.
    fn n_classes() -> usize;

    /// How many feature columns the record carries.
    fn n_features() -> usize;

    /// The class label of this record.
    fn get_class(&self) -> usize;
}

/// The fixed-length working memory of one program instance.
#[derive(Debug)]
pub struct Registers(pub Vec<RegisterValue>);

impl View for Registers {
    type V = Seq<RegisterValue>;

    open spec fn view(&self) -> Seq<RegisterValue> {
        self.0@
    }
}

/// The end of a slice request: an explicit bound, or one cell past `start`
/// when the request left the end out.
pub open spec fn slice_end(start: usize, end: Option<usize>) -> int {
    match end {
        Some(e) => e as int,
        None => start as int + 1,
    }
}

/// Whether `i` is the position of the strict unique maximum among the first
/// `n` cells of `s`.
pub open spec fn unique_max_at(s: Seq<RegisterValue>, n: int, i: int) -> bool {
    &&& 0 <= i < n
    &&& forall|j: int| 0 <= j < n && j != i ==> s[j].key < s[i].key
}

impl Registers {
    /// A zero-filled register file of length `n_registers`.
    pub fn new(n_registers: usize) -> (r: Registers)
        ensures
            r@.len() == n_registers,
            forall|i: int| 0 <= i < n_registers ==> r@[i].key == ZERO_KEY,
    {
        let mut internal_vec: Vec<RegisterValue> = Vec::new();
        let mut i: usize = 0;
        while i < n_registers
            invariant
                i <= n_registers,
                internal_vec@.len() == i,
                forall|j: int| 0 <= j < i ==> internal_vec@[j].key == ZERO_KEY,
            decreases n_registers - i,
        {
            internal_vec.push(RegisterValue { key: ZERO_KEY });
            i = i + 1;
        }
        Registers(internal_vec)
    }

    /// A register file initialized from an explicit sequence of cells.
    pub fn from(vec: Vec<RegisterValue>) -> (r: Registers)
        ensures
            r@ == vec@,
    {
        Registers(vec)
    }

    /// Sets every cell back to zero; the length is kept.
    pub fn reset(&mut self)
        ensures
            final(self)@.len() == old(self)@.len(),
            forall|i: int| 0 <= i < old(self)@.len() ==> final(self)@[i].key == ZERO_KEY,
    {
        let n = self.0.len();
        let mut index: usize = 0;
        while index < n
            invariant
                index <= n,
                self@.len() == n,
                forall|j: int| 0 <= j < index ==> self@[j].key == ZERO_KEY,
            decreases n - index,
        {
            self.0.set(index, RegisterValue { key: ZERO_KEY });
            index = index + 1;
        }
    }

    /// How many cells the file holds.
    pub fn len(&self) -> (r: usize)
        ensures
            r == self@.len(),
    {
        self.0.len()
    }

    /// Point write; rejected with an out-of-bounds error when `index` reaches
    /// past the file.
    pub fn update(&mut self, index: usize, value: RegisterValue) -> (r: Result<(), EvolveError>)
        ensures
            (r is Ok) <==> index < old(self)@.len(),
            r is Ok ==> final(self)@ == old(self)@.update(index as int, value),
            r is Err ==> final(self)@ == old(self)@ && r == Err::<(), EvolveError>(
                EvolveError::OutOfBounds { index, len: old(self)@.len() as usize },
            ),
    {
        let len = self.0.len();
        if index < len {
            self.0.set(index, value);
            Ok(())
        } else {
            Err(EvolveError::OutOfBounds { index, len })
        }
    }

    /// Point read; rejected with an out-of-bounds error when `index` reaches
    /// past the file.
    pub fn get(&self, index: usize) -> (r: Result<RegisterValue, EvolveError>)
        ensures
            (r is Ok) <==> index < self@.len(),
            r is Ok ==> r->Ok_0 == self@[index as int],
            r is Err ==> r == Err::<RegisterValue, EvolveError>(
                EvolveError::OutOfBounds { index, len: self@.len() as usize },
            ),
    {
        let len = self.0.len();
        if index < len {
            Ok(self.0[index])
        } else {
            Err(EvolveError::OutOfBounds { index, len })
        }
    }

    /// The cells of `[start, end)`, `end` defaulting to one past `start`;
    /// rejected with an out-of-bounds error whenever the requested end
    /// reaches past the file or lies before `start`.
    pub fn get_slice(&self, start: usize, end: Option<usize>) -> (r: Result<
        Vec<RegisterValue>,
        EvolveError,
    >)
        ensures
            (r is Ok) <==> (start <= slice_end(start, end) && slice_end(start, end)
                <= self@.len()),
            r is Ok ==> r->Ok_0@ == self@.subrange(start as int, slice_end(start, end)),
            r is Err ==> r->Err_0 is OutOfBounds,
    {
        let len = self.0.len();
        let eff_end: usize = match end {
            Some(e) => e,
            None => {
                if start >= len {
                    return Err(EvolveError::OutOfBounds { index: start, len });
                }
                start + 1
            },
        };
        if eff_end > len {
            return Err(EvolveError::OutOfBounds { index: eff_end, len });
        }
        if start > eff_end {
            return Err(EvolveError::OutOfBounds { index: start, len });
        }
        let mut out: Vec<RegisterValue> = Vec::new();
        let mut i: usize = start;
        while i < eff_end
            invariant
                start <= i <= eff_end,
                eff_end <= self@.len(),
                out@ == self@.subrange(start as int, i as int),
            decreases eff_end - i,
        {
            out.push(self.0[i]);
            proof {
                assert(out@ =~= self@.subrange(start as int, i as int + 1));
            }
            i = i + 1;
        }
        Ok(out)
    }

    /// The mutable-form slice request: the same cells and the same
    /// out-of-bounds policy as `get_slice`; writing back goes through
    /// `update`.
    pub fn get_mut_slice(&mut self, start: usize, end: Option<usize>) -> (r: Result<
        Vec<RegisterValue>,
        EvolveError,
    >)
        ensures
            final(self)@ == old(self)@,
            (r is Ok) <==> (start <= slice_end(start, end) && slice_end(start, end) <= old(
                self,
            )@.len()),
            r is Ok ==> r->Ok_0@ == old(self)@.subrange(start as int, slice_end(start, end)),
            r is Err ==> r->Err_0 is OutOfBounds,
    {
        self.get_slice(start, end)
    }

    /// The classification decision rule over the first `n_classes` cells: the
    /// vote is `desired_index` exactly when that cell is the strict unique
    /// maximum among the class cells; a tie, or a maximum attained elsewhere,
    /// abstains with no decision.
    pub fn argmax(&self, n_classes: usize, desired_index: usize) -> (r: Option<usize>)
        requires
            1 <= n_classes <= self@.len(),
        ensures
            r == if unique_max_at(self@, n_classes as int, desired_index as int) {
                Some(desired_index)
            } else {
                None::<usize>
            },
    {
        let mut best: usize = 0;
        let mut count: usize = 1;
        let mut i: usize = 1;
        while i < n_classes
            invariant
                1 <= i <= n_classes,
                n_classes <= self@.len(),
                best < i,
                1 <= count <= i,
                forall|j: int| 0 <= j < i ==> self@[j].key <= self@[best as int].key,
                (count == 1) <==> (forall|j: int|
                    0 <= j < i && j != best ==> self@[j].key < self@[best as int].key),
            decreases n_classes - i,
        {
            let ghost prev_best = best as int;
            let ghost prev_count = count as int;
            let v = self.0[i].key;
            let b = self.0[best].key;
            if v > b {
                best = i;
                count = 1;
                proof {
                    assert(forall|j: int|
                        0 <= j < i + 1 && j != i ==> self@[j].key < self@[i as int].key) by {
                        assert(forall|j: int|
                            0 <= j < i ==> self@[j].key <= self@[prev_best].key);
                    };
                }
            } else if v == b {
                count = count + 1;
                proof {
                    assert(!(forall|j: int|
                        0 <= j < i + 1 && j != prev_best ==> self@[j].key < self@[
                            prev_best].key)) by {
                        assert(!(self@[i as int].key < self@[prev_best].key));
                    };
                }
            } else {
                proof {
                    if prev_count == 1 {
                        assert(self@[i as int].key < self@[prev_best].key);
                    } else {
                        let jw = choose|j: int|
                            0 <= j < i && j != prev_best && !(self@[j].key
                                < self@[prev_best].key);
                        assert(!(forall|j: int|
                            0 <= j < i + 1 && j != prev_best ==> self@[j].key < self@[
                                prev_best].key)) by {
                            assert(0 <= jw < i + 1 && jw != prev_best && !(self@[jw].key
                                < self@[prev_best].key));
                        };
                    }
                }
            }
            i = i + 1;
        }
        proof {
            let s = self@;
            let n = n_classes as int;
            let d = desired_index as int;
            if best == desired_index && count == 1 {
                assert(unique_max_at(s, n, d));
            } else if unique_max_at(s, n, d) {
                if best as int != d {
                    assert(s[best as int].key < s[d].key);
                    assert(s[d].key <= s[best as int].key);
                    assert(false);
                } else {
                    assert(forall|j: int|
                        0 <= j < n && j != best ==> s[j].key < s[best as int].key);
                    assert(count == 1);
                    assert(false);
                }
            }
        }
        if best == desired_index && count == 1 {
            Some(desired_index)
        } else {
            None
        }
    }
}

} // verus!
