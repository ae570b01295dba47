use vstd::prelude::*;

use vstd::arithmetic::div_mod::{lemma_div_is_ordered, lemma_div_multiples_vanish};

use crate::chromosomes::{Instruction, Modes};
use crate::program::{FitnessScore, Program, ProgramV};
use crate::registers::{Registers, RegisterValue};

verus! {

/// The line-tag and separator bytes of the displayed form.
pub const TAG_INSTRUCTION: u8 = 73;

pub const TAG_CELL: u8 = 67;

pub const TAG_FITNESS: u8 = 70;

pub const MARK_NONE: u8 = 78;

pub const MARK_INPUT: u8 = 68;

pub const MARK_REGISTERS: u8 = 82;

pub const SPACE: u8 = 32;

pub const NEWLINE: u8 = 10;


/// A program's displayed structured form is a small line-oriented text
/// document: one `I` line per instruction (source index, target index,
/// addressing mode letter, operation identifier), one `C` line per register
/// cell, and one final `F` line carrying the cached fitness key or `N` when
/// none is cached. The form is self-describing and parses back exactly.
pub open spec fn is_digit(b: u8) -> bool {
    48 <= b <= 57
}

pub open spec fn all_digits(ds: Seq<u8>) -> bool {
    forall|i: int| 0 <= i < ds.len() ==> is_digit(#[trigger] ds[i])
}

/// The decimal digit bytes of `n`, most significant first.
pub open spec fn dec_digits(n: nat) -> Seq<u8>
    decreases n,
{
    if n < 10 {
        seq![(48 + n) as u8]
    } else {
        dec_digits(n / 10) + seq![(48 + n % 10) as u8]
    }
}

/// Folds digit bytes onto an accumulator, most significant first.
pub open spec fn fold_digits(acc: nat, ds: Seq<u8>) -> nat
    decreases ds.len(),
{
    if ds.len() == 0 {
        acc
    } else {
        fold_digits((acc * 10 + (ds[0] - 48)) as nat, ds.drop_first())
    }
}

proof fn lemma_dec_digits_shape(n: nat)
    ensures
        dec_digits(n).len() >= 1,
        all_digits(dec_digits(n)),
    decreases n,
{
    if n >= 10 {
        lemma_dec_digits_shape(n / 10);
        let inner = dec_digits(n / 10);
        let whole = dec_digits(n);
        assert(forall|i: int| 0 <= i < inner.len() ==> whole[i] == inner[i]);
        assert(whole[whole.len() - 1] == (48 + n % 10) as u8);
    }
}

proof fn lemma_fold_append(acc: nat, ds: Seq<u8>, x: u8)
    requires
        all_digits(ds),
        is_digit(x),
    ensures
        fold_digits(acc, ds.push(x)) == fold_digits(acc, ds) * 10 + (x - 48),
    decreases ds.len(),
{
    if ds.len() == 0 {
        assert(ds.push(x)[0] == x);
        assert(ds.push(x).drop_first() =~= Seq::<u8>::empty());
        assert(fold_digits(acc, ds.push(x)) == (acc * 10 + (x - 48)) as nat) by {
            reveal_with_fuel(fold_digits, 3);
        };
        assert(fold_digits(acc, ds) == acc);
    } else {
        assert(ds.push(x)[0] == ds[0]);
        assert(ds.push(x).drop_first() =~= ds.drop_first().push(x));
        assert(all_digits(ds.drop_first()));
        lemma_fold_append((acc * 10 + (ds[0] - 48)) as nat, ds.drop_first(), x);
        assert(fold_digits(acc, ds.push(x)) == fold_digits(
            (acc * 10 + (ds[0] - 48)) as nat,
            ds.drop_first().push(x),
        ));
    }
}

proof fn lemma_fold_dec(n: nat)
    ensures
        fold_digits(0, dec_digits(n)) == n,
    decreases n,
{
    if n < 10 {
        assert(dec_digits(n).drop_first() =~= Seq::<u8>::empty());
        assert(fold_digits(0, dec_digits(n)) == (0 * 10 + ((48 + n) as u8 - 48)) as nat) by {
            reveal_with_fuel(fold_digits, 3);
        };
    } else {
        lemma_fold_dec(n / 10);
        lemma_dec_digits_shape(n / 10);
        assert(dec_digits(n) =~= dec_digits(n / 10).push((48 + n % 10) as u8));
        lemma_fold_append(0, dec_digits(n / 10), (48 + n % 10) as u8);
        vstd::arithmetic::div_mod::lemma_fundamental_div_mod(n as int, 10);
    }
}

proof fn lemma_fold_lower(acc: nat, ds: Seq<u8>)
    requires
        all_digits(ds),
    ensures
        fold_digits(acc, ds) >= acc,
    decreases ds.len(),
{
    if ds.len() > 0 {
        assert(all_digits(ds.drop_first()));
        lemma_fold_lower((acc * 10 + (ds[0] - 48)) as nat, ds.drop_first());
        assert(acc * 10 + (ds[0] - 48) >= acc) by (nonlinear_arith)
            requires acc >= 0 && ds[0] >= 48;
    }
}

/// Reads a run of decimal digits starting at `i`, accumulating onto `acc`;
/// stops at the first non-digit or at the end, and refuses a value that
/// would overflow 64 bits.
pub open spec fn scan_u64(s: Seq<u8>, i: int, acc: u64) -> Option<(u64, int)>
    decreases s.len() - i,
{
    if i < 0 || i >= s.len() || !is_digit(s[i]) {
        Some((acc, i))
    } else {
        let d = (s[i] - 48) as u64;
        if acc > (0xFFFF_FFFF_FFFF_FFFFu64 - d) / 10 {
            None
        } else {
            scan_u64(s, i + 1, (acc * 10 + d) as u64)
        }
    }
}

/// A decimal number at `i`: at least one digit, read greedily.
pub open spec fn parse_u64_at(s: Seq<u8>, i: int) -> Option<(u64, int)> {
    if 0 <= i < s.len() && is_digit(s[i]) {
        scan_u64(s, i, 0)
    } else {
        None
    }
}

proof fn lemma_scan_digits(s: Seq<u8>, i: int, ds: Seq<u8>, acc: u64, total: nat)
    requires
        0 <= i,
        i + ds.len() <= s.len(),
        s.subrange(i, i + ds.len()) == ds,
        all_digits(ds),
        fold_digits(acc as nat, ds) == total,
        total <= 0xFFFF_FFFF_FFFF_FFFF,
        i + ds.len() == s.len() || !is_digit(s[i + ds.len()]),
    ensures
        scan_u64(s, i, acc) == Some((total as u64, i + ds.len())),
    decreases ds.len(),
{
    if ds.len() == 0 {
        assert(fold_digits(acc as nat, ds) == acc as nat);
    } else {
        assert(s[i] == ds[0]) by {
            assert(s.subrange(i, i + ds.len())[0] == s[i]);
        };
        let d = (s[i] - 48) as u64;
        let acc2: nat = (acc * 10 + d) as nat;
        assert(all_digits(ds.drop_first()));
        assert(fold_digits(acc2, ds.drop_first()) == total);
        lemma_fold_lower(acc2, ds.drop_first());
        assert(acc2 <= total);
        // the overflow guard cannot fire: acc * 10 + d stays within 64 bits
        assert(acc * 10 <= 0xFFFF_FFFF_FFFF_FFFF - d);
        lemma_div_is_ordered(acc * 10, 0xFFFF_FFFF_FFFF_FFFF - d, 10);
        lemma_div_multiples_vanish(acc as int, 10);
        assert(!(acc > (0xFFFF_FFFF_FFFF_FFFFu64 - d) / 10));
        assert(s.subrange(i + 1, i + 1 + ds.drop_first().len()) =~= ds.drop_first());
        lemma_scan_digits(s, i + 1, ds.drop_first(), (acc * 10 + d) as u64, total);
    }
}

proof fn lemma_parse_u64_render(s: Seq<u8>, i: int, n: nat)
    requires
        0 <= i,
        n <= 0xFFFF_FFFF_FFFF_FFFF,
        i + dec_digits(n).len() <= s.len(),
        s.subrange(i, i + dec_digits(n).len()) == dec_digits(n),
        i + dec_digits(n).len() == s.len() || !is_digit(s[i + dec_digits(n).len()]),
    ensures
        parse_u64_at(s, i) == Some((n as u64, i + dec_digits(n).len())),
{
    lemma_dec_digits_shape(n);
    lemma_fold_dec(n);
    assert(s[i] == dec_digits(n)[0]) by {
        assert(s.subrange(i, i + dec_digits(n).len())[0] == s[i]);
    };
    lemma_scan_digits(s, i, dec_digits(n), 0, n);
}

/// Appends the decimal rendering of `n`.
fn push_u64(out: &mut Vec<u8>, n: u64)
    ensures
        final(out)@ == old(out)@ + dec_digits(n as nat),
    decreases n,
{
    if n >= 10 {
        push_u64(out, n / 10);
    }
    let ghost mid = out@;
    out.push(48 + (n % 10) as u8);
    proof {
        if n < 10 {
            assert(out@ =~= old(out)@ + dec_digits(n as nat));
        } else {
            assert(out@ =~= old(out)@ + (dec_digits(n as nat / 10) + seq![
                (48 + n as nat % 10) as u8,
            ]));
        }
    }
}

/// Reads a decimal run; mirrors `scan_u64`.
fn scan_u64_exec(s: &[u8], i: usize, acc: u64) -> (r: Option<(u64, usize)>)
    requires
        i <= s@.len(),
    ensures
        match scan_u64(s@, i as int, acc) {
            Some((v, j)) => r is Some && r->Some_0.0 == v && r->Some_0.1 as int == j,
            None => r is None,
        },
        r is Some ==> i as int <= r->Some_0.1 as int <= s@.len(),
    decreases s@.len() - i,
{
    if i >= s.len() {
        return Some((acc, i));
    }
    let b = s[i];
    if b < 48 || b > 57 {
        return Some((acc, i));
    }
    let d = (b - 48) as u64;
    if acc > (0xFFFF_FFFF_FFFF_FFFFu64 - d) / 10 {
        return None;
    }
    scan_u64_exec(s, i + 1, acc * 10 + d)
}

/// Reads a decimal number; mirrors `parse_u64_at`.
fn parse_u64_exec(s: &[u8], i: usize) -> (r: Option<(u64, usize)>)
    ensures
        match parse_u64_at(s@, i as int) {
            Some((v, j)) => r is Some && r->Some_0.0 == v && r->Some_0.1 as int == j,
            None => r is None,
        },
        r is Some ==> i as int <= r->Some_0.1 as int <= s@.len(),
{
    if i >= s.len() {
        return None;
    }
    let b = s[i];
    if b < 48 || b > 57 {
        return None;
    }
    scan_u64_exec(s, i, 0)
}

/// The letter an addressing mode is displayed as: `D` for the input record
/// (data), `R` for the register file.
pub open spec fn mode_byte(m: Modes) -> u8 {
    if m is Input {
        MARK_INPUT
    } else {
        MARK_REGISTERS
    }
}

/// One displayed instruction line.
pub open spec fn render_instruction(ins: Instruction) -> Seq<u8> {
    seq![TAG_INSTRUCTION, SPACE] + dec_digits(ins.source_index as nat) + seq![SPACE] + dec_digits(
        ins.target_index as nat,
    ) + seq![SPACE, mode_byte(ins.mode), SPACE] + dec_digits(ins.operation as nat) + seq![NEWLINE]
}

pub open spec fn render_instructions(l: Seq<Instruction>) -> Seq<u8>
    decreases l.len(),
{
    if l.len() == 0 {
        Seq::empty()
    } else {
        render_instruction(l[0]) + render_instructions(l.drop_first())
    }
}

/// One displayed register cell line.
pub open spec fn render_cell(c: RegisterValue) -> Seq<u8> {
    seq![TAG_CELL, SPACE] + dec_digits(c.key as nat) + seq![NEWLINE]
}

pub open spec fn render_cells(cs: Seq<RegisterValue>) -> Seq<u8>
    decreases cs.len(),
{
    if cs.len() == 0 {
        Seq::empty()
    } else {
        render_cell(cs[0]) + render_cells(cs.drop_first())
    }
}

/// The displayed fitness line: the cached key, or `N` when none is cached.
pub open spec fn render_fitness(f: Option<FitnessScore>) -> Seq<u8> {
    match f {
        Some(score) => seq![TAG_FITNESS, SPACE] + dec_digits(score.key as nat) + seq![NEWLINE],
        None => seq![TAG_FITNESS, SPACE, MARK_NONE, NEWLINE],
    }
}

/// The whole displayed structured form of a program.
pub open spec fn render_program(p: ProgramV) -> Seq<u8> {
    render_instructions(p.instructions) + render_cells(p.registers) + render_fitness(p.fitness)
}

/// One instruction line at `i`, or nothing.
pub open spec fn parse_instruction_at(s: Seq<u8>, i: int) -> Option<(Instruction, int)> {
    if !(0 <= i && i + 2 <= s.len() && s[i] == TAG_INSTRUCTION && s[i + 1] == SPACE) {
        None
    } else {
        match parse_u64_at(s, i + 2) {
            None => None,
            Some((src, j)) => if !(src <= usize::MAX as u64 && j < s.len() && s[j] == SPACE) {
                None
            } else {
                match parse_u64_at(s, j + 1) {
                    None => None,
                    Some((tgt, k)) => if !(tgt <= usize::MAX as u64 && k + 3 <= s.len() && s[k]
                        == SPACE && (s[k + 1] == MARK_INPUT || s[k + 1] == MARK_REGISTERS) && s[k + 2] == SPACE) {
                        None
                    } else {
                        match parse_u64_at(s, k + 3) {
                            None => None,
                            Some((op, m)) => if !(op <= usize::MAX as u64 && m < s.len() && s[m]
                                == NEWLINE) {
                                None
                            } else {
                                Some(
                                    (
                                        Instruction {
                                            source_index: src as usize,
                                            target_index: tgt as usize,
                                            mode: if s[k + 1] == MARK_INPUT {
                                                Modes::Input
                                            } else {
                                                Modes::Registers
                                            },
                                            operation: op as usize,
                                        },
                                        m + 1,
                                    ),
                                )
                            },
                        }
                    },
                }
            },
        }
    }
}

/// Every instruction line from `i` on, stopping at the first line that does
/// not open with `I`.
pub open spec fn parse_instructions_at(s: Seq<u8>, i: int) -> Option<(Seq<Instruction>, int)>
    decreases s.len() - i,
{
    if !(0 <= i < s.len() && s[i] == TAG_INSTRUCTION) {
        Some((Seq::empty(), i))
    } else {
        match parse_instruction_at(s, i) {
            None => None,
            Some((ins, j)) => if !(i < j <= s.len()) {
                None
            } else {
                match parse_instructions_at(s, j) {
                    None => None,
                    Some((rest, k)) => Some((seq![ins] + rest, k)),
                }
            },
        }
    }
}

/// One register cell line at `i`, or nothing.
pub open spec fn parse_cell_at(s: Seq<u8>, i: int) -> Option<(RegisterValue, int)> {
    if !(0 <= i && i + 2 <= s.len() && s[i] == TAG_CELL && s[i + 1] == SPACE) {
        None
    } else {
        match parse_u64_at(s, i + 2) {
            None => None,
            Some((key, j)) => if !(j < s.len() && s[j] == NEWLINE) {
                None
            } else {
                Some((RegisterValue { key }, j + 1))
            },
        }
    }
}

pub open spec fn parse_cells_at(s: Seq<u8>, i: int) -> Option<(Seq<RegisterValue>, int)>
    decreases s.len() - i,
{
    if !(0 <= i < s.len() && s[i] == TAG_CELL) {
        Some((Seq::empty(), i))
    } else {
        match parse_cell_at(s, i) {
            None => None,
            Some((cell, j)) => if !(i < j <= s.len()) {
                None
            } else {
                match parse_cells_at(s, j) {
                    None => None,
                    Some((rest, k)) => Some((seq![cell] + rest, k)),
                }
            },
        }
    }
}

/// The fitness line at `i`, or nothing.
pub open spec fn parse_fitness_at(s: Seq<u8>, i: int) -> Option<(Option<FitnessScore>, int)> {
    if !(0 <= i && i + 2 <= s.len() && s[i] == TAG_FITNESS && s[i + 1] == SPACE) {
        None
    } else if i + 2 < s.len() && s[i + 2] == MARK_NONE {
        if i + 3 < s.len() && s[i + 3] == NEWLINE {
            Some((None, i + 4))
        } else {
            None
        }
    } else {
        match parse_u64_at(s, i + 2) {
            None => None,
            Some((key, j)) => if !(j < s.len() && s[j] == NEWLINE) {
                None
            } else {
                Some((Some(FitnessScore { key }), j + 1))
            },
        }
    }
}

/// A whole displayed program: instruction lines, then cell lines, then the
/// fitness line, then nothing more.
pub open spec fn parse_program_spec(s: Seq<u8>) -> Option<ProgramV> {
    match parse_instructions_at(s, 0) {
        None => None,
        Some((instructions, i)) => match parse_cells_at(s, i) {
            None => None,
            Some((cells, j)) => match parse_fitness_at(s, j) {
                None => None,
                Some((fitness, k)) => if k == s.len() {
                    Some(ProgramV { instructions, registers: cells, fitness })
                } else {
                    None
                },
            },
        },
    }
}

/// Reads one instruction line; mirrors `parse_instruction_at`.
fn parse_instruction_exec(s: &[u8], i: usize) -> (r: Option<(Instruction, usize)>)
    ensures
        match parse_instruction_at(s@, i as int) {
            Some((ins, j)) => r is Some && r->Some_0.0 == ins && r->Some_0.1 as int == j,
            None => r is None,
        },
        r is Some ==> (i as int) < (r->Some_0.1 as int) && (r->Some_0.1 as int) <= s@.len(),
{
    if i >= s.len() || s.len() - i < 2 || s[i] != TAG_INSTRUCTION || s[i + 1] != SPACE {
        return None;
    }
    let (src, j) = match parse_u64_exec(s, i + 2) {
        Some(pair) => pair,
        None => {
            return None;
        },
    };
    if src > usize::MAX as u64 || j >= s.len() || s[j] != SPACE {
        return None;
    }
    let (tgt, k) = match parse_u64_exec(s, j + 1) {
        Some(pair) => pair,
        None => {
            return None;
        },
    };
    if tgt > usize::MAX as u64 || k >= s.len() || s.len() - k < 3 || s[k] != SPACE || (s[k + 1]
        != MARK_INPUT && s[k + 1] != MARK_REGISTERS) || s[k + 2] != SPACE {
        return None;
    }
    let mode = if s[k + 1] == MARK_INPUT {
        Modes::Input
    } else {
        Modes::Registers
    };
    let (op, m) = match parse_u64_exec(s, k + 3) {
        Some(pair) => pair,
        None => {
            return None;
        },
    };
    if op > usize::MAX as u64 || m >= s.len() || s[m] != NEWLINE {
        return None;
    }
    Some(
        (
            Instruction {
                source_index: src as usize,
                target_index: tgt as usize,
                mode,
                operation: op as usize,
            },
            m + 1,
        ),
    )
}

/// Reads every leading instruction line; mirrors `parse_instructions_at`.
fn parse_instructions_exec(s: &[u8], i: usize) -> (r: Option<(Vec<Instruction>, usize)>)
    requires
        i <= s@.len(),
    ensures
        match parse_instructions_at(s@, i as int) {
            Some((l, j)) => r is Some && r->Some_0.0@ == l && r->Some_0.1 as int == j,
            None => r is None,
        },
        r is Some ==> i as int <= r->Some_0.1 as int <= s@.len(),
    decreases s@.len() - i,
{
    if i >= s.len() || s[i] != TAG_INSTRUCTION {
        let empty_list: Vec<Instruction> = Vec::new();
        proof {
            assert(empty_list@ =~= Seq::<Instruction>::empty());
        }
        return Some((empty_list, i));
    }
    let (ins, j) = match parse_instruction_exec(s, i) {
        Some(pair) => pair,
        None => {
            return None;
        },
    };
    let (mut rest, k) = match parse_instructions_exec(s, j) {
        Some(pair) => pair,
        None => {
            return None;
        },
    };
    let ghost rest_before = rest@;
    rest.insert(0, ins);
    proof {
        assert(rest@ =~= seq![ins] + rest_before);
    }
    Some((rest, k))
}

/// Reads one register cell line; mirrors `parse_cell_at`.
fn parse_cell_exec(s: &[u8], i: usize) -> (r: Option<(RegisterValue, usize)>)
    ensures
        match parse_cell_at(s@, i as int) {
            Some((c, j)) => r is Some && r->Some_0.0 == c && r->Some_0.1 as int == j,
            None => r is None,
        },
        r is Some ==> (i as int) < (r->Some_0.1 as int) && (r->Some_0.1 as int) <= s@.len(),
{
    if i >= s.len() || s.len() - i < 2 || s[i] != TAG_CELL || s[i + 1] != SPACE {
        return None;
    }
    let (key, j) = match parse_u64_exec(s, i + 2) {
        Some(pair) => pair,
        None => {
            return None;
        },
    };
    if j >= s.len() || s[j] != NEWLINE {
        return None;
    }
    Some((RegisterValue { key }, j + 1))
}

/// Reads every leading register cell line; mirrors `parse_cells_at`.
fn parse_cells_exec(s: &[u8], i: usize) -> (r: Option<(Vec<RegisterValue>, usize)>)
    requires
        i <= s@.len(),
    ensures
        match parse_cells_at(s@, i as int) {
            Some((cs, j)) => r is Some && r->Some_0.0@ == cs && r->Some_0.1 as int == j,
            None => r is None,
        },
        r is Some ==> i as int <= r->Some_0.1 as int <= s@.len(),
    decreases s@.len() - i,
{
    if i >= s.len() || s[i] != TAG_CELL {
        let empty_list: Vec<RegisterValue> = Vec::new();
        proof {
            assert(empty_list@ =~= Seq::<RegisterValue>::empty());
        }
        return Some((empty_list, i));
    }
    let (cell, j) = match parse_cell_exec(s, i) {
        Some(pair) => pair,
        None => {
            return None;
        },
    };
    let (mut rest, k) = match parse_cells_exec(s, j) {
        Some(pair) => pair,
        None => {
            return None;
        },
    };
    let ghost rest_before = rest@;
    rest.insert(0, cell);
    proof {
        assert(rest@ =~= seq![cell] + rest_before);
    }
    Some((rest, k))
}

/// Reads the fitness line; mirrors `parse_fitness_at`.
fn parse_fitness_exec(s: &[u8], i: usize) -> (r: Option<(Option<FitnessScore>, usize)>)
    ensures
        match parse_fitness_at(s@, i as int) {
            Some((f, j)) => r is Some && r->Some_0.0 == f && r->Some_0.1 as int == j,
            None => r is None,
        },
        r is Some ==> (i as int) < (r->Some_0.1 as int) && (r->Some_0.1 as int) <= s@.len(),
{
    if i >= s.len() || s.len() - i < 2 || s[i] != TAG_FITNESS || s[i + 1] != SPACE {
        return None;
    }
    if s.len() - i > 2 && s[i + 2] == MARK_NONE {
        if s.len() - i > 3 && s[i + 3] == NEWLINE {
            return Some((None, i + 4));
        }
        return None;
    }
    let (key, j) = match parse_u64_exec(s, i + 2) {
        Some(pair) => pair,
        None => {
            return None;
        },
    };
    if j >= s.len() || s[j] != NEWLINE {
        return None;
    }
    Some((Some(FitnessScore { key }), j + 1))
}

/// Parses a displayed structured form back into a program: instruction
/// lines, cell lines, the fitness line, and nothing more.
pub fn parse_program(text: &[u8]) -> (r: Option<Program>)
    ensures
        match parse_program_spec(text@) {
            Some(pv) => r is Some && r->Some_0@ == pv,
            None => r is None,
        },
{
    let (instructions, i) = match parse_instructions_exec(text, 0) {
        Some(pair) => pair,
        None => {
            return None;
        },
    };
    let (cells, j) = match parse_cells_exec(text, i) {
        Some(pair) => pair,
        None => {
            return None;
        },
    };
    let (fitness, k) = match parse_fitness_exec(text, j) {
        Some(pair) => pair,
        None => {
            return None;
        },
    };
    if k != text.len() {
        return None;
    }
    Some(Program { instructions, registers: Registers::from(cells), fitness })
}

proof fn lemma_render_instructions_push(l: Seq<Instruction>, x: Instruction)
    ensures
        render_instructions(l.push(x)) == render_instructions(l) + render_instruction(x),
    decreases l.len(),
{
    if l.len() == 0 {
        assert(l.push(x)[0] == x);
        assert(l.push(x).drop_first() =~= Seq::<Instruction>::empty());
        assert(render_instructions(l.push(x)) =~= render_instructions(l) + render_instruction(x))
            by {
            reveal_with_fuel(render_instructions, 3);
        };
    } else {
        assert(l.push(x)[0] == l[0]);
        assert(l.push(x).drop_first() =~= l.drop_first().push(x));
        lemma_render_instructions_push(l.drop_first(), x);
        assert(render_instructions(l.push(x)) =~= render_instructions(l) + render_instruction(x));
    }
}

proof fn lemma_render_cells_push(cs: Seq<RegisterValue>, x: RegisterValue)
    ensures
        render_cells(cs.push(x)) == render_cells(cs) + render_cell(x),
    decreases cs.len(),
{
    if cs.len() == 0 {
        assert(cs.push(x)[0] == x);
        assert(cs.push(x).drop_first() =~= Seq::<RegisterValue>::empty());
        assert(render_cells(cs.push(x)) =~= render_cells(cs) + render_cell(x)) by {
            reveal_with_fuel(render_cells, 3);
        };
    } else {
        assert(cs.push(x)[0] == cs[0]);
        assert(cs.push(x).drop_first() =~= cs.drop_first().push(x));
        lemma_render_cells_push(cs.drop_first(), x);
        assert(render_cells(cs.push(x)) =~= render_cells(cs) + render_cell(x));
    }
}

/// Appends one displayed instruction line.
fn push_instruction_line(out: &mut Vec<u8>, ins: Instruction)
    ensures
        final(out)@ == old(out)@ + render_instruction(ins),
{
    out.push(TAG_INSTRUCTION);
    out.push(SPACE);
    push_u64(out, ins.source_index as u64);
    out.push(SPACE);
    push_u64(out, ins.target_index as u64);
    out.push(SPACE);
    out.push(
        match ins.mode {
            Modes::Input => MARK_INPUT,
            Modes::Registers => MARK_REGISTERS,
        },
    );
    out.push(SPACE);
    push_u64(out, ins.operation as u64);
    out.push(NEWLINE);
    proof {
        assert(final(out)@ =~= old(out)@ + render_instruction(ins));
    }
}

/// Appends one displayed register cell line.
fn push_cell_line(out: &mut Vec<u8>, cell: RegisterValue)
    ensures
        final(out)@ == old(out)@ + render_cell(cell),
{
    out.push(TAG_CELL);
    out.push(SPACE);
    push_u64(out, cell.key);
    out.push(NEWLINE);
    proof {
        assert(final(out)@ =~= old(out)@ + render_cell(cell));
    }
}

impl Program {
    /// The displayed structured form of the program: a self-describing text
    /// document that `parse_program` reconstructs the program from exactly.
    pub fn to_text(&self) -> (r: Vec<u8>)
        ensures
            r@ == render_program(self@),
    {
        let mut out: Vec<u8> = Vec::new();
        let n_ins = self.instructions.len();
        let mut i: usize = 0;
        while i < n_ins
            invariant
                i <= n_ins,
                n_ins == self.instructions@.len(),
                out@ == render_instructions(self.instructions@.take(i as int)),
            decreases n_ins - i,
        {
            let ins = self.instructions[i];
            push_instruction_line(&mut out, ins);
            proof {
                lemma_render_instructions_push(self.instructions@.take(i as int), ins);
                assert(self.instructions@.take(i as int).push(ins) =~= self.instructions@.take(
                    i as int + 1,
                ));
            }
            i = i + 1;
        }
        proof {
            assert(self.instructions@.take(n_ins as int) =~= self.instructions@);
        }
        let n_cells = self.registers.0.len();
        let mut j: usize = 0;
        while j < n_cells
            invariant
                j <= n_cells,
                n_cells == self.registers@.len(),
                out@ == render_instructions(self.instructions@) + render_cells(
                    self.registers@.take(j as int),
                ),
            decreases n_cells - j,
        {
            let cell = self.registers.0[j];
            push_cell_line(&mut out, cell);
            proof {
                lemma_render_cells_push(self.registers@.take(j as int), cell);
                assert(self.registers@.take(j as int).push(cell) =~= self.registers@.take(
                    j as int + 1,
                ));
            }
            j = j + 1;
        }
        proof {
            assert(self.registers@.take(n_cells as int) =~= self.registers@);
        }
        out.push(TAG_FITNESS);
        out.push(SPACE);
        match &self.fitness {
            Some(score) => {
                push_u64(&mut out, score.key);
                out.push(NEWLINE);
            },
            None => {
                out.push(MARK_NONE);
                out.push(NEWLINE);
            },
        }
        proof {
            assert(out@ =~= render_program(self@));
        }
        out
    }
}

proof fn lemma_parse_instruction_render(s: Seq<u8>, i: int, ins: Instruction)
    requires
        0 <= i,
        i + render_instruction(ins).len() <= s.len(),
        s.subrange(i, i + render_instruction(ins).len()) == render_instruction(ins),
    ensures
        parse_instruction_at(s, i) == Some((ins, i + render_instruction(ins).len())),
{
    let r = render_instruction(ins);
    let a = dec_digits(ins.source_index as nat);
    let b = dec_digits(ins.target_index as nat);
    let c = dec_digits(ins.operation as nat);
    let la = a.len() as int;
    let lb = b.len() as int;
    let lc = c.len() as int;
    lemma_dec_digits_shape(ins.source_index as nat);
    lemma_dec_digits_shape(ins.target_index as nat);
    lemma_dec_digits_shape(ins.operation as nat);
    assert(r.len() == la + lb + lc + 7);
    assert(forall|k: int| 0 <= k < r.len() ==> s[i + k] == r[k]) by {
        assert(forall|k: int| 0 <= k < r.len() ==> #[trigger] s.subrange(i, i + r.len())[k] == s[i + k]);
    };
    assert(r[0] == TAG_INSTRUCTION);
    assert(r[1] == SPACE);
    assert(forall|k: int| 0 <= k < la ==> r[2 + k] == a[k]);
    assert(r[2 + la] == SPACE);
    assert(forall|k: int| 0 <= k < lb ==> r[3 + la + k] == b[k]);
    assert(r[3 + la + lb] == SPACE);
    assert(r[4 + la + lb] == mode_byte(ins.mode));
    assert(r[5 + la + lb] == SPACE);
    assert(forall|k: int| 0 <= k < lc ==> r[6 + la + lb + k] == c[k]);
    assert(r[6 + la + lb + lc] == NEWLINE);
    assert(s[i] == TAG_INSTRUCTION);
    assert(s[i + 1] == SPACE);
    assert(s.subrange(i + 2, i + 2 + la) =~= a);
    assert(s[i + 2 + la] == SPACE);
    lemma_parse_u64_render(s, i + 2, ins.source_index as nat);
    let j = i + 2 + la;
    assert(s.subrange(j + 1, j + 1 + lb) =~= b);
    assert(s[j + 1 + lb] == SPACE);
    lemma_parse_u64_render(s, j + 1, ins.target_index as nat);
    let k = j + 1 + lb;
    assert(s[k] == SPACE);
    assert(s[k + 1] == mode_byte(ins.mode));
    assert(s[k + 2] == SPACE);
    assert(s.subrange(k + 3, k + 3 + lc) =~= c);
    assert(s[k + 3 + lc] == NEWLINE);
    lemma_parse_u64_render(s, k + 3, ins.operation as nat);
    let m = k + 3 + lc;
    assert(s[m] == NEWLINE);
    assert(m + 1 == i + r.len());
    if ins.mode is Input {
        assert(s[k + 1] == MARK_INPUT);
    } else {
        assert(s[k + 1] == MARK_REGISTERS);
        assert(s[k + 1] != MARK_INPUT);
    }
}

proof fn lemma_parse_instructions_render(s: Seq<u8>, i: int, l: Seq<Instruction>)
    requires
        0 <= i,
        i + render_instructions(l).len() <= s.len(),
        s.subrange(i, i + render_instructions(l).len()) == render_instructions(l),
        i + render_instructions(l).len() == s.len() || s[i + render_instructions(l).len()]
            != TAG_INSTRUCTION,
    ensures
        parse_instructions_at(s, i) == Some((l, i + render_instructions(l).len())),
    decreases l.len(),
{
    let rl = render_instructions(l);
    if l.len() == 0 {
        assert(rl.len() == 0);
        assert(l =~= Seq::<Instruction>::empty());
    } else {
        let r0 = render_instruction(l[0]);
        let rest = render_instructions(l.drop_first());
        assert(rl == r0 + rest);
        lemma_dec_digits_shape(l[0].source_index as nat);
        lemma_dec_digits_shape(l[0].target_index as nat);
        lemma_dec_digits_shape(l[0].operation as nat);
        assert(r0.len() >= 7);
        assert(forall|k: int| 0 <= k < rl.len() ==> s[i + k] == rl[k]) by {
            assert(forall|k: int|
                0 <= k < rl.len() ==> #[trigger] s.subrange(i, i + rl.len())[k] == s[i + k]);
        };
        assert(s[i + 0] == rl[0]);
        assert(r0[0] == TAG_INSTRUCTION);
        assert(s[i] == TAG_INSTRUCTION);
        assert forall|k: int| 0 <= k < r0.len() implies #[trigger] s.subrange(
            i,
            i + r0.len(),
        )[k] == r0[k] by {
            assert(s[i + k] == rl[k]);
        };
        assert(s.subrange(i, i + r0.len()) =~= r0);
        lemma_parse_instruction_render(s, i, l[0]);
        let j = i + r0.len();
        assert forall|k: int| 0 <= k < rest.len() implies #[trigger] s.subrange(
            j,
            j + rest.len(),
        )[k] == rest[k] by {
            assert(s[i + (r0.len() + k)] == rl[r0.len() + k]);
        };
        assert(s.subrange(j, j + rest.len()) =~= rest);
        lemma_parse_instructions_render(s, j, l.drop_first());
        assert(seq![l[0]] + l.drop_first() =~= l);
    }
}

proof fn lemma_parse_cell_render(s: Seq<u8>, i: int, c: RegisterValue)
    requires
        0 <= i,
        i + render_cell(c).len() <= s.len(),
        s.subrange(i, i + render_cell(c).len()) == render_cell(c),
    ensures
        parse_cell_at(s, i) == Some((c, i + render_cell(c).len())),
{
    let r = render_cell(c);
    let a = dec_digits(c.key as nat);
    let la = a.len() as int;
    lemma_dec_digits_shape(c.key as nat);
    assert(r.len() == la + 3);
    assert(forall|k: int| 0 <= k < r.len() ==> s[i + k] == r[k]) by {
        assert(forall|k: int| 0 <= k < r.len() ==> #[trigger] s.subrange(i, i + r.len())[k] == s[i + k]);
    };
    assert(r[0] == TAG_CELL);
    assert(r[1] == SPACE);
    assert(forall|k: int| 0 <= k < la ==> r[2 + k] == a[k]);
    assert(r[2 + la] == NEWLINE);
    assert(s.subrange(i + 2, i + 2 + la) =~= a);
    assert(s[i + 2 + la] == NEWLINE);
    lemma_parse_u64_render(s, i + 2, c.key as nat);
}

proof fn lemma_parse_cells_render(s: Seq<u8>, i: int, cs: Seq<RegisterValue>)
    requires
        0 <= i,
        i + render_cells(cs).len() <= s.len(),
        s.subrange(i, i + render_cells(cs).len()) == render_cells(cs),
        i + render_cells(cs).len() == s.len() || s[i + render_cells(cs).len()] != TAG_CELL,
    ensures
        parse_cells_at(s, i) == Some((cs, i + render_cells(cs).len())),
    decreases cs.len(),
{
    let rl = render_cells(cs);
    if cs.len() == 0 {
        assert(rl.len() == 0);
        assert(cs =~= Seq::<RegisterValue>::empty());
    } else {
        let r0 = render_cell(cs[0]);
        let rest = render_cells(cs.drop_first());
        assert(rl == r0 + rest);
        lemma_dec_digits_shape(cs[0].key as nat);
        assert(r0.len() >= 3);
        assert(forall|k: int| 0 <= k < rl.len() ==> s[i + k] == rl[k]) by {
            assert(forall|k: int|
                0 <= k < rl.len() ==> #[trigger] s.subrange(i, i + rl.len())[k] == s[i + k]);
        };
        assert(s[i + 0] == rl[0]);
        assert(r0[0] == TAG_CELL);
        assert(s[i] == TAG_CELL);
        assert forall|k: int| 0 <= k < r0.len() implies #[trigger] s.subrange(
            i,
            i + r0.len(),
        )[k] == r0[k] by {
            assert(s[i + k] == rl[k]);
        };
        assert(s.subrange(i, i + r0.len()) =~= r0);
        lemma_parse_cell_render(s, i, cs[0]);
        let j = i + r0.len();
        assert forall|k: int| 0 <= k < rest.len() implies #[trigger] s.subrange(
            j,
            j + rest.len(),
        )[k] == rest[k] by {
            assert(s[i + (r0.len() + k)] == rl[r0.len() + k]);
        };
        assert(s.subrange(j, j + rest.len()) =~= rest);
        lemma_parse_cells_render(s, j, cs.drop_first());
        assert(seq![cs[0]] + cs.drop_first() =~= cs);
    }
}

proof fn lemma_parse_fitness_render(s: Seq<u8>, i: int, f: Option<FitnessScore>)
    requires
        0 <= i,
        i + render_fitness(f).len() <= s.len(),
        s.subrange(i, i + render_fitness(f).len()) == render_fitness(f),
    ensures
        parse_fitness_at(s, i) == Some((f, i + render_fitness(f).len())),
{
    let r = render_fitness(f);
    assert(forall|k: int| 0 <= k < r.len() ==> s[i + k] == r[k]) by {
        assert(forall|k: int| 0 <= k < r.len() ==> #[trigger] s.subrange(i, i + r.len())[k] == s[i + k]);
    };
    match f {
        None => {
            assert(r.len() == 4);
            assert(s[i] == TAG_FITNESS);
            assert(s[i + 1] == SPACE);
            assert(s[i + 2] == MARK_NONE);
            assert(s[i + 3] == NEWLINE);
        },
        Some(score) => {
            let a = dec_digits(score.key as nat);
            let la = a.len() as int;
            lemma_dec_digits_shape(score.key as nat);
            assert(r.len() == la + 3);
            assert(r[0] == TAG_FITNESS);
            assert(r[1] == SPACE);
            assert(forall|k: int| 0 <= k < la ==> r[2 + k] == a[k]);
            assert(r[2 + la] == NEWLINE);
            assert(s[i + 2] == a[0]);
            assert(is_digit(a[0]));
            assert(s[i + 2] != MARK_NONE);
            assert(s.subrange(i + 2, i + 2 + la) =~= a);
            assert(s[i + 2 + la] == NEWLINE);
            lemma_parse_u64_render(s, i + 2, score.key as nat);
        },
    }
}

/// Round trip: the displayed structured form of any program, parsed back,
/// reconstructs the program exactly — the same instruction sequence, the
/// same register cells, and the same cached fitness, if any.
pub proof fn lemma_display_parse_round_trip(p: ProgramV)
    ensures
        parse_program_spec(render_program(p)) == Some(p),
{
    let s = render_program(p);
    let ri = render_instructions(p.instructions);
    let rc = render_cells(p.registers);
    let rf = render_fitness(p.fitness);
    assert(s == ri + rc + rf);
    assert(rf[0] == TAG_FITNESS);
    assert(rf.len() >= 4) by {
        if p.fitness is Some {
            lemma_dec_digits_shape(p.fitness->Some_0.key as nat);
        }
    };
    assert(s.subrange(0, ri.len() as int) =~= ri);
    assert(ri.len() == s.len() || s[ri.len() as int] != TAG_INSTRUCTION) by {
        if p.registers.len() > 0 {
            assert(rc == render_cell(p.registers[0]) + render_cells(p.registers.drop_first()));
            assert(rc[0] == TAG_CELL);
            assert(s[ri.len() as int] == rc[0]);
        } else {
            assert(rc.len() == 0);
            assert(s[ri.len() as int] == rf[0]);
        }
    };
    lemma_parse_instructions_render(s, 0, p.instructions);
    let i = ri.len() as int;
    assert(s.subrange(i, i + rc.len()) =~= rc);
    assert(i + rc.len() == s.len() || s[i + rc.len()] != TAG_CELL) by {
        assert(s[i + rc.len()] == rf[0]);
    };
    lemma_parse_cells_render(s, i, p.registers);
    let j = i + rc.len() as int;
    assert(s.subrange(j, j + rf.len()) =~= rf);
    assert(j + rf.len() == s.len());
    lemma_parse_fitness_render(s, j, p.fitness);
    assert(parse_program_spec(s) == Some(
        ProgramV { instructions: p.instructions, registers: p.registers, fitness: p.fitness },
    ));
    assert(ProgramV {
        instructions: p.instructions,
        registers: p.registers,
        fitness: p.fitness,
    } == p);
}

} // verus!
