//! A model of the processor, for code that runs straight through: what
//! each instruction does to the registers, the memory and the flags, and
//! when a conditional jump leaves for the error trampoline.
//!
//! The model covers the instructions that work on values. Labels, jumps to
//! anywhere but the trampoline, calls and the stack instructions are left
//! out: code that holds one of them gets stuck here.

use crate::runtime::signed;
use crate::types::{Reg, SpecInstr, SpecVal};
use crate::utils::error_target;
use vstd::prelude::*;

verus! {

/// The state of the processor.
pub struct Machine {
    /// The word in each register.
    pub regs: Map<Reg, u64>,
    /// The word at each address.
    pub mem: Map<int, u64>,
    /// The zero flag: the last result was zero.
    pub zero: bool,
    /// The sign flag: the last result was negative.
    pub sign: bool,
    /// The overflow flag: the last result did not fit a signed word.
    pub overflow: bool,
}

impl Machine {
    /// Whether the state has a word in every register and at every
    /// address.
    pub open spec fn whole(self) -> bool {
        &&& forall|r: Reg| self.regs.contains_key(r)
        &&& forall|a: int| self.mem.contains_key(a)
    }
}

/// Where a piece of code leaves the processor.
pub enum Run {
    /// The code ran to its end.
    Done(Machine),
    /// The code jumped to the error trampoline, which ends the program
    /// with the error code found in `rdx`.
    Failed(u64),
    /// The code held an instruction that the model leaves out.
    Stuck,
}

/// The unsigned word of an integer, whatever its size: the integer modulo
/// the size of a word.
pub open spec fn wrapped(i: int) -> u64 {
    (i % 0x1_0000_0000_0000_0000) as u64
}

/// Whether an integer fits a signed word.
pub open spec fn fits(i: int) -> bool {
    -0x8000_0000_0000_0000 <= i < 0x8000_0000_0000_0000
}

/// The address that a memory operand names.
pub open spec fn address(m: Machine, r: Reg, offset: int) -> int {
    m.regs[r] + offset
}

/// The word that an operand holds.
pub open spec fn read(m: Machine, v: SpecVal) -> u64 {
    match v {
        SpecVal::Reg(r) => m.regs[r],
        SpecVal::Imm(i) => wrapped(i),
        SpecVal::MemPtr(r, offset) => m.mem[address(m, r, offset)],
        SpecVal::Label(_) => 0,
    }
}

/// The state with `x` written to the operand `v`.
pub open spec fn store(m: Machine, v: SpecVal, x: u64) -> Machine {
    match v {
        SpecVal::Reg(r) => Machine { regs: m.regs.insert(r, x), ..m },
        SpecVal::MemPtr(r, offset) => Machine { mem: m.mem.insert(address(m, r, offset), x), ..m },
        _ => m,
    }
}

/// The state with the flags of the signed result `i`.
pub open spec fn flagged(m: Machine, i: int) -> Machine {
    Machine {
        zero: wrapped(i) == 0,
        sign: signed(wrapped(i)) < 0,
        overflow: !fits(i),
        ..m
    }
}

/// The state after arithmetic with the signed result `i` on the operand
/// `dst`: the result is written, cut to a word, and the flags are set.
pub open spec fn computed(m: Machine, dst: SpecVal, i: int) -> Machine {
    flagged(store(m, dst, wrapped(i)), i)
}

/// The state with the flags of the bitwise result `x`.
pub open spec fn tested(m: Machine, x: u64) -> Machine {
    Machine { zero: x == 0, sign: signed(x) < 0, overflow: false, ..m }
}

/// Whether the condition of a `cmov` or a conditional jump holds.
pub open spec fn holds(m: Machine, i: SpecInstr) -> bool {
    match i {
        SpecInstr::CMovl(_, _) | SpecInstr::Jl(_) => m.sign != m.overflow,
        SpecInstr::CMovg(_, _) | SpecInstr::Jg(_) => !m.zero && m.sign == m.overflow,
        SpecInstr::CMovle(_, _) | SpecInstr::Jle(_) => m.zero || m.sign != m.overflow,
        SpecInstr::CMovge(_, _) | SpecInstr::Jge(_) => m.sign == m.overflow,
        SpecInstr::CMove(_, _) | SpecInstr::Je(_) => m.zero,
        SpecInstr::Jne(_) => !m.zero,
        SpecInstr::Jo(_) => m.overflow,
        _ => false,
    }
}

/// What one instruction does.
pub open spec fn step(i: SpecInstr, m: Machine) -> Run {
    match i {
        SpecInstr::Mov(d, s) => Run::Done(store(m, d, read(m, s))),
        SpecInstr::Add(d, s) => Run::Done(
            computed(m, d, signed(read(m, d)) + signed(read(m, s))),
        ),
        SpecInstr::Sub(d, s) => Run::Done(
            computed(m, d, signed(read(m, d)) - signed(read(m, s))),
        ),
        SpecInstr::IMul(d, s) => Run::Done(
            computed(m, d, signed(read(m, d)) * signed(read(m, s))),
        ),
        SpecInstr::Sar(d, s) => if read(m, s) == 1 {
            Run::Done(computed(m, d, signed(read(m, d)) / 2))
        } else {
            Run::Stuck
        },
        SpecInstr::Cmp(a, b) => Run::Done(flagged(m, signed(read(m, a)) - signed(read(m, b)))),
        SpecInstr::Test(a, b) => Run::Done(tested(m, read(m, a) & read(m, b))),
        SpecInstr::And(d, s) => Run::Done(
            tested(store(m, d, read(m, d) & read(m, s)), read(m, d) & read(m, s)),
        ),
        SpecInstr::Xor(d, s) => Run::Done(
            tested(store(m, d, read(m, d) ^ read(m, s)), read(m, d) ^ read(m, s)),
        ),
        SpecInstr::CMovl(d, s)
        | SpecInstr::CMovg(d, s)
        | SpecInstr::CMovle(d, s)
        | SpecInstr::CMovge(d, s)
        | SpecInstr::CMove(d, s) => if holds(m, i) {
            Run::Done(store(m, d, read(m, s)))
        } else {
            Run::Done(m)
        },
        SpecInstr::Je(t)
        | SpecInstr::Jne(t)
        | SpecInstr::Jl(t)
        | SpecInstr::Jle(t)
        | SpecInstr::Jg(t)
        | SpecInstr::Jge(t)
        | SpecInstr::Jo(t) => if t != error_target() {
            Run::Stuck
        } else if holds(m, i) {
            Run::Failed(m.regs[Reg::RDX])
        } else {
            Run::Done(m)
        },
        _ => Run::Stuck,
    }
}

/// What a list of instructions does, one after the other.
pub open spec fn run(code: Seq<SpecInstr>, m: Machine) -> Run
    decreases code.len(),
{
    if code.len() == 0 {
        Run::Done(m)
    } else {
        match step(code[0], m) {
            Run::Done(next) => run(code.drop_first(), next),
            other => other,
        }
    }
}

/// Code in two parts does what the second part does where the first one
/// ends.
pub proof fn run_in_two_parts(a: Seq<SpecInstr>, b: Seq<SpecInstr>, m: Machine)
    ensures
        run(a + b, m) == (match run(a, m) {
            Run::Done(next) => run(b, next),
            other => other,
        }),
    decreases a.len(),
{
    if a.len() == 0 {
        assert(a + b =~= b);
    } else {
        assert((a + b)[0] == a[0]);
        assert((a + b).drop_first() =~= a.drop_first() + b);
        match step(a[0], m) {
            Run::Done(next) => {
                run_in_two_parts(a.drop_first(), b, next);
            },
            _ => {},
        }
    }
}

/// One instruction does its step.
pub proof fn run_of_one(i: SpecInstr, m: Machine)
    ensures
        run(seq![i], m) == step(i, m),
{
    let code = seq![i];
    assert(code[0] == i);
    assert(code.drop_first() =~= Seq::<SpecInstr>::empty());
    match step(i, m) {
        Run::Done(next) => {
            assert(run(Seq::<SpecInstr>::empty(), next) == Run::Done(next));
        },
        _ => {},
    }
}

} // verus!
