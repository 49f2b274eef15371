//! The model of the processor with labels and jumps in both directions,
//! for code that may repeat itself: a program counter runs over the code,
//! and a count of steps bounds the run.

use crate::labels::distinct_labels;
use crate::machine::{holds, run, step, Machine, Run};
use crate::types::{Reg, SpecInstr, SpecVal};
use crate::utils::error_target;
use vstd::prelude::*;

verus! {

/// The label that a jump names, if the instruction is a jump: any of the
/// conditional ones, or `jmp`.
pub open spec fn jump_target(i: SpecInstr) -> Option<SpecVal> {
    match i {
        SpecInstr::Jmp(t)
        | SpecInstr::Je(t)
        | SpecInstr::Jne(t)
        | SpecInstr::Jl(t)
        | SpecInstr::Jle(t)
        | SpecInstr::Jg(t)
        | SpecInstr::Jge(t)
        | SpecInstr::Jo(t) => Some(t),
        _ => None,
    }
}

/// Whether a jump is taken: `jmp` always, a conditional one where its
/// condition holds.
pub open spec fn taken(i: SpecInstr, m: Machine) -> bool {
    i is Jmp || holds(m, i)
}

/// The index in `code`, from `from` on, of the first definition of the
/// label `t`; the length of `code` where there is none.
pub open spec fn locate(code: Seq<SpecInstr>, t: SpecVal, from: int) -> int
    decreases code.len() - from,
{
    if from < 0 || from >= code.len() {
        code.len() as int
    } else if code[from] == SpecInstr::Label(t) {
        from
    } else {
        locate(code, t, from + 1)
    }
}

/// The state behind a `call` at index `pc`: the index of the instruction
/// behind the call is pushed as the return address.
pub open spec fn called(m: Machine, pc: int) -> Machine {
    Machine {
        regs: m.regs.insert(Reg::RSP, (m.regs[Reg::RSP] - 8) as u64),
        mem: m.mem.insert(m.regs[Reg::RSP] - 8, (pc + 1) as u64),
        ..m
    }
}

/// The state behind a `ret`: the return address is popped.
pub open spec fn returned(m: Machine) -> Machine {
    Machine { regs: m.regs.insert(Reg::RSP, (m.regs[Reg::RSP] + 8) as u64), ..m }
}

/// What `code` does from the instruction at index `pc` on, in at most
/// `fuel` steps. A label does nothing. A jump that is taken goes on at the
/// definition of its label, and one to the error trampoline ends the
/// program with the error code found in `rdx`. A `call` pushes the index
/// behind it and goes on at the definition of its label, and a `ret` goes
/// on at the index that it pops. Any other instruction does its step. The
/// code is done when it runs off its end. It is stuck where the steps run
/// out first, where a label is not defined in it, as those of the runtime
/// are not, and where the stack pointer leaves the range of a word.
pub open spec fn flow(code: Seq<SpecInstr>, pc: int, m: Machine, fuel: nat) -> Run
    decreases fuel,
{
    if pc < 0 || pc > code.len() {
        Run::Stuck
    } else if pc == code.len() {
        Run::Done(m)
    } else if fuel == 0 {
        Run::Stuck
    } else {
        let rest = (fuel - 1) as nat;
        let i = code[pc];
        if i is Label {
            flow(code, pc + 1, m, rest)
        } else if jump_target(i) is Some {
            let t = jump_target(i)->0;
            if !taken(i, m) {
                flow(code, pc + 1, m, rest)
            } else if t == error_target() {
                Run::Failed(m.regs[Reg::RDX])
            } else if locate(code, t, 0) >= code.len() {
                Run::Stuck
            } else {
                flow(code, locate(code, t, 0), m, rest)
            }
        } else if i is Call {
            if locate(code, i->Call_0, 0) >= code.len() || m.regs[Reg::RSP] < 8 || pc + 1
                > u64::MAX {
                Run::Stuck
            } else {
                flow(code, locate(code, i->Call_0, 0), called(m, pc), rest)
            }
        } else if i is Ret {
            if m.regs[Reg::RSP] + 8 > u64::MAX {
                Run::Stuck
            } else {
                flow(code, m.mem[m.regs[Reg::RSP] as int] as int, returned(m), rest)
            }
        } else {
            match step(i, m) {
                Run::Done(next) => flow(code, pc + 1, next, rest),
                other => other,
            }
        }
    }
}

/// Whether `code`, started at index `p` in the state `m`, comes to index
/// `q` in the state `end` after `n` steps, whatever it does from there.
pub open spec fn reaches(
    code: Seq<SpecInstr>,
    p: int,
    m: Machine,
    q: int,
    end: Machine,
    n: nat,
) -> bool {
    forall|f: nat| f >= n ==> #[trigger] flow(code, p, m, f) == flow(code, q, end, (f - n) as nat)
}

/// Whether `code`, started at index `p` in the state `m`, fails with the
/// error code `e` within `n` steps.
pub open spec fn fails(code: Seq<SpecInstr>, p: int, m: Machine, e: u64, n: nat) -> bool {
    forall|f: nat| f >= n ==> #[trigger] flow(code, p, m, f) == Run::Failed(e)
}

/// A run in two stretches.
pub proof fn reaches_on(
    code: Seq<SpecInstr>,
    p: int,
    m: Machine,
    q: int,
    mid: Machine,
    n1: nat,
    r: int,
    end: Machine,
    n2: nat,
)
    requires
        reaches(code, p, m, q, mid, n1),
        reaches(code, q, mid, r, end, n2),
    ensures
        reaches(code, p, m, r, end, n1 + n2),
{
    assert forall|f: nat| f >= n1 + n2 implies #[trigger] flow(code, p, m, f) == flow(
        code,
        r,
        end,
        (f - (n1 + n2)) as nat,
    ) by {
        assert(flow(code, p, m, f) == flow(code, q, mid, (f - n1) as nat));
        assert(flow(code, q, mid, (f - n1) as nat) == flow(
            code,
            r,
            end,
            ((f - n1) as nat - n2) as nat,
        ));
    }
}

/// A run that fails in its second stretch.
pub proof fn fails_on(
    code: Seq<SpecInstr>,
    p: int,
    m: Machine,
    q: int,
    mid: Machine,
    n1: nat,
    e: u64,
    n2: nat,
)
    requires
        reaches(code, p, m, q, mid, n1),
        fails(code, q, mid, e, n2),
    ensures
        fails(code, p, m, e, n1 + n2),
{
    assert forall|f: nat| f >= n1 + n2 implies #[trigger] flow(code, p, m, f) == Run::Failed(
        e,
    ) by {
        assert(flow(code, p, m, f) == flow(code, q, mid, (f - n1) as nat));
    }
}

/// Where no label is defined twice, each is found where it is defined.
pub proof fn label_is_located(code: Seq<SpecInstr>, t: SpecVal, at: int)
    requires
        distinct_labels(code),
        0 <= at < code.len(),
        code[at] == SpecInstr::Label(t),
    ensures
        locate(code, t, 0) == at,
{
    lemma_locate(code, t, 0, at);
}

/// The same from any index up to the definition.
proof fn lemma_locate(code: Seq<SpecInstr>, t: SpecVal, from: int, at: int)
    requires
        distinct_labels(code),
        0 <= from <= at < code.len(),
        code[at] == SpecInstr::Label(t),
    ensures
        locate(code, t, from) == at,
    decreases at - from,
{
    if from < at {
        if code[from] == SpecInstr::Label(t) {
            assert(code[from] is Label && code[at] is Label);
        }
        lemma_locate(code, t, from + 1, at);
    }
}

/// A label takes one step and does nothing.
pub proof fn label_is_passed(code: Seq<SpecInstr>, p: int, m: Machine)
    requires
        0 <= p < code.len(),
        code[p] is Label,
    ensures
        reaches(code, p, m, p + 1, m, 1),
{
}

/// A jump that is taken takes one step to the definition of its label.
pub proof fn jump_is_taken(code: Seq<SpecInstr>, p: int, m: Machine, t: SpecVal, at: int)
    requires
        distinct_labels(code),
        0 <= p < code.len(),
        jump_target(code[p]) == Some(t),
        taken(code[p], m),
        t != error_target(),
        0 <= at < code.len(),
        code[at] == SpecInstr::Label(t),
    ensures
        reaches(code, p, m, at, m, 1),
{
    label_is_located(code, t, at);
}

/// A jump that is not taken takes one step to the next instruction.
pub proof fn jump_is_passed(code: Seq<SpecInstr>, p: int, m: Machine)
    requires
        0 <= p < code.len(),
        jump_target(code[p]) is Some,
        !taken(code[p], m),
    ensures
        reaches(code, p, m, p + 1, m, 1),
{
}

/// A `call` takes one step to the definition of its label, and pushes the
/// index behind it.
pub proof fn call_is_made(code: Seq<SpecInstr>, p: int, m: Machine, t: SpecVal, at: int)
    requires
        distinct_labels(code),
        0 <= p < code.len(),
        code[p] == SpecInstr::Call(t),
        0 <= at < code.len(),
        code[at] == SpecInstr::Label(t),
        m.regs[Reg::RSP] >= 8,
        p + 1 <= u64::MAX,
    ensures
        reaches(code, p, m, at, called(m, p), 1),
{
    label_is_located(code, t, at);
}

/// A `ret` takes one step to the index that it pops.
pub proof fn return_is_made(code: Seq<SpecInstr>, p: int, m: Machine)
    requires
        0 <= p < code.len(),
        code[p] is Ret,
        m.regs[Reg::RSP] + 8 <= u64::MAX,
    ensures
        reaches(code, p, m, m.mem[m.regs[Reg::RSP] as int] as int, returned(m), 1),
{
}

/// Where code that runs straight through stands in a longer piece of
/// code, the longer piece does there what the code does, in as many steps
/// as the code has instructions at most.
pub proof fn straight_code_flows(code: Seq<SpecInstr>, p: int, part: Seq<SpecInstr>, m: Machine)
    requires
        0 <= p,
        p + part.len() <= code.len(),
        code.subrange(p, p + part.len()) == part,
    ensures
        run(part, m) matches Run::Done(end) ==> reaches(code, p, m, p + part.len(), end, part.len()),
        run(part, m) matches Run::Failed(e) ==> fails(code, p, m, e, part.len()),
    decreases part.len(),
{
    if part.len() > 0 {
        assert(code[p] == part[0]);
        let rest = part.drop_first();
        assert(code.subrange(p + 1, p + 1 + rest.len()) =~= rest);
        match step(part[0], m) {
            Run::Done(next) => {
                straight_code_flows(code, p + 1, rest, next);
                match run(rest, next) {
                    Run::Done(end) => {
                        assert forall|f: nat| f >= part.len() implies #[trigger] flow(
                            code,
                            p,
                            m,
                            f,
                        ) == flow(code, p + part.len(), end, (f - part.len()) as nat) by {
                            assert(flow(code, p, m, f) == flow(code, p + 1, next, (f - 1) as nat));
                        }
                    },
                    Run::Failed(e) => {
                        assert forall|f: nat| f >= part.len() implies #[trigger] flow(
                            code,
                            p,
                            m,
                            f,
                        ) == Run::Failed(e) by {
                            assert(flow(code, p, m, f) == flow(code, p + 1, next, (f - 1) as nat));
                        }
                    },
                    _ => {},
                }
            },
            Run::Failed(e) => {
                assert forall|f: nat| f >= part.len() implies #[trigger] flow(code, p, m, f)
                    == Run::Failed(e) by {}
            },
            _ => {},
        }
    }
}

} // verus!
