//! The proof that the code of an expression does what the evaluation of
//! the expression says, loops, assignments and calls included.
//!
//! The code of the expression stands in a longer piece of code, in which no
//! label is defined twice and the code of each function stands. The
//! machine holds each variable in the stack word that the compiler placed
//! it in, and has room on its stack for the calls. Then the machine comes
//! to the end of the code of the expression with its value in `rax`; or,
//! through a `break`, to the exit label of the loop around it; or it fails
//! with the code of the error. Whatever way, it holds the variables as the
//! evaluation left them, and has changed no word above its free stack
//! words but theirs.

use crate::behaviour::{argument_is_loaded, arithmetic_is_computed_or_refused,
    comparison_is_computed_or_refused, equality_is_computed_or_refused, immediate_is_loaded,
    kind_is_told, step_by_one_is_computed_or_refused};
use crate::error::SpecCompileError;
use crate::evaluation::{answered, binary_meaning, eval, eval_arguments, eval_block, eval_let,
    found, passed, unary_meaning, unshadow, Ended, Outcome, Passed};
use crate::flow::{call_is_made, called, fails, fails_on, jump_is_passed, jump_is_taken,
    label_is_passed, reaches, reaches_on, return_is_made, returned, straight_code_flows};
use crate::labels::distinct_labels;
use crate::lowering::{binary_code, bool_value, call_code, call_pad, loop_exit, lower,
    lower_arguments, lower_bindings, lower_block, lower_function, parameters, prepend, slot_loc,
    unary_code, Lowered, MAX_SI};
use crate::machine::{computed, flagged, read, run, run_of_one, step, store, wrapped, Machine,
    Run};
use crate::runtime::signed;
use crate::text::decimal_text;
use crate::types::{LocPtr, Op1Type, Op2Type, Reg, Scope, SpecExpr, SpecFunction, SpecInstr};
use crate::utils::{error_target, imm, label, reg, slot};
use vstd::prelude::*;

verus! {

/// Whether a variable of the environment lives at the address `a`, where
/// the stack pointer is `rsp`.
pub open spec fn located(env: Map<Seq<char>, LocPtr>, rsp: int, a: int) -> bool {
    exists|name: Seq<char>| #[trigger]
        env.contains_key(name) && env[name] is LStack && a == rsp + env[name]->LStack_0
}

/// Whether the machine holds the variables as the compiler placed them:
/// each variable of the environment lives in a stack word of its own
/// above the free ones, and that word holds its value.
pub open spec fn placed(c: Scope, m: Machine, vars: Map<Seq<char>, u64>) -> bool {
    &&& forall|name: Seq<char>| #[trigger]
        c.env.contains_key(name) ==> {
            &&& vars.contains_key(name)
            &&& c.env[name] is LStack
            &&& c.env[name]->LStack_0 > -(c.si * 8)
            &&& m.mem[m.regs[Reg::RSP] + c.env[name]->LStack_0] == vars[name]
        }
    &&& forall|a: Seq<char>, b: Seq<char>|
        c.env.contains_key(a) && c.env.contains_key(b) && a != b ==> #[trigger] c.env[a]
            != #[trigger] c.env[b]
}

/// Whether the state `end` has the stack pointer and the input of the
/// state `m`, and its memory above the free stack words but for the words
/// of the variables.
pub open spec fn framed(end: Machine, m: Machine, c: Scope) -> bool {
    &&& end.whole()
    &&& end.regs[Reg::RSP] == m.regs[Reg::RSP]
    &&& end.regs[Reg::RDI] == m.regs[Reg::RDI]
    &&& forall|a: int|
        a > m.regs[Reg::RSP] - c.si * 8 && !located(c.env, m.regs[Reg::RSP] as int, a)
            ==> #[trigger] end.mem[a] == m.mem[a]
}

/// Whether the machine has come to the end of an evaluation: the value is
/// in `rax`, and the variables are held as the evaluation left them.
pub open spec fn arrived(end: Machine, m: Machine, c: Scope, w: u64, vars: Map<Seq<char>, u64>)
    -> bool {
    &&& end.regs[Reg::RAX] == w
    &&& framed(end, m, c)
    &&& placed(c, end, vars)
}

/// Whether the code from index `p` up to `q`, started in the state `m`,
/// does in `n` steps what the evaluation came to: it comes to `q` with the
/// value; or to `exit`, the exit label of the loop around it, with the
/// value of a `break`; or it fails with the code of the error.
pub open spec fn simulated(
    code: Seq<SpecInstr>,
    p: int,
    q: int,
    exit: int,
    m: Machine,
    c: Scope,
    ended: Ended,
    n: nat,
    end: Machine,
) -> bool {
    match ended.out {
        Outcome::Value(w) => reaches(code, p, m, q, end, n) && arrived(end, m, c, w, ended.vars),
        Outcome::Break(w) => c.loop_num > 0 && reaches(code, p, m, exit, end, n) && arrived(
            end,
            m,
            c,
            w,
            ended.vars,
        ),
        Outcome::Error(e) => fails(code, p, m, e, n),
        Outcome::Beyond => true,
    }
}

/// Whether the piece `part` stands in `code` at index `p`.
pub open spec fn stands(code: Seq<SpecInstr>, p: int, part: Seq<SpecInstr>) -> bool {
    0 <= p && p + part.len() <= code.len() && code.subrange(p, p + part.len()) == part
}

/// Whether the machine is ready for the code around it: no label is defined
/// twice, the state is whole and holds the variables, and the exit label
/// of the loop around, if there is one, stands at `exit`.
pub open spec fn ready(
    code: Seq<SpecInstr>,
    exit: int,
    m: Machine,
    c: Scope,
    vars: Map<Seq<char>, u64>,
) -> bool {
    &&& distinct_labels(code)
    &&& m.whole()
    &&& placed(c, m, vars)
    &&& c.loop_num > 0 ==> 0 <= exit < code.len() && code[exit] == SpecInstr::Label(
        loop_exit(c.loop_num),
    )
}

/// Whether the stack has room for `rounds` calls one in the other: for
/// each, the words up to the highest stack index and the return address.
pub open spec fn roomy(m: Machine, rounds: nat) -> bool {
    1073741840 * (rounds + 1) <= m.regs[Reg::RSP] <= 0x4000_0000_0000_0000
}

/// The position of the body of the function `f`: its parameters are the
/// only variables.
pub open spec fn inside(f: SpecFunction, arity: Map<Seq<char>, i32>) -> Scope {
    Scope { si: 1, env: parameters(f.args), loop_num: 0, arity: arity, in_func: true }
}

/// Whether the code of the function `f`, with labels numbered from `l`,
/// stands in `code` at index `q`.
pub open spec fn function_stands(
    code: Seq<SpecInstr>,
    q: int,
    f: SpecFunction,
    arity: Map<Seq<char>, i32>,
    l: int,
) -> bool {
    lower_function(f, arity, l) is Ok && stands(code, q, lower_function(f, arity, l)->Ok_0.code)
}

/// Whether the function of the name `name` can be called in `code`: it is
/// one of `fns`, the table has the number of its parameters, their names
/// differ, and its code stands in `code`.
pub open spec fn callable(
    code: Seq<SpecInstr>,
    fns: Seq<SpecFunction>,
    arity: Map<Seq<char>, i32>,
    name: Seq<char>,
) -> bool {
    &&& found(fns, name) is Some
    &&& 0 <= found(fns, name)->0 < fns.len()
    &&& fns[found(fns, name)->0].name == name
    &&& arity[name] == fns[found(fns, name)->0].args.len()
    &&& forall|a: int, b: int|
        0 <= a < b < fns[found(fns, name)->0].args.len() ==> fns[found(fns, name)->0].args[a]
            != fns[found(fns, name)->0].args[b]
    &&& exists|q: int, l: int| #[trigger]
        function_stands(code, q, fns[found(fns, name)->0], arity, l)
}

/// Whether every function of the table can be called in `code`, and the
/// indices of `code` fit a word, for the return addresses.
pub open spec fn linked(code: Seq<SpecInstr>, fns: Seq<SpecFunction>, arity: Map<Seq<char>, i32>)
    -> bool {
    &&& code.len() <= u64::MAX
    &&& forall|name: Seq<char>| #[trigger]
        arity.contains_key(name) ==> callable(code, fns, arity, name)
}

/// The stack index of the word of the argument of index `k`, counted
/// from 0, of `n` arguments that are kept from stack index `at` on: the
/// first argument has the highest index.
pub open spec fn argument_index(at: int, n: int, k: int) -> int {
    at + n - 1 - k
}

/// Whether the machine keeps the values of the arguments of a call in the
/// stack words from index `at` on.
pub open spec fn kept(m: Machine, at: int, values: Seq<u64>) -> bool {
    forall|k: int|
        0 <= k < values.len() ==> #[trigger] values[k] == m.mem[m.regs[Reg::RSP] - argument_index(
            at,
            values.len() as int,
            k,
        ) * 8]
}

/// Whether the code from index `p` up to `q`, started in the state `m`,
/// does in `n` steps what the evaluation of arguments of a call came to,
/// which are kept from stack index `first` on and lowered at the index
/// `above`: it comes to `q` with the values kept, and has changed no word
/// above the free ones but those of the variables, nor a word between
/// those of these arguments and the index `above`; or it ends as the code
/// of the argument does that comes to no value.
pub open spec fn delivered(
    code: Seq<SpecInstr>,
    p: int,
    q: int,
    exit: int,
    m: Machine,
    c: Scope,
    first: int,
    above: int,
    ended: Passed,
    n: nat,
    end: Machine,
) -> bool {
    match ended.out {
        Ok(values) => {
            &&& reaches(code, p, m, q, end, n)
            &&& framed(end, m, Scope { si: first, ..c })
            &&& placed(c, end, ended.vars)
            &&& kept(end, first, values)
            &&& forall|a: int|
                m.regs[Reg::RSP] - above * 8 < a <= m.regs[Reg::RSP] - (first + values.len()) * 8
                    ==> #[trigger] end.mem[a] == m.mem[a]
        },
        Err(Outcome::Break(w)) => c.loop_num > 0 && reaches(code, p, m, exit, end, n) && arrived(
            end,
            m,
            c,
            w,
            ended.vars,
        ),
        Err(Outcome::Error(e)) => fails(code, p, m, e, n),
        Err(_) => true,
    }
}

/// A piece that stands in code is made of pieces that stand in it.
proof fn lemma_stands_apart(code: Seq<SpecInstr>, p: int, a: Seq<SpecInstr>, b: Seq<SpecInstr>)
    requires
        stands(code, p, a + b),
    ensures
        stands(code, p, a),
        stands(code, p + a.len(), b),
{
    assert(code.subrange(p, p + a.len()) =~= a) by {
        assert forall|k: int| 0 <= k < a.len() implies code.subrange(p, p + a.len())[k] == a[k] by {
            assert(code.subrange(p, p + (a + b).len())[k] == (a + b)[k]);
        }
    }
    assert(code.subrange(p + a.len(), p + a.len() + b.len()) =~= b) by {
        assert forall|k: int| 0 <= k < b.len() implies code.subrange(
            p + a.len(),
            p + a.len() + b.len(),
        )[k] == b[k] by {
            assert(code.subrange(p, p + (a + b).len())[a.len() + k] == (a + b)[a.len() + k]);
        }
    }
}

/// What is framed from state to state is framed from the first to the
/// last.
proof fn lemma_framed_on(last: Machine, mid: Machine, m: Machine, c: Scope)
    requires
        framed(mid, m, c),
        framed(last, mid, c),
    ensures
        framed(last, m, c),
{
    assert forall|a: int|
        a > m.regs[Reg::RSP] - c.si * 8 && !located(
            c.env,
            m.regs[Reg::RSP] as int,
            a,
        ) implies #[trigger] last.mem[a] == m.mem[a] by {
        assert(last.mem[a] == mid.mem[a]);
        assert(mid.mem[a] == m.mem[a]);
    }
}

/// Code that changes neither the stack pointer nor the memory leaves the
/// variables held and the frame kept.
proof fn lemma_untouched(end: Machine, m: Machine, c: Scope, vars: Map<Seq<char>, u64>)
    requires
        placed(c, m, vars),
        end.whole(),
        end.regs[Reg::RSP] == m.regs[Reg::RSP],
        end.regs[Reg::RDI] == m.regs[Reg::RDI],
        end.mem == m.mem,
    ensures
        placed(c, end, vars),
        framed(end, m, c),
{
}

/// A literal or a variable: one load.
proof fn sim_leaf(
    e: SpecExpr,
    c: Scope,
    lbl: int,
    code: Seq<SpecInstr>,
    p: int,
    exit: int,
    m: Machine,
    vars: Map<Seq<char>, u64>,
    rounds: nat,
    fns: Seq<SpecFunction>,
) -> (r: (nat, Machine))
    requires
        e is Number || e is Boolean || e is Id,
        lower(e, c, lbl) is Ok,
        stands(code, p, lower(e, c, lbl)->Ok_0.code),
        ready(code, exit, m, c, vars),
    ensures
        simulated(
            code,
            p,
            p + lower(e, c, lbl)->Ok_0.code.len(),
            exit,
            m,
            c,
            eval(e, vars, m.regs[Reg::RDI], rounds, fns),
            r.0,
            r.1,
        ),
{
    let part = lower(e, c, lbl)->Ok_0.code;
    match e {
        SpecExpr::Number(n) => {
            immediate_is_loaded(2 * n, m);
        },
        SpecExpr::Boolean(b) => {
            immediate_is_loaded(bool_value(b), m);
        },
        SpecExpr::Id(name) => {
            if name == "input"@ {
                argument_is_loaded(m);
            } else {
                run_of_one(SpecInstr::Mov(reg(Reg::RAX), c.env[name].operand()), m);
            }
        },
        _ => {},
    }
    straight_code_flows(code, p, part, m);
    let end = run(part, m)->Done_0;
    lemma_untouched(end, m, c, vars);
    (part.len(), end)
}

/// Behind code that did what the evaluation of the operand came to, the
/// code of a unary operator does what the operator makes of the value.
proof fn sim_then_unary(
    e: SpecExpr,
    c: Scope,
    lbl: int,
    code: Seq<SpecInstr>,
    p: int,
    exit: int,
    m: Machine,
    vars: Map<Seq<char>, u64>,
    rounds: nat,
    fns: Seq<SpecFunction>,
    n1: nat,
    m1: Machine,
) -> (r: (nat, Machine))
    requires
        e is UnOp,
        lower(e, c, lbl) is Ok,
        stands(code, p, lower(e, c, lbl)->Ok_0.code),
        ready(code, exit, m, c, vars),
        simulated(
            code,
            p,
            p + lower(*e->UnOp_1, c, lbl)->Ok_0.code.len(),
            exit,
            m,
            c,
            eval(*e->UnOp_1, vars, m.regs[Reg::RDI], rounds, fns),
            n1,
            m1,
        ),
    ensures
        simulated(
            code,
            p,
            p + lower(e, c, lbl)->Ok_0.code.len(),
            exit,
            m,
            c,
            eval(e, vars, m.regs[Reg::RDI], rounds, fns),
            r.0,
            r.1,
        ),
{
    let op = e->UnOp_0;
    let operand = *e->UnOp_1;
    let input = m.regs[Reg::RDI];
    let first = lower(operand, c, lbl)->Ok_0.code;
    let tail = unary_code(op, c.si);
    assert(lower(e, c, lbl)->Ok_0.code == first + tail);
    lemma_stands_apart(code, p, first, tail);
    let inner = eval(operand, vars, input, rounds, fns);
    assert(eval(e, vars, input, rounds, fns) == (match inner.out {
        Outcome::Value(w) => Ended { out: answered(unary_meaning(op, w)), vars: inner.vars },
        _ => inner,
    }));
    match inner.out {
        Outcome::Value(w) => {
            let q = p + first.len();
            if op.kind() == Op1Type::Arithmetic {
                step_by_one_is_computed_or_refused(op, c.si, m1);
            } else if op.kind() == Op1Type::TypeCheck {
                kind_is_told(op, c.si, m1);
            }
            straight_code_flows(code, q, tail, m1);
            match run(tail, m1) {
                Run::Done(end) => {
                    if unary_meaning(op, w) is Value {
                        reaches_on(code, p, m, q, m1, n1, q + tail.len(), end, tail.len());
                        lemma_untouched(end, m1, c, inner.vars);
                        lemma_framed_on(end, m1, m, c);
                    }
                    (n1 + tail.len(), end)
                },
                Run::Failed(err) => {
                    fails_on(code, p, m, q, m1, n1, err, tail.len());
                    (n1 + tail.len(), m1)
                },
                Run::Stuck => (n1, m1),
            }
        },
        _ => (n1, m1),
    }
}

/// The position of a stack index above, with the same variables.
pub open spec fn above(c: Scope) -> Scope {
    Scope { si: c.si + 1, ..c }
}

/// A value that is kept in the free stack word of the lowest index leaves
/// the variables held, for code that works above that word.
proof fn sim_keep(
    c: Scope,
    code: Seq<SpecInstr>,
    q: int,
    exit: int,
    m1: Machine,
    vars: Map<Seq<char>, u64>,
) -> (m2: Machine)
    requires
        stands(code, q, seq![SpecInstr::Mov(slot(c.si), reg(Reg::RAX))]),
        ready(code, exit, m1, c, vars),
    ensures
        m2 == store(m1, slot(c.si), m1.regs[Reg::RAX]),
        reaches(code, q, m1, q + 1, m2, 1),
        ready(code, exit, m2, above(c), vars),
{
    let keep = seq![SpecInstr::Mov(slot(c.si), reg(Reg::RAX))];
    let m2 = store(m1, slot(c.si), m1.regs[Reg::RAX]);
    run_of_one(keep[0], m1);
    straight_code_flows(code, q, keep, m1);
    m2
}

/// What code above a kept value left framed and held, is framed and held
/// for the place below as well: the word of the kept value is free there.
proof fn lemma_back_below(
    c: Scope,
    m: Machine,
    m1: Machine,
    m3: Machine,
    vars: Map<Seq<char>, u64>,
    vars1: Map<Seq<char>, u64>,
    vars3: Map<Seq<char>, u64>,
)
    requires
        placed(c, m, vars),
        framed(m1, m, c),
        placed(c, m1, vars1),
        framed(m3, store(m1, slot(c.si), m1.regs[Reg::RAX]), above(c)),
        placed(above(c), m3, vars3),
    ensures
        framed(m3, m, c),
        placed(c, m3, vars3),
        read(m3, slot(c.si)) == m1.regs[Reg::RAX],
{
    let m2 = store(m1, slot(c.si), m1.regs[Reg::RAX]);
    let rsp = m.regs[Reg::RSP] as int;
    let kept = rsp - c.si * 8;
    assert(!located(c.env, rsp, kept)) by {
        if located(c.env, rsp, kept) {
            let name = choose|name: Seq<char>| #[trigger]
                c.env.contains_key(name) && c.env[name] is LStack && kept == rsp
                    + c.env[name]->LStack_0;
            assert(c.env[name]->LStack_0 > -(c.si * 8));
        }
    }
    assert(m3.mem[kept] == m2.mem[kept]);
    assert forall|a: int| a > rsp - c.si * 8 && !located(c.env, rsp, a) implies #[trigger] m3.mem[a]
        == m.mem[a] by {
        assert(m3.mem[a] == m2.mem[a]);
        assert(m1.mem[a] == m.mem[a]);
    }
    assert forall|name: Seq<char>| #[trigger] c.env.contains_key(name) implies {
        &&& vars3.contains_key(name)
        &&& c.env[name] is LStack
        &&& c.env[name]->LStack_0 > -(c.si * 8)
        &&& m3.mem[m3.regs[Reg::RSP] + c.env[name]->LStack_0] == vars3[name]
    } by {
        assert(above(c).env.contains_key(name));
    }
}

/// Behind code that did what the evaluation of the two operands came to,
/// the right one first and kept aside, the code of a binary operator does
/// what the operator makes of the values.
proof fn sim_then_binary(
    e: SpecExpr,
    c: Scope,
    lbl: int,
    code: Seq<SpecInstr>,
    p: int,
    exit: int,
    m: Machine,
    vars: Map<Seq<char>, u64>,
    rounds: nat,
    fns: Seq<SpecFunction>,
    n1: nat,
    m1: Machine,
    n3: nat,
    m3: Machine,
) -> (r: (nat, Machine))
    requires
        e is BinOp,
        lower(e, c, lbl) is Ok,
        stands(code, p, lower(e, c, lbl)->Ok_0.code),
        ready(code, exit, m, c, vars),
        simulated(
            code,
            p,
            p + lower(*e->BinOp_2, c, lbl)->Ok_0.code.len(),
            exit,
            m,
            c,
            eval(*e->BinOp_2, vars, m.regs[Reg::RDI], rounds, fns),
            n1,
            m1,
        ),
        eval(*e->BinOp_2, vars, m.regs[Reg::RDI], rounds, fns).out is Value ==> simulated(
            code,
            p + lower(*e->BinOp_2, c, lbl)->Ok_0.code.len() + 1,
            p + lower(*e->BinOp_2, c, lbl)->Ok_0.code.len() + 1 + lower(
                *e->BinOp_1,
                above(c),
                lower(*e->BinOp_2, c, lbl)->Ok_0.next,
            )->Ok_0.code.len(),
            exit,
            store(m1, slot(c.si), m1.regs[Reg::RAX]),
            above(c),
            eval(
                *e->BinOp_1,
                eval(*e->BinOp_2, vars, m.regs[Reg::RDI], rounds, fns).vars,
                m.regs[Reg::RDI],
                rounds,
                fns,
            ),
            n3,
            m3,
        ),
    ensures
        simulated(
            code,
            p,
            p + lower(e, c, lbl)->Ok_0.code.len(),
            exit,
            m,
            c,
            eval(e, vars, m.regs[Reg::RDI], rounds, fns),
            r.0,
            r.1,
        ),
{
    let op = e->BinOp_0;
    let left = *e->BinOp_1;
    let right = *e->BinOp_2;
    let input = m.regs[Reg::RDI];
    let rc = lower(right, c, lbl)->Ok_0;
    let lc = lower(left, above(c), rc.next)->Ok_0;
    let keep = seq![SpecInstr::Mov(slot(c.si), reg(Reg::RAX))];
    let tail = binary_code(op, c.si);
    assert(lower(e, c, lbl)->Ok_0.code == (rc.code + keep) + (lc.code + tail));
    lemma_stands_apart(code, p, rc.code + keep, lc.code + tail);
    lemma_stands_apart(code, p, rc.code, keep);
    lemma_stands_apart(code, p + rc.code.len() + 1, lc.code, tail);
    let er = eval(right, vars, input, rounds, fns);
    let el = eval(left, er.vars, input, rounds, fns);
    assert(eval(e, vars, input, rounds, fns) == (match er.out {
        Outcome::Value(wr) => match el.out {
            Outcome::Value(wl) => Ended { out: answered(binary_meaning(op, wl, wr)), vars: el.vars },
            _ => el,
        },
        _ => er,
    }));
    match er.out {
        Outcome::Value(wr) => {
            let q1 = p + rc.code.len();
            let m2 = sim_keep(c, code, q1, exit, m1, er.vars);
            reaches_on(code, p, m, q1, m1, n1, q1 + 1, m2, 1);
            let n2 = (n1 + 1) as nat;
            match el.out {
                Outcome::Value(wl) => {
                    let q3 = q1 + 1 + lc.code.len();
                    reaches_on(code, p, m, q1 + 1, m2, n2, q3, m3, n3);
                    lemma_back_below(c, m, m1, m3, vars, er.vars, el.vars);
                    if op.kind() == Op2Type::Arithmetic {
                        arithmetic_is_computed_or_refused(op, c.si, m3);
                    } else if op.kind() == Op2Type::Relational {
                        comparison_is_computed_or_refused(op, c.si, m3);
                    } else {
                        equality_is_computed_or_refused(c.si, m3);
                    }
                    straight_code_flows(code, q3, tail, m3);
                    match run(tail, m3) {
                        Run::Done(end) => {
                            if binary_meaning(op, wl, wr) is Value {
                                reaches_on(
                                    code,
                                    p,
                                    m,
                                    q3,
                                    m3,
                                    n2 + n3,
                                    q3 + tail.len(),
                                    end,
                                    tail.len(),
                                );
                                lemma_untouched(end, m3, c, el.vars);
                                lemma_framed_on(end, m3, m, c);
                            }
                            (n2 + n3 + tail.len(), end)
                        },
                        Run::Failed(err) => {
                            fails_on(code, p, m, q3, m3, n2 + n3, err, tail.len());
                            (n2 + n3 + tail.len(), m3)
                        },
                        Run::Stuck => (n1, m1),
                    }
                },
                Outcome::Break(_) => {
                    reaches_on(code, p, m, q1 + 1, m2, n2, exit, m3, n3);
                    lemma_back_below(c, m, m1, m3, vars, er.vars, el.vars);
                    (n2 + n3, m3)
                },
                Outcome::Error(err) => {
                    fails_on(code, p, m, q1 + 1, m2, n2, err, n3);
                    (n2 + n3, m3)
                },
                Outcome::Beyond => (n1, m1),
            }
        },
        _ => (n1, m1),
    }
}

/// The labels that the compiler makes are not that of the error
/// trampoline.
proof fn lemma_own_labels(n: int)
    ensures
        label("else_"@ + decimal_text(n)) != error_target(),
        label("endif_"@ + decimal_text(n)) != error_target(),
        label("loop_"@ + decimal_text(n)) != error_target(),
        loop_exit(n) != error_target(),
{
    reveal_strlit("else_");
    reveal_strlit("endif_");
    reveal_strlit("loop_");
    reveal_strlit("endloop_");
    reveal_strlit("throw_error_align");
    assert("throw_error_align"@[0] == 't');
    assert(("else_"@ + decimal_text(n))[0] == 'e');
    assert(("endif_"@ + decimal_text(n))[0] == 'e');
    assert(("loop_"@ + decimal_text(n))[0] == 'l');
    assert(("endloop_"@ + decimal_text(n))[0] == 'e');
}

/// The state in which the branches of an `if` start: that in which the
/// condition ended, with the flags of its comparison with `false`.
pub open spec fn compared_with_false(m: Machine) -> Machine {
    flagged(m, signed(m.regs[Reg::RAX]) - 3)
}

/// The comparison of a condition with `false` changes the flags only.
proof fn sim_test(
    c: Scope,
    code: Seq<SpecInstr>,
    q: int,
    exit: int,
    m1: Machine,
    vars: Map<Seq<char>, u64>,
) -> (m2: Machine)
    requires
        0 <= q < code.len(),
        code[q] == SpecInstr::Cmp(reg(Reg::RAX), imm(3)),
        ready(code, exit, m1, c, vars),
    ensures
        m2 == compared_with_false(m1),
        reaches(code, q, m1, q + 1, m2, 1),
        ready(code, exit, m2, c, vars),
        framed(m2, m1, c),
        m2.zero <==> m1.regs[Reg::RAX] == 3,
{
    let m2 = compared_with_false(m1);
    assert(wrapped(3) == 3 && signed(3) == 3);
    assert(step(code[q], m1) == Run::Done(m2));
    let w = m1.regs[Reg::RAX];
    assert(wrapped(signed(w) - 3) == 0 <==> w == 3);
    m2
}

/// The code of the first branch of the `if` `e`.
pub open spec fn first_code(e: SpecExpr, c: Scope, lbl: int) -> Seq<SpecInstr> {
    lower(*e->If_1, c, lower(*e->If_0, c, lbl + 1)->Ok_0.next)->Ok_0.code
}

/// The code of the second branch of the `if` `e`.
pub open spec fn second_code(e: SpecExpr, c: Scope, lbl: int) -> Seq<SpecInstr> {
    lower(
        *e->If_2,
        c,
        lower(*e->If_1, c, lower(*e->If_0, c, lbl + 1)->Ok_0.next)->Ok_0.next,
    )->Ok_0.code
}

/// Where the first branch of the `if` `e` begins, whose code stands at
/// index `p`: behind the condition and its test.
pub open spec fn first_at(e: SpecExpr, c: Scope, lbl: int, p: int) -> int {
    p + lower(*e->If_0, c, lbl + 1)->Ok_0.code.len() + 2
}

/// Where the second branch begins: behind the first one, the jump over
/// the second, and its own label.
pub open spec fn second_at(e: SpecExpr, c: Scope, lbl: int, p: int) -> int {
    first_at(e, c, lbl, p) + first_code(e, c, lbl).len() + 2
}

/// Behind code that did what the evaluation of the condition came to, and
/// before code that did what the evaluation of the branch came to that
/// the condition chose, the code of an `if` does what the `if` comes to.
proof fn sim_then_if(
    e: SpecExpr,
    c: Scope,
    lbl: int,
    code: Seq<SpecInstr>,
    p: int,
    exit: int,
    m: Machine,
    vars: Map<Seq<char>, u64>,
    rounds: nat,
    fns: Seq<SpecFunction>,
    n1: nat,
    m1: Machine,
    n3: nat,
    m3: Machine,
) -> (r: (nat, Machine))
    requires
        e is If,
        lower(e, c, lbl) is Ok,
        stands(code, p, lower(e, c, lbl)->Ok_0.code),
        ready(code, exit, m, c, vars),
        simulated(
            code,
            p,
            p + lower(*e->If_0, c, lbl + 1)->Ok_0.code.len(),
            exit,
            m,
            c,
            eval(*e->If_0, vars, m.regs[Reg::RDI], rounds, fns),
            n1,
            m1,
        ),
        eval(*e->If_0, vars, m.regs[Reg::RDI], rounds, fns).out matches Outcome::Value(w) && w != 3
            ==> simulated(
            code,
            first_at(e, c, lbl, p),
            first_at(e, c, lbl, p) + first_code(e, c, lbl).len(),
            exit,
            compared_with_false(m1),
            c,
            eval(
                *e->If_1,
                eval(*e->If_0, vars, m.regs[Reg::RDI], rounds, fns).vars,
                m.regs[Reg::RDI],
                rounds,
                fns,
            ),
            n3,
            m3,
        ),
        eval(*e->If_0, vars, m.regs[Reg::RDI], rounds, fns).out matches Outcome::Value(w) && w == 3
            ==> simulated(
            code,
            second_at(e, c, lbl, p),
            second_at(e, c, lbl, p) + second_code(e, c, lbl).len(),
            exit,
            compared_with_false(m1),
            c,
            eval(
                *e->If_2,
                eval(*e->If_0, vars, m.regs[Reg::RDI], rounds, fns).vars,
                m.regs[Reg::RDI],
                rounds,
                fns,
            ),
            n3,
            m3,
        ),
    ensures
        simulated(
            code,
            p,
            p + lower(e, c, lbl)->Ok_0.code.len(),
            exit,
            m,
            c,
            eval(e, vars, m.regs[Reg::RDI], rounds, fns),
            r.0,
            r.1,
        ),
{
    let input = m.regs[Reg::RDI];
    let a = lower(*e->If_0, c, lbl + 1)->Ok_0;
    let b = first_code(e, c, lbl);
    let d = second_code(e, c, lbl);
    let else_lbl = label("else_"@ + decimal_text(lbl));
    let endif_lbl = label("endif_"@ + decimal_text(lbl));
    let test = seq![SpecInstr::Cmp(reg(Reg::RAX), imm(3)), SpecInstr::Je(else_lbl)];
    let middle = seq![SpecInstr::Jmp(endif_lbl), SpecInstr::Label(else_lbl)];
    let close = seq![SpecInstr::Label(endif_lbl)];
    let whole = lower(e, c, lbl)->Ok_0.code;
    assert(whole == a.code + test + b + middle + d + close);
    lemma_own_labels(lbl);
    let q1 = p + a.code.len();
    let q2 = first_at(e, c, lbl, p);
    let q3 = q2 + b.len();
    let q4 = second_at(e, c, lbl, p);
    let q5 = q4 + d.len();
    assert(code[q1] == test[0] && code[q1 + 1] == test[1] && code[q3] == middle[0] && code[q3 + 1]
        == middle[1] && code[q5] == close[0]) by {
        assert(code.subrange(p, p + whole.len())[q1 - p] == whole[q1 - p]);
        assert(code.subrange(p, p + whole.len())[q1 + 1 - p] == whole[q1 + 1 - p]);
        assert(code.subrange(p, p + whole.len())[q3 - p] == whole[q3 - p]);
        assert(code.subrange(p, p + whole.len())[q3 + 1 - p] == whole[q3 + 1 - p]);
        assert(code.subrange(p, p + whole.len())[q5 - p] == whole[q5 - p]);
    }
    let ec = eval(*e->If_0, vars, input, rounds, fns);
    match ec.out {
        Outcome::Value(w) => {
            let m2 = sim_test(c, code, q1, exit, m1, ec.vars);
            reaches_on(code, p, m, q1, m1, n1, q1 + 1, m2, 1);
            lemma_framed_on(m2, m1, m, c);
            let eb = eval(e, vars, input, rounds, fns);
            if w == 3 {
                jump_is_taken(code, q1 + 1, m2, else_lbl, q3 + 1);
                label_is_passed(code, q3 + 1, m2);
                reaches_on(code, p, m, q1 + 1, m2, n1 + 1, q3 + 1, m2, 1);
                reaches_on(code, p, m, q3 + 1, m2, n1 + 2, q4, m2, 1);
                match eb.out {
                    Outcome::Value(_) => {
                        reaches_on(code, p, m, q4, m2, n1 + 3, q5, m3, n3);
                        label_is_passed(code, q5, m3);
                        reaches_on(code, p, m, q5, m3, n1 + 3 + n3, q5 + 1, m3, 1);
                        lemma_framed_on(m3, m2, m, c);
                        (n1 + 3 + n3 + 1, m3)
                    },
                    Outcome::Break(_) => {
                        reaches_on(code, p, m, q4, m2, n1 + 3, exit, m3, n3);
                        lemma_framed_on(m3, m2, m, c);
                        (n1 + 3 + n3, m3)
                    },
                    Outcome::Error(err) => {
                        fails_on(code, p, m, q4, m2, n1 + 3, err, n3);
                        (n1 + 3 + n3, m3)
                    },
                    Outcome::Beyond => (n1, m1),
                }
            } else {
                jump_is_passed(code, q1 + 1, m2);
                reaches_on(code, p, m, q1 + 1, m2, n1 + 1, q2, m2, 1);
                match eb.out {
                    Outcome::Value(_) => {
                        reaches_on(code, p, m, q2, m2, n1 + 2, q3, m3, n3);
                        jump_is_taken(code, q3, m3, endif_lbl, q5);
                        label_is_passed(code, q5, m3);
                        reaches_on(code, p, m, q3, m3, n1 + 2 + n3, q5, m3, 1);
                        reaches_on(code, p, m, q5, m3, n1 + 2 + n3 + 1, q5 + 1, m3, 1);
                        lemma_framed_on(m3, m2, m, c);
                        (n1 + 2 + n3 + 2, m3)
                    },
                    Outcome::Break(_) => {
                        reaches_on(code, p, m, q2, m2, n1 + 2, exit, m3, n3);
                        lemma_framed_on(m3, m2, m, c);
                        (n1 + 2 + n3, m3)
                    },
                    Outcome::Error(err) => {
                        fails_on(code, p, m, q2, m2, n1 + 2, err, n3);
                        (n1 + 2 + n3, m3)
                    },
                    Outcome::Beyond => (n1, m1),
                }
            }
        },
        _ => (n1, m1),
    }
}

/// Behind code that did what the evaluation of the value came to, the
/// code of a `set!` writes the value to the word of the variable.
proof fn sim_then_assign(
    e: SpecExpr,
    c: Scope,
    lbl: int,
    code: Seq<SpecInstr>,
    p: int,
    exit: int,
    m: Machine,
    vars: Map<Seq<char>, u64>,
    rounds: nat,
    fns: Seq<SpecFunction>,
    n1: nat,
    m1: Machine,
) -> (r: (nat, Machine))
    requires
        e is Assign,
        lower(e, c, lbl) is Ok,
        stands(code, p, lower(e, c, lbl)->Ok_0.code),
        ready(code, exit, m, c, vars),
        simulated(
            code,
            p,
            p + lower(*e->Assign_1, c, lbl)->Ok_0.code.len(),
            exit,
            m,
            c,
            eval(*e->Assign_1, vars, m.regs[Reg::RDI], rounds, fns),
            n1,
            m1,
        ),
    ensures
        simulated(
            code,
            p,
            p + lower(e, c, lbl)->Ok_0.code.len(),
            exit,
            m,
            c,
            eval(e, vars, m.regs[Reg::RDI], rounds, fns),
            r.0,
            r.1,
        ),
{
    let name = e->Assign_0;
    let inner = lower(*e->Assign_1, c, lbl)->Ok_0;
    let write = seq![SpecInstr::Mov(c.env[name].operand(), reg(Reg::RAX))];
    let ev = eval(*e->Assign_1, vars, m.regs[Reg::RDI], rounds, fns);
    lemma_stands_apart(code, p, inner.code, write);
    match ev.out {
        Outcome::Value(w) => {
            let q1 = p + inner.code.len();
            assert(c.env.contains_key(name));
            let m2 = store(m1, c.env[name].operand(), w);
            run_of_one(write[0], m1);
            straight_code_flows(code, q1, write, m1);
            reaches_on(code, p, m, q1, m1, n1, q1 + 1, m2, 1);
            let at = m1.regs[Reg::RSP] + c.env[name]->LStack_0;
            assert(m2.mem == m1.mem.insert(at, w));
            assert(located(c.env, m1.regs[Reg::RSP] as int, at));
            assert forall|other: Seq<char>| #[trigger]
                c.env.contains_key(other) implies m2.mem[m2.regs[Reg::RSP] + c.env[other]->LStack_0]
                == ev.vars.insert(name, w)[other] by {
                if other != name {
                    assert(c.env[other] != c.env[name]);
                }
            }
            assert(framed(m2, m1, c));
            lemma_framed_on(m2, m1, m, c);
            (n1 + 1, m2)
        },
        _ => (n1, m1),
    }
}

/// Behind code that did what the evaluation of the value came to, the
/// code of a `break` jumps to the exit label of the loop around it.
proof fn sim_then_break(
    e: SpecExpr,
    c: Scope,
    lbl: int,
    code: Seq<SpecInstr>,
    p: int,
    exit: int,
    m: Machine,
    vars: Map<Seq<char>, u64>,
    rounds: nat,
    fns: Seq<SpecFunction>,
    n1: nat,
    m1: Machine,
) -> (r: (nat, Machine))
    requires
        e is Break,
        lower(e, c, lbl) is Ok,
        stands(code, p, lower(e, c, lbl)->Ok_0.code),
        ready(code, exit, m, c, vars),
        simulated(
            code,
            p,
            p + lower(*e->Break_0, c, lbl)->Ok_0.code.len(),
            exit,
            m,
            c,
            eval(*e->Break_0, vars, m.regs[Reg::RDI], rounds, fns),
            n1,
            m1,
        ),
    ensures
        simulated(
            code,
            p,
            p + lower(e, c, lbl)->Ok_0.code.len(),
            exit,
            m,
            c,
            eval(e, vars, m.regs[Reg::RDI], rounds, fns),
            r.0,
            r.1,
        ),
{
    let inner = lower(*e->Break_0, c, lbl)->Ok_0;
    let leave = seq![SpecInstr::Jmp(loop_exit(c.loop_num))];
    let ev = eval(*e->Break_0, vars, m.regs[Reg::RDI], rounds, fns);
    lemma_stands_apart(code, p, inner.code, leave);
    match ev.out {
        Outcome::Value(w) => {
            let q1 = p + inner.code.len();
            assert(code[q1] == leave[0]) by {
                assert(code.subrange(q1, q1 + 1)[0] == leave[0]);
            }
            lemma_own_labels(c.loop_num);
            jump_is_taken(code, q1, m1, loop_exit(c.loop_num), exit);
            reaches_on(code, p, m, q1, m1, n1, exit, m1, 1);
            (n1 + 1, m1)
        },
        _ => (n1, m1),
    }
}

/// The position of the body of a loop that is numbered `lbl`.
pub open spec fn within(c: Scope, lbl: int) -> Scope {
    Scope { loop_num: lbl, ..c }
}

/// Around code that did what the evaluation of the body came to, and
/// before what the loop does from the end of that round on, the code of a
/// loop does what the loop comes to.
proof fn sim_then_loop(
    e: SpecExpr,
    c: Scope,
    lbl: int,
    code: Seq<SpecInstr>,
    p: int,
    exit: int,
    m: Machine,
    vars: Map<Seq<char>, u64>,
    rounds: nat,
    fns: Seq<SpecFunction>,
    n1: nat,
    m1: Machine,
    n3: nat,
    m3: Machine,
) -> (r: (nat, Machine))
    requires
        e is Loop,
        rounds > 0,
        lower(e, c, lbl) is Ok,
        stands(code, p, lower(e, c, lbl)->Ok_0.code),
        ready(code, exit, m, c, vars),
        simulated(
            code,
            p + 1,
            p + 1 + lower(*e->Loop_0, within(c, lbl), lbl + 1)->Ok_0.code.len(),
            p + 2 + lower(*e->Loop_0, within(c, lbl), lbl + 1)->Ok_0.code.len(),
            m,
            within(c, lbl),
            eval(*e->Loop_0, vars, m.regs[Reg::RDI], (rounds - 1) as nat, fns),
            n1,
            m1,
        ),
        eval(*e->Loop_0, vars, m.regs[Reg::RDI], (rounds - 1) as nat, fns).out is Value ==> simulated(
            code,
            p,
            p + lower(e, c, lbl)->Ok_0.code.len(),
            exit,
            m1,
            c,
            eval(
                e,
                eval(*e->Loop_0, vars, m.regs[Reg::RDI], (rounds - 1) as nat, fns).vars,
                m.regs[Reg::RDI],
                (rounds - 1) as nat,
                fns,
            ),
            n3,
            m3,
        ),
    ensures
        simulated(
            code,
            p,
            p + lower(e, c, lbl)->Ok_0.code.len(),
            exit,
            m,
            c,
            eval(e, vars, m.regs[Reg::RDI], rounds, fns),
            r.0,
            r.1,
        ),
{
    let body = lower(*e->Loop_0, within(c, lbl), lbl + 1)->Ok_0;
    let loop_lbl = label("loop_"@ + decimal_text(lbl));
    let open = seq![SpecInstr::Label(loop_lbl)];
    let close = seq![SpecInstr::Jmp(loop_lbl), SpecInstr::Label(loop_exit(lbl))];
    let whole = lower(e, c, lbl)->Ok_0.code;
    assert(whole == open + body.code + close);
    let q1 = p + 1 + body.code.len();
    assert(code[p] == open[0] && code[q1] == close[0] && code[q1 + 1] == close[1]) by {
        assert(code.subrange(p, p + whole.len())[0] == whole[0]);
        assert(code.subrange(p, p + whole.len())[q1 - p] == whole[q1 - p]);
        assert(code.subrange(p, p + whole.len())[q1 + 1 - p] == whole[q1 + 1 - p]);
    }
    lemma_own_labels(lbl);
    let input = m.regs[Reg::RDI];
    let eb = eval(*e->Loop_0, vars, input, (rounds - 1) as nat, fns);
    label_is_passed(code, p, m);
    match eb.out {
        Outcome::Value(_) => {
            reaches_on(code, p, m, p + 1, m, 1, q1, m1, n1);
            jump_is_taken(code, q1, m1, loop_lbl, p);
            reaches_on(code, p, m, q1, m1, 1 + n1, p, m1, 1);
            let again = eval(e, eb.vars, input, (rounds - 1) as nat, fns);
            match again.out {
                Outcome::Value(_) => {
                    reaches_on(code, p, m, p, m1, 1 + n1 + 1, p + whole.len(), m3, n3);
                    lemma_framed_on(m3, m1, m, c);
                },
                Outcome::Break(_) => {
                    reaches_on(code, p, m, p, m1, 1 + n1 + 1, exit, m3, n3);
                    lemma_framed_on(m3, m1, m, c);
                },
                Outcome::Error(err) => {
                    fails_on(code, p, m, p, m1, 1 + n1 + 1, err, n3);
                },
                Outcome::Beyond => {},
            }
            (1 + n1 + 1 + n3, m3)
        },
        Outcome::Break(_) => {
            reaches_on(code, p, m, p + 1, m, 1, q1 + 1, m1, n1);
            label_is_passed(code, q1 + 1, m1);
            reaches_on(code, p, m, q1 + 1, m1, 1 + n1, q1 + 2, m1, 1);
            (1 + n1 + 1, m1)
        },
        Outcome::Error(err) => {
            fails_on(code, p, m, p + 1, m, 1, err, n1);
            (1 + n1, m1)
        },
        Outcome::Beyond => (n1, m1),
    }
}

/// One piece of code behind another: where the first comes to its end
/// with a value, the two do what the second does from there.
proof fn sim_in_sequence(
    c: Scope,
    code: Seq<SpecInstr>,
    p: int,
    q1: int,
    q2: int,
    exit: int,
    m: Machine,
    first: Ended,
    n1: nat,
    m1: Machine,
    second: Ended,
    n3: nat,
    m3: Machine,
)
    requires
        first.out is Value,
        simulated(code, p, q1, exit, m, c, first, n1, m1),
        simulated(code, q1, q2, exit, m1, c, second, n3, m3),
    ensures
        simulated(code, p, q2, exit, m, c, second, n1 + n3, m3),
{
    match second.out {
        Outcome::Value(_) => {
            reaches_on(code, p, m, q1, m1, n1, q2, m3, n3);
            lemma_framed_on(m3, m1, m, c);
        },
        Outcome::Break(_) => {
            reaches_on(code, p, m, q1, m1, n1, exit, m3, n3);
            lemma_framed_on(m3, m1, m, c);
        },
        Outcome::Error(err) => {
            fails_on(code, p, m, q1, m1, n1, err, n3);
        },
        Outcome::Beyond => {},
    }
}

/// The position behind a binding of `name` at the position `c`: the name
/// lives in the lowest free stack word of `c`.
pub open spec fn bound(c: Scope, name: Seq<char>) -> Scope {
    Scope { si: c.si + 1, env: c.env.insert(name, slot_loc(c.si)), ..c }
}

/// The value of a binding is written to the lowest free stack word, and
/// the machine is ready for what stands in the scope of the binding.
proof fn sim_bind(
    c: Scope,
    name: Seq<char>,
    code: Seq<SpecInstr>,
    q: int,
    exit: int,
    m1: Machine,
    vars: Map<Seq<char>, u64>,
) -> (m2: Machine)
    requires
        0 <= c.si <= MAX_SI,
        stands(code, q, seq![SpecInstr::Mov(slot(c.si), reg(Reg::RAX))]),
        ready(code, exit, m1, c, vars),
    ensures
        m2 == store(m1, slot(c.si), m1.regs[Reg::RAX]),
        reaches(code, q, m1, q + 1, m2, 1),
        ready(code, exit, m2, bound(c, name), vars.insert(name, m1.regs[Reg::RAX])),
{
    let keep = seq![SpecInstr::Mov(slot(c.si), reg(Reg::RAX))];
    let m2 = store(m1, slot(c.si), m1.regs[Reg::RAX]);
    run_of_one(keep[0], m1);
    straight_code_flows(code, q, keep, m1);
    let c2 = bound(c, name);
    assert(slot_loc(c.si) == LocPtr::LStack((-(c.si * 8)) as i32));
    assert(((-(c.si * 8)) as i32) as int == -(c.si * 8));
    assert forall|a: Seq<char>, b: Seq<char>|
        c2.env.contains_key(a) && c2.env.contains_key(b) && a != b implies #[trigger] c2.env[a]
        != #[trigger] c2.env[b] by {
        if a != name {
            assert(c.env.contains_key(a));
        }
        if b != name {
            assert(c.env.contains_key(b));
        }
    }
    assert forall|other: Seq<char>| #[trigger] c2.env.contains_key(other) implies {
        &&& vars.insert(name, m1.regs[Reg::RAX]).contains_key(other)
        &&& c2.env[other] is LStack
        &&& c2.env[other]->LStack_0 > -(c2.si * 8)
        &&& m2.mem[m2.regs[Reg::RSP] + c2.env[other]->LStack_0] == vars.insert(
            name,
            m1.regs[Reg::RAX],
        )[other]
    } by {
        if other != name {
            assert(c.env.contains_key(other));
        }
    }
    m2
}

/// What code in the scope of a binding left framed and held, is framed
/// and held for the place of the binding as well, where the name means
/// again what it meant before.
proof fn lemma_scope_left(
    c: Scope,
    name: Seq<char>,
    m: Machine,
    m1: Machine,
    m3: Machine,
    vars1: Map<Seq<char>, u64>,
    vars3: Map<Seq<char>, u64>,
)
    requires
        0 <= c.si <= MAX_SI,
        framed(m1, m, c),
        placed(c, m1, vars1),
        framed(m3, store(m1, slot(c.si), m1.regs[Reg::RAX]), bound(c, name)),
        placed(bound(c, name), m3, vars3),
    ensures
        framed(m3, m, c),
        placed(c, m3, unshadow(vars3, vars1, name)),
{
    let m2 = store(m1, slot(c.si), m1.regs[Reg::RAX]);
    let c2 = bound(c, name);
    let rsp = m.regs[Reg::RSP] as int;
    assert(slot_loc(c.si) == LocPtr::LStack((-(c.si * 8)) as i32));
    assert(((-(c.si * 8)) as i32) as int == -(c.si * 8));
    // A word that is no variable's before the binding is none's behind it.
    assert forall|a: int| a > rsp - c.si * 8 && !located(c.env, rsp, a) implies #[trigger] m3.mem[a]
        == m.mem[a] by {
        if located(c2.env, rsp, a) {
            let other = choose|other: Seq<char>| #[trigger]
                c2.env.contains_key(other) && c2.env[other] is LStack && a == rsp
                    + c2.env[other]->LStack_0;
            assert(other != name);
            assert(c.env.contains_key(other));
        }
        assert(m3.mem[a] == m2.mem[a]);
        assert(m1.mem[a] == m.mem[a]);
    }
    let after = unshadow(vars3, vars1, name);
    assert forall|other: Seq<char>| #[trigger] c.env.contains_key(other) implies {
        &&& after.contains_key(other)
        &&& m3.mem[m3.regs[Reg::RSP] + c.env[other]->LStack_0] == after[other]
    } by {
        if other == name {
            // The word of the name that was shadowed is no variable's in
            // the scope of the binding.
            let a = rsp + c.env[name]->LStack_0;
            if located(c2.env, rsp, a) {
                let third = choose|third: Seq<char>| #[trigger]
                    c2.env.contains_key(third) && c2.env[third] is LStack && a == rsp
                        + c2.env[third]->LStack_0;
                assert(third != name);
                assert(c.env.contains_key(third));
                assert(c.env[third] != c.env[name]);
            }
            assert(m3.mem[a] == m2.mem[a]);
        } else {
            assert(c2.env.contains_key(other));
        }
    }
}

/// Behind code that did what the evaluation of a binding came to, and
/// before code that did what the evaluation in the scope of the binding
/// came to, the two and the write between them do what the binding and
/// its scope come to.
proof fn sim_then_bound(
    c: Scope,
    name: Seq<char>,
    code: Seq<SpecInstr>,
    p: int,
    q1: int,
    q2: int,
    exit: int,
    m: Machine,
    first: Ended,
    n1: nat,
    m1: Machine,
    inner: Ended,
    n3: nat,
    m3: Machine,
)
    requires
        0 <= c.si <= MAX_SI,
        first.out is Value,
        simulated(code, p, q1, exit, m, c, first, n1, m1),
        reaches(code, q1, m1, q1 + 1, store(m1, slot(c.si), m1.regs[Reg::RAX]), 1),
        simulated(
            code,
            q1 + 1,
            q2,
            exit,
            store(m1, slot(c.si), m1.regs[Reg::RAX]),
            bound(c, name),
            inner,
            n3,
            m3,
        ),
    ensures
        simulated(
            code,
            p,
            q2,
            exit,
            m,
            c,
            Ended { out: inner.out, vars: unshadow(inner.vars, first.vars, name) },
            n1 + 1 + n3,
            m3,
        ),
{
    let m2 = store(m1, slot(c.si), m1.regs[Reg::RAX]);
    reaches_on(code, p, m, q1, m1, n1, q1 + 1, m2, 1);
    match inner.out {
        Outcome::Value(_) => {
            reaches_on(code, p, m, q1 + 1, m2, n1 + 1, q2, m3, n3);
            lemma_scope_left(c, name, m, m1, m3, first.vars, inner.vars);
        },
        Outcome::Break(_) => {
            reaches_on(code, p, m, q1 + 1, m2, n1 + 1, exit, m3, n3);
            lemma_scope_left(c, name, m, m1, m3, first.vars, inner.vars);
        },
        Outcome::Error(err) => {
            fails_on(code, p, m, q1 + 1, m2, n1 + 1, err, n3);
        },
        Outcome::Beyond => {},
    }
}

/// The lowering of bindings and of the body in their scope.
pub open spec fn lower_let(
    binds: Seq<(Seq<char>, SpecExpr)>,
    body: SpecExpr,
    c: Scope,
    lbl: int,
) -> Result<Lowered, SpecCompileError> {
    match lower_bindings(binds, c, lbl) {
        Err(x) => Err(x),
        Ok(b) => prepend(b.code, lower(body, Scope { si: b.si, env: b.env, ..c }, b.next)),
    }
}

/// The same, binding by binding.
proof fn lemma_lower_let(binds: Seq<(Seq<char>, SpecExpr)>, body: SpecExpr, c: Scope, lbl: int)
    requires
        binds.len() > 0,
        0 <= c.si <= MAX_SI,
    ensures
        lower_let(binds, body, c, lbl) == (match lower(binds[0].1, c, lbl) {
            Err(x) => Err(x),
            Ok(first) => prepend(
                first.code + seq![SpecInstr::Mov(slot(c.si), reg(Reg::RAX))],
                lower_let(binds.drop_first(), body, bound(c, binds[0].0), first.next),
            ),
        }),
{
    match lower(binds[0].1, c, lbl) {
        Err(x) => {},
        Ok(first) => {
            let c2 = bound(c, binds[0].0);
            let head = first.code + seq![SpecInstr::Mov(slot(c.si), reg(Reg::RAX))];
            match lower_bindings(binds.drop_first(), c2, first.next) {
                Err(x) => {},
                Ok(b) => {
                    let inner = Scope { si: b.si, env: b.env, ..c2 };
                    assert(inner == Scope { si: b.si, env: b.env, ..c });
                    match lower(body, inner, b.next) {
                        Err(x) => {},
                        Ok(l) => {
                            assert((head + b.code) + l.code =~= head + (b.code + l.code));
                        },
                    }
                },
            }
        },
    }
}

/// The code of an expression does what the evaluation of the expression
/// comes to: in some number of steps it comes to its own end with the
/// value, or to the exit of the loop around it with the value of a
/// `break`, or it fails with the code of the error; and it leaves the
/// variables as the evaluation did.
pub proof fn code_runs_as_evaluated(
    e: SpecExpr,
    c: Scope,
    lbl: int,
    code: Seq<SpecInstr>,
    p: int,
    exit: int,
    m: Machine,
    vars: Map<Seq<char>, u64>,
    rounds: nat,
    fns: Seq<SpecFunction>,
) -> (r: (nat, Machine))
    requires
        lower(e, c, lbl) is Ok,
        stands(code, p, lower(e, c, lbl)->Ok_0.code),
        ready(code, exit, m, c, vars),
        linked(code, fns, c.arity),
        roomy(m, rounds),
    ensures
        simulated(
            code,
            p,
            p + lower(e, c, lbl)->Ok_0.code.len(),
            exit,
            m,
            c,
            eval(e, vars, m.regs[Reg::RDI], rounds, fns),
            r.0,
            r.1,
        ),
    decreases rounds, e, 1nat, 0nat,
{
    match e {
        SpecExpr::Number(_) | SpecExpr::Boolean(_) | SpecExpr::Id(_) => sim_leaf(
            e,
            c,
            lbl,
            code,
            p,
            exit,
            m,
            vars,
            rounds,
            fns,
        ),
        SpecExpr::UnOp(_, _) => simulate_unary(e, c, lbl, code, p, exit, m, vars, rounds, fns),
        SpecExpr::BinOp(_, _, _) => simulate_binary(e, c, lbl, code, p, exit, m, vars, rounds, fns),
        SpecExpr::If(_, _, _) => simulate_if(e, c, lbl, code, p, exit, m, vars, rounds, fns),
        SpecExpr::Let(binds, _) => {
            assert(binds.skip(0) =~= binds);
            simulate_let(e, 0, c, lbl, code, p, exit, m, vars, rounds, fns)
        },
        SpecExpr::Assign(_, _) => simulate_assign(e, c, lbl, code, p, exit, m, vars, rounds, fns),
        SpecExpr::Block(es) => simulate_block(es, c, lbl, code, p, exit, m, vars, rounds, fns),
        SpecExpr::Loop(_) => simulate_loop(e, c, lbl, code, p, exit, m, vars, rounds, fns),
        SpecExpr::Break(_) => simulate_break(e, c, lbl, code, p, exit, m, vars, rounds, fns),
        SpecExpr::Call(_, _) => simulate_call(e, c, lbl, code, p, exit, m, vars, rounds, fns),
        _ => (0, m),
    }
}

/// A unary operator.
proof fn simulate_unary(
    e: SpecExpr,
    c: Scope,
    lbl: int,
    code: Seq<SpecInstr>,
    p: int,
    exit: int,
    m: Machine,
    vars: Map<Seq<char>, u64>,
    rounds: nat,
    fns: Seq<SpecFunction>,
) -> (r: (nat, Machine))
    requires
        e is UnOp,
        lower(e, c, lbl) is Ok,
        stands(code, p, lower(e, c, lbl)->Ok_0.code),
        ready(code, exit, m, c, vars),
        linked(code, fns, c.arity),
        roomy(m, rounds),
    ensures
        simulated(
            code,
            p,
            p + lower(e, c, lbl)->Ok_0.code.len(),
            exit,
            m,
            c,
            eval(e, vars, m.regs[Reg::RDI], rounds, fns),
            r.0,
            r.1,
        ),
    decreases rounds, e, 0nat, 0nat,
{
    let first = lower(*e->UnOp_1, c, lbl)->Ok_0.code;
    lemma_stands_apart(code, p, first, unary_code(e->UnOp_0, c.si));
    let (n1, m1) = code_runs_as_evaluated(*e->UnOp_1, c, lbl, code, p, exit, m, vars, rounds, fns);
    sim_then_unary(e, c, lbl, code, p, exit, m, vars, rounds, fns, n1, m1)
}

/// A binary operator.
proof fn simulate_binary(
    e: SpecExpr,
    c: Scope,
    lbl: int,
    code: Seq<SpecInstr>,
    p: int,
    exit: int,
    m: Machine,
    vars: Map<Seq<char>, u64>,
    rounds: nat,
    fns: Seq<SpecFunction>,
) -> (r: (nat, Machine))
    requires
        e is BinOp,
        lower(e, c, lbl) is Ok,
        stands(code, p, lower(e, c, lbl)->Ok_0.code),
        ready(code, exit, m, c, vars),
        linked(code, fns, c.arity),
        roomy(m, rounds),
    ensures
        simulated(
            code,
            p,
            p + lower(e, c, lbl)->Ok_0.code.len(),
            exit,
            m,
            c,
            eval(e, vars, m.regs[Reg::RDI], rounds, fns),
            r.0,
            r.1,
        ),
    decreases rounds, e, 0nat, 0nat,
{
    let rc = lower(*e->BinOp_2, c, lbl)->Ok_0;
    let lc = lower(*e->BinOp_1, above(c), rc.next)->Ok_0;
    let keep = seq![SpecInstr::Mov(slot(c.si), reg(Reg::RAX))];
    let tail = binary_code(e->BinOp_0, c.si);
    assert(lower(e, c, lbl)->Ok_0.code == (rc.code + keep) + (lc.code + tail));
    lemma_stands_apart(code, p, rc.code + keep, lc.code + tail);
    lemma_stands_apart(code, p, rc.code, keep);
    lemma_stands_apart(code, p + rc.code.len() + 1, lc.code, tail);
    let (n1, m1) = code_runs_as_evaluated(*e->BinOp_2, c, lbl, code, p, exit, m, vars, rounds, fns);
    let er = eval(*e->BinOp_2, vars, m.regs[Reg::RDI], rounds, fns);
    if er.out is Value {
        let q1 = p + rc.code.len();
        let m2 = sim_keep(c, code, q1, exit, m1, er.vars);
        let (n3, m3) = code_runs_as_evaluated(
            *e->BinOp_1,
            above(c),
            rc.next,
            code,
            q1 + 1,
            exit,
            m2,
            er.vars,
            rounds,
            fns,
        );
        sim_then_binary(e, c, lbl, code, p, exit, m, vars, rounds, fns, n1, m1, n3, m3)
    } else {
        sim_then_binary(e, c, lbl, code, p, exit, m, vars, rounds, fns, n1, m1, n1, m1)
    }
}

/// An `if`.
proof fn simulate_if(
    e: SpecExpr,
    c: Scope,
    lbl: int,
    code: Seq<SpecInstr>,
    p: int,
    exit: int,
    m: Machine,
    vars: Map<Seq<char>, u64>,
    rounds: nat,
    fns: Seq<SpecFunction>,
) -> (r: (nat, Machine))
    requires
        e is If,
        lower(e, c, lbl) is Ok,
        stands(code, p, lower(e, c, lbl)->Ok_0.code),
        ready(code, exit, m, c, vars),
        linked(code, fns, c.arity),
        roomy(m, rounds),
    ensures
        simulated(
            code,
            p,
            p + lower(e, c, lbl)->Ok_0.code.len(),
            exit,
            m,
            c,
            eval(e, vars, m.regs[Reg::RDI], rounds, fns),
            r.0,
            r.1,
        ),
    decreases rounds, e, 0nat, 0nat,
{
    let a = lower(*e->If_0, c, lbl + 1)->Ok_0;
    let b = lower(*e->If_1, c, a.next)->Ok_0;
    let d = lower(*e->If_2, c, b.next)->Ok_0;
    let else_lbl = label("else_"@ + decimal_text(lbl));
    let endif_lbl = label("endif_"@ + decimal_text(lbl));
    let test = seq![SpecInstr::Cmp(reg(Reg::RAX), imm(3)), SpecInstr::Je(else_lbl)];
    let middle = seq![SpecInstr::Jmp(endif_lbl), SpecInstr::Label(else_lbl)];
    let close = seq![SpecInstr::Label(endif_lbl)];
    let whole = lower(e, c, lbl)->Ok_0.code;
    assert(whole == a.code + test + b.code + middle + d.code + close);
    lemma_stands_apart(code, p, a.code + test + b.code + middle + d.code, close);
    lemma_stands_apart(code, p, a.code + test + b.code + middle, d.code);
    lemma_stands_apart(code, p, a.code + test + b.code, middle);
    lemma_stands_apart(code, p, a.code + test, b.code);
    lemma_stands_apart(code, p, a.code, test);
    let (n1, m1) = code_runs_as_evaluated(*e->If_0, c, lbl + 1, code, p, exit, m, vars, rounds, fns);
    let ec = eval(*e->If_0, vars, m.regs[Reg::RDI], rounds, fns);
    match ec.out {
        Outcome::Value(w) => {
            let q1 = p + a.code.len();
            assert(code[q1] == test[0]) by {
                assert(code.subrange(q1, q1 + 2)[0] == test[0]);
            }
            let m2 = sim_test(c, code, q1, exit, m1, ec.vars);
            let (n3, m3) = if w == 3 {
                code_runs_as_evaluated(
                    *e->If_2,
                    c,
                    b.next,
                    code,
                    second_at(e, c, lbl, p),
                    exit,
                    m2,
                    ec.vars,
                    rounds,
                    fns,
                )
            } else {
                code_runs_as_evaluated(
                    *e->If_1,
                    c,
                    a.next,
                    code,
                    first_at(e, c, lbl, p),
                    exit,
                    m2,
                    ec.vars,
                    rounds,
                    fns,
                )
            };
            sim_then_if(e, c, lbl, code, p, exit, m, vars, rounds, fns, n1, m1, n3, m3)
        },
        _ => sim_then_if(e, c, lbl, code, p, exit, m, vars, rounds, fns, n1, m1, n1, m1),
    }
}

/// A `let`, from its binding of index `from` on.
proof fn simulate_let(
    e: SpecExpr,
    from: int,
    c: Scope,
    lbl: int,
    code: Seq<SpecInstr>,
    p: int,
    exit: int,
    m: Machine,
    vars: Map<Seq<char>, u64>,
    rounds: nat,
    fns: Seq<SpecFunction>,
) -> (r: (nat, Machine))
    requires
        e is Let,
        0 <= from <= e->Let_0.len(),
        lower_let(e->Let_0.skip(from), *e->Let_1, c, lbl) is Ok,
        stands(code, p, lower_let(e->Let_0.skip(from), *e->Let_1, c, lbl)->Ok_0.code),
        ready(code, exit, m, c, vars),
        linked(code, fns, c.arity),
        roomy(m, rounds),
    ensures
        simulated(
            code,
            p,
            p + lower_let(e->Let_0.skip(from), *e->Let_1, c, lbl)->Ok_0.code.len(),
            exit,
            m,
            c,
            eval_let(e, from, vars, m.regs[Reg::RDI], rounds, fns),
            r.0,
            r.1,
        ),
    decreases rounds, e, 0nat, e->Let_0.len() - from,
{
    let binds = e->Let_0.skip(from);
    let body = *e->Let_1;
    let input = m.regs[Reg::RDI];
    if from >= e->Let_0.len() {
        assert(binds =~= Seq::empty());
        assert(Scope { si: c.si, env: c.env, ..c } == c);
        let inner = lower(body, c, lbl)->Ok_0;
        assert(Seq::<SpecInstr>::empty() + inner.code =~= inner.code);
        code_runs_as_evaluated(*e->Let_1, c, lbl, code, p, exit, m, vars, rounds, fns)
    } else {
        assert(0 <= c.si <= MAX_SI) by {
            assert(lower_bindings(binds, c, lbl) is Ok);
        }
        lemma_lower_let(binds, body, c, lbl);
        assert(binds[0] == e->Let_0[from]);
        assert(binds.drop_first() =~= e->Let_0.skip(from + 1));
        let name = e->Let_0[from].0;
        let first = lower(e->Let_0[from].1, c, lbl)->Ok_0;
        let keep = seq![SpecInstr::Mov(slot(c.si), reg(Reg::RAX))];
        let rest = lower_let(e->Let_0.skip(from + 1), body, bound(c, name), first.next)->Ok_0;
        lemma_stands_apart(code, p, first.code + keep, rest.code);
        lemma_stands_apart(code, p, first.code, keep);
        let (n1, m1) = code_runs_as_evaluated(
            e->Let_0[from].1,
            c,
            lbl,
            code,
            p,
            exit,
            m,
            vars,
            rounds,
            fns,
        );
        let r = eval(e->Let_0[from].1, vars, input, rounds, fns);
        match r.out {
            Outcome::Value(w) => {
                let q1 = p + first.code.len();
                let m2 = sim_bind(c, name, code, q1, exit, m1, r.vars);
                let (n3, m3) = simulate_let(
                    e,
                    from + 1,
                    bound(c, name),
                    first.next,
                    code,
                    q1 + 1,
                    exit,
                    m2,
                    r.vars.insert(name, w),
                    rounds,
                    fns,
                );
                let inner = eval_let(e, from + 1, r.vars.insert(name, w), input, rounds, fns);
                sim_then_bound(
                    c,
                    name,
                    code,
                    p,
                    q1,
                    q1 + 1 + rest.code.len(),
                    exit,
                    m,
                    r,
                    n1,
                    m1,
                    inner,
                    n3,
                    m3,
                );
                (n1 + 1 + n3, m3)
            },
            _ => (n1, m1),
        }
    }
}

/// A `set!`.
proof fn simulate_assign(
    e: SpecExpr,
    c: Scope,
    lbl: int,
    code: Seq<SpecInstr>,
    p: int,
    exit: int,
    m: Machine,
    vars: Map<Seq<char>, u64>,
    rounds: nat,
    fns: Seq<SpecFunction>,
) -> (r: (nat, Machine))
    requires
        e is Assign,
        lower(e, c, lbl) is Ok,
        stands(code, p, lower(e, c, lbl)->Ok_0.code),
        ready(code, exit, m, c, vars),
        linked(code, fns, c.arity),
        roomy(m, rounds),
    ensures
        simulated(
            code,
            p,
            p + lower(e, c, lbl)->Ok_0.code.len(),
            exit,
            m,
            c,
            eval(e, vars, m.regs[Reg::RDI], rounds, fns),
            r.0,
            r.1,
        ),
    decreases rounds, e, 0nat, 0nat,
{
    let inner = lower(*e->Assign_1, c, lbl)->Ok_0;
    let write = seq![SpecInstr::Mov(c.env[e->Assign_0].operand(), reg(Reg::RAX))];
    lemma_stands_apart(code, p, inner.code, write);
    let (n1, m1) = code_runs_as_evaluated(*e->Assign_1, c, lbl, code, p, exit, m, vars, rounds, fns);
    sim_then_assign(e, c, lbl, code, p, exit, m, vars, rounds, fns, n1, m1)
}

/// A `break`.
proof fn simulate_break(
    e: SpecExpr,
    c: Scope,
    lbl: int,
    code: Seq<SpecInstr>,
    p: int,
    exit: int,
    m: Machine,
    vars: Map<Seq<char>, u64>,
    rounds: nat,
    fns: Seq<SpecFunction>,
) -> (r: (nat, Machine))
    requires
        e is Break,
        lower(e, c, lbl) is Ok,
        stands(code, p, lower(e, c, lbl)->Ok_0.code),
        ready(code, exit, m, c, vars),
        linked(code, fns, c.arity),
        roomy(m, rounds),
    ensures
        simulated(
            code,
            p,
            p + lower(e, c, lbl)->Ok_0.code.len(),
            exit,
            m,
            c,
            eval(e, vars, m.regs[Reg::RDI], rounds, fns),
            r.0,
            r.1,
        ),
    decreases rounds, e, 0nat, 0nat,
{
    let inner = lower(*e->Break_0, c, lbl)->Ok_0;
    let leave = seq![SpecInstr::Jmp(loop_exit(c.loop_num))];
    lemma_stands_apart(code, p, inner.code, leave);
    let (n1, m1) = code_runs_as_evaluated(*e->Break_0, c, lbl, code, p, exit, m, vars, rounds, fns);
    sim_then_break(e, c, lbl, code, p, exit, m, vars, rounds, fns, n1, m1)
}

/// A loop: one round, and the loop again from where the round ended.
proof fn simulate_loop(
    e: SpecExpr,
    c: Scope,
    lbl: int,
    code: Seq<SpecInstr>,
    p: int,
    exit: int,
    m: Machine,
    vars: Map<Seq<char>, u64>,
    rounds: nat,
    fns: Seq<SpecFunction>,
) -> (r: (nat, Machine))
    requires
        e is Loop,
        lower(e, c, lbl) is Ok,
        stands(code, p, lower(e, c, lbl)->Ok_0.code),
        ready(code, exit, m, c, vars),
        linked(code, fns, c.arity),
        roomy(m, rounds),
    ensures
        simulated(
            code,
            p,
            p + lower(e, c, lbl)->Ok_0.code.len(),
            exit,
            m,
            c,
            eval(e, vars, m.regs[Reg::RDI], rounds, fns),
            r.0,
            r.1,
        ),
    decreases rounds, e, 0nat, 0nat,
{
    if rounds == 0 {
        (0, m)
    } else {
        let body = lower(*e->Loop_0, within(c, lbl), lbl + 1)->Ok_0;
        let loop_lbl = label("loop_"@ + decimal_text(lbl));
        let open = seq![SpecInstr::Label(loop_lbl)];
        let close = seq![SpecInstr::Jmp(loop_lbl), SpecInstr::Label(loop_exit(lbl))];
        let whole = lower(e, c, lbl)->Ok_0.code;
        assert(whole == open + body.code + close);
        lemma_stands_apart(code, p, open + body.code, close);
        lemma_stands_apart(code, p, open, body.code);
        let out = p + 2 + body.code.len();
        assert(code[out] == close[1]) by {
            assert(code.subrange(out - 1, out + 1)[1] == close[1]);
        }
        let before = (rounds - 1) as nat;
        let (n1, m1) = code_runs_as_evaluated(
            *e->Loop_0,
            within(c, lbl),
            lbl + 1,
            code,
            p + 1,
            out,
            m,
            vars,
            before,
            fns,
        );
        let eb = eval(*e->Loop_0, vars, m.regs[Reg::RDI], before, fns);
        if eb.out is Value {
            let (n3, m3) = code_runs_as_evaluated(
                e,
                c,
                lbl,
                code,
                p,
                exit,
                m1,
                eb.vars,
                before,
                fns,
            );
            sim_then_loop(e, c, lbl, code, p, exit, m, vars, rounds, fns, n1, m1, n3, m3)
        } else {
            sim_then_loop(e, c, lbl, code, p, exit, m, vars, rounds, fns, n1, m1, n1, m1)
        }
    }
}

/// A block: its expressions one after the other.
proof fn simulate_block(
    es: Seq<SpecExpr>,
    c: Scope,
    lbl: int,
    code: Seq<SpecInstr>,
    p: int,
    exit: int,
    m: Machine,
    vars: Map<Seq<char>, u64>,
    rounds: nat,
    fns: Seq<SpecFunction>,
) -> (r: (nat, Machine))
    requires
        lower_block(es, c, lbl) is Ok,
        stands(code, p, lower_block(es, c, lbl)->Ok_0.code),
        ready(code, exit, m, c, vars),
        linked(code, fns, c.arity),
        roomy(m, rounds),
    ensures
        simulated(
            code,
            p,
            p + lower_block(es, c, lbl)->Ok_0.code.len(),
            exit,
            m,
            c,
            eval_block(es, vars, m.regs[Reg::RDI], rounds, fns),
            r.0,
            r.1,
        ),
    decreases rounds, es, 0nat, 0nat,
{
    if es.len() == 0 {
        (0, m)
    } else {
        let first = lower(es[0], c, lbl)->Ok_0;
        let rest = lower_block(es.drop_first(), c, first.next)->Ok_0;
        lemma_stands_apart(code, p, first.code, rest.code);
        let (n1, m1) = code_runs_as_evaluated(es[0], c, lbl, code, p, exit, m, vars, rounds, fns);
        let r = eval(es[0], vars, m.regs[Reg::RDI], rounds, fns);
        if es.len() == 1 {
            assert(es.drop_first() =~= Seq::empty());
            assert(first.code + rest.code =~= first.code);
            (n1, m1)
        } else if r.out is Value {
            let q1 = p + first.code.len();
            let (n3, m3) = simulate_block(
                es.drop_first(),
                c,
                first.next,
                code,
                q1,
                exit,
                m1,
                r.vars,
                rounds,
                fns,
            );
            sim_in_sequence(
                c,
                code,
                p,
                q1,
                q1 + rest.code.len(),
                exit,
                m,
                r,
                n1,
                m1,
                eval_block(es.drop_first(), r.vars, m.regs[Reg::RDI], rounds, fns),
                n3,
                m3,
            );
            (n1 + n3, m3)
        } else {
            (n1, m1)
        }
    }
}

/// The arguments of a call come to as many values as they are, or end as
/// one of them did that came to no value.
proof fn lemma_as_many_values(
    args: Seq<SpecExpr>,
    vars: Map<Seq<char>, u64>,
    input: u64,
    rounds: nat,
    fns: Seq<SpecFunction>,
)
    ensures
        eval_arguments(args, vars, input, rounds, fns).out matches Ok(values) ==> values.len()
            == args.len(),
        eval_arguments(args, vars, input, rounds, fns).out matches Err(other) ==> !(other is Value),
    decreases args.len(),
{
    if args.len() > 0 {
        let r = eval(args[0], vars, input, rounds, fns);
        if r.out is Value {
            lemma_as_many_values(args.drop_first(), r.vars, input, rounds, fns);
        }
    }
}

/// Each parameter lives a number of words above the stack pointer, from
/// one word up to as many as there are parameters.
proof fn lemma_parameter_range(names: Seq<Seq<char>>, name: Seq<char>)
    requires
        names.len() <= MAX_SI,
        parameters(names).contains_key(name),
    ensures
        parameters(names)[name] is LStack,
        8 <= parameters(names)[name]->LStack_0 <= names.len() * 8,
    decreases names.len(),
{
    if names.len() > 0 && name != names.last() {
        lemma_parameter_range(names.drop_last(), name);
    }
}

/// Parameter `k`, counted from 0, of parameters with different names
/// lives `k + 1` words above the stack pointer, and has the value of
/// argument `k`.
proof fn lemma_parameter(names: Seq<Seq<char>>, values: Seq<u64>, k: int)
    requires
        names.len() == values.len() <= MAX_SI,
        0 <= k < names.len(),
        forall|i: int, j: int| 0 <= i < j < names.len() ==> names[i] != names[j],
    ensures
        parameters(names).contains_key(names[k]),
        parameters(names)[names[k]] == LocPtr::LStack(((k + 1) * 8) as i32),
        passed(names, values).contains_key(names[k]),
        passed(names, values)[names[k]] == values[k],
    decreases names.len(),
{
    if k < names.len() - 1 {
        lemma_parameter(names.drop_last(), values.drop_last(), k);
    }
}

/// Each name that the parameters bind is that of a parameter.
proof fn lemma_parameter_name(names: Seq<Seq<char>>, name: Seq<char>) -> (k: int)
    requires
        parameters(names).contains_key(name),
    ensures
        0 <= k < names.len(),
        names[k] == name,
    decreases names.len(),
{
    if name == names.last() {
        names.len() - 1
    } else {
        lemma_parameter_name(names.drop_last(), name)
    }
}

/// The value of an argument is written to its word among the free stack
/// words, which leaves the variables held.
proof fn sim_keep_argument(
    c: Scope,
    above: int,
    k: int,
    code: Seq<SpecInstr>,
    q: int,
    exit: int,
    m: Machine,
    m1: Machine,
    vars: Map<Seq<char>, u64>,
    vars1: Map<Seq<char>, u64>,
) -> (m2: Machine)
    requires
        distinct_labels(code),
        c.loop_num > 0 ==> 0 <= exit < code.len() && code[exit] == SpecInstr::Label(
            loop_exit(c.loop_num),
        ),
        placed(c, m, vars),
        c.si <= k < above,
        framed(m1, m, Scope { si: above, ..c }),
        placed(Scope { si: above, ..c }, m1, vars1),
        stands(code, q, seq![SpecInstr::Mov(slot(k), reg(Reg::RAX))]),
    ensures
        m2 == store(m1, slot(k), m1.regs[Reg::RAX]),
        reaches(code, q, m1, q + 1, m2, 1),
        ready(code, exit, m2, c, vars1),
        framed(m2, m, c),
        forall|a: int| a != m.regs[Reg::RSP] - k * 8 ==> #[trigger] m2.mem[a] == m1.mem[a],
        m2.mem[m.regs[Reg::RSP] - k * 8] == m1.regs[Reg::RAX],
{
    let keep = seq![SpecInstr::Mov(slot(k), reg(Reg::RAX))];
    let m2 = store(m1, slot(k), m1.regs[Reg::RAX]);
    run_of_one(keep[0], m1);
    straight_code_flows(code, q, keep, m1);
    let rsp = m.regs[Reg::RSP] as int;
    lemma_lower_place(c, above, m, m1, vars, vars1);
    assert forall|name: Seq<char>| #[trigger] c.env.contains_key(name) implies m2.mem[m2.regs[
        Reg::RSP
    ] + c.env[name]->LStack_0] == vars1[name] by {
        assert(c.env[name]->LStack_0 > -(c.si * 8));
    }
    assert forall|a: int| a > rsp - c.si * 8 && !located(c.env, rsp, a) implies #[trigger] m2.mem[a]
        == m.mem[a] by {
        assert(m1.mem[a] == m.mem[a]);
    }
    m2
}

/// Behind code that did what the evaluation of an argument came to, and
/// before code that did what the evaluation of the arguments behind it
/// came to, the two and the write between them do what the arguments come
/// to together.
proof fn sim_then_arguments(
    c: Scope,
    first: int,
    above: int,
    k: int,
    code: Seq<SpecInstr>,
    p: int,
    q1: int,
    q2: int,
    exit: int,
    m: Machine,
    vars: Map<Seq<char>, u64>,
    head: Ended,
    n1: nat,
    m1: Machine,
    m2: Machine,
    rest: Passed,
    n3: nat,
    m3: Machine,
)
    requires
        placed(c, m, vars),
        0 <= c.si <= first <= k < above,
        rest.out matches Ok(values) ==> values.len() == k - first,
        head.out is Value,
        simulated(code, p, q1, exit, m, Scope { si: above, ..c }, head, n1, m1),
        reaches(code, q1, m1, q1 + 1, m2, 1),
        framed(m2, m, c),
        forall|a: int| a != m.regs[Reg::RSP] - k * 8 ==> #[trigger] m2.mem[a] == m1.mem[a],
        m2.mem[m.regs[Reg::RSP] - k * 8] == head.out->Value_0,
        delivered(code, q1 + 1, q2, exit, m2, c, first, above, rest, n3, m3),
    ensures
        delivered(
            code,
            p,
            q2,
            exit,
            m,
            c,
            first,
            above,
            match rest.out {
                Ok(values) => Passed { out: Ok(seq![head.out->Value_0] + values), vars: rest.vars },
                Err(_) => rest,
            },
            n1 + 1 + n3,
            m3,
        ),
{
    let w = head.out->Value_0;
    let rsp = m.regs[Reg::RSP] as int;
    let cc = Scope { si: above, ..c };
    let lo = Scope { si: first, ..c };
    reaches_on(code, p, m, q1, m1, n1, q1 + 1, m2, 1);
    match rest.out {
        Ok(values) => {
            reaches_on(code, p, m, q1 + 1, m2, n1 + 1, q2, m3, n3);
            let all = seq![w] + values;
            assert forall|j: int| 0 <= j < all.len() implies #[trigger] all[j] == m3.mem[rsp
                - argument_index(first, all.len() as int, j) * 8] by {
                if j > 0 {
                    assert(values[j - 1] == all[j]);
                    assert(argument_index(first, all.len() as int, j) == argument_index(
                        first,
                        values.len() as int,
                        j - 1,
                    ));
                } else {
                    assert(m3.mem[rsp - k * 8] == m2.mem[rsp - k * 8]);
                }
            }
            assert forall|a: int| a > rsp - first * 8 && !located(lo.env, rsp, a) implies #[trigger]
                m3.mem[a] == m.mem[a] by {
                assert(m3.mem[a] == m2.mem[a]);
                assert(m2.mem[a] == m1.mem[a]);
                assert(!located(cc.env, rsp, a));
                assert(m1.mem[a] == m.mem[a]);
            }
            assert forall|a: int| rsp - above * 8 < a <= rsp - (first + all.len()) * 8 implies
                #[trigger] m3.mem[a] == m.mem[a] by {
                assert(m3.mem[a] == m2.mem[a]);
                assert(m2.mem[a] == m1.mem[a]);
                if located(cc.env, rsp, a) {
                    let name = choose|name: Seq<char>| #[trigger]
                        c.env.contains_key(name) && c.env[name] is LStack && a == rsp
                            + c.env[name]->LStack_0;
                    assert(c.env[name]->LStack_0 > -(c.si * 8));
                }
                assert(m1.mem[a] == m.mem[a]);
            }
        },
        Err(Outcome::Break(_)) => {
            reaches_on(code, p, m, q1 + 1, m2, n1 + 1, exit, m3, n3);
            lemma_framed_on(m3, m2, m, c);
        },
        Err(Outcome::Error(err)) => {
            fails_on(code, p, m, q1 + 1, m2, n1 + 1, err, n3);
        },
        Err(_) => {},
    }
}

/// The arguments of a call, in order.
proof fn simulate_arguments(
    args: Seq<SpecExpr>,
    c: Scope,
    first: int,
    above: int,
    lbl: int,
    code: Seq<SpecInstr>,
    p: int,
    exit: int,
    m: Machine,
    vars: Map<Seq<char>, u64>,
    rounds: nat,
    fns: Seq<SpecFunction>,
) -> (r: (nat, Machine))
    requires
        0 <= c.si <= first,
        first + args.len() <= above,
        lower_arguments(args, c, first, above, lbl) is Ok,
        stands(code, p, lower_arguments(args, c, first, above, lbl)->Ok_0.code),
        ready(code, exit, m, c, vars),
        linked(code, fns, c.arity),
        roomy(m, rounds),
    ensures
        delivered(
            code,
            p,
            p + lower_arguments(args, c, first, above, lbl)->Ok_0.code.len(),
            exit,
            m,
            c,
            first,
            above,
            eval_arguments(args, vars, m.regs[Reg::RDI], rounds, fns),
            r.0,
            r.1,
        ),
    decreases rounds, args, 0nat, 0nat,
{
    if args.len() == 0 {
        assert(kept(m, first, Seq::<u64>::empty()));
        lemma_lower_place(c, first, m, m, vars, vars);
        (0, m)
    } else {
        let cc = Scope { si: above, ..c };
        let k = first + args.len() - 1;
        let head = lower(args[0], cc, lbl)->Ok_0;
        let keep = seq![SpecInstr::Mov(slot(k), reg(Reg::RAX))];
        let rest = lower_arguments(args.drop_first(), c, first, above, head.next)->Ok_0;
        lemma_stands_apart(code, p, head.code + keep, rest.code);
        lemma_stands_apart(code, p, head.code, keep);
        let input = m.regs[Reg::RDI];
        let (n1, m1) = code_runs_as_evaluated(
            args[0],
            cc,
            lbl,
            code,
            p,
            exit,
            m,
            vars,
            rounds,
            fns,
        );
        let r = eval(args[0], vars, input, rounds, fns);
        match r.out {
            Outcome::Value(w) => {
                let q1 = p + head.code.len();
                let m2 = sim_keep_argument(c, above, k, code, q1, exit, m, m1, vars, r.vars);
                let (n3, m3) = simulate_arguments(
                    args.drop_first(),
                    c,
                    first,
                    above,
                    head.next,
                    code,
                    q1 + 1,
                    exit,
                    m2,
                    r.vars,
                    rounds,
                    fns,
                );
                lemma_as_many_values(args.drop_first(), r.vars, input, rounds, fns);
                sim_then_arguments(
                    c,
                    first,
                    above,
                    k,
                    code,
                    p,
                    q1,
                    q1 + 1 + rest.code.len(),
                    exit,
                    m,
                    vars,
                    r,
                    n1,
                    m1,
                    m2,
                    eval_arguments(args.drop_first(), r.vars, input, rounds, fns),
                    n3,
                    m3,
                );
                (n1 + 1 + n3, m3)
            },
            Outcome::Break(_) => {
                lemma_lower_place(c, above, m, m1, vars, r.vars);
                (n1, m1)
            },
            _ => (n1, m1),
        }
    }
}

/// The steps into a function: the stack pointer moves below the
/// arguments, the call pushes the return address and goes to the label of
/// the function, and behind the label the body finds each argument where
/// its parameter lives.
proof fn sim_enter(
    code: Seq<SpecInstr>,
    q: int,
    at: int,
    last: int,
    f: SpecFunction,
    arity: Map<Seq<char>, i32>,
    qf: int,
    lf: int,
    m3: Machine,
    values: Seq<u64>,
    rounds: nat,
) -> (m5: Machine)
    requires
        distinct_labels(code),
        code.len() <= u64::MAX,
        stands(code, q, call_code(f.name, last)),
        function_stands(code, qf, f, arity, lf),
        forall|a: int, b: int| 0 <= a < b < f.args.len() ==> f.args[a] != f.args[b],
        f.args.len() == values.len(),
        last == at + values.len() - 1,
        0 <= at,
        last <= MAX_SI,
        m3.whole(),
        rounds > 0,
        roomy(m3, rounds),
        kept(m3, at, values),
    ensures
        reaches(code, q, m3, qf + 1, m5, 3),
        m5.whole(),
        m5.regs[Reg::RSP] == m3.regs[Reg::RSP] - last * 8 - 8,
        m5.regs[Reg::RDI] == m3.regs[Reg::RDI],
        m5.mem == m3.mem.insert(m5.regs[Reg::RSP] as int, (q + 2) as u64),
        placed(inside(f, arity), m5, passed(f.args, values)),
        roomy(m5, (rounds - 1) as nat),
{
    let rsp = reg(Reg::RSP);
    let top = m3.regs[Reg::RSP] as int;
    let tail = call_code(f.name, last);
    assert(code[q] == tail[0] && code[q + 1] == tail[1]) by {
        assert(code.subrange(q, q + 3)[0] == tail[0]);
        assert(code.subrange(q, q + 3)[1] == tail[1]);
    }
    // The stack pointer moves below the arguments.
    let m4 = computed(m3, rsp, top - last * 8);
    assert(signed(m3.regs[Reg::RSP]) == top);
    assert(signed(wrapped(last * 8)) == last * 8);
    assert(step(code[q], m3) == Run::Done(m4));
    let moved = seq![code[q]];
    assert(code.subrange(q, q + 1) =~= moved);
    run_of_one(code[q], m3);
    straight_code_flows(code, q, moved, m3);
    assert(wrapped(top - last * 8) == top - last * 8);
    assert(m4.regs[Reg::RSP] == top - last * 8);
    // The call pushes the return address.
    let fc = lower_function(f, arity, lf)->Ok_0.code;
    assert(code[qf] == fc[0]) by {
        assert(code.subrange(qf, qf + fc.len())[0] == fc[0]);
    }
    call_is_made(code, q + 1, m4, label(f.name), qf);
    let m5 = called(m4, q + 1);
    label_is_passed(code, qf, m5);
    reaches_on(code, q, m3, q + 1, m4, 1, qf, m5, 1);
    reaches_on(code, q, m3, qf, m5, 2, qf + 1, m5, 1);
    // The parameters are where the arguments were kept.
    let names = f.args;
    let env = parameters(names);
    let here = m5.regs[Reg::RSP] as int;
    assert forall|name: Seq<char>| #[trigger] env.contains_key(name) implies {
        &&& passed(names, values).contains_key(name)
        &&& env[name] is LStack
        &&& env[name]->LStack_0 > -8
        &&& m5.mem[here + env[name]->LStack_0] == passed(names, values)[name]
    } by {
        let k = lemma_parameter_name(names, name);
        lemma_parameter(names, values, k);
        assert(values[k] == m3.mem[top - argument_index(at, values.len() as int, k) * 8]);
    }
    assert forall|a: Seq<char>, b: Seq<char>|
        env.contains_key(a) && env.contains_key(b) && a != b implies #[trigger] env[a]
        != #[trigger] env[b] by {
        let i = lemma_parameter_name(names, a);
        let j = lemma_parameter_name(names, b);
        lemma_parameter(names, values, i);
        lemma_parameter(names, values, j);
    }
    m5
}

/// The steps out of a function: `ret` pops the return address and goes on
/// behind the call, where the stack pointer moves back above the
/// arguments.
proof fn sim_leave(
    code: Seq<SpecInstr>,
    q: int,
    name: Seq<char>,
    last: int,
    qr: int,
    m6: Machine,
    top: int,
) -> (m8: Machine)
    requires
        code.len() <= u64::MAX,
        stands(code, q, call_code(name, last)),
        0 <= qr < code.len(),
        code[qr] is Ret,
        m6.whole(),
        m6.regs[Reg::RSP] == top - last * 8 - 8,
        m6.mem[top - last * 8 - 8] == (q + 2) as u64,
        -1 <= last <= MAX_SI,
        top <= 0x4000_0000_0000_0000,
    ensures
        reaches(code, qr, m6, q + 3, m8, 2),
        m8.whole(),
        m8.regs[Reg::RSP] == top,
        m8.regs[Reg::RAX] == m6.regs[Reg::RAX],
        m8.regs[Reg::RDI] == m6.regs[Reg::RDI],
        m8.mem == m6.mem,
{
    let rsp = reg(Reg::RSP);
    let tail = call_code(name, last);
    assert(code[q + 2] == tail[2]) by {
        assert(code.subrange(q, q + 3)[2] == tail[2]);
    }
    return_is_made(code, qr, m6);
    let m7 = returned(m6);
    assert(m7.regs[Reg::RSP] == top - last * 8);
    let m8 = computed(m7, rsp, top);
    assert(signed(m7.regs[Reg::RSP]) == top - last * 8);
    assert(signed(wrapped(last * 8)) == last * 8);
    assert(step(code[q + 2], m7) == Run::Done(m8));
    let moved = seq![code[q + 2]];
    assert(code.subrange(q + 2, q + 3) =~= moved);
    run_of_one(code[q + 2], m7);
    straight_code_flows(code, q + 2, moved, m7);
    reaches_on(code, qr, m6, q + 2, m7, 1, q + 3, m8, 1);
    assert(wrapped(top) == top);
    m8
}

/// What a function left framed and held for its own place, is framed and
/// held for the place of the call: the function works below the words of
/// the caller, and the arguments lie in the free words of the caller.
proof fn lemma_back_from_call(
    c: Scope,
    at: int,
    f: SpecFunction,
    arity: Map<Seq<char>, i32>,
    m: Machine,
    m1: Machine,
    m5: Machine,
    m6: Machine,
    m8: Machine,
    vars: Map<Seq<char>, u64>,
    vars1: Map<Seq<char>, u64>,
)
    requires
        placed(c, m, vars),
        0 <= c.si <= at,
        f.args.len() <= MAX_SI,
        framed(m1, m, Scope { si: at, ..c }),
        placed(Scope { si: at, ..c }, m1, vars1),
        m5.regs[Reg::RSP] == m1.regs[Reg::RSP] - (at + f.args.len() - 1) * 8 - 8,
        m5.regs[Reg::RDI] == m1.regs[Reg::RDI],
        exists|x: u64| m5.mem == m1.mem.insert(m5.regs[Reg::RSP] as int, x),
        framed(m6, m5, inside(f, arity)),
        m8.whole(),
        m8.regs[Reg::RSP] == m1.regs[Reg::RSP],
        m8.regs[Reg::RDI] == m6.regs[Reg::RDI],
        m8.mem == m6.mem,
    ensures
        framed(m8, m, c),
        placed(c, m8, vars1),
        m6.mem[m5.regs[Reg::RSP] as int] == m5.mem[m5.regs[Reg::RSP] as int],
{
    let rsp = m.regs[Reg::RSP] as int;
    let low = m5.regs[Reg::RSP] as int;
    let env = parameters(f.args);
    let callee = inside(f, arity);
    assert forall|a: int| a >= low && a > rsp - at * 8 implies !located(env, low, a) by {
        if located(env, low, a) {
            let name = choose|name: Seq<char>| #[trigger]
                env.contains_key(name) && env[name] is LStack && a == low + env[name]->LStack_0;
            lemma_parameter_range(f.args, name);
        }
    }
    assert(!located(env, low, low)) by {
        if located(env, low, low) {
            let name = choose|name: Seq<char>| #[trigger]
                env.contains_key(name) && env[name] is LStack && low == low + env[name]->LStack_0;
            lemma_parameter_range(f.args, name);
        }
    }
    assert(m6.mem[low] == m5.mem[low]);
    assert forall|a: int| a > rsp - at * 8 implies #[trigger] m8.mem[a] == m1.mem[a] by {
        assert(!located(callee.env, low, a));
        assert(m6.mem[a] == m5.mem[a]);
    }
    assert forall|a: int| a > rsp - c.si * 8 && !located(c.env, rsp, a) implies #[trigger] m8.mem[a]
        == m.mem[a] by {
        assert(m8.mem[a] == m1.mem[a]);
        assert(!located(Scope { si: at, ..c }.env, rsp, a));
        assert(m1.mem[a] == m.mem[a]);
    }
    assert forall|name: Seq<char>| #[trigger] c.env.contains_key(name) implies m8.mem[m8.regs[
        Reg::RSP
    ] + c.env[name]->LStack_0] == vars1[name] by {
        let a = rsp + c.env[name]->LStack_0;
        assert(Scope { si: at, ..c }.env.contains_key(name));
        assert(m8.mem[a] == m1.mem[a]);
    }
}

/// A call: the arguments, the steps into the function, its body, and the
/// steps out of it.
proof fn simulate_call(
    e: SpecExpr,
    c: Scope,
    lbl: int,
    code: Seq<SpecInstr>,
    p: int,
    exit: int,
    m: Machine,
    vars: Map<Seq<char>, u64>,
    rounds: nat,
    fns: Seq<SpecFunction>,
) -> (r: (nat, Machine))
    requires
        e is Call,
        lower(e, c, lbl) is Ok,
        stands(code, p, lower(e, c, lbl)->Ok_0.code),
        ready(code, exit, m, c, vars),
        linked(code, fns, c.arity),
        roomy(m, rounds),
    ensures
        simulated(
            code,
            p,
            p + lower(e, c, lbl)->Ok_0.code.len(),
            exit,
            m,
            c,
            eval(e, vars, m.regs[Reg::RDI], rounds, fns),
            r.0,
            r.1,
        ),
    decreases rounds, e, 0nat, 0nat,
{
    let name = e->Call_0;
    let args = e->Call_1;
    let n = args.len() as int;
    let at = c.si + call_pad(c.si, n);
    let last = at + n - 1;
    let ac = lower_arguments(args, c, at, at + n, lbl)->Ok_0;
    let tail = call_code(name, last);
    assert(lower(e, c, lbl)->Ok_0.code == ac.code + tail);
    lemma_stands_apart(code, p, ac.code, tail);
    let input = m.regs[Reg::RDI];
    let (n1, m1) = simulate_arguments(
        args,
        c,
        at,
        at + n,
        lbl,
        code,
        p,
        exit,
        m,
        vars,
        rounds,
        fns,
    );
    let ea = eval_arguments(args, vars, input, rounds, fns);
    lemma_as_many_values(args, vars, input, rounds, fns);
    assert(last <= MAX_SI) by {
        if n > 0 {
            assert(lower(args[0], Scope { si: at + n, ..c }, lbl) is Ok);
        }
    }
    let ev = eval(e, vars, input, rounds, fns);
    let goal = p + lower(e, c, lbl)->Ok_0.code.len();
    match ea.out {
        Ok(values) => {
            if rounds == 0 {
                assert(simulated(code, p, goal, exit, m, c, ev, n1, m1));
                (n1, m1)
            } else {
                assert(callable(code, fns, c.arity, name));
                let f = fns[found(fns, name)->0];
                let (qf, lf) = choose|q: int, l: int| #[trigger]
                    function_stands(code, q, f, c.arity, l);
                let q = p + ac.code.len();
                let m5 = sim_enter(code, q, at, last, f, c.arity, qf, lf, m1, values, rounds);
                let callee = inside(f, c.arity);
                let body = lower(f.body, callee, lf)->Ok_0;
                let open = seq![SpecInstr::Label(label(f.name))];
                let close = seq![SpecInstr::Ret];
                assert(lower_function(f, c.arity, lf)->Ok_0.code == open + (body.code + close));
                lemma_stands_apart(code, qf, open, body.code + close);
                lemma_stands_apart(code, qf + 1, body.code, close);
                let before = (rounds - 1) as nat;
                let (n6, m6) = code_runs_as_evaluated(
                    f.body,
                    callee,
                    lf,
                    code,
                    qf + 1,
                    0,
                    m5,
                    passed(f.args, values),
                    before,
                    fns,
                );
                let eb = eval(f.body, passed(f.args, values), input, before, fns);
                reaches_on(code, p, m, q, m1, n1, qf + 1, m5, 3);
                match eb.out {
                    Outcome::Value(w) => {
                        let qr = qf + 1 + body.code.len();
                        assert(code[qr] == close[0]) by {
                            assert(code.subrange(qr, qr + 1)[0] == close[0]);
                        }
                        reaches_on(code, p, m, qf + 1, m5, n1 + 3, qr, m6, n6);
                        let top = m1.regs[Reg::RSP] as int;
                        assert(framed(m6, m5, callee));
                        assert(m6.mem[m5.regs[Reg::RSP] as int] == m5.mem[m5.regs[Reg::RSP] as int])
                            by {
                            lemma_return_address(f, c.arity, m5, m6);
                        }
                        let m8 = sim_leave(code, q, name, last, qr, m6, top);
                        reaches_on(code, p, m, qr, m6, n1 + 3 + n6, q + 3, m8, 2);
                        lemma_back_from_call(c, at, f, c.arity, m, m1, m5, m6, m8, vars, ea.vars);
                        assert(ev.out == Outcome::Value(w));
                        assert(goal == q + 3);
                        assert(simulated(code, p, goal, exit, m, c, ev, (n1 + 3 + n6 + 2) as nat, m8));
                        (n1 + 3 + n6 + 2, m8)
                    },
                    Outcome::Error(err) => {
                        fails_on(code, p, m, qf + 1, m5, n1 + 3, err, n6);
                        assert(simulated(code, p, goal, exit, m, c, ev, (n1 + 3 + n6) as nat, m6));
                        (n1 + 3 + n6, m6)
                    },
                    _ => {
                        assert(simulated(code, p, goal, exit, m, c, ev, n1, m1));
                        (n1, m1)
                    },
                }
            }
        },
        Err(Outcome::Break(_)) => {
            assert(simulated(code, p, goal, exit, m, c, ev, n1, m1));
            (n1, m1)
        },
        _ => {
            assert(simulated(code, p, goal, exit, m, c, ev, n1, m1));
            (n1, m1)
        },
    }
}

/// What is framed and held for a place of a higher stack index, is so for
/// the place of a lower one with the same variables.
proof fn lemma_lower_place(
    c: Scope,
    at: int,
    m: Machine,
    m1: Machine,
    vars: Map<Seq<char>, u64>,
    vars1: Map<Seq<char>, u64>,
)
    requires
        placed(c, m, vars),
        c.si <= at,
        framed(m1, m, Scope { si: at, ..c }),
        placed(Scope { si: at, ..c }, m1, vars1),
    ensures
        framed(m1, m, c),
        placed(c, m1, vars1),
{
    let cc = Scope { si: at, ..c };
    let rsp = m.regs[Reg::RSP] as int;
    assert forall|a: int| a > rsp - c.si * 8 && !located(c.env, rsp, a) implies #[trigger] m1.mem[a]
        == m.mem[a] by {
        assert(!located(cc.env, rsp, a));
    }
    assert forall|name: Seq<char>| #[trigger] c.env.contains_key(name) implies {
        &&& vars1.contains_key(name)
        &&& m1.mem[m1.regs[Reg::RSP] + c.env[name]->LStack_0] == vars1[name]
    } by {
        assert(cc.env.contains_key(name));
    }
}

/// The function leaves the return address where the call pushed it.
proof fn lemma_return_address(f: SpecFunction, arity: Map<Seq<char>, i32>, m5: Machine, m6: Machine)
    requires
        f.args.len() <= MAX_SI,
        framed(m6, m5, inside(f, arity)),
    ensures
        m6.mem[m5.regs[Reg::RSP] as int] == m5.mem[m5.regs[Reg::RSP] as int],
{
    let low = m5.regs[Reg::RSP] as int;
    let env = parameters(f.args);
    if located(env, low, low) {
        let name = choose|name: Seq<char>| #[trigger]
            env.contains_key(name) && env[name] is LStack && low == low + env[name]->LStack_0;
        lemma_parameter_range(f.args, name);
    }
}

} // verus!
