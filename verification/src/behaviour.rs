//! What the code of the operators does on the model of the processor: it
//! computes the tagged result, or it leaves for the error trampoline with
//! the code of the error.

use crate::flow::{fails, fails_on, jump_is_passed, jump_is_taken, label_is_passed, reaches,
    reaches_on, straight_code_flows};
use crate::labels::distinct_labels;
use crate::lowering::{binary_code, bool_value, select, unary_code};
use crate::machine::{computed, fits, flagged, read, run, run_in_two_parts, run_of_one, step,
    store, tested, wrapped, Machine, Run};
use crate::runtime::{signed, untagged, word_of};
use crate::text::decimal_text;
use crate::types::{Op1, Op1Type, Op2, Op2Type, Reg, SpecInstr, SpecVal, ValCheck};
use crate::utils::{error_target, imm, in_range, label, mismatch_check, overflow_check, reg, slot};
use vstd::prelude::*;

verus! {

/// Whether code that started in the state `m` ran to its end with the
/// word `rax` in `rax`, and with the stack pointer, the input in `rdi` and
/// the memory as they were.
pub open spec fn settles(end: Run, m: Machine, rax: u64) -> bool {
    &&& end matches Run::Done(e)
    &&& e.whole()
    &&& e.regs[Reg::RAX] == rax
    &&& e.regs[Reg::RSP] == m.regs[Reg::RSP]
    &&& e.regs[Reg::RDI] == m.regs[Reg::RDI]
    &&& e.mem == m.mem
}

/// Whether the word `w` is tagged as an integer: its low bit is clear.
pub open spec fn is_integer(w: u64) -> bool {
    w % 2 == 0
}

/// The state behind an inline check that passed: the error code is left in
/// `rdx`, and the flags are those of the test.
pub open spec fn checked(m: Machine, code: u64, zero: bool, sign: bool) -> Machine {
    Machine { regs: m.regs.insert(Reg::RDX, code), zero: zero, sign: sign, overflow: false, ..m }
}

/// The integer check of an operand other than `rdx` fails with the code of
/// a mismatch where the word is no integer, and else changes `rdx` and the
/// flags only.
proof fn lemma_integer_check(v: SpecVal, m: Machine)
    requires
        m.whole(),
        v != reg(Reg::RDX),
        !(v is Label),
        !(v is Imm),
    ensures
        !is_integer(read(m, v)) ==> run(mismatch_check(v, None, ValCheck::Integer, 0), m)
            == Run::Failed(7),
        is_integer(read(m, v)) ==> run(mismatch_check(v, None, ValCheck::Integer, 0), m)
            == Run::Done(checked(m, 7, true, false)),
{
    reveal_with_fuel(run, 4);
    let x = read(m, v);
    let one = wrapped(1);
    assert(one == 1);
    assert((x & 1 == 0) <==> (x % 2 == 0)) by (bit_vector);
    assert(x & 1 == 0 || x & 1 == 1) by (bit_vector);
    let code = mismatch_check(v, None, ValCheck::Integer, 0);
    assert(code.drop_first().drop_first().drop_first() =~= Seq::<SpecInstr>::empty());
    let m1 = tested(m, x & one);
    assert(step(code[0], m) == Run::Done(m1));
    let m2 = store(m1, reg(Reg::RDX), wrapped(7));
    assert(wrapped(7) == 7);
    assert(step(code.drop_first()[0], m1) == Run::Done(m2));
    if is_integer(x) {
        assert(m2 == checked(m, 7, true, false));
    }
}

/// The overflow check fails with the code of an overflow where the
/// overflow flag is set, and else changes `rdx` only.
proof fn lemma_overflow_check(m: Machine)
    requires
        m.whole(),
    ensures
        m.overflow ==> run(overflow_check(), m) == Run::Failed(8),
        !m.overflow ==> run(overflow_check(), m) == Run::Done(
            Machine { regs: m.regs.insert(Reg::RDX, 8), ..m },
        ),
{
    reveal_with_fuel(run, 3);
    let code = overflow_check();
    assert(wrapped(8) == 8);
    assert(code.drop_first().drop_first() =~= Seq::<SpecInstr>::empty());
}

/// The result of an arithmetic operator on two integers.
pub open spec fn arithmetic(op: Op2, x: int, y: int) -> int {
    match op {
        Op2::Plus => x + y,
        Op2::Minus => x - y,
        _ => x * y,
    }
}

/// The result of a comparison operator on two integers.
pub open spec fn comparison(op: Op2, x: int, y: int) -> bool {
    match op {
        Op2::Lt => x < y,
        Op2::Gt => x > y,
        Op2::Lte => x <= y,
        Op2::Gte => x >= y,
        _ => x == y,
    }
}

/// The tag checks of an operator that takes two integers, the left one in
/// `rax` and the right one in the stack word `si`.
proof fn lemma_both_integers(si: int, m: Machine)
    requires
        m.whole(),
    ensures
        ({
            let checks = mismatch_check(reg(Reg::RAX), None, ValCheck::Integer, 0)
                + mismatch_check(slot(si), None, ValCheck::Integer, 0);
            let a = m.regs[Reg::RAX];
            let b = read(m, slot(si));
            &&& !is_integer(a) || !is_integer(b) ==> run(checks, m) == Run::Failed(7)
            &&& is_integer(a) && is_integer(b) ==> run(checks, m) == Run::Done(
                checked(m, 7, true, false),
            )
        }),
{
    let first = mismatch_check(reg(Reg::RAX), None, ValCheck::Integer, 0);
    let second = mismatch_check(slot(si), None, ValCheck::Integer, 0);
    lemma_integer_check(reg(Reg::RAX), m);
    run_in_two_parts(first, second, m);
    if is_integer(m.regs[Reg::RAX]) {
        let m1 = checked(m, 7, true, false);
        assert(read(m1, slot(si)) == read(m, slot(si)));
        lemma_integer_check(slot(si), m1);
        if is_integer(read(m, slot(si))) {
            assert(checked(m1, 7, true, false) == checked(m, 7, true, false)) by {
                assert(m1.regs.insert(Reg::RDX, 7) =~= m.regs.insert(Reg::RDX, 7));
            }
        }
    }
}

/// The instructions of an arithmetic operator between its checks.
pub open spec fn operation(op: Op2, right: SpecVal) -> Seq<SpecInstr> {
    let rax = reg(Reg::RAX);
    match op {
        Op2::Plus => seq![SpecInstr::Add(rax, right)],
        Op2::Minus => seq![SpecInstr::Sub(rax, right)],
        _ => seq![SpecInstr::Sar(rax, imm(1)), SpecInstr::IMul(rax, right)],
    }
}

/// Whether code that started in the state `m` ran to its end with the
/// signed result `i` in `rax`, cut to a word, with the overflow flag set
/// where `i` does not fit.
spec fn yields(end: Run, m: Machine, i: int) -> bool {
    settles(end, m, wrapped(i)) && end->Done_0.overflow == !fits(i)
}

/// On two tagged integers, `add` and `sub` leave twice the sum and twice
/// the difference.
proof fn lemma_sum(op: Op2, right: SpecVal, m: Machine)
    requires
        m.whole(),
        op == Op2::Plus || op == Op2::Minus,
        right is MemPtr,
        is_integer(m.regs[Reg::RAX]),
        is_integer(read(m, right)),
    ensures
        yields(
            run(operation(op, right), m),
            m,
            2 * arithmetic(op, untagged(m.regs[Reg::RAX]), untagged(read(m, right))),
        ),
{
    let a = m.regs[Reg::RAX];
    let b = read(m, right);
    assert(signed(a) == 2 * untagged(a));
    assert(signed(b) == 2 * untagged(b));
    run_of_one(operation(op, right)[0], m);
    assert(operation(op, right) =~= seq![operation(op, right)[0]]);
}

/// On two tagged integers, halving the left one and multiplying leaves
/// twice the product.
proof fn lemma_product(right: SpecVal, m: Machine)
    requires
        m.whole(),
        right matches SpecVal::MemPtr(r, _) && r != Reg::RAX,
        is_integer(m.regs[Reg::RAX]),
        is_integer(read(m, right)),
    ensures
        yields(
            run(operation(Op2::Times, right), m),
            m,
            2 * (untagged(m.regs[Reg::RAX]) * untagged(read(m, right))),
        ),
{
    let rax = reg(Reg::RAX);
    let a = m.regs[Reg::RAX];
    let b = read(m, right);
    let x = untagged(a);
    let y = untagged(b);
    assert(signed(a) == 2 * x);
    assert(signed(b) == 2 * y);
    let code = operation(Op2::Times, right);
    assert(wrapped(1) == 1);
    let half = computed(m, rax, signed(a) / 2);
    assert(step(code[0], m) == Run::Done(half));
    assert(half.regs[Reg::RAX] == wrapped(x));
    assert(signed(wrapped(x)) == x);
    assert(read(half, right) == b);
    assert(x * (2 * y) == 2 * (x * y)) by (nonlinear_arith);
    assert(code.drop_first() =~= seq![SpecInstr::IMul(rax, right)]);
    run_of_one(SpecInstr::IMul(rax, right), half);
    assert(run(code, m) == run(code.drop_first(), half));
}

/// `+`, `-` and `*` on the model: with the left operand in `rax` and the
/// right one in the stack word `si`, the code of the operator fails with
/// the code of a mismatch unless both are integers; it fails with the code
/// of an overflow where the result is no integer of the language; and else
/// it leaves the tagged result in `rax` and the memory as it was.
pub proof fn arithmetic_is_computed_or_refused(op: Op2, si: int, m: Machine)
    requires
        m.whole(),
        op.kind() == Op2Type::Arithmetic,
    ensures
        ({
            let a = m.regs[Reg::RAX];
            let b = read(m, slot(si));
            let r = arithmetic(op, untagged(a), untagged(b));
            let end = run(binary_code(op, si), m);
            &&& !is_integer(a) || !is_integer(b) ==> end == Run::Failed(7)
            &&& is_integer(a) && is_integer(b) && !in_range(r) ==> end == Run::Failed(8)
            &&& is_integer(a) && is_integer(b) && in_range(r) ==> settles(end, m, word_of(2 * r))
        }),
{
    let rax = reg(Reg::RAX);
    let right = slot(si);
    let a = m.regs[Reg::RAX];
    let b = read(m, right);
    let checks = mismatch_check(rax, None, ValCheck::Integer, 0) + mismatch_check(
        right,
        None,
        ValCheck::Integer,
        0,
    );
    let work = operation(op, right);
    assert(binary_code(op, si) == checks + (work + overflow_check()));
    lemma_both_integers(si, m);
    run_in_two_parts(checks, work + overflow_check(), m);
    if is_integer(a) && is_integer(b) {
        let m1 = checked(m, 7, true, false);
        assert(read(m1, right) == b);
        assert(m1.regs[Reg::RAX] == a);
        let r = arithmetic(op, untagged(a), untagged(b));
        if op == Op2::Times {
            lemma_product(right, m1);
        } else {
            lemma_sum(op, right, m1);
        }
        run_in_two_parts(work, overflow_check(), m1);
        let m2 = run(work, m1);
        lemma_overflow_check(m2->Done_0);
        assert(fits(2 * r) <==> in_range(r));
        if in_range(r) {
            assert(wrapped(2 * r) == word_of(2 * r));
        }
    }
}

/// `<`, `>`, `<=` and `>=` on the model: the code of the operator fails
/// with the code of a mismatch unless both operands are integers, and else
/// leaves `true` or `false` in `rax` and the memory as it was.
pub proof fn comparison_is_computed_or_refused(op: Op2, si: int, m: Machine)
    requires
        m.whole(),
        op.kind() == Op2Type::Relational,
    ensures
        ({
            let a = m.regs[Reg::RAX];
            let b = read(m, slot(si));
            let end = run(binary_code(op, si), m);
            &&& !is_integer(a) || !is_integer(b) ==> end == Run::Failed(7)
            &&& is_integer(a) && is_integer(b) ==> settles(
                end,
                m,
                word_of(bool_value(comparison(op, untagged(a), untagged(b)))),
            )
        }),
{
    let rax = reg(Reg::RAX);
    let rbx = reg(Reg::RBX);
    let right = slot(si);
    let a = m.regs[Reg::RAX];
    let b = read(m, right);
    let checks = mismatch_check(rax, None, ValCheck::Integer, 0) + mismatch_check(
        right,
        None,
        ValCheck::Integer,
        0,
    );
    let operation = seq![
        SpecInstr::Cmp(rax, right),
        SpecInstr::Mov(rax, imm(3)),
        SpecInstr::Mov(rbx, imm(7)),
        select(op, rax, rbx),
    ];
    assert(binary_code(op, si) == checks + operation);
    lemma_both_integers(si, m);
    run_in_two_parts(checks, operation, m);
    if is_integer(a) && is_integer(b) {
        let m1 = checked(m, 7, true, false);
        assert(read(m1, right) == b);
        assert(m1.regs[Reg::RAX] == a);
        lemma_compare_and_select(op, right, m1);
        assert(signed(a) == 2 * untagged(a));
        assert(signed(b) == 2 * untagged(b));
    }
}

/// A comparison of `rax` with an operand, and the conditional move of
/// `true` over `false` behind it, leave in `rax` whether the signed words
/// compare as the operator says.
proof fn lemma_compare_and_select(op: Op2, right: SpecVal, m: Machine)
    requires
        m.whole(),
        op.kind() != Op2Type::Arithmetic,
        right is MemPtr,
    ensures
        ({
            let operation = seq![
                SpecInstr::Cmp(reg(Reg::RAX), right),
                SpecInstr::Mov(reg(Reg::RAX), imm(3)),
                SpecInstr::Mov(reg(Reg::RBX), imm(7)),
                select(op, reg(Reg::RAX), reg(Reg::RBX)),
            ];
            settles(
                run(operation, m),
                m,
                word_of(
                    bool_value(comparison(op, signed(m.regs[Reg::RAX]), signed(read(m, right)))),
                ),
            )
        }),
{
    reveal_with_fuel(run, 5);
    let rax = reg(Reg::RAX);
    let rbx = reg(Reg::RBX);
    let operation = seq![
        SpecInstr::Cmp(rax, right),
        SpecInstr::Mov(rax, imm(3)),
        SpecInstr::Mov(rbx, imm(7)),
        select(op, rax, rbx),
    ];
    let x = signed(m.regs[Reg::RAX]);
    let y = signed(read(m, right));
    let m1 = flagged(m, x - y);
    assert(step(operation[0], m) == Run::Done(m1));
    assert(wrapped(3) == 3 && wrapped(7) == 7);
    let m2 = store(m1, rax, 3);
    let m3 = store(m2, rbx, 7);
    assert(operation.drop_first()[0] == SpecInstr::Mov(rax, imm(3)));
    assert(operation.drop_first().drop_first()[0] == SpecInstr::Mov(rbx, imm(7)));
    assert(operation.drop_first().drop_first().drop_first()[0] == select(op, rax, rbx));
    assert(operation.drop_first().drop_first().drop_first().drop_first() =~= Seq::<
        SpecInstr,
    >::empty());
    // The flags of a difference tell the order of the two signed words.
    assert(m1.zero <==> x == y);
    assert((m1.sign != m1.overflow) <==> x < y);
    assert(m3.regs[Reg::RBX] == 7);
    assert(m3.regs[Reg::RAX] == 3);
    assert(word_of(7) == 7 && word_of(3) == 3);
}

/// `=` on the model: the code of the operator fails with the code of a
/// mismatch where one operand is an integer and the other is not, and else
/// leaves in `rax` whether the two words are the same, and the memory as it
/// was.
pub proof fn equality_is_computed_or_refused(si: int, m: Machine)
    requires
        m.whole(),
    ensures
        ({
            let a = m.regs[Reg::RAX];
            let b = read(m, slot(si));
            let end = run(binary_code(Op2::Equal, si), m);
            &&& is_integer(a) != is_integer(b) ==> end == Run::Failed(7)
            &&& is_integer(a) == is_integer(b) ==> settles(end, m, word_of(bool_value(a == b)))
        }),
{
    let rax = reg(Reg::RAX);
    let rbx = reg(Reg::RBX);
    let right = slot(si);
    let a = m.regs[Reg::RAX];
    let b = read(m, right);
    let mix = seq![SpecInstr::Mov(rbx, rax), SpecInstr::Xor(rbx, right)];
    let check = mismatch_check(rbx, None, ValCheck::Integer, 0);
    let operation = seq![
        SpecInstr::Cmp(rax, right),
        SpecInstr::Mov(rax, imm(3)),
        SpecInstr::Mov(rbx, imm(7)),
        select(Op2::Equal, rax, rbx),
    ];
    assert(binary_code(Op2::Equal, si) == mix + (check + operation)) by {
        assert(binary_code(Op2::Equal, si) =~= mix + (check + operation));
    }
    run_in_two_parts(mix, check + operation, m);
    // The low bit of the mix is clear where the low bits of the two agree.
    assert(((a ^ b) % 2 == 0) <==> (a % 2 == b % 2)) by (bit_vector);
    let m1 = store(m, rbx, a);
    let m2 = tested(store(m1, rbx, a ^ b), a ^ b);
    assert(run(mix, m) == Run::Done(m2)) by {
        reveal_with_fuel(run, 3);
        assert(mix.drop_first().drop_first() =~= Seq::<SpecInstr>::empty());
        assert(step(mix[0], m) == Run::Done(m1));
        assert(read(m1, rbx) == a);
        assert(read(m1, right) == b);
    }
    assert(read(m2, rbx) == a ^ b);
    lemma_integer_check(rbx, m2);
    run_in_two_parts(check, operation, m2);
    if is_integer(a) == is_integer(b) {
        let m3 = checked(m2, 7, true, false);
        assert(m3.regs[Reg::RAX] == a);
        assert(read(m3, right) == b);
        lemma_compare_and_select(Op2::Equal, right, m3);
        assert(signed(a) == signed(b) <==> a == b);
    }
}

/// `add1` and `sub1` on the model: the code of the operator fails with the
/// code of a mismatch unless the operand, in `rax`, is an integer; it
/// fails with the code of an overflow where the result is no integer of the
/// language; and else it leaves the tagged result in `rax`.
pub proof fn step_by_one_is_computed_or_refused(op: Op1, si: int, m: Machine)
    requires
        m.whole(),
        op.kind() == Op1Type::Arithmetic,
    ensures
        ({
            let a = m.regs[Reg::RAX];
            let r = if op == Op1::Add1 {
                untagged(a) + 1
            } else {
                untagged(a) - 1
            };
            let end = run(unary_code(op, si), m);
            &&& !is_integer(a) ==> end == Run::Failed(7)
            &&& is_integer(a) && !in_range(r) ==> end == Run::Failed(8)
            &&& is_integer(a) && in_range(r) ==> settles(end, m, word_of(2 * r))
        }),
{
    let rax = reg(Reg::RAX);
    let a = m.regs[Reg::RAX];
    let check = mismatch_check(rax, None, ValCheck::Integer, 0);
    let operation = if op == Op1::Add1 {
        seq![SpecInstr::Add(rax, imm(2))]
    } else {
        seq![SpecInstr::Sub(rax, imm(2))]
    };
    assert(unary_code(op, si) == check + (operation + overflow_check()));
    lemma_integer_check(rax, m);
    run_in_two_parts(check, operation + overflow_check(), m);
    if is_integer(a) {
        let m1 = checked(m, 7, true, false);
        assert(m1.regs[Reg::RAX] == a);
        assert(signed(a) == 2 * untagged(a));
        assert(wrapped(2) == 2 && signed(2) == 2);
        run_in_two_parts(operation, overflow_check(), m1);
        run_of_one(operation[0], m1);
        let r = if op == Op1::Add1 {
            untagged(a) + 1
        } else {
            untagged(a) - 1
        };
        let m2 = run(operation, m1);
        assert(yields(m2, m1, 2 * r));
        lemma_overflow_check(m2->Done_0);
        if in_range(r) {
            assert(wrapped(2 * r) == word_of(2 * r));
        }
    }
}

/// `isnum` and `isbool` on the model: the code of the operator accepts
/// every word, and leaves in `rax` whether the word is an integer, or
/// whether it is none.
pub proof fn kind_is_told(op: Op1, si: int, m: Machine)
    requires
        m.whole(),
        op.kind() == Op1Type::TypeCheck,
    ensures
        settles(
            run(unary_code(op, si), m),
            m,
            word_of(
                bool_value(
                    if op == Op1::IsNum {
                        is_integer(m.regs[Reg::RAX])
                    } else {
                        !is_integer(m.regs[Reg::RAX])
                    },
                ),
            ),
        ),
{
    reveal_with_fuel(run, 5);
    let rax = reg(Reg::RAX);
    let rbx = reg(Reg::RBX);
    let a = m.regs[Reg::RAX];
    let code = unary_code(op, si);
    let yes: int = if op == Op1::IsNum { 7 } else { 3 };
    let no: int = if op == Op1::IsNum { 3 } else { 7 };
    assert(code =~= seq![
        SpecInstr::Test(rax, imm(1)),
        SpecInstr::Mov(rbx, imm(yes)),
        SpecInstr::Mov(rax, imm(no)),
        SpecInstr::CMove(rax, rbx),
    ]);
    assert(wrapped(1) == 1 && wrapped(3) == 3 && wrapped(7) == 7);
    assert(word_of(7) == 7 && word_of(3) == 3);
    assert((a & 1 == 0) <==> (a % 2 == 0)) by (bit_vector);
    let m1 = tested(m, a & 1);
    assert(step(code[0], m) == Run::Done(m1));
    let m2 = store(m1, rbx, wrapped(yes));
    let m3 = store(m2, rax, wrapped(no));
    assert(code.drop_first()[0] == SpecInstr::Mov(rbx, imm(yes)));
    assert(code.drop_first().drop_first()[0] == SpecInstr::Mov(rax, imm(no)));
    assert(code.drop_first().drop_first().drop_first()[0] == SpecInstr::CMove(rax, rbx));
    assert(code.drop_first().drop_first().drop_first().drop_first() =~= Seq::<
        SpecInstr,
    >::empty());
    assert(m3.regs[Reg::RBX] == wrapped(yes));
    assert(m3.zero == is_integer(a));
}

/// A load of an immediate that fits a word leaves the word of that integer
/// in `rax`.
pub proof fn immediate_is_loaded(i: int, m: Machine)
    requires
        m.whole(),
        fits(i),
    ensures
        settles(run(seq![SpecInstr::Mov(reg(Reg::RAX), imm(i))], m), m, word_of(i)),
{
    run_of_one(SpecInstr::Mov(reg(Reg::RAX), imm(i)), m);
}

/// A move from `rdi` leaves in `rax` the word that was passed in `rdi`.
pub proof fn argument_is_loaded(m: Machine)
    requires
        m.whole(),
    ensures
        settles(run(seq![SpecInstr::Mov(reg(Reg::RAX), reg(Reg::RDI))], m), m, m.regs[Reg::RDI]),
{
    run_of_one(SpecInstr::Mov(reg(Reg::RAX), reg(Reg::RDI)), m);
}

/// Whether the operand `v` holds the same whatever is written to `rdx`.
pub open spec fn apart_from_rdx(v: SpecVal) -> bool {
    match v {
        SpecVal::Reg(r) => r != Reg::RDX,
        SpecVal::MemPtr(r, _) => r != Reg::RDX,
        _ => true,
    }
}

/// Whether the state `end` is the state `m` but for `rdx` and the flags.
pub open spec fn only_rdx_written(end: Machine, m: Machine) -> bool {
    &&& end.whole()
    &&& end.mem == m.mem
    &&& forall|r: Reg| r != Reg::RDX ==> end.regs[r] == m.regs[r]
}

/// The second half of the check of two kinds: with the first value in
/// `rdx`, it fails with the code of a mismatch where the low bits of the
/// two values differ, and else writes `rdx` and the flags only.
proof fn lemma_same_kind(other: SpecVal, m: Machine)
    requires
        m.whole(),
        apart_from_rdx(other),
    ensures
        ({
            let rdx = reg(Reg::RDX);
            let part = seq![
                SpecInstr::Xor(rdx, other),
                SpecInstr::Test(rdx, imm(1)),
                SpecInstr::Mov(rdx, imm(7)),
                SpecInstr::Jne(error_target()),
            ];
            let a = m.regs[Reg::RDX];
            let b = read(m, other);
            &&& is_integer(a) != is_integer(b) ==> run(part, m) == Run::Failed(7)
            &&& is_integer(a) == is_integer(b) ==> (run(part, m) matches Run::Done(end)
                && only_rdx_written(end, m))
        }),
{
    let rdx = reg(Reg::RDX);
    let part = seq![
        SpecInstr::Xor(rdx, other),
        SpecInstr::Test(rdx, imm(1)),
        SpecInstr::Mov(rdx, imm(7)),
        SpecInstr::Jne(error_target()),
    ];
    let a = m.regs[Reg::RDX];
    let b = read(m, other);
    let x = a ^ b;
    reveal_with_fuel(run, 5);
    assert(wrapped(1) == 1 && wrapped(7) == 7);
    assert(((a ^ b) & 1 == 0) <==> (a % 2 == b % 2)) by (bit_vector);
    let m1 = tested(store(m, rdx, x), x);
    assert(step(part[0], m) == Run::Done(m1));
    let m2 = tested(m1, x & 1);
    assert(step(part[1], m1) == Run::Done(m2));
    let m3 = store(m2, rdx, 7);
    assert(step(part[2], m2) == Run::Done(m3));
    let rest1 = part.drop_first();
    let rest2 = rest1.drop_first();
    let rest3 = rest2.drop_first();
    assert(rest1[0] == part[1] && rest2[0] == part[2] && rest3[0] == part[3]);
    assert(rest3.drop_first() =~= Seq::<SpecInstr>::empty());
    assert(run(part, m) == run(rest1, m1));
    assert(run(rest1, m1) == run(rest2, m2));
    assert(run(rest2, m2) == run(rest3, m3));
}

/// The check of two kinds on the model, which `=` asks for: it fails with
/// the code of a mismatch exactly where one of the two values is an
/// integer and the other is not. Where both are integers, or neither is,
/// it runs to its end, and has written `rdx` and the flags only.
pub proof fn kinds_are_compared(check: SpecVal, other: SpecVal, lbl: int, m: Machine) -> (end:
    Machine)
    requires
        m.whole(),
        apart_from_rdx(check),
        apart_from_rdx(other),
    ensures
        ({
            let code = mismatch_check(check, Some(other), ValCheck::Equality, lbl);
            let a = read(m, check);
            let b = read(m, other);
            &&& is_integer(a) != is_integer(b) ==> fails(code, 0, m, 7, 9)
            &&& is_integer(a) == is_integer(b) ==> reaches(code, 0, m, code.len() as int, end, 9)
                && only_rdx_written(end, m)
        }),
{
    let rdx = reg(Reg::RDX);
    let code = mismatch_check(check, Some(other), ValCheck::Equality, lbl);
    let int_chk = label("eqcheck_"@ + decimal_text(lbl));
    let chk_end = label("check_end_"@ + decimal_text(lbl));
    let a = read(m, check);
    let b = read(m, other);
    reveal_strlit("eqcheck_");
    reveal_strlit("check_end_");
    reveal_strlit("throw_error_align");
    assert(("eqcheck_"@ + decimal_text(lbl))[0] == 'e');
    assert(("check_end_"@ + decimal_text(lbl))[0] == 'c');
    assert("throw_error_align"@[0] == 't');
    assert(int_chk != chk_end && int_chk != error_target() && chk_end != error_target());
    assert(distinct_labels(code)) by {
        assert forall|i: int, j: int|
            0 <= i < j < code.len() && (#[trigger] code[i]) is Label && (#[trigger] code[j]) is Label
            implies code[i] != code[j] by {
            assert(i == 8 && j == 13);
        }
    }
    // The first value goes to `rdx`, and its low bit is tested.
    let first = seq![SpecInstr::Mov(rdx, check), SpecInstr::Test(rdx, imm(1))];
    let half = seq![
        SpecInstr::Xor(rdx, other),
        SpecInstr::Test(rdx, imm(1)),
        SpecInstr::Mov(rdx, imm(7)),
        SpecInstr::Jne(error_target()),
    ];
    assert(code.subrange(0, 2) =~= first);
    assert(code.subrange(3, 7) =~= half);
    assert(code.subrange(9, 13) =~= half);
    assert(wrapped(1) == 1);
    assert((a & 1 == 0) <==> (a % 2 == 0)) by (bit_vector);
    let m1 = store(m, rdx, a);
    let m2 = tested(m1, a & 1);
    assert(run(first, m) == Run::Done(m2)) by {
        reveal_with_fuel(run, 3);
        assert(step(first[0], m) == Run::Done(m1));
        assert(first.drop_first()[0] == first[1]);
        assert(step(first[1], m1) == Run::Done(m2));
        assert(first.drop_first().drop_first() =~= Seq::<SpecInstr>::empty());
    }
    straight_code_flows(code, 0, first, m);
    assert(read(m2, other) == b);
    lemma_same_kind(other, m2);
    // The jump on the kind of the first value, and the half that follows.
    if is_integer(a) {
        jump_is_taken(code, 2, m2, int_chk, 8);
        label_is_passed(code, 8, m2);
        reaches_on(code, 0, m, 2, m2, 2, 8, m2, 1);
        reaches_on(code, 0, m, 8, m2, 3, 9, m2, 1);
        straight_code_flows(code, 9, half, m2);
        match run(half, m2) {
            Run::Done(m3) => {
                reaches_on(code, 0, m, 9, m2, 4, 13, m3, 4);
                label_is_passed(code, 13, m3);
                reaches_on(code, 0, m, 13, m3, 8, 14, m3, 1);
                m3
            },
            Run::Failed(e) => {
                fails_on(code, 0, m, 9, m2, 4, e, 4);
                m
            },
            Run::Stuck => m,
        }
    } else {
        jump_is_passed(code, 2, m2);
        reaches_on(code, 0, m, 2, m2, 2, 3, m2, 1);
        straight_code_flows(code, 3, half, m2);
        match run(half, m2) {
            Run::Done(m3) => {
                reaches_on(code, 0, m, 3, m2, 3, 7, m3, 4);
                jump_is_taken(code, 7, m3, chk_end, 13);
                label_is_passed(code, 13, m3);
                reaches_on(code, 0, m, 7, m3, 7, 13, m3, 1);
                reaches_on(code, 0, m, 13, m3, 8, 14, m3, 1);
                m3
            },
            Run::Failed(e) => {
                fails_on(code, 0, m, 3, m2, 3, e, 4);
                m
            },
            Run::Stuck => m,
        }
    }
}

} // verus!
