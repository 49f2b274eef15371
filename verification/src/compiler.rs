//! The compiler: from the expression tree to abstract assembly, and from a
//! program to the text of its functions and of its main expression.

use crate::env::{arity_get, arity_insert, arity_new, env_clone, env_get, env_insert, env_new,
    env_update};
use crate::env::{arity_entries, env_entries};
use crate::error::{CompileError, SpecCompileError};
use crate::lowering::{arities, binary_code, branch_code, call_code, fetch_code, index_code, lower,
    lower_arguments, lower_bindings, lower_block, lower_elements, lower_function,
    lower_functions, lower_program, loop_code, main_scope, parameters, prepend, prepend_bound,
    store_code, tuple_close, tuple_open, tuple_put, unary_code, Bound, Lowered, Outcome, MAX_LABEL,
    MAX_SI, MAX_TUPLE};
use crate::text::{numbered, same_text};
use crate::types::{bindings_of, code_of, exprs_of, functions_of, names_of, Expr, ExprContext,
    Function, Instr, LocPtr, Op1, Op1Type, Op2, Op2Type, Program, Reg, Scope, SpecExpr, SpecInstr, Val,
    ValCheck};
use crate::utils::{asm_text, check_msmx, check_of, reg, slot, to_asm, FALSE_VAL, LIM, TRUE_VAL,
    WORD_SIZE};
use vstd::prelude::*;

verus! {

/// Whether `r`, with the label counter left at `next`, is the outcome
/// `expected`: the same instructions and counter, or the same error.
pub open spec fn agrees(r: Result<Vec<Instr>, CompileError>, next: int, expected: Outcome) -> bool {
    match r {
        Ok(instrs) => expected == Ok::<Lowered, SpecCompileError>(
            Lowered { code: code_of(instrs@), next: next },
        ),
        Err(e) => expected == Err::<Lowered, SpecCompileError>(e@),
    }
}

/// Appends one instruction.
fn emit(instrs: &mut Vec<Instr>, i: Instr)
    ensures
        code_of(final(instrs)@) == code_of(old(instrs)@).push(i@),
{
    instrs.push(i);
    assert(code_of(instrs@) =~= code_of(old(instrs)@).push(i@));
}

/// Appends a list of instructions.
fn emit_all(instrs: &mut Vec<Instr>, more: Vec<Instr>)
    ensures
        code_of(final(instrs)@) == code_of(old(instrs)@) + code_of(more@),
{
    let mut rest = more;
    instrs.append(&mut rest);
    assert(code_of(instrs@) =~= code_of(old(instrs)@) + code_of(more@));
}

/// The operand for the stack word with index `si`.
fn stack(si: i32) -> (v: Val)
    requires
        0 <= si <= MAX_SI + 2,
    ensures
        v@ == slot(si as int),
{
    Val::MemPtr(Reg::RSP, -si * WORD_SIZE)
}

/// A list of one instruction.
fn single(i: Instr) -> (instrs: Vec<Instr>)
    ensures
        code_of(instrs@) == seq![i@],
{
    let mut instrs: Vec<Instr> = Vec::new();
    instrs.push(i);
    assert(code_of(instrs@) =~= seq![i@]);
    instrs
}

/// The instructions of a tuple expression around those of its elements.
fn tuple_instrs(si: i32, len: usize, elements: Vec<Instr>) -> (instrs: Vec<Instr>)
    requires
        0 <= si <= MAX_SI,
        len <= MAX_TUPLE,
    ensures
        code_of(instrs@) == tuple_open(si as int, len as int) + code_of(elements@) + tuple_close(
            si as int,
        ),
{
    let mut instrs: Vec<Instr> = Vec::new();
    let len = len as i64;
    emit(&mut instrs, Instr::Mov(stack(si), Val::Reg(Reg::R15)));
    emit(&mut instrs, Instr::Add(Val::Reg(Reg::R15), Val::Imm((len + 1) * 8)));
    emit(&mut instrs, Instr::Mov(Val::Reg(Reg::RBX), stack(si)));
    emit(&mut instrs, Instr::Mov(Val::MemPtr(Reg::RBX, 0), Val::Imm(len)));
    emit_all(&mut instrs, elements);
    emit(&mut instrs, Instr::Mov(Val::Reg(Reg::RAX), stack(si)));
    emit(&mut instrs, Instr::Add(Val::Reg(Reg::RAX), Val::Imm(1)));
    assert(code_of(instrs@) =~= tuple_open(si as int, len as int) + code_of(elements@)
        + tuple_close(si as int));
    instrs
}

/// The instructions of a unary operation behind those of its operand.
fn unop_instrs(op: Op1, operand: Vec<Instr>, si: i32, lbl: &mut i32) -> (instrs: Vec<Instr>)
    requires
        op == Op1::Print ==> 0 <= si <= MAX_SI,
    ensures
        code_of(instrs@) == code_of(operand@) + unary_code(op, si as int),
        *final(lbl) == *old(lbl),
{
    let mut instrs: Vec<Instr> = Vec::new();
    emit_all(&mut instrs, operand);
    if op.get_type() == Op1Type::Arithmetic {
        let check = check_msmx(Val::Reg(Reg::RAX), None, ValCheck::Integer, lbl);
        emit_all(&mut instrs, check);
    }
    match op {
        Op1::Add1 => {
            emit(&mut instrs, Instr::Add(Val::Reg(Reg::RAX), Val::Imm(2)));
            emit_all(&mut instrs, check_of());
        },
        Op1::Sub1 => {
            emit(&mut instrs, Instr::Sub(Val::Reg(Reg::RAX), Val::Imm(2)));
            emit_all(&mut instrs, check_of());
        },
        Op1::IsNum => {
            emit(&mut instrs, Instr::Test(Val::Reg(Reg::RAX), Val::Imm(1)));
            emit(&mut instrs, Instr::Mov(Val::Reg(Reg::RBX), Val::Imm(TRUE_VAL)));
            emit(&mut instrs, Instr::Mov(Val::Reg(Reg::RAX), Val::Imm(FALSE_VAL)));
            emit(&mut instrs, Instr::CMove(Val::Reg(Reg::RAX), Val::Reg(Reg::RBX)));
        },
        Op1::IsBool => {
            emit(&mut instrs, Instr::Test(Val::Reg(Reg::RAX), Val::Imm(1)));
            emit(&mut instrs, Instr::Mov(Val::Reg(Reg::RBX), Val::Imm(FALSE_VAL)));
            emit(&mut instrs, Instr::Mov(Val::Reg(Reg::RAX), Val::Imm(TRUE_VAL)));
            emit(&mut instrs, Instr::CMove(Val::Reg(Reg::RAX), Val::Reg(Reg::RBX)));
        },
        // The call follows the C convention: the stack pointer is moved
        // below the words in use and to a multiple of 16.
        Op1::Print => {
            let offset = (si + if si % 2 == 0 {
                1
            } else {
                0
            }) * WORD_SIZE;
            emit(&mut instrs, Instr::Sub(Val::Reg(Reg::RSP), Val::Imm(offset as i64)));
            emit(&mut instrs, Instr::Push(Val::Reg(Reg::RDI)));
            emit(&mut instrs, Instr::Push(Val::Reg(Reg::RAX)));
            emit(&mut instrs, Instr::Mov(Val::Reg(Reg::RDI), Val::Reg(Reg::RAX)));
            emit(&mut instrs, Instr::Call(Val::Label(String::from_str("snek_print"))));
            emit(&mut instrs, Instr::Pop(Val::Reg(Reg::RAX)));
            emit(&mut instrs, Instr::Pop(Val::Reg(Reg::RDI)));
            emit(&mut instrs, Instr::Add(Val::Reg(Reg::RSP), Val::Imm(offset as i64)));
        },
    }
    assert(code_of(instrs@) =~= code_of(operand@) + unary_code(op, si as int));
    instrs
}

/// The instructions of a binary operation: those of the right operand,
/// which is then kept in the stack word `si`, those of the left one, the
/// tag checks and the operation.
fn binop_instrs(op: Op2, right: Vec<Instr>, left: Vec<Instr>, si: i32, lbl: &mut i32) -> (instrs:
    Vec<Instr>)
    requires
        0 <= si <= MAX_SI,
    ensures
        code_of(instrs@) == code_of(right@) + seq![
            SpecInstr::Mov(slot(si as int), reg(Reg::RAX)),
        ] + code_of(left@) + binary_code(op, si as int),
        *final(lbl) == *old(lbl),
{
    let mut instrs: Vec<Instr> = Vec::new();
    emit_all(&mut instrs, right);
    emit(&mut instrs, Instr::Mov(stack(si), Val::Reg(Reg::RAX)));
    emit_all(&mut instrs, left);
    if op.get_type() == Op2Type::Equality {
        emit(&mut instrs, Instr::Mov(Val::Reg(Reg::RBX), Val::Reg(Reg::RAX)));
        emit(&mut instrs, Instr::Xor(Val::Reg(Reg::RBX), stack(si)));
        let check = check_msmx(Val::Reg(Reg::RBX), None, ValCheck::Integer, lbl);
        emit_all(&mut instrs, check);
    } else {
        let first = check_msmx(Val::Reg(Reg::RAX), None, ValCheck::Integer, lbl);
        emit_all(&mut instrs, first);
        let second = check_msmx(stack(si), None, ValCheck::Integer, lbl);
        emit_all(&mut instrs, second);
    }
    match op {
        Op2::Plus => {
            emit(&mut instrs, Instr::Add(Val::Reg(Reg::RAX), stack(si)));
            emit_all(&mut instrs, check_of());
        },
        Op2::Minus => {
            emit(&mut instrs, Instr::Sub(Val::Reg(Reg::RAX), stack(si)));
            emit_all(&mut instrs, check_of());
        },
        Op2::Times => {
            emit(&mut instrs, Instr::Sar(Val::Reg(Reg::RAX), Val::Imm(1)));
            emit(&mut instrs, Instr::IMul(Val::Reg(Reg::RAX), stack(si)));
            emit_all(&mut instrs, check_of());
        },
        _ => {
            emit(&mut instrs, Instr::Cmp(Val::Reg(Reg::RAX), stack(si)));
            emit(&mut instrs, Instr::Mov(Val::Reg(Reg::RAX), Val::Imm(FALSE_VAL)));
            emit(&mut instrs, Instr::Mov(Val::Reg(Reg::RBX), Val::Imm(TRUE_VAL)));
            let dst = Val::Reg(Reg::RAX);
            let src = Val::Reg(Reg::RBX);
            emit(
                &mut instrs,
                match op {
                    Op2::Lt => Instr::CMovl(dst, src),
                    Op2::Gt => Instr::CMovg(dst, src),
                    Op2::Lte => Instr::CMovle(dst, src),
                    Op2::Gte => Instr::CMovge(dst, src),
                    _ => Instr::CMove(dst, src),
                },
            );
        },
    }
    assert(code_of(instrs@) =~= code_of(right@) + seq![
        SpecInstr::Mov(slot(si as int), reg(Reg::RAX)),
    ] + code_of(left@) + binary_code(op, si as int));
    instrs
}

/// The instructions of `if` number `n` around those of its three parts.
fn if_instrs(n: i32, cond: Vec<Instr>, taken: Vec<Instr>, otherwise: Vec<Instr>) -> (instrs: Vec<
    Instr,
>)
    ensures
        code_of(instrs@) == branch_code(
            n as int,
            code_of(cond@),
            code_of(taken@),
            code_of(otherwise@),
        ),
{
    let mut instrs: Vec<Instr> = Vec::new();
    let else_lbl = numbered("else_", n);
    let endif_lbl = numbered("endif_", n);
    emit_all(&mut instrs, cond);
    emit(&mut instrs, Instr::Cmp(Val::Reg(Reg::RAX), Val::Imm(FALSE_VAL)));
    emit(&mut instrs, Instr::Je(Val::Label(else_lbl.clone())));
    emit_all(&mut instrs, taken);
    emit(&mut instrs, Instr::Jmp(Val::Label(endif_lbl.clone())));
    emit(&mut instrs, Instr::Label(Val::Label(else_lbl)));
    emit_all(&mut instrs, otherwise);
    emit(&mut instrs, Instr::Label(Val::Label(endif_lbl)));
    assert(code_of(instrs@) =~= branch_code(
        n as int,
        code_of(cond@),
        code_of(taken@),
        code_of(otherwise@),
    ));
    instrs
}

/// The instructions of `loop` number `n` around those of its body.
fn loop_instrs(n: i32, body: Vec<Instr>) -> (instrs: Vec<Instr>)
    ensures
        code_of(instrs@) == loop_code(n as int, code_of(body@)),
{
    let mut instrs: Vec<Instr> = Vec::new();
    let loop_lbl = numbered("loop_", n);
    emit(&mut instrs, Instr::Label(Val::Label(loop_lbl.clone())));
    emit_all(&mut instrs, body);
    emit(&mut instrs, Instr::Jmp(Val::Label(loop_lbl)));
    emit(&mut instrs, Instr::Label(Val::Label(numbered("endloop_", n))));
    assert(code_of(instrs@) =~= loop_code(n as int, code_of(body@)));
    instrs
}

/// `first`, then one more instruction.
fn then_one(first: Vec<Instr>, i: Instr) -> (instrs: Vec<Instr>)
    ensures
        code_of(instrs@) == code_of(first@) + seq![i@],
{
    let mut instrs = first;
    emit(&mut instrs, i);
    assert(code_of(instrs@) =~= code_of(first@) + seq![i@]);
    instrs
}

/// The instructions of a tuple write: those of the index, of the value and
/// of the tuple, each kept in turn, and the write.
fn tset_instrs(si: i32, index: Vec<Instr>, value: Vec<Instr>, tuple: Vec<Instr>) -> (instrs: Vec<
    Instr,
>)
    requires
        0 <= si <= MAX_SI,
    ensures
        code_of(instrs@) == code_of(index@) + index_code(si as int) + code_of(value@) + seq![
            SpecInstr::Mov(slot(si + 1), reg(Reg::RAX)),
        ] + code_of(tuple@) + store_code(si as int),
{
    let mut instrs: Vec<Instr> = Vec::new();
    // The index, as a byte offset past the length word.
    emit_all(&mut instrs, index);
    emit(&mut instrs, Instr::IMul(Val::Reg(Reg::RAX), Val::Imm(4)));
    emit(&mut instrs, Instr::Add(Val::Reg(Reg::RAX), Val::Imm(8)));
    emit(&mut instrs, Instr::Mov(stack(si), Val::Reg(Reg::RAX)));
    // The value.
    emit_all(&mut instrs, value);
    emit(&mut instrs, Instr::Mov(stack(si + 1), Val::Reg(Reg::RAX)));
    // The tuple: its address is the value less the tag.
    emit_all(&mut instrs, tuple);
    emit(&mut instrs, Instr::Mov(Val::Reg(Reg::RBX), Val::Reg(Reg::RAX)));
    emit(&mut instrs, Instr::Sub(Val::Reg(Reg::RAX), Val::Imm(1)));
    emit(&mut instrs, Instr::Add(Val::Reg(Reg::RAX), stack(si)));
    emit(&mut instrs, Instr::Mov(Val::Reg(Reg::RCX), stack(si + 1)));
    emit(&mut instrs, Instr::Mov(Val::MemPtr(Reg::RAX, 0), Val::Reg(Reg::RCX)));
    emit(&mut instrs, Instr::Mov(Val::Reg(Reg::RAX), Val::Reg(Reg::RBX)));
    assert(code_of(instrs@) =~= code_of(index@) + index_code(si as int) + code_of(value@) + seq![
        SpecInstr::Mov(slot(si + 1), reg(Reg::RAX)),
    ] + code_of(tuple@) + store_code(si as int));
    instrs
}

/// The instructions of a tuple read: those of the index, which is kept,
/// those of the tuple, and the read.
fn tget_instrs(si: i32, index: Vec<Instr>, tuple: Vec<Instr>) -> (instrs: Vec<Instr>)
    requires
        0 <= si <= MAX_SI,
    ensures
        code_of(instrs@) == code_of(index@) + index_code(si as int) + code_of(tuple@)
            + fetch_code(si as int),
{
    let mut instrs: Vec<Instr> = Vec::new();
    emit_all(&mut instrs, index);
    emit(&mut instrs, Instr::IMul(Val::Reg(Reg::RAX), Val::Imm(4)));
    emit(&mut instrs, Instr::Add(Val::Reg(Reg::RAX), Val::Imm(8)));
    emit(&mut instrs, Instr::Mov(stack(si), Val::Reg(Reg::RAX)));
    emit_all(&mut instrs, tuple);
    emit(&mut instrs, Instr::Sub(Val::Reg(Reg::RAX), Val::Imm(1)));
    emit(&mut instrs, Instr::Add(Val::Reg(Reg::RAX), stack(si)));
    emit(&mut instrs, Instr::Mov(Val::Reg(Reg::RAX), Val::MemPtr(Reg::RAX, 0)));
    assert(code_of(instrs@) =~= code_of(index@) + index_code(si as int) + code_of(tuple@)
        + fetch_code(si as int));
    instrs
}

/// The instructions of a call behind those of its arguments, which fill
/// the stack words up to index `last`.
fn call_instrs(fname: &String, last: i64, args: Vec<Instr>) -> (instrs: Vec<Instr>)
    requires
        -1 <= last <= MAX_SI + 0x8000_0000,
    ensures
        code_of(instrs@) == code_of(args@) + call_code(fname@, last as int),
{
    let mut instrs: Vec<Instr> = Vec::new();
    emit_all(&mut instrs, args);
    emit(&mut instrs, Instr::Sub(Val::Reg(Reg::RSP), Val::Imm(last * 8)));
    emit(&mut instrs, Instr::Call(Val::Label(fname.clone())));
    emit(&mut instrs, Instr::Add(Val::Reg(Reg::RSP), Val::Imm(last * 8)));
    assert(code_of(instrs@) =~= code_of(args@) + call_code(fname@, last as int));
    instrs
}

/// Whether the operator is `print`.
fn is_print(op: Op1) -> (r: bool)
    ensures
        r == (op == Op1::Print),
{
    match op {
        Op1::Print => true,
        _ => false,
    }
}

/// Compiles an expression to the instructions that leave its value in
/// `rax`, at the point described by `ctxt`, taking label numbers from
/// `lbl`. Where the expression is rejected, `lbl` is left as it was.
///
/// Tuple accesses are compiled without a check of the tuple's tag or of the
/// index.
pub fn compile_expr(e: &Expr, ctxt: ExprContext, lbl: &mut i32) -> (r: Result<
    Vec<Instr>,
    CompileError,
>)
    ensures
        agrees(r, *final(lbl) as int, lower(e@, ctxt@, *old(lbl) as int)),
        *old(lbl) <= *final(lbl),
        r is Err ==> *final(lbl) == *old(lbl),
    decreases e, 1nat,
{
    // Only the forms that address a stack word by the stack index are
    // bound to its range.
    let fits = 0 <= ctxt.si && ctxt.si <= MAX_SI;
    let start = *lbl;
    let r = match e {
        Expr::Number(n) => compile_number(*n, Ghost(ctxt@), Ghost(*lbl as int)),
        Expr::Boolean(b) => compile_boolean(*b, Ghost(ctxt@), Ghost(*lbl as int)),
        Expr::Tuple(vec) => if fits {
            compile_tuple(vec, ctxt, lbl, Ghost(e))
        } else {
            Err(CompileError::TooLarge)
        },
        Expr::Id(s) => compile_id(s, ctxt, Ghost(*lbl as int)),
        Expr::UnOp(op, operand) => if fits || !is_print(*op) {
            compile_unop(*op, operand, ctxt, lbl, Ghost(e))
        } else {
            Err(CompileError::TooLarge)
        },
        Expr::BinOp(op, e1, e2) => if fits {
            compile_binop(*op, e1, e2, ctxt, lbl, Ghost(e))
        } else {
            Err(CompileError::TooLarge)
        },
        Expr::Let(binds, body) => compile_let(binds, body, ctxt, lbl, Ghost(e)),
        Expr::If(cond_e, e1, e2) => compile_if(cond_e, e1, e2, ctxt, lbl, Ghost(e)),
        Expr::Loop(body) => compile_loop(body, ctxt, lbl, Ghost(e)),
        Expr::Break(value) => compile_break(value, ctxt, lbl, Ghost(e)),
        Expr::Assign(s, value) => compile_assign(s, value, ctxt, lbl, Ghost(e)),
        Expr::TSet(e_tuple, e_index, e_value) => if fits {
            compile_tset(e_tuple, e_index, e_value, ctxt, lbl, Ghost(e))
        } else {
            Err(CompileError::TooLarge)
        },
        Expr::TGet(e_tuple, e_index) => if fits {
            compile_tget(e_tuple, e_index, ctxt, lbl, Ghost(e))
        } else {
            Err(CompileError::TooLarge)
        },
        Expr::Block(exprs) => compile_block(exprs, ctxt, lbl),
        Expr::Call(fname, exprs) => compile_call(fname, exprs, ctxt, lbl, Ghost(e)),
    };
    // An expression that is not compiled takes no label number.
    if r.is_err() {
        *lbl = start;
    }
    r
}

/// An integer is loaded as twice its value.
fn compile_number(n: i64, Ghost(c): Ghost<Scope>, Ghost(lbl): Ghost<int>) -> (r: Result<
    Vec<Instr>,
    CompileError,
>)
    ensures
        agrees(r, lbl, lower(SpecExpr::Number(n as int), c, lbl)),
{
    if n > LIM - 1 || n < -LIM {
        return Err(CompileError::NumberOutOfRange);
    }
    Ok(single(Instr::Mov(Val::Reg(Reg::RAX), Val::Imm(n * 2))))
}

/// A boolean is loaded as its tagged value.
fn compile_boolean(b: bool, Ghost(c): Ghost<Scope>, Ghost(lbl): Ghost<int>) -> (r: Result<
    Vec<Instr>,
    CompileError,
>)
    ensures
        agrees(r, lbl, lower(SpecExpr::Boolean(b), c, lbl)),
{
    Ok(
        single(
            Instr::Mov(
                Val::Reg(Reg::RAX),
                Val::Imm(
                    if b {
                        TRUE_VAL
                    } else {
                        FALSE_VAL
                    },
                ),
            ),
        ),
    )
}

/// A tuple is allocated at the heap cursor, then filled in order.
fn compile_tuple(vec: &Vec<Expr>, ctxt: ExprContext, lbl: &mut i32, Ghost(e): Ghost<&Expr>) -> (r:
    Result<Vec<Instr>, CompileError>)
    requires
        0 <= ctxt.si <= MAX_SI,
        e matches Expr::Tuple(v) && v == vec,
    ensures
        agrees(r, *final(lbl) as int, lower(e@, ctxt@, *old(lbl) as int)),
        *old(lbl) <= *final(lbl),
    decreases e, 0nat,
{
    assert(exprs_of(*vec).len() == vec.len());
    if vec.len() > MAX_TUPLE {
        return Err(CompileError::TooLarge);
    }
    let elements = match compile_elements(vec, ctxt, lbl) {
        Err(err) => {
            return Err(err);
        },
        Ok(code) => code,
    };
    let instrs = tuple_instrs(ctxt.si, vec.len(), elements);
    assert(code_of(instrs@) =~= lower(e@, ctxt@, *old(lbl) as int)->Ok_0.code);
    Ok(instrs)
}

/// A variable is loaded from where it lives; the input arrives in `rdi`.
fn compile_id(s: &String, ctxt: ExprContext, Ghost(lbl): Ghost<int>) -> (r: Result<
    Vec<Instr>,
    CompileError,
>)
    ensures
        agrees(r, lbl, lower(SpecExpr::Id(s@), ctxt@, lbl)),
{
    if same_text(s.as_str(), "input") {
        if ctxt.in_func {
            return Err(CompileError::InputInFunction);
        }
        Ok(single(Instr::Mov(Val::Reg(Reg::RAX), Val::Reg(Reg::RDI))))
    } else {
        match env_get(ctxt.env, s) {
            Some(loc) => Ok(single(Instr::Mov(Val::Reg(Reg::RAX), loc.value()))),
            None => Err(CompileError::UnboundVariable(s.clone())),
        }
    }
}

/// The operand, then the operation on `rax`.
fn compile_unop(
    op: Op1,
    operand: &Expr,
    ctxt: ExprContext,
    lbl: &mut i32,
    Ghost(e): Ghost<&Expr>,
) -> (r: Result<Vec<Instr>, CompileError>)
    requires
        op == Op1::Print ==> 0 <= ctxt.si <= MAX_SI,
        e matches Expr::UnOp(o, a) && o == op && *a == *operand,
    ensures
        agrees(r, *final(lbl) as int, lower(e@, ctxt@, *old(lbl) as int)),
        *old(lbl) <= *final(lbl),
    decreases e, 0nat,
{
    let code = match compile_expr(operand, ctxt, lbl) {
        Err(err) => {
            return Err(err);
        },
        Ok(code) => code,
    };
    Ok(unop_instrs(op, code, ctxt.si, lbl))
}

/// The right operand, kept on the stack, then the left one, then the
/// operation.
fn compile_binop(
    op: Op2,
    e1: &Expr,
    e2: &Expr,
    ctxt: ExprContext,
    lbl: &mut i32,
    Ghost(e): Ghost<&Expr>,
) -> (r: Result<Vec<Instr>, CompileError>)
    requires
        0 <= ctxt.si <= MAX_SI,
        e matches Expr::BinOp(o, a, b) && o == op && *a == *e1 && *b == *e2,
    ensures
        agrees(r, *final(lbl) as int, lower(e@, ctxt@, *old(lbl) as int)),
        *old(lbl) <= *final(lbl),
    decreases e, 0nat,
{
    let right = match compile_expr(e2, ctxt, lbl) {
        Err(err) => {
            return Err(err);
        },
        Ok(code) => code,
    };
    let left = match compile_expr(e1, ExprContext { si: ctxt.si + 1, ..ctxt }, lbl) {
        Err(err) => {
            return Err(err);
        },
        Ok(code) => code,
    };
    let instrs = binop_instrs(op, right, left, ctxt.si, lbl);
    assert(code_of(instrs@) =~= lower(e@, ctxt@, *old(lbl) as int)->Ok_0.code);
    Ok(instrs)
}

/// The bindings in order, each under those before it, then the body under
/// all of them.
fn compile_let(
    binds: &Vec<(String, Expr)>,
    body: &Expr,
    ctxt: ExprContext,
    lbl: &mut i32,
    Ghost(e): Ghost<&Expr>,
) -> (r: Result<Vec<Instr>, CompileError>)
    requires
        e matches Expr::Let(b, a) && b == binds && *a == *body,
    ensures
        agrees(r, *final(lbl) as int, lower(e@, ctxt@, *old(lbl) as int)),
        *old(lbl) <= *final(lbl),
    decreases e, 0nat,
{
    let (code, new_env, sii) = match compile_bindings(binds, ctxt, lbl) {
        Err(err) => {
            return Err(err);
        },
        Ok(bound) => bound,
    };
    let mut instrs = code;
    match compile_expr(body, ExprContext { si: sii, env: &new_env, ..ctxt }, lbl) {
        Err(err) => {
            return Err(err);
        },
        Ok(code) => {
            emit_all(&mut instrs, code);
        },
    }
    Ok(instrs)
}

/// The condition, a jump over the first branch when it is `false`, and the
/// two branches; the labels take the next number.
fn compile_if(
    cond_e: &Expr,
    e1: &Expr,
    e2: &Expr,
    ctxt: ExprContext,
    lbl: &mut i32,
    Ghost(e): Ghost<&Expr>,
) -> (r: Result<Vec<Instr>, CompileError>)
    requires
        e matches Expr::If(a, b, d) && *a == *cond_e && *b == *e1 && *d == *e2,
    ensures
        agrees(r, *final(lbl) as int, lower(e@, ctxt@, *old(lbl) as int)),
        *old(lbl) <= *final(lbl),
    decreases e, 0nat,
{
    if *lbl >= MAX_LABEL {
        return Err(CompileError::TooLarge);
    }
    let block_num = *lbl;
    *lbl += 1;
    let cond = match compile_expr(cond_e, ctxt, lbl) {
        Err(err) => {
            return Err(err);
        },
        Ok(code) => code,
    };
    let taken = match compile_expr(e1, ctxt, lbl) {
        Err(err) => {
            return Err(err);
        },
        Ok(code) => code,
    };
    let otherwise = match compile_expr(e2, ctxt, lbl) {
        Err(err) => {
            return Err(err);
        },
        Ok(code) => code,
    };
    Ok(if_instrs(block_num, cond, taken, otherwise))
}

/// The body between the loop's label and the jump back to it; the loop
/// takes the next number, which its body breaks to.
fn compile_loop(body: &Expr, ctxt: ExprContext, lbl: &mut i32, Ghost(e): Ghost<&Expr>) -> (r:
    Result<Vec<Instr>, CompileError>)
    requires
        e matches Expr::Loop(a) && *a == *body,
    ensures
        agrees(r, *final(lbl) as int, lower(e@, ctxt@, *old(lbl) as int)),
        *old(lbl) <= *final(lbl),
    decreases e, 0nat,
{
    if *lbl >= MAX_LABEL {
        return Err(CompileError::TooLarge);
    }
    let new_ctxt = ExprContext { loop_num: *lbl, ..ctxt };
    *lbl += 1;
    let code = match compile_expr(body, new_ctxt, lbl) {
        Err(err) => {
            return Err(err);
        },
        Ok(code) => code,
    };
    Ok(loop_instrs(new_ctxt.loop_num, code))
}

/// The value, then a jump behind the innermost loop.
fn compile_break(value: &Expr, ctxt: ExprContext, lbl: &mut i32, Ghost(e): Ghost<&Expr>) -> (r:
    Result<Vec<Instr>, CompileError>)
    requires
        e matches Expr::Break(a) && *a == *value,
    ensures
        agrees(r, *final(lbl) as int, lower(e@, ctxt@, *old(lbl) as int)),
        *old(lbl) <= *final(lbl),
    decreases e, 0nat,
{
    if ctxt.loop_num > 0 {
        let code = match compile_expr(value, ctxt, lbl) {
            Err(err) => {
                return Err(err);
            },
            Ok(code) => code,
        };
        Ok(then_one(code, Instr::Jmp(Val::Label(numbered("endloop_", ctxt.loop_num)))))
    } else {
        Err(CompileError::BreakOutsideLoop)
    }
}

/// The value, then a store to where the variable lives.
fn compile_assign(
    s: &String,
    value: &Expr,
    ctxt: ExprContext,
    lbl: &mut i32,
    Ghost(e): Ghost<&Expr>,
) -> (r: Result<Vec<Instr>, CompileError>)
    requires
        e matches Expr::Assign(n, a) && n == s && *a == *value,
    ensures
        agrees(r, *final(lbl) as int, lower(e@, ctxt@, *old(lbl) as int)),
        *old(lbl) <= *final(lbl),
    decreases e, 0nat,
{
    match env_get(ctxt.env, s) {
        Some(loc) => {
            let code = match compile_expr(value, ctxt, lbl) {
                Err(err) => {
                    return Err(err);
                },
                Ok(code) => code,
            };
            Ok(then_one(code, Instr::Mov(loc.value(), Val::Reg(Reg::RAX))))
        },
        None => Err(CompileError::UnboundVariable(s.clone())),
    }
}

/// The index, the value and the tuple, each one stack index above the
/// one before, then the write.
fn compile_tset(
    e_tuple: &Expr,
    e_index: &Expr,
    e_value: &Expr,
    ctxt: ExprContext,
    lbl: &mut i32,
    Ghost(e): Ghost<&Expr>,
) -> (r: Result<Vec<Instr>, CompileError>)
    requires
        0 <= ctxt.si <= MAX_SI,
        e matches Expr::TSet(t, i, v) && *t == *e_tuple && *i == *e_index && *v == *e_value,
    ensures
        agrees(r, *final(lbl) as int, lower(e@, ctxt@, *old(lbl) as int)),
        *old(lbl) <= *final(lbl),
    decreases e, 0nat,
{
    let index = match compile_expr(e_index, ctxt, lbl) {
        Err(err) => {
            return Err(err);
        },
        Ok(code) => code,
    };
    let value = match compile_expr(e_value, ExprContext { si: ctxt.si + 1, ..ctxt }, lbl) {
        Err(err) => {
            return Err(err);
        },
        Ok(code) => code,
    };
    let tuple = match compile_expr(e_tuple, ExprContext { si: ctxt.si + 2, ..ctxt }, lbl) {
        Err(err) => {
            return Err(err);
        },
        Ok(code) => code,
    };
    let instrs = tset_instrs(ctxt.si, index, value, tuple);
    assert(code_of(instrs@) =~= lower(e@, ctxt@, *old(lbl) as int)->Ok_0.code);
    Ok(instrs)
}

/// The index, then the tuple one stack index above, then the read.
fn compile_tget(
    e_tuple: &Expr,
    e_index: &Expr,
    ctxt: ExprContext,
    lbl: &mut i32,
    Ghost(e): Ghost<&Expr>,
) -> (r: Result<Vec<Instr>, CompileError>)
    requires
        0 <= ctxt.si <= MAX_SI,
        e matches Expr::TGet(t, i) && *t == *e_tuple && *i == *e_index,
    ensures
        agrees(r, *final(lbl) as int, lower(e@, ctxt@, *old(lbl) as int)),
        *old(lbl) <= *final(lbl),
    decreases e, 0nat,
{
    let index = match compile_expr(e_index, ctxt, lbl) {
        Err(err) => {
            return Err(err);
        },
        Ok(code) => code,
    };
    let tuple = match compile_expr(e_tuple, ExprContext { si: ctxt.si + 1, ..ctxt }, lbl) {
        Err(err) => {
            return Err(err);
        },
        Ok(code) => code,
    };
    let instrs = tget_instrs(ctxt.si, index, tuple);
    assert(code_of(instrs@) =~= lower(e@, ctxt@, *old(lbl) as int)->Ok_0.code);
    Ok(instrs)
}

/// The arguments are laid out so that the callee finds them above the
/// return address, and the stack pointer is a multiple of 16 at its entry.
fn compile_call(
    fname: &String,
    exprs: &Vec<Expr>,
    ctxt: ExprContext,
    lbl: &mut i32,
    Ghost(e): Ghost<&Expr>,
) -> (r: Result<Vec<Instr>, CompileError>)
    requires
        e matches Expr::Call(f, a) && f == fname && a == exprs,
    ensures
        agrees(r, *final(lbl) as int, lower(e@, ctxt@, *old(lbl) as int)),
        *old(lbl) <= *final(lbl),
    decreases e, 0nat,
{
    assert(exprs_of(*exprs).len() == exprs.len());
    match arity_get(ctxt.func_map, fname) {
        Some(n) => {
            if n < 0 || n as usize != exprs.len() {
                return Err(CompileError::WrongArity(fname.clone()));
            }
        },
        None => {
            return Err(CompileError::UnknownFunction(fname.clone()));
        },
    }
    if ctxt.si < 0 || ctxt.si > MAX_SI || exprs.len() > (MAX_SI - ctxt.si) as usize {
        return Err(CompileError::TooLarge);
    }
    let count = exprs.len() as i64;
    let offset: i32 = if (count + ctxt.si as i64) % 2 == 0 {
        0
    } else {
        1
    };
    let first = ctxt.si + offset;
    let above = first + exprs.len() as i32;
    let args = match compile_arguments(exprs, ctxt, first, above, lbl) {
        Err(err) => {
            return Err(err);
        },
        Ok(code) => code,
    };
    Ok(call_instrs(fname, first as i64 + count - 1, args))
}

/// Compiles the expressions of a block, in order.
fn compile_block(es: &Vec<Expr>, ctxt: ExprContext, lbl: &mut i32) -> (r: Result<
    Vec<Instr>,
    CompileError,
>)
    ensures
        agrees(r, *final(lbl) as int, lower_block(exprs_of(*es), ctxt@, *old(lbl) as int)),
        *old(lbl) <= *final(lbl),
    decreases es,
{
    let mut instrs: Vec<Instr> = Vec::new();
    let ghost all = exprs_of(*es);
    let ghost whole = lower_block(all, ctxt@, *lbl as int);
    let mut i: usize = 0;
    assert(all.skip(0) =~= all);
    while i < es.len()
        invariant
            i <= es.len(),
            all == exprs_of(*es),
            *old(lbl) <= *lbl,
            whole == lower_block(all, ctxt@, *old(lbl) as int),
            whole == prepend(code_of(instrs@), lower_block(all.skip(i as int), ctxt@, *lbl as int)),
        decreases es.len() - i,
    {
        proof {
            assert(all.skip(i as int)[0] == es[i as int]@);
            assert(all.skip(i as int).drop_first() =~= all.skip(i + 1));
        }
        let ghost before = code_of(instrs@);
        match compile_expr(&es[i], ctxt, lbl) {
            Err(err) => {
                return Err(err);
            },
            Ok(code) => {
                emit_all(&mut instrs, code);
                proof {
                    let rest = lower_block(all.skip(i + 1), ctxt@, *lbl as int);
                    if rest is Ok {
                        assert((before + code_of(code@)) + rest->Ok_0.code =~= before + (code_of(
                            code@,
                        ) + rest->Ok_0.code));
                    }
                }
            },
        }
        i = i + 1;
    }
    assert(code_of(instrs@) + Seq::<SpecInstr>::empty() =~= code_of(instrs@));
    Ok(instrs)
}

/// Compiles the elements of a tuple whose address is kept in the stack
/// word `ctxt.si`, and writes each to its place.
fn compile_elements(es: &Vec<Expr>, ctxt: ExprContext, lbl: &mut i32) -> (r: Result<
    Vec<Instr>,
    CompileError,
>)
    requires
        0 <= ctxt.si <= MAX_SI,
        es.len() <= MAX_TUPLE,
    ensures
        agrees(r, *final(lbl) as int, lower_elements(exprs_of(*es), ctxt@, 0, *old(lbl) as int)),
        *old(lbl) <= *final(lbl),
    decreases es,
{
    let mut instrs: Vec<Instr> = Vec::new();
    let ghost all = exprs_of(*es);
    let ghost whole = lower_elements(all, ctxt@, 0, *lbl as int);
    let mut i: usize = 0;
    let mut offset: i32 = 1;
    assert(all.skip(0) =~= all);
    while i < es.len()
        invariant
            i <= es.len(),
            es.len() <= MAX_TUPLE,
            offset == i + 1,
            0 <= ctxt.si <= MAX_SI,
            all == exprs_of(*es),
            *old(lbl) <= *lbl,
            whole == lower_elements(all, ctxt@, 0, *old(lbl) as int),
            whole == prepend(
                code_of(instrs@),
                lower_elements(all.skip(i as int), ctxt@, i as int, *lbl as int),
            ),
        decreases es.len() - i,
    {
        proof {
            assert(all.skip(i as int)[0] == es[i as int]@);
            assert(all.skip(i as int).drop_first() =~= all.skip(i + 1));
        }
        let ghost before = code_of(instrs@);
        match compile_expr(&es[i], ExprContext { si: ctxt.si + 1, ..ctxt }, lbl) {
            Err(err) => {
                return Err(err);
            },
            Ok(code) => {
                emit_all(&mut instrs, code);
                emit(&mut instrs, Instr::Mov(Val::Reg(Reg::RBX), stack(ctxt.si)));
                emit(
                    &mut instrs,
                    Instr::Mov(Val::MemPtr(Reg::RBX, offset * WORD_SIZE), Val::Reg(Reg::RAX)),
                );
                proof {
                    let rest = lower_elements(all.skip(i + 1), ctxt@, i + 1, *lbl as int);
                    let step = code_of(instrs@);
                    if rest is Ok {
                        assert(step + rest->Ok_0.code =~= before + ((code_of(code@)
                            + tuple_put(ctxt.si as int, i as int))
                            + rest->Ok_0.code));
                    }
                }
            },
        }
        i = i + 1;
        offset = offset + 1;
    }
    assert(code_of(instrs@) + Seq::<SpecInstr>::empty() =~= code_of(instrs@));
    Ok(instrs)
}

/// Compiles the arguments of a call, in order: each at the stack index
/// `above`, and kept in its word among those from index `first` on, the
/// first argument in the word of the highest index.
fn compile_arguments(
    args: &Vec<Expr>,
    ctxt: ExprContext,
    first: i32,
    above: i32,
    lbl: &mut i32,
) -> (r: Result<Vec<Instr>, CompileError>)
    requires
        0 <= first,
        above == first + args.len(),
        above <= MAX_SI + 2,
    ensures
        agrees(
            r,
            *final(lbl) as int,
            lower_arguments(exprs_of(*args), ctxt@, first as int, above as int, *old(lbl) as int),
        ),
        *old(lbl) <= *final(lbl),
    decreases args,
{
    let mut instrs: Vec<Instr> = Vec::new();
    let ghost all = exprs_of(*args);
    let ghost whole = lower_arguments(all, ctxt@, first as int, above as int, *lbl as int);
    let n = args.len();
    let mut i: usize = 0;
    let mut sii: i32 = above - 1;
    assert(all.skip(0) =~= all);
    while i < n
        invariant
            i <= n,
            n == args.len(),
            all == exprs_of(*args),
            0 <= first,
            above == first + n,
            above <= MAX_SI + 2,
            sii == above - 1 - i,
            *old(lbl) <= *lbl,
            whole == lower_arguments(all, ctxt@, first as int, above as int, *old(lbl) as int),
            whole == prepend(
                code_of(instrs@),
                lower_arguments(all.skip(i as int), ctxt@, first as int, above as int, *lbl as int),
            ),
        decreases n - i,
    {
        proof {
            assert(all.skip(i as int)[0] == args[i as int]@);
            assert(all.skip(i as int).drop_first() =~= all.skip(i + 1));
        }
        let ghost before = code_of(instrs@);
        match compile_expr(&args[i], ExprContext { si: above, ..ctxt }, lbl) {
            Err(err) => {
                return Err(err);
            },
            Ok(code) => {
                let loc: LocPtr = LocPtr::LStack(-sii * WORD_SIZE);
                emit_all(&mut instrs, code);
                emit(&mut instrs, Instr::Mov(loc.value(), Val::Reg(Reg::RAX)));
                proof {
                    let rest = lower_arguments(
                        all.skip(i + 1),
                        ctxt@,
                        first as int,
                        above as int,
                        *lbl as int,
                    );
                    let step = code_of(instrs@);
                    if rest is Ok {
                        assert(step + rest->Ok_0.code =~= before + ((code_of(code@) + seq![
                            SpecInstr::Mov(slot(sii as int), reg(Reg::RAX)),
                        ]) + rest->Ok_0.code));
                    }
                }
            },
        }
        sii = sii - 1;
        i = i + 1;
    }
    assert(code_of(instrs@) + Seq::<SpecInstr>::empty() =~= code_of(instrs@));
    Ok(instrs)
}

/// Compiles the bindings of a `let`, in order. Returns their instructions
/// with the environment and the stack index for the body.
fn compile_bindings(binds: &Vec<(String, Expr)>, ctxt: ExprContext, lbl: &mut i32) -> (r: Result<
    (Vec<Instr>, im::HashMap<String, LocPtr>, i32),
    CompileError,
>)
    ensures
        match r {
            Ok((code, env, si)) => lower_bindings(bindings_of(*binds), ctxt@, *old(lbl) as int)
                == Ok::<Bound, SpecCompileError>(
                Bound {
                    code: code_of(code@),
                    next: *final(lbl) as int,
                    env: env_entries(env),
                    si: si as int,
                },
            ),
            Err(e) => lower_bindings(bindings_of(*binds), ctxt@, *old(lbl) as int) == Err::<
                Bound,
                SpecCompileError,
            >(e@),
        },
        *old(lbl) <= *final(lbl),
    decreases binds,
{
    let mut instrs: Vec<Instr> = Vec::new();
    let ghost all = bindings_of(*binds);
    let ghost whole = lower_bindings(all, ctxt@, *lbl as int);
    let mut new_env = env_clone(ctxt.env);
    let mut sii: i32 = ctxt.si;
    let mut i: usize = 0;
    assert(all.skip(0) =~= all);
    assert(Scope { si: sii as int, env: env_entries(new_env), ..ctxt@ } == ctxt@);
    while i < binds.len()
        invariant
            i <= binds.len(),
            all == bindings_of(*binds),
            i > 0 ==> 0 <= sii <= MAX_SI + 1,
            *old(lbl) <= *lbl,
            whole == lower_bindings(all, ctxt@, *old(lbl) as int),
            whole == prepend_bound(
                code_of(instrs@),
                lower_bindings(
                    all.skip(i as int),
                    Scope { si: sii as int, env: env_entries(new_env), ..ctxt@ },
                    *lbl as int,
                ),
            ),
        decreases binds.len() - i,
    {
        proof {
            assert(all.skip(i as int)[0] == (binds[i as int].0@, binds[i as int].1@));
            assert(all.skip(i as int).drop_first() =~= all.skip(i + 1));
        }
        let ghost before = code_of(instrs@);
        let ghost scope = Scope { si: sii as int, env: env_entries(new_env), ..ctxt@ };
        if sii < 0 || sii > MAX_SI {
            return Err(CompileError::TooLarge);
        }
        match compile_expr(&binds[i].1, ExprContext { si: sii, env: &new_env, ..ctxt }, lbl) {
            Err(err) => {
                return Err(err);
            },
            Ok(code) => {
                let loc: LocPtr = LocPtr::LStack(-sii * WORD_SIZE);
                emit_all(&mut instrs, code);
                emit(&mut instrs, Instr::Mov(loc.value(), Val::Reg(Reg::RAX)));
                new_env = env_update(&new_env, binds[i].0.clone(), loc);
                proof {
                    let inner = Scope {
                        si: sii + 1,
                        env: scope.env.insert(binds[i as int].0@, loc),
                        ..ctxt@
                    };
                    let rest = lower_bindings(all.skip(i + 1), inner, *lbl as int);
                    let step = code_of(instrs@);
                    if rest is Ok {
                        assert(step + rest->Ok_0.code =~= before + ((code_of(code@) + seq![
                            SpecInstr::Mov(slot(sii as int), reg(Reg::RAX)),
                        ]) + rest->Ok_0.code));
                    }
                }
            },
        }
        sii = sii + 1;
        i = i + 1;
    }
    assert(code_of(instrs@) + Seq::<SpecInstr>::empty() =~= code_of(instrs@));
    Ok((instrs, new_env, sii))
}

/// Compiles a function definition: its label, its body, and `ret`. The
/// parameters are found above the return address, in the order of their
/// declaration. Where the definition is rejected, `lbl` is left as it was.
pub fn compile_func(func: &Function, func_map: &im::HashMap<String, i32>, lbl: &mut i32) -> (r:
    Result<Vec<Instr>, CompileError>)
    ensures
        agrees(
            r,
            *final(lbl) as int,
            lower_function(func@, arity_entries(*func_map), *old(lbl) as int),
        ),
        *old(lbl) <= *final(lbl),
        r is Err ==> *final(lbl) == *old(lbl),
{
    if func.args.len() > MAX_SI as usize {
        return Err(CompileError::TooLarge);
    }
    let mut vars = env_new();
    let ghost names = names_of(func.args@);
    let mut sii: i32 = 1;
    let mut i: usize = 0;
    while i < func.args.len()
        invariant
            i <= func.args.len() <= MAX_SI,
            sii == i + 1,
            names == names_of(func.args@),
            env_entries(vars) == parameters(names.take(i as int)),
        decreases func.args.len() - i,
    {
        env_insert(&mut vars, func.args[i].clone(), LocPtr::LStack(sii * WORD_SIZE));
        proof {
            assert(names.take(i + 1).drop_last() =~= names.take(i as int));
            assert(names.take(i + 1).last() == func.args[i as int]@);
        }
        sii = sii + 1;
        i = i + 1;
    }
    assert(names.take(i as int) =~= names);

    let mut instrs = single(Instr::Label(Val::Label(func.name.clone())));
    let ctxt = ExprContext { si: 1, env: &vars, loop_num: 0, func_map: func_map, in_func: true };
    match compile_expr(&func.body, ctxt, lbl) {
        Err(err) => {
            return Err(err);
        },
        Ok(code) => {
            emit_all(&mut instrs, code);
        },
    }
    emit(&mut instrs, Instr::Ret);
    assert(code_of(instrs@) =~= lower_function(
        func@,
        arity_entries(*func_map),
        *old(lbl) as int,
    )->Ok_0.code);
    Ok(instrs)
}

/// Whether `r` is the text of what `expected` holds: of the instructions
/// of the definitions and of those of the main expression, or the same
/// error.
pub open spec fn renders(
    r: Result<(String, String), CompileError>,
    expected: Result<(Seq<SpecInstr>, Seq<SpecInstr>), SpecCompileError>,
) -> bool {
    match r {
        Ok((functions, main)) => expected matches Ok(code) && functions@ == asm_text(code.0)
            && main@ == asm_text(code.1),
        Err(e) => expected == Err::<(Seq<SpecInstr>, Seq<SpecInstr>), SpecCompileError>(e@),
    }
}

/// Compiles a program to two pieces of assembly text: its functions, and
/// its main expression.
///
/// The arity table is filled from all definitions before any body is
/// compiled, so that a function may call one defined after it.
pub fn compile(prog: &Program) -> (r: Result<(String, String), CompileError>)
    ensures
        renders(r, lower_program(prog@)),
{
    let mut lbl: i32 = 1;
    let mut func_map = arity_new();
    let ghost all = functions_of(prog.defns@);

    let mut i: usize = 0;
    while i < prog.defns.len()
        invariant
            i <= prog.defns.len(),
            all == functions_of(prog.defns@),
            arity_entries(func_map) == arities(all.take(i as int)),
        decreases prog.defns.len() - i,
    {
        let func = &prog.defns[i];
        arity_insert(
            &mut func_map,
            func.name.clone(),
            #[verifier::truncate]
            (func.args.len() as i32),
        );
        proof {
            assert(all.take(i + 1).drop_last() =~= all.take(i as int));
            assert(all.take(i + 1).last() == prog.defns[i as int]@);
            assert(names_of(func.args@).len() == func.args.len());
        }
        i = i + 1;
    }
    assert(all.take(i as int) =~= all);
    let ghost arity = arity_entries(func_map);

    let mut defn_instrs: Vec<Instr> = Vec::new();
    let ghost whole = lower_functions(all, arity, 1);
    let mut i: usize = 0;
    assert(all.skip(0) =~= all);
    assert(code_of(defn_instrs@) =~= Seq::<SpecInstr>::empty());
    assert(whole == prepend(code_of(defn_instrs@), whole)) by {
        if whole is Ok {
            assert(Seq::<SpecInstr>::empty() + whole->Ok_0.code =~= whole->Ok_0.code);
        }
    }
    while i < prog.defns.len()
        invariant
            i <= prog.defns.len(),
            all == functions_of(prog.defns@),
            arity == arity_entries(func_map),
            arity == arities(all),
            whole == lower_functions(all, arity, 1),
            whole == prepend(
                code_of(defn_instrs@),
                lower_functions(all.skip(i as int), arity, lbl as int),
            ),
        decreases prog.defns.len() - i,
    {
        proof {
            assert(all.skip(i as int)[0] == prog.defns[i as int]@);
            assert(all.skip(i as int).drop_first() =~= all.skip(i + 1));
        }
        let ghost before = code_of(defn_instrs@);
        match compile_func(&prog.defns[i], &func_map, &mut lbl) {
            Err(err) => {
                return Err(err);
            },
            Ok(code) => {
                emit_all(&mut defn_instrs, code);
                proof {
                    let rest = lower_functions(all.skip(i + 1), arity, lbl as int);
                    if rest is Ok {
                        assert((before + code_of(code@)) + rest->Ok_0.code =~= before + (code_of(
                            code@,
                        ) + rest->Ok_0.code));
                    }
                }
            },
        }
        i = i + 1;
    }
    assert(code_of(defn_instrs@) + Seq::<SpecInstr>::empty() =~= code_of(defn_instrs@));

    let env = env_new();
    let ctxt = ExprContext { si: 1, env: &env, loop_num: 0, func_map: &func_map, in_func: false };
    assert(ctxt@ == main_scope(arity));
    let main_instrs = match compile_expr(&prog.main, ctxt, &mut lbl) {
        Err(err) => {
            return Err(err);
        },
        Ok(code) => code,
    };

    Ok((to_asm(&defn_instrs), to_asm(&main_instrs)))
}

} // verus!
