//! The text of operands, instructions and lists of instructions, and the
//! instructions of the inline checks.

use snek::text::{decimal_string, numbered, push_decimal, same_text};
use snek::types::{Instr, LocPtr, Op1, Op1Type, Op2, Op2Type, Reg, Val, ValCheck};
use snek::utils::{
    check_bnd, check_msmx, check_of, instr_to_str, is_reserved, is_valid_identifier, to_asm,
    val_to_str, BND_ERRCODE, FALSE_VAL, LIM, MSMX_ERRCODE, OF_ERRCODE, TRUE_VAL, WORD_SIZE,
};

fn rax() -> Val {
    Val::Reg(Reg::RAX)
}

fn rdx() -> Val {
    Val::Reg(Reg::RDX)
}

fn label(name: &str) -> Val {
    Val::Label(String::from(name))
}

fn trampoline() -> Val {
    label("throw_error_align")
}

#[test]
fn text_constants_of_the_representation() {
    assert_eq!(LIM, 1i64 << 62);
    assert_eq!(WORD_SIZE, 8);
    assert_eq!(MSMX_ERRCODE, 7);
    assert_eq!(OF_ERRCODE, 8);
    assert_eq!(BND_ERRCODE, 9);
    assert_eq!(TRUE_VAL, 7);
    assert_eq!(FALSE_VAL, 3);
}

#[test]
fn text_decimal_numerals() {
    assert_eq!(decimal_string(0), "0");
    assert_eq!(decimal_string(7), "7");
    assert_eq!(decimal_string(10), "10");
    assert_eq!(decimal_string(-1), "-1");
    assert_eq!(decimal_string(1234567890), "1234567890");
    assert_eq!(decimal_string(i64::MAX), "9223372036854775807");
    assert_eq!(decimal_string(i64::MIN), "-9223372036854775808");
    let mut s = String::from("n = ");
    push_decimal(&mut s, -40);
    assert_eq!(s, "n = -40");
    assert_eq!(numbered("else_", 12), "else_12");
    assert_eq!(numbered("loop_", -3), "loop_-3");
    assert_eq!(numbered("", i32::MIN), "-2147483648");
}

#[test]
fn text_equality_of_strings() {
    assert!(same_text("let", "let"));
    assert!(same_text("", ""));
    assert!(!same_text("let", "le"));
    assert!(!same_text("let", "lex"));
    assert!(!same_text("", "a"));
}

#[test]
fn text_reserved_words() {
    for word in [
        "add1", "sub1", "isnum", "isbool", "print", "+", "-", "*", "<", ">", "<=", ">=", "=",
        "let", "if", "set!", "block", "loop", "break", "true", "false", "input", "fun",
    ] {
        assert!(is_reserved(word), "{word}");
    }
    for word in ["x", "Let", "add", "add11", "", "tuple", "==", "inputs", "function"] {
        assert!(!is_reserved(word), "{word}");
    }
}

#[test]
fn text_shape_of_identifiers() {
    for name in ["x", "X", "x1", "aB9z", "input", "let", "a0000"] {
        assert!(is_valid_identifier(name), "{name}");
    }
    for name in ["", "1x", "_x", "x_y", "x-y", "set!", "+", "x y", " x", "é", "xé", "x!"] {
        assert!(!is_valid_identifier(name), "{name}");
    }
}

#[test]
fn text_location_as_operand() {
    assert_eq!(LocPtr::LReg(Reg::RDI).value(), Val::Reg(Reg::RDI));
    assert_eq!(LocPtr::LStack(-16).value(), Val::MemPtr(Reg::RSP, -16));
    assert_eq!(LocPtr::LStack(8).value(), Val::MemPtr(Reg::RSP, 8));
}

#[test]
fn text_kinds_of_operators() {
    assert_eq!(Op1::Add1.get_type(), Op1Type::Arithmetic);
    assert_eq!(Op1::Sub1.get_type(), Op1Type::Arithmetic);
    assert_eq!(Op1::IsNum.get_type(), Op1Type::TypeCheck);
    assert_eq!(Op1::IsBool.get_type(), Op1Type::TypeCheck);
    assert_eq!(Op1::Print.get_type(), Op1Type::Application);
    assert_eq!(Op2::Plus.get_type(), Op2Type::Arithmetic);
    assert_eq!(Op2::Minus.get_type(), Op2Type::Arithmetic);
    assert_eq!(Op2::Times.get_type(), Op2Type::Arithmetic);
    assert_eq!(Op2::Lt.get_type(), Op2Type::Relational);
    assert_eq!(Op2::Gt.get_type(), Op2Type::Relational);
    assert_eq!(Op2::Lte.get_type(), Op2Type::Relational);
    assert_eq!(Op2::Gte.get_type(), Op2Type::Relational);
    assert_eq!(Op2::Equal.get_type(), Op2Type::Equality);
}

#[test]
fn text_of_operands() {
    assert_eq!(val_to_str(&Val::Reg(Reg::RAX)), "rax");
    assert_eq!(val_to_str(&Val::Reg(Reg::RBX)), "rbx");
    assert_eq!(val_to_str(&Val::Reg(Reg::RCX)), "rcx");
    assert_eq!(val_to_str(&Val::Reg(Reg::RDX)), "rdx");
    assert_eq!(val_to_str(&Val::Reg(Reg::RSP)), "rsp");
    assert_eq!(val_to_str(&Val::Reg(Reg::RDI)), "rdi");
    assert_eq!(val_to_str(&Val::Reg(Reg::R15)), "r15");
    assert_eq!(val_to_str(&Val::Imm(0)), "0");
    assert_eq!(val_to_str(&Val::Imm(-5)), "-5");
    assert_eq!(val_to_str(&Val::Imm(i64::MIN)), "-9223372036854775808");
    assert_eq!(val_to_str(&Val::MemPtr(Reg::RSP, -8)), "qword [rsp - 8]");
    assert_eq!(val_to_str(&Val::MemPtr(Reg::RSP, 16)), "qword [rsp + 16]");
    assert_eq!(val_to_str(&Val::MemPtr(Reg::RAX, 0)), "qword [rax]");
    assert_eq!(val_to_str(&Val::MemPtr(Reg::RBX, i32::MAX)), "qword [rbx + 2147483647]");
    assert_eq!(val_to_str(&Val::MemPtr(Reg::RBX, i32::MIN)), "qword [rbx - 2147483648]");
    assert_eq!(val_to_str(&label("endif_3")), "endif_3");
    assert_eq!(val_to_str(&label("")), "");
}

#[test]
fn text_of_instructions() {
    let a = || Val::Reg(Reg::RAX);
    let m = || Val::MemPtr(Reg::RSP, -24);
    let l = || label("there");
    assert_eq!(instr_to_str(&Instr::Label(l())), "there:");
    assert_eq!(instr_to_str(&Instr::Mov(a(), Val::Imm(5))), "mov rax, 5");
    assert_eq!(instr_to_str(&Instr::Add(a(), m())), "add rax, qword [rsp - 24]");
    assert_eq!(instr_to_str(&Instr::Sub(a(), m())), "sub rax, qword [rsp - 24]");
    assert_eq!(instr_to_str(&Instr::IMul(a(), m())), "imul rax, qword [rsp - 24]");
    assert_eq!(instr_to_str(&Instr::CMovl(a(), a())), "cmovl rax, rax");
    assert_eq!(instr_to_str(&Instr::CMovg(a(), a())), "cmovg rax, rax");
    assert_eq!(instr_to_str(&Instr::CMovle(a(), a())), "cmovle rax, rax");
    assert_eq!(instr_to_str(&Instr::CMovge(a(), a())), "cmovge rax, rax");
    assert_eq!(instr_to_str(&Instr::CMove(a(), a())), "cmove rax, rax");
    assert_eq!(instr_to_str(&Instr::Cmp(m(), Val::Imm(3))), "cmp qword [rsp - 24], 3");
    assert_eq!(instr_to_str(&Instr::Test(a(), Val::Imm(1))), "test rax, 1");
    assert_eq!(instr_to_str(&Instr::And(a(), Val::Imm(3))), "and rax, 3");
    assert_eq!(instr_to_str(&Instr::Xor(a(), m())), "xor rax, qword [rsp - 24]");
    assert_eq!(instr_to_str(&Instr::Sar(a(), Val::Imm(1))), "sar rax, 1");
    assert_eq!(instr_to_str(&Instr::Jmp(l())), "jmp there");
    assert_eq!(instr_to_str(&Instr::Je(l())), "je there");
    assert_eq!(instr_to_str(&Instr::Jne(l())), "jne there");
    assert_eq!(instr_to_str(&Instr::Jl(l())), "jl there");
    assert_eq!(instr_to_str(&Instr::Jle(l())), "jle there");
    assert_eq!(instr_to_str(&Instr::Jg(l())), "jg there");
    assert_eq!(instr_to_str(&Instr::Jge(l())), "jge there");
    assert_eq!(instr_to_str(&Instr::Jo(l())), "jo there");
    assert_eq!(instr_to_str(&Instr::Push(a())), "push rax");
    assert_eq!(instr_to_str(&Instr::Pop(a())), "pop rax");
    assert_eq!(instr_to_str(&Instr::Call(label("snek_print"))), "call snek_print");
    assert_eq!(instr_to_str(&Instr::Ret), "ret ");
}

#[test]
fn text_of_instruction_lists() {
    assert_eq!(to_asm(&vec![]), "");
    assert_eq!(to_asm(&vec![Instr::Ret]), "  ret ");
    assert_eq!(
        to_asm(&vec![Instr::Label(label("f")), Instr::Mov(rax(), Val::Imm(1)), Instr::Ret]),
        "  f:\n  mov rax, 1\n  ret "
    );
}

#[test]
fn text_integer_check() {
    let mut lbl = 4;
    let code = check_msmx(Val::MemPtr(Reg::RSP, -8), None, ValCheck::Integer, &mut lbl);
    assert_eq!(
        code,
        vec![
            Instr::Test(Val::MemPtr(Reg::RSP, -8), Val::Imm(1)),
            Instr::Mov(rdx(), Val::Imm(7)),
            Instr::Jne(trampoline()),
        ]
    );
    assert_eq!(lbl, 4);
}

#[test]
fn text_boolean_and_tuple_checks() {
    let mut lbl = 4;
    assert_eq!(
        check_msmx(rax(), Some(Val::Imm(0)), ValCheck::Boolean, &mut lbl),
        vec![
            Instr::Mov(rdx(), rax()),
            Instr::And(rdx(), Val::Imm(3)),
            Instr::Cmp(rdx(), Val::Imm(3)),
            Instr::Mov(rdx(), Val::Imm(7)),
            Instr::Jne(trampoline()),
        ]
    );
    assert_eq!(
        check_msmx(rax(), None, ValCheck::Tuple, &mut lbl),
        vec![
            Instr::Mov(rdx(), rax()),
            Instr::And(rdx(), Val::Imm(3)),
            Instr::Cmp(rdx(), Val::Imm(1)),
            Instr::Mov(rdx(), Val::Imm(7)),
            Instr::Jne(trampoline()),
        ]
    );
    assert_eq!(lbl, 4);
}

#[test]
fn text_equality_check_takes_a_label_number() {
    let mut lbl = 4;
    let other = Val::MemPtr(Reg::RSP, -16);
    let code = check_msmx(rax(), Some(Val::MemPtr(Reg::RSP, -16)), ValCheck::Equality, &mut lbl);
    assert_eq!(
        code,
        vec![
            Instr::Mov(rdx(), rax()),
            Instr::Test(rdx(), Val::Imm(1)),
            Instr::Je(label("eqcheck_4")),
            Instr::Xor(rdx(), Val::MemPtr(Reg::RSP, -16)),
            Instr::Test(rdx(), Val::Imm(1)),
            Instr::Mov(rdx(), Val::Imm(7)),
            Instr::Jne(trampoline()),
            Instr::Jmp(label("check_end_4")),
            Instr::Label(label("eqcheck_4")),
            Instr::Xor(rdx(), other),
            Instr::Test(rdx(), Val::Imm(1)),
            Instr::Mov(rdx(), Val::Imm(7)),
            Instr::Jne(trampoline()),
            Instr::Label(label("check_end_4")),
        ]
    );
    assert_eq!(lbl, 5);
}

#[test]
fn text_overflow_check() {
    assert_eq!(check_of(), vec![Instr::Mov(rdx(), Val::Imm(8)), Instr::Jo(trampoline())]);
}

#[test]
fn text_bounds_checks() {
    let head = |lower, inclusive| check_bnd(rax(), Val::Imm(0), lower, inclusive);
    let expected = |jump: Instr| {
        vec![Instr::Cmp(rax(), Val::Imm(0)), Instr::Mov(rdx(), Val::Imm(9)), jump]
    };
    assert_eq!(head(false, false), expected(Instr::Jge(trampoline())));
    assert_eq!(head(false, true), expected(Instr::Jg(trampoline())));
    assert_eq!(head(true, false), expected(Instr::Jle(trampoline())));
    assert_eq!(head(true, true), expected(Instr::Jl(trampoline())));
}

#[test]
fn text_clone_of_an_operand() {
    for v in [rax(), Val::Imm(-3), Val::MemPtr(Reg::R15, 8), label("x")] {
        assert_eq!(v.clone(), v);
    }
}
