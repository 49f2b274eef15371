//! Constants of the value representation, the reserved words, the inline
//! run-time checks, and the rendering of abstract assembly as text.

use crate::text::{decimal_string, decimal_text, numbered, push_decimal, same_text};
use crate::types::{code_of, Instr, LocPtr, Op1, Op1Type, Op2, Op2Type, Reg, SpecInstr, SpecVal, Val, ValCheck};
use vstd::prelude::*;

verus! {

/// Bound of the integers of the language: they lie in `[-LIM, LIM - 1]`.
pub const LIM: i64 = 4611686018427387904;

/// Bytes in a machine word.
pub const WORD_SIZE: i32 = 8i32;

/// Error code of a tag mismatch.
pub const MSMX_ERRCODE: i64 = 7;

/// Error code of an arithmetic overflow.
pub const OF_ERRCODE: i64 = 8;

/// Error code of a tuple index out of bounds.
pub const BND_ERRCODE: i64 = 9;

/// The tagged value `true`.
pub const TRUE_VAL: i64 = 7;

/// The tagged value `false`.
pub const FALSE_VAL: i64 = 3;

/// Whether `n` is an integer of the language.
pub open spec fn in_range(n: int) -> bool {
    -LIM <= n <= LIM - 1
}

/// Whether `s` is one of the reserved words.
pub open spec fn reserved(s: Seq<char>) -> bool {
    ||| s == "add1"@
    ||| s == "sub1"@
    ||| s == "isnum"@
    ||| s == "isbool"@
    ||| s == "*"@
    ||| s == "-"@
    ||| s == "+"@
    ||| s == "<"@
    ||| s == ">"@
    ||| s == "<="@
    ||| s == ">="@
    ||| s == "="@
    ||| s == "let"@
    ||| s == "if"@
    ||| s == "set!"@
    ||| s == "block"@
    ||| s == "loop"@
    ||| s == "break"@
    ||| s == "true"@
    ||| s == "false"@
    ||| s == "input"@
    ||| s == "print"@
    ||| s == "fun"@
}

/// Whether `s` is one of the reserved words.
pub fn is_reserved(s: &str) -> (r: bool)
    ensures
        r == reserved(s@),
{
    same_text(s, "add1") || same_text(s, "sub1") || same_text(s, "isnum") || same_text(
        s,
        "isbool",
    ) || same_text(s, "*") || same_text(s, "-") || same_text(s, "+") || same_text(s, "<")
        || same_text(s, ">") || same_text(s, "<=") || same_text(s, ">=") || same_text(s, "=")
        || same_text(s, "let") || same_text(s, "if") || same_text(s, "set!") || same_text(
        s,
        "block",
    ) || same_text(s, "loop") || same_text(s, "break") || same_text(s, "true") || same_text(
        s,
        "false",
    ) || same_text(s, "input") || same_text(s, "print") || same_text(s, "fun")
}

/// Whether `c` is an ASCII letter.
pub open spec fn is_letter(c: char) -> bool {
    ('a' <= c && c <= 'z') || ('A' <= c && c <= 'Z')
}

/// Whether `c` is an ASCII decimal digit.
pub open spec fn is_digit(c: char) -> bool {
    '0' <= c && c <= '9'
}

/// Whether `s` has the shape of an identifier: an ASCII letter, then ASCII
/// letters and digits.
pub open spec fn valid_identifier(s: Seq<char>) -> bool {
    &&& s.len() > 0
    &&& is_letter(s[0])
    &&& forall|i: int| 1 <= i < s.len() ==> is_letter(#[trigger] s[i]) || is_digit(s[i])
}

/// Whether `s` has the shape of an identifier or function name.
pub fn is_valid_identifier(s: &str) -> (r: bool)
    ensures
        r == valid_identifier(s@),
{
    let n = s.unicode_len();
    if n == 0 {
        return false;
    }
    let first = s.get_char(0);
    if !(('a' <= first && first <= 'z') || ('A' <= first && first <= 'Z')) {
        return false;
    }
    let mut i: usize = 1;
    while i < n
        invariant
            1 <= i <= n,
            n == s@.len(),
            is_letter(s@[0]),
            forall|j: int| 1 <= j < i ==> is_letter(#[trigger] s@[j]) || is_digit(s@[j]),
        decreases n - i,
    {
        let c = s.get_char(i);
        if !(('a' <= c && c <= 'z') || ('A' <= c && c <= 'Z') || ('0' <= c && c <= '9')) {
            return false;
        }
        i = i + 1;
    }
    true
}

/// The operand for a register.
pub open spec fn reg(r: Reg) -> SpecVal {
    SpecVal::Reg(r)
}

/// The operand for an immediate.
pub open spec fn imm(n: int) -> SpecVal {
    SpecVal::Imm(n)
}

/// The operand for a label.
pub open spec fn label(name: Seq<char>) -> SpecVal {
    SpecVal::Label(name)
}

/// The operand for the stack word with index `k`: `k` words below the
/// stack pointer.
pub open spec fn slot(k: int) -> SpecVal {
    SpecVal::MemPtr(Reg::RSP, -(k * 8))
}

/// The label of the error trampoline.
pub open spec fn error_target() -> SpecVal {
    label("throw_error_align"@)
}

impl LocPtr {
    /// The operand that addresses this location.
    pub open spec fn operand(self) -> SpecVal {
        match self {
            LocPtr::LReg(r) => SpecVal::Reg(r),
            LocPtr::LStack(offset) => SpecVal::MemPtr(Reg::RSP, offset as int),
        }
    }

    /// The operand that addresses this location.
    pub fn value(&self) -> (v: Val)
        ensures
            v@ == self.operand(),
    {
        match self {
            LocPtr::LReg(reg) => Val::Reg(*reg),
            LocPtr::LStack(offset) => Val::MemPtr(Reg::RSP, *offset),
        }
    }
}

impl Op1 {
    /// The kind of this operator.
    pub open spec fn kind(self) -> Op1Type {
        match self {
            Op1::Add1 | Op1::Sub1 => Op1Type::Arithmetic,
            Op1::IsNum | Op1::IsBool => Op1Type::TypeCheck,
            Op1::Print => Op1Type::Application,
        }
    }

    /// The kind of this operator.
    pub fn get_type(&self) -> (t: Op1Type)
        ensures
            t == self.kind(),
    {
        match self {
            Op1::Add1 | Op1::Sub1 => Op1Type::Arithmetic,
            Op1::IsNum | Op1::IsBool => Op1Type::TypeCheck,
            Op1::Print => Op1Type::Application,
        }
    }
}

impl Op2 {
    /// The kind of this operator.
    pub open spec fn kind(self) -> Op2Type {
        match self {
            Op2::Plus | Op2::Minus | Op2::Times => Op2Type::Arithmetic,
            Op2::Lt | Op2::Gt | Op2::Lte | Op2::Gte => Op2Type::Relational,
            Op2::Equal => Op2Type::Equality,
        }
    }

    /// The kind of this operator.
    pub fn get_type(&self) -> (t: Op2Type)
        ensures
            t == self.kind(),
    {
        match self {
            Op2::Plus | Op2::Minus | Op2::Times => Op2Type::Arithmetic,
            Op2::Lt | Op2::Gt | Op2::Lte | Op2::Gte => Op2Type::Relational,
            Op2::Equal => Op2Type::Equality,
        }
    }
}

/// The instructions that test the tag of `check` and divert to the error
/// trampoline, with the mismatch code staged in `rdx`, when it is not of
/// kind `kind`.
///
/// For `Equality` the test is on two values, `check` and `check2`: they
/// pass when both are integers or neither is, that is, when their low
/// bits agree. The labels of that test are numbered `lbl`.
pub open spec fn mismatch_check(
    check: SpecVal,
    check2: Option<SpecVal>,
    kind: ValCheck,
    lbl: int,
) -> Seq<SpecInstr> {
    let rdx = reg(Reg::RDX);
    let code = imm(MSMX_ERRCODE as int);
    match kind {
        ValCheck::Integer => seq![
            SpecInstr::Test(check, imm(1)),
            SpecInstr::Mov(rdx, code),
            SpecInstr::Jne(error_target()),
        ],
        ValCheck::Boolean => seq![
            SpecInstr::Mov(rdx, check),
            SpecInstr::And(rdx, imm(3)),
            SpecInstr::Cmp(rdx, imm(3)),
            SpecInstr::Mov(rdx, code),
            SpecInstr::Jne(error_target()),
        ],
        ValCheck::Tuple => seq![
            SpecInstr::Mov(rdx, check),
            SpecInstr::And(rdx, imm(3)),
            SpecInstr::Cmp(rdx, imm(1)),
            SpecInstr::Mov(rdx, code),
            SpecInstr::Jne(error_target()),
        ],
        ValCheck::Equality => {
            let other = check2->0;
            let int_chk = label("eqcheck_"@ + decimal_text(lbl));
            let chk_end = label("check_end_"@ + decimal_text(lbl));
            seq![
                SpecInstr::Mov(rdx, check),
                SpecInstr::Test(rdx, imm(1)),
                SpecInstr::Je(int_chk),
                SpecInstr::Xor(rdx, other),
                SpecInstr::Test(rdx, imm(1)),
                SpecInstr::Mov(rdx, code),
                SpecInstr::Jne(error_target()),
                SpecInstr::Jmp(chk_end),
                SpecInstr::Label(int_chk),
                SpecInstr::Xor(rdx, other),
                SpecInstr::Test(rdx, imm(1)),
                SpecInstr::Mov(rdx, code),
                SpecInstr::Jne(error_target()),
                SpecInstr::Label(chk_end),
            ]
        },
    }
}

/// The operand that names the error trampoline.
fn err_val() -> (v: Val)
    ensures
        v@ == error_target(),
{
    Val::Label(String::from_str("throw_error_align"))
}

/// Returns the instructions of a run-time tag check on `check` (and, for
/// `Equality`, on `check2_opn` too). A check of kind `Equality` takes the
/// next label number from `lbl`.
pub fn check_msmx(check: Val, check2_opn: Option<Val>, ctype: ValCheck, lbl: &mut i32) -> (ret:
    Vec<Instr>)
    requires
        ctype == ValCheck::Equality ==> check2_opn is Some && *old(lbl) < i32::MAX,
    ensures
        code_of(ret@) == mismatch_check(
            check@,
            match check2_opn {
                Some(v) => Some(v@),
                None => None,
            },
            ctype,
            *old(lbl) as int,
        ),
        *final(lbl) == (if ctype == ValCheck::Equality {
            *old(lbl) + 1
        } else {
            *old(lbl) as int
        }),
{
    let mut ret: Vec<Instr> = Vec::new();
    let err_val = err_val();
    match ctype {
        ValCheck::Integer => {
            ret.push(Instr::Test(check, Val::Imm(1)));
            ret.push(Instr::Mov(Val::Reg(Reg::RDX), Val::Imm(MSMX_ERRCODE)));
            ret.push(Instr::Jne(err_val));
        },
        ValCheck::Boolean => {
            ret.push(Instr::Mov(Val::Reg(Reg::RDX), check));
            ret.push(Instr::And(Val::Reg(Reg::RDX), Val::Imm(3)));
            ret.push(Instr::Cmp(Val::Reg(Reg::RDX), Val::Imm(3)));
            ret.push(Instr::Mov(Val::Reg(Reg::RDX), Val::Imm(MSMX_ERRCODE)));
            ret.push(Instr::Jne(err_val));
        },
        ValCheck::Tuple => {
            ret.push(Instr::Mov(Val::Reg(Reg::RDX), check));
            ret.push(Instr::And(Val::Reg(Reg::RDX), Val::Imm(3)));
            ret.push(Instr::Cmp(Val::Reg(Reg::RDX), Val::Imm(1)));
            ret.push(Instr::Mov(Val::Reg(Reg::RDX), Val::Imm(MSMX_ERRCODE)));
            ret.push(Instr::Jne(err_val));
        },
        ValCheck::Equality => {
            let check2 = check2_opn.unwrap();
            let int_chk = Val::Label(numbered("eqcheck_", *lbl));
            let chk_end = Val::Label(numbered("check_end_", *lbl));
            *lbl += 1;

            // Is the first value an integer?
            ret.push(Instr::Mov(Val::Reg(Reg::RDX), check));
            ret.push(Instr::Test(Val::Reg(Reg::RDX), Val::Imm(1)));
            ret.push(Instr::Je(int_chk.clone()));

            // It is not: the other must be none either.
            ret.push(Instr::Xor(Val::Reg(Reg::RDX), check2.clone()));
            ret.push(Instr::Test(Val::Reg(Reg::RDX), Val::Imm(1)));
            ret.push(Instr::Mov(Val::Reg(Reg::RDX), Val::Imm(MSMX_ERRCODE)));
            ret.push(Instr::Jne(err_val.clone()));
            ret.push(Instr::Jmp(chk_end.clone()));

            // It is: the other must be one too.
            ret.push(Instr::Label(int_chk));
            ret.push(Instr::Xor(Val::Reg(Reg::RDX), check2));
            ret.push(Instr::Test(Val::Reg(Reg::RDX), Val::Imm(1)));
            ret.push(Instr::Mov(Val::Reg(Reg::RDX), Val::Imm(MSMX_ERRCODE)));
            ret.push(Instr::Jne(err_val));

            ret.push(Instr::Label(chk_end));
        },
    }
    assert(code_of(ret@) =~= mismatch_check(
        check@,
        match check2_opn {
            Some(v) => Some(v@),
            None => None,
        },
        ctype,
        *old(lbl) as int,
    ));
    ret
}

/// The instructions that divert to the error trampoline, with the overflow
/// code staged in `rdx`, when the overflow flag is set.
pub open spec fn overflow_check() -> Seq<SpecInstr> {
    seq![
        SpecInstr::Mov(reg(Reg::RDX), imm(OF_ERRCODE as int)),
        SpecInstr::Jo(error_target()),
    ]
}

/// Returns the instructions of a run-time overflow check.
pub fn check_of() -> (ret: Vec<Instr>)
    ensures
        code_of(ret@) == overflow_check(),
{
    let mut ret: Vec<Instr> = Vec::new();
    let err_val = err_val();
    ret.push(Instr::Mov(Val::Reg(Reg::RDX), Val::Imm(OF_ERRCODE)));
    ret.push(Instr::Jo(err_val));
    assert(code_of(ret@) =~= overflow_check());
    ret
}

/// The instructions that compare `check` with `bound` and divert to the
/// error trampoline, with the bounds code staged in `rdx`, when `check` is
/// on the wrong side of it. With `lower` the bound is a lower bound, else an
/// upper one; with `inclusive` the bound itself is allowed.
pub open spec fn bounds_check(check: SpecVal, bound: SpecVal, lower: bool, inclusive: bool) -> Seq<
    SpecInstr,
> {
    seq![
        SpecInstr::Cmp(check, bound),
        SpecInstr::Mov(reg(Reg::RDX), imm(BND_ERRCODE as int)),
        if !lower && !inclusive {
            SpecInstr::Jge(error_target())
        } else if !lower && inclusive {
            SpecInstr::Jg(error_target())
        } else if lower && !inclusive {
            SpecInstr::Jle(error_target())
        } else {
            SpecInstr::Jl(error_target())
        },
    ]
}

/// Returns the instructions of a run-time bounds check.
pub fn check_bnd(check: Val, bound: Val, lower: bool, inclusive: bool) -> (ret: Vec<Instr>)
    ensures
        code_of(ret@) == bounds_check(check@, bound@, lower, inclusive),
{
    let mut ret: Vec<Instr> = Vec::new();
    let err_val = err_val();
    ret.push(Instr::Cmp(check, bound));
    ret.push(Instr::Mov(Val::Reg(Reg::RDX), Val::Imm(BND_ERRCODE)));
    ret.push(
        match (lower, inclusive) {
            (false, false) => Instr::Jge(err_val),
            (false, true) => Instr::Jg(err_val),
            (true, false) => Instr::Jle(err_val),
            (true, true) => Instr::Jl(err_val),
        },
    );
    assert(code_of(ret@) =~= bounds_check(check@, bound@, lower, inclusive));
    ret
}

/// The name of a register, as the assembler reads it.
pub open spec fn reg_name(r: Reg) -> Seq<char> {
    match r {
        Reg::RAX => "rax"@,
        Reg::RBX => "rbx"@,
        Reg::RCX => "rcx"@,
        Reg::RDX => "rdx"@,
        Reg::RSP => "rsp"@,
        Reg::RDI => "rdi"@,
        Reg::R15 => "r15"@,
    }
}

/// The text of an operand: a register by its name, an immediate in decimal,
/// a memory word as `qword [reg]`, `qword [reg + n]` or `qword [reg - n]`
/// with `n` positive, a label as it is.
pub open spec fn val_text(v: SpecVal) -> Seq<char> {
    match v {
        SpecVal::Reg(r) => reg_name(r),
        SpecVal::Imm(n) => decimal_text(n),
        SpecVal::MemPtr(r, offset) => if offset < 0 {
            "qword ["@ + reg_name(r) + " - "@ + decimal_text(-offset) + "]"@
        } else if offset > 0 {
            "qword ["@ + reg_name(r) + " + "@ + decimal_text(offset) + "]"@
        } else {
            "qword ["@ + reg_name(r) + "]"@
        },
        SpecVal::Label(name) => name,
    }
}

/// The mnemonic of an instruction; a label definition has none.
pub open spec fn mnemonic(i: SpecInstr) -> Seq<char> {
    match i {
        SpecInstr::Label(_) => Seq::empty(),
        SpecInstr::Mov(_, _) => "mov"@,
        SpecInstr::Add(_, _) => "add"@,
        SpecInstr::Sub(_, _) => "sub"@,
        SpecInstr::IMul(_, _) => "imul"@,
        SpecInstr::CMovl(_, _) => "cmovl"@,
        SpecInstr::CMovg(_, _) => "cmovg"@,
        SpecInstr::CMovle(_, _) => "cmovle"@,
        SpecInstr::CMovge(_, _) => "cmovge"@,
        SpecInstr::CMove(_, _) => "cmove"@,
        SpecInstr::Cmp(_, _) => "cmp"@,
        SpecInstr::Test(_, _) => "test"@,
        SpecInstr::And(_, _) => "and"@,
        SpecInstr::Xor(_, _) => "xor"@,
        SpecInstr::Sar(_, _) => "sar"@,
        SpecInstr::Jmp(_) => "jmp"@,
        SpecInstr::Je(_) => "je"@,
        SpecInstr::Jne(_) => "jne"@,
        SpecInstr::Jl(_) => "jl"@,
        SpecInstr::Jle(_) => "jle"@,
        SpecInstr::Jg(_) => "jg"@,
        SpecInstr::Jge(_) => "jge"@,
        SpecInstr::Jo(_) => "jo"@,
        SpecInstr::Push(_) => "push"@,
        SpecInstr::Pop(_) => "pop"@,
        SpecInstr::Call(_) => "call"@,
        SpecInstr::Ret => "ret"@,
    }
}

/// The operands of an instruction, in order.
pub open spec fn operands(i: SpecInstr) -> Seq<SpecVal> {
    match i {
        SpecInstr::Label(v) => seq![v],
        SpecInstr::Mov(a, b) => seq![a, b],
        SpecInstr::Add(a, b) => seq![a, b],
        SpecInstr::Sub(a, b) => seq![a, b],
        SpecInstr::IMul(a, b) => seq![a, b],
        SpecInstr::CMovl(a, b) => seq![a, b],
        SpecInstr::CMovg(a, b) => seq![a, b],
        SpecInstr::CMovle(a, b) => seq![a, b],
        SpecInstr::CMovge(a, b) => seq![a, b],
        SpecInstr::CMove(a, b) => seq![a, b],
        SpecInstr::Cmp(a, b) => seq![a, b],
        SpecInstr::Test(a, b) => seq![a, b],
        SpecInstr::And(a, b) => seq![a, b],
        SpecInstr::Xor(a, b) => seq![a, b],
        SpecInstr::Sar(a, b) => seq![a, b],
        SpecInstr::Jmp(v) => seq![v],
        SpecInstr::Je(v) => seq![v],
        SpecInstr::Jne(v) => seq![v],
        SpecInstr::Jl(v) => seq![v],
        SpecInstr::Jle(v) => seq![v],
        SpecInstr::Jg(v) => seq![v],
        SpecInstr::Jge(v) => seq![v],
        SpecInstr::Jo(v) => seq![v],
        SpecInstr::Push(v) => seq![v],
        SpecInstr::Pop(v) => seq![v],
        SpecInstr::Call(v) => seq![v],
        SpecInstr::Ret => seq![],
    }
}

/// The text of an instruction: a label definition is the label and a
/// colon; any other is its mnemonic, a space, and its operands separated by
/// a comma and a space.
pub open spec fn instr_text(i: SpecInstr) -> Seq<char> {
    let ops = operands(i);
    if i is Label {
        val_text(ops[0]) + ":"@
    } else if ops.len() == 2 {
        mnemonic(i) + " "@ + val_text(ops[0]) + ", "@ + val_text(ops[1])
    } else if ops.len() == 1 {
        mnemonic(i) + " "@ + val_text(ops[0])
    } else {
        mnemonic(i) + " "@
    }
}

/// The text of a list of instructions: each on a line of its own, indented
/// by two spaces, with no line break after the last.
pub open spec fn asm_text(code: Seq<SpecInstr>) -> Seq<char>
    decreases code.len(),
{
    if code.len() == 0 {
        Seq::empty()
    } else if code.len() == 1 {
        "  "@ + instr_text(code[0])
    } else {
        asm_text(code.drop_last()) + "\n"@ + "  "@ + instr_text(code.last())
    }
}

/// The name of a register.
fn reg_to_str(r: Reg) -> (s: &'static str)
    ensures
        s@ == reg_name(r),
{
    match r {
        Reg::RAX => "rax",
        Reg::RBX => "rbx",
        Reg::RCX => "rcx",
        Reg::RDX => "rdx",
        Reg::RSP => "rsp",
        Reg::RDI => "rdi",
        Reg::R15 => "r15",
    }
}

/// Converts an operand to the text the assembler reads.
pub fn val_to_str(v: &Val) -> (s: String)
    ensures
        s@ == val_text(v@),
{
    match v {
        Val::Reg(reg) => String::from_str(reg_to_str(*reg)),
        Val::Imm(imm) => decimal_string(*imm),
        Val::MemPtr(reg, imm) => {
            let mut s = String::from_str("qword [");
            s.append(reg_to_str(*reg));
            if *imm < 0 {
                s.append(" - ");
                push_decimal(&mut s, -(*imm as i64));
            } else if *imm > 0 {
                s.append(" + ");
                push_decimal(&mut s, *imm as i64);
            }
            s.append("]");
            assert(s@ =~= val_text(v@));
            s
        },
        Val::Label(name) => name.clone(),
    }
}

/// The mnemonic of an instruction.
fn mnemonic_of(i: &Instr) -> (s: &'static str)
    requires
        !(i is Label),
    ensures
        s@ == mnemonic(i@),
{
    match i {
        Instr::Label(_) => "",
        Instr::Mov(_, _) => "mov",
        Instr::Add(_, _) => "add",
        Instr::Sub(_, _) => "sub",
        Instr::IMul(_, _) => "imul",
        Instr::CMovl(_, _) => "cmovl",
        Instr::CMovg(_, _) => "cmovg",
        Instr::CMovle(_, _) => "cmovle",
        Instr::CMovge(_, _) => "cmovge",
        Instr::CMove(_, _) => "cmove",
        Instr::Cmp(_, _) => "cmp",
        Instr::Test(_, _) => "test",
        Instr::And(_, _) => "and",
        Instr::Xor(_, _) => "xor",
        Instr::Sar(_, _) => "sar",
        Instr::Jmp(_) => "jmp",
        Instr::Je(_) => "je",
        Instr::Jne(_) => "jne",
        Instr::Jl(_) => "jl",
        Instr::Jle(_) => "jle",
        Instr::Jg(_) => "jg",
        Instr::Jge(_) => "jge",
        Instr::Jo(_) => "jo",
        Instr::Push(_) => "push",
        Instr::Pop(_) => "pop",
        Instr::Call(_) => "call",
        Instr::Ret => "ret",
    }
}

/// Converts an abstract instruction to a line of assembly.
pub fn instr_to_str(i: &Instr) -> (s: String)
    ensures
        s@ == instr_text(i@),
{
    if let Instr::Label(v) = i {
        let mut s = val_to_str(v);
        s.append(":");
        assert(s@ =~= instr_text(i@));
        s
    } else {
        let mut s = String::from_str(mnemonic_of(i));
        s.append(" ");
        match i {
            Instr::Mov(v1, v2)
            | Instr::Add(v1, v2)
            | Instr::Sub(v1, v2)
            | Instr::IMul(v1, v2)
            | Instr::CMovl(v1, v2)
            | Instr::CMovg(v1, v2)
            | Instr::CMovle(v1, v2)
            | Instr::CMovge(v1, v2)
            | Instr::CMove(v1, v2)
            | Instr::Cmp(v1, v2)
            | Instr::Test(v1, v2)
            | Instr::And(v1, v2)
            | Instr::Xor(v1, v2)
            | Instr::Sar(v1, v2) => {
                let a = val_to_str(v1);
                let b = val_to_str(v2);
                s.append(a.as_str());
                s.append(", ");
                s.append(b.as_str());
            },
            Instr::Jmp(v)
            | Instr::Je(v)
            | Instr::Jne(v)
            | Instr::Jl(v)
            | Instr::Jle(v)
            | Instr::Jg(v)
            | Instr::Jge(v)
            | Instr::Jo(v)
            | Instr::Push(v)
            | Instr::Pop(v)
            | Instr::Call(v) => {
                let a = val_to_str(v);
                s.append(a.as_str());
            },
            _ => {},
        }
        assert(s@ =~= instr_text(i@));
        s
    }
}

/// Converts a list of instructions to assembly text, one instruction to a
/// line.
pub fn to_asm(instrs: &Vec<Instr>) -> (asm_str: String)
    ensures
        asm_str@ == asm_text(code_of(instrs@)),
{
    let mut asm_str = String::new();
    let mut i: usize = 0;
    while i < instrs.len()
        invariant
            i <= instrs.len(),
            asm_str@ == asm_text(code_of(instrs@).take(i as int)),
        decreases instrs.len() - i,
    {
        let line = instr_to_str(&instrs[i]);
        if i > 0 {
            asm_str.append("\n");
        }
        asm_str.append("  ");
        asm_str.append(line.as_str());
        proof {
            let all = code_of(instrs@);
            assert(all.take(i + 1).drop_last() =~= all.take(i as int));
            assert(all.take(i + 1).last() == instrs@[i as int]@);
            assert(asm_str@ =~= asm_text(all.take(i + 1)));
        }
        i = i + 1;
    }
    assert(code_of(instrs@).take(i as int) =~= code_of(instrs@));
    asm_str
}

} // verus!
