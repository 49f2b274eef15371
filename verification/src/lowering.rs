//! What the compiler emits, stated as mathematics: for each form of the
//! language, the instructions its lowering consists of.
//!
//! Every expression leaves its tagged value in `rax`. Temporaries live in
//! stack words addressed by index below `rsp`; the index is never given
//! back. Labels are numbered from a counter that only grows.

use crate::error::SpecCompileError;
use crate::text::decimal_text;
use crate::types::{LocPtr, Op1, Op1Type, Op2, Op2Type, Reg, Scope, SpecExpr, SpecFunction,
    SpecInstr, SpecProgram, SpecVal, ValCheck};
use crate::utils::{imm, in_range, label, mismatch_check, overflow_check, reg, slot, FALSE_VAL,
    TRUE_VAL};
use vstd::prelude::*;

verus! {

/// The largest stack index the compiler works at: the byte offsets of the
/// stack words up to here, and two beyond, fit the operand of a memory
/// access.
pub const MAX_SI: i32 = 134217728;

/// The largest number of elements of a tuple expression.
pub const MAX_TUPLE: usize = 134217728;

/// The largest label number: the counter stops here.
pub const MAX_LABEL: i32 = 2147483647;

/// Instructions together with the label counter after them.
pub struct Lowered {
    pub code: Seq<SpecInstr>,
    pub next: int,
}

/// The outcome of lowering: instructions and counter, or the first static
/// error met in the order of evaluation.
pub type Outcome = Result<Lowered, SpecCompileError>;

/// `code`, then what `rest` holds.
pub open spec fn prepend(code: Seq<SpecInstr>, rest: Outcome) -> Outcome {
    match rest {
        Ok(l) => Ok(Lowered { code: code + l.code, next: l.next }),
        Err(e) => Err(e),
    }
}

/// What `first` holds, then `code`.
pub open spec fn followed(first: Outcome, code: Seq<SpecInstr>) -> Outcome {
    match first {
        Ok(l) => Ok(Lowered { code: l.code + code, next: l.next }),
        Err(e) => Err(e),
    }
}

/// The location of the stack word with index `k`.
pub open spec fn slot_loc(k: int) -> LocPtr {
    LocPtr::LStack((-(k * 8)) as i32)
}

/// The tagged value of a boolean.
pub open spec fn bool_value(b: bool) -> int {
    if b {
        TRUE_VAL as int
    } else {
        FALSE_VAL as int
    }
}

/// The padding, in words, that `print` adds below stack index `si` so that
/// the stack pointer is a multiple of 16 at the call.
pub open spec fn print_offset(si: int) -> int {
    (si + (if si % 2 == 0 {
        1int
    } else {
        0int
    })) * 8
}

/// What follows the operand of a unary operator: for `add1` and `sub1` an
/// integer check of `rax`, the operation on the tagged value and an
/// overflow check; for `isnum` and `isbool` a test of the low bit and a
/// conditional move of `true` over `false`; for `print` a call of
/// `snek_print` that keeps `rdi` and `rax`.
pub open spec fn unary_code(op: Op1, si: int) -> Seq<SpecInstr> {
    let rax = reg(Reg::RAX);
    let rbx = reg(Reg::RBX);
    let rdi = reg(Reg::RDI);
    let rsp = reg(Reg::RSP);
    let check = if op.kind() == Op1Type::Arithmetic {
        mismatch_check(rax, None, ValCheck::Integer, 0)
    } else {
        Seq::empty()
    };
    check + (match op {
        Op1::Add1 => seq![SpecInstr::Add(rax, imm(2))] + overflow_check(),
        Op1::Sub1 => seq![SpecInstr::Sub(rax, imm(2))] + overflow_check(),
        Op1::IsNum => seq![
            SpecInstr::Test(rax, imm(1)),
            SpecInstr::Mov(rbx, imm(TRUE_VAL as int)),
            SpecInstr::Mov(rax, imm(FALSE_VAL as int)),
            SpecInstr::CMove(rax, rbx),
        ],
        Op1::IsBool => seq![
            SpecInstr::Test(rax, imm(1)),
            SpecInstr::Mov(rbx, imm(FALSE_VAL as int)),
            SpecInstr::Mov(rax, imm(TRUE_VAL as int)),
            SpecInstr::CMove(rax, rbx),
        ],
        Op1::Print => seq![
            SpecInstr::Sub(rsp, imm(print_offset(si))),
            SpecInstr::Push(rdi),
            SpecInstr::Push(rax),
            SpecInstr::Mov(rdi, rax),
            SpecInstr::Call(label("snek_print"@)),
            SpecInstr::Pop(rax),
            SpecInstr::Pop(rdi),
            SpecInstr::Add(rsp, imm(print_offset(si))),
        ],
    })
}

/// The conditional move that a comparison operator ends in.
pub open spec fn select(op: Op2, dst: SpecVal, src: SpecVal) -> SpecInstr {
    match op {
        Op2::Lt => SpecInstr::CMovl(dst, src),
        Op2::Gt => SpecInstr::CMovg(dst, src),
        Op2::Lte => SpecInstr::CMovle(dst, src),
        Op2::Gte => SpecInstr::CMovge(dst, src),
        _ => SpecInstr::CMove(dst, src),
    }
}

/// What follows the operands of a binary operator, with the left operand in
/// `rax` and the right one in the stack word `si`.
///
/// First the tags: for `=` the two operands are XORed into `rbx` and its
/// low bit tested, so that an integer never meets a non-integer; for every
/// other operator each operand is checked to be an integer. Then the
/// operation: `+`, `-` and `*` work on the tagged values (`*` after
/// halving the left one) and end in an overflow check; the comparisons put
/// `false` in `rax`, `true` in `rbx` and move conditionally.
pub open spec fn binary_code(op: Op2, si: int) -> Seq<SpecInstr> {
    let rax = reg(Reg::RAX);
    let rbx = reg(Reg::RBX);
    let right = slot(si);
    let check = if op.kind() == Op2Type::Equality {
        seq![SpecInstr::Mov(rbx, rax), SpecInstr::Xor(rbx, right)] + mismatch_check(
            rbx,
            None,
            ValCheck::Integer,
            0,
        )
    } else {
        mismatch_check(rax, None, ValCheck::Integer, 0) + mismatch_check(
            right,
            None,
            ValCheck::Integer,
            0,
        )
    };
    check + (match op {
        Op2::Plus => seq![SpecInstr::Add(rax, right)] + overflow_check(),
        Op2::Minus => seq![SpecInstr::Sub(rax, right)] + overflow_check(),
        Op2::Times => seq![SpecInstr::Sar(rax, imm(1)), SpecInstr::IMul(rax, right)]
            + overflow_check(),
        _ => seq![
            SpecInstr::Cmp(rax, right),
            SpecInstr::Mov(rax, imm(FALSE_VAL as int)),
            SpecInstr::Mov(rbx, imm(TRUE_VAL as int)),
            select(op, rax, rbx),
        ],
    })
}

/// The code of `if`, numbered `n`, around the code of its three parts:
/// anything but `false` takes the first branch.
pub open spec fn branch_code(
    n: int,
    cond: Seq<SpecInstr>,
    taken: Seq<SpecInstr>,
    otherwise: Seq<SpecInstr>,
) -> Seq<SpecInstr> {
    let else_lbl = label("else_"@ + decimal_text(n));
    let endif_lbl = label("endif_"@ + decimal_text(n));
    cond + seq![
        SpecInstr::Cmp(reg(Reg::RAX), imm(FALSE_VAL as int)),
        SpecInstr::Je(else_lbl),
    ] + taken + seq![SpecInstr::Jmp(endif_lbl), SpecInstr::Label(else_lbl)] + otherwise
        + seq![SpecInstr::Label(endif_lbl)]
}

/// The label that a `break` of loop `n` jumps to.
pub open spec fn loop_exit(n: int) -> SpecVal {
    label("endloop_"@ + decimal_text(n))
}

/// The code of `loop`, numbered `n`, around the code of its body: the body
/// is repeated for ever, and the exit label stands behind the jump back.
pub open spec fn loop_code(n: int, body: Seq<SpecInstr>) -> Seq<SpecInstr> {
    let loop_lbl = label("loop_"@ + decimal_text(n));
    seq![SpecInstr::Label(loop_lbl)] + body + seq![
        SpecInstr::Jmp(loop_lbl),
        SpecInstr::Label(loop_exit(n)),
    ]
}

/// What turns the tagged index in `rax` into a byte offset into a tuple,
/// past its length word, and keeps it in the stack word `si`.
pub open spec fn index_code(si: int) -> Seq<SpecInstr> {
    let rax = reg(Reg::RAX);
    seq![
        SpecInstr::IMul(rax, imm(4)),
        SpecInstr::Add(rax, imm(8)),
        SpecInstr::Mov(slot(si), rax),
    ]
}

/// What reads the element of the tuple in `rax` at the byte offset kept in
/// the stack word `si`. Neither the tag of the tuple nor the range of the
/// index is checked.
pub open spec fn fetch_code(si: int) -> Seq<SpecInstr> {
    let rax = reg(Reg::RAX);
    seq![
        SpecInstr::Sub(rax, imm(1)),
        SpecInstr::Add(rax, slot(si)),
        SpecInstr::Mov(rax, SpecVal::MemPtr(Reg::RAX, 0)),
    ]
}

/// What writes the value kept in the stack word `si + 1` to the element of
/// the tuple in `rax` at the byte offset kept in the stack word `si`, and
/// leaves the tuple in `rax`. Neither the tag of the tuple nor the range of
/// the index is checked.
pub open spec fn store_code(si: int) -> Seq<SpecInstr> {
    let rax = reg(Reg::RAX);
    let rbx = reg(Reg::RBX);
    let rcx = reg(Reg::RCX);
    seq![
        SpecInstr::Mov(rbx, rax),
        SpecInstr::Sub(rax, imm(1)),
        SpecInstr::Add(rax, slot(si)),
        SpecInstr::Mov(rcx, slot(si + 1)),
        SpecInstr::Mov(SpecVal::MemPtr(Reg::RAX, 0), rcx),
        SpecInstr::Mov(rax, rbx),
    ]
}

/// What allocates a tuple of `len` elements: the heap cursor is saved in
/// the stack word `si` and advanced past the length word and the elements,
/// and the length is written first.
pub open spec fn tuple_open(si: int, len: int) -> Seq<SpecInstr> {
    let r15 = reg(Reg::R15);
    let rbx = reg(Reg::RBX);
    seq![
        SpecInstr::Mov(slot(si), r15),
        SpecInstr::Add(r15, imm((len + 1) * 8)),
        SpecInstr::Mov(rbx, slot(si)),
        SpecInstr::Mov(SpecVal::MemPtr(Reg::RBX, 0), imm(len)),
    ]
}

/// What writes `rax` to element `index` of the tuple whose address is saved
/// in the stack word `si`.
pub open spec fn tuple_put(si: int, index: int) -> Seq<SpecInstr> {
    let rbx = reg(Reg::RBX);
    seq![
        SpecInstr::Mov(rbx, slot(si)),
        SpecInstr::Mov(SpecVal::MemPtr(Reg::RBX, (index + 1) * 8), reg(Reg::RAX)),
    ]
}

/// What leaves in `rax` the tagged address of the tuple saved in the stack
/// word `si`.
pub open spec fn tuple_close(si: int) -> Seq<SpecInstr> {
    let rax = reg(Reg::RAX);
    seq![SpecInstr::Mov(rax, slot(si)), SpecInstr::Add(rax, imm(1))]
}

/// The padding word of a call with `n` arguments at stack index `si`: with
/// it the highest index of the words of the arguments is odd, so that the
/// stack pointer is a multiple of 16 once the return address is pushed.
pub open spec fn call_pad(si: int, n: int) -> int {
    if (n + si) % 2 == 0 {
        0
    } else {
        1
    }
}

/// The call itself, below the stack words up to index `last`.
pub open spec fn call_code(name: Seq<char>, last: int) -> Seq<SpecInstr> {
    let rsp = reg(Reg::RSP);
    seq![
        SpecInstr::Sub(rsp, imm(last * 8)),
        SpecInstr::Call(label(name)),
        SpecInstr::Add(rsp, imm(last * 8)),
    ]
}

/// The bindings of a `let` lowered: their instructions, the label counter,
/// and the environment and stack index that the body is lowered in.
pub struct Bound {
    pub code: Seq<SpecInstr>,
    pub next: int,
    pub env: Map<Seq<char>, LocPtr>,
    pub si: int,
}

/// `code`, then what `rest` holds.
pub open spec fn prepend_bound(code: Seq<SpecInstr>, rest: Result<Bound, SpecCompileError>)
    -> Result<Bound, SpecCompileError> {
    match rest {
        Ok(b) => Ok(Bound { code: code + b.code, next: b.next, env: b.env, si: b.si }),
        Err(e) => Err(e),
    }
}

/// The lowering of expression `e` at the point described by `c`, with `lbl`
/// the next free label number.
///
/// The result is the first static error in the order in which the
/// compiler meets the parts of `e`, or the instructions and the label
/// counter after them. A form that addresses a stack word by the stack
/// index is too large where the index lies outside the range of the
/// compiler; a literal, a variable and the forms that only pass the index
/// on are lowered at any index.
pub open spec fn lower(e: SpecExpr, c: Scope, lbl: int) -> Outcome
    decreases e,
{
    let rax = reg(Reg::RAX);
    let fits = 0 <= c.si <= MAX_SI;
    match e {
        SpecExpr::Number(n) => if in_range(n) {
            Ok(Lowered { code: seq![SpecInstr::Mov(rax, imm(n * 2))], next: lbl })
        } else {
            Err(SpecCompileError::NumberOutOfRange)
        },
        SpecExpr::Boolean(b) => Ok(
            Lowered { code: seq![SpecInstr::Mov(rax, imm(bool_value(b)))], next: lbl },
        ),
        SpecExpr::Tuple(es) => if !fits || es.len() > MAX_TUPLE {
            Err(SpecCompileError::TooLarge)
        } else {
            prepend(
                tuple_open(c.si, es.len() as int),
                followed(lower_elements(es, c, 0, lbl), tuple_close(c.si)),
            )
        },
        SpecExpr::Id(name) => if name == "input"@ {
            if c.in_func {
                Err(SpecCompileError::InputInFunction)
            } else {
                Ok(Lowered { code: seq![SpecInstr::Mov(rax, reg(Reg::RDI))], next: lbl })
            }
        } else if c.env.contains_key(name) {
            Ok(Lowered { code: seq![SpecInstr::Mov(rax, c.env[name].operand())], next: lbl })
        } else {
            Err(SpecCompileError::UnboundVariable(name))
        },
        SpecExpr::Let(binds, body) => match lower_bindings(binds, c, lbl) {
            Err(x) => Err(x),
            Ok(b) => prepend(
                b.code,
                lower(*body, Scope { si: b.si, env: b.env, ..c }, b.next),
            ),
        },
        SpecExpr::UnOp(op, operand) => if op == Op1::Print && !fits {
            Err(SpecCompileError::TooLarge)
        } else {
            followed(lower(*operand, c, lbl), unary_code(op, c.si))
        },
        SpecExpr::BinOp(op, left, right) => if !fits {
            Err(SpecCompileError::TooLarge)
        } else {
            match lower(*right, c, lbl) {
                Err(x) => Err(x),
                Ok(r) => prepend(
                    r.code + seq![SpecInstr::Mov(slot(c.si), rax)],
                    followed(
                        lower(*left, Scope { si: c.si + 1, ..c }, r.next),
                        binary_code(op, c.si),
                    ),
                ),
            }
        },
        SpecExpr::If(cond, taken, otherwise) => if lbl >= MAX_LABEL {
            Err(SpecCompileError::TooLarge)
        } else {
            match lower(*cond, c, lbl + 1) {
                Err(x) => Err(x),
                Ok(a) => match lower(*taken, c, a.next) {
                    Err(x) => Err(x),
                    Ok(b) => match lower(*otherwise, c, b.next) {
                        Err(x) => Err(x),
                        Ok(d) => Ok(
                            Lowered {
                                code: branch_code(lbl, a.code, b.code, d.code),
                                next: d.next,
                            },
                        ),
                    },
                },
            }
        },
        SpecExpr::Loop(body) => if lbl >= MAX_LABEL {
            Err(SpecCompileError::TooLarge)
        } else {
            match lower(*body, Scope { loop_num: lbl, ..c }, lbl + 1) {
                Err(x) => Err(x),
                Ok(b) => Ok(Lowered { code: loop_code(lbl, b.code), next: b.next }),
            }
        },
        SpecExpr::Break(value) => if c.loop_num > 0 {
            followed(lower(*value, c, lbl), seq![SpecInstr::Jmp(loop_exit(c.loop_num))])
        } else {
            Err(SpecCompileError::BreakOutsideLoop)
        },
        SpecExpr::Assign(name, value) => if c.env.contains_key(name) {
            followed(
                lower(*value, c, lbl),
                seq![SpecInstr::Mov(c.env[name].operand(), rax)],
            )
        } else {
            Err(SpecCompileError::UnboundVariable(name))
        },
        SpecExpr::TSet(tuple, index, value) => if !fits {
            Err(SpecCompileError::TooLarge)
        } else {
            match lower(*index, c, lbl) {
                Err(x) => Err(x),
                Ok(i) => match lower(*value, Scope { si: c.si + 1, ..c }, i.next) {
                    Err(x) => Err(x),
                    Ok(v) => prepend(
                        i.code + index_code(c.si) + v.code + seq![
                            SpecInstr::Mov(slot(c.si + 1), rax),
                        ],
                        followed(
                            lower(*tuple, Scope { si: c.si + 2, ..c }, v.next),
                            store_code(c.si),
                        ),
                    ),
                },
            }
        },
        SpecExpr::TGet(tuple, index) => if !fits {
            Err(SpecCompileError::TooLarge)
        } else {
            match lower(*index, c, lbl) {
                Err(x) => Err(x),
                Ok(i) => prepend(
                    i.code + index_code(c.si),
                    followed(
                        lower(*tuple, Scope { si: c.si + 1, ..c }, i.next),
                        fetch_code(c.si),
                    ),
                ),
            }
        },
        SpecExpr::Block(es) => lower_block(es, c, lbl),
        SpecExpr::Call(name, args) => if !c.arity.contains_key(name) {
            Err(SpecCompileError::UnknownFunction(name))
        } else if c.arity[name] != args.len() {
            Err(SpecCompileError::WrongArity(name))
        } else if !fits || args.len() > MAX_SI - c.si {
            Err(SpecCompileError::TooLarge)
        } else {
            let first = c.si + call_pad(c.si, args.len() as int);
            followed(
                lower_arguments(args, c, first, first + args.len(), lbl),
                call_code(name, first + args.len() - 1),
            )
        },
    }
}

/// The lowering of the expressions of a block, one after the other.
pub open spec fn lower_block(es: Seq<SpecExpr>, c: Scope, lbl: int) -> Outcome
    decreases es,
{
    if es.len() == 0 {
        Ok(Lowered { code: Seq::empty(), next: lbl })
    } else {
        match lower(es[0], c, lbl) {
            Err(x) => Err(x),
            Ok(first) => prepend(first.code, lower_block(es.drop_first(), c, first.next)),
        }
    }
}

/// The lowering of the elements of a tuple from element `index` on: each is
/// lowered one stack index above the word that holds the tuple's address,
/// and written to the tuple.
pub open spec fn lower_elements(es: Seq<SpecExpr>, c: Scope, index: int, lbl: int) -> Outcome
    decreases es,
{
    if es.len() == 0 {
        Ok(Lowered { code: Seq::empty(), next: lbl })
    } else {
        match lower(es[0], Scope { si: c.si + 1, ..c }, lbl) {
            Err(x) => Err(x),
            Ok(first) => prepend(
                first.code + tuple_put(c.si, index),
                lower_elements(es.drop_first(), c, index + 1, first.next),
            ),
        }
    }
}

/// The lowering of the arguments of a call, in order. The arguments are
/// kept in the stack words from index `first` on, the first argument in
/// the word of the highest index, so that it ends up lowest in memory;
/// each is lowered at the stack index `above`, which lies above all of
/// these words.
pub open spec fn lower_arguments(
    args: Seq<SpecExpr>,
    c: Scope,
    first: int,
    above: int,
    lbl: int,
) -> Outcome
    decreases args,
{
    if args.len() == 0 {
        Ok(Lowered { code: Seq::empty(), next: lbl })
    } else {
        match lower(args[0], Scope { si: above, ..c }, lbl) {
            Err(x) => Err(x),
            Ok(a) => prepend(
                a.code + seq![SpecInstr::Mov(slot(first + args.len() - 1), reg(Reg::RAX))],
                lower_arguments(args.drop_first(), c, first, above, a.next),
            ),
        }
    }
}

/// The lowering of the bindings of a `let`, in order: each expression is
/// lowered under the bindings before it and kept in the next stack word,
/// which the name is then bound to. A binding is too large where the
/// index of its word lies outside the range of the compiler.
pub open spec fn lower_bindings(binds: Seq<(Seq<char>, SpecExpr)>, c: Scope, lbl: int) -> Result<
    Bound,
    SpecCompileError,
>
    decreases binds,
{
    if binds.len() == 0 {
        Ok(Bound { code: Seq::empty(), next: lbl, env: c.env, si: c.si })
    } else if !(0 <= c.si <= MAX_SI) {
        Err(SpecCompileError::TooLarge)
    } else {
        match lower(binds[0].1, c, lbl) {
            Err(x) => Err(x),
            Ok(first) => prepend_bound(
                first.code + seq![SpecInstr::Mov(slot(c.si), reg(Reg::RAX))],
                lower_bindings(
                    binds.drop_first(),
                    Scope { si: c.si + 1, env: c.env.insert(binds[0].0, slot_loc(c.si)), ..c },
                    first.next,
                ),
            ),
        }
    }
}

/// The environment of a function body: parameter `k`, counted from 1, lives
/// `k` words above the stack pointer, beyond the return address. Where a
/// name occurs twice, the later parameter has it.
pub open spec fn parameters(args: Seq<Seq<char>>) -> Map<Seq<char>, LocPtr>
    decreases args.len(),
{
    if args.len() == 0 {
        Map::empty()
    } else {
        parameters(args.drop_last()).insert(args.last(), LocPtr::LStack((args.len() * 8) as i32))
    }
}

/// The lowering of a function definition: its label, its body at stack
/// index 1 under its parameters and outside every loop, and `ret`.
pub open spec fn lower_function(f: SpecFunction, arity: Map<Seq<char>, i32>, lbl: int) -> Outcome {
    let c = Scope { si: 1, env: parameters(f.args), loop_num: 0, arity: arity, in_func: true };
    if f.args.len() > MAX_SI {
        Err(SpecCompileError::TooLarge)
    } else {
        prepend(
            seq![SpecInstr::Label(label(f.name))],
            followed(lower(f.body, c, lbl), seq![SpecInstr::Ret]),
        )
    }
}

/// The lowering of a list of definitions, one after the other.
pub open spec fn lower_functions(fs: Seq<SpecFunction>, arity: Map<Seq<char>, i32>, lbl: int)
    -> Outcome
    decreases fs.len(),
{
    if fs.len() == 0 {
        Ok(Lowered { code: Seq::empty(), next: lbl })
    } else {
        match lower_function(fs[0], arity, lbl) {
            Err(x) => Err(x),
            Ok(first) => prepend(first.code, lower_functions(fs.drop_first(), arity, first.next)),
        }
    }
}

/// The arity table of a list of definitions: each name with the number of
/// its parameters. Where a name occurs twice, the later definition has it.
pub open spec fn arities(fs: Seq<SpecFunction>) -> Map<Seq<char>, i32>
    decreases fs.len(),
{
    if fs.len() == 0 {
        Map::empty()
    } else {
        arities(fs.drop_last()).insert(fs.last().name, fs.last().args.len() as i32)
    }
}

/// The main expression's context: stack index 1, no variable, no loop.
pub open spec fn main_scope(arity: Map<Seq<char>, i32>) -> Scope {
    Scope { si: 1, env: Map::empty(), loop_num: 0, arity: arity, in_func: false }
}

/// The two lists of instructions of a program: those of its definitions,
/// with labels numbered from 1, and those of its main expression, numbered
/// on from there.
pub open spec fn lower_program(p: SpecProgram) -> Result<
    (Seq<SpecInstr>, Seq<SpecInstr>),
    SpecCompileError,
> {
    let arity = arities(p.defns);
    match lower_functions(p.defns, arity, 1) {
        Err(x) => Err(x),
        Ok(fs) => match lower(p.main, main_scope(arity), fs.next) {
            Err(x) => Err(x),
            Ok(m) => Ok((fs.code, m.code)),
        },
    }
}

} // verus!
