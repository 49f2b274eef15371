//! The data the compiler works on: assembly operands and instructions,
//! operators, the expression tree and the program, each with the
//! mathematical model that the contracts speak of.

use crate::env::{arity_entries, env_entries};
use vstd::prelude::*;

verus! {

/// Machine registers the generated code uses.
#[derive(Debug, Clone, Copy, PartialEq, Eq, Hash, Structural)]
pub enum Reg {
    /// Accumulator: every expression leaves its value here.
    RAX,
    /// Scratch register.
    RBX,
    /// Second scratch register.
    RCX,
    /// Holds the error code on the way to the error trampoline.
    RDX,
    /// Stack pointer.
    RSP,
    /// First integer argument: the program's input.
    RDI,
    /// Heap cursor.
    R15,
}

/// An assembly operand: a register, an immediate, a memory word addressed
/// from a register, or a label.
#[derive(Debug, PartialEq, Eq)]
pub enum Val {
    Reg(Reg),
    Imm(i64),
    MemPtr(Reg, i32),
    Label(String),
}

/// The model of an operand: integers are unbounded and a label is its
/// sequence of characters.
pub enum SpecVal {
    Reg(Reg),
    Imm(int),
    MemPtr(Reg, int),
    Label(Seq<char>),
}

impl View for Val {
    type V = SpecVal;

    open spec fn view(&self) -> SpecVal {
        match self {
            Val::Reg(r) => SpecVal::Reg(*r),
            Val::Imm(n) => SpecVal::Imm(*n as int),
            Val::MemPtr(r, off) => SpecVal::MemPtr(*r, *off as int),
            Val::Label(s) => SpecVal::Label(s@),
        }
    }
}

impl Clone for Val {
    fn clone(&self) -> (r: Self)
        ensures
            r == *self,
    {
        match self {
            Val::Reg(r) => Val::Reg(*r),
            Val::Imm(n) => Val::Imm(*n),
            Val::MemPtr(r, off) => Val::MemPtr(*r, *off),
            Val::Label(s) => Val::Label(s.clone()),
        }
    }
}

/// One line of abstract assembly.
#[derive(Debug, PartialEq, Eq)]
pub enum Instr {
    Label(Val),
    Mov(Val, Val),
    Add(Val, Val),
    Sub(Val, Val),
    IMul(Val, Val),
    CMovl(Val, Val),
    CMovg(Val, Val),
    CMovle(Val, Val),
    CMovge(Val, Val),
    CMove(Val, Val),
    Cmp(Val, Val),
    Test(Val, Val),
    And(Val, Val),
    Xor(Val, Val),
    Sar(Val, Val),
    Jmp(Val),
    Je(Val),
    Jne(Val),
    Jl(Val),
    Jle(Val),
    Jg(Val),
    Jge(Val),
    Jo(Val),
    Push(Val),
    Pop(Val),
    Call(Val),
    Ret,
}

/// The model of an instruction: the same shape over operand models.
pub enum SpecInstr {
    Label(SpecVal),
    Mov(SpecVal, SpecVal),
    Add(SpecVal, SpecVal),
    Sub(SpecVal, SpecVal),
    IMul(SpecVal, SpecVal),
    CMovl(SpecVal, SpecVal),
    CMovg(SpecVal, SpecVal),
    CMovle(SpecVal, SpecVal),
    CMovge(SpecVal, SpecVal),
    CMove(SpecVal, SpecVal),
    Cmp(SpecVal, SpecVal),
    Test(SpecVal, SpecVal),
    And(SpecVal, SpecVal),
    Xor(SpecVal, SpecVal),
    Sar(SpecVal, SpecVal),
    Jmp(SpecVal),
    Je(SpecVal),
    Jne(SpecVal),
    Jl(SpecVal),
    Jle(SpecVal),
    Jg(SpecVal),
    Jge(SpecVal),
    Jo(SpecVal),
    Push(SpecVal),
    Pop(SpecVal),
    Call(SpecVal),
    Ret,
}

impl View for Instr {
    type V = SpecInstr;

    open spec fn view(&self) -> SpecInstr {
        match self {
            Instr::Label(v) => SpecInstr::Label(v@),
            Instr::Mov(a, b) => SpecInstr::Mov(a@, b@),
            Instr::Add(a, b) => SpecInstr::Add(a@, b@),
            Instr::Sub(a, b) => SpecInstr::Sub(a@, b@),
            Instr::IMul(a, b) => SpecInstr::IMul(a@, b@),
            Instr::CMovl(a, b) => SpecInstr::CMovl(a@, b@),
            Instr::CMovg(a, b) => SpecInstr::CMovg(a@, b@),
            Instr::CMovle(a, b) => SpecInstr::CMovle(a@, b@),
            Instr::CMovge(a, b) => SpecInstr::CMovge(a@, b@),
            Instr::CMove(a, b) => SpecInstr::CMove(a@, b@),
            Instr::Cmp(a, b) => SpecInstr::Cmp(a@, b@),
            Instr::Test(a, b) => SpecInstr::Test(a@, b@),
            Instr::And(a, b) => SpecInstr::And(a@, b@),
            Instr::Xor(a, b) => SpecInstr::Xor(a@, b@),
            Instr::Sar(a, b) => SpecInstr::Sar(a@, b@),
            Instr::Jmp(v) => SpecInstr::Jmp(v@),
            Instr::Je(v) => SpecInstr::Je(v@),
            Instr::Jne(v) => SpecInstr::Jne(v@),
            Instr::Jl(v) => SpecInstr::Jl(v@),
            Instr::Jle(v) => SpecInstr::Jle(v@),
            Instr::Jg(v) => SpecInstr::Jg(v@),
            Instr::Jge(v) => SpecInstr::Jge(v@),
            Instr::Jo(v) => SpecInstr::Jo(v@),
            Instr::Push(v) => SpecInstr::Push(v@),
            Instr::Pop(v) => SpecInstr::Pop(v@),
            Instr::Call(v) => SpecInstr::Call(v@),
            Instr::Ret => SpecInstr::Ret,
        }
    }
}

/// The model of a list of instructions.
pub open spec fn code_of(instrs: Seq<Instr>) -> Seq<SpecInstr> {
    Seq::new(instrs.len(), |i: int| instrs[i]@)
}

/// The kinds of unary operator.
#[derive(Debug, Clone, Copy, PartialEq, Eq, Structural)]
pub enum Op1Type {
    Arithmetic,
    TypeCheck,
    Application,
}

/// Unary operators.
#[derive(Debug, Clone, Copy, PartialEq, Eq, Structural)]
pub enum Op1 {
    Add1,
    Sub1,
    IsNum,
    IsBool,
    Print,
}

/// The kinds of binary operator.
#[derive(Debug, Clone, Copy, PartialEq, Eq, Structural)]
pub enum Op2Type {
    Arithmetic,
    Equality,
    Relational,
}

/// Binary operators.
#[derive(Debug, Clone, Copy, PartialEq, Eq, Structural)]
pub enum Op2 {
    Plus,
    Minus,
    Times,
    Lt,
    Gt,
    Lte,
    Gte,
    Equal,
}

/// The abstract expression tree.
#[derive(Debug, PartialEq, Eq)]
pub enum Expr {
    Number(i64),
    Boolean(bool),
    Tuple(Vec<Expr>),
    Id(String),
    Let(Vec<(String, Expr)>, Box<Expr>),
    UnOp(Op1, Box<Expr>),
    BinOp(Op2, Box<Expr>, Box<Expr>),
    If(Box<Expr>, Box<Expr>, Box<Expr>),
    Loop(Box<Expr>),
    Break(Box<Expr>),
    Assign(String, Box<Expr>),
    TSet(Box<Expr>, Box<Expr>, Box<Expr>),
    TGet(Box<Expr>, Box<Expr>),
    Block(Vec<Expr>),
    Call(String, Vec<Expr>),
}

/// The model of an expression: names are sequences of characters, lists are
/// sequences, literals are unbounded integers.
pub enum SpecExpr {
    Number(int),
    Boolean(bool),
    Tuple(Seq<SpecExpr>),
    Id(Seq<char>),
    Let(Seq<(Seq<char>, SpecExpr)>, Box<SpecExpr>),
    UnOp(Op1, Box<SpecExpr>),
    BinOp(Op2, Box<SpecExpr>, Box<SpecExpr>),
    If(Box<SpecExpr>, Box<SpecExpr>, Box<SpecExpr>),
    Loop(Box<SpecExpr>),
    Break(Box<SpecExpr>),
    Assign(Seq<char>, Box<SpecExpr>),
    TSet(Box<SpecExpr>, Box<SpecExpr>, Box<SpecExpr>),
    TGet(Box<SpecExpr>, Box<SpecExpr>),
    Block(Seq<SpecExpr>),
    Call(Seq<char>, Seq<SpecExpr>),
}

/// The models of a list of expressions, in order.
pub open spec fn exprs_of(es: Vec<Expr>) -> Seq<SpecExpr>
    decreases es,
{
    Seq::new(es.len() as nat, |i: int| if 0 <= i < es.len() { es[i].tree() } else { arbitrary() })
}

/// The models of a list of bindings, in order.
pub open spec fn bindings_of(binds: Vec<(String, Expr)>) -> Seq<(Seq<char>, SpecExpr)>
    decreases binds,
{
    Seq::new(
        binds.len() as nat,
        |i: int|
            if 0 <= i < binds.len() {
                (binds[i].0@, binds[i].1.tree())
            } else {
                arbitrary()
            },
    )
}

impl Expr {
    /// The model of this expression.
    pub open spec fn tree(&self) -> SpecExpr
        decreases self,
    {
        match self {
            Expr::Number(n) => SpecExpr::Number(*n as int),
            Expr::Boolean(b) => SpecExpr::Boolean(*b),
            Expr::Tuple(es) => SpecExpr::Tuple(exprs_of(*es)),
            Expr::Id(s) => SpecExpr::Id(s@),
            Expr::Let(binds, body) => SpecExpr::Let(bindings_of(*binds), Box::new(body.tree())),
            Expr::UnOp(op, e) => SpecExpr::UnOp(*op, Box::new(e.tree())),
            Expr::BinOp(op, a, b) => SpecExpr::BinOp(*op, Box::new(a.tree()), Box::new(b.tree())),
            Expr::If(c, t, f) => SpecExpr::If(
                Box::new(c.tree()),
                Box::new(t.tree()),
                Box::new(f.tree()),
            ),
            Expr::Loop(e) => SpecExpr::Loop(Box::new(e.tree())),
            Expr::Break(e) => SpecExpr::Break(Box::new(e.tree())),
            Expr::Assign(s, e) => SpecExpr::Assign(s@, Box::new(e.tree())),
            Expr::TSet(t, i, v) => SpecExpr::TSet(
                Box::new(t.tree()),
                Box::new(i.tree()),
                Box::new(v.tree()),
            ),
            Expr::TGet(t, i) => SpecExpr::TGet(Box::new(t.tree()), Box::new(i.tree())),
            Expr::Block(es) => SpecExpr::Block(exprs_of(*es)),
            Expr::Call(f, args) => SpecExpr::Call(f@, exprs_of(*args)),
        }
    }
}

impl View for Expr {
    type V = SpecExpr;

    open spec fn view(&self) -> SpecExpr {
        self.tree()
    }
}

/// The characters of each name of a list, in order.
pub open spec fn names_of(names: Seq<String>) -> Seq<Seq<char>> {
    Seq::new(names.len(), |i: int| names[i]@)
}

/// A function definition.
#[derive(Debug, PartialEq, Eq)]
pub struct Function {
    pub name: String,
    pub args: Vec<String>,
    pub body: Expr,
}

/// The model of a function definition.
pub struct SpecFunction {
    pub name: Seq<char>,
    pub args: Seq<Seq<char>>,
    pub body: SpecExpr,
}

impl View for Function {
    type V = SpecFunction;

    open spec fn view(&self) -> SpecFunction {
        SpecFunction { name: self.name@, args: names_of(self.args@), body: self.body@ }
    }
}

/// The models of a list of definitions, in order.
pub open spec fn functions_of(defns: Seq<Function>) -> Seq<SpecFunction> {
    Seq::new(defns.len(), |i: int| defns[i]@)
}

/// A program: its definitions, then the main expression.
#[derive(Debug, PartialEq, Eq)]
pub struct Program {
    pub defns: Vec<Function>,
    pub main: Expr,
}

/// The model of a program.
pub struct SpecProgram {
    pub defns: Seq<SpecFunction>,
    pub main: SpecExpr,
}

impl View for Program {
    type V = SpecProgram;

    open spec fn view(&self) -> SpecProgram {
        SpecProgram { defns: functions_of(self.defns@), main: self.main@ }
    }
}

/// Where a variable lives: in a register, or in the stack word at an offset
/// from the stack pointer.
#[derive(Debug, Clone, Copy, PartialEq, Eq, Hash, Structural)]
pub enum LocPtr {
    LReg(Reg),
    LStack(i32),
}

/// What an inline tag check tests for.
#[derive(Debug, Clone, Copy, PartialEq, Eq, Structural)]
pub enum ValCheck {
    Integer,
    Boolean,
    Tuple,
    Equality,
}

/// What the compiler knows at a point of the program.
#[derive(Clone, Copy)]
pub struct ExprContext<'a> {
    /// The next free stack index, in words below the stack pointer.
    pub si: i32,
    /// Where each variable in scope lives.
    pub env: &'a im::HashMap<String, LocPtr>,
    /// The number of the innermost enclosing loop; not positive outside
    /// every loop.
    pub loop_num: i32,
    /// The number of parameters of each function.
    pub func_map: &'a im::HashMap<String, i32>,
    /// Whether the point lies inside a function body.
    pub in_func: bool,
}

/// The model of a context.
pub struct Scope {
    pub si: int,
    pub env: Map<Seq<char>, LocPtr>,
    pub loop_num: int,
    pub arity: Map<Seq<char>, i32>,
    pub in_func: bool,
}

impl<'a> View for ExprContext<'a> {
    type V = Scope;

    open spec fn view(&self) -> Scope {
        Scope {
            si: self.si as int,
            env: env_entries(*self.env),
            loop_num: self.loop_num as int,
            arity: arity_entries(*self.func_map),
            in_func: self.in_func,
        }
    }
}

} // verus!
