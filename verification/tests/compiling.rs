//! The instructions that each form of the language is lowered to, and the
//! errors of the compiler.

use snek::compiler::{compile, compile_expr, compile_func};
use snek::error::CompileError;
use snek::lowering::{MAX_LABEL, MAX_SI};
use snek::types::{Expr, ExprContext, Function, Instr, LocPtr, Op1, Op2, Program, Reg, Val};

type Env = im::HashMap<String, LocPtr>;
type Arities = im::HashMap<String, i32>;

fn rax() -> Val {
    Val::Reg(Reg::RAX)
}

fn rbx() -> Val {
    Val::Reg(Reg::RBX)
}

fn rdx() -> Val {
    Val::Reg(Reg::RDX)
}

fn rsp() -> Val {
    Val::Reg(Reg::RSP)
}

fn word(offset: i32) -> Val {
    Val::MemPtr(Reg::RSP, offset)
}

fn label(name: &str) -> Val {
    Val::Label(String::from(name))
}

fn load(n: i64) -> Instr {
    Instr::Mov(rax(), Val::Imm(n))
}

fn integer(v: Val) -> Vec<Instr> {
    vec![
        Instr::Test(v, Val::Imm(1)),
        Instr::Mov(rdx(), Val::Imm(7)),
        Instr::Jne(label("throw_error_align")),
    ]
}

fn no_overflow() -> Vec<Instr> {
    vec![Instr::Mov(rdx(), Val::Imm(8)), Instr::Jo(label("throw_error_align"))]
}

fn joined(parts: Vec<Vec<Instr>>) -> Vec<Instr> {
    parts.into_iter().flatten().collect()
}

fn num(n: i64) -> Expr {
    Expr::Number(n)
}

fn id(name: &str) -> Expr {
    Expr::Id(String::from(name))
}

fn boxed(e: Expr) -> Box<Expr> {
    Box::new(e)
}

/// Compiles at stack index `si` with labels from `lbl`, outside functions
/// and loops, without variables or functions. Returns the label counter
/// too.
fn at(e: &Expr, si: i32, lbl: i32) -> (Result<Vec<Instr>, CompileError>, i32) {
    let env = Env::new();
    let func_map = Arities::new();
    let ctxt = ExprContext { si, env: &env, loop_num: 0, func_map: &func_map, in_func: false };
    let mut lbl = lbl;
    let r = compile_expr(e, ctxt, &mut lbl);
    (r, lbl)
}

fn plain(e: &Expr) -> Result<Vec<Instr>, CompileError> {
    at(e, 1, 1).0
}

#[test]
fn lower_literals() {
    assert_eq!(plain(&num(5)), Ok(vec![load(10)]));
    assert_eq!(plain(&num(0)), Ok(vec![load(0)]));
    assert_eq!(plain(&num(-3)), Ok(vec![load(-6)]));
    assert_eq!(plain(&num(4611686018427387903)), Ok(vec![load(9223372036854775806)]));
    assert_eq!(plain(&num(-4611686018427387904)), Ok(vec![load(i64::MIN)]));
    assert_eq!(plain(&Expr::Boolean(true)), Ok(vec![load(7)]));
    assert_eq!(plain(&Expr::Boolean(false)), Ok(vec![load(3)]));
}

#[test]
fn lower_literals_out_of_range() {
    for n in [4611686018427387904, -4611686018427387905, i64::MAX, i64::MIN] {
        assert_eq!(plain(&num(n)), Err(CompileError::NumberOutOfRange));
    }
    let nested = Expr::BinOp(Op2::Plus, boxed(num(1)), boxed(num(i64::MAX)));
    assert_eq!(plain(&nested), Err(CompileError::NumberOutOfRange));
}

#[test]
fn lower_variables_are_read_from_their_location() {
    let mut env = Env::new();
    env.insert(String::from("x"), LocPtr::LStack(-16));
    env.insert(String::from("p"), LocPtr::LStack(8));
    env.insert(String::from("r"), LocPtr::LReg(Reg::RCX));
    let func_map = Arities::new();
    let ctxt = ExprContext { si: 3, env: &env, loop_num: 0, func_map: &func_map, in_func: true };
    let mut lbl = 1;
    assert_eq!(compile_expr(&id("x"), ctxt, &mut lbl), Ok(vec![Instr::Mov(rax(), word(-16))]));
    assert_eq!(compile_expr(&id("p"), ctxt, &mut lbl), Ok(vec![Instr::Mov(rax(), word(8))]));
    assert_eq!(
        compile_expr(&id("r"), ctxt, &mut lbl),
        Ok(vec![Instr::Mov(rax(), Val::Reg(Reg::RCX))])
    );
    assert_eq!(
        compile_expr(&id("y"), ctxt, &mut lbl),
        Err(CompileError::UnboundVariable(String::from("y")))
    );
    assert_eq!(lbl, 1);
}

#[test]
fn lower_input_is_read_from_rdi_outside_functions_only() {
    let mut env = Env::new();
    let func_map = Arities::new();
    let outside = ExprContext { si: 1, env: &env, loop_num: 0, func_map: &func_map, in_func: false };
    let mut lbl = 1;
    assert_eq!(
        compile_expr(&id("input"), outside, &mut lbl),
        Ok(vec![Instr::Mov(rax(), Val::Reg(Reg::RDI))])
    );
    let inside = ExprContext { in_func: true, ..outside };
    assert_eq!(compile_expr(&id("input"), inside, &mut lbl), Err(CompileError::InputInFunction));
    let deep = Expr::Block(vec![num(1), Expr::UnOp(Op1::Add1, boxed(id("input")))]);
    assert_eq!(compile_expr(&deep, inside, &mut lbl), Err(CompileError::InputInFunction));
    // A variable of that name does not stand for the input.
    env.insert(String::from("input"), LocPtr::LStack(-8));
    let bound = ExprContext { si: 2, env: &env, loop_num: 0, func_map: &func_map, in_func: true };
    assert_eq!(compile_expr(&id("input"), bound, &mut lbl), Err(CompileError::InputInFunction));
}

#[test]
fn lower_let_keeps_each_binding_in_the_next_stack_word() {
    let e = Expr::Let(
        vec![(String::from("x"), num(1)), (String::from("y"), id("x"))],
        boxed(Expr::BinOp(Op2::Lt, boxed(id("x")), boxed(id("y")))),
    );
    let (r, lbl) = at(&e, 2, 1);
    assert_eq!(
        r,
        Ok(joined(vec![
            vec![
                load(2),
                Instr::Mov(word(-16), rax()),
                Instr::Mov(rax(), word(-16)),
                Instr::Mov(word(-24), rax()),
                // The body works above both bindings.
                Instr::Mov(rax(), word(-24)),
                Instr::Mov(word(-32), rax()),
                Instr::Mov(rax(), word(-16)),
            ],
            integer(rax()),
            integer(word(-32)),
            vec![
                Instr::Cmp(rax(), word(-32)),
                load(3),
                Instr::Mov(rbx(), Val::Imm(7)),
                Instr::CMovl(rax(), rbx()),
            ],
        ]))
    );
    assert_eq!(lbl, 1);
}

#[test]
fn lower_inner_let_shadows_and_ends() {
    let inner = Expr::Let(vec![(String::from("x"), num(2))], boxed(id("x")));
    let e = Expr::Let(
        vec![(String::from("x"), num(1))],
        boxed(Expr::Block(vec![inner, id("x")])),
    );
    assert_eq!(
        plain(&e),
        Ok(vec![
            load(2),
            Instr::Mov(word(-8), rax()),
            load(4),
            Instr::Mov(word(-16), rax()),
            Instr::Mov(rax(), word(-16)),
            Instr::Mov(rax(), word(-8)),
        ])
    );
    let gone = Expr::Block(vec![Expr::Let(vec![(String::from("x"), num(2))], boxed(id("x"))), id("x")]);
    assert_eq!(plain(&gone), Err(CompileError::UnboundVariable(String::from("x"))));
    // A binding is not in scope in its own expression.
    let own = Expr::Let(vec![(String::from("x"), id("x"))], boxed(num(1)));
    assert_eq!(plain(&own), Err(CompileError::UnboundVariable(String::from("x"))));
    // A let without bindings is its body.
    assert_eq!(plain(&Expr::Let(vec![], boxed(num(1)))), Ok(vec![load(2)]));
}

#[test]
fn lower_add1_and_sub1() {
    assert_eq!(
        plain(&Expr::UnOp(Op1::Add1, boxed(num(1)))),
        Ok(joined(vec![
            vec![load(2)],
            integer(rax()),
            vec![Instr::Add(rax(), Val::Imm(2))],
            no_overflow(),
        ]))
    );
    assert_eq!(
        plain(&Expr::UnOp(Op1::Sub1, boxed(Expr::Boolean(true)))),
        Ok(joined(vec![
            vec![load(7)],
            integer(rax()),
            vec![Instr::Sub(rax(), Val::Imm(2))],
            no_overflow(),
        ]))
    );
}

#[test]
fn lower_isnum_and_isbool() {
    assert_eq!(
        plain(&Expr::UnOp(Op1::IsNum, boxed(num(1)))),
        Ok(vec![
            load(2),
            Instr::Test(rax(), Val::Imm(1)),
            Instr::Mov(rbx(), Val::Imm(7)),
            load(3),
            Instr::CMove(rax(), rbx()),
        ])
    );
    assert_eq!(
        plain(&Expr::UnOp(Op1::IsBool, boxed(num(1)))),
        Ok(vec![
            load(2),
            Instr::Test(rax(), Val::Imm(1)),
            Instr::Mov(rbx(), Val::Imm(3)),
            load(7),
            Instr::CMove(rax(), rbx()),
        ])
    );
}

fn printing(offset: i64) -> Vec<Instr> {
    vec![
        load(2),
        Instr::Sub(rsp(), Val::Imm(offset)),
        Instr::Push(Val::Reg(Reg::RDI)),
        Instr::Push(rax()),
        Instr::Mov(Val::Reg(Reg::RDI), rax()),
        Instr::Call(label("snek_print")),
        Instr::Pop(rax()),
        Instr::Pop(Val::Reg(Reg::RDI)),
        Instr::Add(rsp(), Val::Imm(offset)),
    ]
}

#[test]
fn lower_print_moves_the_stack_pointer_to_a_multiple_of_16() {
    let e = Expr::UnOp(Op1::Print, boxed(num(1)));
    assert_eq!(at(&e, 0, 1).0, Ok(printing(8)));
    assert_eq!(at(&e, 1, 1).0, Ok(printing(8)));
    assert_eq!(at(&e, 2, 1).0, Ok(printing(24)));
    assert_eq!(at(&e, 3, 1).0, Ok(printing(24)));
    assert_eq!(at(&e, 4, 1).0, Ok(printing(40)));
    assert_eq!(at(&e, MAX_SI, 1).0, Ok(printing(1073741832)));
}

#[test]
fn lower_arithmetic_operators() {
    let of = |op| Expr::BinOp(op, boxed(num(1)), boxed(num(2)));
    let around = |operation: Vec<Instr>| {
        joined(vec![
            vec![load(4), Instr::Mov(word(-8), rax()), load(2)],
            integer(rax()),
            integer(word(-8)),
            operation,
            no_overflow(),
        ])
    };
    assert_eq!(plain(&of(Op2::Plus)), Ok(around(vec![Instr::Add(rax(), word(-8))])));
    assert_eq!(plain(&of(Op2::Minus)), Ok(around(vec![Instr::Sub(rax(), word(-8))])));
    assert_eq!(
        plain(&of(Op2::Times)),
        Ok(around(vec![Instr::Sar(rax(), Val::Imm(1)), Instr::IMul(rax(), word(-8))]))
    );
}

#[test]
fn lower_comparison_operators() {
    let of = |op| Expr::BinOp(op, boxed(num(1)), boxed(num(2)));
    let around = |last: Instr| {
        joined(vec![
            vec![load(4), Instr::Mov(word(-24), rax()), load(2)],
            integer(rax()),
            integer(word(-24)),
            vec![Instr::Cmp(rax(), word(-24)), load(3), Instr::Mov(rbx(), Val::Imm(7)), last],
        ])
    };
    assert_eq!(at(&of(Op2::Lt), 3, 1).0, Ok(around(Instr::CMovl(rax(), rbx()))));
    assert_eq!(at(&of(Op2::Gt), 3, 1).0, Ok(around(Instr::CMovg(rax(), rbx()))));
    assert_eq!(at(&of(Op2::Lte), 3, 1).0, Ok(around(Instr::CMovle(rax(), rbx()))));
    assert_eq!(at(&of(Op2::Gte), 3, 1).0, Ok(around(Instr::CMovge(rax(), rbx()))));
}

#[test]
fn lower_equality_operator() {
    let e = Expr::BinOp(Op2::Equal, boxed(num(1)), boxed(Expr::Boolean(true)));
    let (r, lbl) = at(&e, 1, 5);
    assert_eq!(
        r,
        Ok(joined(vec![
            vec![
                load(7),
                Instr::Mov(word(-8), rax()),
                load(2),
                Instr::Mov(rbx(), rax()),
                Instr::Xor(rbx(), word(-8)),
            ],
            integer(rbx()),
            vec![
                Instr::Cmp(rax(), word(-8)),
                load(3),
                Instr::Mov(rbx(), Val::Imm(7)),
                Instr::CMove(rax(), rbx()),
            ],
        ]))
    );
    assert_eq!(lbl, 5);
}

#[test]
fn lower_left_operand_is_compiled_one_stack_word_higher() {
    let sum = |a, b| Expr::BinOp(Op2::Plus, boxed(a), boxed(b));
    let adding = |slot: i32| {
        joined(vec![integer(rax()), integer(word(slot)), vec![Instr::Add(rax(), word(slot))], no_overflow()])
    };
    // (+ (+ 1 2) 3): the inner sum works above the word that keeps 3.
    assert_eq!(
        plain(&sum(sum(num(1), num(2)), num(3))),
        Ok(joined(vec![
            vec![load(6), Instr::Mov(word(-8), rax())],
            vec![load(4), Instr::Mov(word(-16), rax()), load(2)],
            adding(-16),
            adding(-8),
        ]))
    );
    // (+ 1 (+ 2 3)): the inner sum is done before the word is taken.
    assert_eq!(
        plain(&sum(num(1), sum(num(2), num(3)))),
        Ok(joined(vec![
            vec![load(6), Instr::Mov(word(-8), rax()), load(4)],
            adding(-8),
            vec![Instr::Mov(word(-8), rax()), load(2)],
            adding(-8),
        ]))
    );
}

#[test]
fn lower_if_numbers_its_labels() {
    let e = Expr::If(boxed(Expr::Boolean(true)), boxed(num(1)), boxed(num(2)));
    let (r, lbl) = at(&e, 1, 5);
    assert_eq!(
        r,
        Ok(vec![
            load(7),
            Instr::Cmp(rax(), Val::Imm(3)),
            Instr::Je(label("else_5")),
            load(2),
            Instr::Jmp(label("endif_5")),
            Instr::Label(label("else_5")),
            load(4),
            Instr::Label(label("endif_5")),
        ])
    );
    assert_eq!(lbl, 6);
}

#[test]
fn lower_nested_ifs_take_numbers_in_order() {
    let leaf = |n| Expr::If(boxed(num(n)), boxed(num(n)), boxed(num(n)));
    let e = Expr::If(boxed(leaf(1)), boxed(leaf(2)), boxed(leaf(3)));
    let (r, lbl) = at(&e, 1, 1);
    let small = |n: i64, k: i32| {
        vec![
            load(2 * n),
            Instr::Cmp(rax(), Val::Imm(3)),
            Instr::Je(label(&format!("else_{k}"))),
            load(2 * n),
            Instr::Jmp(label(&format!("endif_{k}"))),
            Instr::Label(label(&format!("else_{k}"))),
            load(2 * n),
            Instr::Label(label(&format!("endif_{k}"))),
        ]
    };
    assert_eq!(
        r,
        Ok(joined(vec![
            small(1, 2),
            vec![Instr::Cmp(rax(), Val::Imm(3)), Instr::Je(label("else_1"))],
            small(2, 3),
            vec![Instr::Jmp(label("endif_1")), Instr::Label(label("else_1"))],
            small(3, 4),
            vec![Instr::Label(label("endif_1"))],
        ]))
    );
    assert_eq!(lbl, 5);
}

#[test]
fn lower_loop_and_break() {
    let e = Expr::Loop(boxed(Expr::Break(boxed(num(7)))));
    let (r, lbl) = at(&e, 1, 3);
    assert_eq!(
        r,
        Ok(vec![
            Instr::Label(label("loop_3")),
            load(14),
            Instr::Jmp(label("endloop_3")),
            Instr::Jmp(label("loop_3")),
            Instr::Label(label("endloop_3")),
        ])
    );
    assert_eq!(lbl, 4);
}

#[test]
fn lower_break_leaves_the_innermost_loop() {
    let e = Expr::Loop(boxed(Expr::Block(vec![
        Expr::Loop(boxed(Expr::Break(boxed(num(1))))),
        Expr::Break(boxed(num(2))),
    ])));
    assert_eq!(
        plain(&e),
        Ok(vec![
            Instr::Label(label("loop_1")),
            Instr::Label(label("loop_2")),
            load(2),
            Instr::Jmp(label("endloop_2")),
            Instr::Jmp(label("loop_2")),
            Instr::Label(label("endloop_2")),
            load(4),
            Instr::Jmp(label("endloop_1")),
            Instr::Jmp(label("loop_1")),
            Instr::Label(label("endloop_1")),
        ])
    );
}

#[test]
fn lower_break_needs_a_loop() {
    assert_eq!(plain(&Expr::Break(boxed(num(1)))), Err(CompileError::BreakOutsideLoop));
    // The loop is looked for before the value is compiled.
    assert_eq!(plain(&Expr::Break(boxed(id("y")))), Err(CompileError::BreakOutsideLoop));
    let behind = Expr::Block(vec![Expr::Loop(boxed(Expr::Break(boxed(num(1))))), Expr::Break(boxed(num(2)))]);
    assert_eq!(plain(&behind), Err(CompileError::BreakOutsideLoop));
    // In a context that names a loop, break jumps behind that loop.
    let env = Env::new();
    let func_map = Arities::new();
    let ctxt = ExprContext { si: 1, env: &env, loop_num: 9, func_map: &func_map, in_func: false };
    let mut lbl = 20;
    assert_eq!(
        compile_expr(&Expr::Break(boxed(num(1))), ctxt, &mut lbl),
        Ok(vec![load(2), Instr::Jmp(label("endloop_9"))])
    );
    let outside = ExprContext { loop_num: -1, ..ctxt };
    assert_eq!(
        compile_expr(&Expr::Break(boxed(num(1))), outside, &mut lbl),
        Err(CompileError::BreakOutsideLoop)
    );
}

#[test]
fn lower_assignment_stores_to_the_variable() {
    let e = Expr::Let(
        vec![(String::from("x"), num(1))],
        boxed(Expr::Assign(String::from("x"), boxed(num(5)))),
    );
    assert_eq!(
        plain(&e),
        Ok(vec![load(2), Instr::Mov(word(-8), rax()), load(10), Instr::Mov(word(-8), rax())])
    );
    assert_eq!(
        plain(&Expr::Assign(String::from("x"), boxed(num(5)))),
        Err(CompileError::UnboundVariable(String::from("x")))
    );
    // The variable is looked up before the value is compiled.
    assert_eq!(
        plain(&Expr::Assign(String::from("x"), boxed(id("y")))),
        Err(CompileError::UnboundVariable(String::from("x")))
    );
    assert_eq!(
        plain(&Expr::Assign(String::from("input"), boxed(num(5)))),
        Err(CompileError::UnboundVariable(String::from("input")))
    );
}

#[test]
fn lower_block_is_its_expressions_in_order() {
    assert_eq!(
        plain(&Expr::Block(vec![num(1), Expr::Boolean(false), num(3)])),
        Ok(vec![load(2), load(3), load(6)])
    );
    assert_eq!(plain(&Expr::Block(vec![])), Ok(vec![]));
    assert_eq!(
        plain(&Expr::Block(vec![num(1), id("a"), id("b")])),
        Err(CompileError::UnboundVariable(String::from("a")))
    );
}

fn calling(e: &Expr, si: i32) -> Result<Vec<Instr>, CompileError> {
    let env = Env::new();
    let mut func_map = Arities::new();
    func_map.insert(String::from("zero"), 0);
    func_map.insert(String::from("one"), 1);
    func_map.insert(String::from("two"), 2);
    func_map.insert(String::from("three"), 3);
    func_map.insert(String::from("less"), -1);
    let ctxt = ExprContext { si, env: &env, loop_num: 0, func_map: &func_map, in_func: false };
    let mut lbl = 1;
    compile_expr(e, ctxt, &mut lbl)
}

fn call(name: &str, args: Vec<Expr>) -> Expr {
    Expr::Call(String::from(name), args)
}

fn around_call(name: &str, last: i64) -> Vec<Instr> {
    vec![
        Instr::Sub(rsp(), Val::Imm(last * 8)),
        Instr::Call(label(name)),
        Instr::Add(rsp(), Val::Imm(last * 8)),
    ]
}

#[test]
fn lower_call_without_arguments() {
    assert_eq!(calling(&call("zero", vec![]), 1), Ok(around_call("zero", 1)));
    assert_eq!(calling(&call("zero", vec![]), 2), Ok(around_call("zero", 1)));
    assert_eq!(calling(&call("zero", vec![]), 3), Ok(around_call("zero", 3)));
    assert_eq!(calling(&call("zero", vec![]), 0), Ok(around_call("zero", -1)));
}

#[test]
fn lower_call_with_one_argument() {
    assert_eq!(
        calling(&call("one", vec![num(1)]), 1),
        Ok(joined(vec![vec![load(2), Instr::Mov(word(-8), rax())], around_call("one", 1)]))
    );
    assert_eq!(
        calling(&call("one", vec![num(1)]), 2),
        Ok(joined(vec![vec![load(2), Instr::Mov(word(-24), rax())], around_call("one", 3)]))
    );
}

#[test]
fn lower_call_keeps_the_first_argument_lowest_in_memory() {
    assert_eq!(
        calling(&call("two", vec![num(1), num(2)]), 1),
        Ok(joined(vec![
            vec![
                load(2),
                Instr::Mov(word(-24), rax()),
                load(4),
                Instr::Mov(word(-16), rax()),
            ],
            around_call("two", 3),
        ]))
    );
    assert_eq!(
        calling(&call("three", vec![num(1), num(2), num(3)]), 2),
        Ok(joined(vec![
            vec![
                load(2),
                Instr::Mov(word(-40), rax()),
                load(4),
                Instr::Mov(word(-32), rax()),
                load(6),
                Instr::Mov(word(-24), rax()),
            ],
            around_call("three", 5),
        ]))
    );
}

#[test]
fn lower_arguments_work_above_the_words_of_all_arguments() {
    let sum = Expr::BinOp(Op2::Plus, boxed(num(1)), boxed(num(2)));
    assert_eq!(
        calling(&call("two", vec![sum, num(9)]), 1),
        Ok(joined(vec![
            vec![load(4), Instr::Mov(word(-32), rax()), load(2)],
            integer(rax()),
            integer(word(-32)),
            vec![Instr::Add(rax(), word(-32))],
            no_overflow(),
            vec![Instr::Mov(word(-24), rax())],
            vec![load(18), Instr::Mov(word(-16), rax())],
            around_call("two", 3),
        ]))
    );
}

#[test]
fn lower_calls_that_are_rejected() {
    assert_eq!(
        calling(&call("none", vec![]), 1),
        Err(CompileError::UnknownFunction(String::from("none")))
    );
    assert_eq!(
        calling(&call("one", vec![]), 1),
        Err(CompileError::WrongArity(String::from("one")))
    );
    assert_eq!(
        calling(&call("one", vec![num(1), num(2)]), 1),
        Err(CompileError::WrongArity(String::from("one")))
    );
    assert_eq!(
        calling(&call("zero", vec![num(1)]), 1),
        Err(CompileError::WrongArity(String::from("zero")))
    );
    assert_eq!(
        calling(&call("less", vec![]), 1),
        Err(CompileError::WrongArity(String::from("less")))
    );
    // The call is checked before its arguments are compiled.
    assert_eq!(
        calling(&call("none", vec![id("y")]), 1),
        Err(CompileError::UnknownFunction(String::from("none")))
    );
    assert_eq!(
        calling(&call("two", vec![id("y")]), 1),
        Err(CompileError::WrongArity(String::from("two")))
    );
    // The first argument is compiled first.
    assert_eq!(
        calling(&call("two", vec![id("a"), id("b")]), 1),
        Err(CompileError::UnboundVariable(String::from("a")))
    );
    // The call is checked at any stack index; its arguments need the room.
    assert_eq!(
        calling(&call("none", vec![]), MAX_SI + 1),
        Err(CompileError::UnknownFunction(String::from("none")))
    );
    assert_eq!(
        calling(&call("one", vec![]), -1),
        Err(CompileError::WrongArity(String::from("one")))
    );
    assert_eq!(calling(&call("zero", vec![]), MAX_SI + 1), Err(CompileError::TooLarge));
    assert_eq!(calling(&call("two", vec![num(1), num(2)]), MAX_SI - 1), Err(CompileError::TooLarge));
    assert!(calling(&call("two", vec![num(1), num(2)]), MAX_SI - 2).is_ok());
    assert_eq!(
        calling(&Expr::UnOp(Op1::Add1, boxed(call("none", vec![]))), 1),
        Err(CompileError::UnknownFunction(String::from("none")))
    );
}

#[test]
fn lower_tuple_is_allocated_and_filled_in_order() {
    let e = Expr::Tuple(vec![num(1), Expr::Boolean(true)]);
    assert_eq!(
        at(&e, 2, 1).0,
        Ok(vec![
            Instr::Mov(word(-16), Val::Reg(Reg::R15)),
            Instr::Add(Val::Reg(Reg::R15), Val::Imm(24)),
            Instr::Mov(rbx(), word(-16)),
            Instr::Mov(Val::MemPtr(Reg::RBX, 0), Val::Imm(2)),
            load(2),
            Instr::Mov(rbx(), word(-16)),
            Instr::Mov(Val::MemPtr(Reg::RBX, 8), rax()),
            load(7),
            Instr::Mov(rbx(), word(-16)),
            Instr::Mov(Val::MemPtr(Reg::RBX, 16), rax()),
            Instr::Mov(rax(), word(-16)),
            Instr::Add(rax(), Val::Imm(1)),
        ])
    );
    assert_eq!(
        plain(&Expr::Tuple(vec![])),
        Ok(vec![
            Instr::Mov(word(-8), Val::Reg(Reg::R15)),
            Instr::Add(Val::Reg(Reg::R15), Val::Imm(8)),
            Instr::Mov(rbx(), word(-8)),
            Instr::Mov(Val::MemPtr(Reg::RBX, 0), Val::Imm(0)),
            Instr::Mov(rax(), word(-8)),
            Instr::Add(rax(), Val::Imm(1)),
        ])
    );
}

#[test]
fn lower_elements_work_above_the_address_of_the_tuple() {
    let e = Expr::Tuple(vec![Expr::Let(vec![(String::from("x"), num(1))], boxed(id("x")))]);
    assert_eq!(
        plain(&e),
        Ok(vec![
            Instr::Mov(word(-8), Val::Reg(Reg::R15)),
            Instr::Add(Val::Reg(Reg::R15), Val::Imm(16)),
            Instr::Mov(rbx(), word(-8)),
            Instr::Mov(Val::MemPtr(Reg::RBX, 0), Val::Imm(1)),
            load(2),
            Instr::Mov(word(-16), rax()),
            Instr::Mov(rax(), word(-16)),
            Instr::Mov(rbx(), word(-8)),
            Instr::Mov(Val::MemPtr(Reg::RBX, 8), rax()),
            Instr::Mov(rax(), word(-8)),
            Instr::Add(rax(), Val::Imm(1)),
        ])
    );
}

#[test]
fn lower_tuple_read() {
    let e = Expr::TGet(boxed(id("input")), boxed(num(2)));
    assert_eq!(
        plain(&e),
        Ok(vec![
            load(4),
            Instr::IMul(rax(), Val::Imm(4)),
            Instr::Add(rax(), Val::Imm(8)),
            Instr::Mov(word(-8), rax()),
            Instr::Mov(rax(), Val::Reg(Reg::RDI)),
            Instr::Sub(rax(), Val::Imm(1)),
            Instr::Add(rax(), word(-8)),
            Instr::Mov(rax(), Val::MemPtr(Reg::RAX, 0)),
        ])
    );
}

#[test]
fn lower_tuple_write() {
    let e = Expr::TSet(boxed(id("input")), boxed(num(2)), boxed(Expr::Boolean(false)));
    assert_eq!(
        at(&e, 3, 1).0,
        Ok(vec![
            load(4),
            Instr::IMul(rax(), Val::Imm(4)),
            Instr::Add(rax(), Val::Imm(8)),
            Instr::Mov(word(-24), rax()),
            load(3),
            Instr::Mov(word(-32), rax()),
            Instr::Mov(rax(), Val::Reg(Reg::RDI)),
            Instr::Mov(rbx(), rax()),
            Instr::Sub(rax(), Val::Imm(1)),
            Instr::Add(rax(), word(-24)),
            Instr::Mov(Val::Reg(Reg::RCX), word(-32)),
            Instr::Mov(Val::MemPtr(Reg::RAX, 0), Val::Reg(Reg::RCX)),
            Instr::Mov(rax(), rbx()),
        ])
    );
}

#[test]
fn lower_parts_of_tuple_accesses_are_compiled_index_first() {
    let read = Expr::TGet(boxed(id("a")), boxed(id("b")));
    assert_eq!(plain(&read), Err(CompileError::UnboundVariable(String::from("b"))));
    let write = Expr::TSet(boxed(id("a")), boxed(num(1)), boxed(id("c")));
    assert_eq!(plain(&write), Err(CompileError::UnboundVariable(String::from("c"))));
    // The value of a write works one word above the index, the tuple two.
    let deep = Expr::TSet(
        boxed(Expr::UnOp(Op1::Print, boxed(num(1)))),
        boxed(num(0)),
        boxed(Expr::UnOp(Op1::Print, boxed(num(1)))),
    );
    let code = plain(&deep).unwrap();
    assert_eq!(code[5], Instr::Sub(rsp(), Val::Imm(24)));
    assert_eq!(code[15], Instr::Sub(rsp(), Val::Imm(24)));
    let deep = Expr::TGet(boxed(Expr::UnOp(Op1::Print, boxed(num(1)))), boxed(num(0)));
    let code = plain(&deep).unwrap();
    assert_eq!(code[5], Instr::Sub(rsp(), Val::Imm(24)));
}

#[test]
fn lower_right_operand_is_compiled_first() {
    let e = Expr::BinOp(Op2::Plus, boxed(id("a")), boxed(id("b")));
    assert_eq!(plain(&e), Err(CompileError::UnboundVariable(String::from("b"))));
}

#[test]
fn lower_stack_index_out_of_range() {
    // A literal, `input` and the forms that only pass the index on are
    // compiled at any stack index.
    for si in [MAX_SI, MAX_SI + 1, -1, i32::MAX, i32::MIN] {
        assert_eq!(at(&num(1), si, 1).0, Ok(vec![load(2)]));
        assert_eq!(at(&Expr::Boolean(true), si, 1).0, Ok(vec![load(7)]));
        assert_eq!(at(&id("input"), si, 1).0, Ok(vec![Instr::Mov(rax(), Val::Reg(Reg::RDI))]));
        assert_eq!(at(&Expr::Break(boxed(num(1))), si, 1).0, Err(CompileError::BreakOutsideLoop));
        assert!(at(&Expr::UnOp(Op1::Add1, boxed(num(1))), si, 1).0.is_ok());
        assert!(at(&Expr::Block(vec![num(1), num(2)]), si, 1).0.is_ok());
    }
    // A form that addresses a stack word by the index is bound to its range.
    let sum = Expr::BinOp(Op2::Plus, boxed(num(1)), boxed(num(2)));
    assert!(at(&sum, MAX_SI, 1).0.is_ok());
    assert!(at(&sum, 0, 1).0.is_ok());
    assert_eq!(at(&sum, MAX_SI + 1, 1).0, Err(CompileError::TooLarge));
    assert_eq!(at(&sum, -1, 1).0, Err(CompileError::TooLarge));
    let inner = Expr::BinOp(Op2::Plus, boxed(num(1)), boxed(num(2)));
    let nested = Expr::BinOp(Op2::Plus, boxed(inner), boxed(num(2)));
    assert!(at(&nested, MAX_SI - 1, 1).0.is_ok());
    assert_eq!(at(&nested, MAX_SI, 1).0, Err(CompileError::TooLarge));
    let e = Expr::Let(vec![(String::from("x"), num(1))], boxed(num(1)));
    assert!(at(&e, MAX_SI, 1).0.is_ok());
    assert_eq!(at(&e, MAX_SI + 1, 1).0, Err(CompileError::TooLarge));
    assert_eq!(at(&e, -1, 1).0, Err(CompileError::TooLarge));
    let shown = Expr::UnOp(Op1::Print, boxed(num(1)));
    assert!(at(&shown, MAX_SI, 1).0.is_ok());
    assert_eq!(at(&shown, MAX_SI + 1, 1).0, Err(CompileError::TooLarge));
    assert_eq!(at(&Expr::Tuple(vec![]), MAX_SI + 1, 1).0, Err(CompileError::TooLarge));
    let last = Expr::BinOp(Op2::Lt, boxed(Expr::Boolean(true)), boxed(num(2)));
    assert_eq!(
        at(&last, MAX_SI - 1, 1).0.unwrap()[1],
        Instr::Mov(word(-1073741816), rax())
    );
}

#[test]
fn lower_label_counter_at_its_end() {
    let branch = Expr::If(boxed(num(1)), boxed(num(2)), boxed(num(3)));
    let (r, lbl) = at(&branch, 1, MAX_LABEL - 1);
    assert_eq!(
        r.unwrap()[2],
        Instr::Je(label("else_2147483646"))
    );
    assert_eq!(lbl, MAX_LABEL);
    assert_eq!(at(&branch, 1, MAX_LABEL), (Err(CompileError::TooLarge), MAX_LABEL));
    let forever = Expr::Loop(boxed(num(1)));
    assert_eq!(at(&forever, 1, MAX_LABEL), (Err(CompileError::TooLarge), MAX_LABEL));
    assert_eq!(at(&forever, 1, MAX_LABEL - 1).1, MAX_LABEL);
    let two = Expr::Block(vec![Expr::Loop(boxed(num(1))), Expr::Loop(boxed(num(1)))]);
    assert_eq!(at(&two, 1, MAX_LABEL - 1), (Err(CompileError::TooLarge), MAX_LABEL - 1));
    // Labels may be numbered below 1; a loop of such a number has no break.
    let (r, lbl) = at(&forever, 1, -2);
    assert_eq!(
        r,
        Ok(vec![
            Instr::Label(label("loop_-2")),
            load(2),
            Instr::Jmp(label("loop_-2")),
            Instr::Label(label("endloop_-2")),
        ])
    );
    assert_eq!(lbl, -1);
    let broken = Expr::Loop(boxed(Expr::Break(boxed(num(1)))));
    assert_eq!(at(&broken, 1, 0), (Err(CompileError::BreakOutsideLoop), 0));
}

#[test]
fn lower_a_rejected_expression_takes_no_label() {
    let e = Expr::If(
        boxed(Expr::If(boxed(num(1)), boxed(num(2)), boxed(num(3)))),
        boxed(Expr::Loop(boxed(num(1)))),
        boxed(Expr::Break(boxed(num(1)))),
    );
    assert_eq!(at(&e, 1, 10), (Err(CompileError::BreakOutsideLoop), 10));
}

fn function(name: &str, args: &[&str], body: Expr) -> Function {
    Function {
        name: String::from(name),
        args: args.iter().map(|s| String::from(*s)).collect(),
        body,
    }
}

#[test]
fn lower_function_finds_its_parameters_above_the_return_address() {
    let f = function(
        "f",
        &["a", "b", "c"],
        Expr::Block(vec![id("a"), id("b"), id("c"), Expr::Let(vec![(String::from("d"), num(1))], boxed(id("d")))]),
    );
    let mut lbl = 4;
    assert_eq!(
        compile_func(&f, &Arities::new(), &mut lbl),
        Ok(vec![
            Instr::Label(label("f")),
            Instr::Mov(rax(), word(8)),
            Instr::Mov(rax(), word(16)),
            Instr::Mov(rax(), word(24)),
            load(2),
            Instr::Mov(word(-8), rax()),
            Instr::Mov(rax(), word(-8)),
            Instr::Ret,
        ])
    );
    assert_eq!(lbl, 4);
}

#[test]
fn lower_function_body_stands_in_a_function_and_in_no_loop() {
    let mut lbl = 4;
    let none = Arities::new();
    assert_eq!(
        compile_func(&function("f", &[], id("input")), &none, &mut lbl),
        Err(CompileError::InputInFunction)
    );
    assert_eq!(
        compile_func(&function("f", &[], Expr::Break(boxed(num(1)))), &none, &mut lbl),
        Err(CompileError::BreakOutsideLoop)
    );
    assert_eq!(
        compile_func(&function("f", &["x"], id("y")), &none, &mut lbl),
        Err(CompileError::UnboundVariable(String::from("y")))
    );
    assert_eq!(
        compile_func(&function("f", &[], Expr::Call(String::from("f"), vec![])), &none, &mut lbl),
        Err(CompileError::UnknownFunction(String::from("f")))
    );
    let looping = function("f", &[], Expr::Loop(boxed(Expr::Break(boxed(num(1))))));
    assert_eq!(
        compile_func(&looping, &none, &mut lbl),
        Ok(vec![
            Instr::Label(label("f")),
            Instr::Label(label("loop_4")),
            load(2),
            Instr::Jmp(label("endloop_4")),
            Instr::Jmp(label("loop_4")),
            Instr::Label(label("endloop_4")),
            Instr::Ret,
        ])
    );
    assert_eq!(lbl, 5);
    let failing = function("f", &[], Expr::Block(vec![looping.body, id("y")]));
    assert_eq!(
        compile_func(&failing, &none, &mut lbl),
        Err(CompileError::UnboundVariable(String::from("y")))
    );
    assert_eq!(lbl, 5);
}

#[test]
fn lower_later_parameter_of_a_name_has_it() {
    let f = function("f", &["a", "b", "a"], Expr::Block(vec![id("a"), id("b")]));
    let mut lbl = 1;
    assert_eq!(
        compile_func(&f, &Arities::new(), &mut lbl),
        Ok(vec![
            Instr::Label(label("f")),
            Instr::Mov(rax(), word(24)),
            Instr::Mov(rax(), word(16)),
            Instr::Ret,
        ])
    );
}

#[test]
fn lower_program_is_two_texts() {
    let prog = Program {
        defns: vec![
            function(
                "twice",
                &["x"],
                Expr::If(boxed(id("x")), boxed(Expr::Call(String::from("zero"), vec![])), boxed(id("x"))),
            ),
            function("zero", &[], num(0)),
        ],
        main: Expr::Loop(boxed(Expr::Break(boxed(Expr::Call(String::from("twice"), vec![id("input")]))))),
    };
    let functions = "  twice:
  mov rax, qword [rsp + 8]
  cmp rax, 3
  je else_1
  sub rsp, 8
  call zero
  add rsp, 8
  jmp endif_1
  else_1:
  mov rax, qword [rsp + 8]
  endif_1:
  ret 
  zero:
  mov rax, 0
  ret ";
    let main = "  loop_2:
  mov rax, rdi
  mov qword [rsp - 8], rax
  sub rsp, 8
  call twice
  add rsp, 8
  jmp endloop_2
  jmp loop_2
  endloop_2:";
    assert_eq!(compile(&prog), Ok((String::from(functions), String::from(main))));
}

#[test]
fn lower_program_without_definitions() {
    let prog = Program { defns: vec![], main: num(1) };
    assert_eq!(compile(&prog), Ok((String::new(), String::from("  mov rax, 2"))));
}

#[test]
fn lower_program_that_is_rejected() {
    let with = |defns: Vec<Function>, main: Expr| compile(&Program { defns, main });
    assert_eq!(with(vec![], id("x")), Err(CompileError::UnboundVariable(String::from("x"))));
    assert_eq!(
        with(vec![function("f", &[], id("input"))], num(1)),
        Err(CompileError::InputInFunction)
    );
    assert_eq!(
        with(vec![function("f", &["x"], num(1))], Expr::Call(String::from("f"), vec![])),
        Err(CompileError::WrongArity(String::from("f")))
    );
    assert_eq!(
        with(vec![function("f", &["x"], num(1))], Expr::Call(String::from("g"), vec![num(1)])),
        Err(CompileError::UnknownFunction(String::from("g")))
    );
    // The definitions are compiled in order, before the main expression.
    assert_eq!(
        with(
            vec![function("f", &[], id("a")), function("g", &[], id("b"))],
            id("c")
        ),
        Err(CompileError::UnboundVariable(String::from("a")))
    );
    assert_eq!(
        with(vec![function("f", &[], num(1)), function("g", &[], id("b"))], id("c")),
        Err(CompileError::UnboundVariable(String::from("b")))
    );
    assert_eq!(with(vec![], num(i64::MAX)), Err(CompileError::NumberOutOfRange));
}

#[test]
fn lower_later_definition_of_a_name_gives_its_arity() {
    let prog = Program {
        defns: vec![function("f", &["x"], num(1)), function("f", &[], num(2))],
        main: Expr::Call(String::from("f"), vec![]),
    };
    assert!(compile(&prog).is_ok());
    let prog = Program {
        defns: vec![function("f", &["x"], num(1)), function("f", &[], num(2))],
        main: Expr::Call(String::from("f"), vec![num(1)]),
    };
    assert_eq!(compile(&prog), Err(CompileError::WrongArity(String::from("f"))));
}

#[test]
fn lower_messages_of_compile_errors() {
    assert_eq!(
        CompileError::InputInFunction.message(),
        "'input' cannot be used within function"
    );
    assert_eq!(
        CompileError::UnboundVariable(String::from("y")).message(),
        "Unbound variable identifier y"
    );
    assert_eq!(CompileError::BreakOutsideLoop.message(), "Invalid break outside of loop");
    assert_eq!(
        CompileError::WrongArity(String::from("f")).message(),
        "Incorrect number of function parameters for 'f'"
    );
    assert_eq!(CompileError::UnknownFunction(String::from("g")).message(), "Unknown function 'g'");
    assert_eq!(
        CompileError::NumberOutOfRange.message(),
        "Invalid integer literal - out of range"
    );
    assert_eq!(CompileError::TooLarge.message(), "Program too large to compile");
}
