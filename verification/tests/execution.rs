//! Runs compiled programs on a small model of the processor and of the
//! runtime, and compares what they print and return.

use snek::compiler::{compile_expr, compile_func};
use snek::parser::parse_program;
use snek::runtime::{error_message, parse_input, scalar_string, tuple_string};
use snek::syntax::{Token, Tree};
use snek::types::{Expr, ExprContext, Instr, LocPtr, Op2, Program, Reg, Val, ValCheck};
use snek::utils::check_msmx;
use std::collections::HashMap;

const STACK_TOP: u64 = 0x7fff_0000;
const HEAP_BASE: u64 = 0x1000_0000;
const DONE: u64 = u64::MAX;
const SCRAMBLED: u64 = 0xdead_beef_dead_beef;

/// How a run ended, with the lines printed on the way.
#[derive(Debug, PartialEq)]
enum End {
    Returned(String, Vec<String>),
    Failed(String, Vec<String>),
}

fn tree_of(s: &sexp::Sexp) -> Tree {
    match s {
        sexp::Sexp::Atom(sexp::Atom::S(name)) => Tree::Atom(Token::Symbol(name.clone())),
        sexp::Sexp::Atom(sexp::Atom::I(n)) => Tree::Atom(Token::Integer(*n)),
        sexp::Sexp::Atom(sexp::Atom::F(_)) => Tree::Atom(Token::Float),
        sexp::Sexp::List(items) => Tree::List(items.iter().map(tree_of).collect()),
    }
}

fn program(source: &str) -> Program {
    let text = format!("({})", source);
    let tree = tree_of(&sexp::parse(&text).unwrap());
    parse_program(tree).unwrap()
}

/// The whole program as one list of instructions: the error trampoline,
/// the functions, and the main expression under the entry label.
fn lowered(prog: &Program) -> Vec<Instr> {
    let mut lbl = 1;
    let mut func_map: im::HashMap<String, i32> = im::HashMap::new();
    for f in &prog.defns {
        func_map.insert(f.name.clone(), f.args.len() as i32);
    }
    let mut all = vec![
        Instr::Label(Val::Label(String::from("throw_error_align"))),
        Instr::Sub(Val::Reg(Reg::RSP), Val::Imm(8)),
        Instr::Mov(Val::Reg(Reg::RDI), Val::Reg(Reg::RDX)),
        Instr::Call(Val::Label(String::from("snek_error"))),
        Instr::Add(Val::Reg(Reg::RSP), Val::Imm(8)),
    ];
    for f in &prog.defns {
        all.extend(compile_func(f, &func_map, &mut lbl).unwrap());
    }
    let env: im::HashMap<String, LocPtr> = im::HashMap::new();
    let ctxt = ExprContext { si: 1, env: &env, loop_num: 0, func_map: &func_map, in_func: false };
    all.push(Instr::Label(Val::Label(String::from("our_code_starts_here"))));
    all.extend(compile_expr(&prog.main, ctxt, &mut lbl).unwrap());
    all.push(Instr::Ret);
    all
}

struct Machine {
    regs: HashMap<Reg, u64>,
    mem: HashMap<u64, u64>,
    zero: bool,
    sign: bool,
    overflow: bool,
    printed: Vec<String>,
}

impl Machine {
    fn new(input: u64) -> Machine {
        let mut regs = HashMap::new();
        for r in [Reg::RAX, Reg::RBX, Reg::RCX, Reg::RDX] {
            regs.insert(r, SCRAMBLED);
        }
        // The caller has pushed its return address: the stack pointer is 8
        // beyond a multiple of 16.
        regs.insert(Reg::RSP, STACK_TOP - 8);
        regs.insert(Reg::RDI, input);
        regs.insert(Reg::R15, HEAP_BASE);
        let mut mem = HashMap::new();
        mem.insert(STACK_TOP - 8, DONE);
        Machine { regs, mem, zero: false, sign: false, overflow: false, printed: Vec::new() }
    }

    fn reg(&self, r: Reg) -> u64 {
        self.regs[&r]
    }

    fn load(&self, addr: u64) -> u64 {
        assert_eq!(addr % 8, 0, "unaligned access");
        *self.mem.get(&addr).unwrap_or(&SCRAMBLED)
    }

    fn address(&self, r: Reg, offset: i32) -> u64 {
        self.reg(r).wrapping_add(offset as i64 as u64)
    }

    fn read(&self, v: &Val) -> u64 {
        match v {
            Val::Reg(r) => self.reg(*r),
            Val::Imm(n) => *n as u64,
            Val::MemPtr(r, offset) => self.load(self.address(*r, *offset)),
            Val::Label(name) => panic!("label {name} read as a value"),
        }
    }

    fn write(&mut self, v: &Val, x: u64) {
        match v {
            Val::Reg(r) => {
                self.regs.insert(*r, x);
            }
            Val::MemPtr(r, offset) => {
                let addr = self.address(*r, *offset);
                assert_eq!(addr % 8, 0, "unaligned access");
                self.mem.insert(addr, x);
            }
            _ => panic!("not a place"),
        }
    }

    fn result(&mut self, x: i64, overflow: bool) {
        self.zero = x == 0;
        self.sign = x < 0;
        self.overflow = overflow;
    }

    fn push(&mut self, x: u64) {
        let rsp = self.reg(Reg::RSP) - 8;
        self.regs.insert(Reg::RSP, rsp);
        self.mem.insert(rsp, x);
    }

    fn pop(&mut self) -> u64 {
        let rsp = self.reg(Reg::RSP);
        self.regs.insert(Reg::RSP, rsp + 8);
        self.load(rsp)
    }

    /// What the runtime shows for a tagged word.
    fn show(&self, val: u64) -> String {
        match scalar_string(val) {
            Some(s) => s,
            None => {
                let ptr = val - 1;
                let len = self.load(ptr);
                let items: Vec<String> =
                    (0..len).map(|i| self.show(self.load(ptr + 8 * (i + 1)))).collect();
                tuple_string(&items)
            }
        }
    }
}

fn target(v: &Val) -> &str {
    match v {
        Val::Label(name) => name,
        _ => panic!("not a label"),
    }
}

fn execute(code: &[Instr], input: u64) -> End {
    let mut labels: HashMap<&str, usize> = HashMap::new();
    for (i, instr) in code.iter().enumerate() {
        if let Instr::Label(v) = instr {
            let earlier = labels.insert(target(v), i);
            assert!(earlier.is_none(), "label {} defined twice", target(v));
        }
    }
    let mut m = Machine::new(input);
    let mut pc = labels["our_code_starts_here"];
    let mut steps = 0;
    loop {
        steps += 1;
        assert!(steps < 1_000_000, "the program does not end");
        let instr = &code[pc];
        pc += 1;
        match instr {
            Instr::Label(_) => {}
            Instr::Mov(d, s) => {
                let x = m.read(s);
                m.write(d, x);
            }
            Instr::Add(d, s) => {
                let (x, o) = (m.read(d) as i64).overflowing_add(m.read(s) as i64);
                m.write(d, x as u64);
                m.result(x, o);
            }
            Instr::Sub(d, s) => {
                let (x, o) = (m.read(d) as i64).overflowing_sub(m.read(s) as i64);
                m.write(d, x as u64);
                m.result(x, o);
            }
            Instr::IMul(d, s) => {
                let (x, o) = (m.read(d) as i64).overflowing_mul(m.read(s) as i64);
                m.write(d, x as u64);
                m.result(x, o);
            }
            Instr::Cmp(a, b) => {
                let (x, o) = (m.read(a) as i64).overflowing_sub(m.read(b) as i64);
                m.result(x, o);
            }
            Instr::Test(a, b) => {
                let x = m.read(a) & m.read(b);
                m.result(x as i64, false);
            }
            Instr::And(d, s) => {
                let x = m.read(d) & m.read(s);
                m.write(d, x);
                m.result(x as i64, false);
            }
            Instr::Xor(d, s) => {
                let x = m.read(d) ^ m.read(s);
                m.write(d, x);
                m.result(x as i64, false);
            }
            Instr::Sar(d, s) => {
                let x = (m.read(d) as i64) >> m.read(s);
                m.write(d, x as u64);
                m.result(x, false);
            }
            Instr::CMovl(d, s) => {
                if m.sign != m.overflow {
                    let x = m.read(s);
                    m.write(d, x);
                }
            }
            Instr::CMovg(d, s) => {
                if !m.zero && m.sign == m.overflow {
                    let x = m.read(s);
                    m.write(d, x);
                }
            }
            Instr::CMovle(d, s) => {
                if m.zero || m.sign != m.overflow {
                    let x = m.read(s);
                    m.write(d, x);
                }
            }
            Instr::CMovge(d, s) => {
                if m.sign == m.overflow {
                    let x = m.read(s);
                    m.write(d, x);
                }
            }
            Instr::CMove(d, s) => {
                if m.zero {
                    let x = m.read(s);
                    m.write(d, x);
                }
            }
            Instr::Jmp(v) => pc = labels[target(v)],
            Instr::Je(v) => {
                if m.zero {
                    pc = labels[target(v)];
                }
            }
            Instr::Jne(v) => {
                if !m.zero {
                    pc = labels[target(v)];
                }
            }
            Instr::Jl(v) => {
                if m.sign != m.overflow {
                    pc = labels[target(v)];
                }
            }
            Instr::Jle(v) => {
                if m.zero || m.sign != m.overflow {
                    pc = labels[target(v)];
                }
            }
            Instr::Jg(v) => {
                if !m.zero && m.sign == m.overflow {
                    pc = labels[target(v)];
                }
            }
            Instr::Jge(v) => {
                if m.sign == m.overflow {
                    pc = labels[target(v)];
                }
            }
            Instr::Jo(v) => {
                if m.overflow {
                    pc = labels[target(v)];
                }
            }
            Instr::Push(v) => {
                let x = m.read(v);
                m.push(x);
            }
            Instr::Pop(v) => {
                let x = m.pop();
                m.write(v, x);
            }
            Instr::Call(v) => {
                let name = target(v);
                if name == "snek_print" || name == "snek_error" {
                    // The C convention: the stack pointer is a multiple of
                    // 16 at the call, and the callee may overwrite the
                    // registers that the caller has to save.
                    assert_eq!(m.reg(Reg::RSP) % 16, 0, "stack not aligned at {name}");
                    let arg = m.reg(Reg::RDI);
                    if name == "snek_error" {
                        return End::Failed(error_message(arg as i64), m.printed);
                    }
                    let line = m.show(arg);
                    m.printed.push(line);
                    for r in [Reg::RAX, Reg::RCX, Reg::RDX, Reg::RDI] {
                        m.regs.insert(r, SCRAMBLED);
                    }
                } else {
                    assert_eq!(m.reg(Reg::RSP) % 16, 0, "stack not aligned at {name}");
                    m.push(pc as u64);
                    pc = labels[name];
                }
            }
            Instr::Ret => {
                let back = m.pop();
                if back == DONE {
                    let shown = m.show(m.reg(Reg::RAX));
                    return End::Returned(shown, m.printed);
                }
                pc = back as usize;
            }
        }
    }
}

/// Runs a source program as the runtime would, with the given argument.
fn run(source: &str, arg: Option<&str>) -> End {
    let input = parse_input(arg.unwrap_or("false")).expect("the argument is no value");
    execute(&lowered(&program(source)), input)
}

fn yields(source: &str, arg: Option<&str>) -> String {
    match run(source, arg) {
        End::Returned(shown, _) => shown,
        End::Failed(message, _) => panic!("the program failed: {message}"),
    }
}

fn fails(source: &str, arg: Option<&str>) -> String {
    match run(source, arg) {
        End::Returned(shown, _) => panic!("the program returned {shown}"),
        End::Failed(message, _) => message,
    }
}

/// Runs an expression that is given as a tree, as the main expression of a
/// program without definitions.
fn evaluate(main: Expr) -> End {
    execute(&lowered(&Program { defns: Vec::new(), main }), 3)
}

fn num(n: i64) -> Expr {
    Expr::Number(n)
}

#[test]
fn run_add1_of_add1() {
    assert_eq!(yields("(add1 (add1 320))", None), "322");
    assert_eq!(yields("(add1 (add1 642))", None), "644");
}

#[test]
fn run_addition_with_input() {
    assert_eq!(yields("(+ 5 input)", Some("10")), "15");
}

#[test]
fn run_if_on_equal_input() {
    assert_eq!(yields("(if (= input 635) 20 30)", Some("635")), "20");
    assert_eq!(yields("(if (= input 635) 20 30)", Some("636")), "30");
}

#[test]
fn run_let_with_earlier_binding() {
    assert_eq!(yields("(let ((x 10) (y (+ x 5))) (* x y))", None), "150");
}

#[test]
fn run_factorial_by_loop_and_break() {
    let source = "(let ((i 1) (acc 1))
                    (loop
                      (if (> i input)
                          (break acc)
                          (block (set! acc (* acc i)) (set! i (+ i 1))))))";
    assert_eq!(yields(source, Some("10")), "3628800");
    assert_eq!(yields(source, Some("0")), "1");
}

#[test]
fn run_overflowing_addition_fails() {
    let message = fails("(+ 4611686018427387899 input)", Some("4611686018427387899"));
    assert!(message.contains("overflow"));
}

#[test]
fn run_addition_of_boolean_fails() {
    let message = fails("(+ 1 true)", None);
    assert!(message.contains("invalid argument"));
}

#[test]
fn run_integer_literals_show_themselves() {
    for n in [0i64, 1, -1, 7, 3, 644, -4611686018427387904, 4611686018427387903] {
        assert_eq!(yields(&n.to_string(), None), n.to_string());
    }
}

#[test]
fn run_boolean_literals_show_themselves() {
    assert_eq!(yields("true", None), "true");
    assert_eq!(yields("false", None), "false");
}

#[test]
fn run_arithmetic_beyond_the_range_fails() {
    for source in [
        "(add1 4611686018427387903)",
        "(sub1 -4611686018427387904)",
        "(+ 4611686018427387903 1)",
        "(- -4611686018427387904 1)",
        "(* 4611686018427387903 2)",
        "(* 3037000500 3037000500)",
        "(* -4611686018427387904 -1)",
    ] {
        assert_eq!(fails(source, None), "Operation caused arithmetic overflow", "{source}");
    }
}

#[test]
fn run_arithmetic_at_the_edge_of_the_range() {
    assert_eq!(yields("(add1 4611686018427387902)", None), "4611686018427387903");
    assert_eq!(yields("(sub1 -4611686018427387903)", None), "-4611686018427387904");
    assert_eq!(yields("(* -2305843009213693952 2)", None), "-4611686018427387904");
    assert_eq!(yields("(* -7 6)", None), "-42");
    assert_eq!(yields("(- 5 8)", None), "-3");
}

#[test]
fn run_wrong_operand_kinds_fail() {
    for source in [
        "(add1 true)",
        "(sub1 false)",
        "(+ true 1)",
        "(- 1 false)",
        "(* true true)",
        "(< 1 true)",
        "(> false 1)",
        "(<= true false)",
        "(>= 1 false)",
        "(= 1 true)",
        "(= false 0)",
    ] {
        assert_eq!(fails(source, None), "Operation with invalid argument(s)", "{source}");
    }
}

/// Runs the check of two kinds on the words `a` and `b`, and then loads 0.
fn compared(a: i64, b: i64) -> End {
    let mut lbl = 1;
    let mut all = vec![
        Instr::Label(Val::Label(String::from("throw_error_align"))),
        Instr::Sub(Val::Reg(Reg::RSP), Val::Imm(8)),
        Instr::Mov(Val::Reg(Reg::RDI), Val::Reg(Reg::RDX)),
        Instr::Call(Val::Label(String::from("snek_error"))),
        Instr::Add(Val::Reg(Reg::RSP), Val::Imm(8)),
        Instr::Label(Val::Label(String::from("our_code_starts_here"))),
        Instr::Mov(Val::Reg(Reg::RAX), Val::Imm(a)),
        Instr::Mov(Val::Reg(Reg::RBX), Val::Imm(b)),
    ];
    all.extend(check_msmx(
        Val::Reg(Reg::RAX),
        Some(Val::Reg(Reg::RBX)),
        ValCheck::Equality,
        &mut lbl,
    ));
    all.push(Instr::Mov(Val::Reg(Reg::RAX), Val::Imm(0)));
    all.push(Instr::Ret);
    execute(&all, 3)
}

#[test]
fn run_kinds_are_compared_by_their_low_bit() {
    let passed = End::Returned(String::from("0"), vec![]);
    // Two integers, and two values that are none: `true`, `false`, a tuple.
    for (a, b) in [(2, 4), (0, -2), (7, 7), (7, 3), (3, 7), (7, 9), (9, 7), (9, 17), (3, 9)] {
        assert_eq!(compared(a, b), passed, "{a} {b}");
    }
    // An integer and a value that is none.
    for (a, b) in [(2, 7), (7, 2), (0, 3), (3, 0), (4, 9), (9, 4)] {
        match compared(a, b) {
            End::Failed(message, _) => assert!(message.contains("invalid argument"), "{a} {b}"),
            End::Returned(..) => panic!("{a} {b} passed"),
        }
    }
}

#[test]
fn run_equality_of_like_kinds() {
    assert_eq!(yields("(= 1 1)", None), "true");
    assert_eq!(yields("(= 1 2)", None), "false");
    assert_eq!(yields("(= true true)", None), "true");
    assert_eq!(yields("(= true false)", None), "false");
}

#[test]
fn run_comparisons() {
    assert_eq!(yields("(< 1 2)", None), "true");
    assert_eq!(yields("(< 2 2)", None), "false");
    assert_eq!(yields("(> 3 2)", None), "true");
    assert_eq!(yields("(> -3 2)", None), "false");
    assert_eq!(yields("(<= 2 2)", None), "true");
    assert_eq!(yields("(<= 3 2)", None), "false");
    assert_eq!(yields("(>= 2 2)", None), "true");
    assert_eq!(yields("(>= -4611686018427387904 4611686018427387903)", None), "false");
    assert_eq!(yields("(< -4611686018427387904 4611686018427387903)", None), "true");
}

#[test]
fn run_type_tests() {
    assert_eq!(yields("(isnum 5)", None), "true");
    assert_eq!(yields("(isnum true)", None), "false");
    assert_eq!(yields("(isbool false)", None), "true");
    assert_eq!(yields("(isbool 0)", None), "false");
    assert_eq!(yields("(isnum input)", Some("547")), "true");
    assert_eq!(yields("(isnum input)", None), "false");
}

#[test]
fn run_if_takes_anything_but_false_as_true() {
    assert_eq!(yields("(if 0 1 2)", None), "1");
    assert_eq!(yields("(if true 1 2)", None), "1");
    assert_eq!(yields("(if false 1 2)", None), "2");
    assert_eq!(yields("(if (if false 1 false) 1 2)", None), "2");
}

#[test]
fn run_inner_binding_ends_with_its_let() {
    assert_eq!(yields("(let ((x 1)) (block (let ((x 2)) x) x))", None), "1");
    assert_eq!(yields("(let ((x 1)) (let ((x 2)) x))", None), "2");
    assert_eq!(yields("(let ((x 1)) (+ (let ((x 10)) x) x))", None), "11");
    assert_eq!(yields("(let ((x 1) (x2 (+ x 1))) (let ((x (+ x2 1))) (* x x2)))", None), "6");
}

#[test]
fn run_set_changes_the_innermost_binding() {
    assert_eq!(yields("(let ((x 1)) (block (set! x 5) x))", None), "5");
    assert_eq!(yields("(let ((x 1)) (block (let ((x 2)) (set! x 9)) x))", None), "1");
    assert_eq!(yields("(let ((x 1)) (set! x 7))", None), "7");
}

#[test]
fn run_input_is_the_argument() {
    assert_eq!(yields("input", None), "false");
    assert_eq!(yields("input", Some("true")), "true");
    assert_eq!(yields("input", Some("123")), "123");
    assert_eq!(yields("input", Some("-4611686018427387904")), "-4611686018427387904");
}

#[test]
fn run_break_leaves_the_innermost_loop() {
    assert_eq!(yields("(loop (break 7))", None), "7");
    assert_eq!(yields("(loop (block (break 1) (break 2)))", None), "1");
    let nested = "(let ((n 0))
                    (loop
                      (block
                        (set! n (+ n (loop (break 10))))
                        (if (>= n 30) (break n) false))))";
    assert_eq!(yields(nested, None), "30");
}

#[test]
fn run_print_shows_and_returns_its_operand() {
    assert_eq!(
        run("(add1 (print 5))", None),
        End::Returned(String::from("6"), vec![String::from("5")])
    );
    assert_eq!(
        run("(let ((x (print true)) (y (print input))) (block (print x) y))", Some("4")),
        End::Returned(
            String::from("4"),
            vec![String::from("true"), String::from("4"), String::from("true")]
        )
    );
    // Below one word more or less, the stack is aligned all the same.
    assert_eq!(
        run("(+ (print 1) (+ (print 2) (print 3)))", None),
        End::Returned(
            String::from("6"),
            vec![String::from("3"), String::from("2"), String::from("1")]
        )
    );
}

#[test]
fn run_calls_pass_arguments_in_order() {
    assert_eq!(yields("(fun (sub a b) (- a b)) (sub 10 3)", None), "7");
    assert_eq!(yields("(fun (pick a b c) b) (pick 1 2 3)", None), "2");
    assert_eq!(yields("(fun (third a b c) c) (third 1 2 3)", None), "3");
    assert_eq!(yields("(fun (first a b c) a) (first 1 2 3)", None), "1");
    assert_eq!(yields("(fun (five) 5) (+ (five) (five))", None), "10");
    assert_eq!(yields("(fun (twice x) (* x 2)) (let ((y 4) (z 1)) (twice (+ y z)))", None), "10");
}

#[test]
fn run_arguments_are_evaluated_in_order() {
    assert_eq!(
        run("(fun (pair a b) a) (pair (print 1) (print 2))", None),
        End::Returned(String::from("1"), vec![String::from("1"), String::from("2")])
    );
    assert_eq!(
        yields("(fun (sub a b) (- a b)) (let ((x 1)) (sub (set! x 10) (+ x 1)))", None),
        "-1"
    );
}

#[test]
fn run_recursive_functions() {
    let fact = "(fun (fact n) (if (<= n 1) 1 (* n (fact (sub1 n))))) (fact input)";
    assert_eq!(yields(fact, Some("10")), "3628800");
    assert_eq!(yields(fact, Some("20")), "2432902008176640000");
    assert!(fails(fact, Some("21")).contains("overflow"));
}

#[test]
fn run_functions_may_call_later_ones() {
    let source = "(fun (even n) (if (= n 0) true (odd (sub1 n))))
                  (fun (odd n) (if (= n 0) false (even (sub1 n))))
                  (even input)";
    assert_eq!(yields(source, Some("10")), "true");
    assert_eq!(yields(source, Some("7")), "false");
}

#[test]
fn run_functions_with_locals_loops_and_print() {
    let source = "(fun (sum n)
                    (let ((i 0) (acc 0))
                      (loop
                        (if (> i n)
                            (break acc)
                            (block (print i) (set! acc (+ acc i)) (set! i (add1 i)))))))
                  (sum 3)";
    assert_eq!(
        run(source, None),
        End::Returned(
            String::from("6"),
            vec![String::from("0"), String::from("1"), String::from("2"), String::from("3")]
        )
    );
}

#[test]
fn run_tuples_are_built_read_and_written() {
    let pair = || Expr::Tuple(vec![num(10), Expr::Boolean(true), Expr::Tuple(vec![])]);
    assert_eq!(evaluate(pair()), End::Returned(String::from("[10, true, []]"), vec![]));
    assert_eq!(
        evaluate(Expr::TGet(Box::new(pair()), Box::new(num(0)))),
        End::Returned(String::from("10"), vec![])
    );
    assert_eq!(
        evaluate(Expr::TGet(Box::new(pair()), Box::new(num(1)))),
        End::Returned(String::from("true"), vec![])
    );
    assert_eq!(
        evaluate(Expr::TSet(Box::new(pair()), Box::new(num(1)), Box::new(num(5)))),
        End::Returned(String::from("[10, 5, []]"), vec![])
    );
    // Elements are evaluated in order, and two tuples do not overlap.
    let two = Expr::Tuple(vec![
        Expr::Tuple(vec![num(1), num(2)]),
        Expr::BinOp(Op2::Plus, Box::new(num(1)), Box::new(num(2))),
        Expr::Tuple(vec![num(4)]),
    ]);
    assert_eq!(evaluate(two), End::Returned(String::from("[[1, 2], 3, [4]]"), vec![]));
}

#[test]
fn run_tuple_kept_in_a_variable() {
    let e = Expr::Let(
        vec![(String::from("t"), Expr::Tuple(vec![num(1), num(2), num(3)]))],
        Box::new(Expr::Block(vec![
            Expr::TSet(
                Box::new(Expr::Id(String::from("t"))),
                Box::new(num(2)),
                Box::new(Expr::BinOp(
                    Op2::Times,
                    Box::new(Expr::TGet(Box::new(Expr::Id(String::from("t"))), Box::new(num(0)))),
                    Box::new(num(7)),
                )),
            ),
            Expr::Id(String::from("t")),
        ])),
    );
    assert_eq!(evaluate(e), End::Returned(String::from("[1, 2, 7]"), vec![]));
}
