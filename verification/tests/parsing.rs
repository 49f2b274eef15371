//! The grammar: which trees are expressions, definitions and programs, and
//! which error each other tree gets.

use snek::error::ParseError;
use snek::parser::{parse_defn, parse_defn_name, parse_expr, parse_program};
use snek::syntax::{Token, Tree};
use snek::types::{Expr, Function, Op1, Op2, Program};

fn sym(name: &str) -> Tree {
    Tree::Atom(Token::Symbol(String::from(name)))
}

fn number(n: i64) -> Tree {
    Tree::Atom(Token::Integer(n))
}

fn list(items: Vec<Tree>) -> Tree {
    Tree::List(items)
}

fn form(head: &str, rest: Vec<Tree>) -> Tree {
    let mut items = vec![sym(head)];
    items.extend(rest);
    Tree::List(items)
}

fn names(list: &[&str]) -> Vec<String> {
    list.iter().map(|s| String::from(*s)).collect()
}

fn expr(s: Tree) -> Result<Expr, ParseError> {
    parse_expr(&s, &Vec::new())
}

fn id(name: &str) -> Expr {
    Expr::Id(String::from(name))
}

fn boxed(e: Expr) -> Box<Expr> {
    Box::new(e)
}

#[test]
fn parse_integer_literals_in_range() {
    assert_eq!(expr(number(0)), Ok(Expr::Number(0)));
    assert_eq!(expr(number(-17)), Ok(Expr::Number(-17)));
    assert_eq!(expr(number(4611686018427387903)), Ok(Expr::Number(4611686018427387903)));
    assert_eq!(expr(number(-4611686018427387904)), Ok(Expr::Number(-4611686018427387904)));
}

#[test]
fn parse_integer_literals_out_of_range() {
    assert_eq!(expr(number(4611686018427387904)), Err(ParseError::Invalid));
    assert_eq!(expr(number(-4611686018427387905)), Err(ParseError::Invalid));
    assert_eq!(expr(number(i64::MAX)), Err(ParseError::Invalid));
    assert_eq!(expr(number(i64::MIN)), Err(ParseError::Invalid));
}

#[test]
fn parse_floating_point_numbers_are_no_expressions() {
    assert_eq!(expr(Tree::Atom(Token::Float)), Err(ParseError::Invalid));
    assert_eq!(expr(form("add1", vec![Tree::Atom(Token::Float)])), Err(ParseError::Invalid));
}

#[test]
fn parse_booleans_and_variables() {
    assert_eq!(expr(sym("true")), Ok(Expr::Boolean(true)));
    assert_eq!(expr(sym("false")), Ok(Expr::Boolean(false)));
    assert_eq!(expr(sym("x")), Ok(id("x")));
    assert_eq!(expr(sym("aB9")), Ok(id("aB9")));
    assert_eq!(expr(sym("input")), Ok(id("input")));
}

#[test]
fn parse_symbols_that_are_no_variables() {
    for name in ["1x", "x_y", "", "x-1", "é", "!", "=="] {
        assert_eq!(expr(sym(name)), Err(ParseError::IdentifierNaming), "{name}");
    }
    // A reserved word is reported as one, whatever its shape.
    for name in ["let", "if", "block", "loop", "break", "add1", "sub1", "isnum", "isbool",
        "print", "fun", "+", "-", "*", "<", ">", "<=", ">=", "=", "set!"]
    {
        assert_eq!(expr(sym(name)), Err(ParseError::IdentifierKeyword), "{name}");
    }
}

#[test]
fn parse_lists_without_a_symbol_at_the_head() {
    assert_eq!(expr(list(vec![])), Err(ParseError::Invalid));
    assert_eq!(expr(list(vec![number(1), number(2)])), Err(ParseError::Invalid));
    assert_eq!(expr(list(vec![list(vec![sym("add1")]), number(2)])), Err(ParseError::Invalid));
    assert_eq!(expr(list(vec![Tree::Atom(Token::Float)])), Err(ParseError::Invalid));
}

#[test]
fn parse_loop_and_break() {
    assert_eq!(expr(form("loop", vec![number(1)])), Ok(Expr::Loop(boxed(Expr::Number(1)))));
    assert_eq!(expr(form("break", vec![sym("x")])), Ok(Expr::Break(boxed(id("x")))));
    assert_eq!(expr(form("loop", vec![])), Err(ParseError::Invalid));
    assert_eq!(expr(form("break", vec![])), Err(ParseError::Invalid));
    assert_eq!(expr(form("loop", vec![number(1), number(2)])), Err(ParseError::Invalid));
    assert_eq!(expr(form("break", vec![number(1), number(2)])), Err(ParseError::Invalid));
    assert_eq!(expr(form("loop", vec![number(1), number(2), number(3)])), Err(ParseError::Invalid));
}

#[test]
fn parse_blocks() {
    assert_eq!(
        expr(form("block", vec![number(1), sym("true"), sym("x")])),
        Ok(Expr::Block(vec![Expr::Number(1), Expr::Boolean(true), id("x")]))
    );
    assert_eq!(expr(form("block", vec![number(1)])), Ok(Expr::Block(vec![Expr::Number(1)])));
    assert_eq!(expr(form("block", vec![])), Err(ParseError::Invalid));
    assert_eq!(
        expr(form("block", vec![number(1), sym("let"), sym("1x")])),
        Err(ParseError::IdentifierKeyword)
    );
}

#[test]
fn parse_unary_operators() {
    let ops = [
        ("add1", Op1::Add1),
        ("sub1", Op1::Sub1),
        ("isnum", Op1::IsNum),
        ("isbool", Op1::IsBool),
        ("print", Op1::Print),
    ];
    for (name, op) in ops {
        assert_eq!(expr(form(name, vec![number(5)])), Ok(Expr::UnOp(op, boxed(Expr::Number(5)))));
        assert_eq!(expr(form(name, vec![])), Err(ParseError::Invalid));
        assert_eq!(expr(form(name, vec![number(5), number(6)])), Err(ParseError::Invalid));
    }
    assert_eq!(expr(form("neg", vec![number(5)])), Err(ParseError::Invalid));
    // The operator is looked up before the operand is read.
    assert_eq!(expr(form("neg", vec![sym("let")])), Err(ParseError::Invalid));
    assert_eq!(expr(form("add1", vec![sym("let")])), Err(ParseError::IdentifierKeyword));
}

#[test]
fn parse_binary_operators() {
    let ops = [
        ("+", Op2::Plus),
        ("-", Op2::Minus),
        ("*", Op2::Times),
        ("<", Op2::Lt),
        (">", Op2::Gt),
        ("<=", Op2::Lte),
        (">=", Op2::Gte),
        ("=", Op2::Equal),
    ];
    for (name, op) in ops {
        assert_eq!(
            expr(form(name, vec![number(1), sym("x")])),
            Ok(Expr::BinOp(op, boxed(Expr::Number(1)), boxed(id("x"))))
        );
        assert_eq!(expr(form(name, vec![number(1)])), Err(ParseError::Invalid));
        assert_eq!(expr(form(name, vec![number(1), number(2), number(3)])), Err(ParseError::Invalid));
    }
    assert_eq!(expr(form("/", vec![number(1), number(2)])), Err(ParseError::Invalid));
    assert_eq!(expr(form("==", vec![number(1), number(2)])), Err(ParseError::Invalid));
    // The left operand is read before the right one.
    assert_eq!(
        expr(form("+", vec![sym("1x"), sym("let")])),
        Err(ParseError::IdentifierNaming)
    );
    assert_eq!(
        expr(form("+", vec![sym("let"), sym("1x")])),
        Err(ParseError::IdentifierKeyword)
    );
}

#[test]
fn parse_conditionals() {
    assert_eq!(
        expr(form("if", vec![sym("true"), number(1), number(2)])),
        Ok(Expr::If(boxed(Expr::Boolean(true)), boxed(Expr::Number(1)), boxed(Expr::Number(2))))
    );
    assert_eq!(expr(form("if", vec![])), Err(ParseError::Invalid));
    assert_eq!(expr(form("if", vec![number(1)])), Err(ParseError::Invalid));
    assert_eq!(expr(form("if", vec![number(1), number(2)])), Err(ParseError::Invalid));
    assert_eq!(expr(form("if", vec![number(1), number(2), number(3), number(4)])), Err(ParseError::Invalid));
    assert_eq!(
        expr(form("if", vec![number(1), sym("1x"), sym("let")])),
        Err(ParseError::IdentifierNaming)
    );
}

#[test]
fn parse_assignments() {
    assert_eq!(
        expr(form("set!", vec![sym("x"), number(1)])),
        Ok(Expr::Assign(String::from("x"), boxed(Expr::Number(1))))
    );
    assert_eq!(expr(form("set!", vec![sym("x")])), Err(ParseError::Invalid));
    assert_eq!(expr(form("set!", vec![number(5), number(1)])), Err(ParseError::Invalid));
    assert_eq!(expr(form("set!", vec![list(vec![sym("x")]), number(1)])), Err(ParseError::Invalid));
    assert_eq!(expr(form("set!", vec![sym("x"), number(1), number(2)])), Err(ParseError::Invalid));
    assert_eq!(
        expr(form("set!", vec![sym("x_1"), number(1)])),
        Err(ParseError::IdentifierNaming)
    );
    assert_eq!(
        expr(form("set!", vec![sym("input"), number(1)])),
        Err(ParseError::IdentifierKeyword)
    );
    assert_eq!(
        expr(form("set!", vec![sym("true"), number(1)])),
        Err(ParseError::IdentifierKeyword)
    );
    // The name is checked before the value is read.
    assert_eq!(
        expr(form("set!", vec![sym("let"), list(vec![])])),
        Err(ParseError::IdentifierKeyword)
    );
    assert_eq!(expr(form("set!", vec![sym("x"), list(vec![])])), Err(ParseError::Invalid));
}

fn binding(name: &str, value: Tree) -> Tree {
    list(vec![sym(name), value])
}

#[test]
fn parse_bindings() {
    assert_eq!(
        expr(form("let", vec![list(vec![binding("x", number(1)), binding("y", sym("x"))]), sym("y")])),
        Ok(Expr::Let(
            vec![(String::from("x"), Expr::Number(1)), (String::from("y"), id("x"))],
            boxed(id("y"))
        ))
    );
}

#[test]
fn parse_malformed_bindings() {
    let with = |bindings: Vec<Tree>| expr(form("let", vec![list(bindings), number(0)]));
    assert_eq!(with(vec![]), Err(ParseError::Invalid));
    assert_eq!(with(vec![sym("x")]), Err(ParseError::Invalid));
    assert_eq!(with(vec![list(vec![])]), Err(ParseError::Invalid));
    assert_eq!(with(vec![list(vec![sym("x")])]), Err(ParseError::Invalid));
    assert_eq!(with(vec![list(vec![sym("x"), number(1), number(2)])]), Err(ParseError::Invalid));
    assert_eq!(with(vec![list(vec![number(1), number(2)])]), Err(ParseError::Invalid));
    assert_eq!(with(vec![binding("x", number(1)), number(3)]), Err(ParseError::Invalid));
    assert_eq!(expr(form("let", vec![sym("x"), number(1)])), Err(ParseError::Invalid));
    assert_eq!(expr(form("let", vec![number(1), number(1)])), Err(ParseError::Invalid));
    assert_eq!(expr(form("let", vec![list(vec![binding("x", number(1))])])), Err(ParseError::Invalid));
    assert_eq!(
        expr(form("let", vec![list(vec![binding("x", number(1))]), number(1), number(2)])),
        Err(ParseError::Invalid)
    );
}

#[test]
fn parse_names_that_cannot_be_bound() {
    let with = |bindings: Vec<Tree>| expr(form("let", vec![list(bindings), number(0)]));
    assert_eq!(
        with(vec![binding("x", number(1)), binding("x", number(2))]),
        Err(ParseError::DuplicateBinding)
    );
    assert_eq!(
        with(vec![binding("x", number(1)), binding("y", number(2)), binding("x", number(3))]),
        Err(ParseError::DuplicateBinding)
    );
    // A reserved word is reported as one, whatever its shape.
    for word in ["add1", "sub1", "isnum", "isbool", "print", "+", "-", "*", "<", ">", "<=", ">=",
        "=", "let", "if", "set!", "block", "loop", "break", "true", "false", "input", "fun"]
    {
        assert_eq!(with(vec![binding(word, number(1))]), Err(ParseError::IdentifierKeyword), "{word}");
    }
    for word in ["x_1", "1x", "!", "x-1"] {
        assert_eq!(with(vec![binding(word, number(1))]), Err(ParseError::IdentifierNaming), "{word}");
    }
    // A name may be bound again in an inner let.
    assert!(with(vec![binding(
        "x",
        form("let", vec![list(vec![binding("x", number(1))]), sym("x")])
    )])
    .is_ok());
}

#[test]
fn parse_first_broken_rule_of_a_let_is_reported() {
    let with = |bindings: Vec<Tree>, body: Tree| expr(form("let", vec![list(bindings), body]));
    // The expression of a binding is read before its name is checked.
    assert_eq!(with(vec![binding("let", list(vec![]))], number(0)), Err(ParseError::Invalid));
    // The bindings are read in order.
    assert_eq!(
        with(vec![binding("x_", number(1)), binding("let", number(2))], number(0)),
        Err(ParseError::IdentifierNaming)
    );
    assert_eq!(
        with(vec![binding("x", number(1)), binding("x", sym("let"))], number(0)),
        Err(ParseError::IdentifierKeyword)
    );
    // The body is read last, and not at all without bindings.
    assert_eq!(
        with(vec![binding("x", number(1)), binding("x", number(2))], sym("let")),
        Err(ParseError::DuplicateBinding)
    );
    assert_eq!(with(vec![], sym("let")), Err(ParseError::Invalid));
    assert_eq!(with(vec![binding("x", number(1))], sym("let")), Err(ParseError::IdentifierKeyword));
}

#[test]
fn parse_calls_of_declared_functions() {
    let fns = names(&["f", "g"]);
    assert_eq!(parse_expr(&form("f", vec![]), &fns), Ok(Expr::Call(String::from("f"), vec![])));
    assert_eq!(
        parse_expr(&form("g", vec![number(1), sym("x"), form("f", vec![])]), &fns),
        Ok(Expr::Call(
            String::from("g"),
            vec![Expr::Number(1), id("x"), Expr::Call(String::from("f"), vec![])]
        ))
    );
    assert_eq!(parse_expr(&form("h", vec![]), &fns), Err(ParseError::Invalid));
    assert_eq!(parse_expr(&form("h", vec![number(1)]), &fns), Err(ParseError::Invalid));
    assert_eq!(parse_expr(&form("h", vec![number(1), number(2)]), &fns), Err(ParseError::Invalid));
    assert_eq!(
        parse_expr(&form("f", vec![number(1), sym("let")]), &fns),
        Err(ParseError::IdentifierKeyword)
    );
    // A function is no variable.
    assert_eq!(parse_expr(&sym("f"), &fns), Ok(id("f")));
}

#[test]
fn parse_a_call_comes_before_an_operator_and_behind_a_keyword() {
    let fns = names(&["add1", "+", "loop", "block", "let", "if"]);
    assert_eq!(
        parse_expr(&form("add1", vec![number(1)]), &fns),
        Ok(Expr::Call(String::from("add1"), vec![Expr::Number(1)]))
    );
    assert_eq!(
        parse_expr(&form("add1", vec![number(1), number(2)]), &fns),
        Ok(Expr::Call(String::from("add1"), vec![Expr::Number(1), Expr::Number(2)]))
    );
    assert_eq!(
        parse_expr(&form("+", vec![number(1), number(2)]), &fns),
        Ok(Expr::Call(String::from("+"), vec![Expr::Number(1), Expr::Number(2)]))
    );
    assert_eq!(
        parse_expr(&form("loop", vec![number(1)]), &fns),
        Ok(Expr::Loop(boxed(Expr::Number(1))))
    );
    assert_eq!(
        parse_expr(&form("loop", vec![number(1), number(2)]), &fns),
        Ok(Expr::Call(String::from("loop"), vec![Expr::Number(1), Expr::Number(2)]))
    );
    assert_eq!(parse_expr(&form("block", vec![]), &fns), Err(ParseError::Invalid));
    assert_eq!(
        parse_expr(&form("let", vec![list(vec![binding("x", number(1))]), sym("x")]), &fns),
        Ok(Expr::Let(vec![(String::from("x"), Expr::Number(1))], boxed(id("x"))))
    );
    assert_eq!(
        parse_expr(&form("if", vec![number(1), number(2), number(3)]), &fns),
        Ok(Expr::If(boxed(Expr::Number(1)), boxed(Expr::Number(2)), boxed(Expr::Number(3))))
    );
    assert_eq!(
        parse_expr(&form("if", vec![number(1), number(2)]), &fns),
        Ok(Expr::Call(String::from("if"), vec![Expr::Number(1), Expr::Number(2)]))
    );
}

fn definition(name: &str, params: &[&str], body: Tree) -> Tree {
    let mut decl = vec![sym(name)];
    decl.extend(params.iter().map(|p| sym(p)));
    form("fun", vec![list(decl), body])
}

#[test]
fn parse_names_of_definitions() {
    assert_eq!(parse_defn_name(&definition("f", &[], number(1))), Ok(String::from("f")));
    assert_eq!(parse_defn_name(&definition("g", &["x", "y"], sym("x"))), Ok(String::from("g")));
    // Only the outline is read: neither the name nor the rest is checked.
    assert_eq!(parse_defn_name(&definition("let", &["1x"], list(vec![]))), Ok(String::from("let")));
    assert_eq!(
        parse_defn_name(&form("fun", vec![list(vec![sym("f"), number(3)]), number(1)])),
        Ok(String::from("f"))
    );
}

#[test]
fn parse_trees_that_are_no_definitions() {
    let bad = [
        sym("fun"),
        number(1),
        list(vec![]),
        form("fun", vec![]),
        form("fun", vec![list(vec![sym("f")])]),
        form("fun", vec![list(vec![sym("f")]), number(1), number(2)]),
        form("fun", vec![sym("f"), number(1)]),
        form("fun", vec![list(vec![]), number(1)]),
        form("fun", vec![list(vec![number(1)]), number(1)]),
        form("fun", vec![list(vec![list(vec![sym("f")])]), number(1)]),
        form("fn", vec![list(vec![sym("f")]), number(1)]),
        list(vec![number(1), list(vec![sym("f")]), number(1)]),
        form("add1", vec![number(1)]),
    ];
    for s in &bad {
        assert_eq!(parse_defn_name(s), Err(ParseError::Invalid), "{s:?}");
        assert_eq!(parse_defn(s, &names(&["f"])), Err(ParseError::Invalid), "{s:?}");
    }
}

#[test]
fn parse_definitions() {
    let fns = names(&["f", "g"]);
    assert_eq!(
        parse_defn(&definition("f", &["x", "y"], form("g", vec![sym("x"), sym("y")])), &fns),
        Ok(Function {
            name: String::from("f"),
            args: names(&["x", "y"]),
            body: Expr::Call(String::from("g"), vec![id("x"), id("y")]),
        })
    );
    assert_eq!(
        parse_defn(&definition("g", &[], number(1)), &fns),
        Ok(Function { name: String::from("g"), args: vec![], body: Expr::Number(1) })
    );
}

#[test]
fn parse_parameters_that_cannot_be_declared() {
    let fns = names(&["f"]);
    let with = |params: Vec<Tree>| {
        let mut decl = vec![sym("f")];
        decl.extend(params);
        parse_defn(&form("fun", vec![list(decl), number(1)]), &fns)
    };
    assert_eq!(with(vec![number(1)]), Err(ParseError::Invalid));
    assert_eq!(with(vec![list(vec![sym("x")])]), Err(ParseError::Invalid));
    assert_eq!(with(vec![sym("x_1")]), Err(ParseError::ArgumentNaming));
    assert_eq!(with(vec![sym("!")]), Err(ParseError::ArgumentNaming));
    for word in ["+", "-", "*", "<", ">", "<=", ">=", "=", "set!", "add1", "true", "fun"] {
        assert_eq!(with(vec![sym(word)]), Err(ParseError::FunctionKeyword), "{word}");
    }
    assert_eq!(with(vec![sym("x"), sym("+")]), Err(ParseError::FunctionKeyword));
    assert_eq!(with(vec![sym("x"), sym("x")]), Err(ParseError::DuplicateParameter));
    assert_eq!(with(vec![sym("x"), sym("y"), sym("x")]), Err(ParseError::DuplicateParameter));
    assert_eq!(with(vec![sym("let")]), Err(ParseError::FunctionKeyword));
    assert_eq!(with(vec![sym("input")]), Err(ParseError::FunctionKeyword));
    assert_eq!(with(vec![sym("x"), sym("1y"), sym("x")]), Err(ParseError::ArgumentNaming));
    // A parameter may have the name of the function.
    assert!(with(vec![sym("f")]).is_ok());
}

#[test]
fn parse_the_body_of_a_definition_is_read_first() {
    let fns = names(&["f"]);
    assert_eq!(
        parse_defn(&definition("f", &["let"], sym("1x")), &fns),
        Err(ParseError::IdentifierNaming)
    );
    assert_eq!(
        parse_defn(&form("fun", vec![list(vec![]), sym("let")]), &fns),
        Err(ParseError::IdentifierKeyword)
    );
}

#[test]
fn parse_programs() {
    let tree = list(vec![
        definition("even", &["n"], form("odd", vec![sym("n")])),
        definition("odd", &["n"], form("even", vec![sym("n")])),
        form("even", vec![sym("input")]),
    ]);
    assert_eq!(
        parse_program(tree),
        Ok(Program {
            defns: vec![
                Function {
                    name: String::from("even"),
                    args: names(&["n"]),
                    body: Expr::Call(String::from("odd"), vec![id("n")]),
                },
                Function {
                    name: String::from("odd"),
                    args: names(&["n"]),
                    body: Expr::Call(String::from("even"), vec![id("n")]),
                },
            ],
            main: Expr::Call(String::from("even"), vec![id("input")]),
        })
    );
    assert_eq!(
        parse_program(list(vec![number(5)])),
        Ok(Program { defns: vec![], main: Expr::Number(5) })
    );
}

#[test]
fn parse_trees_that_are_no_programs() {
    assert_eq!(parse_program(number(5)), Err(ParseError::NotAList));
    assert_eq!(parse_program(sym("x")), Err(ParseError::NotAList));
    assert_eq!(parse_program(list(vec![])), Err(ParseError::Invalid));
    // All trees but the last are definitions.
    assert_eq!(parse_program(list(vec![number(1), number(2)])), Err(ParseError::Invalid));
    // The last tree is the main expression, and a definition is none.
    assert_eq!(parse_program(list(vec![definition("f", &[], number(1))])), Err(ParseError::Invalid));
    assert_eq!(
        parse_program(list(vec![number(1), definition("f", &[], number(1))])),
        Err(ParseError::Invalid)
    );
}

#[test]
fn parse_functions_that_cannot_be_declared() {
    let with = |name: &str| parse_program(list(vec![definition(name, &[], number(1)), number(0)]));
    assert_eq!(with("f_1"), Err(ParseError::FunctionNaming));
    assert_eq!(with("!"), Err(ParseError::FunctionNaming));
    assert_eq!(with("+"), Err(ParseError::FunctionKeyword));
    assert_eq!(with("set!"), Err(ParseError::FunctionKeyword));
    assert_eq!(with("1f"), Err(ParseError::FunctionNaming));
    assert_eq!(with("let"), Err(ParseError::FunctionKeyword));
    assert_eq!(with("input"), Err(ParseError::FunctionKeyword));
    assert_eq!(with("add1"), Err(ParseError::FunctionKeyword));
    assert_eq!(with("fun"), Err(ParseError::FunctionKeyword));
    assert_eq!(
        parse_program(list(vec![
            definition("f", &[], number(1)),
            definition("g", &[], number(1)),
            definition("f", &["x"], number(2)),
            number(0)
        ])),
        Err(ParseError::DuplicateFunction)
    );
}

#[test]
fn parse_all_names_are_checked_before_any_body_is_read() {
    assert_eq!(
        parse_program(list(vec![
            definition("f", &["let"], sym("1x")),
            definition("f", &[], number(1)),
            number(0)
        ])),
        Err(ParseError::DuplicateFunction)
    );
    assert_eq!(
        parse_program(list(vec![
            definition("f", &["let"], number(1)),
            definition("g", &[], sym("1x")),
            sym("let")
        ])),
        Err(ParseError::FunctionKeyword)
    );
    assert_eq!(
        parse_program(list(vec![definition("f", &[], number(1)), sym("1x")])),
        Err(ParseError::IdentifierNaming)
    );
}

#[test]
fn parse_messages_of_parse_errors() {
    assert_eq!(ParseError::Invalid.message(), "Invalid");
    assert_eq!(ParseError::NotAList.message(), "Invalid - Must send sexp list with parentheses");
    assert_eq!(ParseError::FunctionNaming.message(), "Invalid function naming conventions");
    assert_eq!(ParseError::DuplicateFunction.message(), "Duplicate function name");
    assert_eq!(ParseError::FunctionKeyword.message(), "Invalid function definition - keyword");
    assert_eq!(ParseError::ArgumentNaming.message(), "Invalid argument naming conventions");
    assert_eq!(ParseError::DuplicateParameter.message(), "Duplicate parameter name");
    assert_eq!(ParseError::IdentifierNaming.message(), "Invalid identifier naming conventions");
    assert_eq!(ParseError::IdentifierKeyword.message(), "Invalid identifier - keyword");
    assert_eq!(ParseError::DuplicateBinding.message(), "Duplicate binding");
}
