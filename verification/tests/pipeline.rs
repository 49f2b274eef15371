//! From source text to the text of the assembly file.

use snek::driver::{assemble, compile_source, compile_tree, StaticError};
use snek::error::{CompileError, ParseError};
use snek::syntax::{Token, Tree};

const HEAD: &str = "
section .text
extern snek_error
extern snek_print
global our_code_starts_here
throw_error_align:
  sub rsp, 8
  mov rdi, rdx
  call snek_error
  add rsp, 8
";

fn file(functions: &str, main: &str) -> String {
    format!("{HEAD}{functions}\nour_code_starts_here:\n{main}\n  ret\n")
}

fn rejected(source: &str) -> StaticError {
    compile_source(source).unwrap_err()
}

#[test]
fn source_frame_of_the_assembly_file() {
    assert_eq!(assemble("", ""), format!("{HEAD}\nour_code_starts_here:\n\n  ret\n"));
    assert_eq!(assemble("  f:\n  ret ", "  mov rax, 2"), file("  f:\n  ret ", "  mov rax, 2"));
}

#[test]
fn source_add1_twice_compiles_to_checked_additions() {
    let text = compile_source("(add1 (add1 320))").unwrap();
    let expected = "
section .text
extern snek_error
extern snek_print
global our_code_starts_here
throw_error_align:
  sub rsp, 8
  mov rdi, rdx
  call snek_error
  add rsp, 8

our_code_starts_here:
  mov rax, 640
  test rax, 1
  mov rdx, 7
  jne throw_error_align
  add rax, 2
  mov rdx, 8
  jo throw_error_align
  test rax, 1
  mov rdx, 7
  jne throw_error_align
  add rax, 2
  mov rdx, 8
  jo throw_error_align
  ret
";
    assert_eq!(text, expected);
}

#[test]
fn source_literal_programs() {
    assert_eq!(compile_source("644"), Ok(file("", "  mov rax, 1288")));
    assert_eq!(compile_source("-1"), Ok(file("", "  mov rax, -2")));
    assert_eq!(compile_source("true"), Ok(file("", "  mov rax, 7")));
    assert_eq!(compile_source("false"), Ok(file("", "  mov rax, 3")));
    assert_eq!(compile_source("input"), Ok(file("", "  mov rax, rdi")));
    assert_eq!(
        compile_source("4611686018427387903"),
        Ok(file("", "  mov rax, 9223372036854775806"))
    );
    assert_eq!(
        compile_source("-4611686018427387904"),
        Ok(file("", "  mov rax, -9223372036854775808"))
    );
}

#[test]
fn source_program_with_a_function() {
    let source = "
        ; the difference of two numbers
        (fun (sub a b) (- a b))
        (sub input 3)
    ";
    let functions = "  sub:
  mov rax, qword [rsp + 16]
  mov qword [rsp - 8], rax
  mov rax, qword [rsp + 8]
  test rax, 1
  mov rdx, 7
  jne throw_error_align
  test qword [rsp - 8], 1
  mov rdx, 7
  jne throw_error_align
  sub rax, qword [rsp - 8]
  mov rdx, 8
  jo throw_error_align
  ret ";
    let main = "  mov rax, rdi
  mov qword [rsp - 24], rax
  mov rax, 6
  mov qword [rsp - 16], rax
  sub rsp, 24
  call sub
  add rsp, 24";
    assert_eq!(compile_source(source), Ok(file(functions, main)));
}

#[test]
fn source_unbound_variable_is_reported_by_name() {
    let err = rejected("(let ((x 5)) y)");
    assert_eq!(err, StaticError::Compile(CompileError::UnboundVariable(String::from("y"))));
    assert!(err.message().contains("Unbound variable identifier y"));
}

#[test]
fn source_break_at_top_level_is_rejected() {
    let err = rejected("(break 1)");
    assert_eq!(err, StaticError::Compile(CompileError::BreakOutsideLoop));
    assert!(err.message().contains("break"));
}

#[test]
fn source_text_that_is_no_program() {
    for source in ["(add1 3", "add1 3)", ")", "(", "(let ((x 1) x)", "\"abc"] {
        let err = rejected(source);
        assert_eq!(err, StaticError::Parse(ParseError::Invalid), "{source}");
        assert!(err.message().contains("Invalid"));
    }
    assert_eq!(rejected(""), StaticError::Parse(ParseError::Invalid));
    assert_eq!(rejected("  ; nothing\n"), StaticError::Parse(ParseError::Invalid));
    // A comment on the last line, without a line break, takes the closing
    // parenthesis with it.
    assert_eq!(rejected("1 ; one"), StaticError::Parse(ParseError::Invalid));
    assert!(compile_source("1 ; one\n").is_ok());
}

#[test]
fn source_malformed_forms_are_invalid() {
    for source in [
        "(let () 1)",
        "(let (x 1) x)",
        "(let ((x)) x)",
        "(if 1 2)",
        "(if 1 2 3 4)",
        "(block)",
        "(loop)",
        "(break)",
        "(add1)",
        "(add1 1 2)",
        "(+ 1)",
        "(+ 1 2 3)",
        "(set! x)",
        "(set! 1 2)",
        "(foo 1)",
        "(1 2)",
        "()",
        "1.5",
        "(add1 1e3)",
        "(add1 nan)",
        "4611686018427387904",
        "-4611686018427387905",
        "(fun (f) 1)",
        "(fun f 1) 2",
        "(fun (f x) x) (f)(g)",
        "1 2",
    ] {
        let err = rejected(source);
        assert_eq!(err, StaticError::Parse(ParseError::Invalid), "{source}");
        assert!(err.message().contains("Invalid"), "{source}");
    }
}

#[test]
fn source_reserved_words_as_names() {
    for source in ["(let ((let 1)) 1)", "(let ((input 1)) input)", "(set! add1 1)", "(+ if 1)"] {
        let err = rejected(source);
        assert_eq!(err, StaticError::Parse(ParseError::IdentifierKeyword), "{source}");
        assert!(err.message().contains("keyword"), "{source}");
    }
    for source in ["(fun (f let) 1) 1", "(fun (block) 1) 1", "(fun (f x input) 1) 1"] {
        let err = rejected(source);
        assert_eq!(err, StaticError::Parse(ParseError::FunctionKeyword), "{source}");
        assert!(err.message().contains("keyword"), "{source}");
    }
}

#[test]
fn source_names_declared_twice() {
    let err = rejected("(let ((x 1) (y 2) (x 3)) x)");
    assert_eq!(err, StaticError::Parse(ParseError::DuplicateBinding));
    assert!(err.message().contains("Duplicate binding"));
    let err = rejected("(fun (f x) x) (fun (f y) y) (f 1)");
    assert_eq!(err, StaticError::Parse(ParseError::DuplicateFunction));
    assert!(err.message().contains("Duplicate"));
    let err = rejected("(fun (f x y x) x) (f 1 2 3)");
    assert_eq!(err, StaticError::Parse(ParseError::DuplicateParameter));
    assert!(err.message().contains("Duplicate"));
}

#[test]
fn source_names_of_the_wrong_shape() {
    assert_eq!(rejected("x_1"), StaticError::Parse(ParseError::IdentifierNaming));
    assert_eq!(rejected("(add1 \"5\")"), StaticError::Parse(ParseError::IdentifierNaming));
    assert_eq!(rejected("(let ((x-y 1)) 1)"), StaticError::Parse(ParseError::IdentifierNaming));
    assert_eq!(rejected("(fun (f_1) 1) 1"), StaticError::Parse(ParseError::FunctionNaming));
    assert_eq!(rejected("(fun (f x_1) 1) 1"), StaticError::Parse(ParseError::ArgumentNaming));
    for e in [ParseError::IdentifierNaming, ParseError::FunctionNaming, ParseError::ArgumentNaming] {
        assert!(StaticError::Parse(e).message().contains("Invalid"));
    }
}

#[test]
fn source_calls_that_do_not_fit_the_definition() {
    assert_eq!(
        rejected("(fun (f x) x) (f)"),
        StaticError::Compile(CompileError::WrongArity(String::from("f")))
    );
    assert_eq!(
        rejected("(fun (f x) x) (f 1 2)"),
        StaticError::Compile(CompileError::WrongArity(String::from("f")))
    );
    assert_eq!(
        rejected("(fun (f x) (f)) (f 1)"),
        StaticError::Compile(CompileError::WrongArity(String::from("f")))
    );
    // A function that is not defined is no form at all.
    assert_eq!(rejected("(g 1)"), StaticError::Parse(ParseError::Invalid));
    assert_eq!(rejected("(fun (f x) x) (g 1 2 3)"), StaticError::Parse(ParseError::Invalid));
}

#[test]
fn source_input_in_a_function_body() {
    let err = rejected("(fun (f x) (+ x input)) (f 1)");
    assert_eq!(err, StaticError::Compile(CompileError::InputInFunction));
    assert!(err.message().contains("input"));
    assert!(compile_source("(fun (f x) (+ x 1)) (f input)").is_ok());
}

#[test]
fn source_variables_out_of_scope() {
    for (source, name) in [
        ("y", "y"),
        ("(let ((x 1)) (+ x y))", "y"),
        ("(block (let ((x 1)) x) x)", "x"),
        ("(let ((x x)) x)", "x"),
        ("(let ((x 1) (y z) (z 2)) y)", "z"),
        ("(set! x 1)", "x"),
        ("(fun (f a) b) (f 1)", "b"),
        ("(fun (f a) a) a", "a"),
        ("(fun (f a) a) f", "f"),
    ] {
        let err = rejected(source);
        assert_eq!(
            err,
            StaticError::Compile(CompileError::UnboundVariable(String::from(name))),
            "{source}"
        );
        assert_eq!(err.message(), format!("Unbound variable identifier {name}"));
    }
}

#[test]
fn source_what_the_reader_hands_over() {
    assert_eq!(compile_tree(None), Err(StaticError::Parse(ParseError::Invalid)));
    assert_eq!(
        compile_tree(Some(Tree::Atom(Token::Integer(1)))),
        Err(StaticError::Parse(ParseError::NotAList))
    );
    assert_eq!(
        StaticError::Parse(ParseError::NotAList).message(),
        "Invalid - Must send sexp list with parentheses"
    );
    assert_eq!(
        compile_tree(Some(Tree::List(vec![Tree::Atom(Token::Integer(1))]))),
        Ok(file("", "  mov rax, 2"))
    );
    assert_eq!(
        compile_tree(Some(Tree::List(vec![Tree::Atom(Token::Float)]))),
        Err(StaticError::Parse(ParseError::Invalid))
    );
    assert_eq!(compile_tree(Some(Tree::List(vec![]))), Err(StaticError::Parse(ParseError::Invalid)));
}

#[test]
fn source_layout_of_the_source_does_not_matter() {
    let plain = compile_source("(let ((x 1)) (add1 x))").unwrap();
    assert_eq!(compile_source("  (let((x 1))(add1 x))  "), Ok(plain.clone()));
    assert_eq!(compile_source("(let ((x 1)) ; one\n\t(add1 x)) ; done\n"), Ok(plain));
}
