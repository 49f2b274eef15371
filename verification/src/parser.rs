//! The parser: from a list tree to a validated program.
//!
//! The grammar is stated first, as functions on the model of the tree; the
//! parsing functions follow, each proved to return what the grammar says.
//! Where a tree breaks several rules, the error is that of the first rule
//! broken in the order in which the parser reads the tree.

use crate::error::ParseError;
use crate::syntax::{trees_of, SpecToken, SpecTree, Token, Tree};
use crate::text::same_text;
use crate::types::{bindings_of, exprs_of, functions_of, names_of, Expr, Function, Op1, Op2,
    Program, SpecExpr, SpecFunction, SpecProgram};
use crate::utils::{in_range, is_reserved, is_valid_identifier, reserved, valid_identifier, LIM};
use vstd::prelude::*;

verus! {

/// The characters of `s` where it is a symbol.
pub open spec fn symbol(s: SpecTree) -> Option<Seq<char>> {
    match s {
        SpecTree::Atom(SpecToken::Symbol(name)) => Some(name),
        _ => None,
    }
}

/// The unary operator that `name` denotes.
pub open spec fn unary_op(name: Seq<char>) -> Option<Op1> {
    if name == "add1"@ {
        Some(Op1::Add1)
    } else if name == "sub1"@ {
        Some(Op1::Sub1)
    } else if name == "isnum"@ {
        Some(Op1::IsNum)
    } else if name == "isbool"@ {
        Some(Op1::IsBool)
    } else if name == "print"@ {
        Some(Op1::Print)
    } else {
        None
    }
}

/// The binary operator that `name` denotes.
pub open spec fn binary_op(name: Seq<char>) -> Option<Op2> {
    if name == "+"@ {
        Some(Op2::Plus)
    } else if name == "-"@ {
        Some(Op2::Minus)
    } else if name == "*"@ {
        Some(Op2::Times)
    } else if name == "<"@ {
        Some(Op2::Lt)
    } else if name == ">"@ {
        Some(Op2::Gt)
    } else if name == "<="@ {
        Some(Op2::Lte)
    } else if name == ">="@ {
        Some(Op2::Gte)
    } else if name == "="@ {
        Some(Op2::Equal)
    } else {
        None
    }
}

/// What is wrong with a name that is being declared after those in `seen`:
/// it is a reserved word, whatever its shape, or it does not have the
/// shape of an identifier, or it is declared already; the first of these
/// that holds, each reported as the error given for it.
pub open spec fn name_error(
    name: Seq<char>,
    seen: Seq<Seq<char>>,
    naming: ParseError,
    duplicate: ParseError,
    keyword: ParseError,
) -> Option<ParseError> {
    if reserved(name) {
        Some(keyword)
    } else if !valid_identifier(name) {
        Some(naming)
    } else if seen.contains(name) {
        Some(duplicate)
    } else {
        None
    }
}

/// The names that a list of bindings binds, in order.
pub open spec fn bound_names(binds: Seq<(Seq<char>, SpecExpr)>) -> Seq<Seq<char>> {
    Seq::new(binds.len(), |i: int| binds[i].0)
}

/// The expression that the tree `s` denotes, where `fns` are the names of
/// the program's functions.
///
/// A token is an integer literal, `true` or `false`, or a variable. A list
/// is read by its head, which must be a symbol. The forms of the keywords
/// come first: `loop` and `break` with one operand, `block` with any
/// number, `let`, `if` and `set!`; then a call, where the head names a
/// function; then a unary operator, where the list has two elements, or a
/// binary one, where it has three.
pub open spec fn parsed_expr(s: SpecTree, fns: Seq<Seq<char>>) -> Result<SpecExpr, ParseError>
    decreases s, 1nat,
{
    match s {
        SpecTree::Atom(SpecToken::Integer(n)) => if in_range(n) {
            Ok(SpecExpr::Number(n))
        } else {
            Err(ParseError::Invalid)
        },
        SpecTree::Atom(SpecToken::Symbol(v)) => if v == "true"@ {
            Ok(SpecExpr::Boolean(true))
        } else if v == "false"@ {
            Ok(SpecExpr::Boolean(false))
        } else if reserved(v) && v != "input"@ {
            Err(ParseError::IdentifierKeyword)
        } else if !valid_identifier(v) {
            Err(ParseError::IdentifierNaming)
        } else {
            Ok(SpecExpr::Id(v))
        },
        SpecTree::Atom(SpecToken::Float) => Err(ParseError::Invalid),
        SpecTree::List(items) => if items.len() == 0 || symbol(items[0]) is None {
            Err(ParseError::Invalid)
        } else {
            let head = symbol(items[0])->0;
            let n = items.len();
            if head == "loop"@ && n == 2 {
                match parsed_expr(items[1], fns) {
                    Err(x) => Err(x),
                    Ok(body) => Ok(SpecExpr::Loop(Box::new(body))),
                }
            } else if head == "break"@ && n == 2 {
                match parsed_expr(items[1], fns) {
                    Err(x) => Err(x),
                    Ok(value) => Ok(SpecExpr::Break(Box::new(value))),
                }
            } else if head == "block"@ {
                if n == 1 {
                    Err(ParseError::Invalid)
                } else {
                    match parsed_exprs(items, 1, Seq::empty(), fns) {
                        Err(x) => Err(x),
                        Ok(es) => Ok(SpecExpr::Block(es)),
                    }
                }
            } else if head == "let"@ && n == 3 && items[1] is List {
                parsed_let(s, fns)
            } else if head == "if"@ && n == 4 {
                match parsed_expr(items[1], fns) {
                    Err(x) => Err(x),
                    Ok(cond) => match parsed_expr(items[2], fns) {
                        Err(x) => Err(x),
                        Ok(taken) => match parsed_expr(items[3], fns) {
                            Err(x) => Err(x),
                            Ok(otherwise) => Ok(
                                SpecExpr::If(
                                    Box::new(cond),
                                    Box::new(taken),
                                    Box::new(otherwise),
                                ),
                            ),
                        },
                    },
                }
            } else if head == "set!"@ && n == 3 && symbol(items[1]) is Some {
                let var = symbol(items[1])->0;
                if reserved(var) {
                    Err(ParseError::IdentifierKeyword)
                } else if !valid_identifier(var) {
                    Err(ParseError::IdentifierNaming)
                } else {
                    match parsed_expr(items[2], fns) {
                        Err(x) => Err(x),
                        Ok(value) => Ok(SpecExpr::Assign(var, Box::new(value))),
                    }
                }
            } else if fns.contains(head) {
                match parsed_exprs(items, 1, Seq::empty(), fns) {
                    Err(x) => Err(x),
                    Ok(args) => Ok(SpecExpr::Call(head, args)),
                }
            } else if n == 2 {
                match unary_op(head) {
                    None => Err(ParseError::Invalid),
                    Some(op) => match parsed_expr(items[1], fns) {
                        Err(x) => Err(x),
                        Ok(operand) => Ok(SpecExpr::UnOp(op, Box::new(operand))),
                    },
                }
            } else if n == 3 {
                match binary_op(head) {
                    None => Err(ParseError::Invalid),
                    Some(op) => match parsed_expr(items[1], fns) {
                        Err(x) => Err(x),
                        Ok(left) => match parsed_expr(items[2], fns) {
                            Err(x) => Err(x),
                            Ok(right) => Ok(SpecExpr::BinOp(op, Box::new(left), Box::new(right))),
                        },
                    },
                }
            } else {
                Err(ParseError::Invalid)
            }
        },
    }
}

/// The `let` that the list `s` of three trees denotes, whose second is a
/// list: the bindings of that list, of which there must be one at least,
/// and the third tree as the body.
pub open spec fn parsed_let(s: SpecTree, fns: Seq<Seq<char>>) -> Result<SpecExpr, ParseError>
    decreases s, 0nat,
{
    if s is List && s->List_0.len() == 3 && s->List_0[1] is List {
        match parsed_bindings(s->List_0[1]->List_0, 0, Seq::empty(), fns) {
            Err(x) => Err(x),
            Ok(binds) => if binds.len() == 0 {
                Err(ParseError::Invalid)
            } else {
                match parsed_expr(s->List_0[2], fns) {
                    Err(x) => Err(x),
                    Ok(body) => Ok(SpecExpr::Let(binds, Box::new(body))),
                }
            },
        }
    } else {
        Err(ParseError::Invalid)
    }
}

/// The expressions that the trees of `items` from index `from` on denote,
/// behind those in `acc`.
pub open spec fn parsed_exprs(
    items: Seq<SpecTree>,
    from: int,
    acc: Seq<SpecExpr>,
    fns: Seq<Seq<char>>,
) -> Result<Seq<SpecExpr>, ParseError>
    decreases items, items.len() - from,
{
    if 0 <= from < items.len() {
        match parsed_expr(items[from], fns) {
            Err(x) => Err(x),
            Ok(e) => parsed_exprs(items, from + 1, acc.push(e), fns),
        }
    } else {
        Ok(acc)
    }
}

/// The binding that the tree `b` denotes: a list of a symbol and an
/// expression.
pub open spec fn parsed_binding(b: SpecTree, fns: Seq<Seq<char>>) -> Result<
    (Seq<char>, SpecExpr),
    ParseError,
>
    decreases b, 1nat,
{
    match b {
        SpecTree::List(items) => if items.len() == 2 && symbol(items[0]) is Some {
            match parsed_expr(items[1], fns) {
                Err(x) => Err(x),
                Ok(e) => Ok((symbol(items[0])->0, e)),
            }
        } else {
            Err(ParseError::Invalid)
        },
        _ => Err(ParseError::Invalid),
    }
}

/// The bindings that the trees of `bs` from index `from` on denote, behind
/// those in `acc`. A name must not be a reserved word, must have the
/// shape of an identifier, and must not be bound by an earlier binding of
/// the list.
pub open spec fn parsed_bindings(
    bs: Seq<SpecTree>,
    from: int,
    acc: Seq<(Seq<char>, SpecExpr)>,
    fns: Seq<Seq<char>>,
) -> Result<Seq<(Seq<char>, SpecExpr)>, ParseError>
    decreases bs, bs.len() - from,
{
    if 0 <= from < bs.len() {
        match parsed_binding(bs[from], fns) {
            Err(x) => Err(x),
            Ok(bind) => match name_error(
                bind.0,
                bound_names(acc),
                ParseError::IdentifierNaming,
                ParseError::DuplicateBinding,
                ParseError::IdentifierKeyword,
            ) {
                Some(x) => Err(x),
                None => parsed_bindings(bs, from + 1, acc.push(bind), fns),
            },
        }
    } else {
        Ok(acc)
    }
}

/// Whether `s` has the outline of a definition: a list of the symbol
/// `fun`, a list, and one more tree.
pub open spec fn defn_outline(s: SpecTree) -> bool {
    &&& s is List
    &&& s->List_0.len() == 3
    &&& symbol(s->List_0[0]) == Some("fun"@)
    &&& s->List_0[1] is List
}

/// The name of the function that the tree `s` defines: the first element
/// of the list behind `fun`, which must be a symbol.
pub open spec fn defn_name(s: SpecTree) -> Result<Seq<char>, ParseError> {
    if defn_outline(s) {
        let decl = s->List_0[1]->List_0;
        if decl.len() >= 1 && symbol(decl[0]) is Some {
            Ok(symbol(decl[0])->0)
        } else {
            Err(ParseError::Invalid)
        }
    } else {
        Err(ParseError::Invalid)
    }
}

/// The parameters that the trees of `decl` from index `from` on name,
/// behind those in `acc`. Each must be a symbol that is no reserved word,
/// has the shape of an identifier, and is not named before in the list.
pub open spec fn parsed_params(decl: Seq<SpecTree>, from: int, acc: Seq<Seq<char>>) -> Result<
    Seq<Seq<char>>,
    ParseError,
>
    decreases decl.len() - from,
{
    if 0 <= from < decl.len() {
        match symbol(decl[from]) {
            None => Err(ParseError::Invalid),
            Some(arg) => match name_error(
                arg,
                acc,
                ParseError::ArgumentNaming,
                ParseError::DuplicateParameter,
                ParseError::FunctionKeyword,
            ) {
                Some(x) => Err(x),
                None => parsed_params(decl, from + 1, acc.push(arg)),
            },
        }
    } else {
        Ok(acc)
    }
}

/// The definition that the tree `s` denotes: `(fun (name param…) body)`.
/// The body is read before the parameters.
pub open spec fn parsed_defn(s: SpecTree, fns: Seq<Seq<char>>) -> Result<SpecFunction, ParseError> {
    if defn_outline(s) {
        let decl = s->List_0[1]->List_0;
        match parsed_expr(s->List_0[2], fns) {
            Err(x) => Err(x),
            Ok(body) => if decl.len() >= 1 && symbol(decl[0]) is Some {
                match parsed_params(decl, 1, Seq::empty()) {
                    Err(x) => Err(x),
                    Ok(args) => Ok(
                        SpecFunction { name: symbol(decl[0])->0, args: args, body: body },
                    ),
                }
            } else {
                Err(ParseError::Invalid)
            },
        }
    } else {
        Err(ParseError::Invalid)
    }
}

/// The names of the functions that the trees of `items` define, all but
/// the last tree, from index `from` on and behind those in `acc`. A name
/// must not be a reserved word, must have the shape of an identifier, and
/// must not be that of an earlier definition.
pub open spec fn function_names(items: Seq<SpecTree>, from: int, acc: Seq<Seq<char>>) -> Result<
    Seq<Seq<char>>,
    ParseError,
>
    decreases items.len() - 1 - from,
{
    if 0 <= from < items.len() - 1 {
        match defn_name(items[from]) {
            Err(x) => Err(x),
            Ok(name) => match name_error(
                name,
                acc,
                ParseError::FunctionNaming,
                ParseError::DuplicateFunction,
                ParseError::FunctionKeyword,
            ) {
                Some(x) => Err(x),
                None => function_names(items, from + 1, acc.push(name)),
            },
        }
    } else {
        Ok(acc)
    }
}

/// The definitions that the trees of `items` denote, all but the last
/// tree, from index `from` on and behind those in `acc`.
pub open spec fn parsed_defns(
    items: Seq<SpecTree>,
    from: int,
    acc: Seq<SpecFunction>,
    fns: Seq<Seq<char>>,
) -> Result<Seq<SpecFunction>, ParseError>
    decreases items.len() - 1 - from,
{
    if 0 <= from < items.len() - 1 {
        match parsed_defn(items[from], fns) {
            Err(x) => Err(x),
            Ok(f) => parsed_defns(items, from + 1, acc.push(f), fns),
        }
    } else {
        Ok(acc)
    }
}

/// The program that the tree `s` denotes: a list of definitions and, last,
/// the main expression. The names of all functions are collected before
/// any body is read, so that a body may call a function defined after it.
pub open spec fn parsed_program(s: SpecTree) -> Result<SpecProgram, ParseError> {
    match s {
        SpecTree::List(items) => if items.len() == 0 {
            Err(ParseError::Invalid)
        } else {
            match function_names(items, 0, Seq::empty()) {
                Err(x) => Err(x),
                Ok(fns) => match parsed_defns(items, 0, Seq::empty(), fns) {
                    Err(x) => Err(x),
                    Ok(defns) => match parsed_expr(items.last(), fns) {
                        Err(x) => Err(x),
                        Ok(main) => Ok(SpecProgram { defns: defns, main: main }),
                    },
                },
            }
        },
        _ => Err(ParseError::NotAList),
    }
}

/// Whether `r` is what the grammar gives: the expression of that model, or
/// the same error.
pub open spec fn parsed(r: Result<Expr, ParseError>, expected: Result<SpecExpr, ParseError>)
    -> bool {
    match r {
        Ok(e) => expected == Ok::<SpecExpr, ParseError>(e@),
        Err(x) => expected == Err::<SpecExpr, ParseError>(x),
    }
}

/// The symbol that `s` is, if it is one.
fn symbol_of(s: &Tree) -> (r: Option<&String>)
    ensures
        match r {
            Some(name) => symbol(s@) == Some(name@),
            None => symbol(s@) is None,
        },
{
    match s {
        Tree::Atom(Token::Symbol(name)) => Some(name),
        _ => None,
    }
}

/// Whether `name` is among `names`.
fn has_name(names: &Vec<String>, name: &String) -> (r: bool)
    ensures
        r == names_of(names@).contains(name@),
{
    let mut i: usize = 0;
    while i < names.len()
        invariant
            i <= names.len(),
            forall|j: int| 0 <= j < i ==> names_of(names@)[j] != name@,
        decreases names.len() - i,
    {
        if names[i] == *name {
            assert(names_of(names@)[i as int] == name@);
            return true;
        }
        i = i + 1;
    }
    false
}

/// Whether a binding of `binds` binds `name`.
fn is_bound(binds: &Vec<(String, Expr)>, name: &String) -> (r: bool)
    ensures
        r == bound_names(bindings_of(*binds)).contains(name@),
{
    let ghost names = bound_names(bindings_of(*binds));
    let mut i: usize = 0;
    while i < binds.len()
        invariant
            i <= binds.len(),
            names == bound_names(bindings_of(*binds)),
            forall|j: int| 0 <= j < i ==> names[j] != name@,
        decreases binds.len() - i,
    {
        if binds[i].0 == *name {
            assert(names[i as int] == name@);
            return true;
        }
        i = i + 1;
    }
    false
}

/// The unary operator that `name` denotes.
fn unary_operator(name: &str) -> (r: Option<Op1>)
    ensures
        r == unary_op(name@),
{
    if same_text(name, "add1") {
        Some(Op1::Add1)
    } else if same_text(name, "sub1") {
        Some(Op1::Sub1)
    } else if same_text(name, "isnum") {
        Some(Op1::IsNum)
    } else if same_text(name, "isbool") {
        Some(Op1::IsBool)
    } else if same_text(name, "print") {
        Some(Op1::Print)
    } else {
        None
    }
}

/// The binary operator that `name` denotes.
fn binary_operator(name: &str) -> (r: Option<Op2>)
    ensures
        r == binary_op(name@),
{
    if same_text(name, "+") {
        Some(Op2::Plus)
    } else if same_text(name, "-") {
        Some(Op2::Minus)
    } else if same_text(name, "*") {
        Some(Op2::Times)
    } else if same_text(name, "<") {
        Some(Op2::Lt)
    } else if same_text(name, ">") {
        Some(Op2::Gt)
    } else if same_text(name, "<=") {
        Some(Op2::Lte)
    } else if same_text(name, ">=") {
        Some(Op2::Gte)
    } else if same_text(name, "=") {
        Some(Op2::Equal)
    } else {
        None
    }
}

/// Parses a tree into an expression, where `fmap` holds the names of the
/// program's functions.
pub fn parse_expr(s: &Tree, fmap: &Vec<String>) -> (r: Result<Expr, ParseError>)
    ensures
        parsed(r, parsed_expr(s@, names_of(fmap@))),
    decreases s, 2nat,
{
    match s {
        Tree::Atom(val) => {
            match val {
                Token::Integer(n) => {
                    if *n > LIM - 1 || *n < -LIM {
                        Err(ParseError::Invalid)
                    } else {
                        Ok(Expr::Number(*n))
                    }
                },
                Token::Symbol(v) => {
                    if same_text(v.as_str(), "true") {
                        Ok(Expr::Boolean(true))
                    } else if same_text(v.as_str(), "false") {
                        Ok(Expr::Boolean(false))
                    } else if is_reserved(v.as_str()) && !same_text(v.as_str(), "input") {
                        Err(ParseError::IdentifierKeyword)
                    } else if !is_valid_identifier(v.as_str()) {
                        Err(ParseError::IdentifierNaming)
                    } else {
                        Ok(Expr::Id(v.clone()))
                    }
                },
                Token::Float => Err(ParseError::Invalid),
            }
        },
        Tree::List(vec) => parse_form(vec, fmap, Ghost(s)),
    }
}

/// Parses a list into the expression of the form that its head selects.
fn parse_form(vec: &Vec<Tree>, fmap: &Vec<String>, Ghost(s): Ghost<&Tree>) -> (r: Result<
    Expr,
    ParseError,
>)
    requires
        s matches Tree::List(v) && v == vec,
    ensures
        parsed(r, parsed_expr(s@, names_of(fmap@))),
    decreases s, 1nat,
{
    let n = vec.len();
    let ghost items = trees_of(*vec);
    assert(items.len() == n);
    assert(forall|k: int| 0 <= k < n ==> items[k] == #[trigger] vec[k]@);
    if n == 0 {
        return Err(ParseError::Invalid);
    }
    let head = match symbol_of(&vec[0]) {
        None => {
            return Err(ParseError::Invalid);
        },
        Some(head) => head,
    };
    if n == 2 && same_text(head.as_str(), "loop") {
        match parse_expr(&vec[1], fmap) {
            Err(x) => Err(x),
            Ok(e) => Ok(Expr::Loop(Box::new(e))),
        }
    } else if n == 2 && same_text(head.as_str(), "break") {
        match parse_expr(&vec[1], fmap) {
            Err(x) => Err(x),
            Ok(e) => Ok(Expr::Break(Box::new(e))),
        }
    } else if same_text(head.as_str(), "block") {
        if n == 1 {
            Err(ParseError::Invalid)
        } else {
            match parse_exprs(vec, fmap) {
                Err(x) => Err(x),
                Ok(exprs) => Ok(Expr::Block(exprs)),
            }
        }
    } else if n == 3 && same_text(head.as_str(), "let") && is_list(&vec[1]) {
        parse_let(vec, fmap, Ghost(s))
    } else if n == 4 && same_text(head.as_str(), "if") {
        let cond = match parse_expr(&vec[1], fmap) {
            Err(x) => {
                return Err(x);
            },
            Ok(e) => e,
        };
        let taken = match parse_expr(&vec[2], fmap) {
            Err(x) => {
                return Err(x);
            },
            Ok(e) => e,
        };
        match parse_expr(&vec[3], fmap) {
            Err(x) => Err(x),
            Ok(otherwise) => Ok(Expr::If(Box::new(cond), Box::new(taken), Box::new(otherwise))),
        }
    } else if n == 3 && same_text(head.as_str(), "set!") && symbol_of(&vec[1]).is_some() {
        let var = symbol_of(&vec[1]).unwrap();
        if is_reserved(var.as_str()) {
            Err(ParseError::IdentifierKeyword)
        } else if !is_valid_identifier(var.as_str()) {
            Err(ParseError::IdentifierNaming)
        } else {
            match parse_expr(&vec[2], fmap) {
                Err(x) => Err(x),
                Ok(e) => Ok(Expr::Assign(var.clone(), Box::new(e))),
            }
        }
    } else if has_name(fmap, head) {
        match parse_exprs(vec, fmap) {
            Err(x) => Err(x),
            Ok(exprs) => Ok(Expr::Call(head.clone(), exprs)),
        }
    } else if n == 2 {
        match unary_operator(head.as_str()) {
            None => Err(ParseError::Invalid),
            Some(op) => match parse_expr(&vec[1], fmap) {
                Err(x) => Err(x),
                Ok(e) => Ok(Expr::UnOp(op, Box::new(e))),
            },
        }
    } else if n == 3 {
        match binary_operator(head.as_str()) {
            None => Err(ParseError::Invalid),
            Some(op) => {
                let left = match parse_expr(&vec[1], fmap) {
                    Err(x) => {
                        return Err(x);
                    },
                    Ok(e) => e,
                };
                match parse_expr(&vec[2], fmap) {
                    Err(x) => Err(x),
                    Ok(right) => Ok(Expr::BinOp(op, Box::new(left), Box::new(right))),
                }
            },
        }
    } else {
        Err(ParseError::Invalid)
    }
}

/// Whether `s` is a list.
fn is_list(s: &Tree) -> (r: bool)
    ensures
        r == (s@ is List),
{
    match s {
        Tree::List(_) => true,
        _ => false,
    }
}

/// Parses the operands of a list: all its elements but the head.
fn parse_exprs(vec: &Vec<Tree>, fmap: &Vec<String>) -> (r: Result<Vec<Expr>, ParseError>)
    requires
        vec.len() >= 1,
    ensures
        match r {
            Ok(es) => parsed_exprs(trees_of(*vec), 1, Seq::empty(), names_of(fmap@)) == Ok::<
                Seq<SpecExpr>,
                ParseError,
            >(exprs_of(es)),
            Err(x) => parsed_exprs(trees_of(*vec), 1, Seq::empty(), names_of(fmap@)) == Err::<
                Seq<SpecExpr>,
                ParseError,
            >(x),
        },
    decreases vec,
{
    let mut exprs: Vec<Expr> = Vec::new();
    let ghost items = trees_of(*vec);
    let ghost fns = names_of(fmap@);
    let ghost whole = parsed_exprs(items, 1, Seq::empty(), fns);
    let mut i: usize = 1;
    assert(exprs_of(exprs) =~= Seq::<SpecExpr>::empty());
    while i < vec.len()
        invariant
            1 <= i <= vec.len(),
            items == trees_of(*vec),
            fns == names_of(fmap@),
            whole == parsed_exprs(items, 1, Seq::empty(), fns),
            whole == parsed_exprs(items, i as int, exprs_of(exprs), fns),
        decreases vec.len() - i,
    {
        assert(items[i as int] == vec[i as int]@);
        let ghost before = exprs_of(exprs);
        match parse_expr(&vec[i], fmap) {
            Err(x) => {
                return Err(x);
            },
            Ok(e) => {
                exprs.push(e);
                assert(exprs_of(exprs) =~= before.push(e@));
            },
        }
        i = i + 1;
    }
    Ok(exprs)
}

/// Parses a `let`: its bindings, of which there must be one at least, and
/// its body.
fn parse_let(vec: &Vec<Tree>, fmap: &Vec<String>, Ghost(s): Ghost<&Tree>) -> (r: Result<
    Expr,
    ParseError,
>)
    requires
        s matches Tree::List(v) && v == vec,
        vec.len() == 3,
        vec[1]@ is List,
    ensures
        parsed(r, parsed_let(s@, names_of(fmap@))),
    decreases s, 0nat,
{
    let ghost items = trees_of(*vec);
    assert(forall|k: int| 0 <= k < 3 ==> items[k] == #[trigger] vec[k]@);
    match &vec[1] {
        Tree::List(bindings) => {
            let binds = match parse_bindings(bindings, fmap) {
                Err(x) => {
                    return Err(x);
                },
                Ok(binds) => binds,
            };
            // A let binds one name at least.
            if binds.len() == 0 {
                return Err(ParseError::Invalid);
            }
            match parse_expr(&vec[2], fmap) {
                Err(x) => Err(x),
                Ok(e) => Ok(Expr::Let(binds, Box::new(e))),
            }
        },
        _ => Err(ParseError::Invalid),
    }
}

/// Parses the bindings of a `let`, in order.
fn parse_bindings(bs: &Vec<Tree>, fmap: &Vec<String>) -> (r: Result<
    Vec<(String, Expr)>,
    ParseError,
>)
    ensures
        match r {
            Ok(binds) => parsed_bindings(trees_of(*bs), 0, Seq::empty(), names_of(fmap@)) == Ok::<
                Seq<(Seq<char>, SpecExpr)>,
                ParseError,
            >(bindings_of(binds)),
            Err(x) => parsed_bindings(trees_of(*bs), 0, Seq::empty(), names_of(fmap@)) == Err::<
                Seq<(Seq<char>, SpecExpr)>,
                ParseError,
            >(x),
        },
    decreases bs,
{
    let mut binds: Vec<(String, Expr)> = Vec::new();
    let ghost items = trees_of(*bs);
    let ghost fns = names_of(fmap@);
    let ghost whole = parsed_bindings(items, 0, Seq::empty(), fns);
    let mut i: usize = 0;
    assert(bindings_of(binds) =~= Seq::<(Seq<char>, SpecExpr)>::empty());
    while i < bs.len()
        invariant
            i <= bs.len(),
            items == trees_of(*bs),
            fns == names_of(fmap@),
            whole == parsed_bindings(items, 0, Seq::empty(), fns),
            whole == parsed_bindings(items, i as int, bindings_of(binds), fns),
        decreases bs.len() - i,
    {
        assert(items[i as int] == bs[i as int]@);
        let ghost before = bindings_of(binds);
        let (id, expr) = match parse_bind(&bs[i], fmap) {
            Err(x) => {
                return Err(x);
            },
            Ok(bind) => bind,
        };
        if is_reserved(id.as_str()) {
            return Err(ParseError::IdentifierKeyword);
        }
        if !is_valid_identifier(id.as_str()) {
            return Err(ParseError::IdentifierNaming);
        }
        if is_bound(&binds, &id) {
            return Err(ParseError::DuplicateBinding);
        }
        let ghost bind = (id@, expr@);
        binds.push((id, expr));
        assert(bindings_of(binds) =~= before.push(bind));
        i = i + 1;
    }
    Ok(binds)
}

/// Parses one binding of a `let`.
fn parse_bind(s: &Tree, fmap: &Vec<String>) -> (r: Result<(String, Expr), ParseError>)
    ensures
        match r {
            Ok((name, e)) => parsed_binding(s@, names_of(fmap@)) == Ok::<
                (Seq<char>, SpecExpr),
                ParseError,
            >((name@, e@)),
            Err(x) => parsed_binding(s@, names_of(fmap@)) == Err::<
                (Seq<char>, SpecExpr),
                ParseError,
            >(x),
        },
    decreases s, 1nat,
{
    match s {
        Tree::List(vec) => {
            let ghost items = trees_of(*vec);
            assert(items.len() == vec.len());
            if vec.len() != 2 {
                return Err(ParseError::Invalid);
            }
            assert(items[0] == vec[0]@);
                match symbol_of(&vec[0]) {
                None => Err(ParseError::Invalid),
                Some(var) => match parse_expr(&vec[1], fmap) {
                    Err(x) => Err(x),
                    Ok(e) => Ok((var.clone(), e)),
                },
            }
        },
        _ => Err(ParseError::Invalid),
    }
}

/// The parameter list and the body of a definition, where `s` has the
/// outline of one.
fn outline(s: &Tree) -> (r: Option<(&Vec<Tree>, &Tree)>)
    ensures
        match r {
            Some((decl, body)) => defn_outline(s@) && s@->List_0[1]->List_0 == trees_of(*decl)
                && s@->List_0[2] == body@,
            None => !defn_outline(s@),
        },
{
    match s {
        Tree::List(vec) => {
            let ghost items = trees_of(*vec);
            assert(items.len() == vec.len());
            assert(forall|k: int| 0 <= k < vec.len() ==> items[k] == #[trigger] vec[k]@);
            if vec.len() != 3 {
                return None;
            }
            match symbol_of(&vec[0]) {
                None => None,
                Some(fun_word) => {
                    if !same_text(fun_word.as_str(), "fun") {
                        return None;
                    }
                    match &vec[1] {
                        Tree::List(decl) => Some((decl, &vec[2])),
                        _ => None,
                    }
                },
            }
        },
        _ => None,
    }
}

/// Parses out the name of the function that a tree defines.
pub fn parse_defn_name(s: &Tree) -> (r: Result<String, ParseError>)
    ensures
        match r {
            Ok(name) => defn_name(s@) == Ok::<Seq<char>, ParseError>(name@),
            Err(x) => defn_name(s@) == Err::<Seq<char>, ParseError>(x),
        },
{
    match outline(s) {
        None => Err(ParseError::Invalid),
        Some((decl, _)) => {
            assert(trees_of(*decl).len() == decl.len());
            if decl.len() == 0 {
                return Err(ParseError::Invalid);
            }
            assert(trees_of(*decl)[0] == decl[0]@);
            match symbol_of(&decl[0]) {
                None => Err(ParseError::Invalid),
                Some(name) => Ok(name.clone()),
            }
        },
    }
}

/// Parses a function definition, where `fmap` holds the names of the
/// program's functions.
#[verifier::loop_isolation(false)]
pub fn parse_defn(s: &Tree, fmap: &Vec<String>) -> (r: Result<Function, ParseError>)
    ensures
        match r {
            Ok(f) => parsed_defn(s@, names_of(fmap@)) == Ok::<SpecFunction, ParseError>(f@),
            Err(x) => parsed_defn(s@, names_of(fmap@)) == Err::<SpecFunction, ParseError>(x),
        },
{
    let (decl, body) = match outline(s) {
        None => {
            return Err(ParseError::Invalid);
        },
        Some(parts) => parts,
    };
    let fbody = match parse_expr(body, fmap) {
        Err(x) => {
            return Err(x);
        },
        Ok(e) => e,
    };
    let ghost items = trees_of(*decl);
    assert(items.len() == decl.len());
    if decl.len() == 0 {
        return Err(ParseError::Invalid);
    }
    assert(items[0] == decl[0]@);
    let fname = match symbol_of(&decl[0]) {
        None => {
            return Err(ParseError::Invalid);
        },
        Some(name) => name.clone(),
    };

    let mut fargs: Vec<String> = Vec::new();
    let ghost whole = parsed_params(items, 1, Seq::empty());
    let mut i: usize = 1;
    assert(names_of(fargs@) =~= Seq::<Seq<char>>::empty());
    while i < decl.len()
        invariant
            1 <= i <= decl.len(),
            items == trees_of(*decl),
            whole == parsed_params(items, 1, Seq::empty()),
            whole == parsed_params(items, i as int, names_of(fargs@)),
        decreases decl.len() - i,
    {
        assert(items[i as int] == decl[i as int]@);
        let ghost before = names_of(fargs@);
        match symbol_of(&decl[i]) {
            None => {
                return Err(ParseError::Invalid);
            },
            Some(arg) => {
                if is_reserved(arg.as_str()) {
                    return Err(ParseError::FunctionKeyword);
                }
                if !is_valid_identifier(arg.as_str()) {
                    return Err(ParseError::ArgumentNaming);
                }
                if has_name(&fargs, arg) {
                    return Err(ParseError::DuplicateParameter);
                }
                fargs.push(arg.clone());
                assert(names_of(fargs@) =~= before.push(arg@));
            },
        }
        i = i + 1;
    }

    Ok(Function { name: fname, args: fargs, body: fbody })
}

/// Parses the tree of a whole program: its definitions and, last, its main
/// expression.
#[verifier::loop_isolation(false)]
pub fn parse_program(sexps: Tree) -> (r: Result<Program, ParseError>)
    ensures
        match r {
            Ok(p) => parsed_program(sexps@) == Ok::<SpecProgram, ParseError>(p@),
            Err(x) => parsed_program(sexps@) == Err::<SpecProgram, ParseError>(x),
        },
{
    let vec = match &sexps {
        Tree::List(vec) => vec,
        _ => {
            return Err(ParseError::NotAList);
        },
    };
    let ghost items = trees_of(*vec);
    assert(items.len() == vec.len());
    // A program without any contents is invalid.
    if vec.len() == 0 {
        return Err(ParseError::Invalid);
    }
    let last = vec.len() - 1;

    // The names of the functions, before any body is read.
    let mut fnames: Vec<String> = Vec::new();
    let ghost all_names = function_names(items, 0, Seq::empty());
    let mut i: usize = 0;
    assert(names_of(fnames@) =~= Seq::<Seq<char>>::empty());
    while i < last
        invariant
            i <= last,
            last == vec.len() - 1,
            items == trees_of(*vec),
            all_names == function_names(items, 0, Seq::empty()),
            all_names == function_names(items, i as int, names_of(fnames@)),
        decreases last - i,
    {
        assert(items[i as int] == vec[i as int]@);
        let ghost before = names_of(fnames@);
        let fname = match parse_defn_name(&vec[i]) {
            Err(x) => {
                return Err(x);
            },
            Ok(name) => name,
        };
        if is_reserved(fname.as_str()) {
            return Err(ParseError::FunctionKeyword);
        }
        if !is_valid_identifier(fname.as_str()) {
            return Err(ParseError::FunctionNaming);
        }
        if has_name(&fnames, &fname) {
            return Err(ParseError::DuplicateFunction);
        }
        let ghost name = fname@;
        fnames.push(fname);
        assert(names_of(fnames@) =~= before.push(name));
        i = i + 1;
    }
    let ghost fns = names_of(fnames@);

    // The definitions.
    let mut defns: Vec<Function> = Vec::new();
    let ghost all_defns = parsed_defns(items, 0, Seq::empty(), fns);
    let mut i: usize = 0;
    assert(functions_of(defns@) =~= Seq::<SpecFunction>::empty());
    while i < last
        invariant
            i <= last,
            last == vec.len() - 1,
            items == trees_of(*vec),
            fns == names_of(fnames@),
            all_defns == parsed_defns(items, 0, Seq::empty(), fns),
            all_defns == parsed_defns(items, i as int, functions_of(defns@), fns),
        decreases last - i,
    {
        assert(items[i as int] == vec[i as int]@);
        let ghost before = functions_of(defns@);
        match parse_defn(&vec[i], &fnames) {
            Err(x) => {
                return Err(x);
            },
            Ok(f) => {
                let ghost model = f@;
                defns.push(f);
                assert(functions_of(defns@) =~= before.push(model));
            },
        }
        i = i + 1;
    }

    // The main expression.
    assert(items.last() == vec[last as int]@);
    match parse_expr(&vec[last], &fnames) {
        Err(x) => Err(x),
        Ok(main) => Ok(Program { defns: defns, main: main }),
    }
}

} // verus!
