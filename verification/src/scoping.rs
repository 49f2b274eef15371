//! The static rules of the language, stated on the expression tree alone,
//! and the proof that the compiler enforces them: an expression that
//! breaks one is never lowered.

use crate::lowering::{arities, call_pad, lower, lower_arguments, lower_bindings, lower_block,
    lower_elements, lower_function, lower_functions, lower_program, main_scope, parameters,
    slot_loc};
use crate::types::{Scope, SpecExpr, SpecFunction, SpecProgram};
use vstd::prelude::*;

verus! {

/// Whether `e` breaks a static rule, where the names in `bound` are those
/// of the variables in scope, `arity` gives the number of parameters of
/// each function, `in_func` says whether `e` stands in a function body and
/// `in_loop` whether it stands in a loop.
///
/// The rules: `input` is not read in a function body; any other variable
/// that is read or assigned is in scope; a `break` stands in a loop; a call
/// names a function of the program and passes as many arguments as that
/// function has parameters. A `let` brings its names into scope one by
/// one, each for the bindings behind it and for the body, and for nothing
/// else.
pub open spec fn faulty(
    e: SpecExpr,
    bound: Set<Seq<char>>,
    arity: Map<Seq<char>, i32>,
    in_func: bool,
    in_loop: bool,
) -> bool
    decreases e,
{
    match e {
        SpecExpr::Number(_) => false,
        SpecExpr::Boolean(_) => false,
        SpecExpr::Tuple(es) => any_faulty(es, bound, arity, in_func, in_loop),
        SpecExpr::Id(name) => if name == "input"@ {
            in_func
        } else {
            !bound.contains(name)
        },
        SpecExpr::Let(binds, body) => faulty_bindings(binds, bound, arity, in_func, in_loop)
            || faulty(*body, bound_after(binds, bound), arity, in_func, in_loop),
        SpecExpr::UnOp(_, operand) => faulty(*operand, bound, arity, in_func, in_loop),
        SpecExpr::BinOp(_, left, right) => faulty(*left, bound, arity, in_func, in_loop) || faulty(
            *right,
            bound,
            arity,
            in_func,
            in_loop,
        ),
        SpecExpr::If(cond, taken, otherwise) => faulty(*cond, bound, arity, in_func, in_loop)
            || faulty(*taken, bound, arity, in_func, in_loop) || faulty(
            *otherwise,
            bound,
            arity,
            in_func,
            in_loop,
        ),
        SpecExpr::Loop(body) => faulty(*body, bound, arity, in_func, true),
        SpecExpr::Break(value) => !in_loop || faulty(*value, bound, arity, in_func, in_loop),
        SpecExpr::Assign(name, value) => !bound.contains(name) || faulty(
            *value,
            bound,
            arity,
            in_func,
            in_loop,
        ),
        SpecExpr::TSet(tuple, index, value) => faulty(*tuple, bound, arity, in_func, in_loop)
            || faulty(*index, bound, arity, in_func, in_loop) || faulty(
            *value,
            bound,
            arity,
            in_func,
            in_loop,
        ),
        SpecExpr::TGet(tuple, index) => faulty(*tuple, bound, arity, in_func, in_loop) || faulty(
            *index,
            bound,
            arity,
            in_func,
            in_loop,
        ),
        SpecExpr::Block(es) => any_faulty(es, bound, arity, in_func, in_loop),
        SpecExpr::Call(name, args) => !arity.contains_key(name) || arity[name] != args.len()
            || any_faulty(args, bound, arity, in_func, in_loop),
    }
}

/// Whether one of the expressions `es` breaks a static rule.
pub open spec fn any_faulty(
    es: Seq<SpecExpr>,
    bound: Set<Seq<char>>,
    arity: Map<Seq<char>, i32>,
    in_func: bool,
    in_loop: bool,
) -> bool
    decreases es,
{
    exists|i: int| 0 <= i < es.len() && faulty(#[trigger] es[i], bound, arity, in_func, in_loop)
}

/// Whether the expression of one of the bindings `binds` breaks a static
/// rule, each read with the names of the bindings before it in scope.
pub open spec fn faulty_bindings(
    binds: Seq<(Seq<char>, SpecExpr)>,
    bound: Set<Seq<char>>,
    arity: Map<Seq<char>, i32>,
    in_func: bool,
    in_loop: bool,
) -> bool
    decreases binds,
{
    if binds.len() == 0 {
        false
    } else {
        faulty(binds[0].1, bound, arity, in_func, in_loop) || faulty_bindings(
            binds.drop_first(),
            bound.insert(binds[0].0),
            arity,
            in_func,
            in_loop,
        )
    }
}

/// The names in scope behind the bindings `binds`.
pub open spec fn bound_after(binds: Seq<(Seq<char>, SpecExpr)>, bound: Set<Seq<char>>) -> Set<
    Seq<char>,
>
    decreases binds.len(),
{
    if binds.len() == 0 {
        bound
    } else {
        bound_after(binds.drop_first(), bound.insert(binds[0].0))
    }
}

/// Whether `e`, standing at the point that `c` describes, breaks a static
/// rule.
pub open spec fn faulty_in(e: SpecExpr, c: Scope) -> bool {
    faulty(e, c.env.dom(), c.arity, c.in_func, c.loop_num > 0)
}

/// What breaks a static rule in a loop breaks one outside every loop too:
/// a loop only allows more.
proof fn lemma_outside_loop(
    e: SpecExpr,
    bound: Set<Seq<char>>,
    arity: Map<Seq<char>, i32>,
    in_func: bool,
)
    ensures
        faulty(e, bound, arity, in_func, true) ==> faulty(e, bound, arity, in_func, false),
    decreases e, 1nat,
{
    match e {
        SpecExpr::Tuple(es) | SpecExpr::Block(es) => {
            lemma_any_outside_loop(es, bound, arity, in_func);
        },
        SpecExpr::Let(binds, body) => {
            lemma_bindings_outside_loop(binds, bound, arity, in_func);
            lemma_outside_loop(*body, bound_after(binds, bound), arity, in_func);
        },
        SpecExpr::UnOp(_, operand) => {
            lemma_outside_loop(*operand, bound, arity, in_func);
        },
        SpecExpr::BinOp(_, left, right) => {
            lemma_outside_loop(*left, bound, arity, in_func);
            lemma_outside_loop(*right, bound, arity, in_func);
        },
        SpecExpr::If(cond, taken, otherwise) => {
            lemma_outside_loop(*cond, bound, arity, in_func);
            lemma_outside_loop(*taken, bound, arity, in_func);
            lemma_outside_loop(*otherwise, bound, arity, in_func);
        },
        SpecExpr::Assign(_, value) => {
            lemma_outside_loop(*value, bound, arity, in_func);
        },
        SpecExpr::TSet(tuple, index, value) => {
            lemma_outside_loop(*tuple, bound, arity, in_func);
            lemma_outside_loop(*index, bound, arity, in_func);
            lemma_outside_loop(*value, bound, arity, in_func);
        },
        SpecExpr::TGet(tuple, index) => {
            lemma_outside_loop(*tuple, bound, arity, in_func);
            lemma_outside_loop(*index, bound, arity, in_func);
        },
        SpecExpr::Call(_, args) => {
            lemma_any_outside_loop(args, bound, arity, in_func);
        },
        _ => {},
    }
}

/// The same of a list of expressions.
proof fn lemma_any_outside_loop(
    es: Seq<SpecExpr>,
    bound: Set<Seq<char>>,
    arity: Map<Seq<char>, i32>,
    in_func: bool,
)
    ensures
        any_faulty(es, bound, arity, in_func, true) ==> any_faulty(es, bound, arity, in_func, false),
    decreases es, 0nat,
{
    if any_faulty(es, bound, arity, in_func, true) {
        let i = choose|i: int|
            0 <= i < es.len() && faulty(#[trigger] es[i], bound, arity, in_func, true);
        lemma_outside_loop(es[i], bound, arity, in_func);
    }
}

/// The same of the bindings of a `let`.
proof fn lemma_bindings_outside_loop(
    binds: Seq<(Seq<char>, SpecExpr)>,
    bound: Set<Seq<char>>,
    arity: Map<Seq<char>, i32>,
    in_func: bool,
)
    ensures
        faulty_bindings(binds, bound, arity, in_func, true) ==> faulty_bindings(
            binds,
            bound,
            arity,
            in_func,
            false,
        ),
    decreases binds, 0nat,
{
    if binds.len() > 0 {
        lemma_outside_loop(binds[0].1, bound, arity, in_func);
        lemma_bindings_outside_loop(binds.drop_first(), bound.insert(binds[0].0), arity, in_func);
    }
}

/// Lowering never takes the label counter back, and it fails on an
/// expression that breaks a static rule.
proof fn lemma_lower(e: SpecExpr, c: Scope, lbl: int)
    ensures
        lower(e, c, lbl) matches Ok(l) ==> l.next >= lbl,
        faulty_in(e, c) ==> lower(e, c, lbl) is Err,
    decreases e,
{
    match e {
        SpecExpr::Number(_) => {},
        SpecExpr::Boolean(_) => {},
        SpecExpr::Tuple(es) => {
            lemma_elements(es, c, 0, lbl);
        },
        SpecExpr::Id(_) => {},
        SpecExpr::Let(binds, body) => {
            lemma_bindings(binds, c, lbl);
            if let Ok(b) = lower_bindings(binds, c, lbl) {
                lemma_lower(*body, Scope { si: b.si, env: b.env, ..c }, b.next);
            }
        },
        SpecExpr::UnOp(_, operand) => {
            lemma_lower(*operand, c, lbl);
        },
        SpecExpr::BinOp(_, left, right) => {
            lemma_lower(*right, c, lbl);
            if let Ok(r) = lower(*right, c, lbl) {
                lemma_lower(*left, Scope { si: c.si + 1, ..c }, r.next);
            }
        },
        SpecExpr::If(cond, taken, otherwise) => {
            lemma_lower(*cond, c, lbl + 1);
            if let Ok(a) = lower(*cond, c, lbl + 1) {
                lemma_lower(*taken, c, a.next);
                if let Ok(b) = lower(*taken, c, a.next) {
                    lemma_lower(*otherwise, c, b.next);
                }
            }
        },
        SpecExpr::Loop(body) => {
            if lbl <= 0 {
                lemma_outside_loop(*body, c.env.dom(), c.arity, c.in_func);
            }
            lemma_lower(*body, Scope { loop_num: lbl, ..c }, lbl + 1);
        },
        SpecExpr::Break(value) => {
            lemma_lower(*value, c, lbl);
        },
        SpecExpr::Assign(_, value) => {
            lemma_lower(*value, c, lbl);
        },
        SpecExpr::TSet(tuple, index, value) => {
            lemma_lower(*index, c, lbl);
            if let Ok(i) = lower(*index, c, lbl) {
                lemma_lower(*value, Scope { si: c.si + 1, ..c }, i.next);
                if let Ok(v) = lower(*value, Scope { si: c.si + 1, ..c }, i.next) {
                    lemma_lower(*tuple, Scope { si: c.si + 2, ..c }, v.next);
                }
            }
        },
        SpecExpr::TGet(tuple, index) => {
            lemma_lower(*index, c, lbl);
            if let Ok(i) = lower(*index, c, lbl) {
                lemma_lower(*tuple, Scope { si: c.si + 1, ..c }, i.next);
            }
        },
        SpecExpr::Block(es) => {
            lemma_block(es, c, lbl);
        },
        SpecExpr::Call(_, args) => {
            let first = c.si + call_pad(c.si, args.len() as int);
            lemma_arguments(args, c, first, first + args.len(), lbl);
        },
    }
}

/// The same of the expressions of a block.
proof fn lemma_block(es: Seq<SpecExpr>, c: Scope, lbl: int)
    ensures
        lower_block(es, c, lbl) matches Ok(l) ==> l.next >= lbl,
        any_faulty(es, c.env.dom(), c.arity, c.in_func, c.loop_num > 0)
            ==> lower_block(es, c, lbl) is Err,
    decreases es,
{
    if es.len() > 0 {
        lemma_lower(es[0], c, lbl);
        if let Ok(first) = lower(es[0], c, lbl) {
            lemma_block(es.drop_first(), c, first.next);
            if any_faulty(es, c.env.dom(), c.arity, c.in_func, c.loop_num > 0) {
                let i = choose|i: int|
                    0 <= i < es.len() && faulty(
                        #[trigger] es[i],
                        c.env.dom(),
                        c.arity,
                        c.in_func,
                        c.loop_num > 0,
                    );
                assert(i > 0);
                assert(es.drop_first()[i - 1] == es[i]);
            }
        }
    }
}

/// The same of the elements of a tuple.
proof fn lemma_elements(es: Seq<SpecExpr>, c: Scope, index: int, lbl: int)
    ensures
        lower_elements(es, c, index, lbl) matches Ok(l) ==> l.next >= lbl,
        any_faulty(es, c.env.dom(), c.arity, c.in_func, c.loop_num > 0)
            ==> lower_elements(es, c, index, lbl) is Err,
    decreases es,
{
    if es.len() > 0 {
        let inner = Scope { si: c.si + 1, ..c };
        lemma_lower(es[0], inner, lbl);
        if let Ok(first) = lower(es[0], inner, lbl) {
            lemma_elements(es.drop_first(), c, index + 1, first.next);
            if any_faulty(es, c.env.dom(), c.arity, c.in_func, c.loop_num > 0) {
                let i = choose|i: int|
                    0 <= i < es.len() && faulty(
                        #[trigger] es[i],
                        c.env.dom(),
                        c.arity,
                        c.in_func,
                        c.loop_num > 0,
                    );
                assert(i > 0);
                assert(es.drop_first()[i - 1] == es[i]);
            }
        }
    }
}

/// The same of the arguments of a call.
proof fn lemma_arguments(args: Seq<SpecExpr>, c: Scope, first: int, above: int, lbl: int)
    ensures
        lower_arguments(args, c, first, above, lbl) matches Ok(l) ==> l.next >= lbl,
        any_faulty(args, c.env.dom(), c.arity, c.in_func, c.loop_num > 0)
            ==> lower_arguments(args, c, first, above, lbl) is Err,
    decreases args,
{
    if args.len() > 0 {
        let inner = Scope { si: above, ..c };
        lemma_lower(args[0], inner, lbl);
        if let Ok(a) = lower(args[0], inner, lbl) {
            lemma_arguments(args.drop_first(), c, first, above, a.next);
            if any_faulty(args, c.env.dom(), c.arity, c.in_func, c.loop_num > 0) {
                let i = choose|i: int|
                    0 <= i < args.len() && faulty(
                        #[trigger] args[i],
                        c.env.dom(),
                        c.arity,
                        c.in_func,
                        c.loop_num > 0,
                    );
                assert(i > 0);
                assert(args.drop_first()[i - 1] == args[i]);
            }
        }
    }
}

/// The same of the bindings of a `let`; and where they are lowered, the
/// names in scope behind them are those that the environment binds.
proof fn lemma_bindings(binds: Seq<(Seq<char>, SpecExpr)>, c: Scope, lbl: int)
    ensures
        lower_bindings(binds, c, lbl) matches Ok(b) ==> b.next >= lbl && b.env.dom()
            == bound_after(binds, c.env.dom()),
        faulty_bindings(binds, c.env.dom(), c.arity, c.in_func, c.loop_num > 0)
            ==> lower_bindings(binds, c, lbl) is Err,
    decreases binds,
{
    if binds.len() > 0 {
        lemma_lower(binds[0].1, c, lbl);
        if let Ok(first) = lower(binds[0].1, c, lbl) {
            let inner = Scope {
                si: c.si + 1,
                env: c.env.insert(binds[0].0, slot_loc(c.si)),
                ..c
            };
            assert(inner.env.dom() =~= c.env.dom().insert(binds[0].0));
            lemma_bindings(binds.drop_first(), inner, first.next);
        }
    }
}

/// An expression that breaks a static rule is not compiled: with labels
/// numbered from 1 or higher, its lowering is an error.
pub proof fn static_fault_is_rejected(e: SpecExpr, c: Scope, lbl: int)
    requires
        faulty_in(e, c),
    ensures
        lower(e, c, lbl) is Err,
{
    lemma_lower(e, c, lbl);
}

/// The label counter never goes back.
pub proof fn labels_only_grow(e: SpecExpr, c: Scope, lbl: int)
    requires
        lower(e, c, lbl) is Ok,
    ensures
        lower(e, c, lbl)->Ok_0.next >= lbl,
{
    lemma_lower(e, c, lbl);
}

/// The names of a list, as a set.
pub open spec fn name_set(names: Seq<Seq<char>>) -> Set<Seq<char>> {
    Set::new(|name: Seq<char>| names.contains(name))
}

/// Whether the body of `f` breaks a static rule, with the parameters of
/// `f` in scope.
pub open spec fn faulty_function(f: SpecFunction, arity: Map<Seq<char>, i32>) -> bool {
    faulty(f.body, name_set(f.args), arity, true, false)
}

/// Whether a body or the main expression of `p` breaks a static rule.
pub open spec fn faulty_program(p: SpecProgram) -> bool {
    ||| exists|i: int|
        0 <= i < p.defns.len() && faulty_function(#[trigger] p.defns[i], arities(p.defns))
    ||| faulty(p.main, Set::empty(), arities(p.defns), false, false)
}

/// The environment of a function body binds the function's parameters and
/// nothing else.
proof fn lemma_parameters(args: Seq<Seq<char>>)
    ensures
        parameters(args).dom() == name_set(args),
    decreases args.len(),
{
    if args.len() == 0 {
        assert(parameters(args).dom() =~= name_set(args));
    } else {
        lemma_parameters(args.drop_last());
        assert forall|name: Seq<char>|
            name_set(args).contains(name) <==> name_set(args.drop_last()).insert(
                args.last(),
            ).contains(name) by {
            if args.contains(name) {
                let i = choose|i: int| 0 <= i < args.len() && args[i] == name;
                if i < args.len() - 1 {
                    assert(args.drop_last()[i] == name);
                }
            }
            if args.drop_last().contains(name) {
                let i = choose|i: int| 0 <= i < args.len() - 1 && args.drop_last()[i] == name;
                assert(args[i] == name);
            }
            if name == args.last() {
                assert(args[args.len() - 1] == name);
            }
        }
        assert(parameters(args).dom() =~= name_set(args));
    }
}

/// Lowering a list of definitions never takes the label counter back, and
/// it fails where a body breaks a static rule.
proof fn lemma_functions(fs: Seq<SpecFunction>, arity: Map<Seq<char>, i32>, lbl: int)
    ensures
        lower_functions(fs, arity, lbl) matches Ok(l) ==> l.next >= lbl,
        (exists|i: int| 0 <= i < fs.len() && faulty_function(#[trigger] fs[i], arity))
            ==> lower_functions(fs, arity, lbl) is Err,
    decreases fs.len(),
{
    if fs.len() > 0 {
        let f = fs[0];
        let c = Scope { si: 1, env: parameters(f.args), loop_num: 0, arity: arity, in_func: true };
        lemma_parameters(f.args);
        lemma_lower(f.body, c, lbl);
        if let Ok(first) = lower_function(f, arity, lbl) {
            lemma_functions(fs.drop_first(), arity, first.next);
            if (exists|i: int|
                0 <= i < fs.len() && faulty_function(#[trigger] fs[i], arity)) {
                let i = choose|i: int|
                    0 <= i < fs.len() && faulty_function(#[trigger] fs[i], arity);
                assert(i > 0);
                assert(fs.drop_first()[i - 1] == fs[i]);
            }
        }
    }
}

/// A program of which a function body or the main expression breaks a
/// static rule is not compiled.
pub proof fn faulty_program_is_rejected(p: SpecProgram)
    requires
        faulty_program(p),
    ensures
        lower_program(p) is Err,
{
    let arity = arities(p.defns);
    lemma_functions(p.defns, arity, 1);
    if let Ok(fs) = lower_functions(p.defns, arity, 1) {
        assert(main_scope(arity).env.dom() =~= Set::<Seq<char>>::empty());
        lemma_lower(p.main, main_scope(arity), fs.next);
    }
}

} // verus!
