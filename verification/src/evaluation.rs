//! What expressions mean where variables change, loops repeat and
//! functions call each other: the evaluation of the expressions that are
//! made of literals, the input, variables, `let`, `set!`, `if`, `loop`,
//! `break`, blocks, calls and the operators but `print`.
//!
//! A loop may go on for ever, and so may a function that calls itself. The
//! evaluation therefore counts the rounds of loops and the calls that it
//! may still begin, and says nothing where they run out.

use crate::behaviour::{arithmetic, comparison, is_integer};
use crate::lowering::bool_value;
use crate::runtime::{untagged, word_of};
use crate::types::{Op1, Op2, Op2Type, SpecExpr, SpecFunction};
use crate::utils::in_range;
use vstd::prelude::*;

verus! {

/// What an operator comes to.
pub enum Answer {
    /// A value, as its tagged word.
    Value(u64),
    /// A run-time error, as its code.
    Error(u64),
    /// The operator is beyond those whose meaning is given here.
    Beyond,
}

/// What a unary operator makes of a value: `add1` and `sub1` take an
/// integer and give the next and the one before, or an overflow where
/// that is no integer of the language; `isnum` and `isbool` tell whether
/// the value is an integer, and whether it is none.
pub open spec fn unary_meaning(op: Op1, w: u64) -> Answer {
    match op {
        Op1::Add1 | Op1::Sub1 => {
            let r = if op == Op1::Add1 {
                untagged(w) + 1
            } else {
                untagged(w) - 1
            };
            if !is_integer(w) {
                Answer::Error(7)
            } else if !in_range(r) {
                Answer::Error(8)
            } else {
                Answer::Value(word_of(2 * r))
            }
        },
        Op1::IsNum => Answer::Value(word_of(bool_value(is_integer(w)))),
        Op1::IsBool => Answer::Value(word_of(bool_value(!is_integer(w)))),
        Op1::Print => Answer::Beyond,
    }
}

/// What a binary operator makes of two values: the arithmetic operators
/// and the comparisons take two integers; `=` takes two integers or two
/// values that are none, and tells whether they are the same. Arithmetic
/// gives an overflow where the result is no integer of the language.
pub open spec fn binary_meaning(op: Op2, left: u64, right: u64) -> Answer {
    if op.kind() == Op2Type::Equality {
        if is_integer(left) != is_integer(right) {
            Answer::Error(7)
        } else {
            Answer::Value(word_of(bool_value(left == right)))
        }
    } else if !is_integer(left) || !is_integer(right) {
        Answer::Error(7)
    } else if op.kind() == Op2Type::Relational {
        Answer::Value(word_of(bool_value(comparison(op, untagged(left), untagged(right)))))
    } else {
        let r = arithmetic(op, untagged(left), untagged(right));
        if !in_range(r) {
            Answer::Error(8)
        } else {
            Answer::Value(word_of(2 * r))
        }
    }
}

/// How an evaluation ends.
pub enum Outcome {
    /// With a value, as its tagged word.
    Value(u64),
    /// With a run-time error, as its code.
    Error(u64),
    /// With a `break` that leaves the innermost loop with a value.
    Break(u64),
    /// Beyond what is said here: the rounds ran out, or the expression is
    /// none of those whose meaning is given.
    Beyond,
}

/// The end of an evaluation: how it ended, and the values of the variables
/// then.
pub struct Ended {
    pub out: Outcome,
    pub vars: Map<Seq<char>, u64>,
}

/// The outcome of an operator.
pub open spec fn answered(a: Answer) -> Outcome {
    match a {
        Answer::Value(w) => Outcome::Value(w),
        Answer::Error(code) => Outcome::Error(code),
        Answer::Beyond => Outcome::Beyond,
    }
}

/// The variables behind the scope of a binding of `name`: the name means
/// again what it meant before the binding, if anything.
pub open spec fn unshadow(
    after: Map<Seq<char>, u64>,
    before: Map<Seq<char>, u64>,
    name: Seq<char>,
) -> Map<Seq<char>, u64> {
    if before.contains_key(name) {
        after.insert(name, before[name])
    } else {
        after.remove(name)
    }
}

/// How the evaluation of the arguments of a call ends: with their values
/// in the order of the arguments, or as the first of them ended that came
/// to no value; and the values of the variables then.
pub struct Passed {
    pub out: Result<Seq<u64>, Outcome>,
    pub vars: Map<Seq<char>, u64>,
}

/// The index of the first function of the name `name`, if there is one.
pub open spec fn found(fns: Seq<SpecFunction>, name: Seq<char>) -> Option<int>
    decreases fns.len(),
{
    if fns.len() == 0 {
        None
    } else if found(fns.drop_last(), name) is Some {
        found(fns.drop_last(), name)
    } else if fns.last().name == name {
        Some(fns.len() - 1)
    } else {
        None
    }
}

/// The variables of a function body: each parameter with the value of its
/// argument. Where a name occurs twice, the later parameter has it.
pub open spec fn passed(names: Seq<Seq<char>>, values: Seq<u64>) -> Map<Seq<char>, u64>
    decreases names.len(),
{
    if names.len() == 0 || values.len() != names.len() {
        Map::empty()
    } else {
        passed(names.drop_last(), values.drop_last()).insert(names.last(), values.last())
    }
}

/// The evaluation of the expression `e`, where `vars` gives the value of
/// each variable in scope, `input` is the program's argument and `fns`
/// are the functions of the program, with at most `rounds` rounds of loops
/// and calls one in the other.
///
/// The right operand of a binary operator is evaluated before the left
/// one. An `if` takes its first branch unless its condition comes to
/// `false`. A `set!` gives the variable the value, which is also its own.
/// A loop repeats its body until a `break` in it ends the loop with the
/// value of the `break`. A call evaluates its arguments in order, and
/// then the body of the function, in which the parameters are the only
/// variables. The first error, and a `break`, end the evaluation
/// of everything around them up to the loop.
pub open spec fn eval(
    e: SpecExpr,
    vars: Map<Seq<char>, u64>,
    input: u64,
    rounds: nat,
    fns: Seq<SpecFunction>,
) -> Ended
    decreases rounds, e, 1nat, 0nat,
{
    match e {
        SpecExpr::Number(n) => Ended {
            out: if in_range(n) {
                Outcome::Value(word_of(2 * n))
            } else {
                Outcome::Beyond
            },
            vars: vars,
        },
        SpecExpr::Boolean(b) => Ended { out: Outcome::Value(word_of(bool_value(b))), vars: vars },
        SpecExpr::Id(name) => Ended {
            out: if name == "input"@ {
                Outcome::Value(input)
            } else if vars.contains_key(name) {
                Outcome::Value(vars[name])
            } else {
                Outcome::Beyond
            },
            vars: vars,
        },
        SpecExpr::UnOp(op, operand) => {
            let r = eval(*operand, vars, input, rounds, fns);
            match r.out {
                Outcome::Value(w) => Ended { out: answered(unary_meaning(op, w)), vars: r.vars },
                _ => r,
            }
        },
        SpecExpr::BinOp(op, left, right) => {
            let r = eval(*right, vars, input, rounds, fns);
            match r.out {
                Outcome::Value(wr) => {
                    let l = eval(*left, r.vars, input, rounds, fns);
                    match l.out {
                        Outcome::Value(wl) => Ended {
                            out: answered(binary_meaning(op, wl, wr)),
                            vars: l.vars,
                        },
                        _ => l,
                    }
                },
                _ => r,
            }
        },
        SpecExpr::If(cond, first, second) => {
            let r = eval(*cond, vars, input, rounds, fns);
            match r.out {
                Outcome::Value(w) => if w == 3 {
                    eval(*second, r.vars, input, rounds, fns)
                } else {
                    eval(*first, r.vars, input, rounds, fns)
                },
                _ => r,
            }
        },
        SpecExpr::Let(_, _) => eval_let(e, 0, vars, input, rounds, fns),
        SpecExpr::Assign(name, value) => {
            let r = eval(*value, vars, input, rounds, fns);
            match r.out {
                Outcome::Value(w) => if r.vars.contains_key(name) {
                    Ended { out: Outcome::Value(w), vars: r.vars.insert(name, w) }
                } else {
                    Ended { out: Outcome::Beyond, vars: r.vars }
                },
                _ => r,
            }
        },
        SpecExpr::Block(es) => eval_block(es, vars, input, rounds, fns),
        SpecExpr::Loop(body) => if rounds == 0 {
            Ended { out: Outcome::Beyond, vars: vars }
        } else {
            let r = eval(*body, vars, input, (rounds - 1) as nat, fns);
            match r.out {
                Outcome::Value(_) => eval(e, r.vars, input, (rounds - 1) as nat, fns),
                Outcome::Break(w) => Ended { out: Outcome::Value(w), vars: r.vars },
                _ => r,
            }
        },
        SpecExpr::Break(value) => {
            let r = eval(*value, vars, input, rounds, fns);
            match r.out {
                Outcome::Value(w) => Ended { out: Outcome::Break(w), vars: r.vars },
                _ => r,
            }
        },
        SpecExpr::Call(name, args) => {
            let r = eval_arguments(args, vars, input, rounds, fns);
            match r.out {
                Ok(values) => Ended {
                    out: if rounds > 0 && found(fns, name) is Some && fns[found(
                        fns,
                        name,
                    )->0].args.len() == values.len() {
                        let f = fns[found(fns, name)->0];
                        match eval(
                            f.body,
                            passed(f.args, values),
                            input,
                            (rounds - 1) as nat,
                            fns,
                        ).out {
                            Outcome::Break(_) => Outcome::Beyond,
                            other => other,
                        }
                    } else {
                        Outcome::Beyond
                    },
                    vars: r.vars,
                },
                Err(other) => Ended { out: other, vars: r.vars },
            }
        },
        _ => Ended { out: Outcome::Beyond, vars: vars },
    }
}

/// The evaluation of a block: its expressions in order; the value of the
/// last is that of the block.
pub open spec fn eval_block(
    es: Seq<SpecExpr>,
    vars: Map<Seq<char>, u64>,
    input: u64,
    rounds: nat,
    fns: Seq<SpecFunction>,
) -> Ended
    decreases rounds, es, 0nat, 0nat,
{
    if es.len() == 0 {
        Ended { out: Outcome::Beyond, vars: vars }
    } else {
        let r = eval(es[0], vars, input, rounds, fns);
        if es.len() == 1 {
            r
        } else {
            match r.out {
                Outcome::Value(_) => eval_block(es.drop_first(), r.vars, input, rounds, fns),
                _ => r,
            }
        }
    }
}

/// The evaluation of the arguments of a call, in order.
pub open spec fn eval_arguments(
    args: Seq<SpecExpr>,
    vars: Map<Seq<char>, u64>,
    input: u64,
    rounds: nat,
    fns: Seq<SpecFunction>,
) -> Passed
    decreases rounds, args, 0nat, 0nat,
{
    if args.len() == 0 {
        Passed { out: Ok(Seq::empty()), vars: vars }
    } else {
        let r = eval(args[0], vars, input, rounds, fns);
        match r.out {
            Outcome::Value(w) => {
                let rest = eval_arguments(args.drop_first(), r.vars, input, rounds, fns);
                match rest.out {
                    Ok(values) => Passed { out: Ok(seq![w] + values), vars: rest.vars },
                    Err(_) => rest,
                }
            },
            other => Passed { out: Err(other), vars: r.vars },
        }
    }
}

/// The evaluation of the `let` `e` from its binding of index `from` on:
/// the binding is evaluated, then what follows it with its name in scope,
/// and then the name is out of scope again, however the evaluation ended.
/// Behind the last binding follows the body.
pub open spec fn eval_let(
    e: SpecExpr,
    from: int,
    vars: Map<Seq<char>, u64>,
    input: u64,
    rounds: nat,
    fns: Seq<SpecFunction>,
) -> Ended
    decreases rounds, e, 0nat, (if e is Let {
        e->Let_0.len() - from
    } else {
        0
    }),
{
    if !(e is Let) || from < 0 {
        Ended { out: Outcome::Beyond, vars: vars }
    } else if from >= e->Let_0.len() {
        eval(*e->Let_1, vars, input, rounds, fns)
    } else {
        let name = e->Let_0[from].0;
        let r = eval(e->Let_0[from].1, vars, input, rounds, fns);
        match r.out {
            Outcome::Value(w) => {
                let inner = eval_let(e, from + 1, r.vars.insert(name, w), input, rounds, fns);
                Ended { out: inner.out, vars: unshadow(inner.vars, r.vars, name) }
            },
            _ => r,
        }
    }
}

} // verus!
