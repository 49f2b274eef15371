//! What holds of the compiler and the runtime together, for every program:
//! literals, the input, scopes, loops and the run-time checks.
//!
//! Each law is a statement about the instructions that the compiler emits,
//! about what they do on the model of the processor, and about the text
//! that the runtime shows.

use crate::behaviour::{argument_is_loaded, immediate_is_loaded, settles};
use crate::driver::{compiled, program_text, SpecStaticError};
use crate::error::{ParseError, SpecCompileError};
use crate::evaluation::{eval, eval_block, eval_let, unshadow, Ended, Outcome};
use crate::flow::flow;
use crate::linking::{entry, parsed_program_is_well_named, program_code, program_is_linked,
    well_named};
use crate::lowering::{arities, bool_value, call_pad, followed, loop_exit, lower, lower_arguments,
    lower_bindings, lower_block, lower_functions, lower_program, main_scope, prepend, slot_loc,
    Lowered, MAX_SI};
use crate::machine::{address, run, Machine, Run};
use crate::parser::{function_names, parsed_defns, parsed_expr, parsed_program, symbol};
use crate::runtime::{input_value, numeral_denotes_its_number, scalar_text, word_of};
use crate::scoping::{any_faulty, faulty, faulty_program, faulty_program_is_rejected,
    static_fault_is_rejected};
use crate::simulation::{argument_index, bound, code_runs_as_evaluated, linked, ready, roomy,
    simulated, stands};
use crate::syntax::{SpecToken, SpecTree};
use crate::text::decimal_text;
use crate::types::{Reg, Scope, SpecExpr, SpecFunction, SpecInstr, SpecProgram};
use crate::utils::{asm_text, imm, in_range, reg, reserved, slot};
use vstd::prelude::*;

verus! {

/// The code of a literal: a load of its tagged value.
pub open spec fn literal_code(tagged: int) -> Seq<SpecInstr> {
    seq![SpecInstr::Mov(reg(Reg::RAX), imm(tagged))]
}

/// How a boolean is written.
pub open spec fn boolean_word(b: bool) -> Seq<char> {
    if b {
        "true"@
    } else {
        "false"@
    }
}

/// The program that consists of one expression and no definition.
pub open spec fn lone(e: SpecTree) -> SpecTree {
    SpecTree::List(seq![e])
}

/// A program that is an integer literal `n` of the language is compiled
/// to one load and the return; on the model of the processor the load
/// leaves a word in `rax`; and the runtime shows that word as `n` in
/// decimal.
pub proof fn integer_literal_is_shown(n: int, m: Machine)
    requires
        in_range(n),
        m.whole(),
    ensures
        compiled(Some(lone(SpecTree::Atom(SpecToken::Integer(n))))) == Ok::<
            Seq<char>,
            SpecStaticError,
        >(program_text(Seq::empty(), asm_text(literal_code(2 * n)))),
        asm_text(literal_code(2 * n)) == "  mov rax, "@ + decimal_text(2 * n),
        settles(run(literal_code(2 * n), m), m, word_of(2 * n)),
        scalar_text(word_of(2 * n)) == decimal_text(n),
{
    immediate_is_loaded(2 * n, m);
    let items = seq![SpecTree::Atom(SpecToken::Integer(n))];
    let tree = lone(SpecTree::Atom(SpecToken::Integer(n)));
    let none = Seq::<Seq<char>>::empty();
    assert(function_names(items, 0, none) == Ok::<Seq<Seq<char>>, ParseError>(none));
    assert(parsed_defns(items, 0, Seq::empty(), none) == Ok::<Seq<SpecFunction>, ParseError>(
        Seq::empty(),
    ));
    assert(items.last() == SpecTree::Atom(SpecToken::Integer(n)));
    let p = SpecProgram { defns: Seq::empty(), main: SpecExpr::Number(n) };
    assert(parsed_program(tree) == Ok::<SpecProgram, ParseError>(p));
    let code = seq![SpecInstr::Mov(reg(Reg::RAX), imm(n * 2))];
    assert(lower_program(p) == Ok::<(Seq<SpecInstr>, Seq<SpecInstr>), SpecCompileError>(
        (Seq::<SpecInstr>::empty(), code),
    ));
    reveal_strlit("  ");
    reveal_strlit("mov");
    reveal_strlit(" ");
    reveal_strlit("rax");
    reveal_strlit(", ");
    reveal_strlit("  mov rax, ");
    assert(asm_text(code) =~= "  mov rax, "@ + decimal_text(2 * n));
    assert(asm_text(Seq::<SpecInstr>::empty()) =~= Seq::<char>::empty());
}

/// A program that is `true` or `false` is compiled to one load and the
/// return; on the model of the processor the load leaves a word in `rax`;
/// and the runtime shows that word as `true` or `false`.
pub proof fn boolean_literal_is_shown(b: bool, m: Machine)
    requires
        m.whole(),
    ensures
        compiled(Some(lone(SpecTree::Atom(SpecToken::Symbol(boolean_word(b)))))) == Ok::<
            Seq<char>,
            SpecStaticError,
        >(program_text(Seq::empty(), asm_text(literal_code(bool_value(b))))),
        asm_text(literal_code(bool_value(b))) == "  mov rax, "@ + decimal_text(bool_value(b)),
        settles(run(literal_code(bool_value(b)), m), m, word_of(bool_value(b))),
        scalar_text(word_of(bool_value(b))) == boolean_word(b),
{
    immediate_is_loaded(bool_value(b), m);
    let word = boolean_word(b);
    reveal_strlit("true");
    reveal_strlit("false");
    assert("true"@ != "false"@) by {
        assert("true"@.len() != "false"@.len());
    }
    let items = seq![SpecTree::Atom(SpecToken::Symbol(word))];
    let tree = lone(SpecTree::Atom(SpecToken::Symbol(word)));
    let none = Seq::<Seq<char>>::empty();
    assert(function_names(items, 0, none) == Ok::<Seq<Seq<char>>, ParseError>(none));
    assert(parsed_defns(items, 0, Seq::empty(), none) == Ok::<Seq<SpecFunction>, ParseError>(
        Seq::empty(),
    ));
    assert(items.last() == SpecTree::Atom(SpecToken::Symbol(word)));
    let p = SpecProgram { defns: Seq::empty(), main: SpecExpr::Boolean(b) };
    assert(parsed_program(tree) == Ok::<SpecProgram, ParseError>(p));
    let code = seq![SpecInstr::Mov(reg(Reg::RAX), imm(bool_value(b)))];
    assert(lower_program(p) == Ok::<(Seq<SpecInstr>, Seq<SpecInstr>), SpecCompileError>(
        (Seq::<SpecInstr>::empty(), code),
    ));
    reveal_strlit("  ");
    reveal_strlit("mov");
    reveal_strlit(" ");
    reveal_strlit("rax");
    reveal_strlit(", ");
    reveal_strlit("  mov rax, ");
    assert(asm_text(code) =~= "  mov rax, "@ + decimal_text(bool_value(b)));
    assert(asm_text(Seq::<SpecInstr>::empty()) =~= Seq::<char>::empty());
}

/// Outside every function, at any stack index and whatever the
/// environment binds, `input` is read from `rdi`, where the runtime passes
/// the word of the program's argument: on the model of the processor the
/// code leaves that word in `rax`.
pub proof fn input_is_read_from_rdi(c: Scope, lbl: int, m: Machine)
    requires
        !c.in_func,
        m.whole(),
    ensures
        lower(SpecExpr::Id("input"@), c, lbl) == Ok::<Lowered, SpecCompileError>(
            Lowered { code: seq![SpecInstr::Mov(reg(Reg::RAX), reg(Reg::RDI))], next: lbl },
        ),
        lower(SpecExpr::Id("input"@), c, lbl) matches Ok(l) && l.next == lbl && settles(
            run(l.code, m),
            m,
            m.regs[Reg::RDI],
        ),
{
    argument_is_loaded(m);
}

/// The argument `n`, an integer of the language written in decimal,
/// reaches the program as the word of twice `n`, which the runtime shows
/// as `n` in decimal again.
pub proof fn integer_input_is_shown(n: int)
    requires
        in_range(n),
    ensures
        input_value(decimal_text(n)) == Some(word_of(2 * n)),
        scalar_text(word_of(2 * n)) == decimal_text(n),
{
    let s = decimal_text(n);
    reveal_strlit("true");
    reveal_strlit("false");
    numeral_denotes_its_number(n);
    assert(s != "true"@) by {
        assert("true"@[0] == 't');
    }
    assert(s != "false"@) by {
        assert("false"@[0] == 'f');
    }
}

/// The argument `true` or `false` reaches the program as the tagged word
/// of that boolean, which the runtime shows as the same word again.
pub proof fn boolean_input_is_shown(b: bool)
    ensures
        input_value(boolean_word(b)) == Some(word_of(bool_value(b))),
        scalar_text(word_of(bool_value(b))) == boolean_word(b),
{
    reveal_strlit("true");
    reveal_strlit("false");
    assert("true"@ != "false"@) by {
        assert("true"@.len() != "false"@.len());
    }
}

/// A block of one expression is lowered as that expression.
proof fn lemma_block_of_one(e: SpecExpr, c: Scope, lbl: int)
    ensures
        lower_block(seq![e], c, lbl) == lower(e, c, lbl),
{
    let es = seq![e];
    assert(es[0] == e);
    assert(es.drop_first() =~= Seq::<SpecExpr>::empty());
    match lower(e, c, lbl) {
        Err(_) => {},
        Ok(m) => {
            assert(lower_block(Seq::<SpecExpr>::empty(), c, m.next) == Ok::<
                Lowered,
                SpecCompileError,
            >(Lowered { code: Seq::empty(), next: m.next }));
            assert(m.code + Seq::<SpecInstr>::empty() =~= m.code);
        },
    }
}

/// What stands behind an expression in a block is lowered at the place
/// of the block: with its environment, its stack index and its loop,
/// whatever the expression before bound or looped.
pub proof fn block_keeps_its_place(first: SpecExpr, next: SpecExpr, c: Scope, lbl: int)
    ensures
        lower(SpecExpr::Block(seq![first, next]), c, lbl) == (match lower(first, c, lbl) {
            Err(x) => Err(x),
            Ok(l) => prepend(l.code, lower(next, c, l.next)),
        }),
{
    let es = seq![first, next];
    assert(es[0] == first);
    assert(es.drop_first() =~= seq![next]);
    assert(lower(SpecExpr::Block(es), c, lbl) == lower_block(es, c, lbl));
    match lower(first, c, lbl) {
        Err(_) => {},
        Ok(l) => {
            lemma_block_of_one(next, c, l.next);
        },
    }
}

/// What stands behind a `let` in a block is lowered in the scope of the
/// block: the names that the `let` binds are as they were before it.
pub proof fn let_scope_ends_with_let(
    binds: Seq<(Seq<char>, SpecExpr)>,
    body: SpecExpr,
    next: SpecExpr,
    c: Scope,
    lbl: int,
)
    ensures
        lower(SpecExpr::Block(seq![SpecExpr::Let(binds, Box::new(body)), next]), c, lbl) == (
        match lower(SpecExpr::Let(binds, Box::new(body)), c, lbl) {
            Err(x) => Err(x),
            Ok(l) => prepend(l.code, lower(next, c, l.next)),
        }),
{
    block_keeps_its_place(SpecExpr::Let(binds, Box::new(body)), next, c, lbl);
}

/// The place of the binding of index `i` of a `let` at the place `c`: the
/// names of the bindings before it are bound, one after the other, to the
/// stack words from that of the stack index of `c` on.
pub open spec fn place_of_binding(binds: Seq<(Seq<char>, SpecExpr)>, c: Scope, i: int) -> Scope
    decreases i,
{
    if i <= 0 || binds.len() == 0 {
        c
    } else {
        place_of_binding(binds.drop_first(), bound(c, binds[0].0), i - 1)
    }
}

/// The code of a binding: that of its expression, and the write of its
/// value to the stack word of index `index`.
pub open spec fn binding_code(value: SpecExpr, c: Scope, index: int, lbl: int) -> Seq<SpecInstr> {
    lower(value, c, lbl)->Ok_0.code + seq![SpecInstr::Mov(slot(index), reg(Reg::RAX))]
}

/// Every binding of a `let`: the expression of binding `i` is lowered
/// under the bindings before it and no other, at the stack index behind
/// theirs, and its value is kept in the stack word of that index.
pub proof fn binding_is_lowered_behind_those_before(
    binds: Seq<(Seq<char>, SpecExpr)>,
    c: Scope,
    lbl: int,
    i: int,
)
    requires
        lower_bindings(binds, c, lbl) is Ok,
        0 <= i < binds.len(),
    ensures
        place_of_binding(binds, c, i).si == c.si + i,
        0 <= c.si + i <= MAX_SI,
        place_of_binding(binds, c, i).loop_num == c.loop_num,
        place_of_binding(binds, c, i).in_func == c.in_func,
        place_of_binding(binds, c, i).arity == c.arity,
        exists|p: int, l: int|
            lower(binds[i].1, place_of_binding(binds, c, i), l) is Ok && #[trigger] stands(
                lower_bindings(binds, c, lbl)->Ok_0.code,
                p,
                binding_code(binds[i].1, place_of_binding(binds, c, i), c.si + i, l),
            ),
    decreases binds.len(),
{
    let first = lower(binds[0].1, c, lbl)->Ok_0;
    let head = first.code + seq![SpecInstr::Mov(slot(c.si), reg(Reg::RAX))];
    let inner = bound(c, binds[0].0);
    let rest = lower_bindings(binds.drop_first(), inner, first.next)->Ok_0;
    let code = lower_bindings(binds, c, lbl)->Ok_0.code;
    assert(code == head + rest.code);
    if i == 0 {
        assert(code.subrange(0, head.len() as int) =~= head);
        assert(stands(code, 0, binding_code(binds[0].1, c, c.si, lbl)));
    } else {
        binding_is_lowered_behind_those_before(binds.drop_first(), inner, first.next, i - 1);
        let place = place_of_binding(binds, c, i);
        assert(place == place_of_binding(binds.drop_first(), inner, i - 1));
        assert(binds.drop_first()[i - 1] == binds[i]);
        let (p, l) = choose|p: int, l: int|
            lower(binds[i].1, place, l) is Ok && #[trigger] stands(
                rest.code,
                p,
                binding_code(binds[i].1, place, inner.si + (i - 1), l),
            );
        let part = binding_code(binds[i].1, place, c.si + i, l);
        assert(code.subrange(head.len() + p, head.len() + p + part.len()) =~= rest.code.subrange(
            p,
            p + part.len(),
        ));
        assert(stands(code, head.len() + p, part));
    }
}

/// The body of a `let` is lowered under all its bindings, at the stack
/// index behind theirs, and its code follows theirs.
pub proof fn body_is_lowered_behind_all_bindings(
    binds: Seq<(Seq<char>, SpecExpr)>,
    body: SpecExpr,
    c: Scope,
    lbl: int,
)
    requires
        lower(SpecExpr::Let(binds, Box::new(body)), c, lbl) is Ok,
    ensures
        lower_bindings(binds, c, lbl) is Ok,
        place_of_binding(binds, c, binds.len() as int).si == c.si + binds.len(),
        lower(
            body,
            place_of_binding(binds, c, binds.len() as int),
            lower_bindings(binds, c, lbl)->Ok_0.next,
        ) is Ok,
        lower(SpecExpr::Let(binds, Box::new(body)), c, lbl)->Ok_0.code == lower_bindings(
            binds,
            c,
            lbl,
        )->Ok_0.code + lower(
            body,
            place_of_binding(binds, c, binds.len() as int),
            lower_bindings(binds, c, lbl)->Ok_0.next,
        )->Ok_0.code,
{
    lemma_place_behind(binds, c, lbl);
    let b = lower_bindings(binds, c, lbl)->Ok_0;
    assert(Scope { si: b.si, env: b.env, ..c } == place_of_binding(binds, c, binds.len() as int));
}

/// The bindings of a `let` leave the place behind the last of them.
proof fn lemma_place_behind(binds: Seq<(Seq<char>, SpecExpr)>, c: Scope, lbl: int)
    requires
        lower_bindings(binds, c, lbl) is Ok,
    ensures
        place_of_binding(binds, c, binds.len() as int) == (Scope {
            si: lower_bindings(binds, c, lbl)->Ok_0.si,
            env: lower_bindings(binds, c, lbl)->Ok_0.env,
            ..c
        }),
        lower_bindings(binds, c, lbl)->Ok_0.si == c.si + binds.len(),
    decreases binds.len(),
{
    if binds.len() > 0 {
        let first = lower(binds[0].1, c, lbl)->Ok_0;
        lemma_place_behind(binds.drop_first(), bound(c, binds[0].0), first.next);
    }
}

/// A name that only a `let` binds is not in scope behind that `let`: to
/// read it there is a static error.
pub proof fn let_name_is_unbound_behind_let(
    x: Seq<char>,
    value: SpecExpr,
    body: SpecExpr,
    c: Scope,
    lbl: int,
)
    requires
        x != "input"@,
        !c.env.contains_key(x),
    ensures
        lower(
            SpecExpr::Block(
                seq![SpecExpr::Let(seq![(x, value)], Box::new(body)), SpecExpr::Id(x)],
            ),
            c,
            lbl,
        ) is Err,
{
    let e = SpecExpr::Block(
        seq![SpecExpr::Let(seq![(x, value)], Box::new(body)), SpecExpr::Id(x)],
    );
    let es = seq![SpecExpr::Let(seq![(x, value)], Box::new(body)), SpecExpr::Id(x)];
    reveal_with_fuel(faulty, 2);
    assert(faulty(es[1], c.env.dom(), c.arity, c.in_func, c.loop_num > 0));
    assert(any_faulty(es, c.env.dom(), c.arity, c.in_func, c.loop_num > 0));
    static_fault_is_rejected(e, c, lbl);
}

/// In the body of a `let`, a name is read from the stack word of its
/// binding, whether or not the name was bound outside.
pub proof fn let_binds_its_name_in_the_body(x: Seq<char>, value: SpecExpr, c: Scope, lbl: int)
    requires
        x != "input"@,
        0 <= c.si < MAX_SI,
        lower(value, c, lbl) is Ok,
    ensures
        lower(SpecExpr::Let(seq![(x, value)], Box::new(SpecExpr::Id(x))), c, lbl) == Ok::<
            Lowered,
            SpecCompileError,
        >(
            Lowered {
                code: lower(value, c, lbl)->Ok_0.code + seq![
                    SpecInstr::Mov(slot(c.si), reg(Reg::RAX)),
                    SpecInstr::Mov(reg(Reg::RAX), slot(c.si)),
                ],
                next: lower(value, c, lbl)->Ok_0.next,
            },
        ),
{
    reveal_with_fuel(lower_bindings, 2);
    reveal_with_fuel(lower, 2);
    let binds = seq![(x, value)];
    let v = lower(value, c, lbl)->Ok_0;
    assert(binds.drop_first() =~= Seq::<(Seq<char>, SpecExpr)>::empty());
    let inner = Scope {
        si: c.si + 1,
        env: c.env.insert(x, slot_loc(c.si)),
        ..c
    };
    let b = lower_bindings(binds, c, lbl);
    assert(b is Ok);
    assert(b->Ok_0.env == inner.env);
    assert(b->Ok_0.code =~= v.code + seq![SpecInstr::Mov(slot(c.si), reg(Reg::RAX))]);
    assert(slot_loc(c.si).operand() == slot(c.si));
    let whole = lower(SpecExpr::Let(binds, Box::new(SpecExpr::Id(x))), c, lbl);
    assert(whole is Ok);
    assert(whole->Ok_0.code =~= v.code + seq![
        SpecInstr::Mov(slot(c.si), reg(Reg::RAX)),
        SpecInstr::Mov(reg(Reg::RAX), slot(c.si)),
    ]);
}

/// The code that lowers the argument `arg` at the stack index `above` and
/// keeps its value in the stack word of index `index`.
pub open spec fn argument_code(arg: SpecExpr, c: Scope, above: int, index: int, lbl: int) -> Seq<
    SpecInstr,
> {
    lower(arg, Scope { si: above, ..c }, lbl)->Ok_0.code + seq![
        SpecInstr::Mov(slot(index), reg(Reg::RAX)),
    ]
}

/// Where the code of the argument of index `k`, counted from 0, begins in
/// the code of the arguments, and the label counter there.
pub open spec fn argument_place(args: Seq<SpecExpr>, c: Scope, above: int, lbl: int, k: int) -> (
    int,
    int,
)
    decreases k,
{
    if k <= 0 || args.len() == 0 {
        (0, lbl)
    } else {
        let head = lower(args[0], Scope { si: above, ..c }, lbl)->Ok_0;
        let behind = argument_place(args.drop_first(), c, above, head.next, k - 1);
        (head.code.len() + 1 + behind.0, behind.1)
    }
}

/// The arguments of a call are lowered in order: the code of the first
/// argument stands first, and the code of each argument stands behind
/// that of the one before it. Each is lowered above the words of all
/// arguments and kept in a word of its own, the first argument in the
/// word of the highest index.
pub proof fn arguments_are_lowered_in_order(
    args: Seq<SpecExpr>,
    c: Scope,
    first: int,
    above: int,
    lbl: int,
    k: int,
)
    requires
        lower_arguments(args, c, first, above, lbl) is Ok,
        0 <= k < args.len(),
    ensures
        lower(args[k], Scope { si: above, ..c }, argument_place(args, c, above, lbl, k).1) is Ok,
        stands(
            lower_arguments(args, c, first, above, lbl)->Ok_0.code,
            argument_place(args, c, above, lbl, k).0,
            argument_code(
                args[k],
                c,
                above,
                argument_index(first, args.len() as int, k),
                argument_place(args, c, above, lbl, k).1,
            ),
        ),
        argument_place(args, c, above, lbl, 0) == (0int, lbl),
        k > 0 ==> argument_place(args, c, above, lbl, k).0 == argument_place(
            args,
            c,
            above,
            lbl,
            k - 1,
        ).0 + argument_code(
            args[k - 1],
            c,
            above,
            argument_index(first, args.len() as int, k - 1),
            argument_place(args, c, above, lbl, k - 1).1,
        ).len(),
    decreases args.len(),
{
    let code = lower_arguments(args, c, first, above, lbl)->Ok_0.code;
    let n = args.len() as int;
    let head = lower(args[0], Scope { si: above, ..c }, lbl)->Ok_0;
    let part = head.code + seq![SpecInstr::Mov(slot(first + n - 1), reg(Reg::RAX))];
    let tail = args.drop_first();
    let rest = lower_arguments(tail, c, first, above, head.next)->Ok_0.code;
    assert(code == part + rest);
    if k == 0 {
        assert(code.subrange(0, part.len() as int) =~= part);
    } else {
        arguments_are_lowered_in_order(tail, c, first, above, head.next, k - 1);
        assert(tail[k - 1] == args[k]);
        let (p, l) = argument_place(tail, c, above, head.next, k - 1);
        let mine = argument_code(args[k], c, above, argument_index(first, n, k), l);
        assert(code.subrange(part.len() + p, part.len() + p + mine.len()) =~= rest.subrange(
            p,
            p + mine.len(),
        ));
        if k > 1 {
            assert(tail[k - 2] == args[k - 1]);
        }
    }
}

/// The padding of a call makes the highest index of the words of its
/// arguments odd: with the return address the call then moves the stack
/// pointer by a multiple of 16.
pub proof fn call_keeps_the_stack_aligned(si: int, n: int)
    requires
        0 <= si,
        0 <= n,
    ensures
        0 <= call_pad(si, n) <= 1,
        (si + call_pad(si, n) + n - 1) % 2 == 1,
        ((si + call_pad(si, n) + n - 1) * 8 + 8) % 16 == 0,
{
}

/// The calling convention. The caller keeps its `n` arguments in the
/// stack words from index `first` on, moves the stack pointer below the
/// word of the highest index, and the call pushes the return address. The
/// word that the callee then finds `k + 1` words above its stack pointer,
/// where its parameter `k`, counted from 0, lives, is the word in which
/// the caller kept argument `k`.
pub proof fn parameter_is_its_argument(caller: Machine, callee: Machine, first: int, n: int, k: int)
    requires
        0 <= k < n,
        callee.regs[Reg::RSP] == caller.regs[Reg::RSP] - (first + n - 1) * 8 - 8,
    ensures
        address(callee, Reg::RSP, (k + 1) * 8) == address(
            caller,
            Reg::RSP,
            -(argument_index(first, n, k) * 8),
        ),
{
}

/// An integer literal of the language is lowered to one load of twice
/// its value, at any place, and takes no label number.
pub proof fn number_is_loaded(n: int, c: Scope, lbl: int)
    requires
        in_range(n),
    ensures
        lower(SpecExpr::Number(n), c, lbl) == Ok::<Lowered, SpecCompileError>(
            Lowered { code: literal_code(2 * n), next: lbl },
        ),
{
    assert(literal_code(2 * n) =~= seq![SpecInstr::Mov(reg(Reg::RAX), imm(n * 2))]);
}

/// A boolean literal is lowered to one load of 7 or 3, at any place, and
/// takes no label number.
pub proof fn boolean_is_loaded(b: bool, c: Scope, lbl: int)
    ensures
        lower(SpecExpr::Boolean(b), c, lbl) == Ok::<Lowered, SpecCompileError>(
            Lowered { code: literal_code(bool_value(b)), next: lbl },
        ),
        bool_value(b) == (if b {
            7int
        } else {
            3int
        }),
{
}

/// In a function body `input` is not lowered, at any place and whatever
/// the environment binds; nor is an expression that holds it at any depth.
pub proof fn input_in_a_function_is_rejected(e: SpecExpr, c: Scope, lbl: int)
    requires
        c.in_func,
    ensures
        lower(SpecExpr::Id("input"@), c, lbl) == Err::<Lowered, SpecCompileError>(
            SpecCompileError::InputInFunction,
        ),
        faulty(e, c.env.dom(), c.arity, true, c.loop_num > 0) ==> lower(e, c, lbl) is Err,
{
    if faulty(e, c.env.dom(), c.arity, true, c.loop_num > 0) {
        static_fault_is_rejected(e, c, lbl);
    }
}

/// A `break` outside every loop is not lowered, at any place: the answer
/// is the error of a `break` exactly where the place is in no loop. In a
/// loop the `break` is the code of its value and the jump to the exit of
/// that loop.
pub proof fn break_needs_a_loop(value: SpecExpr, c: Scope, lbl: int)
    ensures
        c.loop_num <= 0 ==> lower(SpecExpr::Break(Box::new(value)), c, lbl) == Err::<
            Lowered,
            SpecCompileError,
        >(SpecCompileError::BreakOutsideLoop),
        c.loop_num > 0 ==> lower(SpecExpr::Break(Box::new(value)), c, lbl) == followed(
            lower(value, c, lbl),
            seq![SpecInstr::Jmp(loop_exit(c.loop_num))],
        ),
{
}

/// A call is checked before its arguments are lowered, at any place: a
/// name that is no function of the table is unknown, and a number of
/// arguments other than that of the table is the wrong arity. A call that
/// is lowered names a function of the table with as many parameters.
pub proof fn call_is_checked_first(name: Seq<char>, args: Seq<SpecExpr>, c: Scope, lbl: int)
    ensures
        !c.arity.contains_key(name) ==> lower(SpecExpr::Call(name, args), c, lbl) == Err::<
            Lowered,
            SpecCompileError,
        >(SpecCompileError::UnknownFunction(name)),
        c.arity.contains_key(name) && c.arity[name] != args.len() ==> lower(
            SpecExpr::Call(name, args),
            c,
            lbl,
        ) == Err::<Lowered, SpecCompileError>(SpecCompileError::WrongArity(name)),
        lower(SpecExpr::Call(name, args), c, lbl) is Ok ==> c.arity.contains_key(name)
            && c.arity[name] == args.len(),
{
}

/// A `break` in a loop ends in a jump to the exit label of that loop, and
/// nothing of the `break` follows the jump.
pub proof fn break_jumps_to_the_loop_exit(value: SpecExpr, c: Scope, lbl: int)
    requires
        c.loop_num > 0,
        lower(SpecExpr::Break(Box::new(value)), c, lbl) is Ok,
    ensures
        lower(value, c, lbl) is Ok,
        lower(SpecExpr::Break(Box::new(value)), c, lbl)->Ok_0.code == lower(
            value,
            c,
            lbl,
        )->Ok_0.code.push(SpecInstr::Jmp(loop_exit(c.loop_num))),
{
    let v = lower(value, c, lbl)->Ok_0.code;
    assert(v + seq![SpecInstr::Jmp(loop_exit(c.loop_num))] =~= v.push(
        SpecInstr::Jmp(loop_exit(c.loop_num)),
    ));
}

/// A loop takes the next label number; its body is lowered as the body of
/// the loop of that number; and its exit label is the last of its
/// instructions, behind the jump back.
pub proof fn loop_exit_follows_the_loop(body: SpecExpr, c: Scope, lbl: int)
    requires
        lower(SpecExpr::Loop(Box::new(body)), c, lbl) is Ok,
    ensures
        lower(body, Scope { loop_num: lbl, ..c }, lbl + 1) is Ok,
        lower(SpecExpr::Loop(Box::new(body)), c, lbl)->Ok_0.code.last() == SpecInstr::Label(
            loop_exit(lbl),
        ),
{
}

/// A `break` ends the loop with its value. Where a round of the body ends
/// in a `break`, the loop comes to the value of the `break` and leaves the
/// variables as the `break` found them; and the code of the loop comes to
/// its own end with that value in `rax`: nothing of the loop runs behind
/// the `break`.
pub proof fn break_ends_the_loop(
    body: SpecExpr,
    c: Scope,
    lbl: int,
    code: Seq<SpecInstr>,
    p: int,
    exit: int,
    m: Machine,
    vars: Map<Seq<char>, u64>,
    rounds: nat,
    fns: Seq<SpecFunction>,
)
    requires
        lower(SpecExpr::Loop(Box::new(body)), c, lbl) is Ok,
        stands(code, p, lower(SpecExpr::Loop(Box::new(body)), c, lbl)->Ok_0.code),
        ready(code, exit, m, c, vars),
        linked(code, fns, c.arity),
        roomy(m, rounds + 1),
        eval(body, vars, m.regs[Reg::RDI], rounds, fns).out is Break,
    ensures
        eval(SpecExpr::Loop(Box::new(body)), vars, m.regs[Reg::RDI], rounds + 1, fns) == (Ended {
            out: Outcome::Value(eval(body, vars, m.regs[Reg::RDI], rounds, fns).out->Break_0),
            vars: eval(body, vars, m.regs[Reg::RDI], rounds, fns).vars,
        }),
        exists|n: nat, end: Machine| #[trigger]
            simulated(
                code,
                p,
                p + lower(SpecExpr::Loop(Box::new(body)), c, lbl)->Ok_0.code.len(),
                exit,
                m,
                c,
                Ended {
                    out: Outcome::Value(eval(body, vars, m.regs[Reg::RDI], rounds, fns).out->Break_0),
                    vars: eval(body, vars, m.regs[Reg::RDI], rounds, fns).vars,
                },
                n,
                end,
            ),
{
    let e = SpecExpr::Loop(Box::new(body));
    let (n, end) = code_runs_as_evaluated(e, c, lbl, code, p, exit, m, vars, rounds + 1, fns);
    assert(simulated(
        code,
        p,
        p + lower(e, c, lbl)->Ok_0.code.len(),
        exit,
        m,
        c,
        eval(e, vars, m.regs[Reg::RDI], rounds + 1, fns),
        n,
        end,
    ));
}

/// Where a round of the body of a loop ends with a value, the loop goes
/// on from the variables that the round left.
pub proof fn loop_repeats_its_body(
    body: SpecExpr,
    vars: Map<Seq<char>, u64>,
    input: u64,
    rounds: nat,
    fns: Seq<SpecFunction>,
)
    requires
        eval(body, vars, input, rounds, fns).out is Value,
    ensures
        eval(SpecExpr::Loop(Box::new(body)), vars, input, rounds + 1, fns) == eval(
            SpecExpr::Loop(Box::new(body)),
            eval(body, vars, input, rounds, fns).vars,
            input,
            rounds,
            fns,
        ),
{
}

/// Lexical scope. In the scope of a binding the name means the value of
/// the binding, whatever it meant outside. Behind the `let` the name
/// means what it meant before the scope began, whatever was done to the
/// variable of the `let` in its body.
pub proof fn binding_holds_in_its_scope_only(
    x: Seq<char>,
    value: SpecExpr,
    body: SpecExpr,
    vars: Map<Seq<char>, u64>,
    input: u64,
    rounds: nat,
    fns: Seq<SpecFunction>,
)
    requires
        x != "input"@,
    ensures
        eval(value, vars, input, rounds, fns).out matches Outcome::Value(w) ==> eval(
            SpecExpr::Let(seq![(x, value)], Box::new(SpecExpr::Id(x))),
            vars,
            input,
            rounds,
            fns,
        ).out == Outcome::Value(w),
        eval(SpecExpr::Let(seq![(x, value)], Box::new(body)), vars, input, rounds, fns).out is Value
            && eval(value, vars, input, rounds, fns).vars.contains_key(x) ==> eval(
            SpecExpr::Block(seq![SpecExpr::Let(seq![(x, value)], Box::new(body)), SpecExpr::Id(x)]),
            vars,
            input,
            rounds,
            fns,
        ).out == Outcome::Value(eval(value, vars, input, rounds, fns).vars[x]),
{
    let first = eval(value, vars, input, rounds, fns);
    let read = SpecExpr::Let(seq![(x, value)], Box::new(SpecExpr::Id(x)));
    let inner = SpecExpr::Let(seq![(x, value)], Box::new(body));
    lemma_let_of_one(x, value, SpecExpr::Id(x), vars, input, rounds, fns);
    lemma_let_of_one(x, value, body, vars, input, rounds, fns);
    let es = seq![inner, SpecExpr::Id(x)];
    let rest = seq![SpecExpr::Id(x)];
    assert(es[0] == inner);
    assert(es.drop_first() =~= rest);
    assert(rest[0] == SpecExpr::Id(x));
    let left = eval(inner, vars, input, rounds, fns);
    if left.out is Value && first.vars.contains_key(x) {
        assert(eval(SpecExpr::Block(es), vars, input, rounds, fns) == eval_block(
            es,
            vars,
            input,
            rounds,
            fns,
        ));
        assert(eval_block(es, vars, input, rounds, fns) == eval_block(rest, left.vars, input, rounds, fns));
        assert(eval_block(rest, left.vars, input, rounds, fns) == eval(
            SpecExpr::Id(x),
            left.vars,
            input,
            rounds,
            fns,
        ));
        assert(left.vars[x] == first.vars[x]);
    }
}

/// A `let` of one binding: the binding, then the body in its scope, then
/// the name as it was.
proof fn lemma_let_of_one(
    x: Seq<char>,
    value: SpecExpr,
    body: SpecExpr,
    vars: Map<Seq<char>, u64>,
    input: u64,
    rounds: nat,
    fns: Seq<SpecFunction>,
)
    ensures
        eval(SpecExpr::Let(seq![(x, value)], Box::new(body)), vars, input, rounds, fns) == (match eval(
            value,
            vars,
            input,
            rounds,
            fns,
        ).out {
            Outcome::Value(w) => Ended {
                out: eval(
                    body,
                    eval(value, vars, input, rounds, fns).vars.insert(x, w),
                    input,
                    rounds,
                    fns,
                ).out,
                vars: unshadow(
                    eval(
                        body,
                        eval(value, vars, input, rounds, fns).vars.insert(x, w),
                        input,
                        rounds,
                        fns,
                    ).vars,
                    eval(value, vars, input, rounds, fns).vars,
                    x,
                ),
            },
            _ => eval(value, vars, input, rounds, fns),
        }),
{
    let e = SpecExpr::Let(seq![(x, value)], Box::new(body));
    assert(e->Let_0[0] == (x, value));
    assert(eval(e, vars, input, rounds, fns) == eval_let(e, 0, vars, input, rounds, fns));
    let first = eval(value, vars, input, rounds, fns);
    match first.out {
        Outcome::Value(w) => {
            let scope = first.vars.insert(x, w);
            assert(eval_let(e, 1, scope, input, rounds, fns) == eval(body, scope, input, rounds, fns));
        },
        _ => {},
    }
}

/// How the code of a program ends, started at index `start`, where its
/// main expression comes to `out`: after `n` steps or more it is done with
/// the value in `rax`, or it has failed with the code of the error. No
/// `break` leaves a main expression.
pub open spec fn ends(
    code: Seq<SpecInstr>,
    start: int,
    m: Machine,
    out: Outcome,
    n: nat,
    end: Machine,
) -> bool {
    match out {
        Outcome::Value(w) => end.regs[Reg::RAX] == w && forall|f: nat|
            f >= n ==> #[trigger] flow(code, start, m, f) == Run::Done(end),
        Outcome::Error(e) => forall|f: nat|
            f >= n ==> #[trigger] flow(code, start, m, f) == Run::Failed(e),
        Outcome::Break(_) => false,
        Outcome::Beyond => true,
    }
}

/// A program does what its main expression comes to, functions and loops
/// included: started at its main expression with the word of the argument
/// in `rdi` and room on the stack, its code leaves the value of the
/// expression in `rax`, which the runtime then shows; or it fails with the
/// code of the error that the expression comes to, a mismatch or an
/// overflow, which the runtime then reports.
pub proof fn program_runs_as_evaluated(p: SpecProgram, m: Machine, rounds: nat)
    requires
        m.whole(),
        roomy(m, rounds),
        well_named(p.defns),
        lower_program(p) is Ok,
        program_code(p).len() <= u64::MAX,
    ensures
        exists|n: nat, end: Machine| #[trigger]
            ends(
                program_code(p),
                entry(p),
                m,
                eval(p.main, Map::empty(), m.regs[Reg::RDI], rounds, p.defns).out,
                n,
                end,
            ),
{
    let arity = arities(p.defns);
    let c = main_scope(arity);
    let lbl = lower_functions(p.defns, arity, 1)->Ok_0.next;
    let code = program_code(p);
    let main = lower(p.main, c, lbl)->Ok_0.code;
    program_is_linked(p);
    let vars = Map::<Seq<char>, u64>::empty();
    let (n, end) = code_runs_as_evaluated(
        p.main,
        c,
        lbl,
        code,
        entry(p),
        0,
        m,
        vars,
        rounds,
        p.defns,
    );
    let out = eval(p.main, vars, m.regs[Reg::RDI], rounds, p.defns).out;
    match out {
        Outcome::Value(w) => {
            assert(entry(p) + main.len() == code.len());
            assert forall|f: nat| f >= n implies #[trigger] flow(code, entry(p), m, f)
                == Run::Done(end) by {
                assert(flow(code, entry(p), m, f) == flow(
                    code,
                    code.len() as int,
                    end,
                    (f - n) as nat,
                ));
            }
        },
        _ => {},
    }
    assert(ends(code, entry(p), m, out, n, end));
}

/// The same of a program as the parser reads it from its tree: its
/// functions are named as the law above asks.
pub proof fn parsed_program_runs_as_evaluated(tree: SpecTree, m: Machine, rounds: nat)
    requires
        m.whole(),
        roomy(m, rounds),
        parsed_program(tree) is Ok,
        lower_program(parsed_program(tree)->Ok_0) is Ok,
        program_code(parsed_program(tree)->Ok_0).len() <= u64::MAX,
    ensures
        exists|n: nat, end: Machine| #[trigger]
            ends(
                program_code(parsed_program(tree)->Ok_0),
                entry(parsed_program(tree)->Ok_0),
                m,
                eval(
                    parsed_program(tree)->Ok_0.main,
                    Map::empty(),
                    m.regs[Reg::RDI],
                    rounds,
                    parsed_program(tree)->Ok_0.defns,
                ).out,
                n,
                end,
            ),
{
    parsed_program_is_well_named(tree);
    program_runs_as_evaluated(parsed_program(tree)->Ok_0, m, rounds);
}

/// A list whose head is a name that is neither reserved nor that of a
/// function of the program is no expression: to call a function that is
/// not defined is a static error.
pub proof fn undefined_function_is_rejected(items: Seq<SpecTree>, fns: Seq<Seq<char>>)
    requires
        items.len() > 0,
        symbol(items[0]) is Some,
        !reserved(symbol(items[0])->0),
        !fns.contains(symbol(items[0])->0),
    ensures
        parsed_expr(SpecTree::List(items), fns) == Err::<SpecExpr, ParseError>(ParseError::Invalid),
{
}

/// A source text whose program breaks a static rule is not compiled:
/// `input` in a function body, a variable out of scope, a `break` outside
/// every loop, a call with the wrong number of arguments.
pub proof fn faulty_source_is_rejected(tree: SpecTree)
    requires
        parsed_program(tree) is Ok,
        faulty_program(parsed_program(tree)->Ok_0),
    ensures
        compiled(Some(tree)) matches Err(e) && e is Compile,
{
    faulty_program_is_rejected(parsed_program(tree)->Ok_0);
}

} // verus!
