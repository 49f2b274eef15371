//! The labels that the compiler makes: each is numbered from the counter,
//! so that the code of an expression defines labels of its own numbers
//! only, and none twice.

use crate::lowering::{binary_code, branch_code, call_code, call_pad, fetch_code, index_code,
    loop_code, loop_exit, lower, lower_arguments, lower_bindings, lower_block, lower_elements,
    slot_loc, store_code, tuple_close, tuple_open, tuple_put, unary_code};
use crate::runtime::numeral_denotes_its_number;
use crate::text::decimal_text;
use crate::types::{Reg, Scope, SpecExpr, SpecInstr, SpecVal};
use crate::utils::{label, reg, slot};
use vstd::prelude::*;

verus! {

/// The four stems of the labels that the compiler makes.
pub open spec fn stem(p: int) -> Seq<char> {
    if p == 0 {
        "else_"@
    } else if p == 1 {
        "endif_"@
    } else if p == 2 {
        "loop_"@
    } else {
        "endloop_"@
    }
}

/// The label of stem `p` and number `j`.
pub open spec fn made_from(p: int, j: int) -> SpecVal {
    label(stem(p) + decimal_text(j))
}

/// Whether `t` is a label of one of the four stems with a number from `lo`
/// up to, but not including, `hi`.
pub open spec fn made(t: SpecVal, lo: int, hi: int) -> bool {
    exists|p: int, j: int| 0 <= p < 4 && lo <= j < hi && t == #[trigger] made_from(p, j)
}

/// Whether every label that `code` defines is numbered from `lo` up to
/// `hi`.
pub open spec fn labels_made(code: Seq<SpecInstr>, lo: int, hi: int) -> bool {
    forall|k: int|
        0 <= k < code.len() && (#[trigger] code[k]) is Label ==> made(code[k]->Label_0, lo, hi)
}

/// Whether `code` defines no label twice.
pub open spec fn distinct_labels(code: Seq<SpecInstr>) -> bool {
    forall|i: int, j: int|
        0 <= i < j < code.len() && (#[trigger] code[i]) is Label && (#[trigger] code[j]) is Label
            ==> code[i] != code[j]
}

/// Whether `code` defines no label.
pub open spec fn plain(code: Seq<SpecInstr>) -> bool {
    forall|k: int| 0 <= k < code.len() ==> !((#[trigger] code[k]) is Label)
}

/// Labels of different stems or numbers differ.
pub proof fn made_labels_differ(p: int, j: int, q: int, n: int)
    requires
        0 <= p < 4,
        0 <= q < 4,
        p != q || j != n,
    ensures
        made_from(p, j) != made_from(q, n),
{
    reveal_strlit("else_");
    reveal_strlit("endif_");
    reveal_strlit("loop_");
    reveal_strlit("endloop_");
    let a = stem(p) + decimal_text(j);
    let b = stem(q) + decimal_text(n);
    if p != q {
        // Two stems differ in one of their first four characters.
        assert(a[0] == stem(p)[0] && a[1] == stem(p)[1] && a[3] == stem(p)[3]);
        assert(b[0] == stem(q)[0] && b[1] == stem(q)[1] && b[3] == stem(q)[3]);
        assert(a[0] != b[0] || a[1] != b[1] || a[3] != b[3]);
    } else {
        numeral_denotes_its_number(j);
        numeral_denotes_its_number(n);
        if a == b {
            let len = stem(p).len() as int;
            assert(a.subrange(len, a.len() as int) =~= decimal_text(j));
            assert(b.subrange(len, b.len() as int) =~= decimal_text(n));
        }
    }
}

/// Code in two parts defines the labels of its parts, and none twice
/// where the parts define none twice and are numbered apart.
proof fn lemma_join(a: Seq<SpecInstr>, b: Seq<SpecInstr>, lo: int, mid: int, hi: int)
    requires
        labels_made(a, lo, mid),
        labels_made(b, mid, hi),
        distinct_labels(a),
        distinct_labels(b),
        lo <= mid <= hi,
    ensures
        labels_made(a + b, lo, hi),
        distinct_labels(a + b),
{
    assert forall|i: int, j: int|
        0 <= i < j < (a + b).len() && (#[trigger] (a + b)[i]) is Label && (#[trigger] (a
            + b)[j]) is Label implies (a + b)[i] != (a + b)[j] by {
        if j < a.len() {
            assert((a + b)[i] == a[i] && (a + b)[j] == a[j]);
        } else if i >= a.len() {
            assert((a + b)[i] == b[i - a.len()] && (a + b)[j] == b[j - a.len()]);
        } else {
            assert((a + b)[i] == a[i] && (a + b)[j] == b[j - a.len()]);
            let (p, x) = choose|p: int, x: int|
                0 <= p < 4 && lo <= x < mid && a[i]->Label_0 == #[trigger] made_from(p, x);
            let (q, y) = choose|q: int, y: int|
                0 <= q < 4 && mid <= y < hi && b[j - a.len()]->Label_0 == #[trigger] made_from(
                    q,
                    y,
                );
            made_labels_differ(p, x, q, y);
        }
    }
    assert forall|k: int| 0 <= k < (a + b).len() && (#[trigger] (a + b)[k]) is Label implies made(
        (a + b)[k]->Label_0,
        lo,
        hi,
    ) by {
        if k < a.len() {
            assert((a + b)[k] == a[k]);
            let (p, j) = choose|p: int, j: int|
                0 <= p < 4 && lo <= j < mid && a[k]->Label_0 == #[trigger] made_from(p, j);
            assert(a[k]->Label_0 == made_from(p, j));
        } else {
            assert((a + b)[k] == b[k - a.len()]);
            let (p, j) = choose|p: int, j: int|
                0 <= p < 4 && mid <= j < hi && b[k - a.len()]->Label_0 == #[trigger] made_from(
                    p,
                    j,
                );
            assert(b[k - a.len()]->Label_0 == made_from(p, j));
        }
    }
}

/// Plain code before or behind does not add a label.
proof fn lemma_plain_around(
    before: Seq<SpecInstr>,
    a: Seq<SpecInstr>,
    behind: Seq<SpecInstr>,
    lo: int,
    hi: int,
)
    requires
        plain(before),
        plain(behind),
        labels_made(a, lo, hi),
        distinct_labels(a),
    ensures
        labels_made(before + a + behind, lo, hi),
        distinct_labels(before + a + behind),
{
    let code = before + a + behind;
    assert forall|i: int, j: int|
        0 <= i < j < code.len() && (#[trigger] code[i]) is Label && (#[trigger] code[j]) is Label
        implies code[i] != code[j] by {
        if i < before.len() {
            assert(code[i] == before[i]);
        } else if i < before.len() + a.len() {
            assert(code[i] == a[i - before.len()]);
            if j < before.len() + a.len() {
                assert(code[j] == a[j - before.len()]);
            } else {
                assert(code[j] == behind[j - before.len() - a.len()]);
            }
        } else {
            assert(code[i] == behind[i - before.len() - a.len()]);
        }
    }
    assert forall|k: int| 0 <= k < code.len() && (#[trigger] code[k]) is Label implies made(
        code[k]->Label_0,
        lo,
        hi,
    ) by {
        if k < before.len() {
            assert(code[k] == before[k]);
        } else if k < before.len() + a.len() {
            assert(code[k] == a[k - before.len()]);
        } else {
            assert(code[k] == behind[k - before.len() - a.len()]);
        }
    }
}

/// Code numbered in a range is numbered in every wider one.
proof fn lemma_wider(a: Seq<SpecInstr>, lo: int, hi: int, lower: int, higher: int)
    requires
        labels_made(a, lo, hi),
        lower <= lo,
        hi <= higher,
    ensures
        labels_made(a, lower, higher),
{
    assert forall|k: int| 0 <= k < a.len() && (#[trigger] a[k]) is Label implies made(
        a[k]->Label_0,
        lower,
        higher,
    ) by {
        let (p, j) = choose|p: int, j: int|
            0 <= p < 4 && lo <= j < hi && a[k]->Label_0 == #[trigger] made_from(p, j);
        assert(a[k]->Label_0 == made_from(p, j));
    }
}

/// The code of an expression defines labels of its own numbers only: those
/// that its lowering took from the counter. It defines none of them twice.
pub proof fn labels_are_numbered(e: SpecExpr, c: Scope, lbl: int)
    requires
        lower(e, c, lbl) is Ok,
    ensures
        lower(e, c, lbl)->Ok_0.next >= lbl,
        labels_made(lower(e, c, lbl)->Ok_0.code, lbl, lower(e, c, lbl)->Ok_0.next),
        distinct_labels(lower(e, c, lbl)->Ok_0.code),
    decreases e, 1nat,
{
    match e {
        SpecExpr::Number(_) | SpecExpr::Boolean(_) | SpecExpr::Id(_) => {},
        SpecExpr::Tuple(_) => {
            case_tuple(e, c, lbl);
        },
        SpecExpr::Let(_, _) => {
            case_let(e, c, lbl);
        },
        SpecExpr::UnOp(_, _) => {
            case_unop(e, c, lbl);
        },
        SpecExpr::BinOp(_, _, _) => {
            case_binop(e, c, lbl);
        },
        SpecExpr::If(_, _, _) => {
            case_if(e, c, lbl);
        },
        SpecExpr::Loop(_) => {
            case_loop(e, c, lbl);
        },
        SpecExpr::Break(_) => {
            case_break(e, c, lbl);
        },
        SpecExpr::Assign(_, _) => {
            case_assign(e, c, lbl);
        },
        SpecExpr::TSet(_, _, _) => {
            case_tset(e, c, lbl);
        },
        SpecExpr::TGet(_, _) => {
            case_tget(e, c, lbl);
        },
        SpecExpr::Block(es) => {
            lemma_block(es, c, lbl);
        },
        SpecExpr::Call(_, _) => {
            case_call(e, c, lbl);
        },
    }
}

/// A tuple: its elements between plain code.
proof fn case_tuple(e: SpecExpr, c: Scope, lbl: int)
    requires
        e is Tuple,
        lower(e, c, lbl) is Ok,
    ensures
        lower(e, c, lbl)->Ok_0.next >= lbl,
        labels_made(lower(e, c, lbl)->Ok_0.code, lbl, lower(e, c, lbl)->Ok_0.next),
        distinct_labels(lower(e, c, lbl)->Ok_0.code),
    decreases e, 0nat,
{
    let whole = lower(e, c, lbl)->Ok_0;
    let none = Seq::<SpecInstr>::empty();
    let rax = reg(Reg::RAX);
    let es = e->Tuple_0;
    lemma_elements(es, c, 0, lbl);
    let inner = lower_elements(es, c, 0, lbl)->Ok_0;
    lemma_plain_around(
        tuple_open(c.si, es.len() as int),
        inner.code,
        tuple_close(c.si),
        lbl,
        inner.next,
    );
    assert(whole.code =~= tuple_open(c.si, es.len() as int) + inner.code + tuple_close(c.si));
}

/// A `let`: its bindings, then its body.
proof fn case_let(e: SpecExpr, c: Scope, lbl: int)
    requires
        e is Let,
        lower(e, c, lbl) is Ok,
    ensures
        lower(e, c, lbl)->Ok_0.next >= lbl,
        labels_made(lower(e, c, lbl)->Ok_0.code, lbl, lower(e, c, lbl)->Ok_0.next),
        distinct_labels(lower(e, c, lbl)->Ok_0.code),
    decreases e, 0nat,
{
    let whole = lower(e, c, lbl)->Ok_0;
    let none = Seq::<SpecInstr>::empty();
    let rax = reg(Reg::RAX);
    let binds = e->Let_0;
    let body = *e->Let_1;
    lemma_bindings(binds, c, lbl);
    let b = lower_bindings(binds, c, lbl)->Ok_0;
    let inner = Scope { si: b.si, env: b.env, ..c };
    labels_are_numbered(body, inner, b.next);
    let rest = lower(body, inner, b.next)->Ok_0;
    lemma_join(b.code, rest.code, lbl, b.next, rest.next);
    assert(whole.code == b.code + rest.code);
}

/// A unary operation: its operand, then plain code.
proof fn case_unop(e: SpecExpr, c: Scope, lbl: int)
    requires
        e is UnOp,
        lower(e, c, lbl) is Ok,
    ensures
        lower(e, c, lbl)->Ok_0.next >= lbl,
        labels_made(lower(e, c, lbl)->Ok_0.code, lbl, lower(e, c, lbl)->Ok_0.next),
        distinct_labels(lower(e, c, lbl)->Ok_0.code),
    decreases e, 0nat,
{
    let whole = lower(e, c, lbl)->Ok_0;
    let none = Seq::<SpecInstr>::empty();
    let rax = reg(Reg::RAX);
    let op = e->UnOp_0;
    let operand = *e->UnOp_1;
    labels_are_numbered(operand, c, lbl);
    let first = lower(operand, c, lbl)->Ok_0;
    assert(plain(unary_code(op, c.si)));
    lemma_plain_around(none, first.code, unary_code(op, c.si), lbl, first.next);
    assert(whole.code =~= none + first.code + unary_code(op, c.si));
}

/// A binary operation: its operands, each before plain code.
proof fn case_binop(e: SpecExpr, c: Scope, lbl: int)
    requires
        e is BinOp,
        lower(e, c, lbl) is Ok,
    ensures
        lower(e, c, lbl)->Ok_0.next >= lbl,
        labels_made(lower(e, c, lbl)->Ok_0.code, lbl, lower(e, c, lbl)->Ok_0.next),
        distinct_labels(lower(e, c, lbl)->Ok_0.code),
    decreases e, 0nat,
{
    let whole = lower(e, c, lbl)->Ok_0;
    let none = Seq::<SpecInstr>::empty();
    let rax = reg(Reg::RAX);
    let op = e->BinOp_0;
    let left = *e->BinOp_1;
    let right = *e->BinOp_2;
    labels_are_numbered(right, c, lbl);
    let r = lower(right, c, lbl)->Ok_0;
    let above = Scope { si: c.si + 1, ..c };
    labels_are_numbered(left, above, r.next);
    let l = lower(left, above, r.next)->Ok_0;
    let keep = seq![SpecInstr::Mov(slot(c.si), rax)];
    assert(plain(binary_code(op, c.si)));
    lemma_plain_around(none, r.code, keep, lbl, r.next);
    lemma_plain_around(none, l.code, binary_code(op, c.si), r.next, l.next);
    lemma_join(
        none + r.code + keep,
        none + l.code + binary_code(op, c.si),
        lbl,
        r.next,
        l.next,
    );
    assert(whole.code =~= (none + r.code + keep) + (none + l.code + binary_code(op, c.si)));
}

/// An `if`: its two labels, of its own number, and its three parts.
proof fn case_if(e: SpecExpr, c: Scope, lbl: int)
    requires
        e is If,
        lower(e, c, lbl) is Ok,
    ensures
        lower(e, c, lbl)->Ok_0.next >= lbl,
        labels_made(lower(e, c, lbl)->Ok_0.code, lbl, lower(e, c, lbl)->Ok_0.next),
        distinct_labels(lower(e, c, lbl)->Ok_0.code),
    decreases e, 0nat,
{
    let whole = lower(e, c, lbl)->Ok_0;
    let none = Seq::<SpecInstr>::empty();
    let rax = reg(Reg::RAX);
    let cond = *e->If_0;
    let first = *e->If_1;
    let second = *e->If_2;
    labels_are_numbered(cond, c, lbl + 1);
    let a = lower(cond, c, lbl + 1)->Ok_0;
    labels_are_numbered(first, c, a.next);
    let b = lower(first, c, a.next)->Ok_0;
    labels_are_numbered(second, c, b.next);
    let d = lower(second, c, b.next)->Ok_0;
    lemma_branch(lbl, a.code, b.code, d.code, a.next, b.next, d.next);
}

/// A loop: its two labels, of its own number, and its body.
proof fn case_loop(e: SpecExpr, c: Scope, lbl: int)
    requires
        e is Loop,
        lower(e, c, lbl) is Ok,
    ensures
        lower(e, c, lbl)->Ok_0.next >= lbl,
        labels_made(lower(e, c, lbl)->Ok_0.code, lbl, lower(e, c, lbl)->Ok_0.next),
        distinct_labels(lower(e, c, lbl)->Ok_0.code),
    decreases e, 0nat,
{
    let whole = lower(e, c, lbl)->Ok_0;
    let none = Seq::<SpecInstr>::empty();
    let rax = reg(Reg::RAX);
    let body = *e->Loop_0;
    labels_are_numbered(body, Scope { loop_num: lbl, ..c }, lbl + 1);
    let b = lower(body, Scope { loop_num: lbl, ..c }, lbl + 1)->Ok_0;
    lemma_loop(lbl, b.code, b.next);
}

/// A `break`: its value, then a jump.
proof fn case_break(e: SpecExpr, c: Scope, lbl: int)
    requires
        e is Break,
        lower(e, c, lbl) is Ok,
    ensures
        lower(e, c, lbl)->Ok_0.next >= lbl,
        labels_made(lower(e, c, lbl)->Ok_0.code, lbl, lower(e, c, lbl)->Ok_0.next),
        distinct_labels(lower(e, c, lbl)->Ok_0.code),
    decreases e, 0nat,
{
    let whole = lower(e, c, lbl)->Ok_0;
    let none = Seq::<SpecInstr>::empty();
    let rax = reg(Reg::RAX);
    let value = *e->Break_0;
    labels_are_numbered(value, c, lbl);
    let v = lower(value, c, lbl)->Ok_0;
    let jump = seq![SpecInstr::Jmp(loop_exit(c.loop_num))];
    lemma_plain_around(none, v.code, jump, lbl, v.next);
    assert(whole.code =~= none + v.code + jump);
}

/// An assignment: its value, then a store.
proof fn case_assign(e: SpecExpr, c: Scope, lbl: int)
    requires
        e is Assign,
        lower(e, c, lbl) is Ok,
    ensures
        lower(e, c, lbl)->Ok_0.next >= lbl,
        labels_made(lower(e, c, lbl)->Ok_0.code, lbl, lower(e, c, lbl)->Ok_0.next),
        distinct_labels(lower(e, c, lbl)->Ok_0.code),
    decreases e, 0nat,
{
    let whole = lower(e, c, lbl)->Ok_0;
    let none = Seq::<SpecInstr>::empty();
    let rax = reg(Reg::RAX);
    let name = e->Assign_0;
    let value = *e->Assign_1;
    labels_are_numbered(value, c, lbl);
    let v = lower(value, c, lbl)->Ok_0;
    let keep = seq![SpecInstr::Mov(c.env[name].operand(), rax)];
    lemma_plain_around(none, v.code, keep, lbl, v.next);
    assert(whole.code =~= none + v.code + keep);
}

/// A tuple write: its three parts, each before plain code.
proof fn case_tset(e: SpecExpr, c: Scope, lbl: int)
    requires
        e is TSet,
        lower(e, c, lbl) is Ok,
    ensures
        lower(e, c, lbl)->Ok_0.next >= lbl,
        labels_made(lower(e, c, lbl)->Ok_0.code, lbl, lower(e, c, lbl)->Ok_0.next),
        distinct_labels(lower(e, c, lbl)->Ok_0.code),
    decreases e, 0nat,
{
    let whole = lower(e, c, lbl)->Ok_0;
    let none = Seq::<SpecInstr>::empty();
    let rax = reg(Reg::RAX);
    let tuple = *e->TSet_0;
    let index = *e->TSet_1;
    let value = *e->TSet_2;
    labels_are_numbered(index, c, lbl);
    let i = lower(index, c, lbl)->Ok_0;
    let above = Scope { si: c.si + 1, ..c };
    labels_are_numbered(value, above, i.next);
    let v = lower(value, above, i.next)->Ok_0;
    let top = Scope { si: c.si + 2, ..c };
    labels_are_numbered(tuple, top, v.next);
    let t = lower(tuple, top, v.next)->Ok_0;
    let keep = seq![SpecInstr::Mov(slot(c.si + 1), rax)];
    let first = none + i.code + index_code(c.si);
    let second = none + v.code + keep;
    let third = none + t.code + store_code(c.si);
    lemma_plain_around(none, i.code, index_code(c.si), lbl, i.next);
    lemma_plain_around(none, v.code, keep, i.next, v.next);
    lemma_plain_around(none, t.code, store_code(c.si), v.next, t.next);
    lemma_join(first, second, lbl, i.next, v.next);
    lemma_join(first + second, third, lbl, v.next, t.next);
    assert(whole.code =~= (first + second) + third);
}

/// A tuple read: its two parts, each before plain code.
proof fn case_tget(e: SpecExpr, c: Scope, lbl: int)
    requires
        e is TGet,
        lower(e, c, lbl) is Ok,
    ensures
        lower(e, c, lbl)->Ok_0.next >= lbl,
        labels_made(lower(e, c, lbl)->Ok_0.code, lbl, lower(e, c, lbl)->Ok_0.next),
        distinct_labels(lower(e, c, lbl)->Ok_0.code),
    decreases e, 0nat,
{
    let whole = lower(e, c, lbl)->Ok_0;
    let none = Seq::<SpecInstr>::empty();
    let rax = reg(Reg::RAX);
    let tuple = *e->TGet_0;
    let index = *e->TGet_1;
    labels_are_numbered(index, c, lbl);
    let i = lower(index, c, lbl)->Ok_0;
    let above = Scope { si: c.si + 1, ..c };
    labels_are_numbered(tuple, above, i.next);
    let t = lower(tuple, above, i.next)->Ok_0;
    let first = none + i.code + index_code(c.si);
    let second = none + t.code + fetch_code(c.si);
    lemma_plain_around(none, i.code, index_code(c.si), lbl, i.next);
    lemma_plain_around(none, t.code, fetch_code(c.si), i.next, t.next);
    lemma_join(first, second, lbl, i.next, t.next);
    assert(whole.code =~= first + second);
}

/// A call: its arguments, then plain code.
proof fn case_call(e: SpecExpr, c: Scope, lbl: int)
    requires
        e is Call,
        lower(e, c, lbl) is Ok,
    ensures
        lower(e, c, lbl)->Ok_0.next >= lbl,
        labels_made(lower(e, c, lbl)->Ok_0.code, lbl, lower(e, c, lbl)->Ok_0.next),
        distinct_labels(lower(e, c, lbl)->Ok_0.code),
    decreases e, 0nat,
{
    let whole = lower(e, c, lbl)->Ok_0;
    let none = Seq::<SpecInstr>::empty();
    let rax = reg(Reg::RAX);
    let name = e->Call_0;
    let args = e->Call_1;
    let first = c.si + call_pad(c.si, args.len() as int);
    lemma_arguments(args, c, first, first + args.len(), lbl);
    let a = lower_arguments(args, c, first, first + args.len(), lbl)->Ok_0;
    let call = call_code(name, first + args.len() - 1);
    lemma_plain_around(none, a.code, call, lbl, a.next);
    assert(whole.code =~= none + a.code + call);
}

/// The labels of an `if` and of its parts.
proof fn lemma_branch(
    n: int,
    a: Seq<SpecInstr>,
    b: Seq<SpecInstr>,
    d: Seq<SpecInstr>,
    na: int,
    nb: int,
    nd: int,
)
    requires
        n + 1 <= na <= nb <= nd,
        labels_made(a, n + 1, na),
        labels_made(b, na, nb),
        labels_made(d, nb, nd),
        distinct_labels(a),
        distinct_labels(b),
        distinct_labels(d),
    ensures
        labels_made(branch_code(n, a, b, d), n, nd),
        distinct_labels(branch_code(n, a, b, d)),
{
    let code = branch_code(n, a, b, d);
    let ends = seq![SpecInstr::Label(made_from(0, n))];
    let close = seq![SpecInstr::Label(made_from(1, n))];
    let test = seq![
        SpecInstr::Cmp(reg(Reg::RAX), crate::utils::imm(3)),
        SpecInstr::Je(made_from(0, n)),
    ];
    let jump = seq![SpecInstr::Jmp(made_from(1, n))];
    // The parts in the order of their numbers: the labels of the `if`
    // itself, then the condition, then the branches.
    assert(labels_made(ends, n, n + 1)) by {
        assert(ends[0]->Label_0 == made_from(0, n));
    }
    assert(labels_made(close, n, n + 1)) by {
        assert(close[0]->Label_0 == made_from(1, n));
    }
    lemma_plain_around(Seq::empty(), a, test, n + 1, na);
    lemma_plain_around(Seq::empty(), b, jump, na, nb);
    let first = Seq::<SpecInstr>::empty() + a + test;
    let second = Seq::<SpecInstr>::empty() + b + jump;
    lemma_join(first, second, n + 1, na, nb);
    lemma_join(first + second, d, n + 1, nb, nd);
    let inner = (first + second) + d;
    // The two labels of the `if` stand among them, and differ from all.
    assert(code =~= first + second + ends + d + close);
    assert forall|i: int, j: int|
        0 <= i < j < code.len() && (#[trigger] code[i]) is Label && (#[trigger] code[j]) is Label
        implies code[i] != code[j] by {
        let at_else = first.len() + second.len();
        let at_endif = code.len() - 1;
        made_labels_differ(0, n, 1, n);
        if i == at_else || j == at_else || i == at_endif || j == at_endif {
            // One of the two is a label of the `if`: the other has another
            // stem or a higher number.
            let k = if i == at_else || i == at_endif {
                j
            } else {
                i
            };
            if k != at_else && k != at_endif {
                let pos = if k < at_else {
                    k
                } else {
                    k - 1
                };
                assert(code[k] == inner[pos]);
                let (p, x) = choose|p: int, x: int|
                    0 <= p < 4 && n + 1 <= x < nd && inner[pos]->Label_0 == #[trigger] made_from(
                        p,
                        x,
                    );
                made_labels_differ(p, x, 0, n);
                made_labels_differ(p, x, 1, n);
            }
        } else {
            let pi = if i < at_else {
                i
            } else {
                i - 1
            };
            let pj = if j < at_else {
                j
            } else {
                j - 1
            };
            assert(code[i] == inner[pi]);
            assert(code[j] == inner[pj]);
        }
    }
    let la = a.len() as int;
    let lb = b.len() as int;
    lemma_wider(a, n + 1, na, n, nd);
    lemma_wider(b, na, nb, n, nd);
    lemma_wider(d, nb, nd, n, nd);
    assert(made_from(0, n) == label("else_"@ + decimal_text(n)));
    assert(made_from(1, n) == label("endif_"@ + decimal_text(n)));
    assert forall|k: int| 0 <= k < code.len() && (#[trigger] code[k]) is Label implies made(
        code[k]->Label_0,
        n,
        nd,
    ) by {
        if k < la {
            assert(code[k] == a[k]);
        } else if k < la + 2 {
        } else if k < la + 2 + lb {
            assert(code[k] == b[k - la - 2]);
        } else if k == la + 2 + lb {
        } else if k == la + 3 + lb {
            assert(code[k]->Label_0 == made_from(0, n));
        } else if k < la + 4 + lb + d.len() {
            assert(code[k] == d[k - la - 4 - lb]);
        } else {
            assert(code[k]->Label_0 == made_from(1, n));
        }
    }
}

/// The labels of a loop and of its body.
proof fn lemma_loop(n: int, body: Seq<SpecInstr>, next: int)
    requires
        n + 1 <= next,
        labels_made(body, n + 1, next),
        distinct_labels(body),
    ensures
        labels_made(loop_code(n, body), n, next),
        distinct_labels(loop_code(n, body)),
{
    let code = loop_code(n, body);
    assert forall|i: int, j: int|
        0 <= i < j < code.len() && (#[trigger] code[i]) is Label && (#[trigger] code[j]) is Label
        implies code[i] != code[j] by {
        made_labels_differ(2, n, 3, n);
        if i == 0 || j == code.len() - 1 {
            let k = if i == 0 && j < code.len() - 1 {
                j
            } else {
                i
            };
            if 0 < k < 1 + body.len() {
                assert(code[k] == body[k - 1]);
                let (p, x) = choose|p: int, x: int|
                    0 <= p < 4 && n + 1 <= x < next && body[k - 1]->Label_0 == #[trigger] made_from(
                        p,
                        x,
                    );
                made_labels_differ(p, x, 2, n);
                made_labels_differ(p, x, 3, n);
            }
        } else {
            if j < 1 + body.len() {
                assert(code[i] == body[i - 1]);
                assert(code[j] == body[j - 1]);
            }
        }
    }
    lemma_wider(body, n + 1, next, n, next);
    assert(made_from(2, n) == label("loop_"@ + decimal_text(n)));
    assert(made_from(3, n) == loop_exit(n));
    assert forall|k: int| 0 <= k < code.len() && (#[trigger] code[k]) is Label implies made(
        code[k]->Label_0,
        n,
        next,
    ) by {
        if k == 0 {
            assert(code[k]->Label_0 == made_from(2, n));
        } else if k < 1 + body.len() {
            assert(code[k] == body[k - 1]);
        } else if k == 1 + body.len() {
        } else {
            assert(code[k]->Label_0 == made_from(3, n));
        }
    }
}

/// The same of the expressions of a block.
proof fn lemma_block(es: Seq<SpecExpr>, c: Scope, lbl: int)
    requires
        lower_block(es, c, lbl) is Ok,
    ensures
        lower_block(es, c, lbl)->Ok_0.next >= lbl,
        labels_made(lower_block(es, c, lbl)->Ok_0.code, lbl, lower_block(es, c, lbl)->Ok_0.next),
        distinct_labels(lower_block(es, c, lbl)->Ok_0.code),
    decreases es, 0nat,
{
    if es.len() > 0 {
        labels_are_numbered(es[0], c, lbl);
        let first = lower(es[0], c, lbl)->Ok_0;
        lemma_block(es.drop_first(), c, first.next);
        let rest = lower_block(es.drop_first(), c, first.next)->Ok_0;
        lemma_join(first.code, rest.code, lbl, first.next, rest.next);
    }
}

/// The same of the elements of a tuple.
proof fn lemma_elements(es: Seq<SpecExpr>, c: Scope, index: int, lbl: int)
    requires
        lower_elements(es, c, index, lbl) is Ok,
    ensures
        lower_elements(es, c, index, lbl)->Ok_0.next >= lbl,
        labels_made(
            lower_elements(es, c, index, lbl)->Ok_0.code,
            lbl,
            lower_elements(es, c, index, lbl)->Ok_0.next,
        ),
        distinct_labels(lower_elements(es, c, index, lbl)->Ok_0.code),
    decreases es, 0nat,
{
    if es.len() > 0 {
        let inner = Scope { si: c.si + 1, ..c };
        labels_are_numbered(es[0], inner, lbl);
        let first = lower(es[0], inner, lbl)->Ok_0;
        lemma_elements(es.drop_first(), c, index + 1, first.next);
        let rest = lower_elements(es.drop_first(), c, index + 1, first.next)->Ok_0;
        let put = tuple_put(c.si, index);
        lemma_plain_around(Seq::empty(), first.code, put, lbl, first.next);
        lemma_join(Seq::<SpecInstr>::empty() + first.code + put, rest.code, lbl, first.next, rest.next);
        assert(Seq::<SpecInstr>::empty() + first.code + put =~= first.code + put);
    }
}

/// The same of the arguments of a call.
proof fn lemma_arguments(args: Seq<SpecExpr>, c: Scope, first: int, above: int, lbl: int)
    requires
        lower_arguments(args, c, first, above, lbl) is Ok,
    ensures
        lower_arguments(args, c, first, above, lbl)->Ok_0.next >= lbl,
        labels_made(
            lower_arguments(args, c, first, above, lbl)->Ok_0.code,
            lbl,
            lower_arguments(args, c, first, above, lbl)->Ok_0.next,
        ),
        distinct_labels(lower_arguments(args, c, first, above, lbl)->Ok_0.code),
    decreases args, 0nat,
{
    if args.len() > 0 {
        let inner = Scope { si: above, ..c };
        labels_are_numbered(args[0], inner, lbl);
        let a = lower(args[0], inner, lbl)->Ok_0;
        lemma_arguments(args.drop_first(), c, first, above, a.next);
        let rest = lower_arguments(args.drop_first(), c, first, above, a.next)->Ok_0;
        let keep = seq![SpecInstr::Mov(slot(first + args.len() - 1), reg(Reg::RAX))];
        lemma_plain_around(Seq::empty(), a.code, keep, lbl, a.next);
        lemma_join(Seq::<SpecInstr>::empty() + a.code + keep, rest.code, lbl, a.next, rest.next);
        assert(Seq::<SpecInstr>::empty() + a.code + keep =~= a.code + keep);
    }
}

/// The same of the bindings of a `let`.
proof fn lemma_bindings(binds: Seq<(Seq<char>, SpecExpr)>, c: Scope, lbl: int)
    requires
        lower_bindings(binds, c, lbl) is Ok,
    ensures
        lower_bindings(binds, c, lbl)->Ok_0.next >= lbl,
        labels_made(
            lower_bindings(binds, c, lbl)->Ok_0.code,
            lbl,
            lower_bindings(binds, c, lbl)->Ok_0.next,
        ),
        distinct_labels(lower_bindings(binds, c, lbl)->Ok_0.code),
    decreases binds, 0nat,
{
    if binds.len() > 0 {
        labels_are_numbered(binds[0].1, c, lbl);
        let first = lower(binds[0].1, c, lbl)->Ok_0;
        let inner = Scope {
            si: c.si + 1,
            env: c.env.insert(binds[0].0, slot_loc(c.si)),
            ..c
        };
        lemma_bindings(binds.drop_first(), inner, first.next);
        let rest = lower_bindings(binds.drop_first(), inner, first.next)->Ok_0;
        let keep = seq![SpecInstr::Mov(slot(c.si), reg(Reg::RAX))];
        lemma_plain_around(Seq::empty(), first.code, keep, lbl, first.next);
        lemma_join(Seq::<SpecInstr>::empty() + first.code + keep, rest.code, lbl, first.next, rest.next);
        assert(Seq::<SpecInstr>::empty() + first.code + keep =~= first.code + keep);
    }
}

} // verus!
