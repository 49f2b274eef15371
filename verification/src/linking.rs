//! The code of a whole program: where the code of each function stands in
//! it, and that no label is defined twice in it.

use crate::error::ParseError;
use crate::evaluation::found;
use crate::labels::{distinct_labels, labels_are_numbered, made, made_from, made_labels_differ,
    stem};
use crate::lowering::{arities, lower, lower_function, lower_functions, lower_program, main_scope};
use crate::parser::{defn_name, function_names, parsed_defn, parsed_defns, parsed_params,
    parsed_program, symbol};
use crate::simulation::{callable, function_stands, inside, linked, stands};
use crate::syntax::SpecTree;
use crate::text::decimal_text;
use crate::types::{SpecFunction, SpecInstr, SpecProgram, SpecVal};
use crate::utils::{is_digit, is_letter, label, valid_identifier};
use vstd::prelude::*;

verus! {

/// The code of a program: that of its functions, then that of its main
/// expression.
pub open spec fn program_code(p: SpecProgram) -> Seq<SpecInstr> {
    lower_program(p)->Ok_0.0 + lower_program(p)->Ok_0.1
}

/// Where the code of the main expression begins in the code of the
/// program.
pub open spec fn entry(p: SpecProgram) -> int {
    lower_program(p)->Ok_0.0.len() as int
}

/// Whether the functions are named as the parser leaves them: each with a
/// name of its own that has the shape of an identifier, and with
/// parameters of different names.
pub open spec fn well_named(fns: Seq<SpecFunction>) -> bool {
    &&& forall|i: int, j: int| 0 <= i < j < fns.len() ==> fns[i].name != fns[j].name
    &&& forall|i: int| 0 <= i < fns.len() ==> valid_identifier(#[trigger] fns[i].name)
    &&& forall|i: int, a: int, b: int|
        0 <= i < fns.len() && 0 <= a < b < fns[i].args.len() ==> #[trigger] fns[i].args[a]
            != #[trigger] fns[i].args[b]
}

/// Whether the label `t` is the name of one of the functions from index
/// `from` up to `to`.
pub open spec fn named(t: SpecVal, fns: Seq<SpecFunction>, from: int, to: int) -> bool {
    exists|i: int| from <= i < to && t == label(#[trigger] fns[i].name)
}

/// Whether every label that `code` defines is the name of one of the
/// functions from index `from` up to `to`, or numbered from `lo` up to
/// `hi`.
pub open spec fn labels_known(
    code: Seq<SpecInstr>,
    fns: Seq<SpecFunction>,
    from: int,
    to: int,
    lo: int,
    hi: int,
) -> bool {
    forall|k: int|
        0 <= k < code.len() && (#[trigger] code[k]) is Label ==> named(
            code[k]->Label_0,
            fns,
            from,
            to,
        ) || made(code[k]->Label_0, lo, hi)
}

/// No name of the shape of an identifier is a label that the compiler
/// makes: those hold an underscore.
pub proof fn name_is_not_made(name: Seq<char>, p: int, j: int)
    requires
        valid_identifier(name),
        0 <= p < 4,
    ensures
        label(name) != made_from(p, j),
{
    reveal_strlit("else_");
    reveal_strlit("endif_");
    reveal_strlit("loop_");
    reveal_strlit("endloop_");
    let made = stem(p) + decimal_text(j);
    let at = stem(p).len() - 1;
    assert(made[at] == '_');
    if name == made {
        assert(is_letter(name[at]) || is_digit(name[at]));
    }
}

/// Two labels of different functions, or of different numbers, or one of
/// each kind, differ.
proof fn lemma_apart(
    x: SpecVal,
    y: SpecVal,
    fns: Seq<SpecFunction>,
    from: int,
    mid_f: int,
    to: int,
    lo: int,
    mid: int,
    hi: int,
)
    requires
        well_named(fns),
        0 <= from <= mid_f <= to <= fns.len(),
        named(x, fns, from, mid_f) || made(x, lo, mid),
        named(y, fns, mid_f, to) || made(y, mid, hi),
    ensures
        x != y,
{
    if named(x, fns, from, mid_f) {
        let i = choose|i: int| from <= i < mid_f && x == label(#[trigger] fns[i].name);
        if named(y, fns, mid_f, to) {
            let j = choose|j: int| mid_f <= j < to && y == label(#[trigger] fns[j].name);
            assert(fns[i].name != fns[j].name);
        } else {
            let (q, n) = choose|q: int, n: int|
                0 <= q < 4 && mid <= n < hi && y == #[trigger] made_from(q, n);
            name_is_not_made(fns[i].name, q, n);
        }
    } else {
        let (p, k) = choose|p: int, k: int|
            0 <= p < 4 && lo <= k < mid && x == #[trigger] made_from(p, k);
        if named(y, fns, mid_f, to) {
            let j = choose|j: int| mid_f <= j < to && y == label(#[trigger] fns[j].name);
            name_is_not_made(fns[j].name, p, k);
        } else {
            let (q, n) = choose|q: int, n: int|
                0 <= q < 4 && mid <= n < hi && y == #[trigger] made_from(q, n);
            made_labels_differ(p, k, q, n);
        }
    }
}

/// A label that is known in a range of functions and numbers is known in
/// every wider one.
proof fn lemma_known_wider(
    x: SpecVal,
    fns: Seq<SpecFunction>,
    from: int,
    to: int,
    lo: int,
    hi: int,
    before: int,
    behind: int,
    lower: int,
    higher: int,
)
    requires
        named(x, fns, from, to) || made(x, lo, hi),
        before <= from,
        to <= behind,
        lower <= lo,
        hi <= higher,
    ensures
        named(x, fns, before, behind) || made(x, lower, higher),
{
    if named(x, fns, from, to) {
        let i = choose|i: int| from <= i < to && x == label(#[trigger] fns[i].name);
        assert(before <= i < behind && x == label(fns[i].name));
    } else {
        let (p, k) = choose|p: int, k: int|
            0 <= p < 4 && lo <= k < hi && x == #[trigger] made_from(p, k);
        assert(0 <= p < 4 && lower <= k < higher && x == made_from(p, k));
    }
}

/// Code in two parts defines the labels of its parts, and none twice
/// where the parts define none twice and are of functions and numbers
/// apart.
proof fn lemma_join_known(
    a: Seq<SpecInstr>,
    b: Seq<SpecInstr>,
    fns: Seq<SpecFunction>,
    from: int,
    mid_f: int,
    to: int,
    lo: int,
    mid: int,
    hi: int,
)
    requires
        well_named(fns),
        0 <= from <= mid_f <= to <= fns.len(),
        lo <= mid <= hi,
        labels_known(a, fns, from, mid_f, lo, mid),
        labels_known(b, fns, mid_f, to, mid, hi),
        distinct_labels(a),
        distinct_labels(b),
    ensures
        labels_known(a + b, fns, from, to, lo, hi),
        distinct_labels(a + b),
{
    let code = a + b;
    assert forall|i: int, j: int|
        0 <= i < j < code.len() && (#[trigger] code[i]) is Label && (#[trigger] code[j]) is Label
        implies code[i] != code[j] by {
        if j < a.len() {
            assert(code[i] == a[i] && code[j] == a[j]);
        } else if i >= a.len() {
            assert(code[i] == b[i - a.len()] && code[j] == b[j - a.len()]);
        } else {
            assert(code[i] == a[i] && code[j] == b[j - a.len()]);
            lemma_apart(a[i]->Label_0, b[j - a.len()]->Label_0, fns, from, mid_f, to, lo, mid, hi);
        }
    }
    assert forall|k: int| 0 <= k < code.len() && (#[trigger] code[k]) is Label implies named(
        code[k]->Label_0,
        fns,
        from,
        to,
    ) || made(code[k]->Label_0, lo, hi) by {
        if k < a.len() {
            assert(code[k] == a[k]);
            lemma_known_wider(a[k]->Label_0, fns, from, mid_f, lo, mid, from, to, lo, hi);
        } else {
            assert(code[k] == b[k - a.len()]);
            lemma_known_wider(b[k - a.len()]->Label_0, fns, mid_f, to, mid, hi, from, to, lo, hi);
        }
    }
}

/// The code of one function defines its name and labels of its own
/// numbers, none twice.
proof fn lemma_function(fns: Seq<SpecFunction>, i: int, arity: Map<Seq<char>, i32>, lbl: int)
    requires
        well_named(fns),
        0 <= i < fns.len(),
        lower_function(fns[i], arity, lbl) is Ok,
    ensures
        lower_function(fns[i], arity, lbl)->Ok_0.next >= lbl,
        labels_known(
            lower_function(fns[i], arity, lbl)->Ok_0.code,
            fns,
            i,
            i + 1,
            lbl,
            lower_function(fns[i], arity, lbl)->Ok_0.next,
        ),
        distinct_labels(lower_function(fns[i], arity, lbl)->Ok_0.code),
{
    let f = fns[i];
    let body = lower(f.body, inside(f, arity), lbl)->Ok_0;
    let code = lower_function(f, arity, lbl)->Ok_0.code;
    let open = seq![SpecInstr::Label(label(f.name))];
    let close = seq![SpecInstr::Ret];
    assert(code == open + (body.code + close));
    labels_are_numbered(f.body, inside(f, arity), lbl);
    assert forall|k: int| 0 <= k < code.len() && (#[trigger] code[k]) is Label implies named(
        code[k]->Label_0,
        fns,
        i,
        i + 1,
    ) || made(code[k]->Label_0, lbl, body.next) by {
        if k == 0 {
            assert(code[k]->Label_0 == label(fns[i].name));
        } else if k <= body.code.len() {
            assert(code[k] == body.code[k - 1]);
        } else {
            assert(code[k] == close[0]);
        }
    }
    assert forall|a: int, b: int|
        0 <= a < b < code.len() && (#[trigger] code[a]) is Label && (#[trigger] code[b]) is Label
        implies code[a] != code[b] by {
        if b > body.code.len() {
            assert(code[b] == close[0]);
        } else {
            assert(code[b] == body.code[b - 1]);
            if a == 0 {
                let (q, n) = choose|q: int, n: int|
                    0 <= q < 4 && lbl <= n < body.next && body.code[b - 1]->Label_0
                        == #[trigger] made_from(q, n);
                name_is_not_made(f.name, q, n);
            } else {
                assert(code[a] == body.code[a - 1]);
            }
        }
    }
}

/// Whether the code of the function of index `i` stands in `code`.
pub open spec fn holds_function(
    code: Seq<SpecInstr>,
    fns: Seq<SpecFunction>,
    i: int,
    arity: Map<Seq<char>, i32>,
) -> bool {
    exists|q: int, l: int| #[trigger] function_stands(code, q, fns[i], arity, l)
}

/// The code of the functions from index `from` on defines their names and
/// labels of their own numbers, none twice; and the code of each stands in
/// it.
proof fn lemma_functions(fns: Seq<SpecFunction>, from: int, arity: Map<Seq<char>, i32>, lbl: int)
    requires
        well_named(fns),
        0 <= from <= fns.len(),
        lower_functions(fns.skip(from), arity, lbl) is Ok,
    ensures
        lower_functions(fns.skip(from), arity, lbl)->Ok_0.next >= lbl,
        labels_known(
            lower_functions(fns.skip(from), arity, lbl)->Ok_0.code,
            fns,
            from,
            fns.len() as int,
            lbl,
            lower_functions(fns.skip(from), arity, lbl)->Ok_0.next,
        ),
        distinct_labels(lower_functions(fns.skip(from), arity, lbl)->Ok_0.code),
        forall|i: int|
            from <= i < fns.len() ==> #[trigger] holds_function(
                lower_functions(fns.skip(from), arity, lbl)->Ok_0.code,
                fns,
                i,
                arity,
            ),
    decreases fns.len() - from,
{
    let fs = fns.skip(from);
    let all = lower_functions(fs, arity, lbl)->Ok_0;
    if from < fns.len() {
        assert(fs[0] == fns[from]);
        assert(fs.drop_first() =~= fns.skip(from + 1));
        let first = lower_function(fns[from], arity, lbl)->Ok_0;
        let rest = lower_functions(fns.skip(from + 1), arity, first.next)->Ok_0;
        assert(all.code == first.code + rest.code);
        lemma_function(fns, from, arity, lbl);
        lemma_functions(fns, from + 1, arity, first.next);
        lemma_join_known(
            first.code,
            rest.code,
            fns,
            from,
            from + 1,
            fns.len() as int,
            lbl,
            first.next,
            rest.next,
        );
        assert forall|i: int| from <= i < fns.len() implies #[trigger] holds_function(
            all.code,
            fns,
            i,
            arity,
        ) by {
            if i == from {
                assert(all.code.subrange(0, first.code.len() as int) =~= first.code);
                assert(function_stands(all.code, 0, fns[i], arity, lbl));
            } else {
                assert(holds_function(rest.code, fns, i, arity));
                let (q, l) = choose|q: int, l: int| #[trigger]
                    function_stands(rest.code, q, fns[i], arity, l);
                let part = lower_function(fns[i], arity, l)->Ok_0.code;
                assert(all.code.subrange(first.code.len() + q, first.code.len() + q + part.len())
                    =~= rest.code.subrange(q, q + part.len()));
                assert(function_stands(all.code, first.code.len() + q, fns[i], arity, l));
            }
        }
    }
}

/// The first function of a name is of that name.
proof fn lemma_found(fns: Seq<SpecFunction>, name: Seq<char>)
    ensures
        found(fns, name) matches Some(i) ==> 0 <= i < fns.len() && fns[i].name == name,
    decreases fns.len(),
{
    if fns.len() > 0 {
        lemma_found(fns.drop_last(), name);
    }
}

/// The table has, for each name in it, the number of parameters of the
/// function of that name.
proof fn lemma_arities(fns: Seq<SpecFunction>, name: Seq<char>)
    requires
        forall|i: int, j: int| 0 <= i < j < fns.len() ==> fns[i].name != fns[j].name,
        arities(fns).contains_key(name),
    ensures
        found(fns, name) matches Some(i) && 0 <= i < fns.len() && fns[i].name == name && arities(
            fns,
        )[name] == fns[i].args.len() as i32,
    decreases fns.len(),
{
    lemma_found(fns, name);
    if fns.len() > 0 {
        let before = fns.drop_last();
        lemma_found(before, name);
        if fns.last().name == name {
            if found(before, name) is Some {
                let i = found(before, name)->0;
                assert(before[i] == fns[i]);
                assert(fns[i].name != fns[fns.len() - 1].name);
            }
        } else {
            assert forall|i: int, j: int| 0 <= i < j < before.len() implies before[i].name
                != before[j].name by {
                assert(before[i] == fns[i] && before[j] == fns[j]);
            }
            lemma_arities(before, name);
            let i = found(before, name)->0;
            assert(before[i] == fns[i]);
        }
    }
}

/// In the code of a program that is lowered, no label is defined twice,
/// and each function of the table can be called.
pub proof fn program_is_linked(p: SpecProgram)
    requires
        well_named(p.defns),
        lower_program(p) is Ok,
        program_code(p).len() <= u64::MAX,
    ensures
        distinct_labels(program_code(p)),
        linked(program_code(p), p.defns, arities(p.defns)),
        stands(
            program_code(p),
            entry(p),
            lower(
                p.main,
                main_scope(arities(p.defns)),
                lower_functions(p.defns, arities(p.defns), 1)->Ok_0.next,
            )->Ok_0.code,
        ),
{
    let fns = p.defns;
    let arity = arities(fns);
    assert(fns.skip(0) =~= fns);
    let fs = lower_functions(fns, arity, 1)->Ok_0;
    let main = lower(p.main, main_scope(arity), fs.next)->Ok_0;
    let code = program_code(p);
    assert(code == fs.code + main.code);
    lemma_functions(fns, 0, arity, 1);
    labels_are_numbered(p.main, main_scope(arity), fs.next);
    assert(labels_known(main.code, fns, fns.len() as int, fns.len() as int, fs.next, main.next));
    lemma_join_known(
        fs.code,
        main.code,
        fns,
        0,
        fns.len() as int,
        fns.len() as int,
        1,
        fs.next,
        main.next,
    );
    assert(code.subrange(entry(p), entry(p) + main.code.len()) =~= main.code);
    assert forall|name: Seq<char>| #[trigger] arity.contains_key(name) implies callable(
        code,
        fns,
        arity,
        name,
    ) by {
        lemma_arities(fns, name);
        let i = found(fns, name)->0;
        let f = fns[i];
        assert(holds_function(fs.code, fns, i, arity));
        let (q, l) = choose|q: int, l: int| #[trigger] function_stands(fs.code, q, f, arity, l);
        let part = lower_function(f, arity, l)->Ok_0.code;
        assert(code.subrange(q, q + part.len()) =~= fs.code.subrange(q, q + part.len()));
        assert(function_stands(code, q, f, arity, l));
    }
}

/// Whether no name occurs twice in `names`.
pub open spec fn no_name_twice(names: Seq<Seq<char>>) -> bool {
    forall|a: int, b: int| 0 <= a < b < names.len() ==> names[a] != names[b]
}

/// The parameters that the parser accepts have different names.
proof fn lemma_params(decl: Seq<SpecTree>, from: int, acc: Seq<Seq<char>>)
    requires
        no_name_twice(acc),
        parsed_params(decl, from, acc) is Ok,
    ensures
        no_name_twice(parsed_params(decl, from, acc)->Ok_0),
    decreases decl.len() - from,
{
    if 0 <= from < decl.len() {
        let arg = symbol(decl[from])->0;
        let next = acc.push(arg);
        assert forall|a: int, b: int| 0 <= a < b < next.len() implies next[a] != next[b] by {
            if b == acc.len() {
                assert(acc[a] == next[a]);
                assert(!acc.contains(arg));
            } else {
                assert(acc[a] == next[a] && acc[b] == next[b]);
            }
        }
        lemma_params(decl, from + 1, next);
    }
}

/// The names that the parser collects are those of the definitions, in
/// order, behind those collected before; they differ and have the shape
/// of identifiers where those before do.
proof fn lemma_names(items: Seq<SpecTree>, from: int, acc: Seq<Seq<char>>)
    requires
        0 <= from,
        no_name_twice(acc),
        forall|k: int| 0 <= k < acc.len() ==> valid_identifier(#[trigger] acc[k]),
        function_names(items, from, acc) is Ok,
    ensures
        no_name_twice(function_names(items, from, acc)->Ok_0),
        forall|k: int|
            0 <= k < function_names(items, from, acc)->Ok_0.len() ==> valid_identifier(
                #[trigger] function_names(items, from, acc)->Ok_0[k],
            ),
        function_names(items, from, acc)->Ok_0.len() == acc.len() + (if from < items.len() - 1 {
            items.len() - 1 - from
        } else {
            0
        }),
        forall|k: int|
            from <= k < items.len() - 1 ==> defn_name(items[k]) == Ok::<Seq<char>, ParseError>(
                #[trigger] function_names(items, from, acc)->Ok_0[acc.len() + k - from],
            ),
    decreases items.len() - 1 - from,
{
    if from < items.len() - 1 {
        let name = defn_name(items[from])->Ok_0;
        let next = acc.push(name);
        assert forall|a: int, b: int| 0 <= a < b < next.len() implies next[a] != next[b] by {
            if b == acc.len() {
                assert(acc[a] == next[a]);
                assert(!acc.contains(name));
            } else {
                assert(acc[a] == next[a] && acc[b] == next[b]);
            }
        }
        assert forall|k: int| 0 <= k < next.len() implies valid_identifier(#[trigger] next[k]) by {
            if k < acc.len() {
                assert(acc[k] == next[k]);
            }
        }
        lemma_names(items, from + 1, next);
        lemma_names_kept(items, from + 1, next, acc.len() as int);
        let all = function_names(items, from, acc)->Ok_0;
        assert(all == function_names(items, from + 1, next)->Ok_0);
        assert forall|k: int| from <= k < items.len() - 1 implies defn_name(items[k]) == Ok::<
            Seq<char>,
            ParseError,
        >(#[trigger] all[acc.len() + k - from]) by {
            if k > from {
                assert(all[acc.len() + k - from] == function_names(
                    items,
                    from + 1,
                    next,
                )->Ok_0[next.len() + k - (from + 1)]);
            }
        }
    }
}

/// The names collected before stay where they are.
proof fn lemma_names_kept(items: Seq<SpecTree>, from: int, acc: Seq<Seq<char>>, k: int)
    requires
        0 <= from,
        0 <= k < acc.len(),
        function_names(items, from, acc) is Ok,
    ensures
        k < function_names(items, from, acc)->Ok_0.len(),
        function_names(items, from, acc)->Ok_0[k] == acc[k],
    decreases items.len() - 1 - from,
{
    if from < items.len() - 1 {
        let name = defn_name(items[from])->Ok_0;
        lemma_names_kept(items, from + 1, acc.push(name), k);
    }
}

/// The parser reads one definition for each tree but the last.
proof fn lemma_as_many_defns(
    items: Seq<SpecTree>,
    from: int,
    acc: Seq<SpecFunction>,
    fns: Seq<Seq<char>>,
)
    requires
        0 <= from,
        parsed_defns(items, from, acc, fns) is Ok,
    ensures
        parsed_defns(items, from, acc, fns)->Ok_0.len() == acc.len() + (if from < items.len() - 1 {
            items.len() - 1 - from
        } else {
            0
        }),
    decreases items.len() - 1 - from,
{
    if from < items.len() - 1 {
        let f = parsed_defn(items[from], fns)->Ok_0;
        lemma_as_many_defns(items, from + 1, acc.push(f), fns);
    }
}

/// The definitions that the parser reads are those of the trees, in
/// order, behind those read before.
proof fn lemma_defns(
    items: Seq<SpecTree>,
    from: int,
    acc: Seq<SpecFunction>,
    fns: Seq<Seq<char>>,
    k: int,
)
    requires
        0 <= from,
        parsed_defns(items, from, acc, fns) is Ok,
        0 <= k < parsed_defns(items, from, acc, fns)->Ok_0.len(),
    ensures
        k < acc.len() ==> parsed_defns(items, from, acc, fns)->Ok_0[k] == acc[k],
        k >= acc.len() ==> from <= k - acc.len() + from < items.len() - 1 && parsed_defn(
            items[k - acc.len() + from],
            fns,
        ) == Ok::<SpecFunction, ParseError>(parsed_defns(items, from, acc, fns)->Ok_0[k]),
    decreases items.len() - 1 - from,
{
    lemma_as_many_defns(items, from, acc, fns);
    if from < items.len() - 1 {
        let f = parsed_defn(items[from], fns)->Ok_0;
        lemma_defns(items, from + 1, acc.push(f), fns, k);
    }
}

/// The functions of a program that the parser accepts are named as the
/// proofs about whole programs ask: each has a name of its own with the
/// shape of an identifier, and parameters of different names.
pub proof fn parsed_program_is_well_named(tree: SpecTree)
    requires
        parsed_program(tree) is Ok,
    ensures
        well_named(parsed_program(tree)->Ok_0.defns),
{
    let items = tree->List_0;
    let none = Seq::<Seq<char>>::empty();
    let names = function_names(items, 0, none)->Ok_0;
    let defns = parsed_defns(items, 0, Seq::empty(), names)->Ok_0;
    assert(parsed_program(tree)->Ok_0.defns == defns);
    lemma_names(items, 0, none);
    lemma_as_many_defns(items, 0, Seq::empty(), names);
    assert forall|i: int| 0 <= i < defns.len() implies {
        &&& i < names.len()
        &&& (#[trigger] defns[i]).name == names[i]
        &&& no_name_twice(defns[i].args)
    } by {
        lemma_defns(items, 0, Seq::empty(), names, i);
        let decl = items[i]->List_0[1]->List_0;
        assert(defn_name(items[i]) == Ok::<Seq<char>, ParseError>(names[none.len() + i - 0]));
        lemma_params(decl, 1, none);
    }
    assert forall|i: int, j: int| 0 <= i < j < defns.len() implies defns[i].name
        != defns[j].name by {
        assert(defns[i].name == names[i] && defns[j].name == names[j]);
    }
    assert forall|i: int| 0 <= i < defns.len() implies valid_identifier(
        #[trigger] defns[i].name,
    ) by {
        assert(defns[i].name == names[i]);
    }
    assert forall|i: int, a: int, b: int|
        0 <= i < defns.len() && 0 <= a < b < defns[i].args.len() implies #[trigger] defns[i].args[a]
        != #[trigger] defns[i].args[b] by {
        assert(no_name_twice(defns[i].args));
    }
}

} // verus!
