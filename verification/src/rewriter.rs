//! The instruction rewriter: walks every sequence of every function that the
//! module defines and replaces its instructions by the rewritten ones.

use crate::machine::{lemma_prelude_is_balanced, Machine};
use crate::module::{
    block, consistent, entry_block, local_functions, module_entries, module_functions,
    module_nested, nested_in, nests, set_block, view_of, walk, AllBlocks, ModuleView,
};
use crate::options::TransformError;
use crate::splice::{
    has_unsupported, holds_unsupported, inserted, lemma_prelude_inserts, lemma_rewritten_at,
    lemma_rewritten_entries, lemma_rewritten_is_supported, Entry, Hooks,
};
use vstd::prelude::*;
use walrus::ir::InstrSeqId;
use walrus::{FunctionId, Module};

verus! {

/// The sequences of a function in the order of the walk: its entry, then the
/// sequences that it nests.
pub open spec fn sequences_of(module: Module, func: FunctionId) -> Seq<InstrSeqId> {
    seq![module_entries(module)[func]] + module_nested(module)[func]
}

/// The sequences of every function that the module defines, function by
/// function.
pub open spec fn all_sequences(module: Module) -> Seq<Seq<InstrSeqId>> {
    Seq::new(
        module_functions(module).len(),
        |i: int| sequences_of(module, module_functions(module)[i]),
    )
}

/// Whether none of the listed sequences of `func` holds an instruction that
/// the rewriter refuses.
pub open spec fn are_supported(view: ModuleView, func: FunctionId, list: Seq<InstrSeqId>) -> bool {
    forall|i: int| 0 <= i < list.len() ==> !has_unsupported(#[trigger] view.code[(func, list[i])])
}

/// Whether no sequence of any function that the module defines holds an
/// instruction that the rewriter refuses.
pub open spec fn is_supported(module: Module) -> bool {
    forall|i: int|
        0 <= i < module_functions(module).len() ==> are_supported(
            view_of(module),
            #[trigger] module_functions(module)[i],
            sequences_of(module, module_functions(module)[i]),
        )
}

/// The code after the listed sequences of `func` have been rewritten, one
/// after the other.
pub open spec fn rewritten_listed(
    code: Map<(FunctionId, InstrSeqId), Seq<Entry>>,
    hooks: Hooks,
    func: FunctionId,
    list: Seq<InstrSeqId>,
) -> Map<(FunctionId, InstrSeqId), Seq<Entry>>
    decreases list.len(),
{
    if list.len() == 0 {
        code
    } else {
        let before = rewritten_listed(code, hooks, func, list.drop_last());
        before.insert((func, list.last()), hooks.rewritten(before[(func, list.last())]))
    }
}

/// The code after the listed sequences of each function have been rewritten,
/// function by function.
pub open spec fn rewritten_code(
    code: Map<(FunctionId, InstrSeqId), Seq<Entry>>,
    hooks: Hooks,
    functions: Seq<FunctionId>,
    lists: Seq<Seq<InstrSeqId>>,
) -> Map<(FunctionId, InstrSeqId), Seq<Entry>>
    decreases functions.len(),
{
    if functions.len() == 0 || lists.len() != functions.len() {
        code
    } else {
        rewritten_listed(
            rewritten_code(code, hooks, functions.drop_last(), lists.drop_last()),
            hooks,
            functions.last(),
            lists.last(),
        )
    }
}

/// The functions that the module defines, in the order in which the module
/// lists them.
pub fn defined_functions(module: &Module) -> (functions: Vec<FunctionId>)
    ensures
        functions@ == module_functions(*module),
{
    local_functions(module)
}

/// The sequences of a function that the module defines, in the order of the
/// walk: its entry, then the sequences that it nests.
pub fn sequences(module: &Module, func: FunctionId) -> (list: Vec<InstrSeqId>)
    requires
        consistent(*module),
        module_functions(*module).contains(func),
    ensures
        list@ == sequences_of(*module, func),
        forall|i: int|
            0 <= i < list@.len() ==> view_of(*module).has_sequence(func, #[trigger] list@[i]),
{
    let mut found = AllBlocks { blocks: Vec::new() };
    found.blocks.push(entry_block(module, func));
    walk(module, func, &mut found);
    assert(found.blocks@ =~= sequences_of(*module, func));
    found.blocks
}

/// Whether none of the listed sequences of `func` holds an instruction that
/// the rewriter refuses.
pub fn check_supported(module: &Module, func: FunctionId, list: &Vec<InstrSeqId>) -> (ok: bool)
    requires
        forall|i: int|
            0 <= i < list@.len() ==> view_of(*module).has_sequence(func, #[trigger] list@[i]),
    ensures
        ok == are_supported(view_of(*module), func, list@),
{
    let mut i: usize = 0;
    while i < list.len()
        invariant
            i <= list.len(),
            forall|k: int|
                0 <= k < list@.len() ==> view_of(*module).has_sequence(func, #[trigger] list@[k]),
            are_supported(view_of(*module), func, list@.take(i as int)),
        decreases list.len() - i,
    {
        if holds_unsupported(block(module, func, list[i])) {
            return false;
        }
        proof {
            let next = list@.take(i + 1);
            assert forall|k: int| 0 <= k < next.len() implies !has_unsupported(
                #[trigger] view_of(*module).code[(func, next[k])],
            ) by {
                if k < i {
                    assert(list@.take(i as int)[k] == next[k]);
                }
            }
        }
        i += 1;
    }
    proof {
        assert(list@.take(i as int) =~= list@);
    }
    true
}

/// Lists the sequences of every function that the module defines, and
/// refuses the module where one of them holds an instruction that the
/// rewriter does not instrument. The module is only read.
pub fn survey(module: &Module) -> (result: Result<Vec<Vec<InstrSeqId>>, TransformError>)
    requires
        consistent(*module),
    ensures
        result is Ok <==> is_supported(*module),
        result matches Ok(lists) ==> lists_match(*module, lists),
        result matches Err(error) ==> error == TransformError::UnsupportedOpcode,
{
    let functions = defined_functions(module);
    let mut lists: Vec<Vec<InstrSeqId>> = Vec::new();
    let mut i: usize = 0;
    while i < functions.len()
        invariant
            i <= functions.len(),
            consistent(*module),
            functions@ == module_functions(*module),
            lists@.len() == i,
            forall|k: int|
                0 <= k < i ==> (#[trigger] lists@[k])@ == sequences_of(*module, functions@[k]),
            forall|k: int, j: int|
                0 <= k < i && 0 <= j < lists@[k]@.len() ==> view_of(*module).has_sequence(
                    functions@[k],
                    #[trigger] lists@[k]@[j],
                ),
            forall|k: int|
                0 <= k < i ==> are_supported(
                    view_of(*module),
                    #[trigger] functions@[k],
                    sequences_of(*module, functions@[k]),
                ),
        decreases functions.len() - i,
    {
        let list = sequences(module, functions[i]);
        if !check_supported(module, functions[i], &list) {
            return Err(TransformError::UnsupportedOpcode);
        }
        lists.push(list);
        i += 1;
    }
    Ok(lists)
}

/// Whether `lists` holds, for each function that the module defines, its
/// sequences in the order of the walk.
pub open spec fn lists_match(module: Module, lists: Vec<Vec<InstrSeqId>>) -> bool {
    &&& lists@.len() == module_functions(module).len()
    &&& forall|k: int|
        0 <= k < lists@.len() ==> (#[trigger] lists@[k])@ == sequences_of(
            module,
            module_functions(module)[k],
        )
    &&& forall|k: int, j: int|
        0 <= k < lists@.len() && 0 <= j < lists@[k]@.len() ==> view_of(module).has_sequence(
            module_functions(module)[k],
            #[trigger] lists@[k]@[j],
        )
}

/// The lists as sequences.
pub open spec fn listed(lists: Vec<Vec<InstrSeqId>>) -> Seq<Seq<InstrSeqId>> {
    Seq::new(lists@.len(), |k: int| lists@[k]@)
}

/// An instruction that preludes are made of names only items of a module
/// that the hooks fit.
pub proof fn lemma_inserted_names_own(hooks: Hooks, view: ModuleView, instr: walrus::ir::Instr)
    requires
        hooks.fit(view),
        hooks.inserts(instr),
    ensures
        view.names_only_own(instr),
{
    match instr {
        walrus::ir::Instr::LocalGet(get) => assert(hooks.is_scratch(get.local)),
        walrus::ir::Instr::LocalSet(set) => assert(hooks.is_scratch(set.local)),
        walrus::ir::Instr::LocalTee(tee) => assert(hooks.is_scratch(tee.local)),
        _ => {},
    }
}

/// What two sequences nest, one after the other, is what the two in a row
/// nest.
pub proof fn lemma_nested_concat(first: Seq<Entry>, second: Seq<Entry>)
    ensures
        nested_in(first + second) == nested_in(first) + nested_in(second),
    decreases second.len(),
{
    if second.len() == 0 {
        assert(first + second =~= first);
        assert(nested_in(first) + nested_in(second) =~= nested_in(first));
    } else {
        assert((first + second).drop_last() =~= first + second.drop_last());
        assert((first + second).last() == second.last());
        lemma_nested_concat(first, second.drop_last());
        assert(nested_in(first + second) =~= nested_in(first) + nested_in(second));
    }
}

/// A prelude nests no sequence.
pub proof fn lemma_prelude_nests_nothing(hooks: Hooks, instr: walrus::ir::Instr, n: int)
    requires
        0 <= n <= hooks.prelude(instr).len(),
    ensures
        nested_in(inserted(hooks.prelude(instr), hooks.origin).take(n)).len() == 0,
    decreases n,
{
    let all = inserted(hooks.prelude(instr), hooks.origin);
    if n > 0 {
        lemma_prelude_nests_nothing(hooks, instr, n - 1);
        lemma_prelude_inserts(hooks, instr, n - 1);
        assert(all.take(n).drop_last() =~= all.take(n - 1));
        assert(all.take(n).last().0 == hooks.prelude(instr)[n - 1]);
        assert(nests(hooks.prelude(instr)[n - 1]).len() == 0);
    }
}

/// A rewritten sequence nests the sequences that the input nests, in their
/// order: rewriting leaves the tree of sequences as it is.
pub proof fn lemma_rewritten_nests_the_same(hooks: Hooks, src: Seq<Entry>)
    ensures
        nested_in(hooks.rewritten(src)) == nested_in(src),
    decreases src.len(),
{
    if src.len() > 0 {
        let last = src.last();
        let prelude = inserted(hooks.prelude(last.0), hooks.origin);
        lemma_rewritten_nests_the_same(hooks, src.drop_last());
        lemma_nested_concat(hooks.rewritten(src.drop_last()), hooks.spliced(last));
        lemma_prelude_nests_nothing(hooks, last.0, hooks.prelude(last.0).len() as int);
        assert(prelude.take(prelude.len() as int) =~= prelude);
        assert(hooks.spliced(last).drop_last() =~= prelude);
        assert(hooks.spliced(last).last() == last);
        assert(nested_in(hooks.spliced(last)) =~= nests(last.0));
        assert(nested_in(hooks.rewritten(src)) =~= nested_in(src));
    }
}

/// Whether hooks fit a module does not depend on the module's code.
pub proof fn lemma_fit_whatever_code(hooks: Hooks, before: ModuleView, after: ModuleView)
    requires
        hooks.fit(before),
        after == (ModuleView { code: after.code, ..before }),
    ensures
        hooks.fit(after),
{
    let g = choose|i: int|
        0 <= i < before.globals.len() && (#[trigger] before.globals[i]).id == hooks.dirty_flags;
    assert(after.globals[g].id == hooks.dirty_flags);
    let grow = choose|i: int|
        0 <= i < before.imports.len() && (#[trigger] before.imports[i]).func == hooks.on_grow;
    assert(after.imports[grow].func == hooks.on_grow);
    if let Some(func) = hooks.on_global_set {
        let set = choose|i: int|
            0 <= i < before.imports.len() && (#[trigger] before.imports[i]).func == func;
        assert(after.imports[set].func == func);
    }
}

/// Rewriting listed sequences of a function changes no other sequence, keeps
/// every sequence in place, and neither brings in an instruction that the
/// rewriter refuses nor takes one out.
pub proof fn lemma_rewritten_listed(
    code: Map<(FunctionId, InstrSeqId), Seq<Entry>>,
    hooks: Hooks,
    func: FunctionId,
    list: Seq<InstrSeqId>,
)
    requires
        forall|i: int| 0 <= i < list.len() ==> code.dom().contains((func, #[trigger] list[i])),
    ensures
        rewritten_listed(code, hooks, func, list).dom() == code.dom(),
        forall|key: (FunctionId, InstrSeqId)|
            has_unsupported(#[trigger] rewritten_listed(code, hooks, func, list)[key])
                <==> has_unsupported(code[key]),
        forall|key: (FunctionId, InstrSeqId)|
            !(key.0 == func && list.contains(key.1)) ==> #[trigger] rewritten_listed(
                code,
                hooks,
                func,
                list,
            )[key] == code[key],
    decreases list.len(),
{
    if list.len() > 0 {
        let before = rewritten_listed(code, hooks, func, list.drop_last());
        let after = rewritten_listed(code, hooks, func, list);
        assert forall|i: int| 0 <= i < list.drop_last().len() implies code.dom().contains(
            (func, #[trigger] list.drop_last()[i]),
        ) by {
            assert(list.drop_last()[i] == list[i]);
        }
        lemma_rewritten_listed(code, hooks, func, list.drop_last());
        lemma_rewritten_is_supported(hooks, before[(func, list.last())]);
        assert(code.dom().contains((func, list[list.len() - 1])));
        assert(after.dom() =~= code.dom());
        assert forall|key: (FunctionId, InstrSeqId)|
            !(key.0 == func && list.contains(key.1)) implies #[trigger] after[key] == code[key] by {
            assert(list[list.len() - 1] == list.last());
            if key.0 == func && list.drop_last().contains(key.1) {
                let i = choose|i: int|
                    0 <= i < list.drop_last().len() && list.drop_last()[i] == key.1;
                assert(list[i] == key.1);
            }
        }
    }
}

/// Rewrites the listed sequences of a function that the module defines, one
/// after the other.
pub fn rewrite_function(module: &mut Module, hooks: &Hooks, func: FunctionId, list: &Vec<InstrSeqId>)
    requires
        consistent(*old(module)),
        hooks.fit(view_of(*old(module))),
        forall|i: int|
            0 <= i < list@.len() ==> view_of(*old(module)).has_sequence(func, #[trigger] list@[i]),
    ensures
        consistent(*final(module)),
        view_of(*final(module)) == (ModuleView {
            code: rewritten_listed(view_of(*old(module)).code, *hooks, func, list@),
            ..view_of(*old(module))
        }),
{
    let ghost start = view_of(*module);
    let mut i: usize = 0;
    while i < list.len()
        invariant
            i <= list.len(),
            consistent(*module),
            start == view_of(*old(module)),
            forall|k: int| 0 <= k < list@.len() ==> start.has_sequence(func, #[trigger] list@[k]),
            view_of(*module) == (ModuleView {
                code: rewritten_listed(start.code, *hooks, func, list@.take(i as int)),
                ..start
            }),
            hooks.fit(start),
        decreases list.len() - i,
    {
        let ghost now = view_of(*module);
        proof {
            assert forall|k: int| 0 <= k < list@.take(i as int).len() implies start.code.dom().contains(
                (func, #[trigger] list@.take(i as int)[k]),
            ) by {
                assert(start.has_sequence(func, list@[k]));
            }
            lemma_rewritten_listed(start.code, *hooks, func, list@.take(i as int));
            lemma_fit_whatever_code(*hooks, start, now);
            assert(start.has_sequence(func, list@[i as int]));
            assert(list@.take(i + 1).drop_last() =~= list@.take(i as int));
            assert(list@.take(i + 1).last() == list@[i as int]);
        }
        let src = block(module, func, list[i]);
        let out = hooks.splice_all(src);
        proof {
            lemma_rewritten_nests_the_same(*hooks, src@);
            assert forall|k: int| 0 <= k < out@.len() implies now.admits(
                func,
                list@[i as int],
                #[trigger] out@[k],
            ) by {
                lemma_rewritten_entries(*hooks, src@, k);
                if !src@.contains(out@[k]) {
                    lemma_inserted_names_own(*hooks, now, out@[k].0);
                }
            }
        }
        set_block(module, func, list[i], out);
        i += 1;
    }
    proof {
        assert(list@.take(i as int) =~= list@);
    }
}

/// Rewrites every listed sequence of every function that the module defines,
/// function by function.
pub fn rewrite(module: &mut Module, hooks: &Hooks, lists: &Vec<Vec<InstrSeqId>>)
    requires
        consistent(*old(module)),
        hooks.fit(view_of(*old(module))),
        lists@.len() == view_of(*old(module)).functions.len(),
        forall|k: int, j: int|
            0 <= k < lists@.len() && 0 <= j < lists@[k]@.len() ==> view_of(
                *old(module),
            ).has_sequence(view_of(*old(module)).functions[k], #[trigger] lists@[k]@[j]),
    ensures
        consistent(*final(module)),
        view_of(*final(module)) == (ModuleView {
            code: rewritten_code(
                view_of(*old(module)).code,
                *hooks,
                view_of(*old(module)).functions,
                listed(*lists),
            ),
            ..view_of(*old(module))
        }),
{
    let ghost start = view_of(*module);
    let functions = defined_functions(module);
    let mut i: usize = 0;
    while i < functions.len()
        invariant
            i <= functions.len(),
            consistent(*module),
            start == view_of(*old(module)),
            functions@ == start.functions,
            lists@.len() == functions@.len(),
            hooks.fit(start),
            view_of(*module) == (ModuleView {
                code: rewritten_code(
                    start.code,
                    *hooks,
                    functions@.take(i as int),
                    listed(*lists).take(i as int),
                ),
                ..start
            }),
            forall|k: int, j: int|
                0 <= k < lists@.len() && 0 <= j < lists@[k]@.len() ==> view_of(
                    *module,
                ).has_sequence(functions@[k], #[trigger] lists@[k]@[j]),
        decreases functions.len() - i,
    {
        let ghost now = view_of(*module);
        proof {
            assert(functions@.take(i + 1).drop_last() =~= functions@.take(i as int));
            assert(listed(*lists).take(i + 1).drop_last() =~= listed(*lists).take(i as int));
            assert(listed(*lists).take(i + 1).last() == lists@[i as int]@);
            assert(functions@.take(i + 1).last() == functions@[i as int]);
            assert forall|j: int| 0 <= j < lists@[i as int]@.len() implies now.code.dom().contains(
                (functions@[i as int], #[trigger] lists@[i as int]@[j]),
            ) by {
                assert(now.has_sequence(functions@[i as int], lists@[i as int]@[j]));
            }
            lemma_rewritten_listed(now.code, *hooks, functions@[i as int], lists@[i as int]@);
            lemma_fit_whatever_code(*hooks, start, now);
        }
        rewrite_function(module, hooks, functions[i], &lists[i]);
        i += 1;
    }
    proof {
        assert(functions@.take(i as int) =~= functions@);
        assert(listed(*lists).take(i as int) =~= listed(*lists));
    }
}

/// Where no sequence is listed twice, each listed sequence is rewritten
/// exactly once: it holds the rewriting of what it held.
pub proof fn lemma_listed_once(
    code: Map<(FunctionId, InstrSeqId), Seq<Entry>>,
    hooks: Hooks,
    func: FunctionId,
    list: Seq<InstrSeqId>,
    i: int,
)
    requires
        list.no_duplicates(),
        0 <= i < list.len(),
        forall|k: int| 0 <= k < list.len() ==> code.dom().contains((func, #[trigger] list[k])),
    ensures
        rewritten_listed(code, hooks, func, list)[(func, list[i])] == hooks.rewritten(
            code[(func, list[i])],
        ),
    decreases list.len(),
{
    let rest = list.drop_last();
    assert forall|k: int| 0 <= k < rest.len() implies code.dom().contains(
        (func, #[trigger] rest[k]),
    ) by {
        assert(rest[k] == list[k]);
    }
    lemma_rewritten_listed(code, hooks, func, rest);
    if i == list.len() - 1 {
        if rest.contains(list[i]) {
            let k = choose|k: int| 0 <= k < rest.len() && rest[k] == list[i];
            assert(list[k] == list[i]);
        }
    } else {
        assert(rest[i] == list[i]);
        lemma_listed_once(code, hooks, func, rest, i);
    }
}

/// Whether every listed sequence is a sequence of its function in `code`.
pub open spec fn lists_are_in(
    code: Map<(FunctionId, InstrSeqId), Seq<Entry>>,
    functions: Seq<FunctionId>,
    lists: Seq<Seq<InstrSeqId>>,
) -> bool {
    lists.len() == functions.len() && forall|k: int, j: int|
        0 <= k < lists.len() && 0 <= j < lists[k].len() ==> code.dom().contains(
            (functions[k], #[trigger] lists[k][j]),
        )
}

/// Rewriting the code keeps every sequence in place and changes none that is
/// not listed.
pub proof fn lemma_rewritten_code(
    code: Map<(FunctionId, InstrSeqId), Seq<Entry>>,
    hooks: Hooks,
    functions: Seq<FunctionId>,
    lists: Seq<Seq<InstrSeqId>>,
)
    requires
        lists_are_in(code, functions, lists),
    ensures
        rewritten_code(code, hooks, functions, lists).dom() == code.dom(),
        forall|key: (FunctionId, InstrSeqId)|
            (forall|k: int|
                0 <= k < functions.len() ==> !(functions[k] == key.0 && (#[trigger] lists[k]).contains(
                    key.1,
                ))) ==> #[trigger] rewritten_code(code, hooks, functions, lists)[key] == code[key],
    decreases functions.len(),
{
    if functions.len() > 0 {
        let before = rewritten_code(code, hooks, functions.drop_last(), lists.drop_last());
        let last = functions.len() - 1;
        assert(lists_are_in(code, functions.drop_last(), lists.drop_last())) by {
            assert forall|k: int, j: int|
                0 <= k < lists.drop_last().len() && 0 <= j < lists.drop_last()[k].len() implies code.dom().contains(
                (functions.drop_last()[k], #[trigger] lists.drop_last()[k][j]),
            ) by {
                assert(code.dom().contains((functions[k], lists[k][j])));
            }
        }
        lemma_rewritten_code(code, hooks, functions.drop_last(), lists.drop_last());
        assert forall|j: int| 0 <= j < lists[last].len() implies before.dom().contains(
            (functions[last], #[trigger] lists[last][j]),
        ) by {
            assert(code.dom().contains((functions[last], lists[last][j])));
        }
        lemma_rewritten_listed(before, hooks, functions[last], lists[last]);
        let after = rewritten_code(code, hooks, functions, lists);
        assert forall|key: (FunctionId, InstrSeqId)|
            (forall|k: int|
                0 <= k < functions.len() ==> !(functions[k] == key.0 && (#[trigger] lists[k]).contains(
                    key.1,
                ))) implies #[trigger] after[key] == code[key] by {
            assert(!(functions[last] == key.0 && lists[last].contains(key.1)));
            assert forall|k: int| 0 <= k < functions.drop_last().len() implies !(
            functions.drop_last()[k] == key.0 && (#[trigger] lists.drop_last()[k]).contains(key.1)) by {
                assert(!(functions[k] == key.0 && lists[k].contains(key.1)));
            }
        }
    }
}

/// Where no function and, within a function, no sequence is listed twice,
/// every listed sequence of every function is rewritten exactly once: after
/// the rewriter has run, it holds the rewriting of what it held.
pub proof fn lemma_rewritten_once(
    code: Map<(FunctionId, InstrSeqId), Seq<Entry>>,
    hooks: Hooks,
    functions: Seq<FunctionId>,
    lists: Seq<Seq<InstrSeqId>>,
    k: int,
    j: int,
)
    requires
        lists_are_in(code, functions, lists),
        functions.no_duplicates(),
        forall|n: int| 0 <= n < lists.len() ==> (#[trigger] lists[n]).no_duplicates(),
        0 <= k < functions.len(),
        0 <= j < lists[k].len(),
    ensures
        rewritten_code(code, hooks, functions, lists)[(functions[k], lists[k][j])]
            == hooks.rewritten(code[(functions[k], lists[k][j])]),
    decreases functions.len(),
{
    let before = rewritten_code(code, hooks, functions.drop_last(), lists.drop_last());
    let last = functions.len() - 1;
    let key = (functions[k], lists[k][j]);
    assert(lists_are_in(code, functions.drop_last(), lists.drop_last())) by {
        assert forall|n: int, m: int|
            0 <= n < lists.drop_last().len() && 0 <= m < lists.drop_last()[n].len() implies code.dom().contains(
            (functions.drop_last()[n], #[trigger] lists.drop_last()[n][m]),
        ) by {
            assert(code.dom().contains((functions[n], lists[n][m])));
        }
    }
    lemma_rewritten_code(code, hooks, functions.drop_last(), lists.drop_last());
    assert forall|m: int| 0 <= m < lists[last].len() implies before.dom().contains(
        (functions[last], #[trigger] lists[last][m]),
    ) by {
        assert(code.dom().contains((functions[last], lists[last][m])));
    }
    if k == last {
        assert forall|n: int| 0 <= n < functions.drop_last().len() implies !(
        functions.drop_last()[n] == key.0 && (#[trigger] lists.drop_last()[n]).contains(key.1)) by {
            assert(functions[n] != functions[k]);
        }
        assert(before[key] == code[key]);
        lemma_listed_once(before, hooks, functions[last], lists[last], j);
    } else {
        assert(functions.drop_last()[k] == functions[k] && lists.drop_last()[k] == lists[k]);
        assert forall|n: int| 0 <= n < lists.drop_last().len() implies (
        #[trigger] lists.drop_last()[n]).no_duplicates() by {
            assert(lists[n].no_duplicates());
        }
        lemma_rewritten_once(code, hooks, functions.drop_last(), lists.drop_last(), k, j);
        assert(functions[last] != functions[k]);
        lemma_rewritten_listed(before, hooks, functions[last], lists[last]);
    }
}

/// In the code that the rewriter leaves, every sequence holds the entries
/// that it held, in their order, each right behind its own prelude; and
/// whenever an entry is about to run, its prelude has handed the stack back
/// as it found it.
pub proof fn lemma_rewritten_code_is_balanced(
    code: Map<(FunctionId, InstrSeqId), Seq<Entry>>,
    hooks: Hooks,
    functions: Seq<FunctionId>,
    lists: Seq<Seq<InstrSeqId>>,
    k: int,
    j: int,
    i: int,
    machine: Machine,
)
    requires
        lists_are_in(code, functions, lists),
        functions.no_duplicates(),
        forall|n: int| 0 <= n < lists.len() ==> (#[trigger] lists[n]).no_duplicates(),
        0 <= k < functions.len(),
        0 <= j < lists[k].len(),
        0 <= i < code[(functions[k], lists[k][j])].len(),
        machine.ready_for(hooks, code[(functions[k], lists[k][j])][i].0),
    ensures
        ({
            let src = code[(functions[k], lists[k][j])];
            let out = rewritten_code(code, hooks, functions, lists)[(functions[k], lists[k][j])];
            &&& out == hooks.rewritten(src.take(i)) + inserted(
                hooks.prelude(src[i].0),
                hooks.origin,
            ) + seq![src[i]] + hooks.rewritten(src.skip(i + 1))
            &&& machine.run(hooks.prelude(src[i].0)) matches Some(after) && after.stack
                == machine.stack
        }),
{
    let src = code[(functions[k], lists[k][j])];
    lemma_rewritten_once(code, hooks, functions, lists, k, j);
    lemma_rewritten_at(hooks, src, i);
    lemma_prelude_is_balanced(machine, hooks, src[i].0);
}

/// Rewriting the code neither brings an instruction that the rewriter
/// refuses into a sequence nor takes one out.
pub proof fn lemma_rewritten_code_is_supported(
    code: Map<(FunctionId, InstrSeqId), Seq<Entry>>,
    hooks: Hooks,
    functions: Seq<FunctionId>,
    lists: Seq<Seq<InstrSeqId>>,
    key: (FunctionId, InstrSeqId),
)
    requires
        lists_are_in(code, functions, lists),
    ensures
        has_unsupported(rewritten_code(code, hooks, functions, lists)[key]) <==> has_unsupported(
            code[key],
        ),
    decreases functions.len(),
{
    if functions.len() > 0 {
        let before = rewritten_code(code, hooks, functions.drop_last(), lists.drop_last());
        let last = functions.len() - 1;
        assert(lists_are_in(code, functions.drop_last(), lists.drop_last())) by {
            assert forall|n: int, m: int|
                0 <= n < lists.drop_last().len() && 0 <= m < lists.drop_last()[n].len() implies code.dom().contains(
                (functions.drop_last()[n], #[trigger] lists.drop_last()[n][m]),
            ) by {
                assert(code.dom().contains((functions[n], lists[n][m])));
            }
        }
        lemma_rewritten_code(code, hooks, functions.drop_last(), lists.drop_last());
        lemma_rewritten_code_is_supported(
            code,
            hooks,
            functions.drop_last(),
            lists.drop_last(),
            key,
        );
        assert forall|m: int| 0 <= m < lists[last].len() implies before.dom().contains(
            (functions[last], #[trigger] lists[last][m]),
        ) by {
            assert(code.dom().contains((functions[last], lists[last][m])));
        }
        lemma_rewritten_listed(before, hooks, functions[last], lists[last]);
    }
}

} // verus!
