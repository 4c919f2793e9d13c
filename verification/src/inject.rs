//! The export injector: publishes every mutable global that the module defines
//! with a constant as an export that the host can read by name.

use crate::module::{
    add_export, consistent, exports, globals, module_exports, module_globals,
    names_are_distinct, numbered_in_place, numbers_grow, view_of, ExportEntry, ExportView,
    GlobalEntry, ModuleView,
};
use crate::names::{export_name_of_global, global_export_name, lemma_export_names_differ};
use crate::walrus_types::{global_number, number_of_global};
use vstd::prelude::*;
use walrus::{ExportItem, InitExpr, Module};

verus! {

impl GlobalEntry {
    /// Whether the export injector publishes this global: it is mutable, and
    /// the module defines it with a constant value as initializer.
    pub open spec fn is_published(self) -> bool {
        self.mutable && self.init matches Some(InitExpr::Value(_))
    }

    /// The export that publishes this global.
    pub open spec fn export(self) -> ExportView {
        ExportView {
            name: global_export_name(global_number(self.id)),
            item: ExportItem::Global(self.id),
        }
    }

    /// Whether the export injector publishes this global.
    pub fn published(&self) -> (yes: bool)
        ensures
            yes == self.is_published(),
    {
        self.mutable && match self.init {
            Some(InitExpr::Value(_)) => true,
            _ => false,
        }
    }
}

/// Whether some export has this name.
pub open spec fn has_name(exports: Seq<ExportView>, name: Seq<char>) -> bool {
    exists|i: int| 0 <= i < exports.len() && (#[trigger] exports[i]).name == name
}

/// The exports after the injector has gone through `globals`: for each
/// published global in turn, its export is appended unless its name is
/// already exported.
pub open spec fn with_global_exports(
    exports: Seq<ExportView>,
    globals: Seq<GlobalEntry>,
) -> Seq<ExportView>
    decreases globals.len(),
{
    if globals.len() == 0 {
        exports
    } else {
        let before = with_global_exports(exports, globals.drop_last());
        let global = globals.last();
        if global.is_published() && !has_name(before, global.export().name) {
            before.push(global.export())
        } else {
            before
        }
    }
}

/// Whether some entry has this name.
pub fn name_is_taken(entries: &Vec<ExportEntry>, name: &String) -> (taken: bool)
    ensures
        taken == has_name(crate::module::export_views(entries@), name@),
{
    let ghost views = crate::module::export_views(entries@);
    let mut i: usize = 0;
    while i < entries.len()
        invariant
            i <= entries.len(),
            views == crate::module::export_views(entries@),
            forall|k: int| 0 <= k < i ==> (#[trigger] views[k]).name != name@,
        decreases entries.len() - i,
    {
        if entries[i].name == *name {
            assert(views[i as int].name == name@);
            return true;
        }
        i += 1;
    }
    false
}

/// Publishes the globals of the module: every mutable global that the module
/// defines with a constant gets the export `wg_global_<N>`, `N` being its
/// number, unless that name is exported already. Nothing else changes. The
/// numbers of the globals grow along their list, so no two globals have the
/// same `N`.
pub fn export_globals(module: &mut Module)
    requires
        consistent(*old(module)),
    ensures
        consistent(*final(module)),
        numbers_grow(view_of(*final(module)).globals),
        view_of(*final(module)) == (ModuleView {
            exports: with_global_exports(
                view_of(*old(module)).exports,
                view_of(*old(module)).globals,
            ),
            ..view_of(*old(module))
        }),
{
    let all = globals(module);
    let mut known = exports(module);
    let mut i: usize = 0;
    while i < all.len()
        invariant
            i <= all.len(),
            consistent(*module),
            numbers_grow(all@),
            all@ == view_of(*old(module)).globals,
            crate::module::export_views(known@) == view_of(*module).exports,
            view_of(*module) == (ModuleView {
                exports: with_global_exports(
                    view_of(*old(module)).exports,
                    all@.take(i as int),
                ),
                ..view_of(*old(module))
            }),
        decreases all.len() - i,
    {
        let ghost before = view_of(*module).exports;
        proof {
            assert(all@.take(i + 1).drop_last() =~= all@.take(i as int));
            assert(all@.take(i + 1).last() == all@[i as int]);
        }
        if all[i].published() {
            let name = export_name_of_global(number_of_global(all[i].id));
            if !name_is_taken(&known, &name) {
                assert(view_of(*module).has_global(all[i as int].id)) by {
                    assert(view_of(*module).globals[i as int].id == all[i as int].id);
                }
                add_export(module, name.as_str(), all[i].id);
                known.push(ExportEntry { name, item: ExportItem::Global(all[i].id) });
                assert(crate::module::export_views(known@) =~= before.push(all[i as int].export()));
            }
        }
        i += 1;
    }
    proof {
        assert(all@.take(i as int) =~= all@);
    }
}

/// The injector keeps every export that was there, in its place.
pub proof fn lemma_exports_are_kept(exports: Seq<ExportView>, globals: Seq<GlobalEntry>)
    ensures
        with_global_exports(exports, globals).len() >= exports.len(),
        with_global_exports(exports, globals).take(exports.len() as int) == exports,
    decreases globals.len(),
{
    if globals.len() > 0 {
        lemma_exports_are_kept(exports, globals.drop_last());
        let before = with_global_exports(exports, globals.drop_last());
        assert(with_global_exports(exports, globals).take(exports.len() as int) =~= before.take(
            exports.len() as int,
        ));
    } else {
        assert(exports.take(exports.len() as int) =~= exports);
    }
}

/// After the injector, the name of every published global is exported.
pub proof fn lemma_published_are_exported(
    exports: Seq<ExportView>,
    globals: Seq<GlobalEntry>,
    i: int,
)
    requires
        0 <= i < globals.len(),
        globals[i].is_published(),
    ensures
        has_name(with_global_exports(exports, globals), globals[i].export().name),
    decreases globals.len(),
{
    let before = with_global_exports(exports, globals.drop_last());
    let after = with_global_exports(exports, globals);
    let name = globals[i].export().name;
    if i == globals.len() - 1 {
        if !has_name(before, name) {
            assert(after[after.len() - 1].name == name);
        }
    } else {
        lemma_published_are_exported(exports, globals.drop_last(), i);
        let k = choose|k: int| 0 <= k < before.len() && (#[trigger] before[k]).name == name;
        assert(after[k].name == name);
    }
}

/// Every export that the injector adds is the export of a published global:
/// none is added for an immutable global, for an imported one, or for one
/// that another global initializes.
pub proof fn lemma_only_published_are_added(
    exports: Seq<ExportView>,
    globals: Seq<GlobalEntry>,
    j: int,
)
    requires
        exports.len() <= j < with_global_exports(exports, globals).len(),
    ensures
        exists|i: int|
            0 <= i < globals.len() && (#[trigger] globals[i]).is_published()
                && with_global_exports(exports, globals)[j] == globals[i].export(),
    decreases globals.len(),
{
    if globals.len() > 0 {
        let before = with_global_exports(exports, globals.drop_last());
        if j < before.len() {
            lemma_only_published_are_added(exports, globals.drop_last(), j);
            let i = choose|i: int|
                0 <= i < globals.drop_last().len() && (#[trigger] globals.drop_last()[i]).is_published()
                    && before[j] == globals.drop_last()[i].export();
            assert(globals[i].is_published() && with_global_exports(exports, globals)[j]
                == globals[i].export());
        } else {
            let i = globals.len() - 1;
            assert(globals[i].is_published() && with_global_exports(exports, globals)[j]
                == globals[i].export());
        }
    }
}

/// Where no two exports had the same name, none have afterwards: together
/// with the above, each published global has exactly one export of its name.
pub proof fn lemma_names_stay_distinct(exports: Seq<ExportView>, globals: Seq<GlobalEntry>)
    requires
        names_are_distinct(exports),
    ensures
        names_are_distinct(with_global_exports(exports, globals)),
    decreases globals.len(),
{
    if globals.len() > 0 {
        lemma_names_stay_distinct(exports, globals.drop_last());
    }
}

/// Whether no export has a name of the form `wg_global_<N>`.
pub open spec fn has_no_global_names(exports: Seq<ExportView>) -> bool {
    forall|k: int, n: nat|
        0 <= k < exports.len() ==> (#[trigger] exports[k]).name != #[trigger] global_export_name(n)
}

/// No two of the exports that the injector adds have the same name.
pub proof fn lemma_added_names_differ(
    exports: Seq<ExportView>,
    globals: Seq<GlobalEntry>,
    j: int,
    k: int,
)
    requires
        exports.len() <= j < k < with_global_exports(exports, globals).len(),
    ensures
        with_global_exports(exports, globals)[j].name != with_global_exports(
            exports,
            globals,
        )[k].name,
    decreases globals.len(),
{
    if globals.len() > 0 {
        let before = with_global_exports(exports, globals.drop_last());
        lemma_exports_are_kept(exports, globals.drop_last());
        if k < before.len() {
            lemma_added_names_differ(exports, globals.drop_last(), j, k);
        } else {
            assert(!has_name(before, globals.last().export().name));
            assert(before[j].name != globals.last().export().name);
        }
    }
}

/// Where the numbers of the globals grow along the list and no export has a
/// name of the form `wg_global_<N>`, the injector gives every published
/// global exactly one export of its name, which names that global, and gives
/// no other global an export of its name.
pub proof fn lemma_exports_by_number(exports: Seq<ExportView>, globals: Seq<GlobalEntry>, i: int)
    requires
        has_no_global_names(exports),
        numbers_grow(globals),
        0 <= i < globals.len(),
    ensures
        ({
            let out = with_global_exports(exports, globals);
            let name = globals[i].export().name;
            &&& globals[i].is_published() ==> exists|k: int|
                0 <= k < out.len() && #[trigger] out[k] == globals[i].export() && forall|j: int|
                    0 <= j < out.len() && (#[trigger] out[j]).name == name ==> j == k
            &&& !globals[i].is_published() ==> !has_name(out, name)
        }),
{
    let out = with_global_exports(exports, globals);
    let name = globals[i].export().name;
    lemma_exports_are_kept(exports, globals);
    // an export of this name is one that the injector added for this global
    assert forall|j: int| 0 <= j < out.len() && (#[trigger] out[j]).name == name implies j
        >= exports.len() && out[j] == globals[i].export() && globals[i].is_published() by {
        if j < exports.len() {
            assert(out.take(exports.len() as int)[j] == exports[j]);
            assert(exports[j].name != global_export_name(global_number(globals[i].id)));
        } else {
            lemma_only_published_are_added(exports, globals, j);
            let m = choose|m: int|
                0 <= m < globals.len() && (#[trigger] globals[m]).is_published() && out[j]
                    == globals[m].export();
            lemma_export_names_differ(global_number(globals[m].id), global_number(globals[i].id));
            if m < i {
                assert(global_number(globals[m].id) < global_number(globals[i].id));
            } else if i < m {
                assert(global_number(globals[i].id) < global_number(globals[m].id));
            }
        }
    }
    if globals[i].is_published() {
        lemma_published_are_exported(exports, globals, i);
        let k = choose|k: int| 0 <= k < out.len() && (#[trigger] out[k]).name == name;
        assert(out[k] == globals[i].export());
        assert forall|j: int| 0 <= j < out.len() && (#[trigger] out[j]).name == name implies j
            == k by {
            if j < k {
                lemma_added_names_differ(exports, globals, j, k);
            } else if k < j {
                lemma_added_names_differ(exports, globals, k, j);
            }
        }
    } else {
        if has_name(out, name) {
            let j = choose|j: int| 0 <= j < out.len() && (#[trigger] out[j]).name == name;
            assert(globals[i].is_published());
        }
    }
}

/// For a module whose globals are numbered in place and that exports nothing
/// under a name of the form `wg_global_<N>`: after the injector, the global
/// with index `index` has exactly one export `wg_global_<index>`, which names
/// it, if it is published, and there is no export of that name if it is not.
pub proof fn lemma_exports_by_index(module: walrus::Module, index: int)
    requires
        numbered_in_place(module),
        has_no_global_names(module_exports(module)),
        0 <= index < module_globals(module).len(),
    ensures
        ({
            let global = module_globals(module)[index];
            let name = global_export_name(index as nat);
            let out = with_global_exports(module_exports(module), module_globals(module));
            &&& global.export().name == name
            &&& global.is_published() ==> exists|k: int|
                0 <= k < out.len() && #[trigger] out[k] == global.export() && forall|j: int|
                    0 <= j < out.len() && (#[trigger] out[j]).name == name ==> j == k
            &&& !global.is_published() ==> !has_name(out, name)
        }),
{
    let globals = module_globals(module);
    assert(numbers_grow(globals)) by {
        assert forall|a: int, b: int| 0 <= a < b < globals.len() implies global_number(
            (#[trigger] globals[a]).id,
        ) < global_number((#[trigger] globals[b]).id) by {
            assert(global_number(globals[a].id) == a && global_number(globals[b].id) == b);
        }
    }
    assert(global_number(globals[index].id) == index);
    lemma_exports_by_number(module_exports(module), globals, index);
}

} // verus!
