//! What the rewriter adds to a module before it rewrites any function: the
//! scratch locals, the global for the address of the dirty array with its
//! export, and the imported functions that the host provides.

use crate::module::{
    add_export, add_global, add_import_function, add_local, add_type, consistent, export_views,
    exports, globals, view_of, ExportEntry, ExportView, GlobalEntry, ImportView, ModuleView,
    Signature,
};
use crate::inject::{has_name, with_global_exports};
use crate::names::{
    lemma_flags_name_is_no_global_name, DIRTY_FLAGS, HOST_MODULE, ON_GLOBAL_SET, ON_GROW,
};
use crate::splice::Hooks;
use crate::walrus_types::same_global;
use vstd::prelude::*;
use vstd::string::*;
use walrus::ir::Value;
use walrus::{
    ExportItem, FunctionId, GlobalId, InitExpr, InstrLocId, LocalId, MemoryId, Module, TypeId,
    ValType,
};

verus! {

/// The global that the last export of this name names, if that export names a
/// global.
pub open spec fn exported_global(exports: Seq<ExportView>, name: Seq<char>) -> Option<GlobalId>
    decreases exports.len(),
{
    if exports.len() == 0 {
        None
    } else {
        let last = exports.last();
        match last.item {
            ExportItem::Global(global) => if last.name == name {
                Some(global)
            } else {
                exported_global(exports.drop_last(), name)
            },
            _ => exported_global(exports.drop_last(), name),
        }
    }
}

/// Whether `global` is a mutable `i32` global of the module.
pub open spec fn holds_address(globals: Seq<GlobalEntry>, global: GlobalId) -> bool {
    exists|i: int|
        0 <= i < globals.len() && (#[trigger] globals[i]).id == global && globals[i].mutable
            && globals[i].ty == ValType::I32
}

/// The global that the module already exports as `wg_dirty_flags` and that
/// can hold the address of the dirty array.
pub open spec fn reusable_flags(view: ModuleView) -> Option<GlobalId> {
    match exported_global(view.exports, DIRTY_FLAGS@) {
        Some(global) => if holds_address(view.globals, global) {
            Some(global)
        } else {
            None
        },
        None => None,
    }
}

/// The signature of the functions that the host provides: `(i32) -> ()`.
pub open spec fn report_signature() -> Signature {
    Signature { params: seq![ValType::I32], results: seq![] }
}

impl Hooks {
    /// Whether the six scratch locals differ from each other and from every
    /// local in `locals`.
    pub open spec fn are_fresh(self, locals: Map<LocalId, ValType>) -> bool {
        &&& !locals.dom().contains(self.address)
        &&& !locals.dom().contains(self.value_i32)
        &&& !locals.dom().contains(self.value_i64)
        &&& !locals.dom().contains(self.value_f32)
        &&& !locals.dom().contains(self.value_f64)
        &&& !locals.dom().contains(self.value_v128)
        &&& self.address != self.value_i32 && self.address != self.value_i64 && self.address
            != self.value_f32 && self.address != self.value_f64 && self.address != self.value_v128
        &&& self.value_i32 != self.value_i64 && self.value_i32 != self.value_f32 && self.value_i32
            != self.value_f64 && self.value_i32 != self.value_v128
        &&& self.value_i64 != self.value_f32 && self.value_i64 != self.value_f64 && self.value_i64
            != self.value_v128
        &&& self.value_f32 != self.value_f64 && self.value_f32 != self.value_v128
        &&& self.value_f64 != self.value_v128
    }

    /// `locals` and the six scratch locals, each with its type.
    pub open spec fn with_scratch(self, locals: Map<LocalId, ValType>) -> Map<LocalId, ValType> {
        locals.insert(self.address, ValType::I32).insert(self.value_i32, ValType::I32).insert(
            self.value_i64,
            ValType::I64,
        ).insert(self.value_v128, ValType::V128).insert(self.value_f32, ValType::F32).insert(
            self.value_f64,
            ValType::F64,
        )
    }

    /// The global for the address of the dirty array, as the rewriter adds it:
    /// a mutable `i32` with initializer 0.
    pub open spec fn flags_global(self) -> GlobalEntry {
        GlobalEntry {
            id: self.dirty_flags,
            ty: ValType::I32,
            mutable: true,
            init: Some(InitExpr::Value(Value::I32(0))),
        }
    }

    /// `imports` and the functions that the host provides.
    pub open spec fn with_reports(self, imports: Seq<ImportView>) -> Seq<ImportView> {
        let grow = ImportView {
            module: HOST_MODULE@,
            name: ON_GROW@,
            func: self.on_grow,
            ty: self.report_type,
        };
        match self.on_global_set {
            Some(func) => imports.push(grow).push(
                ImportView {
                    module: HOST_MODULE@,
                    name: ON_GLOBAL_SET@,
                    func,
                    ty: self.report_type,
                },
            ),
            None => imports.push(grow),
        }
    }

    /// `signatures` and those of the functions that the host provides.
    pub open spec fn with_report_signatures(
        self,
        signatures: Map<FunctionId, TypeId>,
    ) -> Map<FunctionId, TypeId> {
        match self.on_global_set {
            Some(func) => signatures.insert(self.on_grow, self.report_type).insert(
                func,
                self.report_type,
            ),
            None => signatures.insert(self.on_grow, self.report_type),
        }
    }

    /// Whether what the rewriter adds for these hooks is new to the module:
    /// the scratch locals differ from each other and from every local that
    /// was there, the functions that the host provides differ from each
    /// other and from every function that was there, no instruction called
    /// them, and the global for the address of the dirty array, where it is
    /// not one that is reused, is none of the globals that were there.
    pub open spec fn are_new_to(self, before: ModuleView) -> bool {
        &&& self.are_fresh(before.locals)
        &&& !before.signatures.dom().contains(self.on_grow)
        &&& !before.has_import(self.on_grow)
        &&& !before.functions.contains(self.on_grow)
        &&& !before.calls(self.on_grow)
        &&& self.on_global_set matches Some(func) ==> {
            &&& func != self.on_grow
            &&& !before.signatures.dom().contains(func)
            &&& !before.has_import(func)
            &&& !before.functions.contains(func)
            &&& !before.calls(func)
        }
        &&& reusable_flags(before) is None ==> !before.has_global(self.dirty_flags)
    }

    /// The module after the rewriter has added to `before` what these hooks
    /// name: the scratch locals, the signature and the imported functions,
    /// and, unless the module had one that can be reused, the global for the
    /// address of the dirty array with its export `wg_dirty_flags`.
    pub open spec fn added_to(self, before: ModuleView) -> ModuleView {
        let reused = reusable_flags(before) is Some;
        ModuleView {
            locals: self.with_scratch(before.locals),
            types: before.types.insert(self.report_type, report_signature()),
            imports: self.with_reports(before.imports),
            signatures: self.with_report_signatures(before.signatures),
            globals: if reused {
                before.globals
            } else {
                before.globals.push(self.flags_global())
            },
            exports: if reused {
                before.exports
            } else {
                before.exports.push(
                    ExportView { name: DIRTY_FLAGS@, item: ExportItem::Global(self.dirty_flags) },
                )
            },
            ..before
        }
    }

    /// Whether everything that these hooks name is an item of the module.
    pub open spec fn fit(self, view: ModuleView) -> bool {
        &&& forall|local: LocalId| self.is_scratch(local) ==> view.locals.dom().contains(local)
        &&& view.has_global(self.dirty_flags)
        &&& view.memories.contains(self.memory)
        &&& view.has_import(self.on_grow)
        &&& self.on_global_set matches Some(func) ==> view.has_import(func)
    }
}

/// The global that the last export of this name names, if that export names a
/// global.
pub fn find_exported_global(entries: &Vec<ExportEntry>, name: &str) -> (found: Option<GlobalId>)
    ensures
        found == exported_global(export_views(entries@), name@),
{
    let wanted = String::from_str(name);
    let ghost views = export_views(entries@);
    let mut found: Option<GlobalId> = None;
    let mut i: usize = 0;
    while i < entries.len()
        invariant
            i <= entries.len(),
            wanted@ == name@,
            views == export_views(entries@),
            found == exported_global(views.take(i as int), name@),
        decreases entries.len() - i,
    {
        proof {
            assert(views.take(i + 1).drop_last() =~= views.take(i as int));
            assert(views.take(i + 1).last() == views[i as int]);
        }
        match entries[i].item {
            ExportItem::Global(global) => {
                if entries[i].name == wanted {
                    found = Some(global);
                }
            },
            _ => {},
        }
        i += 1;
    }
    proof {
        assert(views.take(i as int) =~= views);
    }
    found
}

/// Whether `global` is a mutable `i32` global among `entries`.
pub fn can_hold_address(entries: &Vec<GlobalEntry>, global: GlobalId) -> (yes: bool)
    ensures
        yes == holds_address(entries@, global),
{
    let mut i: usize = 0;
    while i < entries.len()
        invariant
            i <= entries.len(),
            forall|k: int|
                0 <= k < i ==> !((#[trigger] entries@[k]).id == global && entries@[k].mutable
                    && entries@[k].ty == ValType::I32),
        decreases entries.len() - i,
    {
        let is_i32 = match entries[i].ty {
            ValType::I32 => true,
            _ => false,
        };
        if is_i32 && entries[i].mutable && same_global(entries[i].id, global) {
            return true;
        }
        i += 1;
    }
    false
}

/// The global that the module already exports as `wg_dirty_flags` and that
/// can hold the address of the dirty array.
pub fn find_reusable_flags(module: &Module) -> (found: Option<GlobalId>)
    ensures
        found == reusable_flags(view_of(*module)),
{
    let exported = exports(module);
    match find_exported_global(&exported, DIRTY_FLAGS) {
        Some(global) => {
            let all = globals(module);
            if can_hold_address(&all, global) {
                Some(global)
            } else {
                None
            }
        },
        None => None,
    }
}

/// Adds to the module what inserted instructions refer to, and returns it:
/// six scratch locals, the signature `(i32) -> ()`, the import `on_grow` and,
/// where global writes are reported, `on_global_set`, and the global for the
/// address of the dirty array with its export, unless the module exports a
/// suitable global under that name already.
pub fn prepare(module: &mut Module, memory: MemoryId, report_global_sets: bool) -> (hooks: Hooks)
    requires
        consistent(*old(module)),
        view_of(*old(module)).memories.contains(memory),
    ensures
        consistent(*final(module)),
        hooks.memory == memory,
        hooks.on_global_set is Some <==> report_global_sets,
        hooks.are_new_to(view_of(*old(module))),
        reusable_flags(view_of(*old(module))) matches Some(global) ==> hooks.dirty_flags == global,
        view_of(*final(module)) == hooks.added_to(view_of(*old(module))),
        hooks.fit(view_of(*final(module))),
{
    let ghost before = view_of(*module);
    let reusable = find_reusable_flags(module);
    let address = add_local(module, ValType::I32);
    let value_i32 = add_local(module, ValType::I32);
    let value_i64 = add_local(module, ValType::I64);
    let value_v128 = add_local(module, ValType::V128);
    let value_f32 = add_local(module, ValType::F32);
    let value_f64 = add_local(module, ValType::F64);
    let dirty_flags = match reusable {
        Some(global) => {
            proof {
                let i = choose|i: int|
                    0 <= i < before.globals.len() && (#[trigger] before.globals[i]).id == global
                        && before.globals[i].mutable && before.globals[i].ty == ValType::I32;
                assert(view_of(*module).globals[i].id == global);
            }
            global
        },
        None => {
            let global = add_global(module, ValType::I32, true, 0);
            proof {
                let at = view_of(*module).globals.len() - 1;
                assert(view_of(*module).globals[at].id == global);
            }
            add_export(module, DIRTY_FLAGS, global);
            global
        },
    };
    let mut params: Vec<ValType> = Vec::new();
    params.push(ValType::I32);
    let results: Vec<ValType> = Vec::new();
    let report_type = add_type(module, &params, &results);
    assert(params@ =~= seq![ValType::I32] && results@ =~= seq![]);
    let ghost typed = view_of(*module);
    let on_grow = add_import_function(module, HOST_MODULE, ON_GROW, report_type);
    let ghost grown = view_of(*module);
    let ghost grow_at = grown.imports.len() - 1;
    proof {
        assert(grown.imports[grow_at].func == on_grow);
        if before.has_import(on_grow) {
            let i = choose|i: int|
                0 <= i < before.imports.len() && (#[trigger] before.imports[i]).func == on_grow;
            assert(typed.imports[i].func == on_grow);
        }
    }
    let on_global_set = if report_global_sets {
        let func = add_import_function(module, HOST_MODULE, ON_GLOBAL_SET, report_type);
        proof {
            if before.has_import(func) {
                let i = choose|i: int|
                    0 <= i < before.imports.len() && (#[trigger] before.imports[i]).func == func;
                assert(grown.imports[i].func == func);
            }
        }
        Some(func)
    } else {
        None
    };
    let hooks = Hooks {
        address,
        value_i32,
        value_i64,
        value_f32,
        value_f64,
        value_v128,
        dirty_flags,
        memory,
        report_type,
        on_grow,
        on_global_set,
        origin: InstrLocId::default(),
    };
    proof {
        let after = view_of(*module);
        let expected = hooks.added_to(before);
        assert(after.locals =~= expected.locals);
        assert(after.imports =~= expected.imports);
        assert(after.globals =~= expected.globals);
        assert(after.exports =~= expected.exports);
        assert(after.types =~= expected.types);
        assert(after.signatures =~= expected.signatures);
        assert(after.imports[grow_at].func == on_grow);
        if report_global_sets {
            assert(after.imports[after.imports.len() - 1].func == on_global_set->Some_0);
        }
        assert(after.has_global(dirty_flags));
    }
    hooks
}

/// Whether the name `wg_dirty_flags` is free or names a global that the
/// rewriter can reuse, so that tracking changes exports no name twice.
pub open spec fn flags_are_free_or_fit(view: ModuleView) -> bool {
    has_name(view.exports, DIRTY_FLAGS@) ==> reusable_flags(view) is Some
}

/// The export injector neither adds nor hides an export of the name
/// `wg_dirty_flags`.
pub proof fn lemma_injector_keeps_flags(exports: Seq<ExportView>, globals: Seq<GlobalEntry>)
    ensures
        exported_global(with_global_exports(exports, globals), DIRTY_FLAGS@) == exported_global(
            exports,
            DIRTY_FLAGS@,
        ),
        has_name(with_global_exports(exports, globals), DIRTY_FLAGS@) <==> has_name(
            exports,
            DIRTY_FLAGS@,
        ),
    decreases globals.len(),
{
    if globals.len() > 0 {
        let before = with_global_exports(exports, globals.drop_last());
        let after = with_global_exports(exports, globals);
        let added = globals.last().export();
        lemma_injector_keeps_flags(exports, globals.drop_last());
        lemma_flags_name_is_no_global_name(crate::walrus_types::global_number(globals.last().id));
        if after != before {
            assert(after == before.push(added));
            assert(after.drop_last() =~= before);
            assert(after.last() == added);
            if has_name(after, DIRTY_FLAGS@) {
                let k = choose|k: int|
                    0 <= k < after.len() && (#[trigger] after[k]).name == DIRTY_FLAGS@;
                assert(before[k].name == DIRTY_FLAGS@);
            }
            if has_name(before, DIRTY_FLAGS@) {
                let k = choose|k: int|
                    0 <= k < before.len() && (#[trigger] before[k]).name == DIRTY_FLAGS@;
                assert(after[k].name == DIRTY_FLAGS@);
            }
        }
    }
}

} // verus!
