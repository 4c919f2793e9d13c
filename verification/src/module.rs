//! The editable module: what the transformer reads of it and does to it.
//!
//! The module itself is walrus's. Its contents, as far as the transformer
//! depends on them, have names here, and each call into walrus says over
//! those names what the call returns and how it changes the module.

use crate::splice::{call, Entry};
use crate::walrus_types::global_number;
use vstd::prelude::*;
use walrus::ir::{Instr, InstrSeqId};
use walrus::{
    ExportItem, FunctionId, GlobalId, InitExpr, LocalId, MemoryId, Module, TableId, TypeId,
    ValType,
};

verus! {

/// What the module says of one of its globals.
#[derive(Clone, Copy, Debug)]
pub struct GlobalEntry {
    pub id: GlobalId,
    pub ty: ValType,
    pub mutable: bool,
    /// The initializer, for a global that the module defines; `None` for an
    /// imported one.
    pub init: Option<InitExpr>,
}

/// One export of the module.
#[derive(Debug)]
pub struct ExportEntry {
    pub name: String,
    pub item: ExportItem,
}

/// One export of the module, in contracts.
pub struct ExportView {
    pub name: Seq<char>,
    pub item: ExportItem,
}

impl View for ExportEntry {
    type V = ExportView;

    open spec fn view(&self) -> ExportView {
        ExportView { name: self.name@, item: self.item }
    }
}

/// One imported function of the module.
pub struct ImportView {
    pub module: Seq<char>,
    pub name: Seq<char>,
    pub func: FunctionId,
    pub ty: TypeId,
}

/// A function signature.
pub struct Signature {
    pub params: Seq<ValType>,
    pub results: Seq<ValType>,
}

/// One table of the module.
pub struct TableView {
    pub id: TableId,
    pub initial: u32,
    pub maximum: Option<u32>,
    pub element: ValType,
}

/// One element segment of the module.
pub struct ElementView {
    /// The table and the offset in it, for a segment that is active.
    pub active: Option<(TableId, InitExpr)>,
    /// Whether the segment is only declared.
    pub declared: bool,
    pub element: ValType,
    pub members: Seq<Option<FunctionId>>,
}

/// One data segment of the module.
pub struct DataView {
    /// The memory, for a segment that is active.
    pub memory: Option<MemoryId>,
    /// Where an active segment goes, if that is a fixed address.
    pub absolute: Option<u32>,
    /// The global that holds where an active segment goes, if one does.
    pub relative: Option<GlobalId>,
    pub bytes: Seq<u8>,
}

/// Whether the bytes are a WebAssembly binary that the loader accepts.
pub uninterp spec fn decodes(bytes: Seq<u8>) -> bool;

/// Whether `module` is a module that the loader builds of `bytes`. It is a
/// relation and no function of the bytes: the identifiers in a module carry
/// a number that the process draws anew for every arena.
pub uninterp spec fn loads(bytes: Seq<u8>, module: Module) -> bool;

/// What walrus keeps true of every module that it loads: each identifier that
/// the module holds names one of its items, and the sequences of a function
/// nest without a cycle.
pub uninterp spec fn consistent(module: Module) -> bool;

/// The bytes that the emitter encodes the module to.
pub uninterp spec fn encoded(module: Module) -> Seq<u8>;

/// The exports, in the order in which the module lists them.
pub uninterp spec fn module_exports(module: Module) -> Seq<ExportView>;

/// The globals, in the order of their numbers.
pub uninterp spec fn module_globals(module: Module) -> Seq<GlobalEntry>;

/// The imported functions.
pub uninterp spec fn module_imports(module: Module) -> Seq<ImportView>;

/// The function signatures that the module declares.
pub uninterp spec fn module_types(module: Module) -> Map<TypeId, Signature>;

/// The locals of all functions, each with its type.
pub uninterp spec fn module_locals(module: Module) -> Map<LocalId, ValType>;

/// The memories, in the order in which the module lists them.
pub uninterp spec fn module_memories(module: Module) -> Seq<MemoryId>;

/// The functions that the module defines, in the order in which the module
/// lists them.
pub uninterp spec fn module_functions(module: Module) -> Seq<FunctionId>;

/// The entry sequence of each function that the module defines.
pub uninterp spec fn module_entries(module: Module) -> Map<FunctionId, InstrSeqId>;

/// For each function that the module defines, the sequences that its blocks,
/// loops and if/else arms introduce, as a depth-first walk from the entry
/// comes to them.
pub uninterp spec fn module_nested(module: Module) -> Map<FunctionId, Seq<InstrSeqId>>;

/// The instructions of each sequence of each function that the module defines.
pub uninterp spec fn module_code(module: Module) -> Map<(FunctionId, InstrSeqId), Seq<Entry>>;

/// The signature of each function of the module, imported or defined.
pub uninterp spec fn module_signatures(module: Module) -> Map<FunctionId, TypeId>;

/// The tables, in the order in which the module lists them.
pub uninterp spec fn module_tables(module: Module) -> Seq<TableView>;

/// The element segments, in the order in which the module lists them.
pub uninterp spec fn module_elements(module: Module) -> Seq<ElementView>;

/// The data segments, in the order in which the module lists them.
pub uninterp spec fn module_data(module: Module) -> Seq<DataView>;

/// The start function, if the module has one.
pub uninterp spec fn module_start(module: Module) -> Option<FunctionId>;

/// The contents of a module that the calls below keep or change.
pub struct ModuleView {
    pub exports: Seq<ExportView>,
    pub globals: Seq<GlobalEntry>,
    pub imports: Seq<ImportView>,
    pub types: Map<TypeId, Signature>,
    pub locals: Map<LocalId, ValType>,
    pub memories: Seq<MemoryId>,
    pub functions: Seq<FunctionId>,
    pub entries: Map<FunctionId, InstrSeqId>,
    pub nested: Map<FunctionId, Seq<InstrSeqId>>,
    pub code: Map<(FunctionId, InstrSeqId), Seq<Entry>>,
    pub signatures: Map<FunctionId, TypeId>,
    pub tables: Seq<TableView>,
    pub elements: Seq<ElementView>,
    pub data: Seq<DataView>,
    pub start: Option<FunctionId>,
}

/// The contents of `module`.
pub open spec fn view_of(module: Module) -> ModuleView {
    ModuleView {
        exports: module_exports(module),
        globals: module_globals(module),
        imports: module_imports(module),
        types: module_types(module),
        locals: module_locals(module),
        memories: module_memories(module),
        functions: module_functions(module),
        entries: module_entries(module),
        nested: module_nested(module),
        code: module_code(module),
        signatures: module_signatures(module),
        tables: module_tables(module),
        elements: module_elements(module),
        data: module_data(module),
        start: module_start(module),
    }
}

impl ModuleView {
    /// Whether `global` is a global of the module.
    pub open spec fn has_global(self, global: GlobalId) -> bool {
        exists|i: int| 0 <= i < self.globals.len() && (#[trigger] self.globals[i]).id == global
    }

    /// Whether `func` is an imported function of the module.
    pub open spec fn has_import(self, func: FunctionId) -> bool {
        exists|i: int| 0 <= i < self.imports.len() && (#[trigger] self.imports[i]).func == func
    }

    /// Whether `sequence` is a sequence of the function `func`, which the
    /// module defines.
    pub open spec fn has_sequence(self, func: FunctionId, sequence: InstrSeqId) -> bool {
        self.functions.contains(func) && self.code.dom().contains((func, sequence))
    }

    /// Whether some instruction of the module calls `func`.
    pub open spec fn calls(self, func: FunctionId) -> bool {
        is_called(self.code, func)
    }
}

/// Whether some instruction of some sequence is a call of `func`.
pub open spec fn is_called(code: Map<(FunctionId, InstrSeqId), Seq<Entry>>, func: FunctionId) -> bool {
    exists|key: (FunctionId, InstrSeqId), i: int|
        code.dom().contains(key) && 0 <= i < code[key].len() && (#[trigger] code[key][i]).0 == call(
            func,
        )
}

/// The sequences that an instruction nests: the body of a block or of a
/// loop, the two arms of an if/else, and none for any other instruction.
pub open spec fn nests(instr: Instr) -> Seq<InstrSeqId> {
    match instr {
        Instr::Block(block) => seq![block.seq],
        Instr::Loop(repeat) => seq![repeat.seq],
        Instr::IfElse(choice) => seq![choice.consequent, choice.alternative],
        _ => seq![],
    }
}

/// The sequences that the instructions of a sequence nest, in their order.
pub open spec fn nested_in(entries: Seq<Entry>) -> Seq<InstrSeqId>
    decreases entries.len(),
{
    if entries.len() == 0 {
        seq![]
    } else {
        nested_in(entries.drop_last()) + nests(entries.last().0)
    }
}

/// Whether no two exports have the same name.
pub open spec fn names_are_distinct(exports: Seq<ExportView>) -> bool {
    forall|i: int, j: int|
        0 <= i < j < exports.len() ==> (#[trigger] exports[i]).name != (#[trigger] exports[j]).name
}

/// Whether the numbers of the globals grow along the list, so that no two
/// globals have the same number.
pub open spec fn numbers_grow(globals: Seq<GlobalEntry>) -> bool {
    forall|i: int, j: int|
        0 <= i < j < globals.len() ==> global_number((#[trigger] globals[i]).id) < global_number(
            (#[trigger] globals[j]).id,
        )
}

/// Whether the number of every global is its place in the list: its index in
/// the binary that the module was loaded from.
pub open spec fn numbered_in_place(module: Module) -> bool {
    forall|i: int|
        0 <= i < module_globals(module).len() ==> global_number(
            (#[trigger] module_globals(module)[i]).id,
        ) == i
}

impl ModuleView {
    /// Whether `instr` is of a kind that the rewriter inserts and names only
    /// items of the module.
    pub open spec fn names_only_own(self, instr: walrus::ir::Instr) -> bool {
        match instr {
            walrus::ir::Instr::LocalGet(get) => self.locals.dom().contains(get.local),
            walrus::ir::Instr::LocalSet(set) => self.locals.dom().contains(set.local),
            walrus::ir::Instr::LocalTee(tee) => self.locals.dom().contains(tee.local),
            walrus::ir::Instr::GlobalGet(get) => self.has_global(get.global),
            walrus::ir::Instr::Call(call) => self.has_import(call.func),
            walrus::ir::Instr::Store(store) => self.memories.contains(store.memory),
            walrus::ir::Instr::Const(_) => true,
            walrus::ir::Instr::Binop(_) => true,
            _ => false,
        }
    }

    /// Whether `entry` may stand in the sequence in place of what is there: it
    /// is one of the entries of the sequence, or an instruction that names only
    /// items of the module and nests no sequence.
    pub open spec fn admits(self, func: FunctionId, sequence: InstrSeqId, entry: Entry) -> bool {
        self.code[(func, sequence)].contains(entry) || self.names_only_own(entry.0)
    }
}

/// Whether the module lists no function twice and a walk through a function
/// comes to no sequence twice: each sequence is the entry of one function or
/// the body of one block, of one loop or of one arm of one if/else.
pub open spec fn lists_once(module: Module) -> bool {
    &&& module_functions(module).no_duplicates()
    &&& forall|func: FunctionId| #[trigger]
        module_functions(module).contains(func) ==> (seq![module_entries(module)[func]]
            + module_nested(module)[func]).no_duplicates()
}

/// The views of the entries.
pub open spec fn export_views(entries: Seq<ExportEntry>) -> Seq<ExportView> {
    Seq::new(entries.len(), |i: int| entries[i]@)
}

/// `Module::from_buffer`: decodes and validates a binary. Whether it succeeds
/// depends on the bytes alone. A module that comes back is one that the
/// loader builds of these bytes. It is consistent, and
/// the loader has given every function and every block, loop and arm of an
/// if/else a sequence of its own. Its globals are numbered as in the binary,
/// imported ones first, and its validator has refused an export name that
/// occurs twice.
#[verifier::external_body]
pub(crate) fn load(bytes: &[u8]) -> (result: Result<Module, anyhow::Error>)
    ensures
        result is Ok <==> decodes(bytes@),
        result matches Ok(module) ==> loads(bytes@, module),
        result matches Ok(module) ==> consistent(module) && lists_once(module),
        result matches Ok(module) ==> numbered_in_place(module),
        result matches Ok(module) ==> names_are_distinct(module_exports(module)),
{
    Module::from_buffer(bytes)
}

/// `Module::emit_wasm`: encodes the module. The bytes depend on the module
/// alone; nothing else is claimed of them.
#[verifier::external_body]
pub(crate) fn encode(module: Module) -> (bytes: Vec<u8>)
    requires
        consistent(module),
    ensures
        bytes@ == encoded(module),
{
    let mut module = module;
    module.emit_wasm()
}

/// `ModuleGlobals::iter`: the globals, each with its identifier, its type, its
/// mutability and, where the module defines it, its initializer. The arena
/// is walked in the order of the numbers.
#[verifier::external_body]
pub(crate) fn globals(module: &Module) -> (entries: Vec<GlobalEntry>)
    ensures
        entries@ == module_globals(*module),
        numbers_grow(entries@),
{
    module.globals.iter().map(
        |global|
            GlobalEntry {
                id: global.id(),
                ty: global.ty,
                mutable: global.mutable,
                init: match global.kind {
                    walrus::GlobalKind::Local(init) => Some(init),
                    walrus::GlobalKind::Import(_) => None,
                },
            },
    ).collect()
}

/// `ModuleExports::iter`: the exports, each with its name and what it names.
#[verifier::external_body]
pub(crate) fn exports(module: &Module) -> (entries: Vec<ExportEntry>)
    ensures
        export_views(entries@) == module_exports(*module),
{
    module.exports.iter().map(
        |export| ExportEntry { name: export.name.clone(), item: export.item },
    ).collect()
}

/// `ModuleExports::add` with a global: appends one export that names the
/// global. Walrus does not look at the exports that are there.
#[verifier::external_body]
pub(crate) fn add_export(module: &mut Module, name: &str, global: GlobalId)
    requires
        consistent(*old(module)),
        view_of(*old(module)).has_global(global),
    ensures
        consistent(*final(module)),
        view_of(*final(module)) == (ModuleView {
            exports: view_of(*old(module)).exports.push(
                ExportView { name: name@, item: ExportItem::Global(global) },
            ),
            ..view_of(*old(module))
        }),
{
    module.exports.add(name, global);
}

/// `ModuleMemories::iter`: the identifiers of the memories.
#[verifier::external_body]
pub(crate) fn memories(module: &Module) -> (ids: Vec<MemoryId>)
    ensures
        ids@ == module_memories(*module),
{
    module.memories.iter().map(|memory| memory.id()).collect()
}

/// `ModuleLocals::add`: a new local of the given type, with an identifier that
/// no local had.
#[verifier::external_body]
pub(crate) fn add_local(module: &mut Module, ty: ValType) -> (local: LocalId)
    requires
        consistent(*old(module)),
    ensures
        consistent(*final(module)),
        !module_locals(*old(module)).dom().contains(local),
        module_locals(*final(module)) == module_locals(*old(module)).insert(local, ty),
        view_of(*final(module)) == (ModuleView {
            locals: module_locals(*final(module)),
            ..view_of(*old(module))
        }),
{
    module.locals.add(ty)
}

/// `ModuleGlobals::add_local` with an `i32` constant as initializer: appends a
/// global that the module defines. Its identifier is new, with a number
/// above those of all globals that were there.
#[verifier::external_body]
pub(crate) fn add_global(module: &mut Module, ty: ValType, mutable: bool, init: i32) -> (global:
    GlobalId)
    requires
        consistent(*old(module)),
    ensures
        consistent(*final(module)),
        !view_of(*old(module)).has_global(global),
        forall|i: int|
            0 <= i < module_globals(*old(module)).len() ==> global_number(
                (#[trigger] module_globals(*old(module))[i]).id,
            ) < global_number(global),
        view_of(*final(module)) == (ModuleView {
            globals: view_of(*old(module)).globals.push(
                GlobalEntry {
                    id: global,
                    ty,
                    mutable,
                    init: Some(InitExpr::Value(walrus::ir::Value::I32(init))),
                },
            ),
            ..view_of(*old(module))
        }),
{
    module.globals.add_local(ty, mutable, InitExpr::Value(walrus::ir::Value::I32(init)))
}

/// `ModuleTypes::add`: the identifier of the signature, which the module
/// declares from then on (it may have declared it before).
#[verifier::external_body]
pub(crate) fn add_type(module: &mut Module, params: &Vec<ValType>, results: &Vec<ValType>) -> (ty:
    TypeId)
    requires
        consistent(*old(module)),
    ensures
        consistent(*final(module)),
        module_types(*final(module)) == module_types(*old(module)).insert(
            ty,
            Signature { params: params@, results: results@ },
        ),
        view_of(*final(module)) == (ModuleView {
            types: module_types(*final(module)),
            ..view_of(*old(module))
        }),
{
    module.types.add(params, results)
}

/// `Module::add_import_func`: appends an imported function of the given
/// signature under the two names. Walrus does not look at the imports that
/// are there. The identifier is new: the module had no function with it, so
/// none of its instructions, which name functions of the module only, calls
/// it. Tables, segments and the start function are not touched.
#[verifier::external_body]
pub(crate) fn add_import_function(
    module: &mut Module,
    from: &str,
    name: &str,
    ty: TypeId,
) -> (func: FunctionId)
    requires
        consistent(*old(module)),
        view_of(*old(module)).types.dom().contains(ty),
    ensures
        consistent(*final(module)),
        !module_signatures(*old(module)).dom().contains(func),
        !view_of(*old(module)).has_import(func) && !module_functions(*old(module)).contains(func),
        !view_of(*old(module)).calls(func),
        module_imports(*final(module)) == module_imports(*old(module)).push(
            ImportView { module: from@, name: name@, func, ty },
        ),
        module_signatures(*final(module)) == module_signatures(*old(module)).insert(func, ty),
        module_tables(*final(module)) == module_tables(*old(module)),
        module_elements(*final(module)) == module_elements(*old(module)),
        module_data(*final(module)) == module_data(*old(module)),
        module_start(*final(module)) == module_start(*old(module)),
        view_of(*final(module)) == (ModuleView {
            imports: module_imports(*final(module)),
            signatures: module_signatures(*final(module)),
            ..view_of(*old(module))
        }),
{
    module.add_import_func(from, name, ty).0
}

/// `ModuleFunctions::iter_local`: the identifiers of the functions that the
/// module defines.
#[verifier::external_body]
pub(crate) fn local_functions(module: &Module) -> (ids: Vec<FunctionId>)
    ensures
        ids@ == module_functions(*module),
{
    module.funcs.iter_local().map(|(id, _)| id).collect()
}

/// `LocalFunction::entry_block`: the entry sequence of a function that the
/// module defines.
#[verifier::external_body]
pub(crate) fn entry_block(module: &Module, func: FunctionId) -> (entry: InstrSeqId)
    requires
        consistent(*module),
        module_functions(*module).contains(func),
    ensures
        entry == module_entries(*module)[func],
        view_of(*module).has_sequence(func, entry),
{
    module.funcs.get(func).kind.unwrap_local().entry_block()
}

/// The instructions (`InstrSeq::instrs`) of a sequence (`LocalFunction::block`)
/// of a function that the module defines.
#[verifier::external_body]
pub(crate) fn block(module: &Module, func: FunctionId, sequence: InstrSeqId) -> (instrs: &Vec<Entry>)
    requires
        view_of(*module).has_sequence(func, sequence),
    ensures
        instrs@ == module_code(*module)[(func, sequence)],
{
    &module.funcs.get(func).kind.unwrap_local().block(sequence).instrs
}

/// Assigns `InstrSeq::instrs` of a sequence (`LocalFunction::block_mut`) of a
/// function that the module defines. Each new entry is an entry of the
/// sequence as it was or names only items of the module, so the module stays
/// consistent. The new entries nest the sequences that the old ones nested,
/// in their order, so a walk comes to the same sequences as before. Nothing
/// but the instructions of this sequence changes.
#[verifier::external_body]
pub(crate) fn set_block(
    module: &mut Module,
    func: FunctionId,
    sequence: InstrSeqId,
    instrs: Vec<Entry>,
)
    requires
        consistent(*old(module)),
        view_of(*old(module)).has_sequence(func, sequence),
        forall|i: int|
            0 <= i < instrs@.len() ==> view_of(*old(module)).admits(
                func,
                sequence,
                #[trigger] instrs@[i],
            ),
        nested_in(instrs@) == nested_in(module_code(*old(module))[(func, sequence)]),
    ensures
        consistent(*final(module)),
        module_code(*final(module)) == module_code(*old(module)).insert((func, sequence), instrs@),
        view_of(*final(module)) == (ModuleView {
            code: module_code(*final(module)),
            ..view_of(*old(module))
        }),
{
    module.funcs.get_mut(func).kind.unwrap_local_mut().block_mut(sequence).instrs = instrs;
}

/// Collects the sequences that a walk through a function comes to.
pub struct AllBlocks {
    pub blocks: Vec<InstrSeqId>,
}

impl<'instr> walrus::ir::Visitor<'instr> for AllBlocks {
    /// Notes the sequence of a block behind what was noted before.
    fn visit_block(&mut self, instr: &walrus::ir::Block)
        ensures
            final(self).blocks@ == old(self).blocks@.push(instr.seq),
    {
        self.blocks.push(instr.seq);
    }

    /// Notes the sequence of a loop behind what was noted before.
    fn visit_loop(&mut self, instr: &walrus::ir::Loop)
        ensures
            final(self).blocks@ == old(self).blocks@.push(instr.seq),
    {
        self.blocks.push(instr.seq);
    }

    /// Notes the two sequences of an if/else behind what was noted before:
    /// first the consequent, then the alternative.
    fn visit_if_else(&mut self, instr: &walrus::ir::IfElse)
        ensures
            final(self).blocks@ == old(self).blocks@.push(instr.consequent).push(instr.alternative),
    {
        self.blocks.push(instr.consequent);
        self.blocks.push(instr.alternative);
    }
}

/// `walrus::ir::dfs_in_order` from the entry of a function that the module
/// defines, with a visitor that notes the sequence of each block and loop and
/// the two of each if/else: the sequences that the function nests are
/// appended, in the order of the walk, and each is a sequence of the function.
#[verifier::external_body]
pub(crate) fn walk(module: &Module, func: FunctionId, found: &mut AllBlocks)
    requires
        consistent(*module),
        module_functions(*module).contains(func),
    ensures
        final(found).blocks@ == old(found).blocks@ + module_nested(*module)[func],
        forall|i: int|
            old(found).blocks@.len() <= i < final(found).blocks@.len() ==> view_of(
                *module,
            ).has_sequence(func, #[trigger] final(found).blocks@[i]),
{
    let function = module.funcs.get(func).kind.unwrap_local();
    walrus::ir::dfs_in_order(found, function, function.entry_block());
}

} // verus!
