//! The types of `walrus` that the rewriter handles, made known to Verus.
//!
//! A type that the rewriter only carries from one call to the next is declared
//! without its contents. A type whose variants or fields the rewriter reads or
//! builds is declared with them: Verus takes the definition from the crate, so
//! nothing is assumed about it here.

use vstd::prelude::*;

verus! {

// Carried through, never looked into.

/// An identifier that an arena of the module hands out.
#[verifier::external_type_specification]
#[verifier::external_body]
#[verifier::reject_recursive_types(T)]
pub struct ExId<T>(id_arena::Id<T>);

/// A module in its editable form.
#[verifier::external_type_specification]
#[verifier::external_body]
pub struct ExModule(walrus::Module);

/// The failure that the loader reports.
#[verifier::external_type_specification]
#[verifier::external_body]
pub struct ExError(anyhow::Error);

/// A function, as the target of a function identifier.
#[verifier::external_type_specification]
#[verifier::external_body]
pub struct ExFunction(walrus::Function);

/// A global, as the target of a global identifier.
#[verifier::external_type_specification]
#[verifier::external_body]
pub struct ExGlobal(walrus::Global);

/// A memory, as the target of a memory identifier.
#[verifier::external_type_specification]
#[verifier::external_body]
pub struct ExMemory(walrus::Memory);

/// A table, as the target of a table identifier.
#[verifier::external_type_specification]
#[verifier::external_body]
pub struct ExTable(walrus::Table);

/// A function signature, as the target of a type identifier.
#[verifier::external_type_specification]
#[verifier::external_body]
pub struct ExType(walrus::Type);

/// A local, as the target of a local identifier.
#[verifier::external_type_specification]
#[verifier::external_body]
pub struct ExLocal(walrus::ir::Local);

/// An instruction sequence, as the target of a sequence identifier.
#[verifier::external_type_specification]
#[verifier::external_body]
pub struct ExInstrSeq(walrus::ir::InstrSeq);

/// The place in the input that an instruction came from.
#[verifier::external_type_specification]
#[verifier::external_body]
pub struct ExInstrLocId(walrus::InstrLocId);

// Read or built by the rewriter.

/// Value types.
#[verifier::external_type_specification]
pub struct ExValType(walrus::ValType);

/// Constant values.
#[verifier::external_type_specification]
pub struct ExValue(walrus::ir::Value);

/// Binary operators.
#[verifier::external_type_specification]
pub struct ExBinaryOp(walrus::ir::BinaryOp);

/// The widths and types of stores.
#[verifier::external_type_specification]
pub struct ExStoreKind(walrus::ir::StoreKind);

/// The alignment and static offset of a memory access.
#[verifier::external_type_specification]
pub struct ExMemArg(walrus::ir::MemArg);

/// The initializer of a global that the module defines.
#[verifier::external_type_specification]
pub struct ExInitExpr(walrus::InitExpr);

/// What an export names.
#[verifier::external_type_specification]
pub struct ExExportItem(walrus::ExportItem);

/// An instruction.
#[verifier::external_type_specification]
pub struct ExInstr(walrus::ir::Instr);

// The payload of each instruction: with its fields where the rewriter reads or
// builds the instruction, without them elsewhere.

/// The payload of `Instr::Block`.
#[verifier::external_type_specification]
pub struct ExInstrBlock(walrus::ir::Block);

/// The payload of `Instr::Loop`.
#[verifier::external_type_specification]
pub struct ExInstrLoop(walrus::ir::Loop);

/// The payload of `Instr::Call`.
#[verifier::external_type_specification]
pub struct ExInstrCall(walrus::ir::Call);

/// The payload of `Instr::CallIndirect`.
#[verifier::external_type_specification]
#[verifier::external_body]
pub struct ExInstrCallIndirect(walrus::ir::CallIndirect);

/// The payload of `Instr::LocalGet`.
#[verifier::external_type_specification]
pub struct ExInstrLocalGet(walrus::ir::LocalGet);

/// The payload of `Instr::LocalSet`.
#[verifier::external_type_specification]
pub struct ExInstrLocalSet(walrus::ir::LocalSet);

/// The payload of `Instr::LocalTee`.
#[verifier::external_type_specification]
pub struct ExInstrLocalTee(walrus::ir::LocalTee);

/// The payload of `Instr::GlobalGet`.
#[verifier::external_type_specification]
pub struct ExInstrGlobalGet(walrus::ir::GlobalGet);

/// The payload of `Instr::GlobalSet`.
#[verifier::external_type_specification]
pub struct ExInstrGlobalSet(walrus::ir::GlobalSet);

/// The payload of `Instr::Const`.
#[verifier::external_type_specification]
pub struct ExInstrConst(walrus::ir::Const);

/// The payload of `Instr::Binop`.
#[verifier::external_type_specification]
pub struct ExInstrBinop(walrus::ir::Binop);

/// The payload of `Instr::Unop`.
#[verifier::external_type_specification]
#[verifier::external_body]
pub struct ExInstrUnop(walrus::ir::Unop);

/// The payload of `Instr::Select`.
#[verifier::external_type_specification]
#[verifier::external_body]
pub struct ExInstrSelect(walrus::ir::Select);

/// The payload of `Instr::Unreachable`.
#[verifier::external_type_specification]
#[verifier::external_body]
pub struct ExInstrUnreachable(walrus::ir::Unreachable);

/// The payload of `Instr::Br`.
#[verifier::external_type_specification]
#[verifier::external_body]
pub struct ExInstrBr(walrus::ir::Br);

/// The payload of `Instr::BrIf`.
#[verifier::external_type_specification]
#[verifier::external_body]
pub struct ExInstrBrIf(walrus::ir::BrIf);

/// The payload of `Instr::IfElse`.
#[verifier::external_type_specification]
pub struct ExInstrIfElse(walrus::ir::IfElse);

/// The payload of `Instr::BrTable`.
#[verifier::external_type_specification]
#[verifier::external_body]
pub struct ExInstrBrTable(walrus::ir::BrTable);

/// The payload of `Instr::Drop`.
#[verifier::external_type_specification]
#[verifier::external_body]
pub struct ExInstrDrop(walrus::ir::Drop);

/// The payload of `Instr::Return`.
#[verifier::external_type_specification]
#[verifier::external_body]
pub struct ExInstrReturn(walrus::ir::Return);

/// The payload of `Instr::MemorySize`.
#[verifier::external_type_specification]
#[verifier::external_body]
pub struct ExInstrMemorySize(walrus::ir::MemorySize);

/// The payload of `Instr::MemoryGrow`.
#[verifier::external_type_specification]
#[verifier::external_body]
pub struct ExInstrMemoryGrow(walrus::ir::MemoryGrow);

/// The payload of `Instr::MemoryInit`.
#[verifier::external_type_specification]
#[verifier::external_body]
pub struct ExInstrMemoryInit(walrus::ir::MemoryInit);

/// The payload of `Instr::DataDrop`.
#[verifier::external_type_specification]
#[verifier::external_body]
pub struct ExInstrDataDrop(walrus::ir::DataDrop);

/// The payload of `Instr::MemoryCopy`.
#[verifier::external_type_specification]
#[verifier::external_body]
pub struct ExInstrMemoryCopy(walrus::ir::MemoryCopy);

/// The payload of `Instr::MemoryFill`.
#[verifier::external_type_specification]
#[verifier::external_body]
pub struct ExInstrMemoryFill(walrus::ir::MemoryFill);

/// The payload of `Instr::Load`.
#[verifier::external_type_specification]
#[verifier::external_body]
pub struct ExInstrLoad(walrus::ir::Load);

/// The payload of `Instr::Store`.
#[verifier::external_type_specification]
pub struct ExInstrStore(walrus::ir::Store);

/// The payload of `Instr::AtomicRmw`.
#[verifier::external_type_specification]
#[verifier::external_body]
pub struct ExInstrAtomicRmw(walrus::ir::AtomicRmw);

/// The payload of `Instr::Cmpxchg`.
#[verifier::external_type_specification]
#[verifier::external_body]
pub struct ExInstrCmpxchg(walrus::ir::Cmpxchg);

/// The payload of `Instr::AtomicNotify`.
#[verifier::external_type_specification]
#[verifier::external_body]
pub struct ExInstrAtomicNotify(walrus::ir::AtomicNotify);

/// The payload of `Instr::AtomicWait`.
#[verifier::external_type_specification]
#[verifier::external_body]
pub struct ExInstrAtomicWait(walrus::ir::AtomicWait);

/// The payload of `Instr::AtomicFence`.
#[verifier::external_type_specification]
#[verifier::external_body]
pub struct ExInstrAtomicFence(walrus::ir::AtomicFence);

/// The payload of `Instr::TableGet`.
#[verifier::external_type_specification]
#[verifier::external_body]
pub struct ExInstrTableGet(walrus::ir::TableGet);

/// The payload of `Instr::TableSet`.
#[verifier::external_type_specification]
#[verifier::external_body]
pub struct ExInstrTableSet(walrus::ir::TableSet);

/// The payload of `Instr::TableGrow`.
#[verifier::external_type_specification]
#[verifier::external_body]
pub struct ExInstrTableGrow(walrus::ir::TableGrow);

/// The payload of `Instr::TableSize`.
#[verifier::external_type_specification]
#[verifier::external_body]
pub struct ExInstrTableSize(walrus::ir::TableSize);

/// The payload of `Instr::TableFill`.
#[verifier::external_type_specification]
#[verifier::external_body]
pub struct ExInstrTableFill(walrus::ir::TableFill);

/// The payload of `Instr::RefNull`.
#[verifier::external_type_specification]
#[verifier::external_body]
pub struct ExInstrRefNull(walrus::ir::RefNull);

/// The payload of `Instr::RefIsNull`.
#[verifier::external_type_specification]
#[verifier::external_body]
pub struct ExInstrRefIsNull(walrus::ir::RefIsNull);

/// The payload of `Instr::RefFunc`.
#[verifier::external_type_specification]
#[verifier::external_body]
pub struct ExInstrRefFunc(walrus::ir::RefFunc);

/// The payload of `Instr::V128Bitselect`.
#[verifier::external_type_specification]
#[verifier::external_body]
pub struct ExInstrV128Bitselect(walrus::ir::V128Bitselect);

/// The payload of `Instr::I8x16Swizzle`.
#[verifier::external_type_specification]
#[verifier::external_body]
pub struct ExInstrI8x16Swizzle(walrus::ir::I8x16Swizzle);

/// The payload of `Instr::I8x16Shuffle`.
#[verifier::external_type_specification]
#[verifier::external_body]
pub struct ExInstrI8x16Shuffle(walrus::ir::I8x16Shuffle);

/// The payload of `Instr::LoadSimd`.
#[verifier::external_type_specification]
#[verifier::external_body]
pub struct ExInstrLoadSimd(walrus::ir::LoadSimd);

/// The payload of `Instr::TableInit`.
#[verifier::external_type_specification]
#[verifier::external_body]
pub struct ExInstrTableInit(walrus::ir::TableInit);

/// The payload of `Instr::ElemDrop`.
#[verifier::external_type_specification]
#[verifier::external_body]
pub struct ExInstrElemDrop(walrus::ir::ElemDrop);

/// The payload of `Instr::TableCopy`.
#[verifier::external_type_specification]
#[verifier::external_body]
pub struct ExInstrTableCopy(walrus::ir::TableCopy);

} // verus!

verus! {

/// `Clone::clone` of an instruction, which walrus derives: the copy equals the
/// instruction.
pub assume_specification[ <walrus::ir::Instr as Clone>::clone ](instr: &walrus::ir::Instr) -> (copy:
    walrus::ir::Instr)
    ensures
        copy == *instr,
;

/// The number of a global: the position that its identifier holds
/// (`Id::index`), which for a loaded module is the global's index in the binary.
pub uninterp spec fn global_number(global: walrus::GlobalId) -> nat;

/// `Id::index` on the identifier of a global, a plain read of the position
/// that the identifier carries.
#[verifier::external_body]
pub(crate) fn number_of_global(global: walrus::GlobalId) -> (number: usize)
    ensures
        number == global_number(global),
{
    global.index()
}

/// `PartialEq::eq` on the identifiers of two globals, which tells whether they
/// are the same identifier.
#[verifier::external_body]
pub(crate) fn same_global(a: walrus::GlobalId, b: walrus::GlobalId) -> (same: bool)
    ensures
        same == (a == b),
{
    a == b
}

/// `Default::default` for `InstrLocId`: the origin that walrus gives to
/// instructions that were not in the input. Nothing is claimed of it.
pub assume_specification[ <walrus::InstrLocId as Default>::default ]() -> (origin:
    walrus::InstrLocId)
;

} // verus!
