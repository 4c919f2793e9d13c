//! The instructions that the rewriter puts in front of a store, a memory growth
//! and a global write, and the rewriting of one instruction sequence.

use crate::options::{TransformError, PAGE_SIZE_POWER_OF_2};
use crate::walrus_types::{global_number, number_of_global};
use vstd::prelude::*;
use walrus::ir::{BinaryOp, Instr, MemArg, StoreKind, Value};
use walrus::{FunctionId, GlobalId, InstrLocId, LocalId, MemoryId, TypeId, ValType};

verus! {

/// An instruction with the place in the input that it came from.
pub type Entry = (Instr, InstrLocId);

/// The items of the module that inserted instructions refer to.
#[derive(Clone, Copy, Debug)]
pub struct Hooks {
    /// Scratch local for the address of a store and for the delta of a growth.
    pub address: LocalId,
    /// Scratch local for a stored `i32`.
    pub value_i32: LocalId,
    /// Scratch local for a stored `i64`.
    pub value_i64: LocalId,
    /// Scratch local for a stored `f32`.
    pub value_f32: LocalId,
    /// Scratch local for a stored `f64`.
    pub value_f64: LocalId,
    /// Scratch local for a stored `v128`.
    pub value_v128: LocalId,
    /// The global that holds the address of the dirty array.
    pub dirty_flags: GlobalId,
    /// The memory that holds the dirty array: the module's first.
    pub memory: MemoryId,
    /// The signature `(i32) -> ()` of the two imported functions.
    pub report_type: TypeId,
    /// The imported function that is told of each memory growth.
    pub on_grow: FunctionId,
    /// The imported function that is told of each global write, if any is.
    pub on_global_set: Option<FunctionId>,
    /// The place that inserted instructions are given as their origin.
    pub origin: InstrLocId,
}

/// The type of the value that a store of this kind takes from the stack.
pub open spec fn stored_type(kind: StoreKind) -> ValType {
    match kind {
        StoreKind::I32 { .. } | StoreKind::I32_8 { .. } | StoreKind::I32_16 { .. } => ValType::I32,
        StoreKind::I64 { .. }
        | StoreKind::I64_8 { .. }
        | StoreKind::I64_16 { .. }
        | StoreKind::I64_32 { .. } => ValType::I64,
        StoreKind::F32 => ValType::F32,
        StoreKind::F64 => ValType::F64,
        StoreKind::V128 => ValType::V128,
    }
}

/// The 32-bit two's complement reading of `n`: the `i32` constant that stands
/// for the unsigned number `n` in an instruction.
pub open spec fn as_i32(n: int) -> i32 {
    let low = n % 0x1_0000_0000;
    if low < 0x8000_0000 {
        low as i32
    } else {
        (low - 0x1_0000_0000) as i32
    }
}

/// `local.get`.
pub open spec fn local_get(local: LocalId) -> Instr {
    Instr::LocalGet(walrus::ir::LocalGet { local })
}

/// `local.set`.
pub open spec fn local_set(local: LocalId) -> Instr {
    Instr::LocalSet(walrus::ir::LocalSet { local })
}

/// `local.tee`.
pub open spec fn local_tee(local: LocalId) -> Instr {
    Instr::LocalTee(walrus::ir::LocalTee { local })
}

/// `global.get`.
pub open spec fn global_get(global: GlobalId) -> Instr {
    Instr::GlobalGet(walrus::ir::GlobalGet { global })
}

/// `i32.const`.
pub open spec fn i32_const(value: i32) -> Instr {
    Instr::Const(walrus::ir::Const { value: Value::I32(value) })
}

/// `i32.add`.
pub open spec fn i32_add() -> Instr {
    Instr::Binop(walrus::ir::Binop { op: BinaryOp::I32Add })
}

/// `i32.shr_u`.
pub open spec fn i32_shr_u() -> Instr {
    Instr::Binop(walrus::ir::Binop { op: BinaryOp::I32ShrU })
}

/// `call`.
pub open spec fn call(func: FunctionId) -> Instr {
    Instr::Call(walrus::ir::Call { func })
}

/// A plain one-byte store of an `i32` at static offset 0.
pub open spec fn byte_store(memory: MemoryId) -> Instr {
    Instr::Store(
        walrus::ir::Store {
            memory,
            kind: StoreKind::I32_8 { atomic: false },
            arg: MemArg { align: 1, offset: 0 },
        },
    )
}

impl Hooks {
    /// The scratch local that holds the value of a store of this kind.
    pub open spec fn value_scratch(self, kind: StoreKind) -> LocalId {
        match stored_type(kind) {
            ValType::I32 => self.value_i32,
            ValType::I64 => self.value_i64,
            ValType::F32 => self.value_f32,
            ValType::F64 => self.value_f64,
            _ => self.value_v128,
        }
    }

    /// With the address of a store on the stack: adds the static offset to it,
    /// if there is one.
    pub open spec fn effective_address(self, offset: u32) -> Seq<Instr> {
        if offset == 0 {
            seq![]
        } else {
            seq![i32_const(as_i32(offset as int)), i32_add()]
        }
    }

    /// With an address on the stack: takes it off and sets the byte of its page
    /// in the dirty array to 1.
    pub open spec fn mark_page(self) -> Seq<Instr> {
        seq![
            i32_const(PAGE_SIZE_POWER_OF_2 as i32),
            i32_shr_u(),
            global_get(self.dirty_flags),
            i32_add(),
            i32_const(1),
            byte_store(self.memory),
        ]
    }

    /// What stands in front of a store.
    pub open spec fn store_prelude(self, kind: StoreKind, offset: u32) -> Seq<Instr> {
        seq![local_set(self.value_scratch(kind)), local_tee(self.address)]
            + self.effective_address(offset) + self.mark_page() + seq![
            local_get(self.address),
            local_get(self.value_scratch(kind)),
        ]
    }

    /// What stands in front of a `memory.grow`.
    pub open spec fn grow_prelude(self) -> Seq<Instr> {
        seq![local_tee(self.address), call(self.on_grow), local_get(self.address)]
    }

    /// What stands in front of a `global.set`.
    pub open spec fn global_set_prelude(self, global: GlobalId) -> Seq<Instr> {
        match self.on_global_set {
            Some(report) => seq![i32_const(as_i32(global_number(global) as int)), call(report)],
            None => seq![],
        }
    }

    /// What stands in front of `instr` in a rewritten sequence.
    pub open spec fn prelude(self, instr: Instr) -> Seq<Instr> {
        match instr {
            Instr::Store(store) => self.store_prelude(store.kind, store.arg.offset),
            Instr::MemoryGrow(_) => self.grow_prelude(),
            Instr::GlobalSet(set) => self.global_set_prelude(set.global),
            _ => seq![],
        }
    }

    /// What takes the place of `entry` in a rewritten sequence: its prelude,
    /// then the entry itself, unchanged.
    pub open spec fn spliced(self, entry: Entry) -> Seq<Entry> {
        inserted(self.prelude(entry.0), self.origin).push(entry)
    }

    /// The rewritten sequence: each entry of `src` replaced by its splice, in order.
    pub open spec fn rewritten(self, src: Seq<Entry>) -> Seq<Entry>
        decreases src.len(),
    {
        if src.len() == 0 {
            seq![]
        } else {
            self.rewritten(src.drop_last()) + self.spliced(src.last())
        }
    }
}

/// The instructions `instrs` as entries that all have the origin `origin`.
pub open spec fn inserted(instrs: Seq<Instr>, origin: InstrLocId) -> Seq<Entry> {
    Seq::new(instrs.len(), |k: int| (instrs[k], origin))
}

/// Whether the rewriter refuses a module that holds this instruction.
pub open spec fn is_unsupported(instr: Instr) -> bool {
    instr is DataDrop || instr is TableInit || instr is ElemDrop || instr is TableCopy
        || instr is TableGrow || instr is TableFill
}

/// Whether some instruction of the sequence is one that the rewriter refuses.
pub open spec fn has_unsupported(src: Seq<Entry>) -> bool {
    exists|i: int| 0 <= i < src.len() && is_unsupported(#[trigger] src[i].0)
}

/// The `i32` constant that stands for a static offset.
pub fn offset_constant(offset: u32) -> (value: i32)
    ensures
        value == as_i32(offset as int),
{
    if offset < 0x8000_0000 {
        offset as i32
    } else {
        let high: u32 = offset - 0x8000_0000;
        (high as i32) + i32::MIN
    }
}

/// The `i32` constant that stands for the number of a global.
pub fn number_constant(number: usize) -> (value: i32)
    ensures
        value == as_i32(number as int),
{
    let low: u64 = (number as u64) % 0x1_0000_0000;
    offset_constant(low as u32)
}

/// Whether the rewriter refuses a module that holds this instruction.
pub fn unsupported(instr: &Instr) -> (refused: bool)
    ensures
        refused == is_unsupported(*instr),
{
    match instr {
        Instr::DataDrop(_) => true,
        Instr::TableInit(_) => true,
        Instr::ElemDrop(_) => true,
        Instr::TableCopy(_) => true,
        Instr::TableGrow(_) => true,
        Instr::TableFill(_) => true,
        _ => false,
    }
}

/// Whether some instruction of the sequence is one that the rewriter refuses.
pub fn holds_unsupported(instrs: &Vec<Entry>) -> (found: bool)
    ensures
        found == has_unsupported(instrs@),
{
    let mut i: usize = 0;
    while i < instrs.len()
        invariant
            i <= instrs.len(),
            forall|k: int| 0 <= k < i ==> !is_unsupported(#[trigger] instrs@[k].0),
        decreases instrs.len() - i,
    {
        if unsupported(&instrs[i].0) {
            return true;
        }
        i += 1;
    }
    false
}

impl Hooks {
    /// The scratch local that holds the value of a store of this kind.
    pub fn scratch_for(&self, kind: StoreKind) -> (local: LocalId)
        ensures
            local == self.value_scratch(kind),
    {
        match kind {
            StoreKind::I32 { .. } => self.value_i32,
            StoreKind::I32_8 { .. } => self.value_i32,
            StoreKind::I32_16 { .. } => self.value_i32,
            StoreKind::I64 { .. } => self.value_i64,
            StoreKind::I64_8 { .. } => self.value_i64,
            StoreKind::I64_16 { .. } => self.value_i64,
            StoreKind::I64_32 { .. } => self.value_i64,
            StoreKind::F32 => self.value_f32,
            StoreKind::F64 => self.value_f64,
            StoreKind::V128 => self.value_v128,
        }
    }

    /// Appends to `out` what stands in front of a store.
    pub fn push_store_prelude(&self, out: &mut Vec<Entry>, kind: StoreKind, offset: u32)
        ensures
            final(out)@ == old(out)@ + inserted(self.store_prelude(kind, offset), self.origin),
    {
        let value = self.scratch_for(kind);
        out.push((Instr::LocalSet(walrus::ir::LocalSet { local: value }), self.origin));
        out.push((Instr::LocalTee(walrus::ir::LocalTee { local: self.address }), self.origin));
        if offset != 0 {
            let constant = Value::I32(offset_constant(offset));
            out.push((Instr::Const(walrus::ir::Const { value: constant }), self.origin));
            out.push((Instr::Binop(walrus::ir::Binop { op: BinaryOp::I32Add }), self.origin));
        }
        let shift = Value::I32(PAGE_SIZE_POWER_OF_2 as i32);
        out.push((Instr::Const(walrus::ir::Const { value: shift }), self.origin));
        out.push((Instr::Binop(walrus::ir::Binop { op: BinaryOp::I32ShrU }), self.origin));
        out.push((Instr::GlobalGet(walrus::ir::GlobalGet { global: self.dirty_flags }), self.origin));
        out.push((Instr::Binop(walrus::ir::Binop { op: BinaryOp::I32Add }), self.origin));
        out.push((Instr::Const(walrus::ir::Const { value: Value::I32(1) }), self.origin));
        let mark = walrus::ir::Store {
            memory: self.memory,
            kind: StoreKind::I32_8 { atomic: false },
            arg: MemArg { align: 1, offset: 0 },
        };
        out.push((Instr::Store(mark), self.origin));
        out.push((Instr::LocalGet(walrus::ir::LocalGet { local: self.address }), self.origin));
        out.push((Instr::LocalGet(walrus::ir::LocalGet { local: value }), self.origin));
        assert(out@ =~= old(out)@ + inserted(self.store_prelude(kind, offset), self.origin));
    }

    /// Appends to `out` what stands in front of a `memory.grow`.
    pub fn push_grow_prelude(&self, out: &mut Vec<Entry>)
        ensures
            final(out)@ == old(out)@ + inserted(self.grow_prelude(), self.origin),
    {
        out.push((Instr::LocalTee(walrus::ir::LocalTee { local: self.address }), self.origin));
        out.push((Instr::Call(walrus::ir::Call { func: self.on_grow }), self.origin));
        out.push((Instr::LocalGet(walrus::ir::LocalGet { local: self.address }), self.origin));
        assert(out@ =~= old(out)@ + inserted(self.grow_prelude(), self.origin));
    }

    /// Appends to `out` what stands in front of a `global.set`.
    pub fn push_global_set_prelude(&self, out: &mut Vec<Entry>, global: GlobalId)
        ensures
            final(out)@ == old(out)@ + inserted(self.global_set_prelude(global), self.origin),
    {
        match self.on_global_set {
            Some(report) => {
                let number = Value::I32(number_constant(number_of_global(global)));
                out.push((Instr::Const(walrus::ir::Const { value: number }), self.origin));
                out.push((Instr::Call(walrus::ir::Call { func: report }), self.origin));
            },
            None => {},
        }
        assert(out@ =~= old(out)@ + inserted(self.global_set_prelude(global), self.origin));
    }

    /// Appends to `out` what takes the place of `entry`: its prelude, then a
    /// copy of the entry.
    pub fn push_spliced(&self, out: &mut Vec<Entry>, entry: &Entry)
        ensures
            final(out)@ == old(out)@ + self.spliced(*entry),
    {
        match &entry.0 {
            Instr::Store(store) => self.push_store_prelude(out, store.kind, store.arg.offset),
            Instr::MemoryGrow(_) => self.push_grow_prelude(out),
            Instr::GlobalSet(set) => self.push_global_set_prelude(out, set.global),
            _ => {},
        }
        assert(out@ =~= old(out)@ + inserted(self.prelude(entry.0), self.origin));
        out.push((entry.0.clone(), entry.1));
        assert(out@ =~= old(out)@ + self.spliced(*entry));
    }

    /// Rewrites one instruction sequence: every store, memory growth and (where
    /// it is reported) global write gets its prelude, and every instruction
    /// is copied.
    pub fn splice_all(&self, src: &Vec<Entry>) -> (out: Vec<Entry>)
        ensures
            out@ == self.rewritten(src@),
    {
        let mut out: Vec<Entry> = Vec::new();
        let mut i: usize = 0;
        while i < src.len()
            invariant
                i <= src.len(),
                out@ == self.rewritten(src@.take(i as int)),
            decreases src.len() - i,
        {
            self.push_spliced(&mut out, &src[i]);
            proof {
                assert(src@.take(i + 1).drop_last() =~= src@.take(i as int));
                assert(src@.take(i + 1).last() == src@[i as int]);
            }
            i += 1;
        }
        proof {
            assert(src@.take(i as int) =~= src@);
        }
        out
    }

    /// Rewrites one instruction sequence, unless it holds an instruction that
    /// the rewriter does not instrument: such a sequence is refused.
    pub fn rewrite_sequence(&self, src: &Vec<Entry>) -> (result: Result<Vec<Entry>, TransformError>)
        ensures
            result is Ok <==> !has_unsupported(src@),
            result matches Ok(out) ==> out@ == self.rewritten(src@),
            result matches Err(error) ==> error == TransformError::UnsupportedOpcode,
    {
        if holds_unsupported(src) {
            Err(TransformError::UnsupportedOpcode)
        } else {
            Ok(self.splice_all(src))
        }
    }
}

impl Hooks {
    /// Whether `local` is one of the scratch locals.
    pub open spec fn is_scratch(self, local: LocalId) -> bool {
        local == self.address || local == self.value_i32 || local == self.value_i64 || local
            == self.value_f32 || local == self.value_f64 || local == self.value_v128
    }

    /// Whether `instr` is one of the instructions that preludes are made of.
    pub open spec fn inserts(self, instr: Instr) -> bool {
        match instr {
            Instr::LocalGet(get) => self.is_scratch(get.local),
            Instr::LocalSet(set) => self.is_scratch(set.local),
            Instr::LocalTee(tee) => self.is_scratch(tee.local),
            Instr::GlobalGet(get) => get.global == self.dirty_flags,
            Instr::Call(call) => call.func == self.on_grow || self.on_global_set == Some(call.func),
            Instr::Store(_) => instr == byte_store(self.memory),
            Instr::Const(constant) => constant.value is I32,
            Instr::Binop(_) => instr == i32_add() || instr == i32_shr_u(),
            _ => false,
        }
    }
}

/// Every instruction of a prelude is one of those that preludes are made of.
pub proof fn lemma_prelude_inserts(hooks: Hooks, instr: Instr, k: int)
    requires
        0 <= k < hooks.prelude(instr).len(),
    ensures
        hooks.inserts(hooks.prelude(instr)[k]),
{
    match instr {
        Instr::Store(store) => {
            let kind = store.kind;
            let offset = store.arg.offset;
            let head = seq![local_set(hooks.value_scratch(kind)), local_tee(hooks.address)];
            let sum = hooks.effective_address(offset);
            let mark = hooks.mark_page();
            let tail = seq![local_get(hooks.address), local_get(hooks.value_scratch(kind))];
            assert(hooks.is_scratch(hooks.value_scratch(kind)));
            assert(forall|j: int| 0 <= j < head.len() ==> hooks.inserts(#[trigger] head[j]));
            assert(forall|j: int| 0 <= j < sum.len() ==> hooks.inserts(#[trigger] sum[j]));
            assert(forall|j: int| 0 <= j < mark.len() ==> hooks.inserts(#[trigger] mark[j]));
            assert(forall|j: int| 0 <= j < tail.len() ==> hooks.inserts(#[trigger] tail[j]));
            assert(hooks.prelude(instr) == head + sum + mark + tail);
        },
        Instr::MemoryGrow(_) => {},
        Instr::GlobalSet(_) => {},
        _ => {},
    }
}

/// Every entry of a rewritten sequence is an entry of the input or an inserted
/// instruction with the origin of inserted instructions.
pub proof fn lemma_rewritten_entries(hooks: Hooks, src: Seq<Entry>, k: int)
    requires
        0 <= k < hooks.rewritten(src).len(),
    ensures
        src.contains(hooks.rewritten(src)[k]) || (hooks.inserts(hooks.rewritten(src)[k].0)
            && hooks.rewritten(src)[k].1 == hooks.origin),
    decreases src.len(),
{
    let before = hooks.rewritten(src.drop_last());
    if k < before.len() {
        lemma_rewritten_entries(hooks, src.drop_last(), k);
        if src.drop_last().contains(before[k]) {
            let i = choose|i: int| 0 <= i < src.drop_last().len() && src.drop_last()[i] == before[k];
            assert(src[i] == before[k]);
        }
    } else {
        let prelude = hooks.prelude(src.last().0);
        let at = k - before.len();
        if at < prelude.len() {
            lemma_prelude_inserts(hooks, src.last().0, at);
        } else {
            assert(src[src.len() - 1] == hooks.rewritten(src)[k]);
        }
    }
}

/// Every entry of the input is an entry of the rewritten sequence.
pub proof fn lemma_rewritten_keeps(hooks: Hooks, src: Seq<Entry>, i: int)
    requires
        0 <= i < src.len(),
    ensures
        hooks.rewritten(src).contains(src[i]),
    decreases src.len(),
{
    let before = hooks.rewritten(src.drop_last());
    let after = hooks.rewritten(src);
    if i < src.len() - 1 {
        lemma_rewritten_keeps(hooks, src.drop_last(), i);
        let k = choose|k: int| 0 <= k < before.len() && before[k] == src.drop_last()[i];
        assert(after[k] == src[i]);
    } else {
        assert(after[after.len() - 1] == src[i]);
    }
}

/// Rewriting neither brings in an instruction that the rewriter refuses nor
/// takes one out: a rewritten sequence can be rewritten again.
pub proof fn lemma_rewritten_is_supported(hooks: Hooks, src: Seq<Entry>)
    ensures
        has_unsupported(hooks.rewritten(src)) <==> has_unsupported(src),
{
    let out = hooks.rewritten(src);
    if has_unsupported(out) {
        let k = choose|k: int| 0 <= k < out.len() && is_unsupported(#[trigger] out[k].0);
        lemma_rewritten_entries(hooks, src, k);
        let i = choose|i: int| 0 <= i < src.len() && src[i] == out[k];
        assert(is_unsupported(src[i].0));
    }
    if has_unsupported(src) {
        let i = choose|i: int| 0 <= i < src.len() && is_unsupported(#[trigger] src[i].0);
        lemma_rewritten_keeps(hooks, src, i);
        let k = choose|k: int| 0 <= k < out.len() && out[k] == src[i];
        assert(is_unsupported(out[k].0));
    }
}

/// Rewriting goes entry by entry: what two sequences are rewritten to, one
/// after the other, is what the two in a row are rewritten to.
pub proof fn lemma_rewritten_concat(hooks: Hooks, first: Seq<Entry>, second: Seq<Entry>)
    ensures
        hooks.rewritten(first + second) == hooks.rewritten(first) + hooks.rewritten(second),
    decreases second.len(),
{
    if second.len() == 0 {
        assert(first + second =~= first);
        assert(hooks.rewritten(first) + hooks.rewritten(second) =~= hooks.rewritten(first));
    } else {
        assert((first + second).drop_last() =~= first + second.drop_last());
        assert((first + second).last() == second.last());
        lemma_rewritten_concat(hooks, first, second.drop_last());
        assert(hooks.rewritten(first + second) =~= hooks.rewritten(first) + hooks.rewritten(
            second,
        ));
    }
}

/// Every entry of the input stands in the output unchanged, right behind its
/// prelude, which stands right behind what came before the entry; what comes
/// after the entry follows it. So the entries of the input keep their order,
/// and nothing but its own prelude comes between an entry and the one before.
pub proof fn lemma_rewritten_at(hooks: Hooks, src: Seq<Entry>, i: int)
    requires
        0 <= i < src.len(),
    ensures
        hooks.rewritten(src) == hooks.rewritten(src.take(i)) + inserted(
            hooks.prelude(src[i].0),
            hooks.origin,
        ) + seq![src[i]] + hooks.rewritten(src.skip(i + 1)),
{
    let one = seq![src[i]];
    assert(src =~= src.take(i) + one + src.skip(i + 1));
    lemma_rewritten_concat(hooks, src.take(i) + one, src.skip(i + 1));
    lemma_rewritten_concat(hooks, src.take(i), one);
    assert(one.drop_last().len() == 0 && one.last() == src[i]);
    assert(hooks.rewritten(one.drop_last()) =~= Seq::<Entry>::empty());
    assert(hooks.rewritten(one) =~= inserted(hooks.prelude(src[i].0), hooks.origin) + one);
    assert(hooks.rewritten(src.take(i)) + (inserted(hooks.prelude(src[i].0), hooks.origin) + one)
        =~= hooks.rewritten(src.take(i)) + inserted(hooks.prelude(src[i].0), hooks.origin) + one);
}

/// How many entries of the sequence hold an instruction of which `wanted` holds.
pub open spec fn count(src: Seq<Entry>, wanted: spec_fn(Instr) -> bool) -> nat
    decreases src.len(),
{
    if src.len() == 0 {
        0
    } else {
        count(src.drop_last(), wanted) + if wanted(src.last().0) {
            1nat
        } else {
            0nat
        }
    }
}

/// Holds of every `memory.grow`.
pub open spec fn is_growth() -> spec_fn(Instr) -> bool {
    |instr: Instr| instr is MemoryGrow
}

/// Holds of every call of `func`.
pub open spec fn is_call_of(func: FunctionId) -> spec_fn(Instr) -> bool {
    |instr: Instr| instr == call(func)
}

/// Counting goes entry by entry.
pub proof fn lemma_count_concat(
    first: Seq<Entry>,
    second: Seq<Entry>,
    wanted: spec_fn(Instr) -> bool,
)
    ensures
        count(first + second, wanted) == count(first, wanted) + count(second, wanted),
    decreases second.len(),
{
    if second.len() == 0 {
        assert(first + second =~= first);
    } else {
        assert((first + second).drop_last() =~= first + second.drop_last());
        assert((first + second).last() == second.last());
        lemma_count_concat(first, second.drop_last(), wanted);
    }
}

/// Where `wanted` holds of no entry, the count is zero.
pub proof fn lemma_count_none(src: Seq<Entry>, wanted: spec_fn(Instr) -> bool)
    requires
        forall|i: int| 0 <= i < src.len() ==> !wanted(#[trigger] src[i].0),
    ensures
        count(src, wanted) == 0,
    decreases src.len(),
{
    if src.len() > 0 {
        assert forall|i: int| 0 <= i < src.drop_last().len() implies !wanted(
            #[trigger] src.drop_last()[i].0,
        ) by {
            assert(src.drop_last()[i] == src[i]);
        }
        lemma_count_none(src.drop_last(), wanted);
        assert(!wanted(src[src.len() - 1].0));
    }
}

/// The prelude of a store holds no call.
pub proof fn lemma_store_prelude_calls_nothing(
    hooks: Hooks,
    kind: StoreKind,
    offset: u32,
    k: int,
)
    requires
        0 <= k < hooks.store_prelude(kind, offset).len(),
    ensures
        !(hooks.store_prelude(kind, offset)[k] is Call),
{
    let head = seq![local_set(hooks.value_scratch(kind)), local_tee(hooks.address)];
    let sum = hooks.effective_address(offset);
    let mark = hooks.mark_page();
    let tail = seq![local_get(hooks.address), local_get(hooks.value_scratch(kind))];
    assert(forall|j: int| 0 <= j < head.len() ==> !(#[trigger] head[j] is Call));
    assert(forall|j: int| 0 <= j < sum.len() ==> !(#[trigger] sum[j] is Call));
    assert(forall|j: int| 0 <= j < mark.len() ==> !(#[trigger] mark[j] is Call));
    assert(forall|j: int| 0 <= j < tail.len() ==> !(#[trigger] tail[j] is Call));
    assert(hooks.store_prelude(kind, offset) == head + sum + mark + tail);
}

/// A prelude holds no `memory.grow`, and it holds one call of `on_grow` where
/// it stands in front of a `memory.grow`, and none elsewhere.
pub proof fn lemma_prelude_counts(hooks: Hooks, instr: Instr)
    requires
        hooks.on_global_set != Some(hooks.on_grow),
    ensures
        count(inserted(hooks.prelude(instr), hooks.origin), is_growth()) == 0,
        count(inserted(hooks.prelude(instr), hooks.origin), is_call_of(hooks.on_grow)) == if instr is MemoryGrow {
            1nat
        } else {
            0nat
        },
{
    let prelude = hooks.prelude(instr);
    let entries = inserted(prelude, hooks.origin);
    assert forall|i: int| 0 <= i < entries.len() implies !is_growth()(#[trigger] entries[i].0) by {
        lemma_prelude_inserts(hooks, instr, i);
    }
    lemma_count_none(entries, is_growth());
    match instr {
        Instr::Store(store) => {
            assert forall|i: int| 0 <= i < entries.len() implies !is_call_of(hooks.on_grow)(
                #[trigger] entries[i].0,
            ) by {
                lemma_store_prelude_calls_nothing(hooks, store.kind, store.arg.offset, i);
            }
            lemma_count_none(entries, is_call_of(hooks.on_grow));
        },
        Instr::MemoryGrow(_) => {
            let wanted = is_call_of(hooks.on_grow);
            let two = entries.drop_last();
            let one = two.drop_last();
            assert(entries.last().0 == local_get(hooks.address));
            assert(two.last().0 == call(hooks.on_grow));
            assert(one.last().0 == local_tee(hooks.address));
            assert(one.drop_last().len() == 0);
            assert(count(one.drop_last(), wanted) == 0);
            assert(count(one, wanted) == 0);
            assert(count(two, wanted) == 1);
        },
        Instr::GlobalSet(_) => {
            assert forall|i: int| 0 <= i < entries.len() implies !is_call_of(hooks.on_grow)(
                #[trigger] entries[i].0,
            ) by {
                assert(entries[i].0 == prelude[i]);
            }
            lemma_count_none(entries, is_call_of(hooks.on_grow));
        },
        _ => {
            lemma_count_none(entries, is_call_of(hooks.on_grow));
        },
    }
}

/// Where no instruction of the input calls `on_grow`, the rewritten sequence
/// holds as many `memory.grow` as the input and as many calls of `on_grow`
/// as `memory.grow`: every growth is reported once, and nothing else is.
pub proof fn lemma_growths_are_reported_once(hooks: Hooks, src: Seq<Entry>)
    requires
        hooks.on_global_set != Some(hooks.on_grow),
        forall|i: int| 0 <= i < src.len() ==> (#[trigger] src[i]).0 != call(hooks.on_grow),
    ensures
        count(hooks.rewritten(src), is_growth()) == count(src, is_growth()),
        count(hooks.rewritten(src), is_call_of(hooks.on_grow)) == count(src, is_growth()),
    decreases src.len(),
{
    if src.len() > 0 {
        let last = src.last();
        let prelude = inserted(hooks.prelude(last.0), hooks.origin);
        assert forall|i: int| 0 <= i < src.drop_last().len() implies (
        #[trigger] src.drop_last()[i]).0 != call(hooks.on_grow) by {
            assert(src.drop_last()[i] == src[i]);
        }
        lemma_growths_are_reported_once(hooks, src.drop_last());
        lemma_prelude_counts(hooks, last.0);
        assert(hooks.spliced(last).drop_last() =~= prelude);
        assert(hooks.spliced(last).last() == last);
        assert(last == src[src.len() - 1]);
        lemma_count_concat(hooks.rewritten(src.drop_last()), hooks.spliced(last), is_growth());
        lemma_count_concat(
            hooks.rewritten(src.drop_last()),
            hooks.spliced(last),
            is_call_of(hooks.on_grow),
        );
    }
}

} // verus!
