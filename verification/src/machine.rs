//! What the inserted instructions do when they run: a model of the stack
//! machine for the few instructions that the rewriter inserts, and the proofs
//! that each prelude hands the stack back as it found it.

use crate::splice::{as_i32, local_get, local_set, local_tee, stored_type, Hooks};
use crate::walrus_types::global_number;
use vstd::arithmetic::power2::{lemma2_to64, pow2};
use vstd::prelude::*;
use walrus::ir::{BinaryOp, Instr, StoreKind, Value};
use walrus::{FunctionId, GlobalId, LocalId, MemoryId, ValType};

verus! {

/// A value on the stack, in a local or in a global: its type and its bits,
/// read as an unsigned number.
pub struct Operand {
    pub ty: ValType,
    pub bits: nat,
}

/// The state that the inserted instructions read and change.
pub struct Machine {
    /// The value stack, top last.
    pub stack: Seq<Operand>,
    /// The locals of the running function. A local keeps the type of its value.
    pub locals: Map<LocalId, Operand>,
    /// The globals of the instance.
    pub globals: Map<GlobalId, Operand>,
    /// The bytes of the memories that differ from zero or were written.
    pub bytes: Map<(MemoryId, nat), u8>,
    /// The size of each memory, in bytes.
    pub sizes: Map<MemoryId, nat>,
    /// The imported functions of signature `(i32) -> ()` that the host provides.
    pub hosts: Set<FunctionId>,
    /// The calls that the host has received, oldest first.
    pub reports: Seq<(FunctionId, nat)>,
}

/// The bits of an `i32` constant.
pub open spec fn unsigned(value: i32) -> nat {
    if value >= 0 {
        value as nat
    } else {
        (value + 0x1_0000_0000) as nat
    }
}

impl Operand {
    /// Whether this is an `i32`: 32 bits of that type.
    pub open spec fn is_word(self) -> bool {
        self.ty == ValType::I32 && self.bits < 0x1_0000_0000
    }
}

/// An `i32` operand with the given bits.
pub open spec fn word(bits: nat) -> Operand {
    Operand { ty: ValType::I32, bits }
}

impl Machine {
    /// The state with `operand` pushed.
    pub open spec fn push(self, operand: Operand) -> Machine {
        Machine { stack: self.stack.push(operand), ..self }
    }

    /// The state with the top `n` operands taken off.
    pub open spec fn pop(self, n: nat) -> Machine {
        Machine { stack: self.stack.take(self.stack.len() - n), ..self }
    }

    /// The operand `depth` places below the top.
    pub open spec fn peek(self, depth: nat) -> Operand {
        self.stack[self.stack.len() - 1 - depth]
    }

    /// Whether the top `n` operands exist and are all `i32`.
    pub open spec fn has_words(self, n: nat) -> bool {
        self.stack.len() >= n && forall|depth: nat| depth < n ==> (#[trigger] self.peek(
            depth,
        )).is_word()
    }

    /// Whether `local` exists and `operand` has its type.
    pub open spec fn accepts(self, local: LocalId, operand: Operand) -> bool {
        self.locals.dom().contains(local) && self.locals[local].ty == operand.ty
    }

    /// The state after one instruction; `None` where the instruction traps, is
    /// ill-typed in this state, or is not one that the rewriter inserts.
    pub open spec fn step(self, instr: Instr) -> Option<Machine> {
        match instr {
            Instr::LocalGet(get) => if self.locals.dom().contains(get.local) {
                Some(self.push(self.locals[get.local]))
            } else {
                None
            },
            Instr::LocalSet(set) => if self.stack.len() >= 1 && self.accepts(
                set.local,
                self.peek(0),
            ) {
                Some(Machine { locals: self.locals.insert(set.local, self.peek(0)), ..self.pop(1) })
            } else {
                None
            },
            Instr::LocalTee(tee) => if self.stack.len() >= 1 && self.accepts(
                tee.local,
                self.peek(0),
            ) {
                Some(Machine { locals: self.locals.insert(tee.local, self.peek(0)), ..self })
            } else {
                None
            },
            Instr::GlobalGet(get) => if self.globals.dom().contains(get.global) {
                Some(self.push(self.globals[get.global]))
            } else {
                None
            },
            Instr::Const(constant) => match constant.value {
                Value::I32(value) => Some(self.push(word(unsigned(value)))),
                _ => None,
            },
            Instr::Binop(binop) => if self.has_words(2) {
                let left = self.peek(1).bits;
                let right = self.peek(0).bits;
                match binop.op {
                    BinaryOp::I32Add => Some(
                        self.pop(2).push(word(((left + right) % 0x1_0000_0000) as nat)),
                    ),
                    BinaryOp::I32ShrU => Some(self.pop(2).push(word(left / pow2((right % 32) as nat)))),
                    _ => None,
                }
            } else {
                None
            },
            Instr::Store(store) => {
                let at = (self.peek(1).bits + store.arg.offset) as nat;
                if store.kind == (StoreKind::I32_8 { atomic: false }) && self.has_words(2)
                    && self.sizes.dom().contains(store.memory) && at < self.sizes[store.memory] {
                    Some(
                        Machine {
                            bytes: self.bytes.insert(
                                (store.memory, at),
                                (self.peek(0).bits % 256) as u8,
                            ),
                            ..self.pop(2)
                        },
                    )
                } else {
                    None
                }
            },
            Instr::Call(call) => if self.hosts.contains(call.func) && self.has_words(1) {
                Some(
                    Machine {
                        reports: self.reports.push((call.func, self.peek(0).bits)),
                        ..self.pop(1)
                    },
                )
            } else {
                None
            },
            _ => None,
        }
    }

    /// The state after the instructions of `code`, one after the other.
    pub open spec fn run(self, code: Seq<Instr>) -> Option<Machine>
        decreases code.len(),
    {
        if code.len() == 0 {
            Some(self)
        } else {
            match self.step(code[0]) {
                Some(next) => next.run(code.skip(1)),
                None => None,
            }
        }
    }
}

/// Running `first + second` is running `first` and then, from where it ends,
/// `second`.
pub proof fn lemma_run_concat(machine: Machine, first: Seq<Instr>, second: Seq<Instr>)
    ensures
        machine.run(first + second) == match machine.run(first) {
            Some(middle) => middle.run(second),
            None => None,
        },
    decreases first.len(),
{
    if first.len() == 0 {
        assert(first + second =~= second);
    } else {
        assert((first + second)[0] == first[0]);
        assert((first + second).skip(1) =~= first.skip(1) + second);
        match machine.step(first[0]) {
            Some(next) => lemma_run_concat(next, first.skip(1), second),
            None => {},
        }
    }
}

/// The address that a store writes first: the address operand plus the static
/// offset, as the inserted `i32.add` computes it.
pub open spec fn effective(address: nat, offset: u32) -> nat {
    ((address + offset) % 0x1_0000_0000) as nat
}

/// Where the dirty byte of the page of `address` lies, for a dirty array at `base`.
pub open spec fn dirty_byte(base: nat, address: nat) -> nat {
    ((address / 0x1_0000 + base) % 0x1_0000_0000) as nat
}

impl Machine {
    /// Whether the dirty array is where the inserted instructions can reach it:
    /// the global that holds its address is an `i32`, and the byte for the page
    /// of `address` lies inside the memory.
    pub open spec fn can_mark(self, hooks: Hooks, address: nat) -> bool {
        &&& self.globals.dom().contains(hooks.dirty_flags)
        &&& self.globals[hooks.dirty_flags].is_word()
        &&& self.sizes.dom().contains(hooks.memory)
        &&& dirty_byte(self.globals[hooks.dirty_flags].bits, address) < self.sizes[hooks.memory]
    }

    /// The state with the page of `address` marked dirty.
    pub open spec fn marked(self, hooks: Hooks, address: nat) -> Machine {
        Machine {
            bytes: self.bytes.insert(
                (hooks.memory, dirty_byte(self.globals[hooks.dirty_flags].bits, address)),
                1,
            ),
            ..self
        }
    }

    /// Whether the state is one in which a store of this kind may run in a
    /// module that the rewriter has prepared: the address and a value of the
    /// stored type are on the stack, the scratch locals have their types, and
    /// the dirty array can be reached.
    pub open spec fn ready_for_store(self, hooks: Hooks, kind: StoreKind, offset: u32) -> bool {
        &&& self.stack.len() >= 2
        &&& self.peek(0).ty == stored_type(kind)
        &&& self.peek(1).is_word()
        &&& hooks.address != hooks.value_scratch(kind)
        &&& self.accepts(hooks.address, self.peek(1))
        &&& self.accepts(hooks.value_scratch(kind), self.peek(0))
        &&& self.can_mark(hooks, effective(self.peek(1).bits, offset))
    }

    /// Whether the state is one in which a `memory.grow` may run in a module
    /// that the rewriter has prepared.
    pub open spec fn ready_for_grow(self, hooks: Hooks) -> bool {
        &&& self.has_words(1)
        &&& self.accepts(hooks.address, self.peek(0))
        &&& self.hosts.contains(hooks.on_grow)
    }
}

/// With an address on top of the stack, the marking instructions take it off
/// and set the dirty byte of its page to 1; nothing else changes.
pub proof fn lemma_mark_page(machine: Machine, hooks: Hooks)
    requires
        machine.has_words(1),
        machine.can_mark(hooks, machine.peek(0).bits),
    ensures
        machine.run(hooks.mark_page()) == Some(
            machine.pop(1).marked(hooks, machine.peek(0).bits),
        ),
{
    let code = hooks.mark_page();
    let address = machine.peek(0).bits;
    let base = machine.globals[hooks.dirty_flags].bits;
    let rest = machine.pop(1);
    lemma2_to64();
    assert(as_i32(16) == 16 && unsigned(16) == 16 && unsigned(1) == 1);
    let s1 = machine.push(word(16));
    assert(machine.step(code[0]) == Some(s1));
    assert(s1.peek(0) == word(16) && s1.peek(1) == machine.peek(0));
    assert(s1.has_words(2)) by {
        assert forall|depth: nat| depth < 2 implies (#[trigger] s1.peek(depth)).is_word() by {
            if depth == 1 {
                assert(s1.peek(1) == machine.peek(0));
            }
        }
    }
    let s2 = rest.push(word(address / 0x1_0000));
    assert(s1.pop(2).stack =~= rest.stack);
    assert(s1.step(code[1]) == Some(s2));
    let s3 = s2.push(machine.globals[hooks.dirty_flags]);
    assert(s2.step(code[2]) == Some(s3));
    assert(s3.peek(0) == machine.globals[hooks.dirty_flags] && s3.peek(1) == word(
        address / 0x1_0000,
    ));
    assert(s3.has_words(2)) by {
        assert forall|depth: nat| depth < 2 implies (#[trigger] s3.peek(depth)).is_word() by {
            if depth == 1 {
                assert(s3.peek(1) == word(address / 0x1_0000));
            }
        }
    }
    let flag = dirty_byte(base, address);
    let s4 = rest.push(word(flag));
    assert(s3.pop(2).stack =~= rest.stack);
    assert(s3.step(code[3]) == Some(s4));
    let s5 = s4.push(word(1));
    assert(s4.step(code[4]) == Some(s5));
    assert(s5.peek(0) == word(1) && s5.peek(1) == word(flag));
    assert(s5.has_words(2)) by {
        assert forall|depth: nat| depth < 2 implies (#[trigger] s5.peek(depth)).is_word() by {
            if depth == 1 {
                assert(s5.peek(1) == word(flag));
            }
        }
    }
    let s6 = rest.marked(hooks, address);
    assert(s5.pop(2).stack =~= rest.stack);
    assert(s5.step(code[5]) == Some(s6));
    assert(s6.run(code.skip(6)) == Some(s6));
    assert(machine.run(code) == Some(s6)) by {
        reveal_with_fuel(Machine::run, 7);
        assert(code.skip(1)[0] == code[1]);
        assert(code.skip(1).skip(1) =~= code.skip(2));
        assert(code.skip(2).skip(1) =~= code.skip(3));
        assert(code.skip(3).skip(1) =~= code.skip(4));
        assert(code.skip(4).skip(1) =~= code.skip(5));
        assert(code.skip(5).skip(1) =~= code.skip(6));
    }
}

/// Running two instructions from a state in which neither fails.
proof fn lemma_run_pair(machine: Machine, code: Seq<Instr>, middle: Machine, end: Machine)
    requires
        code.len() == 2,
        machine.step(code[0]) == Some(middle),
        middle.step(code[1]) == Some(end),
    ensures
        machine.run(code) == Some(end),
{
    reveal_with_fuel(Machine::run, 3);
    assert(code.skip(1)[0] == code[1]);
}

/// With the address operand on top of the stack, the instructions that form
/// the effective address replace it by the sum of operand and static offset.
pub proof fn lemma_effective_address(machine: Machine, hooks: Hooks, offset: u32)
    requires
        machine.has_words(1),
    ensures
        machine.run(hooks.effective_address(offset)) == Some(
            machine.pop(1).push(word(effective(machine.peek(0).bits, offset))),
        ),
        offset == 0 ==> effective(machine.peek(0).bits, offset) == machine.peek(0).bits,
{
    let code = hooks.effective_address(offset);
    let address = machine.peek(0).bits;
    let end = machine.pop(1).push(word(effective(address, offset)));
    assert(unsigned(as_i32(offset as int)) == offset);
    if offset == 0 {
        assert(machine.peek(0).is_word());
        assert(end.stack =~= machine.stack);
    } else {
        let s1 = machine.push(word(offset as nat));
        assert(s1.peek(0) == word(offset as nat) && s1.peek(1) == machine.peek(0));
        assert(s1.has_words(2)) by {
            assert forall|depth: nat| depth < 2 implies (#[trigger] s1.peek(depth)).is_word() by {
                if depth == 1 {
                    assert(s1.peek(1) == machine.peek(0));
                }
            }
        }
        assert(s1.pop(2).stack =~= machine.pop(1).stack);
        lemma_run_pair(machine, code, s1, end);
    }
}

/// The prelude of a store takes the address and the value off the stack,
/// marks the page of the effective address, and puts both back: when the
/// store itself runs, the stack is as it was, and so is everything else but
/// the two scratch locals and the dirty byte.
pub proof fn lemma_store_prelude(machine: Machine, hooks: Hooks, kind: StoreKind, offset: u32)
    requires
        machine.ready_for_store(hooks, kind, offset),
    ensures
        machine.run(hooks.store_prelude(kind, offset)) == Some(
            Machine {
                locals: machine.locals.insert(hooks.value_scratch(kind), machine.peek(0)).insert(
                    hooks.address,
                    machine.peek(1),
                ),
                ..machine.marked(hooks, effective(machine.peek(1).bits, offset))
            },
        ),
{
    let value = machine.peek(0);
    let address = machine.peek(1);
    let scratch = hooks.value_scratch(kind);
    let head = seq![local_set(scratch), local_tee(hooks.address)];
    let tail = seq![local_get(hooks.address), local_get(scratch)];
    let target = effective(address.bits, offset);
    // the value goes to its scratch local, the address to its own and stays
    let s1 = Machine { locals: machine.locals.insert(scratch, value), ..machine.pop(1) };
    assert(s1.peek(0) == address);
    let s2 = Machine { locals: s1.locals.insert(hooks.address, address), ..s1 };
    lemma_run_pair(machine, head, s1, s2);
    // the effective address takes the place of the address
    assert(s2.has_words(1)) by {
        assert forall|depth: nat| depth < 1 implies (#[trigger] s2.peek(depth)).is_word() by {
            assert(s2.peek(0) == address);
        }
    }
    lemma_effective_address(s2, hooks, offset);
    let s3 = s2.pop(1).push(word(target));
    // its page is marked
    assert(s3.peek(0) == word(target));
    assert(s3.has_words(1)) by {
        assert forall|depth: nat| depth < 1 implies (#[trigger] s3.peek(depth)).is_word() by {
            assert(s3.peek(0) == word(target));
        }
    }
    lemma_mark_page(s3, hooks);
    let s4 = s3.pop(1).marked(hooks, target);
    assert(s4.stack =~= machine.pop(2).stack);
    // address and value come back from the scratch locals
    let s5 = s4.push(address);
    let s6 = s5.push(value);
    lemma_run_pair(s4, tail, s5, s6);
    assert(s6.stack =~= machine.stack);
    lemma_run_concat(machine, head, hooks.effective_address(offset));
    lemma_run_concat(machine, head + hooks.effective_address(offset), hooks.mark_page());
    lemma_run_concat(
        machine,
        head + hooks.effective_address(offset) + hooks.mark_page(),
        tail,
    );
}

/// The prelude of a `memory.grow` tells the host the delta, exactly once, and
/// leaves the delta on the stack for the growth itself.
pub proof fn lemma_grow_prelude(machine: Machine, hooks: Hooks)
    requires
        machine.ready_for_grow(hooks),
    ensures
        machine.run(hooks.grow_prelude()) == Some(
            Machine {
                locals: machine.locals.insert(hooks.address, machine.peek(0)),
                reports: machine.reports.push((hooks.on_grow, machine.peek(0).bits)),
                ..machine
            },
        ),
{
    let code = hooks.grow_prelude();
    let delta = machine.peek(0);
    let s1 = Machine { locals: machine.locals.insert(hooks.address, delta), ..machine };
    assert(s1.has_words(1)) by {
        assert forall|depth: nat| depth < 1 implies (#[trigger] s1.peek(depth)).is_word() by {
            assert(s1.peek(0) == machine.peek(0));
        }
    }
    let s2 = Machine { reports: s1.reports.push((hooks.on_grow, delta.bits)), ..s1.pop(1) };
    let s3 = s2.push(delta);
    assert(s3.stack =~= machine.stack);
    assert(machine.step(code[0]) == Some(s1));
    assert(s1.step(code[1]) == Some(s2));
    assert(s2.step(code[2]) == Some(s3));
    reveal_with_fuel(Machine::run, 4);
    assert(code.skip(1)[0] == code[1]);
    assert(code.skip(1).skip(1) =~= code.skip(2));
    assert(code.skip(2).skip(1) =~= code.skip(3));
}

/// The prelude of a `global.set` tells the host the number of the global and
/// leaves the stack as it was; where global writes are not reported, there is
/// no prelude.
pub proof fn lemma_global_set_prelude(machine: Machine, hooks: Hooks, global: GlobalId)
    requires
        hooks.on_global_set matches Some(report) ==> machine.hosts.contains(report),
    ensures
        machine.run(hooks.global_set_prelude(global)) == Some(
            match hooks.on_global_set {
                Some(report) => Machine {
                    reports: machine.reports.push(
                        (report, unsigned(as_i32(global_number(global) as int))),
                    ),
                    ..machine
                },
                None => machine,
            },
        ),
{
    let code = hooks.global_set_prelude(global);
    match hooks.on_global_set {
        Some(report) => {
            let number = unsigned(as_i32(global_number(global) as int));
            let s1 = machine.push(word(number));
            assert(s1.has_words(1)) by {
                assert forall|depth: nat| depth < 1 implies (#[trigger] s1.peek(
                    depth,
                )).is_word() by {
                    assert(s1.peek(0) == word(number));
                }
            }
            let s2 = Machine { reports: machine.reports.push((report, number)), ..machine };
            assert(s1.pop(1).stack =~= machine.stack);
            lemma_run_pair(machine, code, s1, s2);
        },
        None => {},
    }
}

impl Machine {
    /// Whether the state is one in which `instr` may run in a module that the
    /// rewriter has prepared with `hooks`.
    pub open spec fn ready_for(self, hooks: Hooks, instr: Instr) -> bool {
        match instr {
            Instr::Store(store) => self.ready_for_store(hooks, store.kind, store.arg.offset),
            Instr::MemoryGrow(_) => self.ready_for_grow(hooks),
            Instr::GlobalSet(_) => hooks.on_global_set matches Some(report)
                ==> self.hosts.contains(report),
            _ => true,
        }
    }
}

/// Whatever instruction of the input is about to run, its prelude has handed
/// the stack and the globals back as it found them: the instruction sees the
/// operands that it would have seen in the input, in their order.
pub proof fn lemma_prelude_is_balanced(machine: Machine, hooks: Hooks, instr: Instr)
    requires
        machine.ready_for(hooks, instr),
    ensures
        machine.run(hooks.prelude(instr)) matches Some(after) && after.stack == machine.stack
            && after.globals == machine.globals && after.sizes == machine.sizes,
{
    match instr {
        Instr::Store(store) => lemma_store_prelude(machine, hooks, store.kind, store.arg.offset),
        Instr::MemoryGrow(_) => lemma_grow_prelude(machine, hooks),
        Instr::GlobalSet(set) => lemma_global_set_prelude(machine, hooks, set.global),
        _ => {},
    }
}

impl Machine {
    /// Whether the machine has each of `locals`, holding a value of its type.
    pub open spec fn has_locals(self, locals: Map<LocalId, ValType>) -> bool {
        forall|local: LocalId| #[trigger]
            locals.dom().contains(local) ==> self.locals.dom().contains(local)
                && self.locals[local].ty == locals[local]
    }
}

/// In a module that the rewriter has prepared, the scratch locals take what a
/// store has on the stack: with the address and a value of the stored type on
/// the stack and the dirty array in reach, the state is ready for the store.
pub proof fn lemma_scratch_takes_operands(
    machine: Machine,
    hooks: Hooks,
    locals: Map<LocalId, ValType>,
    kind: StoreKind,
    offset: u32,
)
    requires
        hooks.are_fresh(locals),
        machine.has_locals(hooks.with_scratch(locals)),
        machine.stack.len() >= 2,
        machine.peek(0).ty == stored_type(kind),
        machine.peek(1).is_word(),
        machine.can_mark(hooks, effective(machine.peek(1).bits, offset)),
    ensures
        machine.ready_for_store(hooks, kind, offset),
{
    let all = hooks.with_scratch(locals);
    assert(all.dom().contains(hooks.address) && all[hooks.address] == ValType::I32);
    assert(all.dom().contains(hooks.value_i32) && all[hooks.value_i32] == ValType::I32);
    assert(all.dom().contains(hooks.value_i64) && all[hooks.value_i64] == ValType::I64);
    assert(all.dom().contains(hooks.value_f32) && all[hooks.value_f32] == ValType::F32);
    assert(all.dom().contains(hooks.value_f64) && all[hooks.value_f64] == ValType::F64);
    assert(all.dom().contains(hooks.value_v128) && all[hooks.value_v128] == ValType::V128);
}

} // verus!
