//! The parts of the transformer, one by one.

use walrus::ir::{BinaryOp, Instr, InstrLocId, MemArg, StoreKind, Value, Visitor};
use walrus::{ExportItem, InitExpr, Module, ValType};
use wasm_guardian::inject::{export_globals, name_is_taken};
use wasm_guardian::module::{AllBlocks, ExportEntry, GlobalEntry};
use wasm_guardian::names::{
    append_decimal, export_name_of_global, DIRTY_FLAGS, GLOBAL_PREFIX, HOST_MODULE,
    ON_GLOBAL_SET, ON_GROW,
};
use wasm_guardian::options::{Options, TransformError, PAGE_SIZE_POWER_OF_2};
use wasm_guardian::prepare::{
    can_hold_address, find_exported_global, find_reusable_flags, prepare,
};
use wasm_guardian::rewriter::{
    check_supported, defined_functions, rewrite, rewrite_function, sequences, survey,
};
use wasm_guardian::splice::{
    holds_unsupported, number_constant, offset_constant, unsupported, Entry, Hooks,
};
use wasm_guardian::transform::load_module;

fn wasm(text: &str) -> Vec<u8> {
    wat::parse_str(text).unwrap()
}

fn load(text: &str) -> Module {
    load_module(&wasm(text)).unwrap()
}

/// A module with a memory and the hooks that the rewriter adds to it.
fn prepared(report_global_sets: bool) -> (Module, Hooks) {
    let mut module = load("(module (memory 1) (global (mut i32) (i32.const 0)))");
    let memory = module.memories.iter().next().unwrap().id();
    let hooks = prepare(&mut module, memory, report_global_sets);
    (module, hooks)
}

fn entry(instr: Instr) -> Entry {
    (instr, InstrLocId::new(7))
}

fn store(module: &Module, kind: StoreKind, offset: u32) -> Instr {
    Instr::Store(walrus::ir::Store {
        memory: module.memories.iter().next().unwrap().id(),
        kind,
        arg: MemArg { align: 1, offset },
    })
}

/// What an instruction is, written so that two can be compared.
fn show(entries: &[Entry]) -> Vec<String> {
    entries
        .iter()
        .map(|(instr, origin)| {
            let origin = if origin.is_default() {
                "new".to_string()
            } else {
                format!("{}", origin.data())
            };
            format!("{:?} @{}", instr, origin)
        })
        .collect()
}

#[test]
fn page_size_is_sixty_four_kibibytes() {
    assert_eq!(PAGE_SIZE_POWER_OF_2, 16);
    assert_eq!(1u32 << PAGE_SIZE_POWER_OF_2, 65_536);
}

#[test]
fn shared_names() {
    assert_eq!(HOST_MODULE, "wasm_guardian");
    assert_eq!(ON_GROW, "on_grow");
    assert_eq!(ON_GLOBAL_SET, "on_global_set");
    assert_eq!(DIRTY_FLAGS, "wg_dirty_flags");
    assert_eq!(GLOBAL_PREFIX, "wg_global_");
}

#[test]
fn options_of_the_two_flag_entry_point() {
    let options = Options::new(true, false);
    assert!(options.export_globals);
    assert!(!options.track_changes);
    assert!(!options.report_global_sets);
    let options = Options::new(false, true).with_global_set_reports(true);
    assert_eq!(
        options,
        Options { export_globals: false, track_changes: true, report_global_sets: true }
    );
    assert_eq!(options.with_global_set_reports(false), Options::new(false, true));
    assert_ne!(TransformError::MalformedInput, TransformError::EmitFailure);
}

#[test]
fn export_names_are_decimal() {
    assert_eq!(export_name_of_global(0), "wg_global_0");
    assert_eq!(export_name_of_global(7), "wg_global_7");
    assert_eq!(export_name_of_global(10), "wg_global_10");
    assert_eq!(export_name_of_global(109), "wg_global_109");
    assert_eq!(export_name_of_global(4_294_967_295), "wg_global_4294967295");
    assert_eq!(
        export_name_of_global(usize::MAX),
        format!("wg_global_{}", usize::MAX)
    );
    let mut text = String::from("n=");
    append_decimal(&mut text, 1_002_003);
    assert_eq!(text, "n=1002003");
    let names: Vec<String> = (0..1000).map(export_name_of_global).collect();
    for (number, name) in names.iter().enumerate() {
        assert_eq!(names.iter().filter(|other| *other == name).count(), 1);
        assert_eq!(*name, format!("wg_global_{:?}", number));
    }
}

#[test]
fn constants_are_twos_complement() {
    assert_eq!(offset_constant(0), 0);
    assert_eq!(offset_constant(24), 24);
    assert_eq!(offset_constant(0x7fff_ffff), i32::MAX);
    assert_eq!(offset_constant(0x8000_0000), i32::MIN);
    assert_eq!(offset_constant(0xffff_ffff), -1);
    assert_eq!(offset_constant(0xffff_fff0) as u32, 0xffff_fff0);
    assert_eq!(number_constant(0), 0);
    assert_eq!(number_constant(3), 3);
    assert_eq!(number_constant(0x8000_0001), i32::MIN + 1);
    assert_eq!(number_constant(0x1_0000_0005), 5);
}

#[test]
fn unsupported_instructions() {
    let module = load(
        r#"
        (module
            (memory 1)
            (table 4 funcref)
            (data "x")
            (elem func)
            (func
                data.drop 0
                elem.drop 0
                i32.const 0 i32.const 0 i32.const 0 table.init 0
                i32.const 0 i32.const 0 i32.const 0 table.copy
                ref.null func i32.const 1 table.grow 0
                drop
                i32.const 0 ref.null func i32.const 1 table.fill 0
                i32.const 0 i32.const 0 i32.const 3 memory.init 0
                i32.const 0 i32.const 8 i32.const 4 memory.copy
                i32.const 0 i32.const 1 i32.const 4 memory.fill
                i32.const 0 i32.const 1 i32.store
                i32.const 1 memory.grow drop
                i32.const 0 table.get 0 drop
                table.size 0 drop))
        "#,
    );
    let (_, function) = module.funcs.iter_local().next().unwrap();
    let instrs = &function.block(function.entry_block()).instrs;
    let refused: Vec<String> = instrs
        .iter()
        .filter(|(instr, _)| unsupported(instr))
        .map(|(instr, _)| format!("{:?}", instr).split('(').next().unwrap().to_string())
        .collect();
    assert_eq!(
        refused,
        vec!["DataDrop", "ElemDrop", "TableInit", "TableCopy", "TableGrow", "TableFill"]
    );
    assert!(holds_unsupported(instrs));
    assert!(!holds_unsupported(&instrs[instrs.len() - 12..].to_vec()));
    assert!(!holds_unsupported(&Vec::new()));
}

#[test]
fn scratch_local_follows_the_stored_type() {
    let (_, hooks) = prepared(false);
    let plain = [
        (StoreKind::I32 { atomic: false }, hooks.value_i32),
        (StoreKind::I32_8 { atomic: false }, hooks.value_i32),
        (StoreKind::I32_16 { atomic: true }, hooks.value_i32),
        (StoreKind::I64 { atomic: true }, hooks.value_i64),
        (StoreKind::I64_8 { atomic: false }, hooks.value_i64),
        (StoreKind::I64_16 { atomic: false }, hooks.value_i64),
        (StoreKind::I64_32 { atomic: false }, hooks.value_i64),
        (StoreKind::F32, hooks.value_f32),
        (StoreKind::F64, hooks.value_f64),
        (StoreKind::V128, hooks.value_v128),
    ];
    for (kind, local) in plain {
        assert_eq!(hooks.scratch_for(kind), local, "{:?}", kind);
    }
    let all = [
        hooks.address,
        hooks.value_i32,
        hooks.value_i64,
        hooks.value_f32,
        hooks.value_f64,
        hooks.value_v128,
    ];
    for (i, a) in all.iter().enumerate() {
        for b in &all[i + 1..] {
            assert_ne!(a, b);
        }
    }
}

#[test]
fn sequence_is_rewritten_entry_by_entry() {
    let (module, hooks) = prepared(true);
    let global = module.globals.iter().next().unwrap().id();
    let grow = Instr::MemoryGrow(walrus::ir::MemoryGrow {
        memory: hooks.memory,
    });
    let set = Instr::GlobalSet(walrus::ir::GlobalSet { global });
    let drop = Instr::Drop(walrus::ir::Drop {});
    let wide = store(&module, StoreKind::F64, 0x8000_0000);
    let src = vec![
        entry(drop.clone()),
        entry(wide.clone()),
        entry(grow.clone()),
        entry(set.clone()),
        entry(store(&module, StoreKind::I32_16 { atomic: false }, 0)),
    ];
    let out = hooks.rewrite_sequence(&src).unwrap();

    let new = |instr: Instr| (instr, InstrLocId::default());
    let get = |local| new(Instr::LocalGet(walrus::ir::LocalGet { local }));
    let put = |local| new(Instr::LocalSet(walrus::ir::LocalSet { local }));
    let tee = |local| new(Instr::LocalTee(walrus::ir::LocalTee { local }));
    let constant = |value| new(Instr::Const(walrus::ir::Const { value: Value::I32(value) }));
    let binop = |op| new(Instr::Binop(walrus::ir::Binop { op }));
    let call = |func| new(Instr::Call(walrus::ir::Call { func }));
    let mark = || {
        vec![
            constant(16),
            binop(BinaryOp::I32ShrU),
            new(Instr::GlobalGet(walrus::ir::GlobalGet { global: hooks.dirty_flags })),
            binop(BinaryOp::I32Add),
            constant(1),
            new(Instr::Store(walrus::ir::Store {
                memory: hooks.memory,
                kind: StoreKind::I32_8 { atomic: false },
                arg: MemArg { align: 1, offset: 0 },
            })),
        ]
    };
    let mut expected = vec![entry(drop)];
    expected.extend([put(hooks.value_f64), tee(hooks.address)]);
    expected.extend([constant(i32::MIN), binop(BinaryOp::I32Add)]);
    expected.extend(mark());
    expected.extend([get(hooks.address), get(hooks.value_f64), entry(wide)]);
    expected.extend([tee(hooks.address), call(hooks.on_grow), get(hooks.address), entry(grow)]);
    expected.extend([constant(0), call(hooks.on_global_set.unwrap()), entry(set)]);
    expected.extend([put(hooks.value_i32), tee(hooks.address)]);
    expected.extend(mark());
    expected.extend([
        get(hooks.address),
        get(hooks.value_i32),
        entry(store(&module, StoreKind::I32_16 { atomic: false }, 0)),
    ]);
    assert_eq!(show(&out), show(&expected));
    assert_eq!(out.len(), 1 + 13 + 4 + 3 + 11);

    assert_eq!(show(&hooks.splice_all(&src)), show(&expected));
    assert_eq!(show(&hooks.rewrite_sequence(&Vec::new()).unwrap()), Vec::<String>::new());
    // A rewritten sequence can be rewritten again.
    assert_eq!(hooks.rewrite_sequence(&out).unwrap().len(), out.len() + 12 + 3 * 10 + 3 + 2);
}

#[test]
fn preludes_one_by_one() {
    let (module, hooks) = prepared(false);
    let global = module.globals.iter().next().unwrap().id();
    let mut out = vec![entry(Instr::Drop(walrus::ir::Drop {}))];
    hooks.push_global_set_prelude(&mut out, global);
    assert_eq!(out.len(), 1);
    hooks.push_grow_prelude(&mut out);
    assert_eq!(out.len(), 4);
    hooks.push_store_prelude(&mut out, StoreKind::I64 { atomic: false }, 0);
    assert_eq!(out.len(), 14);
    hooks.push_store_prelude(&mut out, StoreKind::I64 { atomic: false }, 1);
    assert_eq!(out.len(), 26);
    let add = Instr::Binop(walrus::ir::Binop { op: BinaryOp::I32Add });
    hooks.push_spliced(&mut out, &entry(add));
    assert_eq!(out.len(), 27);
    assert!(out[1..26].iter().all(|(_, origin)| origin.is_default()));
    assert_eq!(out[26].1.data(), 7);
}

#[test]
fn unsupported_sequence_is_refused() {
    let (module, hooks) = prepared(false);
    let data = {
        let module = load("(module (memory 1) (data \"x\") (func data.drop 0))");
        let (_, function) = module.funcs.iter_local().next().unwrap();
        function.block(function.entry_block()).instrs[0].0.clone()
    };
    let src = vec![entry(store(&module, StoreKind::F32, 4)), entry(data)];
    assert_eq!(
        hooks.rewrite_sequence(&src).err(),
        Some(TransformError::UnsupportedOpcode)
    );
    assert!(hooks.rewrite_sequence(&src[..1].to_vec()).is_ok());
    // Taken alone, the splicing copies what it does not instrument.
    assert_eq!(hooks.splice_all(&src).len(), 12 + 1 + 1);
}

#[test]
fn names_among_exports() {
    let module = load(
        r#"
        (module
            (memory (export "wg_dirty_flags") 1)
            (global $a (mut i32) (i32.const 0))
            (global $b i32 (i32.const 0))
            (global $c (mut i64) (i64.const 0))
            (export "first" (global $a))
            (export "second" (global $b))
            (export "first again" (global $a))
            (export "third" (global $c)))
        "#,
    );
    let entries: Vec<ExportEntry> = module
        .exports
        .iter()
        .map(|export| ExportEntry { name: export.name.clone(), item: export.item })
        .collect();
    assert!(name_is_taken(&entries, &"first".to_string()));
    assert!(name_is_taken(&entries, &"wg_dirty_flags".to_string()));
    assert!(!name_is_taken(&entries, &"firs".to_string()));
    assert!(!name_is_taken(&entries, &String::new()));
    assert!(!name_is_taken(&Vec::new(), &"first".to_string()));
    let ids: Vec<_> = module.globals.iter().map(|global| global.id()).collect();
    assert_eq!(find_exported_global(&entries, "first"), Some(ids[0]));
    assert_eq!(find_exported_global(&entries, "second"), Some(ids[1]));
    assert_eq!(find_exported_global(&entries, "wg_dirty_flags"), None);
    assert_eq!(find_exported_global(&entries, "fourth"), None);

    let globals: Vec<GlobalEntry> = module
        .globals
        .iter()
        .map(|global| GlobalEntry {
            id: global.id(),
            ty: global.ty,
            mutable: global.mutable,
            init: Some(InitExpr::Value(Value::I32(0))),
        })
        .collect();
    assert!(can_hold_address(&globals, ids[0]));
    assert!(!can_hold_address(&globals, ids[1]));
    assert!(!can_hold_address(&globals, ids[2]));
    assert!(!can_hold_address(&globals[1..].to_vec(), ids[0]));
    assert_eq!(find_reusable_flags(&module), None);
}

#[test]
fn published_globals() {
    let module = load(
        r#"
        (module
            (import "env" "a" (global i32))
            (global (mut i32) (i32.const 7))
            (global i32 (i32.const 8))
            (global (mut i32) (global.get 0))
            (global (mut i64) (i64.const 1)))
        "#,
    );
    let published: Vec<bool> = module
        .globals
        .iter()
        .map(|global| {
            GlobalEntry {
                id: global.id(),
                ty: global.ty,
                mutable: global.mutable,
                init: match global.kind {
                    walrus::GlobalKind::Local(init) => Some(init),
                    walrus::GlobalKind::Import(_) => None,
                },
            }
            .published()
        })
        .collect();
    assert_eq!(published, vec![false, true, false, false, true]);
}

#[test]
fn injector_adds_exports_in_the_order_of_the_globals() {
    let mut module = load(
        r#"
        (module
            (global (mut i32) (i32.const 7))
            (global (export "wg_global_2") (mut i32) (i32.const 8))
            (global (mut f32) (f32.const 9)))
        "#,
    );
    export_globals(&mut module);
    let exports: Vec<(String, usize)> = module
        .exports
        .iter()
        .map(|export| match export.item {
            ExportItem::Global(global) => (export.name.clone(), global.index()),
            _ => unreachable!(),
        })
        .collect();
    assert_eq!(
        exports,
        vec![
            ("wg_global_2".to_string(), 1),
            ("wg_global_0".to_string(), 0),
            ("wg_global_1".to_string(), 1),
        ]
    );
}

#[test]
fn reusable_flags_are_the_exported_mutable_i32() {
    let module = load(
        r#"
        (module
            (global i32 (i32.const 1))
            (global (export "wg_dirty_flags") (mut i32) (i32.const 2)))
        "#,
    );
    let found = find_reusable_flags(&module).unwrap();
    assert_eq!(found.index(), 1);
    let module = load("(module (global (export \"wg_dirty_flags\") (mut f32) (f32.const 2)))");
    assert!(find_reusable_flags(&module).is_none());
    let module = load("(module (global (export \"wg_dirty_flag\") (mut i32) (i32.const 2)))");
    assert!(find_reusable_flags(&module).is_none());
}

#[test]
fn walk_lists_the_entry_and_what_it_nests() {
    let module = load(
        r#"
        (module
            (func (param i32)
                (block
                    (loop
                        (if (local.get 0)
                            (then (drop (i32.const 1)))
                            (else (block (drop (i32.const 1)) (drop (i32.const 2)))))))
                (if (local.get 0)
                    (then
                        (loop
                            (drop (i32.const 1))
                            (drop (i32.const 2))
                            (drop (i32.const 3)))))))
        "#,
    );
    let (id, function) = module.funcs.iter_local().next().unwrap();
    let list = sequences(&module, id);
    assert_eq!(list.len(), 9);
    assert_eq!(list[0], function.entry_block());
    for (i, a) in list.iter().enumerate() {
        for b in &list[i + 1..] {
            assert_ne!(a, b);
        }
    }
    let mut found = AllBlocks { blocks: Vec::new() };
    walrus::ir::dfs_in_order(&mut found, function, function.entry_block());
    assert_eq!(found.blocks[..], list[1..]);
    // The entry, the block, its loop, the two arms of the if/else in it, the
    // block in the alternative, and only then the two arms of the second
    // if/else and the loop in its consequent.
    let lengths: Vec<usize> = list.iter().map(|id| function.block(*id).instrs.len()).collect();
    assert_eq!(lengths, vec![3, 1, 2, 2, 1, 4, 1, 0, 6]);
    assert!(check_supported(&module, id, &list));
}

#[test]
fn survey_lists_every_function() {
    let module = load(
        r#"
        (module
            (import "env" "f" (func))
            (memory 1)
            (func (block (block)))
            (func)
            (func (if (i32.const 1) (then))))
        "#,
    );
    let lists = survey(&module).unwrap();
    let lengths: Vec<usize> = lists.iter().map(|list| list.len()).collect();
    assert_eq!(lengths, vec![3, 1, 3]);
    let module = load("(module (table 1 funcref) (func) (func (block (drop (table.grow 0 (ref.null func) (i32.const 1))))))");
    assert_eq!(survey(&module).err(), Some(TransformError::UnsupportedOpcode));
    let (id, _) = module.funcs.iter_local().nth(1).unwrap();
    let list = sequences(&module, id);
    assert!(!check_supported(&module, id, &list));
    assert!(check_supported(&module, id, &list[..1].to_vec()));
}

#[test]
fn functions_are_rewritten_sequence_by_sequence() {
    let text = r#"
        (module
            (memory 1)
            (func (param i32)
                (block
                    (i32.store (local.get 0) (i32.const 1))
                    (loop (i64.store offset=8 (local.get 0) (i64.const 2))))
                (drop (memory.grow (i32.const 1))))
            (func (param i32)
                (f32.store (local.get 0) (f32.const 1))))
    "#;
    let count = |module: &Module| -> Vec<Vec<usize>> {
        module
            .funcs
            .iter_local()
            .map(|(id, function)| {
                sequences(module, id)
                    .iter()
                    .map(|sequence| function.block(*sequence).instrs.len())
                    .collect()
            })
            .collect()
    };
    let mut module = load(text);
    assert_eq!(count(&module), vec![vec![4, 4, 3], vec![3]]);
    let memory = module.memories.iter().next().unwrap().id();
    let hooks = prepare(&mut module, memory, false);
    let lists = survey(&module).unwrap();
    rewrite(&mut module, &hooks, &lists);
    assert_eq!(count(&module), vec![vec![4 + 3, 4 + 10, 3 + 12], vec![3 + 10]]);

    // One function, and only its entry.
    let mut module = load(text);
    let memory = memory_of(&module);
    let hooks = prepare(&mut module, memory, false);
    let (first, _) = module.funcs.iter_local().next().unwrap();
    let entry = sequences(&module, first)[..1].to_vec();
    rewrite_function(&mut module, &hooks, first, &entry);
    assert_eq!(count(&module), vec![vec![4 + 3, 4, 3], vec![3]]);
}

fn memory_of(module: &Module) -> walrus::MemoryId {
    module.memories.iter().next().unwrap().id()
}

#[test]
fn types_of_scratch_locals() {
    let (module, hooks) = prepared(false);
    assert_eq!(module.locals.get(hooks.address).ty(), ValType::I32);
    assert_eq!(module.locals.get(hooks.value_v128).ty(), ValType::V128);
}

#[test]
fn visitor_notes_sequences_in_the_order_of_the_calls() {
    let module = load(
        r#"
        (module
            (func (param i32)
                (block (drop (i32.const 1)))
                (loop (drop (i32.const 2)))
                (if (local.get 0) (then (drop (i32.const 3))) (else))))
        "#,
    );
    let (_, function) = module.funcs.iter_local().next().unwrap();
    let instrs = &function.block(function.entry_block()).instrs;
    let (block, repeat, choice) = match (&instrs[0].0, &instrs[1].0, &instrs[3].0) {
        (Instr::Block(block), Instr::Loop(repeat), Instr::IfElse(choice)) => {
            (block, repeat, choice)
        }
        other => panic!("{:?}", other),
    };
    let mut found = AllBlocks { blocks: Vec::new() };
    found.visit_if_else(choice);
    assert_eq!(found.blocks, vec![choice.consequent, choice.alternative]);
    found.visit_block(block);
    assert_eq!(found.blocks, vec![choice.consequent, choice.alternative, block.seq]);
    found.visit_loop(repeat);
    found.visit_block(block);
    assert_eq!(
        found.blocks,
        vec![choice.consequent, choice.alternative, block.seq, repeat.seq, block.seq]
    );
    assert_ne!(choice.consequent, choice.alternative);
}

#[test]
fn defined_functions_leave_out_imported_ones() {
    let module = load(
        r#"
        (module
            (import "env" "f" (func))
            (import "env" "g" (func))
            (func)
            (func (drop (i32.const 1)))
            (func))
        "#,
    );
    let functions = defined_functions(&module);
    let listed: Vec<_> = module.funcs.iter_local().map(|(id, _)| id).collect();
    assert_eq!(functions, listed);
    assert_eq!(functions.len(), 3);
    assert_eq!(module.funcs.iter().count(), 5);
    assert_eq!(defined_functions(&load("(module)")).len(), 0);
}
