//! Transformed modules, run by an interpreter that plays the host.

use wasm_guardian::options::{Options, TransformError};
use wasm_guardian::transform::{transform, transform_wasm_to_track_changes};
use wasmi::{Caller, Engine, Instance, Linker, Module, Store, Val};

#[derive(Default)]
struct Host {
    /// Each `on_grow` call: the delta, and the size of the memory in pages when it came.
    grows: Vec<(i32, u64)>,
    /// Each `on_global_set` call.
    global_sets: Vec<i32>,
}

const DIRTY_BASE: i32 = 0x1000;

fn wasm(text: &str) -> Vec<u8> {
    wat::parse_str(text).unwrap()
}

fn instantiate(bytes: &[u8]) -> (Store<Host>, Instance) {
    let engine = Engine::default();
    let module = Module::new(&engine, bytes).unwrap();
    let mut store = Store::new(&engine, Host::default());
    let mut linker = <Linker<Host>>::new(&engine);
    linker
        .func_wrap(
            "wasm_guardian",
            "on_grow",
            |mut caller: Caller<'_, Host>, delta: i32| {
                let pages = caller
                    .get_export("memory")
                    .and_then(|export| export.into_memory())
                    .map(|memory| memory.size(&caller))
                    .unwrap_or(0);
                caller.data_mut().grows.push((delta, pages));
            },
        )
        .unwrap();
    linker
        .func_wrap(
            "wasm_guardian",
            "on_global_set",
            |mut caller: Caller<'_, Host>, index: i32| {
                caller.data_mut().global_sets.push(index);
            },
        )
        .unwrap();
    let instance = linker.instantiate_and_start(&mut store, &module).unwrap();
    (store, instance)
}

/// Instantiates a module that tracks changes and points it at a zeroed dirty array.
fn instantiate_tracked(bytes: &[u8]) -> (Store<Host>, Instance) {
    let (mut store, instance) = instantiate(bytes);
    let flags = instance.get_global(&store, "wg_dirty_flags").unwrap();
    assert_eq!(flags.get(&store).i32(), Some(0));
    flags.set(&mut store, Val::I32(DIRTY_BASE)).unwrap();
    (store, instance)
}

fn byte(store: &Store<Host>, instance: &Instance, at: usize) -> u8 {
    instance.get_memory(store, "memory").unwrap().data(store)[at]
}

fn dirty(store: &Store<Host>, instance: &Instance, page: usize) -> u8 {
    byte(store, instance, DIRTY_BASE as usize + page)
}

const ONE_STORE: &str = r#"
    (module
        (memory (export "memory") 1)
        (func (export "run") (param i32 i32)
            local.get 0
            local.get 1
            i32.store))
"#;

#[test]
fn store_marks_the_page_and_still_stores() {
    let out = transform_wasm_to_track_changes(&wasm(ONE_STORE), false, true).unwrap();
    let (mut store, instance) = instantiate_tracked(&out);
    assert_eq!(dirty(&store, &instance, 0), 0);
    let run = instance.get_typed_func::<(i32, i32), ()>(&store, "run").unwrap();
    run.call(&mut store, (128, 0x0403_0201)).unwrap();
    assert_ne!(dirty(&store, &instance, 0), 0);
    assert_eq!(dirty(&store, &instance, 0), 1);
    assert_eq!(byte(&store, &instance, 128), 1);
    assert_eq!(byte(&store, &instance, 129), 2);
    assert_eq!(byte(&store, &instance, 130), 3);
    assert_eq!(byte(&store, &instance, 131), 4);
    assert!(store.data().grows.is_empty());
}

#[test]
fn global_is_exported_and_read_after_a_write() {
    let input = wasm(
        r#"
        (module
            (global $g (mut i32) (i32.const 7))
            (func (export "set")
                i32.const 42
                global.set $g))
        "#,
    );
    let out = transform_wasm_to_track_changes(&input, true, false).unwrap();
    let (mut store, instance) = instantiate(&out);
    let global = instance.get_global(&store, "wg_global_0").unwrap();
    assert_eq!(global.get(&store).i32(), Some(7));
    let set = instance.get_typed_func::<(), ()>(&store, "set").unwrap();
    set.call(&mut store, ()).unwrap();
    assert_eq!(global.get(&store).i32(), Some(42));
    assert!(instance.get_global(&store, "wg_dirty_flags").is_none());
    assert!(store.data().global_sets.is_empty());
}

#[test]
fn growth_is_reported_once_before_it_happens() {
    let input = wasm(
        r#"
        (module
            (memory (export "memory") 1)
            (func (export "grow") (result i32)
                i32.const 1
                memory.grow))
        "#,
    );
    let out = transform_wasm_to_track_changes(&input, false, true).unwrap();
    let (mut store, instance) = instantiate_tracked(&out);
    let grow = instance.get_typed_func::<(), i32>(&store, "grow").unwrap();
    let previous = grow.call(&mut store, ()).unwrap();
    assert_eq!(previous, 1);
    assert_eq!(store.data().grows, vec![(1, 1)]);
    assert_eq!(instance.get_memory(&store, "memory").unwrap().size(&store), 2);
}

#[test]
fn data_drop_is_refused() {
    let input = wasm(
        r#"
        (module
            (memory 1)
            (data "abc")
            (func (export "run")
                data.drop 0))
        "#,
    );
    assert_eq!(
        transform_wasm_to_track_changes(&input, false, true),
        Err(TransformError::UnsupportedOpcode)
    );
    assert_eq!(
        transform_wasm_to_track_changes(&input, true, true),
        Err(TransformError::UnsupportedOpcode)
    );
    // The rewriter does not run, so the module passes.
    assert!(transform_wasm_to_track_changes(&input, false, false).is_ok());
    assert!(transform_wasm_to_track_changes(&input, true, false).is_ok());
}

const WIDE_STORE: &str = r#"
    (module
        (memory (export "memory") 2)
        (func (export "run") (param i32 i64)
            local.get 0
            local.get 1
            i64.store offset=24))
"#;

#[test]
fn store_across_a_page_boundary_marks_the_first_page() {
    let out = transform_wasm_to_track_changes(&wasm(WIDE_STORE), false, true).unwrap();
    let (mut store, instance) = instantiate_tracked(&out);
    let run = instance.get_typed_func::<(i32, i64), ()>(&store, "run").unwrap();
    // 65,506 + 24 = 65,530: the eight bytes end in the second page.
    run.call(&mut store, (65_506, 0x0807_0605_0403_0201)).unwrap();
    assert_eq!(dirty(&store, &instance, 0), 1);
    assert_eq!(dirty(&store, &instance, 1), 0);
    for i in 0..8usize {
        assert_eq!(byte(&store, &instance, 65_530 + i), i as u8 + 1);
    }
    // What the host finds when it looks at the start of the page that follows.
    assert_eq!(byte(&store, &instance, 65_536), 7);
    assert_eq!(byte(&store, &instance, 65_537), 8);
}

#[test]
fn store_marks_the_page_of_the_effective_address() {
    let out = transform_wasm_to_track_changes(&wasm(WIDE_STORE), false, true).unwrap();
    let (mut store, instance) = instantiate_tracked(&out);
    let run = instance.get_typed_func::<(i32, i64), ()>(&store, "run").unwrap();
    // 65,530 + 24 = 65,554 lies in the second page.
    run.call(&mut store, (65_530, -1)).unwrap();
    assert_eq!(dirty(&store, &instance, 0), 0);
    assert_eq!(dirty(&store, &instance, 1), 1);
    assert_eq!(byte(&store, &instance, 65_553), 0);
    assert_eq!(byte(&store, &instance, 65_554), 0xff);
    assert_eq!(byte(&store, &instance, 65_561), 0xff);
}

#[test]
fn operands_below_a_store_stay_on_the_stack() {
    let input = wasm(
        r#"
        (module
            (memory (export "memory") 1)
            (func (export "run") (param i32 i32) (result i32 i64)
                i32.const 5
                i64.const 6
                local.get 0
                local.get 1
                i32.store8 offset=3
                local.get 0
                i64.const -2
                i64.store32 offset=8
                local.get 0
                f32.const 1.5
                f32.store offset=16
                local.get 0
                f64.const 2.5
                f64.store offset=32
                local.get 0
                i64.const 258
                i64.store16 offset=48))
        "#,
    );
    let out = transform_wasm_to_track_changes(&input, false, true).unwrap();
    let (mut store, instance) = instantiate_tracked(&out);
    let run = instance.get_typed_func::<(i32, i32), (i32, i64)>(&store, "run").unwrap();
    assert_eq!(run.call(&mut store, (256, 0x1234)).unwrap(), (5, 6));
    assert_eq!(dirty(&store, &instance, 0), 1);
    assert_eq!(byte(&store, &instance, 259), 0x34);
    assert_eq!(byte(&store, &instance, 264), 0xfe);
    assert_eq!(byte(&store, &instance, 267), 0xff);
    assert_eq!(byte(&store, &instance, 268), 0);
    let memory = instance.get_memory(&store, "memory").unwrap();
    let data = memory.data(&store);
    assert_eq!(f32::from_le_bytes([data[272], data[273], data[274], data[275]]), 1.5);
    let mut eight = [0u8; 8];
    eight.copy_from_slice(&data[288..296]);
    assert_eq!(f64::from_le_bytes(eight), 2.5);
    assert_eq!(data[304], 2);
    assert_eq!(data[305], 1);
}

#[test]
fn stores_in_nested_sequences_are_instrumented() {
    let input = wasm(
        r#"
        (module
            (memory (export "memory") 4)
            (func (export "run") (param i32)
                (block
                    (loop
                        local.get 0
                        (if
                            (then
                                i32.const 65536
                                i32.const 1
                                i32.store)
                            (else
                                i32.const 131072
                                i32.const 2
                                i32.store))))
                i32.const 196608
                i32.const 3
                i32.store))
        "#,
    );
    let out = transform_wasm_to_track_changes(&input, false, true).unwrap();
    let (mut store, instance) = instantiate_tracked(&out);
    let run = instance.get_typed_func::<i32, ()>(&store, "run").unwrap();
    run.call(&mut store, 1).unwrap();
    assert_eq!(
        [0, 1, 2, 3].map(|page| dirty(&store, &instance, page)),
        [0, 1, 0, 1]
    );
    run.call(&mut store, 0).unwrap();
    assert_eq!(
        [0, 1, 2, 3].map(|page| dirty(&store, &instance, page)),
        [0, 1, 1, 1]
    );
    assert_eq!(byte(&store, &instance, 65_536), 1);
    assert_eq!(byte(&store, &instance, 131_072), 2);
    assert_eq!(byte(&store, &instance, 196_608), 3);
}

#[test]
fn global_writes_are_reported_where_asked_for() {
    let input = wasm(
        r#"
        (module
            (import "env" "first" (global i32))
            (memory (export "memory") 1)
            (global $a (mut i32) (i32.const 0))
            (global $b (mut i64) (i64.const 0))
            (func (export "set")
                i64.const 9
                global.set $b
                i32.const 8
                global.set $a))
        "#,
    );
    let options = Options::new(true, true).with_global_set_reports(true);
    let out = transform(&input, &options).unwrap();
    let engine = Engine::default();
    let module = Module::new(&engine, &out).unwrap();
    let mut store = Store::new(&engine, Host::default());
    let mut linker = <Linker<Host>>::new(&engine);
    linker
        .func_wrap("wasm_guardian", "on_grow", |_: Caller<'_, Host>, _: i32| {})
        .unwrap();
    linker
        .func_wrap(
            "wasm_guardian",
            "on_global_set",
            |mut caller: Caller<'_, Host>, index: i32| {
                caller.data_mut().global_sets.push(index);
            },
        )
        .unwrap();
    let first = wasmi::Global::new(&mut store, Val::I32(1), wasmi::Mutability::Const);
    linker.define("env", "first", first).unwrap();
    let instance = linker.instantiate_and_start(&mut store, &module).unwrap();
    let set = instance.get_typed_func::<(), ()>(&store, "set").unwrap();
    set.call(&mut store, ()).unwrap();
    assert_eq!(store.data().global_sets, vec![2, 1]);
    assert_eq!(
        instance.get_global(&store, "wg_global_1").unwrap().get(&store).i32(),
        Some(8)
    );
    assert_eq!(
        instance.get_global(&store, "wg_global_2").unwrap().get(&store).i64(),
        Some(9)
    );
    assert!(instance.get_global(&store, "wg_global_0").is_none());

    // Without the option no write is reported, and the import is not asked for.
    let quiet = transform(&input, &Options::new(true, true)).unwrap();
    let (mut store, instance) = {
        let module = Module::new(&engine, &quiet).unwrap();
        let mut store = Store::new(&engine, Host::default());
        let mut linker = <Linker<Host>>::new(&engine);
        linker
            .func_wrap("wasm_guardian", "on_grow", |_: Caller<'_, Host>, _: i32| {})
            .unwrap();
        let first = wasmi::Global::new(&mut store, Val::I32(1), wasmi::Mutability::Const);
        linker.define("env", "first", first).unwrap();
        let instance = linker.instantiate_and_start(&mut store, &module).unwrap();
        (store, instance)
    };
    let set = instance.get_typed_func::<(), ()>(&store, "set").unwrap();
    set.call(&mut store, ()).unwrap();
    assert!(store.data().global_sets.is_empty());
}

#[test]
fn transformed_module_can_be_transformed_again() {
    let options = Options::new(true, true).with_global_set_reports(true);
    let input = wasm(
        r#"
        (module
            (memory (export "memory") 1)
            (global $g (mut i32) (i32.const 7))
            (func (export "run") (param i32 i32) (result i32)
                local.get 0
                local.get 1
                i32.store
                local.get 1
                global.set $g
                i32.const 1
                memory.grow))
        "#,
    );
    let once = transform(&input, &options).unwrap();
    let twice = transform(&once, &options).unwrap();
    let thrice = transform(&twice, &options).unwrap();
    for bytes in [&once, &twice, &thrice] {
        wasmparser::Validator::new().validate_all(bytes).unwrap();
    }
    let (mut store, instance) = instantiate_tracked(&thrice);
    let run = instance.get_typed_func::<(i32, i32), i32>(&store, "run").unwrap();
    assert_eq!(run.call(&mut store, (8, 77)).unwrap(), 1);
    assert_eq!(dirty(&store, &instance, 0), 1);
    assert_eq!(byte(&store, &instance, 8), 77);
    assert_eq!(store.data().grows, vec![(1, 1), (1, 1), (1, 1)]);
    assert_eq!(store.data().global_sets, vec![0, 0, 0]);
    assert_eq!(
        instance.get_global(&store, "wg_global_0").unwrap().get(&store).i32(),
        Some(77)
    );
}

#[test]
fn untracked_module_behaves_as_before() {
    let input = wasm(
        r#"
        (module
            (import "env" "add" (func $add (param i32 i32) (result i32)))
            (memory (export "memory") 1)
            (global (export "counter") (mut i32) (i32.const 0))
            (func (export "run") (param i32) (result i32)
                i32.const 0
                local.get 0
                i32.store
                i32.const 0
                i32.load
                i32.const 1
                call $add
                global.set 0
                global.get 0))
        "#,
    );
    let out = transform_wasm_to_track_changes(&input, false, false).unwrap();
    let mut results = Vec::new();
    for bytes in [&input, &out] {
        let engine = Engine::default();
        let module = Module::new(&engine, bytes).unwrap();
        let mut store = Store::new(&engine, Host::default());
        let mut linker = <Linker<Host>>::new(&engine);
        linker
            .func_wrap("env", "add", |a: i32, b: i32| a.wrapping_add(b))
            .unwrap();
        let instance = linker.instantiate_and_start(&mut store, &module).unwrap();
        let run = instance.get_typed_func::<i32, i32>(&store, "run").unwrap();
        let value = run.call(&mut store, 41).unwrap();
        let mut names: Vec<String> = instance
            .exports(&store)
            .map(|export| export.name().to_string())
            .collect();
        names.sort();
        let imports: Vec<(String, String)> = module
            .imports()
            .map(|import| (import.module().to_string(), import.name().to_string()))
            .collect();
        results.push((value, names, imports, byte(&store, &instance, 0)));
    }
    assert_eq!(results[0], results[1]);
    assert_eq!(results[0].0, 42);
    assert_eq!(results[0].1, vec!["counter", "memory", "run"]);
}
