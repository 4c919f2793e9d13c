//! The transformer: from the bytes of a module to the bytes of the
//! instrumented module.

use crate::inject::{export_globals, lemma_names_stay_distinct, with_global_exports};
use crate::module::{
    consistent, decodes, encode, encoded, lists_once, load, loads, memories, module_exports,
    module_functions, module_memories, names_are_distinct, numbered_in_place, view_of,
    ImportView, ModuleView,
};
use crate::names::{HOST_MODULE, ON_GROW};
use crate::options::{Options, TransformError};
use crate::prepare::{
    flags_are_free_or_fit, lemma_injector_keeps_flags, prepare, report_signature,
    reusable_flags,
};
use crate::rewriter::{
    all_sequences, are_supported, is_supported, lemma_fit_whatever_code,
    lemma_rewritten_code_is_supported, lemma_rewritten_once, listed, lists_are_in, rewrite,
    rewritten_code, sequences_of, survey,
};
use crate::splice::{
    call, count, has_unsupported, is_call_of, is_growth, lemma_growths_are_reported_once, Hooks,
};
use vstd::prelude::*;
use walrus::Module;

verus! {

/// Why the module is refused, if it is: change tracking needs a memory, and
/// rewrites no module that holds an instruction that the rewriter does not
/// instrument.
pub open spec fn refusal(module: Module, options: Options) -> Option<TransformError> {
    if !options.track_changes {
        None
    } else if module_memories(module).len() == 0 {
        Some(TransformError::MissingMemory)
    } else if !is_supported(module) {
        Some(TransformError::UnsupportedOpcode)
    } else {
        None
    }
}

/// The module after the export injector has run, if it was asked for.
pub open spec fn published(before: ModuleView, options: Options) -> ModuleView {
    if options.export_globals {
        ModuleView { exports: with_global_exports(before.exports, before.globals), ..before }
    } else {
        before
    }
}

/// The contents of the instrumented module: the globals are published, if
/// that was asked for; then, if changes are tracked, the items that `hooks`
/// names are added and every sequence of every function is rewritten.
pub open spec fn instrumented(before: Module, options: Options, hooks: Option<Hooks>) -> ModuleView {
    let start = published(view_of(before), options);
    match hooks {
        Some(hooks) => {
            let ready = hooks.added_to(start);
            ModuleView {
                code: rewritten_code(ready.code, hooks, ready.functions, all_sequences(before)),
                ..ready
            }
        },
        None => start,
    }
}

/// Whether `after` holds what the instrumented `before` holds, with `hooks`
/// naming what the rewriter added: there are hooks exactly where changes are
/// tracked; they name the first memory, items that are new to the module
/// (but for a global that is reused) and, afterwards, items of the module;
/// and global writes are reported exactly where that was asked for. Every
/// sequence that was rewritten is a sequence of its function.
pub open spec fn is_instrumented(
    before: Module,
    options: Options,
    hooks: Option<Hooks>,
    after: ModuleView,
) -> bool {
    &&& hooks is Some <==> options.track_changes
    &&& after == instrumented(before, options, hooks)
    &&& hooks matches Some(hooks) ==> {
        &&& hooks.memory == module_memories(before)[0]
        &&& hooks.on_global_set is Some <==> options.report_global_sets
        &&& hooks.are_new_to(published(view_of(before), options))
        &&& reusable_flags(published(view_of(before), options)) matches Some(global)
            ==> hooks.dirty_flags == global
        &&& hooks.fit(after)
        &&& lists_are_in(view_of(before).code, module_functions(before), all_sequences(before))
    }
}

/// Instruments a loaded module. A module that is refused is left as it was.
/// Where changes are tracked, the hooks that come back name what inserted
/// instructions refer to. With neither option set the module is not touched.
/// The tree of sequences stays as it was.
pub fn instrument(module: &mut Module, options: &Options) -> (result: Result<
    Option<Hooks>,
    TransformError,
>)
    requires
        consistent(*old(module)),
    ensures
        consistent(*final(module)),
        match result {
            Ok(hooks) => {
                &&& refusal(*old(module), *options) is None
                &&& is_instrumented(*old(module), *options, hooks, view_of(*final(module)))
            },
            Err(error) => {
                &&& refusal(*old(module), *options) == Some(error)
                &&& *final(module) == *old(module)
            },
        },
        options.is_identity() ==> *final(module) == *old(module),
        lists_once(*old(module)) ==> lists_once(*final(module)),
{
    if !options.track_changes {
        if options.export_globals {
            export_globals(module);
        }
        return Ok(None);
    }
    let all = memories(module);
    if all.len() == 0 {
        return Err(TransformError::MissingMemory);
    }
    let memory = all[0];
    let lists = match survey(module) {
        Ok(lists) => lists,
        Err(error) => {
            return Err(error);
        },
    };
    let ghost start = view_of(*module);
    proof {
        assert(listed(lists) =~= all_sequences(*module));
        assert forall|k: int, j: int|
            0 <= k < listed(lists).len() && 0 <= j < listed(lists)[k].len() implies start.code.dom().contains(
            (start.functions[k], #[trigger] listed(lists)[k][j]),
        ) by {
            assert(start.has_sequence(start.functions[k], lists@[k]@[j]));
        }
    }
    if options.export_globals {
        export_globals(module);
    }
    let ghost before = view_of(*module);
    assert(before.memories[0] == memory);
    let hooks = prepare(module, memory, options.report_global_sets);
    let ghost ready = view_of(*module);
    proof {
        assert forall|k: int, j: int|
            0 <= k < lists@.len() && 0 <= j < lists@[k]@.len() implies ready.has_sequence(
            ready.functions[k],
            #[trigger] lists@[k]@[j],
        ) by {
            assert(start.has_sequence(start.functions[k], lists@[k]@[j]));
        }
    }
    rewrite(module, &hooks, &lists);
    proof {
        lemma_fit_whatever_code(hooks, ready, view_of(*module));
    }
    Ok(Some(hooks))
}

/// In a module that lists nothing twice, tracking changes rewrites every
/// sequence of every function exactly once: sequence `j` of function `k`
/// holds afterwards the rewriting of what it held.
pub proof fn lemma_instrumented_code(
    before: Module,
    options: Options,
    hooks: Hooks,
    k: int,
    j: int,
)
    requires
        lists_once(before),
        lists_are_in(view_of(before).code, module_functions(before), all_sequences(before)),
        0 <= k < module_functions(before).len(),
        0 <= j < all_sequences(before)[k].len(),
    ensures
        ({
            let key = (module_functions(before)[k], all_sequences(before)[k][j]);
            instrumented(before, options, Some(hooks)).code[key] == hooks.rewritten(
                view_of(before).code[key],
            )
        }),
{
    let functions = module_functions(before);
    let lists = all_sequences(before);
    assert forall|n: int| 0 <= n < lists.len() implies (#[trigger] lists[n]).no_duplicates() by {
        assert(functions.contains(functions[n]));
    }
    lemma_rewritten_once(view_of(before).code, hooks, functions, lists, k, j);
}

/// In an instrumented module, every sequence holds as many `memory.grow` as it
/// held, and as many calls of `on_grow` as `memory.grow`: `on_grow` is new
/// to the module, so the only calls of it are those that report a growth.
/// It is the import `wasm_guardian.on_grow`, of signature `(i32) -> ()`.
pub proof fn lemma_instrumented_growths(
    before: Module,
    options: Options,
    hooks: Hooks,
    after: ModuleView,
    k: int,
    j: int,
)
    requires
        is_instrumented(before, options, Some(hooks), after),
        lists_once(before),
        0 <= k < module_functions(before).len(),
        0 <= j < all_sequences(before)[k].len(),
    ensures
        ({
            let key = (module_functions(before)[k], all_sequences(before)[k][j]);
            let was = view_of(before).code[key];
            &&& count(after.code[key], is_growth()) == count(was, is_growth())
            &&& count(after.code[key], is_call_of(hooks.on_grow)) == count(was, is_growth())
        }),
        after.has_import(hooks.on_grow),
        exists|i: int|
            0 <= i < after.imports.len() && #[trigger] after.imports[i] == (ImportView {
                module: HOST_MODULE@,
                name: ON_GROW@,
                func: hooks.on_grow,
                ty: hooks.report_type,
            }),
        after.types.dom().contains(hooks.report_type) && after.types[hooks.report_type]
            == report_signature(),
        after.signatures.dom().contains(hooks.on_grow) && after.signatures[hooks.on_grow]
            == hooks.report_type,
{
    let key = (module_functions(before)[k], all_sequences(before)[k][j]);
    let start = published(view_of(before), options);
    let was = view_of(before).code[key];
    lemma_instrumented_code(before, options, hooks, k, j);
    assert(start.code.dom().contains(key));
    assert forall|i: int| 0 <= i < was.len() implies (#[trigger] was[i]).0 != call(
        hooks.on_grow,
    ) by {
        if was[i].0 == call(hooks.on_grow) {
            assert(start.code[key][i].0 == call(hooks.on_grow));
            assert(start.calls(hooks.on_grow));
        }
    }
    lemma_growths_are_reported_once(hooks, was);
    let at = start.imports.len() as int;
    assert(after.imports[at] == (ImportView {
        module: HOST_MODULE@,
        name: ON_GROW@,
        func: hooks.on_grow,
        ty: hooks.report_type,
    }));
}

/// A module with a memory and without an instruction that the rewriter
/// refuses stays one when it is instrumented: instrumented once more,
/// whatever the options, it is not refused.
pub proof fn lemma_instrumented_is_accepted(
    before: Module,
    first: Options,
    hooks: Option<Hooks>,
    after: Module,
    second: Options,
)
    requires
        is_instrumented(before, first, hooks, view_of(after)),
        module_memories(before).len() > 0,
        is_supported(before),
    ensures
        module_memories(after).len() > 0,
        is_supported(after),
        refusal(after, second) is None,
        lists_once(before) ==> lists_once(after),
        all_sequences(after) == all_sequences(before),
{
    let functions = module_functions(before);
    let was = view_of(before).code;
    assert(all_sequences(after) =~= all_sequences(before));
    assert forall|i: int| 0 <= i < module_functions(after).len() implies are_supported(
        view_of(after),
        #[trigger] module_functions(after)[i],
        sequences_of(after, module_functions(after)[i]),
    ) by {
        let func = functions[i];
        let list = sequences_of(before, func);
        assert(are_supported(view_of(before), functions[i], list));
        assert(all_sequences(before)[i] == list);
        assert forall|n: int| 0 <= n < list.len() implies !has_unsupported(
            #[trigger] view_of(after).code[(func, list[n])],
        ) by {
            assert(!has_unsupported(was[(func, list[n])]));
            if let Some(hooks) = hooks {
                lemma_rewritten_code_is_supported(
                    was,
                    hooks,
                    functions,
                    all_sequences(before),
                    (func, list[n]),
                );
            }
        }
    }
}

/// An instrumented module that tracks changes exports, as `wg_dirty_flags`,
/// the global for the address of the dirty array, and that global can be
/// reused: instrumenting the module once more adds no second one.
pub proof fn lemma_instrumented_flags_are_reused(
    before: Module,
    first: Options,
    hooks: Hooks,
    after: ModuleView,
    second: Options,
)
    requires
        is_instrumented(before, first, Some(hooks), after),
    ensures
        reusable_flags(published(after, second)) == Some(hooks.dirty_flags),
{
    let start = published(view_of(before), first);
    let ready = hooks.added_to(start);
    if reusable_flags(start) is None {
        assert(ready.exports.drop_last() =~= start.exports);
        assert(ready.globals[ready.globals.len() - 1] == hooks.flags_global());
    }
    assert(reusable_flags(after) == Some(hooks.dirty_flags));
    lemma_injector_keeps_flags(after.exports, after.globals);
}

/// Where no two exports of the input have the same name, and the name
/// `wg_dirty_flags` is free or names a global that can be reused, no two
/// exports of the instrumented module have the same name.
pub proof fn lemma_instrumented_names_are_distinct(
    before: Module,
    options: Options,
    hooks: Option<Hooks>,
    after: ModuleView,
)
    requires
        is_instrumented(before, options, hooks, after),
        names_are_distinct(view_of(before).exports),
        flags_are_free_or_fit(view_of(before)),
    ensures
        names_are_distinct(after.exports),
        flags_are_free_or_fit(after),
{
    let start = published(view_of(before), options);
    lemma_names_stay_distinct(view_of(before).exports, view_of(before).globals);
    lemma_injector_keeps_flags(view_of(before).exports, view_of(before).globals);
    assert(names_are_distinct(start.exports) && flags_are_free_or_fit(start));
    if let Some(hooks) = hooks {
        let ready = hooks.added_to(start);
        if reusable_flags(start) is None {
            assert(ready.exports.drop_last() =~= start.exports);
            assert(ready.globals[ready.globals.len() - 1] == hooks.flags_global());
            assert(reusable_flags(ready) == Some(hooks.dirty_flags));
        }
    }
}

/// A module with a memory, without an instruction that the rewriter refuses,
/// with exports of different names and with the name `wg_dirty_flags` free or
/// fit for reuse can be instrumented again and again, whatever the options:
/// it is never refused, and its exports keep different names.
pub proof fn lemma_instrumented_again(
    before: Module,
    first: Options,
    hooks: Option<Hooks>,
    middle: Module,
    second: Options,
    again: Option<Hooks>,
    after: ModuleView,
)
    requires
        module_memories(before).len() > 0,
        is_supported(before),
        names_are_distinct(view_of(before).exports),
        flags_are_free_or_fit(view_of(before)),
        is_instrumented(before, first, hooks, view_of(middle)),
        is_instrumented(middle, second, again, after),
    ensures
        refusal(middle, second) is None,
        names_are_distinct(after.exports),
        module_memories(middle).len() > 0 && is_supported(middle),
        hooks matches Some(hooks) ==> again matches Some(again) ==> again.dirty_flags
            == hooks.dirty_flags,
{
    lemma_instrumented_is_accepted(before, first, hooks, middle, second);
    lemma_instrumented_names_are_distinct(before, first, hooks, view_of(middle));
    lemma_instrumented_names_are_distinct(middle, second, again, after);
    if let Some(hooks) = hooks {
        lemma_instrumented_flags_are_reused(before, first, hooks, view_of(middle), second);
    }
}

/// What holds of every module that the loader builds: it is consistent, it
/// lists no function and no sequence twice, its globals are numbered as in
/// the binary, and no two of its exports have the same name.
pub open spec fn is_loaded(module: Module) -> bool {
    &&& consistent(module)
    &&& lists_once(module)
    &&& numbered_in_place(module)
    &&& names_are_distinct(module_exports(module))
}

/// The loader: decodes and validates the bytes of a module, and builds the
/// module of them.
pub fn load_module(bytes: &[u8]) -> (result: Result<Module, TransformError>)
    ensures
        result is Ok <==> decodes(bytes@),
        result matches Ok(module) ==> loads(bytes@, module) && is_loaded(module),
        result matches Err(error) ==> error == TransformError::MalformedInput,
{
    match load(bytes) {
        Ok(module) => Ok(module),
        Err(_) => Err(TransformError::MalformedInput),
    }
}

/// Hands the bytes on if they are a module that the loader accepts.
pub fn checked(bytes: Vec<u8>) -> (result: Result<Vec<u8>, TransformError>)
    ensures
        result == if decodes(bytes@) {
            Ok::<Vec<u8>, TransformError>(bytes)
        } else {
            Err(TransformError::EmitFailure)
        },
{
    match load(bytes.as_slice()) {
        Ok(_) => Ok(bytes),
        Err(_) => Err(TransformError::EmitFailure),
    }
}

/// The emitter: encodes a module, and fails where the bytes are not a module
/// that the loader accepts.
pub fn emit_module(module: Module) -> (result: Result<Vec<u8>, TransformError>)
    requires
        consistent(module),
    ensures
        result is Ok <==> decodes(encoded(module)),
        result matches Ok(bytes) ==> bytes@ == encoded(module),
        result matches Err(error) ==> error == TransformError::EmitFailure,
{
    checked(encode(module))
}

/// Whether `result` is what the emitter makes of a module that holds what the
/// instrumented `before` holds: the bytes that it encodes the module to,
/// where they are a valid module, and the failure to emit where they are not.
pub open spec fn is_emitted(
    result: Result<Vec<u8>, TransformError>,
    before: Module,
    options: Options,
) -> bool {
    exists|after: Module, hooks: Option<Hooks>|
        #![trigger is_instrumented(before, options, hooks, view_of(after))]
        {
            &&& consistent(after)
            &&& is_instrumented(before, options, hooks, view_of(after))
            &&& match result {
                Ok(out) => out@ == encoded(after) && decodes(out@),
                Err(error) => error == TransformError::EmitFailure && !decodes(encoded(after)),
            }
        }
}

/// Instruments a loaded module and encodes it. A module that the rewriter
/// refuses fails with the reason of the refusal. Any other module is
/// instrumented and encoded: its bytes come back where they are a valid
/// module, and the transformation fails to emit where they are not. With
/// neither option set, the module is encoded as the loader built it.
pub fn transform_module(module: Module, options: &Options) -> (result: Result<
    Vec<u8>,
    TransformError,
>)
    requires
        consistent(module),
    ensures
        refusal(module, *options) matches Some(error) ==> result == Err::<Vec<u8>, TransformError>(
            error,
        ),
        refusal(module, *options) is None ==> is_emitted(result, module, *options),
        options.is_identity() ==> result is Ok == decodes(encoded(module)),
        options.is_identity() ==> (result matches Ok(out) ==> out@ == encoded(module)),
{
    let mut module = module;
    let ghost before = module;
    match instrument(&mut module, options) {
        Ok(hooks) => {
            let result = emit_module(module);
            proof {
                assert(consistent(module) && is_instrumented(
                    before,
                    *options,
                    hooks,
                    view_of(module),
                ));
            }
            result
        },
        Err(error) => Err(error),
    }
}

/// What holds of the result of a transformation whatever the loader and the
/// emitter make of the bytes: bytes that come back are a valid module, and
/// the input was one; the input is refused as malformed exactly where the
/// loader does not accept it, and for want of a memory or for an instruction
/// that is not instrumented only where changes are tracked.
pub open spec fn is_result_of(
    bytes: Seq<u8>,
    options: Options,
    result: Result<Vec<u8>, TransformError>,
) -> bool {
    match result {
        Ok(out) => decodes(bytes) && decodes(out@),
        Err(TransformError::MalformedInput) => !decodes(bytes),
        Err(TransformError::MissingMemory) => decodes(bytes) && options.track_changes,
        Err(TransformError::UnsupportedOpcode) => decodes(bytes) && options.track_changes,
        Err(TransformError::EmitFailure) => decodes(bytes),
    }
}

/// A transformed module can be transformed again: the second transformation
/// does not refuse it as malformed, and bytes that it returns are a valid
/// module again.
pub proof fn lemma_transformed_again(
    bytes: Seq<u8>,
    first: Options,
    out: Vec<u8>,
    second: Options,
    again: Result<Vec<u8>, TransformError>,
)
    requires
        is_result_of(bytes, first, Ok(out)),
        is_result_of(out@, second, again),
    ensures
        again != Err::<Vec<u8>, TransformError>(TransformError::MalformedInput),
        again matches Ok(twice) ==> decodes(twice@),
{
}

/// Whether `result` is what the transformation makes of a module that the
/// loader builds of `bytes`: where the module is refused, the reason of the
/// refusal; else what the emitter makes of the instrumented module.
pub open spec fn is_transformed(
    bytes: Seq<u8>,
    result: Result<Vec<u8>, TransformError>,
    options: Options,
) -> bool {
    exists|module: Module|
        #![trigger loads(bytes, module)]
        {
            &&& loads(bytes, module)
            &&& is_loaded(module)
            &&& refusal(module, options) matches Some(error) ==> result == Err::<
                Vec<u8>,
                TransformError,
            >(error)
            &&& refusal(module, options) is None ==> is_emitted(result, module, options)
        }
}

/// Transforms the bytes of a module into the bytes of the instrumented
/// module. The input is only read. Bytes that the loader does not accept are
/// refused as malformed. Of any others the loader builds a module, and the
/// result is what the transformation makes of that module: the reason for
/// which it is refused, or the bytes that the instrumented module encodes
/// to, or, where those are no valid module, the failure to emit.
pub fn transform(bytes: &[u8], options: &Options) -> (result: Result<Vec<u8>, TransformError>)
    ensures
        is_result_of(bytes@, *options, result),
        decodes(bytes@) ==> is_transformed(bytes@, result, *options),
{
    match load_module(bytes) {
        Ok(module) => {
            let ghost loaded = module;
            let result = transform_module(module, options);
            assert(loads(bytes@, loaded) && is_loaded(loaded));
            result
        },
        Err(error) => Err(error),
    }
}

/// Transforms a module so that it reports its changes of persistent state to
/// the host: with `export_globals`, every mutable global that the module
/// defines with a constant is exported as `wg_global_<N>`; with
/// `track_changes`, every store marks its page in the dirty array whose
/// address the exported global `wg_dirty_flags` holds, and every memory
/// growth calls the imported `wasm_guardian.on_grow` first.
pub fn transform_wasm_to_track_changes(
    bytes: &[u8],
    export_globals: bool,
    track_changes: bool,
) -> (result: Result<Vec<u8>, TransformError>)
    ensures
        is_result_of(
            bytes@,
            Options { export_globals, track_changes, report_global_sets: false },
            result,
        ),
        decodes(bytes@) ==> is_transformed(
            bytes@,
            result,
            Options { export_globals, track_changes, report_global_sets: false },
        ),
{
    transform(bytes, &Options::new(export_globals, track_changes))
}

} // verus!
