//! What a caller asks of the transformer, and how it can fail.

use vstd::prelude::*;

verus! {

/// The number of address bits below the page index: a page is 65,536 bytes.
pub const PAGE_SIZE_POWER_OF_2: u32 = 16;

/// What to instrument.
#[derive(Clone, Copy, Debug, PartialEq, Eq, Structural)]
pub struct Options {
    /// Publish every mutable, value-initialized global as an export.
    pub export_globals: bool,
    /// Rewrite every local function so that stores and memory growth are reported.
    pub track_changes: bool,
    /// While rewriting, also report every `global.set` to the host.
    pub report_global_sets: bool,
}

impl Options {
    /// The options of the two-flag entry point: global writes are not reported.
    pub fn new(export_globals: bool, track_changes: bool) -> (options: Options)
        ensures
            options == (Options { export_globals, track_changes, report_global_sets: false }),
    {
        Options { export_globals, track_changes, report_global_sets: false }
    }

    /// The same options, with the reporting of global writes switched on or off.
    pub fn with_global_set_reports(self, report: bool) -> (options: Options)
        ensures
            options == (Options { report_global_sets: report, ..self }),
    {
        Options { report_global_sets: report, ..self }
    }

    /// Whether the module is handed to the emitter exactly as the loader built it.
    pub open spec fn is_identity(self) -> bool {
        !self.export_globals && !self.track_changes
    }
}

/// Why a transformation produced no module.
#[derive(Clone, Copy, Debug, PartialEq, Eq, Structural)]
pub enum TransformError {
    /// The input is not a valid WebAssembly binary.
    MalformedInput,
    /// A function holds an instruction that the rewriter does not instrument.
    UnsupportedOpcode,
    /// Change tracking was asked for, and the module has no memory.
    MissingMemory,
    /// The transformed module does not encode to a valid binary.
    EmitFailure,
}

} // verus!
