//! Instruments a WebAssembly module so that, when it runs, it reports its own
//! changes of persistent state to its host: stores mark the page they touch in
//! a byte array in linear memory, memory growth and (optionally) global writes
//! call imported host functions, and mutable globals can be exported by name.

pub mod inject;
pub mod machine;
pub mod module;
pub mod names;
pub mod options;
pub mod prepare;
pub mod rewriter;
pub mod splice;
pub mod transform;
pub mod walrus_types;

pub use crate::options::{Options, TransformError};
pub use crate::transform::{transform, transform_wasm_to_track_changes};
