//! A verified model of a thin graphics-pipeline binding layer: shader
//! compilation, program linking, uniform and attribute binding, and
//! exactly-once release of native handles.
//!
//! The driver itself is modelled by [`context::Context`], which carries the
//! state that the bindings read and write: the set of live handles, the
//! per-program name-to-location tables, and the "currently used program"
//! cache together with a counter of activation calls.

pub mod context;
pub mod error;
pub mod laws;
pub mod program;
pub mod resource;
pub mod shader;
