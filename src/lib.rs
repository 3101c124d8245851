//! Core logic of a checkpointed stream-processing engine: the keyed
//! change-log model, the progress and state stores rebuilt from it, the
//! per-key stateful operator framework, dataflow build validation and the
//! worker and cluster lifecycle decisions.
pub mod change;
pub mod store;
pub mod backing;
pub mod progress;
pub mod state;
pub mod stateful;
pub mod window;
pub mod dataflow;
pub mod runtime;
pub mod operators;
