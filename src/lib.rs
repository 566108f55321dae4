//! Reconciliation engine for benches: named sets of desktop tools placed on
//! window-manager workspaces ("bays").
pub mod apps;
pub mod assembly;
pub mod bench_ops;
pub mod error;
pub mod layout_ops;
pub mod model;
pub mod storage;
pub mod sway;
pub mod text;
pub mod tool_ops;
