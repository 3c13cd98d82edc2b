//! Register allocation core: data model, program analysis, a linear-scan
//! assignment and the rewrite plan that maps virtual registers to real ones.

pub mod data;
pub mod mentions;
pub mod func;
pub mod marks;
pub mod cfg;
pub mod liveness;
pub mod analysis;
pub mod intervals;
pub mod construct;
pub mod linear_scan;
pub mod rewrite;
pub mod memory;
pub mod reftypes;
pub mod ir;
pub mod soundness;

pub use data::{InstPoint, Location, Mention, Point, RealReg, Reg, SpillSlot, VirtualReg};
pub use analysis::{run_analysis, AnalysisError, AnalysisInfo};
pub use ir::{ValueLabel, ValueLabelAssignments, ValueLabelStart};
pub use linear_scan::{run, LinearScanOptions, RegAllocError, RegAllocResult};
