//! Pre-register-allocation instruction scheduling for Turing-class GPUs,
//! together with the SM75 instruction latency tables that drive it, and
//! the small parsers that the textual IR is read with.

pub mod regs;
pub mod ir;
pub mod latency;
pub mod live;
pub mod score;
pub mod graph;
pub mod net_live;
pub mod sched;
pub mod liveness;
pub mod prepass;
pub mod parser;
