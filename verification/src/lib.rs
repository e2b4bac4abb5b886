//! A segment reassembly engine: segments of a fixed-count index space arrive
//! in arbitrary order and are materialized either as one ordered output file
//! or as one file per index. The engine itself performs no I/O: each call
//! returns the writes the caller must perform, and the single-file mode's
//! progress is captured in a small sidecar record so that an interrupted
//! merge can resume from the last durable point.

pub mod engine;
pub mod record;

pub use engine::{FlushOutcome, Merger, Mode, WriteOutcome};
pub use record::{encode_state, parse_state, plan_resume, ResumePlan};
