//! Mainframe-style batch processing of fixed-width 80-byte records.
//!
//! Records flow through a pipeline of stages (filter, field select,
//! take/skip), described either programmatically or through a small
//! line-oriented command language. The same compiled pipeline can be run
//! by two executors: a batch executor that transforms the whole record
//! stream stage by stage, and a record-at-a-time executor that feeds one
//! input record through every stage per step while recording the contents
//! of every pipe point. The two are proved to produce identical output.

pub mod ascii;
pub mod dsl;
pub mod engine;
pub mod error;
pub mod pipeline;
pub mod rat;
pub mod record;
pub mod semantics;
pub mod stage;

pub use dsl::execute_pipeline;
pub use dsl::execute_pipeline_rat;
pub use engine::compile;
pub use engine::run_batch;
pub use engine::Command;
pub use engine::CompiledPipeline;
pub use engine::CompiledStage;
pub use error::PipelineError;
pub use pipeline::from_lines;
pub use pipeline::from_strings;
pub use pipeline::Pipeline;
pub use rat::rat_start;
pub use rat::ExecPhase;
pub use rat::FlushTrace;
pub use rat::RatDebugTrace;
pub use rat::RatExecutor;
pub use rat::RecordTrace;
pub use rat::StepResult;
pub use record::Record;
pub use record::RECORD_WIDTH;
pub use stage::Filter;
pub use stage::Inspect;
pub use stage::MapStage;
pub use stage::Reformat;
pub use stage::Select;
pub use stage::Stage;
