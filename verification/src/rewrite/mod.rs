//! Plans for shell commands: which output is reduced, and how far its status can be trusted.
pub mod diagnostics;
pub mod laws;
pub mod readback;
pub mod result_plan;
pub mod transforms;
pub mod word_laws;
pub mod words;
pub mod wrapper;

pub use diagnostics::{TransformDiagnostics, TransformPrograms};
pub use result_plan::{
    ResultPlan, StatusConfidence, contains_setup_diagnostic, select_builtin_argv,
    select_builtin_command, select_result_plan, select_result_rule,
};
pub use wrapper::{
    ArchiveCommandRef, ExecutionPlan, ResultPolicy, ShellPlan, plan_with_options, rewrite,
    rewrite_with_archive, rewrite_with_options,
};
