//! Argument parsing, flag registry, help rendering, destination naming and
//! download bookkeeping for a small command-line file downloader.

mod config;
mod error;
mod flags;
mod orchestrator;
mod platform;
mod target;
mod text;

pub use config::Config;
pub use error::ProgramError;
pub use flags::{
    push_decimal, render_help, valid_flags, Flag, FlagEntry, HELP_BANNER, HELP_DESCRIPTION,
    HELP_LONG_FORM, HELP_SHORT_FORM,
};
pub use orchestrator::{plan_run, Orchestrator, Outcome, RunPlan, HELP_DONE, RUN_DONE};
pub use platform::shell_command;
pub use target::Downloadable;
pub use text::{destination_file_name, normalize_arg, starts_with_dash};
