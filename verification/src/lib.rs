pub mod config;
pub mod metadata;
pub mod paths;
pub mod text;
pub mod validate;
pub mod suggestions;
pub mod report;
pub mod seqs;
pub mod batch;
pub mod diff;
pub mod package;
pub mod numbers;
pub mod captions;
pub mod analyze;
pub mod checklist;
pub mod probe;
pub mod watch;
pub mod pipeline;
pub mod html_report;
pub mod time;
pub mod scanner;
pub mod history;
pub mod webhook;
pub mod studio;
pub mod api;
pub mod desktop;
pub mod render;
pub mod float_text;

use vstd::prelude::*;

verus! {

/// Where the delivery profiles are read from by default.
pub const DEFAULT_CONFIG_PATH: &'static str = "src/sample.toml";

/// Where saved reports are kept by default.
pub const DEFAULT_HISTORY_DIR: &'static str = ".mediaqa/history";

/// Where the studio service keeps its data by default.
pub const DEFAULT_STUDIO_DIR: &'static str = ".mediaqa/studio";

} // verus!
