//! Substring search over the lines of a text.
//!
//! [`search`] and [`search_case_insensitive`] pick, in order, the lines of a
//! text that contain a query; [`Config`] holds what one invocation asks for
//! and [`run`] answers it for a text that the caller has read.

pub mod config;
pub mod search;
pub mod text;

pub use config::run;
pub use config::Config;
pub use search::search;
pub use search::search_case_insensitive;
pub use search::select_by_key;
pub use text::split_lines;
