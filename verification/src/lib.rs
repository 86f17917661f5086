//! Finds likely secrets and sensitive files before they reach version
//! control: sensitive file names, private-key blocks, token-shaped values,
//! AWS access key IDs and non-placeholder values assigned to sensitive-looking
//! variables, in UTF-8 or UTF-16 text.
use vstd::prelude::*;

pub mod access_key;
pub mod assignment;
pub mod cli;
pub mod decode;
pub mod order;
pub mod path;
pub mod report;
pub mod rules;
pub mod scan;
pub mod text;
pub mod token;
pub mod walk;

pub use cli::{parse_args, should_skip_directory, Config, ParseOutcome};
pub use order::sort_findings;
pub use scan::{exit_code, scan_bytes, scan_named, Finding};

verus! {

} // verus!
