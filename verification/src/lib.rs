//! `evfmt` normalizes text/emoji variation selectors.

pub mod analysis;
pub mod charset;
pub mod cli_args;
pub mod cli_run;
pub mod expr;
pub mod findings;
pub mod formatter;
pub mod policy_key_set;
pub mod policy;
pub mod presentation;
mod rescan;
pub mod scanner;
mod text;
mod utf8;
pub mod unicode;
pub mod variation_set;

pub use findings::{analyze_scan_item, DecisionSlot, Finding, ReplacementDecision};
pub use formatter::{format_text, FormatResult};
pub use policy::Policy;
pub use scanner::{scan, ScanItem, ScanKind, Scanner};
pub use variation_set::VariationSet;
