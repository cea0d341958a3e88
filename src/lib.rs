//! Renaming a project directory and rewriting its old name inside every text
//! file beneath it: the decisions and transformations of that process, proved.

pub mod collect;
pub mod dir;
pub mod path;
pub mod rewrite;
pub mod scan;

pub use collect::Collector;
pub use dir::{Directory, InputDir, MovePlan, PathError};
pub use rewrite::replace_all;
pub use scan::{collect_if_text_file, is_text_file, is_text_mime, FileProbe, ScanEntry};
