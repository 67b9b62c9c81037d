//! Locating, reading and searching the logs of cluster jobs kept under a
//! `root/DATE/TIME/.submitit/<job-id>` directory tree.
//!
//! The filesystem is read by the caller; this library holds the decisions:
//! which directories make up the job index, which file of a job directory is
//! its log, what is displayed for it, and which lines a search reports.
pub mod error;
pub mod index;
pub mod logs;
pub mod search;
pub mod select;
pub mod text;
pub mod tree;

pub use error::ProgramError;
pub use index::{JobEntry, JobIndex};
pub use logs::{extension, get_log_content_or_error_msg, get_log_pathbuf, FileEntry};
pub use search::{highlight_segments, search_log, Pattern, Segment};
pub use select::{compare_ids, report_for, search_order, Report};
pub use text::split_lines;
pub use tree::{build_job_map, metadata_dir, DateDir, DirEntry, MetaDir, RootDir, TimeDir};
