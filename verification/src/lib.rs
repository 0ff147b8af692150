//! Verified core of a directory-tree disk-usage calculator.
//!
//! The library models a snapshot of a directory tree as a value and
//! proves that three interchangeable traversal strategies (a sequential
//! work-list, a per-directory task fan-out, and a single-driver event
//! queue) all compute the same total byte size, skip symbolic links,
//! and propagate the first I/O failure they meet.

pub mod engine;
pub mod event_queue;
pub mod fanout;
pub mod laws;
pub mod model;
pub mod sequential;

pub use engine::EntryKind;
pub use engine::Opts;
pub use engine::PathEntry;
pub use engine::Step;
pub use engine::Strategy;
pub use engine::accumulate;
pub use engine::calc_space_usage;
pub use engine::plan_step;
pub use engine::render_summary;
pub use event_queue::calc_space_usage_event_queue;
pub use fanout::calc_space_usage_fanout;
pub use model::ErrKind;
pub use model::FsTree;
pub use sequential::calc_space_usage_sequential;
