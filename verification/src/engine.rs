//! The strategy-parameterized entry point and the small decision
//! helpers that an I/O front end drives the real filesystem with.

use vstd::prelude::*;

use crate::event_queue::calc_space_usage_event_queue;
use crate::fanout::calc_space_usage_fanout;
use crate::model::ErrKind;
use crate::model::FsTree;
use crate::model::tree_has_kind;
use crate::model::tree_ok;
use crate::model::tree_total;
use crate::sequential::calc_space_usage_sequential;
use vstd::string::StringExecFns;

verus! {

/// The three interchangeable scheduling strategies.
#[derive(Clone, Copy, Debug, PartialEq, Eq, Structural)]
pub enum Strategy {
    /// A single-threaded, heap-resident work list.
    Sequential,
    /// One independent task per subdirectory, joined by the parent.
    FanOut,
    /// A single driver loop over two wait-sets of pending operations.
    EventQueue,
}

/// Computes the total byte size of all regular files under `root`.
///
/// The contract does not mention the strategy: every strategy succeeds
/// on exactly the same trees and then returns exactly the same total,
/// so the three are behaviorally interchangeable.  Only the failure
/// kind reported for a tree with several failing nodes may depend on
/// the order in which a strategy reaches them; it is always a kind some
/// node of the tree actually reports.
pub fn calc_space_usage(root: &FsTree, strategy: Strategy) -> (r: Result<u64, ErrKind>)
    requires
        tree_total(*root) <= u64::MAX,
    ensures
        r is Ok <==> tree_ok(*root),
        r is Ok ==> r->Ok_0 == tree_total(*root),
        r is Err ==> tree_has_kind(*root, r->Err_0),
{
    match strategy {
        Strategy::Sequential => calc_space_usage_sequential(root),
        Strategy::FanOut => calc_space_usage_fanout(root),
        Strategy::EventQueue => calc_space_usage_event_queue(root),
    }
}

/// What a metadata lookup reports about one path, without ever
/// dereferencing a final symbolic-link component.
#[derive(Clone, Copy, Debug, PartialEq, Eq, Structural)]
pub enum EntryKind {
    /// A regular file and its reported length in bytes.
    File { len: u64 },
    /// A directory whose children are still to be enumerated.
    Directory,
    /// A symbolic link, whatever it points at.
    Symlink,
    /// Any other node kind.
    Other,
}

/// A path together with its resolved kind, as the metadata resolver
/// hands it to the traversal engine.
#[derive(Debug)]
pub struct PathEntry {
    pub path: String,
    pub kind: EntryKind,
}

/// What the traversal engine does with one resolved entry.
#[derive(Clone, Copy, Debug, PartialEq, Eq, Structural)]
pub enum Step {
    /// Add this many bytes to the running total.
    AddBytes(u64),
    /// Enumerate the entry's children and traverse each of them.
    Descend,
    /// Contribute nothing and never look inside: symbolic links and
    /// other non-file, non-directory nodes.
    Ignore,
}

/// The traversal decision for one resolved entry: files are counted,
/// directories are entered, everything else — symbolic links above
/// all — is ignored.
pub open spec fn step_of(kind: EntryKind) -> Step {
    match kind {
        EntryKind::File { len } => Step::AddBytes(len),
        EntryKind::Directory => Step::Descend,
        EntryKind::Symlink => Step::Ignore,
        EntryKind::Other => Step::Ignore,
    }
}

/// Decides what the traversal does with one resolved entry.
pub fn plan_step(kind: &EntryKind) -> (s: Step)
    ensures
        s == step_of(*kind),
{
    match kind {
        EntryKind::File { len } => Step::AddBytes(*len),
        EntryKind::Directory => Step::Descend,
        EntryKind::Symlink => Step::Ignore,
        EntryKind::Other => Step::Ignore,
    }
}

/// Adds one file's length to a running total, reporting rather than
/// wrapping on overflow of the 64-bit accumulator.
pub fn accumulate(total: u64, len: u64) -> (r: Option<u64>)
    ensures
        total + len <= u64::MAX ==> (r is Some && r->0 == total + len),
        total + len > u64::MAX ==> r is None,
{
    if len <= u64::MAX - total {
        Some(total + len)
    } else {
        None
    }
}

/// The text humansize renders for a byte count with the decimal
/// defaults; the rendering depends on the byte count alone.
pub uninterp spec fn human_size_of(n: nat) -> Seq<char>;

/// Relies on humansize::format_size with the decimal defaults: a pure
/// rendering of the byte count, named by `human_size_of`.
#[verifier::external_body]
fn format_human_size(n: u64) -> (r: String)
    ensures
        r@ == human_size_of(n as nat),
{
    humansize::format_size(n, humansize::DECIMAL)
}

/// Renders the one-line summary of a finished computation: the
/// human-readable size and the root path, tab-separated.
pub fn render_summary(total: u64, dir: &str) -> (r: String)
    ensures
        r@ == human_size_of(total as nat) + "\t"@ + dir@,
{
    let mut out = format_human_size(total);
    out.append("\t");
    out.append(dir);
    out
}

/// The options the command-line front end hands over: the directory to
/// start from (the current directory if omitted) and the display flags.
#[derive(Clone, Debug)]
pub struct Opts {
    /// Directory to start from (default = current directory).
    pub dir: Option<String>,
    /// Render the total human-readably instead of as a raw byte count.
    pub human_readable: bool,
    /// Print only the one-line summary for the root.
    pub summarize: bool,
}

} // verus!
