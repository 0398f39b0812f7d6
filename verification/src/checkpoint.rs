//! Checkpoint tokens: a structural pair of the journal length and the log
//! count at the moment the snapshot was taken.
use vstd::prelude::*;

verus! {

/// An opaque token naming a point in the journal to which state can be
/// reverted: the journal length and the log count at snapshot time.
#[derive(Debug, Clone, Copy, PartialEq, Eq, Structural, Hash)]
pub struct JournalCheckpoint {
    pub log_i: usize,
    pub journal_i: usize,
}

} // verus!
