use vstd::prelude::*;

verus! {

/// What the operator decided for one file.
#[derive(Debug, Clone, Copy, PartialEq, Eq, Structural)]
pub enum Decision {
    Keep,
    Trash,
}

/// Counts of the decisions taken over a list of files.
#[derive(Debug, Clone)]
pub struct DecisionStatistics {
    pub total_files: usize,
    pub kept: usize,
    pub trashed: usize,
}

} // verus!
