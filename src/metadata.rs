use vstd::prelude::*;

verus! {

/// Per-activation settings of a migration.
#[derive(Debug)]
pub struct Metadata {
    /// The height at which the migration takes effect.
    pub block_height: u64,
    /// A free-form note, such as a tracking issue.
    pub issue: Option<String>,
}

/// The block height used when none is configured.
pub const DEFAULT_BLOCK_HEIGHT: u64 = 1;

impl Metadata {
    pub fn new(block_height: u64, issue: Option<String>) -> (r: Self)
        ensures
            r.block_height == block_height,
            r.issue == issue,
    {
        Metadata { block_height, issue }
    }
}

impl Clone for Metadata {
    fn clone(&self) -> (r: Self)
        ensures
            r == *self,
    {
        let issue = match &self.issue {
            Some(s) => Some(s.clone()),
            None => None,
        };
        Metadata { block_height: self.block_height, issue }
    }
}

impl Default for Metadata {
    fn default() -> (r: Self)
        ensures
            r.block_height == DEFAULT_BLOCK_HEIGHT,
            r.issue.is_none(),
    {
        Metadata { block_height: DEFAULT_BLOCK_HEIGHT, issue: None }
    }
}

} // verus!
