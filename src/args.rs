//! The command-line options, as plain values.
use vstd::prelude::*;

verus! {

/// The options of one run: whether leaf lines are hidden, and the files to
/// hash (standard input when there are none).
pub struct CliArgs {
    pub hide_tree: Option<bool>,
    pub files: Vec<String>,
}

impl CliArgs {
    /// Whether each leaf hash is printed as it becomes available: unless
    /// leaf lines are hidden.
    pub fn print_live(&self) -> (r: bool)
        ensures
            r == (self.hide_tree != Some(true)),
    {
        match self.hide_tree {
            Some(hide) => !hide,
            None => true,
        }
    }
}

} // verus!
