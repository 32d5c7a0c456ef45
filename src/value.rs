use vstd::prelude::*;

verus! {

/// A node of a theme definition tree.
#[derive(Debug)]
pub enum ThemeValue {
    /// A string scalar.
    Str(String),
    /// A table of named entries, in the order in which they were written.
    Table(Vec<(String, ThemeValue)>),
    /// Any other scalar or array, with its written form for messages.
    Other(String),
}

} // verus!
