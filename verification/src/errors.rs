use vstd::prelude::*;

verus! {

/// The error kinds this tool distinguishes. `NotFound` marks a missing
/// cache file, `Parse` a malformed document or a missing expected field,
/// `Network` a failed fetch, and `InvalidInput` a rejected interactive
/// entry. The callers decide which ones terminate the run.
#[derive(Clone, Copy, Debug, PartialEq, Eq, Structural)]
pub enum ToolError {
    NotFound,
    Parse,
    Network,
    InvalidInput,
}

impl ToolError {
    /// A short diagnostic label for terminal messages.
    pub fn message(&self) -> (r: &'static str)
        ensures
            *self == ToolError::NotFound ==> r@ == "not found"@,
            *self == ToolError::Parse ==> r@ == "parse error"@,
            *self == ToolError::Network ==> r@ == "network error"@,
            *self == ToolError::InvalidInput ==> r@ == "invalid input"@,
    {
        match self {
            ToolError::NotFound => "not found",
            ToolError::Parse => "parse error",
            ToolError::Network => "network error",
            ToolError::InvalidInput => "invalid input",
        }
    }
}

} // verus!
