//! What a provider is told about the tools.

use vstd::prelude::*;

verus! {

/// A tool, as it is offered to the model.
pub struct ToolDefinition {
    /// Its name.
    pub name: String,
    /// What it does.
    pub description: String,
    /// The JSON schema of its arguments.
    pub parameters: serde_json::Value,
}

impl ToolDefinition {
    /// A tool of that name.
    pub fn new(name: &str, description: &str, parameters: serde_json::Value) -> (r: ToolDefinition)
        ensures
            r.name@ == name@,
            r.description@ == description@,
            r.parameters == parameters,
    {
        ToolDefinition { name: name.to_owned(), description: description.to_owned(), parameters }
    }
}

} // verus!
