use vstd::prelude::*;

verus! {

/// The kinds of failure that the library reports.
#[derive(Debug)]
pub enum AgentError {
    /// A value cannot be read as a message, a history or a tool call.
    InvalidValue(String),
    /// A configuration value (a model name, options, a pattern) is not usable.
    InvalidConfig(String),
    /// No tool is registered under the requested name.
    NotFound(String),
    /// A provider or a tool failed while talking to the outside world.
    IoError(String),
    /// A tool did not answer in time.
    Timeout(String),
    /// Any other failure, as reported by a tool.
    Other(String),
}

} // verus!
