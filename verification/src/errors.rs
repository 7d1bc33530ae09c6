//! The error type shared by every fallible operation of the library.

use vstd::prelude::*;
use vstd::string::*;

verus! {

/// Why an operation failed.
///
/// `Execution` carries a human-readable message and covers every validation
/// failure (bad entry points, parameter mismatches, expired previews, version
/// ordering, malformed archives and metadata).
#[derive(Debug, Clone)]
pub enum AppError {
    PluginNotFound(String),
    PluginAlreadyExists(String),
    ExecutionNotFound(String),
    Execution(String),
    InvalidPluginType,
    PluginDisabled,
}

pub type AppResult<T> = Result<T, AppError>;

impl AppError {
    /// The HTTP status class this error maps to: not-found resources give 404,
    /// duplicate plugin ids 409, disabled plugins 403, everything else 400.
    pub fn status_code(&self) -> (r: u16)
        ensures
            r == self.spec_status_code(),
    {
        match self {
            AppError::PluginNotFound(_) => 404,
            AppError::ExecutionNotFound(_) => 404,
            AppError::PluginAlreadyExists(_) => 409,
            AppError::PluginDisabled => 403,
            AppError::Execution(_) => 400,
            AppError::InvalidPluginType => 400,
        }
    }

    pub open spec fn spec_status_code(&self) -> u16 {
        match self {
            AppError::PluginNotFound(_) => 404,
            AppError::ExecutionNotFound(_) => 404,
            AppError::PluginAlreadyExists(_) => 409,
            AppError::PluginDisabled => 403,
            AppError::Execution(_) => 400,
            AppError::InvalidPluginType => 400,
        }
    }

    /// A human-readable description of the error.
    pub fn message(&self) -> (r: String)
        ensures
            r@ == self.spec_message(),
    {
        match self {
            AppError::PluginNotFound(id) => String::from_str("Plugin '").concat(
                id.as_str(),
            ).concat("' not found"),
            AppError::PluginAlreadyExists(id) => String::from_str("Plugin id '").concat(
                id.as_str(),
            ).concat("' already exists"),
            AppError::ExecutionNotFound(id) => String::from_str("Execution '").concat(
                id.as_str(),
            ).concat("' not found"),
            AppError::Execution(m) => m.clone(),
            AppError::InvalidPluginType => String::from_str("Invalid plugin type"),
            AppError::PluginDisabled => String::from_str("Plugin is disabled"),
        }
    }

    pub open spec fn spec_message(&self) -> Seq<char> {
        match self {
            AppError::PluginNotFound(id) => "Plugin '"@ + id@ + "' not found"@,
            AppError::PluginAlreadyExists(id) => "Plugin id '"@ + id@ + "' already exists"@,
            AppError::ExecutionNotFound(id) => "Execution '"@ + id@ + "' not found"@,
            AppError::Execution(m) => m@,
            AppError::InvalidPluginType => "Invalid plugin type"@,
            AppError::PluginDisabled => "Plugin is disabled"@,
        }
    }
}

/// Builds the `Execution` validation error carrying the given message.
pub fn validation_error(msg: &str) -> (r: AppError)
    ensures
        r matches AppError::Execution(m) && m@ == msg@,
{
    AppError::Execution(String::from_str(msg))
}

} // verus!
