//! Errors of the model registry and of the tool router, with the extension
//! traits that turn `Option` and `Result` values into registry errors.

use vstd::prelude::*;
use crate::text::concat_str;

verus! {

/// Error of a model operation.
#[derive(Debug, Clone, PartialEq, Eq)]
pub enum CandleModelError {
    /// Model not found in the registry.
    ModelNotFound { provider: String, name: String },
    /// Provider not found in the registry.
    ProviderNotFound(String),
    /// Model already registered.
    ModelAlreadyExists { provider: String, name: String },
    /// Invalid model configuration.
    InvalidConfiguration(String),
    /// Operation not supported by the model.
    OperationNotSupported(String),
    /// Invalid input data.
    InvalidInput(String),
    /// Internal error.
    Internal(String),
    /// Type mismatch when accessing a registered model.
    TypeMismatch { expected: String, found: String },
}

/// The text of a model error.
pub open spec fn model_error_text(e: CandleModelError) -> Seq<char> {
    match e {
        CandleModelError::ModelNotFound { provider, name } => "Model not found: "@ + provider@ + ":"@ + name@,
        CandleModelError::ProviderNotFound(p) => "Provider not found: "@ + p@,
        CandleModelError::ModelAlreadyExists { provider, name } => "Model already registered: "@ + provider@ + ":"@ + name@,
        CandleModelError::InvalidConfiguration(m) => "Invalid model configuration: "@ + m@,
        CandleModelError::OperationNotSupported(m) => "Operation not supported by model: "@ + m@,
        CandleModelError::InvalidInput(m) => "Invalid input: "@ + m@,
        CandleModelError::Internal(m) => "Internal error: "@ + m@,
        CandleModelError::TypeMismatch { expected, found } => "Type mismatch: expected "@ + expected@ + ", found "@ + found@,
    }
}

/// `head`, then `a`, then `mid`, then `b`.
fn four(head: &str, a: &str, mid: &str, b: &str) -> (r: String)
    ensures
        r@ == head@ + a@ + mid@ + b@,
{
    let mut r = concat_str(head, a);
    r.append(mid);
    r.append(b);
    r
}

impl CandleModelError {
    /// The readable text of the error.
    pub fn to_string(&self) -> (r: String)
        ensures
            r@ == model_error_text(*self),
    {
        match self {
            CandleModelError::ModelNotFound { provider, name } => four("Model not found: ", provider.as_str(), ":", name.as_str()),
            CandleModelError::ProviderNotFound(p) => concat_str("Provider not found: ", p.as_str()),
            CandleModelError::ModelAlreadyExists { provider, name } => four("Model already registered: ", provider.as_str(), ":", name.as_str()),
            CandleModelError::InvalidConfiguration(m) => concat_str("Invalid model configuration: ", m.as_str()),
            CandleModelError::OperationNotSupported(m) => concat_str("Operation not supported by model: ", m.as_str()),
            CandleModelError::InvalidInput(m) => concat_str("Invalid input: ", m.as_str()),
            CandleModelError::Internal(m) => concat_str("Internal error: ", m.as_str()),
            CandleModelError::TypeMismatch { expected, found } => four("Type mismatch: expected ", expected.as_str(), ", found ", found.as_str()),
        }
    }
}

/// Turns a missing value into `ModelNotFound`.
pub trait OptionExt<T>: Sized {
    fn or_model_not_found(self, provider: &str, name: &str) -> (r: Result<T, CandleModelError>)
        ensures
            r matches Err(e) ==> (e matches CandleModelError::ModelNotFound { provider: p, name: n } && p@ == provider@ && n@ == name@);
}

impl<T> OptionExt<T> for Option<T> {
    fn or_model_not_found(self, provider: &str, name: &str) -> (r: Result<T, CandleModelError>)
        ensures
            self is None <==> r is Err,
            self matches Some(v) ==> r == Ok::<T, CandleModelError>(v),
    {
        match self {
            Some(v) => Ok(v),
            None => Err(CandleModelError::ModelNotFound { provider: provider.to_owned(), name: name.to_owned() }),
        }
    }
}

/// Turns any error into a model configuration or support error.
pub trait ResultExt<T, E>: Sized {
    fn invalid_config(self, msg: &str) -> (r: Result<T, CandleModelError>)
        ensures
            r matches Err(e) ==> (e matches CandleModelError::InvalidConfiguration(m) && m@ == msg@);

    fn not_supported(self, msg: &str) -> (r: Result<T, CandleModelError>)
        ensures
            r matches Err(e) ==> (e matches CandleModelError::OperationNotSupported(m) && m@ == msg@);
}

impl<T, E> ResultExt<T, E> for Result<T, E> {
    fn invalid_config(self, msg: &str) -> (r: Result<T, CandleModelError>)
        ensures
            self is Err <==> r is Err,
            self matches Ok(v) ==> r == Ok::<T, CandleModelError>(v),
    {
        match self {
            Ok(v) => Ok(v),
            Err(_) => Err(CandleModelError::InvalidConfiguration(msg.to_owned())),
        }
    }

    fn not_supported(self, msg: &str) -> (r: Result<T, CandleModelError>)
        ensures
            self is Err <==> r is Err,
            self matches Ok(v) ==> r == Ok::<T, CandleModelError>(v),
    {
        match self {
            Ok(v) => Ok(v),
            Err(_) => Err(CandleModelError::OperationNotSupported(msg.to_owned())),
        }
    }
}

/// Error of the tool router.
#[derive(Debug, Clone)]
pub enum RouterError {
    ToolNotFound(String),
    InvalidArguments(String),
    ExecutionFailed(String),
    BackendError(String),
    McpClientError(String),
    ToolError(String),
}

/// The text of a router error.
pub open spec fn router_error_text(e: RouterError) -> Seq<char> {
    match e {
        RouterError::ToolNotFound(m) => "Tool not found: "@ + m@,
        RouterError::InvalidArguments(m) => "Invalid arguments: "@ + m@,
        RouterError::ExecutionFailed(m) => "Execution failed: "@ + m@,
        RouterError::BackendError(m) => "Backend error: "@ + m@,
        RouterError::McpClientError(m) => "MCP client error: "@ + m@,
        RouterError::ToolError(m) => "Tool error: "@ + m@,
    }
}

impl RouterError {
    /// The readable text of the error.
    pub fn to_string(&self) -> (r: String)
        ensures
            r@ == router_error_text(*self),
    {
        match self {
            RouterError::ToolNotFound(m) => concat_str("Tool not found: ", m.as_str()),
            RouterError::InvalidArguments(m) => concat_str("Invalid arguments: ", m.as_str()),
            RouterError::ExecutionFailed(m) => concat_str("Execution failed: ", m.as_str()),
            RouterError::BackendError(m) => concat_str("Backend error: ", m.as_str()),
            RouterError::McpClientError(m) => concat_str("MCP client error: ", m.as_str()),
            RouterError::ToolError(m) => concat_str("Tool error: ", m.as_str()),
        }
    }
}

} // verus!
