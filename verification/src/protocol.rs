//! The protocol's error values, built from the library's refusals.
use vstd::prelude::*;

use turbomcp::McpError;

use crate::request::{ErrorKind, ToolError};

verus! {

/// turbomcp's error type, carried through opaquely.
#[verifier::external_type_specification]
#[verifier::external_body]
pub struct ExMcpError(McpError);

/// The kind that a turbomcp error holds (its public `kind` field), for the
/// three kinds that this library makes. Only this name stands for it here.
pub uninterp spec fn mcp_error_kind(e: McpError) -> ErrorKind;

/// The message that a turbomcp error holds (its public `message` field).
pub uninterp spec fn mcp_error_message(e: McpError) -> Seq<char>;

/// turbomcp's `McpError::invalid_params`: an error of its invalid-parameters
/// kind holding `message`. Its random id and timestamp are not stated.
#[verifier::external_body]
fn invalid_params_error(message: String) -> (r: McpError)
    ensures
        mcp_error_kind(r) == ErrorKind::InvalidParams,
        mcp_error_message(r) == message@,
{
    McpError::invalid_params(message)
}

/// turbomcp's `McpError::permission_denied`: an error of its
/// permission-denied kind holding `message`. Its random id and timestamp are
/// not stated.
#[verifier::external_body]
fn permission_denied_error(message: String) -> (r: McpError)
    ensures
        mcp_error_kind(r) == ErrorKind::PermissionDenied,
        mcp_error_message(r) == message@,
{
    McpError::permission_denied(message)
}

/// turbomcp's `McpError::internal`: an error of its internal kind holding
/// `message`. Its random id and timestamp are not stated.
#[verifier::external_body]
fn internal_error(message: String) -> (r: McpError)
    ensures
        mcp_error_kind(r) == ErrorKind::Internal,
        mcp_error_message(r) == message@,
{
    McpError::internal(message)
}

/// The protocol error that reports a refusal: same kind, same message. Each
/// such value also carries a fresh random id and the time of its making
/// (turbomcp-protocol turns on turbomcp-core's `rich-errors`); those are
/// not stated.
pub fn into_mcp_error(error: ToolError) -> (r: McpError)
    ensures
        mcp_error_kind(r) == error.kind,
        mcp_error_message(r) == error.message@,
{
    match error.kind {
        ErrorKind::InvalidParams => invalid_params_error(error.message),
        ErrorKind::PermissionDenied => permission_denied_error(error.message),
        ErrorKind::Internal => internal_error(error.message),
    }
}

} // verus!
