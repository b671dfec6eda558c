//! Plain data of the tool-service commands: their responses and errors.
//!
//! The tool-process lifecycle itself (spawning, the RPC channel, teardown)
//! is an external collaborator; what belongs to this library is the shape
//! of the answers the commands hand back and the exact wording of their
//! messages.

use vstd::prelude::*;

use crate::text::{concat2, concat3, decimal_of, decimal_string};

verus! {

/// The outcome a service command reports.
pub struct ServiceResponse {
    pub success: bool,
    pub message: String,
}

impl ServiceResponse {
    /// The answer for a service that started.
    pub fn started(name: &str) -> (r: ServiceResponse)
        ensures
            r.success,
            r.message@ == "Service "@ + name@ + " started successfully"@,
    {
        ServiceResponse { success: true, message: concat3("Service ", name, " started successfully") }
    }

    /// The answer for a service that stopped.
    pub fn stopped(name: &str) -> (r: ServiceResponse)
        ensures
            r.success,
            r.message@ == "Service "@ + name@ + " stopped successfully"@,
    {
        ServiceResponse { success: true, message: concat3("Service ", name, " stopped successfully") }
    }

    /// The answer for a stop request naming no running service.
    pub fn not_found(name: &str) -> (r: ServiceResponse)
        ensures
            !r.success,
            r.message@ == "Service "@ + name@ + " not found"@,
    {
        ServiceResponse { success: false, message: concat3("Service ", name, " not found") }
    }

    /// The answer for a tool listing of the given size.
    pub fn tools_found(count: u64) -> (r: ServiceResponse)
        ensures
            r.success,
            r.message@ == "Found "@ + decimal_of(count as int) + " tools"@,
    {
        let rendered = decimal_string(count);
        ServiceResponse {
            success: true,
            message: concat3("Found ", rendered.as_str(), " tools"),
        }
    }

    /// The message for a tool that was called.
    pub fn tool_called(name: &str) -> (r: ServiceResponse)
        ensures
            r.success,
            r.message@ == "Tool "@ + name@ + " called successfully"@,
    {
        ServiceResponse { success: true, message: concat3("Tool ", name, " called successfully") }
    }
}

/// What can go wrong around a tool service; outside failures arrive here
/// already rendered as text.
pub enum McpError {
    ServiceNotFound(String),
    LockError(String),
    IoError(String),
    RmcpError(String),
    SerializationError(String),
    InvalidArguments(String),
    JsonRpcError(String),
    TaskJoinError(String),
}

impl McpError {
    /// The message this error displays as.
    pub fn message(&self) -> (r: String)
        ensures
            self matches McpError::ServiceNotFound(n) ==> r@ == "Service not found: "@ + n@,
            self matches McpError::LockError(m) ==> r@ == "Failed to acquire lock: "@ + m@,
            self matches McpError::IoError(m) ==> r@ == "IO error: "@ + m@,
            self matches McpError::RmcpError(m) ==> r@ == "RMCP service error: "@ + m@,
            self matches McpError::SerializationError(m) ==> r@ == "Serialization error: "@ + m@,
            self matches McpError::InvalidArguments(m) ==> r@ == "Invalid arguments: "@ + m@,
            self matches McpError::JsonRpcError(m) ==> r@ == "JSON-RPC error: "@ + m@,
            self matches McpError::TaskJoinError(m) ==> r@ == "Task join/cancellation error: "@
                + m@,
    {
        match self {
            McpError::ServiceNotFound(n) => concat2("Service not found: ", n.as_str()),
            McpError::LockError(m) => concat2("Failed to acquire lock: ", m.as_str()),
            McpError::IoError(m) => concat2("IO error: ", m.as_str()),
            McpError::RmcpError(m) => concat2("RMCP service error: ", m.as_str()),
            McpError::SerializationError(m) => concat2("Serialization error: ", m.as_str()),
            McpError::InvalidArguments(m) => concat2("Invalid arguments: ", m.as_str()),
            McpError::JsonRpcError(m) => concat2("JSON-RPC error: ", m.as_str()),
            McpError::TaskJoinError(m) => concat2("Task join/cancellation error: ", m.as_str()),
        }
    }
}

} // verus!
