//! The requests that the server answers, and the errors it answers with.

use vstd::prelude::*;
use vstd::string::StringSliceAdditionalSpecFns;

use crate::text::{is_blank, is_blank_text, is_text};

verus! {

/// The version of the protocol, as every message names it.
pub fn jsonrpc_tag() -> (r: &'static str)
    ensures
        r@ == "2.0"@,
{
    "2.0"
}

/// Whether a line of input holds no request: lines that hold nothing but
/// white space are passed over.
pub fn is_blank_line(line: &[u8]) -> (r: bool)
    ensures
        r == is_blank(line@),
{
    is_blank_text(line)
}

/// What a request asks for.
#[derive(Clone, Copy, Debug, PartialEq, Eq, Structural)]
pub enum Method {
    Ping,
    ListTools,
    CallTool,
    Unknown,
}

/// What the method `name` asks for.
pub open spec fn method_named(name: Seq<u8>) -> Method {
    if name == "ping".spec_bytes() {
        Method::Ping
    } else if name == "tools.list".spec_bytes() {
        Method::ListTools
    } else if name == "tools.call".spec_bytes() {
        Method::CallTool
    } else {
        Method::Unknown
    }
}

/// Tells what a request with the method `name` asks for.
pub fn handle_request(name: &[u8]) -> (r: Method)
    ensures
        r == method_named(name@),
{
    if is_text(name, "ping") {
        Method::Ping
    } else if is_text(name, "tools.list") {
        Method::ListTools
    } else if is_text(name, "tools.call") {
        Method::CallTool
    } else {
        Method::Unknown
    }
}

/// The errors that the server answers with.
#[derive(Clone, Copy, Debug, PartialEq, Eq, Structural)]
pub enum JsonRpcError {
    /// The line is no JSON.
    ParseError,
    /// The method is not known.
    MethodNotFound,
    /// The parameters do not have the shape that the method asks for.
    InvalidParams,
    /// The tool failed, or is not known.
    InternalError,
}

impl JsonRpcError {
    /// The number of the error.
    pub open spec fn spec_code(self) -> int {
        match self {
            JsonRpcError::ParseError => -32700,
            JsonRpcError::MethodNotFound => -32601,
            JsonRpcError::InvalidParams => -32602,
            JsonRpcError::InternalError => -32603,
        }
    }

    /// The words of the error as a mathematical value.
    pub open spec fn spec_message(self) -> Seq<char> {
        match self {
            JsonRpcError::ParseError => "Parse error"@,
            JsonRpcError::MethodNotFound => "Method not found"@,
            JsonRpcError::InvalidParams => "Invalid params"@,
            JsonRpcError::InternalError => "Internal error"@,
        }
    }

    /// The number of the error.
    pub fn code(&self) -> (r: i64)
        ensures
            r == self.spec_code(),
    {
        match self {
            JsonRpcError::ParseError => -32700,
            JsonRpcError::MethodNotFound => -32601,
            JsonRpcError::InvalidParams => -32602,
            JsonRpcError::InternalError => -32603,
        }
    }

    /// The words of the error.
    pub fn message(&self) -> (r: &'static str)
        ensures
            r@ == self.spec_message(),
    {
        match self {
            JsonRpcError::ParseError => "Parse error",
            JsonRpcError::MethodNotFound => "Method not found",
            JsonRpcError::InvalidParams => "Invalid params",
            JsonRpcError::InternalError => "Internal error",
        }
    }
}

/// What is wrong with the parameters of a call.
#[derive(Clone, Copy, Debug, PartialEq, Eq, Structural)]
pub enum CallError {
    /// The parameters are no object.
    ExpectedObject,
    /// The parameters do not name a tool by a string.
    MissingTool,
}

impl CallError {
    /// The words in which the fault is put, as a mathematical value.
    pub open spec fn spec_details(self) -> Seq<char> {
        match self {
            CallError::ExpectedObject => "Expected object params"@,
            CallError::MissingTool => "Missing `tool` string"@,
        }
    }

    /// The words in which the fault is put.
    pub fn details(&self) -> (r: &'static str)
        ensures
            r@ == self.spec_details(),
    {
        match self {
            CallError::ExpectedObject => "Expected object params",
            CallError::MissingTool => "Missing `tool` string",
        }
    }
}

/// Checks the parameters of a call: they must be an object, and name the
/// tool by a string.
pub fn call_tool(params_are_object: bool, tool_is_string: bool) -> (r: Result<(), CallError>)
    ensures
        r == if !params_are_object {
            Err::<(), CallError>(CallError::ExpectedObject)
        } else if !tool_is_string {
            Err::<(), CallError>(CallError::MissingTool)
        } else {
            Ok::<(), CallError>(())
        },
{
    if !params_are_object {
        Err(CallError::ExpectedObject)
    } else if !tool_is_string {
        Err(CallError::MissingTool)
    } else {
        Ok(())
    }
}

} // verus!
