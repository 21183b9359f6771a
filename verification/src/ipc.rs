//! Requests and responses exchanged between a client and the running service.
//!
//! Every connection carries one request line and one response line. This
//! module holds the two vocabularies and the line framing; encoding a value
//! as JSON and moving bytes over the socket are left to the caller.

use crate::text::{chars_of, string_of, trim, trim_chars};
use vstd::prelude::*;
use vstd::string::StringExecFns;

verus! {

/// A request to the running service.
#[derive(Debug, Clone, Copy, PartialEq, Eq, Structural)]
pub enum IpcMessage {
    /// End the service.
    Stop,
    /// Report the current state.
    Status,
    /// Start recording when idle, stop and transcribe when recording.
    Toggle,
}

/// The answer of the service to one request.
#[derive(Debug, Clone, PartialEq, Eq)]
pub enum IpcResponse {
    /// The request was carried out.
    Success,
    /// A recording is running.
    Recording,
    /// Nothing is going on.
    Idle,
    /// A recording is being transcribed.
    Processing,
    /// The request failed; carries the reason.
    Error(String),
}

/// Mathematical model of an [`IpcResponse`].
pub ghost enum ResponseModel {
    Success,
    Recording,
    Idle,
    Processing,
    Error(Seq<char>),
}

impl View for IpcResponse {
    type V = ResponseModel;

    open spec fn view(&self) -> ResponseModel {
        match self {
            IpcResponse::Success => ResponseModel::Success,
            IpcResponse::Recording => ResponseModel::Recording,
            IpcResponse::Idle => ResponseModel::Idle,
            IpcResponse::Processing => ResponseModel::Processing,
            IpcResponse::Error(reason) => ResponseModel::Error(reason@),
        }
    }
}

/// The line that is shown to the user for a response to a status request.
pub open spec fn status_report_spec(response: ResponseModel) -> Seq<char> {
    match response {
        ResponseModel::Idle => "Status: Running (idle)"@,
        ResponseModel::Recording => "Status: Running (recording)"@,
        ResponseModel::Processing => "Status: Running (processing)"@,
        ResponseModel::Error(reason) => "Error: "@ + reason,
        ResponseModel::Success => "Status: Running"@,
    }
}

/// The line that is shown to the user for a response to a status request.
pub fn status_report(response: &IpcResponse) -> (line: String)
    ensures
        line@ == status_report_spec(response@),
{
    match response {
        IpcResponse::Idle => "Status: Running (idle)".to_owned(),
        IpcResponse::Recording => "Status: Running (recording)".to_owned(),
        IpcResponse::Processing => "Status: Running (processing)".to_owned(),
        IpcResponse::Error(reason) => {
            let mut line = "Error: ".to_owned();
            line.append(reason.as_str());
            line
        },
        IpcResponse::Success => "Status: Running".to_owned(),
    }
}

/// The line that carries `payload` over the channel: the payload followed by
/// a newline.
pub fn frame_line(payload: &str) -> (line: String)
    ensures
        line@ == payload@.push('\n'),
{
    let mut chars = chars_of(payload);
    chars.push('\n');
    string_of(&chars)
}

/// The payload of a received line: the line without the whitespace around
/// it, its terminating newline included.
pub fn unframe_line(line: &str) -> (payload: String)
    ensures
        payload@ == trim(line@),
{
    string_of(&trim_chars(&chars_of(line)))
}

} // verus!
