//! The failures of one recording cycle.

use vstd::prelude::*;
use vstd::string::StringExecFns;

verus! {

/// Why a recording cycle, or a request to the service, failed.
#[derive(Debug, Clone, PartialEq, Eq)]
pub enum PipelineError {
    /// No input device, or one whose sample format is not supported.
    Device(String),
    /// Capture was stopped before any sample arrived.
    EmptyRecording,
    /// The transcoder failed or left no output; carries the diagnostic.
    Encode(String),
    /// The transcription of one or more chunks failed.
    Transcription(String),
    /// A malformed request or response on the service channel.
    IpcProtocol(String),
    /// A worker task ended abnormally.
    TaskFailure(String),
}

impl PipelineError {
    /// The text that is reported for this error.
    pub open spec fn message_spec(self) -> Seq<char> {
        match self {
            PipelineError::Device(detail) => detail@,
            PipelineError::EmptyRecording => "No audio data recorded"@,
            PipelineError::Encode(detail) => detail@,
            PipelineError::Transcription(detail) => detail@,
            PipelineError::IpcProtocol(detail) => detail@,
            PipelineError::TaskFailure(detail) => "Task panicked: "@ + detail@,
        }
    }

    /// The text that is reported for this error.
    pub fn message(&self) -> (r: String)
        ensures
            r@ == self.message_spec(),
    {
        match self {
            PipelineError::Device(detail) => detail.clone(),
            PipelineError::EmptyRecording => "No audio data recorded".to_owned(),
            PipelineError::Encode(detail) => detail.clone(),
            PipelineError::Transcription(detail) => detail.clone(),
            PipelineError::IpcProtocol(detail) => detail.clone(),
            PipelineError::TaskFailure(detail) => {
                let mut r = "Task panicked: ".to_owned();
                r.append(detail.as_str());
                r
            },
        }
    }
}

} // verus!
