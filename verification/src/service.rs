//! The state machine of the background service.
//!
//! Hotkey signals and requests from clients arrive at one event loop. The
//! controller decides for each event how the state changes and what the loop
//! has to do; the loop opens and closes the capture device, runs the
//! pipeline, and reports how it went.

use crate::error::PipelineError;
use crate::ipc::{IpcMessage, IpcResponse, ResponseModel};
use crate::text::{decimal, push_decimal, push_text, string_of};
use vstd::prelude::*;

verus! {

/// What the service is doing.
#[derive(Debug, Clone, Copy, PartialEq, Eq, Structural)]
pub enum ServiceState {
    /// No recording, no pending work.
    Idle,
    /// A capture session is open.
    Recording,
    /// Capture has stopped and the pipeline is running.
    Processing,
}

/// What the event loop has to do after an event.
#[derive(Debug, Clone, PartialEq, Eq)]
pub enum ServiceAction {
    /// Open the capture device, then report with `capture_started`.
    StartCapture,
    /// Stop the capture and run the pipeline, then report with `cycle_finished`.
    StopAndProcess,
    /// Answer the caller.
    Reply(IpcResponse),
    /// Answer the caller, then end the process.
    ReplyAndExit(IpcResponse),
}

/// Mathematical model of a [`ServiceAction`].
pub ghost enum ActionModel {
    StartCapture,
    StopAndProcess,
    Reply(ResponseModel),
    ReplyAndExit(ResponseModel),
}

impl View for ServiceAction {
    type V = ActionModel;

    open spec fn view(&self) -> ActionModel {
        match self {
            ServiceAction::StartCapture => ActionModel::StartCapture,
            ServiceAction::StopAndProcess => ActionModel::StopAndProcess,
            ServiceAction::Reply(response) => ActionModel::Reply(response@),
            ServiceAction::ReplyAndExit(response) => ActionModel::ReplyAndExit(response@),
        }
    }
}

/// The response that reports a state.
pub open spec fn status_of(state: ServiceState) -> ResponseModel {
    match state {
        ServiceState::Idle => ResponseModel::Idle,
        ServiceState::Recording => ResponseModel::Recording,
        ServiceState::Processing => ResponseModel::Processing,
    }
}

/// The state after a toggle.
pub open spec fn toggled(state: ServiceState) -> ServiceState {
    match state {
        ServiceState::Idle => ServiceState::Recording,
        ServiceState::Recording => ServiceState::Processing,
        ServiceState::Processing => ServiceState::Processing,
    }
}

/// What the event loop has to do for a toggle that arrives in `state`.
pub open spec fn toggle_action(state: ServiceState) -> ActionModel {
    match state {
        ServiceState::Idle => ActionModel::StartCapture,
        ServiceState::Recording => ActionModel::StopAndProcess,
        ServiceState::Processing => ActionModel::Reply(ResponseModel::Processing),
    }
}

/// The response that reports how an attempt ended.
pub open spec fn outcome_response(
    outcome: Result<(), PipelineError>,
    success: ResponseModel,
) -> ResponseModel {
    match outcome {
        Ok(_) => success,
        Err(error) => ResponseModel::Error(error.message_spec()),
    }
}

/// The single authoritative copy of the service state, with the number of
/// recordings started so far.
pub struct ServiceController {
    state: ServiceState,
    recordings: u32,
}

impl ServiceController {
    /// The current state.
    pub closed spec fn state_spec(&self) -> ServiceState {
        self.state
    }

    /// The number of recordings started so far.
    pub closed spec fn recordings_spec(&self) -> nat {
        self.recordings as nat
    }

    /// An idle controller that has not recorded yet.
    pub fn new() -> (controller: Self)
        ensures
            controller.state_spec() == ServiceState::Idle,
            controller.recordings_spec() == 0,
    {
        ServiceController { state: ServiceState::Idle, recordings: 0 }
    }

    /// The current state.
    pub fn state(&self) -> (state: ServiceState)
        ensures
            state == self.state_spec(),
    {
        self.state
    }

    /// The number of recordings started so far.
    pub fn recording_count(&self) -> (count: u32)
        ensures
            count == self.recordings_spec(),
    {
        self.recordings
    }

    /// The response to a status query.
    pub fn status(&self) -> (response: IpcResponse)
        ensures
            response@ == status_of(self.state_spec()),
    {
        match self.state {
            ServiceState::Idle => IpcResponse::Idle,
            ServiceState::Recording => IpcResponse::Recording,
            ServiceState::Processing => IpcResponse::Processing,
        }
    }

    /// The response to a request that could not be understood. The error
    /// goes to the client that sent the request and changes nothing else.
    pub fn reject_request(&self, error: PipelineError) -> (response: IpcResponse)
        ensures
            response@ == ResponseModel::Error(error.message_spec()),
    {
        IpcResponse::Error(error.message())
    }

    /// Handles a toggle, from the hotkey or from a client.
    ///
    /// When idle, a recording starts: the counter goes up by one and the loop
    /// is told to open the device. When recording, processing starts. While
    /// processing, nothing changes and the caller is told so.
    pub fn handle_toggle(&mut self) -> (action: ServiceAction)
        requires
            old(self).state_spec() == ServiceState::Idle ==> old(self).recordings_spec()
                < u32::MAX,
        ensures
            final(self).state_spec() == toggled(old(self).state_spec()),
            action@ == toggle_action(old(self).state_spec()),
            final(self).recordings_spec() == if old(self).state_spec() == ServiceState::Idle {
                old(self).recordings_spec() + 1
            } else {
                old(self).recordings_spec()
            },
    {
        match self.state {
            ServiceState::Idle => {
                self.recordings = self.recordings + 1;
                self.state = ServiceState::Recording;
                ServiceAction::StartCapture
            },
            ServiceState::Recording => {
                self.state = ServiceState::Processing;
                ServiceAction::StopAndProcess
            },
            ServiceState::Processing => ServiceAction::Reply(IpcResponse::Processing),
        }
    }

    /// Handles a request from a client.
    ///
    /// A stop request is acknowledged before the process ends; a status
    /// query reports the state and changes nothing; a toggle is handled as
    /// `handle_toggle` does.
    pub fn handle_message(&mut self, message: IpcMessage) -> (action: ServiceAction)
        requires
            message == IpcMessage::Toggle && old(self).state_spec() == ServiceState::Idle
                ==> old(self).recordings_spec() < u32::MAX,
        ensures
            message == IpcMessage::Stop ==> action@ == ActionModel::ReplyAndExit(
                ResponseModel::Success,
            ) && *final(self) == *old(self),
            message == IpcMessage::Status ==> action@ == ActionModel::Reply(
                status_of(old(self).state_spec()),
            ) && *final(self) == *old(self),
            message == IpcMessage::Toggle ==> action@ == toggle_action(old(self).state_spec())
                && final(self).state_spec() == toggled(old(self).state_spec())
                && final(self).recordings_spec() == if old(self).state_spec()
                == ServiceState::Idle {
                old(self).recordings_spec() + 1
            } else {
                old(self).recordings_spec()
            },
    {
        match message {
            IpcMessage::Stop => ServiceAction::ReplyAndExit(IpcResponse::Success),
            IpcMessage::Status => ServiceAction::Reply(self.status()),
            IpcMessage::Toggle => self.handle_toggle(),
        }
    }

    /// Records how opening the capture device went.
    ///
    /// On success the recording goes on; on failure the state returns to
    /// idle and the error is reported.
    pub fn capture_started(&mut self, outcome: Result<(), PipelineError>) -> (response:
        IpcResponse)
        requires
            old(self).state_spec() == ServiceState::Recording,
        ensures
            final(self).state_spec() == if outcome is Ok {
                ServiceState::Recording
            } else {
                ServiceState::Idle
            },
            final(self).recordings_spec() == old(self).recordings_spec(),
            response@ == outcome_response(outcome, ResponseModel::Recording),
    {
        match outcome {
            Ok(_) => IpcResponse::Recording,
            Err(error) => {
                self.state = ServiceState::Idle;
                IpcResponse::Error(error.message())
            },
        }
    }

    /// Records how the processing of a recording ended.
    ///
    /// Whatever the outcome, the state returns to idle.
    pub fn cycle_finished(&mut self, outcome: Result<(), PipelineError>) -> (response:
        IpcResponse)
        requires
            old(self).state_spec() == ServiceState::Processing,
        ensures
            final(self).state_spec() == ServiceState::Idle,
            final(self).recordings_spec() == old(self).recordings_spec(),
            response@ == outcome_response(outcome, ResponseModel::Success),
    {
        self.state = ServiceState::Idle;
        match outcome {
            Ok(_) => IpcResponse::Success,
            Err(error) => IpcResponse::Error(error.message()),
        }
    }
}

/// A step of a recording cycle that is shown to the user.
#[derive(Debug, Clone, PartialEq, Eq)]
pub enum ProgressStage {
    /// The recording has started.
    Recording,
    /// The recording could not be started.
    StartFailed(String),
    /// The recording has stopped and is being transcribed.
    Processing,
    /// The transcript is on the clipboard.
    Done,
    /// The cycle failed after the recording had started.
    CycleFailed(String),
}

/// Mathematical model of a [`ProgressStage`].
pub ghost enum StageModel {
    Recording,
    StartFailed(Seq<char>),
    Processing,
    Done,
    CycleFailed(Seq<char>),
}

impl View for ProgressStage {
    type V = StageModel;

    open spec fn view(&self) -> StageModel {
        match self {
            ProgressStage::Recording => StageModel::Recording,
            ProgressStage::StartFailed(reason) => StageModel::StartFailed(reason@),
            ProgressStage::Processing => StageModel::Processing,
            ProgressStage::Done => StageModel::Done,
            ProgressStage::CycleFailed(reason) => StageModel::CycleFailed(reason@),
        }
    }
}

/// The label of a stage of the recording with this number. A stage that
/// follows the start of the recording begins with a carriage return, so that
/// it replaces the label shown before.
pub open spec fn progress_label_spec(count: u32, stage: StageModel) -> Seq<char> {
    match stage {
        StageModel::Recording => "#"@ + decimal(count as nat) + " recording..."@,
        StageModel::StartFailed(reason) => "#"@ + decimal(count as nat) + " error: "@ + reason,
        StageModel::Processing => "\r#"@ + decimal(count as nat) + " processing..."@,
        StageModel::Done => "\r#"@ + decimal(count as nat) + " done            "@,
        StageModel::CycleFailed(reason) => "\r#"@ + decimal(count as nat) + " error: "@
            + reason,
    }
}

/// The label that is shown for a stage of the recording with this number.
pub fn progress_label(count: u32, stage: &ProgressStage) -> (label: String)
    ensures
        label@ == progress_label_spec(count, stage@),
{
    let mut label: Vec<char> = Vec::new();
    match stage {
        ProgressStage::Recording | ProgressStage::StartFailed(_) => {
            push_text(&mut label, "#");
        },
        _ => {
            push_text(&mut label, "\r#");
        },
    }
    push_decimal(&mut label, count as u128);
    match stage {
        ProgressStage::Recording => {
            push_text(&mut label, " recording...");
        },
        ProgressStage::Processing => {
            push_text(&mut label, " processing...");
        },
        ProgressStage::Done => {
            push_text(&mut label, " done            ");
        },
        ProgressStage::StartFailed(reason) => {
            push_text(&mut label, " error: ");
            push_text(&mut label, reason.as_str());
        },
        ProgressStage::CycleFailed(reason) => {
            push_text(&mut label, " error: ");
            push_text(&mut label, reason.as_str());
        },
    }
    assert(label@ =~= progress_label_spec(count, stage@));
    string_of(&label)
}

} // verus!
