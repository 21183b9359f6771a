use whis::error::PipelineError;
use whis::ipc::{IpcMessage, IpcResponse};
use whis::service::{ServiceAction, ServiceController, ServiceState};

#[test]
fn controller_starts_idle() {
    let controller = ServiceController::new();
    assert_eq!(controller.state(), ServiceState::Idle);
    assert_eq!(controller.recording_count(), 0);
    assert_eq!(controller.status(), IpcResponse::Idle);
}

#[test]
fn full_cycle_returns_to_idle() {
    let mut controller = ServiceController::new();
    assert_eq!(controller.handle_toggle(), ServiceAction::StartCapture);
    assert_eq!(controller.state(), ServiceState::Recording);
    assert_eq!(controller.recording_count(), 1);
    assert_eq!(controller.capture_started(Ok(())), IpcResponse::Recording);
    assert_eq!(controller.state(), ServiceState::Recording);
    assert_eq!(controller.status(), IpcResponse::Recording);

    assert_eq!(controller.handle_toggle(), ServiceAction::StopAndProcess);
    assert_eq!(controller.state(), ServiceState::Processing);
    assert_eq!(controller.status(), IpcResponse::Processing);
    assert_eq!(controller.cycle_finished(Ok(())), IpcResponse::Success);
    assert_eq!(controller.state(), ServiceState::Idle);
    assert_eq!(controller.recording_count(), 1);
}

#[test]
fn failed_start_returns_to_idle_and_reports() {
    let mut controller = ServiceController::new();
    controller.handle_toggle();
    let response =
        controller.capture_started(Err(PipelineError::Device("No input device available".into())));
    assert_eq!(response, IpcResponse::Error("No input device available".to_string()));
    assert_eq!(controller.state(), ServiceState::Idle);
    assert_eq!(controller.recording_count(), 1);
    assert_eq!(controller.handle_toggle(), ServiceAction::StartCapture);
    assert_eq!(controller.recording_count(), 2);
}

#[test]
fn failed_cycle_returns_to_idle_and_reports() {
    let mut controller = ServiceController::new();
    controller.handle_toggle();
    controller.capture_started(Ok(()));
    controller.handle_toggle();
    let response = controller.cycle_finished(Err(PipelineError::EmptyRecording));
    assert_eq!(response, IpcResponse::Error("No audio data recorded".to_string()));
    assert_eq!(controller.state(), ServiceState::Idle);
}

#[test]
fn toggle_while_processing_changes_nothing() {
    let mut controller = ServiceController::new();
    controller.handle_toggle();
    controller.capture_started(Ok(()));
    controller.handle_toggle();
    assert_eq!(controller.handle_toggle(), ServiceAction::Reply(IpcResponse::Processing));
    assert_eq!(
        controller.handle_message(IpcMessage::Toggle),
        ServiceAction::Reply(IpcResponse::Processing)
    );
    assert_eq!(controller.state(), ServiceState::Processing);
    assert_eq!(controller.recording_count(), 1);
}

#[test]
fn status_and_stop_leave_the_state_alone() {
    let mut controller = ServiceController::new();
    assert_eq!(
        controller.handle_message(IpcMessage::Status),
        ServiceAction::Reply(IpcResponse::Idle)
    );
    assert_eq!(
        controller.handle_message(IpcMessage::Stop),
        ServiceAction::ReplyAndExit(IpcResponse::Success)
    );
    assert_eq!(controller.state(), ServiceState::Idle);
    controller.handle_message(IpcMessage::Toggle);
    assert_eq!(
        controller.handle_message(IpcMessage::Status),
        ServiceAction::Reply(IpcResponse::Recording)
    );
    assert_eq!(
        controller.handle_message(IpcMessage::Stop),
        ServiceAction::ReplyAndExit(IpcResponse::Success)
    );
    assert_eq!(controller.state(), ServiceState::Recording);
    assert_eq!(controller.recording_count(), 1);
}

#[test]
fn toggle_message_acts_like_the_hotkey() {
    let mut controller = ServiceController::new();
    assert_eq!(controller.handle_message(IpcMessage::Toggle), ServiceAction::StartCapture);
    controller.capture_started(Ok(()));
    assert_eq!(controller.handle_message(IpcMessage::Toggle), ServiceAction::StopAndProcess);
    assert_eq!(controller.state(), ServiceState::Processing);
}

#[test]
fn malformed_request_is_answered_and_changes_nothing() {
    let mut controller = ServiceController::new();
    controller.handle_toggle();
    let response = controller
        .reject_request(PipelineError::IpcProtocol("Failed to deserialize message".into()));
    assert_eq!(response, IpcResponse::Error("Failed to deserialize message".to_string()));
    assert_eq!(controller.state(), ServiceState::Recording);
    assert_eq!(controller.recording_count(), 1);
}
