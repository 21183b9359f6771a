use whis::error::PipelineError;
use whis::ipc::{frame_line, status_report, unframe_line, IpcMessage, IpcResponse};

#[test]
fn frame_line_appends_a_newline() {
    assert_eq!(frame_line("\"Status\""), "\"Status\"\n");
    assert_eq!(frame_line(""), "\n");
}

#[test]
fn unframe_line_strips_the_terminator() {
    assert_eq!(unframe_line("\"Stop\"\n"), "\"Stop\"");
    assert_eq!(unframe_line("  {\"Error\":\"a b\"}\r\n"), "{\"Error\":\"a b\"}");
    assert_eq!(unframe_line("\n"), "");
}

#[test]
fn framing_round_trips() {
    let payload = "{\"Error\":\"still  here\"}";
    assert_eq!(unframe_line(&frame_line(payload)), payload);
}

#[test]
fn status_report_names_each_state() {
    assert_eq!(status_report(&IpcResponse::Idle), "Status: Running (idle)");
    assert_eq!(status_report(&IpcResponse::Recording), "Status: Running (recording)");
    assert_eq!(status_report(&IpcResponse::Processing), "Status: Running (processing)");
    assert_eq!(status_report(&IpcResponse::Success), "Status: Running");
    assert_eq!(status_report(&IpcResponse::Error("boom".to_string())), "Error: boom");
}

#[test]
fn messages_compare_by_variant() {
    assert_eq!(IpcMessage::Toggle, IpcMessage::Toggle);
    assert_ne!(IpcMessage::Stop, IpcMessage::Status);
}

#[test]
fn every_error_has_its_message() {
    assert_eq!(PipelineError::Device("no mic".into()).message(), "no mic");
    assert_eq!(PipelineError::EmptyRecording.message(), "No audio data recorded");
    assert_eq!(PipelineError::Encode("bad codec".into()).message(), "bad codec");
    assert_eq!(PipelineError::Transcription("HTTP 500".into()).message(), "HTTP 500");
    assert_eq!(PipelineError::IpcProtocol("not json".into()).message(), "not json");
    assert_eq!(
        PipelineError::TaskFailure("join error".into()).message(),
        "Task panicked: join error"
    );
}
