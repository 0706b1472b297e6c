use stream_recorder::models::ControlAction;
use stream_recorder::recording::{ControlError, RecordingMachine, RecordingStatus};

#[test]
fn stop_without_active_recording_fails() {
    let mut m = RecordingMachine::new("r1".to_string(), 3);
    assert_eq!(m.stop_recording(100), Err(ControlError::NotRecording));
}

#[test]
fn start_twice_fails_with_already_recording() {
    let mut m = RecordingMachine::new("r1".to_string(), 3);
    assert_eq!(m.start_recording("rec-1".to_string(), 100), Ok(()));
    assert_eq!(
        m.start_recording("rec-2".to_string(), 200),
        Err(ControlError::AlreadyRecording)
    );
    // Paused still counts as active.
    assert_eq!(m.pause_recording(), Ok(()));
    assert_eq!(
        m.start_recording("rec-3".to_string(), 300),
        Err(ControlError::AlreadyRecording)
    );
}

#[test]
fn pause_resume_keeps_original_start_time() {
    let mut m = RecordingMachine::new("r1".to_string(), 3);
    m.start_recording("rec-1".to_string(), 1234).unwrap();
    assert_eq!(m.pause_recording(), Ok(()));
    assert_eq!(
        m.current.as_ref().map(|r| r.status),
        Some(RecordingStatus::Paused)
    );
    assert_eq!(m.resume_recording(), Ok(()));
    let rec = m.current.as_ref().unwrap();
    assert_eq!(rec.status, RecordingStatus::Recording);
    assert_eq!(rec.start_time, 1234);
}

#[test]
fn invalid_transitions_are_no_ops() {
    let mut m = RecordingMachine::new("r1".to_string(), 3);
    assert_eq!(m.pause_recording(), Err(ControlError::InvalidTransition));
    assert_eq!(m.resume_recording(), Err(ControlError::InvalidTransition));
    m.start_recording("rec-1".to_string(), 10).unwrap();
    // Resuming while already recording is invalid and changes nothing.
    assert_eq!(m.resume_recording(), Err(ControlError::InvalidTransition));
    assert_eq!(
        m.current.as_ref().map(|r| r.status),
        Some(RecordingStatus::Recording)
    );
    m.pause_recording().unwrap();
    assert_eq!(m.pause_recording(), Err(ControlError::InvalidTransition));
}

#[test]
fn stop_completes_and_archives() {
    let mut m = RecordingMachine::new("r1".to_string(), 3);
    m.start_recording("rec-1".to_string(), 50).unwrap();
    m.record_frame(1000);
    m.record_frame(500);
    assert_eq!(m.stop_recording(90), Ok(()));
    assert!(m.current.is_none());
    assert_eq!(m.completed.len(), 1);
    let done = &m.completed[0];
    assert_eq!(done.status, RecordingStatus::Completed);
    assert_eq!(done.start_time, 50);
    assert_eq!(done.end_time, Some(90));
    assert_eq!(done.frame_count, 2);
    assert_eq!(done.size_bytes, 1500);
    // A new start after a terminal state is a fresh recording.
    assert_eq!(m.start_recording("rec-2".to_string(), 100), Ok(()));
    assert_eq!(m.current.as_ref().unwrap().frame_count, 0);
}

#[test]
fn persistence_failure_run_fails_the_recording() {
    let mut m = RecordingMachine::new("r1".to_string(), 3);
    m.start_recording("rec-1".to_string(), 0).unwrap();
    assert!(!m.record_persist_failure(10));
    assert!(!m.record_persist_failure(20));
    // The third consecutive failure reaches the threshold.
    assert!(m.record_persist_failure(30));
    assert!(m.current.is_none());
    assert_eq!(m.completed.len(), 1);
    assert_eq!(m.completed[0].status, RecordingStatus::Failed);
    assert_eq!(m.completed[0].end_time, Some(30));
}

#[test]
fn persistence_success_resets_the_failure_run() {
    let mut m = RecordingMachine::new("r1".to_string(), 3);
    m.start_recording("rec-1".to_string(), 0).unwrap();
    assert!(!m.record_persist_failure(10));
    assert!(!m.record_persist_failure(20));
    m.record_persist_success();
    // The run starts over: two more failures do not trip it.
    assert!(!m.record_persist_failure(30));
    assert!(!m.record_persist_failure(40));
    assert_eq!(
        m.current.as_ref().map(|r| r.status),
        Some(RecordingStatus::Recording)
    );
}

#[test]
fn apply_control_dispatches() {
    let mut m = RecordingMachine::new("r1".to_string(), 3);
    assert_eq!(
        m.apply_control(ControlAction::StopRecording, "unused".to_string(), 5),
        Err(ControlError::NotRecording)
    );
    assert_eq!(
        m.apply_control(ControlAction::StartRecording, "rec-1".to_string(), 5),
        Ok(())
    );
    assert_eq!(
        m.apply_control(ControlAction::PauseRecording, "unused".to_string(), 6),
        Ok(())
    );
    assert_eq!(
        m.apply_control(ControlAction::ResumeRecording, "unused".to_string(), 7),
        Ok(())
    );
    assert_eq!(
        m.apply_control(ControlAction::StopRecording, "unused".to_string(), 8),
        Ok(())
    );
    assert_eq!(m.completed.len(), 1);
}
