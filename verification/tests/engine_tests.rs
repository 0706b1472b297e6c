use stream_recorder::engine::{MessageOutcome, StreamEngine};
use stream_recorder::envelope::encode_envelope;
use stream_recorder::errors::AppError;
use stream_recorder::models::{ControlAction, Frame, FrameType, WebSocketMessage};
use stream_recorder::recording::RecordingStatus;

fn frame_bytes(timestamp: i64, frame_type: FrameType, data: Vec<u8>) -> Vec<u8> {
    encode_envelope(&WebSocketMessage::Frame(Frame { timestamp, frame_type, data }))
}

fn control_bytes(action: ControlAction) -> Vec<u8> {
    encode_envelope(&WebSocketMessage::Control(action))
}

#[test]
fn connect_respects_capacity_and_release() {
    let mut engine = StreamEngine::new(3_600_000, 3);
    let rid = "r1".to_string();
    engine.rooms.create_room(rid.clone(), "Room".to_string(), 2).unwrap();
    assert!(engine.connect(&rid, 1).is_ok());
    assert!(engine.connect(&rid, 2).is_ok());
    match engine.connect(&rid, 3) {
        Err(AppError::TooManyConnections(m)) => assert_eq!(m, "r1"),
        other => panic!("expected TooManyConnections, got {:?}", other),
    }
    engine.disconnect(&rid, 1);
    assert!(engine.connect(&rid, 3).is_ok());
}

#[test]
fn double_disconnect_releases_only_once() {
    let mut engine = StreamEngine::new(3_600_000, 3);
    let rid = "r1".to_string();
    engine.rooms.create_room(rid.clone(), "Room".to_string(), 4).unwrap();
    engine.connect(&rid, 1).unwrap();
    engine.connect(&rid, 2).unwrap();
    assert_eq!(engine.rooms.get_room(&rid).unwrap().current_participants, 2);
    engine.disconnect(&rid, 1);
    // A second disconnect for the same connection releases nothing.
    engine.disconnect(&rid, 1);
    assert_eq!(engine.rooms.get_room(&rid).unwrap().current_participants, 1);
}

#[test]
fn connect_to_missing_room_is_refused() {
    let mut engine = StreamEngine::new(3_600_000, 3);
    let rid = "nowhere".to_string();
    match engine.connect(&rid, 1) {
        Err(AppError::NotFound(m)) => assert_eq!(m, "nowhere"),
        other => panic!("expected NotFound, got {:?}", other),
    }
}

#[test]
fn video_frames_deduplicate_but_always_broadcast() {
    let mut engine = StreamEngine::new(3_600_000, 3);
    let rid = "r1".to_string();
    engine.rooms.create_room(rid.clone(), "Room".to_string(), 8).unwrap();
    engine.connect(&rid, 1).unwrap();
    engine.connect(&rid, 2).unwrap();

    let payload = vec![1u8, 2, 3];
    let first = engine.handle_message(&rid, 1, &frame_bytes(1000, FrameType::Video, payload.clone()), 0);
    assert_eq!(first, MessageOutcome::FrameHandled { persist: true });
    let second =
        engine.handle_message(&rid, 1, &frame_bytes(2000, FrameType::Video, payload.clone()), 0);
    // The duplicate is not persisted again, but it is still broadcast.
    assert_eq!(second, MessageOutcome::FrameHandled { persist: false });
    assert_eq!(engine.rooms.poll(&rid, 2), Some(payload.clone()));
    assert_eq!(engine.rooms.poll(&rid, 2), Some(payload.clone()));
    assert_eq!(engine.rooms.poll(&rid, 1), None);
}

#[test]
fn audio_frames_always_persist() {
    let mut engine = StreamEngine::new(3_600_000, 3);
    let rid = "r1".to_string();
    engine.rooms.create_room(rid.clone(), "Room".to_string(), 8).unwrap();
    engine.connect(&rid, 1).unwrap();
    let payload = vec![7u8; 32];
    for ts in [100, 200] {
        let out = engine.handle_message(&rid, 1, &frame_bytes(ts, FrameType::Audio, payload.clone()), 0);
        assert_eq!(out, MessageOutcome::FrameHandled { persist: true });
    }
}

#[test]
fn malformed_message_is_dropped() {
    let mut engine = StreamEngine::new(3_600_000, 3);
    let rid = "r1".to_string();
    let out = engine.handle_message(&rid, 1, &vec![0xFF, 0x00, 0x01], 0);
    assert_eq!(out, MessageOutcome::Malformed);
    assert_eq!(engine.recorders.len(), 0);
}

#[test]
fn control_messages_drive_the_recording_machine() {
    let mut engine = StreamEngine::new(3_600_000, 3);
    let rid = "r1".to_string();
    let out = engine.handle_message(&rid, 1, &control_bytes(ControlAction::StartRecording), 500);
    assert_eq!(out, MessageOutcome::ControlHandled(Ok(())));
    assert_eq!(engine.recorders.len(), 1);
    let rec = engine.recorders[0].current.as_ref().unwrap();
    assert_eq!(rec.start_time, 500);
    assert_eq!(rec.status, RecordingStatus::Recording);
    // The generated recording id is a hyphenated UUID.
    assert_eq!(rec.id.len(), 36);

    let again = engine.handle_message(&rid, 1, &control_bytes(ControlAction::StartRecording), 600);
    match again {
        MessageOutcome::ControlHandled(Err(_)) => {}
        other => panic!("expected a refused second start, got {:?}", other),
    }
    let stop = engine.handle_message(&rid, 1, &control_bytes(ControlAction::StopRecording), 700);
    assert_eq!(stop, MessageOutcome::ControlHandled(Ok(())));
    assert_eq!(engine.recorders[0].completed.len(), 1);
    assert_eq!(engine.recorders[0].completed[0].end_time, Some(700));
}

#[test]
fn persistence_outcomes_reach_the_recorder() {
    let mut engine = StreamEngine::new(3_600_000, 2);
    let rid = "r1".to_string();
    engine.handle_control_action_with_id(&rid, ControlAction::StartRecording, "rec-1".to_string(), 0)
        .unwrap();
    assert!(!engine.report_persist(&rid, true, 4096, 10));
    assert_eq!(engine.recorders[0].current.as_ref().unwrap().size_bytes, 4096);
    assert_eq!(engine.recorders[0].current.as_ref().unwrap().frame_count, 1);
    assert!(!engine.report_persist(&rid, false, 0, 20));
    // The second consecutive failure reaches the threshold of 2.
    assert!(engine.report_persist(&rid, false, 0, 30));
    assert_eq!(engine.recorders[0].completed[0].status, RecordingStatus::Failed);
    // A room that never saw a control command is untouched.
    assert!(!engine.report_persist(&"other".to_string(), false, 0, 40));
}
