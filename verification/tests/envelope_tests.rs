use stream_recorder::envelope::{encode_envelope, parse_envelope};
use stream_recorder::models::{ControlAction, Frame, FrameType, WebSocketMessage};

#[test]
fn frame_envelope_round_trip() {
    let frame = Frame {
        timestamp: 0x0102030405060708,
        frame_type: FrameType::Video,
        data: vec![0xDE, 0xAD, 0xBE, 0xEF],
    };
    let bytes = encode_envelope(&WebSocketMessage::Frame(frame));
    assert_eq!(bytes[0], 1);
    assert_eq!(bytes[1], 0);
    assert_eq!(&bytes[2..10], &[1, 2, 3, 4, 5, 6, 7, 8]);
    match parse_envelope(&bytes) {
        Some(WebSocketMessage::Frame(f)) => {
            assert_eq!(f.timestamp, 0x0102030405060708);
            assert_eq!(f.frame_type, FrameType::Video);
            assert_eq!(f.data, vec![0xDE, 0xAD, 0xBE, 0xEF]);
        }
        other => panic!("expected a frame, got {:?}", other),
    }
}

#[test]
fn audio_frame_with_empty_payload_round_trip() {
    let frame = Frame { timestamp: 0, frame_type: FrameType::Audio, data: vec![] };
    let bytes = encode_envelope(&WebSocketMessage::Frame(frame));
    assert_eq!(bytes.len(), 10);
    match parse_envelope(&bytes) {
        Some(WebSocketMessage::Frame(f)) => {
            assert_eq!(f.timestamp, 0);
            assert_eq!(f.frame_type, FrameType::Audio);
            assert!(f.data.is_empty());
        }
        other => panic!("expected a frame, got {:?}", other),
    }
}

#[test]
fn control_envelope_round_trip() {
    for action in [
        ControlAction::StartRecording,
        ControlAction::StopRecording,
        ControlAction::PauseRecording,
        ControlAction::ResumeRecording,
    ] {
        let bytes = encode_envelope(&WebSocketMessage::Control(action));
        assert_eq!(bytes.len(), 2);
        match parse_envelope(&bytes) {
            Some(WebSocketMessage::Control(a)) => assert_eq!(a, action),
            other => panic!("expected a control command, got {:?}", other),
        }
    }
}

#[test]
fn malformed_envelopes_are_rejected() {
    // Empty.
    assert!(parse_envelope(&vec![]).is_none());
    // Unknown tag.
    assert!(parse_envelope(&vec![9, 0]).is_none());
    // A frame too short for its header.
    assert!(parse_envelope(&vec![1, 0, 0, 0]).is_none());
    // A frame with an unknown kind byte.
    assert!(parse_envelope(&vec![1, 7, 0, 0, 0, 0, 0, 0, 0, 0]).is_none());
    // A control command with an unknown action byte.
    assert!(parse_envelope(&vec![2, 4]).is_none());
    // A control command with trailing bytes.
    assert!(parse_envelope(&vec![2, 0, 0]).is_none());
    // A timestamp with the sign bit set does not fit the envelope.
    assert!(parse_envelope(&vec![1, 0, 0x80, 0, 0, 0, 0, 0, 0, 0]).is_none());
}
