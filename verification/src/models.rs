//! Plain data carried across the engine's boundaries: frames and control
//! messages of the real-time stream, request payloads of the
//! administrative surface, token claims, and configuration.

use vstd::prelude::*;

verus! {

/// The kind of a media frame. Only video frames are deduplicated; audio
/// always passes through.
#[derive(Debug, Clone, Copy, PartialEq, Eq, Structural)]
pub enum FrameType {
    Video,
    Audio,
}

/// One immutable unit of ingress: a sender-supplied timestamp in
/// milliseconds, a kind, and opaque payload bytes.
#[derive(Debug, Clone)]
pub struct Frame {
    pub timestamp: i64,
    pub frame_type: FrameType,
    pub data: Vec<u8>,
}

/// A recording control command, routed to the recording state machine.
#[derive(Debug, Clone, Copy, PartialEq, Eq, Structural)]
pub enum ControlAction {
    StartRecording,
    StopRecording,
    PauseRecording,
    ResumeRecording,
}

/// Everything a connection may send inbound: a media frame or a control
/// command.
#[derive(Debug, Clone)]
pub enum WebSocketMessage {
    Frame(Frame),
    Control(ControlAction),
}

/// The request payload that creates a room.
#[derive(Debug, Clone)]
pub struct CreateRoomRequest {
    pub name: String,
    pub max_participants: Option<u32>,
}

/// The request payload that joins a room.
#[derive(Debug, Clone)]
pub struct JoinRoomRequest {
    pub room_id: String,
    pub api_key: String,
}

/// The claims carried inside an access token.
#[derive(Debug, Clone)]
pub struct Claims {
    pub sub: String,
    pub user_id: String,
    pub exp: i64,
}

/// The body returned when credentials were issued.
#[derive(Debug, Clone)]
pub struct CredentialsResponse {
    pub message: String,
}

/// Application configuration, loaded at the boundary and handed in as
/// plain values.
#[derive(Debug, Clone)]
pub struct Config {
    pub api_key: String,
    pub jwt_secret: String,
    pub max_connections: u32,
    pub max_room_size: u32,
    pub storage_path: String,
}

} // verus!
