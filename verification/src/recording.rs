//! The per-room recording state machine. A room is idle (no active
//! recording) or holds exactly one active recording, which is `Recording`
//! or `Paused`; stopping completes it, and a run of consecutive
//! persistence failures beyond the configured threshold fails it. Both
//! `Completed` and `Failed` are terminal: the record moves to the history
//! and never changes again; a later start creates a fresh recording.

use crate::models::ControlAction;
use crate::{sat_add64, sat_inc32, sat_inc64};
use vstd::prelude::*;

verus! {

/// The lifecycle status of one recording.
#[derive(Debug, Clone, Copy, PartialEq, Eq, Structural)]
pub enum RecordingStatus {
    Recording,
    Paused,
    Completed,
    Failed,
}

/// Why a control command was refused.
#[derive(Debug, Clone, Copy, PartialEq, Eq, Structural)]
pub enum ControlError {
    AlreadyRecording,
    NotRecording,
    InvalidTransition,
}

/// One recording: identity, the room it belongs to, its time span, its
/// accumulated counters, and its status.
#[derive(Debug, Clone)]
pub struct Recording {
    pub id: String,
    pub room_id: String,
    pub start_time: i64,
    pub end_time: Option<i64>,
    pub size_bytes: u64,
    pub frame_count: u64,
    pub status: RecordingStatus,
}

/// The recording state machine of one room. Control transitions for a
/// room are serialized by whoever owns this value; nothing here depends
/// on another room's machine.
pub struct RecordingMachine {
    pub room_id: String,
    pub current: Option<Recording>,
    pub completed: Vec<Recording>,
    pub fail_threshold: u32,
    pub consecutive_failures: u32,
}

/// What starting does: refused with `AlreadyRecording` while a recording
/// is active; otherwise a fresh open recording with the given id begins
/// at `now` and the failure run clears.
pub open spec fn start_step(
    pre: RecordingMachine,
    post: RecordingMachine,
    id: String,
    now: i64,
    r: Result<(), ControlError>,
) -> bool {
    match pre.current {
        Some(_) => r == Err::<(), ControlError>(ControlError::AlreadyRecording) && post == pre,
        None => {
            &&& r == Ok::<(), ControlError>(())
            &&& post == (RecordingMachine {
                current: Some(
                    Recording {
                        id,
                        room_id: pre.room_id,
                        start_time: now,
                        end_time: None,
                        size_bytes: 0,
                        frame_count: 0,
                        status: RecordingStatus::Recording,
                    },
                ),
                consecutive_failures: 0,
                ..pre
            })
        },
    }
}

/// What stopping does: refused with `NotRecording` when idle; otherwise
/// the active recording closes at `now` with status `Completed` and
/// moves to the history.
pub open spec fn stop_step(
    pre: RecordingMachine,
    post: RecordingMachine,
    now: i64,
    r: Result<(), ControlError>,
) -> bool {
    match pre.current {
        None => r == Err::<(), ControlError>(ControlError::NotRecording) && post == pre,
        Some(rec) => {
            &&& r == Ok::<(), ControlError>(())
            &&& post.room_id == pre.room_id
            &&& post.fail_threshold == pre.fail_threshold
            &&& post.current is None
            &&& post.consecutive_failures == 0
            &&& post.completed@ == pre.completed@.push(
                (Recording { end_time: Some(now), status: RecordingStatus::Completed, ..rec }),
            )
        },
    }
}

/// What pausing does: from an active `Recording` it flips the status to
/// `Paused` and touches nothing else; any other state is refused with
/// `InvalidTransition` and left unchanged.
pub open spec fn pause_step(
    pre: RecordingMachine,
    post: RecordingMachine,
    r: Result<(), ControlError>,
) -> bool {
    match pre.current {
        Some(rec) => {
            if rec.status is Recording {
                r == Ok::<(), ControlError>(()) && post == (RecordingMachine {
                    current: Some(Recording { status: RecordingStatus::Paused, ..rec }),
                    ..pre
                })
            } else {
                r == Err::<(), ControlError>(ControlError::InvalidTransition) && post == pre
            }
        },
        None => r == Err::<(), ControlError>(ControlError::InvalidTransition) && post == pre,
    }
}

/// What resuming does: from `Paused` back to `Recording`, everything else
/// (the original start time included) untouched; otherwise refused with
/// `InvalidTransition` and left unchanged.
pub open spec fn resume_step(
    pre: RecordingMachine,
    post: RecordingMachine,
    r: Result<(), ControlError>,
) -> bool {
    match pre.current {
        Some(rec) => {
            if rec.status is Paused {
                r == Ok::<(), ControlError>(()) && post == (RecordingMachine {
                    current: Some(Recording { status: RecordingStatus::Recording, ..rec }),
                    ..pre
                })
            } else {
                r == Err::<(), ControlError>(ControlError::InvalidTransition) && post == pre
            }
        },
        None => r == Err::<(), ControlError>(ControlError::InvalidTransition) && post == pre,
    }
}

/// What each control action does to the machine, in one place.
pub open spec fn control_step(
    action: ControlAction,
    pre: RecordingMachine,
    post: RecordingMachine,
    id: String,
    now: i64,
    r: Result<(), ControlError>,
) -> bool {
    match action {
        ControlAction::StartRecording => start_step(pre, post, id, now, r),
        ControlAction::StopRecording => stop_step(pre, post, now, r),
        ControlAction::PauseRecording => pause_step(pre, post, r),
        ControlAction::ResumeRecording => resume_step(pre, post, r),
    }
}

impl RecordingMachine {
    /// Well-formed: an active recording is `Recording` or `Paused`, open
    /// ended, and belongs to this room; every historical recording is
    /// terminal, closed, and belongs to this room.
    pub open spec fn wf(self) -> bool {
        &&& match self.current {
            Some(rec) => (rec.status is Recording || rec.status is Paused) && rec.end_time is None
                && rec.room_id@ == self.room_id@,
            None => true,
        }
        &&& forall|i: int|
            0 <= i < self.completed@.len() ==> {
                &&& ((#[trigger] self.completed@[i]).status is Completed || self.completed@[i].status
                    is Failed)
                &&& self.completed@[i].end_time is Some
                &&& self.completed@[i].room_id@ == self.room_id@
            }
        &&& self.fail_threshold >= 1
    }

    /// The status of the active recording, if any.
    pub open spec fn status_of(self) -> Option<RecordingStatus> {
        match self.current {
            Some(rec) => Some(rec.status),
            None => None,
        }
    }

    /// An idle machine for a room, failing a recording after
    /// `fail_threshold` consecutive persistence failures.
    pub fn new(room_id: String, fail_threshold: u32) -> (r: Self)
        requires
            fail_threshold >= 1,
        ensures
            r.wf(),
            r.room_id == room_id,
            r.current is None,
            r.completed@.len() == 0,
            r.fail_threshold == fail_threshold,
            r.consecutive_failures == 0,
    {
        RecordingMachine {
            room_id,
            current: None,
            completed: Vec::new(),
            fail_threshold,
            consecutive_failures: 0,
        }
    }

    /// Starts a fresh recording with the given generated id at time
    /// `now`. Refused with `AlreadyRecording` while one is active
    /// (`Recording` or `Paused`).
    pub fn start_recording(&mut self, id: String, now: i64) -> (r: Result<(), ControlError>)
        requires
            old(self).wf(),
        ensures
            final(self).wf(),
            start_step(*old(self), *final(self), id, now, r),
    {
        match &self.current {
            Some(_) => Err(ControlError::AlreadyRecording),
            None => {
                let room_id = self.room_id.clone();
                self.current = Some(
                    Recording {
                        id,
                        room_id,
                        start_time: now,
                        end_time: None,
                        size_bytes: 0,
                        frame_count: 0,
                        status: RecordingStatus::Recording,
                    },
                );
                self.consecutive_failures = 0;
                Ok(())
            },
        }
    }

    /// Stops the active recording at time `now`: it completes, closes,
    /// and moves to the history. Refused with `NotRecording` when idle.
    pub fn stop_recording(&mut self, now: i64) -> (r: Result<(), ControlError>)
        requires
            old(self).wf(),
        ensures
            final(self).wf(),
            stop_step(*old(self), *final(self), now, r),
    {
        match self.current.take() {
            None => Err(ControlError::NotRecording),
            Some(mut rec) => {
                rec.end_time = Some(now);
                rec.status = RecordingStatus::Completed;
                self.completed.push(rec);
                self.consecutive_failures = 0;
                Ok(())
            },
        }
    }

    /// Pauses the active recording; see `pause_step`.
    pub fn pause_recording(&mut self) -> (r: Result<(), ControlError>)
        requires
            old(self).wf(),
        ensures
            final(self).wf(),
            pause_step(*old(self), *final(self), r),
    {
        match &mut self.current {
            Some(rec) => {
                if rec.status == RecordingStatus::Recording {
                    rec.status = RecordingStatus::Paused;
                    Ok(())
                } else {
                    Err(ControlError::InvalidTransition)
                }
            },
            None => Err(ControlError::InvalidTransition),
        }
    }

    /// Resumes the paused recording; see `resume_step`.
    pub fn resume_recording(&mut self) -> (r: Result<(), ControlError>)
        requires
            old(self).wf(),
        ensures
            final(self).wf(),
            resume_step(*old(self), *final(self), r),
    {
        match &mut self.current {
            Some(rec) => {
                if rec.status == RecordingStatus::Paused {
                    rec.status = RecordingStatus::Recording;
                    Ok(())
                } else {
                    Err(ControlError::InvalidTransition)
                }
            },
            None => Err(ControlError::InvalidTransition),
        }
    }

    /// Applies one control command; see `control_step`. The id is used
    /// only by `StartRecording`.
    pub fn apply_control(&mut self, action: ControlAction, id: String, now: i64) -> (r: Result<
        (),
        ControlError,
    >)
        requires
            old(self).wf(),
        ensures
            final(self).wf(),
            control_step(action, *old(self), *final(self), id, now, r),
    {
        match action {
            ControlAction::StartRecording => self.start_recording(id, now),
            ControlAction::StopRecording => self.stop_recording(now),
            ControlAction::PauseRecording => self.pause_recording(),
            ControlAction::ResumeRecording => self.resume_recording(),
        }
    }

    /// Accounts one persisted frame of `bytes` bytes to the active
    /// recording; idle machines are untouched.
    pub fn record_frame(&mut self, bytes: u64)
        requires
            old(self).wf(),
        ensures
            final(self).wf(),
            old(self).current is None ==> *final(self) == *old(self),
            old(self).current is Some ==> *final(self) == (RecordingMachine {
                current: Some(
                    Recording {
                        frame_count: sat_inc64(old(self).current->Some_0.frame_count),
                        size_bytes: sat_add64(old(self).current->Some_0.size_bytes, bytes),
                        ..old(self).current->Some_0
                    },
                ),
                ..*old(self)
            }),
    {
        match &mut self.current {
            Some(rec) => {
                if rec.frame_count < u64::MAX {
                    rec.frame_count = rec.frame_count + 1;
                }
                if bytes > u64::MAX - rec.size_bytes {
                    rec.size_bytes = u64::MAX;
                } else {
                    rec.size_bytes = rec.size_bytes + bytes;
                }
            },
            None => {},
        }
    }

    /// Notes one persistence failure at time `now`. When the run of
    /// consecutive failures reaches the threshold while a recording is
    /// active, that recording fails: it closes with status `Failed` and
    /// moves to the history. Returns whether that happened. Idle machines
    /// are untouched: a failure run is a property of an active recording.
    pub fn record_persist_failure(&mut self, now: i64) -> (tripped: bool)
        requires
            old(self).wf(),
        ensures
            final(self).wf(),
            final(self).room_id == old(self).room_id,
            final(self).fail_threshold == old(self).fail_threshold,
            old(self).current is None ==> *final(self) == *old(self) && !tripped,
            old(self).current is Some && sat_inc32(old(self).consecutive_failures) < old(
                self,
            ).fail_threshold ==> {
                &&& !tripped
                &&& *final(self) == (RecordingMachine {
                    consecutive_failures: sat_inc32(old(self).consecutive_failures),
                    ..*old(self)
                })
            },
            old(self).current is Some && sat_inc32(old(self).consecutive_failures) >= old(
                self,
            ).fail_threshold ==> {
                &&& tripped
                &&& final(self).current is None
                &&& final(self).consecutive_failures == 0
                &&& final(self).completed@ == old(self).completed@.push(
                    (Recording {
                        end_time: Some(now),
                        status: RecordingStatus::Failed,
                        ..old(self).current->Some_0
                    }),
                )
            },
    {
        if self.current.is_none() {
            return false;
        }
        let inc = if self.consecutive_failures < u32::MAX {
            self.consecutive_failures + 1
        } else {
            self.consecutive_failures
        };
        if inc >= self.fail_threshold {
            match self.current.take() {
                Some(mut rec) => {
                    rec.end_time = Some(now);
                    rec.status = RecordingStatus::Failed;
                    self.completed.push(rec);
                    self.consecutive_failures = 0;
                    true
                },
                None => false,
            }
        } else {
            self.consecutive_failures = inc;
            false
        }
    }

    /// Notes one persistence success: the failure run is over.
    pub fn record_persist_success(&mut self)
        requires
            old(self).wf(),
        ensures
            final(self).wf(),
            *final(self) == (RecordingMachine { consecutive_failures: 0, ..*old(self) }),
    {
        self.consecutive_failures = 0;
    }
}

/// Pausing and then resuming restores the machine exactly: the recording
/// is `Recording` again and nothing — the original start time included —
/// has changed.
pub proof fn lemma_pause_resume_roundtrip(
    m0: RecordingMachine,
    m1: RecordingMachine,
    m2: RecordingMachine,
    r1: Result<(), ControlError>,
    r2: Result<(), ControlError>,
)
    requires
        m0.current is Some,
        m0.current->Some_0.status is Recording,
        pause_step(m0, m1, r1),
        resume_step(m1, m2, r2),
    ensures
        r1 == Ok::<(), ControlError>(()),
        r2 == Ok::<(), ControlError>(()),
        m2 == m0,
{
}

} // verus!
