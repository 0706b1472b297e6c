//! The wire envelope of the real-time connection. One inbound unit is
//! either a media frame — tag byte, kind byte, an eight-byte big-endian
//! timestamp, then the opaque payload — or a two-byte control command.
//! Anything else is malformed and dropped by the caller; a malformed
//! envelope is never fatal to the connection.

use crate::models::{ControlAction, Frame, FrameType, WebSocketMessage};
use vstd::arithmetic::div_mod::{lemma_breakdown, lemma_div_denominator, lemma_small_mod};
use vstd::prelude::*;

verus! {

/// Envelope tag of a media frame.
pub const TAG_FRAME: u8 = 1;

/// Envelope tag of a control command.
pub const TAG_CONTROL: u8 = 2;

/// What a frame looks like to specifications.
pub struct FrameModel {
    pub timestamp: i64,
    pub frame_type: FrameType,
    pub data: Seq<u8>,
}

/// What an inbound message looks like to specifications.
pub enum MessageModel {
    FrameMsg(FrameModel),
    ControlMsg(ControlAction),
}

impl View for Frame {
    type V = FrameModel;

    open spec fn view(&self) -> FrameModel {
        FrameModel { timestamp: self.timestamp, frame_type: self.frame_type, data: self.data@ }
    }
}

impl View for WebSocketMessage {
    type V = MessageModel;

    open spec fn view(&self) -> MessageModel {
        match self {
            WebSocketMessage::Frame(f) => MessageModel::FrameMsg(f@),
            WebSocketMessage::Control(a) => MessageModel::ControlMsg(*a),
        }
    }
}

/// The value of a big-endian byte sequence.
pub open spec fn be_val(s: Seq<u8>) -> nat
    decreases s.len(),
{
    if s.len() == 0 {
        0
    } else {
        be_val(s.drop_last()) * 256 + s.last() as nat
    }
}

/// 256 to the `n`-th power.
pub open spec fn pow256(n: nat) -> nat
    decreases n,
{
    if n == 0 {
        1
    } else {
        256 * pow256((n - 1) as nat)
    }
}

/// The `n`-byte big-endian representation of `v` (mod `256^n`).
pub open spec fn to_be(v: nat, n: nat) -> Seq<u8>
    decreases n,
{
    if n == 0 {
        Seq::empty()
    } else {
        to_be(v / 256, (n - 1) as nat).push((v % 256) as u8)
    }
}

/// The byte code of a frame kind.
pub open spec fn kind_code(k: FrameType) -> u8 {
    match k {
        FrameType::Video => 0,
        FrameType::Audio => 1,
    }
}

/// The byte code of a control action.
pub open spec fn action_code(a: ControlAction) -> u8 {
    match a {
        ControlAction::StartRecording => 0,
        ControlAction::StopRecording => 1,
        ControlAction::PauseRecording => 2,
        ControlAction::ResumeRecording => 3,
    }
}

/// What a byte sequence parses to: a frame, a control command, or
/// nothing (malformed).
pub open spec fn parse_spec(b: Seq<u8>) -> Option<MessageModel> {
    if b.len() >= 10 && b[0] == TAG_FRAME && (b[1] == 0 || b[1] == 1) && be_val(
        b.subrange(2, 10),
    ) <= i64::MAX {
        Some(
            MessageModel::FrameMsg(
                FrameModel {
                    timestamp: be_val(b.subrange(2, 10)) as i64,
                    frame_type: if b[1] == 0 {
                        FrameType::Video
                    } else {
                        FrameType::Audio
                    },
                    data: b.subrange(10, b.len() as int),
                },
            ),
        )
    } else if b.len() == 2 && b[0] == TAG_CONTROL && b[1] <= 3 {
        Some(
            MessageModel::ControlMsg(
                if b[1] == 0 {
                    ControlAction::StartRecording
                } else if b[1] == 1 {
                    ControlAction::StopRecording
                } else if b[1] == 2 {
                    ControlAction::PauseRecording
                } else {
                    ControlAction::ResumeRecording
                },
            ),
        )
    } else {
        None
    }
}

/// The numeric values of the powers of 256 the codec needs.
proof fn lemma_pow256_values()
    ensures
        pow256(7) == 0x100000000000000,
        pow256(8) == 0x10000000000000000,
{
    assert(pow256(0) == 1);
    assert(pow256(1) == 256);
    assert(pow256(2) == 0x10000);
    assert(pow256(3) == 0x1000000);
    assert(pow256(4) == 0x100000000);
    assert(pow256(5) == 0x10000000000);
    assert(pow256(6) == 0x1000000000000);
    assert(pow256(7) == 0x100000000000000);
    assert(pow256(8) == 0x10000000000000000);
}

/// A big-endian sequence of `n` bytes denotes a value below `256^n`.
proof fn lemma_be_val_bound(s: Seq<u8>)
    ensures
        be_val(s) < pow256(s.len()),
    decreases s.len(),
{
    if s.len() > 0 {
        lemma_be_val_bound(s.drop_last());
        assert(be_val(s.drop_last()) * 256 + 255 < pow256((s.len() - 1) as nat) * 256)
            by (nonlinear_arith)
            requires
                be_val(s.drop_last()) < pow256((s.len() - 1) as nat),
        ;
        assert(pow256(s.len()) == 256 * pow256((s.len() - 1) as nat));
        assert(pow256((s.len() - 1) as nat) * 256 == 256 * pow256((s.len() - 1) as nat))
            by (nonlinear_arith);
    }
}

/// Reading back the big-endian representation gives the value (taken
/// mod `256^n`).
proof fn lemma_be_val_to_be(v: nat, n: nat)
    ensures
        be_val(to_be(v, n)) == v % pow256(n),
    decreases n,
{
    if n == 0 {
        assert(pow256(0) == 1);
        assert(v % 1 == 0) by (nonlinear_arith);
    } else {
        lemma_be_val_to_be(v / 256, (n - 1) as nat);
        let m = pow256((n - 1) as nat);
        lemma_pow256_pos((n - 1) as nat);
        assert(to_be(v, n).drop_last() =~= to_be(v / 256, (n - 1) as nat));
        assert(be_val(to_be(v, n)) == ((v / 256) % m) * 256 + v % 256);
        lemma_breakdown(v as int, 256, m as int);
        assert((v as int) % (256 * m as int) == 256 * (((v as int) / 256) % m as int) + (v as int)
            % 256);
        assert(256 * (((v as int) / 256) % m as int) == (((v as int) / 256) % m as int) * 256)
            by (nonlinear_arith);
        assert(pow256(n) == 256 * m);
    }
}

/// `pow256` is positive.
proof fn lemma_pow256_pos(n: nat)
    ensures
        pow256(n) >= 1,
    decreases n,
{
    if n > 0 {
        lemma_pow256_pos((n - 1) as nat);
    }
}

/// The big-endian representation has exactly `n` bytes.
proof fn lemma_to_be_len(v: nat, n: nat)
    ensures
        to_be(v, n).len() == n,
    decreases n,
{
    if n > 0 {
        lemma_to_be_len(v / 256, (n - 1) as nat);
    }
}

/// Each byte of the big-endian representation, by position.
proof fn lemma_to_be_index(v: nat, n: nat, j: int)
    requires
        0 <= j < n,
    ensures
        to_be(v, n)[j] == ((v / pow256((n - 1 - j) as nat)) % 256) as u8,
    decreases n,
{
    lemma_to_be_len(v / 256, (n - 1) as nat);
    if j == n - 1 {
        assert(pow256(0) == 1);
        assert(v / 1 == v) by (nonlinear_arith);
    } else {
        lemma_to_be_index(v / 256, (n - 1) as nat, j);
        assert(to_be(v, n)[j] == to_be(v / 256, (n - 1) as nat)[j]);
        let m = pow256((n - 2 - j) as nat);
        lemma_pow256_pos((n - 2 - j) as nat);
        lemma_div_denominator(v as int, 256, m as int);
        assert(pow256((n - 1 - j) as nat) == 256 * m);
    }
}

/// Parses one inbound envelope; `None` is a malformed envelope, which
/// the caller drops without failing the connection.
pub fn parse_envelope(bytes: &Vec<u8>) -> (r: Option<WebSocketMessage>)
    ensures
        match r {
            Some(m) => parse_spec(bytes@) == Some(m@),
            None => parse_spec(bytes@) is None,
        },
{
    if bytes.len() >= 10 && bytes[0] == TAG_FRAME && (bytes[1] == 0 || bytes[1] == 1) {
        let mut v: u64 = 0;
        let mut i: usize = 2;
        proof {
            assert(bytes@.subrange(2, 2) =~= Seq::<u8>::empty());
            lemma_pow256_values();
        }
        while i < 10
            invariant
                2 <= i <= 10,
                bytes@.len() >= 10,
                v == be_val(bytes@.subrange(2, i as int)),
                v < pow256((i - 2) as nat),
                pow256(7) == 0x100000000000000,
                pow256(8) == 0x10000000000000000,
            decreases 10 - i,
        {
            proof {
                lemma_pow256_mono((i - 2) as nat, 7);
                assert(bytes@.subrange(2, i + 1).drop_last() =~= bytes@.subrange(2, i as int));
                assert(bytes@.subrange(2, i + 1).last() == bytes@[i as int]);
            }
            v = v * 256 + (bytes[i] as u64);
            proof {
                assert(v < pow256((i - 1) as nat)) by {
                    lemma_be_val_bound(bytes@.subrange(2, i + 1));
                    assert(bytes@.subrange(2, i + 1).len() == i - 1);
                }
            }
            i = i + 1;
        }
        if v > i64::MAX as u64 {
            return None;
        }
        let mut data: Vec<u8> = Vec::new();
        let n = bytes.len();
        let mut j: usize = 10;
        while j < n
            invariant
                10 <= j <= n,
                n == bytes@.len(),
                data@.len() == j - 10,
                forall|k: int| 0 <= k < data@.len() ==> data@[k] == bytes@[k + 10],
            decreases n - j,
        {
            data.push(bytes[j]);
            j = j + 1;
        }
        proof {
            assert(data@ =~= bytes@.subrange(10, bytes@.len() as int));
        }
        let frame_type = if bytes[1] == 0 {
            FrameType::Video
        } else {
            FrameType::Audio
        };
        Some(WebSocketMessage::Frame(Frame { timestamp: v as i64, frame_type, data }))
    } else if bytes.len() == 2 && bytes[0] == TAG_CONTROL && bytes[1] <= 3 {
        let action = if bytes[1] == 0 {
            ControlAction::StartRecording
        } else if bytes[1] == 1 {
            ControlAction::StopRecording
        } else if bytes[1] == 2 {
            ControlAction::PauseRecording
        } else {
            ControlAction::ResumeRecording
        };
        Some(WebSocketMessage::Control(action))
    } else {
        None
    }
}

/// `pow256` grows with its exponent.
proof fn lemma_pow256_mono(a: nat, b: nat)
    requires
        a <= b,
    ensures
        pow256(a) <= pow256(b),
    decreases b,
{
    if a < b {
        lemma_pow256_mono(a, (b - 1) as nat);
        lemma_pow256_pos((b - 1) as nat);
    }
}

/// Encodes a message so that `parse_envelope` reads it back exactly.
/// Frame timestamps are non-negative (as the ingestion path requires).
pub fn encode_envelope(msg: &WebSocketMessage) -> (r: Vec<u8>)
    requires
        msg matches WebSocketMessage::Frame(f) ==> f.timestamp >= 0,
    ensures
        parse_spec(r@) == Some(msg@),
{
    match msg {
        WebSocketMessage::Frame(f) => {
            let mut out: Vec<u8> = Vec::new();
            out.push(TAG_FRAME);
            match f.frame_type {
                FrameType::Video => out.push(0),
                FrameType::Audio => out.push(1),
            }
            let v = f.timestamp as u64;
            proof {
                lemma_pow256_values();
            }
            let mut div: u64 = 0x100000000000000;
            let mut i: usize = 0;
            while i < 8
                invariant
                    i <= 8,
                    out@.len() == i + 2,
                    i < 8 ==> div == pow256((7 - i) as nat),
                    v == f.timestamp as u64,
                    f.timestamp >= 0,
                    out@[0] == TAG_FRAME,
                    out@[1] == kind_code(f.frame_type),
                    forall|k: int| 0 <= k < i ==> out@[k + 2] == to_be(v as nat, 8)[k],
                    pow256(7) == 0x100000000000000,
                    pow256(8) == 0x10000000000000000,
                decreases 8 - i,
            {
                proof {
                    lemma_to_be_len(v as nat, 8);
                    lemma_to_be_index(v as nat, 8, i as int);
                    lemma_pow256_pos((7 - i) as nat);
                }
                out.push(((v / div) % 256) as u8);
                if i < 7 {
                    div = div / 256;
                    proof {
                        lemma_pow256_div_step((6 - i) as nat);
                    }
                }
                i = i + 1;
            }
            let n = f.data.len();
            let mut j: usize = 0;
            while j < n
                invariant
                    j <= n,
                    n == f.data@.len(),
                    out@.len() == j + 10,
                    out@[0] == TAG_FRAME,
                    out@[1] == kind_code(f.frame_type),
                    forall|k: int| 0 <= k < 8 ==> out@[k + 2] == to_be(v as nat, 8)[k],
                    forall|k: int| 0 <= k < j ==> out@[k + 10] == f.data@[k],
                    v == f.timestamp as u64,
                    f.timestamp >= 0,
                decreases n - j,
            {
                out.push(f.data[j]);
                j = j + 1;
            }
            proof {
                lemma_pow256_values();
                lemma_to_be_len(v as nat, 8);
                assert(out@.subrange(2, 10) =~= to_be(v as nat, 8));
                lemma_be_val_to_be(v as nat, 8);
                lemma_small_mod(v as nat, pow256(8));
                assert(be_val(out@.subrange(2, 10)) == v as nat);
                assert(out@.subrange(10, out@.len() as int) =~= f.data@);
                assert(parse_spec(out@) == Some(msg@));
            }
            out
        },
        WebSocketMessage::Control(a) => {
            let mut out: Vec<u8> = Vec::new();
            out.push(TAG_CONTROL);
            match a {
                ControlAction::StartRecording => out.push(0),
                ControlAction::StopRecording => out.push(1),
                ControlAction::PauseRecording => out.push(2),
                ControlAction::ResumeRecording => out.push(3),
            }
            proof {
                assert(parse_spec(out@) == Some(msg@));
            }
            out
        },
    }
}

/// One step down the precomputed powers of 256.
proof fn lemma_pow256_div_step(k: nat)
    ensures
        pow256(k + 1) / 256 == pow256(k),
{
    assert(pow256(k + 1) == 256 * pow256(k));
    assert((256 * pow256(k)) / 256 == pow256(k)) by (nonlinear_arith);
}

/// A parsed frame always carries a non-negative timestamp: the wire
/// format has no room for a negative one.
pub proof fn lemma_parse_timestamp_nonneg(m: MessageModel, b: Seq<u8>)
    requires
        parse_spec(b) == Some(m),
    ensures
        match m {
            MessageModel::FrameMsg(f) => f.timestamp >= 0,
            MessageModel::ControlMsg(_) => true,
        },
{
}

} // verus!
