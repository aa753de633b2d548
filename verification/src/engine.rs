//! The per-connection packet engine.
//!
//! The engine is the decision half of a connection: a state machine that is
//! fed I/O completion events by the host and answers with the next I/O
//! action.  The host performs the blocking reads and writes; every framing,
//! decoding, validation and dispatch decision is made here, in verified
//! code, by `engine_step`.
//!
//! One frame is handled per round: read exactly two length bytes, read the
//! declared remainder, decode and validate it, and either answer a
//! `ClientInfoList` with the static `ServerInfo` reply or silently accept
//! the packet.  End-of-stream before the length bytes is the one clean way
//! for a connection to end; every framing or decode failure closes the
//! connection with an error, since a malformed frame leaves no safe point
//! to resynchronize.

use vstd::prelude::*;

use crate::protocol::{
    enc_server_frame, server_info_encodable, sread_packet, to_bytes, ClientPacket, ClientPacketV,
    ContentType, ServerInfo, ServerInfoV,
};
use crate::protocol::read_packet;
use crate::wire::u16_from_le;

verus! {

// ------------------------------------------------------------------
// States, events and actions
// ------------------------------------------------------------------

/// Where a connection stands between two host events.
#[derive(Debug, PartialEq, Eq)]
pub enum EngineState {
    /// Waiting for the two little-endian length bytes of the next frame.
    AwaitLength,
    /// Waiting for the body of a frame whose length declared `expected`
    /// remaining bytes.
    AwaitBody { expected: u16 },
    /// Waiting for the host to finish writing a reply of `pending` bytes.
    Responding { pending: usize },
    /// The connection is finished; `clean` tells whether it ended on a
    /// peer end-of-stream or on an error.
    Closed { clean: bool },
}

/// What the host reports back after performing an action.
#[derive(Debug, PartialEq, Eq)]
pub enum EngineEvent {
    /// A read finished; `bytes` holds what arrived, which is fewer bytes
    /// than requested only when the stream ended first.
    ReadDone { bytes: Vec<u8> },
    /// A read failed with a transport error.
    ReadFailed,
    /// A write finished, having accepted `count` bytes.
    WriteDone { count: usize },
    /// A write failed with a transport error.
    WriteFailed,
}

/// What the engine asks the host to do next.
#[derive(Debug, PartialEq, Eq)]
pub enum EngineAction {
    /// Read exactly `count` bytes, blocking until they arrive or the
    /// stream ends.
    ReadExact { count: u16 },
    /// Write all of `bytes` to the peer.
    WriteAll { bytes: Vec<u8> },
    /// Tear the connection down.
    Stop,
}

pub enum StateV {
    AwaitLength,
    AwaitBody { expected: u16 },
    Responding { pending: int },
    Closed { clean: bool },
}

pub enum EventV {
    ReadDone { bytes: Seq<u8> },
    ReadFailed,
    WriteDone { count: int },
    WriteFailed,
}

pub enum ActionV {
    ReadExact { count: u16 },
    WriteAll { bytes: Seq<u8> },
    Stop,
}

impl View for EngineState {
    type V = StateV;

    open spec fn view(&self) -> StateV {
        match self {
            EngineState::AwaitLength => StateV::AwaitLength,
            EngineState::AwaitBody { expected } => (StateV::AwaitBody { expected: *expected }),
            EngineState::Responding { pending } => (StateV::Responding {
                pending: *pending as int,
            }),
            EngineState::Closed { clean } => (StateV::Closed { clean: *clean }),
        }
    }
}

impl View for EngineEvent {
    type V = EventV;

    open spec fn view(&self) -> EventV {
        match self {
            EngineEvent::ReadDone { bytes } => (EventV::ReadDone { bytes: bytes@ }),
            EngineEvent::ReadFailed => EventV::ReadFailed,
            EngineEvent::WriteDone { count } => (EventV::WriteDone { count: *count as int }),
            EngineEvent::WriteFailed => EventV::WriteFailed,
        }
    }
}

impl View for EngineAction {
    type V = ActionV;

    open spec fn view(&self) -> ActionV {
        match self {
            EngineAction::ReadExact { count } => (ActionV::ReadExact { count: *count }),
            EngineAction::WriteAll { bytes } => (ActionV::WriteAll { bytes: bytes@ }),
            EngineAction::Stop => ActionV::Stop,
        }
    }
}

// ------------------------------------------------------------------
// The static reply
// ------------------------------------------------------------------

/// The `ServerInfo` sent in answer to a `ClientInfoList`, populated from
/// static and derived fields; only the content type is taken from the
/// request.
pub open spec fn reply_view(ct: ContentType) -> ServerInfoV {
    ServerInfoV {
        content_type: ct,
        content_id: 0,
        filesize: 1,
        name: "test"@,
        version: "1.0"@,
        url: ""@,
        description: "description"@,
        unique_id: 123,
        md5: Seq::new(16, |i: int| 0u8),
        dependencies: Seq::empty(),
        tags: seq!["test"@, "bla"@],
    }
}

/// Builds the static reply for a request that asked about `ct`.
pub fn server_info_reply(ct: ContentType) -> (r: ServerInfo)
    ensures
        r.deep_view() == reply_view(ct),
        r.md5@.len() == 16,
{
    let mut md5: Vec<u8> = Vec::new();
    let mut i: usize = 0;
    while i < 16
        invariant
            i <= 16,
            md5@.len() == i as nat,
            forall|j: int| 0 <= j < i ==> md5@[j] == 0u8,
        decreases 16 - i,
    {
        md5.push(0);
        i = i + 1;
    }
    let mut tags: Vec<String> = Vec::new();
    tags.push("test".to_owned());
    tags.push("bla".to_owned());
    let r = ServerInfo {
        content_type: ct,
        content_id: 0,
        filesize: 1,
        name: "test".to_owned(),
        version: "1.0".to_owned(),
        url: "".to_owned(),
        description: "description".to_owned(),
        unique_id: 123,
        md5,
        dependencies: Vec::new(),
        tags,
    };
    proof {
        assert(r.md5@ =~= Seq::new(16, |i: int| 0u8));
        assert(r.tags.deep_view() =~= seq!["test"@, "bla"@]);
        assert(r.dependencies@ =~= Seq::<u32>::empty());
    }
    r
}

// ------------------------------------------------------------------
// The transition function
// ------------------------------------------------------------------

/// The engine's transition relation, one host event at a time.
pub open spec fn spec_step(s: StateV, e: EventV) -> (StateV, ActionV) {
    match s {
        StateV::AwaitLength => match e {
            EventV::ReadDone { bytes } => {
                if bytes.len() == 0 {
                    (StateV::Closed { clean: true }, ActionV::Stop)
                } else if bytes.len() != 2 {
                    (StateV::Closed { clean: false }, ActionV::Stop)
                } else {
                    let total = u16_from_le(bytes[0], bytes[1]);
                    if total < 2 {
                        (StateV::Closed { clean: false }, ActionV::Stop)
                    } else {
                        (
                            StateV::AwaitBody { expected: (total - 2) as u16 },
                            ActionV::ReadExact { count: (total - 2) as u16 },
                        )
                    }
                }
            },
            _ => (StateV::Closed { clean: false }, ActionV::Stop),
        },
        StateV::AwaitBody { expected } => match e {
            EventV::ReadDone { bytes } => {
                if bytes.len() != expected as nat {
                    (StateV::Closed { clean: false }, ActionV::Stop)
                } else {
                    match sread_packet(bytes) {
                        Err(_) => (StateV::Closed { clean: false }, ActionV::Stop),
                        Ok(p) => match p {
                            ClientPacketV::ClientInfoList { content_type, .. } => {
                                if server_info_encodable(reply_view(content_type)) {
                                    let frame = enc_server_frame(reply_view(content_type));
                                    (
                                        StateV::Responding { pending: frame.len() as int },
                                        ActionV::WriteAll { bytes: frame },
                                    )
                                } else {
                                    (StateV::Closed { clean: false }, ActionV::Stop)
                                }
                            },
                            _ => (StateV::AwaitLength, ActionV::ReadExact { count: 2 }),
                        },
                    }
                }
            },
            _ => (StateV::Closed { clean: false }, ActionV::Stop),
        },
        StateV::Responding { pending } => match e {
            EventV::WriteDone { count } => {
                if count == pending {
                    (StateV::AwaitLength, ActionV::ReadExact { count: 2 })
                } else {
                    (StateV::Closed { clean: false }, ActionV::Stop)
                }
            },
            _ => (StateV::Closed { clean: false }, ActionV::Stop),
        },
        StateV::Closed { clean } => (StateV::Closed { clean }, ActionV::Stop),
    }
}

/// The state and first action of a freshly accepted connection: wait for
/// the two length bytes of the first frame.
pub fn engine_init() -> (r: (EngineState, EngineAction))
    ensures
        r.0@ == StateV::AwaitLength,
        r.1@ == (ActionV::ReadExact { count: 2u16 }),
{
    (EngineState::AwaitLength, EngineAction::ReadExact { count: 2 })
}

/// Advances the connection by one host event and decides the next action.
pub fn engine_step(state: EngineState, event: EngineEvent) -> (r: (EngineState, EngineAction))
    ensures
        (r.0@, r.1@) == spec_step(state@, event@),
{
    match state {
        EngineState::AwaitLength => match event {
            EngineEvent::ReadDone { bytes } => {
                if bytes.len() == 0 {
                    (EngineState::Closed { clean: true }, EngineAction::Stop)
                } else if bytes.len() != 2 {
                    (EngineState::Closed { clean: false }, EngineAction::Stop)
                } else {
                    let total: u16 = bytes[0] as u16 + bytes[1] as u16 * 256;
                    if total < 2 {
                        (EngineState::Closed { clean: false }, EngineAction::Stop)
                    } else {
                        (
                            EngineState::AwaitBody { expected: total - 2 },
                            EngineAction::ReadExact { count: total - 2 },
                        )
                    }
                }
            },
            _ => (EngineState::Closed { clean: false }, EngineAction::Stop),
        },
        EngineState::AwaitBody { expected } => match event {
            EngineEvent::ReadDone { bytes } => {
                if bytes.len() != expected as usize {
                    (EngineState::Closed { clean: false }, EngineAction::Stop)
                } else {
                    match read_packet(bytes.as_slice()) {
                        Err(_) => (EngineState::Closed { clean: false }, EngineAction::Stop),
                        Ok(p) => match p {
                            ClientPacket::ClientInfoList { content_type, .. } => {
                                let reply = server_info_reply(content_type);
                                match to_bytes(&reply) {
                                    Ok(frame) => {
                                        let pending = frame.len();
                                        (
                                            EngineState::Responding { pending },
                                            EngineAction::WriteAll { bytes: frame },
                                        )
                                    },
                                    Err(_) => (
                                        EngineState::Closed { clean: false },
                                        EngineAction::Stop,
                                    ),
                                }
                            },
                            _ => (
                                EngineState::AwaitLength,
                                EngineAction::ReadExact { count: 2 },
                            ),
                        },
                    }
                }
            },
            _ => (EngineState::Closed { clean: false }, EngineAction::Stop),
        },
        EngineState::Responding { pending } => match event {
            EngineEvent::WriteDone { count } => {
                if count == pending {
                    (EngineState::AwaitLength, EngineAction::ReadExact { count: 2 })
                } else {
                    (EngineState::Closed { clean: false }, EngineAction::Stop)
                }
            },
            _ => (EngineState::Closed { clean: false }, EngineAction::Stop),
        },
        EngineState::Closed { clean } => (EngineState::Closed { clean }, EngineAction::Stop),
    }
}

/// A connection whose peer closes the stream before sending any length
/// byte terminates cleanly, and the engine issues no write for it.
pub proof fn lemma_eof_before_length_closes_clean()
    ensures
        spec_step(StateV::AwaitLength, EventV::ReadDone { bytes: Seq::empty() }) == (
        (StateV::Closed { clean: true }, ActionV::Stop)),
{
}

} // verus!
