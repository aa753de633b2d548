//! Tests of the per-connection packet engine: framing decisions, clean and
//! unclean termination, and the end-to-end request/reply exchange.

use bananas_server::engine::{
    engine_init, engine_step, server_info_reply, EngineAction, EngineEvent, EngineState,
};
use bananas_server::protocol::{to_bytes, ContentType};

#[test]
fn init_asks_for_length_bytes() {
    let (state, action) = engine_init();
    assert_eq!(state, EngineState::AwaitLength);
    assert_eq!(action, EngineAction::ReadExact { count: 2 });
}

#[test]
fn immediate_eof_closes_cleanly_without_reply() {
    let (state, action) = engine_step(
        EngineState::AwaitLength,
        EngineEvent::ReadDone { bytes: vec![] },
    );
    assert_eq!(state, EngineState::Closed { clean: true });
    assert_eq!(action, EngineAction::Stop);
}

#[test]
fn short_length_read_is_a_framing_violation() {
    let (state, action) = engine_step(
        EngineState::AwaitLength,
        EngineEvent::ReadDone { bytes: vec![0x10] },
    );
    assert_eq!(state, EngineState::Closed { clean: false });
    assert_eq!(action, EngineAction::Stop);
}

#[test]
fn impossible_length_closes_with_error() {
    for len in [0u16, 1u16] {
        let bytes = vec![len as u8, (len >> 8) as u8];
        let (state, _) = engine_step(EngineState::AwaitLength, EngineEvent::ReadDone { bytes });
        assert_eq!(state, EngineState::Closed { clean: false });
    }
}

#[test]
fn declared_length_counts_its_own_bytes() {
    let (state, action) = engine_step(
        EngineState::AwaitLength,
        EngineEvent::ReadDone { bytes: vec![0x11, 0x00] },
    );
    assert_eq!(state, EngineState::AwaitBody { expected: 0x0F });
    assert_eq!(action, EngineAction::ReadExact { count: 0x0F });
}

#[test]
fn empty_body_cannot_decode() {
    // A declared total length of exactly 2 leaves a zero-byte body, whose
    // decode lacks even a tag byte.
    let (state, action) = engine_step(
        EngineState::AwaitLength,
        EngineEvent::ReadDone { bytes: vec![0x02, 0x00] },
    );
    assert_eq!(state, EngineState::AwaitBody { expected: 0 });
    assert_eq!(action, EngineAction::ReadExact { count: 0 });
    let (state, _) = engine_step(state, EngineEvent::ReadDone { bytes: vec![] });
    assert_eq!(state, EngineState::Closed { clean: false });
}

#[test]
fn read_failure_closes_with_error() {
    let (state, action) = engine_step(EngineState::AwaitLength, EngineEvent::ReadFailed);
    assert_eq!(state, EngineState::Closed { clean: false });
    assert_eq!(action, EngineAction::Stop);
    let (state, _) = engine_step(EngineState::AwaitBody { expected: 4 }, EngineEvent::ReadFailed);
    assert_eq!(state, EngineState::Closed { clean: false });
}

#[test]
fn short_body_read_closes_with_error() {
    let (state, _) = engine_step(
        EngineState::AwaitBody { expected: 4 },
        EngineEvent::ReadDone { bytes: vec![1, 2] },
    );
    assert_eq!(state, EngineState::Closed { clean: false });
}

#[test]
fn undecodable_body_closes_with_error() {
    let (state, action) = engine_step(
        EngineState::AwaitBody { expected: 2 },
        EngineEvent::ReadDone { bytes: vec![0x07, 0x00] },
    );
    assert_eq!(state, EngineState::Closed { clean: false });
    assert_eq!(action, EngineAction::Stop);
}

#[test]
fn info_list_request_gets_server_info_reply() {
    // The exchange: a frame of total length 0x11 carrying a
    // ClientInfoList for base graphics, version sentinel set, one branch
    // "trunk" at version "1".
    let (state, action) = engine_step(
        EngineState::AwaitLength,
        EngineEvent::ReadDone { bytes: vec![0x11, 0x00] },
    );
    assert_eq!(state, EngineState::AwaitBody { expected: 0x0F });
    assert_eq!(action, EngineAction::ReadExact { count: 0x0F });

    let mut body = vec![0x00, 0x01, 0xFF, 0xFF, 0xFF, 0xFF, 0x01];
    body.extend_from_slice(b"trunk\0");
    body.extend_from_slice(b"1\0");
    let (state, action) = engine_step(state, EngineEvent::ReadDone { bytes: body });

    let mut expected = vec![0x41, 0x00, 0x04, 0x01];
    expected.extend_from_slice(&[0x00, 0x00, 0x00, 0x00]);
    expected.extend_from_slice(&[0x01, 0x00, 0x00, 0x00]);
    expected.extend_from_slice(b"test\0");
    expected.extend_from_slice(b"1.0\0");
    expected.extend_from_slice(b"\0");
    expected.extend_from_slice(b"description\0");
    expected.extend_from_slice(&[0x7B, 0x00, 0x00, 0x00]);
    expected.extend_from_slice(&[0x00; 16]);
    expected.push(0x00);
    expected.push(0x02);
    expected.extend_from_slice(b"test\0");
    expected.extend_from_slice(b"bla\0");

    assert_eq!(state, EngineState::Responding { pending: expected.len() });
    assert_eq!(action, EngineAction::WriteAll { bytes: expected.clone() });

    let (state, action) = engine_step(
        state,
        EngineEvent::WriteDone { count: expected.len() },
    );
    assert_eq!(state, EngineState::AwaitLength);
    assert_eq!(action, EngineAction::ReadExact { count: 2 });
}

#[test]
fn non_reply_packet_is_accepted_silently() {
    let body = vec![0x01, 0x01, 0x00, 0x0A, 0x00, 0x00, 0x00];
    let (state, action) = engine_step(
        EngineState::AwaitBody { expected: body.len() as u16 },
        EngineEvent::ReadDone { bytes: body },
    );
    assert_eq!(state, EngineState::AwaitLength);
    assert_eq!(action, EngineAction::ReadExact { count: 2 });
}

#[test]
fn short_write_closes_with_error() {
    let (state, action) = engine_step(
        EngineState::Responding { pending: 10 },
        EngineEvent::WriteDone { count: 5 },
    );
    assert_eq!(state, EngineState::Closed { clean: false });
    assert_eq!(action, EngineAction::Stop);
}

#[test]
fn write_failure_closes_with_error() {
    let (state, _) = engine_step(EngineState::Responding { pending: 3 }, EngineEvent::WriteFailed);
    assert_eq!(state, EngineState::Closed { clean: false });
}

#[test]
fn closed_state_is_terminal() {
    let (state, action) = engine_step(
        EngineState::Closed { clean: true },
        EngineEvent::ReadDone { bytes: vec![1, 2] },
    );
    assert_eq!(state, EngineState::Closed { clean: true });
    assert_eq!(action, EngineAction::Stop);
}

#[test]
fn reply_matches_frame_encoder() {
    let reply = server_info_reply(ContentType::NewGRF);
    let frame = to_bytes(&reply).unwrap();
    assert_eq!(frame[2], 0x04);
    assert_eq!(frame[3], 0x02);
    assert_eq!(frame.len(), 0x41);
}
