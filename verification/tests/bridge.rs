use virtusdev::bill_emulator::DeviceState;
use virtusdev::essp_protocol::{CMD_ENABLE, CMD_SYNC, EsspPacket, RESPONSE_OK};
use virtusdev::serial_bridge::{bridge_step, BridgeAction};

#[test]
fn bridge_waits_on_a_short_buffer() {
    let mut device = DeviceState::new_note_device(0x00);
    let action = bridge_step(&mut device, &[0x7F, 0x01]);
    assert!(matches!(action, BridgeAction::Wait));
}

#[test]
fn bridge_waits_on_an_incomplete_frame() {
    let mut device = DeviceState::new_note_device(0x00);
    let mut bytes = EsspPacket::new(2, vec![CMD_SYNC, 0x00]).to_bytes();
    bytes.pop();
    let action = bridge_step(&mut device, &bytes);
    assert!(matches!(action, BridgeAction::Wait));
}

#[test]
fn bridge_dispatches_and_frames_the_response() {
    let mut device = DeviceState::new_note_device(0x00);
    let request = EsspPacket::new(3, vec![CMD_SYNC]).to_bytes();
    match bridge_step(&mut device, &request) {
        BridgeAction::Advance { consumed, response } => {
            assert_eq!(consumed, request.len());
            let response_bytes = response.expect("a SYNC deserves a reply");
            let (reply, used) = EsspPacket::from_bytes(&response_bytes).unwrap();
            assert_eq!(used, response_bytes.len());
            assert_eq!(reply.sequence, 3);
            assert_eq!(reply.data, vec![RESPONSE_OK]);
        }
        BridgeAction::Wait => panic!("expected a dispatch"),
    }
}

#[test]
fn bridge_mutates_the_device_under_dispatch() {
    let mut device = DeviceState::new_note_device(0x00);
    let request = EsspPacket::new(4, vec![CMD_ENABLE]).to_bytes();
    let action = bridge_step(&mut device, &request);
    assert!(matches!(action, BridgeAction::Advance { .. }));
    assert!(device.enabled);
}

#[test]
fn bridge_resynchronises_after_garbage() {
    let mut device = DeviceState::new_note_device(0x00);
    let mut buffer = vec![0x01, 0x02, 0x03];
    let request = EsspPacket::new(1, vec![CMD_SYNC]).to_bytes();
    buffer.extend_from_slice(&request);

    // The garbage prefix is a framing error: exactly the three bytes before
    // the next start marker are discarded, without a response.
    match bridge_step(&mut device, &buffer) {
        BridgeAction::Advance { consumed, response } => {
            assert_eq!(consumed, 3);
            assert!(response.is_none());
        }
        BridgeAction::Wait => panic!("expected a resynchronisation"),
    }

    // After the discard the frame at the front parses and is answered.
    match bridge_step(&mut device, &buffer[3..]) {
        BridgeAction::Advance { consumed, response } => {
            assert_eq!(consumed, request.len());
            assert!(response.is_some());
        }
        BridgeAction::Wait => panic!("expected a dispatch"),
    }
}

#[test]
fn bridge_discards_a_corrupted_frame() {
    let mut device = DeviceState::new_note_device(0x00);
    let mut bytes = EsspPacket::new(1, vec![CMD_SYNC]).to_bytes();
    bytes[4] ^= 0x40; // corrupt the payload: CRC mismatch
    match bridge_step(&mut device, &bytes) {
        BridgeAction::Advance { consumed, response } => {
            assert!(consumed >= 1);
            assert!(response.is_none());
        }
        BridgeAction::Wait => panic!("expected a resynchronisation"),
    }
}

#[test]
fn bridge_consumes_an_empty_payload_without_answering() {
    let mut device = DeviceState::new_note_device(0x00);
    let request = EsspPacket::new(5, vec![]).to_bytes();
    match bridge_step(&mut device, &request) {
        BridgeAction::Advance { consumed, response } => {
            assert_eq!(consumed, request.len());
            assert!(response.is_none());
        }
        BridgeAction::Wait => panic!("expected the frame to be consumed"),
    }
}
