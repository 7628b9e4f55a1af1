use virtusdev::bill_emulator::{DeviceState, PollEvent, UNIT_TYPE_NV200};
use virtusdev::essp_protocol::{
    CMD_COIN_MECH_GLOBAL_INHIBIT, CMD_DISABLE, CMD_ENABLE, CMD_ENABLE_PAYOUT, CMD_GET_ALL_LEVELS,
    CMD_GET_LEVELS_LEGACY, CMD_GET_ROUTING, CMD_HOST_PROTOCOL, CMD_PAYOUT, CMD_POLL,
    CMD_SETUP_ENCRYPTION, CMD_SETUP_REQUEST, CMD_SET_INHIBITS, CMD_SET_ROUTE, CMD_SYNC,
    EVENT_COINS_VALUE_ADDED, EVENT_CREDIT, EVENT_DISABLED, EVENT_DISPENSED, EVENT_DISPENSING,
    EVENT_READ, EVENT_RESET, EsspPacket, RESPONSE_COMMAND_NOT_KNOWN, RESPONSE_OK,
};

#[test]
fn event_encodings() {
    assert_eq!(PollEvent::new(EVENT_RESET, 0).to_bytes(), vec![EVENT_RESET]);
    assert_eq!(PollEvent::new(EVENT_DISABLED, 0).to_bytes(), vec![EVENT_DISABLED]);
    assert_eq!(PollEvent::new(EVENT_READ, 3).to_bytes(), vec![EVENT_READ, 3]);
    assert_eq!(PollEvent::new(EVENT_CREDIT, 7).to_bytes(), vec![EVENT_CREDIT, 7]);
    // Value-carrying events: 4 little-endian value bytes then "BRL".
    assert_eq!(
        PollEvent::new(EVENT_COINS_VALUE_ADDED, 0x01020304).to_bytes(),
        vec![EVENT_COINS_VALUE_ADDED, 0x04, 0x03, 0x02, 0x01, 0x42, 0x52, 0x4C]
    );
    assert_eq!(
        PollEvent::new(EVENT_DISPENSED, 1000).to_bytes(),
        vec![EVENT_DISPENSED, 0xE8, 0x03, 0x00, 0x00, 0x42, 0x52, 0x4C]
    );
}

#[test]
fn fresh_device_queues_one_reset_event() {
    let device = DeviceState::new_note_device(0x00);
    assert_eq!(device.event_queue.len(), 1);
    assert_eq!(device.event_queue[0].event_code, EVENT_RESET);
    assert!(!device.enabled);
    assert!(!device.payout_enabled);
    assert_eq!(device.unit_type, UNIT_TYPE_NV200);
}

#[test]
fn simple_acks_change_nothing() {
    let mut device = DeviceState::new_note_device(0x00);
    for cmd in [CMD_SYNC, CMD_HOST_PROTOCOL, CMD_SET_ROUTE] {
        let (status, resp) = device.handle_command(&[cmd]);
        assert_eq!(status, RESPONSE_OK);
        assert!(resp.is_empty());
    }
    let (status, resp) = device.handle_command(&[]);
    assert_eq!(status, RESPONSE_OK);
    assert!(resp.is_empty());
    assert!(!device.enabled);
    assert_eq!(device.event_queue.len(), 1);
}

#[test]
fn enable_disable_and_inhibits() {
    let mut device = DeviceState::new_note_device(0x00);
    device.handle_command(&[CMD_ENABLE]);
    assert!(device.enabled);

    device.handle_command(&[CMD_DISABLE]);
    assert!(!device.enabled);
    let last = device.event_queue.last().unwrap();
    assert_eq!(last.event_code, EVENT_DISABLED);

    device.handle_command(&[CMD_SET_INHIBITS, 0xAB, 0xCD]);
    assert_eq!(device.inhibit_mask_low, 0xAB);
    assert_eq!(device.inhibit_mask_high, 0xCD);

    // Too few argument bytes: acknowledged, nothing stored.
    device.handle_command(&[CMD_SET_INHIBITS, 0x11]);
    assert_eq!(device.inhibit_mask_low, 0xAB);
    assert_eq!(device.inhibit_mask_high, 0xCD);

    device.handle_command(&[CMD_ENABLE_PAYOUT]);
    assert!(device.payout_enabled);

    device.handle_command(&[CMD_COIN_MECH_GLOBAL_INHIBIT, 1]);
    assert!(device.enabled);
    device.handle_command(&[CMD_COIN_MECH_GLOBAL_INHIBIT, 0]);
    assert!(!device.enabled);
}

#[test]
fn unknown_opcode_is_refused() {
    let mut device = DeviceState::new_note_device(0x00);
    let (status, resp) = device.handle_command(&[0x99]);
    assert_eq!(status, RESPONSE_COMMAND_NOT_KNOWN);
    assert!(resp.is_empty());
    // Encryption setup is always refused to force plaintext mode.
    let (status, resp) = device.handle_command(&[CMD_SETUP_ENCRYPTION, 0x01]);
    assert_eq!(status, RESPONSE_COMMAND_NOT_KNOWN);
    assert!(resp.is_empty());
}

#[test]
fn empty_poll_synthesizes_disabled_event() {
    let mut device = DeviceState::new_note_device(0x00);
    // The first poll drains the queued RESET event.
    let (status, resp) = device.handle_command(&[CMD_POLL]);
    assert_eq!(status, RESPONSE_OK);
    assert_eq!(resp, vec![1, EVENT_RESET]);
    // The queue is now empty: a poll reports exactly one DISABLED event.
    let (status, resp) = device.handle_command(&[CMD_POLL]);
    assert_eq!(status, RESPONSE_OK);
    assert_eq!(resp, vec![1, EVENT_DISABLED]);
    assert!(device.event_queue.is_empty());
}

#[test]
fn poll_caps_at_twenty_events_and_defers_the_rest() {
    let mut device = DeviceState::new_coin_device(0x10);
    device.handle_command(&[CMD_POLL]);
    device.handle_command(&[CMD_ENABLE]);
    for _ in 0..25 {
        device.insert_coins(1);
    }
    assert_eq!(device.event_queue.len(), 25);

    // Each COINS_VALUE_ADDED event encodes to 8 bytes.
    let (_, resp) = device.handle_command(&[CMD_POLL]);
    assert_eq!(resp[0], 20);
    assert_eq!(resp.len(), 1 + 20 * 8);

    let (_, resp) = device.handle_command(&[CMD_POLL]);
    assert_eq!(resp[0], 5);
    assert_eq!(resp.len(), 1 + 5 * 8);
    assert!(device.event_queue.is_empty());
}

#[test]
fn stimulus_while_disabled_changes_nothing() {
    let mut device = DeviceState::new_note_device(0x00);
    let balance_before = device.balance.clone();
    device.insert_note(1000);
    device.insert_coins(25);
    assert_eq!(device.event_queue.len(), 1); // still only the RESET event
    assert_eq!(device.balance, balance_before);
}

#[test]
fn insert_note_queues_read_and_credit_with_channel_index() {
    let mut device = DeviceState::new_note_device(0x00);
    device.handle_command(&[CMD_POLL]);
    device.handle_command(&[CMD_ENABLE]);

    device.insert_note(1000); // channel 3 of the note table
    assert_eq!(device.event_queue.len(), 2);
    assert_eq!(device.event_queue[0].event_code, EVENT_READ);
    assert_eq!(device.event_queue[0].data1, 3);
    assert_eq!(device.event_queue[1].event_code, EVENT_CREDIT);
    assert_eq!(device.event_queue[1].data1, 3);
    assert_eq!(device.balance.iter().find(|e| e.value == 1000).unwrap().count, 11);

    // A value no channel carries queues nothing and changes no balance.
    let balance_before = device.balance.clone();
    device.insert_note(999);
    assert_eq!(device.event_queue.len(), 2);
    assert_eq!(device.balance, balance_before);
}

#[test]
fn insert_coins_queues_value_event() {
    let mut device = DeviceState::new_coin_device(0x10);
    device.handle_command(&[CMD_POLL]);
    device.handle_command(&[CMD_ENABLE]);
    device.insert_coins(25);
    assert_eq!(device.event_queue.len(), 1);
    assert_eq!(device.event_queue[0].event_code, EVENT_COINS_VALUE_ADDED);
    assert_eq!(device.event_queue[0].data1, 25);
    assert_eq!(device.balance.iter().find(|e| e.value == 25).unwrap().count, 8);
}

#[test]
fn payout_decrements_highest_nonzero_denomination() {
    let mut device = DeviceState::new_note_device(0x00);
    device.handle_command(&[CMD_POLL]);
    // 1000 in minor units, little-endian, then currency and an option byte.
    let (status, resp) =
        device.handle_command(&[CMD_PAYOUT, 0xE8, 0x03, 0x00, 0x00, 0x42, 0x52, 0x4C, 0x00]);
    assert_eq!(status, RESPONSE_OK);
    assert!(resp.is_empty());
    assert_eq!(device.balance.iter().find(|e| e.value == 20000).unwrap().count, 4);
    assert_eq!(device.event_queue.len(), 2);
    assert_eq!(device.event_queue[0].event_code, EVENT_DISPENSING);
    assert_eq!(device.event_queue[0].data1, 1000);
    assert_eq!(device.event_queue[1].event_code, EVENT_DISPENSED);
    assert_eq!(device.event_queue[1].data1, 1000);
}

#[test]
fn payout_with_too_few_arguments_changes_nothing() {
    let mut device = DeviceState::new_note_device(0x00);
    let balance_before = device.balance.clone();
    let (status, resp) = device.handle_command(&[CMD_PAYOUT, 0xE8, 0x03, 0x00, 0x00]);
    assert_eq!(status, RESPONSE_OK);
    assert!(resp.is_empty());
    assert_eq!(device.balance, balance_before);
    assert_eq!(device.event_queue.len(), 1);
}

#[test]
fn levels_report_every_inventory_entry() {
    let mut device = DeviceState::new_coin_device(0x10);
    let (status, resp) = device.handle_command(&[CMD_GET_ALL_LEVELS]);
    assert_eq!(status, RESPONSE_OK);
    assert_eq!(resp[0], 6);
    assert_eq!(resp.len(), 1 + 6 * 9);
    // First entry: count 15 (2 LE bytes), value 1 (4 LE bytes), "USD".
    assert_eq!(&resp[1..10], &[15, 0, 1, 0, 0, 0, 0x55, 0x53, 0x44]);
    // The two legacy aliases answer with the same block.
    let (_, alias1) = device.handle_command(&[CMD_GET_ROUTING]);
    let (_, alias2) = device.handle_command(&[CMD_GET_LEVELS_LEGACY]);
    assert_eq!(alias1, resp);
    assert_eq!(alias2, resp);
}

#[test]
fn setup_request_round_trip_describes_every_channel() {
    // Encode a SETUP_REQUEST with sequence 1, decode it as the device would,
    // dispatch it, and check the setup block against the channel table.
    let packet = EsspPacket::new(1, vec![CMD_SETUP_REQUEST]);
    let bytes = packet.to_bytes();
    let (decoded, consumed) = EsspPacket::from_bytes(&bytes).unwrap();
    assert_eq!(consumed, bytes.len());
    assert_eq!(decoded.sequence, 1);

    let mut device = DeviceState::new_note_device(0x00);
    let (status, resp) = device.handle_command(&decoded.data);
    assert_eq!(status, RESPONSE_OK);

    assert_eq!(resp[0], UNIT_TYPE_NV200);
    assert_eq!(&resp[1..5], b"1.00");
    assert_eq!(&resp[5..8], b"BRL");
    assert_eq!(&resp[8..11], &[0, 0, 0]);
    assert_eq!(resp[11], 7); // channel count
    assert_eq!(&resp[12..19], &[2, 5, 10, 20, 50, 100, 200]); // legacy values
    assert_eq!(&resp[19..26], &[2; 7]); // legacy security levels
    assert_eq!(&resp[26..29], &[100, 0, 0]); // real multiplier
    assert_eq!(resp[29], 0x06); // protocol version

    let values: [u32; 7] = [200, 500, 1000, 2000, 5000, 10000, 20000];
    for (k, v) in values.iter().enumerate() {
        let off = 30 + k * 9;
        assert_eq!(&resp[off..off + 3], b"BRL");
        assert_eq!(resp[off + 3], 0);
        let got = u32::from_le_bytes([
            resp[off + 4],
            resp[off + 5],
            resp[off + 6],
            resp[off + 7],
        ]);
        assert_eq!(got, *v);
        assert_eq!(resp[off + 8], 2);
    }
    assert_eq!(resp.len(), 30 + 7 * 9);
}

#[test]
fn stimulus_between_polls_loses_no_event() {
    let mut device = DeviceState::new_coin_device(0x10);
    device.handle_command(&[CMD_POLL]);
    device.handle_command(&[CMD_ENABLE]);
    device.insert_coins(5);
    device.insert_coins(10);
    let (_, first) = device.handle_command(&[CMD_POLL]);
    assert_eq!(first[0], 2);
    assert_eq!(first[1], EVENT_COINS_VALUE_ADDED);
    assert_eq!(first[2], 5);
    assert_eq!(first[9], EVENT_COINS_VALUE_ADDED);
    assert_eq!(first[10], 10);
    // An insertion after that poll is delivered, exactly once, by the next.
    device.insert_coins(25);
    let (_, second) = device.handle_command(&[CMD_POLL]);
    assert_eq!(second[0], 1);
    assert_eq!(second[2], 25);
    let (_, third) = device.handle_command(&[CMD_POLL]);
    assert_eq!(third, vec![1, EVENT_DISABLED]);
}
