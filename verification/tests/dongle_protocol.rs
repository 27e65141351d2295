use hk_operator::dongle::{
    check_write_reply, has_record_line, parse_info_reply, parse_poll_reply, parse_slots_reply,
    parse_status_reply, require_pair_ready, response_complete, slots_write_command, status_bool,
    status_value, validate_bank, validate_version_response, DongleError, StatusBits,
    EXPECTED_PAD_INFO, SLOTS_B64_BYTES, EXPECTED_DONGLE_VERSION, internal_version_check,
    restore_page_check, restored_bank_check, sweep_outcome, sweep_page_check,
};
use hk_operator::slots::{HotkeySlot, PadSlots, PadStatus, BANK_COUNT, MODE_HID, SLOT_COUNT};
use hk_operator::text::parse_u8;

fn ready_status() -> PadStatus {
    PadStatus {
        address: "via-s3-dongle".into(),
        name: Some("Cyberpad Val C6".into()),
        connected: true,
        paired: true,
        info: Some(EXPECTED_PAD_INFO.into()),
        transport: Some("dongle".into()),
        bluez_blocked: None,
        protocol_compatible: Some(true),
        slots_ready: Some(true),
        macro_ready: Some(true),
        selected_bank: Some(4),
    }
}

fn proto(e: DongleError) -> String {
    match e {
        DongleError::Proto(m) => m,
        other => panic!("not a protocol error: {other:?}"),
    }
}

#[test]
fn parses_exact_v03_status_tokens() {
    let status = StatusBits::parse(
        "state=CONNECTED ble_connected=1 have_peer=1 slots_ready=1 macro_ready=1 bank=4 protocol=v0.3",
    )
    .unwrap();
    assert!(status.ble_connected);
    assert!(status.slots_ready);
    assert!(status.macro_ready);
    assert!(status.protocol_v03);
    assert_eq!(status.selected_bank, 4);
}

#[test]
fn legacy_status_remains_visible_as_incompatible() {
    let status =
        StatusBits::parse("state=CONNECTED ble_connected=1 have_peer=1 slots_ready=1").unwrap();
    assert!(status.ble_connected);
    assert!(!status.protocol_v03);
    assert!(!status.macro_ready);
    assert_eq!(status.selected_bank, 0);
}

#[test]
fn status_parser_rejects_substring_boolean_values() {
    assert!(StatusBits::parse("ble_connected=10 protocol=v0.2").is_err());
}

#[test]
fn macro_response_requires_bank_and_terminal_line() {
    assert!(!response_complete("macro next", b"BANK 2\n"));
    assert!(!response_complete("macro next", b"BANK 2\nNON"));
    assert!(response_complete("macro next", b"BANK 2\nNONE\n"));
    assert!(response_complete("macro next", b"BANK 2\nMACRO 2 1 0\n"));
}

#[test]
fn async_chatter_alone_is_not_a_record() {
    assert!(!has_record_line(b""));
    assert!(!has_record_line(b"[bank] selected 2\n"));
    assert!(!has_record_line(b"[bank] selected 2\n[ble] HEARTBEAT seq=9\n"));
    assert!(!has_record_line(b"SLOTS 3 unterminated-fragment"));
    assert!(has_record_line(b"[bank] selected 2\nERR slots not ready\n"));
    assert!(has_record_line(b"OK bank=3 verified\n"));
}

#[test]
fn fragmented_terminal_lines_are_not_complete() {
    let partial_slots = format!("SLOTS 2 {}", "A".repeat(240));
    assert!(!response_complete("slots read 2", partial_slots.as_bytes()));
    let full_slots = format!("SLOTS 2 {}==\n", "A".repeat(SLOTS_B64_BYTES - 2));
    assert!(response_complete("slots read 2", full_slots.as_bytes()));
    assert!(!response_complete("slots read 3", full_slots.as_bytes()));
    assert!(!response_complete("status", b"ble_connected=1"));
    assert!(response_complete("status", b"ble_connected=1\n"));
    assert!(!response_complete("pad info", b"ERR unavailable"));
    assert!(response_complete("pad info", b"ERR unavailable\n"));
    assert!(!response_complete(
        "version",
        b"s3-dongle-validation 0.5.3 protocol-v0.3"
    ));
    assert!(response_complete(
        "version",
        b"s3-dongle-validation 0.5.3 protocol-v0.3\n"
    ));
    assert!(response_complete(
        "version",
        b"s3-dongle-validation 0.4.4 protocol-v0.2\n"
    ));
}

#[test]
fn exact_release_version_is_required() {
    validate_version_response("s3-dongle-validation 0.5.3 protocol-v0.3\r\n").unwrap();
    validate_version_response("[ble] diagnostic\ns3-dongle-validation 0.5.3 protocol-v0.3\n")
        .unwrap();

    for response in [
        "s3-dongle-validation 0.4.4 protocol-v0.2\n",
        "s3-dongle-validation 0.5.0 protocol-v0.3\n",
        "s3-dongle-validation 0.5.3 protocol-v0.3-extra\n",
        "prefix s3-dongle-validation 0.5.3 protocol-v0.3\n",
        "unrelated diagnostics\n",
    ] {
        assert!(
            validate_version_response(response).is_err(),
            "accepted {response:?}"
        );
    }
}

#[test]
fn pair_gate_requires_every_runtime_signal() {
    assert_eq!(require_pair_ready(&ready_status(), "test").unwrap(), 4);

    let mut status = ready_status();
    status.connected = false;
    assert!(require_pair_ready(&status, "test").is_err());

    let mut status = ready_status();
    status.protocol_compatible = None;
    assert!(require_pair_ready(&status, "test").is_err());

    let mut status = ready_status();
    status.info = Some("Cyberdeck Pad Hybrid v0.2.0".into());
    assert!(require_pair_ready(&status, "test").is_err());

    let mut status = ready_status();
    status.slots_ready = Some(false);
    assert!(require_pair_ready(&status, "test").is_err());

    let mut status = ready_status();
    status.macro_ready = Some(false);
    assert!(require_pair_ready(&status, "test").is_err());

    let mut status = ready_status();
    status.selected_bank = Some(BANK_COUNT as u8);
    assert!(require_pair_ready(&status, "test").is_err());
}

#[test]
fn pair_gate_messages_name_the_failed_signal() {
    let mut status = ready_status();
    status.connected = false;
    assert_eq!(
        require_pair_ready(&status, "initial status").unwrap_err(),
        "initial status: S3 is not connected to the C6"
    );
    let mut status = ready_status();
    status.info = Some("Cyberdeck Pad Hybrid v0.2.0".into());
    assert_eq!(
        require_pair_ready(&status, "p").unwrap_err(),
        "p: pad info mismatch: got Some(\"Cyberdeck Pad Hybrid v0.2.0\"), expected \"Cyberdeck Pad Hybrid v0.3.1\""
    );
    let mut status = ready_status();
    status.slots_ready = Some(false);
    assert_eq!(
        require_pair_ready(&status, "p").unwrap_err(),
        "p: slots subscription is not ready: Some(false)"
    );
}

#[test]
fn version_errors_quote_what_was_seen() {
    let err = proto(validate_version_response("s3-dongle-validation 0.4.4 protocol-v0.2\n").unwrap_err());
    assert_eq!(
        err,
        "unsupported dongle version \"s3-dongle-validation 0.4.4 protocol-v0.2\"; expected \"s3-dongle-validation 0.5.3 protocol-v0.3\""
    );
    let err = proto(validate_version_response("x\n").unwrap_err());
    assert_eq!(
        err,
        "missing dongle version record; expected \"s3-dongle-validation 0.5.3 protocol-v0.3\" in: x\n"
    );
}

#[test]
fn status_values_and_flags() {
    assert_eq!(status_value("a=1 ble_connected=1 bank=3", "bank").as_deref(), Some("3"));
    assert_eq!(status_value("bankx=1 bank=2", "bank").as_deref(), Some("2"));
    assert_eq!(status_value("ble_connected=1", "bank"), None);
    assert_eq!(status_bool("ble_connected=0", "ble_connected"), Some(false));
    assert_eq!(status_bool("ble_connected=yes", "ble_connected"), None);
    let err = proto(StatusBits::parse("ble_connected=1 protocol=v0.3 bank=5 slots_ready=1 macro_ready=1").unwrap_err());
    assert_eq!(err, "invalid/missing bank in status: ble_connected=1 protocol=v0.3 bank=5 slots_ready=1 macro_ready=1");
    let st = parse_status_reply("[x] noise\nstate=OK ble_connected=0\n").unwrap();
    assert!(!st.ble_connected);
    assert_eq!(proto(parse_status_reply("nothing\n").unwrap_err()), "no status line in: nothing\n");
}

#[test]
fn bank_validation_message() {
    assert!(validate_bank(4).is_ok());
    assert_eq!(proto(validate_bank(5).unwrap_err()), "bank 5 outside 0..4");
}

#[test]
fn poll_reply_reads_bank_and_event() {
    let p = parse_poll_reply("BANK 2\nMACRO 2 1 0\n").unwrap();
    assert_eq!(p.selected_bank, 2);
    let ev = p.macro_event.unwrap();
    assert_eq!((ev.bank, ev.preset, ev.action), (2, 1, 0));
    let p = parse_poll_reply("[ble] x\nBANK 1\nNONE\n").unwrap();
    assert_eq!(p.selected_bank, 1);
    assert!(p.macro_event.is_none());
    assert_eq!(proto(parse_poll_reply("BANK 9\nNONE\n").unwrap_err()), "no valid BANK line in: BANK 9\nNONE\n");
    assert_eq!(proto(parse_poll_reply("BANK 0\nMACRO 1 2\n").unwrap_err()), "bad macro event: MACRO 1 2");
    assert_eq!(proto(parse_poll_reply("BANK 0\nMACRO 1 7 0\n").unwrap_err()), "invalid macro event: MACRO 1 7 0");
    assert_eq!(
        proto(parse_poll_reply("BANK 0\nMACRO 1 x 0\n").unwrap_err()),
        "bad macro event: invalid digit found in string"
    );
    assert_eq!(proto(parse_poll_reply("BANK 0\n").unwrap_err()), "no macro response in: BANK 0\n");
}

#[test]
fn slots_page_roundtrips_through_the_line_protocol() {
    let page = PadSlots {
        slots: (0..SLOT_COUNT)
            .map(|i| HotkeySlot { mode: MODE_HID, modifier: 0, key: i as u8, label: format!("k{i}") })
            .collect(),
    };
    let cmd = slots_write_command(2, &page).unwrap();
    assert!(cmd.starts_with("slots write 2 "));
    let b64 = &cmd["slots write 2 ".len()..];
    assert_eq!(b64.len(), SLOTS_B64_BYTES);
    assert!(b64.ends_with("=="));
    let reply = format!("[bank] selected 2\nSLOTS 2 {b64}\n");
    let back = parse_slots_reply(&reply, 2).unwrap();
    assert_eq!(back.slots.len(), SLOT_COUNT);
    assert_eq!(back.slots[5].label, "k5");
    assert_eq!(back.slots[5].key, 5);
    assert_eq!(proto(parse_slots_reply(&reply, 3).unwrap_err()), format!("no bank 3 SLOTS line in: {reply}"));
    assert_eq!(
        proto(parse_slots_reply("SLOTS 1 abc==\n", 1).unwrap_err()),
        "bank 1 SLOTS base64 length/padding is not canonical"
    );
    assert_eq!(proto(slots_write_command(7, &page).unwrap_err()), "bank 7 outside 0..4");
}

#[test]
fn slots_page_for_another_bank_is_refused() {
    let page = PadSlots { slots: vec![HotkeySlot { mode: 0, modifier: 0, key: 0, label: String::new() }; SLOT_COUNT] };
    let cmd = slots_write_command(1, &page).unwrap();
    let b64 = &cmd["slots write 1 ".len()..];
    let reply = format!("SLOTS 2 {b64}\n");
    match parse_slots_reply(&reply, 2).unwrap_err() {
        DongleError::Msg(m) => assert_eq!(m, "invalid slot index"),
        other => panic!("{other:?}"),
    }
    let bad = format!("SLOTS 2 {}==\n", "*".repeat(SLOTS_B64_BYTES - 2));
    assert!(proto(parse_slots_reply(&bad, 2).unwrap_err()).starts_with("b64: "));
}

#[test]
fn write_ack_must_name_the_bank() {
    assert!(check_write_reply("[x]\n OK bank=3 verified \n", 3).is_ok());
    assert_eq!(
        proto(check_write_reply("OK bank=2 verified\n", 3).unwrap_err()),
        "write failed: OK bank=2 verified\n"
    );
    assert!(response_complete("slots write 3 AAAA", b"OK bank=3 verified\n"));
    assert!(!response_complete("slots write 3 AAAA", b"OK bank=2 verified\n"));
}

#[test]
fn info_reply_and_cli_bytes() {
    assert_eq!(parse_info_reply("x\nINFO Cyberdeck Pad Hybrid v0.3.1\n").as_deref(), Some("Cyberdeck Pad Hybrid v0.3.1"));
    assert_eq!(parse_info_reply("ERR no\n"), None);
    assert_eq!(parse_u8(" 0x28 "), Ok(0x28));
    assert_eq!(parse_u8("0XfF"), Ok(255));
    assert_eq!(parse_u8("40"), Ok(40));
    assert_eq!(parse_u8("256"), Err("number too large to fit in target type".to_string()));
    assert_eq!(parse_u8("0xg"), Err("invalid digit found in string".to_string()));
}

#[test]
fn bank_sweep_checks() {
    assert_eq!(internal_version_check(EXPECTED_DONGLE_VERSION).unwrap(), EXPECTED_DONGLE_VERSION);
    assert_eq!(
        internal_version_check("s3-dongle-validation 0.4.0").unwrap_err(),
        format!("internal version mismatch: got \"s3-dongle-validation 0.4.0\", expected {:?}", EXPECTED_DONGLE_VERSION)
    );
    assert!(sweep_page_check(2, SLOT_COUNT).is_ok());
    assert_eq!(sweep_page_check(2, 17).unwrap_err(), "bank 2: got 17 slots, expected 18");
    assert!(restore_page_check(4, SLOT_COUNT).is_ok());
    assert_eq!(
        restore_page_check(4, 0).unwrap_err(),
        "could not restore initial bank 4: got 0 slots, expected 18"
    );
    assert_eq!(sweep_outcome(Ok(90), Ok(())).unwrap(), 90);
    assert_eq!(sweep_outcome(Err("a".into()), Ok(())).unwrap_err(), "a");
    assert_eq!(sweep_outcome(Ok(90), Err("b".into())).unwrap_err(), "b");
    assert_eq!(sweep_outcome(Err("a".into()), Err("b".into())).unwrap_err(), "a; additionally, b");
    assert!(restored_bank_check(3, 3).is_ok());
    assert_eq!(
        restored_bank_check(1, 3).unwrap_err(),
        "final status: bank restoration mismatch: got 1, expected 3"
    );
}

#[test]
fn written_page_is_standard_padded_base64() {
    let page = PadSlots {
        slots: (0..SLOT_COUNT)
            .map(|i| HotkeySlot { mode: MODE_HID, modifier: 0, key: i as u8, label: String::new() })
            .collect(),
    };
    let cmd = slots_write_command(1, &page).unwrap();
    let b64 = &cmd["slots write 1 ".len()..];
    let packed = page.pack_bank(1).unwrap();
    assert_eq!(base64::engine::Engine::decode(&base64::engine::general_purpose::STANDARD, b64).unwrap(), packed);
    // bank byte 1 then the first slot's mode byte: 0b000000_01 0000_ ...
    assert!(b64.starts_with("A"));
    assert!(b64.ends_with("=="));
    assert!(b64.chars().all(|c| c.is_ascii_alphanumeric() || c == '+' || c == '/' || c == '='));
}
