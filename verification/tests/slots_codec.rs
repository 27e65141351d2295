use hk_operator::slots::{
    info_supports_banks, pad_status_for_log, redact_ble_address, BleError, HotkeySlot, MacroEvent, PadSlots, PadStatus,
    ACTION_COUNT, DEVICE_NAME, MODE_HID, MODE_MACRO, PRESET_COUNT, SLOTS_BYTES, SLOT_BYTES,
    SLOT_COUNT,
};

fn slot(mode: u8, modifier: u8, key: u8, label: &str) -> HotkeySlot {
    HotkeySlot {
        mode,
        modifier,
        key,
        label: label.into(),
    }
}

fn eighteen(template: HotkeySlot) -> PadSlots {
    PadSlots {
        slots: (0..SLOT_COUNT).map(|_| template.clone()).collect(),
    }
}

fn status(address: &str, name: Option<&str>) -> PadStatus {
    PadStatus {
        address: address.into(),
        name: name.map(|n| n.to_string()),
        connected: true,
        paired: true,
        info: None,
        transport: None,
        bluez_blocked: None,
        protocol_compatible: None,
        slots_ready: None,
        macro_ready: None,
        selected_bank: None,
    }
}

#[test]
fn pack_roundtrip() {
    let slot = HotkeySlot {
        mode: MODE_MACRO,
        modifier: 0x01,
        key: 0x28,
        label: "Enter".into(),
    };
    let packed = slot.pack();
    let back = HotkeySlot::unpack(&packed).unwrap();
    assert_eq!(back.mode, MODE_MACRO);
    assert_eq!(back.modifier, 0x01);
    assert_eq!(back.key, 0x28);
    assert_eq!(back.label, "Enter");
}

#[test]
fn redact_ble_address_keeps_last_octet() {
    assert_eq!(redact_ble_address("aa:bb:cc:dd:ee:ff"), "**:**:**:**:**:FF");
    assert_eq!(redact_ble_address("AA-BB-CC-DD-EE-12"), "**:**:**:**:**:12");
    assert_eq!(redact_ble_address(""), "(no address)");
    assert_eq!(redact_ble_address("not-a-mac"), "**:**:**:**:**:**");
    let logged = pad_status_for_log(&status("11:22:33:44:55:66", Some("Cyberdeck Pad")));
    assert_eq!(logged.address, "**:**:**:**:**:66");
    assert!(!logged.address.contains("11:22"));
}

#[test]
fn slots_pack_len() {
    let slots = PadSlots {
        slots: (0..SLOT_COUNT)
            .map(|i| HotkeySlot {
                mode: MODE_HID,
                modifier: 0,
                key: i as u8,
                label: format!("s{i}"),
            })
            .collect(),
    };
    let packed = slots.pack().unwrap();
    assert_eq!(packed.len(), SLOTS_BYTES);
    let back = PadSlots::unpack(&packed).unwrap();
    assert_eq!(back.slots.len(), SLOT_COUNT);
    assert_eq!(back.slots[3].label, "s3");
}

#[test]
fn hotkey_macro_and_hid_roundtrip() {
    let macro_slot = slot(MODE_MACRO, 0x01, 0x04, "Open");
    let packed = macro_slot.pack();
    assert_eq!(packed.len(), SLOT_BYTES);
    assert_eq!(packed[0], MODE_MACRO);
    let back = HotkeySlot::unpack(&packed).unwrap();
    assert_eq!(back.mode, MODE_MACRO);
    assert_eq!(back.modifier, 0x01);
    assert_eq!(back.key, 0x04);
    assert_eq!(back.label, "Open");

    let hid = slot(MODE_HID, 0, 0x1e, "A");
    let back = HotkeySlot::unpack(&hid.pack()).unwrap();
    assert_eq!(back.mode, MODE_HID);
    assert_eq!(back.label, "A");
}

#[test]
fn pack_coerces_unknown_mode_to_hid() {
    let weird = slot(9, 0, 0, "x");
    assert_eq!(weird.pack()[0], MODE_HID);
}

#[test]
fn unpack_preserves_raw_mode_byte() {
    let mut buf = [0u8; SLOT_BYTES];
    buf[0] = 7;
    buf[3] = b'z';
    let s = HotkeySlot::unpack(&buf).unwrap();
    assert_eq!(s.mode, 7);
}

#[test]
fn label_truncates_to_23_bytes() {
    let long = "abcdefghijklmnopqrstuvwxyz";
    let packed = slot(MODE_MACRO, 0, 0, long).pack();
    let back = HotkeySlot::unpack(&packed).unwrap();
    assert_eq!(back.label.len(), 23);
    assert_eq!(back.label, &long[..23]);
}

#[test]
fn empty_label_roundtrips() {
    let back = HotkeySlot::unpack(&slot(MODE_HID, 0, 0, "").pack()).unwrap();
    assert_eq!(back.label, "");
}

#[test]
fn short_slot_buffer_errors() {
    let err = HotkeySlot::unpack(&[0u8; 10]).unwrap_err();
    assert!(matches!(err, BleError::BadSlotsLen { got: 10 }));
}

#[test]
fn pad_slots_wrong_count_and_short_blob() {
    let bad = PadSlots {
        slots: vec![slot(MODE_HID, 0, 0, ""); 3],
    };
    assert!(matches!(bad.pack().unwrap_err(), BleError::BadSlotsLen { .. }));
    assert!(matches!(
        PadSlots::unpack(&[0u8; 100]).unwrap_err(),
        BleError::BadSlotsLen { got: 100 }
    ));
}

#[test]
fn pad_slots_full_roundtrip_length() {
    let slots = eighteen(slot(MODE_MACRO, 2, 3, "pad"));
    let packed = slots.pack().unwrap();
    assert_eq!(packed.len(), SLOTS_BYTES);
    let back = PadSlots::unpack(&packed).unwrap();
    assert_eq!(back.slots.len(), SLOT_COUNT);
    assert_eq!(back.slots[0].label, "pad");
    assert_eq!(back.slots[0].mode, MODE_MACRO);
}

#[test]
fn get_bounds_and_binding_key() {
    let slots = eighteen(slot(MODE_HID, 0, 0, ""));
    assert!(matches!(slots.get(PRESET_COUNT, 0), Err(BleError::BadIndex)));
    assert!(matches!(slots.get(0, ACTION_COUNT), Err(BleError::BadIndex)));
    assert!(slots.get(5, 2).is_ok());
    assert_eq!(PadSlots::binding_key(2, 1), "2-1");
}

#[test]
fn macro_event_from_bytes() {
    let ev = MacroEvent::from_bytes(&[3, 1]).unwrap();
    assert_eq!(ev.preset, 3);
    assert_eq!(ev.action, 1);
    assert!(MacroEvent::from_bytes(&[0, 0]).is_some());
    assert!(MacroEvent::from_bytes(&[5, 2]).is_some());
    assert!(MacroEvent::from_bytes(&[]).is_none());
    assert!(MacroEvent::from_bytes(&[1]).is_none());
    assert!(MacroEvent::from_bytes(&[6, 0]).is_none());
    assert!(MacroEvent::from_bytes(&[0, 3]).is_none());
    assert!(MacroEvent::from_bytes(&[255, 255]).is_none());
}

#[test]
fn zero_blob_unpack_repack() {
    let zeros = [0u8; SLOTS_BYTES];
    let slots = PadSlots::unpack(&zeros).unwrap();
    assert_eq!(slots.pack().unwrap().len(), SLOTS_BYTES);
}

#[test]
fn stub_compat_device_name_is_cyberdeck_pad() {
    assert_eq!(DEVICE_NAME, "Cyberdeck Pad");
}

#[test]
fn stub_slot_blob_length_matches_protocol() {
    let zeros = [0u8; SLOTS_BYTES];
    let slots = PadSlots::unpack(&zeros).expect("zero blob unpacks");
    let packed = slots.pack().expect("pack");
    assert_eq!(packed.len(), SLOTS_BYTES);
    assert_eq!(SLOT_BYTES, 27);
    assert!(std::mem::size_of::<HotkeySlot>() >= SLOT_BYTES);
}

#[test]
fn stub_mode_constants() {
    assert_eq!(MODE_HID, 0);
    assert_eq!(MODE_MACRO, 1);
}

#[test]
fn three_byte_event_names_its_bank() {
    let ev = MacroEvent::from_bytes(&[4, 5, 2]).unwrap();
    assert_eq!((ev.bank, ev.preset, ev.action), (4, 5, 2));
    let legacy = MacroEvent::from_bytes(&[5, 2]).unwrap();
    assert_eq!(legacy.bank, 0);
    assert!(MacroEvent::from_bytes(&[5, 0, 0]).is_none());
}

#[test]
fn bank_page_roundtrips_and_rejects_other_bank() {
    let slots = eighteen(slot(MODE_MACRO, 2, 3, "pad"));
    let page = slots.pack_bank(3).unwrap();
    assert_eq!(page.len(), 487);
    assert_eq!(page[0], 3);
    let back = PadSlots::unpack_bank(&page, 3).unwrap();
    assert_eq!(back.slots[17].label, "pad");
    assert!(matches!(PadSlots::unpack_bank(&page, 2), Err(BleError::BadIndex)));
    assert!(matches!(slots.pack_bank(5), Err(BleError::BadIndex)));
    assert_eq!(PadSlots::bank_binding_key(1, 2, 0), "1-2-0");
}

#[test]
fn invalid_utf8_label_still_unpacks() {
    let mut buf = [0u8; SLOT_BYTES];
    buf[3] = 0xff;
    buf[4] = b'a';
    let s = HotkeySlot::unpack(&buf).unwrap();
    assert_eq!(s.label, "\u{fffd}a");
}

#[test]
fn info_supports_banks_from_v03() {
    assert!(info_supports_banks("Cyberdeck Pad Hybrid v0.3.0"));
    assert!(info_supports_banks("Cyberdeck Pad Hybrid v0.3.1"));
    assert!(info_supports_banks("Cyberdeck Pad Hybrid v1.0.0"));
    assert!(!info_supports_banks("Cyberdeck Pad Hybrid v0.2.0"));
    assert!(!info_supports_banks("Cyberpad Val C6"));
}

#[test]
fn error_messages_read_as_displayed() {
    assert_eq!(
        BleError::BadSlotsLen { got: 10 }.message(),
        "slots payload length 10, expected 486"
    );
    assert_eq!(BleError::BadIndex.message(), "invalid slot index");
}
