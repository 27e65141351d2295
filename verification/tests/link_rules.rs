use hk_operator::actions::paste_report;
use hk_operator::pad_sync::pick_pad_device;
use hk_operator::dongle_link::{
    read_step, select_cdc, serial_port_matches, sysfs_entry_matches, usb_serial_matches, CdcAlt, CdcChoice,
    CdcEndpoint, ReadStep, DONGLE_PID, DONGLE_VID,
};
use hk_operator::fire_api::{hex_token, kde_fire_shortcut_files, parse_stored_token, shortcut_desktop_entry};
use hk_operator::space_keys::{keyboard_candidate, space_pressed, KeyEvent, EV_KEY, KEY_SPACE};

#[test]
fn serial_ports_must_carry_the_s3_serial() {
    assert!(serial_port_matches("/dev/ttyACM0", Some((DONGLE_VID, DONGLE_PID, Some("a0:f2:62:f3:d5:cc".into())))));
    assert!(!serial_port_matches("/dev/ttyACM0", Some((DONGLE_VID, DONGLE_PID, Some("A0F262F3D5CD".into())))));
    assert!(!serial_port_matches("/dev/ttyS0", Some((DONGLE_VID, DONGLE_PID, Some("A0F262F3D5CC".into())))));
    assert!(!serial_port_matches("/dev/ttyUSB1", None));
    assert!(!serial_port_matches("/dev/ttyUSB1", Some((0x1234, DONGLE_PID, Some("A0F262F3D5CC".into())))));
}

#[test]
fn usb_and_sysfs_identity() {
    assert!(usb_serial_matches("a0:f2:62:f3:d5:cc"));
    assert!(usb_serial_matches("A0F262F3D5CC"));
    assert!(!usb_serial_matches("A0-F2-62-F3-D5-CC"));
    assert!(sysfs_entry_matches(Some("303a\n"), Some("1001\n"), Some("A0:F2:62:F3:D5:CC\n")));
    assert!(!sysfs_entry_matches(Some("303a\n"), Some("1002\n"), Some("A0F262F3D5CC")));
    assert!(!sysfs_entry_matches(None, Some("1001"), Some("A0F262F3D5CC")));
}

fn ep(bulk: bool, out: bool, address: u8) -> CdcEndpoint {
    CdcEndpoint { bulk, out, address }
}

#[test]
fn cdc_interfaces_and_bulk_endpoints_are_chosen() {
    let alts = vec![
        CdcAlt { class_code: 2, interface_number: 0, endpoints: vec![ep(false, false, 0x83)] },
        CdcAlt { class_code: 10, interface_number: 1, endpoints: vec![ep(true, true, 0x01), ep(true, false, 0x81)] },
    ];
    assert_eq!(select_cdc(&alts), Ok(CdcChoice { comm_iface: Some(0), data_iface: 1, out_ep: 0x01, in_ep: 0x81 }));
    let no_in = vec![CdcAlt { class_code: 10, interface_number: 1, endpoints: vec![ep(true, true, 0x01)] }];
    assert_eq!(select_cdc(&no_in), Err("no CDC IN ep".into()));
    let no_out = vec![CdcAlt { class_code: 10, interface_number: 1, endpoints: vec![ep(true, false, 0x81)] }];
    assert_eq!(select_cdc(&no_out), Err("no CDC OUT ep".into()));
    assert_eq!(select_cdc(&Vec::new()), Err("no CDC data iface".into()));
}

#[test]
fn reader_stops_on_complete_reply_and_not_on_chatter() {
    let mut buf = Vec::new();
    let mut idle = 0u32;
    assert_eq!(read_step("status", &mut buf, &mut idle, b"[bank] selected 2\n"), ReadStep::Continue);
    for _ in 0..5 {
        assert_eq!(read_step("status", &mut buf, &mut idle, b""), ReadStep::Continue);
    }
    assert_eq!(read_step("status", &mut buf, &mut idle, b"ble_connected=1 protocol=v0.3\n"), ReadStep::Done);
    let mut idle2 = 0u32;
    let mut rec = b"OK\n".to_vec();
    assert_eq!(read_step("slots read 0", &mut rec, &mut idle2, b""), ReadStep::Continue);
    assert_eq!(read_step("slots read 0", &mut rec, &mut idle2, b""), ReadStep::Continue);
    assert_eq!(read_step("slots read 0", &mut rec, &mut idle2, b""), ReadStep::Done);
    let mut big = vec![b'x'; 8190];
    let mut idle3 = 0u32;
    assert_eq!(
        read_step("status", &mut big, &mut idle3, b"abc"),
        ReadStep::Overflow("CDC response exceeds 8192 bytes".into())
    );
    assert_eq!(big.len(), 8190);
}

#[test]
fn watched_keyboards_and_space_presses() {
    assert!(keyboard_candidate("event3", true, "AT Translated Set 2 keyboard"));
    assert!(!keyboard_candidate("event4", true, "Logitech USB Mouse"));
    assert!(keyboard_candidate("event5", true, "Mouse and Keyboard Combo"));
    assert!(!keyboard_candidate("event6", true, "ydotoold virtual device"));
    assert!(!keyboard_candidate("mouse0", true, "kbd"));
    assert!(!keyboard_candidate("event7", false, "kbd"));
    let press = KeyEvent { kind: EV_KEY, code: KEY_SPACE, value: 1 };
    let release = KeyEvent { kind: EV_KEY, code: KEY_SPACE, value: 0 };
    assert!(space_pressed(true, &vec![release, press]));
    assert!(!space_pressed(false, &vec![press]));
    assert!(!space_pressed(true, &vec![release]));
}

#[test]
fn kde_shortcut_entries_fire_local_slots() {
    let body = shortcut_desktop_entry("MCC fire 2-0", "2-0", "Ctrl+Alt+1", "aa11");
    assert_eq!(
        body,
        "[Desktop Entry]\nType=Application\nName=MCC fire 2-0\nNoDisplay=true\nStartupNotify=false\nExec=curl -s -X POST -H \"X-HK-Fire-Token: aa11\" http://127.0.0.1:17321/fire/2-0\nX-KDE-GlobalAccel-CommandShortcut=true\nX-KDE-Shortcuts=Ctrl+Alt+1\n"
    );
    let files = kde_fire_shortcut_files("aa11");
    assert_eq!(files.len(), 6);
    assert_eq!(files[0].file, "net.local.mcc-macro-0.desktop");
    assert!(files[0].body.contains("Name=MCC Pad Macro 2-0\n"));
    assert!(files[0].body.ends_with("X-KDE-Shortcuts=F13\n"));
    assert_eq!(files[5].file, "net.local.open-vscode.desktop");
    assert!(files[5].body.contains("X-HK-Fire-Token: aa11\" http://127.0.0.1:17321/fire/2-2\n"));
}

#[test]
fn paste_reports_name_the_label() {
    let ok = paste_report(Ok(()), "greeting");
    assert_eq!(ok.message, "auto-pasted greeting");
    assert_eq!(ok.notice, "auto-pasted \u{b7} greeting");
    let failed = paste_report(Err("no ydotool".into()), "greeting");
    assert_eq!(failed.message, "copied (paste failed: no ydotool) greeting");
}

#[test]
fn fire_tokens_are_hex() {
    assert_eq!(hex_token(&[0x00, 0xab, 0x10, 0xff]), "00ab10ff");
    assert_eq!(hex_token(&[]), "");
    assert_eq!(parse_stored_token("  DEADbeef01\n"), Some("DEADbeef01".to_string()));
    assert_eq!(parse_stored_token("not-hex"), None);
    assert_eq!(parse_stored_token("   "), None);
}

#[test]
fn pad_device_is_picked_by_name() {
    let names = |v: &[&str]| v.iter().map(|s| s.to_string()).collect::<Vec<String>>();
    assert_eq!(pick_pad_device(&names(&["Mouse", "Cyberdeck Pad", "x"])), Some(1));
    assert_eq!(pick_pad_device(&names(&["cyberdeck alias", "Old CYBERDECK"])), Some(1));
    assert_eq!(pick_pad_device(&names(&["CYBERDECK only"])), Some(0));
    assert_eq!(pick_pad_device(&names(&["cyberdeck x", "Cyberdeck Pad"])), Some(1));
    assert_eq!(pick_pad_device(&names(&["a", ""])), None);
}
