use hk_operator::composer::{
    any_picking, apply_composer_press, commit_all_picking, commit_composer, composer_precheck,
    default_reset_on, note_composer_tap, reset_composer_runtime, ComposerConfig, ComposerRuntime,
    TapOutcome,
};
use hk_operator::composer_write::{
    abort_composition_session, chord_ctrl_args, compose_field, erase_trailing_args,
    kwin_window_id, paint_plan, paste_falls_back, preview_erase_len, segment_erase_len,
    tap_key_args, uses_full_rewrite, verify_focus, x11_window_id, PaintPlan, WriterState,
};

fn cfg(commands: &[&str]) -> ComposerConfig {
    ComposerConfig {
        commands: commands.iter().map(|s| (*s).to_string()).collect(),
        separator: " ".into(),
        timeout_ms: 60_000,
        reset_on: default_reset_on(),
    }
}

const T0: u64 = 1_000_000;

#[test]
fn single_tap_arms_without_firing() {
    let mut rt = ComposerRuntime::default();
    let c = cfg(&["/a", "/b"]);
    let out = note_composer_tap("ai", &c, &mut rt, T0, 400).unwrap();
    assert_eq!(out, TapOutcome::Arming);
    assert!(!rt.is_picking("ai"));
}

#[test]
fn double_tap_starts_then_rotates() {
    let mut rt = ComposerRuntime::default();
    let c = cfg(&["/a", "/b", "/c"]);
    assert!(matches!(
        note_composer_tap("ai", &c, &mut rt, T0, 400).unwrap(),
        TapOutcome::Arming
    ));
    let TapOutcome::Fired(p1) = note_composer_tap("ai", &c, &mut rt, T0 + 120, 400).unwrap() else {
        panic!("expected fire");
    };
    assert_eq!(p1.text, "/a");

    assert!(matches!(
        note_composer_tap("ai", &c, &mut rt, T0 + 200, 400).unwrap(),
        TapOutcome::Arming
    ));
    let TapOutcome::Fired(p2) = note_composer_tap("ai", &c, &mut rt, T0 + 320, 400).unwrap() else {
        panic!("expected fire");
    };
    assert_eq!(p2.text, "/b");
    assert!(p2.replaced_preview);
}

#[test]
fn slow_second_tap_is_new_arm_not_rotate() {
    let mut rt = ComposerRuntime::default();
    let c = cfg(&["/a", "/b"]);
    note_composer_tap("ai", &c, &mut rt, T0, 400).unwrap();
    let out = note_composer_tap("ai", &c, &mut rt, T0 + 500, 400).unwrap();
    assert_eq!(out, TapOutcome::Arming);
    assert!(!rt.is_picking("ai"));
}

#[test]
fn space_then_double_tap_stacks() {
    let mut rt = ComposerRuntime::default();
    let c = cfg(&["/a", "/b"]);
    note_composer_tap("ai", &c, &mut rt, T0, 400).unwrap();
    let TapOutcome::Fired(_) = note_composer_tap("ai", &c, &mut rt, T0 + 100, 400).unwrap() else {
        panic!("fire");
    };
    assert!(commit_composer(&mut rt, "ai"));

    note_composer_tap("ai", &c, &mut rt, T0 + 200, 400).unwrap();
    let TapOutcome::Fired(p) = note_composer_tap("ai", &c, &mut rt, T0 + 300, 400).unwrap() else {
        panic!("fire");
    };
    assert_eq!(p.text, "/a");
    assert!(!p.replaced_preview);
}

#[test]
fn apply_composer_press_still_rotates_directly() {
    let mut rt = ComposerRuntime::default();
    let c = cfg(&["/a", "/b", "/c"]);
    let p1 = apply_composer_press("ai", &c, &mut rt, T0).unwrap();
    assert_eq!(p1.text, "/a");
    let p2 = apply_composer_press("ai", &c, &mut rt, T0 + 2_000).unwrap();
    assert_eq!(p2.text, "/b");
}

#[test]
fn long_idle_does_not_reset_session() {
    let mut rt = ComposerRuntime::default();
    let mut c = cfg(&["/a", "/b"]);
    c.timeout_ms = 5_000;
    apply_composer_press("ai", &c, &mut rt, T0).unwrap();
    assert!(commit_composer(&mut rt, "ai"));
    let p = apply_composer_press("ai", &c, &mut rt, T0 + 120_000).unwrap();
    assert!(!p.replaced_preview);
    assert_eq!(p.text, "/a");
    assert!(rt.is_picking("ai"));
}

#[test]
fn rotation_wraps_and_erases_previous_preview() {
    let mut rt = ComposerRuntime::default();
    let c = cfg(&["/help", "/review"]);
    let p1 = apply_composer_press(" ai ", &c, &mut rt, T0).unwrap();
    assert_eq!((p1.idx, p1.erase_chars, p1.len, p1.timeout_ms), (0, 0, 2, 60_000));
    let p2 = apply_composer_press("ai", &c, &mut rt, T0 + 1).unwrap();
    assert_eq!((p2.idx, p2.erase_chars), (1, 5));
    let p3 = apply_composer_press("ai", &c, &mut rt, T0 + 2).unwrap();
    assert_eq!((p3.idx, p3.erase_chars, p3.text.as_str()), (0, 7, "/help"));
}

#[test]
fn precheck_messages() {
    assert_eq!(
        composer_precheck("  ", None).unwrap_err(),
        "composer action needs a composer id in value (e.g. ai)"
    );
    assert_eq!(composer_precheck(" x ", None).unwrap_err(), "unknown composer \"x\"");
    let empty = cfg(&[]);
    assert_eq!(composer_precheck("x", Some(&empty)).unwrap_err(), "composer \"x\" has no commands");
    assert!(composer_precheck("x", Some(&cfg(&["/a"]))).is_ok());
    let mut rt = ComposerRuntime::default();
    assert!(apply_composer_press("x", &empty, &mut rt, T0).is_err());
    assert!(!any_picking(&rt));
}

#[test]
fn commit_all_commits_every_picking_composer() {
    let mut rt = ComposerRuntime::default();
    let c = cfg(&["/a", "/b"]);
    apply_composer_press("ai", &c, &mut rt, T0).unwrap();
    apply_composer_press("dev", &c, &mut rt, T0).unwrap();
    assert!(any_picking(&rt));
    let mut done = commit_all_picking(&mut rt);
    done.sort();
    assert_eq!(done, vec!["ai".to_string(), "dev".to_string()]);
    assert!(!any_picking(&rt));
    assert!(commit_all_picking(&mut rt).is_empty());
    assert!(!commit_composer(&mut rt, "ai"));
}

#[test]
fn reset_forgets_one_or_all() {
    let mut rt = ComposerRuntime::default();
    let c = cfg(&["/a", "/b"]);
    apply_composer_press("ai", &c, &mut rt, T0).unwrap();
    apply_composer_press("dev", &c, &mut rt, T0).unwrap();
    reset_composer_runtime(&mut rt, Some("ai"));
    assert!(!rt.is_picking("ai"));
    assert!(rt.is_picking("dev"));
    reset_composer_runtime(&mut rt, None);
    assert!(!any_picking(&rt));
}

#[test]
fn watchdog_erase_len_matches_command_chars() {
    assert_eq!(preview_erase_len(None), 0);
    assert_eq!(preview_erase_len(Some("/help")), 5);
    assert_eq!(preview_erase_len(Some("/review")), 7);
    assert_eq!(preview_erase_len(Some("/plan")), 5);
}

#[test]
fn fresh_pick_ignores_stale_watchdog() {
    assert_eq!(segment_erase_len(Some("/plan"), 0), 0);
    assert_eq!(segment_erase_len(Some("/help"), 5), 5);
    assert_eq!(segment_erase_len(None, 15), 15);
}

#[test]
fn full_rewrite_only_when_unlocked() {
    assert!(uses_full_rewrite(""));
    assert!(!uses_full_rewrite("/help "));
}

#[test]
fn compose_stacks_locked_and_preview() {
    assert_eq!(compose_field("", "/help"), "/help");
    assert_eq!(compose_field("/help ", "/review"), "/help /review");
}

#[test]
fn focus_mismatch_error_is_prefixed() {
    let err = verify_focus("kwin:99999999", None).unwrap_err();
    assert!(err.starts_with("focus:"), "{err}");
    let err = verify_focus("kwin:99999999", Some("kwin:1".into())).unwrap_err();
    assert_eq!(err, "focus: expected kwin:99999999, got kwin:1");
    assert!(verify_focus("kwin:1", Some("kwin:1".into())).is_ok());
}

#[test]
fn request_coalesces_to_latest() {
    let mut w = WriterState::new();
    let _g1 = w.request("/a".into(), 0);
    let g2 = w.request("/b".into(), 2);
    let got = w.take_desired().unwrap();
    assert_eq!(got.gen, g2);
    assert_eq!(got.text, "/b");
    assert!(w.take_desired().is_none());
}

#[test]
fn space_commit_moves_preview_into_locked() {
    let mut w = WriterState::new();
    w.set_on_screen(Some("/help".into()));
    w.clear_preview();
    let (locked, on_screen) = w.snapshot();
    assert_eq!(locked, "/help ");
    assert!(on_screen.is_none());
    assert_eq!(preview_erase_len(on_screen.as_deref()), 0);
}

#[test]
fn reset_clears_locked() {
    let mut w = WriterState::new();
    w.set_on_screen(Some("/x".into()));
    w.clear_preview();
    w.reset();
    let (locked, on_screen) = w.snapshot();
    assert!(locked.is_empty());
    assert!(on_screen.is_none());
    assert!(w.target_window.is_none());
}

#[test]
fn abort_clears_writer_and_composer_runtime() {
    let mut w = WriterState::new();
    w.set_on_screen(Some("/review".into()));
    w.target_window = Some("kwin:1".into());
    w.locked = "/help ".into();
    let mut rt = ComposerRuntime::default();
    rt.picking.insert("ai", true);
    rt.index.insert("ai", 1);
    rt.last_text.insert("ai", "/review".into());
    rt.last_tap.insert("ai", T0);
    rt.committed.insert("ai", 1);

    abort_composition_session(&mut w, &mut rt);

    let (locked, on_screen) = w.snapshot();
    assert!(locked.is_empty());
    assert!(on_screen.is_none());
    assert!(w.target_window.is_none());
    assert!(!rt.picking.get("ai").copied().unwrap_or(false));
    assert_eq!(rt.index.len(), 0);
    assert_eq!(rt.last_text.len(), 0);
    assert_eq!(rt.last_tap.len(), 0);
    assert_eq!(rt.committed.len(), 0);
}

#[test]
fn writer_keeps_its_first_target_window() {
    let mut w = WriterState::new();
    assert_eq!(w.capture_target(Some("kwin:1".into())).unwrap(), "kwin:1");
    assert_eq!(w.capture_target(Some("kwin:2".into())).unwrap(), "kwin:1");
    let mut fresh = WriterState::new();
    assert!(fresh.capture_target(None).unwrap_err().starts_with("focus:"));
    let mut rt = ComposerRuntime::default();
    let c = cfg(&["/help", "/review"]);
    apply_composer_press("ai", &c, &mut rt, T0).unwrap();
    abort_composition_session(&mut w, &mut rt);
    assert!(!rt.is_picking("ai"));
}

#[test]
fn paint_plans_and_key_sequences() {
    assert_eq!(paint_plan(true, Some("/a"), 3), PaintPlan::FullRewrite);
    assert_eq!(paint_plan(false, Some("/help"), 2), PaintPlan::Segment { erase: 5 });
    assert!(paste_falls_back("ydotool key exited 1"));
    assert!(!paste_falls_back("focus: expected a, got b"));
    assert_eq!(chord_ctrl_args(47), vec!["key", "--key-delay=18", "29:1", "47:1", "47:0", "29:0"]);
    assert_eq!(tap_key_args(111), vec!["key", "--key-delay=15", "111:1", "111:0"]);
    assert_eq!(erase_trailing_args(0), None);
    assert_eq!(
        erase_trailing_args(2).unwrap(),
        vec!["key", "--key-delay=12", "14:1", "14:0", "14:1", "14:0"]
    );
    assert_eq!(kwin_window_id(b" 42\n").as_deref(), Some("kwin:42"));
    assert_eq!(kwin_window_id(b"0\n"), None);
    assert_eq!(x11_window_id(b"7\n").as_deref(), Some("x11:7"));
    assert_eq!(x11_window_id(b"  \n"), None);
}
