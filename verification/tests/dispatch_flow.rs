use hk_operator::actions::{execute_action, find_action_index, resolve_binding, ActionEffect, BindingTarget};
use hk_operator::composer::{ComposerConfig, ComposerRuntime};
use hk_operator::dongle::DonglePoll;
use hk_operator::fire_api::{http_text_response, local_fire_request, LocalFire};
use hk_operator::gate::{drain_step, DispatchState, DrainStep, MAX_STARTUP_MACRO_DRAIN};
use hk_operator::git_sync::{
    created_remote, existing_repo_url, gh_auth_status, hk_config_dir, login_fallback, porcelain_dirty,
    profile_file_path, profiles_repo_dir, pull_message, push_message, remote_calls, remote_known, remote_url,
    validate_git_remote_url,
    repo_create_args, sanitize_profile_name, settings_path, sync_status, GhAuthStatus, GitSyncSettings,
};
use hk_operator::pad_sync::{
    bank_write_count, dongle_readiness, listener_poll_step, merge_dongle_status, pad_slot_count, pad_sync_report,
    transport_of, DongleNeed,
};
use hk_operator::slots::{MacroEvent, PadStatus};
use hk_operator::store::{Action, ProfilePadWrite, Store};
use std::collections::VecDeque;

fn action(id: &str, type_: &str, value: &str) -> Action {
    Action {
        id: id.into(),
        name: format!("{id}-name"),
        category: "test".into(),
        description: String::new(),
        type_: type_.into(),
        value: value.into(),
        tags: Vec::new(),
        favorite: false,
        last_used: None,
        created_at: "test".into(),
    }
}

fn status(connected: bool, compatible: Option<bool>, slots: Option<bool>, macros: Option<bool>) -> PadStatus {
    PadStatus {
        address: "AA:BB".into(),
        name: None,
        connected,
        paired: true,
        info: None,
        transport: None,
        bluez_blocked: None,
        protocol_compatible: compatible,
        slots_ready: slots,
        macro_ready: macros,
        selected_bank: Some(0),
    }
}

#[test]
fn replacement_gate_drains_in_flight_and_drops_new_dispatches() {
    let mut gate = DispatchState::default();
    assert!(gate.try_enter(), "initial dispatch accepted");
    gate.close_for_replacement();
    assert!(!gate.is_accepting());
    assert!(!gate.try_enter(), "closed gate must drop, not queue");
    assert!(!gate.is_idle(), "replacement must wait for the in-flight action");
    assert!(gate.release());
    assert!(gate.is_idle());
    assert!(!gate.try_enter(), "gate stays closed for replacement");
    gate.reopen();
    assert!(gate.try_enter(), "gate reopens after replacement");
}

#[test]
fn buffered_old_epoch_event_is_dropped_after_gate_reopens() {
    let mut gate = DispatchState::default();
    let buffered_event_epoch = gate.current_epoch();
    gate.close_for_replacement();
    let replacement_epoch = gate.current_epoch();
    assert_ne!(buffered_event_epoch, replacement_epoch);
    gate.reopen();
    assert!(gate.is_accepting());
    assert!(!gate.try_enter_epoch(Some(buffered_event_epoch)), "an old buffered event must remain stale after reopen");
    assert!(gate.try_enter_epoch(Some(replacement_epoch)), "the restarted listener epoch may dispatch after reopen");
}

#[test]
fn epoch_wraps_to_one_never_zero() {
    let mut gate = DispatchState { accepting: true, in_flight: 0, epoch: u64::MAX };
    gate.close_for_replacement();
    assert_eq!(gate.epoch, 1);
    assert!(!gate.accepting);
    let mut idle = DispatchState::new();
    assert!(idle.release());
    assert_eq!(idle.in_flight, 0);
}

#[test]
fn startup_drain_discards_events_through_the_empty_boundary() {
    let mut polls = VecDeque::from([true, true, false]);
    let mut drained = 0usize;
    let total = loop {
        let polled = polls.pop_front().ok_or_else(|| "drain polled past empty boundary".to_string());
        match drain_step(drained, polled) {
            DrainStep::Continue(n) => drained = n,
            DrainStep::Drained(n) => break n,
            DrainStep::Failed(e) => panic!("{e}"),
        }
    };
    assert_eq!(total, 2);
    assert!(polls.is_empty());
}

#[test]
fn drain_gives_up_on_a_queue_that_never_empties() {
    let mut drained = 0usize;
    let outcome = loop {
        match drain_step(drained, Ok(true)) {
            DrainStep::Continue(n) => drained = n,
            other => break other,
        }
    };
    assert_eq!(drained, MAX_STARTUP_MACRO_DRAIN - 1);
    assert_eq!(
        outcome,
        DrainStep::Failed("S3 macro queue did not drain after 64 events; listener stopped".into())
    );
    assert_eq!(drain_step(3, Err("io".into())), DrainStep::Failed("io".into()));
}

fn store_with(actions: Vec<Action>) -> Store {
    let mut s = Store::default();
    s.actions = actions;
    s
}

#[test]
fn url_and_path_actions_plan_their_opening() {
    let store = Store::default();
    let mut rt = ComposerRuntime::default();
    match execute_action(&store, &mut rt, &action("u", "url", "https://x.test"), 0, 400, None).unwrap() {
        ActionEffect::OpenUrl { url, done } => {
            assert_eq!(url, "https://x.test");
            assert_eq!(done, "opened u-name");
        },
        other => panic!("{other:?}"),
    }
    assert_eq!(
        execute_action(&store, &mut rt, &action("u", "url", "file:///etc"), 0, 400, None).err().unwrap(),
        "Blocked: not an http(s) URL"
    );
    match execute_action(&store, &mut rt, &action("p", "path", "~/notes"), 0, 400, Some("/home/me")).unwrap() {
        ActionEffect::OpenPath { path, done } => {
            assert_eq!(path, "/home/me/notes");
            assert_eq!(done, "opened path p-name");
        },
        other => panic!("{other:?}"),
    }
    match execute_action(&store, &mut rt, &action("n", "note", "hello"), 0, 400, None).unwrap() {
        ActionEffect::Paste { text, label } => {
            assert_eq!(text, "hello");
            assert_eq!(label, "n-name");
        },
        other => panic!("{other:?}"),
    }
    assert_eq!(
        execute_action(&store, &mut rt, &action("z", "launch", "x"), 0, 400, None).err().unwrap(),
        "unknown action type: launch"
    );
}

#[test]
fn composer_actions_arm_fire_commit_and_reset() {
    let store = Store::default();
    let mut rt = ComposerRuntime::default();
    let pick = action("pick", "composer", " ai ");
    match execute_action(&store, &mut rt, &pick, 1_000, 400, None).unwrap() {
        ActionEffect::Arming { done } => assert_eq!(done, "pick-name \u{2014} tap again quickly to rotate"),
        other => panic!("{other:?}"),
    }
    match execute_action(&store, &mut rt, &pick, 1_200, 400, None).unwrap() {
        ActionEffect::Fired { press, done } => {
            assert_eq!(press.token, "/help");
            assert_eq!(done, "pick-name [/help] (1/3) \u{2014} Space to commit");
        },
        other => panic!("{other:?}"),
    }
    let commit = action("commit", "composer-commit", "ai");
    match execute_action(&store, &mut rt, &commit, 1_300, 400, None).unwrap() {
        ActionEffect::Committed { done } => assert_eq!(done, "commit-name committed \u{2014} double-tap to stack next"),
        other => panic!("{other:?}"),
    }
    match execute_action(&store, &mut rt, &commit, 1_400, 400, None).unwrap() {
        ActionEffect::NothingToCommit { done } => assert_eq!(done, "commit-name \u{2014} nothing to commit"),
        other => panic!("{other:?}"),
    }
    let reset = action("reset", "composer-reset", "");
    match execute_action(&store, &mut rt, &reset, 1_500, 400, None).unwrap() {
        ActionEffect::LoopReset { done } => assert_eq!(done, "reset-name \u{2014} new loop ready"),
        other => panic!("{other:?}"),
    }
    assert!(!rt.is_picking("ai"));
    let unknown = action("x", "composer", "nope");
    assert_eq!(execute_action(&store, &mut rt, &unknown, 0, 400, None).err().unwrap(), "unknown composer \"nope\"");
}

#[test]
fn command_actions_run_only_when_approved_for_their_text() {
    let mut store = store_with(vec![action("cmd", "command", "echo hi")]);
    let mut rt = ComposerRuntime::default();
    let cmd = action("cmd", "command", "echo hi");
    assert_eq!(
        execute_action(&store, &mut rt, &cmd, 0, 400, None).err().unwrap(),
        "Command \"cmd-name\" not allowed yet \u{2014} approve it in the UI first"
    );
    store.allow_command("cmd").unwrap();
    match execute_action(&store, &mut rt, &cmd, 0, 400, None).unwrap() {
        ActionEffect::RunCommand { script, done } => {
            assert_eq!(script, "echo hi");
            assert_eq!(done, "ran cmd-name");
        },
        other => panic!("{other:?}"),
    }
    let changed = action("cmd", "command", "rm -rf /tmp/x");
    assert!(execute_action(&store, &mut rt, &changed, 0, 400, None).is_err());
}

#[test]
fn binding_resolution_messages_name_the_slot() {
    let mut store = store_with(vec![action("a", "note", "x"), action("b", "note", "y")]);
    store.pad_bindings.insert("0-2-0", "b".into());
    store.pad_bindings.insert("1-0-0", "gone".into());
    match resolve_binding(&store, "2-0") {
        BindingTarget::Found { bank, preset, action, action_id, index } => {
            assert_eq!((bank, preset, action), (0, 2, 0));
            assert_eq!(action_id, "b");
            assert_eq!(index, 1);
        },
        other => panic!("{other:?}"),
    }
    match resolve_binding(&store, "1-0-0") {
        BindingTarget::Missing { message, .. } => assert_eq!(message, "binding 1-0-0 points to missing action"),
        other => panic!("{other:?}"),
    }
    match resolve_binding(&store, "4-5-2") {
        BindingTarget::Unbound { message, bank, .. } => {
            assert_eq!(message, "no binding for slot 4-5-2");
            assert_eq!(bank, 4);
        },
        other => panic!("{other:?}"),
    }
    match resolve_binding(&store, "9-0-0") {
        BindingTarget::Invalid(m) => assert_eq!(m, "invalid binding key 9-0-0"),
        other => panic!("{other:?}"),
    }
    assert_eq!(find_action_index(&store.actions, "a"), Some(0));
    assert_eq!(find_action_index(&store.actions, "q"), None);
}

#[test]
fn local_fire_listener_rules() {
    let tok = "abcdef0123456789";
    let ok = b"POST /fire/0-2-0 HTTP/1.1\r\nHost: 127.0.0.1\r\nX-HK-Fire-Token: abcdef0123456789\r\n\r\n";
    assert_eq!(local_fire_request(ok, tok), LocalFire::Fire { key: "0-2-0".into() });
    let bearer = b"POST /fire/2-1 HTTP/1.1\r\nAuthorization: Bearer abcdef0123456789\r\n\r\n";
    assert_eq!(local_fire_request(bearer, tok), LocalFire::Fire { key: "2-1".into() });
    let browser = b"POST /fire/0-2-0 HTTP/1.1\r\nOrigin: http://evil\r\nX-HK-Fire-Token: abcdef0123456789\r\n\r\n";
    assert_eq!(
        local_fire_request(browser, tok),
        LocalFire::Answer { status: "403 Forbidden".into(), body: "browser-origin requests are not accepted".into() }
    );
    let unauthorized = LocalFire::Answer { status: "401 Unauthorized".into(), body: "missing or invalid fire token".into() };
    let missing = b"POST /fire/0-2-0 HTTP/1.1\r\nHost: x\r\nX-MCC-Local: 1\r\n\r\n";
    assert_eq!(local_fire_request(missing, tok), unauthorized);
    let wrong = b"POST /fire/0-2-0 HTTP/1.1\r\nX-HK-Fire-Token: 00\r\n\r\n";
    assert_eq!(local_fire_request(wrong, tok), unauthorized);
    let empty_expected = b"POST /fire/0-2-0 HTTP/1.1\r\nX-HK-Fire-Token: x\r\n\r\n";
    assert_eq!(local_fire_request(empty_expected, ""), unauthorized);
    let get_fire = b"GET /fire/0-2-0 HTTP/1.1\r\nX-HK-Fire-Token: abcdef0123456789\r\n\r\n";
    assert_eq!(
        local_fire_request(get_fire, tok),
        LocalFire::Answer {
            status: "405 Method Not Allowed".into(),
            body: "use POST /fire/<key> with X-HK-Fire-Token".into()
        }
    );
    let health = b"GET / HTTP/1.1\r\nHost: 127.0.0.1\r\n\r\n";
    assert_eq!(
        local_fire_request(health, tok),
        LocalFire::Answer { status: "200 OK".into(), body: "ok".into() }
    );
    let usage = b"DELETE /x HTTP/1.1\r\nPOST /fire/2-0 HTTP/1.1\r\nX-HK-Fire-Token: abcdef0123456789\r\n\r\n";
    assert_eq!(
        local_fire_request(usage, tok),
        LocalFire::Answer {
            status: "400 Bad Request".into(),
            body: "usage: POST /fire/0-2-0 with X-HK-Fire-Token (legacy 2-0 maps to bank 0)".into()
        }
    );
    let slashes = b"POST /fire//2-0/ HTTP/1.1\nx-hk-fire-token: abcdef0123456789\n\n";
    assert_eq!(local_fire_request(slashes, tok), LocalFire::Fire { key: "2-0".into() });
    assert_eq!(
        http_text_response("200 OK", "h\u{e9}"),
        "HTTP/1.1 200 OK\r\nContent-Type: text/plain\r\nContent-Length: 3\r\nConnection: close\r\n\r\nh\u{e9}"
    );
}

#[test]
fn dongle_readiness_messages_per_need() {
    assert_eq!(dongle_readiness(&status(false, None, None, None), DongleNeed::Slots), Ok(false));
    assert_eq!(dongle_readiness(&status(true, Some(true), Some(true), Some(true)), DongleNeed::Macros), Ok(true));
    assert_eq!(
        dongle_readiness(&status(true, Some(false), Some(true), Some(true)), DongleNeed::Slots),
        Err("S3 dongle owns the pad but is not protocol v0.3; refusing BlueZ fallback".into())
    );
    assert_eq!(
        dongle_readiness(&status(true, Some(true), None, Some(true)), DongleNeed::Capacity),
        Err("S3 dongle owns the pad but its slots proxy is not ready; zero banks written".into())
    );
    assert_eq!(
        dongle_readiness(&status(true, Some(true), Some(false), None), DongleNeed::Restore),
        Err("dongle cannot restore BankSel because its v0.3 slots proxy is unavailable".into())
    );
    assert_eq!(
        dongle_readiness(&status(true, Some(true), Some(true), None), DongleNeed::Macros),
        Err("S3 dongle owns the pad but MacroEvent forwarding is not ready".into())
    );
}

#[test]
fn merged_status_takes_bluez_identity() {
    let mut dongle = status(true, Some(true), Some(true), Some(true));
    dongle.address = "via-s3-dongle".into();
    let mut bluez = status(false, None, None, None);
    bluez.address = "11:22".into();
    bluez.name = Some("Cyberdeck Pad".into());
    bluez.bluez_blocked = Some(true);
    let merged = merge_dongle_status(dongle, Some(bluez));
    assert_eq!(merged.address, "11:22");
    assert_eq!(merged.name.as_deref(), Some("Cyberdeck Pad"));
    assert_eq!(merged.bluez_blocked, Some(true));
    assert!(merged.connected);
}

#[test]
fn multi_bank_write_reports() {
    assert_eq!(bank_write_count(ProfilePadWrite::Untouched, 5), 0);
    assert_eq!(bank_write_count(ProfilePadWrite::BankZero, 5), 1);
    assert_eq!(bank_write_count(ProfilePadWrite::AllBanks, 5), 5);
    assert_eq!(pad_slot_count(ProfilePadWrite::AllBanks), 90);
    assert_eq!(pad_slot_count(ProfilePadWrite::BankZero), 18);
    assert_eq!(transport_of("wrote bank 2 via S3 dongle"), "S3 dongle");
    assert_eq!(transport_of("wrote bank 2 via BlueZ"), "BlueZ");
    assert_eq!(pad_sync_report(5, 5, 2, None, Ok(()), "S3 dongle"), Ok("wrote 5 banks / 90 slots via S3 dongle".into()));
    assert_eq!(pad_sync_report(1, 1, 0, None, Ok(()), "BlueZ"), Ok("wrote 1 bank / 18 slots via BlueZ".into()));
    assert_eq!(
        pad_sync_report(2, 5, 3, Some("timeout".into()), Err("gone".into()), "BlueZ"),
        Err("pad sync stopped after 2/5 banks: timeout; restore bank 3: gone".into())
    );
    assert_eq!(
        pad_sync_report(2, 5, 3, Some("timeout".into()), Ok(()), "BlueZ"),
        Err("pad sync stopped after 2/5 banks: timeout; restore bank 3: ok".into())
    );
    assert_eq!(
        pad_sync_report(5, 5, 1, None, Err("busy".into()), "BlueZ"),
        Err("wrote 5/5 banks but failed to restore bank 1: busy".into())
    );
}

#[test]
fn listener_announces_bank_once_and_fires_scoped_keys() {
    let mut last = None;
    let poll = DonglePoll { selected_bank: 2, macro_event: Some(MacroEvent { bank: 2, preset: 1, action: 0 }) };
    let step = listener_poll_step(&mut last, &poll);
    assert_eq!(step.bank_changed, Some(2));
    assert_eq!(step.fire_key.as_deref(), Some("2-1-0"));
    let quiet = DonglePoll { selected_bank: 2, macro_event: None };
    let step = listener_poll_step(&mut last, &quiet);
    assert_eq!(step.bank_changed, None);
    assert_eq!(step.fire_key, None);
    assert_eq!(last, Some(2));
}

#[test]
fn git_sync_paths_and_names() {
    assert_eq!(hk_config_dir("/home/u/.config/hk"), "/home/u/.config/hk/hk-config");
    assert_eq!(profiles_repo_dir("/c"), "/c/hk-config/profiles");
    assert_eq!(settings_path("/c/"), "/c/settings.json");
    assert_eq!(sanitize_profile_name("  a/b\\c\0d  "), Ok("a_b_c_d".into()));
    assert_eq!(sanitize_profile_name("   "), Err("profile name required".into()));
    assert_eq!(profile_file_path("/c", " dev "), Ok("/c/hk-config/profiles/dev.json".into()));
}

#[test]
fn gh_auth_status_reads_account_and_detail() {
    let out = "github.com\n  \u{2713} Logged in to github.com account octo (keyring)\n".to_string();
    let st = gh_auth_status(Ok((0, out, String::new())));
    assert!(st.logged_in);
    assert_eq!(st.user.as_deref(), Some("octo"));
    assert_eq!(st.detail, "github.com\n  \u{2713} Logged in to github.com account octo (keyring)");
    let st = gh_auth_status(Ok((0, "  ".into(), "Logged in as someone\n".into())));
    assert!(st.logged_in);
    assert_eq!(st.user, None);
    assert_eq!(st.detail, "Logged in as someone");
    let filled = login_fallback(st, Ok((0, "octo\n".into(), String::new())));
    assert_eq!(filled.user.as_deref(), Some("octo"));
    let out = gh_auth_status(Ok((1, "not ".into(), "logged in \n".into())));
    assert!(!out.logged_in);
    assert_eq!(out.detail, "not logged in");
    let err = gh_auth_status(Err("gh failed to start".into()));
    assert!(!err.logged_in);
    assert_eq!(err.detail, "gh failed to start");
}

#[test]
fn remote_and_pull_push_decisions() {
    assert_eq!(remote_url("  "), Err("remote URL required".into()));
    assert_eq!(remote_url(" git@github.com:me/hk-config.git "), Ok("git@github.com:me/hk-config.git".into()));
    assert_eq!(remote_url("https://github.com/me/hk-config.git"), Ok("https://github.com/me/hk-config.git".into()));
    assert_eq!(remote_url("ssh://git@github.com/me/hk-config.git"), Ok("ssh://git@github.com/me/hk-config.git".into()));
    for bad in [
        "file:///tmp/evil.git",
        "http://github.com/me/x.git",
        "https://gitlab.com/me/x.git",
        "https://github.com.evil.example/me/x.git",
        "git@x:y.git",
        "https://github.com/",
    ] {
        assert_eq!(remote_url(bad), Err(format!("remote must be a github.com HTTPS or SSH URL, got {bad}")));
    }
    assert!(validate_git_remote_url("git@github.com:me/x.git").is_ok());
    assert!(validate_git_remote_url(" git@github.com:me/x.git").is_err());
    let set = remote_calls("R", Ok("upstream\norigin\n".into()));
    assert_eq!(set.len(), 1);
    assert_eq!(set[0].args, vec!["remote", "set-url", "origin", "R"]);
    let add = remote_calls("R", Ok("upstream\n".into()));
    assert_eq!(add[0].args, vec!["remote", "add", "origin", "R"]);
    let replace = remote_calls("R", Err("no repo".into()));
    assert_eq!(replace.len(), 2);
    assert!(!replace[0].must_succeed);
    assert_eq!(replace[1].args, vec!["remote", "add", "origin", "R"]);
    assert_eq!(remote_known(&None, &None), Err("No remote set \u{2014} add a GitHub URL first".into()));
    assert_eq!(remote_known(&None, &Some("o".into())), Ok(()));
    assert_eq!(pull_message(Ok(String::new()), None), Ok("Already up to date".into()));
    assert_eq!(pull_message(Err("no main".into()), Some(Ok("ff".into()))), Ok("ff".into()));
    assert_eq!(pull_message(Err("no main".into()), Some(Err("no master".into()))), Err("no main".into()));
    assert!(porcelain_dirty(" M profiles/a.json\n"));
    assert!(!porcelain_dirty("  \n"));
    assert_eq!(push_message(Ok(String::new()), None), "Pushed");
    assert_eq!(push_message(Err("rejected".into()), Some(Err("also".into()))), "rejected");
}

#[test]
fn github_repo_creation_decisions() {
    let out = GhAuthStatus { logged_in: false, user: None, detail: String::new() };
    assert_eq!(
        repo_create_args(&out, "x", true, "/r"),
        Err("GitHub auth required \u{2014} click Login first".into())
    );
    let inn = GhAuthStatus { logged_in: true, user: Some("octo".into()), detail: String::new() };
    assert_eq!(repo_create_args(&inn, "  ", true, "/r"), Err("repo name required".into()));
    assert_eq!(
        repo_create_args(&inn, " hk ", false, "/r").unwrap(),
        vec!["repo", "create", "hk", "--public", "--source", "/r", "--remote", "origin", "--push"]
    );
    assert_eq!(existing_repo_url(&Some("octo".into()), "hk"), Some("git@github.com:octo/hk.git".into()));
    assert_eq!(existing_repo_url(&Some(String::new()), "hk"), None);
    assert_eq!(created_remote(Err("none".into()), &Some("octo".into()), "hk"), "git@github.com:octo/hk.git");
    assert_eq!(created_remote(Ok("o".into()), &None, "hk"), "o");
    assert_eq!(created_remote(Err("none".into()), &None, "hk"), "");
}

#[test]
fn sync_status_prefers_origin_when_repo_exists() {
    let settings = GitSyncSettings { remote: Some("cfg".into()), ..GitSyncSettings::default() };
    let auth = GhAuthStatus { logged_in: false, user: None, detail: String::new() };
    let st = sync_status(
        "/c".into(),
        "/c/hk-config".into(),
        true,
        settings,
        Some("origin-url".into()),
        Some("main".into()),
        Some(" M x\n".into()),
        vec!["dev".into()],
        auth,
    );
    assert_eq!(st.remote.as_deref(), Some("origin-url"));
    assert_eq!(st.branch.as_deref(), Some("main"));
    assert!(st.dirty);
    let settings = GitSyncSettings { remote: Some("cfg".into()), ..GitSyncSettings::default() };
    let auth = GhAuthStatus { logged_in: false, user: None, detail: String::new() };
    let st = sync_status("/c".into(), "/c/hk-config".into(), false, settings, None, Some("main".into()), None, Vec::new(), auth);
    assert_eq!(st.remote.as_deref(), Some("cfg"));
    assert_eq!(st.branch, None);
    assert!(!st.dirty);
}

#[test]
fn composer_config_default_has_three_commands() {
    let c = ComposerConfig::default();
    assert_eq!(c.commands, vec!["/help", "/review", "/plan"]);
}
