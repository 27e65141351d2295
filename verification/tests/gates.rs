use hk_operator::dispatch::{
    command_gate, command_value_fingerprint, known_action_type, merge_allowlist_after_profile,
    resolve_binding_action_id, retain_allowlist_for_save, unknown_type_err, url_gate,
    url_scheme_allowed, AllowedCommands,
};
use hk_operator::fire_api::{
    classify_fire_route, extract_fire_token, fire_curl_exec, fire_token_authorized, FireRoute,
};
use hk_operator::paths::{
    config_dir_from_store, expand_user_path, join_path, path_has_unsafe_chars, path_is_within,
    outside_roots_error, profiles_dir, resolve_profile_request, root_confines,
};
use hk_operator::strmap::{StrMap, StrSet};
use hk_operator::ydotool_sock::{
    resolve_ydotool_socket_path, socket_mode_allows_non_owner, ydotoold_spawn_args,
    YDOTOOLD_SOCKET_MODE,
};

fn set(items: &[&str]) -> StrSet {
    let mut s = StrSet::new();
    for i in items {
        s.insert(i);
    }
    s
}

#[test]
fn url_allows_http_https_only() {
    assert!(url_scheme_allowed("http://example.com"));
    assert!(url_scheme_allowed("https://example.com/x"));
    assert!(!url_scheme_allowed("ftp://example.com"));
    assert!(!url_scheme_allowed("example.com"));
    assert!(!url_scheme_allowed(""));
    assert!(!url_scheme_allowed("HTTPS://example.com"));
    assert_eq!(url_gate("ftp://x").unwrap_err(), "Blocked: not an http(s) URL");
}

#[test]
fn command_allowlist_by_action_id() {
    let mut allowed = StrSet::new();
    assert!(command_gate(&allowed, "a1", "Run ls").is_err());
    allowed.insert("a1");
    assert!(command_gate(&allowed, "a1", "Run ls").is_ok());
    assert!(command_gate(&allowed, "a2", "Other").is_err());
    assert_eq!(
        command_gate(&allowed, "a2", "Other").unwrap_err(),
        "Command \"Other\" not allowed yet \u{2014} approve it in the UI first"
    );
}

#[test]
fn unknown_types_rejected() {
    assert!(known_action_type("url"));
    assert!(known_action_type("composer"));
    assert!(!known_action_type("boom"));
    assert_eq!(unknown_type_err("boom"), "unknown action type: boom");
}

#[test]
fn binding_resolution_messages() {
    let mut bindings: StrMap<String> = StrMap::new();
    let mut ids = StrSet::new();
    assert_eq!(
        resolve_binding_action_id(&bindings, &ids, "2-0").unwrap_err(),
        "no binding for slot 2-0"
    );
    bindings.insert("2-0", "missing".into());
    assert_eq!(
        resolve_binding_action_id(&bindings, &ids, "2-0").unwrap_err(),
        "binding 2-0 points to missing action"
    );
    ids.insert("missing");
    assert_eq!(resolve_binding_action_id(&bindings, &ids, "2-0").unwrap(), "missing");
}

#[test]
fn classifies_health_and_fire_post() {
    assert_eq!(
        classify_fire_route("GET / HTTP/1.1\r\nHost: 127.0.0.1\r\n\r\n"),
        FireRoute::Health
    );
    assert_eq!(
        classify_fire_route("POST /fire/2-0 HTTP/1.1\r\n\r\n"),
        FireRoute::Fire { key: "2-0".into() }
    );
    assert_eq!(
        classify_fire_route("GET /fire/2-0 HTTP/1.1\r\n\r\n"),
        FireRoute::FireGetRejected
    );
}

#[test]
fn token_from_header_and_bearer() {
    let req = "POST /fire/2-0 HTTP/1.1\r\nX-HK-Fire-Token: abcdef0123456789\r\n\r\n";
    assert_eq!(extract_fire_token(req).as_deref(), Some("abcdef0123456789"));
    let req2 = "POST /fire/2-0 HTTP/1.1\r\nAuthorization: Bearer deadbeef\r\n\r\n";
    assert_eq!(extract_fire_token(req2).as_deref(), Some("deadbeef"));
    assert!(!fire_token_authorized(req2, "other"));
    assert!(fire_token_authorized(req2, "deadbeef"));
}

#[test]
fn curl_exec_includes_header() {
    let e = fire_curl_exec("2-1", "aa11");
    assert!(e.contains("X-HK-Fire-Token: aa11"));
    assert!(e.contains("/fire/2-1"));
    assert!(e.contains("-X POST"));
}

#[test]
fn empty_expected_token_never_authorizes() {
    assert!(!fire_token_authorized(
        "POST /fire/0-0 HTTP/1.1\r\nX-HK-Fire-Token: x\r\n\r\n",
        ""
    ));
}

#[test]
fn retain_allowlist_intersection_semantics() {
    let mut allowed: AllowedCommands = StrMap::new();
    for id in ["a1", "a2", "gone"] {
        allowed.insert(id, String::new());
    }
    let actions = set(&["a1", "a2", "a3"]);
    merge_allowlist_after_profile(&mut allowed, &actions, 0);
    assert!(allowed.contains("a1"));
    assert!(!allowed.contains("gone"));
    assert!(!allowed.contains("a3"));
}

#[test]
fn fire_routes_edge_cases() {
    assert_eq!(classify_fire_route("POST /fire// HTTP/1.1\r\n"), FireRoute::Other);
    assert_eq!(classify_fire_route("POST /fire//1-2/ HTTP/1.1\r\n"), FireRoute::Fire { key: "1-2".into() });
    assert_eq!(classify_fire_route("GET /?x=1 HTTP/1.1\r\n"), FireRoute::Health);
    assert_eq!(classify_fire_route("GET /"), FireRoute::Health);
    assert_eq!(classify_fire_route("PUT /x HTTP/1.1\r\n"), FireRoute::Other);
    assert_eq!(classify_fire_route("\r\nPOST /fire/1-1 HTTP/1.1\r\n"), FireRoute::Other);
    assert_eq!(classify_fire_route("junk\r\nPOST /fire/1-1 HTTP/1.1\r\n"), FireRoute::Other);
    assert_eq!(
        classify_fire_route("DELETE /x HTTP/1.1\r\nPOST /fire/2-0 HTTP/1.1\r\n\r\n"),
        FireRoute::Other
    );
    assert_eq!(extract_fire_token("x\r\nauthorization: Basic abc\r\nX-HK-Fire-Token: t\r\n").as_deref(), Some("t"));
    assert_eq!(
        extract_fire_token("POST /fire/2-0 HTTP/1.1\r\nAuthorization: Basic Zm9v\r\nX-HK-Fire-Token: abc\r\n\r\n")
            .as_deref(),
        Some("abc")
    );
    assert_eq!(extract_fire_token("Authorization: Basic abc\r\n"), None);
    assert_eq!(extract_fire_token("x-hk-fire-token:   \r\nAuthorization: bearer t2\r\n").as_deref(), Some("t2"));
}

#[test]
fn does_not_install_profile_allowlist() {
    let mut live = AllowedCommands::new();
    live.insert("keep", command_value_fingerprint("echo keep"));
    let actions = set(&["keep", "new"]);
    let stats = merge_allowlist_after_profile(&mut live, &actions, 2);
    assert_eq!(stats.profile_allowlist_ignored, 2);
    assert!(live.contains("keep"));
    assert!(!live.contains("evil"));
    assert!(!live.contains("new"));
    assert_eq!(stats.retained_allowlist, 1);
}

#[test]
fn drops_allowlist_ids_removed_from_actions() {
    let mut live = AllowedCommands::new();
    live.insert("a", "1".into());
    live.insert("b", "2".into());
    let actions = set(&["a"]);
    merge_allowlist_after_profile(&mut live, &actions, 0);
    assert_eq!(live.count(), 1);
    assert!(live.contains("a"));
}

#[test]
fn empty_live_stays_empty_even_if_profile_reported_entries() {
    let mut live = AllowedCommands::new();
    let actions = set(&["x"]);
    let stats = merge_allowlist_after_profile(&mut live, &actions, 1);
    assert_eq!(live.count(), 0);
    assert_eq!(stats.profile_allowlist_ignored, 1);
}

#[test]
fn save_store_ignores_incoming_expansion_and_fp_forge() {
    let mut live = AllowedCommands::new();
    live.insert("ok", command_value_fingerprint("echo ok"));
    let actions = set(&["ok", "evil"]);
    let merged = retain_allowlist_for_save(&live, &actions);
    assert_eq!(merged.count(), 1);
    assert_eq!(
        merged.get("ok").map(String::as_str),
        Some(command_value_fingerprint("echo ok").as_str())
    );
    assert!(!merged.contains("evil"));
}

#[test]
fn save_store_drops_allowlist_when_action_removed() {
    let mut live = AllowedCommands::new();
    live.insert("gone", "dead".into());
    live.insert("stay", "alive".into());
    let actions = set(&["stay"]);
    let merged = retain_allowlist_for_save(&live, &actions);
    assert_eq!(merged.count(), 1);
    assert!(merged.contains("stay"));
}

#[test]
fn path_is_within_checks_prefix() {
    assert!(path_is_within(
        "/home/u/.config/hk-operator/profiles/a.json",
        "/home/u/.config/hk-operator/profiles"
    ));
    assert!(!path_is_within(
        "/home/u/.config/hk-operator/store.json",
        "/home/u/.config/hk-operator/profiles"
    ));
}

#[test]
fn path_containment_is_by_component() {
    assert!(!path_is_within("/a/profiles-evil/x.json", "/a/profiles"));
    assert!(path_is_within("/a//profiles/./x.json", "/a/profiles/"));
    assert!(path_is_within("/a/profiles", "/a/profiles"));
    assert!(!path_is_within("/a/profiles/../x.json", "/a/profiles/x"));
}

#[test]
fn mode_0600_is_owner_only() {
    assert!(!socket_mode_allows_non_owner(0o600));
    assert!(!socket_mode_allows_non_owner(0o600 | 0o100000));
}

#[test]
fn mode_0666_is_rejected() {
    assert!(socket_mode_allows_non_owner(0o666));
    assert!(socket_mode_allows_non_owner(0o606));
    assert!(socket_mode_allows_non_owner(0o660));
}

#[test]
fn spawn_args_use_0600_not_0666() {
    let args = ydotoold_spawn_args("/run/user/1000/hk-operator/ydotool.sock");
    assert_eq!(args[0], "-p");
    assert_eq!(args[2], "-P");
    assert_eq!(args[3], "0600");
    assert!(!args.iter().any(|a| a == "0666"));
}

#[test]
fn default_path_avoids_tmp_when_runtime_set() {
    let args = ydotoold_spawn_args("/x/y.sock");
    assert_eq!(args[3], YDOTOOLD_SOCKET_MODE);
    assert!(!args.iter().any(|a| a.contains("/tmp/.ydotool")));
}

#[test]
fn socket_path_preference_order() {
    assert_eq!(resolve_ydotool_socket_path(Some("/s"), Some("/run/u"), None, None), "/s");
    assert_eq!(
        resolve_ydotool_socket_path(None, Some("/run/u"), Some("/c"), None),
        "/run/u/hk-operator/ydotool.sock"
    );
    assert_eq!(resolve_ydotool_socket_path(None, Some(""), Some("/c/"), None), "/c/ydotool.sock");
    assert_eq!(
        resolve_ydotool_socket_path(None, None, None, Some("/home/u/.config")),
        "/home/u/.config/hk-operator/ydotool.sock"
    );
    assert_eq!(resolve_ydotool_socket_path(None, None, None, None), "./hk-operator/ydotool.sock");
}

#[test]
fn profile_request_rules() {
    let roots = vec!["/p".to_string(), "/g".to_string()];
    assert_eq!(resolve_profile_request(" dev ", &roots, None).unwrap(), "/p/dev.json");
    assert_eq!(resolve_profile_request("dev.JSON", &roots, None).unwrap(), "/p/dev.JSON.json");
    assert_eq!(resolve_profile_request("dev.json", &roots, None).unwrap(), "/p/dev.json");
    assert_eq!(resolve_profile_request("~/x/a.json", &roots, Some("/home/u")).unwrap(), "/home/u/x/a.json");
    assert_eq!(resolve_profile_request("/x/notes.txt", &roots, None).unwrap_err(), "profile import must be a .json file");
    assert_eq!(resolve_profile_request("/x/a.Json", &roots, None).unwrap(), "/x/a.Json");
    assert_eq!(resolve_profile_request("  ", &roots, None).unwrap_err(), "profile path required");
    assert_eq!(resolve_profile_request("a\nb", &roots, None).unwrap_err(), "profile path contains invalid characters");
    assert_eq!(resolve_profile_request("a", &Vec::new(), None).unwrap_err(), "no allowed profile directories configured");
    assert!(path_has_unsafe_chars("a\0"));
    assert_eq!(expand_user_path("~", Some("/h")), "/h");
    assert_eq!(expand_user_path(" ~/a ", None), "~/a");
    assert_eq!(join_path("a", "/b"), "/b");
}

#[test]
fn canonical_profile_must_lie_in_an_allowed_root() {
    let inside = root_confines("/home/u/p/dev.json", &Ok("/home/u/p".to_string()));
    assert_eq!(inside, Some(Ok("/home/u/p/dev.json".to_string())));
    assert_eq!(root_confines("/home/u/secret.json", &Ok("/home/u/p".to_string())), None);
    assert_eq!(root_confines("/home/u/p-evil/a.json", &Ok("/home/u/p".to_string())), None);
    assert_eq!(
        root_confines("/home/u/p/dev.json", &Err("cannot resolve allowed profile dir: gone".to_string())),
        Some(Err("cannot resolve allowed profile dir: gone".to_string()))
    );
    assert_eq!(
        outside_roots_error(),
        "profile import path not allowed \u{2014} use ~/.config/hk-operator/profiles/ or hk-config/profiles/"
    );
}

#[test]
fn store_relative_directories() {
    assert_eq!(config_dir_from_store("/home/u/.config/hk-operator/store.json"), "/home/u/.config/hk-operator");
    assert_eq!(profiles_dir("/home/u/.config/hk-operator/store.json"), "/home/u/.config/hk-operator/profiles");
    assert_eq!(config_dir_from_store("store.json"), "");
    assert_eq!(profiles_dir("store.json"), "profiles");
    assert_eq!(config_dir_from_store("/store.json"), "/");
    assert_eq!(config_dir_from_store(""), ".");
}
