//! The command center's store: actions, pad bindings keyed
//! `bank-preset-action`, command approvals bound to the exact command text,
//! composers and the pad's slot banks; how the single-bank format migrates,
//! and how a portable profile is applied to a live store.

use vstd::prelude::*;
use crate::strmap::{StrMap, StrSet};
use crate::dispatch::merge_allowlist_after_profile;
use crate::text::{
    chars_of, push_all, push_decimal, decimal, trim, trimmed, split_on, split_pieces, Sep,
    parse_unsigned, parse_unsigned_range, lemma_chars_deep, digit_char, debug_shown, debug_quoted,
    chars_are,
};
use crate::slots::{
    HotkeySlot, PadSlots, BANK_COUNT, PRESET_COUNT, ACTION_COUNT, SLOT_COUNT, MODE_HID,
};
use crate::composer::{ComposerConfig, ConfigView, texts, copy_strings, same_strings};

verus! {

broadcast use vstd::string::group_string_axioms;

/// The store format this build reads and writes.
pub const STORE_SCHEMA_VERSION: u8 = 3;

/// One action the pad or the UI can run.
pub struct Action {
    pub id: String,
    pub name: String,
    pub category: String,
    pub description: String,
    /// `url`, `path`, `prompt`, `note`, `composer`, `composer-commit`,
    /// `composer-reset` or `command`.
    pub type_: String,
    pub value: String,
    pub tags: Vec<String>,
    pub favorite: bool,
    pub last_used: Option<String>,
    pub created_at: String,
}

/// An action by its values.
pub struct ActionView {
    pub id: Seq<char>,
    pub name: Seq<char>,
    pub category: Seq<char>,
    pub description: Seq<char>,
    pub type_: Seq<char>,
    pub value: Seq<char>,
    pub tags: Seq<Seq<char>>,
    pub favorite: bool,
    pub last_used: Option<Seq<char>>,
    pub created_at: Seq<char>,
}

pub open spec fn opt_text(o: Option<String>) -> Option<Seq<char>> {
    match o {
        Some(s) => Some(s@),
        None => None,
    }
}

impl Action {
    pub open spec fn view(&self) -> ActionView {
        ActionView {
            id: self.id@,
            name: self.name@,
            category: self.category@,
            description: self.description@,
            type_: self.type_@,
            value: self.value@,
            tags: texts(self.tags@),
            favorite: self.favorite,
            last_used: opt_text(self.last_used),
            created_at: self.created_at@,
        }
    }

    /// A copy with the same values.
    pub fn copy(&self) -> (r: Self)
        ensures
            r.view() == self.view(),
    {
        Action {
            id: self.id.clone(),
            name: self.name.clone(),
            category: self.category.clone(),
            description: self.description.clone(),
            type_: self.type_.clone(),
            value: self.value.clone(),
            tags: copy_strings(&self.tags),
            favorite: self.favorite,
            last_used: match &self.last_used {
                Some(s) => Some(s.clone()),
                None => None,
            },
            created_at: self.created_at.clone(),
        }
    }

    /// Whether two actions hold the same values.
    pub fn same(&self, other: &Action) -> (r: bool)
        ensures
            r == (self.view() == other.view()),
    {
        let last_same = match (&self.last_used, &other.last_used) {
            (Some(a), Some(b)) => *a == *b,
            (None, None) => true,
            _ => false,
        };
        self.id == other.id && self.name == other.name && self.category == other.category
            && self.description == other.description && self.type_ == other.type_ && self.value
            == other.value && same_strings(&self.tags, &other.tags) && self.favorite == other.favorite
            && last_same && self.created_at == other.created_at
    }
}

/// The ids of a list of actions.
pub open spec fn action_ids(a: Seq<Action>) -> Seq<Seq<char>> {
    a.map_values(|x: Action| x.id@)
}

/// The views of a list of actions.
pub open spec fn action_views(a: Seq<Action>) -> Seq<ActionView> {
    a.map_values(|x: Action| x.view())
}

/// The binding key `"{bank}-{preset}-{action}"`.
pub open spec fn canonical_key(bank: nat, preset: nat, action: nat) -> Seq<char> {
    decimal(bank) + seq!['-'] + decimal(preset) + seq!['-'] + decimal(action)
}

/// A binding key read as `(bank, preset, action, legacy)`: `preset-action`
/// is the single-bank form, read as bank 0; `bank-preset-action` names its
/// bank. Each part is a decimal number; all must be in range.
pub open spec fn binding_parts(key: Seq<char>) -> Option<(nat, nat, nat, bool)> {
    let p = split_on(key, Sep::Char('-'));
    let parsed = if p.len() == 2 {
        match (parse_unsigned(p[0], usize::MAX as nat), parse_unsigned(p[1], usize::MAX as nat)) {
            (Some(x), Some(y)) => Some((0nat, x, y, true)),
            _ => None,
        }
    } else if p.len() == 3 {
        match (
            parse_unsigned(p[0], usize::MAX as nat),
            parse_unsigned(p[1], usize::MAX as nat),
            parse_unsigned(p[2], usize::MAX as nat),
        ) {
            (Some(x), Some(y), Some(z)) => Some((x, y, z, false)),
            _ => None,
        }
    } else {
        None
    };
    match parsed {
        Some((b, pr, a, l)) => if b < BANK_COUNT && pr < PRESET_COUNT && a < ACTION_COUNT {
            Some((b, pr, a, l))
        } else {
            None
        },
        None => None,
    }
}

fn parse_piece(v: &Vec<Vec<char>>, i: usize) -> (r: Option<u64>)
    requires
        i < v@.len(),
    ensures
        match r {
            Some(x) => parse_unsigned(v.deep_view()[i as int], usize::MAX as nat) == Some(x as nat),
            None => parse_unsigned(v.deep_view()[i as int], usize::MAX as nat) is None,
        },
{
    proof {
        lemma_chars_deep(v@[i as int]);
        assert(v@[i as int]@.subrange(0, v@[i as int]@.len() as int) =~= v@[i as int]@);
    }
    parse_unsigned_range(&v[i], 0, v[i].len(), usize::MAX as u64)
}

/// Reads a binding key.
pub fn parse_binding_key(key: &str) -> (r: Option<(usize, usize, usize, bool)>)
    ensures
        match r {
            Some((b, p, a, l)) => binding_parts(key@) == Some((b as nat, p as nat, a as nat, l)),
            None => binding_parts(key@) is None,
        },
{
    let v = chars_of(key);
    let parts = split_pieces(&v, &Sep::Char('-'));
    let parsed: Option<(u64, u64, u64, bool)> = if parts.len() == 2 {
        match (parse_piece(&parts, 0), parse_piece(&parts, 1)) {
            (Some(x), Some(y)) => Some((0, x, y, true)),
            _ => None,
        }
    } else if parts.len() == 3 {
        match (parse_piece(&parts, 0), parse_piece(&parts, 1), parse_piece(&parts, 2)) {
            (Some(x), Some(y), Some(z)) => Some((x, y, z, false)),
            _ => None,
        }
    } else {
        None
    };
    match parsed {
        Some((b, p, a, l)) => {
            if b < BANK_COUNT as u64 && p < PRESET_COUNT as u64 && a < ACTION_COUNT as u64 {
                Some((b as usize, p as usize, a as usize, l))
            } else {
                None
            }
        },
        None => None,
    }
}

/// A bank-scoped key in range is read back as itself.
pub proof fn lemma_canonical_parts(bank: nat, preset: nat, action: nat)
    requires
        bank < BANK_COUNT,
        preset < PRESET_COUNT,
        action < ACTION_COUNT,
    ensures
        binding_parts(canonical_key(bank, preset, action)) == Some((bank, preset, action, false)),
{
    let k = canonical_key(bank, preset, action);
    let db = digit_char(bank);
    let dp = digit_char(preset);
    let da = digit_char(action);
    assert(decimal(bank) == seq![db]);
    assert(decimal(preset) == seq![dp]);
    assert(decimal(action) == seq![da]);
    assert(k =~= seq![db, '-', dp, '-', da]);
    let s1 = seq![db];
    let s2 = seq![db, '-'];
    let s3 = seq![db, '-', dp];
    let s4 = seq![db, '-', dp, '-'];
    assert(s1.drop_last() =~= Seq::<char>::empty());
    assert(s2.drop_last() =~= s1);
    assert(s3.drop_last() =~= s2);
    assert(s4.drop_last() =~= s3);
    assert(k.drop_last() =~= s4);
    assert(split_on(Seq::<char>::empty(), Sep::Char('-')) == seq![Seq::<char>::empty()]);
    assert(split_on(s1, Sep::Char('-')) =~= seq![seq![db]]);
    assert(split_on(s2, Sep::Char('-')) =~= seq![seq![db], Seq::<char>::empty()]);
    assert(split_on(s3, Sep::Char('-')) =~= seq![seq![db], seq![dp]]);
    assert(split_on(s4, Sep::Char('-')) =~= seq![seq![db], seq![dp], Seq::<char>::empty()]);
    assert(split_on(k, Sep::Char('-')) =~= seq![seq![db], seq![dp], seq![da]]);
    assert(seq![db].drop_last() =~= Seq::<char>::empty());
    assert(seq![dp].drop_last() =~= Seq::<char>::empty());
    assert(seq![da].drop_last() =~= Seq::<char>::empty());
    assert(crate::text::unsigned_digits(seq![db]) =~= seq![db]);
    assert(crate::text::unsigned_digits(seq![dp]) =~= seq![dp]);
    assert(crate::text::unsigned_digits(seq![da]) =~= seq![da]);
    assert(db as int == bank + 48);
    assert(dp as int == preset + 48);
    assert(da as int == action + 48);
    assert(seq![db].last() == db);
    assert(seq![dp].last() == dp);
    assert(seq![da].last() == da);
    assert(crate::text::digits_value(Seq::<char>::empty()) == 0);
    assert(crate::text::digits_value(seq![db]) == bank);
    assert(crate::text::digits_value(seq![dp]) == preset);
    assert(crate::text::digits_value(seq![da]) == action);
    assert(crate::text::all_digits(seq![db]));
    assert(crate::text::all_digits(seq![dp]));
    assert(crate::text::all_digits(seq![da]));
    assert(parse_unsigned(seq![db], usize::MAX as nat) == Some(bank));
    assert(parse_unsigned(seq![dp], usize::MAX as nat) == Some(preset));
    assert(parse_unsigned(seq![da], usize::MAX as nat) == Some(action));
}

/// A key in the single-bank `preset-action` form.
pub open spec fn is_legacy(k: Seq<char>) -> bool {
    binding_parts(k) matches Some((_, _, _, l)) && l
}

/// The bank-0 key a single-bank key moves to.
pub open spec fn legacy_target(k: Seq<char>) -> Seq<char> {
    match binding_parts(k) {
        Some((b, p, a, _)) => canonical_key(b, p, a),
        None => k,
    }
}

/// Whether `new` is a migration of `old`: every key that is not in the
/// single-bank form stays with its value (bank-scoped keys, and unreadable
/// keys kept for manual recovery); each single-bank key moves to its bank-0
/// key unless that key is already there; when several single-bank keys
/// move to one key, one of their values is kept.
pub open spec fn migrated(old: Map<Seq<char>, String>, new: Map<Seq<char>, String>) -> bool {
    &&& forall|k: Seq<char>| #[trigger] new.contains_key(k) <==> ((old.contains_key(k) && !is_legacy(k))
        || exists|k2: Seq<char>| old.contains_key(k2) && is_legacy(k2) && #[trigger] legacy_target(k2) == k)
    &&& forall|k: Seq<char>| old.contains_key(k) && !is_legacy(k) ==> #[trigger] new[k] == old[k]
    &&& forall|k: Seq<char>| #[trigger] new.contains_key(k) && !(old.contains_key(k) && !is_legacy(k)) ==> exists|k2: Seq<char>|
        old.contains_key(k2) && is_legacy(k2) && #[trigger] legacy_target(k2) == k && new[k] == old[k2]
}

/// A legacy key's target is a bank-scoped key.
proof fn lemma_target_not_legacy(k: Seq<char>)
    requires
        is_legacy(k),
    ensures
        binding_parts(legacy_target(k)) matches Some((_, _, _, l)) && !l,
{
    let (b, p, a, l) = binding_parts(k).unwrap();
    lemma_canonical_parts(b, p, a);
}

/// Moves single-bank keys to their bank-0 keys. A bank-scoped key that is
/// already there wins over a single-bank key that moves onto it.
pub fn migrate_pad_bindings(bindings: &StrMap<String>) -> (r: StrMap<String>)
    requires
        bindings.wf(),
    ensures
        r.wf(),
        migrated(bindings@, r@),
{
    let n = bindings.len();
    let mut out: StrMap<String> = StrMap::new();
    let mut i: usize = 0;
    while i < n
        invariant
            bindings.wf(),
            out.wf(),
            n == bindings.size(),
            i <= n,
            out@ == Map::new(
                |k: Seq<char>| bindings.seen(i as int, k) && (binding_parts(k) matches Some((_, _, _, l)) && !l),
                |k: Seq<char>| bindings@[k],
            ),
        decreases n - i,
    {
        let k = bindings.key(i);
        proof {
            bindings.lemma_at(i as int);
        }
        let explicit = match parse_binding_key(k.as_str()) {
            Some((_, _, _, legacy)) => !legacy,
            None => false,
        };
        if explicit {
            let v = bindings.value(i).clone();
            out.insert(k.as_str(), v);
        }
        proof {
            assert forall|kk: Seq<char>| #[trigger] bindings.seen(i + 1, kk) == (bindings.seen(i as int, kk) || kk
                == bindings.key_at(i as int)) by {
                if bindings.seen(i + 1, kk) {
                    let j = choose|j: int| 0 <= j < i + 1 && #[trigger] bindings.key_at(j) == kk;
                    if j < i {
                    }
                }
                if kk == bindings.key_at(i as int) {
                    assert(bindings.key_at(i as int) == kk);
                }
            }
            assert(out@ =~= Map::new(
                |kk: Seq<char>| bindings.seen(i + 1, kk) && (binding_parts(kk) matches Some((_, _, _, l)) && !l),
                |kk: Seq<char>| bindings@[kk],
            ));
        }
        i = i + 1;
    }
    proof {
        assert forall|kk: Seq<char>| #[trigger] bindings@.contains_key(kk) implies bindings.seen(n as int, kk) by {
            bindings.lemma_key(kk);
        }
        assert forall|kk: Seq<char>| #[trigger] bindings.seen(n as int, kk) implies bindings@.contains_key(kk) by {
            let j = choose|j: int| 0 <= j < n && #[trigger] bindings.key_at(j) == kk;
            bindings.lemma_at(j);
        }
        assert forall|kk: Seq<char>| #[trigger] out@.contains_key(kk) <==> (bindings@.contains_key(kk) && (
            binding_parts(kk) matches Some((_, _, _, l)) && !l)) by {
            if bindings@.contains_key(kk) {
                assert(bindings.seen(n as int, kk));
            }
        }
    }
    let mut i: usize = 0;
    while i < n
        invariant
            bindings.wf(),
            out.wf(),
            n == bindings.size(),
            i <= n,
            forall|kk: Seq<char>| #[trigger] bindings@.contains_key(kk) ==> bindings.seen(n as int, kk),
            forall|kk: Seq<char>| #[trigger] out@.contains_key(kk) <==> ((bindings@.contains_key(kk) && (
                binding_parts(kk) matches Some((_, _, _, l)) && !l)) || (bindings.seen(i as int, kk) && binding_parts(kk) is None)
                || exists|j: int| 0 <= j < i && is_legacy(bindings.key_at(j)) && #[trigger] legacy_target(bindings.key_at(j)) == kk),
            forall|kk: Seq<char>| bindings@.contains_key(kk) && (binding_parts(kk) matches Some((_, _, _, l)) && !l) ==> #[trigger] out@[kk]
                == bindings@[kk],
            forall|kk: Seq<char>| bindings.seen(i as int, kk) && binding_parts(kk) is None ==> #[trigger] out@[kk] == bindings@[kk],
            forall|kk: Seq<char>| #[trigger] out@.contains_key(kk) && !(bindings@.contains_key(kk) && !is_legacy(kk)) ==> exists|j: int|
                0 <= j < i && is_legacy(bindings.key_at(j)) && #[trigger] legacy_target(bindings.key_at(j)) == kk && out@[kk] == bindings.value_at(j),
        decreases n - i,
    {
        let k = bindings.key(i);
        let ghost kv = k@;
        proof {
            bindings.lemma_at(i as int);
        }
        match parse_binding_key(k.as_str()) {
            Some((b, p, a, true)) => {
                let t = PadSlots::bank_binding_key(b, p, a);
                proof {
                    lemma_target_not_legacy(kv);
                }
                if !out.contains(t.as_str()) {
                    let v = bindings.value(i).clone();
                    out.insert(t.as_str(), v);
                }
            },
            Some((_, _, _, false)) => {},
            None => {
                proof {
                    assert(!bindings.seen(i as int, kv)) by {
                        if bindings.seen(i as int, kv) {
                            let j = choose|j: int| 0 <= j < i && #[trigger] bindings.key_at(j) == kv;
                            bindings.lemma_distinct(j, i as int);
                        }
                    }
                    assert forall|j: int| 0 <= j < i && is_legacy(bindings.key_at(j)) implies #[trigger] legacy_target(bindings.key_at(j)) != kv by {
                        lemma_target_not_legacy(bindings.key_at(j));
                    }
                    assert(!out@.contains_key(kv));
                }
                let v = bindings.value(i).clone();
                out.insert(k.as_str(), v);
            },
        }
        proof {
            assert forall|kk: Seq<char>| #[trigger] bindings.seen(i + 1, kk) == (bindings.seen(i as int, kk) || kk
                == bindings.key_at(i as int)) by {
                if bindings.seen(i + 1, kk) {
                    let j = choose|j: int| 0 <= j < i + 1 && #[trigger] bindings.key_at(j) == kk;
                    if j < i {
                    }
                }
                if kk == bindings.key_at(i as int) {
                    assert(bindings.key_at(i as int) == kk);
                }
            }
        }
        i = i + 1;
    }
    proof {
        let old = bindings@;
        let new = out@;
        assert forall|kk: Seq<char>| #[trigger] new.contains_key(kk) <==> ((old.contains_key(kk) && !is_legacy(kk))
            || exists|k2: Seq<char>| old.contains_key(k2) && is_legacy(k2) && #[trigger] legacy_target(k2) == kk) by {
            if exists|j: int| 0 <= j < n && is_legacy(bindings.key_at(j)) && #[trigger] legacy_target(bindings.key_at(j)) == kk {
                let j = choose|j: int| 0 <= j < n && is_legacy(bindings.key_at(j)) && #[trigger] legacy_target(bindings.key_at(j)) == kk;
                bindings.lemma_at(j);
            }
            if exists|k2: Seq<char>| old.contains_key(k2) && is_legacy(k2) && #[trigger] legacy_target(k2) == kk {
                let k2 = choose|k2: Seq<char>| old.contains_key(k2) && is_legacy(k2) && #[trigger] legacy_target(k2) == kk;
                bindings.lemma_key(k2);
                let j = choose|j: int| 0 <= j < n && #[trigger] bindings.key_at(j) == k2;
                assert(legacy_target(bindings.key_at(j)) == kk);
            }
            if old.contains_key(kk) && binding_parts(kk) is None {
                assert(bindings.seen(n as int, kk));
            }
        }
        assert forall|kk: Seq<char>| old.contains_key(kk) && !is_legacy(kk) implies #[trigger] new[kk] == old[kk] by {
            if binding_parts(kk) is None {
                assert(bindings.seen(n as int, kk));
            }
        }
        assert forall|kk: Seq<char>| #[trigger] new.contains_key(kk) && !(old.contains_key(kk) && !is_legacy(kk)) implies exists|k2: Seq<char>|
            old.contains_key(k2) && is_legacy(k2) && #[trigger] legacy_target(k2) == kk && new[kk] == old[k2] by {
            let j = choose|j: int| 0 <= j < n && is_legacy(bindings.key_at(j)) && #[trigger] legacy_target(bindings.key_at(j)) == kk && new[kk] == bindings.value_at(j);
            bindings.lemma_at(j);
            let k2 = bindings.key_at(j);
            assert(old.contains_key(k2) && is_legacy(k2) && legacy_target(k2) == kk && new[kk] == old[k2]);
        }
    }
    out
}

/// After migration no single-bank key remains, and no binding is lost:
/// each single-bank key's bank-0 key is bound.
pub proof fn law_migration_complete(old: Map<Seq<char>, String>, new: Map<Seq<char>, String>)
    requires
        migrated(old, new),
    ensures
        forall|k: Seq<char>| #[trigger] new.contains_key(k) ==> !is_legacy(k),
        forall|k: Seq<char>| old.contains_key(k) && is_legacy(k) ==> new.contains_key(#[trigger] legacy_target(k)),
{
    assert forall|k: Seq<char>| #[trigger] new.contains_key(k) implies !is_legacy(k) by {
        if !(old.contains_key(k) && !is_legacy(k)) {
            let k2 = choose|k2: Seq<char>| old.contains_key(k2) && is_legacy(k2) && #[trigger] legacy_target(k2) == k;
            lemma_target_not_legacy(k2);
        }
    }
    assert forall|k: Seq<char>| old.contains_key(k) && is_legacy(k) implies new.contains_key(#[trigger] legacy_target(k)) by {
        assert(old.contains_key(k) && is_legacy(k) && legacy_target(k) == legacy_target(k));
    }
}

/// Migrating twice changes nothing the second time.
pub proof fn law_migration_idempotent(
    old: Map<Seq<char>, String>,
    once: Map<Seq<char>, String>,
    twice: Map<Seq<char>, String>,
)
    requires
        migrated(old, once),
        migrated(once, twice),
    ensures
        twice == once,
{
    law_migration_complete(old, once);
    assert forall|k: Seq<char>| #[trigger] twice.contains_key(k) == once.contains_key(k) by {
        if twice.contains_key(k) && !(once.contains_key(k) && !is_legacy(k)) {
            let k2 = choose|k2: Seq<char>| once.contains_key(k2) && is_legacy(k2) && #[trigger] legacy_target(k2) == k;
        }
    }
    assert(twice =~= once);
}

/// A bank-scoped binding is never overridden by a single-bank binding that
/// moves onto the same key.
pub proof fn law_explicit_binding_wins(
    old: Map<Seq<char>, String>,
    new: Map<Seq<char>, String>,
    bank_key: Seq<char>,
)
    requires
        migrated(old, new),
        old.contains_key(bank_key),
        binding_parts(bank_key) matches Some((_, _, _, l)) && !l,
    ensures
        new.contains_key(bank_key),
        new[bank_key] == old[bank_key],
{
}

/// Whether id `i` is a problem: blank after trimming, or an earlier id.
pub open spec fn id_problem(ids: Seq<Seq<char>>, i: int) -> bool {
    trim(ids[i]).len() == 0 || exists|j: int| 0 <= j < i && ids[j] == #[trigger] ids[i]
}

/// The first problem id from `from` on.
pub open spec fn first_id_problem(ids: Seq<Seq<char>>, from: int) -> Option<int>
    decreases ids.len() - from,
{
    if from < 0 || from >= ids.len() {
        None
    } else if id_problem(ids, from) {
        Some(from)
    } else {
        first_id_problem(ids, from + 1)
    }
}

/// What the id check says of a list of action ids: the first problem, or
/// none.
pub open spec fn ids_verdict(ids: Seq<Seq<char>>) -> Result<(), Seq<char>> {
    match first_id_problem(ids, 0) {
        None => Ok(()),
        Some(i) => if trim(ids[i]).len() == 0 {
            Err("action at index "@ + decimal(i as nat) + " has an empty id"@)
        } else {
            Err("duplicate action id "@ + debug_shown(ids[i]))
        },
    }
}

/// Action ids must be non-blank and unique.
pub fn validate_action_ids(actions: &Vec<Action>) -> (r: Result<(), String>)
    ensures
        match r {
            Ok(()) => ids_verdict(action_ids(actions@)) is Ok,
            Err(e) => ids_verdict(action_ids(actions@)) == Err::<(), Seq<char>>(e@),
        },
{
    let mut seen = StrSet::new();
    let mut i: usize = 0;
    let ghost ids = action_ids(actions@);
    while i < actions.len()
        invariant
            i <= actions.len(),
            seen.wf(),
            ids == action_ids(actions@),
            forall|k: Seq<char>| #[trigger] seen@.contains(k) <==> exists|j: int| 0 <= j < i && actions@[j].id@ == k,
            first_id_problem(ids, 0) == first_id_problem(ids, i as int),
        decreases actions.len() - i,
    {
        let id = &actions[i].id;
        let t = trimmed(id.as_str());
        if t.as_str().is_empty() {
            let mut m = "action at index ".to_string();
            push_decimal(&mut m, i as u64);
            push_all(&mut m, " has an empty id");
            return Err(m);
        }
        if seen.contains(id.as_str()) {
            proof {
                let j = choose|j: int| 0 <= j < i && actions@[j].id@ == id@;
                assert(ids[j] == ids[i as int]);
                assert(id_problem(ids, i as int));
            }
            let mut m = "duplicate action id ".to_string();
            let q = debug_quoted(id.as_str());
            push_all(&mut m, q.as_str());
            return Err(m);
        }
        proof {
            assert(ids[i as int] == id@);
            assert forall|j: int| 0 <= j < i implies ids[j] != #[trigger] ids[i as int] by {
                assert(ids[j] == actions@[j].id@);
            }
            assert(!id_problem(ids, i as int));
        }
        seen.insert(id.as_str());
        proof {
            assert forall|k: Seq<char>| #[trigger] seen@.contains(k) <==> exists|j: int| 0 <= j < i + 1 && actions@[j].id@ == k by {
                if seen@.contains(k) && k != id@ {
                    let j = choose|j: int| 0 <= j < i && actions@[j].id@ == k;
                }
                if exists|j: int| 0 <= j < i + 1 && actions@[j].id@ == k {
                    let j = choose|j: int| 0 <= j < i + 1 && actions@[j].id@ == k;
                    if j < i {
                        assert(exists|j2: int| 0 <= j2 < i && actions@[j2].id@ == k);
                    }
                }
            }
        }
        i = i + 1;
    }
    Ok(())
}

/// The check a bank number passes: one of the pad's banks.
pub fn validate_bank(bank: u8) -> (r: Result<(), String>)
    ensures
        r is Ok <==> (bank as usize) < BANK_COUNT,
        r matches Err(e) ==> e@ == crate::dongle::bank_range_message(bank),
{
    if bank as usize >= BANK_COUNT {
        let mut m = "bank ".to_string();
        push_decimal(&mut m, bank as u64);
        push_all(&mut m, " outside 0..");
        push_decimal(&mut m, (BANK_COUNT - 1) as u64);
        return Err(m);
    }
    Ok(())
}

/// The default composer's settings.
pub open spec fn default_config_view() -> ConfigView {
    ConfigView {
        commands: seq!["/help"@, "/review"@, "/plan"@],
        separator: " "@,
        timeout_ms: 60_000,
        reset_on: seq!["explicitClear"@, "space"@],
    }
}

/// The composers a store starts with: `ai`, with the default commands.
pub open spec fn default_composers_hold(m: StrMap<ComposerConfig>) -> bool {
    &&& m.wf()
    &&& m@.dom() == set!["ai"@]
    &&& m@["ai"@].view() == default_config_view()
}

/// The composers a store starts with.
pub fn default_composers() -> (m: StrMap<ComposerConfig>)
    ensures
        default_composers_hold(m),
{
    let mut m: StrMap<ComposerConfig> = StrMap::new();
    let c = ComposerConfig::default();
    assert(texts(c.commands@) =~= seq!["/help"@, "/review"@, "/plan"@]);
    assert(texts(c.reset_on@) =~= seq!["explicitClear"@, "space"@]);
    m.insert("ai", c);
    assert(m@.dom() =~= set!["ai"@]);
    m
}

/// One bank of empty HID slots.
pub fn empty_slot_bank() -> (r: Vec<HotkeySlot>)
    ensures
        r@.len() == SLOT_COUNT,
        forall|i: int| 0 <= i < SLOT_COUNT ==> (#[trigger] r@[i]).mode == MODE_HID && r@[i].modifier == 0
            && r@[i].key == 0 && r@[i].label@.len() == 0,
{
    let mut r: Vec<HotkeySlot> = Vec::new();
    let mut i: usize = 0;
    while i < SLOT_COUNT
        invariant
            i <= SLOT_COUNT,
            r@.len() == i,
            forall|j: int| 0 <= j < i ==> (#[trigger] r@[j]).mode == MODE_HID && r@[j].modifier == 0 && r@[j].key
                == 0 && r@[j].label@.len() == 0,
        decreases SLOT_COUNT - i,
    {
        r.push(HotkeySlot { mode: MODE_HID, modifier: 0, key: 0, label: String::new() });
        i = i + 1;
    }
    r
}

/// Whether banks have the stored shape: five banks of eighteen slots.
pub open spec fn banks_shaped(b: Seq<Vec<HotkeySlot>>) -> bool {
    b.len() == BANK_COUNT && forall|i: int| 0 <= i < b.len() ==> (#[trigger] b[i])@.len() == SLOT_COUNT
}

fn all_banks_full(banks: &Vec<Vec<HotkeySlot>>) -> (r: bool)
    ensures
        r == banks_shaped(banks@),
{
    if banks.len() != BANK_COUNT {
        return false;
    }
    let mut i: usize = 0;
    while i < banks.len()
        invariant
            banks@.len() == BANK_COUNT,
            i <= banks.len(),
            forall|j: int| 0 <= j < i ==> (#[trigger] banks@[j])@.len() == SLOT_COUNT,
        decreases banks.len() - i,
    {
        if banks[i].len() != SLOT_COUNT {
            return false;
        }
        i = i + 1;
    }
    true
}

/// Whether stored banks have the expected shape.
pub fn valid_pad_banks(banks: &Option<Vec<Vec<HotkeySlot>>>) -> (r: bool)
    ensures
        r == (banks matches Some(b) && banks_shaped(b@)),
{
    match banks {
        Some(b) => all_banks_full(b),
        None => false,
    }
}

/// Pad slots as a file holds them: one legacy bank, or every bank.
pub enum PadSlotsWire {
    Flat(Vec<HotkeySlot>),
    Banks(Vec<Vec<HotkeySlot>>),
}

/// What a profile's pad slots must look like: a legacy bank of eighteen
/// slots, or five such banks.
pub open spec fn profile_slots_verdict(s: Option<PadSlotsWire>) -> Result<(), Seq<char>> {
    match s {
        None => Ok(()),
        Some(PadSlotsWire::Flat(v)) => if v@.len() == SLOT_COUNT {
            Ok(())
        } else {
            Err("legacy profile padSlots has "@ + decimal(v@.len()) + " entries, expected "@ + decimal(
                SLOT_COUNT as nat,
            ))
        },
        Some(PadSlotsWire::Banks(b)) => if banks_shaped(b@) {
            Ok(())
        } else {
            Err("profile padSlots must be "@ + decimal(BANK_COUNT as nat) + " banks of "@ + decimal(
                SLOT_COUNT as nat,
            ) + " entries (got "@ + decimal(b@.len()) + " banks)"@)
        },
    }
}

/// Checks a profile's pad slots.
pub fn validate_profile_pad_slots(slots: &Option<PadSlotsWire>) -> (r: Result<(), String>)
    ensures
        match r {
            Ok(()) => profile_slots_verdict(*slots) is Ok,
            Err(e) => profile_slots_verdict(*slots) == Err::<(), Seq<char>>(e@),
        },
{
    match slots {
        None => Ok(()),
        Some(PadSlotsWire::Flat(v)) => {
            if v.len() == SLOT_COUNT {
                Ok(())
            } else {
                let mut m = "legacy profile padSlots has ".to_string();
                push_decimal(&mut m, v.len() as u64);
                push_all(&mut m, " entries, expected ");
                push_decimal(&mut m, SLOT_COUNT as u64);
                Err(m)
            }
        },
        Some(PadSlotsWire::Banks(b)) => {
            if all_banks_full(b) {
                Ok(())
            } else {
                let mut m = "profile padSlots must be ".to_string();
                push_decimal(&mut m, BANK_COUNT as u64);
                push_all(&mut m, " banks of ");
                push_decimal(&mut m, SLOT_COUNT as u64);
                push_all(&mut m, " entries (got ");
                push_decimal(&mut m, b.len() as u64);
                push_all(&mut m, " banks)");
                Err(m)
            }
        },
    }
}

/// Whether a profile carries every bank.
pub fn profile_has_all_banks(slots: &Option<PadSlotsWire>) -> (r: bool)
    ensures
        r == (slots matches Some(PadSlotsWire::Banks(b)) && banks_shaped(b@)),
{
    match slots {
        Some(PadSlotsWire::Banks(b)) => all_banks_full(b),
        _ => false,
    }
}

/// The composer an action drives: its trimmed value, for the composer
/// action types, when not blank.
pub open spec fn composer_of(a: ActionView) -> Option<Seq<char>> {
    if (a.type_ == "composer"@ || a.type_ == "composer-commit"@ || a.type_ == "composer-reset"@)
        && trim(a.value).len() > 0 {
        Some(trim(a.value))
    } else {
        None
    }
}

/// The composer an action drives, if any.
pub fn action_composer_id(action: &Action) -> (r: Option<String>)
    ensures
        opt_text(r) == composer_of(action.view()),
{
    let t = chars_of(action.type_.as_str());
    if !(chars_are(&t, "composer") || chars_are(&t, "composer-commit") || chars_are(&t, "composer-reset")) {
        return None;
    }
    let v = trimmed(action.value.as_str());
    if v.as_str().is_empty() {
        None
    } else {
        Some(v)
    }
}

/// The store.
pub struct Store {
    pub schema_version: u8,
    pub actions: Vec<Action>,
    /// `bank-preset-action` key to action id.
    pub pad_bindings: StrMap<String>,
    /// Command action ids the operator approved.
    pub allowed_commands: StrSet,
    /// For each approval, the exact command text that was reviewed.
    pub approved_command_values: StrMap<String>,
    /// Names of presets 1 to 6, for the operator only.
    pub pad_preset_names: Vec<String>,
    /// Composers by id.
    pub composers: StrMap<ComposerConfig>,
    /// Five banks of eighteen slots, when known.
    pub pad_slots: Option<Vec<Vec<HotkeySlot>>>,
}

impl Store {
    pub open spec fn wf(&self) -> bool {
        &&& self.pad_bindings.wf()
        &&& self.allowed_commands.wf()
        &&& self.approved_command_values.wf()
        &&& self.composers.wf()
    }

    /// An empty store of the current schema with the default composer.
    pub fn new() -> (s: Self)
        ensures
            s.wf(),
            s.schema_version == STORE_SCHEMA_VERSION,
            s.actions@.len() == 0,
            s.pad_bindings@ == Map::<Seq<char>, String>::empty(),
            s.allowed_commands@ == Set::<Seq<char>>::empty(),
            s.approved_command_values@ == Map::<Seq<char>, String>::empty(),
            s.pad_preset_names@.len() == 0,
            default_composers_hold(s.composers),
            s.pad_slots is None,
    {
        Store {
            schema_version: STORE_SCHEMA_VERSION,
            actions: Vec::new(),
            pad_bindings: StrMap::new(),
            allowed_commands: StrSet::new(),
            approved_command_values: StrMap::new(),
            pad_preset_names: Vec::new(),
            composers: default_composers(),
            pad_slots: None,
        }
    }
}

impl Default for Store {
    fn default() -> (s: Self)
        ensures
            s.wf(),
            s.schema_version == STORE_SCHEMA_VERSION,
            s.actions@.len() == 0,
            s.pad_bindings@ == Map::<Seq<char>, String>::empty(),
            s.allowed_commands@ == Set::<Seq<char>>::empty(),
            s.approved_command_values@ == Map::<Seq<char>, String>::empty(),
            s.pad_preset_names@.len() == 0,
            default_composers_hold(s.composers),
            s.pad_slots is None,
    {
        Store::new()
    }
}

/// The text of the last command action with id `k`.
pub open spec fn command_value(a: Seq<Action>, k: Seq<char>) -> Option<Seq<char>>
    decreases a.len(),
{
    if a.len() == 0 {
        None
    } else if a.last().type_@ == "command"@ && a.last().id@ == k {
        Some(a.last().value@)
    } else {
        command_value(a.drop_last(), k)
    }
}

/// Whether approval `k` still stands: a command action `k` exists and its
/// text is the text that was approved.
pub open spec fn approval_stands(a: Seq<Action>, approved: Map<Seq<char>, String>, k: Seq<char>) -> bool {
    command_value(a, k) matches Some(v) && approved.contains_key(k) && approved[k]@ == v
}

/// The approvals that survive: an id stays approved only while its command
/// text is the reviewed text, and a reviewed text is kept only for an id
/// that stays approved.
pub open spec fn reconciled(
    a: Seq<Action>,
    allowed0: Set<Seq<char>>,
    approved0: Map<Seq<char>, String>,
    allowed1: Set<Seq<char>>,
    approved1: Map<Seq<char>, String>,
) -> bool {
    &&& allowed1 == Set::new(|k: Seq<char>| allowed0.contains(k) && approval_stands(a, approved0, k))
    &&& approved1 == approved0.restrict(allowed1)
}

/// The command text of every command action, the last one for a repeated id.
fn command_values(actions: &Vec<Action>) -> (r: StrMap<String>)
    ensures
        r.wf(),
        forall|k: Seq<char>| #[trigger] r@.contains_key(k) <==> command_value(actions@, k) is Some,
        forall|k: Seq<char>| r@.contains_key(k) ==> Some(#[trigger] r@[k]@) == command_value(actions@, k),
{
    let mut r: StrMap<String> = StrMap::new();
    let mut i: usize = 0;
    while i < actions.len()
        invariant
            i <= actions.len(),
            r.wf(),
            forall|k: Seq<char>| #[trigger] r@.contains_key(k) <==> command_value(actions@.take(i as int), k) is Some,
            forall|k: Seq<char>| r@.contains_key(k) ==> Some(#[trigger] r@[k]@) == command_value(actions@.take(i as int), k),
        decreases actions.len() - i,
    {
        proof {
            assert(actions@.take(i + 1).drop_last() =~= actions@.take(i as int));
            assert(actions@.take(i + 1).last() == actions@[i as int]);
        }
        let a = &actions[i];
        if a.type_ == "command".to_string() {
            r.insert(a.id.as_str(), a.value.clone());
        }
        i = i + 1;
    }
    assert(actions@.take(actions.len() as int) =~= actions@);
    r
}

impl Store {
    /// Keeps an approval only while its action is a command whose text is
    /// still the reviewed text.
    pub fn reconcile_command_approvals(&mut self)
        requires
            old(self).wf(),
        ensures
            final(self).wf(),
            reconciled(
                old(self).actions@,
                old(self).allowed_commands@,
                old(self).approved_command_values@,
                final(self).allowed_commands@,
                final(self).approved_command_values@,
            ),
            final(self).actions == old(self).actions,
            final(self).schema_version == old(self).schema_version,
            final(self).pad_bindings == old(self).pad_bindings,
            final(self).pad_preset_names == old(self).pad_preset_names,
            final(self).composers == old(self).composers,
            final(self).pad_slots == old(self).pad_slots,
    {
        let valid = command_values(&self.actions);
        let ghost a = self.actions@;
        let ghost approved0 = self.approved_command_values@;
        let n = self.allowed_commands.len();
        let mut keep = StrSet::new();
        let mut i: usize = 0;
        while i < n
            invariant
                self.wf(),
                keep.wf(),
                valid.wf(),
                n == self.allowed_commands.size(),
                i <= n,
                a == self.actions@,
                approved0 == self.approved_command_values@,
                forall|k: Seq<char>| #[trigger] valid@.contains_key(k) <==> command_value(a, k) is Some,
                forall|k: Seq<char>| valid@.contains_key(k) ==> Some(#[trigger] valid@[k]@) == command_value(a, k),
                forall|k: Seq<char>| #[trigger] keep@.contains(k) <==> (self.allowed_commands.seen(i as int, k)
                    && approval_stands(a, approved0, k)),
            decreases n - i,
        {
            let k = self.allowed_commands.member(i);
            let stands = match (valid.get(k.as_str()), self.approved_command_values.get(k.as_str())) {
                (Some(v), Some(w)) => *v == *w,
                _ => false,
            };
            if stands {
                keep.insert(k.as_str());
            }
            proof {
                assert forall|kk: Seq<char>| #[trigger] self.allowed_commands.seen(i + 1, kk) == (
                self.allowed_commands.seen(i as int, kk) || kk == self.allowed_commands.member_at(i as int)) by {
                    if self.allowed_commands.seen(i + 1, kk) {
                        let j = choose|j: int| 0 <= j < i + 1 && #[trigger] self.allowed_commands.member_at(j) == kk;
                        if j < i {
                        }
                    }
                    if kk == self.allowed_commands.member_at(i as int) {
                        assert(self.allowed_commands.member_at(i as int) == kk);
                    }
                }
            }
            i = i + 1;
        }
        proof {
            assert forall|kk: Seq<char>| #[trigger] self.allowed_commands.seen(n as int, kk) == self.allowed_commands@.contains(kk) by {
                if self.allowed_commands.seen(n as int, kk) {
                    let j = choose|j: int| 0 <= j < n && #[trigger] self.allowed_commands.member_at(j) == kk;
                    self.allowed_commands.lemma_member(j);
                }
                if self.allowed_commands@.contains(kk) {
                    self.allowed_commands.lemma_element(kk);
                }
            }
            assert(keep@ =~= Set::new(|k: Seq<char>| self.allowed_commands@.contains(k) && approval_stands(a, approved0, k)));
        }
        self.approved_command_values.retain_keys(&keep);
        self.allowed_commands = keep;
    }

    /// The first command action with id `id`.
    pub fn command_action(&self, id: &str) -> (r: Option<&Action>)
        ensures
            match r {
                Some(x) => exists|i: int| 0 <= i < self.actions@.len() && self.actions@[i] == *x && x.id@ == id@
                    && x.type_@ == "command"@ && forall|j: int| 0 <= j < i ==> !(#[trigger] self.actions@[j].id@ == id@
                    && self.actions@[j].type_@ == "command"@),
                None => forall|j: int| 0 <= j < self.actions@.len() ==> !(#[trigger] self.actions@[j].id@ == id@
                    && self.actions@[j].type_@ == "command"@),
            },
    {
        let ids = id.to_string();
        let cmd = "command".to_string();
        let mut i: usize = 0;
        while i < self.actions.len()
            invariant
                i <= self.actions@.len(),
                ids@ == id@,
                cmd@ == "command"@,
                forall|j: int| 0 <= j < i ==> !(#[trigger] self.actions@[j].id@ == id@ && self.actions@[j].type_@
                    == "command"@),
            decreases self.actions@.len() - i,
        {
            if self.actions[i].id == ids && self.actions[i].type_ == cmd {
                return Some(&self.actions[i]);
            }
            i = i + 1;
        }
        None
    }

    /// Whether a command action may run: its id is approved and the
    /// approval was for exactly its current text.
    pub fn command_is_approved(&self, action: &Action) -> (b: bool)
        requires
            self.wf(),
        ensures
            b == (action.type_@ == "command"@ && self.allowed_commands@.contains(action.id@)
                && self.approved_command_values@.contains_key(action.id@)
                && self.approved_command_values@[action.id@]@ == action.value@),
    {
        if action.type_ != "command".to_string() {
            return false;
        }
        if !self.allowed_commands.contains(action.id.as_str()) {
            return false;
        }
        match self.approved_command_values.get(action.id.as_str()) {
            Some(v) => *v == action.value,
            None => false,
        }
    }
}

/// The message for a schema newer than this build's.
pub open spec fn newer_schema_message(what: Seq<char>, v: u8) -> Seq<char> {
    what + " schema "@ + decimal(v as nat) + " is newer than supported schema "@ + decimal(
        STORE_SCHEMA_VERSION as nat,
    )
}

fn newer_schema_error(what: &str, v: u8) -> (r: String)
    ensures
        r@ == newer_schema_message(what@, v),
{
    let mut m = what.to_string();
    push_all(&mut m, " schema ");
    push_decimal(&mut m, v as u64);
    push_all(&mut m, " is newer than supported schema ");
    push_decimal(&mut m, STORE_SCHEMA_VERSION as u64);
    m
}

/// A store brought to the current schema: bindings migrated, the default
/// composer when there is none, approvals reconciled; nothing else changed.
pub open spec fn normalized(old: Store, new: Store) -> bool {
    &&& new.wf()
    &&& new.schema_version == STORE_SCHEMA_VERSION
    &&& new.actions == old.actions
    &&& migrated(old.pad_bindings@, new.pad_bindings@)
    &&& if old.composers@.dom().len() == 0 {
        default_composers_hold(new.composers)
    } else {
        new.composers == old.composers
    }
    &&& reconciled(
        old.actions@,
        old.allowed_commands@,
        old.approved_command_values@,
        new.allowed_commands@,
        new.approved_command_values@,
    )
    &&& new.pad_preset_names == old.pad_preset_names
    &&& new.pad_slots == old.pad_slots
}

impl Store {
    /// Brings a loaded store to the current schema, refusing a newer schema
    /// and problem action ids, and leaving the store as it was then.
    pub fn normalize(&mut self) -> (r: Result<(), String>)
        requires
            old(self).wf(),
        ensures
            final(self).wf(),
            old(self).schema_version > STORE_SCHEMA_VERSION ==> (r matches Err(e) && e@
                == newer_schema_message("store"@, old(self).schema_version)) && *final(self) == *old(self),
            old(self).schema_version <= STORE_SCHEMA_VERSION && ids_verdict(action_ids(old(self).actions@)) is Err
                ==> (r matches Err(e) && ids_verdict(action_ids(old(self).actions@)) == Err::<(), Seq<char>>(e@))
                && *final(self) == *old(self),
            old(self).schema_version <= STORE_SCHEMA_VERSION && ids_verdict(action_ids(old(self).actions@)) is Ok
                ==> r is Ok && normalized(*old(self), *final(self)),
    {
        if self.schema_version > STORE_SCHEMA_VERSION {
            return Err(newer_schema_error("store", self.schema_version));
        }
        validate_action_ids(&self.actions)?;
        let ghost before = *self;
        self.pad_bindings = migrate_pad_bindings(&self.pad_bindings);
        self.schema_version = STORE_SCHEMA_VERSION;
        if self.composers.count() == 0 {
            self.composers = default_composers();
        }
        self.reconcile_command_approvals();
        Ok(())
    }
}

/// The banks a stored file's pad slots become: a legacy bank is bank 0 of
/// otherwise empty banks; a full set is taken as it is; anything else is
/// refused.
#[verifier::spinoff_prover]
pub fn pad_slots_from_wire(wire: Option<PadSlotsWire>) -> (r: Result<Option<Vec<Vec<HotkeySlot>>>, String>)
    ensures
        wire is None ==> (r matches Ok(o) && o is None),
        wire matches Some(PadSlotsWire::Flat(v)) ==> if v@.len() == SLOT_COUNT {
            r matches Ok(Some(b)) && b@.len() == BANK_COUNT && b@[0]@ == v@ && forall|i: int| 1 <= i < BANK_COUNT
                ==> #[trigger] b@[i]@.len() == SLOT_COUNT && forall|j: int| 0 <= j < SLOT_COUNT ==> (
                #[trigger] b@[i]@[j]).label@.len() == 0 && b@[i]@[j].mode == MODE_HID && b@[i]@[j].modifier == 0
                && b@[i]@[j].key == 0
        } else {
            r matches Err(e) && e@ == "legacy padSlots has "@ + decimal(v@.len()) + " entries, expected "@ + decimal(
                SLOT_COUNT as nat,
            )
        },
        wire matches Some(PadSlotsWire::Banks(b)) ==> if banks_shaped(b@) {
            r matches Ok(Some(x)) && x@ == b@
        } else {
            r matches Err(e) && e@ == "banked padSlots must be "@ + decimal(BANK_COUNT as nat) + " banks of "@
                + decimal(SLOT_COUNT as nat) + " entries (got "@ + decimal(b@.len()) + " banks)"@
        },
{
    match wire {
        None => Ok(None),
        Some(PadSlotsWire::Flat(v)) => {
            if v.len() != SLOT_COUNT {
                let mut m = "legacy padSlots has ".to_string();
                push_decimal(&mut m, v.len() as u64);
                push_all(&mut m, " entries, expected ");
                push_decimal(&mut m, SLOT_COUNT as u64);
                return Err(m);
            }
            Ok(Some(banks_with_zero(v)))
        },
        Some(PadSlotsWire::Banks(b)) => {
            if all_banks_full(&b) {
                Ok(Some(b))
            } else {
                let mut m = "banked padSlots must be ".to_string();
                push_decimal(&mut m, BANK_COUNT as u64);
                push_all(&mut m, " banks of ");
                push_decimal(&mut m, SLOT_COUNT as u64);
                push_all(&mut m, " entries (got ");
                push_decimal(&mut m, b.len() as u64);
                push_all(&mut m, " banks)");
                Err(m)
            }
        },
    }
}

/// `zero` as bank 0 of otherwise empty banks.
fn banks_with_zero(zero: Vec<HotkeySlot>) -> (b: Vec<Vec<HotkeySlot>>)
    ensures
        b@.len() == BANK_COUNT,
        b@[0]@ == zero@,
        forall|i: int| 1 <= i < BANK_COUNT ==> #[trigger] b@[i]@.len() == SLOT_COUNT && forall|j: int| 0 <= j < SLOT_COUNT
            ==> (#[trigger] b@[i]@[j]).label@.len() == 0 && b@[i]@[j].mode == MODE_HID && b@[i]@[j].modifier == 0
            && b@[i]@[j].key == 0,
{
    let mut b: Vec<Vec<HotkeySlot>> = Vec::new();
    b.push(zero);
    let mut i: usize = 1;
    while i < BANK_COUNT
        invariant
            1 <= i <= BANK_COUNT,
            b@.len() == i,
            b@[0]@ == zero@,
            forall|k: int| 1 <= k < i ==> #[trigger] b@[k]@.len() == SLOT_COUNT && forall|j: int| 0 <= j < SLOT_COUNT
                ==> (#[trigger] b@[k]@[j]).label@.len() == 0 && b@[k]@[j].mode == MODE_HID && b@[k]@[j].modifier == 0
                && b@[k]@[j].key == 0,
        decreases BANK_COUNT - i,
    {
        let ghost before = b@;
        let e = empty_slot_bank();
        b.push(e);
        proof {
            assert forall|k: int| 1 <= k < i + 1 implies #[trigger] b@[k]@.len() == SLOT_COUNT && forall|j: int| 0 <= j < SLOT_COUNT
                ==> (#[trigger] b@[k]@[j]).label@.len() == 0 && b@[k]@[j].mode == MODE_HID && b@[k]@[j].modifier == 0
                && b@[k]@[j].key == 0 by {
                if k < i {
                    assert(b@[k] == before[k]);
                } else {
                    assert(b@[k] == e);
                }
            }
        }
        i = i + 1;
    }
    b
}

/// A portable profile as read from a file.
pub struct ProfileFile {
    pub schema_version: u8,
    pub actions: Vec<Action>,
    pub pad_bindings: StrMap<String>,
    pub pad_preset_names: Vec<String>,
    pub composers: StrMap<ComposerConfig>,
    /// Approvals a profile may list; they are never installed.
    pub allowed_commands: StrSet,
    pub pad_slots: Option<PadSlotsWire>,
}

impl ProfileFile {
    pub open spec fn wf(&self) -> bool {
        &&& self.pad_bindings.wf()
        &&& self.composers.wf()
        &&& self.allowed_commands.wf()
    }
}

/// What applying a profile asks of the pad.
#[derive(Debug, Clone, Copy, PartialEq, Eq, Structural)]
pub enum ProfilePadWrite {
    /// The profile carries no pad slots.
    Untouched,
    BankZero,
    AllBanks,
}

/// Whether a profile may only replace bank 0: a legacy slot list, or an
/// older schema without a full set of banks.
pub open spec fn legacy_scope(p: ProfileFile) -> bool {
    (p.schema_version < STORE_SCHEMA_VERSION && !(p.pad_slots matches Some(PadSlotsWire::Banks(_))))
        || (p.pad_slots matches Some(PadSlotsWire::Flat(_)))
}

/// Whether a bank-scoped key for banks 1 to 4 binds action `id` in `m`.
pub open spec fn retained_id(m: Map<Seq<char>, String>, id: Seq<char>) -> bool {
    exists|k: Seq<char>| #[trigger] m.contains_key(k) && (binding_parts(k) matches Some((b, _, _, l)) && !l
        && b > 0) && m[k]@ == id
}

/// The ids of the actions banks 1 to 4 bind.
fn retained_ids(bindings: &StrMap<String>) -> (r: StrSet)
    requires
        bindings.wf(),
    ensures
        r.wf(),
        forall|id: Seq<char>| #[trigger] r@.contains(id) <==> retained_id(bindings@, id),
{
    let n = bindings.len();
    let mut r = StrSet::new();
    let mut i: usize = 0;
    while i < n
        invariant
            bindings.wf(),
            r.wf(),
            n == bindings.size(),
            i <= n,
            forall|id: Seq<char>| #[trigger] r@.contains(id) <==> exists|j: int| 0 <= j < i && (binding_parts(
                bindings.key_at(j),
            ) matches Some((b, _, _, l)) && !l && b > 0) && bindings.value_at(j)@ == id,
        decreases n - i,
    {
        let k = bindings.key(i);
        let keep = match parse_binding_key(k.as_str()) {
            Some((b, _, _, legacy)) => !legacy && b > 0,
            None => false,
        };
        if keep {
            r.insert(bindings.value(i).as_str());
        }
        proof {
            assert forall|id: Seq<char>| #[trigger] r@.contains(id) <==> exists|j: int| 0 <= j < i + 1 && (binding_parts(
                bindings.key_at(j),
            ) matches Some((b, _, _, l)) && !l && b > 0) && bindings.value_at(j)@ == id by {
                if exists|j: int| 0 <= j < i + 1 && (binding_parts(bindings.key_at(j)) matches Some((b, _, _, l)) && !l && b
                    > 0) && bindings.value_at(j)@ == id {
                    let j = choose|j: int| 0 <= j < i + 1 && (binding_parts(bindings.key_at(j)) matches Some((b, _, _, l))
                        && !l && b > 0) && bindings.value_at(j)@ == id;
                    if j < i {
                        assert(exists|j2: int| 0 <= j2 < i && (binding_parts(bindings.key_at(j2)) matches Some((b, _, _, l))
                            && !l && b > 0) && bindings.value_at(j2)@ == id);
                    }
                }
            }
        }
        i = i + 1;
    }
    proof {
        assert forall|id: Seq<char>| #[trigger] r@.contains(id) <==> retained_id(bindings@, id) by {
            if r@.contains(id) {
                let j = choose|j: int| 0 <= j < n && (binding_parts(bindings.key_at(j)) matches Some((b, _, _, l)) && !l
                    && b > 0) && bindings.value_at(j)@ == id;
                bindings.lemma_at(j);
                let k = bindings.key_at(j);
                assert(bindings@.contains_key(k));
            }
            if retained_id(bindings@, id) {
                let k = choose|k: Seq<char>| #[trigger] bindings@.contains_key(k) && (binding_parts(k) matches Some((
                    b,
                    _,
                    _,
                    l,
                )) && !l && b > 0) && bindings@[k]@ == id;
                bindings.lemma_key(k);
                let j = choose|j: int| 0 <= j < n && #[trigger] bindings.key_at(j) == k;
                bindings.lemma_at(j);
            }
        }
    }
    r
}

/// The first action of `a` with id `id`.
pub open spec fn action_with_id(a: Seq<Action>, id: Seq<char>) -> Option<Action>
    decreases a.len(),
{
    if a.len() == 0 {
        None
    } else if a[0].id@ == id {
        Some(a[0])
    } else {
        action_with_id(a.drop_first(), id)
    }
}

fn find_action<'a>(actions: &'a Vec<Action>, id: &String) -> (r: Option<&'a Action>)
    ensures
        match r {
            Some(x) => action_with_id(actions@, id@) == Some(*x),
            None => action_with_id(actions@, id@) is None,
        },
{
    let mut i: usize = 0;
    let ghost a = actions@;
    assert(a.skip(0) =~= a);
    while i < actions.len()
        invariant
            i <= a.len(),
            a == actions@,
            action_with_id(a, id@) == action_with_id(a.skip(i as int), id@),
        decreases a.len() - i,
    {
        assert(a.skip(i as int)[0] == a[i as int]);
        assert(a.skip(i as int).drop_first() =~= a.skip(i + 1));
        if actions[i].id == *id {
            return Some(&actions[i]);
        }
        i = i + 1;
    }
    assert(a.skip(i as int).len() == 0);
    None
}

/// Whether store action `i` is kept by banks 1 to 4 and the profile
/// redefines it differently.
pub open spec fn action_conflict(store: Store, p: ProfileFile, i: int) -> bool {
    retained_id(store.pad_bindings@, store.actions@[i].id@) && (action_with_id(p.actions@, store.actions@[i].id@) matches Some(
        imp,
    ) && imp.view() != store.actions@[i].view())
}

/// The first store action, from `from` on, in conflict.
pub open spec fn first_action_conflict(store: Store, p: ProfileFile, from: int) -> Option<int>
    decreases store.actions@.len() - from,
{
    if from < 0 || from >= store.actions@.len() {
        None
    } else if action_conflict(store, p, from) {
        Some(from)
    } else {
        first_action_conflict(store, p, from + 1)
    }
}

/// The store actions banks 1 to 4 keep that the profile does not define,
/// in store order.
pub open spec fn kept_actions(store: Store, p: ProfileFile, n: int) -> Seq<Action>
    decreases n,
{
    if n <= 0 {
        Seq::empty()
    } else {
        let rest = kept_actions(store, p, n - 1);
        let x = store.actions@[n - 1];
        if retained_id(store.pad_bindings@, x.id@) && action_with_id(p.actions@, x.id@) is None {
            rest.push(x)
        } else {
            rest
        }
    }
}

/// The composers of store actions banks 1 to 4 keep.
pub open spec fn kept_composer(store: Store, c: Seq<char>) -> bool {
    exists|i: int| 0 <= i < store.actions@.len() && retained_id(store.pad_bindings@, store.actions@[i].id@)
        && #[trigger] composer_of(store.actions@[i].view()) == Some(c)
}

/// The message for a redefined retained action.
pub open spec fn action_conflict_message(id: Seq<char>) -> Seq<char> {
    "legacy profile action "@ + debug_shown(id) + " conflicts with the action retained by banks 1\u{2013}"@
        + decimal((BANK_COUNT - 1) as nat)
}

/// The message for a redefined retained composer.
pub open spec fn composer_conflict_message(id: Seq<char>) -> Seq<char> {
    "legacy profile composer "@ + debug_shown(id) + " conflicts with the config retained by banks 1\u{2013}"@
        + decimal((BANK_COUNT - 1) as nat)
}

/// The retained actions a legacy profile adds to its own, and the
/// composers they use; or the first conflict.
fn collect_retained(store: &Store, profile: &ProfileFile, keep: &StrSet) -> (r: Result<(Vec<Action>, StrSet), String>)
    requires
        store.wf(),
        keep.wf(),
        forall|id: Seq<char>| #[trigger] keep@.contains(id) <==> retained_id(store.pad_bindings@, id),
    ensures
        match first_action_conflict(*store, *profile, 0) {
            Some(i) => r matches Err(e) && e@ == action_conflict_message(store.actions@[i].id@),
            None => r matches Ok((extra, comps)) && comps.wf() && action_views(extra@) == action_views(
                kept_actions(*store, *profile, store.actions@.len() as int),
            ) && forall|c: Seq<char>| #[trigger] comps@.contains(c) <==> kept_composer(*store, c),
        },
{
    let mut extra: Vec<Action> = Vec::new();
    let mut comps = StrSet::new();
    let mut i: usize = 0;
    let ghost a = store.actions@;
    while i < store.actions.len()
        invariant
            store.wf(),
            keep.wf(),
            comps.wf(),
            a == store.actions@,
            i <= a.len(),
            forall|id: Seq<char>| #[trigger] keep@.contains(id) <==> retained_id(store.pad_bindings@, id),
            first_action_conflict(*store, *profile, 0) == first_action_conflict(*store, *profile, i as int),
            action_views(extra@) == action_views(kept_actions(*store, *profile, i as int)),
            forall|c: Seq<char>| #[trigger] comps@.contains(c) <==> exists|j: int| 0 <= j < i && retained_id(
                store.pad_bindings@,
                a[j].id@,
            ) && #[trigger] composer_of(a[j].view()) == Some(c),
        decreases a.len() - i,
    {
        let x = &store.actions[i];
        if !keep.contains(x.id.as_str()) {
            proof {
                assert(!action_conflict(*store, *profile, i as int));
                assert(kept_actions(*store, *profile, i + 1) == kept_actions(*store, *profile, i as int));
                assert forall|c: Seq<char>| #[trigger] comps@.contains(c) <==> exists|j: int| 0 <= j < i + 1 && retained_id(
                    store.pad_bindings@,
                    a[j].id@,
                ) && #[trigger] composer_of(a[j].view()) == Some(c) by {
                    if exists|j: int| 0 <= j < i + 1 && retained_id(store.pad_bindings@, a[j].id@) && #[trigger] composer_of(
                        a[j].view(),
                    ) == Some(c) {
                        let j = choose|j: int| 0 <= j < i + 1 && retained_id(store.pad_bindings@, a[j].id@) && #[trigger] composer_of(
                            a[j].view(),
                        ) == Some(c);
                        assert(j < i);
                    }
                }
            }
            i = i + 1;
            continue;
        }
        match action_composer_id(x) {
            Some(c) => {
                comps.insert(c.as_str());
            },
            None => {},
        }
        proof {
            assert forall|c: Seq<char>| #[trigger] comps@.contains(c) <==> exists|j: int| 0 <= j < i + 1 && retained_id(
                store.pad_bindings@,
                a[j].id@,
            ) && #[trigger] composer_of(a[j].view()) == Some(c) by {
                if exists|j: int| 0 <= j < i + 1 && retained_id(store.pad_bindings@, a[j].id@) && #[trigger] composer_of(
                    a[j].view(),
                ) == Some(c) {
                    let j = choose|j: int| 0 <= j < i + 1 && retained_id(store.pad_bindings@, a[j].id@) && #[trigger] composer_of(
                        a[j].view(),
                    ) == Some(c);
                    if j < i {
                        assert(exists|j2: int| 0 <= j2 < i && retained_id(store.pad_bindings@, a[j2].id@) && #[trigger] composer_of(
                            a[j2].view(),
                        ) == Some(c));
                    }
                }
            }
        }
        match find_action(&profile.actions, &x.id) {
            Some(imp) => {
                if !imp.same(x) {
                    let mut m = "legacy profile action ".to_string();
                    let q = debug_quoted(x.id.as_str());
                    push_all(&mut m, q.as_str());
                    push_all(&mut m, " conflicts with the action retained by banks 1\u{2013}");
                    push_decimal(&mut m, (BANK_COUNT - 1) as u64);
                    proof {
                        assert(action_conflict(*store, *profile, i as int));
                    }
                    return Err(m);
                }
                proof {
                    assert(!action_conflict(*store, *profile, i as int));
                    assert(kept_actions(*store, *profile, i + 1) == kept_actions(*store, *profile, i as int));
                }
            },
            None => {
                let c = x.copy();
                let ghost before = extra@;
                extra.push(c);
                proof {
                    assert(!action_conflict(*store, *profile, i as int));
                    assert(kept_actions(*store, *profile, i + 1) == kept_actions(*store, *profile, i as int).push(a[i as int]));
                    assert(action_views(extra@) =~= action_views(before).push(a[i as int].view()));
                    assert(action_views(kept_actions(*store, *profile, i + 1)) =~= action_views(kept_actions(*store, *profile, i as int)).push(a[i as int].view()));
                }
            },
        }
        i = i + 1;
    }
    proof {
        assert forall|c: Seq<char>| #[trigger] comps@.contains(c) <==> kept_composer(*store, c) by {
            if comps@.contains(c) {
                let j = choose|j: int| 0 <= j < i && retained_id(store.pad_bindings@, a[j].id@) && #[trigger] composer_of(
                    a[j].view(),
                ) == Some(c);
                assert(composer_of(store.actions@[j].view()) == Some(c));
            }
        }
    }
    Ok((extra, comps))
}

/// Composer settings by value.
pub open spec fn views_of(m: Map<Seq<char>, ComposerConfig>) -> Map<Seq<char>, ConfigView> {
    Map::new(|k: Seq<char>| m.contains_key(k), |k: Seq<char>| m[k].view())
}

/// The composers a profile brings: its own, or the default one when it
/// lists none.
pub open spec fn imported_composers(p: ProfileFile) -> Map<Seq<char>, ConfigView> {
    if p.composers@.dom().len() == 0 {
        map!["ai"@ => default_config_view()]
    } else {
        views_of(p.composers@)
    }
}

/// Whether a composer kept by banks 1 to 4 is set differently by the
/// profile.
pub open spec fn composer_conflict(store: Store, p: ProfileFile, c: Seq<char>) -> bool {
    &&& kept_composer(store, c)
    &&& store.composers@.contains_key(c)
    &&& imported_composers(p).contains_key(c)
    &&& imported_composers(p)[c] != store.composers@[c].view()
}

/// The composers after a profile: the profile's, and for a legacy profile
/// also the ones banks 1 to 4 keep that the profile does not set.
pub open spec fn merged_composers(store: Store, p: ProfileFile, legacy: bool) -> Map<Seq<char>, ConfigView> {
    let imp = imported_composers(p);
    if legacy {
        Map::new(
            |c: Seq<char>| imp.contains_key(c) || (kept_composer(store, c) && store.composers@.contains_key(c)),
            |c: Seq<char>|
                if imp.contains_key(c) {
                    imp[c]
                } else {
                    store.composers@[c].view()
                },
        )
    } else {
        imp
    }
}

fn copy_composers(m: &StrMap<ComposerConfig>) -> (r: StrMap<ComposerConfig>)
    requires
        m.wf(),
    ensures
        r.wf(),
        views_of(r@) == views_of(m@),
{
    let n = m.len();
    let mut r: StrMap<ComposerConfig> = StrMap::new();
    let mut i: usize = 0;
    while i < n
        invariant
            m.wf(),
            r.wf(),
            n == m.size(),
            i <= n,
            views_of(r@) == Map::new(|k: Seq<char>| m.seen(i as int, k), |k: Seq<char>| m@[k].view()),
        decreases n - i,
    {
        proof {
            m.lemma_at(i as int);
        }
        let c = m.value(i).copy();
        let ghost prevv = views_of(r@);
        let ghost key = m.key_at(i as int);
        let ghost cview = c.view();
        r.insert(m.key(i).as_str(), c);
        proof {
            assert(views_of(r@) =~= prevv.insert(key, cview));
            assert(cview == m@[key].view());
            assert forall|kk: Seq<char>| #[trigger] m.seen(i + 1, kk) == (m.seen(i as int, kk) || kk == m.key_at(i as int)) by {
                if m.seen(i + 1, kk) {
                    let j = choose|j: int| 0 <= j < i + 1 && #[trigger] m.key_at(j) == kk;
                    if j < i {
                    }
                }
                if kk == m.key_at(i as int) {
                    assert(m.key_at(i as int) == kk);
                }
            }
            assert(views_of(r@) =~= Map::new(|k: Seq<char>| m.seen(i + 1, k), |k: Seq<char>| m@[k].view()));
        }
        i = i + 1;
    }
    proof {
        assert forall|kk: Seq<char>| #[trigger] m.seen(n as int, kk) == m@.contains_key(kk) by {
            if m.seen(n as int, kk) {
                let j = choose|j: int| 0 <= j < n && #[trigger] m.key_at(j) == kk;
                m.lemma_at(j);
            }
            if m@.contains_key(kk) {
                m.lemma_key(kk);
            }
        }
        assert(views_of(r@) =~= views_of(m@));
    }
    r
}

/// The composers after a profile, or a conflict with one banks 1 to 4 keep.
fn merge_composers(store: &Store, profile: &ProfileFile, comps: &StrSet, legacy: bool) -> (r: Result<
    StrMap<ComposerConfig>,
    String,
>)
    requires
        store.wf(),
        profile.wf(),
        comps.wf(),
        legacy ==> forall|c: Seq<char>| #[trigger] comps@.contains(c) <==> kept_composer(*store, c),
    ensures
        legacy && (exists|c: Seq<char>| #[trigger] composer_conflict(*store, *profile, c)) ==> (r matches Err(e)
            && exists|c: Seq<char>| #[trigger] composer_conflict(*store, *profile, c) && e@ == composer_conflict_message(c)),
        !(legacy && (exists|c: Seq<char>| #[trigger] composer_conflict(*store, *profile, c))) ==> (r matches Ok(m) && m.wf()
            && views_of(m@) == merged_composers(*store, *profile, legacy)),
{
    let mut imported = if profile.composers.count() == 0 {
        let d = default_composers();
        proof {
            assert(views_of(d@) =~= map!["ai"@ => default_config_view()]);
        }
        d
    } else {
        copy_composers(&profile.composers)
    };
    let ghost imp = imported_composers(*profile);
    assert(views_of(imported@) == imp);
    if !legacy {
        return Ok(imported);
    }
    let n = comps.len();
    let mut i: usize = 0;
    while i < n
        invariant
            store.wf(),
            comps.wf(),
            imported.wf(),
            n == comps.size(),
            i <= n,
            legacy,
            imp == imported_composers(*profile),
            forall|c: Seq<char>| #[trigger] comps@.contains(c) <==> kept_composer(*store, c),
            forall|c: Seq<char>| #[trigger] comps.seen(i as int, c) ==> !composer_conflict(*store, *profile, c),
            views_of(imported@) == Map::new(
                |c: Seq<char>| imp.contains_key(c) || (comps.seen(i as int, c) && store.composers@.contains_key(c)),
                |c: Seq<char>|
                    if imp.contains_key(c) {
                        imp[c]
                    } else {
                        store.composers@[c].view()
                    },
            ),
        decreases n - i,
    {
        let c = comps.member(i);
        let ghost cv = c@;
        proof {
            comps.lemma_member(i as int);
            assert(kept_composer(*store, cv));
            assert(!comps.seen(i as int, cv)) by {
                if comps.seen(i as int, cv) {
                    let j = choose|j: int| 0 <= j < i && #[trigger] comps.member_at(j) == cv;
                    comps.lemma_distinct(j, i as int);
                }
            }
            assert forall|kk: Seq<char>| #[trigger] comps.seen(i + 1, kk) == (comps.seen(i as int, kk) || kk == cv) by {
                if comps.seen(i + 1, kk) {
                    let j = choose|j: int| 0 <= j < i + 1 && #[trigger] comps.member_at(j) == kk;
                    if j < i {
                    }
                }
                if kk == cv {
                    assert(comps.member_at(i as int) == kk);
                }
            }
        }
        match store.composers.get(c.as_str()) {
            None => {
                proof {
                    assert(!composer_conflict(*store, *profile, cv));
                    assert(views_of(imported@) =~= Map::new(
                        |c: Seq<char>| imp.contains_key(c) || (comps.seen(i + 1, c) && store.composers@.contains_key(c)),
                        |c: Seq<char>| if imp.contains_key(c) { imp[c] } else { store.composers@[c].view() },
                    ));
                }
            },
            Some(retained) => {
                let ghost before = views_of(imported@);
                match imported.get(c.as_str()) {
                    Some(imp_cfg) => {
                        proof {
                            assert(views_of(imported@).contains_key(cv));
                            assert(views_of(imported@)[cv] == imp_cfg.view());
                            assert(imp.contains_key(cv));
                            assert(imp[cv] == imp_cfg.view());
                        }
                        if !imp_cfg.same(retained) {
                            proof {
                                assert(imp.contains_key(cv));
                                assert(composer_conflict(*store, *profile, cv));
                            }
                            let mut m = "legacy profile composer ".to_string();
                            let q = debug_quoted(c.as_str());
                            push_all(&mut m, q.as_str());
                            push_all(&mut m, " conflicts with the config retained by banks 1\u{2013}");
                            push_decimal(&mut m, (BANK_COUNT - 1) as u64);
                            return Err(m);
                        }
                        proof {
                            assert(!composer_conflict(*store, *profile, cv));
                            assert(views_of(imported@) =~= Map::new(
                                |c: Seq<char>| imp.contains_key(c) || (comps.seen(i + 1, c) && store.composers@.contains_key(c)),
                                |c: Seq<char>| if imp.contains_key(c) { imp[c] } else { store.composers@[c].view() },
                            ));
                        }
                    },
                    None => {
                        proof {
                            assert(!views_of(imported@).contains_key(cv));
                        }
                        let copy = retained.copy();
                        let ghost prevv = views_of(imported@);
                        let ghost cview = copy.view();
                        imported.insert(c.as_str(), copy);
                        proof {
                            assert(views_of(imported@) =~= prevv.insert(cv, cview));
                            assert(!imp.contains_key(cv));
                            assert(!composer_conflict(*store, *profile, cv));
                            assert(views_of(imported@) =~= Map::new(
                                |c: Seq<char>| imp.contains_key(c) || (comps.seen(i + 1, c) && store.composers@.contains_key(c)),
                                |c: Seq<char>| if imp.contains_key(c) { imp[c] } else { store.composers@[c].view() },
                            ));
                        }
                    },
                }
            },
        }
        i = i + 1;
    }
    proof {
        assert forall|kk: Seq<char>| #[trigger] comps.seen(n as int, kk) == comps@.contains(kk) by {
            if comps.seen(n as int, kk) {
                let j = choose|j: int| 0 <= j < n && #[trigger] comps.member_at(j) == kk;
                comps.lemma_member(j);
            }
            if comps@.contains(kk) {
                comps.lemma_element(kk);
            }
        }
        assert forall|c: Seq<char>| !#[trigger] composer_conflict(*store, *profile, c) by {
            if composer_conflict(*store, *profile, c) {
                assert(comps@.contains(c));
                assert(comps.seen(n as int, c));
            }
        }
        assert(views_of(imported@) =~= merged_composers(*store, *profile, legacy));
    }
    Ok(imported)
}

/// A key of bank 0.
pub open spec fn bank_zero(k: Seq<char>) -> bool {
    binding_parts(k) matches Some((b, _, _, _)) && b == 0
}

/// A key of banks 1 to 4.
pub open spec fn bank_above_zero(k: Seq<char>) -> bool {
    binding_parts(k) matches Some((b, _, _, _)) && b > 0
}

/// A legacy profile's bindings over the store's: the profile decides bank
/// 0 (and unreadable keys it has), the store keeps banks 1 to 4.
pub open spec fn combined_bindings(
    store_b: Map<Seq<char>, String>,
    profile_b: Map<Seq<char>, String>,
) -> Map<Seq<char>, String> {
    Map::new(
        |k: Seq<char>| (profile_b.contains_key(k) && !bank_above_zero(k)) || (store_b.contains_key(k) && !bank_zero(k)),
        |k: Seq<char>|
            if profile_b.contains_key(k) && !bank_above_zero(k) {
                profile_b[k]
            } else {
                store_b[k]
            },
    )
}

fn key_bank(k: &str) -> (r: Option<usize>)
    ensures
        match r {
            Some(b) => binding_parts(k@) matches Some((b2, _, _, _)) && b2 == b,
            None => binding_parts(k@) is None,
        },
{
    match parse_binding_key(k) {
        Some((b, _, _, _)) => Some(b),
        None => None,
    }
}

fn combine_bindings(store_b: &StrMap<String>, profile_b: &StrMap<String>) -> (r: StrMap<String>)
    requires
        store_b.wf(),
        profile_b.wf(),
    ensures
        r.wf(),
        r@ == combined_bindings(store_b@, profile_b@),
{
    let n = store_b.len();
    let mut out: StrMap<String> = StrMap::new();
    let mut i: usize = 0;
    while i < n
        invariant
            store_b.wf(),
            out.wf(),
            n == store_b.size(),
            i <= n,
            out@ == Map::new(|k: Seq<char>| store_b.seen(i as int, k) && !bank_zero(k), |k: Seq<char>| store_b@[k]),
        decreases n - i,
    {
        proof {
            store_b.lemma_at(i as int);
        }
        let k = store_b.key(i);
        let zero = match key_bank(k.as_str()) {
            Some(b) => b == 0,
            None => false,
        };
        if !zero {
            out.insert(k.as_str(), store_b.value(i).clone());
        }
        proof {
            assert forall|kk: Seq<char>| #[trigger] store_b.seen(i + 1, kk) == (store_b.seen(i as int, kk) || kk
                == store_b.key_at(i as int)) by {
                if store_b.seen(i + 1, kk) {
                    let j = choose|j: int| 0 <= j < i + 1 && #[trigger] store_b.key_at(j) == kk;
                    if j < i {
                    }
                }
                if kk == store_b.key_at(i as int) {
                    assert(store_b.key_at(i as int) == kk);
                }
            }
            assert(out@ =~= Map::new(|k: Seq<char>| store_b.seen(i + 1, k) && !bank_zero(k), |k: Seq<char>| store_b@[k]));
        }
        i = i + 1;
    }
    proof {
        assert forall|kk: Seq<char>| #[trigger] store_b.seen(n as int, kk) == store_b@.contains_key(kk) by {
            if store_b.seen(n as int, kk) {
                let j = choose|j: int| 0 <= j < n && #[trigger] store_b.key_at(j) == kk;
                store_b.lemma_at(j);
            }
            if store_b@.contains_key(kk) {
                store_b.lemma_key(kk);
            }
        }
    }
    let m = profile_b.len();
    let mut j: usize = 0;
    while j < m
        invariant
            store_b.wf(),
            profile_b.wf(),
            out.wf(),
            n == store_b.size(),
            m == profile_b.size(),
            j <= m,
            forall|kk: Seq<char>| #[trigger] store_b.seen(n as int, kk) == store_b@.contains_key(kk),
            out@ == Map::new(
                |k: Seq<char>| (profile_b.seen(j as int, k) && !bank_above_zero(k)) || (store_b@.contains_key(k) && !bank_zero(k)),
                |k: Seq<char>|
                    if profile_b.seen(j as int, k) && !bank_above_zero(k) {
                        profile_b@[k]
                    } else {
                        store_b@[k]
                    },
            ),
        decreases m - j,
    {
        proof {
            profile_b.lemma_at(j as int);
        }
        let k = profile_b.key(j);
        let above = match key_bank(k.as_str()) {
            Some(b) => b > 0,
            None => false,
        };
        if !above {
            out.insert(k.as_str(), profile_b.value(j).clone());
        }
        proof {
            assert forall|kk: Seq<char>| #[trigger] profile_b.seen(j + 1, kk) == (profile_b.seen(j as int, kk) || kk
                == profile_b.key_at(j as int)) by {
                if profile_b.seen(j + 1, kk) {
                    let jj = choose|jj: int| 0 <= jj < j + 1 && #[trigger] profile_b.key_at(jj) == kk;
                    if jj < j {
                    }
                }
                if kk == profile_b.key_at(j as int) {
                    assert(profile_b.key_at(j as int) == kk);
                }
            }
            assert(out@ =~= Map::new(
                |k: Seq<char>| (profile_b.seen(j + 1, k) && !bank_above_zero(k)) || (store_b@.contains_key(k) && !bank_zero(k)),
                |k: Seq<char>|
                    if profile_b.seen(j + 1, k) && !bank_above_zero(k) {
                        profile_b@[k]
                    } else {
                        store_b@[k]
                    },
            ));
        }
        j = j + 1;
    }
    proof {
        assert forall|kk: Seq<char>| #[trigger] profile_b.seen(m as int, kk) == profile_b@.contains_key(kk) by {
            if profile_b.seen(m as int, kk) {
                let jj = choose|jj: int| 0 <= jj < m && #[trigger] profile_b.key_at(jj) == kk;
                profile_b.lemma_at(jj);
            }
            if profile_b@.contains_key(kk) {
                profile_b.lemma_key(kk);
            }
        }
        assert(out@ =~= combined_bindings(store_b@, profile_b@));
    }
    out
}

/// Migration leaves a map without single-bank keys as it is.
pub proof fn lemma_migrated_identity(x: Map<Seq<char>, String>, y: Map<Seq<char>, String>)
    requires
        forall|k: Seq<char>| #[trigger] x.contains_key(k) ==> !is_legacy(k),
        migrated(x, y),
    ensures
        y == x,
{
    assert forall|k: Seq<char>| #[trigger] y.contains_key(k) == x.contains_key(k) by {
        if y.contains_key(k) && !(x.contains_key(k) && !is_legacy(k)) {
            let k2 = choose|k2: Seq<char>| x.contains_key(k2) && is_legacy(k2) && #[trigger] legacy_target(k2) == k;
        }
    }
    assert(y =~= x);
}

/// Slot banks by value.
pub open spec fn slot_banks(o: Option<Vec<Vec<HotkeySlot>>>) -> Option<Seq<Seq<HotkeySlot>>> {
    match o {
        Some(b) => Some(b@.map_values(|v: Vec<HotkeySlot>| v@)),
        None => None,
    }
}

fn copy_bank(v: &Vec<HotkeySlot>) -> (r: Vec<HotkeySlot>)
    ensures
        r@ == v@,
{
    let mut r: Vec<HotkeySlot> = Vec::new();
    let mut i: usize = 0;
    while i < v.len()
        invariant
            i <= v.len(),
            r@ == v@.take(i as int),
        decreases v.len() - i,
    {
        r.push(v[i].clone());
        assert(r@ =~= v@.take(i + 1));
        i = i + 1;
    }
    assert(v@.take(v.len() as int) =~= v@);
    r
}

fn copy_banks(b: &Vec<Vec<HotkeySlot>>) -> (r: Vec<Vec<HotkeySlot>>)
    ensures
        r@.map_values(|v: Vec<HotkeySlot>| v@) == b@.map_values(|v: Vec<HotkeySlot>| v@),
{
    let mut r: Vec<Vec<HotkeySlot>> = Vec::new();
    let mut i: usize = 0;
    while i < b.len()
        invariant
            i <= b.len(),
            r@.len() == i,
            forall|j: int| 0 <= j < i ==> (#[trigger] r@[j])@ == b@[j]@,
        decreases b.len() - i,
    {
        let ghost before = r@;
        let c = copy_bank(&b[i]);
        r.push(c);
        proof {
            assert forall|j: int| 0 <= j < i + 1 implies (#[trigger] r@[j])@ == b@[j]@ by {
                if j < i {
                    assert(r@[j] == before[j]);
                }
            }
        }
        i = i + 1;
    }
    assert(r@.map_values(|v: Vec<HotkeySlot>| v@) =~= b@.map_values(|v: Vec<HotkeySlot>| v@));
    r
}

/// Whether `b` is an empty bank.
pub open spec fn empty_bank(b: Seq<HotkeySlot>) -> bool {
    b.len() == SLOT_COUNT && forall|j: int| 0 <= j < SLOT_COUNT ==> (#[trigger] b[j]).label@.len() == 0 && b[j].mode
        == MODE_HID && b[j].modifier == 0 && b[j].key == 0
}

/// Whether stored banks are present and have the full shape.
pub open spec fn shaped_store(store_slots: Option<Vec<Vec<HotkeySlot>>>) -> bool {
    store_slots is Some && banks_shaped(store_slots->0@)
}

/// The banks after a legacy slot list: it replaces bank 0 of the stored
/// banks when they have the full shape, else of empty banks.
pub open spec fn banks_after_flat(store_slots: Option<Vec<Vec<HotkeySlot>>>, v: Seq<HotkeySlot>, b: Seq<Seq<HotkeySlot>>) -> bool {
    &&& b.len() == BANK_COUNT
    &&& b[0] == v
    &&& forall|i: int| 1 <= i < BANK_COUNT ==> if shaped_store(store_slots) {
        #[trigger] b[i] == store_slots->0@[i]@
    } else {
        empty_bank(b[i])
    }
}

/// The pad slots a profile leaves, and what it asks of the pad.
fn profile_slots(store_slots: &Option<Vec<Vec<HotkeySlot>>>, p: Option<PadSlotsWire>) -> (r: (
    Option<Vec<Vec<HotkeySlot>>>,
    ProfilePadWrite,
))
    ensures
        p is None ==> slot_banks(r.0) == slot_banks(*store_slots) && r.1 == ProfilePadWrite::Untouched,
        p matches Some(PadSlotsWire::Flat(v)) ==> r.1 == ProfilePadWrite::BankZero && (r.0 matches Some(b)
            && banks_after_flat(*store_slots, v@, b@.map_values(|x: Vec<HotkeySlot>| x@))),
        p matches Some(PadSlotsWire::Banks(bs)) ==> r.1 == ProfilePadWrite::AllBanks && slot_banks(r.0) == slot_banks(
            Some(bs),
        ),
{
    match p {
        None => {
            let kept = match store_slots {
                Some(b) => Some(copy_banks(b)),
                None => None,
            };
            (kept, ProfilePadWrite::Untouched)
        },
        Some(PadSlotsWire::Flat(v)) => {
            let ghost vv = v@;
            let shaped = valid_pad_banks(store_slots);
            let mut banks = if shaped {
                match store_slots {
                    Some(b) => copy_banks(b),
                    None => Vec::new(),
                }
            } else {
                banks_with_zero(empty_slot_bank())
            };
            let ghost before = banks@;
            proof {
                if shaped {
                    let s = store_slots->0;
                    assert(banks@.map_values(|x: Vec<HotkeySlot>| x@).len() == s@.len());
                }
            }
            banks.set(0, v);
            proof {
                let bv = banks@.map_values(|x: Vec<HotkeySlot>| x@);
                assert forall|i: int| 1 <= i < BANK_COUNT implies if shaped_store(*store_slots) {
                    #[trigger] bv[i] == store_slots->0@[i]@
                } else {
                    empty_bank(bv[i])
                } by {
                    assert(banks@[i] == before[i]);
                    if shaped_store(*store_slots) {
                        let s = store_slots->0;
                        assert(before.map_values(|x: Vec<HotkeySlot>| x@)[i] == s@.map_values(|x: Vec<HotkeySlot>| x@)[i]);
                    } else {
                        assert(!shaped);
                        assert(before[i]@.len() == SLOT_COUNT);
                        assert forall|j: int| 0 <= j < SLOT_COUNT implies (#[trigger] bv[i][j]).label@.len() == 0 && bv[i][j].mode
                            == MODE_HID && bv[i][j].modifier == 0 && bv[i][j].key == 0 by {
                            assert(bv[i][j] == before[i]@[j]);
                        }
                    }
                }
            }
            (Some(banks), ProfilePadWrite::BankZero)
        },
        Some(PadSlotsWire::Banks(bs)) => (Some(bs), ProfilePadWrite::AllBanks),
    }
}

/// The ids of actions given by value.
pub open spec fn view_ids(v: Seq<ActionView>) -> Seq<Seq<char>> {
    v.map_values(|x: ActionView| x.id)
}

proof fn lemma_ids_from_views(a: Seq<Action>)
    ensures
        action_ids(a) == view_ids(action_views(a)),
{
    assert(action_ids(a) =~= view_ids(action_views(a)));
}

/// The actions after a profile, by value: the profile's own, then for a
/// legacy profile the store actions banks 1 to 4 keep that it does not
/// define.
pub open spec fn applied_views(store: Store, p: ProfileFile) -> Seq<ActionView> {
    action_views(p.actions@) + if legacy_scope(p) {
        action_views(kept_actions(store, p, store.actions@.len() as int))
    } else {
        Seq::empty()
    }
}

/// The checks made before anything of the store is touched, in order: the
/// schema, the profile's action ids, its pad slots, and for a legacy
/// profile a retained action it redefines.
pub open spec fn profile_precheck(store: Store, p: ProfileFile) -> Result<(), Seq<char>> {
    if p.schema_version > STORE_SCHEMA_VERSION {
        Err(newer_schema_message("profile"@, p.schema_version))
    } else if ids_verdict(action_ids(p.actions@)) is Err {
        ids_verdict(action_ids(p.actions@))
    } else if profile_slots_verdict(p.pad_slots) is Err {
        profile_slots_verdict(p.pad_slots)
    } else if legacy_scope(p) && first_action_conflict(store, p, 0) is Some {
        Err(action_conflict_message(store.actions@[first_action_conflict(store, p, 0)->0].id@))
    } else {
        Ok(())
    }
}

/// Whether a legacy profile sets a composer banks 1 to 4 keep differently.
pub open spec fn composer_clash(store: Store, p: ProfileFile) -> bool {
    legacy_scope(p) && exists|c: Seq<char>| #[trigger] composer_conflict(store, p, c)
}

/// What the pad slots become, and what is asked of the pad.
pub open spec fn slots_applied(store: Store, p: ProfileFile, next: Store, w: ProfilePadWrite) -> bool {
    match p.pad_slots {
        None => slot_banks(next.pad_slots) == slot_banks(store.pad_slots) && w == ProfilePadWrite::Untouched,
        Some(PadSlotsWire::Flat(v)) => w == ProfilePadWrite::BankZero && (next.pad_slots matches Some(b)
            && banks_after_flat(store.pad_slots, v@, b@.map_values(|x: Vec<HotkeySlot>| x@))),
        Some(PadSlotsWire::Banks(bs)) => w == ProfilePadWrite::AllBanks && slot_banks(next.pad_slots) == slot_banks(
            Some(bs),
        ),
    }
}

/// The ids of a list of actions, as a set.
pub open spec fn id_set(a: Seq<Action>) -> Set<Seq<char>> {
    Set::new(|k: Seq<char>| exists|j: int| 0 <= j < a.len() && #[trigger] a[j].id@ == k)
}

/// The store a profile leaves. Bindings: the profile's, migrated; for a
/// legacy profile, bank 0 from the profile over the store's banks 1 to 4.
/// Approvals: the profile's allowlist is never installed; the live
/// approvals of action ids that still exist are kept with their reviewed
/// text, and then stand only while that text is the command's text.
pub open spec fn applied(store: Store, p: ProfileFile, next: Store, w: ProfilePadWrite) -> bool {
    &&& next.wf()
    &&& next.schema_version == STORE_SCHEMA_VERSION
    &&& action_views(next.actions@) == applied_views(store, p)
    &&& exists|ms: Map<Seq<char>, String>, mp: Map<Seq<char>, String>|
        #![trigger migrated(store.pad_bindings@, ms), migrated(p.pad_bindings@, mp)]
        migrated(store.pad_bindings@, ms) && migrated(p.pad_bindings@, mp) && next.pad_bindings@ == if legacy_scope(
            p,
        ) {
            combined_bindings(ms, mp)
        } else {
            mp
        }
    &&& reconciled(
        next.actions@,
        store.allowed_commands@.intersect(id_set(next.actions@)),
        store.approved_command_values@.restrict(id_set(next.actions@)),
        next.allowed_commands@,
        next.approved_command_values@,
    )
    &&& next.pad_preset_names@ == p.pad_preset_names@
    &&& views_of(next.composers@) == merged_composers(store, p, legacy_scope(p))
    &&& slots_applied(store, p, next, w)
}

/// The ids of a list of actions.
fn action_id_set(actions: &Vec<Action>) -> (r: StrSet)
    ensures
        r.wf(),
        r@ == id_set(actions@),
{
    let mut r = StrSet::new();
    let mut i: usize = 0;
    while i < actions.len()
        invariant
            i <= actions.len(),
            r.wf(),
            forall|k: Seq<char>| #[trigger] r@.contains(k) <==> exists|j: int| 0 <= j < i && #[trigger] actions@[j].id@ == k,
        decreases actions.len() - i,
    {
        r.insert(actions[i].id.as_str());
        proof {
            assert forall|k: Seq<char>| #[trigger] r@.contains(k) <==> exists|j: int| 0 <= j < i + 1 && #[trigger] actions@[j].id@ == k by {
                if exists|j: int| 0 <= j < i + 1 && #[trigger] actions@[j].id@ == k {
                    let j = choose|j: int| 0 <= j < i + 1 && #[trigger] actions@[j].id@ == k;
                    if j < i {
                        assert(exists|j2: int| 0 <= j2 < i && #[trigger] actions@[j2].id@ == k);
                    }
                }
                if k == actions@[i as int].id@ {
                    assert(actions@[i as int].id@ == k);
                }
            }
        }
        i = i + 1;
    }
    assert(r@ =~= id_set(actions@));
    r
}

/// The members of `a` that are in `keep`.
fn set_within(a: &StrSet, keep: &StrSet) -> (r: StrSet)
    requires
        a.wf(),
        keep.wf(),
    ensures
        r.wf(),
        r@ == a@.intersect(keep@),
{
    let n = a.len();
    let mut r = StrSet::new();
    let mut i: usize = 0;
    while i < n
        invariant
            a.wf(),
            keep.wf(),
            r.wf(),
            n == a.size(),
            i <= n,
            forall|k: Seq<char>| #[trigger] r@.contains(k) <==> a.seen(i as int, k) && keep@.contains(k),
        decreases n - i,
    {
        let m = a.member(i);
        if keep.contains(m.as_str()) {
            r.insert(m.as_str());
        }
        proof {
            assert forall|kk: Seq<char>| #[trigger] r@.contains(kk) <==> a.seen(i + 1, kk) && keep@.contains(kk) by {
                if a.seen(i + 1, kk) {
                    let j = choose|j: int| 0 <= j < i + 1 && #[trigger] a.member_at(j) == kk;
                    if j < i {
                        assert(a.seen(i as int, kk));
                    }
                }
                if kk == a.member_at(i as int) {
                    assert(a.member_at(i as int) == kk);
                }
                if a.seen(i as int, kk) {
                    let j = choose|j: int| 0 <= j < i && #[trigger] a.member_at(j) == kk;
                    assert(a.member_at(j) == kk);
                }
            }
        }
        i = i + 1;
    }
    proof {
        assert forall|kk: Seq<char>| #[trigger] a@.contains(kk) implies a.seen(n as int, kk) by {
            a.lemma_element(kk);
        }
        assert forall|kk: Seq<char>| a.seen(n as int, kk) implies #[trigger] a@.contains(kk) by {
            let j = choose|j: int| 0 <= j < n && #[trigger] a.member_at(j) == kk;
            a.lemma_member(j);
        }
    }
    assert(r@ =~= a@.intersect(keep@));
    r
}

/// Applies a portable profile to the store. A profile of an older schema,
/// or one with a single slot bank, only has authority over bank 0: the
/// bindings, actions and composers that banks 1 to 4 use survive, and
/// redefining one of them is refused.
pub fn apply_profile_file(store: &Store, profile: ProfileFile) -> (r: Result<(Store, ProfilePadWrite), String>)
    requires
        store.wf(),
        profile.wf(),
    ensures
        profile_precheck(*store, profile) matches Err(e) ==> (r matches Err(m) && m@ == e),
        profile_precheck(*store, profile) is Ok && composer_clash(*store, profile) ==> (r matches Err(m)
            && exists|c: Seq<char>| #[trigger] composer_conflict(*store, profile, c) && m@ == composer_conflict_message(c)),
        profile_precheck(*store, profile) is Ok && !composer_clash(*store, profile) ==> match ids_verdict(
            view_ids(applied_views(*store, profile)),
        ) {
            Err(e) => r matches Err(m) && m@ == e,
            Ok(()) => r matches Ok((next, w)) && applied(*store, profile, next, w),
        },
{
    if profile.schema_version > STORE_SCHEMA_VERSION {
        return Err(newer_schema_error("profile", profile.schema_version));
    }
    validate_action_ids(&profile.actions)?;
    validate_profile_pad_slots(&profile.pad_slots)?;
    let banks = match &profile.pad_slots {
        Some(PadSlotsWire::Banks(_)) => true,
        _ => false,
    };
    let flat = match &profile.pad_slots {
        Some(PadSlotsWire::Flat(_)) => true,
        _ => false,
    };
    let legacy = (profile.schema_version < STORE_SCHEMA_VERSION && !banks) || flat;
    assert(legacy == legacy_scope(profile));
    let imported_bindings = migrate_pad_bindings(&profile.pad_bindings);
    let store_bindings = migrate_pad_bindings(&store.pad_bindings);
    let (mut extra, comps) = if legacy {
        let keep = retained_ids(&store.pad_bindings);
        collect_retained(store, &profile, &keep)?
    } else {
        (Vec::new(), StrSet::new())
    };
    let composers = merge_composers(store, &profile, &comps, legacy)?;
    let profile_allowlist_entries = profile.allowed_commands.len();
    let ghost p = profile;
    let ProfileFile { schema_version: _, actions, pad_bindings: _, pad_preset_names, composers: _, allowed_commands: _, pad_slots } = profile;
    let mut actions = actions;
    let ghost extra_views = action_views(extra@);
    actions.append(&mut extra);
    let bindings = if legacy {
        combine_bindings(&store_bindings, &imported_bindings)
    } else {
        imported_bindings
    };
    let (slots, write) = profile_slots(&store.pad_slots, pad_slots);
    let ids = action_id_set(&actions);
    let allowed = set_within(&store.allowed_commands, &ids);
    let mut approved = copy_text_map(&store.approved_command_values);
    let _stats = merge_allowlist_after_profile(&mut approved, &ids, profile_allowlist_entries);
    let mut next = Store {
        schema_version: STORE_SCHEMA_VERSION,
        actions,
        pad_bindings: bindings,
        allowed_commands: allowed,
        approved_command_values: approved,
        pad_preset_names,
        composers,
        pad_slots: slots,
    };
    let ghost before = next;
    proof {
        assert(action_views(next.actions@) =~= action_views(p.actions@) + extra_views);
        assert(action_views(next.actions@) == applied_views(*store, p));
        lemma_ids_from_views(next.actions@);
        law_migration_complete(p.pad_bindings@, imported_bindings@);
        law_migration_complete(store.pad_bindings@, store_bindings@);
        assert forall|k: Seq<char>| #[trigger] next.pad_bindings@.contains_key(k) implies !is_legacy(k) by {
            if legacy {
                if imported_bindings@.contains_key(k) && !bank_above_zero(k) {
                } else {
                    assert(store_bindings@.contains_key(k));
                }
            }
        }
        next.composers.lemma_len();
        let imp = imported_composers(p);
        if p.composers@.dom().len() == 0 {
            assert(imp.contains_key("ai"@));
            assert(views_of(next.composers@).contains_key("ai"@));
        } else {
            p.composers.lemma_len();
            vstd::set_lib::lemma_set_empty_equivalency_len(p.composers@.dom());
            let c = choose|c: Seq<char>| p.composers@.dom().contains(c);
            assert(imp.contains_key(c));
            assert(views_of(next.composers@).contains_key(c));
        }
        if next.composers@.dom().len() == 0 {
            next.composers@.dom().lemma_len0_is_empty();
            assert(false);
        }
    }
    match next.normalize() {
        Ok(()) => {},
        Err(e) => {
            return Err(e);
        },
    }
    proof {
        lemma_migrated_identity(before.pad_bindings@, next.pad_bindings@);
        assert(exists|ms: Map<Seq<char>, String>, mp: Map<Seq<char>, String>|
            #![trigger migrated(store.pad_bindings@, ms), migrated(p.pad_bindings@, mp)]
            migrated(store.pad_bindings@, ms) && migrated(p.pad_bindings@, mp) && next.pad_bindings@ == if legacy_scope(
                p,
            ) {
                combined_bindings(ms, mp)
            } else {
                mp
            }) by {
            assert(migrated(store.pad_bindings@, store_bindings@));
            assert(migrated(p.pad_bindings@, imported_bindings@));
        }
        assert(applied(*store, p, next, write));
    }
    Ok((next, write))
}

/// A legacy profile only has authority over bank 0: every binding the
/// store holds for banks 1 to 4 survives it with its action.
pub proof fn law_legacy_profile_keeps_upper_banks(
    store: Store,
    p: ProfileFile,
    next: Store,
    w: ProfilePadWrite,
    k: Seq<char>,
)
    requires
        applied(store, p, next, w),
        legacy_scope(p),
        store.pad_bindings@.contains_key(k),
        bank_above_zero(k),
    ensures
        next.pad_bindings@.contains_key(k),
        next.pad_bindings@[k] == store.pad_bindings@[k],
{
    let (ms, mp) = choose|ms: Map<Seq<char>, String>, mp: Map<Seq<char>, String>|
        #![trigger migrated(store.pad_bindings@, ms), migrated(p.pad_bindings@, mp)]
        migrated(store.pad_bindings@, ms) && migrated(p.pad_bindings@, mp) && next.pad_bindings@ == if legacy_scope(
            p,
        ) {
            combined_bindings(ms, mp)
        } else {
            mp
        };
    assert(!is_legacy(k));
    assert(ms.contains_key(k) && ms[k] == store.pad_bindings@[k]);
}

/// A legacy profile only has authority over bank 0: it binds exactly the
/// bank-0 keys its own bindings name, whatever the store had there.
pub proof fn law_legacy_profile_owns_bank_zero(
    store: Store,
    p: ProfileFile,
    next: Store,
    w: ProfilePadWrite,
    k: Seq<char>,
)
    requires
        applied(store, p, next, w),
        legacy_scope(p),
        bank_zero(k),
    ensures
        next.pad_bindings@.contains_key(k) <==> exists|mp: Map<Seq<char>, String>|
            migrated(p.pad_bindings@, mp) && #[trigger] mp.contains_key(k),
{
    let (ms, mp) = choose|ms: Map<Seq<char>, String>, mp: Map<Seq<char>, String>|
        #![trigger migrated(store.pad_bindings@, ms), migrated(p.pad_bindings@, mp)]
        migrated(store.pad_bindings@, ms) && migrated(p.pad_bindings@, mp) && next.pad_bindings@ == if legacy_scope(
            p,
        ) {
            combined_bindings(ms, mp)
        } else {
            mp
        };
    if next.pad_bindings@.contains_key(k) {
        assert(mp.contains_key(k));
    }
    if exists|mp2: Map<Seq<char>, String>| migrated(p.pad_bindings@, mp2) && #[trigger] mp2.contains_key(k) {
        let mp2 = choose|mp2: Map<Seq<char>, String>| migrated(p.pad_bindings@, mp2) && #[trigger] mp2.contains_key(k);
        assert(mp2.contains_key(k) == mp.contains_key(k));
    }
}

proof fn lemma_kept_contains(store: Store, p: ProfileFile, n: int, i: int)
    requires
        0 <= i < n <= store.actions@.len(),
        retained_id(store.pad_bindings@, store.actions@[i].id@),
        action_with_id(p.actions@, store.actions@[i].id@) is None,
    ensures
        exists|j: int| 0 <= j < kept_actions(store, p, n).len() && #[trigger] kept_actions(store, p, n)[j]
            == store.actions@[i],
    decreases n,
{
    let rest = kept_actions(store, p, n - 1);
    if i == n - 1 {
        assert(kept_actions(store, p, n)[rest.len() as int] == store.actions@[i]);
    } else {
        lemma_kept_contains(store, p, n - 1, i);
        let j = choose|j: int| 0 <= j < rest.len() && #[trigger] rest[j] == store.actions@[i];
        assert(kept_actions(store, p, n)[j] == store.actions@[i]);
    }
}

proof fn lemma_found_action(a: Seq<Action>, id: Seq<char>)
    requires
        action_with_id(a, id) is Some,
    ensures
        exists|j: int| 0 <= j < a.len() && #[trigger] a[j].id@ == id,
    decreases a.len(),
{
    if a[0].id@ != id {
        lemma_found_action(a.drop_first(), id);
        let j = choose|j: int| 0 <= j < a.drop_first().len() && #[trigger] a.drop_first()[j].id@ == id;
        assert(a[j + 1].id@ == id);
    }
}

/// After a legacy profile, every action a binding of banks 1 to 4 names
/// and the store defines is still defined.
pub proof fn law_legacy_profile_keeps_retained_actions(
    store: Store,
    p: ProfileFile,
    next: Store,
    w: ProfilePadWrite,
    k: Seq<char>,
    i: int,
)
    requires
        applied(store, p, next, w),
        legacy_scope(p),
        store.pad_bindings@.contains_key(k),
        bank_above_zero(k),
        0 <= i < store.actions@.len(),
        store.actions@[i].id@ == store.pad_bindings@[k]@,
    ensures
        exists|j: int| 0 <= j < next.actions@.len() && #[trigger] next.actions@[j].id@ == store.pad_bindings@[k]@,
{
    let id = store.pad_bindings@[k]@;
    let pv = action_views(p.actions@);
    let views = action_views(next.actions@);
    assert(views == applied_views(store, p));
    if action_with_id(p.actions@, id) is Some {
        lemma_found_action(p.actions@, id);
        let j = choose|j: int| 0 <= j < p.actions@.len() && #[trigger] p.actions@[j].id@ == id;
        assert(views[j] == pv[j]);
        assert(next.actions@[j].view() == views[j]);
    } else {
        assert(!is_legacy(k));
        assert(retained_id(store.pad_bindings@, id));
        let n = store.actions@.len() as int;
        lemma_kept_contains(store, p, n, i);
        let kept = kept_actions(store, p, n);
        let j = choose|j: int| 0 <= j < kept.len() && #[trigger] kept[j] == store.actions@[i];
        let x = pv.len() + j;
        assert(views[x] == action_views(kept)[j]);
        assert(next.actions@[x].view() == views[x]);
    }
}

/// After normalizing, every approval that remains is for a command action
/// whose current text is exactly the text that was approved.
pub proof fn law_approvals_match_text(old: Store, new: Store, k: Seq<char>)
    requires
        normalized(old, new),
        new.allowed_commands@.contains(k),
    ensures
        approval_stands(new.actions@, new.approved_command_values@, k),
{
}

/// Normalizing a normalized store changes nothing.
pub proof fn law_normalize_idempotent(old: Store, mid: Store, new: Store)
    requires
        normalized(old, mid),
        normalized(mid, new),
    ensures
        new.actions == mid.actions,
        new.pad_bindings@ == mid.pad_bindings@,
        new.allowed_commands@ == mid.allowed_commands@,
        new.approved_command_values@ == mid.approved_command_values@,
        new.composers == mid.composers,
        new.pad_preset_names == mid.pad_preset_names,
        new.pad_slots == mid.pad_slots,
        new.schema_version == mid.schema_version,
{
    law_migration_idempotent(old.pad_bindings@, mid.pad_bindings@, new.pad_bindings@);
    let a = mid.actions@;
    assert forall|k: Seq<char>| #[trigger] mid.allowed_commands@.contains(k) implies approval_stands(
        a,
        mid.approved_command_values@,
        k,
    ) by {
        assert(approval_stands(a, old.approved_command_values@, k));
    }
    assert(new.allowed_commands@ =~= mid.allowed_commands@);
    assert(new.approved_command_values@ =~= mid.approved_command_values@);
    mid.composers.lemma_len();
    if old.composers@.dom().len() == 0 {
        assert(mid.composers@.dom().contains("ai"@));
    } else {
        old.composers.lemma_len();
        vstd::set_lib::lemma_set_empty_equivalency_len(old.composers@.dom());
    }
    vstd::set_lib::lemma_set_empty_equivalency_len(mid.composers@.dom());
}

/// Whether `i` is the first command action with id `k`.
pub open spec fn first_command(a: Seq<Action>, k: Seq<char>, i: int) -> bool {
    &&& 0 <= i < a.len()
    &&& a[i].id@ == k
    &&& a[i].type_@ == "command"@
    &&& forall|j: int| 0 <= j < i ==> !(#[trigger] a[j].id@ == k && a[j].type_@ == "command"@)
}

/// Whether some command action has id `k`.
pub open spec fn has_command(a: Seq<Action>, k: Seq<char>) -> bool {
    exists|i: int| 0 <= i < a.len() && #[trigger] a[i].id@ == k && a[i].type_@ == "command"@
}

/// The message for approving a command that does not exist.
pub open spec fn missing_command_message(id: Seq<char>) -> Seq<char> {
    "command action "@ + debug_shown(id) + " not found"@
}

/// Approval `id` granted over `old`, for the text of its first command
/// action; nothing else changes.
pub open spec fn granted(old: Store, new: Store, id: Seq<char>) -> bool {
    &&& new.wf()
    &&& new.allowed_commands@ == old.allowed_commands@.insert(id)
    &&& new.approved_command_values@.dom() == old.approved_command_values@.dom().insert(id)
    &&& forall|k: Seq<char>| k != id && #[trigger] old.approved_command_values@.contains_key(k)
        ==> new.approved_command_values@[k] == old.approved_command_values@[k]
    &&& exists|i: int| first_command(old.actions@, id, i) && new.approved_command_values@[id]@ == old.actions@[i].value@
    &&& new.actions == old.actions
    &&& new.pad_bindings == old.pad_bindings
    &&& new.composers == old.composers
    &&& new.pad_preset_names == old.pad_preset_names
    &&& new.pad_slots == old.pad_slots
    &&& new.schema_version == old.schema_version
}

/// Once granted, the command runs: its first command action is approved
/// for exactly its text.
pub proof fn law_granted_command_runs(old: Store, new: Store, id: Seq<char>, i: int)
    requires
        granted(old, new, id),
        first_command(old.actions@, id, i),
    ensures
        new.allowed_commands@.contains(new.actions@[i].id@),
        new.approved_command_values@.contains_key(new.actions@[i].id@),
        new.approved_command_values@[new.actions@[i].id@]@ == new.actions@[i].value@,
{
    let i2 = choose|i2: int| first_command(old.actions@, id, i2) && new.approved_command_values@[id]@ == old.actions@[i2].value@;
    if i < i2 {
        assert(!(old.actions@[i].id@ == id && old.actions@[i].type_@ == "command"@));
    }
    if i2 < i {
        assert(!(old.actions@[i2].id@ == id && old.actions@[i2].type_@ == "command"@));
    }
}

impl Store {
    /// Approves command action `action_id` for exactly its current text.
    /// This is the one way an approval is granted.
    pub fn allow_command(&mut self, action_id: &str) -> (r: Result<(), String>)
        requires
            old(self).wf(),
        ensures
            final(self).wf(),
            ids_verdict(action_ids(old(self).actions@)) matches Err(e) ==> (r matches Err(m) && m@ == e)
                && *final(self) == *old(self),
            ids_verdict(action_ids(old(self).actions@)) is Ok && !has_command(old(self).actions@, action_id@) ==> (
            r matches Err(m) && m@ == missing_command_message(action_id@)) && *final(self) == *old(self),
            ids_verdict(action_ids(old(self).actions@)) is Ok && has_command(old(self).actions@, action_id@) ==> r is Ok
                && granted(*old(self), *final(self), action_id@),
    {
        validate_action_ids(&self.actions)?;
        let value = match self.command_action(action_id) {
            Some(a) => {
                proof {
                    let i = choose|i: int| 0 <= i < self.actions@.len() && self.actions@[i] == *a && a.id@ == action_id@
                        && a.type_@ == "command"@ && forall|j: int| 0 <= j < i ==> !(#[trigger] self.actions@[j].id@
                        == action_id@ && self.actions@[j].type_@ == "command"@);
                    assert(first_command(self.actions@, action_id@, i));
                }
                a.value.clone()
            },
            None => {
                let mut m = "command action ".to_string();
                let q = debug_quoted(action_id);
                push_all(&mut m, q.as_str());
                push_all(&mut m, " not found");
                return Err(m);
            },
        };
        self.allowed_commands.insert(action_id);
        self.approved_command_values.insert(action_id, value);
        Ok(())
    }
}

/// Whether a whole-store save keeps approval `k`: the live store had
/// approved its command for the exact text the saved command still has.
pub open spec fn save_keeps(live: Store, actions: Seq<Action>, k: Seq<char>) -> bool {
    exists|i: int, j: int|
        #![trigger first_command(live.actions@, k, i), first_command(actions, k, j)]
        first_command(live.actions@, k, i) && first_command(actions, k, j) && live.allowed_commands@.contains(k)
            && live.approved_command_values@.contains_key(k) && live.approved_command_values@[k]@
            == live.actions@[i].value@ && actions[j].value@ == live.actions@[i].value@
}

/// The approvals after a whole-store save: the ids the save asked for that
/// it keeps, each for the text of its command.
pub open spec fn save_approvals(live: Store, requested: Set<Seq<char>>, next: Store) -> bool {
    &&& next.allowed_commands@ == Set::new(|k: Seq<char>| requested.contains(k) && save_keeps(live, next.actions@, k))
    &&& forall|k: Seq<char>| #[trigger] next.approved_command_values@.contains_key(k) <==> next.allowed_commands@.contains(k)
    &&& forall|k: Seq<char>| #[trigger] next.approved_command_values@.contains_key(k) ==> exists|j: int|
        first_command(next.actions@, k, j) && next.approved_command_values@[k]@ == next.actions@[j].value@
}

/// A store saved over `live`: brought to the current schema, with the
/// approvals it carried replaced by those `live` granted for unchanged
/// command text. Saving never grants an approval.
pub fn store_for_save(live: &Store, incoming: Store) -> (r: Result<Store, String>)
    requires
        live.wf(),
        incoming.wf(),
    ensures
        incoming.schema_version > STORE_SCHEMA_VERSION ==> (r matches Err(e) && e@ == newer_schema_message(
            "store"@,
            incoming.schema_version,
        )),
        incoming.schema_version <= STORE_SCHEMA_VERSION && ids_verdict(action_ids(incoming.actions@)) is Err ==> (
        r matches Err(e) && ids_verdict(action_ids(incoming.actions@)) == Err::<(), Seq<char>>(e@)),
        incoming.schema_version <= STORE_SCHEMA_VERSION && ids_verdict(action_ids(incoming.actions@)) is Ok ==> (
        r matches Ok(next) && {
            &&& next.wf()
            &&& next.schema_version == STORE_SCHEMA_VERSION
            &&& next.actions == incoming.actions
            &&& migrated(incoming.pad_bindings@, next.pad_bindings@)
            &&& if incoming.composers@.dom().len() == 0 {
                default_composers_hold(next.composers)
            } else {
                next.composers == incoming.composers
            }
            &&& next.pad_preset_names == incoming.pad_preset_names
            &&& next.pad_slots == incoming.pad_slots
            &&& save_approvals(*live, incoming.allowed_commands@, next)
        }),
{
    let ghost requested = incoming.allowed_commands@;
    let n = incoming.allowed_commands.len();
    let mut ids: Vec<String> = Vec::new();
    let mut i: usize = 0;
    while i < n
        invariant
            incoming.wf(),
            n == incoming.allowed_commands.size(),
            i <= n,
            ids@.len() == i,
            forall|m: int| 0 <= m < i ==> (#[trigger] ids@[m])@ == incoming.allowed_commands.member_at(m),
        decreases n - i,
    {
        let k = incoming.allowed_commands.member(i).clone();
        ids.push(k);
        i = i + 1;
    }
    proof {
        assert forall|k: Seq<char>| #[trigger] requested.contains(k) <==> exists|m: int| 0 <= m < n && ids@[m]@ == k by {
            if requested.contains(k) {
                incoming.allowed_commands.lemma_element(k);
                let m = choose|m: int| 0 <= m < n && #[trigger] incoming.allowed_commands.member_at(m) == k;
                assert(ids@[m]@ == k);
            }
            if exists|m: int| 0 <= m < n && ids@[m]@ == k {
                let m = choose|m: int| 0 <= m < n && ids@[m]@ == k;
                incoming.allowed_commands.lemma_member(m);
            }
        }
    }
    let mut store = incoming;
    store.normalize()?;
    store.allowed_commands = StrSet::new();
    store.approved_command_values = StrMap::new();
    let ghost acts = store.actions@;
    let ghost mid = store;
    let mut i: usize = 0;
    while i < ids.len()
        invariant
            live.wf(),
            store.wf(),
            store.actions == mid.actions,
            store.pad_bindings == mid.pad_bindings,
            store.composers == mid.composers,
            store.pad_preset_names == mid.pad_preset_names,
            store.pad_slots == mid.pad_slots,
            store.schema_version == mid.schema_version,
            acts == store.actions@,
            i <= ids@.len(),
            store.allowed_commands@ == Set::new(|k: Seq<char>| (exists|m: int| 0 <= m < i && (#[trigger] ids@[m])@ == k)
                && save_keeps(*live, acts, k)),
            forall|k: Seq<char>| #[trigger] store.approved_command_values@.contains_key(k) <==> store.allowed_commands@.contains(k),
            forall|k: Seq<char>| #[trigger] store.approved_command_values@.contains_key(k) ==> exists|j: int|
                first_command(acts, k, j) && store.approved_command_values@[k]@ == acts[j].value@,
        decreases ids@.len() - i,
    {
        let id = &ids[i];
        let ghost kv = id@;
        let old_action = live.command_action(id.as_str());
        let new_action = store.command_action(id.as_str());
        let keep = match (old_action, new_action) {
            (Some(o), Some(w)) => live.command_is_approved(o) && o.value == w.value,
            _ => false,
        };
        proof {
            if keep {
                let o = old_action.unwrap();
                let w = new_action.unwrap();
                let oi = choose|oi: int| 0 <= oi < live.actions@.len() && live.actions@[oi] == *o && o.id@ == kv
                    && o.type_@ == "command"@ && forall|j: int| 0 <= j < oi ==> !(#[trigger] live.actions@[j].id@ == kv
                    && live.actions@[j].type_@ == "command"@);
                let wi = choose|wi: int| 0 <= wi < acts.len() && acts[wi] == *w && w.id@ == kv && w.type_@ == "command"@
                    && forall|j: int| 0 <= j < wi ==> !(#[trigger] acts[j].id@ == kv && acts[j].type_@ == "command"@);
                assert(first_command(live.actions@, kv, oi) && first_command(acts, kv, wi));
                assert(save_keeps(*live, acts, kv));
            } else {
                if save_keeps(*live, acts, kv) {
                    let (oi, wi) = choose|oi: int, wi: int|
                        #![trigger first_command(live.actions@, kv, oi), first_command(acts, kv, wi)]
                        first_command(live.actions@, kv, oi) && first_command(acts, kv, wi) && live.allowed_commands@.contains(kv)
                            && live.approved_command_values@.contains_key(kv) && live.approved_command_values@[kv]@
                            == live.actions@[oi].value@ && acts[wi].value@ == live.actions@[oi].value@;
                    match old_action {
                        Some(o) => {
                            let oj = choose|oj: int| 0 <= oj < live.actions@.len() && live.actions@[oj] == *o && o.id@ == kv
                                && o.type_@ == "command"@ && forall|j: int| 0 <= j < oj ==> !(#[trigger] live.actions@[j].id@ == kv
                                && live.actions@[j].type_@ == "command"@);
                            if oj < oi {
                                assert(!(live.actions@[oj].id@ == kv && live.actions@[oj].type_@ == "command"@));
                            }
                            if oi < oj {
                                assert(!(live.actions@[oi].id@ == kv && live.actions@[oi].type_@ == "command"@));
                            }
                            match new_action {
                                Some(w) => {
                                    let wj = choose|wj: int| 0 <= wj < acts.len() && acts[wj] == *w && w.id@ == kv && w.type_@ == "command"@
                                        && forall|j: int| 0 <= j < wj ==> !(#[trigger] acts[j].id@ == kv && acts[j].type_@ == "command"@);
                                    if wj < wi {
                                        assert(!(acts[wj].id@ == kv && acts[wj].type_@ == "command"@));
                                    }
                                    if wi < wj {
                                        assert(!(acts[wi].id@ == kv && acts[wi].type_@ == "command"@));
                                    }
                                },
                                None => {
                                    assert(!(acts[wi].id@ == kv && acts[wi].type_@ == "command"@));
                                },
                            }
                        },
                        None => {
                            assert(!(live.actions@[oi].id@ == kv && live.actions@[oi].type_@ == "command"@));
                        },
                    }
                }
            }
        }
        if keep {
            let v = match new_action {
                Some(w) => w.value.clone(),
                None => String::new(),
            };
            store.allowed_commands.insert(id.as_str());
            store.approved_command_values.insert(id.as_str(), v);
        }
        proof {
            assert forall|k: Seq<char>| #[trigger] store.allowed_commands@.contains(k) == ((exists|m: int| 0 <= m < i + 1
                && (#[trigger] ids@[m])@ == k) && save_keeps(*live, acts, k)) by {
                assert(ids@[i as int]@ == kv);
                if exists|m: int| 0 <= m < i + 1 && (#[trigger] ids@[m])@ == k {
                    let m = choose|m: int| 0 <= m < i + 1 && (#[trigger] ids@[m])@ == k;
                    if m < i {
                        assert(exists|m2: int| 0 <= m2 < i && (#[trigger] ids@[m2])@ == k);
                    }
                }
                if exists|m: int| 0 <= m < i && (#[trigger] ids@[m])@ == k {
                    let m = choose|m: int| 0 <= m < i && (#[trigger] ids@[m])@ == k;
                    assert(ids@[m]@ == k);
                }
            }
            assert(store.allowed_commands@ =~= Set::new(|k: Seq<char>| (exists|m: int| 0 <= m < i + 1 && (#[trigger] ids@[m])@ == k)
                && save_keeps(*live, acts, k)));
        }
        i = i + 1;
    }
    proof {
        assert(store.allowed_commands@ =~= Set::new(|k: Seq<char>| requested.contains(k) && save_keeps(*live, acts, k)));
    }
    Ok(store)
}

/// Saving the whole store never grants: every approval after a save is one
/// the live store held, for the same command text as now.
pub proof fn law_save_never_grants(live: Store, requested: Set<Seq<char>>, next: Store, k: Seq<char>)
    requires
        save_approvals(live, requested, next),
        next.allowed_commands@.contains(k),
    ensures
        live.allowed_commands@.contains(k),
        live.approved_command_values@.contains_key(k),
        next.approved_command_values@.contains_key(k),
        live.approved_command_values@[k]@ == next.approved_command_values@[k]@,
{
    assert(save_keeps(live, next.actions@, k));
    let (i, j) = choose|i: int, j: int|
        #![trigger first_command(live.actions@, k, i), first_command(next.actions@, k, j)]
        first_command(live.actions@, k, i) && first_command(next.actions@, k, j) && live.allowed_commands@.contains(k)
            && live.approved_command_values@.contains_key(k) && live.approved_command_values@[k]@
            == live.actions@[i].value@ && next.actions@[j].value@ == live.actions@[i].value@;
    assert(next.approved_command_values@.contains_key(k));
    let j2 = choose|j2: int| first_command(next.actions@, k, j2) && next.approved_command_values@[k]@ == next.actions@[j2].value@;
    if j < j2 {
        assert(!(next.actions@[j].id@ == k && next.actions@[j].type_@ == "command"@));
    }
    if j2 < j {
        assert(!(next.actions@[j2].id@ == k && next.actions@[j2].type_@ == "command"@));
    }
}

fn copy_text_map(m: &StrMap<String>) -> (r: StrMap<String>)
    requires
        m.wf(),
    ensures
        r.wf(),
        r@ == m@,
{
    let n = m.len();
    let mut r: StrMap<String> = StrMap::new();
    let mut i: usize = 0;
    while i < n
        invariant
            m.wf(),
            r.wf(),
            n == m.size(),
            i <= n,
            r@ == Map::new(|k: Seq<char>| m.seen(i as int, k), |k: Seq<char>| m@[k]),
        decreases n - i,
    {
        proof {
            m.lemma_at(i as int);
        }
        r.insert(m.key(i).as_str(), m.value(i).clone());
        proof {
            assert forall|kk: Seq<char>| #[trigger] m.seen(i + 1, kk) == (m.seen(i as int, kk) || kk == m.key_at(i as int)) by {
                if m.seen(i + 1, kk) {
                    let j = choose|j: int| 0 <= j < i + 1 && #[trigger] m.key_at(j) == kk;
                    if j < i {
                    }
                }
                if kk == m.key_at(i as int) {
                    assert(m.key_at(i as int) == kk);
                }
            }
            assert(r@ =~= Map::new(|k: Seq<char>| m.seen(i + 1, k), |k: Seq<char>| m@[k]));
        }
        i = i + 1;
    }
    proof {
        assert forall|kk: Seq<char>| #[trigger] m.seen(n as int, kk) == m@.contains_key(kk) by {
            if m.seen(n as int, kk) {
                let j = choose|j: int| 0 <= j < n && #[trigger] m.key_at(j) == kk;
                m.lemma_at(j);
            }
            if m@.contains_key(kk) {
                m.lemma_key(kk);
            }
        }
        assert(r@ =~= m@);
    }
    r
}

fn copy_set(s: &StrSet) -> (r: StrSet)
    requires
        s.wf(),
    ensures
        r.wf(),
        r@ == s@,
{
    let n = s.len();
    let mut r = StrSet::new();
    let mut i: usize = 0;
    while i < n
        invariant
            s.wf(),
            r.wf(),
            n == s.size(),
            i <= n,
            forall|k: Seq<char>| #[trigger] r@.contains(k) <==> s.seen(i as int, k),
        decreases n - i,
    {
        r.insert(s.member(i).as_str());
        proof {
            assert forall|kk: Seq<char>| #[trigger] r@.contains(kk) <==> s.seen(i + 1, kk) by {
                if s.seen(i + 1, kk) {
                    let j = choose|j: int| 0 <= j < i + 1 && #[trigger] s.member_at(j) == kk;
                    if j < i {
                        assert(s.seen(i as int, kk));
                    }
                }
                if kk == s.member_at(i as int) {
                    assert(s.member_at(i as int) == kk);
                }
                if s.seen(i as int, kk) {
                    let j = choose|j: int| 0 <= j < i && #[trigger] s.member_at(j) == kk;
                    assert(s.member_at(j) == kk);
                }
            }
        }
        i = i + 1;
    }
    proof {
        assert forall|kk: Seq<char>| #[trigger] s.seen(n as int, kk) == s@.contains(kk) by {
            if s.seen(n as int, kk) {
                let j = choose|j: int| 0 <= j < n && #[trigger] s.member_at(j) == kk;
                s.lemma_member(j);
            }
            if s@.contains(kk) {
                s.lemma_element(kk);
            }
        }
        assert(r@ =~= s@);
    }
    r
}

fn copy_actions(a: &Vec<Action>) -> (r: Vec<Action>)
    ensures
        action_views(r@) == action_views(a@),
{
    let mut r: Vec<Action> = Vec::new();
    let mut i: usize = 0;
    while i < a.len()
        invariant
            i <= a.len(),
            action_views(r@) == action_views(a@.take(i as int)),
        decreases a.len() - i,
    {
        let ghost before = r@;
        r.push(a[i].copy());
        assert(action_views(r@) =~= action_views(before).push(a@[i as int].view()));
        assert(action_views(a@.take(i + 1)) =~= action_views(a@.take(i as int)).push(a@[i as int].view()));
        i = i + 1;
    }
    assert(a@.take(a.len() as int) =~= a@);
    r
}

/// Whether `p` is the store exported as a profile: the current schema, the
/// same actions, bindings, preset names, composers and approvals, and the
/// slot banks, when known, as a full set.
pub open spec fn exported(store: Store, p: ProfileFile) -> bool {
    &&& p.wf()
    &&& p.schema_version == STORE_SCHEMA_VERSION
    &&& action_views(p.actions@) == action_views(store.actions@)
    &&& p.pad_bindings@ == store.pad_bindings@
    &&& texts(p.pad_preset_names@) == texts(store.pad_preset_names@)
    &&& views_of(p.composers@) == views_of(store.composers@)
    &&& p.allowed_commands@ == store.allowed_commands@
    &&& match store.pad_slots {
        None => p.pad_slots is None,
        Some(b) => p.pad_slots matches Some(PadSlotsWire::Banks(x)) && slot_banks(Some(x)) == slot_banks(Some(b)),
    }
}

/// The store as a portable profile.
pub fn profile_from_store(store: &Store) -> (p: ProfileFile)
    requires
        store.wf(),
    ensures
        exported(*store, p),
{
    ProfileFile {
        schema_version: STORE_SCHEMA_VERSION,
        actions: copy_actions(&store.actions),
        pad_bindings: copy_text_map(&store.pad_bindings),
        pad_preset_names: copy_strings(&store.pad_preset_names),
        composers: copy_composers(&store.composers),
        allowed_commands: copy_set(&store.allowed_commands),
        pad_slots: match &store.pad_slots {
            Some(b) => Some(PadSlotsWire::Banks(copy_banks(b))),
            None => None,
        },
    }
}

/// Applying a profile never grants: every approval afterwards was live
/// before, for an action that still exists, with the reviewed text
/// unchanged and equal to the command's current text. The profile's own
/// allowlist plays no part.
pub proof fn law_profile_never_grants(store: Store, p: ProfileFile, next: Store, w: ProfilePadWrite, k: Seq<char>)
    requires
        applied(store, p, next, w),
        next.allowed_commands@.contains(k),
    ensures
        store.allowed_commands@.contains(k),
        id_set(next.actions@).contains(k),
        store.approved_command_values@.contains_key(k),
        next.approved_command_values@.contains_key(k),
        next.approved_command_values@[k] == store.approved_command_values@[k],
        approval_stands(next.actions@, next.approved_command_values@, k),
{
}

/// Actions equal by value give every id the same command text.
proof fn lemma_command_value_by_views(a: Seq<Action>, b: Seq<Action>, k: Seq<char>)
    requires
        action_views(a) == action_views(b),
    ensures
        command_value(a, k) == command_value(b, k),
    decreases a.len(),
{
    assert(a.len() == action_views(a).len());
    assert(b.len() == action_views(b).len());
    if a.len() > 0 {
        assert(action_views(a)[a.len() - 1] == a.last().view());
        assert(action_views(b)[b.len() - 1] == b.last().view());
        assert(action_views(a.drop_last()) =~= action_views(a).drop_last());
        assert(action_views(b.drop_last()) =~= action_views(b).drop_last());
        lemma_command_value_by_views(a.drop_last(), b.drop_last(), k);
    }
}

/// The id of a command action is an action id.
proof fn lemma_command_value_id(a: Seq<Action>, k: Seq<char>)
    requires
        command_value(a, k) is Some,
    ensures
        id_set(a).contains(k),
    decreases a.len(),
{
    if a.last().type_@ == "command"@ && a.last().id@ == k {
        assert(a[a.len() - 1].id@ == k);
    } else {
        lemma_command_value_id(a.drop_last(), k);
        let j = choose|j: int| 0 <= j < a.drop_last().len() && #[trigger] a.drop_last()[j].id@ == k;
        assert(a[j].id@ == k);
    }
}

/// Exporting a normalized store and applying the profile to it gives the
/// store back, its standing approvals included.
pub proof fn law_export_import_roundtrip(store: Store, p: ProfileFile, next: Store, w: ProfilePadWrite)
    requires
        store.wf(),
        forall|k: Seq<char>| #[trigger] store.pad_bindings@.contains_key(k) ==> !is_legacy(k),
        store.composers@.dom().len() > 0,
        reconciled(
            store.actions@,
            store.allowed_commands@,
            store.approved_command_values@,
            store.allowed_commands@,
            store.approved_command_values@,
        ),
        exported(store, p),
        applied(store, p, next, w),
    ensures
        action_views(next.actions@) == action_views(store.actions@),
        next.pad_bindings@ == store.pad_bindings@,
        views_of(next.composers@) == views_of(store.composers@),
        texts(next.pad_preset_names@) == texts(store.pad_preset_names@),
        slot_banks(next.pad_slots) == slot_banks(store.pad_slots),
        next.allowed_commands@ == store.allowed_commands@,
        next.approved_command_values@ == store.approved_command_values@,
{
    assert(!legacy_scope(p));
    assert(applied_views(store, p) =~= action_views(p.actions@));
    let a = store.actions@;
    let b = next.actions@;
    assert forall|k: Seq<char>| command_value(b, k) == command_value(a, k) by {
        lemma_command_value_by_views(b, a, k);
    }
    assert forall|k: Seq<char>| #[trigger] store.allowed_commands@.contains(k) implies id_set(b).contains(k) by {
        assert(approval_stands(a, store.approved_command_values@, k));
        lemma_command_value_id(b, k);
    }
    assert(store.allowed_commands@.intersect(id_set(b)) =~= store.allowed_commands@);
    assert(store.approved_command_values@.restrict(id_set(b)) =~= store.approved_command_values@) by {
        assert forall|k: Seq<char>| #[trigger] store.approved_command_values@.contains_key(k) implies id_set(b).contains(k) by {
            assert(store.approved_command_values@.restrict(store.allowed_commands@).contains_key(k));
        }
    }
    assert(next.allowed_commands@ =~= store.allowed_commands@) by {
        assert forall|k: Seq<char>| next.allowed_commands@.contains(k) <==> #[trigger] store.allowed_commands@.contains(k) by {
            assert(approval_stands(b, store.approved_command_values@, k) == approval_stands(a, store.approved_command_values@, k));
        }
    }
    let (ms, mp) = choose|ms: Map<Seq<char>, String>, mp: Map<Seq<char>, String>|
        #![trigger migrated(store.pad_bindings@, ms), migrated(p.pad_bindings@, mp)]
        migrated(store.pad_bindings@, ms) && migrated(p.pad_bindings@, mp) && next.pad_bindings@ == if legacy_scope(
            p,
        ) {
            combined_bindings(ms, mp)
        } else {
            mp
        };
    lemma_migrated_identity(p.pad_bindings@, mp);
    store.composers.lemma_len();
    p.composers.lemma_len();
    assert(p.composers@.dom() =~= views_of(p.composers@).dom());
    assert(store.composers@.dom() =~= views_of(store.composers@).dom());
    assert(imported_composers(p) == views_of(p.composers@));
}

} // verus!
