//! The gates an action passes before it runs: URL schemes, the command
//! allowlist, known action types and pad binding lookup; and the allowlist
//! rules when a profile is applied or the store is saved.

use vstd::prelude::*;
use crate::strmap::{StrMap, StrSet};
use crate::text::{chars_of, has_prefix, push_all, chars_are};

verus! {

broadcast use vstd::string::group_string_axioms;

/// Whether a URL may be opened: it starts with `http://` or `https://`,
/// exactly as written.
pub open spec fn url_allowed(value: Seq<char>) -> bool {
    "http://"@.is_prefix_of(value) || "https://"@.is_prefix_of(value)
}

/// The URL gate's test.
pub fn url_scheme_allowed(value: &str) -> (b: bool)
    ensures
        b == url_allowed(value@),
{
    let v = chars_of(value);
    has_prefix(&v, "http://") || has_prefix(&v, "https://")
}

/// The URL gate.
pub fn url_gate(value: &str) -> (r: Result<(), String>)
    ensures
        r is Ok <==> url_allowed(value@),
        r matches Err(e) ==> e@ == "Blocked: not an http(s) URL"@,
{
    if url_scheme_allowed(value) {
        Ok(())
    } else {
        Err("Blocked: not an http(s) URL".to_string())
    }
}

/// Approved command actions: action id to the fingerprint of the command
/// text that was reviewed.
pub type AllowedCommands = StrMap<String>;

/// The fingerprint an approval records for a command: the exact command
/// text, so any change to it needs a new approval.
pub fn command_value_fingerprint(value: &str) -> (r: String)
    ensures
        r@ == value@,
{
    value.to_string()
}

/// Commands run only once their action id is approved.
pub fn command_gate(allowed: &StrSet, action_id: &str, action_name: &str) -> (r: Result<(), String>)
    requires
        allowed.wf(),
    ensures
        r is Ok <==> allowed@.contains(action_id@),
        r matches Err(e) ==> e@ == "Command \""@ + action_name@
            + "\" not allowed yet \u{2014} approve it in the UI first"@,
{
    if allowed.contains(action_id) {
        Ok(())
    } else {
        let mut m = "Command \"".to_string();
        push_all(&mut m, action_name);
        push_all(&mut m, "\" not allowed yet \u{2014} approve it in the UI first");
        Err(m)
    }
}

/// The action types the dispatcher runs.
pub open spec fn known_type(t: Seq<char>) -> bool {
    t == "url"@ || t == "path"@ || t == "prompt"@ || t == "note"@ || t == "composer"@ || t
        == "command"@
}

/// Whether the dispatcher knows an action type.
pub fn known_action_type(type_: &str) -> (b: bool)
    ensures
        b == known_type(type_@),
{
    let v = chars_of(type_);
    chars_are(&v, "url") || chars_are(&v, "path") || chars_are(&v, "prompt") || chars_are(&v, "note")
        || chars_are(&v, "composer") || chars_are(&v, "command")
}

/// The error for an action type the dispatcher does not know.
pub fn unknown_type_err(type_: &str) -> (r: String)
    ensures
        r@ == "unknown action type: "@ + type_@,
{
    let mut r = "unknown action type: ".to_string();
    push_all(&mut r, type_);
    r
}

/// The action a pad binding names, which must exist.
pub fn resolve_binding_action_id(bindings: &StrMap<String>, action_ids: &StrSet, key: &str) -> (r:
    Result<String, String>)
    requires
        bindings.wf(),
        action_ids.wf(),
    ensures
        !bindings@.contains_key(key@) ==> (r matches Err(e) && e@ == "no binding for slot "@ + key@),
        bindings@.contains_key(key@) && action_ids@.contains(bindings@[key@]@) ==> (r matches Ok(id)
            && id@ == bindings@[key@]@),
        bindings@.contains_key(key@) && !action_ids@.contains(bindings@[key@]@) ==> (r matches Err(e)
            && e@ == "binding "@ + key@ + " points to missing action"@),
{
    let id = match bindings.get(key) {
        Some(id) => id.clone(),
        None => {
            let mut m = "no binding for slot ".to_string();
            push_all(&mut m, key);
            return Err(m);
        },
    };
    if action_ids.contains(id.as_str()) {
        Ok(id)
    } else {
        let mut m = "binding ".to_string();
        push_all(&mut m, key);
        push_all(&mut m, " points to missing action");
        Err(m)
    }
}

/// What applying a profile did to the command allowlist.
#[derive(Debug, Clone, Copy, PartialEq, Eq, Structural)]
pub struct ProfileApplyStats {
    /// Allowlist entries the profile listed, all ignored.
    pub profile_allowlist_ignored: usize,
    /// Live approvals kept because their action still exists.
    pub retained_allowlist: usize,
}

/// Applying a profile never installs its allowlist: live approvals stay
/// only for action ids that still exist, with their fingerprints unchanged.
pub fn merge_allowlist_after_profile(
    live_allowed: &mut AllowedCommands,
    new_action_ids: &StrSet,
    profile_allowlist_entry_count: usize,
) -> (stats: ProfileApplyStats)
    requires
        old(live_allowed).wf(),
        new_action_ids.wf(),
    ensures
        final(live_allowed).wf(),
        final(live_allowed)@ == old(live_allowed)@.restrict(new_action_ids@),
        stats.profile_allowlist_ignored == profile_allowlist_entry_count,
        stats.retained_allowlist == final(live_allowed)@.dom().len(),
{
    live_allowed.retain_keys(new_action_ids);
    let n = live_allowed.count();
    ProfileApplyStats { profile_allowlist_ignored: profile_allowlist_entry_count, retained_allowlist: n }
}

/// Saving the store never widens or re-fingerprints the allowlist: the
/// live approvals whose action still exists, whatever the caller sent.
pub fn retain_allowlist_for_save(live_allowed: &AllowedCommands, new_action_ids: &StrSet) -> (r:
    AllowedCommands)
    requires
        live_allowed.wf(),
        new_action_ids.wf(),
    ensures
        r.wf(),
        r@ == live_allowed@.restrict(new_action_ids@),
{
    let n = live_allowed.len();
    let mut out: AllowedCommands = StrMap::new();
    let mut i: usize = 0;
    while i < n
        invariant
            live_allowed.wf(),
            new_action_ids.wf(),
            out.wf(),
            n == live_allowed.size(),
            i <= n,
            out@ == Map::new(
                |k: Seq<char>|
                    live_allowed@.contains_key(k) && new_action_ids@.contains(k) && live_allowed.seen(i as int, k),
                |k: Seq<char>| live_allowed@[k],
            ),
        decreases n - i,
    {
        let ghost prev = out@;
        let k = live_allowed.key(i);
        proof {
            live_allowed.lemma_at(i as int);
        }
        if new_action_ids.contains(k.as_str()) {
            let v = live_allowed.value(i).clone();
            out.insert(k.as_str(), v);
        }
        proof {
            assert forall|kk: Seq<char>| #[trigger] live_allowed.seen(i + 1, kk) == (live_allowed.seen(i as int, kk) || kk
                == live_allowed.key_at(i as int)) by {
                if live_allowed.seen(i + 1, kk) {
                    let j = choose|j: int| 0 <= j < i + 1 && #[trigger] live_allowed.key_at(j) == kk;
                    if j < i {
                    }
                }
                if kk == live_allowed.key_at(i as int) {
                    assert(live_allowed.key_at(i as int) == kk);
                }
            }
            assert(out@ =~= Map::new(
                |kk: Seq<char>|
                    live_allowed@.contains_key(kk) && new_action_ids@.contains(kk) && live_allowed.seen(i + 1, kk),
                |kk: Seq<char>| live_allowed@[kk],
            ));
        }
        i = i + 1;
    }
    proof {
        assert forall|kk: Seq<char>| #[trigger] live_allowed@.contains_key(kk) implies live_allowed.seen(n as int, kk) by {
            live_allowed.lemma_key(kk);
        }
        assert(out@ =~= live_allowed@.restrict(new_action_ids@));
    }
    out
}

/// Applying a profile or saving the store only ever drops approvals: an
/// approval that remains was live before, belongs to an action that still
/// exists, and keeps its fingerprint, so no new command becomes runnable.
pub proof fn law_allowlist_only_shrinks(live: Map<Seq<char>, String>, ids: Set<Seq<char>>, k: Seq<char>)
    requires
        live.restrict(ids).contains_key(k),
    ensures
        live.contains_key(k),
        ids.contains(k),
        live.restrict(ids)[k] == live[k],
{
}

} // verus!
