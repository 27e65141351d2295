//! What running an action decides: the barrier it passes, the composer
//! session it moves, the message it reports, and the outside work that is
//! left to the caller (opening, pasting, spawning, writing the field).
//! Also which action a pad binding or an id names.

use vstd::prelude::*;
use crate::text::{push_all, push_decimal, decimal, trim, trimmed, chars_of, chars_are};
use crate::slots::PadSlots;
use crate::store::{Store, Action, binding_parts, canonical_key, parse_binding_key};
use crate::composer::{
    ComposerRuntime, ComposerPress, TapOutcome, precheck_verdict, composer_precheck, note_composer_tap,
    commit_composer, reset_composer_runtime, completes_double, press_effect, commit_effect, commit_count,
    picked, };
use crate::dispatch::url_allowed;
use crate::paths::{home_expanded, shellexpand_home};

verus! {

broadcast use vstd::string::group_string_axioms;

/// The outside work an action leaves to its caller, with the message it
/// reports once that work is done.
#[derive(Debug)]
pub enum ActionEffect {
    /// Open a web page.
    OpenUrl { url: String, done: String },
    /// Open a file or directory.
    OpenPath { path: String, done: String },
    /// Paste text into the focused field; its result is the message.
    Paste { text: String, label: String },
    /// A first composer tap: nothing else to do.
    Arming { done: String },
    /// A double-tap fired: notify, and write the preview into the field.
    Fired { press: ComposerPress, done: String },
    /// A preview was committed: clear the field writer's preview.
    Committed { done: String },
    /// Nothing was previewed, so nothing was committed.
    NothingToCommit { done: String },
    /// A composer loop was reset: reset the field writer and notify.
    LoopReset { done: String },
    /// Run a shell command, without waiting.
    RunCommand { script: String, done: String },
}

/// The number of commands of the composer `id` names in the store.
pub open spec fn composer_commands(store: Store, id: Seq<char>) -> Option<nat> {
    if store.composers@.contains_key(id) {
        Some(store.composers@[id].commands@.len())
    } else {
        None
    }
}

/// Whether a command action may run: approved for exactly its text.
pub open spec fn approved(store: Store, a: Action) -> bool {
    &&& a.type_@ == "command"@
    &&& store.allowed_commands@.contains(a.id@)
    &&& store.approved_command_values@.contains_key(a.id@)
    &&& store.approved_command_values@[a.id@]@ == a.value@
}

/// The message of a fired double-tap.
pub open spec fn fired_message(name: Seq<char>, p: ComposerPress) -> Seq<char> {
    name + " ["@ + p.token@ + "] ("@ + decimal((p.idx + 1) as nat) + "/"@ + decimal(p.len as nat)
        + ") \u{2014} Space to commit"@
}

/// The message for a command that is not approved.
pub open spec fn not_approved_message(name: Seq<char>) -> Seq<char> {
    "Command \""@ + name + "\" not allowed yet \u{2014} approve it in the UI first"@
}

/// Whether composer `k`'s session was forgotten and nothing else changed.
pub open spec fn session_reset(old: ComposerRuntime, new: ComposerRuntime, k: Seq<char>) -> bool {
    &&& new.wf()
    &&& new.index@ == old.index@.remove(k)
    &&& new.last_press@ == old.last_press@.remove(k)
    &&& new.last_tap@ == old.last_tap@.remove(k)
    &&& new.picking@ == old.picking@.remove(k)
    &&& new.committed@ == old.committed@.remove(k)
    &&& new.last_text@ == old.last_text@.remove(k)
}

/// Whether a composer tap is the one a precheck passed for.
pub open spec fn tap_result(
    store: Store,
    old: ComposerRuntime,
    new: ComposerRuntime,
    a: Action,
    now: u64,
    double_tap_ms: u64,
    r: Result<ActionEffect, String>,
) -> bool {
    let k = trim(a.value@);
    if completes_double(old, k, now, double_tap_ms) {
        r matches Ok(ActionEffect::Fired { press, done }) && press_effect(
            old,
            new,
            store.composers@[k],
            k,
            now,
            press,
            old.last_tap@.remove(k),
        ) && done@ == fired_message(a.name@, press)
    } else {
        &&& r matches Ok(ActionEffect::Arming { done }) && done@ == a.name@ + " \u{2014} tap again quickly to rotate"@
        &&& new.last_tap@ == old.last_tap@.insert(k, now)
        &&& new.index == old.index
        &&& new.last_press == old.last_press
        &&& new.picking == old.picking
        &&& new.committed == old.committed
        &&& new.last_text == old.last_text
        &&& new.wf()
    }
}

/// Runs the decision part of an action at `now` (milliseconds of a
/// monotonic clock): URLs must be http(s); a path's `~` is expanded with
/// `home`; a composer tap arms or fires; a commit keeps the preview; a reset
/// forgets one session or all; a command runs only when approved for its
/// exact text; any other type is refused.
pub fn execute_action(
    store: &Store,
    runtime: &mut ComposerRuntime,
    action: &Action,
    now: u64,
    double_tap_ms: u64,
    home: Option<&str>,
) -> (r: Result<ActionEffect, String>)
    requires
        store.wf(),
        old(runtime).wf(),
        commit_count(*old(runtime), trim(action.value@)) < usize::MAX,
    ensures
        final(runtime).wf(),
        ({
            let t = action.type_@;
            let v = action.value@;
            let n = action.name@;
            let k = trim(v);
            let pre = precheck_verdict(v, composer_commands(*store, k));
            &&& t == "url"@ ==> *final(runtime) == *old(runtime) && if url_allowed(v) {
                r matches Ok(ActionEffect::OpenUrl { url, done }) && url@ == v && done@ == "opened "@ + n
            } else {
                r matches Err(e) && e@ == "Blocked: not an http(s) URL"@
            }
            &&& t == "path"@ ==> *final(runtime) == *old(runtime) && (r matches Ok(ActionEffect::OpenPath { path, done })
                && path@ == home_expanded(v, match home {
                Some(h) => Some(h@),
                None => None,
            }) && done@ == "opened path "@ + n)
            &&& (t == "prompt"@ || t == "note"@) ==> *final(runtime) == *old(runtime) && (r matches Ok(
                ActionEffect::Paste { text, label },
            ) && text@ == v && label@ == n)
            &&& t == "composer"@ ==> match pre {
                Err(m) => (r matches Err(e) && e@ == m) && *final(runtime) == *old(runtime),
                Ok(()) => tap_result(*store, *old(runtime), *final(runtime), *action, now, double_tap_ms, r),
            }
            &&& t == "composer-commit"@ ==> match pre {
                Err(m) => (r matches Err(e) && e@ == m) && *final(runtime) == *old(runtime),
                Ok(()) => if picked(*old(runtime), k) {
                    commit_effect(*old(runtime), *final(runtime), k) && (r matches Ok(ActionEffect::Committed { done })
                        && done@ == n + " committed \u{2014} double-tap to stack next"@)
                } else {
                    *final(runtime) == *old(runtime) && (r matches Ok(ActionEffect::NothingToCommit { done }) && done@
                        == n + " \u{2014} nothing to commit"@)
                },
            }
            &&& t == "composer-reset"@ ==> if k.len() == 0 {
                final(runtime).is_empty() && (r matches Ok(ActionEffect::LoopReset { done }) && done@ == n
                    + " \u{2014} new loop ready"@)
            } else {
                match pre {
                    Err(m) => (r matches Err(e) && e@ == m) && *final(runtime) == *old(runtime),
                    Ok(()) => session_reset(*old(runtime), *final(runtime), k) && (r matches Ok(
                        ActionEffect::LoopReset { done },
                    ) && done@ == n + " \u{2014} new loop ready"@),
                }
            }
            &&& t == "command"@ ==> *final(runtime) == *old(runtime) && if approved(*store, *action) {
                r matches Ok(ActionEffect::RunCommand { script, done }) && script@ == v && done@ == "ran "@ + n
            } else {
                r matches Err(e) && e@ == not_approved_message(n)
            }
            &&& !(t == "url"@ || t == "path"@ || t == "prompt"@ || t == "note"@ || t == "composer"@ || t
                == "composer-commit"@ || t == "composer-reset"@ || t == "command"@) ==> *final(runtime) == *old(
                runtime,
            ) && (r matches Err(e) && e@ == "unknown action type: "@ + t)
        }),
{
    proof {
        reveal_strlit("url");
        reveal_strlit("path");
        reveal_strlit("prompt");
        reveal_strlit("note");
        reveal_strlit("composer");
        reveal_strlit("composer-commit");
        reveal_strlit("composer-reset");
        reveal_strlit("command");
        assert("url"@.len() == 3);
        assert("path"@.len() == 4);
        assert("prompt"@.len() == 6);
        assert("note"@.len() == 4);
        assert("composer"@.len() == 8);
        assert("composer-commit"@.len() == 15);
        assert("composer-reset"@.len() == 14);
        assert("command"@.len() == 7);
        assert("path"@[0] != "note"@[0]);
    }
    let tv = chars_of(action.type_.as_str());
    if chars_are(&tv, "url") {
        if !crate::dispatch::url_scheme_allowed(action.value.as_str()) {
            return Err("Blocked: not an http(s) URL".to_string());
        }
        let mut done = "opened ".to_string();
        push_all(&mut done, action.name.as_str());
        return Ok(ActionEffect::OpenUrl { url: action.value.clone(), done });
    }
    if chars_are(&tv, "path") {
        let path = shellexpand_home(action.value.as_str(), home);
        let mut done = "opened path ".to_string();
        push_all(&mut done, action.name.as_str());
        return Ok(ActionEffect::OpenPath { path, done });
    }
    if chars_are(&tv, "prompt") || chars_are(&tv, "note") {
        return Ok(ActionEffect::Paste { text: action.value.clone(), label: action.name.clone() });
    }
    if chars_are(&tv, "composer") {
        let id = trimmed(action.value.as_str());
        composer_precheck(action.value.as_str(), store.composers.get(id.as_str()))?;
        let cfg = store.composers.get(id.as_str()).unwrap();
        match note_composer_tap(action.value.as_str(), cfg, runtime, now, double_tap_ms)? {
            TapOutcome::Arming => {
                let mut done = action.name.clone();
                push_all(&mut done, " \u{2014} tap again quickly to rotate");
                return Ok(ActionEffect::Arming { done });
            },
            TapOutcome::Fired(press) => {
                proof {
                    assert(press.idx < press.len);
                }
                let mut done = action.name.clone();
                push_all(&mut done, " [");
                push_all(&mut done, press.token.as_str());
                push_all(&mut done, "] (");
                push_decimal(&mut done, press.idx as u64 + 1);
                push_all(&mut done, "/");
                push_decimal(&mut done, press.len as u64);
                push_all(&mut done, ") \u{2014} Space to commit");
                return Ok(ActionEffect::Fired { press, done });
            },
        }
    }
    if chars_are(&tv, "composer-commit") {
        let id = trimmed(action.value.as_str());
        composer_precheck(action.value.as_str(), store.composers.get(id.as_str()))?;
        if commit_composer(runtime, id.as_str()) {
            let mut done = action.name.clone();
            push_all(&mut done, " committed \u{2014} double-tap to stack next");
            return Ok(ActionEffect::Committed { done });
        } else {
            let mut done = action.name.clone();
            push_all(&mut done, " \u{2014} nothing to commit");
            return Ok(ActionEffect::NothingToCommit { done });
        }
    }
    if chars_are(&tv, "composer-reset") {
        let id = trimmed(action.value.as_str());
        if id.as_str().is_empty() {
            reset_composer_runtime(runtime, None);
        } else {
            composer_precheck(action.value.as_str(), store.composers.get(id.as_str()))?;
            reset_composer_runtime(runtime, Some(id.as_str()));
        }
        let mut done = action.name.clone();
        push_all(&mut done, " \u{2014} new loop ready");
        return Ok(ActionEffect::LoopReset { done });
    }
    if chars_are(&tv, "command") {
        if !store.command_is_approved(action) {
            let mut m = "Command \"".to_string();
            push_all(&mut m, action.name.as_str());
            push_all(&mut m, "\" not allowed yet \u{2014} approve it in the UI first");
            return Err(m);
        }
        let mut done = "ran ".to_string();
        push_all(&mut done, action.name.as_str());
        return Ok(ActionEffect::RunCommand { script: action.value.clone(), done });
    }
    let mut m = "unknown action type: ".to_string();
    push_all(&mut m, action.type_.as_str());
    Err(m)
}

/// Whether `i` is the first index of an action with id `id`.
pub open spec fn first_with_id(a: Seq<Action>, id: Seq<char>, i: int) -> bool {
    &&& 0 <= i < a.len()
    &&& a[i].id@ == id
    &&& forall|j: int| 0 <= j < i ==> (#[trigger] a[j]).id@ != id
}

/// Whether some action has id `id`.
pub open spec fn has_action(a: Seq<Action>, id: Seq<char>) -> bool {
    exists|i: int| 0 <= i < a.len() && (#[trigger] a[i]).id@ == id
}

/// The first action with id `id`.
pub fn find_action_index(actions: &Vec<Action>, id: &str) -> (r: Option<usize>)
    ensures
        match r {
            Some(i) => first_with_id(actions@, id@, i as int),
            None => !has_action(actions@, id@),
        },
{
    let ids = id.to_string();
    let mut i: usize = 0;
    while i < actions.len()
        invariant
            i <= actions@.len(),
            ids@ == id@,
            forall|j: int| 0 <= j < i ==> (#[trigger] actions@[j]).id@ != id@,
        decreases actions@.len() - i,
    {
        if actions[i].id == ids {
            return Some(i);
        }
        i = i + 1;
    }
    None
}

/// Where a fired binding key leads.
#[derive(Debug)]
pub enum BindingTarget {
    /// The key is not a binding key.
    Invalid(String),
    /// No action is bound to the slot.
    Unbound { bank: u8, preset: u8, action: u8, message: String },
    /// The bound action does not exist.
    Missing { bank: u8, preset: u8, action: u8, action_id: String, message: String },
    /// The bound action, by its index in the store.
    Found { bank: u8, preset: u8, action: u8, action_id: String, index: usize },
}

/// Resolves a fired binding key: a single-bank `preset-action` key is read
/// as bank 0; the bound action is the first one with the bound id.
pub fn resolve_binding(store: &Store, key: &str) -> (r: BindingTarget)
    requires
        store.wf(),
    ensures
        binding_parts(key@) is None ==> (r matches BindingTarget::Invalid(m) && m@ == "invalid binding key "@ + key@),
        binding_parts(key@) matches Some((b, p, a, _)) ==> ({
            let ck = canonical_key(b, p, a);
            if !store.pad_bindings@.contains_key(ck) {
                r matches BindingTarget::Unbound { bank, preset, action, message } && bank == b && preset == p
                    && action == a && message@ == "no binding for slot "@ + ck
            } else if has_action(store.actions@, store.pad_bindings@[ck]@) {
                r matches BindingTarget::Found { bank, preset, action, action_id, index } && bank == b && preset == p
                    && action == a && action_id@ == store.pad_bindings@[ck]@ && first_with_id(
                    store.actions@,
                    action_id@,
                    index as int,
                )
            } else {
                r matches BindingTarget::Missing { bank, preset, action, action_id, message } && bank == b && preset
                    == p && action == a && action_id@ == store.pad_bindings@[ck]@ && message@ == "binding "@ + ck
                    + " points to missing action"@
            }
        }),
{
    let (b, p, a) = match parse_binding_key(key) {
        Some((b, p, a, _)) => (b, p, a),
        None => {
            let mut m = "invalid binding key ".to_string();
            push_all(&mut m, key);
            return BindingTarget::Invalid(m);
        },
    };
    let ck = PadSlots::bank_binding_key(b, p, a);
    let (bank, preset, action) = (b as u8, p as u8, a as u8);
    let id = match store.pad_bindings.get(ck.as_str()) {
        Some(id) => id.clone(),
        None => {
            let mut m = "no binding for slot ".to_string();
            push_all(&mut m, ck.as_str());
            return BindingTarget::Unbound { bank, preset, action, message: m };
        },
    };
    match find_action_index(&store.actions, id.as_str()) {
        Some(index) => BindingTarget::Found { bank, preset, action, action_id: id, index },
        None => {
            let mut m = "binding ".to_string();
            push_all(&mut m, ck.as_str());
            push_all(&mut m, " points to missing action");
            BindingTarget::Missing { bank, preset, action, action_id: id, message: m }
        },
    }
}

/// What a paste reports: whether the paste chord went through, then the
/// action's label.
pub open spec fn paste_status(pasted: Result<(), String>) -> Seq<char> {
    match pasted {
        Ok(()) => "auto-pasted"@,
        Err(e) => "copied (paste failed: "@ + e@ + ")"@,
    }
}

/// The notification and the result message of a paste.
#[derive(Debug, Clone, PartialEq, Eq)]
pub struct PasteReport {
    pub notice: String,
    pub message: String,
}

/// Reports a paste once the text is on the clipboard.
pub fn paste_report(pasted: Result<(), String>, label: &str) -> (r: PasteReport)
    ensures
        r.notice@ == paste_status(pasted) + " \u{b7} "@ + label@,
        r.message@ == paste_status(pasted) + " "@ + label@,
{
    let status = match pasted {
        Ok(()) => "auto-pasted".to_string(),
        Err(e) => {
            let mut m = "copied (paste failed: ".to_string();
            push_all(&mut m, e.as_str());
            push_all(&mut m, ")");
            m
        },
    };
    let mut notice = status.clone();
    push_all(&mut notice, " \u{b7} ");
    push_all(&mut notice, label);
    let mut message = status;
    push_all(&mut message, " ");
    push_all(&mut message, label);
    PasteReport { notice, message }
}

} // verus!
