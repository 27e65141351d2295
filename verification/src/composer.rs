//! The slash-command composer: a quick double-tap on the pad starts a pick
//! or rotates the previewed command, the spacebar commits the preview so the
//! next double-tap stacks a new one, and a reset forgets a composer. Times
//! are milliseconds on one monotonic clock.

use vstd::prelude::*;
use crate::strmap::StrMap;
use crate::text::{trim, trimmed, chars_of, push_all};

verus! {

broadcast use vstd::string::group_string_axioms;

/// The separator placed between stacked commands.
pub fn default_separator() -> (r: String)
    ensures
        r@ == " "@,
{
    " ".to_string()
}

/// Kept for stored settings; idle abandon is disabled.
pub fn default_timeout_ms() -> (r: u64)
    ensures
        r == 60_000,
{
    60_000
}

/// Largest gap between two pad presses that still counts as a double-tap.
pub fn default_double_tap_ms() -> (r: u64)
    ensures
        r == 400,
{
    400
}

/// The events that end a composer session.
pub fn default_reset_on() -> (r: Vec<String>)
    ensures
        r@.len() == 2,
        r@[0]@ == "explicitClear"@,
        r@[1]@ == "space"@,
{
    let mut v = Vec::new();
    v.push("explicitClear".to_string());
    v.push("space".to_string());
    v
}

/// One composer: the commands it rotates through and how they are joined.
#[derive(Debug)]
pub struct ComposerConfig {
    pub commands: Vec<String>,
    pub separator: String,
    /// Stored for compatibility; the session never times out.
    pub timeout_ms: u64,
    pub reset_on: Vec<String>,
}

impl Default for ComposerConfig {
    fn default() -> (r: Self)
        ensures
            r.commands@.len() == 3,
            r.commands@[0]@ == "/help"@,
            r.commands@[1]@ == "/review"@,
            r.commands@[2]@ == "/plan"@,
            r.separator@ == " "@,
            r.timeout_ms == 60_000,
            r.reset_on@.len() == 2,
            r.reset_on@[0]@ == "explicitClear"@,
            r.reset_on@[1]@ == "space"@,
    {
        let mut commands = Vec::new();
        commands.push("/help".to_string());
        commands.push("/review".to_string());
        commands.push("/plan".to_string());
        ComposerConfig {
            commands,
            separator: default_separator(),
            timeout_ms: default_timeout_ms(),
            reset_on: default_reset_on(),
        }
    }
}

/// A list of strings by their text.
pub open spec fn texts(v: Seq<String>) -> Seq<Seq<char>> {
    v.map_values(|s: String| s@)
}

/// A copy of a list of strings.
pub fn copy_strings(v: &Vec<String>) -> (r: Vec<String>)
    ensures
        texts(r@) == texts(v@),
{
    let mut r: Vec<String> = Vec::new();
    let mut i: usize = 0;
    while i < v.len()
        invariant
            i <= v.len(),
            r@.len() == i,
            texts(r@) == texts(v@).take(i as int),
        decreases v.len() - i,
    {
        let ghost before = r@;
        let c = v[i].clone();
        r.push(c);
        assert forall|j: int| 0 <= j < i + 1 implies #[trigger] texts(r@)[j] == texts(v@).take(i + 1)[j] by {
            if j < i {
                assert(r@[j] == before[j]);
                assert(texts(before)[j] == texts(v@).take(i as int)[j]);
            }
        }
        assert(texts(r@) =~= texts(v@).take(i + 1));
        i = i + 1;
    }
    assert(texts(v@).take(v.len() as int) =~= texts(v@));
    r
}

/// Whether two lists of strings hold the same texts.
pub fn same_strings(a: &Vec<String>, b: &Vec<String>) -> (r: bool)
    ensures
        r == (texts(a@) == texts(b@)),
{
    if a.len() != b.len() {
        assert(texts(a@).len() != texts(b@).len());
        return false;
    }
    let mut i: usize = 0;
    while i < a.len()
        invariant
            a.len() == b.len(),
            i <= a.len(),
            forall|j: int| 0 <= j < i ==> a@[j]@ == b@[j]@,
        decreases a.len() - i,
    {
        if a[i] != b[i] {
            assert(texts(a@)[i as int] != texts(b@)[i as int]);
            return false;
        }
        i = i + 1;
    }
    assert(texts(a@) =~= texts(b@));
    true
}

/// A composer setting by its values.
pub struct ConfigView {
    pub commands: Seq<Seq<char>>,
    pub separator: Seq<char>,
    pub timeout_ms: u64,
    pub reset_on: Seq<Seq<char>>,
}

impl ComposerConfig {
    pub open spec fn view(&self) -> ConfigView {
        ConfigView {
            commands: texts(self.commands@),
            separator: self.separator@,
            timeout_ms: self.timeout_ms,
            reset_on: texts(self.reset_on@),
        }
    }

    /// A copy with the same values.
    pub fn copy(&self) -> (r: Self)
        ensures
            r.view() == self.view(),
    {
        ComposerConfig {
            commands: copy_strings(&self.commands),
            separator: self.separator.clone(),
            timeout_ms: self.timeout_ms,
            reset_on: copy_strings(&self.reset_on),
        }
    }

    /// Whether two settings hold the same values.
    pub fn same(&self, other: &ComposerConfig) -> (r: bool)
        ensures
            r == (self.view() == other.view()),
    {
        same_strings(&self.commands, &other.commands) && self.separator == other.separator
            && self.timeout_ms == other.timeout_ms && same_strings(&self.reset_on, &other.reset_on)
    }
}

/// Per-composer session state, each map keyed by composer id.
pub struct ComposerRuntime {
    /// Index of the previewed command.
    pub index: StrMap<usize>,
    /// When the last press fired.
    pub last_press: StrMap<u64>,
    /// First tap of a possible double-tap, not yet fired.
    pub last_tap: StrMap<u64>,
    /// Whether a preview is showing.
    pub picking: StrMap<bool>,
    /// How many previews were committed.
    pub committed: StrMap<usize>,
    /// The previewed text this composer owns.
    pub last_text: StrMap<String>,
}

impl ComposerRuntime {
    pub open spec fn wf(&self) -> bool {
        &&& self.index.wf()
        &&& self.last_press.wf()
        &&& self.last_tap.wf()
        &&& self.picking.wf()
        &&& self.committed.wf()
        &&& self.last_text.wf()
    }

    /// No session at all.
    pub open spec fn is_empty(&self) -> bool {
        &&& self.index@ == Map::<Seq<char>, usize>::empty()
        &&& self.last_press@ == Map::<Seq<char>, u64>::empty()
        &&& self.last_tap@ == Map::<Seq<char>, u64>::empty()
        &&& self.picking@ == Map::<Seq<char>, bool>::empty()
        &&& self.committed@ == Map::<Seq<char>, usize>::empty()
        &&& self.last_text@ == Map::<Seq<char>, String>::empty()
    }

    /// A runtime with no session.
    pub fn new() -> (r: Self)
        ensures
            r.wf(),
            r.is_empty(),
    {
        ComposerRuntime {
            index: StrMap::new(),
            last_press: StrMap::new(),
            last_tap: StrMap::new(),
            picking: StrMap::new(),
            committed: StrMap::new(),
            last_text: StrMap::new(),
        }
    }

    /// Whether composer `id` shows a preview.
    pub fn is_picking(&self, id: &str) -> (b: bool)
        requires
            self.wf(),
        ensures
            b == picked(*self, id@),
    {
        match self.picking.get(id) {
            Some(p) => *p,
            None => false,
        }
    }
}

impl Default for ComposerRuntime {
    fn default() -> (r: Self)
        ensures
            r.wf(),
            r.is_empty(),
    {
        ComposerRuntime::new()
    }
}

/// What a fired double-tap puts in the field.
#[derive(Debug, Clone, PartialEq, Eq)]
pub struct ComposerPress {
    pub text: String,
    pub token: String,
    pub idx: usize,
    pub len: usize,
    pub timeout_ms: u64,
    pub replaced_preview: bool,
    /// Characters of the preview being replaced; 0 on a fresh pick.
    pub erase_chars: usize,
}

/// What a pad tap did.
#[derive(Debug, Clone, PartialEq, Eq)]
pub enum TapOutcome {
    /// First tap of a double: the field is not touched.
    Arming,
    /// A confirmed double-tap: start or rotate.
    Fired(ComposerPress),
}

/// Whether composer `k` shows a preview.
pub open spec fn picked(rt: ComposerRuntime, k: Seq<char>) -> bool {
    rt.picking@.contains_key(k) && rt.picking@[k]
}

/// The check before a composer acts: the trimmed id must be non-empty and
/// name a composer (given here by its number of commands) that has commands.
pub open spec fn precheck_verdict(id: Seq<char>, commands: Option<nat>) -> Result<(), Seq<char>> {
    let t = trim(id);
    if t.len() == 0 {
        Err("composer action needs a composer id in value (e.g. ai)"@)
    } else {
        match commands {
            None => Err("unknown composer \""@ + t + "\""@),
            Some(n) => if n == 0 {
                Err("composer \""@ + t + "\" has no commands"@)
            } else {
                Ok(())
            },
        }
    }
}

pub open spec fn command_count(cfg: Option<&ComposerConfig>) -> Option<nat> {
    match cfg {
        Some(c) => Some(c.commands@.len()),
        None => None,
    }
}

/// Checks that `id` names a composer with commands.
pub fn composer_precheck(id: &str, cfg: Option<&ComposerConfig>) -> (r: Result<(), String>)
    ensures
        match r {
            Ok(()) => precheck_verdict(id@, command_count(cfg)) is Ok,
            Err(m) => precheck_verdict(id@, command_count(cfg)) == Err::<(), Seq<char>>(m@),
        },
{
    let t = trimmed(id);
    if t.as_str().is_empty() {
        return Err("composer action needs a composer id in value (e.g. ai)".to_string());
    }
    match cfg {
        None => {
            let mut m = "unknown composer \"".to_string();
            push_all(&mut m, t.as_str());
            push_all(&mut m, "\"");
            Err(m)
        },
        Some(c) => {
            if c.commands.len() == 0 {
                let mut m = "composer \"".to_string();
                push_all(&mut m, t.as_str());
                push_all(&mut m, "\" has no commands");
                Err(m)
            } else {
                Ok(())
            }
        },
    }
}

/// The index a press previews: the next command when a preview shows,
/// else the first.
pub open spec fn next_index(rt: ComposerRuntime, k: Seq<char>, len: nat) -> nat {
    if picked(rt, k) {
        let cur = if rt.index@.contains_key(k) {
            rt.index@[k] as nat
        } else {
            0
        };
        ((cur % len) + 1) % len
    } else {
        0
    }
}

/// How many characters of the replaced preview a press erases.
pub open spec fn erase_count(rt: ComposerRuntime, k: Seq<char>) -> nat {
    if picked(rt, k) && rt.last_text@.contains_key(k) {
        rt.last_text@[k]@.len()
    } else {
        0
    }
}

/// One press of composer `k` at `now`, from `old` to `new`, leaving the
/// tap arming map as `tap_after`: it previews the next command (the first
/// on a fresh pick), erases the replaced preview's characters, and records
/// the preview, its index, the picking state and the press time.
pub open spec fn press_effect(
    old: ComposerRuntime,
    new: ComposerRuntime,
    cfg: ComposerConfig,
    k: Seq<char>,
    now: u64,
    p: ComposerPress,
    tap_after: Map<Seq<char>, u64>,
) -> bool {
    let len = cfg.commands@.len();
    let idx = next_index(old, k, len);
    &&& p.idx == idx
    &&& p.len == len
    &&& p.replaced_preview == picked(old, k)
    &&& p.token@ == cfg.commands@[idx as int]@
    &&& p.text@ == p.token@
    &&& p.timeout_ms == if cfg.timeout_ms >= 5000 {
        cfg.timeout_ms
    } else {
        5000
    }
    &&& p.erase_chars == erase_count(old, k)
    &&& new.last_text@.contains_key(k)
    &&& new.last_text@[k]@ == p.text@
    &&& new.last_text@.remove(k) == old.last_text@.remove(k)
    &&& new.index@ == old.index@.insert(k, idx as usize)
    &&& new.picking@ == old.picking@.insert(k, true)
    &&& new.last_press@ == old.last_press@.insert(k, now)
    &&& new.last_tap@ == tap_after
    &&& new.committed@ == old.committed@
    &&& new.wf()
}

/// A press reports the configured timeout held at a floor of 5000 ms: at
/// least 5000, at least the configured value, and one of the two, so a
/// configured timeout of 5000 ms or more is reported unchanged.
pub proof fn law_press_timeout_floor(
    old: ComposerRuntime,
    new: ComposerRuntime,
    cfg: ComposerConfig,
    k: Seq<char>,
    now: u64,
    p: ComposerPress,
    tap_after: Map<Seq<char>, u64>,
)
    requires
        press_effect(old, new, cfg, k, now, p, tap_after),
    ensures
        p.timeout_ms >= 5000,
        p.timeout_ms >= cfg.timeout_ms,
        p.timeout_ms == cfg.timeout_ms || p.timeout_ms == 5000,
        cfg.timeout_ms >= 5000 ==> p.timeout_ms == cfg.timeout_ms,
{
}

fn press(id: &str, cfg: &ComposerConfig, runtime: &mut ComposerRuntime, now: u64) -> (p: ComposerPress)
    requires
        old(runtime).wf(),
        cfg.commands@.len() > 0,
    ensures
        press_effect(*old(runtime), *final(runtime), *cfg, id@, now, p, old(runtime).last_tap@),
{
    let len = cfg.commands.len();
    let timeout_ms = if cfg.timeout_ms >= 5000 {
        cfg.timeout_ms
    } else {
        5000
    };
    let was_picking = runtime.is_picking(id);
    let idx: usize = if was_picking {
        let cur: usize = match runtime.index.get(id) {
            Some(i) => *i,
            None => 0,
        };
        ((cur % len) + 1) % len
    } else {
        0
    };
    let token = cfg.commands[idx].clone();
    let text = token.clone();
    let erase_chars: usize = if was_picking {
        match runtime.last_text.get(id) {
            Some(t) => chars_of(t.as_str()).len(),
            None => 0,
        }
    } else {
        0
    };
    let ghost old_text = runtime.last_text@;
    runtime.last_text.insert(id, text.clone());
    assert(runtime.last_text@.remove(id@) =~= old_text.remove(id@));
    runtime.index.insert(id, idx);
    runtime.picking.insert(id, true);
    runtime.last_press.insert(id, now);
    ComposerPress { text, token, idx, len, timeout_ms, replaced_preview: was_picking, erase_chars }
}

/// Starts or rotates composer `id` (its trimmed name) at `now`.
pub fn apply_composer_press(
    id: &str,
    cfg: &ComposerConfig,
    runtime: &mut ComposerRuntime,
    now: u64,
) -> (r: Result<ComposerPress, String>)
    requires
        old(runtime).wf(),
    ensures
        match precheck_verdict(id@, Some(cfg.commands@.len())) {
            Err(m) => (r matches Err(e) && e@ == m) && *final(runtime) == *old(runtime),
            Ok(()) => r matches Ok(p) && press_effect(
                *old(runtime),
                *final(runtime),
                *cfg,
                trim(id@),
                now,
                p,
                old(runtime).last_tap@,
            ),
        },
{
    composer_precheck(id, Some(cfg))?;
    let k = trimmed(id);
    Ok(press(k.as_str(), cfg, runtime, now))
}

/// The double-tap window actually used: the setting held within
/// 150..=900 ms.
pub open spec fn tap_window(double_tap_ms: u64) -> u64 {
    if double_tap_ms < 150 {
        150
    } else if double_tap_ms > 900 {
        900
    } else {
        double_tap_ms
    }
}

/// Time from `first` to `now`, nothing when `now` is earlier.
pub open spec fn elapsed(first: u64, now: u64) -> u64 {
    if now >= first {
        (now - first) as u64
    } else {
        0
    }
}

/// Whether a tap at `now` completes a double-tap of composer `k`.
pub open spec fn completes_double(rt: ComposerRuntime, k: Seq<char>, now: u64, double_tap_ms: u64) -> bool {
    rt.last_tap@.contains_key(k) && elapsed(rt.last_tap@[k], now) <= tap_window(double_tap_ms)
}

/// A pad tap on composer `id`: the second of two taps within the window
/// fires a press; any other tap arms and changes nothing else.
pub fn note_composer_tap(
    id: &str,
    cfg: &ComposerConfig,
    runtime: &mut ComposerRuntime,
    now: u64,
    double_tap_ms: u64,
) -> (r: Result<TapOutcome, String>)
    requires
        old(runtime).wf(),
    ensures
        match precheck_verdict(id@, Some(cfg.commands@.len())) {
            Err(m) => (r matches Err(e) && e@ == m) && *final(runtime) == *old(runtime),
            Ok(()) => if completes_double(*old(runtime), trim(id@), now, double_tap_ms) {
                r matches Ok(TapOutcome::Fired(p)) && press_effect(
                    *old(runtime),
                    *final(runtime),
                    *cfg,
                    trim(id@),
                    now,
                    p,
                    old(runtime).last_tap@.remove(trim(id@)),
                )
            } else {
                &&& r matches Ok(TapOutcome::Arming)
                &&& final(runtime).last_tap@ == old(runtime).last_tap@.insert(trim(id@), now)
                &&& final(runtime).index == old(runtime).index
                &&& final(runtime).last_press == old(runtime).last_press
                &&& final(runtime).picking == old(runtime).picking
                &&& final(runtime).committed == old(runtime).committed
                &&& final(runtime).last_text == old(runtime).last_text
                &&& final(runtime).wf()
            },
        },
{
    composer_precheck(id, Some(cfg))?;
    let k = trimmed(id);
    let window: u64 = if double_tap_ms < 150 {
        150
    } else if double_tap_ms > 900 {
        900
    } else {
        double_tap_ms
    };
    let first: Option<u64> = match runtime.last_tap.get(k.as_str()) {
        Some(t) => Some(*t),
        None => None,
    };
    if let Some(first) = first {
        let gap: u64 = if now >= first {
            now - first
        } else {
            0
        };
        if gap <= window {
            runtime.last_tap.remove(k.as_str());
            let p = press(k.as_str(), cfg, runtime, now);
            return Ok(TapOutcome::Fired(p));
        }
    }
    runtime.last_tap.insert(k.as_str(), now);
    Ok(TapOutcome::Arming)
}

/// How many previews composer `k` has committed.
pub open spec fn commit_count(rt: ComposerRuntime, k: Seq<char>) -> nat {
    if rt.committed@.contains_key(k) {
        rt.committed@[k] as nat
    } else {
        0
    }
}

/// Committing composer `k`: one more commit, no preview, back to the first
/// command, and no owned text or armed tap.
pub open spec fn commit_effect(old: ComposerRuntime, new: ComposerRuntime, k: Seq<char>) -> bool {
    &&& new.committed@ == old.committed@.insert(k, (commit_count(old, k) + 1) as usize)
    &&& new.picking@ == old.picking@.insert(k, false)
    &&& new.index@ == old.index@.insert(k, 0usize)
    &&& new.last_text@ == old.last_text@.remove(k)
    &&& new.last_tap@ == old.last_tap@.remove(k)
    &&& new.last_press@ == old.last_press@
    &&& new.wf()
}

/// Spacebar or an explicit commit: keeps composer `id`'s preview, so the
/// next double-tap stacks a new one. False, with nothing changed, when no
/// preview shows.
pub fn commit_composer(runtime: &mut ComposerRuntime, id: &str) -> (b: bool)
    requires
        old(runtime).wf(),
        commit_count(*old(runtime), id@) < usize::MAX,
    ensures
        b == picked(*old(runtime), id@),
        !b ==> *final(runtime) == *old(runtime),
        b ==> commit_effect(*old(runtime), *final(runtime), id@),
{
    if !runtime.is_picking(id) {
        return false;
    }
    let n: usize = match runtime.committed.get(id) {
        Some(c) => *c + 1,
        None => 1,
    };
    runtime.committed.insert(id, n);
    runtime.picking.insert(id, false);
    runtime.index.insert(id, 0);
    runtime.last_text.remove(id);
    runtime.last_tap.remove(id);
    true
}

/// Commit counts stay below the largest `usize`.
pub open spec fn counts_below_max(rt: ComposerRuntime) -> bool {
    forall|k: Seq<char>| rt.committed@.contains_key(k) ==> #[trigger] rt.committed@[k] < usize::MAX
}

/// Every composer that was picking and passes `d` is committed, as
/// [`commit_effect`] commits one; nothing else changes.
pub open spec fn commit_where(
    old: ComposerRuntime,
    new: ComposerRuntime,
    d: spec_fn(Seq<char>) -> bool,
) -> bool {
    let p = |k: Seq<char>| picked(old, k) && d(k);
    &&& new.committed@ == Map::new(
        |k: Seq<char>| old.committed@.contains_key(k) || p(k),
        |k: Seq<char>|
            if p(k) {
                (commit_count(old, k) + 1) as usize
            } else {
                old.committed@[k]
            },
    )
    &&& new.picking@ == Map::new(
        |k: Seq<char>| old.picking@.contains_key(k),
        |k: Seq<char>|
            if p(k) {
                false
            } else {
                old.picking@[k]
            },
    )
    &&& new.index@ == Map::new(
        |k: Seq<char>| old.index@.contains_key(k) || p(k),
        |k: Seq<char>|
            if p(k) {
                0usize
            } else {
                old.index@[k]
            },
    )
    &&& new.last_text@ == Map::new(
        |k: Seq<char>| old.last_text@.contains_key(k) && !p(k),
        |k: Seq<char>| old.last_text@[k],
    )
    &&& new.last_tap@ == Map::new(
        |k: Seq<char>| old.last_tap@.contains_key(k) && !p(k),
        |k: Seq<char>| old.last_tap@[k],
    )
    &&& new.last_press@ == old.last_press@
}

proof fn lemma_commit_none(rt: ComposerRuntime)
    ensures
        commit_where(rt, rt, |k: Seq<char>| false),
{
    let d = |k: Seq<char>| false;
    let p = |k: Seq<char>| picked(rt, k) && d(k);
    assert(rt.committed@ =~= Map::new(
        |k: Seq<char>| rt.committed@.contains_key(k) || p(k),
        |k: Seq<char>| if p(k) { (commit_count(rt, k) + 1) as usize } else { rt.committed@[k] },
    ));
    assert(rt.picking@ =~= Map::new(
        |k: Seq<char>| rt.picking@.contains_key(k),
        |k: Seq<char>| if p(k) { false } else { rt.picking@[k] },
    ));
    assert(rt.index@ =~= Map::new(
        |k: Seq<char>| rt.index@.contains_key(k) || p(k),
        |k: Seq<char>| if p(k) { 0usize } else { rt.index@[k] },
    ));
    assert(rt.last_text@ =~= Map::new(
        |k: Seq<char>| rt.last_text@.contains_key(k) && !p(k),
        |k: Seq<char>| rt.last_text@[k],
    ));
    assert(rt.last_tap@ =~= Map::new(
        |k: Seq<char>| rt.last_tap@.contains_key(k) && !p(k),
        |k: Seq<char>| rt.last_tap@[k],
    ));
}

proof fn lemma_commit_step(
    old: ComposerRuntime,
    cur: ComposerRuntime,
    new: ComposerRuntime,
    d: spec_fn(Seq<char>) -> bool,
    d2: spec_fn(Seq<char>) -> bool,
    id: Seq<char>,
)
    requires
        commit_where(old, cur, d),
        commit_effect(cur, new, id),
        picked(old, id),
        !d(id),
        forall|k: Seq<char>| #[trigger] d2(k) == (d(k) || k == id),
    ensures
        commit_where(old, new, d2),
{
    let p2 = |k: Seq<char>| picked(old, k) && d2(k);
    assert(commit_count(cur, id) == commit_count(old, id));
    assert(new.committed@ =~= Map::new(
        |k: Seq<char>| old.committed@.contains_key(k) || p2(k),
        |k: Seq<char>| if p2(k) { (commit_count(old, k) + 1) as usize } else { old.committed@[k] },
    ));
    assert(new.picking@ =~= Map::new(
        |k: Seq<char>| old.picking@.contains_key(k),
        |k: Seq<char>| if p2(k) { false } else { old.picking@[k] },
    ));
    assert(new.index@ =~= Map::new(
        |k: Seq<char>| old.index@.contains_key(k) || p2(k),
        |k: Seq<char>| if p2(k) { 0usize } else { old.index@[k] },
    ));
    assert(new.last_text@ =~= Map::new(
        |k: Seq<char>| old.last_text@.contains_key(k) && !p2(k),
        |k: Seq<char>| old.last_text@[k],
    ));
    assert(new.last_tap@ =~= Map::new(
        |k: Seq<char>| old.last_tap@.contains_key(k) && !p2(k),
        |k: Seq<char>| old.last_tap@[k],
    ));
}

proof fn lemma_commit_where_ext(
    old: ComposerRuntime,
    new: ComposerRuntime,
    d: spec_fn(Seq<char>) -> bool,
    d2: spec_fn(Seq<char>) -> bool,
)
    requires
        commit_where(old, new, d),
        forall|k: Seq<char>| picked(old, k) ==> (d(k) == #[trigger] d2(k)),
    ensures
        commit_where(old, new, d2),
{
    let p2 = |k: Seq<char>| picked(old, k) && d2(k);
    assert(new.committed@ =~= Map::new(
        |k: Seq<char>| old.committed@.contains_key(k) || p2(k),
        |k: Seq<char>| if p2(k) { (commit_count(old, k) + 1) as usize } else { old.committed@[k] },
    ));
    assert(new.picking@ =~= Map::new(
        |k: Seq<char>| old.picking@.contains_key(k),
        |k: Seq<char>| if p2(k) { false } else { old.picking@[k] },
    ));
    assert(new.index@ =~= Map::new(
        |k: Seq<char>| old.index@.contains_key(k) || p2(k),
        |k: Seq<char>| if p2(k) { 0usize } else { old.index@[k] },
    ));
    assert(new.last_text@ =~= Map::new(
        |k: Seq<char>| old.last_text@.contains_key(k) && !p2(k),
        |k: Seq<char>| old.last_text@[k],
    ));
    assert(new.last_tap@ =~= Map::new(
        |k: Seq<char>| old.last_tap@.contains_key(k) && !p2(k),
        |k: Seq<char>| old.last_tap@[k],
    ));
}

/// The ids of the composers that show a preview, each once.
fn picking_ids(runtime: &ComposerRuntime) -> (ids: Vec<String>)
    requires
        runtime.wf(),
    ensures
        forall|a: int, b: int| 0 <= a < b < ids@.len() ==> ids@[a]@ != ids@[b]@,
        forall|a: int| 0 <= a < ids@.len() ==> #[trigger] picked(*runtime, ids@[a]@),
        forall|k: Seq<char>| #[trigger] picked(*runtime, k) ==> exists|a: int| 0 <= a < ids@.len() && ids@[a]@ == k,
{
    let n = runtime.picking.len();
    let mut ids: Vec<String> = Vec::new();
    let ghost mut src: Seq<int> = Seq::empty();
    let mut i: usize = 0;
    while i < n
        invariant
            runtime.wf(),
            n == runtime.picking.size(),
            i <= n,
            src.len() == ids@.len(),
            forall|a: int| 0 <= a < src.len() ==> 0 <= #[trigger] src[a] < i,
            forall|a: int, b: int| 0 <= a < b < src.len() ==> src[a] < src[b],
            forall|a: int| 0 <= a < src.len() ==> ids@[a]@ == runtime.picking.key_at(#[trigger] src[a])
                && runtime.picking.value_at(src[a]),
            forall|j: int| 0 <= j < i && #[trigger] runtime.picking.value_at(j) ==> exists|a: int| 0 <= a < src.len() && src[a] == j,
        decreases n - i,
    {
        if *runtime.picking.value(i) {
            let k = runtime.picking.key(i).clone();
            ids.push(k);
            proof {
                let old_src = src;
                src = src.push(i as int);
                assert(src[src.len() - 1] == i);
                assert forall|j: int| 0 <= j < i + 1 && #[trigger] runtime.picking.value_at(j) implies exists|a: int| 0 <= a < src.len() && src[a] == j by {
                    if j < i {
                        let a = choose|a: int| 0 <= a < old_src.len() && old_src[a] == j;
                        assert(src[a] == j);
                    } else {
                        assert(src[src.len() - 1] == j);
                    }
                }
            }
        }
        i = i + 1;
    }
    proof {
        assert forall|a: int, b: int| 0 <= a < b < ids@.len() implies ids@[a]@ != ids@[b]@ by {
            assert(src[a] < src[b]);
            assert(ids@[a]@ == runtime.picking.key_at(src[a]));
            assert(ids@[b]@ == runtime.picking.key_at(src[b]));
            runtime.picking.lemma_distinct(src[a], src[b]);
        }
        assert forall|a: int| 0 <= a < ids@.len() implies #[trigger] picked(*runtime, ids@[a]@) by {
            assert(ids@[a]@ == runtime.picking.key_at(src[a]));
            runtime.picking.lemma_at(src[a]);
        }
        assert forall|k: Seq<char>| #[trigger] picked(*runtime, k) implies exists|a: int| 0 <= a < ids@.len() && ids@[a]@ == k by {
            runtime.picking.lemma_key(k);
            let j = choose|j: int| 0 <= j < runtime.picking.size() && #[trigger] runtime.picking.key_at(j) == k;
            runtime.picking.lemma_at(j);
            assert(runtime.picking.value_at(j));
            let a = choose|a: int| 0 <= a < src.len() && src[a] == j;
            assert(ids@[a]@ == k);
        }
    }
    ids
}

/// Commits every composer that shows a preview and returns their ids, each
/// once, in no promised order.
pub fn commit_all_picking(runtime: &mut ComposerRuntime) -> (r: Vec<String>)
    requires
        old(runtime).wf(),
        counts_below_max(*old(runtime)),
    ensures
        final(runtime).wf(),
        forall|a: int, b: int| 0 <= a < b < r@.len() ==> r@[a]@ != r@[b]@,
        forall|a: int| 0 <= a < r@.len() ==> #[trigger] picked(*old(runtime), r@[a]@),
        forall|k: Seq<char>| #[trigger] picked(*old(runtime), k) ==> exists|a: int| 0 <= a < r@.len() && r@[a]@ == k,
        commit_where(*old(runtime), *final(runtime), |k: Seq<char>| true),
{
    let ids = picking_ids(runtime);
    let ghost start = *runtime;
    let mut committed: Vec<String> = Vec::new();
    let mut j: usize = 0;
    proof {
        lemma_commit_none(start);
        lemma_commit_where_ext(
            start,
            start,
            |k: Seq<char>| false,
            |k: Seq<char>| exists|a: int| 0 <= a < 0 && ids@[a]@ == k,
        );
    }
    while j < ids.len()
        invariant
            start.wf(),
            counts_below_max(start),
            runtime.wf(),
            j <= ids@.len(),
            forall|a: int, b: int| 0 <= a < b < ids@.len() ==> ids@[a]@ != ids@[b]@,
            forall|a: int| 0 <= a < ids@.len() ==> #[trigger] picked(start, ids@[a]@),
            committed@.len() == j,
            forall|a: int| 0 <= a < j ==> #[trigger] committed@[a]@ == ids@[a]@,
            commit_where(start, *runtime, |k: Seq<char>| exists|a: int| 0 <= a < j && ids@[a]@ == k),
        decreases ids@.len() - j,
    {
        let ghost cur = *runtime;
        let ghost id = ids@[j as int]@;
        let ghost d = |k: Seq<char>| exists|a: int| 0 <= a < j && ids@[a]@ == k;
        let ghost d2 = |k: Seq<char>| exists|a: int| 0 <= a < j + 1 && ids@[a]@ == k;
        proof {
            assert(picked(start, id));
            assert(!d(id));
            assert(picked(cur, id));
            assert(commit_count(cur, id) == commit_count(start, id));
            if start.committed@.contains_key(id) {
                assert(start.committed@[id] < usize::MAX);
            }
        }
        let done = commit_composer(runtime, ids[j].as_str());
        proof {
            assert forall|k: Seq<char>| #[trigger] d2(k) == (d(k) || k == id) by {
                if d2(k) && !d(k) {
                    let a = choose|a: int| 0 <= a < j + 1 && ids@[a]@ == k;
                    assert(a == j);
                }
            }
            lemma_commit_step(start, cur, *runtime, d, d2, id);
        }
        if done {
            committed.push(ids[j].clone());
        }
        j = j + 1;
    }
    proof {
        lemma_commit_where_ext(
            start,
            *runtime,
            |k: Seq<char>| exists|a: int| 0 <= a < ids@.len() && ids@[a]@ == k,
            |k: Seq<char>| true,
        );
        assert forall|k: Seq<char>| #[trigger] picked(start, k) implies exists|a: int| 0 <= a < committed@.len() && committed@[a]@ == k by {
            let a = choose|a: int| 0 <= a < ids@.len() && ids@[a]@ == k;
            assert(committed@[a]@ == ids@[a]@);
        }
        assert forall|a: int| 0 <= a < committed@.len() implies #[trigger] picked(start, committed@[a]@) by {
            assert(committed@[a]@ == ids@[a]@);
        }
    }
    committed
}

/// Whether any composer shows a preview.
pub fn any_picking(runtime: &ComposerRuntime) -> (b: bool)
    requires
        runtime.wf(),
    ensures
        b == exists|k: Seq<char>| #[trigger] picked(*runtime, k),
{
    let n = runtime.picking.len();
    let mut i: usize = 0;
    while i < n
        invariant
            runtime.wf(),
            n == runtime.picking.size(),
            i <= n,
            forall|j: int| 0 <= j < i ==> !#[trigger] runtime.picking.value_at(j),
        decreases n - i,
    {
        if *runtime.picking.value(i) {
            proof {
                runtime.picking.lemma_at(i as int);
                assert(picked(*runtime, runtime.picking.key_at(i as int)));
            }
            return true;
        }
        i = i + 1;
    }
    assert forall|k: Seq<char>| !#[trigger] picked(*runtime, k) by {
        if runtime.picking@.contains_key(k) {
            runtime.picking.lemma_key(k);
            let j = choose|j: int| 0 <= j < runtime.picking.size() && #[trigger] runtime.picking.key_at(j) == k;
            runtime.picking.lemma_at(j);
        }
    }
    false
}

/// Forgets composer `id`'s session, or every session when no id is given.
pub fn reset_composer_runtime(runtime: &mut ComposerRuntime, composer_id: Option<&str>)
    requires
        old(runtime).wf(),
    ensures
        final(runtime).wf(),
        match composer_id {
            Some(id) => {
                &&& final(runtime).index@ == old(runtime).index@.remove(id@)
                &&& final(runtime).last_press@ == old(runtime).last_press@.remove(id@)
                &&& final(runtime).last_tap@ == old(runtime).last_tap@.remove(id@)
                &&& final(runtime).picking@ == old(runtime).picking@.remove(id@)
                &&& final(runtime).committed@ == old(runtime).committed@.remove(id@)
                &&& final(runtime).last_text@ == old(runtime).last_text@.remove(id@)
            },
            None => final(runtime).is_empty(),
        },
{
    match composer_id {
        Some(id) => {
            runtime.index.remove(id);
            runtime.last_press.remove(id);
            runtime.last_tap.remove(id);
            runtime.picking.remove(id);
            runtime.committed.remove(id);
            runtime.last_text.remove(id);
        },
        None => {
            *runtime = ComposerRuntime::new();
        },
    }
}

/// Pressing again while a preview shows rotates to the next command,
/// wrapping after the last, and erases exactly the preview it replaces.
pub proof fn law_press_rotates(
    old: ComposerRuntime,
    mid: ComposerRuntime,
    new: ComposerRuntime,
    cfg: ComposerConfig,
    k: Seq<char>,
    t1: u64,
    t2: u64,
    p1: ComposerPress,
    p2: ComposerPress,
    tap1: Map<Seq<char>, u64>,
    tap2: Map<Seq<char>, u64>,
)
    requires
        cfg.commands@.len() > 0,
        press_effect(old, mid, cfg, k, t1, p1, tap1),
        press_effect(mid, new, cfg, k, t2, p2, tap2),
    ensures
        p2.replaced_preview,
        p2.idx == (p1.idx + 1) % (cfg.commands@.len() as int),
        p2.erase_chars == p1.text@.len(),
{
    assert(picked(mid, k));
    assert(mid.index@[k] == p1.idx);
    assert(p1.idx < cfg.commands@.len()) by {
        if picked(old, k) {
            let cur = if old.index@.contains_key(k) { old.index@[k] as nat } else { 0 };
            assert(((cur % cfg.commands@.len()) + 1) % cfg.commands@.len() < cfg.commands@.len());
        }
    }
    vstd::arithmetic::div_mod::lemma_small_mod(p1.idx as nat, cfg.commands@.len());
}

/// After a commit the next press starts a fresh pick at the first command
/// and erases nothing.
pub proof fn law_commit_then_press_is_fresh(
    old: ComposerRuntime,
    mid: ComposerRuntime,
    new: ComposerRuntime,
    cfg: ComposerConfig,
    k: Seq<char>,
    now: u64,
    p: ComposerPress,
    tap: Map<Seq<char>, u64>,
)
    requires
        cfg.commands@.len() > 0,
        commit_count(old, k) < usize::MAX,
        commit_effect(old, mid, k),
        press_effect(mid, new, cfg, k, now, p, tap),
    ensures
        !p.replaced_preview,
        p.idx == 0,
        p.erase_chars == 0,
        p.text@ == cfg.commands@[0]@,
        commit_count(new, k) == commit_count(old, k) + 1,
{
}

/// After a reset of its composer the next press starts a fresh pick.
pub proof fn law_reset_then_press_is_fresh(
    old: ComposerRuntime,
    mid: ComposerRuntime,
    new: ComposerRuntime,
    cfg: ComposerConfig,
    k: Seq<char>,
    now: u64,
    p: ComposerPress,
    tap: Map<Seq<char>, u64>,
)
    requires
        mid.picking@ == old.picking@.remove(k),
        press_effect(mid, new, cfg, k, now, p, tap),
    ensures
        !p.replaced_preview,
        p.idx == 0,
        p.erase_chars == 0,
{
}

/// Time never ends a session: what a press previews does not depend on
/// when it comes, however long after the last one.
pub proof fn law_idle_keeps_session(
    old: ComposerRuntime,
    new1: ComposerRuntime,
    new2: ComposerRuntime,
    cfg: ComposerConfig,
    k: Seq<char>,
    t1: u64,
    t2: u64,
    p1: ComposerPress,
    p2: ComposerPress,
    tap1: Map<Seq<char>, u64>,
    tap2: Map<Seq<char>, u64>,
)
    requires
        press_effect(old, new1, cfg, k, t1, p1, tap1),
        press_effect(old, new2, cfg, k, t2, p2, tap2),
    ensures
        p1.idx == p2.idx,
        p1.text@ == p2.text@,
        p1.replaced_preview == p2.replaced_preview,
        p1.erase_chars == p2.erase_chars,
        new1.index@ == new2.index@,
        new1.picking@ == new2.picking@,
{
}

} // verus!
