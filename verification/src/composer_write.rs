//! The composer's field writer: which request wins, what is locked into the
//! field and what is still a preview, how much of the field a repaint
//! erases, and the key sequences it sends. Running the keyboard tools and
//! waiting between steps is the application's part.

use vstd::prelude::*;
use crate::text::{chars_of, push_all, push_decimal, decimal, trim, trimmed, has_prefix};
use crate::slots::{from_utf8_lossy, lossy_text};
use crate::composer::{ComposerRuntime, reset_composer_runtime};

verus! {

broadcast use vstd::string::group_string_axioms;

/// One paint the writer is asked for.
pub struct WriteRequest {
    pub text: String,
    /// 0 for a fresh pick (a stale preview is not erased); more for a rotation.
    pub erase_hint: usize,
    pub gen: u64,
}

impl Clone for WriteRequest {
    fn clone(&self) -> (r: Self)
        ensures
            r.text@ == self.text@,
            r.erase_hint == self.erase_hint,
            r.gen == self.gen,
    {
        WriteRequest { text: self.text.clone(), erase_hint: self.erase_hint, gen: self.gen }
    }
}

/// The field as the writer sees it: `locked` is committed text, the preview
/// follows it.
pub open spec fn field_text(locked: Seq<char>, preview: Seq<char>) -> Seq<char> {
    locked + preview
}

/// The whole field: committed text, then the preview.
pub fn compose_field(locked: &str, preview: &str) -> (r: String)
    ensures
        r@ == field_text(locked@, preview@),
{
    let mut r = locked.to_string();
    push_all(&mut r, preview);
    r
}

/// With nothing locked the whole field is rewritten; otherwise only the
/// trailing preview is touched.
pub fn uses_full_rewrite(locked: &str) -> (b: bool)
    ensures
        b == (locked@.len() == 0),
{
    locked.is_empty()
}

/// The characters in the painted preview, if any.
pub open spec fn preview_len(on_screen: Option<Seq<char>>) -> nat {
    match on_screen {
        Some(s) => s.len(),
        None => 0,
    }
}

pub open spec fn opt_view(o: Option<&str>) -> Option<Seq<char>> {
    match o {
        Some(s) => Some(s@),
        None => None,
    }
}

/// How many trailing characters a rotation selects: the painted preview's.
pub fn preview_erase_len(on_screen: Option<&str>) -> (n: usize)
    ensures
        n == preview_len(opt_view(on_screen)),
{
    match on_screen {
        Some(s) => chars_of(s).len(),
        None => 0,
    }
}

/// How many trailing characters a segment paint erases: nothing for a fresh
/// pick, else the larger of the painted preview and the press's hint.
pub open spec fn segment_erase(on_screen: Option<Seq<char>>, erase_hint: usize) -> nat {
    if erase_hint == 0 {
        0
    } else if preview_len(on_screen) >= erase_hint {
        preview_len(on_screen)
    } else {
        erase_hint as nat
    }
}

/// How many trailing characters a segment paint erases.
pub fn segment_erase_len(on_screen: Option<&str>, erase_hint: usize) -> (n: usize)
    ensures
        n == segment_erase(opt_view(on_screen), erase_hint),
{
    if erase_hint == 0 {
        return 0;
    }
    let p = preview_erase_len(on_screen);
    if p >= erase_hint {
        p
    } else {
        erase_hint
    }
}

/// What one paint does to the field.
#[derive(Debug, PartialEq, Eq, Structural)]
pub enum PaintPlan {
    /// Select all, delete, paste the preview.
    FullRewrite,
    /// Erase this many trailing characters, then paste the preview.
    Segment { erase: usize },
}

/// The plan for painting a preview.
pub fn paint_plan(locked_empty: bool, on_screen: Option<&str>, erase_hint: usize) -> (p: PaintPlan)
    ensures
        p == (if locked_empty {
            PaintPlan::FullRewrite
        } else {
            PaintPlan::Segment { erase: segment_erase(opt_view(on_screen), erase_hint) as usize }
        }),
{
    if locked_empty {
        PaintPlan::FullRewrite
    } else {
        PaintPlan::Segment { erase: segment_erase_len(on_screen, erase_hint) }
    }
}

/// A failed paste falls back to typing the text, except when focus moved.
pub fn paste_falls_back(err: &str) -> (b: bool)
    ensures
        b == !"focus:"@.is_prefix_of(err@),
{
    let v = chars_of(err);
    !has_prefix(&v, "focus:")
}

/// The writer's state between paints.
pub struct WriterState {
    /// The latest request not yet painted; a newer one replaces it.
    pub desired: Option<WriteRequest>,
    pub next_gen: u64,
    /// Committed text, each commit followed by one space.
    pub locked: String,
    /// The preview last painted.
    pub on_screen: Option<String>,
    /// The window captured when the session began.
    pub target_window: Option<String>,
}

impl WriterState {
    /// Generation numbers start at 1 and never become 0.
    pub open spec fn wf(&self) -> bool {
        self.next_gen >= 1
    }

    /// A writer with nothing locked or painted.
    pub fn new() -> (w: Self)
        ensures
            w.wf(),
            w.desired is None,
            w.next_gen == 1,
            w.locked@.len() == 0,
            w.on_screen is None,
            w.target_window is None,
    {
        WriterState {
            desired: None,
            next_gen: 1,
            locked: String::new(),
            on_screen: None,
            target_window: None,
        }
    }

    /// Asks for `text` to be painted, replacing any request not yet taken.
    /// Returns the request's generation.
    pub fn request(&mut self, text: String, erase_hint: usize) -> (gen: u64)
        requires
            old(self).wf(),
        ensures
            final(self).wf(),
            gen == old(self).next_gen,
            gen >= 1,
            final(self).next_gen == gen_after(old(self).next_gen),
            final(self).desired matches Some(r) && r.text@ == text@ && r.erase_hint == erase_hint
                && r.gen == gen,
            final(self).locked == old(self).locked,
            final(self).on_screen == old(self).on_screen,
            final(self).target_window == old(self).target_window,
    {
        let gen = self.next_gen;
        let next = if self.next_gen == u64::MAX {
            0
        } else {
            self.next_gen + 1
        };
        self.next_gen = if next >= 1 {
            next
        } else {
            1
        };
        self.desired = Some(WriteRequest { text, erase_hint, gen });
        gen
    }

    /// Spacebar commit: the painted preview becomes locked text followed by
    /// one space, and no preview or request remains.
    pub fn clear_preview(&mut self)
        ensures
            final(self).locked@ == match old(self).on_screen {
                Some(p) => old(self).locked@ + p@ + " "@,
                None => old(self).locked@,
            },
            final(self).on_screen is None,
            final(self).desired is None,
            final(self).next_gen == old(self).next_gen,
            final(self).target_window == old(self).target_window,
    {
        let shown = self.on_screen.take();
        if let Some(preview) = shown {
            push_all(&mut self.locked, preview.as_str());
            push_all(&mut self.locked, " ");
        }
        self.desired = None;
    }

    /// Forgets the session: nothing locked, painted, requested or targeted.
    pub fn reset(&mut self)
        ensures
            final(self).locked@.len() == 0,
            final(self).on_screen is None,
            final(self).desired is None,
            final(self).target_window is None,
            final(self).next_gen == old(self).next_gen,
    {
        self.locked = String::new();
        self.on_screen = None;
        self.desired = None;
        self.target_window = None;
    }

    /// Takes the pending request.
    pub fn take_desired(&mut self) -> (r: Option<WriteRequest>)
        ensures
            r == old(self).desired,
            final(self).desired is None,
            final(self).next_gen == old(self).next_gen,
            final(self).locked == old(self).locked,
            final(self).on_screen == old(self).on_screen,
            final(self).target_window == old(self).target_window,
    {
        self.desired.take()
    }

    /// The locked text and the painted preview.
    pub fn snapshot(&self) -> (r: (String, Option<String>))
        ensures
            r.0@ == self.locked@,
            match (r.1, self.on_screen) {
                (Some(a), Some(b)) => a@ == b@,
                (None, None) => true,
                _ => false,
            },
    {
        let shown = match &self.on_screen {
            Some(s) => Some(s.clone()),
            None => None,
        };
        (self.locked.clone(), shown)
    }

    /// Records what is painted now.
    pub fn set_on_screen(&mut self, text: Option<String>)
        ensures
            final(self).on_screen == text,
            final(self).desired == old(self).desired,
            final(self).next_gen == old(self).next_gen,
            final(self).locked == old(self).locked,
            final(self).target_window == old(self).target_window,
    {
        self.on_screen = text;
    }

    /// The session's target window: the one captured already, else the
    /// active window now, which becomes the target.
    pub fn capture_target(&mut self, active: Option<String>) -> (r: Result<String, String>)
        ensures
            match old(self).target_window {
                Some(t) => (r matches Ok(x) && x@ == t@) && final(self).target_window == old(self).target_window,
                None => match active {
                    Some(a) => (r matches Ok(x) && x@ == a@) && final(self).target_window == Some(a),
                    None => (r matches Err(e) && e@ == "focus: could not determine active window"@)
                        && final(self).target_window is None,
                },
            },
            final(self).desired == old(self).desired,
            final(self).next_gen == old(self).next_gen,
            final(self).locked == old(self).locked,
            final(self).on_screen == old(self).on_screen,
    {
        if let Some(t) = &self.target_window {
            return Ok(t.clone());
        }
        match active {
            Some(a) => {
                let r = a.clone();
                self.target_window = Some(a);
                Ok(r)
            },
            None => Err("focus: could not determine active window".to_string()),
        }
    }
}

/// A focus check: the active window must be the session's target.
pub open spec fn focus_verdict(expected: Seq<char>, active: Option<Seq<char>>) -> Result<(), Seq<char>> {
    match active {
        Some(got) => if got == expected {
            Ok(())
        } else {
            Err("focus: expected "@ + expected + ", got "@ + got)
        },
        None => Err("focus: could not determine active window"@),
    }
}

/// Checks the active window, found by the caller, against the target.
pub fn verify_focus(expected: &str, active: Option<String>) -> (r: Result<(), String>)
    ensures
        match r {
            Ok(()) => focus_verdict(expected@, opt_string_view(active)) is Ok,
            Err(e) => focus_verdict(expected@, opt_string_view(active)) == Err::<(), Seq<char>>(e@),
        },
{
    match active {
        Some(got) => {
            let e = expected.to_string();
            if got == e {
                Ok(())
            } else {
                let mut m = "focus: expected ".to_string();
                push_all(&mut m, expected);
                push_all(&mut m, ", got ");
                push_all(&mut m, got.as_str());
                Err(m)
            }
        },
        None => Err("focus: could not determine active window".to_string()),
    }
}

pub open spec fn opt_string_view(o: Option<String>) -> Option<Seq<char>> {
    match o {
        Some(s) => Some(s@),
        None => None,
    }
}

/// The window id from KWin's answer: its trimmed text, unless empty or `0`.
pub open spec fn kwin_id(out: Seq<u8>) -> Option<Seq<char>> {
    let s = trim(lossy_text(out));
    if s.len() > 0 && s != "0"@ {
        Some("kwin:"@ + s)
    } else {
        None
    }
}

/// Reads the active window from the KWin query's output.
pub fn kwin_window_id(stdout: &[u8]) -> (r: Option<String>)
    ensures
        opt_string_view(r) == kwin_id(stdout@),
{
    let text = from_utf8_lossy(stdout);
    let s = trimmed(text.as_str());
    let c = chars_of(s.as_str());
    if c.len() > 0 && !(c.len() == 1 && c[0] == '0') {
        assert(s@ != "0"@) by {
            reveal_strlit("0");
        }
        let mut r = "kwin:".to_string();
        push_all(&mut r, s.as_str());
        Some(r)
    } else {
        proof {
            reveal_strlit("0");
            if c.len() == 1 {
                assert(s@ =~= "0"@);
            }
        }
        None
    }
}

/// The window id from `xdotool getactivewindow`: its trimmed text, unless
/// empty.
pub open spec fn x11_id(out: Seq<u8>) -> Option<Seq<char>> {
    let s = trim(lossy_text(out));
    if s.len() > 0 {
        Some("x11:"@ + s)
    } else {
        None
    }
}

/// Reads the active window from xdotool's output.
pub fn x11_window_id(stdout: &[u8]) -> (r: Option<String>)
    ensures
        opt_string_view(r) == x11_id(stdout@),
{
    let text = from_utf8_lossy(stdout);
    let s = trimmed(text.as_str());
    if s.as_str().is_empty() {
        None
    } else {
        let mut r = "x11:".to_string();
        push_all(&mut r, s.as_str());
        Some(r)
    }
}

/// `"<code>:<state>"`, one key event for the key tool.
pub open spec fn key_event(code: u16, down: bool) -> Seq<char> {
    decimal(code as nat) + if down {
        ":1"@
    } else {
        ":0"@
    }
}

fn key_event_arg(code: u16, down: bool) -> (r: String)
    ensures
        r@ == key_event(code, down),
{
    let mut r = String::new();
    push_decimal(&mut r, code as u64);
    if down {
        push_all(&mut r, ":1");
    } else {
        push_all(&mut r, ":0");
    }
    r
}

/// Arguments for Ctrl+key: Ctrl down, key down, key up, Ctrl up.
pub fn chord_ctrl_args(key_code: u16) -> (r: Vec<String>)
    ensures
        r@.len() == 6,
        r@[0]@ == "key"@,
        r@[1]@ == "--key-delay=18"@,
        r@[2]@ == key_event(29, true),
        r@[3]@ == key_event(key_code, true),
        r@[4]@ == key_event(key_code, false),
        r@[5]@ == key_event(29, false),
{
    let mut r: Vec<String> = Vec::new();
    r.push("key".to_string());
    r.push("--key-delay=18".to_string());
    r.push(key_event_arg(29, true));
    r.push(key_event_arg(key_code, true));
    r.push(key_event_arg(key_code, false));
    r.push(key_event_arg(29, false));
    r
}

/// Arguments for one key tap.
pub fn tap_key_args(key_code: u16) -> (r: Vec<String>)
    ensures
        r@.len() == 4,
        r@[0]@ == "key"@,
        r@[1]@ == "--key-delay=15"@,
        r@[2]@ == key_event(key_code, true),
        r@[3]@ == key_event(key_code, false),
{
    let mut r: Vec<String> = Vec::new();
    r.push("key".to_string());
    r.push("--key-delay=15".to_string());
    r.push(key_event_arg(key_code, true));
    r.push(key_event_arg(key_code, false));
    r
}

/// Arguments that erase `n` trailing characters with Backspace, or none
/// when there is nothing to erase.
pub fn erase_trailing_args(n: usize) -> (r: Option<Vec<String>>)
    requires
        n <= (usize::MAX - 2) / 2,
    ensures
        n == 0 <==> r is None,
        r matches Some(v) ==> {
            &&& v@.len() == 2 + 2 * n
            &&& v@[0]@ == "key"@
            &&& v@[1]@ == "--key-delay=12"@
            &&& forall|i: int| 0 <= i < n ==> (#[trigger] v@[2 + 2 * i])@ == key_event(14, true) && v@[3
                + 2 * i]@ == key_event(14, false)
        },
{
    if n == 0 {
        return None;
    }
    let mut v: Vec<String> = Vec::new();
    v.push("key".to_string());
    v.push("--key-delay=12".to_string());
    let mut i: usize = 0;
    while i < n
        invariant
            i <= n,
            n <= (usize::MAX - 2) / 2,
            v@.len() == 2 + 2 * i,
            v@[0]@ == "key"@,
            v@[1]@ == "--key-delay=12"@,
            forall|j: int| 0 <= j < i ==> (#[trigger] v@[2 + 2 * j])@ == key_event(14, true) && v@[3 + 2
                * j]@ == key_event(14, false),
        decreases n - i,
    {
        let ghost before = v@;
        v.push(key_event_arg(14, true));
        v.push(key_event_arg(14, false));
        proof {
            assert forall|j: int| 0 <= j < i + 1 implies (#[trigger] v@[2 + 2 * j])@ == key_event(14, true)
                && v@[3 + 2 * j]@ == key_event(14, false) by {
                if j < i {
                    assert(v@[2 + 2 * j] == before[2 + 2 * j]);
                    assert(v@[3 + 2 * j] == before[3 + 2 * j]);
                }
            }
        }
        i = i + 1;
    }
    Some(v)
}

/// Ends a composition session: the writer forgets its field and target, and
/// every composer session is dropped with it.
pub fn abort_composition_session(writer: &mut WriterState, runtime: &mut ComposerRuntime)
    requires
        old(runtime).wf(),
    ensures
        final(writer).locked@.len() == 0,
        final(writer).on_screen is None,
        final(writer).desired is None,
        final(writer).target_window is None,
        final(writer).next_gen == old(writer).next_gen,
        final(runtime).wf(),
        final(runtime).is_empty(),
{
    writer.reset();
    reset_composer_runtime(runtime, None);
}

/// The generation after `g`: one more, wrapping to 1, never 0.
pub open spec fn gen_after(g: u64) -> u64 {
    if g == u64::MAX {
        1
    } else {
        (g + 1) as u64
    }
}

/// Two requests in a row never share a generation, and no generation is 0,
/// so a painted generation always names the request it came from.
pub proof fn law_generations_differ(g: u64)
    requires
        g >= 1,
    ensures
        gen_after(g) != g,
        gen_after(g) >= 1,
{
}

} // verus!
