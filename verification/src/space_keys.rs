//! The host keyboard watch while a composer previews: which input devices
//! are watched, and whether a batch of key events holds a Space press.
//! Opening devices and reading events is the application's part.

use vstd::prelude::*;
use crate::text::{chars_of, has_prefix, has_infix, contains, ascii_lower, ascii_lower_char};
use crate::fire_api::lowered;

verus! {

broadcast use vstd::string::group_string_axioms;

/// The Linux input event type of key events.
pub const EV_KEY: u16 = 1;

/// The Linux key code of Space.
pub const KEY_SPACE: u16 = 57;

/// One input event as the kernel reports it.
#[derive(Debug, Clone, Copy, PartialEq, Eq, Structural)]
pub struct KeyEvent {
    pub kind: u16,
    pub code: u16,
    pub value: i32,
}

/// Whether an input device is watched: an `event*` node that has a Space
/// key, and is neither a mouse (unless it says keyboard) nor ydotool's
/// virtual device.
pub open spec fn watched_keyboard(file_name: Seq<char>, has_space: bool, device_name: Seq<char>) -> bool {
    let low = lowered(device_name);
    &&& "event"@.is_prefix_of(file_name)
    &&& has_space
    &&& !(contains(low, "mouse"@) && !contains(low, "keyboard"@))
    &&& !contains(low, "ydotool"@)
}

/// Decides whether an input device is watched.
pub fn keyboard_candidate(file_name: &str, has_space: bool, device_name: &str) -> (b: bool)
    ensures
        b == watched_keyboard(file_name@, has_space, device_name@),
{
    let f = chars_of(file_name);
    if !has_prefix(&f, "event") || !has_space {
        return false;
    }
    let d = chars_of(device_name);
    let mut low: Vec<char> = Vec::new();
    let mut i: usize = 0;
    while i < d.len()
        invariant
            i <= d.len(),
            d@ == device_name@,
            low@ == lowered(d@.take(i as int)),
        decreases d.len() - i,
    {
        low.push(ascii_lower_char(d[i]));
        assert(lowered(d@.take(i + 1)) =~= lowered(d@.take(i as int)).push(ascii_lower(d@[i as int])));
        i = i + 1;
    }
    assert(d@.take(d.len() as int) =~= d@);
    let mouse = has_infix(&low, &chars_of("mouse"));
    let keyboard = has_infix(&low, &chars_of("keyboard"));
    let ydotool = has_infix(&low, &chars_of("ydotool"));
    !(mouse && !keyboard) && !ydotool
}

/// Whether a batch of events holds a Space press that commits: only while
/// a composer previews, and only the key-down event.
pub open spec fn space_commit(picking: bool, events: Seq<KeyEvent>) -> bool {
    picking && exists|i: int| 0 <= i < events.len() && #[trigger] events[i] == (KeyEvent { kind: EV_KEY, code: KEY_SPACE, value: 1 })
}

/// Reads a batch of events (all are drained either way).
pub fn space_pressed(picking: bool, events: &Vec<KeyEvent>) -> (b: bool)
    ensures
        b == space_commit(picking, events@),
{
    let mut seen = false;
    let mut i: usize = 0;
    while i < events.len()
        invariant
            i <= events.len(),
            seen == exists|j: int| 0 <= j < i && #[trigger] events@[j] == (KeyEvent { kind: EV_KEY, code: KEY_SPACE, value: 1 }),
        decreases events.len() - i,
    {
        let e = events[i];
        if e.kind == EV_KEY && e.code == KEY_SPACE && e.value == 1 {
            seen = true;
        }
        proof {
            if exists|j: int| 0 <= j < i + 1 && #[trigger] events@[j] == (KeyEvent { kind: EV_KEY, code: KEY_SPACE, value: 1 }) {
                let j = choose|j: int| 0 <= j < i + 1 && #[trigger] events@[j] == (KeyEvent { kind: EV_KEY, code: KEY_SPACE, value: 1 });
                if j < i {
                    assert(exists|j2: int| 0 <= j2 < i && #[trigger] events@[j2] == (KeyEvent { kind: EV_KEY, code: KEY_SPACE, value: 1 }));
                }
            }
        }
        i = i + 1;
    }
    picking && seen
}

} // verus!
