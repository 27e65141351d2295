//! Which transport serves a pad request, and what a multi-bank write and
//! the macro listener report, from what the dongle and BlueZ said.

use vstd::prelude::*;
use crate::text::{chars_of, has_infix, contains, push_all, push_decimal, decimal};
use crate::slots::{PadStatus, SLOT_COUNT};
use crate::dongle::DonglePoll;
use crate::store::{ProfilePadWrite, canonical_key};
use crate::slots::PadSlots;

verus! {

broadcast use vstd::string::group_string_axioms;

/// What a request needs from the S3 dongle when it owns the pad.
#[derive(Debug, Clone, Copy, PartialEq, Eq, Structural)]
pub enum DongleNeed {
    /// Reading or writing slot pages.
    Slots,
    /// Counting the banks a profile write may cover.
    Capacity,
    /// Putting the operator's selected bank back after a write.
    Restore,
    /// Forwarding macro events to the listener.
    Macros,
}

/// Whether the dongle serves a request: `Ok(false)` when it is not linked
/// to the pad (another transport may serve it), `Ok(true)` when it is ready
/// for the need, else why it refuses and no fallback may be tried.
pub open spec fn dongle_verdict(s: PadStatus, need: DongleNeed) -> Result<bool, Seq<char>> {
    if !s.connected {
        Ok(false)
    } else {
        match need {
            DongleNeed::Slots => if s.protocol_compatible != Some(true) {
                Err("S3 dongle owns the pad but is not protocol v0.3; refusing BlueZ fallback"@)
            } else if s.slots_ready != Some(true) {
                Err("S3 dongle owns the pad but its v0.3 slots proxy is not ready"@)
            } else {
                Ok(true)
            },
            DongleNeed::Capacity => if s.protocol_compatible != Some(true) {
                Err("S3 dongle owns the pad but is not protocol v0.3; zero banks written"@)
            } else if s.slots_ready != Some(true) {
                Err("S3 dongle owns the pad but its slots proxy is not ready; zero banks written"@)
            } else {
                Ok(true)
            },
            DongleNeed::Restore => if s.protocol_compatible != Some(true) || s.slots_ready != Some(true) {
                Err("dongle cannot restore BankSel because its v0.3 slots proxy is unavailable"@)
            } else {
                Ok(true)
            },
            DongleNeed::Macros => if s.protocol_compatible != Some(true) {
                Err("S3 dongle owns the pad but is not protocol v0.3; macro listener stopped"@)
            } else if s.macro_ready != Some(true) {
                Err("S3 dongle owns the pad but MacroEvent forwarding is not ready"@)
            } else {
                Ok(true)
            },
        }
    }
}

/// Decides whether the dongle serves a request.
pub fn dongle_readiness(status: &PadStatus, need: DongleNeed) -> (r: Result<bool, String>)
    ensures
        match dongle_verdict(*status, need) {
            Ok(b) => r == Ok::<bool, String>(b),
            Err(m) => r matches Err(e) && e@ == m,
        },
{
    if !status.connected {
        return Ok(false);
    }
    let compatible = match status.protocol_compatible {
        Some(true) => true,
        _ => false,
    };
    let slots = match status.slots_ready {
        Some(true) => true,
        _ => false,
    };
    let macros = match status.macro_ready {
        Some(true) => true,
        _ => false,
    };
    match need {
        DongleNeed::Slots => {
            if !compatible {
                Err("S3 dongle owns the pad but is not protocol v0.3; refusing BlueZ fallback".to_string())
            } else if !slots {
                Err("S3 dongle owns the pad but its v0.3 slots proxy is not ready".to_string())
            } else {
                Ok(true)
            }
        },
        DongleNeed::Capacity => {
            if !compatible {
                Err("S3 dongle owns the pad but is not protocol v0.3; zero banks written".to_string())
            } else if !slots {
                Err("S3 dongle owns the pad but its slots proxy is not ready; zero banks written".to_string())
            } else {
                Ok(true)
            }
        },
        DongleNeed::Restore => {
            if !compatible || !slots {
                Err("dongle cannot restore BankSel because its v0.3 slots proxy is unavailable".to_string())
            } else {
                Ok(true)
            }
        },
        DongleNeed::Macros => {
            if !compatible {
                Err("S3 dongle owns the pad but is not protocol v0.3; macro listener stopped".to_string())
            } else if !macros {
                Err("S3 dongle owns the pad but MacroEvent forwarding is not ready".to_string())
            } else {
                Ok(true)
            }
        },
    }
}

/// The status shown while the dongle owns a live link: the dongle's, with
/// BlueZ's address and blocked flag, and BlueZ's name when the dongle has
/// none.
pub fn merge_dongle_status(dongle: PadStatus, bluez: Option<PadStatus>) -> (r: PadStatus)
    ensures
        bluez is None ==> r == dongle,
        bluez matches Some(b) ==> r == (PadStatus {
            address: b.address,
            bluez_blocked: b.bluez_blocked,
            name: if dongle.name is Some {
                dongle.name
            } else {
                b.name
            },
            ..dongle
        }),
{
    match bluez {
        None => dongle,
        Some(b) => {
            let name = if dongle.name.is_some() {
                dongle.name
            } else {
                b.name
            };
            PadStatus { address: b.address, bluez_blocked: b.bluez_blocked, name, ..dongle }
        },
    }
}

/// How many banks a profile write sends: none, bank 0, or all the device
/// holds.
pub fn bank_write_count(scope: ProfilePadWrite, device_bank_count: usize) -> (n: usize)
    ensures
        n == match scope {
            ProfilePadWrite::Untouched => 0,
            ProfilePadWrite::BankZero => 1,
            ProfilePadWrite::AllBanks => device_bank_count,
        },
{
    match scope {
        ProfilePadWrite::Untouched => 0,
        ProfilePadWrite::BankZero => 1,
        ProfilePadWrite::AllBanks => device_bank_count,
    }
}

/// The transport a bank write went over, by its report.
pub fn transport_of(report: &str) -> (t: &'static str)
    ensures
        t@ == if contains(report@, "dongle"@) {
            "S3 dongle"@
        } else {
            "BlueZ"@
        },
{
    let r = chars_of(report);
    let d = chars_of("dongle");
    if has_infix(&r, &d) {
        "S3 dongle"
    } else {
        "BlueZ"
    }
}

/// The report of a multi-bank write: which banks were written, how the
/// selected bank was restored, and over which transport.
pub open spec fn sync_report(
    completed: nat,
    count: nat,
    restore_bank: u8,
    write_error: Option<Seq<char>>,
    restore: Result<(), Seq<char>>,
    transport: Seq<char>,
) -> Result<Seq<char>, Seq<char>> {
    match write_error {
        Some(e) => Err("pad sync stopped after "@ + decimal(completed) + "/"@ + decimal(count) + " banks: "@ + e
            + "; restore bank "@ + decimal(restore_bank as nat) + ": "@ + match restore {
            Ok(()) => "ok"@,
            Err(x) => x,
        }),
        None => match restore {
            Err(x) => Err("wrote "@ + decimal(completed) + "/"@ + decimal(count) + " banks but failed to restore bank "@
                + decimal(restore_bank as nat) + ": "@ + x),
            Ok(()) => Ok("wrote "@ + decimal(completed) + " bank"@ + (if completed == 1 {
                Seq::<char>::empty()
            } else {
                "s"@
            }) + " / "@ + decimal(completed * (SLOT_COUNT as nat)) + " slots via "@ + transport),
        },
    }
}

pub open spec fn opt_seq(o: Option<String>) -> Option<Seq<char>> {
    match o {
        Some(e) => Some(e@),
        None => None,
    }
}

pub open spec fn res_seq(r: Result<(), String>) -> Result<(), Seq<char>> {
    match r {
        Ok(()) => Ok(()),
        Err(x) => Err(x@),
    }
}

/// Reports a multi-bank write.
pub fn pad_sync_report(
    completed: usize,
    count: usize,
    restore_bank: u8,
    write_error: Option<String>,
    restore: Result<(), String>,
    transport: &str,
) -> (r: Result<String, String>)
    requires
        completed <= count,
        count <= crate::slots::BANK_COUNT,
    ensures
        match sync_report(
            completed as nat,
            count as nat,
            restore_bank,
            opt_seq(write_error),
            res_seq(restore),
            transport@,
        ) {
            Ok(m) => r matches Ok(s) && s@ == m,
            Err(m) => r matches Err(s) && s@ == m,
        },
{
    match write_error {
        Some(e) => {
            let mut m = "pad sync stopped after ".to_string();
            push_decimal(&mut m, completed as u64);
            push_all(&mut m, "/");
            push_decimal(&mut m, count as u64);
            push_all(&mut m, " banks: ");
            push_all(&mut m, e.as_str());
            push_all(&mut m, "; restore bank ");
            push_decimal(&mut m, restore_bank as u64);
            push_all(&mut m, ": ");
            let tail = match &restore {
                Ok(()) => "ok".to_string(),
                Err(x) => x.clone(),
            };
            push_all(&mut m, tail.as_str());
            Err(m)
        },
        None => match restore {
            Err(x) => {
                let mut m = "wrote ".to_string();
                push_decimal(&mut m, completed as u64);
                push_all(&mut m, "/");
                push_decimal(&mut m, count as u64);
                push_all(&mut m, " banks but failed to restore bank ");
                push_decimal(&mut m, restore_bank as u64);
                push_all(&mut m, ": ");
                push_all(&mut m, x.as_str());
                Err(m)
            },
            Ok(()) => {
                let mut m = "wrote ".to_string();
                push_decimal(&mut m, completed as u64);
                push_all(&mut m, " bank");
                if completed != 1 {
                    push_all(&mut m, "s");
                }
                push_all(&mut m, " / ");
                push_decimal(&mut m, (completed * SLOT_COUNT) as u64);
                push_all(&mut m, " slots via ");
                push_all(&mut m, transport);
                Ok(m)
            },
        },
    }
}

/// What the dongle listener does after one poll.
#[derive(Debug, Clone, PartialEq, Eq)]
pub struct ListenerPoll {
    /// The newly selected bank, to announce, when it changed.
    pub bank_changed: Option<u8>,
    /// The binding key to fire, when a macro event came.
    pub fire_key: Option<String>,
}

/// One dongle poll: announce a bank change once, and fire the bank-scoped
/// key of a macro event.
pub fn listener_poll_step(last_bank: &mut Option<u8>, poll: &DonglePoll) -> (r: ListenerPoll)
    ensures
        *final(last_bank) == Some(poll.selected_bank),
        r.bank_changed == if *old(last_bank) == Some(poll.selected_bank) {
            None
        } else {
            Some(poll.selected_bank)
        },
        match poll.macro_event {
            Some(ev) => r.fire_key matches Some(k) && k@ == canonical_key(ev.bank as nat, ev.preset as nat, ev.action as nat),
            None => r.fire_key is None,
        },
{
    let changed = match *last_bank {
        Some(b) => b != poll.selected_bank,
        None => true,
    };
    let bank_changed = if changed {
        Some(poll.selected_bank)
    } else {
        None
    };
    *last_bank = Some(poll.selected_bank);
    let fire_key = match &poll.macro_event {
        Some(ev) => Some(PadSlots::bank_binding_key(ev.bank as usize, ev.preset as usize, ev.action as usize)),
        None => None,
    };
    ListenerPoll { bank_changed, fire_key }
}

/// How many pad slots a profile application writes.
pub fn pad_slot_count(scope: ProfilePadWrite) -> (n: usize)
    ensures
        n == match scope {
            ProfilePadWrite::Untouched => 0,
            ProfilePadWrite::BankZero => SLOT_COUNT as int,
            ProfilePadWrite::AllBanks => crate::slots::BANK_COUNT * SLOT_COUNT,
        },
{
    match scope {
        ProfilePadWrite::Untouched => 0,
        ProfilePadWrite::BankZero => SLOT_COUNT,
        ProfilePadWrite::AllBanks => crate::slots::BANK_COUNT * SLOT_COUNT,
    }
}

/// What `str::to_lowercase` gives for a text (Unicode lower case).
pub uninterp spec fn unicode_lowercase(s: Seq<char>) -> Seq<char>;

/// `str::to_lowercase`: the Unicode lower-case form of `s`; it depends on
/// `s` alone, and the mapping itself is not stated.
#[verifier::external_body]
fn lowercase(s: &str) -> (r: String)
    ensures
        r@ == unicode_lowercase(s@),
{
    s.to_lowercase()
}

/// Whether a device name is the pad's exact advertised name.
pub open spec fn exact_pad_name(n: Seq<char>) -> bool {
    n == crate::slots::DEVICE_NAME@
}

/// Whether a device name still looks like the pad (an alias or a stale
/// name): it holds `cyberdeck` in lower case.
pub open spec fn pad_name_alias(n: Seq<char>) -> bool {
    contains(unicode_lowercase(n), "cyberdeck"@)
}

/// Which BlueZ device is the pad, by name (an unnamed device counts as
/// empty): the first with the exact name; else the last whose name looks
/// like the pad.
pub fn pick_pad_device(names: &Vec<String>) -> (r: Option<usize>)
    ensures
        match r {
            Some(i) => 0 <= i < names@.len() && ((exact_pad_name(names@[i as int]@) && forall|j: int|
                0 <= j < i ==> !exact_pad_name(#[trigger] names@[j]@)) || ((forall|j: int| 0 <= j < names@.len()
                ==> !exact_pad_name(#[trigger] names@[j]@)) && pad_name_alias(names@[i as int]@) && forall|j: int|
                i < j < names@.len() ==> !pad_name_alias(#[trigger] names@[j]@))),
            None => forall|j: int| 0 <= j < names@.len() ==> !exact_pad_name(#[trigger] names@[j]@)
                && !pad_name_alias(names@[j]@),
        },
{
    let mut fallback: Option<usize> = None;
    let mut i: usize = 0;
    while i < names.len()
        invariant
            i <= names@.len(),
            forall|j: int| 0 <= j < i ==> !exact_pad_name(#[trigger] names@[j]@),
            match fallback {
                Some(f) => f < i && pad_name_alias(names@[f as int]@) && forall|j: int| f < j < i ==> !pad_name_alias(
                    #[trigger] names@[j]@,
                ),
                None => forall|j: int| 0 <= j < i ==> !pad_name_alias(#[trigger] names@[j]@),
            },
        decreases names@.len() - i,
    {
        let nv = chars_of(names[i].as_str());
        if crate::text::chars_are(&nv, crate::slots::DEVICE_NAME) {
            return Some(i);
        }
        let low = lowercase(names[i].as_str());
        let lv = chars_of(low.as_str());
        if has_infix(&lv, &chars_of("cyberdeck")) {
            fallback = Some(i);
        }
        i = i + 1;
    }
    fallback
}

} // verus!
