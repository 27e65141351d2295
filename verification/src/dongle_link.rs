//! Finding the S3 dongle among serial ports, USB devices and sysfs entries,
//! choosing its CDC interfaces and endpoints, and the reader's step while a
//! reply arrives. Enumerating devices and moving bytes is the
//! application's part.

use vstd::prelude::*;
use crate::text::{is_hex, is_hex_char, chars_of, chars_are, has_infix, contains, trim, trimmed_chars, ascii_lower, ascii_lower_char};
use crate::fire_api::lowered;
use crate::dongle::{response_complete, reply_complete, has_record_line, has_record, MAX_RESPONSE_BYTES};

verus! {

broadcast use vstd::string::group_string_axioms;

/// Espressif's USB vendor id, which the S3 and the C6 pad share.
pub const DONGLE_VID: u16 = 0x303a;

/// The product id of the S3's USB CDC.
pub const DONGLE_PID: u16 = 0x1001;

/// The S3 board's serial, hex digits only, upper case.
pub const S3_SERIAL_COMPACT: &'static str = "A0F262F3D5CC";

/// `c` in ASCII upper case.
pub open spec fn ascii_upper(c: char) -> char {
    if 'a' <= c && c <= 'z' {
        (c as int - 32) as char
    } else {
        c
    }
}

/// The hex digits of `s`, upper-cased, in order.
pub open spec fn compact_hex(s: Seq<char>) -> Seq<char>
    decreases s.len(),
{
    if s.len() == 0 {
        Seq::empty()
    } else if is_hex(s.last()) {
        compact_hex(s.drop_last()).push(ascii_upper(s.last()))
    } else {
        compact_hex(s.drop_last())
    }
}

/// `s` without its colons.
pub open spec fn without_colons(s: Seq<char>) -> Seq<char>
    decreases s.len(),
{
    if s.len() == 0 {
        Seq::empty()
    } else if s.last() == ':' {
        without_colons(s.drop_last())
    } else {
        without_colons(s.drop_last()).push(s.last())
    }
}

fn compact_hex_of(s: &str) -> (r: Vec<char>)
    ensures
        r@ == compact_hex(s@),
{
    let v = chars_of(s);
    let mut r: Vec<char> = Vec::new();
    let mut i: usize = 0;
    while i < v.len()
        invariant
            i <= v.len(),
            v@ == s@,
            r@ == compact_hex(v@.take(i as int)),
        decreases v.len() - i,
    {
        let c = v[i];
        proof {
            assert(v@.take(i + 1).drop_last() =~= v@.take(i as int));
            assert(v@.take(i + 1).last() == c);
        }
        if is_hex_char(c) {
            let u = if 'a' <= c && c <= 'z' {
                ((c as u8) - 32) as char
            } else {
                c
            };
            r.push(u);
        }
        i = i + 1;
    }
    assert(v@.take(v.len() as int) =~= v@);
    r
}

/// Whether a serial port is the S3: a `ttyACM`/`ttyUSB` device whose USB
/// identity is the S3's vendor, product and serial. The C6 pad shares the
/// vendor and product, so the serial decides.
pub open spec fn serial_port_is_s3(name: Seq<char>, usb: Option<(u16, u16, Option<Seq<char>>)>) -> bool {
    (contains(name, "ttyACM"@) || contains(name, "ttyUSB"@)) && match usb {
        Some((vid, pid, serial)) => vid == DONGLE_VID && pid == DONGLE_PID && compact_hex(
            match serial {
                Some(s) => s,
                None => Seq::empty(),
            },
        ) == S3_SERIAL_COMPACT@,
        None => false,
    }
}

/// Whether a serial port is the S3.
pub fn serial_port_matches(name: &str, usb: Option<(u16, u16, Option<String>)>) -> (b: bool)
    ensures
        b == serial_port_is_s3(name@, match usb {
            Some((v, p, s)) => Some((v, p, match s {
                Some(x) => Some(x@),
                None => None,
            })),
            None => None,
        }),
{
    let n = chars_of(name);
    let acm = chars_of("ttyACM");
    let usbn = chars_of("ttyUSB");
    if !(has_infix(&n, &acm) || has_infix(&n, &usbn)) {
        return false;
    }
    match usb {
        Some((vid, pid, serial)) => {
            let ser = match serial {
                Some(s) => s,
                None => String::new(),
            };
            let compact = compact_hex_of(ser.as_str());
            vid == DONGLE_VID && pid == DONGLE_PID && chars_are(&compact, S3_SERIAL_COMPACT)
        },
        None => false,
    }
}

/// Whether a USB device's serial string is the S3's: colons removed, equal
/// up to ASCII case.
pub open spec fn usb_serial_is_s3(serial: Seq<char>) -> bool {
    lowered(without_colons(serial)) == lowered(S3_SERIAL_COMPACT@)
}

/// Whether a USB device's serial string is the S3's.
pub fn usb_serial_matches(serial: &str) -> (b: bool)
    ensures
        b == usb_serial_is_s3(serial@),
{
    let v = chars_of(serial);
    let mut low: Vec<char> = Vec::new();
    let mut i: usize = 0;
    while i < v.len()
        invariant
            i <= v.len(),
            v@ == serial@,
            low@ == lowered(without_colons(v@.take(i as int))),
        decreases v.len() - i,
    {
        let c = v[i];
        proof {
            assert(v@.take(i + 1).drop_last() =~= v@.take(i as int));
            assert(v@.take(i + 1).last() == c);
        }
        if c != ':' {
            low.push(ascii_lower_char(c));
            assert(lowered(without_colons(v@.take(i + 1))) =~= lowered(without_colons(v@.take(i as int))).push(
                ascii_lower(c),
            ));
        }
        i = i + 1;
    }
    assert(v@.take(v.len() as int) =~= v@);
    let want = chars_of(S3_SERIAL_COMPACT);
    let mut w: Vec<char> = Vec::new();
    let mut j: usize = 0;
    while j < want.len()
        invariant
            j <= want.len(),
            want@ == S3_SERIAL_COMPACT@,
            w@ == lowered(want@.take(j as int)),
        decreases want.len() - j,
    {
        w.push(ascii_lower_char(want[j]));
        assert(lowered(want@.take(j + 1)) =~= lowered(want@.take(j as int)).push(ascii_lower(want@[j as int])));
        j = j + 1;
    }
    assert(want@.take(want.len() as int) =~= want@);
    crate::text::chars_eq(&low, &w)
}

/// Whether a sysfs USB device entry is the S3: `idVendor`, `idProduct` and
/// `serial` as read (then trimmed), the serial compared by its hex digits.
pub open spec fn sysfs_entry_is_s3(vendor: Option<Seq<char>>, product: Option<Seq<char>>, serial: Option<Seq<char>>) -> bool {
    &&& vendor matches Some(v) && trim(v) == "303a"@
    &&& product matches Some(p) && trim(p) == "1001"@
    &&& serial matches Some(s) && compact_hex(trim(s)) == S3_SERIAL_COMPACT@
}

/// Whether a sysfs USB device entry is the S3.
pub fn sysfs_entry_matches(vendor: Option<&str>, product: Option<&str>, serial: Option<&str>) -> (b: bool)
    ensures
        b == sysfs_entry_is_s3(
            match vendor {
                Some(v) => Some(v@),
                None => None,
            },
            match product {
                Some(v) => Some(v@),
                None => None,
            },
            match serial {
                Some(v) => Some(v@),
                None => None,
            },
        ),
{
    let v_ok = match vendor {
        Some(v) => chars_are(&trimmed_chars(&chars_of(v)), "303a"),
        None => false,
    };
    let p_ok = match product {
        Some(p) => chars_are(&trimmed_chars(&chars_of(p)), "1001"),
        None => false,
    };
    if !v_ok || !p_ok {
        return false;
    }
    match serial {
        Some(s) => {
            let t = crate::text::trimmed(s);
            let c = compact_hex_of(t.as_str());
            chars_are(&c, S3_SERIAL_COMPACT)
        },
        None => false,
    }
}

/// One endpoint of a USB interface alternate setting.
#[derive(Debug, Clone, Copy, PartialEq, Eq, Structural)]
pub struct CdcEndpoint {
    pub bulk: bool,
    pub out: bool,
    pub address: u8,
}

/// One interface alternate setting of the active configuration.
#[derive(Debug)]
pub struct CdcAlt {
    pub class_code: u8,
    pub interface_number: u8,
    pub endpoints: Vec<CdcEndpoint>,
}

/// The CDC interfaces and bulk endpoints found so far.
#[derive(Debug, Clone, Copy, PartialEq, Eq, Structural)]
pub struct CdcScan {
    pub comm_iface: Option<u8>,
    pub data_iface: Option<u8>,
    pub out_ep: Option<u8>,
    pub in_ep: Option<u8>,
}

/// The bulk endpoints after `eps`: each bulk endpoint sets its direction's
/// slot, a later one over an earlier one.
pub open spec fn ep_scan(eps: Seq<CdcEndpoint>, out: Option<u8>, inn: Option<u8>) -> (Option<u8>, Option<u8>)
    decreases eps.len(),
{
    if eps.len() == 0 {
        (out, inn)
    } else {
        let (o, i) = ep_scan(eps.drop_last(), out, inn);
        let e = eps.last();
        if !e.bulk {
            (o, i)
        } else if e.out {
            (Some(e.address), i)
        } else {
            (o, Some(e.address))
        }
    }
}

/// What the alternate settings give, in order: class 2 is the CDC
/// communication interface, class 10 the data interface whose bulk
/// endpoints carry the bytes; a later setting wins.
pub open spec fn cdc_scan(alts: Seq<CdcAlt>) -> CdcScan
    decreases alts.len(),
{
    if alts.len() == 0 {
        CdcScan { comm_iface: None, data_iface: None, out_ep: None, in_ep: None }
    } else {
        let s = cdc_scan(alts.drop_last());
        let a = alts.last();
        if a.class_code == 2 {
            CdcScan { comm_iface: Some(a.interface_number), ..s }
        } else if a.class_code == 10 {
            let (o, i) = ep_scan(a.endpoints@, s.out_ep, s.in_ep);
            CdcScan { data_iface: Some(a.interface_number), out_ep: o, in_ep: i, ..s }
        } else {
            s
        }
    }
}

/// The CDC interfaces and endpoints to claim.
#[derive(Debug, Clone, Copy, PartialEq, Eq, Structural)]
pub struct CdcChoice {
    pub comm_iface: Option<u8>,
    pub data_iface: u8,
    pub out_ep: u8,
    pub in_ep: u8,
}

fn scan_endpoints(eps: &Vec<CdcEndpoint>, out: Option<u8>, inn: Option<u8>) -> (r: (Option<u8>, Option<u8>))
    ensures
        r == ep_scan(eps@, out, inn),
{
    let mut o = out;
    let mut i = inn;
    let mut j: usize = 0;
    while j < eps.len()
        invariant
            j <= eps.len(),
            (o, i) == ep_scan(eps@.take(j as int), out, inn),
        decreases eps.len() - j,
    {
        proof {
            assert(eps@.take(j + 1).drop_last() =~= eps@.take(j as int));
        }
        let e = eps[j];
        if e.bulk {
            if e.out {
                o = Some(e.address);
            } else {
                i = Some(e.address);
            }
        }
        j = j + 1;
    }
    assert(eps@.take(eps.len() as int) =~= eps@);
    (o, i)
}

/// Chooses the CDC interfaces and endpoints, or names what is missing.
pub fn select_cdc(alts: &Vec<CdcAlt>) -> (r: Result<CdcChoice, String>)
    ensures
        ({
            let s = cdc_scan(alts@);
            &&& s.data_iface is None ==> (r matches Err(e) && e@ == "no CDC data iface"@)
            &&& s.data_iface is Some && s.out_ep is None ==> (r matches Err(e) && e@ == "no CDC OUT ep"@)
            &&& s.data_iface is Some && s.out_ep is Some && s.in_ep is None ==> (r matches Err(e) && e@
                == "no CDC IN ep"@)
            &&& s.data_iface is Some && s.out_ep is Some && s.in_ep is Some ==> r == Ok::<CdcChoice, String>(
                CdcChoice {
                    comm_iface: s.comm_iface,
                    data_iface: s.data_iface->0,
                    out_ep: s.out_ep->0,
                    in_ep: s.in_ep->0,
                },
            )
        }),
{
    let mut s = CdcScan { comm_iface: None, data_iface: None, out_ep: None, in_ep: None };
    let mut k: usize = 0;
    while k < alts.len()
        invariant
            k <= alts.len(),
            s == cdc_scan(alts@.take(k as int)),
        decreases alts.len() - k,
    {
        proof {
            assert(alts@.take(k + 1).drop_last() =~= alts@.take(k as int));
            assert(alts@.take(k + 1).last() == alts@[k as int]);
        }
        let a = &alts[k];
        if a.class_code == 2 {
            s = CdcScan { comm_iface: Some(a.interface_number), ..s };
        } else if a.class_code == 10 {
            let (o, i) = scan_endpoints(&a.endpoints, s.out_ep, s.in_ep);
            s = CdcScan { data_iface: Some(a.interface_number), out_ep: o, in_ep: i, ..s };
        }
        k = k + 1;
    }
    assert(alts@.take(alts.len() as int) =~= alts@);
    let data_iface = match s.data_iface {
        Some(d) => d,
        None => {
            return Err("no CDC data iface".to_string());
        },
    };
    let out_ep = match s.out_ep {
        Some(o) => o,
        None => {
            return Err("no CDC OUT ep".to_string());
        },
    };
    let in_ep = match s.in_ep {
        Some(i) => i,
        None => {
            return Err("no CDC IN ep".to_string());
        },
    };
    Ok(CdcChoice { comm_iface: s.comm_iface, data_iface, out_ep, in_ep })
}

/// What the reader does after one read.
#[derive(Debug, Clone, PartialEq, Eq)]
pub enum ReadStep {
    /// Read again (after a short pause when nothing came).
    Continue,
    /// The reply is complete, or a record arrived and the line went idle.
    Done,
    /// The reply grew past the limit.
    Overflow(String),
}

/// The message when a reply grows past the limit.
pub open spec fn overflow_message() -> Seq<char> {
    "CDC response exceeds "@ + crate::text::decimal(MAX_RESPONSE_BYTES as nat) + " bytes"@
}

/// One read of a reply to `cmd`: bytes extend the reply, which ends once
/// complete; empty reads count as idle, and three in a row end a reply
/// that already holds a record. Async chatter alone never ends it.
pub fn read_step(cmd: &str, buf: &mut Vec<u8>, idle_rounds: &mut u32, chunk: &[u8]) -> (r: ReadStep)
    requires
        *old(idle_rounds) < u32::MAX,
    ensures
        chunk@.len() > 0 && old(buf)@.len() + chunk@.len() > MAX_RESPONSE_BYTES ==> (r matches ReadStep::Overflow(m)
            && m@ == overflow_message()) && final(buf)@ == old(buf)@ && *final(idle_rounds) == *old(idle_rounds),
        chunk@.len() > 0 && old(buf)@.len() + chunk@.len() <= MAX_RESPONSE_BYTES ==> final(buf)@ == old(buf)@
            + chunk@ && if reply_complete(cmd@, old(buf)@ + chunk@) {
            r == ReadStep::Done && *final(idle_rounds) == *old(idle_rounds)
        } else {
            r == ReadStep::Continue && *final(idle_rounds) == 0
        },
        chunk@.len() == 0 ==> final(buf)@ == old(buf)@ && *final(idle_rounds) == *old(idle_rounds) + 1 && r == if has_record(
            old(buf)@,
        ) && *old(idle_rounds) + 1 >= 3 {
            ReadStep::Done
        } else {
            ReadStep::Continue
        },
{
    if chunk.len() > 0 {
        if buf.len() > MAX_RESPONSE_BYTES || chunk.len() > MAX_RESPONSE_BYTES - buf.len() {
            let mut m = "CDC response exceeds ".to_string();
            crate::text::push_decimal(&mut m, MAX_RESPONSE_BYTES as u64);
            crate::text::push_all(&mut m, " bytes");
            return ReadStep::Overflow(m);
        }
        let mut k: usize = 0;
        let ghost start = buf@;
        while k < chunk.len()
            invariant
                k <= chunk@.len(),
                buf@ == start + chunk@.take(k as int),
            decreases chunk@.len() - k,
        {
            buf.push(chunk[k]);
            assert(start + chunk@.take(k + 1) =~= (start + chunk@.take(k as int)).push(chunk@[k as int]));
            k = k + 1;
        }
        assert(chunk@.take(chunk@.len() as int) =~= chunk@);
        if response_complete(cmd, buf.as_slice()) {
            return ReadStep::Done;
        }
        *idle_rounds = 0;
        ReadStep::Continue
    } else {
        *idle_rounds = *idle_rounds + 1;
        if has_record_line(buf.as_slice()) && *idle_rounds >= 3 {
            ReadStep::Done
        } else {
            ReadStep::Continue
        }
    }
}

} // verus!
