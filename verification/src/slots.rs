//! The pad's slot table on the wire: 27-byte slot records, the 18-slot
//! table (486 bytes), the bank page that adds a leading bank byte, macro
//! events, and the status record with its log-safe address.

use vstd::prelude::*;
use vstd::utf8::*;
use crate::text::{parse_unsigned, parse_unsigned_range, trimmed_chars, has_prefix, split_pieces, vec_range, chars_of, is_hex, is_hex_char, ascii_upper, ascii_upper_char, trim, trim_bounds, split_on, nonempty, split_nonempty, Sep, push_all, push_char, push_decimal, decimal, lemma_chars_deep};

verus! {

broadcast use vstd::string::group_string_axioms;

pub const DEVICE_NAME: &'static str = "Cyberdeck Pad";

pub const SERVICE_UUID: &'static str = "c0de0001-3d17-4a00-8000-00805f9b34fb";

pub const SLOTS_UUID: &'static str = "c0de0002-3d17-4a00-8000-00805f9b34fb";

pub const MACRO_EVENT_UUID: &'static str = "c0de0003-3d17-4a00-8000-00805f9b34fb";

pub const INFO_UUID: &'static str = "c0de0004-3d17-4a00-8000-00805f9b34fb";

pub const MODE_HID: u8 = 0;

pub const MODE_MACRO: u8 = 1;

/// Bytes of one slot record.
pub const SLOT_BYTES: usize = 27;

pub const PRESET_COUNT: usize = 6;

pub const ACTION_COUNT: usize = 3;

/// Slots in one table (presets × actions).
pub const SLOT_COUNT: usize = 18;

/// Bytes of one 18-slot table.
pub const SLOTS_BYTES: usize = 486;

/// Banks of 18 slots that the pad holds.
pub const BANK_COUNT: usize = 5;

/// Bytes of one bank page: the bank byte, then one table.
pub const SLOTS_PAGE_BYTES: usize = 487;

/// Most label bytes a slot record carries (the 24-byte field keeps a NUL).
pub const LABEL_MAX_BYTES: usize = 23;

/// Errors of the slot codec and of pad lookups.
#[derive(Debug)]
pub enum BleError {
    DeviceNotFound,
    ServiceMissing(String),
    CharMissing(String),
    BadSlotsLen { got: usize },
    BadIndex,
    Msg(String),
}

/// The text each codec error displays.
pub open spec fn ble_error_text(e: BleError) -> Seq<char> {
    match e {
        BleError::DeviceNotFound => "device not found (look for bonded 'Cyberdeck Pad')"@,
        BleError::ServiceMissing(s) => "GATT service "@ + s@ + " not found \u{2014} flash hybrid firmware?"@,
        BleError::CharMissing(s) => "characteristic "@ + s@ + " missing"@,
        BleError::BadSlotsLen { got } => "slots payload length "@ + decimal(got as nat) + ", expected "@
            + decimal(SLOTS_BYTES as nat),
        BleError::BadIndex => "invalid slot index"@,
        BleError::Msg(s) => s@,
    }
}

impl BleError {
    /// The error's display text.
    pub fn message(&self) -> (r: String)
        ensures
            r@ == ble_error_text(*self),
    {
        match self {
            BleError::DeviceNotFound => "device not found (look for bonded 'Cyberdeck Pad')".to_string(),
            BleError::ServiceMissing(s) => {
                let mut r = "GATT service ".to_string();
                push_all(&mut r, s.as_str());
                push_all(&mut r, " not found \u{2014} flash hybrid firmware?");
                r
            },
            BleError::CharMissing(s) => {
                let mut r = "characteristic ".to_string();
                push_all(&mut r, s.as_str());
                push_all(&mut r, " missing");
                r
            },
            BleError::BadSlotsLen { got } => {
                let mut r = "slots payload length ".to_string();
                push_decimal(&mut r, *got as u64);
                push_all(&mut r, ", expected ");
                push_decimal(&mut r, SLOTS_BYTES as u64);
                r
            },
            BleError::BadIndex => "invalid slot index".to_string(),
            BleError::Msg(s) => s.clone(),
        }
    }
}

/// One pad slot: HID or macro mode, modifier mask, key code, label.
#[derive(Debug, PartialEq, Eq)]
pub struct HotkeySlot {
    pub mode: u8,
    pub modifier: u8,
    pub key: u8,
    pub label: String,
}

impl Clone for HotkeySlot {
    fn clone(&self) -> (r: Self)
        ensures
            r == *self,
    {
        HotkeySlot {
            mode: self.mode,
            modifier: self.modifier,
            key: self.key,
            label: self.label.clone(),
        }
    }
}

/// What a slot holds, with the label as characters.
pub struct SlotView {
    pub mode: u8,
    pub modifier: u8,
    pub key: u8,
    pub label: Seq<char>,
}

impl View for HotkeySlot {
    type V = SlotView;

    open spec fn view(&self) -> SlotView {
        SlotView { mode: self.mode, modifier: self.modifier, key: self.key, label: self.label@ }
    }
}

/// The mode byte written for `mode`: macro stays macro, anything else is HID.
pub open spec fn wire_mode(mode: u8) -> u8 {
    if mode == MODE_MACRO {
        MODE_MACRO
    } else {
        MODE_HID
    }
}

/// The label bytes a record carries: its UTF-8 encoding, cut at 23 bytes.
pub open spec fn label_wire(label: Seq<char>) -> Seq<u8> {
    let b = encode_utf8(label);
    if b.len() <= LABEL_MAX_BYTES {
        b
    } else {
        b.take(LABEL_MAX_BYTES as int)
    }
}

pub open spec fn zeros(n: nat) -> Seq<u8> {
    Seq::new(n, |i: int| 0u8)
}

/// The 27-byte record of a slot.
pub open spec fn pack_slot(s: SlotView) -> Seq<u8> {
    seq![wire_mode(s.mode), s.modifier, s.key] + label_wire(s.label) + zeros(
        (24 - label_wire(s.label).len()) as nat,
    )
}

/// The bytes of `raw` before its first NUL (all of it when there is none).
pub open spec fn until_nul(raw: Seq<u8>) -> Seq<u8>
    decreases raw.len(),
{
    if raw.len() == 0 {
        raw
    } else if raw[0] == 0 {
        Seq::empty()
    } else {
        seq![raw[0]] + until_nul(raw.drop_first())
    }
}

/// What `String::from_utf8_lossy` makes of bytes that are not valid UTF-8.
pub uninterp spec fn utf8_lossy(bytes: Seq<u8>) -> Seq<char>;

/// The text `String::from_utf8_lossy` gives: the decoded characters when the
/// bytes are valid UTF-8, else the named lossy decoding.
pub open spec fn lossy_text(bytes: Seq<u8>) -> Seq<char> {
    if valid_utf8(bytes) {
        decode_utf8(bytes)
    } else {
        utf8_lossy(bytes)
    }
}

/// `String::from_utf8_lossy`. On valid UTF-8 the result is exactly the
/// decoded text (the documented borrowed case); on other input it is the
/// named lossy decoding, whose replacement of bad sequences is not stated.
#[verifier::external_body]
pub(crate) fn from_utf8_lossy(bytes: &[u8]) -> (s: String)
    ensures
        s@ == lossy_text(bytes@),
        !valid_utf8(bytes@) ==> s@ == utf8_lossy(bytes@),
{
    String::from_utf8_lossy(bytes).into_owned()
}

/// The slot a 27-byte record (or longer buffer) describes.
pub open spec fn unpack_slot(buf: Seq<u8>) -> SlotView {
    SlotView {
        mode: buf[0],
        modifier: buf[1],
        key: buf[2],
        label: lossy_text(until_nul(buf.subrange(3, SLOT_BYTES as int))),
    }
}

pub proof fn lemma_until_nul_at(raw: Seq<u8>, k: int)
    requires
        0 <= k <= raw.len(),
        forall|j: int| 0 <= j < k ==> #[trigger] raw[j] != 0,
        k == raw.len() || raw[k] == 0,
    ensures
        until_nul(raw) == raw.take(k),
    decreases k,
{
    if k == 0 {
        if raw.len() > 0 {
            assert(raw[0] == 0);
        }
        assert(raw.take(0) =~= Seq::<u8>::empty());
        if raw.len() == 0 {
            assert(raw =~= Seq::<u8>::empty());
        }
    } else {
        assert(raw[0] != 0);
        lemma_until_nul_at(raw.drop_first(), k - 1);
        assert(seq![raw[0]] + raw.drop_first().take(k - 1) =~= raw.take(k));
    }
}

/// No character of `label` is NUL.
pub open spec fn no_nul(label: Seq<char>) -> bool {
    forall|i: int| 0 <= i < label.len() ==> label[i] != '\0'
}

pub open spec fn no_zero_byte(b: Seq<u8>) -> bool {
    forall|i: int| 0 <= i < b.len() ==> #[trigger] b[i] != 0
}

proof fn lemma_scalar_no_zero(c: char)
    requires
        c != '\0',
    ensures
        no_zero_byte(encode_scalar(c as u32)),
{
    let v = c as u32;
    vstd::utf8::char_is_scalar(c);
    assert(v != 0);
    if has_width_1_encoding(v) {
        assert(leading_byte_width_1(v) != 0) by (bit_vector)
            requires
                0 < v <= 0x7F,
        ;
    } else if has_width_2_encoding(v) {
        assert(leading_byte_width_2(v) != 0 && last_continuation_byte(v) != 0) by (bit_vector);
    } else if has_width_3_encoding(v) {
        assert(leading_byte_width_3(v) != 0 && second_last_continuation_byte(v) != 0
            && last_continuation_byte(v) != 0) by (bit_vector);
    } else {
        assert(leading_byte_width_4(v) != 0 && third_last_continuation_byte(v) != 0
            && second_last_continuation_byte(v) != 0 && last_continuation_byte(v) != 0)
            by (bit_vector);
    }
}

/// The UTF-8 encoding of text without NUL holds no zero byte.
pub proof fn lemma_encode_no_zero(label: Seq<char>)
    requires
        no_nul(label),
    ensures
        no_zero_byte(encode_utf8(label)),
    decreases label.len(),
{
    if label.len() > 0 {
        lemma_scalar_no_zero(label[0]);
        assert(no_nul(label.drop_first()));
        lemma_encode_no_zero(label.drop_first());
        let a = encode_scalar(label[0] as u32);
        let b = encode_utf8(label.drop_first());
        assert forall|i: int| 0 <= i < encode_utf8(label).len() implies #[trigger] encode_utf8(label)[i] != 0 by {
            if i < a.len() {
                assert(encode_utf8(label)[i] == a[i]);
            } else {
                assert(encode_utf8(label)[i] == b[i - a.len()]);
            }
        }
    }
}

/// Packing then unpacking a slot whose label holds no NUL gives back its
/// modifier and key, the mode as written (macro or HID), and the label
/// decoded from its first 23 UTF-8 bytes.
pub proof fn law_slot_pack_unpack(s: SlotView)
    requires
        no_nul(s.label),
    ensures
        unpack_slot(pack_slot(s)) == (SlotView {
            mode: wire_mode(s.mode),
            modifier: s.modifier,
            key: s.key,
            label: lossy_text(label_wire(s.label)),
        }),
{
    let p = pack_slot(s);
    let lw = label_wire(s.label);
    lemma_encode_no_zero(s.label);
    let raw = p.subrange(3, SLOT_BYTES as int);
    assert forall|j: int| 0 <= j < lw.len() implies #[trigger] raw[j] != 0 by {
        assert(raw[j] == lw[j]);
        assert(lw[j] == encode_utf8(s.label)[j]);
    }
    assert(raw[lw.len() as int] == 0);
    lemma_until_nul_at(raw, lw.len() as int);
    assert(raw.take(lw.len() as int) =~= lw);
}

/// A slot in HID or macro mode whose label holds no NUL and fits in 23
/// UTF-8 bytes comes back unchanged from its record.
pub proof fn law_slot_roundtrip(s: SlotView)
    requires
        s.mode == MODE_HID || s.mode == MODE_MACRO,
        no_nul(s.label),
        encode_utf8(s.label).len() <= LABEL_MAX_BYTES,
    ensures
        unpack_slot(pack_slot(s)) == s,
{
    law_slot_pack_unpack(s);
    vstd::utf8::encode_utf8_valid_utf8(s.label);
    vstd::utf8::encode_utf8_decode_utf8(s.label);
}

/// Every character of `label` is ASCII.
pub open spec fn ascii_text(label: Seq<char>) -> bool {
    forall|i: int| 0 <= i < label.len() ==> (#[trigger] label[i] as u32) < 128
}

/// ASCII text encodes one byte per character, so cutting the encoding at
/// `n` bytes encodes the first `n` characters.
pub proof fn lemma_ascii_encode_take(label: Seq<char>, n: int)
    requires
        ascii_text(label),
        0 <= n <= label.len(),
    ensures
        encode_utf8(label).len() == label.len(),
        encode_utf8(label.take(n)) == encode_utf8(label).take(n),
    decreases label.len(),
{
    if label.len() > 0 {
        let rest = label.drop_first();
        assert(ascii_text(rest)) by {
            assert forall|i: int| 0 <= i < rest.len() implies (#[trigger] rest[i] as u32) < 128 by {
                assert(rest[i] == label[i + 1]);
            }
        }
        assert((label[0] as u32) < 128);
        assert(encode_scalar(label[0] as u32).len() == 1);
        if n > 0 {
            lemma_ascii_encode_take(rest, n - 1);
            let t = label.take(n);
            assert(t[0] == label[0]);
            assert(t.drop_first() =~= rest.take(n - 1));
            assert(encode_utf8(t) == encode_scalar(label[0] as u32) + encode_utf8(rest.take(n - 1)));
            assert(encode_utf8(label.take(n)) =~= encode_utf8(label).take(n));
        } else {
            lemma_ascii_encode_take(rest, 0);
            assert(label.take(0) =~= Seq::<char>::empty());
            assert(encode_utf8(label).take(0) =~= Seq::<u8>::empty());
        }
    } else {
        assert(label.take(n) =~= label);
    }
}

/// An ASCII label without NUL comes back from its record as its first 23
/// characters (all of it when it is shorter), with the modifier, key and
/// mode as written.
pub proof fn law_ascii_label_truncates(s: SlotView)
    requires
        no_nul(s.label),
        ascii_text(s.label),
    ensures
        unpack_slot(pack_slot(s)) == (SlotView {
            mode: wire_mode(s.mode),
            modifier: s.modifier,
            key: s.key,
            label: s.label.take(if s.label.len() <= LABEL_MAX_BYTES { s.label.len() as int } else { LABEL_MAX_BYTES as int }),
        }),
{
    law_slot_pack_unpack(s);
    let n: int = if s.label.len() <= LABEL_MAX_BYTES { s.label.len() as int } else { LABEL_MAX_BYTES as int };
    lemma_ascii_encode_take(s.label, n);
    let t = s.label.take(n);
    assert(label_wire(s.label) == encode_utf8(t)) by {
        if s.label.len() <= LABEL_MAX_BYTES {
            assert(encode_utf8(s.label).take(n) =~= encode_utf8(s.label));
        }
    }
    vstd::utf8::encode_utf8_valid_utf8(t);
    vstd::utf8::encode_utf8_decode_utf8(t);
}

/// The record's fixed layout: byte 0 is the mode (macro, or HID for any
/// other), byte 1 the modifier, byte 2 the key, then the label's UTF-8
/// bytes cut at 23 and NUL padding to 27 bytes; reading a record takes the
/// mode, modifier and key from bytes 0, 1 and 2.
pub proof fn law_slot_wire_layout(s: SlotView, buf: Seq<u8>)
    requires
        buf.len() >= SLOT_BYTES,
    ensures
        pack_slot(s).len() == SLOT_BYTES,
        s.mode == MODE_MACRO ==> pack_slot(s)[0] == MODE_MACRO,
        s.mode != MODE_MACRO ==> pack_slot(s)[0] == MODE_HID,
        pack_slot(s)[1] == s.modifier,
        pack_slot(s)[2] == s.key,
        forall|j: int| 0 <= j < encode_utf8(s.label).len() && j < LABEL_MAX_BYTES ==> #[trigger] pack_slot(s)[3 + j]
            == encode_utf8(s.label)[j],
        forall|j: int| encode_utf8(s.label).len() <= j < 24 ==> #[trigger] pack_slot(s)[3 + j] == 0,
        pack_slot(s)[SLOT_BYTES - 1] == 0,
        unpack_slot(buf).mode == buf[0],
        unpack_slot(buf).modifier == buf[1],
        unpack_slot(buf).key == buf[2],
{
    let w = label_wire(s.label);
    let head = seq![wire_mode(s.mode), s.modifier, s.key];
    let z = zeros((24 - w.len()) as nat);
    assert(pack_slot(s) == head + w + z);
    assert forall|j: int| 0 <= j < encode_utf8(s.label).len() && j < LABEL_MAX_BYTES implies #[trigger] pack_slot(s)[3
        + j] == encode_utf8(s.label)[j] by {
        assert(pack_slot(s)[3 + j] == w[j]);
    }
    assert forall|j: int| encode_utf8(s.label).len() <= j < 24 implies #[trigger] pack_slot(s)[3 + j] == 0 by {
        assert(pack_slot(s)[3 + j] == z[j - w.len()]);
    }
    assert(pack_slot(s)[SLOT_BYTES - 1] == z[z.len() - 1]);
}

/// In a packed table, slot `i`'s modifier and key sit at bytes `27 i + 1`
/// and `27 i + 2`; in a bank page, after the bank byte, one further on.
pub proof fn law_table_wire_layout(bank: u8, t: Seq<SlotView>, i: int)
    requires
        0 <= i < t.len(),
    ensures
        pack_table(t)[SLOT_BYTES * i + 1] == t[i].modifier,
        pack_table(t)[SLOT_BYTES * i + 2] == t[i].key,
        pack_page(bank, t)[0] == bank,
        pack_page(bank, t)[1 + SLOT_BYTES * i + 1] == t[i].modifier,
        pack_page(bank, t)[1 + SLOT_BYTES * i + 2] == t[i].key,
{
    lemma_pack_table_chunk(t, i);
    lemma_pack_table_len(t);
    law_slot_wire_layout(t[i], pack_slot(t[i]));
    assert(pack_table(t).subrange(SLOT_BYTES * i, SLOT_BYTES * i + SLOT_BYTES)[1] == pack_table(t)[SLOT_BYTES * i + 1]);
    assert(pack_table(t).subrange(SLOT_BYTES * i, SLOT_BYTES * i + SLOT_BYTES)[2] == pack_table(t)[SLOT_BYTES * i + 2]);
}

proof fn lemma_pack_slot_len(s: SlotView)
    ensures
        pack_slot(s).len() == SLOT_BYTES,
        label_wire(s.label).len() <= LABEL_MAX_BYTES,
{
}

impl HotkeySlot {
    /// The 27-byte record: mode (macro or HID), modifier, key, then the
    /// label's UTF-8 bytes cut at 23 and NUL-padded.
    pub fn pack(&self) -> (buf: [u8; 27])
        ensures
            buf@ == pack_slot(self@),
    {
        let mut buf = [0u8; 27];
        buf[0] = if self.mode == MODE_MACRO {
            MODE_MACRO
        } else {
            MODE_HID
        };
        buf[1] = self.modifier;
        buf[2] = self.key;
        let bytes = self.label.as_str().as_bytes();
        let n: usize = if bytes.len() < LABEL_MAX_BYTES {
            bytes.len()
        } else {
            LABEL_MAX_BYTES
        };
        let ghost lw = label_wire(self.label@);
        assert(bytes@ == encode_utf8(self.label@));
        assert(lw.len() == n);
        let mut i: usize = 0;
        while i < n
            invariant
                i <= n <= LABEL_MAX_BYTES,
                n <= bytes@.len(),
                lw.len() == n,
                forall|j: int| 0 <= j < n ==> lw[j] == bytes@[j],
                buf@.len() == 27,
                buf@[0] == wire_mode(self.mode),
                buf@[1] == self.modifier,
                buf@[2] == self.key,
                forall|j: int| 0 <= j < i ==> buf@[3 + j] == lw[j],
                forall|j: int| 3 + i <= j < 27 ==> buf@[j] == 0,
            decreases n - i,
        {
            buf[3 + i] = bytes[i];
            i = i + 1;
        }
        assert(buf@ =~= pack_slot(self@));
        buf
    }

    /// Reads a slot from the first 27 bytes of `buf`: the raw mode byte,
    /// modifier, key, and the label up to its first NUL, decoded lossily.
    pub fn unpack(buf: &[u8]) -> (r: Result<HotkeySlot, BleError>)
        ensures
            buf@.len() < SLOT_BYTES ==> r == Err::<HotkeySlot, BleError>(
                BleError::BadSlotsLen { got: buf@.len() as usize },
            ),
            buf@.len() >= SLOT_BYTES ==> (r matches Ok(s) && s@ == unpack_slot(buf@)),
    {
        if buf.len() < SLOT_BYTES {
            return Err(BleError::BadSlotsLen { got: buf.len() });
        }
        let ghost raw = buf@.subrange(3, SLOT_BYTES as int);
        let mut end: usize = 3;
        while end < SLOT_BYTES && buf[end] != 0
            invariant
                3 <= end <= SLOT_BYTES <= buf@.len(),
                raw == buf@.subrange(3, SLOT_BYTES as int),
                forall|j: int| 3 <= j < end ==> #[trigger] buf@[j] != 0,
            decreases SLOT_BYTES - end,
        {
            end = end + 1;
        }
        proof {
            assert forall|j: int| 0 <= j < end - 3 implies #[trigger] raw[j] != 0 by {
                assert(raw[j] == buf@[3 + j]);
            }
            if end < SLOT_BYTES {
                assert(raw[end - 3] == buf@[end as int]);
            }
            lemma_until_nul_at(raw, end - 3);
            assert(raw.take(end - 3) =~= buf@.subrange(3, end as int));
        }
        let label = from_utf8_lossy(&buf[3..end]);
        Ok(HotkeySlot { mode: buf[0], modifier: buf[1], key: buf[2], label })
    }
}


/// The 18-slot table, row-major: index `preset * 3 + action`.
#[derive(Debug)]
pub struct PadSlots {
    pub slots: Vec<HotkeySlot>,
}

/// Index of `(preset, action)` in a table.
pub open spec fn slot_index(preset: int, action: int) -> int {
    preset * 3 + action
}

/// The records of a sequence of slots, one after another.
pub open spec fn pack_table(t: Seq<SlotView>) -> Seq<u8>
    decreases t.len(),
{
    if t.len() == 0 {
        Seq::empty()
    } else {
        pack_table(t.drop_last()) + pack_slot(t.last())
    }
}

/// The 18 slots that a 486-byte (or longer) table describes.
pub open spec fn unpack_table(buf: Seq<u8>) -> Seq<SlotView> {
    Seq::new(
        SLOT_COUNT as nat,
        |i: int| unpack_slot(buf.subrange(SLOT_BYTES * i, SLOT_BYTES * i + SLOT_BYTES)),
    )
}

/// A bank page: the bank byte, then the table.
pub open spec fn pack_page(bank: u8, t: Seq<SlotView>) -> Seq<u8> {
    seq![bank] + pack_table(t)
}

pub proof fn lemma_pack_table_len(t: Seq<SlotView>)
    ensures
        pack_table(t).len() == SLOT_BYTES * t.len(),
    decreases t.len(),
{
    if t.len() > 0 {
        lemma_pack_table_len(t.drop_last());
        lemma_pack_slot_len(t.last());
    }
}

pub proof fn lemma_pack_table_chunk(t: Seq<SlotView>, i: int)
    requires
        0 <= i < t.len(),
    ensures
        pack_table(t).subrange(SLOT_BYTES * i, SLOT_BYTES * i + SLOT_BYTES) == pack_slot(t[i]),
    decreases t.len(),
{
    lemma_pack_table_len(t.drop_last());
    lemma_pack_slot_len(t.last());
    let p = pack_table(t);
    if i == t.len() - 1 {
        assert(p.subrange(SLOT_BYTES * i, SLOT_BYTES * i + SLOT_BYTES) =~= pack_slot(t.last()));
    } else {
        lemma_pack_table_chunk(t.drop_last(), i);
        assert(p.subrange(SLOT_BYTES * i, SLOT_BYTES * i + SLOT_BYTES) =~= pack_table(
            t.drop_last(),
        ).subrange(SLOT_BYTES * i, SLOT_BYTES * i + SLOT_BYTES));
    }
}

/// Whether a slot comes back unchanged from its record: HID or macro mode,
/// no NUL in the label, label within 23 UTF-8 bytes.
pub open spec fn slot_fits(s: SlotView) -> bool {
    &&& s.mode == MODE_HID || s.mode == MODE_MACRO
    &&& no_nul(s.label)
    &&& encode_utf8(s.label).len() <= LABEL_MAX_BYTES
}

/// Unpacking a packed table of 18 slots that each fit gives the table back.
pub proof fn law_table_roundtrip(t: Seq<SlotView>)
    requires
        t.len() == SLOT_COUNT,
        forall|i: int| 0 <= i < t.len() ==> slot_fits(#[trigger] t[i]),
    ensures
        unpack_table(pack_table(t)) == t,
{
    assert forall|i: int| 0 <= i < t.len() implies #[trigger] unpack_table(pack_table(t))[i] == t[i] by {
        lemma_pack_table_chunk(t, i);
        law_slot_roundtrip(t[i]);
    }
    assert(unpack_table(pack_table(t)) =~= t);
}

/// Unpacking the table part of a packed bank page gives the table back.
pub proof fn law_page_roundtrip(bank: u8, t: Seq<SlotView>)
    requires
        t.len() == SLOT_COUNT,
        forall|i: int| 0 <= i < t.len() ==> slot_fits(#[trigger] t[i]),
    ensures
        pack_page(bank, t)[0] == bank,
        unpack_table(pack_page(bank, t).drop_first()) == t,
{
    assert(pack_page(bank, t).drop_first() =~= pack_table(t));
    law_table_roundtrip(t);
}

impl PadSlots {
    pub open spec fn table(&self) -> Seq<SlotView> {
        self.slots@.map_values(|s: HotkeySlot| s@)
    }

    /// The slot at `(preset, action)`; `BadIndex` outside 6 × 3 or past the
    /// end of the list.
    pub fn get(&self, preset: usize, action: usize) -> (r: Result<&HotkeySlot, BleError>)
        ensures
            (preset < PRESET_COUNT && action < ACTION_COUNT && slot_index(preset as int, action as int)
                < self.slots.len()) ==> (r matches Ok(s) && *s == self.slots@[slot_index(
                preset as int,
                action as int,
            )]),
            !(preset < PRESET_COUNT && action < ACTION_COUNT && slot_index(preset as int, action as int)
                < self.slots.len()) ==> r matches Err(BleError::BadIndex),
    {
        if preset >= PRESET_COUNT || action >= ACTION_COUNT {
            return Err(BleError::BadIndex);
        }
        let i = preset * ACTION_COUNT + action;
        if i < self.slots.len() {
            Ok(&self.slots[i])
        } else {
            Err(BleError::BadIndex)
        }
    }

    /// The slot at `(preset, action)` for writing; the rest of the table is
    /// left as it was.
    pub fn get_mut(&mut self, preset: usize, action: usize) -> (r: Result<&mut HotkeySlot, BleError>)
        ensures
            (preset < PRESET_COUNT && action < ACTION_COUNT && slot_index(preset as int, action as int)
                < old(self).slots.len()) ==> (r matches Ok(s) && *s == old(self).slots@[slot_index(
                preset as int,
                action as int,
            )] && final(self).slots@ == old(self).slots@.update(
                slot_index(preset as int, action as int),
                *final(s),
            )),
            !(preset < PRESET_COUNT && action < ACTION_COUNT && slot_index(preset as int, action as int)
                < old(self).slots.len()) ==> (r matches Err(BleError::BadIndex) && *final(self)
                == *old(self)),
    {
        if preset >= PRESET_COUNT || action >= ACTION_COUNT {
            return Err(BleError::BadIndex);
        }
        let i = preset * ACTION_COUNT + action;
        if i < self.slots.len() {
            Ok(&mut self.slots[i])
        } else {
            Err(BleError::BadIndex)
        }
    }

    /// The 486-byte table; `BadSlotsLen` (with the byte count the list would
    /// take) unless the list holds exactly 18 slots.
    pub fn pack(&self) -> (r: Result<[u8; 486], BleError>)
        requires
            self.slots.len() * SLOT_BYTES <= usize::MAX,
        ensures
            self.slots.len() != SLOT_COUNT ==> r == Err::<[u8; 486], BleError>(
                BleError::BadSlotsLen { got: (self.slots.len() * SLOT_BYTES) as usize },
            ),
            self.slots.len() == SLOT_COUNT ==> (r matches Ok(b) && b@ == pack_table(self.table())),
    {
        if self.slots.len() != SLOT_COUNT {
            return Err(BleError::BadSlotsLen { got: self.slots.len() * SLOT_BYTES });
        }
        let mut out = [0u8; 486];
        let mut i: usize = 0;
        while i < SLOT_COUNT
            invariant
                i <= SLOT_COUNT,
                self.slots.len() == SLOT_COUNT,
                out@.len() == SLOTS_BYTES,
                out@.subrange(0, SLOT_BYTES * i) == pack_table(self.table().take(i as int)),
            decreases SLOT_COUNT - i,
        {
            let packed = self.slots[i].pack();
            let start = i * SLOT_BYTES;
            let ghost before = out@;
            let mut j: usize = 0;
            while j < SLOT_BYTES
                invariant
                    j <= SLOT_BYTES,
                    start == i * SLOT_BYTES,
                    i < SLOT_COUNT,
                    out@.len() == SLOTS_BYTES,
                    packed@.len() == SLOT_BYTES,
                    out@.subrange(0, start as int) == before.subrange(0, start as int),
                    forall|k: int| 0 <= k < j ==> out@[start + k] == packed@[k],
                decreases SLOT_BYTES - j,
            {
                out[start + j] = packed[j];
                j = j + 1;
            }
            proof {
                let t = self.table();
                assert(t.take(i + 1).drop_last() =~= t.take(i as int));
                assert(t.take(i + 1).last() == self.slots@[i as int]@);
                assert(out@.subrange(0, SLOT_BYTES * (i + 1)) =~= out@.subrange(0, start as int)
                    + packed@);
            }
            i = i + 1;
        }
        proof {
            assert(self.table().take(SLOT_COUNT as int) =~= self.table());
            assert(out@.subrange(0, SLOTS_BYTES as int) =~= out@);
        }
        Ok(out)
    }

    /// Reads 18 slots from the first 486 bytes of `buf`.
    pub fn unpack(buf: &[u8]) -> (r: Result<PadSlots, BleError>)
        ensures
            buf@.len() < SLOTS_BYTES ==> r == Err::<PadSlots, BleError>(
                BleError::BadSlotsLen { got: buf@.len() as usize },
            ),
            buf@.len() >= SLOTS_BYTES ==> (r matches Ok(p) && p.table() == unpack_table(buf@)),
    {
        if buf.len() < SLOTS_BYTES {
            return Err(BleError::BadSlotsLen { got: buf.len() });
        }
        let mut slots: Vec<HotkeySlot> = Vec::with_capacity(SLOT_COUNT);
        let mut i: usize = 0;
        while i < SLOT_COUNT
            invariant
                i <= SLOT_COUNT,
                buf@.len() >= SLOTS_BYTES,
                slots@.len() == i,
                forall|k: int| 0 <= k < i ==> #[trigger] slots@[k]@ == unpack_table(buf@)[k],
            decreases SLOT_COUNT - i,
        {
            let start = i * SLOT_BYTES;
            let chunk = &buf[start..start + SLOT_BYTES];
            assert(chunk@ == buf@.subrange(start as int, start + SLOT_BYTES));
            let slot = HotkeySlot::unpack(chunk);
            match slot {
                Ok(s) => {
                    slots.push(s);
                },
                Err(e) => {
                    return Err(e);
                },
            }
            i = i + 1;
        }
        let r = PadSlots { slots };
        assert(r.table() =~= unpack_table(buf@));
        Ok(r)
    }

    /// A bank page for `bank`: the bank byte, then the 486-byte table.
    /// `BadIndex` for a bank past the last; `BadSlotsLen` unless 18 slots.
    pub fn pack_bank(&self, bank: u8) -> (r: Result<Vec<u8>, BleError>)
        requires
            self.slots.len() * SLOT_BYTES <= usize::MAX,
        ensures
            bank as usize >= BANK_COUNT ==> r matches Err(BleError::BadIndex),
            bank as usize >= BANK_COUNT || self.slots.len() == SLOT_COUNT || r == Err::<Vec<u8>, BleError>(
                BleError::BadSlotsLen { got: (self.slots.len() * SLOT_BYTES) as usize },
            ),
            (bank as usize) < BANK_COUNT && self.slots.len() == SLOT_COUNT ==> (r matches Ok(b) && b@
                == pack_page(bank, self.table())),
    {
        if bank as usize >= BANK_COUNT {
            return Err(BleError::BadIndex);
        }
        let table = self.pack()?;
        let mut page: Vec<u8> = Vec::with_capacity(SLOTS_PAGE_BYTES);
        page.push(bank);
        let mut i: usize = 0;
        while i < SLOTS_BYTES
            invariant
                i <= SLOTS_BYTES,
                table@.len() == SLOTS_BYTES,
                page@ == seq![bank] + table@.take(i as int),
            decreases SLOTS_BYTES - i,
        {
            page.push(table[i]);
            assert(seq![bank] + table@.take(i + 1) =~= (seq![bank] + table@.take(i as int)).push(table@[i as int]));
            i = i + 1;
        }
        assert(table@.take(SLOTS_BYTES as int) =~= table@);
        Ok(page)
    }

    /// Reads the table of a bank page that must be for `bank`: `BadIndex`
    /// for a bank past the last or a page for another bank, `BadSlotsLen`
    /// for a page under 487 bytes.
    pub fn unpack_bank(buf: &[u8], bank: u8) -> (r: Result<PadSlots, BleError>)
        ensures
            bank as usize >= BANK_COUNT ==> r matches Err(BleError::BadIndex),
            (bank as usize) < BANK_COUNT && buf@.len() < SLOTS_PAGE_BYTES ==> r == Err::<PadSlots, BleError>(
                BleError::BadSlotsLen { got: buf@.len() as usize },
            ),
            (bank as usize) < BANK_COUNT && buf@.len() >= SLOTS_PAGE_BYTES && buf@[0] != bank ==> r matches Err(
                BleError::BadIndex,
            ),
            (bank as usize) < BANK_COUNT && buf@.len() >= SLOTS_PAGE_BYTES && buf@[0] == bank ==> (r matches Ok(
                p,
            ) && p.table() == unpack_table(buf@.drop_first())),
    {
        if bank as usize >= BANK_COUNT {
            return Err(BleError::BadIndex);
        }
        if buf.len() < SLOTS_PAGE_BYTES {
            return Err(BleError::BadSlotsLen { got: buf.len() });
        }
        if buf[0] != bank {
            return Err(BleError::BadIndex);
        }
        let rest = &buf[1..buf.len()];
        assert(rest@ =~= buf@.drop_first());
        PadSlots::unpack(rest)
    }

    /// The binding key `"{preset}-{action}"`.
    pub fn binding_key(preset: usize, action: usize) -> (r: String)
        ensures
            r@ == decimal(preset as nat) + seq!['-'] + decimal(action as nat),
    {
        let mut s = String::new();
        push_decimal(&mut s, preset as u64);
        push_char(&mut s, '-');
        push_decimal(&mut s, action as u64);
        s
    }

    /// The bank-scoped binding key `"{bank}-{preset}-{action}"`.
    pub fn bank_binding_key(bank: usize, preset: usize, action: usize) -> (r: String)
        ensures
            r@ == decimal(bank as nat) + seq!['-'] + decimal(preset as nat) + seq!['-'] + decimal(
                action as nat,
            ),
    {
        let mut s = String::new();
        push_decimal(&mut s, bank as u64);
        push_char(&mut s, '-');
        push_decimal(&mut s, preset as u64);
        push_char(&mut s, '-');
        push_decimal(&mut s, action as u64);
        s
    }
}

/// A macro-mode button press: zero-based bank, preset and action.
#[derive(Debug, Clone, Copy, PartialEq, Eq, Structural)]
pub struct MacroEvent {
    pub bank: u8,
    pub preset: u8,
    pub action: u8,
}

/// The event a notification carries: the two-byte `[preset, action]` form
/// addresses bank 0, the three-byte `[bank, preset, action]` form names its
/// bank; indices out of range give no event.
pub open spec fn macro_event_of(buf: Seq<u8>) -> Option<MacroEvent> {
    if buf.len() < 2 {
        None
    } else {
        let e = if buf.len() == 2 {
            MacroEvent { bank: 0, preset: buf[0], action: buf[1] }
        } else {
            MacroEvent { bank: buf[0], preset: buf[1], action: buf[2] }
        };
        if (e.bank as usize) < BANK_COUNT && (e.preset as usize) < PRESET_COUNT
            && (e.action as usize) < ACTION_COUNT {
            Some(e)
        } else {
            None
        }
    }
}

impl MacroEvent {
    /// The event in a notification; see [`macro_event_of`].
    pub fn from_bytes(buf: &[u8]) -> (r: Option<MacroEvent>)
        ensures
            r == macro_event_of(buf@),
    {
        if buf.len() < 2 {
            return None;
        }
        let e = if buf.len() == 2 {
            MacroEvent { bank: 0, preset: buf[0], action: buf[1] }
        } else {
            MacroEvent { bank: buf[0], preset: buf[1], action: buf[2] }
        };
        if e.bank as usize >= BANK_COUNT || e.preset as usize >= PRESET_COUNT
            || e.action as usize >= ACTION_COUNT {
            return None;
        }
        Some(e)
    }
}

/// What the pad's Info characteristic starts with, before its version.
pub const INFO_PREFIX: &'static str = "Cyberdeck Pad Hybrid v";

/// Whether an Info string names firmware v0.3.0 or later, the first with
/// banks: after the prefix come `major.minor`, and `(major, minor) >= (0, 3)`.
pub open spec fn banked_info(info: Seq<char>) -> bool {
    let t = trim(info);
    if !INFO_PREFIX@.is_prefix_of(t) {
        false
    } else {
        let parts = split_on(t.skip(INFO_PREFIX@.len() as int), Sep::Char('.'));
        if parts.len() < 2 {
            false
        } else {
            match (parse_unsigned(parts[0], u32::MAX as nat), parse_unsigned(parts[1], u32::MAX as nat)) {
                (Some(major), Some(minor)) => major > 0 || minor >= 3,
                _ => false,
            }
        }
    }
}

/// Whether the pad's Info string announces bank support.
pub fn info_supports_banks(info: &str) -> (b: bool)
    ensures
        b == banked_info(info@),
{
    let v = chars_of(info);
    let t = trimmed_chars(&v);
    if !has_prefix(&t, INFO_PREFIX) {
        return false;
    }
    let plen = chars_of(INFO_PREFIX).len();
    let rest = vec_range(&t, plen, t.len());
    assert(rest@ =~= t@.skip(INFO_PREFIX@.len() as int));
    let parts = split_pieces(&rest, &Sep::Char('.'));
    if parts.len() < 2 {
        return false;
    }
    proof {
        lemma_chars_deep(parts@[0]);
        lemma_chars_deep(parts@[1]);
        assert(parts@[0]@.subrange(0, parts@[0]@.len() as int) =~= parts@[0]@);
        assert(parts@[1]@.subrange(0, parts@[1]@.len() as int) =~= parts@[1]@);
    }
    let major = parse_unsigned_range(&parts[0], 0, parts[0].len(), u32::MAX as u64);
    let minor = parse_unsigned_range(&parts[1], 0, parts[1].len(), u32::MAX as u64);
    match (major, minor) {
        (Some(a), Some(b)) => a > 0 || b >= 3,
        _ => false,
    }
}

/// Connection state of the pad as reported over BlueZ or the dongle.
#[derive(Debug)]
pub struct PadStatus {
    pub address: String,
    pub name: Option<String>,
    pub connected: bool,
    pub paired: bool,
    pub info: Option<String>,
    pub transport: Option<String>,
    pub bluez_blocked: Option<bool>,
    pub protocol_compatible: Option<bool>,
    pub slots_ready: Option<bool>,
    pub macro_ready: Option<bool>,
    pub selected_bank: Option<u8>,
}

/// A copy of an optional string.
pub fn copy_opt_string(o: &Option<String>) -> (r: Option<String>)
    ensures
        r == *o,
{
    match o {
        Some(s) => Some(s.clone()),
        None => None,
    }
}

/// Whether a piece is one octet of a MAC address: two hex digits.
pub open spec fn is_octet(p: Seq<char>) -> bool {
    p.len() == 2 && is_hex(p[0]) && is_hex(p[1])
}

/// What the log shows for an address: the six `':'`/`'-'`-separated hex
/// octets become `"**:**:**:**:**:XX"` with only the last octet kept (upper
/// case); an empty address is `"(no address)"`; anything else is fully
/// masked.
pub open spec fn redacted(addr: Seq<char>) -> Seq<char> {
    let t = trim(addr);
    let parts = nonempty(split_on(t, Sep::ColonOrDash));
    if t.len() == 0 {
        "(no address)"@
    } else if parts.len() == 6 && (forall|i: int| 0 <= i < 6 ==> is_octet(#[trigger] parts[i])) {
        "**:**:**:**:**:"@ + parts[5].map_values(|c: char| ascii_upper(c))
    } else {
        "**:**:**:**:**:**"@
    }
}

/// Redacts a Bluetooth address for UI and logs, keeping the last octet so
/// several pads stay distinguishable.
pub fn redact_ble_address(addr: &str) -> (r: String)
    ensures
        r@ == redacted(addr@),
{
    let v = chars_of(addr);
    let (a, b) = trim_bounds(&v);
    if a == b {
        return "(no address)".to_string();
    }
    let t = vec_range(&v, a, b);
    let parts = split_nonempty(&t, &Sep::ColonOrDash);
    let ghost pv = parts.deep_view();
    if parts.len() != 6 {
        return "**:**:**:**:**:**".to_string();
    }
    let mut i: usize = 0;
    while i < 6
        invariant
            i <= 6,
            parts.len() == 6,
            pv == parts.deep_view(),
            pv == nonempty(split_on(trim(addr@), Sep::ColonOrDash)),
            trim(addr@).len() > 0,
            forall|k: int| 0 <= k < i ==> is_octet(#[trigger] pv[k]),
        decreases 6 - i,
    {
        let p = &parts[i];
        proof {
            lemma_chars_deep(*p);
        }
        if !(p.len() == 2 && is_hex_char(p[0]) && is_hex_char(p[1])) {
            assert(!is_octet(pv[i as int]));
            return "**:**:**:**:**:**".to_string();
        }
        i = i + 1;
    }
    let mut out = "**:**:**:**:**:".to_string();
    let last = &parts[5];
    proof {
        lemma_chars_deep(*last);
        assert(is_octet(pv[5]));
        assert(pv[5] == last@);
    }
    let ghost prefix = out@;
    push_char(&mut out, ascii_upper_char(last[0]));
    push_char(&mut out, ascii_upper_char(last[1]));
    assert(out@ =~= prefix + pv[5].map_values(|c: char| ascii_upper(c)));
    out
}

/// A copy of `st` with its address redacted for logs.
pub fn pad_status_for_log(st: &PadStatus) -> (r: PadStatus)
    ensures
        r.address@ == redacted(st.address@),
        r.name == st.name,
        r.connected == st.connected,
        r.paired == st.paired,
        r.info == st.info,
        r.transport == st.transport,
        r.bluez_blocked == st.bluez_blocked,
        r.protocol_compatible == st.protocol_compatible,
        r.slots_ready == st.slots_ready,
        r.macro_ready == st.macro_ready,
        r.selected_bank == st.selected_bank,
{
    PadStatus {
        address: redact_ble_address(st.address.as_str()),
        name: copy_opt_string(&st.name),
        connected: st.connected,
        paired: st.paired,
        info: copy_opt_string(&st.info),
        transport: copy_opt_string(&st.transport),
        bluez_blocked: st.bluez_blocked,
        protocol_compatible: st.protocol_compatible,
        slots_ready: st.slots_ready,
        macro_ready: st.macro_ready,
        selected_bank: st.selected_bank,
    }
}

} // verus!
