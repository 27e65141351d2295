//! The S3 dongle's USB CDC line protocol: which replies are complete, the
//! version and status records, bank pages carried as base64, and macro polls.
//! Opening the port and moving bytes is the application's part; everything
//! it decides from the bytes it reads stands here.

use vstd::prelude::*;
use vstd::utf8::*;
use base64::Engine;
use crate::text::{
    chars_of, has_prefix, has_infix, contains, trim, trimmed_chars, chars_are, vec_range,
    lines_of, lines, lemma_chars_deep, chars_eq, debug_shown, debug_quoted, push_all, push_decimal,
    decimal, parse_unsigned, parse_unsigned_range, parse_u8_decimal, u8_parse_error, string_from_chars, words, split_nonempty, Sep,
    split_on, trim_start, trim_end, is_ws, digit_char,
};
use crate::slots::{
    lossy_text, from_utf8_lossy, BANK_COUNT, PadStatus, MacroEvent, macro_event_of, PadSlots, SlotView,
    BleError, ble_error_text, unpack_table, pack_page, lemma_pack_table_len, SLOTS_PAGE_BYTES,
    SLOT_BYTES, SLOT_COUNT, info_supports_banks, banked_info, ascii_text, lemma_ascii_encode_take, slot_fits,
    law_page_roundtrip,
};

verus! {

broadcast use vstd::string::group_string_axioms;

/// The one dongle firmware build this host speaks to.
pub const EXPECTED_DONGLE_VERSION: &'static str = "s3-dongle-validation 0.5.3 protocol-v0.3";

/// Length of the base64 text of one 487-byte bank page.
pub const SLOTS_B64_BYTES: usize = 652;

/// Largest reply the host accepts before giving up on a command.
pub const MAX_RESPONSE_BYTES: usize = 8192;

/// Index of the last `'\n'` in `b`, or -1 when there is none.
pub open spec fn last_newline(b: Seq<u8>) -> int
    decreases b.len(),
{
    if b.len() == 0 {
        -1
    } else if b.last() == 10u8 {
        b.len() - 1
    } else {
        last_newline(b.drop_last())
    }
}

proof fn lemma_last_newline_take(b: Seq<u8>, i: int)
    requires
        0 <= i <= b.len(),
        forall|j: int| i <= j < b.len() ==> b[j] != 10u8,
    ensures
        last_newline(b) == last_newline(b.take(i)),
    decreases b.len() - i,
{
    if i < b.len() {
        lemma_last_newline_take(b.drop_last(), i);
        assert(b.drop_last().take(i) =~= b.take(i));
    } else {
        assert(b.take(i) =~= b);
    }
}

proof fn lemma_last_newline_bounds(b: Seq<u8>)
    ensures
        -1 <= last_newline(b) < b.len(),
    decreases b.len(),
{
    if b.len() > 0 {
        lemma_last_newline_bounds(b.drop_last());
    }
}

/// The lines of the terminated part of a reply: everything up to and
/// including the last `'\n'`, decoded leniently and split as `str::lines`
/// does. An unterminated tail is never a line; no `'\n'` means no lines.
pub open spec fn record_lines(b: Seq<u8>) -> Seq<Seq<char>> {
    let n = last_newline(b) + 1;
    if n == 0 {
        Seq::empty()
    } else {
        lines(lossy_text(b.take(n)))
    }
}

/// Length of the terminated part of `bytes`.
pub fn terminated_len(bytes: &[u8]) -> (n: usize)
    ensures
        n == last_newline(bytes@) + 1,
        n <= bytes@.len(),
{
    let mut i = bytes.len();
    while i > 0 && bytes[i - 1] != 10
        invariant
            i <= bytes@.len(),
            forall|j: int| i <= j < bytes@.len() ==> bytes@[j] != 10u8,
        decreases i,
    {
        i = i - 1;
    }
    proof {
        lemma_last_newline_take(bytes@, i as int);
        lemma_last_newline_bounds(bytes@.take(i as int));
        if i > 0 {
            assert(bytes@.take(i as int).last() == 10u8);
        }
    }
    i
}

/// The terminated lines of a reply.
pub fn record_lines_of(bytes: &[u8]) -> (r: Vec<Vec<char>>)
    ensures
        r.deep_view() == record_lines(bytes@),
{
    let n = terminated_len(bytes);
    if n == 0 {
        let r: Vec<Vec<char>> = Vec::new();
        assert(r.deep_view() =~= Seq::<Seq<char>>::empty());
        return r;
    }
    let (head, _) = bytes.split_at(n);
    assert(head@ =~= bytes@.take(n as int));
    let text = from_utf8_lossy(head);
    let v = chars_of(text.as_str());
    lines_of(&v)
}

/// A test on one line of a reply.
pub enum LineRule {
    /// Not blank after trimming and not `[`-bracketed asynchronous chatter.
    Record,
    StartsWith(Seq<char>),
    Contains(Seq<char>),
    TrimmedStartsWith(Seq<char>),
    TrimmedIs(Seq<char>),
    /// Trimmed, starts with the first text and is not the second.
    TrimmedStartsWithBut(Seq<char>, Seq<char>),
    /// A `MACRO ` event line or a bare `NONE`.
    MacroOrNone,
    /// The given prefix, then exactly one canonical bank page in base64.
    SlotsPage(Seq<char>),
}

/// Whether `s` ends in `"=="`.
pub open spec fn ends_in_padding(s: Seq<char>) -> bool {
    s.len() >= 2 && s[s.len() - 1] == '=' && s[s.len() - 2] == '='
}

/// Whether `s` has the shape of a base64 bank page: `SLOTS_B64_BYTES` bytes
/// of UTF-8 ending in `"=="`.
pub open spec fn canonical_page_text(s: Seq<char>) -> bool {
    encode_utf8(s).len() == SLOTS_B64_BYTES && ends_in_padding(s)
}

pub open spec fn rule_holds(r: LineRule, l: Seq<char>) -> bool {
    match r {
        LineRule::Record => trim(l).len() > 0 && !(l.len() > 0 && l[0] == '['),
        LineRule::StartsWith(p) => p.is_prefix_of(l),
        LineRule::Contains(p) => contains(l, p),
        LineRule::TrimmedStartsWith(p) => p.is_prefix_of(trim(l)),
        LineRule::TrimmedIs(p) => trim(l) == p,
        LineRule::TrimmedStartsWithBut(p, q) => p.is_prefix_of(trim(l)) && trim(l) != q,
        LineRule::MacroOrNone => "MACRO "@.is_prefix_of(l) || trim(l) == "NONE"@,
        LineRule::SlotsPage(p) => p.is_prefix_of(l) && canonical_page_text(l.skip(p.len() as int)),
    }
}

/// Whether some line of `ls` passes `r`.
pub open spec fn any_rule(ls: Seq<Seq<char>>, r: LineRule) -> bool {
    exists|i: int| 0 <= i < ls.len() && #[trigger] rule_holds(r, ls[i])
}

/// A line test as the host runs it.
pub enum LineTest {
    Record,
    StartsWith(Vec<char>),
    Contains(Vec<char>),
    TrimmedStartsWith(Vec<char>),
    TrimmedIs(Vec<char>),
    TrimmedStartsWithBut(Vec<char>, Vec<char>),
    MacroOrNone,
    SlotsPage(Vec<char>),
}

impl LineTest {
    pub open spec fn rule(&self) -> LineRule {
        match self {
            LineTest::Record => LineRule::Record,
            LineTest::StartsWith(p) => LineRule::StartsWith(p@),
            LineTest::Contains(p) => LineRule::Contains(p@),
            LineTest::TrimmedStartsWith(p) => LineRule::TrimmedStartsWith(p@),
            LineTest::TrimmedIs(p) => LineRule::TrimmedIs(p@),
            LineTest::TrimmedStartsWithBut(p, q) => LineRule::TrimmedStartsWithBut(p@, q@),
            LineTest::MacroOrNone => LineRule::MacroOrNone,
            LineTest::SlotsPage(p) => LineRule::SlotsPage(p@),
        }
    }
}

proof fn lemma_encode_len(s: Seq<char>)
    ensures
        s.len() <= encode_utf8(s).len() <= 4 * s.len(),
    decreases s.len(),
{
    if s.len() > 0 {
        lemma_encode_len(s.drop_first());
    }
}

/// Whether the characters `s` form base64 page text of the canonical shape.
pub fn is_canonical_page_text(s: &Vec<char>) -> (b: bool)
    ensures
        b == canonical_page_text(s@),
{
    proof {
        lemma_encode_len(s@);
    }
    if s.len() > SLOTS_B64_BYTES {
        return false;
    }
    let text = string_from_chars(s);
    let n = text.as_str().len();
    n == SLOTS_B64_BYTES && s.len() >= 2 && s[s.len() - 1] == '=' && s[s.len() - 2] == '='
}

/// Runs one line test.
pub fn line_test(t: &LineTest, l: &Vec<char>) -> (b: bool)
    ensures
        b == rule_holds(t.rule(), l@),
{
    match t {
        LineTest::Record => {
            let tl = trimmed_chars(l);
            tl.len() > 0 && !(l.len() > 0 && l[0] == '[')
        },
        LineTest::StartsWith(p) => {
            let ps = string_from_chars(p);
            has_prefix(l, ps.as_str())
        },
        LineTest::Contains(p) => has_infix(l, p),
        LineTest::TrimmedStartsWith(p) => {
            let tl = trimmed_chars(l);
            let ps = string_from_chars(p);
            has_prefix(&tl, ps.as_str())
        },
        LineTest::TrimmedIs(p) => {
            let tl = trimmed_chars(l);
            let ps = string_from_chars(p);
            chars_are(&tl, ps.as_str())
        },
        LineTest::TrimmedStartsWithBut(p, q) => {
            let tl = trimmed_chars(l);
            let ps = string_from_chars(p);
            has_prefix(&tl, ps.as_str()) && !chars_eq(&tl, q)
        },
        LineTest::MacroOrNone => {
            if has_prefix(l, "MACRO ") {
                true
            } else {
                let tl = trimmed_chars(l);
                chars_are(&tl, "NONE")
            }
        },
        LineTest::SlotsPage(p) => {
            let ps = string_from_chars(p);
            if !has_prefix(l, ps.as_str()) {
                return false;
            }
            let rest = vec_range(l, p.len(), l.len());
            assert(rest@ =~= l@.skip(p@.len() as int));
            is_canonical_page_text(&rest)
        },
    }
}

/// Whether some line of `ls` passes `t`.
pub fn any_line(ls: &Vec<Vec<char>>, t: &LineTest) -> (b: bool)
    ensures
        b == any_rule(ls.deep_view(), t.rule()),
{
    let mut i: usize = 0;
    while i < ls.len()
        invariant
            i <= ls.len(),
            forall|j: int| 0 <= j < i ==> !#[trigger] rule_holds(t.rule(), ls.deep_view()[j]),
        decreases ls.len() - i,
    {
        proof {
            lemma_chars_deep(ls@[i as int]);
        }
        if line_test(t, &ls[i]) {
            assert(rule_holds(t.rule(), ls.deep_view()[i as int]));
            return true;
        }
        i = i + 1;
    }
    false
}

/// Whether a reply holds at least one terminated record: a line that is
/// neither blank nor `[`-bracketed chatter.
pub open spec fn has_record(b: Seq<u8>) -> bool {
    any_rule(record_lines(b), LineRule::Record)
}

/// True when the buffer holds at least one dongle record, so the reader may
/// stop early once the line goes idle.
pub fn has_record_line(bytes: &[u8]) -> (b: bool)
    ensures
        b == has_record(bytes@),
{
    let ls = record_lines_of(bytes);
    any_line(&ls, &LineTest::Record)
}

/// The first whitespace-separated word of `s`, or nothing.
pub open spec fn first_word(s: Seq<char>) -> Seq<char> {
    if words(s).len() > 0 {
        words(s)[0]
    } else {
        Seq::empty()
    }
}

/// The record that completes the reply to `slots write <bank> ..`.
pub open spec fn write_ack(bank: Seq<char>) -> Seq<char> {
    "OK bank="@ + bank + " verified"@
}

/// A reply to `pad info` is complete once a terminated line starts with
/// `INFO `, whatever else the buffer holds.
pub proof fn law_info_record_completes(b: Seq<u8>, i: int)
    requires
        0 <= i < record_lines(b).len(),
        "INFO "@.is_prefix_of(record_lines(b)[i]),
    ensures
        reply_complete("pad info"@, b),
{
    reveal_strlit("pad info");
    reveal_strlit("status");
    reveal_strlit("version");
    let ls = record_lines(b);
    assert(rule_holds(LineRule::StartsWith("INFO "@), ls[i]));
    assert(any_rule(ls, LineRule::StartsWith("INFO "@)));
    assert("pad info"@[0] == 'p' && "status"@[0] == 's' && "version"@[0] == 'v');
    assert("pad info"@ != "status"@);
    assert("pad info"@ != "version"@);
}

/// A terminated `ERR ` line completes the reply to any command, and a
/// buffer without a line break completes none.
pub proof fn law_err_completes_and_partial_waits(cmd: Seq<char>, b: Seq<u8>, i: int)
    ensures
        0 <= i < record_lines(b).len() && "ERR "@.is_prefix_of(record_lines(b)[i]) ==> reply_complete(cmd, b),
        (forall|j: int| 0 <= j < b.len() ==> b[j] != 10u8) ==> !reply_complete(cmd, b),
{
    if 0 <= i < record_lines(b).len() && "ERR "@.is_prefix_of(record_lines(b)[i]) {
        assert(rule_holds(LineRule::StartsWith("ERR "@), record_lines(b)[i]));
    }
    if forall|j: int| 0 <= j < b.len() ==> b[j] != 10u8 {
        lemma_no_newline(b);
        assert(record_lines(b).len() == 0);
    }
}

proof fn lemma_no_newline(b: Seq<u8>)
    requires
        forall|j: int| 0 <= j < b.len() ==> b[j] != 10u8,
    ensures
        last_newline(b) == -1,
    decreases b.len(),
{
    if b.len() > 0 {
        assert(b.last() == b[b.len() - 1]);
        lemma_no_newline(b.drop_last());
    }
}

/// A reply to `status` is complete once a terminated line holds
/// `ble_connected=`, and one to `version` once a terminated line, trimmed,
/// starts with `s3-dongle-validation `.
pub proof fn law_status_and_version_records_complete(b: Seq<u8>, i: int)
    requires
        0 <= i < record_lines(b).len(),
    ensures
        contains(record_lines(b)[i], "ble_connected="@) ==> reply_complete("status"@, b),
        "s3-dongle-validation "@.is_prefix_of(trim(record_lines(b)[i])) ==> reply_complete("version"@, b),
{
    reveal_strlit("status");
    reveal_strlit("version");
    assert("status"@[0] == 's' && "version"@[0] == 'v');
    assert("version"@ != "status"@);
    let ls = record_lines(b);
    if contains(ls[i], "ble_connected="@) {
        assert(rule_holds(LineRule::Contains("ble_connected="@), ls[i]));
    }
    if "s3-dongle-validation "@.is_prefix_of(trim(ls[i])) {
        assert(rule_holds(LineRule::TrimmedStartsWith("s3-dongle-validation "@), ls[i]));
    }
}

/// The fields of a status line that parses are each read from their own
/// key: the connection from `ble_connected`, and on a v0.3 line the slots
/// proxy from `slots_ready`, the macro proxy from `macro_ready` and the
/// bank from `bank`; on an older line only `slots_ready=1` counts and the
/// rest is off.
pub proof fn law_status_fields_from_own_keys(line: Seq<char>, bits: StatusBits)
    requires
        status_bits_of(line) == Ok::<StatusBits, Seq<char>>(bits),
    ensures
        status_flag(line, "ble_connected"@) == Some(bits.ble_connected),
        bits.protocol_v03 <==> status_value_of(line, "protocol"@) == Some("v0.3"@),
        bits.protocol_v03 ==> status_flag(line, "slots_ready"@) == Some(bits.slots_ready),
        bits.protocol_v03 ==> status_flag(line, "macro_ready"@) == Some(bits.macro_ready),
        bits.protocol_v03 ==> bank_of(status_value_of(line, "bank"@)) == Some(bits.selected_bank),
        !bits.protocol_v03 ==> bits.slots_ready == (status_flag(line, "slots_ready"@) == Some(true)),
        !bits.protocol_v03 ==> !bits.macro_ready && bits.selected_bank == 0,
{
}

/// Whether the reply `b` to `cmd` is complete: some terminated line is an
/// `ERR ` record, or the record that command waits for is there.
pub open spec fn reply_complete(cmd: Seq<char>, b: Seq<u8>) -> bool {
    let ls = record_lines(b);
    if any_rule(ls, LineRule::StartsWith("ERR "@)) {
        true
    } else if cmd == "status"@ {
        any_rule(ls, LineRule::Contains("ble_connected="@))
    } else if cmd == "version"@ {
        any_rule(ls, LineRule::TrimmedStartsWith("s3-dongle-validation "@))
    } else if cmd == "pad info"@ {
        any_rule(ls, LineRule::StartsWith("INFO "@))
    } else if cmd == "macro next"@ {
        any_rule(ls, LineRule::StartsWith("BANK "@)) && any_rule(ls, LineRule::MacroOrNone)
    } else if "slots read "@.is_prefix_of(cmd) {
        let bank = cmd.skip("slots read "@.len() as int);
        any_rule(ls, LineRule::SlotsPage("SLOTS "@ + bank + " "@))
    } else if "slots write "@.is_prefix_of(cmd) {
        let bank = first_word(cmd.skip("slots write "@.len() as int));
        any_rule(ls, LineRule::TrimmedIs(write_ack(bank)))
    } else {
        false
    }
}

/// Appends the characters of `s`.
pub fn append_str(v: &mut Vec<char>, s: &str)
    ensures
        final(v)@ == old(v)@ + s@,
{
    let mut t = chars_of(s);
    v.append(&mut t);
}

/// Appends the characters of `w`.
pub fn append_chars(v: &mut Vec<char>, w: &Vec<char>)
    ensures
        final(v)@ == old(v)@ + w@,
{
    let mut t = vec_range(w, 0, w.len());
    assert(w@.subrange(0, w@.len() as int) =~= w@);
    v.append(&mut t);
}

/// Whether the reply so far completes the command: only terminated lines
/// count, so a record cut mid-line never ends the read.
pub fn response_complete(cmd: &str, bytes: &[u8]) -> (b: bool)
    ensures
        b == reply_complete(cmd@, bytes@),
{
    let ls = record_lines_of(bytes);
    if any_line(&ls, &LineTest::StartsWith(chars_of("ERR "))) {
        return true;
    }
    let c = chars_of(cmd);
    if chars_are(&c, "status") {
        return any_line(&ls, &LineTest::Contains(chars_of("ble_connected=")));
    }
    if chars_are(&c, "version") {
        return any_line(&ls, &LineTest::TrimmedStartsWith(chars_of("s3-dongle-validation ")));
    }
    if chars_are(&c, "pad info") {
        return any_line(&ls, &LineTest::StartsWith(chars_of("INFO ")));
    }
    if chars_are(&c, "macro next") {
        let bank = any_line(&ls, &LineTest::StartsWith(chars_of("BANK ")));
        let event = any_line(&ls, &LineTest::MacroOrNone);
        return bank && event;
    }
    if has_prefix(&c, "slots read ") {
        let skip = chars_of("slots read ").len();
        let bank = vec_range(&c, skip, c.len());
        assert(bank@ =~= cmd@.skip("slots read "@.len() as int));
        let mut prefix = chars_of("SLOTS ");
        append_chars(&mut prefix, &bank);
        append_str(&mut prefix, " ");
        return any_line(&ls, &LineTest::SlotsPage(prefix));
    }
    if has_prefix(&c, "slots write ") {
        let skip = chars_of("slots write ").len();
        let rest = vec_range(&c, skip, c.len());
        assert(rest@ =~= cmd@.skip("slots write "@.len() as int));
        let ws = split_nonempty(&rest, &Sep::Space);
        let bank = if ws.len() > 0 {
            proof {
                lemma_chars_deep(ws@[0]);
            }
            ws[0].clone()
        } else {
            Vec::new()
        };
        assert(bank@ == first_word(rest@));
        let mut expected = chars_of("OK bank=");
        append_chars(&mut expected, &bank);
        append_str(&mut expected, " verified");
        return any_line(&ls, &LineTest::TrimmedIs(expected));
    }
    false
}

/// Bytes that arrive after the last line break change nothing until their
/// own line break comes: a reply cut mid-line is judged as if the cut part
/// had not arrived, both for completeness and for the early idle exit.
pub proof fn law_unterminated_tail_ignored(cmd: Seq<char>, b: Seq<u8>, tail: Seq<u8>)
    requires
        forall|j: int| 0 <= j < tail.len() ==> tail[j] != 10u8,
    ensures
        reply_complete(cmd, b + tail) == reply_complete(cmd, b),
        has_record(b + tail) == has_record(b),
{
    let all = b + tail;
    assert forall|j: int| b.len() <= j < all.len() implies all[j] != 10u8 by {
        assert(all[j] == tail[j - b.len()]);
    }
    lemma_last_newline_take(all, b.len() as int);
    assert(all.take(b.len() as int) =~= b);
    lemma_last_newline_bounds(b);
    let n = last_newline(b) + 1;
    assert(all.take(n) =~= b.take(n));
    assert(record_lines(all) == record_lines(b));
}

/// The first line of `ls` that passes `r`.
pub open spec fn first_match(ls: Seq<Seq<char>>, r: LineRule) -> Option<Seq<char>>
    decreases ls.len(),
{
    if ls.len() == 0 {
        None
    } else if rule_holds(r, ls[0]) {
        Some(ls[0])
    } else {
        first_match(ls.drop_first(), r)
    }
}

proof fn lemma_first_match_skip(ls: Seq<Seq<char>>, r: LineRule, i: int)
    requires
        0 <= i <= ls.len(),
        forall|j: int| 0 <= j < i ==> !#[trigger] rule_holds(r, ls[j]),
    ensures
        first_match(ls, r) == first_match(ls.skip(i), r),
    decreases i,
{
    if i == 0 {
        assert(ls.skip(0) =~= ls);
    } else {
        assert(!rule_holds(r, ls[0]));
        let t = ls.drop_first();
        assert forall|j: int| 0 <= j < i - 1 implies !#[trigger] rule_holds(r, t[j]) by {
            assert(t[j] == ls[j + 1]);
        }
        lemma_first_match_skip(t, r, i - 1);
        assert(t.skip(i - 1) =~= ls.skip(i));
    }
}

/// The first line of `ls` that passes `t`.
pub fn find_line(ls: &Vec<Vec<char>>, t: &LineTest) -> (r: Option<Vec<char>>)
    ensures
        match r {
            Some(l) => first_match(ls.deep_view(), t.rule()) == Some(l@) && rule_holds(t.rule(), l@),
            None => first_match(ls.deep_view(), t.rule()) is None,
        },
{
    let mut i: usize = 0;
    while i < ls.len()
        invariant
            i <= ls.len(),
            forall|j: int| 0 <= j < i ==> !#[trigger] rule_holds(t.rule(), ls.deep_view()[j]),
        decreases ls.len() - i,
    {
        proof {
            lemma_chars_deep(ls@[i as int]);
        }
        if line_test(t, &ls[i]) {
            let l = ls[i].clone();
            proof {
                lemma_chars_deep(l);
                lemma_first_match_skip(ls.deep_view(), t.rule(), i as int);
                assert(ls.deep_view().skip(i as int)[0] == ls.deep_view()[i as int]);
            }
            return Some(l);
        }
        i = i + 1;
    }
    proof {
        lemma_first_match_skip(ls.deep_view(), t.rule(), i as int);
        assert(ls.deep_view().skip(i as int).len() == 0);
    }
    None
}

/// Errors of the dongle link and of its replies.
#[derive(Debug)]
pub enum DongleError {
    Usb(rusb::Error),
    Serial(String),
    NotFound,
    Unavailable(String),
    Proto(String),
    Msg(String),
}

/// `rusb`'s error type, carried through as it is.
#[verifier::external_type_specification]
#[verifier::external_body]
pub struct ExUsbError(rusb::Error);

/// What the version check makes of a reply to `version`.
pub open spec fn version_verdict(resp: Seq<char>) -> Result<(), Seq<char>> {
    let ls = lines(resp);
    if !any_rule(ls, LineRule::TrimmedStartsWith("s3-dongle-validation "@)) {
        Err("missing dongle version record; expected "@ + debug_shown(EXPECTED_DONGLE_VERSION@) + " in: "@
            + resp)
    } else {
        match first_match(
            ls,
            LineRule::TrimmedStartsWithBut("s3-dongle-validation "@, EXPECTED_DONGLE_VERSION@),
        ) {
            Some(l) => Err("unsupported dongle version "@ + debug_shown(trim(l)) + "; expected "@
                + debug_shown(EXPECTED_DONGLE_VERSION@)),
            None => Ok(()),
        }
    }
}

/// Accepts a reply to `version` only when it holds a version record and
/// every version record is exactly [`EXPECTED_DONGLE_VERSION`].
pub fn validate_version_response(response: &str) -> (r: Result<(), DongleError>)
    ensures
        match r {
            Ok(()) => version_verdict(response@) is Ok,
            Err(DongleError::Proto(m)) => version_verdict(response@) == Err::<(), Seq<char>>(m@),
            Err(_) => false,
        },
{
    let v = chars_of(response);
    let ls = lines_of(&v);
    if !any_line(&ls, &LineTest::TrimmedStartsWith(chars_of("s3-dongle-validation "))) {
        let mut m = "missing dongle version record; expected ".to_string();
        let q = debug_quoted(EXPECTED_DONGLE_VERSION);
        push_all(&mut m, q.as_str());
        push_all(&mut m, " in: ");
        push_all(&mut m, response);
        return Err(DongleError::Proto(m));
    }
    let test = LineTest::TrimmedStartsWithBut(
        chars_of("s3-dongle-validation "),
        chars_of(EXPECTED_DONGLE_VERSION),
    );
    match find_line(&ls, &test) {
        Some(l) => {
            let t = trimmed_chars(&l);
            let ts = string_from_chars(&t);
            let mut m = "unsupported dongle version ".to_string();
            let q = debug_quoted(ts.as_str());
            push_all(&mut m, q.as_str());
            push_all(&mut m, "; expected ");
            let e = debug_quoted(EXPECTED_DONGLE_VERSION);
            push_all(&mut m, e.as_str());
            Err(DongleError::Proto(m))
        },
        None => Ok(()),
    }
}

/// The value of the first `key=value` word of a status line.
pub open spec fn status_value_of(line: Seq<char>, key: Seq<char>) -> Option<Seq<char>> {
    match first_match(words(line), LineRule::StartsWith(key + "="@)) {
        Some(w) => Some(w.skip((key + "="@).len() as int)),
        None => None,
    }
}

/// The value of the first `key=value` word of a status line.
pub fn status_value(line: &str, key: &str) -> (r: Option<String>)
    ensures
        match r {
            Some(v) => status_value_of(line@, key@) == Some(v@),
            None => status_value_of(line@, key@) is None,
        },
{
    let v = chars_of(line);
    let ws = split_nonempty(&v, &Sep::Space);
    let mut p = chars_of(key);
    append_str(&mut p, "=");
    let ghost pv = p@;
    let plen = p.len();
    match find_line(&ws, &LineTest::StartsWith(p)) {
        Some(w) => {
            let rest = vec_range(&w, plen, w.len());
            assert(rest@ =~= w@.skip(pv.len() as int));
            Some(string_from_chars(&rest))
        },
        None => None,
    }
}

/// A status flag: `0` is false, `1` is true, anything else or nothing is
/// no answer.
pub open spec fn status_flag(line: Seq<char>, key: Seq<char>) -> Option<bool> {
    match status_value_of(line, key) {
        Some(v) => if v == "0"@ {
            Some(false)
        } else if v == "1"@ {
            Some(true)
        } else {
            None
        },
        None => None,
    }
}

/// A status flag of a status line.
pub fn status_bool(line: &str, key: &str) -> (r: Option<bool>)
    ensures
        r == status_flag(line@, key@),
{
    match status_value(line, key) {
        Some(v) => {
            let c = chars_of(v.as_str());
            if chars_are(&c, "0") {
                Some(false)
            } else if chars_are(&c, "1") {
                Some(true)
            } else {
                None
            }
        },
        None => None,
    }
}

/// A bank number: a `u8` in decimal, below [`BANK_COUNT`].
pub open spec fn bank_of(v: Option<Seq<char>>) -> Option<u8> {
    match v {
        Some(t) => match parse_unsigned(t, 255) {
            Some(n) => if n < BANK_COUNT {
                Some(n as u8)
            } else {
                None
            },
            None => None,
        },
        None => None,
    }
}

fn parse_bank(v: &Vec<char>) -> (r: Option<u8>)
    ensures
        r == bank_of(Some(v@)),
{
    assert(v@.subrange(0, v@.len() as int) =~= v@);
    match parse_unsigned_range(v, 0, v.len(), 255) {
        Some(n) => if (n as usize) < BANK_COUNT {
            Some(n as u8)
        } else {
            None
        },
        None => None,
    }
}

/// The fields of the dongle's status line.
#[derive(Debug, Clone, Copy, PartialEq, Eq, Structural)]
pub struct StatusBits {
    pub ble_connected: bool,
    pub slots_ready: bool,
    pub macro_ready: bool,
    pub protocol_v03: bool,
    pub selected_bank: u8,
}

/// What a status line says. `ble_connected` must be a flag; a line without
/// `protocol=v0.3` is a v0.2 dongle, reported as such with what it has; a
/// v0.3 line must carry a bank and both readiness flags.
pub open spec fn status_bits_of(line: Seq<char>) -> Result<StatusBits, Seq<char>> {
    match status_flag(line, "ble_connected"@) {
        None => Err("invalid/missing ble_connected in status: "@ + line),
        Some(c) => if status_value_of(line, "protocol"@) != Some("v0.3"@) {
            Ok(
                StatusBits {
                    ble_connected: c,
                    slots_ready: status_flag(line, "slots_ready"@) == Some(true),
                    macro_ready: false,
                    protocol_v03: false,
                    selected_bank: 0,
                },
            )
        } else {
            match bank_of(status_value_of(line, "bank"@)) {
                None => Err("invalid/missing bank in status: "@ + line),
                Some(b) => match status_flag(line, "slots_ready"@) {
                    None => Err("invalid/missing slots_ready in status: "@ + line),
                    Some(sr) => match status_flag(line, "macro_ready"@) {
                        None => Err("invalid/missing macro_ready in status: "@ + line),
                        Some(mr) => Ok(
                            StatusBits {
                                ble_connected: c,
                                slots_ready: sr,
                                macro_ready: mr,
                                protocol_v03: true,
                                selected_bank: b,
                            },
                        ),
                    },
                },
            }
        },
    }
}

/// `prefix` followed by `line`, as a protocol error.
fn proto_error(prefix: &str, line: &str) -> (e: DongleError)
    ensures
        e matches DongleError::Proto(m) && m@ == prefix@ + line@,
{
    let mut m = prefix.to_string();
    push_all(&mut m, line);
    DongleError::Proto(m)
}

impl StatusBits {
    /// Reads a status line.
    pub fn parse(line: &str) -> (r: Result<StatusBits, DongleError>)
        ensures
            match r {
                Ok(b) => status_bits_of(line@) == Ok::<StatusBits, Seq<char>>(b),
                Err(DongleError::Proto(m)) => status_bits_of(line@) == Err::<StatusBits, Seq<char>>(m@),
                Err(_) => false,
            },
    {
        let ble_connected = match status_bool(line, "ble_connected") {
            Some(c) => c,
            None => return Err(proto_error("invalid/missing ble_connected in status: ", line)),
        };
        let protocol_v03 = match status_value(line, "protocol") {
            Some(p) => {
                let pc = chars_of(p.as_str());
                chars_are(&pc, "v0.3")
            },
            None => false,
        };
        if !protocol_v03 {
            let slots_ready = match status_bool(line, "slots_ready") {
                Some(b) => b,
                None => false,
            };
            return Ok(
                StatusBits {
                    ble_connected,
                    slots_ready,
                    macro_ready: false,
                    protocol_v03: false,
                    selected_bank: 0,
                },
            );
        }
        let selected_bank = match status_value(line, "bank") {
            Some(b) => {
                let bc = chars_of(b.as_str());
                parse_bank(&bc)
            },
            None => None,
        };
        let selected_bank = match selected_bank {
            Some(b) => b,
            None => return Err(proto_error("invalid/missing bank in status: ", line)),
        };
        let slots_ready = match status_bool(line, "slots_ready") {
            Some(b) => b,
            None => return Err(proto_error("invalid/missing slots_ready in status: ", line)),
        };
        let macro_ready = match status_bool(line, "macro_ready") {
            Some(b) => b,
            None => return Err(proto_error("invalid/missing macro_ready in status: ", line)),
        };
        Ok(StatusBits { ble_connected, slots_ready, macro_ready, protocol_v03: true, selected_bank })
    }
}

/// What a reply to `status` says: its first line with `ble_connected=`,
/// read as a status line.
pub open spec fn status_reply(resp: Seq<char>) -> Result<StatusBits, Seq<char>> {
    match first_match(lines(resp), LineRule::Contains("ble_connected="@)) {
        None => Err("no status line in: "@ + resp),
        Some(l) => status_bits_of(l),
    }
}

/// Reads the reply to `status`.
pub fn parse_status_reply(resp: &str) -> (r: Result<StatusBits, DongleError>)
    ensures
        match r {
            Ok(b) => status_reply(resp@) == Ok::<StatusBits, Seq<char>>(b),
            Err(DongleError::Proto(m)) => status_reply(resp@) == Err::<StatusBits, Seq<char>>(m@),
            Err(_) => false,
        },
{
    let v = chars_of(resp);
    let ls = lines_of(&v);
    match find_line(&ls, &LineTest::Contains(chars_of("ble_connected="))) {
        None => Err(proto_error("no status line in: ", resp)),
        Some(l) => {
            let line = string_from_chars(&l);
            StatusBits::parse(line.as_str())
        },
    }
}

/// The message for a bank number past the last.
pub open spec fn bank_range_message(bank: u8) -> Seq<char> {
    "bank "@ + decimal(bank as nat) + " outside 0.."@ + decimal((BANK_COUNT - 1) as nat)
}

/// Accepts the bank numbers the pad has.
pub fn validate_bank(bank: u8) -> (r: Result<(), DongleError>)
    ensures
        (bank as usize) < BANK_COUNT <==> r is Ok,
        r matches Err(e) ==> (e matches DongleError::Proto(m) && m@ == bank_range_message(bank)),
{
    if bank as usize >= BANK_COUNT {
        let mut m = "bank ".to_string();
        push_decimal(&mut m, bank as u64);
        push_all(&mut m, " outside 0..");
        push_decimal(&mut m, (BANK_COUNT - 1) as u64);
        return Err(DongleError::Proto(m));
    }
    Ok(())
}

/// The Info string the pad firmware this host was validated with reports.
pub const EXPECTED_PAD_INFO: &'static str = "Cyberdeck Pad Hybrid v0.3.1";

/// `{:?}` of an optional string.
pub open spec fn debug_opt_str(o: Option<String>) -> Seq<char> {
    match o {
        Some(s) => "Some("@ + debug_shown(s@) + ")"@,
        None => "None"@,
    }
}

/// `{:?}` of an optional flag.
pub open spec fn debug_opt_bool(o: Option<bool>) -> Seq<char> {
    match o {
        Some(true) => "Some(true)"@,
        Some(false) => "Some(false)"@,
        None => "None"@,
    }
}

fn debug_opt_string(o: &Option<String>) -> (r: String)
    ensures
        r@ == debug_opt_str(*o),
{
    match o {
        Some(s) => {
            let mut r = "Some(".to_string();
            let q = debug_quoted(s.as_str());
            push_all(&mut r, q.as_str());
            push_all(&mut r, ")");
            r
        },
        None => "None".to_string(),
    }
}

fn debug_opt_flag(o: Option<bool>) -> (r: String)
    ensures
        r@ == debug_opt_bool(o),
{
    match o {
        Some(true) => "Some(true)".to_string(),
        Some(false) => "Some(false)".to_string(),
        None => "None".to_string(),
    }
}

/// What the pairing gate answers for a status: the selected bank when the
/// link is up, the pad reports [`EXPECTED_PAD_INFO`], the protocol is v0.3,
/// both subscriptions are ready and the bank is in range; else the first
/// failed condition, prefixed with the phase.
pub open spec fn pair_verdict(s: PadStatus, phase: Seq<char>) -> Result<u8, Seq<char>> {
    if !s.connected {
        Err(phase + ": S3 is not connected to the C6"@)
    } else if !(s.info matches Some(i) && i@ == EXPECTED_PAD_INFO@) {
        Err(phase + ": pad info mismatch: got "@ + debug_opt_str(s.info) + ", expected "@ + debug_shown(
            EXPECTED_PAD_INFO@,
        ))
    } else if s.protocol_compatible != Some(true) {
        Err(phase + ": protocol is not v0.3-compatible: "@ + debug_opt_bool(s.protocol_compatible))
    } else if s.slots_ready != Some(true) {
        Err(phase + ": slots subscription is not ready: "@ + debug_opt_bool(s.slots_ready))
    } else if s.macro_ready != Some(true) {
        Err(phase + ": macro subscription is not ready: "@ + debug_opt_bool(s.macro_ready))
    } else {
        match s.selected_bank {
            Some(b) => if (b as usize) < BANK_COUNT {
                Ok(b)
            } else {
                Err(phase + ": selected bank is missing or out of range"@)
            },
            None => Err(phase + ": selected bank is missing or out of range"@),
        }
    }
}

fn phase_message(phase: &str, text: &str) -> (r: String)
    ensures
        r@ == phase@ + text@,
{
    let mut m = phase.to_string();
    push_all(&mut m, text);
    m
}

/// The readiness gate a bank sweep passes before it touches the pad.
pub fn require_pair_ready(status: &PadStatus, phase: &str) -> (r: Result<u8, String>)
    ensures
        match r {
            Ok(b) => pair_verdict(*status, phase@) == Ok::<u8, Seq<char>>(b),
            Err(m) => pair_verdict(*status, phase@) == Err::<u8, Seq<char>>(m@),
        },
{
    if !status.connected {
        return Err(phase_message(phase, ": S3 is not connected to the C6"));
    }
    let info_ok = match &status.info {
        Some(i) => {
            let ic = chars_of(i.as_str());
            chars_are(&ic, EXPECTED_PAD_INFO)
        },
        None => false,
    };
    if !info_ok {
        let mut m = phase_message(phase, ": pad info mismatch: got ");
        let got = debug_opt_string(&status.info);
        push_all(&mut m, got.as_str());
        push_all(&mut m, ", expected ");
        let want = debug_quoted(EXPECTED_PAD_INFO);
        push_all(&mut m, want.as_str());
        return Err(m);
    }
    if status.protocol_compatible != Some(true) {
        let mut m = phase_message(phase, ": protocol is not v0.3-compatible: ");
        let d = debug_opt_flag(status.protocol_compatible);
        push_all(&mut m, d.as_str());
        return Err(m);
    }
    if status.slots_ready != Some(true) {
        let mut m = phase_message(phase, ": slots subscription is not ready: ");
        let d = debug_opt_flag(status.slots_ready);
        push_all(&mut m, d.as_str());
        return Err(m);
    }
    if status.macro_ready != Some(true) {
        let mut m = phase_message(phase, ": macro subscription is not ready: ");
        let d = debug_opt_flag(status.macro_ready);
        push_all(&mut m, d.as_str());
        return Err(m);
    }
    match status.selected_bank {
        Some(b) => if (b as usize) < BANK_COUNT {
            Ok(b)
        } else {
            Err(phase_message(phase, ": selected bank is missing or out of range"))
        },
        None => Err(phase_message(phase, ": selected bank is missing or out of range")),
    }
}

/// One answer to `macro next`: the bank the pad shows and the event, if a
/// button was pressed.
#[derive(Debug, Clone, Copy, PartialEq, Eq, Structural)]
pub struct DonglePoll {
    pub selected_bank: u8,
    pub macro_event: Option<MacroEvent>,
}

/// Each word read as a `u8`; the first that is not one ends the reading
/// with its parse error.
pub open spec fn parse_all_u8(ws: Seq<Seq<char>>) -> Result<Seq<u8>, Seq<char>>
    decreases ws.len(),
{
    if ws.len() == 0 {
        Ok(Seq::empty())
    } else {
        match parse_unsigned(ws[0], 255) {
            None => Err(u8_parse_error(ws[0])),
            Some(n) => match parse_all_u8(ws.drop_first()) {
                Ok(rest) => Ok(seq![n as u8] + rest),
                Err(e) => Err(e),
            },
        }
    }
}

fn parse_words_u8(ws: &Vec<Vec<char>>) -> (r: Result<Vec<u8>, String>)
    ensures
        match r {
            Ok(v) => parse_all_u8(ws.deep_view()) == Ok::<Seq<u8>, Seq<char>>(v@),
            Err(e) => parse_all_u8(ws.deep_view()) == Err::<Seq<u8>, Seq<char>>(e@),
        },
{
    let mut out: Vec<u8> = Vec::new();
    let mut i: usize = 0;
    let ghost all = ws.deep_view();
    assert(all.skip(0) =~= all);
    while i < ws.len()
        invariant
            i <= ws.len(),
            all == ws.deep_view(),
            parse_all_u8(all) == match parse_all_u8(all.skip(i as int)) {
                Ok(rest) => Ok::<Seq<u8>, Seq<char>>(out@ + rest),
                Err(e) => Err(e),
            },
        decreases ws.len() - i,
    {
        proof {
            lemma_chars_deep(ws@[i as int]);
            assert(all.skip(i as int)[0] == all[i as int]);
            assert(all.skip(i as int).drop_first() =~= all.skip(i + 1));
        }
        let w = string_from_chars(&ws[i]);
        match parse_u8_decimal(w.as_str()) {
            Ok(n) => {
                let ghost before = out@;
                out.push(n);
                proof {
                    match parse_all_u8(all.skip(i + 1)) {
                        Ok(rest) => {
                            assert(before + (seq![n] + rest) =~= out@ + rest);
                        },
                        Err(_) => {},
                    }
                }
            },
            Err(e) => {
                return Err(e);
            },
        }
        i = i + 1;
    }
    assert(all.skip(i as int) =~= Seq::<Seq<char>>::empty());
    assert(out@ + Seq::<u8>::empty() =~= out@);
    Ok(out)
}

/// What a reply to `macro next` says: the first `BANK ` line must name a
/// bank; the first `MACRO ` line, if any, must hold exactly three bytes that
/// form an event; without one a `NONE` line means no press.
pub open spec fn poll_reply(resp: Seq<char>) -> Result<(u8, Option<MacroEvent>), Seq<char>> {
    let ls = lines(resp);
    let bank = match first_match(ls, LineRule::StartsWith("BANK "@)) {
        Some(l) => bank_of(Some(trim(l.skip("BANK "@.len() as int)))),
        None => None,
    };
    match bank {
        None => Err("no valid BANK line in: "@ + resp),
        Some(b) => match first_match(ls, LineRule::StartsWith("MACRO "@)) {
            Some(l) => match parse_all_u8(words(l.skip("MACRO "@.len() as int))) {
                Err(e) => Err("bad macro event: "@ + e),
                Ok(vals) => if vals.len() != 3 {
                    Err("bad macro event: "@ + l)
                } else {
                    match macro_event_of(vals) {
                        None => Err("invalid macro event: "@ + l),
                        Some(ev) => Ok((b, Some(ev))),
                    }
                },
            },
            None => if any_rule(ls, LineRule::TrimmedIs("NONE"@)) {
                Ok((b, None))
            } else {
                Err("no macro response in: "@ + resp)
            },
        },
    }
}

/// Reads the reply to `macro next`.
pub fn parse_poll_reply(resp: &str) -> (r: Result<DonglePoll, DongleError>)
    ensures
        match r {
            Ok(p) => poll_reply(resp@) == Ok::<(u8, Option<MacroEvent>), Seq<char>>(
                (p.selected_bank, p.macro_event),
            ),
            Err(DongleError::Proto(m)) => poll_reply(resp@) == Err::<(u8, Option<MacroEvent>), Seq<char>>(
                m@,
            ),
            Err(_) => false,
        },
{
    let v = chars_of(resp);
    let ls = lines_of(&v);
    let bank = match find_line(&ls, &LineTest::StartsWith(chars_of("BANK "))) {
        Some(l) => {
            let skip = chars_of("BANK ").len();
            let rest = vec_range(&l, skip, l.len());
            assert(rest@ =~= l@.skip("BANK "@.len() as int));
            let t = trimmed_chars(&rest);
            parse_bank(&t)
        },
        None => None,
    };
    let selected_bank = match bank {
        Some(b) => b,
        None => return Err(proto_error("no valid BANK line in: ", resp)),
    };
    match find_line(&ls, &LineTest::StartsWith(chars_of("MACRO "))) {
        Some(l) => {
            let skip = chars_of("MACRO ").len();
            let rest = vec_range(&l, skip, l.len());
            assert(rest@ =~= l@.skip("MACRO "@.len() as int));
            let ws = split_nonempty(&rest, &Sep::Space);
            let line = string_from_chars(&l);
            let values = match parse_words_u8(&ws) {
                Ok(vals) => vals,
                Err(e) => return Err(proto_error("bad macro event: ", e.as_str())),
            };
            if values.len() != 3 {
                return Err(proto_error("bad macro event: ", line.as_str()));
            }
            match MacroEvent::from_bytes(values.as_slice()) {
                Some(ev) => Ok(DonglePoll { selected_bank, macro_event: Some(ev) }),
                None => Err(proto_error("invalid macro event: ", line.as_str())),
            }
        },
        None => {
            if any_line(&ls, &LineTest::TrimmedIs(chars_of("NONE"))) {
                Ok(DonglePoll { selected_bank, macro_event: None })
            } else {
                Err(proto_error("no macro response in: ", resp))
            }
        },
    }
}

/// What the standard base64 engine decodes from `input`: the bytes, or the
/// display text of its error.
pub uninterp spec fn base64_standard_decode(input: Seq<u8>) -> Result<Seq<u8>, Seq<char>>;

/// The standard base64 alphabet: `A`-`Z`, `a`-`z`, `0`-`9`, `+`, `/`.
pub open spec fn b64_symbol(n: int) -> char {
    if n < 26 {
        ('A' as int + n) as char
    } else if n < 52 {
        ('a' as int + n - 26) as char
    } else if n < 62 {
        ('0' as int + n - 52) as char
    } else if n == 62 {
        '+'
    } else {
        '/'
    }
}

/// Standard padded base64: every three bytes become four symbols of six
/// bits each; a last group of one or two bytes is padded with `=` to four.
pub open spec fn standard_base64(b: Seq<u8>) -> Seq<char>
    decreases b.len(),
{
    if b.len() == 0 {
        Seq::empty()
    } else if b.len() == 1 {
        seq![b64_symbol((b[0] as int) / 4), b64_symbol(((b[0] as int) % 4) * 16), '=', '=']
    } else if b.len() == 2 {
        seq![b64_symbol((b[0] as int) / 4), b64_symbol(((b[0] as int) % 4) * 16 + (b[1] as int) / 16), b64_symbol(((b[1] as int) % 16) * 4), '=']
    } else {
        seq![
            b64_symbol((b[0] as int) / 4),
            b64_symbol(((b[0] as int) % 4) * 16 + (b[1] as int) / 16),
            b64_symbol(((b[1] as int) % 16) * 4 + (b[2] as int) / 64),
            b64_symbol((b[2] as int) % 64),
        ] + standard_base64(b.skip(3))
    }
}

/// `base64::engine::general_purpose::STANDARD.decode`, its error as
/// display text. The UTF-8 bytes of the standard encoding of some bytes
/// decode back to those bytes.
#[verifier::external_body]
fn b64_decode(input: &[u8]) -> (r: Result<Vec<u8>, String>)
    ensures
        match r {
            Ok(v) => base64_standard_decode(input@) == Ok::<Seq<u8>, Seq<char>>(v@),
            Err(e) => base64_standard_decode(input@) == Err::<Seq<u8>, Seq<char>>(e@),
        },
        r matches Ok(out) ==> forall|v: Seq<u8>| input@ == encode_utf8(#[trigger] standard_base64(v)) ==> out@ == v,
        r is Err ==> forall|v: Seq<u8>| input@ != encode_utf8(#[trigger] standard_base64(v)),
{
    match base64::engine::general_purpose::STANDARD.decode(input) {
        Ok(v) => Ok(v),
        Err(e) => Err(e.to_string()),
    }
}

/// `base64::engine::general_purpose::STANDARD.encode`: standard padded
/// base64. It panics only when the encoded length overflows `usize`, which
/// the bound rules out.
#[verifier::external_body]
fn b64_encode(input: &[u8]) -> (r: String)
    requires
        input@.len() / 3 * 4 + 4 <= usize::MAX,
    ensures
        r@ == standard_base64(input@),
{
    base64::engine::general_purpose::STANDARD.encode(input)
}

/// The prefix of the record that carries bank `bank`'s page.
pub open spec fn slots_prefix(bank: u8) -> Seq<char> {
    "SLOTS "@ + decimal(bank as nat) + " "@
}

/// What the table of a decoded page is, as [`PadSlots::unpack_bank`] reads
/// it for a bank in range: the page must be long enough and for that bank.
pub open spec fn page_table(raw: Seq<u8>, bank: u8) -> Result<Seq<SlotView>, Seq<char>> {
    if raw.len() < SLOTS_PAGE_BYTES {
        Err(ble_error_text(BleError::BadSlotsLen { got: raw.len() as usize }))
    } else if raw[0] != bank {
        Err(ble_error_text(BleError::BadIndex))
    } else {
        Ok(unpack_table(raw.drop_first()))
    }
}

/// How a read of bank `bank` fails before its page is decoded, or the
/// base64 text it carries.
pub open spec fn slots_reply_text(resp: Seq<char>, bank: u8) -> Result<Seq<char>, Seq<char>> {
    if !((bank as usize) < BANK_COUNT) {
        Err(bank_range_message(bank))
    } else {
        match first_match(lines(resp), LineRule::StartsWith(slots_prefix(bank))) {
            None => Err("no bank "@ + decimal(bank as nat) + " SLOTS line in: "@ + resp),
            Some(l) => {
                let t = trim(l.skip(slots_prefix(bank).len() as int));
                if !canonical_page_text(t) {
                    Err("bank "@ + decimal(bank as nat) + " SLOTS base64 length/padding is not canonical"@)
                } else {
                    Ok(t)
                }
            },
        }
    }
}

/// Reads bank `bank`'s slot table from the reply to `slots read <bank>`.
/// Every error is a protocol error but the codec's, which is a message.
pub fn parse_slots_reply(resp: &str, bank: u8) -> (r: Result<PadSlots, DongleError>)
    ensures
        match slots_reply_text(resp@, bank) {
            Err(m) => r matches Err(DongleError::Proto(e)) && e@ == m,
            Ok(t) => match base64_standard_decode(encode_utf8(t)) {
                Err(m) => r matches Err(DongleError::Proto(e)) && e@ == "b64: "@ + m,
                Ok(raw) => match page_table(raw, bank) {
                    Err(m) => r matches Err(DongleError::Msg(e)) && e@ == m,
                    Ok(table) => r matches Ok(p) && p.table() == table,
                },
            },
        },
        forall|v: Seq<u8>| slots_reply_text(resp@, bank) == Ok::<Seq<char>, Seq<char>>(#[trigger] standard_base64(v))
            ==> match page_table(v, bank) {
            Err(m) => r matches Err(DongleError::Msg(e)) && e@ == m,
            Ok(table) => r matches Ok(p) && p.table() == table,
        },
{
    validate_bank(bank)?;
    let v = chars_of(resp);
    let ls = lines_of(&v);
    let mut prefix = chars_of("SLOTS ");
    let mut num = String::new();
    push_decimal(&mut num, bank as u64);
    append_str(&mut prefix, num.as_str());
    append_str(&mut prefix, " ");
    let ghost pv = prefix@;
    let plen = prefix.len();
    let line = match find_line(&ls, &LineTest::StartsWith(prefix)) {
        Some(l) => l,
        None => {
            let mut m = "no bank ".to_string();
            push_all(&mut m, num.as_str());
            push_all(&mut m, " SLOTS line in: ");
            push_all(&mut m, resp);
            return Err(DongleError::Proto(m));
        },
    };
    let rest = vec_range(&line, plen, line.len());
    assert(rest@ =~= line@.skip(pv.len() as int));
    let t = trimmed_chars(&rest);
    if !is_canonical_page_text(&t) {
        let mut m = "bank ".to_string();
        push_all(&mut m, num.as_str());
        push_all(&mut m, " SLOTS base64 length/padding is not canonical");
        return Err(DongleError::Proto(m));
    }
    let text = string_from_chars(&t);
    let raw = match b64_decode(text.as_str().as_bytes()) {
        Ok(raw) => raw,
        Err(e) => {
            let mut m = "b64: ".to_string();
            push_all(&mut m, e.as_str());
            return Err(DongleError::Proto(m));
        },
    };
    match PadSlots::unpack_bank(raw.as_slice(), bank) {
        Ok(p) => Ok(p),
        Err(e) => Err(DongleError::Msg(e.message())),
    }
}

/// The command that writes `page` to bank `bank`: `slots write <bank>
/// <base64 of the bank page>`. Errors as [`validate_bank`] and
/// [`PadSlots::pack_bank`] give them.
pub fn slots_write_command(bank: u8, page: &PadSlots) -> (r: Result<String, DongleError>)
    requires
        page.slots.len() * SLOT_BYTES <= usize::MAX,
    ensures
        !((bank as usize) < BANK_COUNT) ==> (r matches Err(DongleError::Proto(m)) && m@
            == bank_range_message(bank)),
        (bank as usize) < BANK_COUNT && page.slots.len() != SLOT_COUNT ==> (r matches Err(
            DongleError::Msg(m),
        ) && m@ == ble_error_text(
            BleError::BadSlotsLen { got: (page.slots.len() * SLOT_BYTES) as usize },
        )),
        (bank as usize) < BANK_COUNT && page.slots.len() == SLOT_COUNT ==> (r matches Ok(c) && c@
            == "slots write "@ + decimal(bank as nat) + " "@ + standard_base64(
            pack_page(bank, page.table()),
        )),
{
    validate_bank(bank)?;
    let packed = match page.pack_bank(bank) {
        Ok(p) => p,
        Err(e) => return Err(DongleError::Msg(e.message())),
    };
    proof {
        lemma_pack_table_len(page.table());
    }
    let b64 = b64_encode(packed.as_slice());
    let mut c = "slots write ".to_string();
    push_decimal(&mut c, bank as u64);
    push_all(&mut c, " ");
    push_all(&mut c, b64.as_str());
    Ok(c)
}

/// A character of standard base64 text: a symbol of the alphabet or `=`.
pub open spec fn b64_text_char(c: char) -> bool {
    ('A' <= c && c <= 'Z') || ('a' <= c && c <= 'z') || ('0' <= c && c <= '9') || c == '+' || c == '/' || c == '='
}

proof fn lemma_b64_symbol(n: int)
    requires
        0 <= n < 64,
    ensures
        b64_text_char(b64_symbol(n)),
        b64_symbol(n) != '=',
{
}

/// Standard base64 text: four characters for every started three bytes,
/// all of them symbols or `=`, and a last group of one byte ends in `==`.
proof fn lemma_b64_shape(b: Seq<u8>)
    ensures
        standard_base64(b).len() == (b.len() + 2) / 3 * 4,
        forall|i: int| 0 <= i < standard_base64(b).len() ==> b64_text_char(#[trigger] standard_base64(b)[i]),
        b.len() > 0 ==> standard_base64(b)[0] != '=',
        b.len() % 3 == 1 ==> ends_in_padding(standard_base64(b)),
    decreases b.len(),
{
    let e = standard_base64(b);
    if b.len() == 0 {
    } else {
        let b0 = b[0] as int;
        lemma_b64_symbol(b0 / 4);
        if b.len() == 1 {
            lemma_b64_symbol((b0 % 4) * 16);
        } else {
            let b1 = b[1] as int;
            lemma_b64_symbol((b0 % 4) * 16 + b1 / 16);
            if b.len() == 2 {
                lemma_b64_symbol((b1 % 16) * 4);
            } else {
                let b2 = b[2] as int;
                lemma_b64_symbol((b1 % 16) * 4 + b2 / 64);
                lemma_b64_symbol(b2 % 64);
                let rest = b.skip(3);
                lemma_b64_shape(rest);
                let head = seq![
                    b64_symbol(b0 / 4),
                    b64_symbol((b0 % 4) * 16 + b1 / 16),
                    b64_symbol((b1 % 16) * 4 + b2 / 64),
                    b64_symbol(b2 % 64),
                ];
                assert(e == head + standard_base64(rest));
                assert forall|i: int| 0 <= i < e.len() implies b64_text_char(#[trigger] e[i]) by {
                    if i >= 4 {
                        assert(e[i] == standard_base64(rest)[i - 4]);
                    }
                }
                if b.len() % 3 == 1 {
                    assert(rest.len() % 3 == 1);
                    assert(e[e.len() - 1] == standard_base64(rest)[standard_base64(rest).len() - 1]);
                    assert(e[e.len() - 2] == standard_base64(rest)[standard_base64(rest).len() - 2]);
                }
            }
        }
    }
}

/// Text without a line break is one line.
proof fn lemma_one_line(s: Seq<char>)
    requires
        s.len() > 0,
        forall|i: int| 0 <= i < s.len() ==> #[trigger] s[i] != '\n',
    ensures
        lines(s) == seq![s],
{
    lemma_split_no_break(s);
    assert(split_on(s, Sep::Char('\n')).drop_last() =~= Seq::<Seq<char>>::empty());
    assert(split_on(s, Sep::Char('\n')).drop_last().map_values(|x: Seq<char>| crate::text::strip_cr(x))
        =~= Seq::<Seq<char>>::empty());
}

proof fn lemma_split_no_break(s: Seq<char>)
    requires
        forall|i: int| 0 <= i < s.len() ==> #[trigger] s[i] != '\n',
    ensures
        split_on(s, Sep::Char('\n')) == seq![s],
    decreases s.len(),
{
    if s.len() > 0 {
        lemma_split_no_break(s.drop_last());
        assert(s.last() != '\n');
        assert(s.drop_last().push(s.last()) =~= s);
        assert(seq![s.drop_last()].update(0, s.drop_last().push(s.last())) =~= seq![s]);
    } else {
        assert(s =~= Seq::<char>::empty());
    }
}

/// A page written as `SLOTS <bank> <base64>` reads back as the table that
/// was packed: the reply passes every check before decoding, carries the
/// standard base64 of the page, and the page holds the table. With
/// [`parse_slots_reply`]'s contract this says that a bank page written and
/// read back through the dongle is unchanged.
pub proof fn law_page_read_back(bank: u8, t: Seq<SlotView>)
    requires
        (bank as usize) < BANK_COUNT,
        t.len() == SLOT_COUNT,
        forall|i: int| 0 <= i < t.len() ==> slot_fits(#[trigger] t[i]),
    ensures
        slots_reply_text(slots_prefix(bank) + standard_base64(pack_page(bank, t)), bank)
            == Ok::<Seq<char>, Seq<char>>(standard_base64(pack_page(bank, t))),
        page_table(pack_page(bank, t), bank) == Ok::<Seq<SlotView>, Seq<char>>(t),
{
    let page = pack_page(bank, t);
    lemma_pack_table_len(t);
    assert(page.len() == SLOTS_PAGE_BYTES);
    law_page_roundtrip(bank, t);
    let enc = standard_base64(page);
    lemma_b64_shape(page);
    assert(enc.len() == SLOTS_B64_BYTES);
    let p = slots_prefix(bank);
    reveal_strlit("SLOTS ");
    reveal_strlit(" ");
    assert(decimal(bank as nat) == seq![digit_char(bank as nat)]);
    assert(p.len() == 8);
    let resp = p + enc;
    assert forall|i: int| 0 <= i < resp.len() implies #[trigger] resp[i] != '\n' by {
        if i >= p.len() {
            assert(resp[i] == enc[i - p.len()]);
            assert(b64_text_char(enc[i - p.len()]));
        }
    }
    lemma_one_line(resp);
    assert(p.is_prefix_of(resp));
    assert(rule_holds(LineRule::StartsWith(p), resp));
    assert(first_match(lines(resp), LineRule::StartsWith(p)) == Some(resp));
    assert(resp.skip(p.len() as int) =~= enc);
    assert(!is_ws(enc[0])) by {
        assert(b64_text_char(enc[0]));
    }
    assert(!is_ws(enc.last())) by {
        assert(enc.last() == '=');
    }
    assert(trim_start(enc) == enc);
    assert(trim_end(enc) == enc);
    assert(trim(enc) == enc);
    assert(ascii_text(enc)) by {
        assert forall|i: int| 0 <= i < enc.len() implies (#[trigger] enc[i] as u32) < 128 by {
            assert(b64_text_char(enc[i]));
        }
    }
    lemma_ascii_encode_take(enc, enc.len() as int);
    assert(canonical_page_text(enc));
    assert(page.drop_first() == pack_page(bank, t).drop_first());
}

/// Accepts the reply to a bank write only when a line, trimmed, is
/// `OK bank=<bank> verified`.
pub fn check_write_reply(resp: &str, bank: u8) -> (r: Result<(), DongleError>)
    ensures
        any_rule(lines(resp@), LineRule::TrimmedIs(write_ack(decimal(bank as nat)))) <==> r is Ok,
        r matches Err(e) ==> (e matches DongleError::Proto(m) && m@ == "write failed: "@ + resp@),
{
    let v = chars_of(resp);
    let ls = lines_of(&v);
    let mut num = String::new();
    push_decimal(&mut num, bank as u64);
    let mut expected = chars_of("OK bank=");
    append_str(&mut expected, num.as_str());
    append_str(&mut expected, " verified");
    if any_line(&ls, &LineTest::TrimmedIs(expected)) {
        Ok(())
    } else {
        Err(proto_error("write failed: ", resp))
    }
}

/// The text after `INFO ` on the first line that starts so.
pub open spec fn info_reply(resp: Seq<char>) -> Option<Seq<char>> {
    match first_match(lines(resp), LineRule::StartsWith("INFO "@)) {
        Some(l) => Some(l.skip("INFO "@.len() as int)),
        None => None,
    }
}

/// Reads the pad's Info string from the reply to `pad info`.
pub fn parse_info_reply(resp: &str) -> (r: Option<String>)
    ensures
        match r {
            Some(i) => info_reply(resp@) == Some(i@),
            None => info_reply(resp@) is None,
        },
{
    let v = chars_of(resp);
    let ls = lines_of(&v);
    match find_line(&ls, &LineTest::StartsWith(chars_of("INFO "))) {
        Some(l) => {
            let skip = chars_of("INFO ").len();
            let rest = vec_range(&l, skip, l.len());
            assert(rest@ =~= l@.skip("INFO "@.len() as int));
            Some(string_from_chars(&rest))
        },
        None => None,
    }
}

/// The pad status the dongle reports: its status line and, when the pad
/// answered, its Info string. The protocol is compatible only when the
/// dongle speaks v0.3 and the pad's Info announces banks.
pub fn dongle_pad_status(bits: StatusBits, info: Option<String>) -> (r: PadStatus)
    ensures
        r.address@ == "via-s3-dongle"@,
        r.name matches Some(n) && n@ == "Cyberpad Val C6"@,
        r.connected == bits.ble_connected,
        r.paired,
        r.info == info,
        r.transport matches Some(t) && t@ == "dongle"@,
        r.bluez_blocked is None,
        r.protocol_compatible == Some(bits.protocol_v03 && (info matches Some(i) && banked_info(i@))),
        r.slots_ready == Some(bits.slots_ready),
        r.macro_ready == Some(bits.macro_ready),
        r.selected_bank == Some(bits.selected_bank),
{
    let banked = match &info {
        Some(i) => info_supports_banks(i.as_str()),
        None => false,
    };
    PadStatus {
        address: "via-s3-dongle".to_string(),
        name: Some("Cyberpad Val C6".to_string()),
        connected: bits.ble_connected,
        paired: true,
        info,
        transport: Some("dongle".to_string()),
        bluez_blocked: None,
        protocol_compatible: Some(bits.protocol_v03 && banked),
        slots_ready: Some(bits.slots_ready),
        macro_ready: Some(bits.macro_ready),
        selected_bank: Some(bits.selected_bank),
    }
}


/// The version a dongle session reported must be the one build this host
/// speaks to.
pub fn internal_version_check(version: &str) -> (r: Result<&'static str, String>)
    ensures
        version@ == EXPECTED_DONGLE_VERSION@ ==> (r matches Ok(v) && v@ == EXPECTED_DONGLE_VERSION@),
        version@ != EXPECTED_DONGLE_VERSION@ ==> (r matches Err(e) && e@ == "internal version mismatch: got "@
            + debug_shown(version@) + ", expected "@ + debug_shown(EXPECTED_DONGLE_VERSION@)),
{
    if chars_are(&chars_of(version), EXPECTED_DONGLE_VERSION) {
        Ok(EXPECTED_DONGLE_VERSION)
    } else {
        let mut m = "internal version mismatch: got ".to_string();
        let g = debug_quoted(version);
        push_all(&mut m, g.as_str());
        push_all(&mut m, ", expected ");
        let e = debug_quoted(EXPECTED_DONGLE_VERSION);
        push_all(&mut m, e.as_str());
        Err(m)
    }
}

/// `: got {count} slots, expected 18`, after a prefix.
fn slot_count_message(prefix: &str, count: usize) -> (m: String)
    ensures
        m@ == prefix@ + ": got "@ + decimal(count as nat) + " slots, expected "@ + decimal(SLOT_COUNT as nat),
{
    let mut m = prefix.to_string();
    push_all(&mut m, ": got ");
    push_decimal(&mut m, count as u64);
    push_all(&mut m, " slots, expected ");
    push_decimal(&mut m, SLOT_COUNT as u64);
    m
}

/// A bank page read during the sweep must hold every slot.
pub fn sweep_page_check(bank: u8, count: usize) -> (r: Result<(), String>)
    ensures
        count == SLOT_COUNT <==> r is Ok,
        r matches Err(e) ==> e@ == "bank "@ + decimal(bank as nat) + ": got "@ + decimal(count as nat)
            + " slots, expected "@ + decimal(SLOT_COUNT as nat),
{
    if count == SLOT_COUNT {
        Ok(())
    } else {
        let mut p = "bank ".to_string();
        push_decimal(&mut p, bank as u64);
        let m = slot_count_message(p.as_str(), count);
        assert(m@ =~= "bank "@ + decimal(bank as nat) + ": got "@ + decimal(count as nat)
            + " slots, expected "@ + decimal(SLOT_COUNT as nat));
        Err(m)
    }
}

/// Reading the initial bank again at the end must give a full page.
pub fn restore_page_check(bank: u8, count: usize) -> (r: Result<(), String>)
    ensures
        count == SLOT_COUNT <==> r is Ok,
        r matches Err(e) ==> e@ == "could not restore initial bank "@ + decimal(bank as nat) + ": got "@
            + decimal(count as nat) + " slots, expected "@ + decimal(SLOT_COUNT as nat),
{
    if count == SLOT_COUNT {
        Ok(())
    } else {
        let mut p = "could not restore initial bank ".to_string();
        push_decimal(&mut p, bank as u64);
        let m = slot_count_message(p.as_str(), count);
        assert(m@ =~= "could not restore initial bank "@ + decimal(bank as nat) + ": got "@
            + decimal(count as nat) + " slots, expected "@ + decimal(SLOT_COUNT as nat));
        Err(m)
    }
}

/// The outcome of a bank sweep and the restore after it: the slot total when
/// both worked, else the failure, both joined when both failed.
pub fn sweep_outcome(sweep: Result<usize, String>, restore: Result<(), String>) -> (r: Result<usize, String>)
    ensures
        match (sweep, restore) {
            (Ok(n), Ok(())) => r matches Ok(m) && m == n,
            (Err(a), Ok(())) => r matches Err(e) && e@ == a@,
            (Ok(_), Err(b)) => r matches Err(e) && e@ == b@,
            (Err(a), Err(b)) => r matches Err(e) && e@ == a@ + "; additionally, "@ + b@,
        },
{
    match (sweep, restore) {
        (Ok(n), Ok(())) => Ok(n),
        (Err(a), Ok(())) => Err(a),
        (Ok(_), Err(b)) => Err(b),
        (Err(a), Err(b)) => {
            let mut m = a;
            push_all(&mut m, "; additionally, ");
            push_all(&mut m, b.as_str());
            Err(m)
        },
    }
}

/// After the sweep the pad must be back on the bank it started on.
pub fn restored_bank_check(final_bank: u8, initial_bank: u8) -> (r: Result<(), String>)
    ensures
        final_bank == initial_bank <==> r is Ok,
        r matches Err(e) ==> e@ == "final status: bank restoration mismatch: got "@ + decimal(final_bank as nat)
            + ", expected "@ + decimal(initial_bank as nat),
{
    if final_bank == initial_bank {
        Ok(())
    } else {
        let mut m = "final status: bank restoration mismatch: got ".to_string();
        push_decimal(&mut m, final_bank as u64);
        push_all(&mut m, ", expected ");
        push_decimal(&mut m, initial_bank as u64);
        Err(m)
    }
}

} // verus!
