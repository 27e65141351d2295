//! Character-level text model shared by the protocol parsers: whitespace,
//! trimming, splitting, line breaking and decimal numbers, each with the
//! meaning that Rust's `str` methods give them.

use vstd::prelude::*;

verus! {

broadcast use vstd::string::group_string_axioms;

/// Unicode `White_Space`, the set that `char::is_whitespace` accepts.
pub open spec fn is_ws(c: char) -> bool {
    ||| ('\u{9}' <= c && c <= '\u{d}')
    ||| c == ' '
    ||| c == '\u{85}'
    ||| c == '\u{a0}'
    ||| c == '\u{1680}'
    ||| ('\u{2000}' <= c && c <= '\u{200a}')
    ||| c == '\u{2028}'
    ||| c == '\u{2029}'
    ||| c == '\u{202f}'
    ||| c == '\u{205f}'
    ||| c == '\u{3000}'
}

pub fn is_ws_char(c: char) -> (r: bool)
    ensures
        r == is_ws(c),
{
    ('\u{9}' <= c && c <= '\u{d}') || c == ' ' || c == '\u{85}' || c == '\u{a0}' || c == '\u{1680}'
        || ('\u{2000}' <= c && c <= '\u{200a}') || c == '\u{2028}' || c == '\u{2029}' || c
        == '\u{202f}' || c == '\u{205f}' || c == '\u{3000}'
}

/// `s` with leading whitespace removed (`str::trim_start`).
pub open spec fn trim_start(s: Seq<char>) -> Seq<char>
    decreases s.len(),
{
    if s.len() > 0 && is_ws(s[0]) {
        trim_start(s.drop_first())
    } else {
        s
    }
}

/// `s` with trailing whitespace removed (`str::trim_end`).
pub open spec fn trim_end(s: Seq<char>) -> Seq<char>
    decreases s.len(),
{
    if s.len() > 0 && is_ws(s.last()) {
        trim_end(s.drop_last())
    } else {
        s
    }
}

/// `str::trim`.
pub open spec fn trim(s: Seq<char>) -> Seq<char> {
    trim_end(trim_start(s))
}

pub proof fn lemma_trim_start_at(s: Seq<char>, a: int)
    requires
        0 <= a <= s.len(),
        forall|j: int| 0 <= j < a ==> is_ws(#[trigger] s[j]),
        a == s.len() || !is_ws(s[a]),
    ensures
        trim_start(s) == s.subrange(a, s.len() as int),
    decreases a,
{
    if a > 0 {
        assert(is_ws(s[0]));
        lemma_trim_start_at(s.drop_first(), a - 1);
        assert(s.drop_first().subrange(a - 1, s.drop_first().len() as int) =~= s.subrange(
            a,
            s.len() as int,
        ));
    } else {
        assert(s.subrange(0, s.len() as int) =~= s);
    }
}

pub proof fn lemma_trim_end_at(s: Seq<char>, b: int)
    requires
        0 <= b <= s.len(),
        forall|j: int| b <= j < s.len() ==> is_ws(#[trigger] s[j]),
        b == 0 || !is_ws(s[b - 1]),
    ensures
        trim_end(s) == s.subrange(0, b),
    decreases s.len() - b,
{
    if b < s.len() {
        assert(is_ws(s.last()));
        lemma_trim_end_at(s.drop_last(), b);
        assert(s.drop_last().subrange(0, b) =~= s.subrange(0, b));
    } else {
        assert(s.subrange(0, b) =~= s);
    }
}

/// The characters of a string slice, in order.
pub fn chars_of(s: &str) -> (v: Vec<char>)
    ensures
        v@ == s@,
{
    let mut v: Vec<char> = Vec::new();
    for c in iter: s.chars()
        invariant
            iter.seq() == s@,
            v@ == iter.seq().take(iter.index() as int),
    {
        v.push(c);
    }
    v
}

/// Appends one character (`String::push`).
#[verifier::external_body]
pub(crate) fn push_char(s: &mut String, c: char)
    ensures
        final(s)@ == old(s)@.push(c),
{
    s.push(c);
}

/// A `String` holding exactly the characters of `v[from..to]`.
pub fn string_from_range(v: &Vec<char>, from: usize, to: usize) -> (s: String)
    requires
        from <= to <= v.len(),
    ensures
        s@ == v@.subrange(from as int, to as int),
{
    let mut s = String::new();
    let mut i = from;
    while i < to
        invariant
            from <= i <= to <= v.len(),
            s@ == v@.subrange(from as int, i as int),
        decreases to - i,
    {
        push_char(&mut s, v[i]);
        assert(v@.subrange(from as int, i + 1) =~= v@.subrange(from as int, i as int).push(v@[i as int]));
        i = i + 1;
    }
    s
}

/// A copy of `v[from..to]`.
pub fn vec_range(v: &Vec<char>, from: usize, to: usize) -> (r: Vec<char>)
    requires
        from <= to <= v.len(),
    ensures
        r@ == v@.subrange(from as int, to as int),
{
    let mut r: Vec<char> = Vec::new();
    let mut i = from;
    while i < to
        invariant
            from <= i <= to <= v.len(),
            r@ == v@.subrange(from as int, i as int),
        decreases to - i,
    {
        r.push(v[i]);
        assert(v@.subrange(from as int, i + 1) =~= v@.subrange(from as int, i as int).push(v@[i as int]));
        i = i + 1;
    }
    r
}

/// A `String` holding exactly the characters of `v`.
pub fn string_from_chars(v: &Vec<char>) -> (s: String)
    ensures
        s@ == v@,
{
    let s = string_from_range(v, 0, v.len());
    assert(v@.subrange(0, v@.len() as int) =~= v@);
    s
}

/// Appends the characters of `t` to `s` (`String::push_str`).
pub fn push_all(s: &mut String, t: &str)
    ensures
        final(s)@ == old(s)@ + t@,
{
    let v = chars_of(t);
    let mut i: usize = 0;
    while i < v.len()
        invariant
            i <= v.len(),
            v@ == t@,
            s@ == old(s)@ + v@.take(i as int),
        decreases v.len() - i,
    {
        push_char(s, v[i]);
        assert(old(s)@ + v@.take(i + 1) =~= (old(s)@ + v@.take(i as int)).push(v@[i as int]));
        i = i + 1;
    }
    assert(v@.take(v@.len() as int) =~= v@);
}

/// `str::trim` on a character vector: the bounds `(a, b)` of the trimmed part.
pub fn trim_bounds(v: &Vec<char>) -> (r: (usize, usize))
    ensures
        r.0 <= r.1 <= v.len(),
        trim(v@) == v@.subrange(r.0 as int, r.1 as int),
        trim_start(v@) == v@.subrange(r.0 as int, v@.len() as int),
{
    let mut a: usize = 0;
    while a < v.len() && is_ws_char(v[a])
        invariant
            a <= v.len(),
            forall|j: int| 0 <= j < a ==> is_ws(#[trigger] v@[j]),
        decreases v.len() - a,
    {
        a = a + 1;
    }
    proof {
        lemma_trim_start_at(v@, a as int);
    }
    let mut b: usize = v.len();
    while b > a && is_ws_char(v[b - 1])
        invariant
            a <= b <= v.len(),
            forall|j: int| b <= j < v.len() ==> is_ws(#[trigger] v@[j]),
        decreases b - a,
    {
        b = b - 1;
    }
    proof {
        let t = v@.subrange(a as int, v@.len() as int);
        assert forall|j: int| b - a <= j < t.len() implies is_ws(#[trigger] t[j]) by {
            assert(t[j] == v@[a + j]);
        }
        if b > a {
            assert(t[b - a - 1] == v@[b - 1]);
        }
        lemma_trim_end_at(t, b - a);
        assert(t.subrange(0, b - a) =~= v@.subrange(a as int, b as int));
    }
    (a, b)
}

/// `str::trim` returning an owned string.
pub fn trimmed(s: &str) -> (r: String)
    ensures
        r@ == trim(s@),
{
    let v = chars_of(s);
    let (a, b) = trim_bounds(&v);
    string_from_range(&v, a, b)
}


/// Which characters a split breaks at.
pub enum Sep {
    /// One given character (`str::split(c)`).
    Char(char),
    /// `':'` or `'-'`.
    ColonOrDash,
    /// Any whitespace character.
    Space,
}

pub open spec fn sep_holds(k: Sep, c: char) -> bool {
    match k {
        Sep::Char(x) => c == x,
        Sep::ColonOrDash => c == ':' || c == '-',
        Sep::Space => is_ws(c),
    }
}

pub fn sep_test(k: &Sep, c: char) -> (r: bool)
    ensures
        r == sep_holds(*k, c),
{
    match k {
        Sep::Char(x) => c == *x,
        Sep::ColonOrDash => c == ':' || c == '-',
        Sep::Space => is_ws_char(c),
    }
}

/// The pieces of `s` between separators, as `str::split` yields them: always
/// at least one piece, empty pieces kept.
pub open spec fn split_on(s: Seq<char>, k: Sep) -> Seq<Seq<char>>
    decreases s.len(),
{
    if s.len() == 0 {
        seq![Seq::<char>::empty()]
    } else {
        let p = split_on(s.drop_last(), k);
        if sep_holds(k, s.last()) {
            p.push(Seq::<char>::empty())
        } else {
            p.update(p.len() - 1, p.last().push(s.last()))
        }
    }
}

pub proof fn lemma_split_on_len(s: Seq<char>, k: Sep)
    ensures
        split_on(s, k).len() >= 1,
    decreases s.len(),
{
    if s.len() > 0 {
        lemma_split_on_len(s.drop_last(), k);
    }
}

/// The non-empty members of `p`, in order.
pub open spec fn nonempty(p: Seq<Seq<char>>) -> Seq<Seq<char>>
    decreases p.len(),
{
    if p.len() == 0 {
        p
    } else if p.last().len() > 0 {
        nonempty(p.drop_last()).push(p.last())
    } else {
        nonempty(p.drop_last())
    }
}

/// `str::split_whitespace`.
pub open spec fn words(s: Seq<char>) -> Seq<Seq<char>> {
    nonempty(split_on(s, Sep::Space))
}

/// `x` without one trailing carriage return.
pub open spec fn strip_cr(x: Seq<char>) -> Seq<char> {
    if x.len() > 0 && x.last() == '\r' {
        x.drop_last()
    } else {
        x
    }
}

/// `str::lines`: pieces between `'\n'`, each with a `"\r"` before its `'\n'`
/// removed, and no empty piece after a final `'\n'`.
pub open spec fn lines(s: Seq<char>) -> Seq<Seq<char>> {
    let p = split_on(s, Sep::Char('\n'));
    let full = p.drop_last().map_values(|x: Seq<char>| strip_cr(x));
    if p.last().len() == 0 {
        full
    } else {
        full.push(p.last())
    }
}

/// A vector of characters views the same deeply as plainly.
pub proof fn lemma_chars_deep(v: Vec<char>)
    ensures
        v.deep_view() == v@,
{
    assert(v.deep_view() =~= v@);
}

/// All pieces of `v` split at `k`, as `str::split` gives them.
pub fn split_pieces(v: &Vec<char>, k: &Sep) -> (r: Vec<Vec<char>>)
    ensures
        r.deep_view() == split_on(v@, *k),
{
    let mut done: Vec<Vec<char>> = Vec::new();
    let mut cur: Vec<char> = Vec::new();
    let mut i: usize = 0;
    assert(v@.take(0) =~= Seq::<char>::empty());
    while i < v.len()
        invariant
            i <= v.len(),
            done.deep_view().push(cur@) == split_on(v@.take(i as int), *k),
        decreases v.len() - i,
    {
        let c = v[i];
        proof {
            assert(v@.take(i + 1).drop_last() =~= v@.take(i as int));
            assert(v@.take(i + 1).last() == c);
        }
        if sep_test(k, c) {
            let ghost before = done.deep_view();
            let finished = cur;
            proof { lemma_chars_deep(finished); }
            done.push(finished);
            cur = Vec::new();
            proof {
                lemma_chars_deep(cur);
                assert(done.deep_view() =~= before.push(finished@));
                assert(done.deep_view().push(cur@) =~= before.push(finished@).push(Seq::<char>::empty()));
            }
        } else {
            let ghost before = done.deep_view();
            let ghost old_cur = cur@;
            cur.push(c);
            proof {
                lemma_chars_deep(cur);
                let p = before.push(old_cur);
                assert(done.deep_view().push(cur@) =~= p.update(p.len() - 1, p.last().push(c)));
            }
        }
        i = i + 1;
    }
    let ghost before = done.deep_view();
    proof { lemma_chars_deep(cur); }
    done.push(cur);
    assert(done.deep_view() =~= before.push(cur@));
    assert(v@.take(v.len() as int) =~= v@);
    done
}

/// The non-empty pieces of `v` split at `k`.
pub fn split_nonempty(v: &Vec<char>, k: &Sep) -> (r: Vec<Vec<char>>)
    ensures
        r.deep_view() == nonempty(split_on(v@, *k)),
{
    let all = split_pieces(v, k);
    let mut out: Vec<Vec<char>> = Vec::new();
    let mut i: usize = 0;
    assert(all.deep_view().take(0) =~= Seq::<Seq<char>>::empty());
    while i < all.len()
        invariant
            i <= all.len(),
            all.deep_view() == split_on(v@, *k),
            out.deep_view() == nonempty(all.deep_view().take(i as int)),
        decreases all.len() - i,
    {
        let piece = all[i].clone();
        proof {
            lemma_chars_deep(piece);
            lemma_chars_deep(all@[i as int]);
            assert(all.deep_view().take(i + 1).drop_last() =~= all.deep_view().take(i as int));
            assert(piece@ == all.deep_view()[i as int]);
        }
        if piece.len() > 0 {
            let ghost before = out.deep_view();
            out.push(piece);
            assert(out.deep_view() =~= before.push(piece@));
        }
        i = i + 1;
    }
    assert(all.deep_view().take(all.len() as int) =~= all.deep_view());
    out
}

/// `str::lines` on a character vector.
pub fn lines_of(v: &Vec<char>) -> (r: Vec<Vec<char>>)
    ensures
        r.deep_view() == lines(v@),
{
    let all = split_pieces(v, &Sep::Char('\n'));
    proof {
        lemma_split_on_len(v@, Sep::Char('\n'));
    }
    let n = all.len() - 1;
    let mut out: Vec<Vec<char>> = Vec::new();
    let mut i: usize = 0;
    while i < n
        invariant
            n + 1 == all.len(),
            i <= n,
            all.deep_view() == split_on(v@, Sep::Char('\n')),
            out.deep_view() == all.deep_view().take(i as int).map_values(|x: Seq<char>| strip_cr(x)),
        decreases n - i,
    {
        let mut piece = all[i].clone();
        proof { lemma_chars_deep(all@[i as int]); }
        let ghost orig = piece@;
        if piece.len() > 0 && piece[piece.len() - 1] == '\r' {
            piece.pop();
        }
        assert(piece@ == strip_cr(orig));
        let ghost before = out.deep_view();
        proof { lemma_chars_deep(piece); }
        out.push(piece);
        proof {
            assert(orig == all.deep_view()[i as int]);
            assert(out.deep_view() =~= before.push(piece@));
            assert(out.deep_view() =~= all.deep_view().take(i + 1).map_values(|x: Seq<char>| strip_cr(x)));
        }
        i = i + 1;
    }
    assert(all.deep_view().take(n as int) =~= all.deep_view().drop_last());
    if all[n].len() > 0 {
        let last = all[n].clone();
        proof { lemma_chars_deep(last); lemma_chars_deep(all@[n as int]); }
        let ghost before = out.deep_view();
        out.push(last);
        assert(out.deep_view() =~= before.push(last@));
    }
    out
}

pub open spec fn is_digit(c: char) -> bool {
    '0' <= c && c <= '9'
}

pub open spec fn digit_value(c: char) -> nat {
    (c as int - '0' as int) as nat
}

pub open spec fn digit_char(d: nat) -> char {
    (d + '0' as int) as char
}

/// The decimal digits of `n`, most significant first, no leading zeros
/// (`format!("{n}")`).
pub open spec fn decimal(n: nat) -> Seq<char>
    decreases n,
{
    if n < 10 {
        seq![digit_char(n)]
    } else {
        decimal(n / 10).push(digit_char(n % 10))
    }
}

/// The number a run of decimal digits spells.
pub open spec fn digits_value(d: Seq<char>) -> nat
    decreases d.len(),
{
    if d.len() == 0 {
        0
    } else {
        digits_value(d.drop_last()) * 10 + digit_value(d.last())
    }
}

/// What `str::parse` gives for an unsigned integer type whose largest value
/// is `max`: an optional `'+'`, then one or more decimal digits, in range.
pub open spec fn parse_unsigned(s: Seq<char>, max: nat) -> Option<nat> {
    let d = unsigned_digits(s);
    if d.len() > 0 && all_digits(d) && digits_value(d) <= max {
        Some(digits_value(d))
    } else {
        None
    }
}

/// The digits of an unsigned literal: `s` without one leading `'+'`.
pub open spec fn unsigned_digits(s: Seq<char>) -> Seq<char> {
    if s.len() > 0 && s[0] == '+' {
        s.drop_first()
    } else {
        s
    }
}

pub open spec fn all_digits(d: Seq<char>) -> bool {
    forall|i: int| 0 <= i < d.len() ==> is_digit(#[trigger] d[i])
}

proof fn lemma_digits_value_grows(d: Seq<char>, i: int)
    requires
        0 <= i <= d.len(),
        forall|j: int| 0 <= j < d.len() ==> is_digit(#[trigger] d[j]),
    ensures
        digits_value(d.take(i)) <= digits_value(d),
    decreases d.len() - i,
{
    if i < d.len() {
        lemma_digits_value_grows(d, i + 1);
        assert(d.take(i + 1).drop_last() =~= d.take(i));
    } else {
        assert(d.take(i) =~= d);
    }
}

/// Appends the decimal digits of `n`.
pub fn push_decimal(s: &mut String, n: u64)
    ensures
        final(s)@ == old(s)@ + decimal(n as nat),
    decreases n,
{
    if n >= 10 {
        push_decimal(s, n / 10);
    }
    let d = (n % 10) as u8;
    let c = (d + 48) as char;
    assert(c == digit_char((n % 10) as nat));
    push_char(s, c);
    proof {
        if n < 10 {
            assert(old(s)@ + decimal(n as nat) =~= old(s)@.push(c));
        } else {
            assert(old(s)@ + decimal(n as nat) =~= (old(s)@ + decimal((n / 10) as nat)).push(c));
        }
    }
}

/// `v[from..to]` parsed as an unsigned number no larger than `max`.
pub fn parse_unsigned_range(v: &Vec<char>, from: usize, to: usize, max: u64) -> (r: Option<u64>)
    requires
        from <= to <= v.len(),
    ensures
        r matches Some(x) ==> parse_unsigned(v@.subrange(from as int, to as int), max as nat) == Some(x as nat),
        r is None ==> parse_unsigned(v@.subrange(from as int, to as int), max as nat) is None,
{
    let ghost s = v@.subrange(from as int, to as int);
    let mut start = from;
    if from < to && v[from] == '+' {
        start = from + 1;
    }
    let ghost d = v@.subrange(start as int, to as int);
    assert(d =~= unsigned_digits(s));
    if start == to {
        return None;
    }
    let mut acc: u64 = 0;
    let mut i = start;
    while i < to
        invariant
            from <= start < to <= v.len(),
            start <= i <= to,
            d == v@.subrange(start as int, to as int),
            s == v@.subrange(from as int, to as int),
            d == unsigned_digits(s),
            acc <= max,
            forall|j: int| start <= j < i ==> is_digit(#[trigger] v@[j]),
            acc as nat == digits_value(d.take(i - start)),
        decreases to - i,
    {
        let c = v[i];
        if !('0' <= c && c <= '9') {
            assert(d[i - start] == c);
            assert(!is_digit(d[i - start]));
            assert(!all_digits(d));
            return None;
        }
        let dv = (c as u32 - '0' as u32) as u64;
        proof {
            assert(d.take(i - start + 1).drop_last() =~= d.take(i - start));
            assert(d.take(i - start + 1).last() == c);
        }
        let next: u128 = (acc as u128) * 10 + (dv as u128);
        assert(digit_value(c) == dv);
        assert(digits_value(d.take(i - start + 1)) == next);
        if next > max as u128 {
            proof {
                // the rest of the run can only make the number larger
                if all_digits(d) {
                    lemma_digits_value_grows(d, i - start + 1);
                }
            }
            return None;
        }
        acc = next as u64;
        i = i + 1;
    }
    assert(d.take(to - start) =~= d);
    assert forall|j: int| 0 <= j < d.len() implies is_digit(#[trigger] d[j]) by {
        assert(d[j] == v@[start + j]);
    }
    Some(acc)
}

pub open spec fn is_hex(c: char) -> bool {
    is_digit(c) || ('a' <= c && c <= 'f') || ('A' <= c && c <= 'F')
}

pub fn is_hex_char(c: char) -> (r: bool)
    ensures
        r == is_hex(c),
{
    ('0' <= c && c <= '9') || ('a' <= c && c <= 'f') || ('A' <= c && c <= 'F')
}

/// `char::to_ascii_uppercase`.
pub open spec fn ascii_upper(c: char) -> char {
    if 'a' <= c && c <= 'z' {
        (c as int - 32) as char
    } else {
        c
    }
}

pub fn ascii_upper_char(c: char) -> (r: char)
    ensures
        r == ascii_upper(c),
{
    if 'a' <= c && c <= 'z' {
        ((c as u8) - 32) as char
    } else {
        c
    }
}

/// `char::to_ascii_lowercase`.
pub open spec fn ascii_lower(c: char) -> char {
    if 'A' <= c && c <= 'Z' {
        (c as int + 32) as char
    } else {
        c
    }
}

pub fn ascii_lower_char(c: char) -> (r: char)
    ensures
        r == ascii_lower(c),
{
    if 'A' <= c && c <= 'Z' {
        ((c as u8) + 32) as char
    } else {
        c
    }
}

/// Whether `v` begins with the characters of `p`.
pub fn has_prefix(v: &Vec<char>, p: &str) -> (r: bool)
    ensures
        r == p@.is_prefix_of(v@),
{
    let pv = chars_of(p);
    if pv.len() > v.len() {
        return false;
    }
    let mut i: usize = 0;
    while i < pv.len()
        invariant
            pv@ == p@,
            pv.len() <= v.len(),
            i <= pv.len(),
            forall|j: int| 0 <= j < i ==> pv@[j] == v@[j],
        decreases pv.len() - i,
    {
        if pv[i] != v[i] {
            return false;
        }
        i = i + 1;
    }
    true
}

/// Whether two character sequences are equal.
pub fn chars_eq(a: &Vec<char>, b: &Vec<char>) -> (r: bool)
    ensures
        r == (a@ == b@),
{
    if a.len() != b.len() {
        return false;
    }
    let mut i: usize = 0;
    while i < a.len()
        invariant
            a.len() == b.len(),
            i <= a.len(),
            forall|j: int| 0 <= j < i ==> a@[j] == b@[j],
        decreases a.len() - i,
    {
        if a[i] != b[i] {
            return false;
        }
        i = i + 1;
    }
    assert(a@ =~= b@);
    true
}


/// Whether `needle` occurs in `hay` (`str::contains`).
pub open spec fn contains_at(hay: Seq<char>, needle: Seq<char>, i: int) -> bool {
    0 <= i && i + needle.len() <= hay.len() && hay.subrange(i, i + needle.len()) == needle
}

pub open spec fn contains(hay: Seq<char>, needle: Seq<char>) -> bool {
    exists|i: int| #[trigger] contains_at(hay, needle, i)
}

pub fn has_infix(hay: &Vec<char>, needle: &Vec<char>) -> (r: bool)
    ensures
        r == contains(hay@, needle@),
{
    if needle.len() > hay.len() {
        assert forall|i: int| !#[trigger] contains_at(hay@, needle@, i) by {}
        return false;
    }
    if needle.len() == 0 {
        assert(hay@.subrange(0, 0) =~= needle@);
        assert(contains_at(hay@, needle@, 0));
        return true;
    }
    let last = hay.len() - needle.len();
    let mut i: usize = 0;
    while i <= last
        invariant
            last + needle.len() == hay.len(),
            needle.len() > 0,
            i <= last + 1,
            forall|k: int| 0 <= k < i ==> !#[trigger] contains_at(hay@, needle@, k),
        decreases last + 1 - i,
    {
        let mut j: usize = 0;
        let mut same = true;
        while j < needle.len()
            invariant
                i <= last,
                last + needle.len() == hay.len(),
                j <= needle.len(),
                same ==> forall|m: int| 0 <= m < j ==> hay@[i + m] == needle@[m],
                !same ==> !contains_at(hay@, needle@, i as int),
            decreases needle.len() - j,
        {
            if same && hay[i + j] != needle[j] {
                same = false;
                assert(hay@.subrange(i as int, i + needle.len())[j as int] != needle@[j as int]);
            }
            j = j + 1;
        }
        if same {
            assert(hay@.subrange(i as int, i + needle.len()) =~= needle@);
            assert(contains_at(hay@, needle@, i as int));
            return true;
        }
        i = i + 1;
    }
    assert forall|k: int| !#[trigger] contains_at(hay@, needle@, k) by {
        if 0 <= k && k <= last {
        }
    }
    false
}

/// Whether `v` is exactly the characters of `t`.
pub fn chars_are(v: &Vec<char>, t: &str) -> (r: bool)
    ensures
        r == (v@ == t@),
{
    let tv = chars_of(t);
    chars_eq(v, &tv)
}

/// The trimmed characters of `v`.
pub fn trimmed_chars(v: &Vec<char>) -> (r: Vec<char>)
    ensures
        r@ == trim(v@),
{
    let (a, b) = trim_bounds(v);
    vec_range(v, a, b)
}

/// What `{:?}` prints for a string: the text in double quotes with quotes,
/// backslashes and control characters escaped.
pub uninterp spec fn debug_str(s: Seq<char>) -> Seq<char>;

/// Text that `{:?}` prints as it is: printable ASCII other than the
/// double quote, the single quote and the backslash.
pub open spec fn debug_plain(s: Seq<char>) -> bool {
    forall|i: int| 0 <= i < s.len() ==> ' ' <= #[trigger] s[i] && s[i] <= '~' && s[i] != '"' && s[i] != '\'' && s[i]
        != '\\'
}

/// What `{:?}` prints for a string, as far as it is stated: plain text
/// between double quotes, other text as named.
pub open spec fn debug_shown(s: Seq<char>) -> Seq<char> {
    if debug_plain(s) {
        seq!['"'] + s + seq!['"']
    } else {
        debug_str(s)
    }
}

/// `format!("{:?}", s)` for a string slice. Plain text comes out between
/// double quotes, unchanged; what other characters are escaped to is named.
#[verifier::external_body]
pub(crate) fn debug_quoted(s: &str) -> (r: String)
    ensures
        r@ == debug_str(s@),
        debug_plain(s@) ==> r@ == seq!['"'] + s@ + seq!['"'],
        r@ == debug_shown(s@),
{
    format!("{:?}", s)
}

/// The value of a hexadecimal digit.
pub open spec fn hex_value(c: char) -> nat {
    if is_digit(c) {
        digit_value(c)
    } else if 'a' <= c && c <= 'f' {
        (c as int - 'a' as int + 10) as nat
    } else {
        (c as int - 'A' as int + 10) as nat
    }
}

/// The number a run of hexadecimal digits spells.
pub open spec fn hex_digits_value(d: Seq<char>) -> nat
    decreases d.len(),
{
    if d.len() == 0 {
        0
    } else {
        hex_digits_value(d.drop_last()) * 16 + hex_value(d.last())
    }
}

/// What `from_str_radix(s, 16)` gives for an unsigned type whose largest
/// value is `max`: an optional `'+'`, then one or more hexadecimal digits,
/// in range.
pub open spec fn parse_hex_unsigned(s: Seq<char>, max: nat) -> Option<nat> {
    let d = unsigned_digits(s);
    if d.len() > 0 && (forall|i: int| 0 <= i < d.len() ==> is_hex(#[trigger] d[i]))
        && hex_digits_value(d) <= max {
        Some(hex_digits_value(d))
    } else {
        None
    }
}

/// The display text of the error `str::parse::<u8>` gives for `s`.
pub uninterp spec fn u8_parse_error(s: Seq<char>) -> Seq<char>;

/// The display text of the error `u8::from_str_radix(s, 16)` gives for `s`.
pub uninterp spec fn u8_hex_parse_error(s: Seq<char>) -> Seq<char>;

/// `str::parse::<u8>`, its error as display text. It succeeds exactly on the
/// documented grammar: an optional `+` and decimal digits, at most 255.
#[verifier::external_body]
pub(crate) fn parse_u8_decimal(s: &str) -> (r: Result<u8, String>)
    ensures
        match r {
            Ok(n) => parse_unsigned(s@, 255) == Some(n as nat),
            Err(m) => parse_unsigned(s@, 255) is None && m@ == u8_parse_error(s@),
        },
{
    match s.parse::<u8>() {
        Ok(n) => Ok(n),
        Err(e) => Err(e.to_string()),
    }
}

/// `u8::from_str_radix(s, 16)`, its error as display text. It succeeds
/// exactly on an optional `+` and hexadecimal digits, at most `0xff`.
#[verifier::external_body]
pub(crate) fn parse_u8_hex(s: &str) -> (r: Result<u8, String>)
    ensures
        match r {
            Ok(n) => parse_hex_unsigned(s@, 255) == Some(n as nat),
            Err(m) => parse_hex_unsigned(s@, 255) is None && m@ == u8_hex_parse_error(s@),
        },
{
    match u8::from_str_radix(s, 16) {
        Ok(n) => Ok(n),
        Err(e) => Err(e.to_string()),
    }
}

/// A byte typed on the command line: trimmed, then hexadecimal after `0x`
/// or `0X`, else decimal; a failure carries the parse error's text.
pub open spec fn cli_u8(s: Seq<char>) -> Result<u8, Seq<char>> {
    let t = trim(s);
    if "0x"@.is_prefix_of(t) {
        hex_u8(t.skip("0x"@.len() as int))
    } else if "0X"@.is_prefix_of(t) {
        hex_u8(t.skip("0X"@.len() as int))
    } else {
        match parse_unsigned(t, 255) {
            Some(n) => Ok(n as u8),
            None => Err(u8_parse_error(t)),
        }
    }
}

pub open spec fn hex_u8(h: Seq<char>) -> Result<u8, Seq<char>> {
    match parse_hex_unsigned(h, 255) {
        Some(n) => Ok(n as u8),
        None => Err(u8_hex_parse_error(h)),
    }
}

fn hex_tail(t: &Vec<char>, p: &str) -> (r: Result<u8, String>)
    requires
        p@.is_prefix_of(t@),
    ensures
        match r {
            Ok(n) => hex_u8(t@.skip(p@.len() as int)) == Ok::<u8, Seq<char>>(n),
            Err(m) => hex_u8(t@.skip(p@.len() as int)) == Err::<u8, Seq<char>>(m@),
        },
{
    let n = chars_of(p).len();
    let h = string_from_range(t, n, t.len());
    assert(h@ =~= t@.skip(p@.len() as int));
    parse_u8_hex(h.as_str())
}

/// Reads a byte given on the command line, as `0x28` or `40`.
pub fn parse_u8(s: &str) -> (r: Result<u8, String>)
    ensures
        match r {
            Ok(n) => cli_u8(s@) == Ok::<u8, Seq<char>>(n),
            Err(m) => cli_u8(s@) == Err::<u8, Seq<char>>(m@),
        },
{
    let v = chars_of(s);
    let t = trimmed_chars(&v);
    if has_prefix(&t, "0x") {
        hex_tail(&t, "0x")
    } else if has_prefix(&t, "0X") {
        hex_tail(&t, "0X")
    } else {
        let ts = string_from_chars(&t);
        parse_u8_decimal(ts.as_str())
    }
}

/// The first place `needle` occurs in `hay`, as `str::find` gives it.
pub fn find_infix(hay: &Vec<char>, needle: &Vec<char>) -> (r: Option<usize>)
    ensures
        match r {
            Some(i) => contains_at(hay@, needle@, i as int) && forall|k: int| 0 <= k < i ==> !#[trigger] contains_at(
                hay@,
                needle@,
                k,
            ),
            None => !contains(hay@, needle@),
        },
{
    if needle.len() > hay.len() {
        assert forall|i: int| !#[trigger] contains_at(hay@, needle@, i) by {}
        return None;
    }
    if needle.len() == 0 {
        assert(hay@.subrange(0, 0) =~= needle@);
        return Some(0);
    }
    let last = hay.len() - needle.len();
    let mut i: usize = 0;
    while i <= last
        invariant
            last + needle.len() == hay.len(),
            needle.len() > 0,
            i <= last + 1,
            forall|k: int| 0 <= k < i ==> !#[trigger] contains_at(hay@, needle@, k),
        decreases last + 1 - i,
    {
        let piece = vec_range(hay, i, i + needle.len());
        if chars_eq(&piece, needle) {
            return Some(i);
        }
        i = i + 1;
    }
    assert forall|k: int| !#[trigger] contains_at(hay@, needle@, k) by {
        if 0 <= k < i {
        }
    }
    None
}

} // verus!
