//! The localhost fire API's request rules: which route a request takes, the
//! token it carries, whether that token authorizes it, and the curl line a
//! desktop shortcut runs. Sockets and the token file are the application's.

use vstd::prelude::*;
use crate::text::{
    chars_of, has_prefix, chars_are, trim, trimmed_chars, lines, lines_of, lemma_chars_deep,
    ascii_lower, ascii_lower_char, vec_range, string_from_chars, split_nonempty, Sep, push_all,
};
use crate::dongle::first_word;
use crate::slots::{from_utf8_lossy, lossy_text};
use crate::text::{decimal, push_decimal, is_hex, is_hex_char};

verus! {

broadcast use vstd::string::group_string_axioms;

/// The file in the config directory that holds the fire token.
pub const FIRE_TOKEN_FILE: &'static str = "fire_token";

/// A request's route.
pub enum Route {
    Health,
    Fire(Seq<char>),
    FireGetRejected,
    Other,
}

/// Where a request to the fire API goes.
#[derive(Debug, Clone, PartialEq, Eq)]
pub enum FireRoute {
    /// Unauthenticated health probe (`GET /`).
    Health,
    /// Authenticated binding fire (`POST /fire/{key}` only).
    Fire { key: String },
    /// `GET /fire/...`, refused: firing takes POST and a token.
    FireGetRejected,
    Other,
}

impl FireRoute {
    pub open spec fn route(&self) -> Route {
        match self {
            FireRoute::Health => Route::Health,
            FireRoute::Fire { key } => Route::Fire(key@),
            FireRoute::FireGetRejected => Route::FireGetRejected,
            FireRoute::Other => Route::Other,
        }
    }
}

/// `s` without leading `c`s.
pub open spec fn strip_start(s: Seq<char>, c: char) -> Seq<char>
    decreases s.len(),
{
    if s.len() > 0 && s[0] == c {
        strip_start(s.drop_first(), c)
    } else {
        s
    }
}

/// `s` without trailing `c`s.
pub open spec fn strip_end(s: Seq<char>, c: char) -> Seq<char>
    decreases s.len(),
{
    if s.len() > 0 && s.last() == c {
        strip_end(s.drop_last(), c)
    } else {
        s
    }
}

/// `str::trim_matches(c)`.
pub open spec fn trim_char(s: Seq<char>, c: char) -> Seq<char> {
    strip_end(strip_start(s, c), c)
}

pub proof fn lemma_strip_start(s: Seq<char>, c: char, a: int)
    requires
        0 <= a <= s.len(),
        forall|j: int| 0 <= j < a ==> #[trigger] s[j] == c,
        a == s.len() || s[a] != c,
    ensures
        strip_start(s, c) == s.subrange(a, s.len() as int),
    decreases a,
{
    if a > 0 {
        assert(s[0] == c);
        lemma_strip_start(s.drop_first(), c, a - 1);
        assert(s.drop_first().subrange(a - 1, s.drop_first().len() as int) =~= s.subrange(a, s.len() as int));
    } else {
        assert(s.subrange(0, s.len() as int) =~= s);
    }
}

pub proof fn lemma_strip_end(s: Seq<char>, c: char, b: int)
    requires
        0 <= b <= s.len(),
        forall|j: int| b <= j < s.len() ==> #[trigger] s[j] == c,
        b == 0 || s[b - 1] != c,
    ensures
        strip_end(s, c) == s.subrange(0, b),
    decreases s.len() - b,
{
    if b < s.len() {
        assert(s.last() == c);
        lemma_strip_end(s.drop_last(), c, b);
        assert(s.drop_last().subrange(0, b) =~= s.subrange(0, b));
    } else {
        assert(s.subrange(0, b) =~= s);
    }
}

/// `s` with every leading and trailing `c` removed.
pub fn trim_char_of(s: &Vec<char>, c: char) -> (r: Vec<char>)
    ensures
        r@ == trim_char(s@, c),
{
    let mut a: usize = 0;
    while a < s.len() && s[a] == c
        invariant
            a <= s.len(),
            forall|j: int| 0 <= j < a ==> #[trigger] s@[j] == c,
        decreases s.len() - a,
    {
        a = a + 1;
    }
    proof {
        lemma_strip_start(s@, c, a as int);
    }
    let mut b: usize = s.len();
    while b > a && s[b - 1] == c
        invariant
            a <= b <= s.len(),
            forall|j: int| b <= j < s.len() ==> #[trigger] s@[j] == c,
        decreases b - a,
    {
        b = b - 1;
    }
    proof {
        let t = s@.subrange(a as int, s@.len() as int);
        assert forall|j: int| b - a <= j < t.len() implies #[trigger] t[j] == c by {
            assert(t[j] == s@[a + j]);
        }
        if b > a {
            assert(t[b - a - 1] == s@[b - 1]);
        }
        lemma_strip_end(t, c, b - a);
        assert(t.subrange(0, b - a) =~= s@.subrange(a as int, b as int));
    }
    vec_range(s, a, b)
}

/// What one trimmed, non-empty line decides, if anything.
pub open spec fn line_route(l: Seq<char>) -> Option<Route> {
    if "POST /fire/"@.is_prefix_of(l) {
        let key = trim_char(first_word(l.skip("POST /fire/"@.len() as int)), '/');
        if key.len() == 0 {
            Some(Route::Other)
        } else {
            Some(Route::Fire(key))
        }
    } else if "GET /fire/"@.is_prefix_of(l) {
        Some(Route::FireGetRejected)
    } else if "GET / "@.is_prefix_of(l) || "GET /HTTP"@.is_prefix_of(l) || l == "GET /"@
        || "GET /?"@.is_prefix_of(l) {
        Some(Route::Health)
    } else if "GET "@.is_prefix_of(l) || "POST "@.is_prefix_of(l) || "PUT "@.is_prefix_of(l) {
        Some(Route::Other)
    } else {
        None
    }
}

/// The route of a request, decided by its first line alone: a blank or
/// missing first line, or one that decides nothing, routes nowhere.
pub open spec fn route_of(ls: Seq<Seq<char>>) -> Route {
    if ls.len() == 0 {
        Route::Other
    } else {
        match line_route(trim(ls[0])) {
            Some(r) => r,
            None => Route::Other,
        }
    }
}

fn route_of_line(l: &Vec<char>) -> (r: Option<FireRoute>)
    ensures
        match r {
            Some(x) => line_route(l@) == Some(x.route()),
            None => line_route(l@) is None,
        },
{
    if has_prefix(l, "POST /fire/") {
        let skip = chars_of("POST /fire/").len();
        let rest = vec_range(l, skip, l.len());
        assert(rest@ =~= l@.skip("POST /fire/"@.len() as int));
        let ws = split_nonempty(&rest, &Sep::Space);
        let path = if ws.len() > 0 {
            proof {
                lemma_chars_deep(ws@[0]);
            }
            ws[0].clone()
        } else {
            Vec::new()
        };
        assert(path@ == first_word(rest@));
        let key = trim_char_of(&path, '/');
        if key.len() == 0 {
            return Some(FireRoute::Other);
        }
        return Some(FireRoute::Fire { key: string_from_chars(&key) });
    }
    if has_prefix(l, "GET /fire/") {
        return Some(FireRoute::FireGetRejected);
    }
    if has_prefix(l, "GET / ") || has_prefix(l, "GET /HTTP") || chars_are(l, "GET /") || has_prefix(
        l,
        "GET /?",
    ) {
        return Some(FireRoute::Health);
    }
    if has_prefix(l, "GET ") || has_prefix(l, "POST ") || has_prefix(l, "PUT ") {
        return Some(FireRoute::Other);
    }
    None
}

/// Classifies a request by its request line.
pub fn classify_fire_route(req: &str) -> (r: FireRoute)
    ensures
        r.route() == route_of(lines(req@)),
{
    let v = chars_of(req);
    let ls = lines_of(&v);
    if ls.len() == 0 {
        return FireRoute::Other;
    }
    proof {
        lemma_chars_deep(ls@[0]);
    }
    let l = trimmed_chars(&ls[0]);
    match route_of_line(&l) {
        Some(r) => r,
        None => FireRoute::Other,
    }
}

/// Index of the first `':'`, or -1.
pub open spec fn colon_at(s: Seq<char>) -> int
    decreases s.len(),
{
    if s.len() == 0 {
        -1
    } else if s[0] == ':' {
        0
    } else {
        let r = colon_at(s.drop_first());
        if r < 0 {
            -1
        } else {
            r + 1
        }
    }
}

proof fn lemma_colon_at(s: Seq<char>, i: int)
    requires
        0 <= i <= s.len(),
        forall|j: int| 0 <= j < i ==> #[trigger] s[j] != ':',
        i == s.len() || s[i] == ':',
    ensures
        colon_at(s) == if i == s.len() { -1 } else { i },
    decreases i,
{
    if i > 0 {
        assert(s[0] != ':');
        lemma_colon_at(s.drop_first(), i - 1);
    }
}

/// `s` in ASCII lower case.
pub open spec fn lowered(s: Seq<char>) -> Seq<char> {
    s.map_values(|c: char| ascii_lower(c))
}

/// The token one trimmed header line carries: the non-empty value of an
/// `X-HK-Fire-Token` header, or of an `Authorization: Bearer` header (header
/// names in any case). Any other line carries none.
pub open spec fn header_token(t: Seq<char>) -> Option<Seq<char>> {
    let low = lowered(t);
    if colon_at(t) < 0 {
        None
    } else if "x-hk-fire-token:"@.is_prefix_of(low) {
        let tok = trim(t.skip(colon_at(t) + 1));
        if tok.len() > 0 {
            Some(tok)
        } else {
            None
        }
    } else if "authorization:"@.is_prefix_of(low) {
        let value = trim(t.skip(colon_at(t) + 1));
        let tok = if "Bearer "@.is_prefix_of(value) {
            value.skip("Bearer "@.len() as int)
        } else if "bearer "@.is_prefix_of(value) {
            value.skip("bearer "@.len() as int)
        } else {
            Seq::empty()
        };
        if tok.len() > 0 {
            Some(tok)
        } else {
            None
        }
    } else {
        None
    }
}

/// The fire token a request carries: that of the first line that carries
/// one, from `X-HK-Fire-Token:` or `Authorization: Bearer`.
pub open spec fn token_of(ls: Seq<Seq<char>>) -> Option<Seq<char>>
    decreases ls.len(),
{
    if ls.len() == 0 {
        None
    } else {
        match header_token(trim(ls[0])) {
            Some(tok) => Some(tok),
            None => token_of(ls.drop_first()),
        }
    }
}

fn token_of_line(t: &Vec<char>) -> (r: Option<String>)
    ensures
        match r {
            None => header_token(t@) is None,
            Some(s) => header_token(t@) == Some(s@),
        },
{
    let low = lower_chars(t);
    let is_token = has_prefix(&low, "x-hk-fire-token:");
    let is_auth = has_prefix(&low, "authorization:");
    let mut c: usize = 0;
    while c < t.len() && t[c] != ':'
        invariant
            c <= t.len(),
            forall|j: int| 0 <= j < c ==> #[trigger] t@[j] != ':',
        decreases t.len() - c,
    {
        c = c + 1;
    }
    proof {
        lemma_colon_at(t@, c as int);
    }
    if c == t.len() || (!is_token && !is_auth) {
        return None;
    }
    let after = vec_range(t, c + 1, t.len());
    assert(after@ =~= t@.skip(c + 1));
    let value = trimmed_chars(&after);
    if is_token {
        if value.len() > 0 {
            return Some(string_from_chars(&value));
        }
        return None;
    }
    let tok = if has_prefix(&value, "Bearer ") {
        let n = chars_of("Bearer ").len();
        let r = vec_range(&value, n, value.len());
        assert(r@ =~= value@.skip("Bearer "@.len() as int));
        r
    } else if has_prefix(&value, "bearer ") {
        let n = chars_of("bearer ").len();
        let r = vec_range(&value, n, value.len());
        assert(r@ =~= value@.skip("bearer "@.len() as int));
        r
    } else {
        return None;
    };
    if tok.len() > 0 {
        Some(string_from_chars(&tok))
    } else {
        None
    }
}

/// The fire token a request carries.
pub fn extract_fire_token(req: &str) -> (r: Option<String>)
    ensures
        match r {
            Some(t) => token_of(lines(req@)) == Some(t@),
            None => token_of(lines(req@)) is None,
        },
{
    let v = chars_of(req);
    let ls = lines_of(&v);
    let ghost all = ls.deep_view();
    let mut i: usize = 0;
    assert(all.skip(0) =~= all);
    while i < ls.len()
        invariant
            i <= ls.len(),
            all == ls.deep_view(),
            all == lines(req@),
            token_of(all) == token_of(all.skip(i as int)),
        decreases ls.len() - i,
    {
        proof {
            lemma_chars_deep(ls@[i as int]);
            assert(all.skip(i as int)[0] == all[i as int]);
            assert(all.skip(i as int).drop_first() =~= all.skip(i + 1));
        }
        let t = trimmed_chars(&ls[i]);
        match token_of_line(&t) {
            Some(tok) => {
                return Some(tok);
            },
            None => {},
        }
        i = i + 1;
    }
    assert(all.skip(i as int).len() == 0);
    None
}

/// A request is authorized when the expected token is set and the request
/// carries exactly it.
pub open spec fn authorized(req: Seq<char>, expected: Seq<char>) -> bool {
    expected.len() > 0 && token_of(lines(req)) == Some(expected)
}

/// Whether a request carries the expected fire token. An empty expected
/// token authorizes nothing.
pub fn fire_token_authorized(req: &str, expected: &str) -> (b: bool)
    ensures
        b == authorized(req@, expected@),
{
    if expected.is_empty() {
        return false;
    }
    match extract_fire_token(req) {
        Some(t) => {
            let e = expected.to_string();
            t == e
        },
        None => false,
    }
}

/// The shell line a desktop shortcut runs to fire slot `slot`.
pub fn fire_curl_exec(slot: &str, token: &str) -> (r: String)
    ensures
        r@ == "curl -s -X POST -H \"X-HK-Fire-Token: "@ + token@ + "\" http://127.0.0.1:17321/fire/"@
            + slot@,
{
    let mut r = "curl -s -X POST -H \"X-HK-Fire-Token: ".to_string();
    push_all(&mut r, token);
    push_all(&mut r, "\" http://127.0.0.1:17321/fire/");
    push_all(&mut r, slot);
    r
}

/// Whether a header line names a browser origin or referer.
pub open spec fn browser_header(line: Seq<char>) -> bool {
    let low = lowered(line);
    "origin:"@.is_prefix_of(low) || "referer:"@.is_prefix_of(low)
}

/// The header lines of a request: all lines after the first.
pub open spec fn header_lines(ls: Seq<Seq<char>>) -> Seq<Seq<char>> {
    if ls.len() > 0 {
        ls.skip(1)
    } else {
        ls
    }
}

/// What the localhost listener does with a request.
#[derive(Debug, Clone, PartialEq, Eq)]
pub enum LocalFire {
    /// Answer at once with this status line and body.
    Answer { status: String, body: String },
    /// Fire this binding key; the answer is `200 OK` with its result.
    Fire { key: String },
}

/// The listener's usage text.
pub open spec fn fire_usage() -> Seq<char> {
    "usage: POST /fire/0-2-0 with X-HK-Fire-Token (legacy 2-0 maps to bank 0)"@
}

/// The localhost listener's rule, over the request's lines and the fire
/// token it holds: `GET /` is an open health probe; `GET /fire/...` is
/// refused (405); `POST /fire/<key>` fires only when it names no browser
/// origin or referer and carries the token (an empty token authorizes
/// nothing); anything else gets the usage text.
pub open spec fn local_fire_verdict(ls: Seq<Seq<char>>, expected: Seq<char>) -> Result<Seq<char>, (Seq<char>, Seq<char>)> {
    let hs = header_lines(ls);
    match route_of(ls) {
        Route::Health => Err(("200 OK"@, "ok"@)),
        Route::FireGetRejected => Err(("405 Method Not Allowed"@, "use POST /fire/<key> with X-HK-Fire-Token"@)),
        Route::Other => Err(("400 Bad Request"@, fire_usage())),
        Route::Fire(k) => if exists|i: int| 0 <= i < hs.len() && browser_header(#[trigger] hs[i]) {
            Err(("403 Forbidden"@, "browser-origin requests are not accepted"@))
        } else if !(expected.len() > 0 && token_of(ls) == Some(expected)) {
            Err(("401 Unauthorized"@, "missing or invalid fire token"@))
        } else {
            Ok(k)
        },
    }
}

fn lower_chars(t: &Vec<char>) -> (r: Vec<char>)
    ensures
        r@ == lowered(t@),
{
    let mut low: Vec<char> = Vec::new();
    let mut i: usize = 0;
    while i < t.len()
        invariant
            i <= t.len(),
            low@ == t@.take(i as int).map_values(|c: char| ascii_lower(c)),
        decreases t.len() - i,
    {
        low.push(ascii_lower_char(t[i]));
        assert(t@.take(i + 1).map_values(|c: char| ascii_lower(c)) =~= t@.take(i as int).map_values(
            |c: char| ascii_lower(c),
        ).push(ascii_lower(t@[i as int])));
        i = i + 1;
    }
    assert(t@.take(t.len() as int) =~= t@);
    low
}

fn is_browser_header(line: &Vec<char>) -> (b: bool)
    ensures
        b == browser_header(line@),
{
    let low = lower_chars(line);
    has_prefix(&low, "origin:") || has_prefix(&low, "referer:")
}

fn answer(status: &str, body: &str) -> (r: LocalFire)
    ensures
        r matches LocalFire::Answer { status: st, body: b } && st@ == status@ && b@ == body@,
{
    LocalFire::Answer { status: status.to_string(), body: body.to_string() }
}

/// Reads a request as the localhost listener received it and decides what
/// to do with it, given the fire token.
pub fn local_fire_request(raw: &[u8], expected_token: &str) -> (r: LocalFire)
    ensures
        match local_fire_verdict(lines(lossy_text(raw@)), expected_token@) {
            Ok(k) => r matches LocalFire::Fire { key } && key@ == k,
            Err((st, b)) => r matches LocalFire::Answer { status, body } && status@ == st && body@ == b,
        },
{
    let text = from_utf8_lossy(raw);
    let route = classify_fire_route(text.as_str());
    let key = match route {
        FireRoute::Health => {
            return answer("200 OK", "ok");
        },
        FireRoute::FireGetRejected => {
            return answer("405 Method Not Allowed", "use POST /fire/<key> with X-HK-Fire-Token");
        },
        FireRoute::Other => {
            return answer("400 Bad Request", "usage: POST /fire/0-2-0 with X-HK-Fire-Token (legacy 2-0 maps to bank 0)");
        },
        FireRoute::Fire { key } => key,
    };
    let v = chars_of(text.as_str());
    let ls = lines_of(&v);
    let ghost all = ls.deep_view();
    let ghost hs = header_lines(all);
    let mut browser = false;
    let mut i: usize = 1;
    while i < ls.len()
        invariant
            all == ls.deep_view(),
            hs == header_lines(all),
            1 <= i,
            i <= ls.len() || i == 1,
            browser <==> exists|j: int| 0 <= j < i - 1 && browser_header(#[trigger] hs[j]),
        decreases ls.len() - i,
    {
        proof {
            lemma_chars_deep(ls@[i as int]);
            assert(hs[i - 1] == all[i as int]);
        }
        if is_browser_header(&ls[i]) {
            browser = true;
        }
        proof {
            assert(browser <==> exists|j: int| 0 <= j < i && browser_header(#[trigger] hs[j])) by {
                if exists|j: int| 0 <= j < i && browser_header(#[trigger] hs[j]) {
                    let j = choose|j: int| 0 <= j < i && browser_header(#[trigger] hs[j]);
                    if j < i - 1 {
                        assert(exists|j2: int| 0 <= j2 < i - 1 && browser_header(#[trigger] hs[j2]));
                    }
                }
            }
        }
        i = i + 1;
    }
    proof {
        if ls.len() > 0 {
            assert(hs.len() == ls.len() - 1);
        } else {
            assert(hs.len() == 0);
        }
        assert(all == lines(lossy_text(raw@)));
    }
    if browser {
        return answer("403 Forbidden", "browser-origin requests are not accepted");
    }
    if !fire_token_authorized(text.as_str(), expected_token) {
        return answer("401 Unauthorized", "missing or invalid fire token");
    }
    LocalFire::Fire { key }
}

/// The plain-text HTTP response the listener writes: the status line, the
/// body's length (`str::len`: its UTF-8 bytes), and the body.
pub open spec fn text_response(status: Seq<char>, body: Seq<char>, body_len: nat) -> Seq<char> {
    "HTTP/1.1 "@ + status + "\r\nContent-Type: text/plain\r\nContent-Length: "@ + decimal(
        body_len,
    ) + "\r\nConnection: close\r\n\r\n"@ + body
}

/// Writes the listener's response.
pub fn http_text_response(status: &str, body: &str) -> (r: String)
    ensures
        r@ == text_response(status@, body@, body.len() as nat),
{
    let mut r = "HTTP/1.1 ".to_string();
    push_all(&mut r, status);
    push_all(&mut r, "\r\nContent-Type: text/plain\r\nContent-Length: ");
    push_decimal(&mut r, body.len() as u64);
    push_all(&mut r, "\r\nConnection: close\r\n\r\n");
    push_all(&mut r, body);
    r
}

/// The listener fires only for a `POST /fire/<key>` request that carries
/// the fire token, which is set, and names no browser origin or referer.
pub proof fn law_fire_needs_token(ls: Seq<Seq<char>>, expected: Seq<char>)
    requires
        local_fire_verdict(ls, expected) is Ok,
    ensures
        route_of(ls) is Fire,
        expected.len() > 0,
        token_of(ls) == Some(expected),
        forall|i: int| 0 <= i < header_lines(ls).len() ==> !browser_header(#[trigger] header_lines(ls)[i]),
{
}

/// A KDE desktop entry whose global shortcut fires `slot` through the
/// localhost listener with the fire token.
pub open spec fn shortcut_entry(name: Seq<char>, slot: Seq<char>, shortcut: Seq<char>, token: Seq<char>) -> Seq<char> {
    "[Desktop Entry]\nType=Application\nName="@ + name + "\nNoDisplay=true\nStartupNotify=false\nExec="@
        + "curl -s -X POST -H \"X-HK-Fire-Token: "@ + token + "\" http://127.0.0.1:17321/fire/"@ + slot
        + "\nX-KDE-GlobalAccel-CommandShortcut=true\nX-KDE-Shortcuts="@ + shortcut + "\n"@
}

/// Writes such a desktop entry.
pub fn shortcut_desktop_entry(name: &str, slot: &str, shortcut: &str, token: &str) -> (r: String)
    ensures
        r@ == shortcut_entry(name@, slot@, shortcut@, token@),
{
    let mut r = "[Desktop Entry]\nType=Application\nName=".to_string();
    push_all(&mut r, name);
    push_all(&mut r, "\nNoDisplay=true\nStartupNotify=false\nExec=");
    let exec = fire_curl_exec(slot, token);
    push_all(&mut r, exec.as_str());
    push_all(&mut r, "\nX-KDE-GlobalAccel-CommandShortcut=true\nX-KDE-Shortcuts=");
    push_all(&mut r, shortcut);
    push_all(&mut r, "\n");
    r
}

/// One desktop entry file to install, by its file name.
#[derive(Debug)]
pub struct ShortcutFile {
    pub file: String,
    pub body: String,
}

/// The entries installed, as (file, name, slot, shortcut): F13 to F15 for
/// slots 2-0 to 2-2, and the Ctrl+Alt+1/2/3 service entries pointed at the
/// same slots.
pub open spec fn kde_shortcut_specs() -> Seq<(Seq<char>, Seq<char>, Seq<char>, Seq<char>)> {
    seq![
        ("net.local.mcc-macro-0.desktop"@, "MCC Pad Macro 2-0"@, "2-0"@, "F13"@),
        ("net.local.mcc-macro-1.desktop"@, "MCC Pad Macro 2-1"@, "2-1"@, "F14"@),
        ("net.local.mcc-macro-2.desktop"@, "MCC Pad Macro 2-2"@, "2-2"@, "F15"@),
        ("net.local.open-task-app.desktop"@, "MCC fire 2-0"@, "2-0"@, "Ctrl+Alt+1"@),
        ("net.local.open-sysmon.desktop"@, "MCC fire 2-1"@, "2-1"@, "Ctrl+Alt+2"@),
        ("net.local.open-vscode.desktop"@, "MCC fire 2-2"@, "2-2"@, "Ctrl+Alt+3"@),
    ]
}

/// The desktop entries that bind pad shortcuts to the fire API, each
/// carrying the fire token.
pub fn kde_fire_shortcut_files(token: &str) -> (r: Vec<ShortcutFile>)
    ensures
        r@.len() == kde_shortcut_specs().len(),
        forall|k: int| 0 <= k < r@.len() ==> (#[trigger] r@[k]).file@ == kde_shortcut_specs()[k].0
            && r@[k].body@ == shortcut_entry(kde_shortcut_specs()[k].1, kde_shortcut_specs()[k].2, kde_shortcut_specs()[k].3, token@),
{
    let specs = [
        ("net.local.mcc-macro-0.desktop", "MCC Pad Macro 2-0", "2-0", "F13"),
        ("net.local.mcc-macro-1.desktop", "MCC Pad Macro 2-1", "2-1", "F14"),
        ("net.local.mcc-macro-2.desktop", "MCC Pad Macro 2-2", "2-2", "F15"),
        ("net.local.open-task-app.desktop", "MCC fire 2-0", "2-0", "Ctrl+Alt+1"),
        ("net.local.open-sysmon.desktop", "MCC fire 2-1", "2-1", "Ctrl+Alt+2"),
        ("net.local.open-vscode.desktop", "MCC fire 2-2", "2-2", "Ctrl+Alt+3"),
    ];
    let mut r: Vec<ShortcutFile> = Vec::new();
    let mut k: usize = 0;
    while k < 6
        invariant
            k <= 6,
            r@.len() == k,
            forall|j: int| 0 <= j < k ==> (#[trigger] r@[j]).file@ == kde_shortcut_specs()[j].0
                && r@[j].body@ == shortcut_entry(kde_shortcut_specs()[j].1, kde_shortcut_specs()[j].2, kde_shortcut_specs()[j].3, token@),
            forall|j: int| 0 <= j < 6 ==> #[trigger] specs@[j].0@ == kde_shortcut_specs()[j].0 && specs@[j].1@ == kde_shortcut_specs()[j].1
                && specs@[j].2@ == kde_shortcut_specs()[j].2 && specs@[j].3@ == kde_shortcut_specs()[j].3,
        decreases 6 - k,
    {
        let (file, name, slot, shortcut) = specs[k];
        let body = shortcut_desktop_entry(name, slot, shortcut, token);
        r.push(ShortcutFile { file: file.to_string(), body });
        k = k + 1;
    }
    r
}

/// A stored fire token is kept when, trimmed, it is non-empty hex.
pub open spec fn stored_token(raw: Seq<char>) -> Option<Seq<char>> {
    let t = trim(raw);
    if t.len() > 0 && forall|i: int| 0 <= i < t.len() ==> is_hex(#[trigger] t[i]) {
        Some(t)
    } else {
        None
    }
}

/// The token a token file holds, if it is one to keep.
pub fn parse_stored_token(raw: &str) -> (r: Option<String>)
    ensures
        match r {
            Some(t) => stored_token(raw@) == Some(t@),
            None => stored_token(raw@) is None,
        },
{
    let t = trimmed_chars(&chars_of(raw));
    if t.len() == 0 {
        return None;
    }
    let mut i: usize = 0;
    while i < t.len()
        invariant
            i <= t.len(),
            t@ == trim(raw@),
            forall|j: int| 0 <= j < i ==> is_hex(#[trigger] t@[j]),
        decreases t.len() - i,
    {
        let c = t[i];
        if !is_hex_char(c) {
            assert(!is_hex(t@[i as int]));
            return None;
        }
        i = i + 1;
    }
    Some(string_from_chars(&t))
}

/// The lower-case hex digit of a nibble.
pub open spec fn nibble_char(n: u8) -> char {
    if n < 10 {
        ((n + 48) as u8) as char
    } else {
        ((n + 87) as u8) as char
    }
}

/// Bytes as lower-case hex, two digits each.
pub open spec fn hex_text(b: Seq<u8>) -> Seq<char>
    decreases b.len(),
{
    if b.len() == 0 {
        Seq::empty()
    } else {
        hex_text(b.drop_last()).push(nibble_char(b.last() / 16)).push(nibble_char(b.last() % 16))
    }
}

fn nibble(n: u8) -> (c: char)
    requires
        n < 16,
    ensures
        c == nibble_char(n),
{
    if n < 10 {
        (n + 48) as char
    } else {
        (n + 87) as char
    }
}

/// A fire token from random bytes: their lower-case hex.
pub fn hex_token(bytes: &[u8]) -> (r: String)
    ensures
        r@ == hex_text(bytes@),
{
    let mut v: Vec<char> = Vec::new();
    let mut i: usize = 0;
    while i < bytes.len()
        invariant
            i <= bytes@.len(),
            v@ == hex_text(bytes@.take(i as int)),
        decreases bytes@.len() - i,
    {
        let b = bytes[i];
        proof {
            assert(bytes@.take(i + 1).drop_last() =~= bytes@.take(i as int));
            assert(bytes@.take(i + 1).last() == b);
        }
        v.push(nibble(b / 16));
        v.push(nibble(b % 16));
        i = i + 1;
    }
    assert(bytes@.take(bytes@.len() as int) =~= bytes@);
    string_from_chars(&v)
}

} // verus!
