//! Unix paths as text: joining, components, containment, `~` expansion and
//! the checks a profile import path passes before the file system is asked.

use vstd::prelude::*;
use crate::fire_api::{strip_end, lemma_strip_end};
use crate::text::{
    chars_of, push_all, trim, trimmed, has_prefix, chars_are, vec_range,
    string_from_chars, split_on, split_pieces, Sep, lemma_chars_deep, ascii_lower, ascii_lower_char,
};

verus! {

broadcast use vstd::string::group_string_axioms;

/// `Path::join` for Unix text: an absolute `seg` replaces `base`; otherwise
/// a `'/'` is put between them unless `base` is empty or ends in one.
pub open spec fn join(base: Seq<char>, seg: Seq<char>) -> Seq<char> {
    if seg.len() > 0 && seg[0] == '/' {
        seg
    } else if base.len() == 0 || base.last() == '/' {
        base + seg
    } else {
        base + "/"@ + seg
    }
}

/// Joins two paths.
pub fn join_path(base: &str, seg: &str) -> (r: String)
    ensures
        r@ == join(base@, seg@),
{
    let s = chars_of(seg);
    if s.len() > 0 && s[0] == '/' {
        return seg.to_string();
    }
    let b = chars_of(base);
    let mut r = base.to_string();
    if !(b.len() == 0 || b[b.len() - 1] == '/') {
        push_all(&mut r, "/");
    }
    push_all(&mut r, seg);
    r
}

/// One component of a path.
pub enum Comp {
    Root,
    Cur,
    Parent,
    Normal(Seq<char>),
}

/// The components of the pieces between separators: empty pieces and `.`
/// vanish, `..` is the parent.
pub open spec fn body_comps(pieces: Seq<Seq<char>>) -> Seq<Comp>
    decreases pieces.len(),
{
    if pieces.len() == 0 {
        Seq::empty()
    } else {
        let rest = body_comps(pieces.drop_last());
        let p = pieces.last();
        if p.len() == 0 || p == "."@ {
            rest
        } else if p == ".."@ {
            rest.push(Comp::Parent)
        } else {
            rest.push(Comp::Normal(p))
        }
    }
}

/// `Path::components` on Unix: a leading `/` is the root, a leading `.`
/// segment of a relative path is kept, the rest as [`body_comps`].
pub open spec fn components(s: Seq<char>) -> Seq<Comp> {
    let pieces = split_on(s, Sep::Char('/'));
    if s.len() > 0 && s[0] == '/' {
        seq![Comp::Root] + body_comps(pieces.drop_first())
    } else if pieces.len() > 0 && pieces[0] == "."@ {
        seq![Comp::Cur] + body_comps(pieces.drop_first())
    } else {
        body_comps(pieces)
    }
}

/// A path component as the host holds it.
pub enum PathComp {
    Root,
    Cur,
    Parent,
    Normal(Vec<char>),
}

impl PathComp {
    pub open spec fn comp(&self) -> Comp {
        match self {
            PathComp::Root => Comp::Root,
            PathComp::Cur => Comp::Cur,
            PathComp::Parent => Comp::Parent,
            PathComp::Normal(v) => Comp::Normal(v@),
        }
    }
}

pub open spec fn comps_of(v: Seq<PathComp>) -> Seq<Comp> {
    v.map_values(|c: PathComp| c.comp())
}

fn push_body(r: &mut Vec<PathComp>, pieces: &Vec<Vec<char>>, from: usize)
    requires
        from <= pieces.len(),
    ensures
        comps_of(final(r)@) == comps_of(old(r)@) + body_comps(pieces.deep_view().skip(from as int)),
{
    let mut i = from;
    let ghost start = comps_of(r@);
    let ghost all = pieces.deep_view().skip(from as int);
    assert(all.take(0) =~= Seq::<Seq<char>>::empty());
    assert(start + body_comps(all.take(0)) =~= start);
    while i < pieces.len()
        invariant
            from <= i <= pieces.len(),
            all == pieces.deep_view().skip(from as int),
            comps_of(r@) == start + body_comps(all.take(i - from)),
        decreases pieces.len() - i,
    {
        proof {
            lemma_chars_deep(pieces@[i as int]);
            assert(all.take(i - from + 1).drop_last() =~= all.take(i - from));
            assert(all.take(i - from + 1).last() == pieces@[i as int]@);
        }
        let p = &pieces[i];
        if p.len() == 0 || chars_are(p, ".") {
        } else if chars_are(p, "..") {
            let ghost before = r@;
            r.push(PathComp::Parent);
            assert(comps_of(r@) =~= comps_of(before).push(Comp::Parent));
            assert(start + body_comps(all.take(i - from + 1)) =~= (start + body_comps(all.take(i - from))).push(Comp::Parent));
        } else {
            let ghost before = r@;
            let c = vec_range(p, 0, p.len());
            assert(c@ =~= p@);
            r.push(PathComp::Normal(c));
            assert(comps_of(r@) =~= comps_of(before).push(Comp::Normal(p@)));
            assert(start + body_comps(all.take(i - from + 1)) =~= (start + body_comps(all.take(i - from))).push(Comp::Normal(p@)));
        }
        i = i + 1;
    }
    assert(all.take(pieces.len() - from) =~= all);
}

/// The components of a path.
pub fn path_components(s: &str) -> (r: Vec<PathComp>)
    ensures
        comps_of(r@) == components(s@),
{
    let v = chars_of(s);
    let pieces = split_pieces(&v, &Sep::Char('/'));
    proof {
        crate::text::lemma_split_on_len(v@, Sep::Char('/'));
        assert(pieces.deep_view().skip(0) =~= pieces.deep_view());
        assert(pieces.deep_view().skip(1) =~= pieces.deep_view().drop_first());
        lemma_chars_deep(pieces@[0]);
    }
    let mut r: Vec<PathComp> = Vec::new();
    if v.len() > 0 && v[0] == '/' {
        r.push(PathComp::Root);
        assert(comps_of(r@) =~= seq![Comp::Root]);
        push_body(&mut r, &pieces, 1);
    } else if chars_are(&pieces[0], ".") {
        r.push(PathComp::Cur);
        assert(comps_of(r@) =~= seq![Comp::Cur]);
        push_body(&mut r, &pieces, 1);
    } else {
        assert(comps_of(r@) =~= Seq::<Comp>::empty());
        push_body(&mut r, &pieces, 0);
        assert(Seq::<Comp>::empty() + body_comps(pieces.deep_view()) =~= body_comps(pieces.deep_view()));
    }
    r
}

fn same_comp(a: &PathComp, b: &PathComp) -> (r: bool)
    ensures
        r == (a.comp() == b.comp()),
{
    match (a, b) {
        (PathComp::Root, PathComp::Root) => true,
        (PathComp::Cur, PathComp::Cur) => true,
        (PathComp::Parent, PathComp::Parent) => true,
        (PathComp::Normal(x), PathComp::Normal(y)) => crate::text::chars_eq(x, y),
        _ => false,
    }
}

/// Whether `child` is `root` or lies under it, component by component.
pub open spec fn within(child: Seq<char>, root: Seq<char>) -> bool {
    components(root).is_prefix_of(components(child))
}

/// Whether `child` is `root` or lies under it.
pub fn path_is_within(child: &str, root: &str) -> (b: bool)
    ensures
        b == within(child@, root@),
{
    let c = path_components(child);
    let r = path_components(root);
    assert(comps_of(r@).len() == r@.len());
    assert(comps_of(c@).len() == c@.len());
    if r.len() > c.len() {
        assert(components(root@).len() > components(child@).len());
        return false;
    }
    let mut i: usize = 0;
    while i < r.len()
        invariant
            r.len() <= c.len(),
            i <= r.len(),
            comps_of(r@) == components(root@),
            comps_of(c@) == components(child@),
            comps_of(r@).len() == r@.len(),
            comps_of(c@).len() == c@.len(),
            forall|j: int| 0 <= j < i ==> comps_of(r@)[j] == comps_of(c@)[j],
        decreases r.len() - i,
    {
        if !same_comp(&r[i], &c[i]) {
            assert(comps_of(r@)[i as int] != comps_of(c@)[i as int]);
            assert(comps_of(c@).subrange(0, r.len() as int)[i as int] == comps_of(c@)[i as int]);
            assert(!(comps_of(r@) =~= comps_of(c@).subrange(0, r.len() as int)));
            return false;
        }
        i = i + 1;
    }
    assert(comps_of(r@) =~= comps_of(c@).subrange(0, r.len() as int));
    true
}

/// A NUL, line feed or carriage return anywhere.
pub open spec fn unsafe_chars(s: Seq<char>) -> bool {
    exists|i: int| 0 <= i < s.len() && (s[i] == '\0' || s[i] == '\n' || s[i] == '\r')
}

/// Whether a path holds a character no profile path may hold.
pub fn path_has_unsafe_chars(s: &str) -> (b: bool)
    ensures
        b == unsafe_chars(s@),
{
    let v = chars_of(s);
    let mut i: usize = 0;
    while i < v.len()
        invariant
            v@ == s@,
            i <= v.len(),
            forall|j: int| 0 <= j < i ==> !(v@[j] == '\0' || v@[j] == '\n' || v@[j] == '\r'),
        decreases v.len() - i,
    {
        if v[i] == '\0' || v[i] == '\n' || v[i] == '\r' {
            return true;
        }
        i = i + 1;
    }
    false
}

/// A trimmed path with a leading `~/` or a bare `~` taken to the home
/// directory, when there is one.
pub open spec fn expanded(path: Seq<char>, home: Option<Seq<char>>) -> Seq<char> {
    let p = trim(path);
    match home {
        Some(h) => if "~/"@.is_prefix_of(p) {
            join(h, p.skip("~/"@.len() as int))
        } else if p == "~"@ {
            h
        } else {
            p
        },
        None => p,
    }
}

/// Expands a leading `~` with the home directory the caller found.
pub fn expand_user_path(path: &str, home: Option<&str>) -> (r: String)
    ensures
        r@ == expanded(path@, match home {
            Some(h) => Some(h@),
            None => None,
        }),
{
    let p = trimmed(path);
    match home {
        Some(h) => {
            let pv = chars_of(p.as_str());
            if has_prefix(&pv, "~/") {
                let n = chars_of("~/").len();
                let rest = string_from_chars(&vec_range(&pv, n, pv.len()));
                assert(rest@ =~= p@.skip("~/"@.len() as int));
                join_path(h, rest.as_str())
            } else if chars_are(&pv, "~") {
                h.to_string()
            } else {
                p
            }
        },
        None => p,
    }
}

/// A path with a leading `~/` or a bare `~` taken to the home directory,
/// when there is one; the text is taken as written.
pub open spec fn home_expanded(p: Seq<char>, home: Option<Seq<char>>) -> Seq<char> {
    match home {
        Some(h) => if "~/"@.is_prefix_of(p) {
            join(h, p.skip("~/"@.len() as int))
        } else if p == "~"@ {
            h
        } else {
            p
        },
        None => p,
    }
}

/// Expands a leading `~` of an action's path with the home directory the
/// caller found.
pub fn shellexpand_home(path: &str, home: Option<&str>) -> (r: String)
    ensures
        r@ == home_expanded(path@, match home {
            Some(h) => Some(h@),
            None => None,
        }),
{
    match home {
        Some(h) => {
            let pv = chars_of(path);
            if has_prefix(&pv, "~/") {
                let n = chars_of("~/").len();
                let rest = string_from_chars(&vec_range(&pv, n, pv.len()));
                assert(rest@ =~= path@.skip("~/"@.len() as int));
                join_path(h, rest.as_str())
            } else if chars_are(&pv, "~") {
                h.to_string()
            } else {
                path.to_string()
            }
        },
        None => path.to_string(),
    }
}

/// Index of the last `'/'`, or -1.
pub open spec fn last_slash(t: Seq<char>) -> int
    decreases t.len(),
{
    if t.len() == 0 {
        -1
    } else if t.last() == '/' {
        t.len() - 1
    } else {
        last_slash(t.drop_last())
    }
}

proof fn lemma_last_slash(t: Seq<char>, i: int)
    requires
        -1 <= i < t.len(),
        forall|j: int| i < j < t.len() ==> #[trigger] t[j] != '/',
        i == -1 || t[i] == '/',
    ensures
        last_slash(t) == i,
    decreases t.len(),
{
    if t.len() > 0 && i < t.len() - 1 {
        assert(t.last() != '/');
        lemma_last_slash(t.drop_last(), i);
    }
}

/// `Path::parent` for the plain paths the store lives at: the text before
/// the last segment with trailing separators dropped, `/` for a segment
/// right under the root, empty for a bare name; nothing for an empty path
/// or the root itself.
pub open spec fn parent_of(s: Seq<char>) -> Option<Seq<char>> {
    let t = strip_end(s, '/');
    if t.len() == 0 {
        None
    } else {
        let i = last_slash(t);
        if i < 0 {
            Some(Seq::empty())
        } else {
            let head = strip_end(t.take(i), '/');
            if head.len() == 0 {
                Some("/"@)
            } else {
                Some(head)
            }
        }
    }
}

/// Length of `v[..to]` without its trailing `'/'`s.
fn strip_end_len(v: &Vec<char>, to: usize) -> (n: usize)
    requires
        to <= v.len(),
    ensures
        n <= to,
        v@.take(n as int) == strip_end(v@.take(to as int), '/'),
{
    let mut b = to;
    while b > 0 && v[b - 1] == '/'
        invariant
            b <= to <= v.len(),
            forall|j: int| b <= j < to ==> #[trigger] v@[j] == '/',
        decreases b,
    {
        b = b - 1;
    }
    proof {
        let t = v@.take(to as int);
        assert forall|j: int| b <= j < t.len() implies #[trigger] t[j] == '/' by {
            assert(t[j] == v@[j]);
        }
        if b > 0 {
            assert(t[b - 1] == v@[b - 1]);
        }
        lemma_strip_end(t, '/', b as int);
        assert(t.subrange(0, b as int) =~= v@.take(b as int));
    }
    b
}

/// The directory a path lies in.
pub fn parent_path(s: &str) -> (r: Option<String>)
    ensures
        match r {
            Some(p) => parent_of(s@) == Some(p@),
            None => parent_of(s@) is None,
        },
{
    let v = chars_of(s);
    let n = strip_end_len(&v, v.len());
    assert(v@.take(v.len() as int) =~= v@);
    if n == 0 {
        return None;
    }
    let ghost t = v@.take(n as int);
    let mut i = n;
    while i > 0 && v[i - 1] != '/'
        invariant
            i <= n <= v.len(),
            t == v@.take(n as int),
            forall|j: int| i <= j < n ==> #[trigger] v@[j] != '/',
        decreases i,
    {
        i = i - 1;
    }
    proof {
        assert forall|j: int| i <= j < t.len() implies #[trigger] t[j] != '/' by {
            assert(t[j] == v@[j]);
        }
        if i > 0 {
            assert(t[i - 1] == v@[i - 1]);
        }
        lemma_last_slash(t, i - 1);
    }
    if i == 0 {
        return Some(String::new());
    }
    let h = strip_end_len(&v, i - 1);
    proof {
        assert(t.take(i - 1) =~= v@.take(i - 1));
    }
    if h == 0 {
        return Some("/".to_string());
    }
    let head = string_from_chars(&vec_range(&v, 0, h));
    assert(head@ =~= v@.take(h as int));
    Some(head)
}

/// The directory the store file lives in (`.` when it has none).
pub fn config_dir_from_store(store_path: &str) -> (r: String)
    ensures
        r@ == match parent_of(store_path@) {
            Some(p) => p,
            None => "."@,
        },
{
    match parent_path(store_path) {
        Some(p) => p,
        None => ".".to_string(),
    }
}

/// The profiles directory beside the store file.
pub fn profiles_dir(store_path: &str) -> (r: String)
    ensures
        r@ == join(
            match parent_of(store_path@) {
                Some(p) => p,
                None => "."@,
            },
            "profiles"@,
        ),
{
    let d = config_dir_from_store(store_path);
    join_path(d.as_str(), "profiles")
}

/// The last component, when it is a name.
pub open spec fn file_name(s: Seq<char>) -> Option<Seq<char>> {
    let c = components(s);
    if c.len() > 0 {
        match c.last() {
            Comp::Normal(n) => Some(n),
            _ => None,
        }
    } else {
        None
    }
}

/// Index of the last `'.'`, or -1.
pub open spec fn last_dot(t: Seq<char>) -> int
    decreases t.len(),
{
    if t.len() == 0 {
        -1
    } else if t.last() == '.' {
        t.len() - 1
    } else {
        last_dot(t.drop_last())
    }
}

/// `Path::extension`: the text after the last `.` of the file name, when
/// that dot is not the name's first character.
pub open spec fn extension(s: Seq<char>) -> Option<Seq<char>> {
    match file_name(s) {
        Some(f) => if last_dot(f) > 0 {
            Some(f.skip(last_dot(f) + 1))
        } else {
            None
        },
        None => None,
    }
}

proof fn lemma_last_dot(t: Seq<char>, i: int)
    requires
        -1 <= i < t.len(),
        forall|j: int| i < j < t.len() ==> #[trigger] t[j] != '.',
        i == -1 || t[i] == '.',
    ensures
        last_dot(t) == i,
    decreases t.len(),
{
    if t.len() > 0 && i < t.len() - 1 {
        assert(t.last() != '.');
        lemma_last_dot(t.drop_last(), i);
    }
}

/// Whether a path's extension is `json` in any ASCII case.
pub fn has_json_extension(s: &str) -> (b: bool)
    ensures
        b == (extension(s@) matches Some(e) && crate::fire_api::lowered(e) == "json"@),
{
    let comps = path_components(s);
    if comps.len() == 0 {
        return false;
    }
    let f = match &comps[comps.len() - 1] {
        PathComp::Normal(n) => vec_range(n, 0, n.len()),
        _ => {
            return false;
        },
    };
    proof {
        assert(comps_of(comps@).last() == comps@[comps.len() - 1].comp());
        match &comps@[comps.len() - 1] {
            PathComp::Normal(n) => {
                assert(n@.subrange(0, n@.len() as int) =~= n@);
            },
            _ => {},
        }
    }
    let mut i = f.len();
    while i > 0 && f[i - 1] != '.'
        invariant
            i <= f.len(),
            forall|j: int| i <= j < f.len() ==> #[trigger] f@[j] != '.',
        decreases i,
    {
        i = i - 1;
    }
    proof {
        lemma_last_dot(f@, i - 1);
    }
    if i <= 1 {
        return false;
    }
    let ext = vec_range(&f, i, f.len());
    assert(ext@ =~= f@.skip(i as int));
    let mut low: Vec<char> = Vec::new();
    let mut k: usize = 0;
    while k < ext.len()
        invariant
            k <= ext.len(),
            low@ == ext@.take(k as int).map_values(|c: char| ascii_lower(c)),
        decreases ext.len() - k,
    {
        low.push(ascii_lower_char(ext[k]));
        assert(ext@.take(k + 1).map_values(|c: char| ascii_lower(c)) =~= ext@.take(k as int).map_values(
            |c: char| ascii_lower(c),
        ).push(ascii_lower(ext@[k as int])));
        k = k + 1;
    }
    assert(ext@.take(ext.len() as int) =~= ext@);
    chars_are(&low, "json")
}

/// Where a requested profile path points before the file system is asked:
/// a bare name (no `/` or `\`) is a `.json` file in the first allowed
/// directory; anything else is expanded from `~`. It must name a `.json`
/// file. Checked first: some allowed directory, a non-empty request, and
/// no NUL or line break.
pub open spec fn profile_request(requested: Seq<char>, first_root: Option<Seq<char>>, home: Option<Seq<char>>) -> Result<Seq<char>, Seq<char>> {
    let t = trim(requested);
    match first_root {
        None => Err("no allowed profile directories configured"@),
        Some(root) => if t.len() == 0 {
            Err("profile path required"@)
        } else if unsafe_chars(t) {
            Err("profile path contains invalid characters"@)
        } else {
            let bare = !t.contains('/') && !t.contains('\\');
            let path = if bare {
                join(root, if ".json"@.is_suffix_of(t) { t } else { t + ".json"@ })
            } else {
                expanded(t, home)
            };
            if extension(path) matches Some(e) && crate::fire_api::lowered(e) == "json"@ {
                Ok(path)
            } else {
                Err("profile import must be a .json file"@)
            }
        },
    }
}

fn has_char(v: &Vec<char>, c: char) -> (b: bool)
    ensures
        b == v@.contains(c),
{
    let mut i: usize = 0;
    while i < v.len()
        invariant
            i <= v.len(),
            forall|j: int| 0 <= j < i ==> v@[j] != c,
        decreases v.len() - i,
    {
        if v[i] == c {
            assert(v@[i as int] == c);
            return true;
        }
        i = i + 1;
    }
    false
}

/// The path a profile import request resolves to, before it is checked to
/// exist and to lie in an allowed directory.
pub fn resolve_profile_request(requested: &str, allowed_roots: &Vec<String>, home: Option<&str>) -> (r: Result<String, String>)
    ensures
        match r {
            Ok(p) => profile_request(
                requested@,
                if allowed_roots@.len() > 0 { Some(allowed_roots@[0]@) } else { None },
                match home { Some(h) => Some(h@), None => None },
            ) == Ok::<Seq<char>, Seq<char>>(p@),
            Err(e) => profile_request(
                requested@,
                if allowed_roots@.len() > 0 { Some(allowed_roots@[0]@) } else { None },
                match home { Some(h) => Some(h@), None => None },
            ) == Err::<Seq<char>, Seq<char>>(e@),
        },
{
    if allowed_roots.len() == 0 {
        return Err("no allowed profile directories configured".to_string());
    }
    let t = trimmed(requested);
    if t.as_str().is_empty() {
        return Err("profile path required".to_string());
    }
    if path_has_unsafe_chars(t.as_str()) {
        return Err("profile path contains invalid characters".to_string());
    }
    let tv = chars_of(t.as_str());
    let bare = !has_char(&tv, '/') && !has_char(&tv, '\\');
    let path = if bare {
        let json = chars_of(".json");
        let ends = if tv.len() >= json.len() {
            let tail = vec_range(&tv, tv.len() - json.len(), tv.len());
            let r = crate::text::chars_eq(&tail, &json);
            proof {
                if r {
                    assert(".json"@.is_suffix_of(t@)) by {
                        assert(t@.subrange(t@.len() - ".json"@.len(), t@.len() as int) =~= tail@);
                    }
                } else {
                    if ".json"@.is_suffix_of(t@) {
                        assert(t@.subrange(t@.len() - ".json"@.len(), t@.len() as int) =~= tail@);
                    }
                }
            }
            r
        } else {
            false
        };
        let mut name = t.clone();
        if !ends {
            push_all(&mut name, ".json");
        }
        join_path(allowed_roots[0].as_str(), name.as_str())
    } else {
        expand_user_path(t.as_str(), home)
    };
    if has_json_extension(path.as_str()) {
        Ok(path)
    } else {
        Err("profile import must be a .json file".to_string())
    }
}


/// The error when no allowed directory holds the requested profile.
pub open spec fn outside_roots_message() -> Seq<char> {
    "profile import path not allowed \u{2014} use ~/.config/hk-operator/profiles/ or hk-config/profiles/"@
}

/// The refusal of a profile that no allowed directory holds.
pub fn outside_roots_error() -> (e: String)
    ensures
        e@ == outside_roots_message(),
{
    "profile import path not allowed \u{2014} use ~/.config/hk-operator/profiles/ or hk-config/profiles/".to_string()
}

/// What one allowed directory, taken in order, says of a profile's
/// canonical path: the directory's canonical form holds it (the path is
/// accepted), the directory could not be resolved (that error ends the
/// search), or the next directory decides (`None`).
pub fn root_confines(canonical: &str, root: &Result<String, String>) -> (r: Option<Result<String, String>>)
    ensures
        root matches Err(e0) ==> (r matches Some(Err(e)) && e@ == e0@),
        root matches Ok(rc) && within(canonical@, rc@) ==> (r matches Some(Ok(p)) && p@ == canonical@),
        root matches Ok(rc) && !within(canonical@, rc@) ==> r is None,
{
    match root {
        Err(e) => Some(Err(e.clone())),
        Ok(rc) => if path_is_within(canonical, rc.as_str()) {
            Some(Ok(canonical.to_string()))
        } else {
            None
        },
    }
}

} // verus!
