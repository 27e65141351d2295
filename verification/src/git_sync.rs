//! Git-backed profile sync: where the profiles repository lives, profile
//! file names, and what the `git` and `gh` runs' output decides. Running
//! the processes and touching files is the application's.

use vstd::prelude::*;
use crate::text::{
    chars_of, trim, trimmed, trimmed_chars, lines, lines_of, lemma_chars_deep, vec_range, string_from_chars,
    split_nonempty, Sep, push_all, push_char, contains, contains_at, find_infix, chars_are, has_prefix,
};
use crate::dongle::first_word;
use crate::paths::{join, join_path};

verus! {

broadcast use vstd::string::group_string_axioms;

/// Sync settings kept in the config directory's `settings.json`.
pub struct GitSyncSettings {
    pub remote: Option<String>,
    pub last_pull_at: Option<u64>,
    pub last_push_at: Option<u64>,
    pub active_profile: Option<String>,
}

impl Default for GitSyncSettings {
    fn default() -> (s: Self)
        ensures
            s.remote is None,
            s.last_pull_at is None,
            s.last_push_at is None,
            s.active_profile is None,
    {
        GitSyncSettings { remote: None, last_pull_at: None, last_push_at: None, active_profile: None }
    }
}

/// What `gh auth status` says.
pub struct GhAuthStatus {
    pub logged_in: bool,
    pub user: Option<String>,
    pub detail: String,
}

/// The sync state shown to the operator.
pub struct GitSyncStatus {
    pub config_dir: String,
    pub repo_path: String,
    pub repo_exists: bool,
    pub remote: Option<String>,
    pub branch: Option<String>,
    pub dirty: bool,
    pub profiles: Vec<String>,
    pub auth: GhAuthStatus,
    pub settings: GitSyncSettings,
}

pub open spec fn opt_text(o: Option<String>) -> Option<Seq<char>> {
    match o {
        Some(s) => Some(s@),
        None => None,
    }
}

/// The profiles repository: `hk-config` in the config directory.
pub fn hk_config_dir(config_dir: &str) -> (r: String)
    ensures
        r@ == join(config_dir@, "hk-config"@),
{
    join_path(config_dir, "hk-config")
}

/// The repository's `profiles` directory.
pub fn profiles_repo_dir(config_dir: &str) -> (r: String)
    ensures
        r@ == join(join(config_dir@, "hk-config"@), "profiles"@),
{
    let repo = hk_config_dir(config_dir);
    join_path(repo.as_str(), "profiles")
}

/// The settings file.
pub fn settings_path(config_dir: &str) -> (r: String)
    ensures
        r@ == join(config_dir@, "settings.json"@),
{
    join_path(config_dir, "settings.json")
}

/// A character a profile name may not hold: a path separator or NUL.
pub open spec fn unsafe_name_char(c: char) -> bool {
    c == '/' || c == '\\' || c == '\0'
}

/// A profile name made safe: trimmed, each separator or NUL replaced by
/// `'_'`.
pub open spec fn sanitized(name: Seq<char>) -> Seq<char> {
    trim(name).map_values(|c: char| if unsafe_name_char(c) { '_' } else { c })
}

/// Makes a profile name safe to use as a file name; a blank name is
/// refused.
pub fn sanitize_profile_name(name: &str) -> (r: Result<String, String>)
    ensures
        sanitized(name@).len() == 0 ==> (r matches Err(e) && e@ == "profile name required"@),
        sanitized(name@).len() > 0 ==> (r matches Ok(s) && s@ == sanitized(name@)),
{
    let t = trimmed(name);
    let v = chars_of(t.as_str());
    let mut out = String::new();
    let mut i: usize = 0;
    while i < v.len()
        invariant
            i <= v.len(),
            v@ == trim(name@),
            out@ == v@.take(i as int).map_values(|c: char| if unsafe_name_char(c) { '_' } else { c }),
        decreases v.len() - i,
    {
        let c = v[i];
        let d = if c == '/' || c == '\\' || c == '\0' {
            '_'
        } else {
            c
        };
        push_char(&mut out, d);
        assert(v@.take(i + 1).map_values(|c: char| if unsafe_name_char(c) { '_' } else { c }) =~= v@.take(
            i as int,
        ).map_values(|c: char| if unsafe_name_char(c) { '_' } else { c }).push(d));
        i = i + 1;
    }
    assert(v@.take(v.len() as int) =~= v@);
    if v.len() == 0 {
        return Err("profile name required".to_string());
    }
    Ok(out)
}

/// Where a named profile lives in the repository.
pub fn profile_file_path(config_dir: &str, name: &str) -> (r: Result<String, String>)
    ensures
        sanitized(name@).len() == 0 ==> (r matches Err(e) && e@ == "profile name required"@),
        sanitized(name@).len() > 0 ==> (r matches Ok(p) && p@ == join(
            join(join(config_dir@, "hk-config"@), "profiles"@),
            sanitized(name@) + ".json"@,
        )),
{
    let mut file = sanitize_profile_name(name)?;
    push_all(&mut file, ".json");
    let dir = profiles_repo_dir(config_dir);
    Ok(join_path(dir.as_str(), file.as_str()))
}

/// The first place `pat` occurs in `l`.
pub open spec fn first_at(l: Seq<char>, pat: Seq<char>) -> int {
    choose|i: int| contains_at(l, pat, i) && forall|k: int| 0 <= k < i ==> !#[trigger] contains_at(l, pat, k)
}

/// The account a `gh auth status` line names: the first word after its
/// first `"account "`, when there is one.
pub open spec fn account_user(l: Seq<char>) -> Option<Seq<char>> {
    if contains(l, "account "@) {
        let w = first_word(l.skip(first_at(l, "account "@) + "account "@.len()));
        if w.len() > 0 {
            Some(w)
        } else {
            None
        }
    } else {
        None
    }
}

/// The account the first line that names one names.
pub open spec fn detail_user(ls: Seq<Seq<char>>) -> Option<Seq<char>>
    decreases ls.len(),
{
    if ls.len() == 0 {
        None
    } else {
        match account_user(ls[0]) {
            Some(u) => Some(u),
            None => detail_user(ls.drop_first()),
        }
    }
}

fn account_of_line(l: &Vec<char>) -> (r: Option<String>)
    ensures
        opt_text(r) == account_user(l@),
{
    let pat = chars_of("account ");
    match find_infix(l, &pat) {
        None => None,
        Some(i) => {
            proof {
                let j = first_at(l@, "account "@);
                assert(contains_at(l@, "account "@, i as int));
                assert(contains_at(l@, "account "@, j) && forall|k: int| 0 <= k < j ==> !#[trigger] contains_at(
                    l@,
                    "account "@,
                    k,
                ));
                if j < i {
                    assert(!contains_at(l@, "account "@, j));
                }
                if i < j {
                    assert(!contains_at(l@, "account "@, i as int));
                }
            }
            assert(i + pat.len() <= l.len()) by {
                assert(pat@ == "account "@);
            }
            let rest = vec_range(l, i + pat.len(), l.len());
            assert(rest@ =~= l@.skip(i + "account "@.len()));
            let ws = split_nonempty(&rest, &Sep::Space);
            if ws.len() > 0 && ws[0].len() > 0 {
                proof {
                    lemma_chars_deep(ws@[0]);
                }
                Some(string_from_chars(&ws[0]))
            } else {
                proof {
                    if ws.len() > 0 {
                        lemma_chars_deep(ws@[0]);
                    }
                }
                None
            }
        },
    }
}

fn user_of_detail(detail: &str) -> (r: Option<String>)
    ensures
        opt_text(r) == detail_user(lines(detail@)),
{
    let v = chars_of(detail);
    let ls = lines_of(&v);
    let ghost all = ls.deep_view();
    let mut i: usize = 0;
    assert(all.skip(0) =~= all);
    while i < ls.len()
        invariant
            i <= ls.len(),
            all == ls.deep_view(),
            all == lines(detail@),
            detail_user(all) == detail_user(all.skip(i as int)),
        decreases ls.len() - i,
    {
        proof {
            lemma_chars_deep(ls@[i as int]);
            assert(all.skip(i as int)[0] == all[i as int]);
            assert(all.skip(i as int).drop_first() =~= all.skip(i + 1));
        }
        match account_of_line(&ls[i]) {
            Some(u) => {
                return Some(u);
            },
            None => {},
        }
        i = i + 1;
    }
    assert(all.skip(i as int).len() == 0);
    None
}

/// What a `gh auth status --hostname github.com` run says: its exit code,
/// standard output and standard error, or why it could not start. Exit 0
/// means logged in; the account comes from the first line naming one.
pub fn gh_auth_status(probe: Result<(i32, String, String), String>) -> (r: GhAuthStatus)
    ensures
        match probe {
            Ok((code, out, err)) => if code == 0 {
                let d = if trim(out@).len() == 0 {
                    err@
                } else {
                    out@
                };
                r.logged_in && opt_text(r.user) == detail_user(lines(d)) && r.detail@ == trim(d)
            } else {
                !r.logged_in && r.user is None && r.detail@ == trim(out@ + err@)
            },
            Err(e) => !r.logged_in && r.user is None && r.detail@ == e@,
        },
{
    match probe {
        Ok((code, out, err)) => {
            if code == 0 {
                let detail = if trimmed(out.as_str()).as_str().is_empty() {
                    err
                } else {
                    out
                };
                let user = user_of_detail(detail.as_str());
                GhAuthStatus { logged_in: true, user, detail: trimmed(detail.as_str()) }
            } else {
                let mut both = out;
                push_all(&mut both, err.as_str());
                GhAuthStatus { logged_in: false, user: None, detail: trimmed(both.as_str()) }
            }
        },
        Err(e) => GhAuthStatus { logged_in: false, user: None, detail: e },
    }
}

/// Fills a missing account from a `gh api user -q .login` run: its trimmed
/// output when it exits 0 with some.
pub fn login_fallback(status: GhAuthStatus, probe: Result<(i32, String, String), String>) -> (r: GhAuthStatus)
    ensures
        r.logged_in == status.logged_in,
        r.detail == status.detail,
        status.user is Some ==> r.user == status.user,
        status.user is None ==> opt_text(r.user) == match probe {
            Ok((code, out, _)) => if code == 0 && trim(out@).len() > 0 {
                Some(trim(out@))
            } else {
                None
            },
            Err(_) => None,
        },
{
    if status.user.is_some() {
        return status;
    }
    let user = match probe {
        Ok((code, out, _)) => {
            let t = trimmed(out.as_str());
            if code == 0 && !t.as_str().is_empty() {
                Some(t)
            } else {
                None
            }
        },
        Err(_) => None,
    };
    GhAuthStatus { logged_in: status.logged_in, user, detail: status.detail }
}

/// The remote forms accepted: GitHub over HTTPS (`https://github.com/...`)
/// or SSH (`git@github.com:...` or `ssh://git@github.com/...`), with a
/// non-empty path. Other schemes (`http`, `file`, ...) and other hosts are
/// refused.
pub open spec fn github_remote(u: Seq<char>) -> bool {
    ||| "https://github.com/"@.is_prefix_of(u) && u.len() > "https://github.com/"@.len()
    ||| "git@github.com:"@.is_prefix_of(u) && u.len() > "git@github.com:"@.len()
    ||| "ssh://git@github.com/"@.is_prefix_of(u) && u.len() > "ssh://git@github.com/"@.len()
}

/// The refusal of a remote that is not on GitHub.
pub open spec fn foreign_remote_message(u: Seq<char>) -> Seq<char> {
    "remote must be a github.com HTTPS or SSH URL, got "@ + u
}

fn after_prefix(v: &Vec<char>, prefix: &str) -> (b: bool)
    ensures
        b == (prefix@.is_prefix_of(v@) && v@.len() > prefix@.len()),
{
    has_prefix(v, prefix) && v.len() > chars_of(prefix).len()
}

/// Checks that a remote URL is a GitHub HTTPS or SSH remote.
pub fn validate_git_remote_url(url: &str) -> (r: Result<(), String>)
    ensures
        r is Ok <==> github_remote(url@),
        r matches Err(e) ==> e@ == foreign_remote_message(url@),
{
    let v = chars_of(url);
    if after_prefix(&v, "https://github.com/") || after_prefix(&v, "git@github.com:") || after_prefix(
        &v,
        "ssh://git@github.com/",
    ) {
        Ok(())
    } else {
        let mut m = "remote must be a github.com HTTPS or SSH URL, got ".to_string();
        push_all(&mut m, url);
        Err(m)
    }
}

/// The remote URL to set: trimmed, required, and on GitHub.
pub fn remote_url(remote: &str) -> (r: Result<String, String>)
    ensures
        trim(remote@).len() == 0 ==> (r matches Err(e) && e@ == "remote URL required"@),
        trim(remote@).len() > 0 && !github_remote(trim(remote@)) ==> (r matches Err(e) && e@
            == foreign_remote_message(trim(remote@))),
        trim(remote@).len() > 0 && github_remote(trim(remote@)) ==> (r matches Ok(u) && u@ == trim(remote@)),
{
    let t = trimmed(remote);
    if t.as_str().is_empty() {
        return Err("remote URL required".to_string());
    }
    validate_git_remote_url(t.as_str())?;
    Ok(t)
}

/// Whether `git remote` listed `origin`.
pub open spec fn origin_listed(listing: Seq<char>) -> bool {
    exists|i: int| 0 <= i < lines(listing).len() && trim(#[trigger] lines(listing)[i]) == "origin"@
}

fn lists_origin(listing: &str) -> (b: bool)
    ensures
        b == origin_listed(listing@),
{
    let v = chars_of(listing);
    let ls = lines_of(&v);
    let ghost all = ls.deep_view();
    let mut i: usize = 0;
    while i < ls.len()
        invariant
            i <= ls.len(),
            all == ls.deep_view(),
            all == lines(listing@),
            forall|j: int| 0 <= j < i ==> trim(#[trigger] all[j]) != "origin"@,
        decreases ls.len() - i,
    {
        proof {
            lemma_chars_deep(ls@[i as int]);
        }
        let t = trimmed_chars(&ls[i]);
        if chars_are(&t, "origin") {
            assert(trim(lines(listing@)[i as int]) == "origin"@);
            return true;
        }
        i = i + 1;
    }
    false
}

/// One `git -C <repo>` run: its arguments, and whether its failure fails
/// the whole operation.
pub struct GitCall {
    pub args: Vec<String>,
    pub must_succeed: bool,
}

pub open spec fn texts(v: Seq<String>) -> Seq<Seq<char>> {
    v.map_values(|s: String| s@)
}

fn strings(parts: &Vec<&str>) -> (r: Vec<String>)
    ensures
        texts(r@) == parts@.map_values(|s: &str| s@),
{
    let mut r: Vec<String> = Vec::new();
    let mut i: usize = 0;
    while i < parts.len()
        invariant
            i <= parts.len(),
            texts(r@) == parts@.take(i as int).map_values(|s: &str| s@),
        decreases parts.len() - i,
    {
        r.push(parts[i].to_string());
        assert(parts@.take(i + 1).map_values(|s: &str| s@) =~= parts@.take(i as int).map_values(|s: &str| s@).push(
            parts@[i as int]@,
        ));
        assert(texts(r@) =~= texts(r@.drop_last()).push(r@.last()@));
        i = i + 1;
    }
    assert(parts@.take(parts.len() as int) =~= parts@);
    r
}

/// The `git` runs that point `origin` at `remote`, given what `git remote`
/// printed: change the URL when `origin` exists, add it when not, and when
/// the listing failed, remove any `origin` (whatever happens) and add it.
pub fn remote_calls(remote: &str, listing: Result<String, String>) -> (r: Vec<GitCall>)
    ensures
        listing matches Ok(s) && origin_listed(s@) ==> r@.len() == 1 && texts(r@[0].args@) == seq![
            "remote"@,
            "set-url"@,
            "origin"@,
            remote@,
        ] && r@[0].must_succeed,
        listing matches Ok(s) && !origin_listed(s@) ==> r@.len() == 1 && texts(r@[0].args@) == seq![
            "remote"@,
            "add"@,
            "origin"@,
            remote@,
        ] && r@[0].must_succeed,
        listing is Err ==> r@.len() == 2 && texts(r@[0].args@) == seq!["remote"@, "remove"@, "origin"@]
            && !r@[0].must_succeed && texts(r@[1].args@) == seq!["remote"@, "add"@, "origin"@, remote@]
            && r@[1].must_succeed,
{
    let mut r: Vec<GitCall> = Vec::new();
    match listing {
        Ok(s) => {
            if lists_origin(s.as_str()) {
                let parts = vec!["remote", "set-url", "origin", remote];
                let args = strings(&parts);
                proof {
                    assert(parts@.map_values(|s: &str| s@) =~= seq!["remote"@, "set-url"@, "origin"@, remote@]);
                }
                r.push(GitCall { args, must_succeed: true });
            } else {
                let parts = vec!["remote", "add", "origin", remote];
                let args = strings(&parts);
                proof {
                    assert(parts@.map_values(|s: &str| s@) =~= seq!["remote"@, "add"@, "origin"@, remote@]);
                }
                r.push(GitCall { args, must_succeed: true });
            }
        },
        Err(_) => {
            let parts = vec!["remote", "remove", "origin"];
            let args = strings(&parts);
            proof {
                assert(parts@.map_values(|s: &str| s@) =~= seq!["remote"@, "remove"@, "origin"@]);
            }
            r.push(GitCall { args, must_succeed: false });
            let parts2 = vec!["remote", "add", "origin", remote];
            let args2 = strings(&parts2);
            proof {
                assert(parts2@.map_values(|s: &str| s@) =~= seq!["remote"@, "add"@, "origin"@, remote@]);
            }
            r.push(GitCall { args: args2, must_succeed: true });
        },
    }
    r
}

/// A pull needs a remote: the one in the settings, else `origin`.
pub fn remote_known(settings_remote: &Option<String>, origin: &Option<String>) -> (r: Result<(), String>)
    ensures
        r is Ok <==> (settings_remote is Some || origin is Some),
        r matches Err(e) ==> e@ == "No remote set \u{2014} add a GitHub URL first"@,
{
    if settings_remote.is_none() && origin.is_none() {
        return Err("No remote set \u{2014} add a GitHub URL first".to_string());
    }
    Ok(())
}

/// What a pull reports: a fast-forward of `main`, or when that fails, of
/// `master`; if both fail, the `main` error.
pub fn pull_message(main: Result<String, String>, master: Option<Result<String, String>>) -> (r: Result<
    String,
    String,
>)
    requires
        main is Err ==> master is Some,
    ensures
        main matches Ok(s) ==> (r matches Ok(m) && m@ == if s@.len() == 0 {
            "Already up to date"@
        } else {
            s@
        }),
        main matches Err(e) ==> match master {
            Some(Ok(s)) => r matches Ok(m) && m@ == s@,
            _ => r matches Err(m) && m@ == e@,
        },
{
    match main {
        Ok(s) => {
            if s.as_str().is_empty() {
                Ok("Already up to date".to_string())
            } else {
                Ok(s)
            }
        },
        Err(e) => match master {
            Some(Ok(s)) => Ok(s),
            _ => Err(e),
        },
    }
}

/// Whether `git status --porcelain` shows changes.
pub fn porcelain_dirty(status: &str) -> (b: bool)
    ensures
        b == (trim(status@).len() > 0),
{
    !trimmed(status).as_str().is_empty()
}

/// What a push reports: the push of `HEAD`, or when that fails, of `main`;
/// when both fail, the first error is reported as the message; empty output
/// reads `Pushed`.
pub fn push_message(head: Result<String, String>, main: Option<Result<String, String>>) -> (r: String)
    requires
        head is Err ==> main is Some,
    ensures
        ({
            let m = match head {
                Ok(s) => s@,
                Err(e) => match main {
                    Some(Ok(s)) => s@,
                    _ => e@,
                },
            };
            r@ == if m.len() == 0 {
                "Pushed"@
            } else {
                m
            }
        }),
{
    let msg = match head {
        Ok(s) => s,
        Err(e) => match main {
            Some(Ok(s)) => s,
            _ => e,
        },
    };
    if msg.as_str().is_empty() {
        "Pushed".to_string()
    } else {
        msg
    }
}

/// The `gh repo create` arguments for a new repository from `source`;
/// refused without a GitHub login or a repository name.
pub fn repo_create_args(auth: &GhAuthStatus, repo_name: &str, private: bool, source: &str) -> (r: Result<
    Vec<String>,
    String,
>)
    ensures
        !auth.logged_in ==> (r matches Err(e) && e@ == "GitHub auth required \u{2014} click Login first"@),
        auth.logged_in && trim(repo_name@).len() == 0 ==> (r matches Err(e) && e@ == "repo name required"@),
        auth.logged_in && trim(repo_name@).len() > 0 ==> (r matches Ok(a) && texts(a@) == seq![
            "repo"@,
            "create"@,
            trim(repo_name@),
            if private {
                "--private"@
            } else {
                "--public"@
            },
            "--source"@,
            source@,
            "--remote"@,
            "origin"@,
            "--push"@,
        ]),
{
    if !auth.logged_in {
        return Err("GitHub auth required \u{2014} click Login first".to_string());
    }
    let name = trimmed(repo_name);
    if name.as_str().is_empty() {
        return Err("repo name required".to_string());
    }
    let visibility = if private {
        "--private"
    } else {
        "--public"
    };
    let parts = vec!["repo", "create", name.as_str(), visibility, "--source", source, "--remote", "origin", "--push"];
    let args = strings(&parts);
    proof {
        assert(parts@.map_values(|s: &str| s@) =~= seq![
            "repo"@,
            "create"@,
            trim(repo_name@),
            if private {
                "--private"@
            } else {
                "--public"@
            },
            "--source"@,
            source@,
            "--remote"@,
            "origin"@,
            "--push"@,
        ]);
    }
    Ok(args)
}

/// The SSH URL of `user`'s repository `repo_name` on GitHub.
pub open spec fn ssh_url(user: Seq<char>, repo_name: Seq<char>) -> Seq<char> {
    "git@github.com:"@ + user + "/"@ + repo_name + ".git"@
}

fn ssh_remote(user: &str, repo_name: &str) -> (r: String)
    ensures
        r@ == ssh_url(user@, repo_name@),
{
    let mut r = "git@github.com:".to_string();
    push_all(&mut r, user);
    push_all(&mut r, "/");
    push_all(&mut r, repo_name);
    push_all(&mut r, ".git");
    r
}

/// When `gh repo create` fails, the repository may already exist: its URL
/// under the logged-in account, when there is one.
pub fn existing_repo_url(user: &Option<String>, repo_name: &str) -> (r: Option<String>)
    ensures
        match user {
            Some(u) => if u@.len() > 0 {
                r matches Some(x) && x@ == ssh_url(u@, repo_name@)
            } else {
                r is None
            },
            None => r is None,
        },
{
    match user {
        Some(u) => {
            if u.as_str().is_empty() {
                None
            } else {
                Some(ssh_remote(u.as_str(), repo_name))
            }
        },
        None => None,
    }
}

/// The remote a created repository is recorded with: `origin`'s URL, else
/// the account's SSH URL, else nothing.
pub fn created_remote(origin: Result<String, String>, user: &Option<String>, repo_name: &str) -> (r: String)
    ensures
        origin matches Ok(o) ==> r@ == o@,
        origin is Err ==> r@ == match user {
            Some(u) => ssh_url(u@, repo_name@),
            None => Seq::<char>::empty(),
        },
{
    match origin {
        Ok(o) => o,
        Err(_) => match user {
            Some(u) => ssh_remote(u.as_str(), repo_name),
            None => String::new(),
        },
    }
}

/// The sync state from what was found: `origin` (else the configured
/// remote), the branch and the working tree count only when the
/// repository exists.
pub fn sync_status(
    config_dir: String,
    repo_path: String,
    repo_exists: bool,
    settings: GitSyncSettings,
    origin: Option<String>,
    branch: Option<String>,
    porcelain: Option<String>,
    profiles: Vec<String>,
    auth: GhAuthStatus,
) -> (r: GitSyncStatus)
    ensures
        r.config_dir == config_dir,
        r.repo_path == repo_path,
        r.repo_exists == repo_exists,
        opt_text(r.remote) == if repo_exists && origin is Some {
            opt_text(origin)
        } else {
            opt_text(settings.remote)
        },
        r.branch == if repo_exists {
            branch
        } else {
            None
        },
        r.dirty == (repo_exists && (porcelain matches Some(p) && trim(p@).len() > 0)),
        r.profiles == profiles,
        r.auth == auth,
        r.settings == settings,
{
    let remote = if repo_exists && origin.is_some() {
        origin
    } else {
        match &settings.remote {
            Some(s) => Some(s.clone()),
            None => None,
        }
    };
    let branch = if repo_exists {
        branch
    } else {
        None
    };
    let dirty = repo_exists && match &porcelain {
        Some(p) => porcelain_dirty(p.as_str()),
        None => false,
    };
    GitSyncStatus { config_dir, repo_path, repo_exists, remote, branch, dirty, profiles, auth, settings }
}

} // verus!
