//! Where the key-injection daemon's socket lives and who may use it: never a
//! shared `/tmp` path, and only the owner may reach the socket.

use vstd::prelude::*;
use crate::paths::join;

verus! {

broadcast use vstd::string::group_string_axioms;

/// The socket mode the daemon is started with: owner only.
pub const YDOTOOLD_SOCKET_MODE: &'static str = "0600";

/// The application's directory under the runtime or config directory.
pub const RUNTIME_APP_DIR: &'static str = "hk-operator";

/// Whether a mode gives group or others any access.
pub fn socket_mode_allows_non_owner(mode: u32) -> (b: bool)
    ensures
        b == (mode & 0o077u32 != 0),
{
    (mode & 0o077) != 0
}

/// Arguments for the daemon: `-p <socket> -P 0600`.
pub fn ydotoold_spawn_args(sock: &str) -> (r: Vec<String>)
    ensures
        r@.len() == 4,
        r@[0]@ == "-p"@,
        r@[1]@ == sock@,
        r@[2]@ == "-P"@,
        r@[3]@ == YDOTOOLD_SOCKET_MODE@,
{
    let mut r: Vec<String> = Vec::new();
    r.push("-p".to_string());
    r.push(sock.to_string());
    r.push("-P".to_string());
    r.push(YDOTOOLD_SOCKET_MODE.to_string());
    r
}

/// The socket path: `YDOTOOL_SOCKET` when set; else under a non-empty
/// runtime directory; else in the given config directory; else under the
/// user's config directory, or the current directory when there is none.
pub open spec fn socket_path(
    env_socket: Option<Seq<char>>,
    runtime_dir: Option<Seq<char>>,
    config_dir: Option<Seq<char>>,
    user_config_dir: Option<Seq<char>>,
) -> Seq<char> {
    match env_socket {
        Some(p) => p,
        None => match runtime_dir {
            Some(r) if r.len() > 0 => join(join(r, RUNTIME_APP_DIR@), "ydotool.sock"@),
            _ => match config_dir {
                Some(d) => join(d, "ydotool.sock"@),
                None => {
                    let base = match user_config_dir {
                        Some(u) => u,
                        None => "."@,
                    };
                    join(join(base, RUNTIME_APP_DIR@), "ydotool.sock"@)
                },
            },
        },
    }
}

pub open spec fn opt_str(o: Option<&str>) -> Option<Seq<char>> {
    match o {
        Some(s) => Some(s@),
        None => None,
    }
}

/// Chooses the socket path from what the environment gives.
pub fn resolve_ydotool_socket_path(
    env_socket: Option<&str>,
    runtime_dir: Option<&str>,
    config_dir: Option<&str>,
    user_config_dir: Option<&str>,
) -> (r: String)
    ensures
        r@ == socket_path(opt_str(env_socket), opt_str(runtime_dir), opt_str(config_dir), opt_str(user_config_dir)),
{
    if let Some(p) = env_socket {
        return p.to_string();
    }
    if let Some(rt) = runtime_dir {
        if !rt.is_empty() {
            let d = crate::paths::join_path(rt, RUNTIME_APP_DIR);
            return crate::paths::join_path(d.as_str(), "ydotool.sock");
        }
    }
    if let Some(d) = config_dir {
        return crate::paths::join_path(d, "ydotool.sock");
    }
    let base = match user_config_dir {
        Some(u) => u.to_string(),
        None => ".".to_string(),
    };
    let d = crate::paths::join_path(base.as_str(), RUNTIME_APP_DIR);
    crate::paths::join_path(d.as_str(), "ydotool.sock")
}

} // verus!
