//! Locating the `pcg_bin` executable: the build profile directories, the
//! binary's file name, and how a workspace directory, a cargo target
//! directory and a profile combine into the binary's path.
//!
//! What the process environment holds (`CARGO_TARGET_DIR`, `PCG_BIN_PATH`,
//! the operating system, whether a file exists) is read by the caller and
//! handed in as plain values.
use vstd::prelude::*;
use crate::text::push_str;

verus! {

/// Which build profile of `pcg_bin` to use.
#[derive(Clone, Copy, Debug, PartialEq, Eq, Structural)]
pub enum Target {
    Debug,
    Release,
}

/// The name of a profile's subdirectory.
pub open spec fn profile_dir_spec(t: Target) -> Seq<char> {
    match t {
        Target::Debug => "debug"@,
        Target::Release => "release"@,
    }
}

impl Target {
    /// Name of the cargo profile subdirectory (`debug` or `release`).
    pub fn profile_dir(self) -> (s: &'static str)
        ensures
            s@ == profile_dir_spec(self),
    {
        match self {
            Target::Debug => "debug",
            Target::Release => "release",
        }
    }

    /// Flag to pass to `cargo build` for this target, if any.
    pub fn cargo_flag(self) -> (f: Option<&'static str>)
        ensures
            self == Target::Debug ==> f.is_none(),
            self == Target::Release ==> f.is_some() && f.unwrap()@ == "--release"@,
    {
        match self {
            Target::Debug => None,
            Target::Release => Some("--release"),
        }
    }
}

/// File name of the `pcg_bin` executable on the given platform.
pub open spec fn pcg_bin_name_spec(windows: bool) -> Seq<char> {
    if windows { "pcg_bin.exe"@ } else { "pcg_bin"@ }
}

/// File name of the `pcg_bin` executable: `pcg_bin.exe` on Windows and
/// `pcg_bin` elsewhere.
pub fn pcg_bin_name(windows: bool) -> (s: &'static str)
    ensures
        s@ == pcg_bin_name_spec(windows),
{
    if windows {
        "pcg_bin.exe"
    } else {
        "pcg_bin"
    }
}

/// Joining a path component onto a base path: an absolute component replaces
/// the base, an empty base or one that ends in `/` is extended directly, and
/// otherwise a separator is put between the two.
pub open spec fn join_path_spec(base: Seq<char>, component: Seq<char>) -> Seq<char> {
    if component.len() > 0 && component[0] == '/' {
        component
    } else if base.len() == 0 || base.last() == '/' {
        base + component
    } else {
        base + "/"@ + component
    }
}

/// Joins `component` onto `base` as a path.
pub fn join_path(base: &str, component: &str) -> (s: String)
    ensures
        s@ == join_path_spec(base@, component@),
{
    proof {
        reveal_strlit("/");
    }
    let clen = component.unicode_len();
    if clen > 0 && component.get_char(0) == '/' {
        return String::from_str(component);
    }
    let blen = base.unicode_len();
    let mut s = String::from_str(base);
    if !(blen == 0 || base.get_char(blen - 1) == '/') {
        push_str(&mut s, "/");
    }
    push_str(&mut s, component);
    s
}

/// The path of `pcg_bin` inside the workspace `workspace_dir`.
pub open spec fn find_pcg_bin_spec(
    workspace_dir: Seq<char>,
    target_dir: Seq<char>,
    target: Target,
    windows: bool,
) -> Seq<char> {
    join_path_spec(
        join_path_spec(join_path_spec(workspace_dir, target_dir), profile_dir_spec(target)),
        pcg_bin_name_spec(windows),
    )
}

/// Path to the built `pcg_bin` executable, assuming `pcg-bin` is its own
/// workspace rooted at `pcg_bin_workspace_dir` and that cargo builds into
/// `target_dir` (the value of `CARGO_TARGET_DIR`, or `target`).
pub fn find_pcg_bin(pcg_bin_workspace_dir: &str, target_dir: &str, target: Target, windows: bool) -> (p: String)
    ensures
        p@ == find_pcg_bin_spec(pcg_bin_workspace_dir@, target_dir@, target, windows),
{
    let a = join_path(pcg_bin_workspace_dir, target_dir);
    let b = join_path(a.as_str(), target.profile_dir());
    join_path(b.as_str(), pcg_bin_name(windows))
}

/// The cargo target directory: the value of `CARGO_TARGET_DIR` if it is set,
/// and `target` otherwise.
pub fn target_dir(cargo_target_dir: Option<&str>) -> (s: String)
    ensures
        cargo_target_dir.is_some() ==> s@ == cargo_target_dir.unwrap()@,
        cargo_target_dir.is_none() ==> s@ == "target"@,
{
    match cargo_target_dir {
        Some(d) => String::from_str(d),
        None => String::from_str("target"),
    }
}

/// Where the server looks for `pcg_bin`: the explicit path if one is given;
/// else the development layout `../pcg-bin/<target_dir>/release/pcg_bin` if
/// that file exists; else the shared layout `../<target_dir>/release/pcg_bin`.
pub open spec fn server_bin_spec(
    explicit: Option<Seq<char>>,
    target_dir: Seq<char>,
    dev_exists: bool,
    windows: bool,
) -> Seq<char> {
    match explicit {
        Some(p) => p,
        None => if dev_exists {
            find_pcg_bin_spec("../pcg-bin"@, target_dir, Target::Release, windows)
        } else {
            find_pcg_bin_spec(".."@, target_dir, Target::Release, windows)
        },
    }
}

/// The development-layout candidate that the server checks for existence
/// before falling back to the shared layout.
pub fn server_dev_candidate(target_dir: &str, windows: bool) -> (p: String)
    ensures
        p@ == find_pcg_bin_spec("../pcg-bin"@, target_dir@, Target::Release, windows),
{
    find_pcg_bin("../pcg-bin", target_dir, Target::Release, windows)
}

/// Locate `pcg_bin` for `pcg-server`, given the value of `PCG_BIN_PATH`,
/// the target directory, and whether the development-layout binary exists.
pub fn find_pcg_bin_for_server(explicit: Option<&str>, target_dir: &str, dev_exists: bool, windows: bool) -> (p: String)
    ensures
        p@ == server_bin_spec(
            match explicit { Some(e) => Some(e@), None => None },
            target_dir@,
            dev_exists,
            windows,
        ),
{
    match explicit {
        Some(e) => String::from_str(e),
        None => {
            if dev_exists {
                server_dev_candidate(target_dir, windows)
            } else {
                find_pcg_bin("..", target_dir, Target::Release, windows)
            }
        },
    }
}

} // verus!
