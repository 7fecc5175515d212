//! What the status server answers.

use vstd::prelude::*;

verus! {

/// What is served under a path.
#[derive(Clone, Copy, PartialEq, Eq, Debug, Structural)]
pub enum Served {
    /// That the node is alive.
    Health,
    /// The status report.
    Status,
    /// A file of the user interface, if there is one of that name.
    File,
    /// Nothing.
    NotFound,
}

/// What is served under a path. The two fixed paths come before any file.
pub open spec fn served(path: Seq<char>, has_web_dir: bool) -> Served {
    if path == "/healthz"@ {
        Served::Health
    } else if path == "/api/status"@ {
        Served::Status
    } else if has_web_dir {
        Served::File
    } else {
        Served::NotFound
    }
}

/// Whether a page from this origin may read the answers. The status tells
/// where the peers are, so only the desktop shell may.
pub open spec fn may_read(origin: Seq<char>) -> bool {
    origin == "tauri://localhost"@ || origin == "http://tauri.localhost"@
}

/// Tells what is served under a path.
pub fn serve_path(path: &str, has_web_dir: bool) -> (s: Served)
    ensures
        s == served(path@, has_web_dir),
{
    let path = path.to_owned();
    if path == "/healthz".to_owned() {
        Served::Health
    } else if path == "/api/status".to_owned() {
        Served::Status
    } else if has_web_dir {
        Served::File
    } else {
        Served::NotFound
    }
}

/// Tells whether a page from this origin may read the answers.
pub fn allows_origin(origin: &str) -> (yes: bool)
    ensures
        yes == may_read(origin@),
{
    let origin = origin.to_owned();
    origin == "tauri://localhost".to_owned() || origin == "http://tauri.localhost".to_owned()
}

/// The fixed paths are served whatever files there are.
pub proof fn law_fixed_paths_first(has_web_dir: bool)
    ensures
        served("/healthz"@, has_web_dir) == Served::Health,
        served("/api/status"@, has_web_dir) == Served::Status,
{
    reveal_strlit("/healthz");
    reveal_strlit("/api/status");
    assert("/healthz"@.len() != "/api/status"@.len());
}

/// Apart from the two fixed paths, a path is a file where there is a directory of
/// them, and nothing otherwise.
pub proof fn law_other_paths_are_files(path: Seq<char>, has_web_dir: bool)
    requires
        path != "/healthz"@,
        path != "/api/status"@,
    ensures
        has_web_dir ==> served(path, has_web_dir) == Served::File,
        !has_web_dir ==> served(path, has_web_dir) == Served::NotFound,
{
}

/// Pages of the desktop shell may read the answers, and pages of no other origin.
pub proof fn law_only_the_shell_may_read(origin: Seq<char>)
    ensures
        may_read(origin) <==> origin == "tauri://localhost"@ || origin
            == "http://tauri.localhost"@,
{
}

} // verus!
