//! What the user's processes work on.
use crate::evidence::text_view;
use crate::paths::{is_under, path_bytes, under, FsPath};
use vstd::prelude::*;

verus! {

/// How old a snapshot may be before a measurement that a mutation waits for. The
/// last look always captures a fresh one.
pub const ACTIVITY_MAX_AGE_MS: u64 = 1_000;

/// How old a snapshot may be during a scan. Suggestions are only ranked then;
/// every item is looked at again before any mutation.
pub const SCAN_ACTIVITY_MAX_AGE_MS: u64 = 5_000;

/// Where the user's processes run, and from which files.
pub struct ActivitySnapshot {
    pub working_directories: Vec<FsPath>,
    pub executable_paths: Vec<FsPath>,
    pub running_app_bundle_ids: Vec<String>,
}

/// Whether one of some paths lies in a project.
pub open spec fn touches(paths: Seq<FsPath>, project: Seq<u8>) -> bool {
    exists|i: int| 0 <= i < paths.len() && under(#[trigger] paths[i]@, project)
}

fn touched(paths: &Vec<FsPath>, project: &FsPath) -> (r: bool)
    ensures
        r == touches(paths@, project@),
{
    let mut i: usize = 0;
    while i < paths.len()
        invariant
            i <= paths.len(),
            forall|j: int| 0 <= j < i ==> !under(#[trigger] paths@[j]@, project@),
        decreases paths.len() - i,
    {
        if is_under(path_bytes(&paths[i]), path_bytes(project)) {
            return true;
        }
        i = i + 1;
    }
    false
}

/// What is said of a project in use.
pub open spec fn in_use_reason() -> Seq<char> {
    "A running process is using this project; close it and scan again"@
}

/// Why a project cannot be touched now, if it cannot.
pub open spec fn in_use(snapshot: ActivitySnapshot, project: Seq<u8>) -> Option<Seq<char>> {
    if touches(snapshot.working_directories@, project) || touches(
        snapshot.executable_paths@,
        project,
    ) {
        Some(in_use_reason())
    } else {
        None
    }
}

impl ActivitySnapshot {
    /// Why a project cannot be touched now: a process runs in it, or from it.
    pub fn blocked(&self, project: &FsPath) -> (r: Option<String>)
        ensures
            text_view(r) == in_use(*self, project@),
    {
        if touched(&self.working_directories, project) || touched(&self.executable_paths, project) {
            Some("A running process is using this project; close it and scan again".to_owned())
        } else {
            None
        }
    }
}

/// What a snapshot says of a project. Where none could be captured, that stands
/// against the project.
pub fn activity_reason(captured: &Result<ActivitySnapshot, String>, project: &FsPath) -> (r: Option<
    String,
>)
    ensures
        text_view(r) == match *captured {
            Ok(snapshot) => in_use(snapshot, project@),
            Err(reason) => Some(reason@),
        },
{
    match captured {
        Ok(snapshot) => snapshot.blocked(project),
        Err(reason) => Some(reason.clone()),
    }
}

/// Whether a snapshot of some age may be used again.
pub fn may_reuse(age_ms: u64, max_age_ms: u64) -> (r: bool)
    ensures
        r == (age_ms <= max_age_ms),
{
    age_ms <= max_age_ms
}

/// A process in a project also stands against everything around that project.
pub proof fn activity_reaches_upward(snapshot: ActivitySnapshot, inner: Seq<u8>, outer: Seq<u8>)
    requires
        under(inner, outer),
        in_use(snapshot, inner) is Some,
    ensures
        in_use(snapshot, outer) is Some,
{
    if touches(snapshot.working_directories@, inner) {
        let i = choose|i: int|
            0 <= i < snapshot.working_directories@.len() && under(
                #[trigger] snapshot.working_directories@[i]@,
                inner,
            );
        crate::paths::under_transitive(snapshot.working_directories@[i]@, inner, outer);
        assert(touches(snapshot.working_directories@, outer));
    } else {
        let i = choose|i: int|
            0 <= i < snapshot.executable_paths@.len() && under(
                #[trigger] snapshot.executable_paths@[i]@,
                inner,
            );
        crate::paths::under_transitive(snapshot.executable_paths@[i]@, inner, outer);
        assert(touches(snapshot.executable_paths@, outer));
    }
}

} // verus!
