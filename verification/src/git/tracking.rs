//! Whether a repository tracks something inside an artifact: finding the
//! repository, asking the question, and reading the answer.
use crate::probe::{Ask, Got, Step};
use crate::model::Root;
use crate::paths::{
    fs_path, is_under, join_text, named, parent, parent_of, path_bytes, relative_to, share,
    strip_base, under, FsPath,
};
use crate::text::{fail, failed, same_bytes};
use vstd::prelude::*;
use vstd::slice::slice_to_vec;
use vstd::utf8::encode_utf8;

verus! {

/// Whether a marker was looked for, and whether it was there.
pub struct MarkerFact {
    pub marker: FsPath,
    pub exists: Result<bool, String>,
}

/// Whether the fact at `i` is the first one of a marker.
pub open spec fn marker_at(facts: Seq<MarkerFact>, marker: Seq<u8>, i: int) -> bool {
    &&& 0 <= i < facts.len()
    &&& facts[i].marker@ == marker
    &&& forall|j: int| 0 <= j < i ==> (#[trigger] facts[j]).marker@ != marker
}

/// Whether a marker was looked for.
pub open spec fn marker_known(facts: Seq<MarkerFact>, marker: Seq<u8>) -> bool {
    exists|i: int| #[trigger] marker_at(facts, marker, i)
}

/// What was found of a marker.
pub open spec fn marker_fact(facts: Seq<MarkerFact>, marker: Seq<u8>) -> Result<bool, String> {
    facts[choose|i: int| #[trigger] marker_at(facts, marker, i)].exists
}

/// The work tree that a folder belongs to: the closest folder, going up, with a
/// repository's marker. One outside the authorized location cannot be used.
pub open spec fn repository_step(root: Root, folder: Seq<u8>, facts: Seq<MarkerFact>) -> Got<
    Option<Seq<u8>>,
>
    decreases folder.len(),
{
    let marker = named(folder, ".git"@);
    if !marker_known(facts, marker) {
        Got::Need(marker, Ask::Presence)
    } else {
        match marker_fact(facts, marker) {
            Err(reason) => Got::Fail(reason@),
            Ok(true) => if under(folder, root.path@) {
                Got::Have(Some(folder))
            } else {
                Got::Fail("Repository ownership lies outside this folder's authorization"@)
            },
            Ok(false) => match parent_of(folder) {
                Some(above) if above.len() < folder.len() => repository_step(root, above, facts),
                _ => Got::Have(None),
            },
        }
    }
}

fn find_marker(facts: &Vec<MarkerFact>, marker: &[u8]) -> (r: Option<usize>)
    ensures
        match r {
            Some(i) => marker_known(facts@, marker@) && i < facts@.len() && facts@[i as int].exists
                == marker_fact(facts@, marker@),
            None => !marker_known(facts@, marker@),
        },
{
    let mut i: usize = 0;
    while i < facts.len()
        invariant
            i <= facts.len(),
            forall|j: int| 0 <= j < i ==> (#[trigger] facts@[j]).marker@ != marker@,
        decreases facts.len() - i,
    {
        if same_bytes(path_bytes(&facts[i].marker), marker) {
            proof {
                assert(marker_at(facts@, marker@, i as int));
                let c = choose|c: int| #[trigger] marker_at(facts@, marker@, c);
                if c < i {
                    assert(facts@[c].marker@ != marker@);
                } else if i < c {
                    assert(facts@[i as int].marker@ != marker@);
                }
            }
            return Some(i);
        }
        i = i + 1;
    }
    None
}

/// Finds the work tree that a project belongs to. Where nobody has looked for a
/// marker yet, it is asked for.
pub fn find_repository(root: &Root, project: &FsPath, facts: &Vec<MarkerFact>, cancel: bool) -> (r:
    Step<Option<FsPath>>)
    ensures
        if cancel {
            r matches Step::Fail(text) && text@ == "Cancelled"@
        } else {
            match repository_step(*root, project@, facts@) {
                Got::Need(at, content) => r matches Step::Need(p, c) && p@ == at && c == content,
                Got::Fail(reason) => r matches Step::Fail(text) && text@ == reason,
                Got::Have(None) => r matches Step::Have(found) && found is None,
                Got::Have(Some(tree)) => r matches Step::Have(Some(found)) && found@ == tree,
            }
        },
{
    if cancel {
        return Step::Fail("Cancelled".to_owned());
    }
    let mut folder: FsPath = share(project);
    loop
        invariant
            !cancel,
            repository_step(*root, project@, facts@) == repository_step(*root, folder@, facts@),
        decreases folder@.len(),
    {
        let marker: FsPath = join_text(&folder, ".git");
        match find_marker(facts, path_bytes(&marker)) {
            None => {
                return Step::Need(marker, Ask::Presence);
            },
            Some(at) => match &facts[at].exists {
                Err(reason) => {
                    return Step::Fail(reason.clone());
                },
                Ok(there) => {
                    if *there {
                        if is_under(path_bytes(&folder), path_bytes(&root.path)) {
                            return Step::Have(Some(folder));
                        }
                        return Step::Fail(
                            "Repository ownership lies outside this folder's authorization".to_owned(),
                        );
                    }
                },
            },
        }
        let above: FsPath = match parent(path_bytes(&folder)) {
            Some(above) => {
                if above.len() >= folder.len() {
                    return Step::Have(None);
                }
                fs_path(slice_to_vec(above))
            },
            None => {
                return Step::Have(None);
            },
        };
        folder = above;
    }
}

/// What is asked of a repository: the tracked names at or below a path. Index
/// spelling can survive a rename that changes capitals only, so it is matched
/// without regard to them, while wildcard characters stay literal.
pub open spec fn pathspec(tree: Seq<u8>, artifact: Seq<u8>) -> Seq<u8> {
    encode_utf8(":(literal,icase)"@) + relative_to(artifact, tree)
}

/// Builds the question for the tracked names inside an artifact.
pub fn git_pathspec(tree: &FsPath, artifact: &FsPath) -> (r: Result<Vec<u8>, String>)
    ensures
        if under(artifact@, tree@) {
            r matches Ok(spec_bytes) && spec_bytes@ == pathspec(tree@, artifact@)
        } else {
            failed(r, "Artifact is outside its repository"@)
        },
{
    if !is_under(path_bytes(artifact), path_bytes(tree)) {
        return fail("Artifact is outside its repository");
    }
    let mut out: Vec<u8> = slice_to_vec(":(literal,icase)".as_bytes());
    let mut rest: Vec<u8> = slice_to_vec(strip_base(path_bytes(artifact), path_bytes(tree)));
    out.append(&mut rest);
    assert(out@ =~= pathspec(tree@, artifact@));
    Ok(out)
}

/// What reading the answer gave.
#[derive(Clone, Copy, PartialEq, Eq, Structural, Debug)]
pub enum ReadEvent {
    Bytes,
    End,
    WouldBlock,
    Failed,
}

/// How the process that answers stands.
#[derive(Clone, Copy, PartialEq, Eq, Structural, Debug)]
pub enum ChildEvent {
    Running,
    Succeeded,
    Unsuccessful,
    Failed,
}

/// One look at the answer: what was read, how the process stands, what is left to
/// read after it ended, and whether the time is over.
#[derive(Clone, Copy, PartialEq, Eq, Structural, Debug)]
pub struct Round {
    pub cancel: bool,
    pub read: ReadEvent,
    pub child: ChildEvent,
    pub rest: ReadEvent,
    pub expired: bool,
}

/// What one look at the answer means: nothing is tracked, it cannot be said, or
/// it is to be looked at again, after output or the process's end.
pub enum Answer {
    Untracked,
    Refused(String),
    Again { output_pending: bool },
}

/// The reason that one look gives, if it decides against the artifact.
pub open spec fn refusal(round: Round) -> Option<Seq<char>> {
    if round.cancel {
        Some("Cancelled"@)
    } else if round.read is Bytes {
        Some("Git tracks content inside this artifact; cleanup is excluded"@)
    } else if round.read is Failed {
        Some("Git tracking output could not be verified"@)
    } else {
        match round.child {
            ChildEvent::Unsuccessful => Some(
                "Git tracking check failed; the artifact is excluded"@,
            ),
            ChildEvent::Succeeded => match round.rest {
                ReadEvent::End => None,
                ReadEvent::Bytes => Some(
                    "Git tracks content inside this artifact; cleanup is excluded"@,
                ),
                _ => Some("Git tracking output was incomplete"@),
            },
            ChildEvent::Failed => Some("Git tracking process could not be inspected"@),
            ChildEvent::Running => if round.expired {
                Some("Git tracking timed out; the artifact is excluded"@)
            } else {
                None
            },
        }
    }
}

/// Decides what one look at the answer means. Every uncertainty decides against
/// the artifact.
pub fn read_answer(round: Round) -> (r: Answer)
    ensures
        match refusal(round) {
            Some(reason) => r matches Answer::Refused(text) && text@ == reason,
            None => if round.child is Succeeded {
                r is Untracked
            } else {
                r == (Answer::Again { output_pending: round.read is WouldBlock })
            },
        },
{
    if round.cancel {
        return Answer::Refused("Cancelled".to_owned());
    }
    match round.read {
        ReadEvent::Bytes => {
            return Answer::Refused(
                "Git tracks content inside this artifact; cleanup is excluded".to_owned(),
            );
        },
        ReadEvent::Failed => {
            return Answer::Refused("Git tracking output could not be verified".to_owned());
        },
        _ => {},
    }
    match round.child {
        ChildEvent::Unsuccessful => Answer::Refused(
            "Git tracking check failed; the artifact is excluded".to_owned(),
        ),
        ChildEvent::Succeeded => match round.rest {
            ReadEvent::End => Answer::Untracked,
            ReadEvent::Bytes => Answer::Refused(
                "Git tracks content inside this artifact; cleanup is excluded".to_owned(),
            ),
            _ => Answer::Refused("Git tracking output was incomplete".to_owned()),
        },
        ChildEvent::Failed => Answer::Refused(
            "Git tracking process could not be inspected".to_owned(),
        ),
        ChildEvent::Running => {
            if round.expired {
                return Answer::Refused(
                    "Git tracking timed out; the artifact is excluded".to_owned(),
                );
            }
            Answer::Again {
                output_pending: match round.read {
                    ReadEvent::WouldBlock => true,
                    _ => false,
                },
            }
        },
    }
}

/// How long one wait for output takes at most, in nanoseconds.
pub const GIT_OUTPUT_WAIT_NS: u64 = 15_000_000;

pub const POLLIN: i16 = 0x0001;

pub const POLLHUP: i16 = 0x0010;

/// What polling for output gives: how many descriptors are ready, with which
/// events, and after how many nanoseconds.
pub type Polled = (i32, i16, u64);

/// Whether polling ended in readiness, or quietly when its time was over.
pub open spec fn poll_settled(count: i32, events: i16) -> bool {
    (count == 0 && events == 0) || (count == 1 && events & (POLLIN | POLLHUP) != 0 && events & !(
    POLLIN | POLLHUP) == 0)
}

/// How long to wait after polling.
pub open spec fn wait_after(polled: Polled) -> int {
    if poll_settled(polled.0, polled.1) || polled.2 > GIT_OUTPUT_WAIT_NS {
        0
    } else {
        GIT_OUTPUT_WAIT_NS - polled.2
    }
}

/// Polling is only a scheduling hint; reading and the child's status remain
/// authoritative. A failed, interrupted or unexpected poll falls back to the
/// unspent portion of the wait, without introducing a new error.
pub fn git_output_wait_duration<F: FnOnce() -> Polled>(stdout_pending: bool, poll: F) -> (r: u64)
    requires
        stdout_pending ==> call_requires(poll, ()),
    ensures
        if stdout_pending {
            exists|polled: Polled| #[trigger] call_ensures(poll, (), polled) && r == wait_after(
                polled,
            )
        } else {
            r == GIT_OUTPUT_WAIT_NS
        },
{
    if !stdout_pending {
        // The output's end can precede the child's. Polling that hung-up
        // descriptor again would return at once while the child still runs.
        return GIT_OUTPUT_WAIT_NS;
    }
    let polled: Polled = poll();
    let (count, events, elapsed_ns) = polled;
    let readable: i16 = POLLIN | POLLHUP;
    if (count == 0 && events == 0) || (count == 1 && events & readable != 0 && events & !readable
        == 0) {
        0
    } else {
        // Repeated poll failures must not create a spin loop.
        GIT_OUTPUT_WAIT_NS.saturating_sub(elapsed_ns)
    }
}

/// Only a process that succeeded and said nothing up to its end proves that
/// nothing is tracked.
pub proof fn only_silence_proves_untracked(round: Round)
    requires
        refusal(round) is None,
        round.child is Succeeded,
    ensures
        !round.cancel,
        round.rest is End,
        round.read is End || round.read is WouldBlock,
{
}

} // verus!
